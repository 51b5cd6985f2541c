//! Drawing decisions: the text and colour of each key, the size of the
//! drawn strip, and a pool of two shared-memory buffers that are handed to
//! the compositor in turn.

use vstd::prelude::*;
use crate::config::{ColorOverride, ModOverride};
use crate::input::{Keypress, is_special_key, shown_text};

verus! {

/// The red, green, blue and alpha bytes of a colour `0xRRGGBBAA`.
pub fn color_channels(color: u32) -> (r: (u8, u8, u8, u8))
    ensures
        r.0 == color / 0x1000000,
        r.1 == (color / 0x10000) % 0x100,
        r.2 == (color / 0x100) % 0x100,
        r.3 == color % 0x100,
{
    let red = (color >> 24u32) & 0xFFu32;
    let green = (color >> 16u32) & 0xFFu32;
    let blue = (color >> 8u32) & 0xFFu32;
    let alpha = color & 0xFFu32;
    assert(red == color / 0x1000000 && green == (color / 0x10000) % 0x100 && blue == (color
        / 0x100) % 0x100 && alpha == color % 0x100) by (bit_vector)
        requires
            red == (color >> 24u32) & 0xFFu32,
            green == (color >> 16u32) & 0xFFu32,
            blue == (color >> 8u32) & 0xFFu32,
            alpha == color & 0xFFu32,
    ;
    (red as u8, green as u8, blue as u8, alpha as u8)
}

/// The colour a key is drawn in: its own colour if it has one, the plain
/// foreground if it asks for that, and otherwise the special foreground for
/// modifier-like keys and the foreground for the rest.
pub open spec fn key_color(
    color: ColorOverride,
    special: bool,
    foreground: u32,
    specialfg: u32,
) -> u32 {
    match color {
        ColorOverride::Custom(c) => c,
        ColorOverride::Plain => foreground,
        ColorOverride::Default => if special {
            specialfg
        } else {
            foreground
        },
    }
}

/// The text drawn for a key: its display text, followed by `+` when it is
/// drawn as a modifier.
pub open spec fn key_label(name: Seq<char>, utf8: Seq<char>, modifier: ModOverride) -> Seq<char> {
    if is_special_key(utf8, modifier) {
        shown_text(name, utf8) + seq!['+']
    } else {
        shown_text(name, utf8)
    }
}

impl Keypress {
    /// The text drawn for this key.
    pub fn label(&self) -> (r: String)
        ensures
            r@ == key_label(self.name@, self.utf8@, self.modifier),
    {
        let special = self.is_special();
        let mut text = self.display_text().to_owned();
        if special {
            text.append("+");
            proof {
                reveal_strlit("+");
            }
        }
        text
    }

    /// The colour this key is drawn in.
    pub fn draw_color(&self, foreground: u32, specialfg: u32) -> (r: u32)
        ensures
            r == key_color(
                self.color,
                is_special_key(self.utf8@, self.modifier),
                foreground,
                specialfg,
            ),
    {
        match self.color {
            ColorOverride::Custom(c) => c,
            ColorOverride::Plain => foreground,
            ColorOverride::Default => {
                if self.is_special() {
                    specialfg
                } else {
                    foreground
                }
            },
        }
    }
}

/// A key with a colour of its own is drawn in that colour, whether it is
/// drawn as a modifier or not, whatever the foreground colours are; a key
/// that asks for the plain foreground gets it in either case too.
pub proof fn lemma_own_color_always_used(c: u32, special: bool, foreground: u32, specialfg: u32)
    ensures
        key_color(ColorOverride::Custom(c), special, foreground, specialfg) == c,
        key_color(ColorOverride::Plain, special, foreground, specialfg) == foreground,
{
}

/// The width of a strip of keys laid side by side, each `(w, h)` pixels
/// (`w` taken as `u32`, as the drawing code does).
pub open spec fn strip_width(sizes: Seq<(i32, i32)>) -> int
    decreases sizes.len(),
{
    if sizes.len() == 0 {
        0
    } else {
        strip_width(sizes.drop_last()) + (sizes.last().0 as u32)
    }
}

/// The height of a strip of keys: that of its tallest key (`h` taken as
/// `u32`), or 0 for no keys.
pub open spec fn strip_height(sizes: Seq<(i32, i32)>) -> u32
    decreases sizes.len(),
{
    if sizes.len() == 0 {
        0
    } else {
        let m = strip_height(sizes.drop_last());
        if (sizes.last().1 as u32) > m {
            sizes.last().1 as u32
        } else {
            m
        }
    }
}

proof fn lemma_strip_width_mono(s: Seq<(i32, i32)>, i: int, j: int)
    requires
        0 <= i <= j <= s.len(),
    ensures
        strip_width(s.take(i)) <= strip_width(s.take(j)),
    decreases j,
{
    if i < j {
        assert(s.take(j).drop_last() =~= s.take(j - 1));
        lemma_strip_width_mono(s, i, j - 1);
    }
}

/// Whether the strip's width fits in a `u32`; wider strips are refused by
/// the drawing code.
pub fn strip_fits(sizes: &Vec<(i32, i32)>) -> (b: bool)
    ensures
        b == (strip_width(sizes@) <= u32::MAX),
{
    let n = sizes.len();
    let mut total: u32 = 0;
    let mut i: usize = 0;
    while i < n
        invariant
            n == sizes@.len(),
            i <= n,
            total == strip_width(sizes@.take(i as int)),
        decreases n - i,
    {
        proof {
            assert(sizes@.take(i + 1).drop_last() =~= sizes@.take(i as int));
        }
        let w = sizes[i].0 as u32;
        if w > u32::MAX - total {
            proof {
                lemma_strip_width_mono(sizes@, i + 1, n as int);
                assert(sizes@.take(n as int) =~= sizes@);
            }
            return false;
        }
        total = total + w;
        i = i + 1;
    }
    proof {
        assert(sizes@.take(n as int) =~= sizes@);
    }
    true
}

/// The pixel size of a strip of keys of the given sizes laid side by side:
/// the widths add up, the height is the tallest key's.
pub fn strip_extent(sizes: &Vec<(i32, i32)>) -> (r: (u32, u32))
    requires
        strip_width(sizes@) <= u32::MAX,
    ensures
        r.0 == strip_width(sizes@),
        r.1 == strip_height(sizes@),
{
    let n = sizes.len();
    let mut total_w: u32 = 0;
    let mut max_h: u32 = 0;
    let mut i: usize = 0;
    while i < n
        invariant
            n == sizes@.len(),
            i <= n,
            total_w == strip_width(sizes@.take(i as int)),
            max_h == strip_height(sizes@.take(i as int)),
            strip_width(sizes@) <= u32::MAX,
        decreases n - i,
    {
        proof {
            assert(sizes@.take(i + 1).drop_last() =~= sizes@.take(i as int));
            lemma_strip_width_mono(sizes@, i + 1, n as int);
            assert(sizes@.take(n as int) =~= sizes@);
        }
        let (w, h) = sizes[i];
        let w = w as u32;
        let h = h as u32;
        total_w = total_w + w;
        if h > max_h {
            max_h = h;
        }
        i = i + 1;
    }
    proof {
        assert(sizes@.take(n as int) =~= sizes@);
    }
    (total_w, max_h)
}

/// The stride and byte size of a `width` by `height` ARGB8888 buffer.
pub fn buffer_layout(width: u32, height: u32) -> (r: (u32, usize))
    requires
        width * 4 <= u32::MAX,
        width * 4 * height <= u32::MAX,
    ensures
        r.0 == width * 4,
        r.1 == width * 4 * height,
{
    let stride = width * 4;
    assert(stride * height <= u32::MAX);
    let size = stride * height;
    (stride, size as usize)
}

// ---------------------------------------------------------------- the pool

/// A buffer of the pool with what the pool knows of it: an identity to find
/// it by when the compositor releases it, its size, and whether the
/// compositor still holds it.
pub struct PoolSlot<B> {
    pub buffer: B,
    pub id: u32,
    pub width: u32,
    pub height: u32,
    pub busy: bool,
}

/// A slot may be handed out when it is empty or its buffer is not busy.
pub open spec fn slot_free<B>(s: Option<PoolSlot<B>>) -> bool {
    s is None || !s->0.busy
}

/// The slot `get_buffer` chooses: the first free one, if any.
pub open spec fn pick_slot<B>(slots: Seq<Option<PoolSlot<B>>>) -> Option<int> {
    if slot_free(slots[0]) {
        Some(0)
    } else if slot_free(slots[1]) {
        Some(1)
    } else {
        None
    }
}

/// Whether the buffer in a slot must be made anew for a `width` by `height`
/// frame: there is none, or it has another size.
pub open spec fn must_recreate<B>(s: Option<PoolSlot<B>>, width: u32, height: u32) -> bool {
    s is None || s->0.width != width || s->0.height != height
}

/// The outcome of asking the pool for a buffer.
pub enum Acquire {
    /// The buffer in this slot has the right size and is now marked busy.
    Reuse(usize),
    /// This slot is now empty; a buffer of the right size must be made and
    /// installed there.
    Create(usize),
}

/// The slot that the first slot with buffer identity `id` is, if any.
pub open spec fn slot_with_id<B>(slots: Seq<Option<PoolSlot<B>>>, id: u32) -> Option<int> {
    if slots[0] is Some && slots[0]->0.id == id {
        Some(0)
    } else if slots[1] is Some && slots[1]->0.id == id {
        Some(1)
    } else {
        None
    }
}

/// Two slots, whose buffers (when both are there) have different identities.
pub open spec fn slots_wf<B>(slots: Seq<Option<PoolSlot<B>>>) -> bool {
    &&& slots.len() == 2
    &&& (slots[0] is Some && slots[1] is Some) ==> slots[0]->0.id != slots[1]->0.id
}

/// Manages a double-buffered SHM pool for rendering frames.
pub struct BufferPool<B> {
    buffers: Vec<Option<PoolSlot<B>>>,
}

/// Two empty slots.
fn empty_slots<B>() -> (v: Vec<Option<PoolSlot<B>>>)
    ensures
        v@.len() == 2,
        v@[0] is None,
        v@[1] is None,
{
    let mut v = Vec::new();
    v.push(None);
    v.push(None);
    v
}

impl<B> BufferPool<B> {
    /// The slots are always well formed.
    #[verifier::type_invariant]
    spec fn inv(self) -> bool {
        slots_wf(self.buffers@)
    }

    /// The pool has its two slots, and they hold different buffers. Every
    /// operation of the pool keeps this, and states so.
    pub open spec fn wf(&self) -> bool {
        slots_wf(self.slots())
    }

    /// The two slots.
    pub closed spec fn slots(&self) -> Seq<Option<PoolSlot<B>>> {
        self.buffers@
    }

    /// Two empty slots.
    pub fn new() -> (p: Self)
        ensures
            p.wf(),
            p.slots()[0] is None,
            p.slots()[1] is None,
    {
        BufferPool { buffers: empty_slots() }
    }

    fn free_at(&self, i: usize) -> (r: bool)
        requires
            i < 2,
        ensures
            r == slot_free(self.slots()[i as int]),
    {
        proof {
            use_type_invariant(self);
        }
        match &self.buffers[i] {
            Some(s) => !s.busy,
            None => true,
        }
    }

    /// Chooses a non-busy slot for a `width` by `height` frame. A slot whose
    /// buffer has that size is marked busy and reused; otherwise the slot is
    /// emptied for a new buffer. `None` when both buffers are busy.
    pub fn get_buffer(&mut self, width: u32, height: u32) -> (r: Option<Acquire>)
        ensures
            old(self).wf(),
            final(self).wf(),
            match pick_slot(old(self).slots()) {
                None => r is None && final(self).slots() == old(self).slots(),
                Some(i) => {
                    let before = old(self).slots()[i];
                    let after = final(self).slots()[i];
                    &&& final(self).slots()[1 - i] == old(self).slots()[1 - i]
                    &&& if must_recreate(before, width, height) {
                        r == Some(Acquire::Create(i as usize)) && after is None
                    } else {
                        &&& r == Some(Acquire::Reuse(i as usize))
                        &&& after == Some(PoolSlot { busy: true, ..before->0 })
                    }
                },
            },
    {
        proof {
            use_type_invariant(&*self);
        }
        let idx: usize = if self.free_at(0) {
            0
        } else if self.free_at(1) {
            1
        } else {
            return None;
        };
        let recreate = match &self.buffers[idx] {
            Some(s) => s.width != width || s.height != height,
            None => true,
        };
        let mut bufs = empty_slots();
        std::mem::swap(&mut bufs, &mut self.buffers);
        let ghost before = bufs@;
        if recreate {
            bufs.set(idx, None);
            proof {
                assert(bufs@ =~= before.update(idx as int, None));
            }
            self.buffers = bufs;
            Some(Acquire::Create(idx))
        } else {
            let slot = bufs.remove(idx);
            match slot {
                Some(s) => {
                    bufs.insert(idx, Some(PoolSlot { busy: true, ..s }));
                },
                None => {
                    bufs.insert(idx, None);
                },
            }
            proof {
                assert(bufs@ =~= before.update(idx as int, bufs@[idx as int]));
            }
            self.buffers = bufs;
            Some(Acquire::Reuse(idx))
        }
    }

    /// Puts a newly made buffer of `width` by `height` into slot `idx`,
    /// marked busy. Its identity differs from that of the buffer in the
    /// other slot.
    pub fn install(&mut self, idx: usize, buffer: B, id: u32, width: u32, height: u32)
        requires
            idx < 2,
            old(self).slots()[1 - idx] is Some ==> old(self).slots()[1 - idx]->0.id != id,
        ensures
            old(self).wf(),
            final(self).wf(),
            final(self).slots() == old(self).slots().update(
                idx as int,
                Some(PoolSlot { buffer, id, width, height, busy: true }),
            ),
    {
        proof {
            use_type_invariant(&*self);
        }
        let mut bufs = empty_slots();
        std::mem::swap(&mut bufs, &mut self.buffers);
        bufs.set(idx, Some(PoolSlot { buffer, id, width, height, busy: true }));
        self.buffers = bufs;
    }

    /// The buffer in slot `idx`, if there is one.
    pub fn buffer(&self, idx: usize) -> (r: Option<&B>)
        requires
            idx < 2,
        ensures
            self.wf(),
            r is Some <==> self.slots()[idx as int] is Some,
            r matches Some(b) ==> *b == self.slots()[idx as int]->0.buffer,
    {
        proof {
            use_type_invariant(self);
        }
        match &self.buffers[idx] {
            Some(s) => Some(&s.buffer),
            None => None,
        }
    }

    /// The compositor gave back the buffer with identity `id`: the first slot
    /// holding it is no longer busy.
    pub fn release(&mut self, id: u32)
        ensures
            old(self).wf(),
            final(self).wf(),
            match slot_with_id(old(self).slots(), id) {
                None => final(self).slots() == old(self).slots(),
                Some(i) => final(self).slots() == old(self).slots().update(
                    i,
                    Some(PoolSlot { busy: false, ..old(self).slots()[i]->0 }),
                ),
            },
    {
        proof {
            use_type_invariant(&*self);
        }
        let hit0 = match &self.buffers[0] {
            Some(s) => s.id == id,
            None => false,
        };
        let hit1 = match &self.buffers[1] {
            Some(s) => s.id == id,
            None => false,
        };
        let i: usize = if hit0 {
            0
        } else if hit1 {
            1
        } else {
            return;
        };
        let mut bufs = empty_slots();
        std::mem::swap(&mut bufs, &mut self.buffers);
        let ghost before = bufs@;
        let slot = bufs.remove(i);
        match slot {
            Some(s) => {
                bufs.insert(i, Some(PoolSlot { busy: false, ..s }));
            },
            None => {
                bufs.insert(i, None);
            },
        }
        proof {
            assert(bufs@ =~= before.update(i as int, bufs@[i as int]));
        }
        self.buffers = bufs;
    }
}

// ---------------------------------------------------------------- laws

/// A buffer the compositor still holds is never handed out.
pub proof fn lemma_busy_buffer_never_picked<B>(slots: Seq<Option<PoolSlot<B>>>, i: int)
    requires
        0 <= i < 2,
        slots[i] is Some,
        slots[i]->0.busy,
    ensures
        pick_slot(slots) != Some(i),
{
}

/// Releasing the identity of a buffer in the pool finds exactly the slot
/// that holds it.
pub proof fn lemma_release_finds_its_slot<B>(slots: Seq<Option<PoolSlot<B>>>, i: int)
    requires
        slots_wf(slots),
        0 <= i < 2,
        slots[i] is Some,
    ensures
        slot_with_id(slots, slots[i]->0.id) == Some(i),
{
}

/// The pool refuses a buffer only when both its buffers are busy.
pub proof fn lemma_refuses_only_when_both_busy<B>(slots: Seq<Option<PoolSlot<B>>>)
    ensures
        pick_slot(slots) is None <==> (!slot_free(slots[0]) && !slot_free(slots[1])),
{
}

/// A buffer the compositor has released may be handed out again.
pub proof fn lemma_released_buffer_is_free<B>(slots: Seq<Option<PoolSlot<B>>>, id: u32)
    requires
        slots.len() == 2,
        slot_with_id(slots, id) is Some,
    ensures
        ({
            let i = slot_with_id(slots, id)->0;
            slot_free(slots.update(i, Some(PoolSlot { busy: false, ..slots[i]->0 }))[i])
        }),
{
}

} // verus!
