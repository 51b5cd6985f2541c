//! The state of the overlay surface: its configured size, the outputs it
//! may be shown on, and frame pacing, which keeps at most one frame in
//! flight and defers redraws until the compositor asks for the next one.

use vstd::prelude::*;
use crate::render::{BufferPool, PoolSlot, must_recreate, pick_slot, slot_free, slots_wf};

verus! {

/// Surface lifecycle: prevents buffer attachment before configure.
#[derive(Debug, Clone, Copy, PartialEq, Eq, Structural)]
pub enum SurfaceGeometry {
    Unconfigured,
    Configured { width: u32, height: u32 },
}

/// Frame pacing state: prevents flooding the compositor.
#[derive(Debug, Clone, Copy, PartialEq, Eq, Structural)]
pub enum FrameState {
    Idle,
    Pending { dirty: bool },
}

/// An output the surface may appear on: its protocol identity, its scale
/// factor and its subpixel layout (the `wl_output` enum value).
#[derive(Debug, Clone, Copy)]
pub struct Output {
    pub id: u32,
    pub scale: i32,
    pub subpixel: u32,
}

/// What the next frame needs from the surface.
#[derive(Debug, Clone, Copy, PartialEq, Eq, Structural)]
pub enum FramePlan {
    /// Nothing is drawn now.
    Nothing,
    /// There is nothing to show: detach the buffer and commit.
    Unmap,
    /// Ask for this logical size and commit; drawing waits for the configure.
    Resize { width: u32, height: u32 },
    /// Draw a `width` by `height` pixel buffer at this scale, attach it,
    /// request a frame callback and commit.
    Draw { scale: i32, width: u32, height: u32 },
}

/// Frame pacing, as a pair of the frame state and whether a redraw is due.
pub type Pacing = (FrameState, bool);

/// Marking the surface dirty: while a frame is in flight the redraw is
/// remembered in the frame state; otherwise it is due at once.
pub open spec fn mark_dirty(p: Pacing) -> Pacing {
    match p.0 {
        FrameState::Pending { .. } => (FrameState::Pending { dirty: true }, p.1),
        FrameState::Idle => (FrameState::Idle, true),
    }
}

/// The compositor's frame callback: no frame is in flight any more, and a
/// redraw remembered meanwhile becomes due.
pub open spec fn frame_done(p: Pacing) -> Pacing {
    (FrameState::Idle, p.1 || p.0 == FrameState::Pending { dirty: true })
}

/// A frame was attached and committed with a frame callback.
pub open spec fn frame_sent(p: Pacing) -> Pacing {
    (FrameState::Pending { dirty: false }, p.1)
}

/// A render cycle began: the due redraw is taken.
pub open spec fn render_begun(p: Pacing) -> Pacing {
    (p.0, false)
}

/// A redraw is never due while a frame is in flight.
pub open spec fn pacing_inv(p: Pacing) -> bool {
    p.1 ==> p.0 == FrameState::Idle
}

/// The scale of the output the surface is on, or 1 when that is unknown.
pub open spec fn scale_of(outputs: Seq<Output>, current: Option<usize>) -> i32 {
    match current {
        Some(i) => if i < outputs.len() {
            outputs[i as int].scale
        } else {
            1
        },
        None => 1,
    }
}

/// The position of the first output with identity `id`, or `outputs.len()`.
pub open spec fn output_index(outputs: Seq<Output>, id: u32) -> int
    decreases outputs.len(),
{
    if outputs.len() == 0 {
        0
    } else if outputs[0].id == id {
        0
    } else {
        1 + output_index(outputs.drop_first(), id)
    }
}

proof fn lemma_output_index_at(outputs: Seq<Output>, id: u32, i: int)
    requires
        0 <= i <= outputs.len(),
        forall|k: int| 0 <= k < i ==> (#[trigger] outputs[k]).id != id,
        i == outputs.len() || outputs[i].id == id,
    ensures
        output_index(outputs, id) == i,
    decreases i,
{
    if i > 0 {
        let t = outputs.drop_first();
        assert forall|k: int| 0 <= k < i - 1 implies (#[trigger] t[k]).id != id by {
            assert(t[k] == outputs[k + 1]);
        }
        lemma_output_index_at(t, id, i - 1);
    }
}

/// A logical size: the pixel size divided by a positive scale.
pub open spec fn logical(pixels: u32, scale: i32) -> u32 {
    if scale > 0 {
        (pixels / (scale as u32)) as u32
    } else {
        pixels
    }
}

/// The plan for a render cycle of `pixel_w` by `pixel_h` pixels at `scale`:
/// a surface whose configured size differs from the logical size is first
/// resized (or unmapped when there is nothing to show); an empty strip is
/// not drawn.
pub open spec fn plan_for(
    geometry: SurfaceGeometry,
    scale: i32,
    pixel_w: u32,
    pixel_h: u32,
) -> FramePlan {
    let lw = logical(pixel_w, scale);
    let lh = logical(pixel_h, scale);
    let reconfigure = match geometry {
        SurfaceGeometry::Unconfigured => true,
        SurfaceGeometry::Configured { width, height } => width != lw || height != lh,
    };
    if reconfigure {
        if pixel_w == 0 || pixel_h == 0 {
            FramePlan::Unmap
        } else {
            FramePlan::Resize { width: lw, height: lh }
        }
    } else if pixel_h == 0 {
        FramePlan::Nothing
    } else {
        FramePlan::Draw { scale, width: pixel_w, height: pixel_h }
    }
}

/// The overlay's surface state.
pub struct WskState<B> {
    pub geometry: SurfaceGeometry,
    pub frame_state: FrameState,
    pub buffer_pool: BufferPool<B>,
    pub outputs: Vec<Output>,
    pub current_output: Option<usize>,
    pub running: bool,
    pub needs_render: bool,
}

impl<B> WskState<B> {
    /// The frame pacing part of the state.
    pub open spec fn pacing(&self) -> Pacing {
        (self.frame_state, self.needs_render)
    }

    /// An unconfigured surface, no frame in flight, nothing due, no outputs.
    pub fn new() -> (s: Self)
        ensures
            s.geometry == SurfaceGeometry::Unconfigured,
            s.frame_state == FrameState::Idle,
            !s.needs_render,
            s.running,
            s.outputs@.len() == 0,
            s.current_output is None,
            s.buffer_pool.wf(),
            s.buffer_pool.slots()[0] is None,
            s.buffer_pool.slots()[1] is None,
    {
        WskState {
            geometry: SurfaceGeometry::Unconfigured,
            frame_state: FrameState::Idle,
            buffer_pool: BufferPool::new(),
            outputs: Vec::new(),
            current_output: None,
            running: true,
            needs_render: false,
        }
    }

    /// The scale of the output the surface is on, or 1.
    pub fn current_scale(&self) -> (r: i32)
        ensures
            r == scale_of(self.outputs@, self.current_output),
    {
        match self.current_output {
            Some(i) => if i < self.outputs.len() {
                self.outputs[i].scale
            } else {
                1
            },
            None => 1,
        }
    }

    /// Mark the surface as needing a redraw.
    pub fn set_dirty(&mut self)
        ensures
            final(self).pacing() == mark_dirty(old(self).pacing()),
            final(self).geometry == old(self).geometry,
            final(self).outputs == old(self).outputs,
            final(self).current_output == old(self).current_output,
            final(self).running == old(self).running,
            final(self).buffer_pool == old(self).buffer_pool,
    {
        match self.frame_state {
            FrameState::Pending { .. } => {
                self.frame_state = FrameState::Pending { dirty: true };
            },
            FrameState::Idle => {
                self.needs_render = true;
            },
        }
    }

    /// The compositor's frame callback arrived.
    pub fn frame_done(&mut self)
        ensures
            final(self).pacing() == frame_done(old(self).pacing()),
            final(self).geometry == old(self).geometry,
            final(self).outputs == old(self).outputs,
            final(self).current_output == old(self).current_output,
            final(self).running == old(self).running,
            final(self).buffer_pool == old(self).buffer_pool,
    {
        let was_dirty = match self.frame_state {
            FrameState::Pending { dirty } => dirty,
            FrameState::Idle => false,
        };
        self.frame_state = FrameState::Idle;
        if was_dirty {
            self.needs_render = true;
        }
    }

    /// The buffer in slot `idx`, which the pool handed out for this frame,
    /// was attached and committed with a frame callback. A frame is marked
    /// in flight only with a buffer the compositor now holds.
    pub fn frame_submitted(&mut self, idx: usize)
        requires
            idx < 2,
            old(self).buffer_pool.slots()[idx as int] is Some,
            old(self).buffer_pool.slots()[idx as int]->0.busy,
        ensures
            final(self).pacing() == frame_sent(old(self).pacing()),
            final(self).geometry == old(self).geometry,
            final(self).outputs == old(self).outputs,
            final(self).current_output == old(self).current_output,
            final(self).running == old(self).running,
            final(self).buffer_pool == old(self).buffer_pool,
    {
        self.frame_state = FrameState::Pending { dirty: false };
    }

    /// The layer surface was configured to `width` by `height`; a redraw is
    /// wanted.
    pub fn configure(&mut self, width: u32, height: u32)
        ensures
            final(self).geometry == (SurfaceGeometry::Configured { width, height }),
            final(self).pacing() == mark_dirty(old(self).pacing()),
            final(self).outputs == old(self).outputs,
            final(self).current_output == old(self).current_output,
            final(self).running == old(self).running,
            final(self).buffer_pool == old(self).buffer_pool,
    {
        self.geometry = SurfaceGeometry::Configured { width, height };
        self.set_dirty();
    }

    /// The layer surface was closed: the event loop stops.
    pub fn close(&mut self)
        ensures
            !final(self).running,
            final(self).pacing() == old(self).pacing(),
            final(self).geometry == old(self).geometry,
            final(self).outputs == old(self).outputs,
            final(self).current_output == old(self).current_output,
            final(self).buffer_pool == old(self).buffer_pool,
    {
        self.running = false;
    }

    /// A new output was announced: scale 1, subpixel layout unknown (0).
    pub fn add_output(&mut self, id: u32)
        ensures
            final(self).outputs@ == old(self).outputs@.push(Output { id, scale: 1, subpixel: 0 }),
            final(self).current_output == old(self).current_output,
            final(self).pacing() == old(self).pacing(),
            final(self).geometry == old(self).geometry,
            final(self).running == old(self).running,
            final(self).buffer_pool == old(self).buffer_pool,
    {
        self.outputs.push(Output { id, scale: 1, subpixel: 0 });
    }

    fn find_output(&self, id: u32) -> (r: usize)
        ensures
            r == output_index(self.outputs@, id),
            r <= self.outputs@.len(),
            r < self.outputs@.len() ==> self.outputs@[r as int].id == id,
    {
        let n = self.outputs.len();
        let mut i: usize = 0;
        while i < n && self.outputs[i].id != id
            invariant
                n == self.outputs@.len(),
                i <= n,
                forall|k: int| 0 <= k < i ==> (#[trigger] self.outputs@[k]).id != id,
            decreases n - i,
        {
            i = i + 1;
        }
        proof {
            lemma_output_index_at(self.outputs@, id, i as int);
        }
        i
    }

    /// The surface entered the output with identity `id`: it becomes the
    /// current output when it is known.
    pub fn enter_output(&mut self, id: u32)
        ensures
            final(self).outputs == old(self).outputs,
            final(self).current_output == if output_index(old(self).outputs@, id) < old(
                self,
            ).outputs@.len() {
                Some(output_index(old(self).outputs@, id) as usize)
            } else {
                old(self).current_output
            },
            final(self).pacing() == old(self).pacing(),
            final(self).geometry == old(self).geometry,
            final(self).running == old(self).running,
            final(self).buffer_pool == old(self).buffer_pool,
    {
        let i = self.find_output(id);
        if i < self.outputs.len() {
            self.current_output = Some(i);
        }
    }

    /// The output with identity `id` announced its scale factor.
    pub fn set_output_scale(&mut self, id: u32, factor: i32)
        ensures
            final(self).current_output == old(self).current_output,
            final(self).pacing() == old(self).pacing(),
            final(self).outputs@ == if output_index(old(self).outputs@, id) < old(
                self,
            ).outputs@.len() {
                let i = output_index(old(self).outputs@, id);
                old(self).outputs@.update(i, Output { scale: factor, ..old(self).outputs@[i] })
            } else {
                old(self).outputs@
            },
            final(self).geometry == old(self).geometry,
            final(self).running == old(self).running,
            final(self).buffer_pool == old(self).buffer_pool,
    {
        let i = self.find_output(id);
        if i < self.outputs.len() {
            let o = self.outputs[i];
            self.outputs.set(i, Output { scale: factor, ..o });
        }
    }

    /// The output with identity `id` announced its subpixel layout.
    pub fn set_output_subpixel(&mut self, id: u32, subpixel: u32)
        ensures
            final(self).current_output == old(self).current_output,
            final(self).pacing() == old(self).pacing(),
            final(self).outputs@ == if output_index(old(self).outputs@, id) < old(
                self,
            ).outputs@.len() {
                let i = output_index(old(self).outputs@, id);
                old(self).outputs@.update(i, Output { subpixel, ..old(self).outputs@[i] })
            } else {
                old(self).outputs@
            },
            final(self).geometry == old(self).geometry,
            final(self).running == old(self).running,
            final(self).buffer_pool == old(self).buffer_pool,
    {
        let i = self.find_output(id);
        if i < self.outputs.len() {
            let o = self.outputs[i];
            self.outputs.set(i, Output { subpixel, ..o });
        }
    }

    /// Perform the decisions of a render cycle for a measured strip of
    /// `pixel_w` by `pixel_h` pixels, drawn at `current_scale()`. The due
    /// redraw is taken; without a surface nothing happens; a resize forgets
    /// the configured size until the compositor configures again.
    pub fn render_frame(&mut self, has_surface: bool, pixel_w: u32, pixel_h: u32) -> (r: FramePlan)
        ensures
            final(self).pacing() == render_begun(old(self).pacing()),
            final(self).outputs == old(self).outputs,
            final(self).current_output == old(self).current_output,
            final(self).running == old(self).running,
            final(self).buffer_pool == old(self).buffer_pool,
            !has_surface ==> r == FramePlan::Nothing && final(self).geometry == old(self).geometry,
            has_surface ==> r == plan_for(
                old(self).geometry,
                scale_of(old(self).outputs@, old(self).current_output),
                pixel_w,
                pixel_h,
            ),
            has_surface ==> final(self).geometry == match r {
                FramePlan::Unmap => SurfaceGeometry::Unconfigured,
                FramePlan::Resize { .. } => SurfaceGeometry::Unconfigured,
                _ => old(self).geometry,
            },
    {
        self.needs_render = false;
        if !has_surface {
            return FramePlan::Nothing;
        }
        let scale = self.current_scale();
        let logical_w = if scale > 0 {
            pixel_w / (scale as u32)
        } else {
            pixel_w
        };
        let logical_h = if scale > 0 {
            pixel_h / (scale as u32)
        } else {
            pixel_h
        };
        let needs_reconfigure = match self.geometry {
            SurfaceGeometry::Unconfigured => true,
            SurfaceGeometry::Configured { width, height } => width != logical_w || height
                != logical_h,
        };
        if needs_reconfigure {
            self.geometry = SurfaceGeometry::Unconfigured;
            if pixel_w == 0 || pixel_h == 0 {
                return FramePlan::Unmap;
            } else {
                return FramePlan::Resize { width: logical_w, height: logical_h };
            }
        }
        if pixel_h == 0 {
            return FramePlan::Nothing;
        }
        FramePlan::Draw { scale, width: pixel_w, height: pixel_h }
    }
}


// ---------------------------------------------------------------- laws

/// Marking the surface dirty while a frame is in flight does not make a
/// redraw due; the redraw becomes due when that frame is done.
pub proof fn lemma_redraw_deferred_while_pending(p: Pacing)
    requires
        p.0 is Pending,
    ensures
        mark_dirty(p).1 == p.1,
        frame_done(mark_dirty(p)).1,
        frame_done(mark_dirty(p)).0 == FrameState::Idle,
{
}

/// At most one frame is in flight: no transition makes a redraw due while
/// a frame is pending, given a frame is only sent from a render cycle.
pub proof fn lemma_pacing_inv_preserved(p: Pacing)
    requires
        pacing_inv(p),
    ensures
        pacing_inv(mark_dirty(p)),
        pacing_inv(frame_done(p)),
        pacing_inv(render_begun(p)),
        pacing_inv(frame_sent(render_begun(p))),
{
}

/// Marking the surface dirty twice is the same as marking it once.
pub proof fn lemma_mark_dirty_idempotent(p: Pacing)
    ensures
        mark_dirty(mark_dirty(p)) == mark_dirty(p),
{
}

/// No buffer is attached before the compositor has configured the surface
/// at the size to be drawn: a draw happens only when the configured size is
/// the logical size of the strip.
pub proof fn lemma_draw_only_when_configured(
    geometry: SurfaceGeometry,
    scale: i32,
    pixel_w: u32,
    pixel_h: u32,
)
    ensures
        plan_for(geometry, scale, pixel_w, pixel_h) is Draw ==> geometry == (
        SurfaceGeometry::Configured { width: logical(pixel_w, scale), height: logical(pixel_h, scale) }),
        plan_for(SurfaceGeometry::Unconfigured, scale, pixel_w, pixel_h) !is Draw,
{
}


/// A surface is never left as it is when it is not configured at the
/// logical size of the strip: the plan then resizes it, or unmaps it when
/// the strip is empty, so the keys of an earlier frame do not stay on
/// screen once they have all expired.
pub proof fn lemma_stale_surface_never_kept(
    geometry: SurfaceGeometry,
    scale: i32,
    pixel_w: u32,
    pixel_h: u32,
)
    requires
        geometry != (SurfaceGeometry::Configured {
            width: logical(pixel_w, scale),
            height: logical(pixel_h, scale),
        }),
    ensures
        plan_for(geometry, scale, pixel_w, pixel_h) is Unmap
            || plan_for(geometry, scale, pixel_w, pixel_h) is Resize,
        (pixel_w == 0 || pixel_h == 0) ==> plan_for(geometry, scale, pixel_w, pixel_h)
            == FramePlan::Unmap,
        (pixel_w > 0 && pixel_h > 0) ==> plan_for(geometry, scale, pixel_w, pixel_h) == (
        FramePlan::Resize { width: logical(pixel_w, scale), height: logical(pixel_h, scale) }),
{
}

/// The pool's slots after a buffer for a `width` by `height` frame was
/// taken from slot `i` as `get_buffer` and `install` do: the buffer there
/// is reused and marked busy, or the slot is emptied and `new_buffer`
/// (with identity `new_id`) installed busy.
pub open spec fn acquired<B>(
    slots: Seq<Option<PoolSlot<B>>>,
    i: int,
    width: u32,
    height: u32,
    new_buffer: B,
    new_id: u32,
) -> Seq<Option<PoolSlot<B>>> {
    if must_recreate(slots[i], width, height) {
        slots.update(i, None).update(
            i,
            Some(PoolSlot { buffer: new_buffer, id: new_id, width, height, busy: true }),
        )
    } else {
        slots.update(i, Some(PoolSlot { busy: true, ..slots[i]->0 }))
    }
}

/// A render cycle puts a frame in flight only with a buffer of the strip's
/// size. The plan is to draw exactly when the surface is configured at the
/// strip's logical size and the strip is not empty, and then at the strip's
/// pixel size and the current scale. The pool then either refuses, when
/// both its buffers are busy (no frame is submitted, the frame state stays),
/// or picks a free slot that, once its buffer is reused or a new one with a
/// fresh identity installed, holds a busy buffer of exactly that size (what
/// `frame_submitted` requires), leaving the other slot as it was.
pub proof fn lemma_render_cycle<B>(
    geometry: SurfaceGeometry,
    scale: i32,
    pixel_w: u32,
    pixel_h: u32,
    slots: Seq<Option<PoolSlot<B>>>,
    new_buffer: B,
    new_id: u32,
)
    requires
        slots_wf(slots),
        pick_slot(slots) matches Some(i) ==> (must_recreate(slots[i], pixel_w, pixel_h) && slots[1
            - i] is Some ==> slots[1 - i]->0.id != new_id),
    ensures
        plan_for(geometry, scale, pixel_w, pixel_h) is Draw <==> (geometry == (
        SurfaceGeometry::Configured { width: logical(pixel_w, scale), height: logical(pixel_h, scale) })
            && pixel_h > 0),
        plan_for(geometry, scale, pixel_w, pixel_h) is Draw ==> plan_for(geometry, scale, pixel_w, pixel_h)
            == (FramePlan::Draw { scale, width: pixel_w, height: pixel_h }),
        pick_slot(slots) is None <==> (!slot_free(slots[0]) && !slot_free(slots[1])),
        pick_slot(slots) matches Some(i) ==> ({
            let after = acquired(slots, i, pixel_w, pixel_h, new_buffer, new_id);
            &&& slots_wf(after)
            &&& after[i] is Some
            &&& after[i]->0.busy
            &&& after[i]->0.width == pixel_w
            &&& after[i]->0.height == pixel_h
            &&& after[1 - i] == slots[1 - i]
        }),
{
}

} // verus!
