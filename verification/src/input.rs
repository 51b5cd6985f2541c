//! Keypresses as they are shown, and the list of recent keypresses.

use vstd::prelude::*;
use crate::config::{ColorOverride, Config, ModOverride, RemapView};
use crate::text::{str_from_utf8, trim_end_char, trim_end_matches};

verus! {

/// A monotonic point in time, as `std::time::Instant` gives it.
#[verifier::external_type_specification]
#[verifier::external_body]
pub struct ExInstant(std::time::Instant);

/// One pressed key, ready to be drawn.
#[derive(Debug, Clone)]
pub struct Keypress {
    pub name: String,
    pub utf8: String,
    pub color: ColorOverride,
    pub modifier: ModOverride,
}

/// The text a key is drawn with: its character, or its name when it has none.
pub open spec fn shown_text(name: Seq<char>, utf8: Seq<char>) -> Seq<char> {
    if utf8.len() == 0 {
        name
    } else {
        utf8
    }
}

/// Whether a key is drawn as a modifier: as forced or suppressed, and by
/// default when it produces no character.
pub open spec fn is_special_key(utf8: Seq<char>, modifier: ModOverride) -> bool {
    match modifier {
        ModOverride::Force => true,
        ModOverride::Suppress => false,
        ModOverride::Default => utf8.len() == 0,
    }
}

impl Keypress {
    /// The text the renderer should display for this key.
    pub fn display_text(&self) -> (r: &str)
        ensures
            r@ == shown_text(self.name@, self.utf8@),
    {
        if self.utf8.as_str().is_empty() {
            self.name.as_str()
        } else {
            self.utf8.as_str()
        }
    }

    /// Whether this key is "special" (modifier-like), after applying overrides.
    pub fn is_special(&self) -> (b: bool)
        ensures
            b == is_special_key(self.utf8@, self.modifier),
    {
        match self.modifier {
            ModOverride::Force => true,
            ModOverride::Suppress => false,
            ModOverride::Default => self.utf8.as_str().is_empty(),
        }
    }
}

/// The character text of a key as it is kept: empty when the key produced
/// nothing or a control character or space (anything up to `' '`).
pub open spec fn visible_utf8(utf8: Seq<char>) -> Seq<char> {
    if utf8.len() == 0 || utf8[0] <= ' ' {
        seq![]
    } else {
        utf8
    }
}

/// The name, text, colour and modifier of a pressed key whose keysym is
/// called `name` and which produced `utf8`, under the configuration `m`. A
/// configured display text replaces the character, or the name when there
/// is no character.
pub open spec fn keypress_for(name: Seq<char>, utf8: Seq<char>, m: Map<Seq<char>, RemapView>) -> (
    Seq<char>,
    Seq<char>,
    ColorOverride,
    ModOverride,
) {
    let u = visible_utf8(utf8);
    if m.contains_key(name) {
        let r = m[name];
        match r.display {
            Some(d) => if u.len() == 0 {
                (d, u, r.color, r.modifier)
            } else {
                (name, d, r.color, r.modifier)
            },
            None => (name, u, r.color, r.modifier),
        }
    } else {
        (name, u, ColorOverride::Default, ModOverride::Default)
    }
}

/// A configured keysym always takes its entry's colour and modifier,
/// whether or not the entry also sets a display text; an unconfigured
/// keysym keeps the default ones. A non-empty display text is what is
/// shown for the key, in place of its character or its name.
pub proof fn lemma_remap_applies_to_keypress(
    name: Seq<char>,
    utf8: Seq<char>,
    m: Map<Seq<char>, RemapView>,
)
    ensures
        m.contains_key(name) ==> keypress_for(name, utf8, m).2 == m[name].color
            && keypress_for(name, utf8, m).3 == m[name].modifier,
        !m.contains_key(name) ==> keypress_for(name, utf8, m).2 == ColorOverride::Default
            && keypress_for(name, utf8, m).3 == ModOverride::Default,
        m.contains_key(name) && m[name].display is Some && m[name].display->0.len() > 0
            ==> shown_text(keypress_for(name, utf8, m).0, keypress_for(name, utf8, m).1)
            == m[name].display->0,
        !m.contains_key(name) ==> keypress_for(name, utf8, m).0 == name,
{
}

/// Builds the keypress for a key press whose keysym is called `name` and
/// which produced the text `utf8`, applying the configuration's remap.
pub fn make_keypress(name: String, utf8: String, config: &Config) -> (k: Keypress)
    ensures
        (k.name@, k.utf8@, k.color, k.modifier) == keypress_for(name@, utf8@, config@),
{
    let utf8 = if utf8.as_str().is_empty() || utf8.as_str().get_char(0) <= ' ' {
        String::new()
    } else {
        utf8
    };
    let mut keypress = Keypress {
        name,
        utf8,
        color: ColorOverride::Default,
        modifier: ModOverride::Default,
    };
    if let Some(remap) = config.get(keypress.name.as_str()) {
        if let Some(display) = &remap.display {
            if keypress.utf8.as_str().is_empty() {
                keypress.name = display.clone();
            } else {
                keypress.utf8 = display.clone();
            }
        }
        keypress.color = remap.color;
        keypress.modifier = remap.modifier;
    }
    keypress
}

/// The xkb keycode of a Linux evdev key code.
pub fn xkb_keycode(evdev: u32) -> (r: u32)
    requires
        evdev + 8 <= u32::MAX,
    ensures
        r == evdev + 8,
{
    evdev + 8
}

/// The text of a keymap as the compositor hands it over: valid UTF-8, with
/// its trailing NUL characters removed.
pub open spec fn keymap_text_of(bytes: Seq<u8>) -> Option<Seq<char>> {
    if vstd::utf8::valid_utf8(bytes) {
        Some(trim_end_char(vstd::utf8::decode_utf8(bytes), '\0'))
    } else {
        None
    }
}

/// The keymap text in a mapped keymap buffer, or `None` when it is not UTF-8.
pub fn keymap_text(bytes: &[u8]) -> (r: Option<String>)
    ensures
        match r {
            Some(s) => keymap_text_of(bytes@) == Some(s@),
            None => keymap_text_of(bytes@) is None,
        },
{
    match str_from_utf8(bytes) {
        Some(s) => Some(trim_end_matches(s, '\0').to_owned()),
        None => None,
    }
}

/// The keys on screen and when the last one was pressed.
pub struct KeyState_ {
    pub keys: Vec<Keypress>,
    pub last_key: Option<std::time::Instant>,
}

/// How long to wait for input before the shown keys expire, in whole
/// milliseconds (at most `u16::MAX`); `None` waits without limit. The keys
/// expire `timeout_ns` after the last key; `elapsed_ns` have passed since.
pub open spec fn wait_ms(keys_empty: bool, has_last: bool, elapsed_ns: u128, timeout_ns: u128) -> Option<u16> {
    if keys_empty || !has_last {
        None
    } else if elapsed_ns >= timeout_ns {
        Some(0)
    } else {
        let ms = (timeout_ns - elapsed_ns) / 1_000_000;
        Some(if ms > u16::MAX { u16::MAX } else { ms as u16 })
    }
}

impl KeyState_ {
    /// No keys, and no key pressed yet.
    pub fn new() -> (s: Self)
        ensures
            s.keys@.len() == 0,
            s.last_key is None,
    {
        KeyState_ { keys: Vec::new(), last_key: None }
    }

    /// Removes every shown key.
    pub fn clear(&mut self)
        ensures
            final(self).keys@.len() == 0,
            final(self).last_key == old(self).last_key,
    {
        self.keys.clear();
    }

    /// Adds a key pressed at `now` and notes that time as the last press.
    pub fn push_key_at(&mut self, keypress: Keypress, now: std::time::Instant)
        ensures
            final(self).keys@ == old(self).keys@.push(keypress),
            final(self).last_key == Some(now),
    {
        self.keys.push(keypress);
        self.last_key = Some(now);
    }

    /// How long the event loop may wait before the shown keys expire, given
    /// the time elapsed since the last key press.
    pub fn poll_timeout_ms(&self, elapsed_ns: u128, timeout_ns: u128) -> (r: Option<u16>)
        ensures
            r == wait_ms(self.keys@.len() == 0, self.last_key is Some, elapsed_ns, timeout_ns),
    {
        if self.keys.len() == 0 || self.last_key.is_none() {
            None
        } else if elapsed_ns >= timeout_ns {
            Some(0)
        } else {
            let ms = (timeout_ns - elapsed_ns) / 1_000_000;
            if ms > 65535 {
                Some(65535)
            } else {
                Some(ms as u16)
            }
        }
    }

    /// Clears the shown keys once `timeout_ns` have passed since the last
    /// key press; says whether it did.
    pub fn expire(&mut self, elapsed_ns: u128, timeout_ns: u128) -> (cleared: bool)
        ensures
            cleared == (old(self).keys@.len() > 0 && old(self).last_key is Some && elapsed_ns
                >= timeout_ns),
            cleared ==> final(self).keys@.len() == 0,
            !cleared ==> final(self).keys@ == old(self).keys@,
            final(self).last_key == old(self).last_key,
    {
        if self.keys.len() > 0 && self.last_key.is_some() && elapsed_ns >= timeout_ns {
            self.clear();
            true
        } else {
            false
        }
    }
}


/// A key whose keysym has a non-empty configured display text shows that
/// text, whether or not it produced a character.
pub proof fn lemma_remapped_key_shows_display(
    name: Seq<char>,
    utf8: Seq<char>,
    m: Map<Seq<char>, RemapView>,
    d: Seq<char>,
)
    requires
        m.contains_key(name),
        m[name].display == Some(d),
        d.len() > 0,
    ensures
        ({
            let k = keypress_for(name, utf8, m);
            shown_text(k.0, k.1) == d
        }),
{
}

/// The event loop never waits past the moment the shown keys expire, and
/// it waits without limit only when nothing is shown or no key was pressed.
pub proof fn lemma_wait_ends_by_expiry(keys_empty: bool, has_last: bool, elapsed_ns: u128, timeout_ns: u128)
    ensures
        wait_ms(keys_empty, has_last, elapsed_ns, timeout_ns) is None <==> (keys_empty || !has_last),
        wait_ms(keys_empty, has_last, elapsed_ns, timeout_ns) matches Some(ms) ==> ms * 1_000_000
            <= (if elapsed_ns >= timeout_ns {
            0
        } else {
            timeout_ns - elapsed_ns
        }),
{
    if !keys_empty && has_last && elapsed_ns < timeout_ns {
        let d = (timeout_ns - elapsed_ns) as int;
        let q = d / 1_000_000;
        assert(q * 1_000_000 <= d) by (nonlinear_arith)
            requires
                d >= 0,
                q == d / 1_000_000,
        ;
    }
}

} // verus!
