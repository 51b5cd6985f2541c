//! The keymap in use and key events through it. The keymap and key state are
//! those of xkbcommon, handed in by the caller together with the operations
//! on them (compiling a keymap, making a key state, updating it, and looking
//! a key up); what is done with them, and with which arguments, is stated
//! here.

use vstd::prelude::*;
use crate::config::Config;
use crate::input::{Keypress, keymap_text, keymap_text_of, keypress_for, make_keypress, xkb_keycode};

verus! {

/// The keymap in use, its key state, and the text it was compiled from.
pub struct XkbKeys<K, S> {
    pub keymap: Option<K>,
    pub state: Option<S>,
    pub text: Ghost<Option<Seq<char>>>,
}

impl<K, S> XkbKeys<K, S> {
    /// No keymap yet.
    pub fn new() -> (k: Self)
        ensures
            k.keymap is None,
            k.state is None,
            k.text@ is None,
    {
        XkbKeys { keymap: None, state: None, text: Ghost(None) }
    }
}

/// How taking a keymap into use turned out.
#[derive(Debug, Clone, Copy, PartialEq, Eq, Structural)]
pub enum KeymapLoad {
    /// The keymap was compiled and is now in use, with a fresh key state.
    Loaded,
    /// The keymap text was not UTF-8.
    NotUtf8,
    /// The keymap text did not compile.
    CompileFailed,
}

/// Takes the keymap that the compositor handed over in `bytes` into use: its
/// text (UTF-8, trailing NULs removed) is compiled with `compile`, and a fresh
/// key state for it made with `new_state`. When the bytes are not UTF-8 or
/// the text does not compile, the keymap and key state in use stay as they
/// were.
pub fn load_keymap<K, S, C, N>(bytes: &[u8], keys: &mut XkbKeys<K, S>, compile: C, new_state: N) -> (r: KeymapLoad) where
    C: FnOnce(String) -> Option<K>,
    N: FnOnce(&K) -> S,

    requires
        forall|t: String| compile.requires((t,)),
        forall|k: &K| new_state.requires((k,)),
    ensures
        (r == KeymapLoad::NotUtf8) == (keymap_text_of(bytes@) is None),
        r != KeymapLoad::Loaded ==> *final(keys) == *old(keys),
        r == KeymapLoad::CompileFailed ==> exists|t: String|
            t@ == keymap_text_of(bytes@)->0 && #[trigger] compile.ensures((t,), None),
        r == KeymapLoad::Loaded ==> ({
            &&& final(keys).text@ == keymap_text_of(bytes@)
            &&& final(keys).keymap is Some && final(keys).state is Some
            &&& exists|t: String|
                t@ == keymap_text_of(bytes@)->0 && #[trigger] compile.ensures((t,), final(keys).keymap)
            &&& new_state.ensures((&final(keys).keymap->0,), final(keys).state->0)
        }),
{
    let text = match keymap_text(bytes) {
        Some(t) => t,
        None => return KeymapLoad::NotUtf8,
    };
    let ghost t = text;
    match compile(text) {
        Some(keymap) => {
            let state = new_state(&keymap);
            keys.keymap = Some(keymap);
            keys.state = Some(state);
            keys.text = Ghost(Some(t@));
            proof {
                assert(compile.ensures((t,), keys.keymap));
            }
            KeymapLoad::Loaded
        },
        None => {
            proof {
                assert(compile.ensures((t,), None));
            }
            KeymapLoad::CompileFailed
        },
    }
}

/// Handles a key event for the Linux evdev key `evdev`, pressed or released.
/// Without a key state the event is dropped. Otherwise the key state is
/// updated with `update` for the key's xkb keycode (`evdev + 8`) and the
/// direction of the event; a release gives nothing, and a press gives the
/// keypress that the configuration makes of the keysym name and text that
/// `lookup` reads for that same keycode from the updated state.
pub fn handle_key<S, U, L>(
    state: &mut Option<S>,
    evdev: u32,
    pressed: bool,
    config: &Config,
    update: U,
    lookup: L,
) -> (r: Option<Keypress>) where
    U: FnOnce(S, u32, bool) -> S,
    L: FnOnce(&S, u32) -> (String, String),

    requires
        *old(state) is Some ==> evdev + 8 <= u32::MAX,
        forall|s: S, kc: u32, p: bool| update.requires((s, kc, p)),
        forall|s: &S, kc: u32| lookup.requires((s, kc)),
    ensures
        *old(state) is None ==> r is None && *final(state) == *old(state),
        *old(state) is Some ==> *final(state) is Some && update.ensures(
            ((*old(state))->0, (evdev + 8) as u32, pressed),
            (*final(state))->0,
        ),
        !pressed ==> r is None,
        *old(state) is Some && pressed ==> r is Some,
        r matches Some(k) ==> exists|nt: (String, String)|
            #[trigger] lookup.ensures((&(*final(state))->0, (evdev + 8) as u32), nt) && (
            k.name@,
            k.utf8@,
            k.color,
            k.modifier,
        ) == keypress_for(nt.0@, nt.1@, config@),
{
    let current = match state.take() {
        Some(s) => s,
        None => return None,
    };
    let keycode = xkb_keycode(evdev);
    let updated = update(current, keycode, pressed);
    *state = Some(updated);
    if !pressed {
        return None;
    }
    let s = match state.as_ref() {
        Some(s) => s,
        None => return None,
    };
    let nt = lookup(s, keycode);
    let (name, utf8) = nt;
    let k = make_keypress(name, utf8, config);
    proof {
        assert(lookup.ensures((s, keycode), nt));
    }
    Some(k)
}

} // verus!
