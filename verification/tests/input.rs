use wshowkeys::config::{parse_line, ColorOverride, Config, ModOverride};
use wshowkeys::input::{keymap_text, make_keypress, xkb_keycode, KeyState_, Keypress};
use wshowkeys::xkb::{handle_key, load_keymap, KeymapLoad, XkbKeys};

fn key(name: &str, utf8: &str, modifier: ModOverride) -> Keypress {
    Keypress {
        name: name.to_string(),
        utf8: utf8.to_string(),
        color: ColorOverride::Default,
        modifier,
    }
}

#[test]
fn display_text_prefers_character() {
    assert_eq!(key("a", "a", ModOverride::Default).display_text(), "a");
    assert_eq!(key("Shift_L", "", ModOverride::Default).display_text(), "Shift_L");
    assert_eq!(key("Return", "⏎", ModOverride::Default).display_text(), "⏎");
}

#[test]
fn is_special_follows_overrides() {
    assert!(key("Shift_L", "", ModOverride::Default).is_special());
    assert!(!key("a", "a", ModOverride::Default).is_special());
    assert!(key("a", "a", ModOverride::Force).is_special());
    assert!(!key("Shift_L", "", ModOverride::Suppress).is_special());
}

#[test]
fn make_keypress_filters_control_text() {
    let config = Config::empty();
    let k = make_keypress("Return".to_string(), "\r".to_string(), &config);
    assert_eq!(k.utf8, "");
    assert_eq!(k.name, "Return");
    let k = make_keypress("space".to_string(), " ".to_string(), &config);
    assert_eq!(k.utf8, "");
    let k = make_keypress("a".to_string(), "a".to_string(), &config);
    assert_eq!(k.utf8, "a");
    assert_eq!(k.color, ColorOverride::Default);
    assert_eq!(k.modifier, ModOverride::Default);
}

#[test]
fn make_keypress_applies_remap() {
    let mut config = Config::empty();
    parse_line("Return = ⏎", &mut config).unwrap();
    parse_line("a = A!", &mut config).unwrap();
    parse_line("a:fmt = #102030,m", &mut config).unwrap();
    let k = make_keypress("Return".to_string(), "\r".to_string(), &config);
    assert_eq!(k.name, "⏎");
    assert_eq!(k.utf8, "");
    assert_eq!(k.display_text(), "⏎");
    let k = make_keypress("a".to_string(), "a".to_string(), &config);
    assert_eq!(k.name, "a");
    assert_eq!(k.utf8, "A!");
    assert_eq!(k.color, ColorOverride::Custom(0x102030FF));
    assert_eq!(k.modifier, ModOverride::Force);
}

#[test]
fn keymap_text_trims_nuls_and_checks_utf8() {
    assert_eq!(keymap_text(b"xkb_keymap {}\0\0").as_deref(), Some("xkb_keymap {}"));
    assert_eq!(keymap_text("é\0".as_bytes()).as_deref(), Some("é"));
    assert_eq!(keymap_text(&[0xff, 0x00]), None);
    assert_eq!(keymap_text(b"").as_deref(), Some(""));
}

#[test]
fn xkb_keycode_offsets_evdev() {
    assert_eq!(xkb_keycode(28), 36);
    assert_eq!(xkb_keycode(0), 8);
}

#[test]
fn key_state_push_clear_and_expire() {
    let mut s = KeyState_::new();
    assert!(s.keys.is_empty());
    assert!(s.last_key.is_none());
    assert_eq!(s.poll_timeout_ms(0, 1_000_000_000), None);
    let t = std::time::Instant::now();
    s.push_key_at(key("a", "a", ModOverride::Default), t);
    assert_eq!(s.keys.len(), 1);
    assert_eq!(s.last_key, Some(t));
    assert_eq!(s.poll_timeout_ms(250_000_000, 1_000_000_000), Some(750));
    assert_eq!(s.poll_timeout_ms(1_000_000_000, 1_000_000_000), Some(0));
    assert_eq!(s.poll_timeout_ms(999_999_999, 1_000_000_000), Some(0));
    assert_eq!(s.poll_timeout_ms(0, 100_000_000_000), Some(u16::MAX));
    assert!(!s.expire(999_999_999, 1_000_000_000));
    assert_eq!(s.keys.len(), 1);
    assert!(s.expire(1_000_000_000, 1_000_000_000));
    assert!(s.keys.is_empty());
    assert!(s.last_key.is_some());
    assert!(!s.expire(5_000_000_000, 1_000_000_000));
    let t2 = t + std::time::Duration::from_millis(5);
    s.push_key_at(key("b", "b", ModOverride::Default), t2);
    assert_eq!(s.last_key, Some(t2));
    s.clear();
    assert!(s.keys.is_empty());
}

#[test]
fn empty_display_text_on_character_key_shows_name() {
    let mut config = Config::empty();
    parse_line("a = ", &mut config).unwrap();
    let k = make_keypress("a".to_string(), "a".to_string(), &config);
    assert_eq!(k.utf8, "");
    assert_eq!(k.display_text(), "a");
    assert!(k.is_special());
}

#[test]
fn keymap_load_compiles_trimmed_text() {
    let mut keys: XkbKeys<String, Vec<(u32, bool)>> = XkbKeys::new();
    let mut seen = String::new();
    let r = load_keymap(
        b"xkb_keymap {}\0\0",
        &mut keys,
        |t: String| {
            seen = t.clone();
            Some(format!("compiled {t}"))
        },
        |_k: &String| Vec::new(),
    );
    assert_eq!(r, KeymapLoad::Loaded);
    assert_eq!(seen, "xkb_keymap {}");
    assert_eq!(keys.keymap.as_deref(), Some("compiled xkb_keymap {}"));
    assert_eq!(keys.state, Some(Vec::new()));
}

#[test]
fn keymap_load_failures_keep_keymap_in_use() {
    let mut keys: XkbKeys<String, Vec<(u32, bool)>> = XkbKeys::new();
    load_keymap(b"first", &mut keys, |t: String| Some(t), |_k: &String| vec![(1, true)]);
    let r = load_keymap(&[0xff, 0xfe], &mut keys, |t: String| Some(t), |_k: &String| Vec::new());
    assert_eq!(r, KeymapLoad::NotUtf8);
    assert_eq!(keys.keymap.as_deref(), Some("first"));
    assert_eq!(keys.state, Some(vec![(1, true)]));
    let r = load_keymap(b"second", &mut keys, |_t: String| None, |_k: &String| Vec::new());
    assert_eq!(r, KeymapLoad::CompileFailed);
    assert_eq!(keys.keymap.as_deref(), Some("first"));
    assert_eq!(keys.state, Some(vec![(1, true)]));
}

#[test]
fn key_without_keymap_is_dropped() {
    let config = Config::empty();
    let mut state: Option<Vec<(u32, bool)>> = None;
    let r = handle_key(
        &mut state,
        30,
        true,
        &config,
        |mut s: Vec<(u32, bool)>, kc: u32, p: bool| {
            s.push((kc, p));
            s
        },
        |_s: &Vec<(u32, bool)>, _kc: u32| ("a".to_string(), "a".to_string()),
    );
    assert!(r.is_none());
    assert!(state.is_none());
}

#[test]
fn key_press_and_release_use_xkb_keycode() {
    let config = Config::empty();
    let mut state: Option<Vec<(u32, bool)>> = Some(Vec::new());
    let mut looked_up = 0u32;
    let r = handle_key(
        &mut state,
        30,
        true,
        &config,
        |mut s: Vec<(u32, bool)>, kc: u32, p: bool| {
            s.push((kc, p));
            s
        },
        |_s: &Vec<(u32, bool)>, kc: u32| {
            looked_up = kc;
            ("a".to_string(), "a".to_string())
        },
    );
    let k = r.unwrap();
    assert_eq!(k.name, "a");
    assert_eq!(k.utf8, "a");
    assert_eq!(looked_up, 38);
    assert_eq!(state, Some(vec![(38, true)]));
    let r = handle_key(
        &mut state,
        30,
        false,
        &config,
        |mut s: Vec<(u32, bool)>, kc: u32, p: bool| {
            s.push((kc, p));
            s
        },
        |_s: &Vec<(u32, bool)>, _kc: u32| ("b".to_string(), "b".to_string()),
    );
    assert!(r.is_none());
    assert_eq!(state, Some(vec![(38, true), (38, false)]));
}

#[test]
fn key_press_looks_up_in_updated_state() {
    let config = Config::empty();
    let mut state: Option<Vec<(u32, bool)>> = Some(vec![(50, true)]);
    let r = handle_key(
        &mut state,
        2,
        true,
        &config,
        |mut s: Vec<(u32, bool)>, kc: u32, p: bool| {
            s.push((kc, p));
            s
        },
        |s: &Vec<(u32, bool)>, _kc: u32| {
            if s.len() == 2 {
                ("exclam".to_string(), "!".to_string())
            } else {
                ("1".to_string(), "1".to_string())
            }
        },
    );
    let k = r.unwrap();
    assert_eq!(k.name, "exclam");
    assert_eq!(k.utf8, "!");
}
