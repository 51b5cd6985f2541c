use wshowkeys::config::{parse_color, parse_line, ColorOverride, Config, ModOverride};

#[test]
fn parse_color_6digit() {
    assert_eq!(parse_color("#FF0000").unwrap(), 0xFF0000FF);
}

#[test]
fn parse_color_8digit() {
    assert_eq!(parse_color("#FF0000CC").unwrap(), 0xFF0000CC);
}

#[test]
fn parse_color_no_hash() {
    assert_eq!(parse_color("00FF00").unwrap(), 0x00FF00FF);
}

#[test]
fn parse_line_display_remap() {
    let mut remaps = Config::empty();
    parse_line("Return = ⏎", &mut remaps).unwrap();
    assert_eq!(remaps.get("Return").unwrap().display.as_deref(), Some("⏎"));
    assert_eq!(remaps.get("Return").unwrap().color, ColorOverride::Default);
    assert_eq!(remaps.get("Return").unwrap().modifier, ModOverride::Default);
}

#[test]
fn parse_line_fmt_color_and_mod() {
    let mut remaps = Config::empty();
    parse_line("Shift_L:fmt = #ff8800,m", &mut remaps).unwrap();
    assert_eq!(remaps.get("Shift_L").unwrap().display, None);
    assert!(matches!(remaps.get("Shift_L").unwrap().color, ColorOverride::Custom(_)));
    assert_eq!(remaps.get("Shift_L").unwrap().modifier, ModOverride::Force);
}

#[test]
fn parse_line_fmt_suppress() {
    let mut remaps = Config::empty();
    parse_line("space:fmt = none,!m", &mut remaps).unwrap();
    assert_eq!(remaps.get("space").unwrap().color, ColorOverride::Plain);
    assert_eq!(remaps.get("space").unwrap().modifier, ModOverride::Suppress);
}

#[test]
fn parse_line_display_and_fmt_merge() {
    let mut remaps = Config::empty();
    parse_line("Return = ⏎", &mut remaps).unwrap();
    parse_line("Return:fmt = #aabbcc", &mut remaps).unwrap();
    assert_eq!(remaps.get("Return").unwrap().display.as_deref(), Some("⏎"));
    assert!(matches!(remaps.get("Return").unwrap().color, ColorOverride::Custom(_)));
}

use wshowkeys::config::{config_path, parse_fmt, ConfigError, Remap};

#[test]
fn parse_color_rejects_wrong_length() {
    match parse_color("#FFF") {
        Err(ConfigError::BadColorLength(s)) => assert_eq!(s, "#FFF"),
        other => panic!("unexpected {:?}", other),
    }
    assert!(matches!(parse_color(""), Err(ConfigError::BadColorLength(_))));
    assert!(matches!(parse_color("#1234567"), Err(ConfigError::BadColorLength(_))));
}

#[test]
fn parse_color_rejects_non_hex() {
    assert!(matches!(parse_color("#GG0000"), Err(ConfigError::InvalidHexColor)));
    assert!(matches!(parse_color("#12345z78"), Err(ConfigError::InvalidHexColor)));
    // two-byte characters make up the length but are no digits
    assert!(matches!(parse_color("#ééé"), Err(ConfigError::InvalidHexColor)));
}

#[test]
fn parse_color_refuses_sign_and_accepts_lowercase() {
    assert!(matches!(parse_color("#+12345"), Err(ConfigError::InvalidHexColor)));
    assert!(matches!(parse_color("+12345"), Err(ConfigError::InvalidHexColor)));
    assert!(matches!(parse_color("-1234567"), Err(ConfigError::InvalidHexColor)));
    assert!(matches!(parse_color("##FF0000"), Err(ConfigError::BadColorLength(_))));
    assert!(matches!(parse_color("#FF00001"), Err(ConfigError::BadColorLength(_))));
    assert_eq!(parse_color("aabbccdd").unwrap(), 0xAABBCCDD);
    assert_eq!(parse_color("#0a0B0c").unwrap(), 0x0A0B0CFF);
}

#[test]
fn parse_color_six_digits_equal_opaque_eight() {
    for c in ["123456", "abcdef", "000000", "FFFFFF"] {
        let six = parse_color(c).unwrap();
        let eight = parse_color(&format!("{c}FF")).unwrap();
        assert_eq!(six, eight);
        assert_eq!(parse_color(&format!("#{c}")).unwrap(), six);
    }
}

#[test]
fn parse_fmt_empty_color_keeps_color() {
    let mut e = Remap::default();
    e.color = ColorOverride::Custom(7);
    parse_fmt(" ,!m", &mut e).unwrap();
    assert_eq!(e.color, ColorOverride::Custom(7));
    assert_eq!(e.modifier, ModOverride::Suppress);
}

#[test]
fn parse_fmt_bad_modifier_keeps_accepted_color() {
    let mut e = Remap::default();
    let r = parse_fmt("#112233, x", &mut e);
    match r {
        Err(ConfigError::InvalidModifier(m)) => assert_eq!(m, "x"),
        other => panic!("unexpected {:?}", other),
    }
    assert_eq!(e.color, ColorOverride::Custom(0x112233FF));
    assert_eq!(e.modifier, ModOverride::Default);
}

#[test]
fn parse_fmt_bad_color_changes_nothing() {
    let mut e = Remap::default();
    match parse_fmt("blue,m", &mut e) {
        Err(ConfigError::InvalidColor(c)) => assert_eq!(c, "blue"),
        other => panic!("unexpected {:?}", other),
    }
    assert_eq!(e.color, ColorOverride::Default);
    assert_eq!(e.modifier, ModOverride::Default);
    assert!(matches!(parse_fmt("#12", &mut e), Err(ConfigError::BadColorLength(_))));
}

#[test]
fn parse_fmt_default_and_none() {
    let mut e = Remap::default();
    parse_fmt("none", &mut e).unwrap();
    assert_eq!(e.color, ColorOverride::Plain);
    parse_fmt("default , m", &mut e).unwrap();
    assert_eq!(e.color, ColorOverride::Default);
    assert_eq!(e.modifier, ModOverride::Force);
}

#[test]
fn parse_line_missing_equals() {
    let mut remaps = Config::empty();
    assert!(matches!(parse_line("Return ⏎", &mut remaps), Err(ConfigError::MissingEquals)));
    assert_eq!(remaps.len(), 0);
}

#[test]
fn parse_line_refused_format_still_makes_entry() {
    let mut remaps = Config::empty();
    assert!(parse_line("a:fmt = purple", &mut remaps).is_err());
    assert_eq!(remaps.len(), 1);
    assert_eq!(remaps.get("a").unwrap().color, ColorOverride::Default);
    assert!(remaps.get("b").is_none());
}

#[test]
fn parse_line_later_display_wins_and_keys_are_trimmed() {
    let mut remaps = Config::empty();
    parse_line("  k =  one ", &mut remaps).unwrap();
    parse_line("k=two", &mut remaps).unwrap();
    parse_line(" k :fmt = #010203", &mut remaps).unwrap();
    assert_eq!(remaps.len(), 1);
    let e = remaps.get("k").unwrap();
    assert_eq!(e.display.as_deref(), Some("two"));
    assert_eq!(e.color, ColorOverride::Custom(0x010203FF));
    // a value may itself hold '='
    parse_line("eq = a=b", &mut remaps).unwrap();
    assert_eq!(remaps.get("eq").unwrap().display.as_deref(), Some("a=b"));
}

#[test]
fn config_parse_file_with_comments_and_errors() {
    let text = "# keymap\r\n\r\nReturn = ⏎\r\n  # indented comment\nbroken line\nShift_L:fmt = #ff8800,m\nx:fmt = #12\n\nspace = ␣";
    let (config, errors) = Config::parse(text);
    assert_eq!(config.len(), 4);
    assert_eq!(config.get("Return").unwrap().display.as_deref(), Some("⏎"));
    assert_eq!(config.get("Shift_L").unwrap().modifier, ModOverride::Force);
    assert_eq!(config.get("space").unwrap().display.as_deref(), Some("␣"));
    assert!(config.get("x").is_some());
    assert_eq!(errors.len(), 2);
    assert_eq!(errors[0].0, 5);
    assert!(matches!(errors[0].1, ConfigError::MissingEquals));
    assert_eq!(errors[1].0, 7);
    assert!(matches!(errors[1].1, ConfigError::BadColorLength(_)));
}

#[test]
fn config_parse_empty_and_trailing_newline() {
    let (c, e) = Config::parse("");
    assert_eq!(c.len(), 0);
    assert!(e.is_empty());
    let (c, e) = Config::parse("a = 1\n");
    assert_eq!(c.len(), 1);
    assert!(e.is_empty());
    let (_, e) = Config::parse("\n\nbad\n");
    assert_eq!(e[0].0, 3);
}

#[test]
fn config_path_prefers_xdg_then_home() {
    assert_eq!(config_path(Some("/x"), Some("/h")), "/x/wshowkeys/keymap.conf");
    assert_eq!(config_path(Some("/x/"), None), "/x/wshowkeys/keymap.conf");
    assert_eq!(config_path(Some(""), Some("/h")), "/h/.config/wshowkeys/keymap.conf");
    assert_eq!(config_path(None, Some("")), ".config/wshowkeys/keymap.conf");
    assert_eq!(config_path(None, None), "/etc/wshowkeys/keymap.conf");
}

#[test]
fn config_path_matches_pathbuf_join() {
    for base in ["/a", "/a/", "rel", "/"] {
        let expect = std::path::PathBuf::from(base).join("wshowkeys/keymap.conf");
        assert_eq!(config_path(Some(base), None), expect.to_str().unwrap());
    }
}
