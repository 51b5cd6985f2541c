use wshowkeys::text::{next_line, split_once, starts_with, str_eq, strip_suffix, trim, trim_end_matches};

const SAMPLES: &[&str] = &[
    "",
    "a",
    "  a b  ",
    "\t\n\u{0B}\u{0C}\r x \u{85}\u{A0}",
    "\u{1680}\u{2000}\u{2005}\u{200A}y\u{2028}\u{2029}\u{202F}\u{205F}\u{3000}",
    "\u{200B}z\u{200B}",
    "\u{FEFF}q",
    "k = v",
    "a,b,c",
    "==",
    "line1\nline2\r\nline3\r",
    "\n",
    "\r\n\r\n",
    "x\n\ny\n",
    "é⏎:fmt",
];

#[test]
fn trim_agrees_with_std() {
    for s in SAMPLES {
        assert_eq!(trim(s), s.trim(), "{:?}", s);
    }
}

#[test]
fn split_once_agrees_with_std() {
    for s in SAMPLES {
        for c in ['=', ',', '\n', 'é'] {
            assert_eq!(split_once(s, c), s.split_once(c), "{:?} {:?}", s, c);
        }
    }
}

#[test]
fn prefix_suffix_and_equality_agree_with_std() {
    for s in SAMPLES {
        for p in ["", "a", "k =", ":fmt", "line1", "é"] {
            assert_eq!(starts_with(s, p), s.starts_with(p));
            assert_eq!(strip_suffix(s, p), s.strip_suffix(p));
            assert_eq!(str_eq(s, p), *s == p);
        }
    }
}

#[test]
fn next_line_agrees_with_std_lines() {
    for s in SAMPLES {
        let mut mine = Vec::new();
        let n = s.chars().count();
        let mut pos = 0;
        while pos < n {
            let (line, next) = next_line(s, pos);
            mine.push(line);
            pos = next;
        }
        let theirs: Vec<&str> = s.lines().collect();
        assert_eq!(mine, theirs, "{:?}", s);
    }
}

#[test]
fn trim_end_matches_nul() {
    assert_eq!(trim_end_matches("abc\0\0\0", '\0'), "abc");
    assert_eq!(trim_end_matches("\0a\0", '\0'), "\0a");
    assert_eq!(trim_end_matches("", '\0'), "");
}
