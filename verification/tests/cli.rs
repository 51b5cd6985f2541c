use wshowkeys::cli::{parse_args, ArgError, Command, Options};
use wshowkeys::config::ConfigError;

fn run(args: &[&str]) -> Result<Command, ArgError> {
    let v: Vec<String> = std::iter::once("wshowkeys").chain(args.iter().copied()).map(String::from).collect();
    parse_args(&v)
}

fn opts(args: &[&str]) -> Options {
    match run(args) {
        Ok(Command::Run(o)) => o,
        other => panic!("unexpected {:?}", other),
    }
}

#[test]
fn defaults_without_arguments() {
    let o = opts(&[]);
    assert_eq!(o.foreground, 0xFFFFFFFF);
    assert_eq!(o.background, 0x000000CC);
    assert_eq!(o.specialfg, 0xAAAAAAFF);
    assert_eq!(o.font, "monospace 24");
    assert_eq!(o.timeout_secs, 1);
    assert_eq!(o.anchor, 0);
    assert_eq!(o.margin, 32);
}

#[test]
fn colours_font_timeout_margin() {
    let o = opts(&["-b", "#112233", "-f", "445566AA", "-s", "#778899", "-F", "sans 12", "-t", "3", "-m", "-5"]);
    assert_eq!(o.background, 0x112233FF);
    assert_eq!(o.foreground, 0x445566AA);
    assert_eq!(o.specialfg, 0x778899FF);
    assert_eq!(o.font, "sans 12");
    assert_eq!(o.timeout_secs, 3);
    assert_eq!(o.margin, -5);
    assert_eq!(opts(&["-b", "#000000", "-b", "#FFFFFF"]).background, 0xFFFFFFFF);
}

#[test]
fn anchors_accumulate() {
    assert_eq!(opts(&["-a", "top"]).anchor, 1);
    assert_eq!(opts(&["-abottom"]).anchor, 2);
    assert_eq!(opts(&["-a", "left", "-aright"]).anchor, 12);
    assert_eq!(opts(&["-atop", "-a", "top"]).anchor, 1);
}

#[test]
fn anchor_errors() {
    assert!(matches!(run(&["-a", "middle"]), Err(ArgError::UnknownAnchor(s)) if s == "middle"));
    assert!(matches!(run(&["-a"]), Err(ArgError::UnknownAnchor(s)) if s.is_empty()));
    assert!(matches!(run(&["-axyz"]), Err(ArgError::UnknownAnchor(s)) if s == "xyz"));
}

#[test]
fn help_and_unknown() {
    assert!(matches!(run(&["-h"]), Ok(Command::Help)));
    assert!(matches!(run(&["--help", "-zzz"]), Ok(Command::Help)));
    assert!(matches!(run(&["-x"]), Err(ArgError::UnknownArgument(s)) if s == "-x"));
    assert!(matches!(run(&["-zzz", "-h"]), Err(ArgError::UnknownArgument(_))));
}

#[test]
fn value_errors() {
    assert!(matches!(run(&["-b"]), Err(ArgError::MissingValue(s)) if s == "-b"));
    assert!(matches!(run(&["-F"]), Err(ArgError::MissingValue(s)) if s == "-F"));
    assert!(matches!(run(&["-t", "-1"]), Err(ArgError::InvalidTimeout)));
    assert!(matches!(run(&["-t", "+2"]), Ok(Command::Run(o)) if o.timeout_secs == 2));
    assert!(matches!(run(&["-m", "99999999999"]), Err(ArgError::InvalidMargin)));
    assert!(matches!(run(&["-f", "#12"]), Err(ArgError::Color(ConfigError::BadColorLength(_)))));
}
