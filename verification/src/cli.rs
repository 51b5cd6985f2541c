//! The command line: colours, font, timeout, anchor edges and margin.

use vstd::prelude::*;
use wayland_protocols_wlr::layer_shell::v1::client::zwlr_layer_surface_v1::Anchor;
use crate::config::{ConfigError, ConfigErrorView, color_value, parse_color};
use crate::text::{
    has_prefix, parse_signed, parse_unsigned, str_eq, starts_with, u64_from_decimal,
    i32_from_decimal,
};

verus! {

/// An edge of the output that the overlay can be anchored to.
#[derive(Debug, Clone, Copy, PartialEq, Eq, Structural)]
pub enum AnchorEdge {
    Top,
    Bottom,
    Left,
    Right,
}

/// The layer-shell anchor bit of an edge.
pub open spec fn edge_bit(e: AnchorEdge) -> u32 {
    match e {
        AnchorEdge::Top => 1,
        AnchorEdge::Bottom => 2,
        AnchorEdge::Left => 4,
        AnchorEdge::Right => 8,
    }
}

/// `zwlr_layer_surface_v1::Anchor::{Top, Bottom, Left, Right}.bits()`: the
/// bit values 1, 2, 4 and 8 that the layer-shell protocol gives the edges.
#[verifier::external_body]
fn anchor_bits(e: AnchorEdge) -> (b: u32)
    ensures
        b == edge_bit(e),
{
    match e {
        AnchorEdge::Top => Anchor::Top.bits(),
        AnchorEdge::Bottom => Anchor::Bottom.bits(),
        AnchorEdge::Left => Anchor::Left.bits(),
        AnchorEdge::Right => Anchor::Right.bits(),
    }
}

/// The edge an anchor word names.
pub open spec fn anchor_word(s: Seq<char>) -> Option<AnchorEdge> {
    if s == "top"@ {
        Some(AnchorEdge::Top)
    } else if s == "bottom"@ {
        Some(AnchorEdge::Bottom)
    } else if s == "left"@ {
        Some(AnchorEdge::Left)
    } else if s == "right"@ {
        Some(AnchorEdge::Right)
    } else {
        None
    }
}

fn parse_anchor(s: &str) -> (r: Option<AnchorEdge>)
    ensures
        r == anchor_word(s@),
{
    if str_eq(s, "top") {
        Some(AnchorEdge::Top)
    } else if str_eq(s, "bottom") {
        Some(AnchorEdge::Bottom)
    } else if str_eq(s, "left") {
        Some(AnchorEdge::Left)
    } else if str_eq(s, "right") {
        Some(AnchorEdge::Right)
    } else {
        None
    }
}

/// The settings of a run.
#[derive(Debug)]
pub struct Options {
    pub foreground: u32,
    pub background: u32,
    pub specialfg: u32,
    pub font: String,
    pub timeout_secs: u64,
    pub anchor: u32,
    pub margin: i32,
}

/// The mathematical value of [`Options`].
pub struct OptionsView {
    pub foreground: u32,
    pub background: u32,
    pub specialfg: u32,
    pub font: Seq<char>,
    pub timeout_secs: u64,
    pub anchor: u32,
    pub margin: i32,
}

impl View for Options {
    type V = OptionsView;

    open spec fn view(&self) -> OptionsView {
        OptionsView {
            foreground: self.foreground,
            background: self.background,
            specialfg: self.specialfg,
            font: self.font@,
            timeout_secs: self.timeout_secs,
            anchor: self.anchor,
            margin: self.margin,
        }
    }
}

/// What the command line asks for.
#[derive(Debug)]
pub enum Command {
    Run(Options),
    Help,
}

/// The mathematical value of a [`Command`].
pub enum CommandView {
    Run(OptionsView),
    Help,
}

impl View for Command {
    type V = CommandView;

    open spec fn view(&self) -> CommandView {
        match self {
            Command::Run(o) => CommandView::Run(o@),
            Command::Help => CommandView::Help,
        }
    }
}

/// Why the command line was refused.
#[derive(Debug)]
pub enum ArgError {
    /// This option needs a value and none followed.
    MissingValue(String),
    /// A colour value was refused.
    Color(ConfigError),
    InvalidTimeout,
    InvalidMargin,
    UnknownAnchor(String),
    UnknownArgument(String),
}

/// The mathematical value of an [`ArgError`].
pub enum ArgErrorView {
    MissingValue(Seq<char>),
    Color(ConfigErrorView),
    InvalidTimeout,
    InvalidMargin,
    UnknownAnchor(Seq<char>),
    UnknownArgument(Seq<char>),
}

impl View for ArgError {
    type V = ArgErrorView;

    open spec fn view(&self) -> ArgErrorView {
        match self {
            ArgError::MissingValue(s) => ArgErrorView::MissingValue(s@),
            ArgError::Color(e) => ArgErrorView::Color(e@),
            ArgError::InvalidTimeout => ArgErrorView::InvalidTimeout,
            ArgError::InvalidMargin => ArgErrorView::InvalidMargin,
            ArgError::UnknownAnchor(s) => ArgErrorView::UnknownAnchor(s@),
            ArgError::UnknownArgument(s) => ArgErrorView::UnknownArgument(s@),
        }
    }
}

/// The settings when the command line sets nothing: white on translucent
/// black, grey modifiers, `monospace 24`, one second, no anchor, margin 32.
pub open spec fn default_options() -> OptionsView {
    OptionsView {
        foreground: 0xFFFFFFFF,
        background: 0x000000CC,
        specialfg: 0xAAAAAAFF,
        font: "monospace 24"@,
        timeout_secs: 1,
        anchor: 0,
        margin: 32,
    }
}

/// The settings `o` with one field changed.
pub open spec fn with_color(o: OptionsView, flag: Seq<char>, c: u32) -> OptionsView {
    OptionsView {
        foreground: if flag == "-f"@ { c } else { o.foreground },
        background: if flag == "-b"@ { c } else { o.background },
        specialfg: if flag == "-s"@ { c } else { o.specialfg },
        font: o.font,
        timeout_secs: o.timeout_secs,
        anchor: o.anchor,
        margin: o.margin,
    }
}

/// The command that the arguments from position `i` on give, with the
/// settings `o` made by the arguments before. Options are read in order; a
/// later one overrides an earlier one, and anchor edges accumulate. `-aEDGE`
/// and `-a EDGE` both name an edge; `-h` and `--help` ask for the usage.
pub open spec fn parse_from(args: Seq<Seq<char>>, i: int, o: OptionsView) -> Result<
    CommandView,
    ArgErrorView,
>
    decreases args.len() - i,
{
    if i < 0 || i >= args.len() {
        Ok(CommandView::Run(o))
    } else {
        let a = args[i];
        let has_value = i + 1 < args.len();
        if a == "-b"@ || a == "-f"@ || a == "-s"@ {
            if !has_value {
                Err(ArgErrorView::MissingValue(a))
            } else {
                match color_value(args[i + 1]) {
                    Ok(c) => parse_from(args, i + 2, with_color(o, a, c)),
                    Err(e) => Err(ArgErrorView::Color(e)),
                }
            }
        } else if a == "-F"@ {
            if !has_value {
                Err(ArgErrorView::MissingValue(a))
            } else {
                parse_from(args, i + 2, OptionsView { font: args[i + 1], ..o })
            }
        } else if a == "-t"@ {
            if !has_value {
                Err(ArgErrorView::MissingValue(a))
            } else {
                match parse_unsigned(args[i + 1], 10, u64::MAX as nat) {
                    Some(v) => parse_from(args, i + 2, OptionsView { timeout_secs: v as u64, ..o }),
                    None => Err(ArgErrorView::InvalidTimeout),
                }
            }
        } else if a == "-m"@ {
            if !has_value {
                Err(ArgErrorView::MissingValue(a))
            } else {
                match parse_signed(args[i + 1], 10, i32::MIN as int, i32::MAX as int) {
                    Some(v) => parse_from(args, i + 2, OptionsView { margin: v as i32, ..o }),
                    None => Err(ArgErrorView::InvalidMargin),
                }
            }
        } else if has_prefix(a, "-a"@) {
            if a.len() <= 2 && !has_value {
                Err(ArgErrorView::UnknownAnchor(Seq::<char>::empty()))
            } else {
                let word = if a.len() > 2 {
                    a.subrange(2, a.len() as int)
                } else {
                    args[i + 1]
                };
                let next = if a.len() > 2 {
                    i + 1
                } else {
                    i + 2
                };
                match anchor_word(word) {
                    Some(e) => parse_from(args, next, OptionsView { anchor: o.anchor | edge_bit(e), ..o }),
                    None => Err(ArgErrorView::UnknownAnchor(word)),
                }
            }
        } else if a == "-h"@ || a == "--help"@ {
            Ok(CommandView::Help)
        } else {
            Err(ArgErrorView::UnknownArgument(a))
        }
    }
}

/// The command that a whole command line gives (`args[0]`, the program
/// name, is not an option).
pub open spec fn command_for(args: Seq<Seq<char>>) -> Result<CommandView, ArgErrorView> {
    parse_from(args, 1, default_options())
}

/// The text of each argument.
pub open spec fn args_view(args: Seq<String>) -> Seq<Seq<char>> {
    args.map_values(|a: String| a@)
}

/// A result whose parts are taken to their views.
pub open spec fn command_result_view(r: Result<Command, ArgError>) -> Result<CommandView, ArgErrorView> {
    match r {
        Ok(c) => Ok(c@),
        Err(e) => Err(e@),
    }
}

// ---------------------------------------------------------------- laws

/// Whether `flag` is none of the arguments from position `i` on.
pub open spec fn absent_from(args: Seq<Seq<char>>, i: int, flag: Seq<char>) -> bool {
    forall|j: int| i <= j < args.len() ==> args[j] != flag
}

proof fn lemma_colours_kept(args: Seq<Seq<char>>, i: int, o: OptionsView)
    ensures
        absent_from(args, i, "-s"@) ==> (parse_from(args, i, o) matches Ok(CommandView::Run(r))
            ==> r.specialfg == o.specialfg),
        absent_from(args, i, "-f"@) ==> (parse_from(args, i, o) matches Ok(CommandView::Run(r))
            ==> r.foreground == o.foreground),
        absent_from(args, i, "-b"@) ==> (parse_from(args, i, o) matches Ok(CommandView::Run(r))
            ==> r.background == o.background),
    decreases args.len() - i,
{
    if 0 <= i < args.len() {
        let a = args[i];
        let has_value = i + 1 < args.len();
        if a == "-b"@ || a == "-f"@ || a == "-s"@ {
            if has_value {
                if let Ok(c) = color_value(args[i + 1]) {
                    lemma_colours_kept(args, i + 2, with_color(o, a, c));
                }
            }
        } else if a == "-F"@ {
            if has_value {
                lemma_colours_kept(args, i + 2, OptionsView { font: args[i + 1], ..o });
            }
        } else if a == "-t"@ {
            if has_value {
                if let Some(v) = parse_unsigned(args[i + 1], 10, u64::MAX as nat) {
                    lemma_colours_kept(args, i + 2, OptionsView { timeout_secs: v as u64, ..o });
                }
            }
        } else if a == "-m"@ {
            if has_value {
                if let Some(v) = parse_signed(args[i + 1], 10, i32::MIN as int, i32::MAX as int) {
                    lemma_colours_kept(args, i + 2, OptionsView { margin: v as i32, ..o });
                }
            }
        } else if has_prefix(a, "-a"@) {
            if !(a.len() <= 2 && !has_value) {
                let word = if a.len() > 2 {
                    a.subrange(2, a.len() as int)
                } else {
                    args[i + 1]
                };
                let next = if a.len() > 2 {
                    i + 1
                } else {
                    i + 2
                };
                if let Some(e) = anchor_word(word) {
                    lemma_colours_kept(args, next, OptionsView { anchor: o.anchor | edge_bit(e), ..o });
                }
            }
        }
    }
}

/// A colour is set by its own option only: a command line that names no
/// `-s` runs with the default special-key colour, one that names no `-f`
/// with the default foreground, one that names no `-b` with the default
/// background, whatever the other options set.
pub proof fn lemma_colour_without_its_option_is_default(args: Seq<Seq<char>>)
    ensures
        absent_from(args, 1, "-s"@) ==> (command_for(args) matches Ok(CommandView::Run(o))
            ==> o.specialfg == 0xAAAAAAFF),
        absent_from(args, 1, "-f"@) ==> (command_for(args) matches Ok(CommandView::Run(o))
            ==> o.foreground == 0xFFFFFFFF),
        absent_from(args, 1, "-b"@) ==> (command_for(args) matches Ok(CommandView::Run(o))
            ==> o.background == 0x000000CC),
{
    lemma_colours_kept(args, 1, default_options());
}

proof fn lemma_trailing_colour(
    args: Seq<Seq<char>>,
    i: int,
    o: OptionsView,
    flag: Seq<char>,
    v: Seq<char>,
)
    requires
        0 <= i <= args.len(),
        flag == "-b"@ || flag == "-f"@ || flag == "-s"@,
        color_value(v) is Ok,
    ensures
        parse_from(args, i, o) matches Ok(CommandView::Run(r)) ==> parse_from(
            args + seq![flag, v],
            i,
            o,
        ) == Ok::<CommandView, ArgErrorView>(CommandView::Run(with_color(r, flag, color_value(v)->Ok_0))),
    decreases args.len() - i,
{
    let args2 = args + seq![flag, v];
    if i == args.len() {
        assert(args2[i] == flag && args2[i + 1] == v);
        assert(parse_from(args2, i + 2, with_color(o, flag, color_value(v)->Ok_0)) == Ok::<
            CommandView,
            ArgErrorView,
        >(CommandView::Run(with_color(o, flag, color_value(v)->Ok_0))));
    } else {
        let a = args[i];
        assert(args2[i] == a);
        let has_value = i + 1 < args.len();
        if has_value {
            assert(args2[i + 1] == args[i + 1]);
        }
        if a == "-b"@ || a == "-f"@ || a == "-s"@ {
            if has_value {
                if let Ok(c) = color_value(args[i + 1]) {
                    lemma_trailing_colour(args, i + 2, with_color(o, a, c), flag, v);
                }
            }
        } else if a == "-F"@ {
            if has_value {
                lemma_trailing_colour(args, i + 2, OptionsView { font: args[i + 1], ..o }, flag, v);
            }
        } else if a == "-t"@ {
            if has_value {
                if let Some(t) = parse_unsigned(args[i + 1], 10, u64::MAX as nat) {
                    lemma_trailing_colour(
                        args,
                        i + 2,
                        OptionsView { timeout_secs: t as u64, ..o },
                        flag,
                        v,
                    );
                }
            }
        } else if a == "-m"@ {
            if has_value {
                if let Some(t) = parse_signed(args[i + 1], 10, i32::MIN as int, i32::MAX as int) {
                    lemma_trailing_colour(args, i + 2, OptionsView { margin: t as i32, ..o }, flag, v);
                }
            }
        } else if has_prefix(a, "-a"@) {
            if !(a.len() <= 2 && !has_value) {
                let word = if a.len() > 2 {
                    a.subrange(2, a.len() as int)
                } else {
                    args[i + 1]
                };
                let next = if a.len() > 2 {
                    i + 1
                } else {
                    i + 2
                };
                if let Some(e) = anchor_word(word) {
                    lemma_trailing_colour(
                        args,
                        next,
                        OptionsView { anchor: o.anchor | edge_bit(e), ..o },
                        flag,
                        v,
                    );
                }
            }
        }
    }
}

/// The last colour option given wins and touches nothing else: adding
/// `-s COLOR` (or `-f COLOR`, `-b COLOR`) at the end of a command line that
/// runs gives the same settings with the special-key colour (or the
/// foreground, the background) set to COLOR, and the other two colours
/// as they were.
pub proof fn lemma_last_colour_option_wins(args: Seq<Seq<char>>, flag: Seq<char>, v: Seq<char>)
    requires
        args.len() >= 1,
        flag == "-b"@ || flag == "-f"@ || flag == "-s"@,
        color_value(v) is Ok,
    ensures
        command_for(args) matches Ok(CommandView::Run(o)) ==> command_for(args + seq![flag, v])
            == Ok::<CommandView, ArgErrorView>(CommandView::Run(OptionsView {
                foreground: if flag == "-f"@ { color_value(v)->Ok_0 } else { o.foreground },
                background: if flag == "-b"@ { color_value(v)->Ok_0 } else { o.background },
                specialfg: if flag == "-s"@ { color_value(v)->Ok_0 } else { o.specialfg },
                ..o
            })),
{
    lemma_trailing_colour(args, 1, default_options(), flag, v);
}


/// Reads the command line `args` (program name first).
pub fn parse_args(args: &Vec<String>) -> (r: Result<Command, ArgError>)
    ensures
        command_result_view(r) == command_for(args_view(args@)),
{
    let ghost av = args_view(args@);
    let mut foreground: u32 = 0xFFFFFFFF;
    let mut background: u32 = 0x000000CC;
    let mut specialfg: u32 = 0xAAAAAAFF;
    let mut font = "monospace 24".to_owned();
    let mut timeout_secs: u64 = 1;
    let mut anchor: u32 = 0;
    let mut margin: i32 = 32;
    let n = args.len();
    let mut i: usize = 1;
    while i < n
        invariant
            n == args@.len(),
            av == args_view(args@),
            1 <= i,
            parse_from(
                av,
                i as int,
                OptionsView { foreground, background, specialfg, font: font@, timeout_secs, anchor, margin },
            ) == command_for(av),
        decreases n - i,
    {
        let ghost o = OptionsView { foreground, background, specialfg, font: font@, timeout_secs, anchor, margin };
        let a = args[i].as_str();
        assert(av[i as int] == a@);
        let has_value = i + 1 < n;
        proof {
            if has_value {
                assert(av[i + 1] == args@[i + 1]@);
            }
        }
        if str_eq(a, "-b") || str_eq(a, "-f") || str_eq(a, "-s") {
            if !has_value {
                return Err(ArgError::MissingValue(a.to_owned()));
            }
            let c = match parse_color(args[i + 1].as_str()) {
                Ok(c) => c,
                Err(e) => return Err(ArgError::Color(e)),
            };
            proof {
                reveal_strlit("-b");
                reveal_strlit("-f");
                reveal_strlit("-s");
                assert("-b"@[1] != "-f"@[1] && "-b"@[1] != "-s"@[1] && "-f"@[1] != "-s"@[1]);
            }
            if str_eq(a, "-b") {
                background = c;
            } else if str_eq(a, "-f") {
                foreground = c;
            } else {
                specialfg = c;
            }
            i = i + 2;
        } else if str_eq(a, "-F") {
            if !has_value {
                return Err(ArgError::MissingValue(a.to_owned()));
            }
            font = args[i + 1].clone();
            i = i + 2;
        } else if str_eq(a, "-t") {
            if !has_value {
                return Err(ArgError::MissingValue(a.to_owned()));
            }
            match u64_from_decimal(args[i + 1].as_str()) {
                Some(v) => timeout_secs = v,
                None => return Err(ArgError::InvalidTimeout),
            }
            i = i + 2;
        } else if str_eq(a, "-m") {
            if !has_value {
                return Err(ArgError::MissingValue(a.to_owned()));
            }
            match i32_from_decimal(args[i + 1].as_str()) {
                Some(v) => margin = v,
                None => return Err(ArgError::InvalidMargin),
            }
            i = i + 2;
        } else if starts_with(a, "-a") {
            let len = a.unicode_len();
            if len <= 2 && !has_value {
                proof {
                    reveal_strlit("");
                    assert(""@ =~= Seq::<char>::empty());
                }
                return Err(ArgError::UnknownAnchor("".to_owned()));
            }
            let (word, next) = if len > 2 {
                (a.substring_char(2, len), i + 1)
            } else {
                (args[i + 1].as_str(), i + 2)
            };
            match parse_anchor(word) {
                Some(e) => {
                    anchor = anchor | anchor_bits(e);
                },
                None => return Err(ArgError::UnknownAnchor(word.to_owned())),
            }
            if next >= n {
                proof {
                    assert(parse_from(
                        av,
                        next as int,
                        OptionsView { foreground, background, specialfg, font: font@, timeout_secs, anchor, margin },
                    ) == parse_from(
                        av,
                        n as int,
                        OptionsView { foreground, background, specialfg, font: font@, timeout_secs, anchor, margin },
                    ));
                }
                i = n;
            } else {
                i = next;
            }
        } else if str_eq(a, "-h") || str_eq(a, "--help") {
            return Ok(Command::Help);
        } else {
            return Err(ArgError::UnknownArgument(a.to_owned()));
        }
    }
    Ok(Command::Run(Options { foreground, background, specialfg, font, timeout_secs, anchor, margin }))
}

} // verus!
