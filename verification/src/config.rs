//! The keymap configuration: per-keysym display remaps and format overrides,
//! parsed from `keymap.conf` text, and the `#RRGGBB[AA]` colour syntax.

use vstd::prelude::*;
use crate::text::{
    trim, trimmed, split_once, split_once_spec, strip_suffix, has_suffix, str_eq, next_line,
    lines_of, all_digits, all_hex_digits, digit_value, digits_value, is_digit_in, u32_from_hex,
    index_of, lemma_index_of_bounds,
};

verus! {

/// How a key's colour is chosen when it is drawn.
#[derive(Debug, Clone, Copy, PartialEq, Eq, Structural)]
pub enum ColorOverride {
    Default,
    /// Always the plain foreground colour (written `none` in the file).
    Plain,
    Custom(u32),
}

/// Whether a key is drawn as a modifier (with a trailing `+`).
#[derive(Debug, Clone, Copy, PartialEq, Eq, Structural)]
pub enum ModOverride {
    Default,
    Force,
    Suppress,
}

/// What the configuration says about one keysym.
#[derive(Debug, Clone)]
pub struct Remap {
    pub display: Option<String>,
    pub color: ColorOverride,
    pub modifier: ModOverride,
}

/// The mathematical value of a [`Remap`].
pub struct RemapView {
    pub display: Option<Seq<char>>,
    pub color: ColorOverride,
    pub modifier: ModOverride,
}

impl View for Remap {
    type V = RemapView;

    open spec fn view(&self) -> RemapView {
        RemapView {
            display: match self.display {
                Some(d) => Some(d@),
                None => None,
            },
            color: self.color,
            modifier: self.modifier,
        }
    }
}

/// The entry that a keysym has before any line of the file speaks of it.
pub open spec fn default_remap() -> RemapView {
    RemapView { display: None, color: ColorOverride::Default, modifier: ModOverride::Default }
}

impl Default for Remap {
    fn default() -> (r: Self)
        ensures
            r@ == default_remap(),
    {
        Remap { display: None, color: ColorOverride::Default, modifier: ModOverride::Default }
    }
}

/// Why a colour, a format value or a configuration line was refused.
#[derive(Debug)]
pub enum ConfigError {
    /// The line has no `=`.
    MissingEquals,
    /// A colour of the right length holds something other than hex digits.
    InvalidHexColor,
    /// A colour (as written) does not have 6 or 8 hex digits.
    BadColorLength(String),
    /// A format colour that is not `default`, `none` or `#...`.
    InvalidColor(String),
    /// A format modifier that is not `m` or `!m`.
    InvalidModifier(String),
}

/// The mathematical value of a [`ConfigError`].
pub enum ConfigErrorView {
    MissingEquals,
    InvalidHexColor,
    BadColorLength(Seq<char>),
    InvalidColor(Seq<char>),
    InvalidModifier(Seq<char>),
}

impl View for ConfigError {
    type V = ConfigErrorView;

    open spec fn view(&self) -> ConfigErrorView {
        match self {
            ConfigError::MissingEquals => ConfigErrorView::MissingEquals,
            ConfigError::InvalidHexColor => ConfigErrorView::InvalidHexColor,
            ConfigError::BadColorLength(s) => ConfigErrorView::BadColorLength(s@),
            ConfigError::InvalidColor(s) => ConfigErrorView::InvalidColor(s@),
            ConfigError::InvalidModifier(s) => ConfigErrorView::InvalidModifier(s@),
        }
    }
}

/// A result whose error is taken to its view.
pub open spec fn result_view<T>(r: Result<T, ConfigError>) -> Result<T, ConfigErrorView> {
    match r {
        Ok(v) => Ok(v),
        Err(e) => Err(e@),
    }
}

// ---------------------------------------------------------------- colours

/// The text of a colour without one leading `#`.
pub open spec fn strip_hash(s: Seq<char>) -> Seq<char> {
    if s.len() > 0 && s[0] == '#' {
        s.drop_first()
    } else {
        s
    }
}

/// The colour that `#RRGGBB` or `#RRGGBBAA` (the `#` optional) denotes, as
/// `0xRRGGBBAA`; six digits get an opaque alpha of `0xFF`. Every character
/// after the `#` must be an ASCII hex digit (either case); the length is
/// counted in UTF-8 bytes.
pub open spec fn color_value(color: Seq<char>) -> Result<u32, ConfigErrorView> {
    let hex = strip_hash(color);
    let nbytes = vstd::utf8::encode_utf8(hex).len();
    if nbytes == 6 {
        if all_digits(hex, 16) {
            Ok((digits_value(hex, 16) * 256 + 255) as u32)
        } else {
            Err(ConfigErrorView::InvalidHexColor)
        }
    } else if nbytes == 8 {
        if all_digits(hex, 16) {
            Ok(digits_value(hex, 16) as u32)
        } else {
            Err(ConfigErrorView::InvalidHexColor)
        }
    } else {
        Err(ConfigErrorView::BadColorLength(color))
    }
}

/// `16` to the power `n`.
pub open spec fn pow16(n: nat) -> nat
    decreases n,
{
    if n == 0 {
        1
    } else {
        16 * pow16((n - 1) as nat)
    }
}

proof fn lemma_pow16_mono(i: nat, j: nat)
    requires
        i <= j,
    ensures
        pow16(i) <= pow16(j),
    decreases j,
{
    if i < j {
        lemma_pow16_mono(i, (j - 1) as nat);
    }
}

proof fn lemma_hex_digits_bound(d: Seq<char>)
    requires
        all_digits(d, 16),
    ensures
        digits_value(d, 16) < pow16(d.len()),
    decreases d.len(),
{
    if d.len() > 0 {
        let p = d.drop_last();
        assert(all_digits(p, 16)) by {
            assert forall|i: int| 0 <= i < p.len() implies is_digit_in(#[trigger] p[i], 16) by {
                assert(p[i] == d[i]);
            }
        }
        lemma_hex_digits_bound(p);
        assert(is_digit_in(d[d.len() - 1], 16));
        let a = digits_value(p, 16);
        let b = pow16(p.len());
        assert(digit_value(d.last()) < 16);
        assert(a * 16 + digit_value(d.last()) < b * 16) by (nonlinear_arith)
            requires
                a < b,
                digit_value(d.last()) < 16,
        ;
    }
}

proof fn lemma_encode_len(s: Seq<char>)
    ensures
        vstd::utf8::encode_utf8(s).len() >= s.len(),
    decreases s.len(),
{
    if s.len() > 0 {
        lemma_encode_len(s.drop_first());
    }
}

/// Parses `#RRGGBB` or `#RRGGBBAA` (the `#` may be left out) into
/// `0xRRGGBBAA`; six digits are made opaque.
pub fn parse_color(color: &str) -> (r: Result<u32, ConfigError>)
    ensures
        result_view(r) == color_value(color@),
{
    let n = color.unicode_len();
    let hex = if n > 0 && color.get_char(0) == '#' {
        color.substring_char(1, n)
    } else {
        color
    };
    proof {
        assert(hex@ == strip_hash(color@));
    }
    let len = hex.as_bytes().len();
    proof {
        assert(len == vstd::utf8::encode_utf8(hex@).len());
        lemma_encode_len(hex@);
    }
    if len != 6 && len != 8 {
        return Err(ConfigError::BadColorLength(color.to_owned()));
    }
    if !all_hex_digits(hex) {
        return Err(ConfigError::InvalidHexColor);
    }
    proof {
        lemma_hex_digits_bound(hex@);
        lemma_pow16_mono(hex@.len(), 8);
        reveal_with_fuel(pow16, 9);
        if hex@.len() > 0 {
            assert(is_digit_in(hex@[0], 16));
        }
    }
    let v = match u32_from_hex(hex) {
        Some(v) => v,
        None => return Err(ConfigError::InvalidHexColor),
    };
    if len == 6 {
        proof {
            lemma_pow16_mono(hex@.len(), 6);
            reveal_with_fuel(pow16, 7);
            assert(v < 0x1000000);
        }
        assert((v << 8u32) | 0xFFu32 == v * 256 + 255) by (bit_vector)
            requires
                v < 0x1000000u32,
        ;
        Ok((v << 8u32) | 0xFFu32)
    } else {
        Ok(v)
    }
}


// ---------------------------------------------------------------- format values

/// The colour named by the colour part of a format value.
pub open spec fn color_word(s: Seq<char>) -> Result<ColorOverride, ConfigErrorView> {
    if s == "default"@ {
        Ok(ColorOverride::Default)
    } else if s == "none"@ {
        Ok(ColorOverride::Plain)
    } else if s.len() > 0 && s[0] == '#' {
        match color_value(s) {
            Ok(c) => Ok(ColorOverride::Custom(c)),
            Err(e) => Err(e),
        }
    } else {
        Err(ConfigErrorView::InvalidColor(s))
    }
}

/// The modifier named by the modifier part of a format value.
pub open spec fn modifier_word(s: Seq<char>) -> Result<ModOverride, ConfigErrorView> {
    if s == "m"@ {
        Ok(ModOverride::Force)
    } else if s == "!m"@ {
        Ok(ModOverride::Suppress)
    } else {
        Err(ConfigErrorView::InvalidModifier(s))
    }
}

/// The two parts of a format value `color[,modifier]`, each trimmed.
pub open spec fn fmt_parts(value: Seq<char>) -> (Seq<char>, Option<Seq<char>>) {
    match split_once_spec(value, ',') {
        Some((c, m)) => (trimmed(c), Some(trimmed(m))),
        None => (trimmed(value), None),
    }
}

/// The entry after applying the format value `value` to `e`, and whether the
/// value was accepted. An empty colour part leaves the colour as it was; a
/// refused modifier still keeps an accepted colour.
pub open spec fn apply_fmt(value: Seq<char>, e: RemapView) -> (RemapView, Result<(), ConfigErrorView>) {
    let (color_str, mod_str) = fmt_parts(value);
    let color = if color_str.len() == 0 {
        Ok(e.color)
    } else {
        color_word(color_str)
    };
    match color {
        Err(err) => (e, Err(err)),
        Ok(c) => {
            let e1 = RemapView { display: e.display, color: c, modifier: e.modifier };
            match mod_str {
                None => (e1, Ok(())),
                Some(m) => match modifier_word(m) {
                    Ok(md) => (RemapView { display: e1.display, color: e1.color, modifier: md }, Ok(())),
                    Err(err) => (e1, Err(err)),
                },
            }
        },
    }
}

/// Applies a format value `color[,modifier]` to `entry`.
pub fn parse_fmt(value: &str, entry: &mut Remap) -> (r: Result<(), ConfigError>)
    ensures
        apply_fmt(value@, old(entry)@) == (final(entry)@, result_view(r)),
{
    let (color_str, mod_str) = match split_once(value, ',') {
        Some((c, m)) => (trim(c), Some(trim(m))),
        None => (trim(value), None),
    };
    if !color_str.is_empty() {
        let c = if str_eq(color_str, "default") {
            ColorOverride::Default
        } else if str_eq(color_str, "none") {
            ColorOverride::Plain
        } else if color_str.unicode_len() > 0 && color_str.get_char(0) == '#' {
            match parse_color(color_str) {
                Ok(v) => ColorOverride::Custom(v),
                Err(e) => return Err(e),
            }
        } else {
            return Err(ConfigError::InvalidColor(color_str.to_owned()));
        };
        entry.color = c;
    }
    if let Some(m) = mod_str {
        let md = if str_eq(m, "m") {
            ModOverride::Force
        } else if str_eq(m, "!m") {
            ModOverride::Suppress
        } else {
            return Err(ConfigError::InvalidModifier(m.to_owned()));
        };
        entry.modifier = md;
    }
    Ok(())
}

// ---------------------------------------------------------------- the table

/// One keysym and its remap.
pub struct Entry {
    pub keysym: String,
    pub remap: Remap,
}

/// The map that a sequence of entries denotes; a later entry wins.
pub open spec fn entries_map(s: Seq<Entry>) -> Map<Seq<char>, RemapView>
    decreases s.len(),
{
    if s.len() == 0 {
        Map::empty()
    } else {
        entries_map(s.drop_last()).insert(s.last().keysym@, s.last().remap@)
    }
}

/// No keysym occurs twice.
pub open spec fn keys_distinct(s: Seq<Entry>) -> bool {
    forall|i: int, j: int| 0 <= i < j < s.len() ==> s[i].keysym@ != s[j].keysym@
}

proof fn lemma_entries_map_at(s: Seq<Entry>, i: int)
    requires
        keys_distinct(s),
        0 <= i < s.len(),
    ensures
        entries_map(s).contains_key(s[i].keysym@),
        entries_map(s)[s[i].keysym@] == s[i].remap@,
    decreases s.len(),
{
    if i < s.len() - 1 {
        let t = s.drop_last();
        assert(t[i] == s[i]);
        lemma_entries_map_at(t, i);
    }
}

proof fn lemma_entries_map_absent(s: Seq<Entry>, k: Seq<char>)
    requires
        forall|i: int| 0 <= i < s.len() ==> (#[trigger] s[i]).keysym@ != k,
    ensures
        !entries_map(s).contains_key(k),
    decreases s.len(),
{
    if s.len() > 0 {
        let t = s.drop_last();
        assert forall|i: int| 0 <= i < t.len() implies (#[trigger] t[i]).keysym@ != k by {
            assert(t[i] == s[i]);
        }
        lemma_entries_map_absent(t, k);
    }
}

proof fn lemma_entries_map_update(s: Seq<Entry>, i: int, e: Entry)
    requires
        keys_distinct(s),
        0 <= i < s.len(),
        e.keysym@ == s[i].keysym@,
    ensures
        entries_map(s.update(i, e)) == entries_map(s).insert(e.keysym@, e.remap@),
    decreases s.len(),
{
    let u = s.update(i, e);
    let t = s.drop_last();
    if i == s.len() - 1 {
        assert(u.drop_last() =~= t);
        assert(entries_map(u) =~= entries_map(s).insert(e.keysym@, e.remap@));
    } else {
        assert(u.drop_last() =~= t.update(i, e));
        assert(keys_distinct(t));
        lemma_entries_map_update(t, i, e);
        assert(s.last().keysym@ != e.keysym@);
        assert(entries_map(u) =~= entries_map(s).insert(e.keysym@, e.remap@));
    }
}

/// The keymap configuration: what each configured keysym is remapped to.
pub struct Config {
    entries: Vec<Entry>,
}

impl View for Config {
    type V = Map<Seq<char>, RemapView>;

    closed spec fn view(&self) -> Map<Seq<char>, RemapView> {
        entries_map(self.entries@)
    }
}

impl Config {
    /// No keysym has two entries.
    #[verifier::type_invariant]
    spec fn inv(self) -> bool {
        keys_distinct(self.entries@)
    }

    /// A configuration that remaps nothing.
    pub fn empty() -> (c: Self)
        ensures
            c@ == Map::<Seq<char>, RemapView>::empty(),
    {
        Config { entries: Vec::new() }
    }

    /// The remap configured for `keysym`, if any.
    pub fn get(&self, keysym: &str) -> (r: Option<&Remap>)
        ensures
            r is Some <==> self@.contains_key(keysym@),
            r matches Some(x) ==> x@ == self@[keysym@],
    {
        proof {
            use_type_invariant(self);
        }
        match find_entry(&self.entries, keysym) {
            Some(i) => {
                proof {
                    lemma_entries_map_at(self.entries@, i as int);
                }
                Some(&self.entries[i].remap)
            },
            None => None,
        }
    }
}

/// Position of the entry for `keysym`, if there is one.
fn find_entry(entries: &Vec<Entry>, keysym: &str) -> (r: Option<usize>)
    ensures
        match r {
            Some(i) => i < entries@.len() && entries@[i as int].keysym@ == keysym@,
            None => !entries_map(entries@).contains_key(keysym@),
        },
{
    let n = entries.len();
    let mut i: usize = 0;
    while i < n
        invariant
            n == entries@.len(),
            i <= n,
            forall|k: int| 0 <= k < i ==> (#[trigger] entries@[k]).keysym@ != keysym@,
        decreases n - i,
    {
        if str_eq(entries[i].keysym.as_str(), keysym) {
            return Some(i);
        }
        i = i + 1;
    }
    proof {
        lemma_entries_map_absent(entries@, keysym@);
    }
    None
}

/// Position of the entry for `keysym`, made with the default remap when
/// there was none (the `entry(..).or_default()` of a map).
fn entry_index(entries: &mut Vec<Entry>, keysym: &str) -> (i: usize)
    requires
        keys_distinct(old(entries)@),
    ensures
        keys_distinct(final(entries)@),
        i < final(entries)@.len(),
        final(entries)@[i as int].keysym@ == keysym@,
        entries_map(final(entries)@) == entries_map(old(entries)@).insert(
            keysym@,
            entry_or_default(entries_map(old(entries)@), keysym@),
        ),
{
    match find_entry(entries, keysym) {
        Some(i) => {
            proof {
                lemma_entries_map_at(entries@, i as int);
                assert(entries_map(entries@).insert(keysym@, entries_map(entries@)[keysym@])
                    =~= entries_map(entries@));
            }
            i
        },
        None => {
            let ghost before = entries@;
            let e = Entry { keysym: keysym.to_owned(), remap: Remap::default() };
            entries.push(e);
            proof {
                assert(entries@.drop_last() =~= before);
                assert forall|a: int, b: int| 0 <= a < b < entries@.len() implies
                    entries@[a].keysym@ != entries@[b].keysym@ by {
                    if b == before.len() {
                        assert(before[a] == entries@[a]);
                        lemma_entries_map_at(before, a);
                    }
                }
            }
            entries.len() - 1
        },
    }
}

/// Replaces the remap at position `i`.
fn replace_at(entries: &mut Vec<Entry>, i: usize, remap: Remap)
    requires
        keys_distinct(old(entries)@),
        i < old(entries)@.len(),
    ensures
        keys_distinct(final(entries)@),
        entries_map(final(entries)@) == entries_map(old(entries)@).insert(
            old(entries)@[i as int].keysym@,
            remap@,
        ),
{
    let ghost before = entries@;
    let old_entry = entries.remove(i);
    let e = Entry { keysym: old_entry.keysym, remap };
    entries.insert(i, e);
    proof {
        assert(entries@ =~= before.update(i as int, e));
        lemma_entries_map_update(before, i as int, e);
        assert forall|a: int, b: int| 0 <= a < b < entries@.len() implies entries@[a].keysym@
            != entries@[b].keysym@ by {
            assert(entries@[a].keysym@ == before[a].keysym@);
            assert(entries@[b].keysym@ == before[b].keysym@);
        }
    }
}

/// Takes the remap at position `i` out, leaving a default one in its place.
fn take_at(entries: &mut Vec<Entry>, i: usize) -> (r: Remap)
    requires
        keys_distinct(old(entries)@),
        i < old(entries)@.len(),
    ensures
        keys_distinct(final(entries)@),
        final(entries)@.len() == old(entries)@.len(),
        final(entries)@[i as int].keysym@ == old(entries)@[i as int].keysym@,
        entries_map(final(entries)@) == entries_map(old(entries)@).insert(
            old(entries)@[i as int].keysym@,
            default_remap(),
        ),
        r@ == entries_map(old(entries)@)[old(entries)@[i as int].keysym@],
{
    proof {
        lemma_entries_map_at(entries@, i as int);
    }
    let ghost before = entries@;
    let old_entry = entries.remove(i);
    let e = Entry { keysym: old_entry.keysym, remap: Remap::default() };
    entries.insert(i, e);
    proof {
        assert(entries@ =~= before.update(i as int, e));
        lemma_entries_map_update(before, i as int, e);
        assert forall|a: int, b: int| 0 <= a < b < entries@.len() implies entries@[a].keysym@
            != entries@[b].keysym@ by {
            assert(entries@[a].keysym@ == before[a].keysym@);
            assert(entries@[b].keysym@ == before[b].keysym@);
        }
    }
    old_entry.remap
}

/// The entry for `k` in `m`, or the default one.
pub open spec fn entry_or_default(m: Map<Seq<char>, RemapView>, k: Seq<char>) -> RemapView {
    if m.contains_key(k) {
        m[k]
    } else {
        default_remap()
    }
}

// ---------------------------------------------------------------- lines

/// The table after one configuration line, and whether the line was
/// accepted. `key = text` sets the text shown for `key`; `key:fmt = value`
/// applies a format value to `key`. Either way the key gets an entry (the
/// default one if it had none), also when its format value is refused.
pub open spec fn apply_line(line: Seq<char>, m: Map<Seq<char>, RemapView>) -> (
    Map<Seq<char>, RemapView>,
    Result<(), ConfigErrorView>,
) {
    match split_once_spec(line, '=') {
        None => (m, Err(ConfigErrorView::MissingEquals)),
        Some((l, r)) => {
            let lhs = trimmed(l);
            let rhs = trimmed(r);
            if has_suffix(lhs, ":fmt"@) {
                let key = trimmed(lhs.subrange(0, lhs.len() - ":fmt"@.len()));
                let (e, res) = apply_fmt(rhs, entry_or_default(m, key));
                (m.insert(key, e), res)
            } else {
                let old = entry_or_default(m, lhs);
                (m.insert(lhs, RemapView { display: Some(rhs), color: old.color, modifier: old.modifier }), Ok(()))
            }
        },
    }
}

/// Applies one configuration line to `remaps`.
pub fn parse_line(line: &str, remaps: &mut Config) -> (r: Result<(), ConfigError>)
    ensures
        apply_line(line@, old(remaps)@) == (final(remaps)@, result_view(r)),
{
    proof {
        use_type_invariant(&*remaps);
    }
    let (lhs, rhs) = match split_once(line, '=') {
        Some(p) => p,
        None => return Err(ConfigError::MissingEquals),
    };
    let lhs = trim(lhs);
    let rhs = trim(rhs);
    let mut entries: Vec<Entry> = Vec::new();
    std::mem::swap(&mut entries, &mut remaps.entries);
    let res = match strip_suffix(lhs, ":fmt") {
        Some(k) => {
            let keysym = trim(k);
            let i = entry_index(&mut entries, keysym);
            let mut entry = take_at(&mut entries, i);
            let res = parse_fmt(rhs, &mut entry);
            replace_at(&mut entries, i, entry);
            proof {
                assert(entries_map(entries@) =~= old(remaps)@.insert(keysym@, entry@));
            }
            res
        },
        None => {
            let i = entry_index(&mut entries, lhs);
            let mut entry = take_at(&mut entries, i);
            entry.display = Some(rhs.to_owned());
            replace_at(&mut entries, i, entry);
            proof {
                assert(entries_map(entries@) =~= old(remaps)@.insert(lhs@, entry@));
            }
            Ok(())
        },
    };
    remaps.entries = entries;
    res
}

// ---------------------------------------------------------------- files

/// The errors of a file with their line numbers, as values.
pub open spec fn errors_view(v: Seq<(usize, ConfigError)>) -> Seq<(int, ConfigErrorView)> {
    v.map_values(|p: (usize, ConfigError)| (p.0 as int, p.1@))
}

/// One line of the file: blank lines and `#` comments are skipped, others
/// are applied to the table, and a refused line adds its 1-based number and
/// error to the error list.
pub open spec fn load_step(
    m: Map<Seq<char>, RemapView>,
    errs: Seq<(int, ConfigErrorView)>,
    line: Seq<char>,
    lineno: int,
) -> (Map<Seq<char>, RemapView>, Seq<(int, ConfigErrorView)>) {
    let t = trimmed(line);
    if t.len() == 0 || t[0] == '#' {
        (m, errs)
    } else {
        let (m2, res) = apply_line(t, m);
        match res {
            Ok(_) => (m2, errs),
            Err(e) => (m2, errs.push((lineno, e))),
        }
    }
}

/// The lines applied in order; `done` lines came before them.
pub open spec fn load_fold(
    m: Map<Seq<char>, RemapView>,
    errs: Seq<(int, ConfigErrorView)>,
    lines: Seq<Seq<char>>,
    done: int,
) -> (Map<Seq<char>, RemapView>, Seq<(int, ConfigErrorView)>)
    decreases lines.len(),
{
    if lines.len() == 0 {
        (m, errs)
    } else {
        let (m2, e2) = load_step(m, errs, lines[0], done + 1);
        load_fold(m2, e2, lines.drop_first(), done + 1)
    }
}

/// The table and the numbered errors that the text of a keymap file gives.
pub open spec fn load_contents(contents: Seq<char>) -> (
    Map<Seq<char>, RemapView>,
    Seq<(int, ConfigErrorView)>,
) {
    load_fold(Map::empty(), seq![], lines_of(contents), 0)
}

proof fn lemma_entries_map_len(s: Seq<Entry>)
    requires
        keys_distinct(s),
    ensures
        entries_map(s).dom().finite(),
        entries_map(s).len() == s.len(),
    decreases s.len(),
{
    if s.len() > 0 {
        let t = s.drop_last();
        assert(keys_distinct(t));
        lemma_entries_map_len(t);
        assert forall|i: int| 0 <= i < t.len() implies (#[trigger] t[i]).keysym@ != s.last().keysym@ by {
            assert(t[i] == s[i]);
        }
        lemma_entries_map_absent(t, s.last().keysym@);
    }
}

impl Config {
    /// Reads the text of a keymap file: the table it builds, and each refused
    /// line's number (counted from 1) with its error, in file order.
    pub fn parse(contents: &str) -> (r: (Config, Vec<(usize, ConfigError)>))
        ensures
            (r.0@, errors_view(r.1@)) == load_contents(contents@),
    {
        let mut config = Config::empty();
        let mut errors: Vec<(usize, ConfigError)> = Vec::new();
        let n = contents.unicode_len();
        let mut pos: usize = 0;
        let mut count: usize = 0;
        proof {
            assert(contents@.subrange(0, n as int) =~= contents@);
            assert(errors_view(errors@) =~= Seq::<(int, ConfigErrorView)>::empty());
        }
        while pos < n
            invariant
                n == contents@.len(),
                pos <= n,
                count <= pos,
                load_fold(
                    config@,
                    errors_view(errors@),
                    lines_of(contents@.subrange(pos as int, n as int)),
                    count as int,
                ) == load_contents(contents@),
            decreases n - pos,
        {
            let (line, next) = next_line(contents, pos);
            let ghost lines = lines_of(contents@.subrange(pos as int, n as int));
            let ghost m0 = config@;
            let ghost e0 = errors_view(errors@);
            proof {
                assert(lines[0] == line@);
                assert(lines.drop_first() =~= lines_of(contents@.subrange(next as int, n as int)));
            }
            let t = trim(line);
            if t.unicode_len() > 0 && t.get_char(0) != '#' {
                match parse_line(t, &mut config) {
                    Ok(()) => {},
                    Err(e) => {
                        errors.push((count + 1, e));
                        proof {
                            assert(errors_view(errors@) =~= e0.push(((count + 1) as int, e@)));
                        }
                    },
                }
            }
            proof {
                assert((config@, errors_view(errors@)) == load_step(m0, e0, line@, count + 1));
            }
            count = count + 1;
            pos = next;
        }
        proof {
            assert(lines_of(contents@.subrange(n as int, n as int)) =~= Seq::<Seq<char>>::empty());
        }
        (config, errors)
    }

    /// The number of keysyms that have an entry.
    pub fn len(&self) -> (r: usize)
        ensures
            r == self@.len(),
    {
        proof {
            use_type_invariant(self);
            lemma_entries_map_len(self.entries@);
        }
        self.entries.len()
    }
}

/// `base` joined with the relative path `rel`, as `PathBuf::join` joins them
/// on Unix: a `/` goes between them unless `base` is empty or already ends
/// with one.
pub open spec fn path_join(base: Seq<char>, rel: Seq<char>) -> Seq<char> {
    if base.len() == 0 {
        rel
    } else if base.last() == '/' {
        base + rel
    } else {
        base + seq!['/'] + rel
    }
}

fn join_path(base: &str, rel: &str) -> (r: String)
    ensures
        r@ == path_join(base@, rel@),
{
    let n = base.unicode_len();
    if n == 0 {
        rel.to_owned()
    } else if base.get_char(n - 1) == '/' {
        let mut s = base.to_owned();
        s.append(rel);
        s
    } else {
        let mut s = base.to_owned();
        s.append("/");
        proof {
            reveal_strlit("/");
        }
        s.append(rel);
        s
    }
}

/// Where the keymap file is looked for, given `$XDG_CONFIG_HOME` and `$HOME`
/// (`None` when unset): under a non-empty `$XDG_CONFIG_HOME`, else under
/// `$HOME/.config`, else in `/etc`.
pub open spec fn config_path_for(xdg: Option<Seq<char>>, home: Option<Seq<char>>) -> Seq<char> {
    if xdg is Some && xdg->0.len() > 0 {
        path_join(xdg->0, "wshowkeys/keymap.conf"@)
    } else if home is Some {
        path_join(home->0, ".config/wshowkeys/keymap.conf"@)
    } else {
        "/etc/wshowkeys/keymap.conf"@
    }
}

/// The path of the keymap file for the given environment values.
pub fn config_path(xdg: Option<&str>, home: Option<&str>) -> (r: String)
    ensures
        r@ == config_path_for(
            match xdg {
                Some(x) => Some(x@),
                None => None,
            },
            match home {
                Some(h) => Some(h@),
                None => None,
            },
        ),
{
    if let Some(x) = xdg {
        if !x.is_empty() {
            return join_path(x, "wshowkeys/keymap.conf");
        }
    }
    if let Some(h) = home {
        return join_path(h, ".config/wshowkeys/keymap.conf");
    }
    "/etc/wshowkeys/keymap.conf".to_owned()
}


// ---------------------------------------------------------------- laws

/// The `#` in front of a colour is optional: with and without it, the same
/// text is accepted, as the same colour.
pub proof fn lemma_hash_optional(h: Seq<char>)
    requires
        h.len() == 0 || h[0] != '#',
    ensures
        color_value(seq!['#'] + h) is Ok <==> color_value(h) is Ok,
        color_value(seq!['#'] + h) matches Ok(v) ==> color_value(h) == Ok::<u32, ConfigErrorView>(v),
{
    assert((seq!['#'] + h).drop_first() =~= h);
}

/// Six hex digits denote the same colour as those digits followed by an
/// opaque alpha `FF`, and are always accepted.
pub proof fn lemma_six_digits_are_opaque(h: Seq<char>)
    requires
        h.len() == 6,
        all_digits(h, 16),
    ensures
        color_value(h) is Ok,
        color_value(h + seq!['F', 'F']) == color_value(h),
{
    let h8 = h + seq!['F', 'F'];
    assert(vstd::utf8::is_ascii_chars(h));
    assert(vstd::utf8::is_ascii_chars(h8));
    vstd::utf8::is_ascii_chars_encode_utf8(h);
    vstd::utf8::is_ascii_chars_encode_utf8(h8);
    assert(all_digits(h8, 16));
    lemma_hex_digits_bound(h);
    reveal_with_fuel(pow16, 7);
    assert(h8.drop_last() =~= h + seq!['F']);
    assert((h + seq!['F']).drop_last() =~= h);
    let v = digits_value(h, 16);
    let h7 = h + seq!['F'];
    assert(h8.last() == 'F' && h7.last() == 'F');
    assert(digit_value('F') == 15);
    assert(digits_value(h7, 16) == v * 16 + 15);
    assert(digits_value(h8, 16) == digits_value(h7, 16) * 16 + 15);
    assert(strip_hash(h) == h);
    assert(strip_hash(h8) == h8);
}

/// The keysym a configuration line speaks of, when it has an `=`.
pub open spec fn line_key(line: Seq<char>) -> Option<Seq<char>> {
    match split_once_spec(line, '=') {
        None => None,
        Some((l, _r)) => {
            let lhs = trimmed(l);
            if has_suffix(lhs, ":fmt"@) {
                Some(trimmed(lhs.subrange(0, lhs.len() - ":fmt"@.len())))
            } else {
                Some(lhs)
            }
        },
    }
}

/// Whether a configuration line is a format line `key:fmt = value`.
pub open spec fn is_fmt_line(line: Seq<char>) -> bool {
    match split_once_spec(line, '=') {
        None => false,
        Some((l, _r)) => has_suffix(trimmed(l), ":fmt"@),
    }
}

/// A configuration line changes the entry of its own keysym only, whether
/// it is accepted or not.
pub proof fn lemma_line_touches_only_its_key(
    line: Seq<char>,
    m: Map<Seq<char>, RemapView>,
    k: Seq<char>,
)
    requires
        line_key(line) != Some(k),
    ensures
        apply_line(line, m).0.contains_key(k) == m.contains_key(k),
        m.contains_key(k) ==> apply_line(line, m).0[k] == m[k],
{
}

/// Display remaps and format overrides do not interfere: a format line
/// never changes what a key shows, and a display line never changes its
/// colour or modifier.
pub proof fn lemma_display_and_format_independent(
    line: Seq<char>,
    m: Map<Seq<char>, RemapView>,
    k: Seq<char>,
)
    ensures
        is_fmt_line(line) ==> entry_or_default(apply_line(line, m).0, k).display
            == entry_or_default(m, k).display,
        !is_fmt_line(line) ==> entry_or_default(apply_line(line, m).0, k).color == entry_or_default(
            m,
            k,
        ).color && entry_or_default(apply_line(line, m).0, k).modifier == entry_or_default(
            m,
            k,
        ).modifier,
{
}


proof fn lemma_apply_fmt_fields(v: Seq<char>, e1: RemapView, e2: RemapView)
    requires
        e1.color == e2.color,
        e1.modifier == e2.modifier,
    ensures
        apply_fmt(v, e1).0.display == e1.display,
        apply_fmt(v, e1).0.color == apply_fmt(v, e2).0.color,
        apply_fmt(v, e1).0.modifier == apply_fmt(v, e2).0.modifier,
{
}

/// A display line and a format line for the same keysym give the same
/// table in either order: each sets only its own fields of the entry.
pub proof fn lemma_display_and_format_lines_commute(
    d: Seq<char>,
    f: Seq<char>,
    m: Map<Seq<char>, RemapView>,
)
    requires
        !is_fmt_line(d),
        is_fmt_line(f),
        line_key(d) is Some,
        line_key(d) == line_key(f),
    ensures
        apply_line(f, apply_line(d, m).0).0 == apply_line(d, apply_line(f, m).0).0,
{
    let k = line_key(d)->0;
    let (ld, rd) = split_once_spec(d, '=')->0;
    let (lf, rf) = split_once_spec(f, '=')->0;
    let sd = trimmed(rd);
    let vf = trimmed(rf);
    let e = entry_or_default(m, k);
    let ed = RemapView { display: Some(sd), color: e.color, modifier: e.modifier };
    let m1 = apply_line(d, m).0;
    assert(m1 == m.insert(k, ed));
    assert(entry_or_default(m1, k) == ed);
    let e2 = apply_fmt(vf, ed).0;
    assert(apply_line(f, m1).0 == m1.insert(k, e2));
    let e1 = apply_fmt(vf, e).0;
    let m2 = apply_line(f, m).0;
    assert(m2 == m.insert(k, e1));
    assert(entry_or_default(m2, k) == e1);
    let e3 = RemapView { display: Some(sd), color: e1.color, modifier: e1.modifier };
    assert(apply_line(d, m2).0 == m2.insert(k, e3));
    lemma_apply_fmt_fields(vf, ed, e);
    assert(e2 == e3);
    assert(m1.insert(k, e2) =~= m2.insert(k, e3));
}

/// A display line `key = text` makes the keysym show exactly `text`: all of
/// what follows the first `=`, with only the white space around it removed
/// (inner spaces and later `=` signs are kept), and the line is accepted.
pub proof fn lemma_display_line_shows_whole_text(
    line: Seq<char>,
    i: int,
    m: Map<Seq<char>, RemapView>,
)
    requires
        0 <= i < line.len(),
        line[i] == '=',
        forall|k: int| 0 <= k < i ==> line[k] != '=',
        !has_suffix(trimmed(line.subrange(0, i)), ":fmt"@),
    ensures
        apply_line(line, m).1 is Ok,
        apply_line(line, m).0.contains_key(trimmed(line.subrange(0, i))),
        apply_line(line, m).0[trimmed(line.subrange(0, i))].display == Some(
            trimmed(line.subrange(i + 1, line.len() as int)),
        ),
{
    lemma_index_of_bounds(line, '=');
    let j = index_of(line, '=');
    if j < i {
        assert(line[j] == '=');
    }
    if j > i {
        assert(line[i] != '=');
    }
    assert(j == i);
}

/// Blank lines and `#` comment lines leave the table and the error list as
/// they are; every other line is applied, whether or not an earlier line
/// was refused.
pub proof fn lemma_comments_and_blanks_ignored(
    m: Map<Seq<char>, RemapView>,
    errs: Seq<(int, ConfigErrorView)>,
    line: Seq<char>,
    lineno: int,
)
    ensures
        (trimmed(line).len() == 0 || trimmed(line)[0] == '#') ==> load_step(m, errs, line, lineno)
            == (m, errs),
        !(trimmed(line).len() == 0 || trimmed(line)[0] == '#') ==> load_step(m, errs, line, lineno).0
            == apply_line(trimmed(line), m).0,
{
}

} // verus!
