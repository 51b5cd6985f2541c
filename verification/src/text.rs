//! Text primitives over `&str`, stated over the character sequence `s@`.

use vstd::prelude::*;

verus! {

/// The Unicode `White_Space` property (PropList.txt), as used by `str::trim`.
pub open spec fn is_white_space(c: char) -> bool {
    ||| ('\u{09}' <= c && c <= '\u{0D}')
    ||| c == ' '
    ||| c == '\u{85}'
    ||| c == '\u{A0}'
    ||| c == '\u{1680}'
    ||| ('\u{2000}' <= c && c <= '\u{200A}')
    ||| c == '\u{2028}'
    ||| c == '\u{2029}'
    ||| c == '\u{202F}'
    ||| c == '\u{205F}'
    ||| c == '\u{3000}'
}

/// Whether `c` has the Unicode `White_Space` property, as
/// `char::is_whitespace` tells.
pub fn char_is_whitespace(c: char) -> (b: bool)
    ensures
        b == is_white_space(c),
{
    ('\u{09}' <= c && c <= '\u{0D}') || c == ' ' || c == '\u{85}' || c == '\u{A0}' || c
        == '\u{1680}' || ('\u{2000}' <= c && c <= '\u{200A}') || c == '\u{2028}' || c == '\u{2029}'
        || c == '\u{202F}' || c == '\u{205F}' || c == '\u{3000}'
}

/// Whether `c` is an ASCII hex digit.
pub fn is_hex_digit(c: char) -> (b: bool)
    ensures
        b == is_digit_in(c, 16),
{
    ('0' <= c && c <= '9') || ('a' <= c && c <= 'f') || ('A' <= c && c <= 'F')
}

/// Whether every character of `s` is an ASCII hex digit.
pub fn all_hex_digits(s: &str) -> (b: bool)
    ensures
        b == all_digits(s@, 16),
{
    let n = s.unicode_len();
    let mut i: usize = 0;
    while i < n
        invariant
            n == s@.len(),
            i <= n,
            forall|k: int| 0 <= k < i ==> is_digit_in(#[trigger] s@[k], 16),
        decreases n - i,
    {
        if !is_hex_digit(s.get_char(i)) {
            return false;
        }
        i = i + 1;
    }
    true
}

/// `s` without its leading white space.
pub open spec fn trim_start(s: Seq<char>) -> Seq<char>
    decreases s.len(),
{
    if s.len() > 0 && is_white_space(s[0]) {
        trim_start(s.drop_first())
    } else {
        s
    }
}

/// `s` without its trailing white space.
pub open spec fn trim_end(s: Seq<char>) -> Seq<char>
    decreases s.len(),
{
    if s.len() > 0 && is_white_space(s.last()) {
        trim_end(s.drop_last())
    } else {
        s
    }
}

/// `s` without leading and trailing white space.
pub open spec fn trimmed(s: Seq<char>) -> Seq<char> {
    trim_end(trim_start(s))
}

proof fn lemma_trim_start_at(s: Seq<char>, i: int)
    requires
        0 <= i <= s.len(),
        forall|k: int| 0 <= k < i ==> is_white_space(#[trigger] s[k]),
        i == s.len() || !is_white_space(s[i]),
    ensures
        trim_start(s) == s.subrange(i, s.len() as int),
    decreases i,
{
    if i == 0 {
        assert(s.subrange(0, s.len() as int) =~= s);
    } else {
        let t = s.drop_first();
        assert forall|k: int| 0 <= k < i - 1 implies is_white_space(#[trigger] t[k]) by {
            assert(t[k] == s[k + 1]);
        }
        lemma_trim_start_at(t, i - 1);
        assert(t.subrange(i - 1, t.len() as int) =~= s.subrange(i, s.len() as int));
    }
}

proof fn lemma_trim_end_at(s: Seq<char>, j: int)
    requires
        0 <= j <= s.len(),
        forall|k: int| j <= k < s.len() ==> is_white_space(#[trigger] s[k]),
        j == 0 || !is_white_space(s[j - 1]),
    ensures
        trim_end(s) == s.subrange(0, j),
    decreases s.len() - j,
{
    if j == s.len() {
        assert(s.subrange(0, j) =~= s);
    } else {
        let t = s.drop_last();
        assert forall|k: int| j <= k < t.len() implies is_white_space(#[trigger] t[k]) by {
            assert(t[k] == s[k]);
        }
        lemma_trim_end_at(t, j);
        assert(t.subrange(0, j) =~= s.subrange(0, j));
    }
}

/// `str::trim`.
pub fn trim(s: &str) -> (r: &str)
    ensures
        r@ == trimmed(s@),
{
    let n = s.unicode_len();
    let mut i: usize = 0;
    while i < n && char_is_whitespace(s.get_char(i))
        invariant
            n == s@.len(),
            i <= n,
            forall|k: int| 0 <= k < i ==> is_white_space(#[trigger] s@[k]),
        decreases n - i,
    {
        i = i + 1;
    }
    let mut j: usize = n;
    while j > i && char_is_whitespace(s.get_char(j - 1))
        invariant
            n == s@.len(),
            i <= j <= n,
            forall|k: int| j <= k < n ==> is_white_space(#[trigger] s@[k]),
        decreases j,
    {
        j = j - 1;
    }
    proof {
        lemma_trim_start_at(s@, i as int);
        let t = s@.subrange(i as int, n as int);
        assert forall|k: int| j - i <= k < t.len() implies is_white_space(#[trigger] t[k]) by {
            assert(t[k] == s@[k + i]);
        }
        if j > i {
            assert(t[j - i - 1] == s@[j - 1]);
        }
        lemma_trim_end_at(t, j - i);
        assert(t.subrange(0, j - i) =~= s@.subrange(i as int, j as int));
    }
    s.substring_char(i, j)
}


/// Index of the first occurrence of `c` in `s`, or `s.len()` when absent.
pub open spec fn index_of(s: Seq<char>, c: char) -> int
    decreases s.len(),
{
    if s.len() == 0 {
        0
    } else if s[0] == c {
        0
    } else {
        1 + index_of(s.drop_first(), c)
    }
}

proof fn lemma_index_of_at(s: Seq<char>, c: char, i: int)
    requires
        0 <= i <= s.len(),
        forall|k: int| 0 <= k < i ==> #[trigger] s[k] != c,
        i == s.len() || s[i] == c,
    ensures
        index_of(s, c) == i,
    decreases i,
{
    if i > 0 {
        let t = s.drop_first();
        assert forall|k: int| 0 <= k < i - 1 implies #[trigger] t[k] != c by {
            assert(t[k] == s[k + 1]);
        }
        lemma_index_of_at(t, c, i - 1);
    }
}

/// Facts about `index_of`: it is in range, and no earlier character matches.
pub proof fn lemma_index_of_bounds(s: Seq<char>, c: char)
    ensures
        0 <= index_of(s, c) <= s.len(),
        index_of(s, c) < s.len() ==> s[index_of(s, c)] == c,
        forall|k: int| 0 <= k < index_of(s, c) ==> #[trigger] s[k] != c,
    decreases s.len(),
{
    if s.len() > 0 && s[0] != c {
        let t = s.drop_first();
        lemma_index_of_bounds(t, c);
        assert forall|k: int| 0 <= k < index_of(s, c) implies #[trigger] s[k] != c by {
            if k > 0 {
                assert(s[k] == t[k - 1]);
            }
        }
    }
}

/// `str::split_once` with a `char` pattern: the text before and after the
/// first occurrence of `c`, or `None` when `c` does not occur.
pub open spec fn split_once_spec(s: Seq<char>, c: char) -> Option<(Seq<char>, Seq<char>)> {
    let i = index_of(s, c);
    if i < s.len() {
        Some((s.subrange(0, i), s.subrange(i + 1, s.len() as int)))
    } else {
        None
    }
}

/// Position of the first `c` in `s` at or after `from`, or `s@.len()`.
fn find_char(s: &str, c: char, from: usize) -> (r: usize)
    requires
        from <= s@.len(),
    ensures
        from <= r <= s@.len(),
        r < s@.len() ==> s@[r as int] == c,
        forall|k: int| from <= k < r ==> #[trigger] s@[k] != c,
{
    let n = s.unicode_len();
    let mut i = from;
    while i < n && s.get_char(i) != c
        invariant
            n == s@.len(),
            from <= i <= n,
            forall|k: int| from <= k < i ==> #[trigger] s@[k] != c,
        decreases n - i,
    {
        i = i + 1;
    }
    i
}

/// `str::split_once(c)`.
pub fn split_once(s: &str, c: char) -> (r: Option<(&str, &str)>)
    ensures
        match r {
            Some((a, b)) => split_once_spec(s@, c) == Some((a@, b@)),
            None => split_once_spec(s@, c) is None,
        },
{
    let n = s.unicode_len();
    let i = find_char(s, c, 0);
    proof {
        lemma_index_of_at(s@, c, i as int);
    }
    if i < n {
        Some((s.substring_char(0, i), s.substring_char(i + 1, n)))
    } else {
        None
    }
}

/// `true` when `prefix` is a prefix of `s`.
pub open spec fn has_prefix(s: Seq<char>, prefix: Seq<char>) -> bool {
    prefix.len() <= s.len() && s.subrange(0, prefix.len() as int) == prefix
}

/// `true` when `suffix` is a suffix of `s`.
pub open spec fn has_suffix(s: Seq<char>, suffix: Seq<char>) -> bool {
    suffix.len() <= s.len() && s.subrange(s.len() - suffix.len(), s.len() as int) == suffix
}

/// Whether the characters of `s` from position `at` on begin with `w`.
fn matches_at(s: &str, at: usize, w: &str) -> (r: bool)
    requires
        at <= s@.len(),
    ensures
        r == (at + w@.len() <= s@.len() && s@.subrange(at as int, at + w@.len()) == w@),
{
    let n = s.unicode_len();
    let m = w.unicode_len();
    if m > n - at {
        return false;
    }
    let mut k: usize = 0;
    while k < m
        invariant
            n == s@.len(),
            m == w@.len(),
            at + m <= n,
            k <= m,
            forall|q: int| 0 <= q < k ==> s@[at + q] == #[trigger] w@[q],
        decreases m - k,
    {
        if s.get_char(at + k) != w.get_char(k) {
            assert(s@.subrange(at as int, at + m)[k as int] != w@[k as int]);
            return false;
        }
        k = k + 1;
    }
    assert(s@.subrange(at as int, at + m) =~= w@);
    true
}

/// `str::starts_with` with a `&str` pattern.
pub fn starts_with(s: &str, prefix: &str) -> (r: bool)
    ensures
        r == has_prefix(s@, prefix@),
{
    matches_at(s, 0, prefix)
}

/// Equality of the characters of two strings.
pub fn str_eq(a: &str, b: &str) -> (r: bool)
    ensures
        r == (a@ == b@),
{
    let r = a.unicode_len() == b.unicode_len() && matches_at(a, 0, b);
    proof {
        if a@.len() == b@.len() {
            assert(a@.subrange(0, b@.len() as int) =~= a@);
        }
    }
    r
}

/// `str::strip_suffix` with a `&str` pattern.
pub fn strip_suffix<'a>(s: &'a str, suffix: &str) -> (r: Option<&'a str>)
    ensures
        match r {
            Some(t) => has_suffix(s@, suffix@) && t@ == s@.subrange(0, s@.len() - suffix@.len()),
            None => !has_suffix(s@, suffix@),
        },
{
    let n = s.unicode_len();
    let m = suffix.unicode_len();
    if m > n {
        return None;
    }
    if matches_at(s, n - m, suffix) {
        Some(s.substring_char(0, n - m))
    } else {
        None
    }
}


/// A line without the carriage return that ended it.
pub open spec fn strip_cr(l: Seq<char>) -> Seq<char> {
    if l.len() > 0 && l.last() == '\r' {
        l.drop_last()
    } else {
        l
    }
}

/// `str::lines`: the pieces of `s` between `'\n'` characters, each without
/// a `'\r'` that stood just before its `'\n'`; a final line ending is
/// optional and yields no empty last line.
pub open spec fn lines_of(s: Seq<char>) -> Seq<Seq<char>>
    decreases s.len(),
{
    if s.len() == 0 {
        seq![]
    } else {
        let i = index_of(s, '\n');
        proof {
            lemma_index_of_bounds(s, '\n');
        }
        if i < s.len() {
            seq![strip_cr(s.subrange(0, i))] + lines_of(s.subrange(i + 1, s.len() as int))
        } else {
            seq![s]
        }
    }
}

/// The first line of the text of `s` that starts at `pos`, and the position
/// where the rest of the text starts.
pub fn next_line(s: &str, pos: usize) -> (r: (&str, usize))
    requires
        pos < s@.len(),
    ensures
        pos < r.1 <= s@.len(),
        lines_of(s@.subrange(pos as int, s@.len() as int)) == seq![r.0@] + lines_of(
            s@.subrange(r.1 as int, s@.len() as int),
        ),
{
    let n = s.unicode_len();
    let k = find_char(s, '\n', pos);
    let ghost t = s@.subrange(pos as int, n as int);
    proof {
        assert forall|q: int| 0 <= q < k - pos implies #[trigger] t[q] != '\n' by {
            assert(t[q] == s@[q + pos]);
        }
        if k < n {
            assert(t[k - pos] == s@[k as int]);
        }
        lemma_index_of_at(t, '\n', k - pos);
    }
    if k < n {
        let line = s.substring_char(pos, k);
        let m = k - pos;
        let line = if m > 0 && line.get_char(m - 1) == '\r' {
            line.substring_char(0, m - 1)
        } else {
            line
        };
        proof {
            assert(t.subrange(0, k - pos) =~= s@.subrange(pos as int, k as int));
            assert(t.subrange(k - pos + 1, t.len() as int) =~= s@.subrange(k + 1, n as int));
            assert(strip_cr(s@.subrange(pos as int, k as int)) =~= line@);
        }
        (line, k + 1)
    } else {
        proof {
            assert(lines_of(s@.subrange(n as int, n as int)) =~= Seq::<Seq<char>>::empty());
            assert(seq![t] + Seq::<Seq<char>>::empty() =~= seq![t]);
        }
        (s.substring_char(pos, n), n)
    }
}

/// `s` without the trailing run of `c` characters.
pub open spec fn trim_end_char(s: Seq<char>, c: char) -> Seq<char>
    decreases s.len(),
{
    if s.len() > 0 && s.last() == c {
        trim_end_char(s.drop_last(), c)
    } else {
        s
    }
}

proof fn lemma_trim_end_char_at(s: Seq<char>, c: char, j: int)
    requires
        0 <= j <= s.len(),
        forall|k: int| j <= k < s.len() ==> #[trigger] s[k] == c,
        j == 0 || s[j - 1] != c,
    ensures
        trim_end_char(s, c) == s.subrange(0, j),
    decreases s.len() - j,
{
    if j == s.len() {
        assert(s.subrange(0, j) =~= s);
    } else {
        let t = s.drop_last();
        assert forall|k: int| j <= k < t.len() implies #[trigger] t[k] == c by {
            assert(t[k] == s[k]);
        }
        lemma_trim_end_char_at(t, c, j);
        assert(t.subrange(0, j) =~= s.subrange(0, j));
    }
}

/// `str::trim_end_matches` with a `char` pattern.
pub fn trim_end_matches(s: &str, c: char) -> (r: &str)
    ensures
        r@ == trim_end_char(s@, c),
{
    let n = s.unicode_len();
    let mut j: usize = n;
    while j > 0 && s.get_char(j - 1) == c
        invariant
            n == s@.len(),
            j <= n,
            forall|k: int| j <= k < n ==> #[trigger] s@[k] == c,
        decreases j,
    {
        j = j - 1;
    }
    proof {
        lemma_trim_end_char_at(s@, c, j as int);
    }
    s.substring_char(0, j)
}

/// `std::str::from_utf8`: succeeds exactly on valid UTF-8, and then yields the
/// characters that the bytes encode.
#[verifier::external_body]
pub(crate) fn str_from_utf8(b: &[u8]) -> (r: Option<&str>)
    ensures
        r is Some <==> vstd::utf8::valid_utf8(b@),
        r matches Some(t) ==> t@ == vstd::utf8::decode_utf8(b@),
{
    std::str::from_utf8(b).ok()
}

/// Whether `c` is a digit in the given radix (10 or 16), as `char::to_digit`.
pub open spec fn is_digit_in(c: char, radix: nat) -> bool {
    ||| ('0' <= c && c <= '9')
    ||| (radix == 16 && (('a' <= c && c <= 'f') || ('A' <= c && c <= 'F')))
}

/// The value of a digit character.
pub open spec fn digit_value(c: char) -> nat {
    if '0' <= c && c <= '9' {
        (c as int - '0' as int) as nat
    } else if 'a' <= c && c <= 'f' {
        (c as int - 'a' as int + 10) as nat
    } else {
        (c as int - 'A' as int + 10) as nat
    }
}

/// Whether every character of `s` is a digit in the radix.
pub open spec fn all_digits(s: Seq<char>, radix: nat) -> bool {
    forall|i: int| 0 <= i < s.len() ==> is_digit_in(#[trigger] s[i], radix)
}

/// The number that the digits `s` denote in the radix, most significant first.
pub open spec fn digits_value(s: Seq<char>, radix: nat) -> nat
    decreases s.len(),
{
    if s.len() == 0 {
        0
    } else {
        digits_value(s.drop_last(), radix) * radix + digit_value(s.last())
    }
}

/// `from_str_radix` for an unsigned type whose largest value is `max`: an
/// optional `'+'`, then one or more digits, denoting at most `max`.
pub open spec fn parse_unsigned(s: Seq<char>, radix: nat, max: nat) -> Option<nat> {
    let d = if s.len() > 0 && s[0] == '+' {
        s.drop_first()
    } else {
        s
    };
    if d.len() > 0 && all_digits(d, radix) && digits_value(d, radix) <= max {
        Some(digits_value(d, radix))
    } else {
        None
    }
}

/// `from_str_radix` for a signed type with range `min..=max`: an optional
/// `'+'` or `'-'`, then one or more digits, denoting a value in range.
pub open spec fn parse_signed(s: Seq<char>, radix: nat, min: int, max: int) -> Option<int> {
    let neg = s.len() > 0 && s[0] == '-';
    let d = if s.len() > 0 && (s[0] == '+' || s[0] == '-') {
        s.drop_first()
    } else {
        s
    };
    let v = if neg {
        -digits_value(d, radix)
    } else {
        digits_value(d, radix) as int
    };
    if d.len() > 0 && all_digits(d, radix) && min <= v <= max {
        Some(v)
    } else {
        None
    }
}

/// `u32::from_str_radix(s, 16)`, its error taken to `None`.
#[verifier::external_body]
pub(crate) fn u32_from_hex(s: &str) -> (r: Option<u32>)
    ensures
        r == (match parse_unsigned(s@, 16, u32::MAX as nat) {
            Some(v) => Some(v as u32),
            None => None,
        }),
{
    u32::from_str_radix(s, 16).ok()
}

/// `str::parse::<u64>`, its error taken to `None`.
#[verifier::external_body]
pub(crate) fn u64_from_decimal(s: &str) -> (r: Option<u64>)
    ensures
        r == (match parse_unsigned(s@, 10, u64::MAX as nat) {
            Some(v) => Some(v as u64),
            None => None,
        }),
{
    s.parse::<u64>().ok()
}

/// `str::parse::<i32>`, its error taken to `None`.
#[verifier::external_body]
pub(crate) fn i32_from_decimal(s: &str) -> (r: Option<i32>)
    ensures
        r == (match parse_signed(s@, 10, i32::MIN as int, i32::MAX as int) {
            Some(v) => Some(v as i32),
            None => None,
        }),
{
    s.parse::<i32>().ok()
}

} // verus!
