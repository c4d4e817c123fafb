//! Character-level text primitives shared by every parser.
//!
//! Command output arrives as `&str`; the parsers work on its characters. Each
//! primitive here has a spec function on `Seq<char>` (what it means) and an
//! executable function on `Vec<char>` proved to compute it. The definitions
//! follow the documented behaviour of the corresponding `str` methods
//! (`trim`, `lines`, `split_whitespace`, `split_once`, integer `parse`).

use vstd::prelude::*;
use vstd::utf8::encode_utf8;

verus! {

/// The Unicode `White_Space` property, which `char::is_whitespace`, `str::trim`
/// and `str::split_whitespace` are defined by.
pub open spec fn is_ws(c: char) -> bool {
    let u = c as u32;
    ||| (0x09 <= u && u <= 0x0D)
    ||| u == 0x20
    ||| u == 0x85
    ||| u == 0xA0
    ||| u == 0x1680
    ||| (0x2000 <= u && u <= 0x200A)
    ||| u == 0x2028
    ||| u == 0x2029
    ||| u == 0x202F
    ||| u == 0x205F
    ||| u == 0x3000
}

/// A Unicode decimal digit (general category `Nd`, Unicode 16), the class
/// that `\d` matches in Rust's `regex`.
pub open spec fn is_decimal_digit(c: char) -> bool {
    let u = c as u32;
    ||| (0x30 <= u && u <= 0x39)
    ||| (0x660 <= u && u <= 0x669)
    ||| (0x6F0 <= u && u <= 0x6F9)
    ||| (0x7C0 <= u && u <= 0x7C9)
    ||| (0x966 <= u && u <= 0x96F)
    ||| (0x9E6 <= u && u <= 0x9EF)
    ||| (0xA66 <= u && u <= 0xA6F)
    ||| (0xAE6 <= u && u <= 0xAEF)
    ||| (0xB66 <= u && u <= 0xB6F)
    ||| (0xBE6 <= u && u <= 0xBEF)
    ||| (0xC66 <= u && u <= 0xC6F)
    ||| (0xCE6 <= u && u <= 0xCEF)
    ||| (0xD66 <= u && u <= 0xD6F)
    ||| (0xDE6 <= u && u <= 0xDEF)
    ||| (0xE50 <= u && u <= 0xE59)
    ||| (0xED0 <= u && u <= 0xED9)
    ||| (0xF20 <= u && u <= 0xF29)
    ||| (0x1040 <= u && u <= 0x1049)
    ||| (0x1090 <= u && u <= 0x1099)
    ||| (0x17E0 <= u && u <= 0x17E9)
    ||| (0x1810 <= u && u <= 0x1819)
    ||| (0x1946 <= u && u <= 0x194F)
    ||| (0x19D0 <= u && u <= 0x19D9)
    ||| (0x1A80 <= u && u <= 0x1A89)
    ||| (0x1A90 <= u && u <= 0x1A99)
    ||| (0x1B50 <= u && u <= 0x1B59)
    ||| (0x1BB0 <= u && u <= 0x1BB9)
    ||| (0x1C40 <= u && u <= 0x1C49)
    ||| (0x1C50 <= u && u <= 0x1C59)
    ||| (0xA620 <= u && u <= 0xA629)
    ||| (0xA8D0 <= u && u <= 0xA8D9)
    ||| (0xA900 <= u && u <= 0xA909)
    ||| (0xA9D0 <= u && u <= 0xA9D9)
    ||| (0xA9F0 <= u && u <= 0xA9F9)
    ||| (0xAA50 <= u && u <= 0xAA59)
    ||| (0xABF0 <= u && u <= 0xABF9)
    ||| (0xFF10 <= u && u <= 0xFF19)
    ||| (0x104A0 <= u && u <= 0x104A9)
    ||| (0x10D30 <= u && u <= 0x10D39)
    ||| (0x10D40 <= u && u <= 0x10D49)
    ||| (0x11066 <= u && u <= 0x1106F)
    ||| (0x110F0 <= u && u <= 0x110F9)
    ||| (0x11136 <= u && u <= 0x1113F)
    ||| (0x111D0 <= u && u <= 0x111D9)
    ||| (0x112F0 <= u && u <= 0x112F9)
    ||| (0x11450 <= u && u <= 0x11459)
    ||| (0x114D0 <= u && u <= 0x114D9)
    ||| (0x11650 <= u && u <= 0x11659)
    ||| (0x116C0 <= u && u <= 0x116C9)
    ||| (0x116D0 <= u && u <= 0x116E3)
    ||| (0x11730 <= u && u <= 0x11739)
    ||| (0x118E0 <= u && u <= 0x118E9)
    ||| (0x11950 <= u && u <= 0x11959)
    ||| (0x11BF0 <= u && u <= 0x11BF9)
    ||| (0x11C50 <= u && u <= 0x11C59)
    ||| (0x11D50 <= u && u <= 0x11D59)
    ||| (0x11DA0 <= u && u <= 0x11DA9)
    ||| (0x11F50 <= u && u <= 0x11F59)
    ||| (0x16130 <= u && u <= 0x16139)
    ||| (0x16A60 <= u && u <= 0x16A69)
    ||| (0x16AC0 <= u && u <= 0x16AC9)
    ||| (0x16B50 <= u && u <= 0x16B59)
    ||| (0x16D70 <= u && u <= 0x16D79)
    ||| (0x1CCF0 <= u && u <= 0x1CCF9)
    ||| (0x1D7CE <= u && u <= 0x1D7FF)
    ||| (0x1E140 <= u && u <= 0x1E149)
    ||| (0x1E2F0 <= u && u <= 0x1E2F9)
    ||| (0x1E4F0 <= u && u <= 0x1E4F9)
    ||| (0x1E5F1 <= u && u <= 0x1E5FA)
    ||| (0x1E950 <= u && u <= 0x1E959)
    ||| (0x1FBF0 <= u && u <= 0x1FBF9)
}

/// A class of characters that a scan can stop at.
#[derive(Clone, Copy)]
pub enum CharClass {
    /// Exactly this character.
    Is(char),
    /// Either of two characters.
    Either(char, char),
    /// Any `White_Space` character.
    Space,
    /// A Unicode decimal digit.
    Decimal,
}

pub open spec fn in_class(k: CharClass, c: char) -> bool {
    match k {
        CharClass::Is(a) => c == a,
        CharClass::Either(a, b) => c == a || c == b,
        CharClass::Space => is_ws(c),
        CharClass::Decimal => is_decimal_digit(c),
    }
}

/// Index of the first character of `s` in class `k`.
pub open spec fn find(s: Seq<char>, k: CharClass) -> Option<int>
    decreases s.len(),
{
    if s.len() == 0 {
        None
    } else if in_class(k, s[0]) {
        Some(0)
    } else {
        match find(s.drop_first(), k) {
            Some(i) => Some(i + 1),
            None => None,
        }
    }
}

pub proof fn lemma_find(s: Seq<char>, k: CharClass)
    ensures
        find(s, k) matches Some(i) ==> 0 <= i < s.len() && in_class(k, s[i]) && forall|j: int|
            0 <= j < i ==> !in_class(k, #[trigger] s[j]),
        find(s, k) is None ==> forall|j: int| 0 <= j < s.len() ==> !in_class(k, #[trigger] s[j]),
    decreases s.len(),
{
    if s.len() > 0 {
        lemma_find(s.drop_first(), k);
        if !in_class(k, s[0]) {
            assert forall|j: int| 1 <= j < s.len() implies s[j] == s.drop_first()[j - 1] by {}
        }
    }
}

/// `find` is pinned down by "no earlier match, match here" and by "no match at all".
pub proof fn lemma_find_at(s: Seq<char>, k: CharClass, i: int)
    requires
        0 <= i <= s.len(),
        forall|j: int| 0 <= j < i ==> !in_class(k, #[trigger] s[j]),
    ensures
        i < s.len() && in_class(k, s[i]) ==> find(s, k) == Some(i),
        i == s.len() ==> find(s, k) is None,
{
    lemma_find(s, k);
    match find(s, k) {
        Some(m) => {
            if m < i {
                assert(!in_class(k, s[m]));
            }
        },
        None => {},
    }
}

/// End of the run of class-`k` characters that starts at `i`.
pub open spec fn run_end(s: Seq<char>, i: int, k: CharClass) -> int
    decreases s.len() - i,
{
    if 0 <= i < s.len() && in_class(k, s[i]) {
        run_end(s, i + 1, k)
    } else {
        i
    }
}

pub proof fn lemma_run_end(s: Seq<char>, i: int, j: int, k: CharClass)
    requires
        0 <= i <= j <= s.len(),
        forall|x: int| i <= x < j ==> in_class(k, #[trigger] s[x]),
        j == s.len() || !in_class(k, s[j]),
    ensures
        run_end(s, i, k) == j,
    decreases j - i,
{
    if i < j {
        lemma_run_end(s, i + 1, j, k);
    }
}

pub open spec fn trim_start(s: Seq<char>) -> Seq<char>
    decreases s.len(),
{
    if s.len() > 0 && is_ws(s[0]) {
        trim_start(s.drop_first())
    } else {
        s
    }
}

pub open spec fn trim_end(s: Seq<char>) -> Seq<char>
    decreases s.len(),
{
    if s.len() > 0 && is_ws(s.last()) {
        trim_end(s.drop_last())
    } else {
        s
    }
}

/// `str::trim`: leading and trailing white space removed.
pub open spec fn trim(s: Seq<char>) -> Seq<char> {
    trim_end(trim_start(s))
}

pub proof fn lemma_trim_start_skip(s: Seq<char>, i: int)
    requires
        0 <= i <= s.len(),
        forall|j: int| 0 <= j < i ==> is_ws(#[trigger] s[j]),
    ensures
        trim_start(s) == trim_start(s.skip(i)),
    decreases i,
{
    if i > 0 {
        assert(is_ws(s[0]));
        assert(trim_start(s) == trim_start(s.drop_first()));
        assert(s.drop_first().skip(i - 1) =~= s.skip(i));
        assert forall|j: int| 0 <= j < i - 1 implies is_ws(#[trigger] s.drop_first()[j]) by {
            assert(s.drop_first()[j] == s[j + 1]);
        }
        lemma_trim_start_skip(s.drop_first(), i - 1);
    } else {
        assert(s.skip(0) =~= s);
    }
}

pub proof fn lemma_trim_end_take(s: Seq<char>, i: int)
    requires
        0 <= i <= s.len(),
        forall|j: int| i <= j < s.len() ==> is_ws(#[trigger] s[j]),
    ensures
        trim_end(s) == trim_end(s.take(i)),
    decreases s.len() - i,
{
    if i < s.len() {
        assert(is_ws(s[s.len() - 1]));
        assert(trim_end(s) == trim_end(s.drop_last()));
        assert(s.drop_last().take(i) =~= s.take(i));
        assert forall|j: int| i <= j < s.len() - 1 implies is_ws(#[trigger] s.drop_last()[j]) by {
            assert(s.drop_last()[j] == s[j]);
        }
        lemma_trim_end_take(s.drop_last(), i);
    } else {
        assert(s.take(i) =~= s);
    }
}

pub proof fn lemma_trim_start_shape(s: Seq<char>)
    ensures
        trim_start(s).len() <= s.len(),
        trim_start(s) == s.skip(s.len() - trim_start(s).len()),
        trim_start(s).len() > 0 ==> !is_ws(trim_start(s)[0]),
    decreases s.len(),
{
    if s.len() > 0 && is_ws(s[0]) {
        lemma_trim_start_shape(s.drop_first());
        assert(s.drop_first().skip(s.drop_first().len() - trim_start(s.drop_first()).len())
            =~= s.skip(s.len() - trim_start(s).len()));
    } else {
        assert(s.skip(0) =~= s);
    }
}

pub proof fn lemma_trim_end_shape(s: Seq<char>)
    ensures
        trim_end(s).len() <= s.len(),
        trim_end(s) == s.take(trim_end(s).len() as int),
        trim_end(s).len() > 0 ==> !is_ws(trim_end(s).last()),
    decreases s.len(),
{
    if s.len() > 0 && is_ws(s.last()) {
        lemma_trim_end_shape(s.drop_last());
        assert(s.drop_last().take(trim_end(s.drop_last()).len() as int) =~= s.take(
            trim_end(s).len() as int,
        ));
    } else {
        assert(s.take(s.len() as int) =~= s);
    }
}

/// `str::lines` drops a `\r` that ends a line terminated by `\n`.
pub open spec fn strip_cr(l: Seq<char>) -> Seq<char> {
    if l.len() > 0 && l.last() == '\r' {
        l.drop_last()
    } else {
        l
    }
}

/// `str::lines`: split at `\n` (and `\r\n`); a final line ending is optional,
/// and the empty string has no lines.
pub open spec fn lines(s: Seq<char>) -> Seq<Seq<char>>
    decreases s.len(),
{
    if s.len() == 0 {
        seq![]
    } else {
        match find(s, CharClass::Is('\n')) {
            Some(i) => {
                proof {
                    lemma_find(s, CharClass::Is('\n'));
                }
                seq![strip_cr(s.take(i))] + lines(s.skip(i + 1))
            },
            None => seq![s],
        }
    }
}

/// `str::split` at a single character: the pieces between occurrences of
/// `c`; there is always at least one piece.
pub open spec fn split_on(s: Seq<char>, c: char) -> Seq<Seq<char>>
    decreases s.len(),
{
    match find(s, CharClass::Is(c)) {
        Some(i) => {
            proof {
                lemma_find(s, CharClass::Is(c));
            }
            seq![s.take(i)] + split_on(s.skip(i + 1), c)
        },
        None => seq![s],
    }
}

pub open spec fn is_ascii_alpha(c: char) -> bool {
    ('a' <= c && c <= 'z') || ('A' <= c && c <= 'Z')
}

/// `char::is_ascii_alphanumeric`.
pub open spec fn is_ascii_alnum(c: char) -> bool {
    is_ascii_alpha(c) || is_digit(c)
}

/// The decimal digit character for `d` (0 to 9).
pub open spec fn digit_char(d: nat) -> char {
    if d == 0 {
        '0'
    } else if d == 1 {
        '1'
    } else if d == 2 {
        '2'
    } else if d == 3 {
        '3'
    } else if d == 4 {
        '4'
    } else if d == 5 {
        '5'
    } else if d == 6 {
        '6'
    } else if d == 7 {
        '7'
    } else if d == 8 {
        '8'
    } else {
        '9'
    }
}

/// `n` written in decimal, as `Display` writes an unsigned integer.
pub open spec fn decimal(n: nat) -> Seq<char>
    decreases n,
{
    if n < 10 {
        seq![digit_char(n)]
    } else {
        decimal(n / 10) + seq![digit_char(n % 10)]
    }
}

/// `str::split_whitespace`: the maximal runs of non-white-space characters.
pub open spec fn tokens(s: Seq<char>) -> Seq<Seq<char>>
    decreases s.len(),
{
    let t = trim_start(s);
    proof {
        lemma_trim_start_shape(s);
    }
    if t.len() == 0 {
        seq![]
    } else {
        match find(t, CharClass::Space) {
            Some(k) => {
                proof {
                    lemma_find(t, CharClass::Space);
                }
                seq![t.take(k)] + tokens(t.skip(k))
            },
            None => seq![t],
        }
    }
}

/// `str::split_once` with a character class as the delimiter.
pub open spec fn split_once(s: Seq<char>, k: CharClass) -> Option<(Seq<char>, Seq<char>)> {
    match find(s, k) {
        Some(i) => Some((s.take(i), s.skip(i + 1))),
        None => None,
    }
}

pub open spec fn starts_with(s: Seq<char>, p: Seq<char>) -> bool {
    p.len() <= s.len() && s.take(p.len() as int) == p
}

/// `str::strip_prefix`.
pub open spec fn strip_prefix(s: Seq<char>, p: Seq<char>) -> Option<Seq<char>> {
    if starts_with(s, p) {
        Some(s.skip(p.len() as int))
    } else {
        None
    }
}

/// `str::contains` with a string needle.
pub open spec fn contains_at(s: Seq<char>, n: Seq<char>, i: int) -> bool {
    0 <= i && i + n.len() <= s.len() && s.subrange(i, i + n.len()) == n
}

pub open spec fn contains(s: Seq<char>, n: Seq<char>) -> bool {
    exists|i: int| contains_at(s, n, i)
}

pub open spec fn is_digit(c: char) -> bool {
    '0' <= c && c <= '9'
}

pub open spec fn all_digits(s: Seq<char>) -> bool {
    forall|i: int| 0 <= i < s.len() ==> is_digit(#[trigger] s[i])
}

/// The value of a string of decimal digits.
pub open spec fn digits_value(s: Seq<char>) -> nat
    decreases s.len(),
{
    if s.len() == 0 {
        0
    } else {
        digits_value(s.drop_last()) * 10 + ((s.last() as u32) - ('0' as u32)) as nat
    }
}

/// The digits after an optional leading `+`.
pub open spec fn unsigned_digits(s: Seq<char>) -> Seq<char> {
    if s.len() > 0 && s[0] == '+' {
        s.drop_first()
    } else {
        s
    }
}

/// `str::parse` for an unsigned integer whose largest value is `max`: an
/// optional `+`, then at least one ASCII digit and nothing else.
pub open spec fn parse_unsigned(s: Seq<char>, max: nat) -> Option<nat> {
    let d = unsigned_digits(s);
    if d.len() > 0 && all_digits(d) && digits_value(d) <= max {
        Some(digits_value(d))
    } else {
        None
    }
}

pub open spec fn parse_u64(s: Seq<char>) -> Option<u64> {
    match parse_unsigned(s, u64::MAX as nat) {
        Some(v) => Some(v as u64),
        None => None,
    }
}

pub open spec fn parse_u32(s: Seq<char>) -> Option<u32> {
    match parse_unsigned(s, u32::MAX as nat) {
        Some(v) => Some(v as u32),
        None => None,
    }
}

pub open spec fn parse_u8(s: Seq<char>) -> Option<u8> {
    match parse_unsigned(s, u8::MAX as nat) {
        Some(v) => Some(v as u8),
        None => None,
    }
}

/// `str::parse::<i64>`: an optional `+` or `-`, then at least one ASCII digit.
pub open spec fn parse_i64(s: Seq<char>) -> Option<i64> {
    if s.len() > 0 && s[0] == '-' {
        let d = s.drop_first();
        if d.len() > 0 && all_digits(d) && digits_value(d) <= 0x8000_0000_0000_0000 {
            Some((-(digits_value(d) as int)) as i64)
        } else {
            None
        }
    } else {
        match parse_unsigned(s, i64::MAX as nat) {
            Some(v) => Some(v as i64),
            None => None,
        }
    }
}

/// The views of a sequence of character vectors.
pub open spec fn views(vs: Seq<Vec<char>>) -> Seq<Seq<char>> {
    vs.map_values(|v: Vec<char>| v@)
}

// ---------------------------------------------------------------------------
// Executable side
// ---------------------------------------------------------------------------

/// The characters of `s`, in order.
pub fn chars_of(s: &str) -> (r: Vec<char>)
    ensures
        r@ == s@,
{
    let mut r: Vec<char> = Vec::new();
    for c in it: s.chars()
        invariant
            r@ == it.seq().take(it.index() as int),
            it.seq() == s@,
    {
        r.push(c);
    }
    r
}

/// A `String` holding exactly the given characters (`FromIterator<char>`).
#[verifier::external_body]
pub(crate) fn string_of(cs: &[char]) -> (r: String)
    ensures
        r@ == cs@,
{
    cs.iter().collect()
}

/// Whether `c` is a Unicode decimal digit.
pub fn is_decimal_digit_char(c: char) -> (r: bool)
    ensures
        r == is_decimal_digit(c),
{
    let u = c as u32;
    (0x30 <= u && u <= 0x39) ||
        (0x660 <= u && u <= 0x669) ||
        (0x6F0 <= u && u <= 0x6F9) ||
        (0x7C0 <= u && u <= 0x7C9) ||
        (0x966 <= u && u <= 0x96F) ||
        (0x9E6 <= u && u <= 0x9EF) ||
        (0xA66 <= u && u <= 0xA6F) ||
        (0xAE6 <= u && u <= 0xAEF) ||
        (0xB66 <= u && u <= 0xB6F) ||
        (0xBE6 <= u && u <= 0xBEF) ||
        (0xC66 <= u && u <= 0xC6F) ||
        (0xCE6 <= u && u <= 0xCEF) ||
        (0xD66 <= u && u <= 0xD6F) ||
        (0xDE6 <= u && u <= 0xDEF) ||
        (0xE50 <= u && u <= 0xE59) ||
        (0xED0 <= u && u <= 0xED9) ||
        (0xF20 <= u && u <= 0xF29) ||
        (0x1040 <= u && u <= 0x1049) ||
        (0x1090 <= u && u <= 0x1099) ||
        (0x17E0 <= u && u <= 0x17E9) ||
        (0x1810 <= u && u <= 0x1819) ||
        (0x1946 <= u && u <= 0x194F) ||
        (0x19D0 <= u && u <= 0x19D9) ||
        (0x1A80 <= u && u <= 0x1A89) ||
        (0x1A90 <= u && u <= 0x1A99) ||
        (0x1B50 <= u && u <= 0x1B59) ||
        (0x1BB0 <= u && u <= 0x1BB9) ||
        (0x1C40 <= u && u <= 0x1C49) ||
        (0x1C50 <= u && u <= 0x1C59) ||
        (0xA620 <= u && u <= 0xA629) ||
        (0xA8D0 <= u && u <= 0xA8D9) ||
        (0xA900 <= u && u <= 0xA909) ||
        (0xA9D0 <= u && u <= 0xA9D9) ||
        (0xA9F0 <= u && u <= 0xA9F9) ||
        (0xAA50 <= u && u <= 0xAA59) ||
        (0xABF0 <= u && u <= 0xABF9) ||
        (0xFF10 <= u && u <= 0xFF19) ||
        (0x104A0 <= u && u <= 0x104A9) ||
        (0x10D30 <= u && u <= 0x10D39) ||
        (0x10D40 <= u && u <= 0x10D49) ||
        (0x11066 <= u && u <= 0x1106F) ||
        (0x110F0 <= u && u <= 0x110F9) ||
        (0x11136 <= u && u <= 0x1113F) ||
        (0x111D0 <= u && u <= 0x111D9) ||
        (0x112F0 <= u && u <= 0x112F9) ||
        (0x11450 <= u && u <= 0x11459) ||
        (0x114D0 <= u && u <= 0x114D9) ||
        (0x11650 <= u && u <= 0x11659) ||
        (0x116C0 <= u && u <= 0x116C9) ||
        (0x116D0 <= u && u <= 0x116E3) ||
        (0x11730 <= u && u <= 0x11739) ||
        (0x118E0 <= u && u <= 0x118E9) ||
        (0x11950 <= u && u <= 0x11959) ||
        (0x11BF0 <= u && u <= 0x11BF9) ||
        (0x11C50 <= u && u <= 0x11C59) ||
        (0x11D50 <= u && u <= 0x11D59) ||
        (0x11DA0 <= u && u <= 0x11DA9) ||
        (0x11F50 <= u && u <= 0x11F59) ||
        (0x16130 <= u && u <= 0x16139) ||
        (0x16A60 <= u && u <= 0x16A69) ||
        (0x16AC0 <= u && u <= 0x16AC9) ||
        (0x16B50 <= u && u <= 0x16B59) ||
        (0x16D70 <= u && u <= 0x16D79) ||
        (0x1CCF0 <= u && u <= 0x1CCF9) ||
        (0x1D7CE <= u && u <= 0x1D7FF) ||
        (0x1E140 <= u && u <= 0x1E149) ||
        (0x1E2F0 <= u && u <= 0x1E2F9) ||
        (0x1E4F0 <= u && u <= 0x1E4F9) ||
        (0x1E5F1 <= u && u <= 0x1E5FA) ||
        (0x1E950 <= u && u <= 0x1E959) ||
        (0x1FBF0 <= u && u <= 0x1FBF9)
}

pub fn is_ws_char(c: char) -> (b: bool)
    ensures
        b == is_ws(c),
{
    let u = c as u32;
    (0x09 <= u && u <= 0x0D) || u == 0x20 || u == 0x85 || u == 0xA0 || u == 0x1680 || (0x2000
        <= u && u <= 0x200A) || u == 0x2028 || u == 0x2029 || u == 0x202F || u == 0x205F || u
        == 0x3000
}

pub fn in_class_char(k: CharClass, c: char) -> (b: bool)
    ensures
        b == in_class(k, c),
{
    match k {
        CharClass::Is(a) => c == a,
        CharClass::Either(a, b) => c == a || c == b,
        CharClass::Space => is_ws_char(c),
        CharClass::Decimal => is_decimal_digit_char(c),
    }
}

/// A copy of `v[from..to]`.
pub fn copy_range(v: &Vec<char>, from: usize, to: usize) -> (r: Vec<char>)
    requires
        from <= to <= v.len(),
    ensures
        r@ == v@.subrange(from as int, to as int),
{
    let mut r: Vec<char> = Vec::new();
    let mut i = from;
    while i < to
        invariant
            from <= i <= to <= v.len(),
            r@ == v@.subrange(from as int, i as int),
        decreases to - i,
    {
        r.push(v[i]);
        i += 1;
    }
    r
}

/// Index of the first character of `v[from..]` in class `k`, counted from `from`.
pub fn find_from(v: &Vec<char>, from: usize, k: CharClass) -> (r: Option<usize>)
    requires
        from <= v.len(),
    ensures
        match r {
            Some(i) => from <= i < v.len() && find(v@.skip(from as int), k) == Some(i - from),
            None => find(v@.skip(from as int), k) is None,
        },
{
    let ghost s = v@.skip(from as int);
    let mut i = from;
    while i < v.len()
        invariant
            from <= i <= v.len(),
            s == v@.skip(from as int),
            forall|j: int| 0 <= j < i - from ==> !in_class(k, #[trigger] s[j]),
        decreases v.len() - i,
    {
        if in_class_char(k, v[i]) {
            proof {
                lemma_find_at(s, k, i - from);
            }
            return Some(i);
        }
        i += 1;
    }
    proof {
        lemma_find_at(s, k, i - from);
    }
    None
}

pub fn find_class(v: &Vec<char>, k: CharClass) -> (r: Option<usize>)
    ensures
        match r {
            Some(i) => find(v@, k) == Some(i as int),
            None => find(v@, k) is None,
        },
{
    assert(v@.skip(0) =~= v@);
    find_from(v, 0, k)
}

/// End of the run of class-`k` characters that starts at `i`.
pub fn run_end_vec(v: &Vec<char>, i: usize, k: CharClass) -> (r: usize)
    requires
        i <= v.len(),
    ensures
        r == run_end(v@, i as int, k),
        i <= r <= v.len(),
{
    let mut j = i;
    while j < v.len() && in_class_char(k, v[j])
        invariant
            i <= j <= v.len(),
            forall|x: int| i <= x < j ==> in_class(k, #[trigger] v@[x]),
        decreases v.len() - j,
    {
        j += 1;
    }
    proof {
        lemma_run_end(v@, i as int, j as int, k);
    }
    j
}

pub fn trim_start_vec(v: &Vec<char>) -> (r: Vec<char>)
    ensures
        r@ == trim_start(v@),
{
    let mut i: usize = 0;
    while i < v.len() && is_ws_char(v[i])
        invariant
            i <= v.len(),
            forall|j: int| 0 <= j < i ==> is_ws(#[trigger] v@[j]),
        decreases v.len() - i,
    {
        i += 1;
    }
    proof {
        lemma_trim_start_skip(v@, i as int);
    }
    let r = copy_range(v, i, v.len());
    assert(r@ =~= v@.skip(i as int));
    r
}

pub fn trim_end_vec(v: &Vec<char>) -> (r: Vec<char>)
    ensures
        r@ == trim_end(v@),
{
    let mut j: usize = v.len();
    while j > 0 && is_ws_char(v[j - 1])
        invariant
            j <= v.len(),
            forall|x: int| j <= x < v.len() ==> is_ws(#[trigger] v@[x]),
        decreases j,
    {
        j -= 1;
    }
    proof {
        lemma_trim_end_take(v@, j as int);
    }
    let r = copy_range(v, 0, j);
    assert(r@ =~= v@.take(j as int));
    r
}

/// `str::trim`.
pub fn trim_vec(v: &Vec<char>) -> (r: Vec<char>)
    ensures
        r@ == trim(v@),
{
    let a = trim_start_vec(v);
    trim_end_vec(&a)
}

pub fn eq_chars(a: &Vec<char>, b: &Vec<char>) -> (r: bool)
    ensures
        r == (a@ == b@),
{
    if a.len() != b.len() {
        return false;
    }
    let mut i: usize = 0;
    while i < a.len()
        invariant
            a.len() == b.len(),
            i <= a.len(),
            forall|j: int| 0 <= j < i ==> a@[j] == b@[j],
        decreases a.len() - i,
    {
        if a[i] != b[i] {
            return false;
        }
        i += 1;
    }
    assert(a@ =~= b@);
    true
}

/// Whether `p` occurs in `v` at position `at`.
pub fn occurs_at(v: &Vec<char>, p: &Vec<char>, at: usize) -> (r: bool)
    requires
        at <= v.len(),
    ensures
        r == contains_at(v@, p@, at as int),
{
    if p.len() > v.len() - at {
        return false;
    }
    let mut i: usize = 0;
    while i < p.len()
        invariant
            at + p.len() <= v.len(),
            i <= p.len(),
            forall|j: int| 0 <= j < i ==> v@[at + j] == p@[j],
        decreases p.len() - i,
    {
        if v[at + i] != p[i] {
            assert(v@.subrange(at as int, at + p.len())[i as int] != p@[i as int]);
            return false;
        }
        i += 1;
    }
    assert(v@.subrange(at as int, at + p.len()) =~= p@);
    true
}

pub fn starts_with_vec(v: &Vec<char>, p: &Vec<char>) -> (r: bool)
    ensures
        r == starts_with(v@, p@),
{
    let r = occurs_at(v, p, 0);
    assert(v@.subrange(0, p@.len() as int) =~= v@.take(p@.len() as int));
    r
}

/// `str::strip_prefix`.
pub fn strip_prefix_vec(v: &Vec<char>, p: &Vec<char>) -> (r: Option<Vec<char>>)
    ensures
        match r {
            Some(x) => strip_prefix(v@, p@) == Some(x@),
            None => strip_prefix(v@, p@) is None,
        },
{
    if starts_with_vec(v, p) {
        let x = copy_range(v, p.len(), v.len());
        assert(x@ =~= v@.skip(p@.len() as int));
        Some(x)
    } else {
        None
    }
}

/// `str::strip_prefix` with a literal prefix.
pub fn strip_prefix_str(v: &Vec<char>, p: &str) -> (r: Option<Vec<char>>)
    ensures
        match r {
            Some(x) => strip_prefix(v@, p@) == Some(x@),
            None => strip_prefix(v@, p@) is None,
        },
{
    let pv = chars_of(p);
    strip_prefix_vec(v, &pv)
}

pub fn starts_with_str(v: &Vec<char>, p: &str) -> (r: bool)
    ensures
        r == starts_with(v@, p@),
{
    let pv = chars_of(p);
    starts_with_vec(v, &pv)
}

pub fn eq_str(v: &Vec<char>, p: &str) -> (r: bool)
    ensures
        r == (v@ == p@),
{
    let pv = chars_of(p);
    eq_chars(v, &pv)
}

/// `str::contains` with a string needle.
pub fn contains_vec(v: &Vec<char>, n: &Vec<char>) -> (r: bool)
    ensures
        r == contains(v@, n@),
{
    let mut i: usize = 0;
    while i <= v.len()
        invariant_except_break
            i <= v.len(),
            forall|j: int| 0 <= j < i ==> !contains_at(v@, n@, j),
        ensures
            i == v.len(),
            forall|j: int| 0 <= j <= i ==> !contains_at(v@, n@, j),
        decreases v.len() + 1 - i,
    {
        if occurs_at(v, n, i) {
            return true;
        }
        if i == v.len() {
            break;
        }
        i += 1;
    }
    assert forall|j: int| !contains_at(v@, n@, j) by {
        if 0 <= j < i {
        }
    }
    false
}

pub fn contains_str(v: &Vec<char>, n: &str) -> (r: bool)
    ensures
        r == contains(v@, n@),
{
    let nv = chars_of(n);
    contains_vec(v, &nv)
}

/// Whether `v` holds the character `c`.
pub fn has_char(v: &Vec<char>, c: char) -> (r: bool)
    ensures
        r == v@.contains(c),
{
    let f = find_class(v, CharClass::Is(c));
    proof {
        lemma_find(v@, CharClass::Is(c));
    }
    match f {
        Some(i) => {
            assert(v@[i as int] == c);
            true
        },
        None => false,
    }
}

/// `str::split_once`.
pub fn split_once_vec(v: &Vec<char>, k: CharClass) -> (r: Option<(Vec<char>, Vec<char>)>)
    ensures
        match r {
            Some((a, b)) => split_once(v@, k) == Some((a@, b@)),
            None => split_once(v@, k) is None,
        },
{
    match find_class(v, k) {
        Some(i) => {
            proof {
                lemma_find(v@, k);
            }
            assert(find(v@, k) == Some(i as int));
            assert(i < v.len());
            let a = copy_range(v, 0, i);
            let b = copy_range(v, i + 1, v.len());
            assert(a@ =~= v@.take(i as int));
            assert(b@ =~= v@.skip(i + 1));
            Some((a, b))
        },
        None => None,
    }
}

/// `str::lines`.
pub fn lines_vec(v: &Vec<char>) -> (r: Vec<Vec<char>>)
    ensures
        views(r@) == lines(v@),
{
    let mut out: Vec<Vec<char>> = Vec::new();
    let mut start: usize = 0;
    let mut i: usize = 0;
    assert(v@.skip(0) =~= v@);
    assert(views(out@) =~= Seq::<Seq<char>>::empty());
    while i < v.len()
        invariant
            start <= i <= v.len(),
            forall|j: int| start <= j < i ==> v@[j] != '\n',
            views(out@) + lines(v@.skip(start as int)) == lines(v@),
        decreases v.len() - i,
    {
        if v[i] == '\n' {
            let ghost rest = v@.skip(start as int);
            proof {
                assert forall|j: int| 0 <= j < i - start implies !in_class(
                    CharClass::Is('\n'),
                    #[trigger] rest[j],
                ) by {
                    assert(rest[j] == v@[start + j]);
                }
                lemma_find_at(rest, CharClass::Is('\n'), i - start);
                assert(rest.skip(i - start + 1) =~= v@.skip(i + 1));
                assert(rest.take(i - start) =~= v@.subrange(start as int, i as int));
            }
            let mut line = copy_range(v, start, i);
            if line.len() > 0 && line[line.len() - 1] == '\r' {
                line.pop();
            }
            assert(line@ == strip_cr(v@.subrange(start as int, i as int)));
            let ghost before = views(out@);
            out.push(line);
            proof {
                assert(views(out@) =~= before.push(line@));
                assert(views(out@) + lines(v@.skip(i + 1)) =~= before + lines(rest));
            }
            start = i + 1;
        }
        i += 1;
    }
    if start < v.len() {
        let ghost rest = v@.skip(start as int);
        proof {
            assert forall|j: int| 0 <= j < v.len() - start implies !in_class(
                CharClass::Is('\n'),
                #[trigger] rest[j],
            ) by {
                assert(rest[j] == v@[start + j]);
            }
            lemma_find_at(rest, CharClass::Is('\n'), v.len() - start);
        }
        let line = copy_range(v, start, v.len());
        assert(line@ =~= rest);
        let ghost before = views(out@);
        out.push(line);
        assert(views(out@) =~= before.push(line@));
        assert(views(out@) =~= before + lines(rest));
    } else {
        assert(v@.skip(start as int).len() == 0);
        assert(views(out@) =~= views(out@) + lines(v@.skip(start as int)));
    }
    out
}

/// `str::split` at the character `c`.
pub fn split_vec(v: &Vec<char>, c: char) -> (r: Vec<Vec<char>>)
    ensures
        views(r@) == split_on(v@, c),
{
    let mut out: Vec<Vec<char>> = Vec::new();
    let mut start: usize = 0;
    let mut i: usize = 0;
    assert(v@.skip(0) =~= v@);
    assert(views(out@) =~= Seq::<Seq<char>>::empty());
    while i < v.len()
        invariant
            start <= i <= v.len(),
            forall|j: int| start <= j < i ==> v@[j] != c,
            views(out@) + split_on(v@.skip(start as int), c) == split_on(v@, c),
        decreases v.len() - i,
    {
        if v[i] == c {
            let ghost rest = v@.skip(start as int);
            proof {
                assert forall|j: int| 0 <= j < i - start implies !in_class(
                    CharClass::Is(c),
                    #[trigger] rest[j],
                ) by {
                    assert(rest[j] == v@[start + j]);
                }
                lemma_find_at(rest, CharClass::Is(c), i - start);
                assert(rest.skip(i - start + 1) =~= v@.skip(i + 1));
                assert(rest.take(i - start) =~= v@.subrange(start as int, i as int));
            }
            let piece = copy_range(v, start, i);
            let ghost before = views(out@);
            out.push(piece);
            proof {
                assert(views(out@) =~= before.push(piece@));
                assert(views(out@) + split_on(v@.skip(i + 1), c) =~= before + split_on(rest, c));
            }
            start = i + 1;
        }
        i += 1;
    }
    let ghost rest = v@.skip(start as int);
    proof {
        assert forall|j: int| 0 <= j < v.len() - start implies !in_class(
            CharClass::Is(c),
            #[trigger] rest[j],
        ) by {
            assert(rest[j] == v@[start + j]);
        }
        lemma_find_at(rest, CharClass::Is(c), v.len() - start);
    }
    let piece = copy_range(v, start, v.len());
    assert(piece@ =~= rest);
    let ghost before = views(out@);
    out.push(piece);
    assert(views(out@) =~= before.push(piece@));
    assert(views(out@) =~= before + split_on(rest, c));
    out
}

/// `out` followed by the characters of `s`.
pub fn push_str(out: &mut Vec<char>, s: &str)
    ensures
        final(out)@ == old(out)@ + s@,
{
    let mut t = chars_of(s);
    out.append(&mut t);
}

/// `out` followed by the characters of `v`.
pub fn push_chars(out: &mut Vec<char>, v: &Vec<char>)
    ensures
        final(out)@ == old(out)@ + v@,
{
    let mut t = copy_range(v, 0, v.len());
    assert(v@.subrange(0, v@.len() as int) =~= v@);
    out.append(&mut t);
}

pub fn is_ascii_alpha_char(c: char) -> (r: bool)
    ensures
        r == is_ascii_alpha(c),
{
    ('a' <= c && c <= 'z') || ('A' <= c && c <= 'Z')
}

pub fn is_ascii_alnum_char(c: char) -> (r: bool)
    ensures
        r == is_ascii_alnum(c),
{
    is_ascii_alpha_char(c) || ('0' <= c && c <= '9')
}

fn digit_char_of(d: u64) -> (c: char)
    requires
        d < 10,
    ensures
        c == digit_char(d as nat),
{
    if d == 0 {
        '0'
    } else if d == 1 {
        '1'
    } else if d == 2 {
        '2'
    } else if d == 3 {
        '3'
    } else if d == 4 {
        '4'
    } else if d == 5 {
        '5'
    } else if d == 6 {
        '6'
    } else if d == 7 {
        '7'
    } else if d == 8 {
        '8'
    } else {
        '9'
    }
}

/// `out` followed by `n` in decimal.
pub fn push_decimal(out: &mut Vec<char>, n: u64)
    ensures
        final(out)@ == old(out)@ + decimal(n as nat),
    decreases n,
{
    if n >= 10 {
        push_decimal(out, n / 10);
    }
    out.push(digit_char_of(n % 10));
    proof {
        if n >= 10 {
            assert(final(out)@ =~= old(out)@ + decimal(n as nat));
        } else {
            assert(final(out)@ =~= old(out)@ + decimal(n as nat));
        }
    }
}

/// `str::lines` on a `&str`.
pub fn lines_of(s: &str) -> (r: Vec<Vec<char>>)
    ensures
        views(r@) == lines(s@),
{
    let v = chars_of(s);
    lines_vec(&v)
}

/// `str::split_whitespace`.
pub fn tokens_vec(v: &Vec<char>) -> (r: Vec<Vec<char>>)
    ensures
        views(r@) == tokens(v@),
{
    let mut out: Vec<Vec<char>> = Vec::new();
    let mut i: usize = 0;
    assert(v@.skip(0) =~= v@);
    assert(views(out@) =~= Seq::<Seq<char>>::empty());
    while i < v.len()
        invariant
            i <= v.len(),
            views(out@) + tokens(v@.skip(i as int)) == tokens(v@),
        decreases v.len() - i,
    {
        let ghost s = v@.skip(i as int);
        let mut a = i;
        while a < v.len() && is_ws_char(v[a])
            invariant
                i <= a <= v.len(),
                forall|j: int| i <= j < a ==> is_ws(#[trigger] v@[j]),
            decreases v.len() - a,
        {
            a += 1;
        }
        proof {
            assert forall|j: int| 0 <= j < a - i implies is_ws(#[trigger] s[j]) by {
                assert(s[j] == v@[i + j]);
            }
            lemma_trim_start_skip(s, a - i);
            assert(s.skip(a - i) =~= v@.skip(a as int));
            lemma_trim_start_shape(s);
        }
        if a == v.len() {
            proof {
                assert(trim_start(v@.skip(a as int)).len() == 0);
                assert(tokens(s) =~= Seq::<Seq<char>>::empty());
                assert(v@.skip(v.len() as int) =~= Seq::<char>::empty());
            }
            assert(views(out@) + tokens(v@.skip(a as int)) =~= views(out@) + tokens(s));
            i = a;
        } else {
            let ghost t = v@.skip(a as int);
            proof {
                if trim_start(t).len() > 0 && is_ws(t[0]) {
                } else {
                }
                assert(t[0] == v@[a as int]);
                assert(!is_ws(t[0]));
                assert(trim_start(t) == t);
            }
            let mut b = a;
            while b < v.len() && !is_ws_char(v[b])
                invariant
                    a <= b <= v.len(),
                    forall|j: int| a <= j < b ==> !is_ws(#[trigger] v@[j]),
                decreases v.len() - b,
            {
                b += 1;
            }
            proof {
                assert forall|j: int| 0 <= j < b - a implies !in_class(
                    CharClass::Space,
                    #[trigger] t[j],
                ) by {
                    assert(t[j] == v@[a + j]);
                }
                lemma_find_at(t, CharClass::Space, b - a);
            }
            let tok = copy_range(v, a, b);
            let ghost before = views(out@);
            out.push(tok);
            proof {
                assert(views(out@) =~= before.push(tok@));
                if b < v.len() {
                    assert(t.skip(b - a) =~= v@.skip(b as int));
                    assert(t.take(b - a) =~= tok@);
                    assert(tokens(s) == seq![tok@] + tokens(v@.skip(b as int)));
                } else {
                    assert(t =~= tok@);
                    assert(tokens(s) == seq![tok@]);
                    assert(v@.skip(b as int) =~= Seq::<char>::empty());
                    assert(tokens(v@.skip(b as int)) =~= Seq::<Seq<char>>::empty());
                }
                assert(views(out@) + tokens(v@.skip(b as int)) =~= before + tokens(s));
            }
            i = b;
        }
    }
    assert(v@.skip(i as int) =~= Seq::<char>::empty());
    assert(tokens(v@.skip(i as int)) =~= Seq::<Seq<char>>::empty());
    assert(views(out@) =~= views(out@) + tokens(v@.skip(i as int)));
    out
}

pub proof fn lemma_digits_value_push(s: Seq<char>, c: char)
    ensures
        digits_value(s.push(c)) == digits_value(s) * 10 + ((c as u32) - ('0' as u32)) as nat,
{
    assert(s.push(c).drop_last() =~= s);
}

/// The value of `v[from..]` when it is all ASCII digits and fits in a `u64`.
pub fn digits_u64(v: &Vec<char>, from: usize) -> (r: Option<u64>)
    requires
        from <= v.len(),
    ensures
        ({
            let d = v@.skip(from as int);
            match r {
                Some(n) => all_digits(d) && digits_value(d) == n,
                None => !all_digits(d) || digits_value(d) > u64::MAX,
            }
        }),
{
    let ghost d = v@.skip(from as int);
    let mut acc: u64 = 0;
    let mut i = from;
    while i < v.len()
        invariant
            from <= i <= v.len(),
            d == v@.skip(from as int),
            all_digits(v@.subrange(from as int, i as int)),
            digits_value(v@.subrange(from as int, i as int)) == acc,
        decreases v.len() - i,
    {
        let c = v[i];
        assert(v@.subrange(from as int, i + 1) =~= v@.subrange(from as int, i as int).push(c));
        proof {
            lemma_digits_value_push(v@.subrange(from as int, i as int), c);
        }
        if !('0' <= c && c <= '9') {
            assert(d[i - from] == c);
            assert(!is_digit(d[i - from]));
            return None;
        }
        let dig = (c as u32) - ('0' as u32);
        if acc > (u64::MAX - dig as u64) / 10 {
            assert(acc * 10 + dig > u64::MAX) by (nonlinear_arith)
                requires
                    acc > (u64::MAX - dig as u64) / 10,
                    dig <= 9,
            ;
            assert(d.take(i - from + 1) =~= v@.subrange(from as int, i + 1));
            proof {
                lemma_digits_prefix_bound(d, i - from + 1);
            }
            return None;
        }
        acc = acc * 10 + dig as u64;
        i += 1;
    }
    assert(v@.subrange(from as int, i as int) =~= d);
    Some(acc)
}

/// A longer all-digit prefix never has a smaller value.
pub proof fn lemma_digits_prefix_bound(d: Seq<char>, k: int)
    requires
        0 <= k <= d.len(),
    ensures
        all_digits(d) ==> digits_value(d.take(k)) <= digits_value(d),
    decreases d.len() - k,
{
    if k < d.len() && all_digits(d) {
        lemma_digits_prefix_bound(d, k + 1);
        assert(d.take(k + 1).drop_last() =~= d.take(k));
        assert(is_digit(d[k]));
    } else if k == d.len() {
        assert(d.take(k) =~= d);
    }
}

/// Whether every character of `v` is an ASCII digit.
pub fn all_digits_vec(v: &Vec<char>) -> (r: bool)
    ensures
        r == all_digits(v@),
{
    let mut i: usize = 0;
    while i < v.len()
        invariant
            i <= v.len(),
            all_digits(v@.take(i as int)),
        decreases v.len() - i,
    {
        let c = v[i];
        if !('0' <= c && c <= '9') {
            assert(!is_digit(v@[i as int]));
            return false;
        }
        assert(all_digits(v@.take(i + 1))) by {
            assert forall|j: int| 0 <= j < i + 1 implies is_digit(#[trigger] v@.take(i + 1)[j]) by {
                if j < i {
                    assert(v@.take(i + 1)[j] == v@.take(i as int)[j]);
                }
            }
        }
        i += 1;
    }
    assert(v@.take(i as int) =~= v@);
    true
}

/// `str::parse::<u64>`.
pub fn parse_u64_vec(v: &Vec<char>) -> (r: Option<u64>)
    ensures
        r == parse_u64(v@),
{
    let from: usize = if v.len() > 0 && v[0] == '+' {
        1
    } else {
        0
    };
    assert(v@.skip(from as int) =~= unsigned_digits(v@));
    if from >= v.len() {
        return None;
    }
    digits_u64(v, from)
}

/// `str::parse::<u32>`.
pub fn parse_u32_vec(v: &Vec<char>) -> (r: Option<u32>)
    ensures
        r == parse_u32(v@),
{
    match parse_u64_vec(v) {
        Some(n) => {
            if n <= u32::MAX as u64 {
                Some(n as u32)
            } else {
                None
            }
        },
        None => None,
    }
}

/// `str::parse::<u8>`.
pub fn parse_u8_vec(v: &Vec<char>) -> (r: Option<u8>)
    ensures
        r == parse_u8(v@),
{
    match parse_u64_vec(v) {
        Some(n) => {
            if n <= u8::MAX as u64 {
                Some(n as u8)
            } else {
                None
            }
        },
        None => None,
    }
}

/// `str::parse::<i64>`.
pub fn parse_i64_vec(v: &Vec<char>) -> (r: Option<i64>)
    ensures
        r == parse_i64(v@),
{
    if v.len() > 0 && v[0] == '-' {
        if v.len() == 1 {
            return None;
        }
        assert(v@.skip(1) =~= v@.drop_first());
        match digits_u64(v, 1) {
            Some(n) => {
                if n <= 0x8000_0000_0000_0000u64 {
                    if n == 0x8000_0000_0000_0000u64 {
                        Some(i64::MIN)
                    } else {
                        Some(-(n as i64))
                    }
                } else {
                    None
                }
            },
            None => None,
        }
    } else {
        match parse_u64_vec(v) {
            Some(n) => {
                if n <= i64::MAX as u64 {
                    Some(n as i64)
                } else {
                    None
                }
            },
            None => None,
        }
    }
}

/// The bytes of `s`, as UTF-8.
pub open spec fn byte_len(s: Seq<char>) -> nat {
    encode_utf8(s).len()
}

pub proof fn lemma_byte_len_push(s: Seq<char>, c: char)
    ensures
        byte_len(s.push(c)) == byte_len(s) + encode_utf8(seq![c]).len(),
    decreases s.len(),
{
    if s.len() == 0 {
        assert(s.push(c) =~= seq![c]);
        assert(seq![c].drop_first() =~= Seq::<char>::empty());
    } else {
        lemma_byte_len_push(s.drop_first(), c);
        assert(s.push(c).drop_first() =~= s.drop_first().push(c));
        assert(s.push(c)[0] == s[0]);
    }
}

pub fn char_width(c: char) -> (r: usize)
    ensures
        r == encode_utf8(seq![c]).len(),
        1 <= r <= 4,
{
    proof {
        assert(seq![c].drop_first() =~= Seq::<char>::empty());
        assert(encode_utf8(Seq::<char>::empty()) =~= Seq::<u8>::empty());
        assert(encode_utf8(seq![c]) =~= vstd::utf8::encode_scalar(c as u32));
    }
    let v = c as u32;
    if v < 0x80 {
        1
    } else if v < 0x800 {
        2
    } else if v < 0x10000 {
        3
    } else {
        4
    }
}

pub proof fn lemma_char_width_pos(c: char)
    ensures
        encode_utf8(seq![c]).len() >= 1,
{
    assert(seq![c].drop_first() =~= Seq::<char>::empty());
}

/// Every character takes at least one byte, so a longer prefix is longer in
/// bytes by at least the number of extra characters.
pub proof fn lemma_byte_len_mono(s: Seq<char>, j: int, l: int)
    requires
        0 <= j <= l <= s.len(),
    ensures
        byte_len(s.take(j)) + (l - j) <= byte_len(s.take(l)),
    decreases l - j,
{
    if j < l {
        lemma_byte_len_mono(s, j, l - 1);
        lemma_byte_len_push(s.take(l - 1), s[l - 1]);
        assert(s.take(l) =~= s.take(l - 1).push(s[l - 1]));
        lemma_char_width_pos(s[l - 1]);
    }
}

} // verus!
