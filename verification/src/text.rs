//! String helpers over the character view of `str` and `String`, and the
//! few standard-library string functions the library relies on.

use vstd::prelude::*;

verus! {

/// Concatenation of three pieces into a new string.
pub fn concat3(a: &str, b: &str, c: &str) -> (r: String)
    ensures
        r@ == a@ + b@ + c@,
{
    let mut s = String::from_str(a);
    s.append(b);
    s.append(c);
    s
}

/// The Unicode `White_Space` characters.
pub open spec fn is_white_space(c: char) -> bool {
    ||| '\u{9}' <= c <= '\u{d}'
    ||| c == ' '
    ||| c == '\u{85}'
    ||| c == '\u{a0}'
    ||| c == '\u{1680}'
    ||| '\u{2000}' <= c <= '\u{200a}'
    ||| c == '\u{2028}'
    ||| c == '\u{2029}'
    ||| c == '\u{202f}'
    ||| c == '\u{205f}'
    ||| c == '\u{3000}'
}

/// `s` without its leading white space.
pub open spec fn strip_leading(s: Seq<char>) -> Seq<char>
    decreases s.len(),
{
    if s.len() > 0 && is_white_space(s[0]) {
        strip_leading(s.drop_first())
    } else {
        s
    }
}

/// `s` without its trailing white space.
pub open spec fn strip_trailing(s: Seq<char>) -> Seq<char>
    decreases s.len(),
{
    if s.len() > 0 && is_white_space(s.last()) {
        strip_trailing(s.drop_last())
    } else {
        s
    }
}

/// `s` without leading and trailing white space.
pub open spec fn trimmed(s: Seq<char>) -> Seq<char> {
    strip_trailing(strip_leading(s))
}

/// `str::trim`: the string without leading and trailing white space, where
/// white space is the Unicode `White_Space` property.
#[verifier::external_body]
pub(crate) fn trim(s: &str) -> (r: &str)
    ensures
        r@ == trimmed(s@),
{
    s.trim()
}

/// The index of the first `sep` in `s`, or `s.len()` if there is none.
pub open spec fn index_of(s: Seq<char>, sep: char) -> int
    decreases s.len(),
{
    if s.len() == 0 {
        0
    } else if s[0] == sep {
        0
    } else {
        1 + index_of(s.drop_first(), sep)
    }
}

/// `s` without a final `'\r'`.
pub open spec fn strip_cr(s: Seq<char>) -> Seq<char> {
    if s.len() > 0 && s.last() == '\r' {
        s.drop_last()
    } else {
        s
    }
}

/// The lines of `s`: pieces ended by `'\n'` (and an optional `'\r'` before
/// it), plus the remainder if it is not empty.
pub open spec fn lines_of(s: Seq<char>) -> Seq<Seq<char>>
    decreases s.len(),
{
    if s.len() == 0 {
        Seq::empty()
    } else {
        let i = index_of(s, '\n');
        if i < 0 || i >= s.len() {
            seq![s]
        } else {
            seq![strip_cr(s.subrange(0, i))] + lines_of(s.subrange(i + 1, s.len() as int))
        }
    }
}

/// The strings of a list of strings.
pub open spec fn string_views(v: Seq<String>) -> Seq<Seq<char>> {
    v.map_values(|s: String| s@)
}

/// `str::lines`: the lines of `s`, without their line endings.
#[verifier::external_body]
pub(crate) fn lines(s: &str) -> (r: Vec<String>)
    ensures
        string_views(r@) == lines_of(s@),
{
    s.lines().map(|l| l.to_string()).collect()
}

/// The pieces of `s` split at the first `n - 1` occurrences of `sep`.
pub open spec fn split_n(s: Seq<char>, n: nat, sep: char) -> Seq<Seq<char>>
    decreases n,
{
    if n == 0 {
        Seq::empty()
    } else if n == 1 {
        seq![s]
    } else {
        let i = index_of(s, sep);
        if i >= s.len() {
            seq![s]
        } else {
            seq![s.subrange(0, i)] + split_n(s.subrange(i + 1, s.len() as int), (n - 1) as nat, sep)
        }
    }
}

/// `str::splitn`: `s` split at the first `n - 1` occurrences of `sep`.
#[verifier::external_body]
pub(crate) fn split_n_at(s: &str, n: usize, sep: char) -> (r: Vec<String>)
    ensures
        string_views(r@) == split_n(s@, n as nat, sep),
{
    s.splitn(n, sep).map(|p| p.to_string()).collect()
}

/// The value of a non-empty string of decimal digits.
pub open spec fn decimal_value(s: Seq<char>) -> int
    decreases s.len(),
{
    if s.len() == 0 {
        0
    } else {
        decimal_value(s.drop_last()) * 10 + (s.last() as int - '0' as int)
    }
}

pub open spec fn all_decimal_digits(s: Seq<char>) -> bool {
    forall|i: int| 0 <= i < s.len() ==> '0' <= #[trigger] s[i] <= '9'
}

/// What `usize::from_str` accepts: an optional `+`, then at least one
/// decimal digit, of a value that fits.
pub open spec fn parsed_usize(s: Seq<char>) -> Option<usize> {
    let d = if s.len() > 0 && s[0] == '+' {
        s.drop_first()
    } else {
        s
    };
    if d.len() > 0 && all_decimal_digits(d) && decimal_value(d) <= usize::MAX {
        Some(decimal_value(d) as usize)
    } else {
        None
    }
}

/// `usize::from_str`, with the error dropped.
#[verifier::external_body]
pub(crate) fn parse_usize(s: &str) -> (r: Option<usize>)
    ensures
        r == parsed_usize(s@),
{
    s.parse::<usize>().ok()
}

/// What `String::from_utf8_lossy` makes of a byte string.
pub uninterp spec fn utf8_lossy(bytes: Seq<u8>) -> Seq<char>;

/// `String::from_utf8_lossy`: the bytes decoded as UTF-8, with ill-formed
/// sequences replaced; well-formed input decodes to its characters.
#[verifier::external_body]
pub(crate) fn lossy_string(bytes: &[u8]) -> (r: String)
    ensures
        r@ == utf8_lossy(bytes@),
        vstd::utf8::valid_utf8(bytes@) ==> r@ == vstd::utf8::decode_utf8(bytes@),
{
    String::from_utf8_lossy(bytes).into_owned()
}

/// `String::push`.
#[verifier::external_body]
pub(crate) fn push_char(s: &mut String, c: char)
    ensures
        final(s)@ == old(s)@.push(c),
{
    s.push(c);
}

/// ASCII lower case of one character.
pub open spec fn ascii_lower(c: char) -> char {
    if 'A' <= c <= 'Z' {
        ((c as int) + 32) as char
    } else {
        c
    }
}

pub open spec fn lower(s: Seq<char>) -> Seq<char> {
    s.map_values(|c: char| ascii_lower(c))
}

/// `s` with ASCII letters lowered, as `str::to_ascii_lowercase` makes it.
pub(crate) fn to_ascii_lowercase(s: &str) -> (r: String)
    ensures
        r@ == lower(s@),
{
    let n = s.unicode_len();
    let mut out = String::new();
    let mut i: usize = 0;
    while i < n
        invariant
            i <= n,
            n == s@.len(),
            out@ == lower(s@).take(i as int),
        decreases n - i,
    {
        let c = s.get_char(i);
        let d: char = if 'A' <= c && c <= 'Z' {
            ((c as u8) + 32) as char
        } else {
            c
        };
        assert(d == ascii_lower(c));
        push_char(&mut out, d);
        assert(lower(s@).take(i + 1) =~= lower(s@).take(i as int).push(ascii_lower(s@[i as int])));
        i = i + 1;
    }
    assert(lower(s@).take(n as int) =~= lower(s@));
    out
}

/// `str::eq_ignore_ascii_case`: equal once ASCII letters are lowered.
#[verifier::external_body]
pub(crate) fn eq_ignore_ascii_case(a: &str, b: &str) -> (r: bool)
    ensures
        r == (lower(a@) == lower(b@)),
{
    a.eq_ignore_ascii_case(b)
}

/// `p` occurs in `s`.
pub open spec fn occurs_in(p: Seq<char>, s: Seq<char>) -> bool {
    exists|i: int| 0 <= i && i + p.len() <= s.len() && #[trigger] s.subrange(i, i + p.len()) == p
}

/// `str::contains` with a string pattern.
#[verifier::external_body]
pub(crate) fn contains(s: &str, p: &str) -> (r: bool)
    ensures
        r == occurs_in(p@, s@),
{
    s.contains(p)
}

/// `s` without any white space.
pub open spec fn without_white_space(s: Seq<char>) -> Seq<char> {
    s.filter(|c: char| !is_white_space(c))
}

/// `str::split_whitespace`, its pieces joined: every white-space character
/// (Unicode `White_Space`) removed.
#[verifier::external_body]
pub(crate) fn remove_white_space(s: &str) -> (r: String)
    ensures
        r@ == without_white_space(s@),
{
    s.split_whitespace().collect()
}

pub open spec fn digit_char(d: int) -> char {
    (d + 48) as char
}

/// The decimal digits of `v`.
pub open spec fn decimal_digits(v: nat) -> Seq<char>
    decreases v,
{
    if v < 10 {
        seq![digit_char(v as int)]
    } else {
        decimal_digits(v / 10).push(digit_char((v % 10) as int))
    }
}

/// `v` as `Display` renders a `usize`: its decimal digits.
pub(crate) fn usize_text(v: usize) -> (r: String)
    ensures
        r@ == decimal_digits(v as nat),
{
    let mut digits: Vec<char> = Vec::new();
    let mut rest: usize = v;
    loop
        invariant_except_break
            decimal_digits(v as nat) == decimal_digits(rest as nat) + digits@.reverse(),
        ensures
            decimal_digits(v as nat) == digits@.reverse(),
        decreases rest,
    {
        let c: char = ((rest % 10) as u8 + 48) as char;
        assert(c == digit_char((rest % 10) as int));
        proof {
            assert(digits@.push(c).reverse() =~= seq![c] + digits@.reverse());
        }
        if rest < 10 {
            digits.push(c);
            break;
        }
        digits.push(c);
        rest = rest / 10;
    }
    let mut s = String::new();
    let mut i: usize = digits.len();
    while i > 0
        invariant
            i <= digits.len(),
            s@ == digits@.reverse().subrange(0, (digits.len() - i) as int),
        decreases i,
    {
        i = i - 1;
        push_char(&mut s, digits[i]);
        assert(s@ =~= digits@.reverse().subrange(0, (digits.len() - i) as int));
    }
    assert(digits@.reverse().subrange(0, digits.len() as int) =~= digits@.reverse());
    s
}

} // verus!
