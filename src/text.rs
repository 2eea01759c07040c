//! Text helpers: decimal numbers, ASCII case folding, splitting.

use vstd::prelude::*;

verus! {

/// The decimal digit character for `d`, which is below ten.
pub open spec fn digit_char(d: nat) -> char {
    seq!['0', '1', '2', '3', '4', '5', '6', '7', '8', '9'][d as int]
}

/// The shortest decimal representation of `n`.
pub open spec fn decimal_of(n: nat) -> Seq<char>
    decreases n,
{
    if n < 10 {
        seq![digit_char(n)]
    } else {
        decimal_of(n / 10).push(digit_char(n % 10))
    }
}

pub open spec fn is_digit(c: char) -> bool {
    '0' <= c && c <= '9'
}

/// Every character is a decimal digit, and there is at least one.
pub open spec fn all_digits(s: Seq<char>) -> bool {
    s.len() > 0 && forall|i: int| 0 <= i < s.len() ==> is_digit(#[trigger] s[i])
}

/// The number that a string of decimal digits denotes.
pub open spec fn digits_value(s: Seq<char>) -> nat
    decreases s.len(),
{
    if s.len() == 0 {
        0
    } else {
        digits_value(s.drop_last()) * 10 + ((s.last() as u32) - ('0' as u32)) as nat
    }
}

/// What an optional `+` followed by decimal digits denotes; `None` for any other text.
pub open spec fn unsigned_text_value(s: Seq<char>) -> Option<nat> {
    if all_digits(s) {
        Some(digits_value(s))
    } else if s.len() > 0 && s[0] == '+' && all_digits(s.drop_first()) {
        Some(digits_value(s.drop_first()))
    } else {
        None
    }
}

/// What an optional `+` or `-` followed by decimal digits denotes; `None` for any other text.
pub open spec fn signed_text_value(s: Seq<char>) -> Option<int> {
    if s.len() > 0 && s[0] == '-' && all_digits(s.drop_first()) {
        Some(-(digits_value(s.drop_first()) as int))
    } else {
        match unsigned_text_value(s) {
            Some(v) => Some(v as int),
            None => None,
        }
    }
}

/// `s` read as a `u64`: `None` when it is not a number or does not fit.
pub open spec fn u64_of_text(s: Seq<char>) -> Option<u64> {
    match unsigned_text_value(s) {
        Some(v) => if v <= u64::MAX {
            Some(v as u64)
        } else {
            None
        },
        None => None,
    }
}

/// `s` read as an `isize`: `None` when it is not a number or does not fit.
pub open spec fn isize_of_text(s: Seq<char>) -> Option<isize> {
    match signed_text_value(s) {
        Some(v) => if isize::MIN <= v && v <= isize::MAX {
            Some(v as isize)
        } else {
            None
        },
        None => None,
    }
}

/// A character with ASCII upper case mapped to lower case.
pub open spec fn ascii_fold(c: char) -> int {
    if 'A' <= c && c <= 'Z' {
        (c as u32) + 32
    } else {
        c as u32 as int
    }
}

/// The two strings are equal once ASCII letters are folded to one case.
pub open spec fn same_ignoring_ascii_case(a: Seq<char>, b: Seq<char>) -> bool {
    &&& a.len() == b.len()
    &&& forall|i: int| 0 <= i < a.len() ==> #[trigger] ascii_fold(a[i]) == ascii_fold(b[i])
}

/// The position of the first `c` in `s`, where there is one.
pub open spec fn first_index(s: Seq<char>, c: char) -> int {
    choose|i: int| 0 <= i < s.len() && s[i] == c && !s.subrange(0, i).contains(c)
}

/// Splitting `s` at its first `c` gives the text before and after it.
pub proof fn lemma_first_index(s: Seq<char>, c: char, a: Seq<char>, b: Seq<char>)
    requires
        s == a + seq![c] + b,
        !a.contains(c),
    ensures
        s.contains(c),
        first_index(s, c) == a.len(),
        s.subrange(0, a.len() as int) == a,
        s.subrange(a.len() as int + 1, s.len() as int) == b,
{
    let n = a.len() as int;
    assert(s[n] == c);
    assert(s.subrange(0, n) == a);
    assert(s.subrange(n + 1, s.len() as int) == b);
    let i = first_index(s, c);
    if i < n {
        assert(a[i] == c);
    } else if i > n {
        assert(s.subrange(0, i)[n] == c);
    }
}

/// What `str::to_uppercase` makes of a string.
pub uninterp spec fn upper_of(s: Seq<char>) -> Seq<char>;

/// Relies on `str::to_uppercase`: the result depends on the characters alone.
#[verifier::external_body]
pub(crate) fn uppercase(s: &str) -> (r: String)
    ensures
        r@ == upper_of(s@),
{
    s.to_uppercase()
}

/// Whether `s` reads exactly `lit`.
pub(crate) fn is_text(s: &String, lit: &str) -> (r: bool)
    ensures
        r == (s@ == lit@),
{
    let l = String::from_str(lit);
    *s == l
}

/// Relies on `u64::to_string`: integers display as their shortest decimal digits.
#[verifier::external_body]
pub(crate) fn decimal(n: u64) -> (r: String)
    ensures
        r@ == decimal_of(n as nat),
{
    n.to_string()
}

/// Relies on `str::parse::<u64>`: an optional `+` then digits, within range.
#[verifier::external_body]
pub(crate) fn parse_u64(s: &str) -> (r: Option<u64>)
    ensures
        r == u64_of_text(s@),
{
    s.parse::<u64>().ok()
}

/// Relies on `str::parse::<isize>`: an optional sign then digits, within range.
#[verifier::external_body]
pub(crate) fn parse_isize(s: &str) -> (r: Option<isize>)
    ensures
        r == isize_of_text(s@),
{
    s.parse::<isize>().ok()
}

/// Relies on `str::eq_ignore_ascii_case`: equal after ASCII lower-casing of both.
#[verifier::external_body]
pub(crate) fn eq_ignore_case(a: &str, b: &str) -> (r: bool)
    ensures
        r == same_ignoring_ascii_case(a@, b@),
{
    a.eq_ignore_ascii_case(b)
}

/// Relies on `str::split_once` with a `char` pattern: the text before and
/// after the first occurrence of `sep`, or `None` where `sep` does not occur.
#[verifier::external_body]
pub(crate) fn split_once_at<'a>(s: &'a str, sep: char) -> (r: Option<(&'a str, &'a str)>)
    ensures
        r is None <==> !s@.contains(sep),
        r matches Some((a, b)) ==> s@ == a@ + seq![sep] + b@ && !a@.contains(sep),
{
    s.split_once(sep)
}

} // verus!
