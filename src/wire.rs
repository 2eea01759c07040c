//! The textual reply encoding: simple strings, errors, integers, bulk
//! strings and arrays of bulk strings.

use crate::text::{decimal, decimal_of};
use vstd::prelude::*;
use vstd::utf8::encode_utf8;

verus! {

pub open spec fn crlf() -> Seq<char> {
    seq!['\r', '\n']
}

/// The number of bytes in the UTF-8 encoding of `s`.
pub open spec fn utf8_len(s: Seq<char>) -> nat {
    encode_utf8(s).len()
}

/// `+<s>\r\n`
pub open spec fn simple_reply(s: Seq<char>) -> Seq<char> {
    seq!['+'] + s + crlf()
}

/// `-<s>\r\n`
pub open spec fn error_reply(s: Seq<char>) -> Seq<char> {
    seq!['-'] + s + crlf()
}

/// `:<n>\r\n`
pub open spec fn integer_reply(n: nat) -> Seq<char> {
    seq![':'] + decimal_of(n) + crlf()
}

/// `$<byte length>\r\n<s>\r\n`
pub open spec fn bulk_reply(s: Seq<char>) -> Seq<char> {
    seq!['$'] + decimal_of(utf8_len(s)) + crlf() + s + crlf()
}

/// `$-1\r\n`, the absent value.
pub open spec fn null_reply() -> Seq<char> {
    seq!['$', '-', '1', '\r', '\n']
}

/// `*-1\r\n`, the absent array.
pub open spec fn null_array_reply() -> Seq<char> {
    seq!['*', '-', '1', '\r', '\n']
}

/// `*<n>\r\n`, the head of an array of `n` elements.
pub open spec fn array_head(n: nat) -> Seq<char> {
    seq!['*'] + decimal_of(n) + crlf()
}

/// The bulk strings of `items`, one after the other.
pub open spec fn bulks(items: Seq<Seq<char>>) -> Seq<char>
    decreases items.len(),
{
    if items.len() == 0 {
        Seq::empty()
    } else {
        bulks(items.drop_last()) + bulk_reply(items.last())
    }
}

/// An array of bulk strings.
pub open spec fn array_reply(items: Seq<Seq<char>>) -> Seq<char> {
    array_head(items.len()) + bulks(items)
}

pub(crate) fn push_crlf(out: &mut String)
    ensures
        final(out)@ == old(out)@ + crlf(),
{
    proof {
        reveal_strlit("\r\n");
    }
    out.append("\r\n");
}

/// Appends `$<byte length>\r\n<s>\r\n`.
pub(crate) fn push_bulk(out: &mut String, s: &str)
    ensures
        final(out)@ == old(out)@ + bulk_reply(s@),
{
    proof {
        reveal_strlit("$");
    }
    let n = s.as_bytes().len();
    let digits = decimal(n as u64);
    out.append("$");
    out.append(digits.as_str());
    push_crlf(out);
    out.append(s);
    push_crlf(out);
}

/// Appends `<marker><n>\r\n` for a one-character marker.
fn push_counted(out: &mut String, marker: &str, n: u64)
    requires
        marker@.len() == 1,
    ensures
        final(out)@ == old(out)@ + marker@ + decimal_of(n as nat) + crlf(),
{
    let digits = decimal(n);
    out.append(marker);
    out.append(digits.as_str());
    push_crlf(out);
}

/// Appends `*<n>\r\n`.
pub(crate) fn push_array_head(out: &mut String, n: usize)
    ensures
        final(out)@ == old(out)@ + array_head(n as nat),
{
    proof {
        reveal_strlit("*");
        assert("*"@ == seq!['*']);
    }
    push_counted(out, "*", n as u64);
}

/// `$<byte length>\r\n<s>\r\n`
pub fn bulk_string(s: &str) -> (r: String)
    ensures
        r@ == bulk_reply(s@),
{
    let mut out = String::new();
    push_bulk(&mut out, s);
    out
}

/// `:<n>\r\n`
pub fn integer(n: usize) -> (r: String)
    ensures
        r@ == integer_reply(n as nat),
{
    proof {
        reveal_strlit(":");
        assert(":"@ == seq![':']);
    }
    let mut out = String::new();
    push_counted(&mut out, ":", n as u64);
    out
}

/// `+<s>\r\n`
pub fn simple(s: &str) -> (r: String)
    ensures
        r@ == simple_reply(s@),
{
    proof {
        reveal_strlit("+");
    }
    let mut out = String::from_str("+");
    out.append(s);
    push_crlf(&mut out);
    out
}

/// `-<s>\r\n`
pub fn error(s: &str) -> (r: String)
    ensures
        r@ == error_reply(s@),
{
    proof {
        reveal_strlit("-");
    }
    let mut out = String::from_str("-");
    out.append(s);
    push_crlf(&mut out);
    out
}

/// `$-1\r\n`
pub fn null() -> (r: String)
    ensures
        r@ == null_reply(),
{
    proof {
        reveal_strlit("$-1\r\n");
    }
    String::from_str("$-1\r\n")
}

/// `*-1\r\n`
pub fn null_array() -> (r: String)
    ensures
        r@ == null_array_reply(),
{
    proof {
        reveal_strlit("*-1\r\n");
    }
    String::from_str("*-1\r\n")
}

/// An array of the bulk strings of `items`.
pub fn bulk_array(items: &Vec<String>) -> (r: String)
    ensures
        r@ == array_reply(items.deep_view()),
{
    let mut out = String::new();
    push_array_head(&mut out, items.len());
    let ghost head = out@;
    let mut i: usize = 0;
    while i < items.len()
        invariant
            i <= items.len(),
            head == array_head(items.len() as nat),
            out@ == head + bulks(items.deep_view().subrange(0, i as int)),
        decreases items.len() - i,
    {
        push_bulk(&mut out, items[i].as_str());
        proof {
            let s = items.deep_view().subrange(0, i + 1);
            assert(s.drop_last() == items.deep_view().subrange(0, i as int));
        }
        i = i + 1;
    }
    proof {
        assert(items.deep_view().subrange(0, i as int) == items.deep_view());
    }
    out
}

} // verus!
