//! A number of seconds, as a decimal with an optional fraction and
//! exponent, read as whole milliseconds.

use crate::text::{digits_value, first_index, is_digit, lemma_first_index};
use vstd::prelude::*;

verus! {

/// Every character is a decimal digit (there may be none).
pub open spec fn digits_only(s: Seq<char>) -> bool {
    forall|j: int| 0 <= j < s.len() ==> is_digit(#[trigger] s[j])
}

pub open spec fn is_exp_mark(c: char) -> bool {
    c == 'e' || c == 'E'
}

pub open spec fn has_exp_mark(s: Seq<char>) -> bool {
    exists|i: int| 0 <= i < s.len() && is_exp_mark(#[trigger] s[i])
}

/// The position of the first exponent mark in `s`, where there is one.
#[verifier::opaque]
pub open spec fn exp_index(s: Seq<char>) -> int {
    choose|i: int|
        0 <= i < s.len() && is_exp_mark(s[i]) && forall|j: int|
            0 <= j < i ==> !is_exp_mark(#[trigger] s[j])
}

/// `n` zero digits.
pub open spec fn zeros(n: nat) -> Seq<char> {
    Seq::new(n, |_i: int| '0')
}

/// The digits `d` with the decimal point moved `p` places to the right
/// (to the left where `p` is negative), and the digits after it dropped.
pub open spec fn shift_point(d: Seq<char>, p: int) -> Seq<char> {
    if p >= 0 {
        d + zeros(p as nat)
    } else if -p < d.len() {
        d.subrange(0, d.len() + p)
    } else {
        Seq::empty()
    }
}

/// The whole number that the digits `d`, with the point moved `p` places,
/// stand for: zero where all digits are zero, else at least one, and at
/// most `u64::MAX`.
pub open spec fn millis_from_digits(d: Seq<char>, p: int) -> u64 {
    let v = digits_value(shift_point(d, p));
    if digits_value(d) == 0 {
        0
    } else if v > u64::MAX {
        u64::MAX
    } else if v == 0 {
        1
    } else {
        v as u64
    }
}

/// An exponent: an optional sign and at least one digit. Its size is taken
/// as at most `u64::MAX`; any larger one moves the point past every digit
/// and every bound just the same.
pub open spec fn exponent_value(x: Seq<char>) -> Option<int> {
    let neg = x.len() > 0 && x[0] == '-';
    let ds = if x.len() > 0 && (x[0] == '+' || x[0] == '-') {
        x.drop_first()
    } else {
        x
    };
    if ds.len() > 0 && digits_only(ds) {
        let m: int = if digits_value(ds) <= u64::MAX {
            digits_value(ds) as int
        } else {
            u64::MAX as int
        };
        Some(
            if neg {
                -m
            } else {
                m
            },
        )
    } else {
        None
    }
}

/// `t` without a leading `+`.
pub open spec fn unsigned_part(t: Seq<char>) -> Seq<char> {
    if t.len() > 0 && t[0] == '+' {
        t.drop_first()
    } else {
        t
    }
}

/// The part of `b` before its exponent mark.
#[verifier::opaque]
pub open spec fn mantissa(b: Seq<char>) -> Seq<char> {
    if has_exp_mark(b) {
        b.subrange(0, exp_index(b))
    } else {
        b
    }
}

/// The exponent of `b`: zero where there is no exponent mark.
#[verifier::opaque]
pub open spec fn exponent_part(b: Seq<char>) -> Option<int> {
    if has_exp_mark(b) {
        exponent_value(b.subrange(exp_index(b) + 1, b.len() as int))
    } else {
        Some(0int)
    }
}

/// The digits of `m` before its `.`.
#[verifier::opaque]
pub open spec fn whole_part(m: Seq<char>) -> Seq<char> {
    if m.contains('.') {
        m.subrange(0, first_index(m, '.'))
    } else {
        m
    }
}

/// The digits of `m` after its `.`; none where there is no `.`.
#[verifier::opaque]
pub open spec fn fraction_part(m: Seq<char>) -> Seq<char> {
    if m.contains('.') {
        m.subrange(first_index(m, '.') + 1, m.len() as int)
    } else {
        Seq::empty()
    }
}

/// Milliseconds from the whole digits `w`, the fraction digits `f` and the
/// exponent `e`, where the digits are well formed.
pub open spec fn millis_from_parts(w: Seq<char>, f: Seq<char>, e: Option<int>) -> Option<u64> {
    match e {
        Some(e) => if digits_only(w) && digits_only(f) && w.len() + f.len() > 0 {
            Some(millis_from_digits(w + f, e - f.len() + 3))
        } else {
            None
        },
        None => None,
    }
}

/// A non-negative number of seconds in milliseconds. The text is an
/// optional `+`, then digits with an optional `.` and fraction (at least
/// one digit in all), then optionally `e` or `E` and an exponent. The
/// value is cut to whole milliseconds, a positive value below one
/// millisecond counts as one, and a value beyond `u64::MAX` as `u64::MAX`.
/// `None` for any other text.
#[verifier::opaque]
pub open spec fn seconds_text_millis(t: Seq<char>) -> Option<u64> {
    let b = unsigned_part(t);
    millis_from_parts(whole_part(mantissa(b)), fraction_part(mantissa(b)), exponent_part(b))
}

proof fn lemma_push_digit(s: Seq<char>, c: char)
    ensures
        digits_value(s.push(c)) == digits_value(s) * 10 + ((c as u32) - ('0' as u32)) as nat,
{
    assert(s.push(c).drop_last() == s);
}

proof fn lemma_zeros_grow(s: Seq<char>, m: nat)
    ensures
        digits_value(s + zeros(m)) >= digits_value(s),
    decreases m,
{
    if m == 0 {
        assert(s + zeros(0) == s);
    } else {
        lemma_zeros_grow(s, (m - 1) as nat);
        assert(s + zeros(m) == (s + zeros((m - 1) as nat)).push('0'));
        lemma_push_digit(s + zeros((m - 1) as nat), '0');
    }
}

proof fn lemma_zero_value(s: Seq<char>)
    requires
        digits_only(s),
    ensures
        digits_value(s) == 0 <==> forall|j: int| 0 <= j < s.len() ==> #[trigger] s[j] == '0',
    decreases s.len(),
{
    if s.len() > 0 {
        let t = s.drop_last();
        lemma_zero_value(t);
        assert(is_digit(s[s.len() - 1]));
        if digits_value(s) == 0 {
            assert forall|j: int| 0 <= j < s.len() implies #[trigger] s[j] == '0' by {
                if j < s.len() - 1 {
                    assert(t[j] == s[j]);
                }
            }
        } else {
            if forall|j: int| 0 <= j < s.len() ==> #[trigger] s[j] == '0' {
                assert forall|j: int| 0 <= j < t.len() implies #[trigger] t[j] == '0' by {
                    assert(s[j] == '0');
                }
                assert(s[s.len() - 1] == '0');
            }
        }
    }
}

proof fn lemma_exp_index(s: Seq<char>, i: int)
    requires
        0 <= i < s.len(),
        is_exp_mark(s[i]),
        forall|j: int| 0 <= j < i ==> !is_exp_mark(#[trigger] s[j]),
    ensures
        has_exp_mark(s),
        exp_index(s) == i,
{
    reveal(exp_index);
    let k = exp_index(s);
    if k < i {
        assert(!is_exp_mark(s[k]));
    } else if k > i {
        assert(!is_exp_mark(s[i]));
    }
}

/// The characters of `t`.
fn chars_of(t: &str) -> (r: Vec<char>)
    ensures
        r@ == t@,
{
    let n = t.unicode_len();
    let mut out: Vec<char> = Vec::new();
    let mut i: usize = 0;
    while i < n
        invariant
            n == t@.len(),
            i <= n,
            out@ == t@.subrange(0, i as int),
        decreases n - i,
    {
        out.push(t.get_char(i));
        proof {
            assert(t@.subrange(0, i + 1) == t@.subrange(0, i as int).push(t@[i as int]));
        }
        i = i + 1;
    }
    proof {
        assert(t@.subrange(0, n as int) == t@);
    }
    out
}

/// Whether `c[from..to]` is made of digits only.
fn digits_in(c: &Vec<char>, from: usize, to: usize) -> (r: bool)
    requires
        from <= to <= c@.len(),
    ensures
        r == digits_only(c@.subrange(from as int, to as int)),
{
    let mut i = from;
    while i < to
        invariant
            from <= i <= to <= c@.len(),
            forall|j: int| from <= j < i ==> is_digit(#[trigger] c@[j]),
        decreases to - i,
    {
        if !('0' <= c[i] && c[i] <= '9') {
            proof {
                assert(!is_digit(c@.subrange(from as int, to as int)[i - from]));
            }
            return false;
        }
        i = i + 1;
    }
    proof {
        assert forall|j: int| 0 <= j < to - from implies is_digit(
            #[trigger] c@.subrange(from as int, to as int)[j],
        ) by {
            assert(is_digit(c@[from + j]));
        }
    }
    true
}

/// `acc * 10 + digit`, or `None` where that exceeds `u64::MAX`.
fn push_digit(acc: u64, c: char) -> (r: Option<u64>)
    requires
        is_digit(c),
    ensures
        r matches Some(v) ==> v == acc * 10 + ((c as u32) - ('0' as u32)),
        r is None ==> acc * 10 + ((c as u32) - ('0' as u32)) > u64::MAX,
{
    let d = (c as u32 - '0' as u32) as u64;
    if acc > (u64::MAX - d) / 10 {
        proof {
            assert(acc * 10 + d > u64::MAX) by (nonlinear_arith)
                requires
                    acc > (u64::MAX - d) / 10,
                    d < 10,
            ;
        }
        None
    } else {
        proof {
            assert(acc * 10 + d <= u64::MAX) by (nonlinear_arith)
                requires
                    acc <= (u64::MAX - d) / 10,
                    d < 10,
            ;
        }
        Some(acc * 10 + d)
    }
}

/// The value of the digits `c[from..to]` followed by `z` zeros, or `None`
/// where it exceeds `u64::MAX`.
fn saturating_value(c: &Vec<char>, from: usize, to: usize, z: u128) -> (r: Option<u64>)
    requires
        from <= to <= c@.len(),
        digits_only(c@.subrange(from as int, to as int)),
    ensures
        ({
            let v = digits_value(c@.subrange(from as int, to as int) + zeros(z as nat));
            match r {
                Some(x) => x == v,
                None => v > u64::MAX,
            }
        }),
{
    let ghost s = c@.subrange(from as int, to as int);
    let mut acc: u64 = 0;
    let mut over = false;
    let mut i = from;
    proof {
        assert(c@.subrange(from as int, from as int) == Seq::<char>::empty());
    }
    while i < to
        invariant
            from <= i <= to <= c@.len(),
            s == c@.subrange(from as int, to as int),
            digits_only(s),
            over ==> digits_value(c@.subrange(from as int, i as int)) > u64::MAX,
            !over ==> acc == digits_value(c@.subrange(from as int, i as int)),
        decreases to - i,
    {
        let ghost prefix = c@.subrange(from as int, i as int);
        proof {
            assert(c@.subrange(from as int, i + 1) == prefix.push(c@[i as int]));
            assert(is_digit(s[i - from]));
            lemma_push_digit(prefix, c@[i as int]);
        }
        if !over {
            match push_digit(acc, c[i]) {
                Some(v) => {
                    acc = v;
                },
                None => {
                    over = true;
                },
            }
        }
        i = i + 1;
    }
    proof {
        assert(c@.subrange(from as int, to as int) + zeros(0) == s);
    }
    let mut k: u128 = 0;
    while k < z && !over
        invariant
            k <= z,
            over ==> digits_value(s + zeros(k as nat)) > u64::MAX,
            !over ==> acc == digits_value(s + zeros(k as nat)),
        decreases z - k,
    {
        proof {
            assert(s + zeros((k + 1) as nat) == (s + zeros(k as nat)).push('0'));
            lemma_push_digit(s + zeros(k as nat), '0');
        }
        match push_digit(acc, '0') {
            Some(v) => {
                acc = v;
            },
            None => {
                over = true;
            },
        }
        k = k + 1;
    }
    if over {
        proof {
            lemma_zeros_grow(s + zeros(k as nat), (z - k) as nat);
            assert(s + zeros(k as nat) + zeros((z - k) as nat) == s + zeros(z as nat));
        }
        None
    } else {
        Some(acc)
    }
}

/// The exponent written in `c[from..to]` (see `exponent_value`).
fn exponent_of(c: &Vec<char>, from: usize, to: usize) -> (r: Option<i128>)
    requires
        from <= to <= c@.len(),
    ensures
        r is None <==> exponent_value(c@.subrange(from as int, to as int)) is None,
        r matches Some(v) ==> exponent_value(c@.subrange(from as int, to as int)) == Some(
            v as int,
        ),
{
    let ghost x = c@.subrange(from as int, to as int);
    let signed = from < to && (c[from] == '+' || c[from] == '-');
    let neg = from < to && c[from] == '-';
    let start = if signed {
        from + 1
    } else {
        from
    };
    proof {
        if signed {
            assert(x.drop_first() == c@.subrange(start as int, to as int));
        }
    }
    if start >= to || !digits_in(c, start, to) {
        return None;
    }
    let m: u64 = match saturating_value(c, start, to, 0) {
        Some(v) => v,
        None => u64::MAX,
    };
    proof {
        assert(c@.subrange(start as int, to as int) + zeros(0) == c@.subrange(
            start as int,
            to as int,
        ));
    }
    if neg {
        Some(-(m as i128))
    } else {
        Some(m as i128)
    }
}

/// Appends `c[from..to]` to `v`.
fn push_range(v: &mut Vec<char>, c: &Vec<char>, from: usize, to: usize)
    requires
        from <= to <= c@.len(),
    ensures
        final(v)@ == old(v)@ + c@.subrange(from as int, to as int),
{
    let mut i = from;
    while i < to
        invariant
            from <= i <= to <= c@.len(),
            v@ == old(v)@ + c@.subrange(from as int, i as int),
        decreases to - i,
    {
        v.push(c[i]);
        proof {
            assert(c@.subrange(from as int, i + 1) == c@.subrange(from as int, i as int).push(
                c@[i as int],
            ));
        }
        i = i + 1;
    }
}

/// Whether some digit of `d` is not `0`.
fn any_nonzero(d: &Vec<char>) -> (r: bool)
    ensures
        r == !(forall|j: int| 0 <= j < d@.len() ==> #[trigger] d@[j] == '0'),
{
    let mut i: usize = 0;
    while i < d.len()
        invariant
            i <= d@.len(),
            forall|j: int| 0 <= j < i ==> #[trigger] d@[j] == '0',
        decreases d@.len() - i,
    {
        if d[i] != '0' {
            return true;
        }
        i = i + 1;
    }
    false
}

/// The milliseconds that the digits `d`, with the point moved `p` places,
/// stand for (see `millis_from_digits`).
fn millis_of_digits(d: &Vec<char>, p: i128) -> (r: u64)
    requires
        digits_only(d@),
        -0x1_0000_0000_0000_0000_0000 < p < 0x1_0000_0000_0000_0000_0000,
    ensures
        r == millis_from_digits(d@, p as int),
{
    proof {
        lemma_zero_value(d@);
        assert(d@.subrange(0, d@.len() as int) == d@);
    }
    if !any_nonzero(d) {
        return 0;
    }
    let v = if p >= 0 {
        saturating_value(d, 0, d.len(), p as u128)
    } else {
        let keep: usize = if -p < d.len() as i128 {
            (d.len() as i128 + p) as usize
        } else {
            0
        };
        proof {
            assert(digits_only(d@.subrange(0, keep as int)));
            assert(d@.subrange(0, keep as int) + zeros(0) == shift_point(d@, p as int));
        }
        saturating_value(d, 0, keep, 0)
    };
    match v {
        None => u64::MAX,
        Some(0) => 1,
        Some(x) => x,
    }
}

/// Where the parts of the number in `c` lie: `c[lo..]` is the text after a
/// leading `+`, `c[lo..di]` the whole digits, `c[fs..ei]` the fraction
/// digits, and `c[ei + 1..]` the exponent where `ei` is before the end.
fn split_number(c: &Vec<char>) -> (r: (usize, usize, usize, usize))
    ensures
        ({
            let (lo, di, fs, ei) = r;
            let n = c@.len() as int;
            let b = unsigned_part(c@);
            &&& lo <= di <= fs <= ei <= n
            &&& b == c@.subrange(lo as int, n)
            &&& whole_part(mantissa(b)) == c@.subrange(lo as int, di as int)
            &&& fraction_part(mantissa(b)) == c@.subrange(fs as int, ei as int)
            &&& (ei < n ==> has_exp_mark(b) && b.subrange(exp_index(b) + 1, b.len() as int)
                == c@.subrange(ei + 1, n))
            &&& (ei == n ==> !has_exp_mark(b))
        }),
{
    let n = c.len();
    let lo: usize = if n > 0 && c[0] == '+' {
        1
    } else {
        0
    };
    let ghost b = c@.subrange(lo as int, n as int);
    proof {
        if lo == 1 {
            assert(b == c@.drop_first());
        } else {
            assert(b == c@);
        }
        assert(b == unsigned_part(c@));
    }
    let mut ei = lo;
    while ei < n && !(c[ei] == 'e' || c[ei] == 'E')
        invariant
            lo <= ei <= n == c@.len(),
            forall|j: int| lo <= j < ei ==> !is_exp_mark(#[trigger] c@[j]),
        decreases n - ei,
    {
        ei = ei + 1;
    }
    let ghost m = c@.subrange(lo as int, ei as int);
    proof {
        if ei < n {
            assert forall|j: int| 0 <= j < ei - lo implies !is_exp_mark(#[trigger] b[j]) by {
                assert(b[j] == c@[lo + j]);
            }
            lemma_exp_index(b, ei - lo);
            assert(m == mantissa(b)) by {
                reveal(mantissa);
            }
            assert(c@.subrange(ei + 1, n as int) == b.subrange(exp_index(b) + 1, b.len() as int));
        } else {
            assert(!has_exp_mark(b)) by {
                if has_exp_mark(b) {
                    let i = choose|i: int| 0 <= i < b.len() && is_exp_mark(#[trigger] b[i]);
                    assert(b[i] == c@[lo + i]);
                }
            }
            assert(m == mantissa(b)) by {
                reveal(mantissa);
            }
        }
    }
    let mut di = lo;
    while di < ei && c[di] != '.'
        invariant
            lo <= di <= ei <= n == c@.len(),
            forall|j: int| lo <= j < di ==> #[trigger] c@[j] != '.',
        decreases ei - di,
    {
        di = di + 1;
    }
    let fs = if di < ei {
        di + 1
    } else {
        ei
    };
    proof {
        let w = c@.subrange(lo as int, di as int);
        let f = c@.subrange(fs as int, ei as int);
        if di < ei {
            assert(m == w + seq!['.'] + f);
            assert(!w.contains('.')) by {
                if w.contains('.') {
                    let i = choose|i: int| 0 <= i < w.len() && w[i] == '.';
                    assert(w[i] == c@[lo + i]);
                }
            }
            lemma_first_index(m, '.', w, f);
            assert(w == whole_part(m) && f == fraction_part(m)) by {
                reveal(whole_part);
                reveal(fraction_part);
            }
        } else {
            assert(!m.contains('.')) by {
                if m.contains('.') {
                    let i = choose|i: int| 0 <= i < m.len() && m[i] == '.';
                    assert(m[i] == c@[lo + i]);
                }
            }
            assert(w == whole_part(m) && f == fraction_part(m)) by {
                reveal(whole_part);
                reveal(fraction_part);
                assert(w == m);
                assert(f == Seq::<char>::empty());
            }
        }
    }
    (lo, di, fs, ei)
}

/// A number of seconds as written (see `seconds_text_millis`), in milliseconds.
pub fn parse_seconds_millis(t: &str) -> (r: Option<u64>)
    ensures
        r == seconds_text_millis(t@),
{
    let c = chars_of(t);
    let n = c.len();
    let (lo, di, fs, ei) = split_number(&c);
    let ghost b = unsigned_part(t@);
    let e: i128 = if ei < n {
        match exponent_of(&c, ei + 1, n) {
            Some(e) => e,
            None => {
                proof {
                    reveal(seconds_text_millis);
                    reveal(exponent_part);
                }
                return None;
            },
        }
    } else {
        0
    };
    proof {
        assert(exponent_part(b) == Some(e as int)) by {
            reveal(exponent_part);
        }
        assert(-0x1_0000_0000_0000_0000 <= e <= 0x1_0000_0000_0000_0000);
    }
    if !digits_in(&c, lo, di) || !digits_in(&c, fs, ei) || (di == lo && ei == fs) {
        proof {
            reveal(seconds_text_millis);
        }
        return None;
    }
    let mut d: Vec<char> = Vec::new();
    push_range(&mut d, &c, lo, di);
    push_range(&mut d, &c, fs, ei);
    proof {
        let w = c@.subrange(lo as int, di as int);
        let f = c@.subrange(fs as int, ei as int);
        assert(d@ == w + f);
        assert forall|j: int| 0 <= j < d@.len() implies is_digit(#[trigger] d@[j]) by {
            if j < w.len() {
                assert(d@[j] == w[j]);
            } else {
                assert(d@[j] == f[j - w.len()]);
            }
        }
    }
    let p: i128 = e - (ei - fs) as i128 + 3;
    let r = millis_of_digits(&d, p);
    proof {
        reveal(seconds_text_millis);
    }
    Some(r)
}

} // verus!
