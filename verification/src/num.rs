//! Decimal numbers: how integers are written (as `format!("{}", n)` does)
//! and how text is read back as an integer (as `str::parse` does).

use vstd::prelude::*;
use vstd::string::*;
use vstd::utf8::{encode_utf8, is_ascii_chars, is_ascii_chars_encode_utf8};
use crate::text::push_char;

verus! {

/// The character of a decimal digit.
pub open spec fn digit_char(d: int) -> char {
    (48 + d) as char
}

/// The decimal writing of a natural number, most significant digit first.
pub open spec fn decimal(n: nat) -> Seq<char>
    decreases n,
{
    if n < 10 {
        seq![digit_char(n as int)]
    } else {
        decimal(n / 10).push(digit_char((n % 10) as int))
    }
}

/// The decimal writing of an integer, with a leading `-` when negative.
pub open spec fn decimal_int(i: int) -> Seq<char> {
    if i < 0 {
        seq!['-'] + decimal((-i) as nat)
    } else {
        decimal(i as nat)
    }
}

fn digit_exec(d: u64) -> (c: char)
    requires
        d < 10,
    ensures
        c == digit_char(d as int),
{
    let b: u8 = 48u8 + (d as u8);
    let c = b as char;
    assert(c == digit_char(d as int)) by {
        assert((b as char) == ((48 + d) as char));
    }
    c
}

/// Appends the decimal writing of `n` to `s`.
pub fn push_decimal(s: &mut String, n: u64)
    ensures
        final(s)@ == old(s)@ + decimal(n as nat),
    decreases n,
{
    if n >= 10 {
        push_decimal(s, n / 10);
    }
    let c = digit_exec(n % 10);
    push_char(s, c);
    assert(final(s)@ =~= old(s)@ + decimal(n as nat));
}

/// Appends the decimal writing of `i` to `s`.
pub fn push_decimal_signed(s: &mut String, i: i64)
    ensures
        final(s)@ == old(s)@ + decimal_int(i as int),
{
    if i < 0 {
        push_char(s, '-');
        let m: u64 = ((-(i + 1)) as u64) + 1;
        push_decimal(s, m);
        assert(final(s)@ =~= old(s)@ + decimal_int(i as int));
    } else {
        push_decimal(s, i as u64);
    }
}

/// Whether a byte is an ASCII decimal digit.
pub open spec fn is_digit_byte(b: u8) -> bool {
    48 <= b <= 57
}

/// Every byte is an ASCII decimal digit.
pub open spec fn all_digits(b: Seq<u8>) -> bool {
    forall|i: int| 0 <= i < b.len() ==> is_digit_byte(#[trigger] b[i])
}

/// The value of a sequence of decimal digits.
pub open spec fn digits_value(b: Seq<u8>) -> nat
    decreases b.len(),
{
    if b.len() == 0 {
        0
    } else {
        digits_value(b.drop_last()) * 10 + (b.last() - 48) as nat
    }
}

/// The integer that `str::parse` reads from the bytes `b`, before it checks
/// the range of the target type: an optional `+` (or, for a signed type, `-`)
/// followed by at least one decimal digit, and nothing else.
pub open spec fn integer_literal(b: Seq<u8>, signed: bool) -> Option<int> {
    if b.len() > 1 && b[0] == 43 && all_digits(b.skip(1)) {
        Some(digits_value(b.skip(1)) as int)
    } else if signed && b.len() > 1 && b[0] == 45 && all_digits(b.skip(1)) {
        Some(-(digits_value(b.skip(1)) as int))
    } else if b.len() > 0 && all_digits(b) {
        Some(digits_value(b) as int)
    } else {
        None
    }
}

/// What `str::parse::<i32>` gives for the bytes `b`.
pub open spec fn parsed_i32(b: Seq<u8>) -> Option<i32> {
    match integer_literal(b, true) {
        Some(v) => if i32::MIN <= v <= i32::MAX {
            Some(v as i32)
        } else {
            None
        },
        None => None,
    }
}

/// What `str::parse::<usize>` gives for the bytes `b`.
pub open spec fn parsed_usize(b: Seq<u8>) -> Option<usize> {
    match integer_literal(b, false) {
        Some(v) => if 0 <= v <= usize::MAX {
            Some(v as usize)
        } else {
            None
        },
        None => None,
    }
}

proof fn lemma_digits_value_prefix(b: Seq<u8>, k: int)
    requires
        0 <= k <= b.len(),
    ensures
        digits_value(b.subrange(0, k)) <= digits_value(b),
    decreases b.len() - k,
{
    if k < b.len() {
        lemma_digits_value_prefix(b, k + 1);
        assert(b.subrange(0, k + 1).drop_last() =~= b.subrange(0, k));
    } else {
        assert(b.subrange(0, k) =~= b);
    }
}

/// The value of the digits `b[start..]` when they are all digits, not empty,
/// and their value is at most `cap`.
fn digits_at_most(b: &[u8], start: usize, cap: u64) -> (r: Option<u64>)
    requires
        start <= b@.len(),
    ensures
        match r {
            Some(v) => start < b@.len() && all_digits(b@.skip(start as int)) && v == digits_value(
                b@.skip(start as int),
            ) && v <= cap,
            None => !(start < b@.len() && all_digits(b@.skip(start as int)) && digits_value(
                b@.skip(start as int),
            ) <= cap),
        },
{
    let n = b.len();
    if start >= n {
        return None;
    }
    let ghost t = b@.skip(start as int);
    let mut acc: u64 = 0;
    let mut k: usize = start;
    while k < n
        invariant
            start <= k <= n,
            n == b@.len(),
            t == b@.skip(start as int),
            all_digits(t.subrange(0, k - start)),
            acc == digits_value(t.subrange(0, k - start)),
            acc <= cap,
        decreases n - k,
    {
        let c = b[k];
        if c < 48 || c > 57 {
            assert(!is_digit_byte(t[k - start]));
            return None;
        }
        assert(t.subrange(0, k + 1 - start).drop_last() =~= t.subrange(0, k - start));
        assert(t.subrange(0, k + 1 - start).last() == c);
        let d: u64 = (c - 48) as u64;
        if d > cap || acc > (cap - d) / 10 {
            proof {
                assert(acc * 10 + d > cap) by (nonlinear_arith)
                    requires
                        d > cap || acc > (cap - d) / 10,
                        d <= 9,
                ;
                lemma_digits_value_prefix(t, k + 1 - start);
            }
            return None;
        }
        assert(acc * 10 + d <= cap) by (nonlinear_arith)
            requires
                acc <= (cap - d) / 10,
                d <= cap,
        ;
        acc = acc * 10 + d;
        k = k + 1;
    }
    assert(t.subrange(0, n - start) =~= t);
    Some(acc)
}


/// Reads the bytes `b` as an `i32`, as `str::parse::<i32>` does.
pub fn parse_i32(b: &[u8]) -> (r: Option<i32>)
    ensures
        r == parsed_i32(b@),
{
    let n = b.len();
    if n > 1 && b[0] == 43 {
        match digits_at_most(b, 1, 2147483647) {
            Some(v) => Some(v as i32),
            None => None,
        }
    } else if n > 1 && b[0] == 45 {
        match digits_at_most(b, 1, 2147483648) {
            Some(v) => {
                let w: i64 = -(v as i64);
                Some(w as i32)
            },
            None => None,
        }
    } else {
        assert(n > 0 && all_digits(b@) ==> b@.skip(0) =~= b@);
        match digits_at_most(b, 0, 2147483647) {
            Some(v) => {
                assert(b@.skip(0) =~= b@);
                Some(v as i32)
            },
            None => {
                assert(b@.skip(0) =~= b@);
                None
            },
        }
    }
}

/// Reads the bytes `b` as a `usize`, as `str::parse::<usize>` does.
pub fn parse_usize(b: &[u8]) -> (r: Option<usize>)
    ensures
        r == parsed_usize(b@),
{
    let n = b.len();
    let cap: u64 = usize::MAX as u64;
    if n > 1 && b[0] == 43 {
        match digits_at_most(b, 1, cap) {
            Some(v) => Some(v as usize),
            None => None,
        }
    } else {
        match digits_at_most(b, 0, cap) {
            Some(v) => {
                assert(b@.skip(0) =~= b@);
                Some(v as usize)
            },
            None => {
                assert(b@.skip(0) =~= b@);
                None
            },
        }
    }
}

/// Reads a string as an `i32`, as `str::parse::<i32>` does.
pub fn parse_i32_str(s: &str) -> (r: Option<i32>)
    ensures
        r == parsed_i32(s.spec_bytes()),
{
    parse_i32(s.as_bytes())
}

/// Reads a string as a `usize`, as `str::parse::<usize>` does.
pub fn parse_usize_str(s: &str) -> (r: Option<usize>)
    ensures
        r == parsed_usize(s.spec_bytes()),
{
    parse_usize(s.as_bytes())
}

proof fn lemma_digit_char(d: int)
    requires
        0 <= d < 10,
    ensures
        digit_char(d) as u8 == 48 + d,
        '\0' <= digit_char(d) <= '\u{7f}',
{
}

proof fn lemma_decimal_chars(n: nat)
    ensures
        decimal(n).len() > 0,
        forall|i: int| 0 <= i < decimal(n).len() ==> '\0' <= #[trigger] decimal(n)[i] <= '\u{7f}'
            && is_digit_byte(decimal(n)[i] as u8),
    decreases n,
{
    lemma_digit_char((n % 10) as int);
    if n >= 10 {
        lemma_decimal_chars(n / 10);
    }
}

proof fn lemma_decimal_bytes(n: nat)
    ensures
        encode_utf8(decimal(n)).len() == decimal(n).len() > 0,
        all_digits(encode_utf8(decimal(n))),
        digits_value(encode_utf8(decimal(n))) == n,
    decreases n,
{
    let c = decimal(n);
    lemma_decimal_chars(n);
    assert(is_ascii_chars(c));
    is_ascii_chars_encode_utf8(c);
    let b = encode_utf8(c);
    assert(all_digits(b)) by {
        assert forall|i: int| 0 <= i < b.len() implies is_digit_byte(#[trigger] b[i]) by {
            assert(c[i] as u8 == b[i]);
        }
    }
    lemma_digit_char((n % 10) as int);
    if n >= 10 {
        let p = decimal(n / 10);
        lemma_decimal_bytes(n / 10);
        lemma_decimal_chars(n / 10);
        assert(is_ascii_chars(p));
        is_ascii_chars_encode_utf8(p);
        assert(b.drop_last() =~= encode_utf8(p)) by {
            assert forall|i: int| 0 <= i < p.len() implies b.drop_last()[i] == encode_utf8(p)[i] by {
                assert(c[i] == p[i]);
                assert(c[i] as u8 == b[i]);
                assert(p[i] as u8 == encode_utf8(p)[i]);
            }
        }
        assert(b.last() == c.last() as u8);
        assert(n == (n / 10) * 10 + n % 10);
    } else {
        assert(b.drop_last().len() == 0);
        assert(digits_value(b.drop_last()) == 0);
        assert(c[0] == digit_char(n as int));
        assert(n % 10 == n);
        assert(b.last() == c[0] as u8);
    }
}

/// What `format!("{}", n)` writes for a natural number is read back as
/// that number by `str::parse::<usize>` (when it fits) and by
/// `str::parse::<i32>` (when it fits).
pub proof fn law_decimal_reads_back(n: nat)
    ensures
        n <= usize::MAX ==> parsed_usize(encode_utf8(decimal(n))) == Some(n as usize),
        n <= i32::MAX ==> parsed_i32(encode_utf8(decimal(n))) == Some(n as i32),
{
    lemma_decimal_bytes(n);
    let b = encode_utf8(decimal(n));
    assert(is_digit_byte(b[0]));
    assert(integer_literal(b, false) == Some(n as int));
    assert(integer_literal(b, true) == Some(n as int));
}

/// What `format!("{}", i)` writes for an integer is read back as that
/// integer by `str::parse::<i32>`, whenever it fits in an `i32`.
pub proof fn law_decimal_int_reads_back(i: int)
    requires
        i32::MIN <= i <= i32::MAX,
    ensures
        parsed_i32(encode_utf8(decimal_int(i))) == Some(i as i32),
{
    if i >= 0 {
        law_decimal_reads_back(i as nat);
    } else {
        let d = decimal((-i) as nat);
        lemma_decimal_bytes((-i) as nat);
        lemma_decimal_chars((-i) as nat);
        let c = seq!['-'] + d;
        assert(is_ascii_chars(c)) by {
            assert forall|k: int| 0 <= k < c.len() implies '\0' <= #[trigger] c[k] <= '\u{7f}' by {
                if k > 0 {
                    assert(c[k] == d[k - 1]);
                }
            }
        }
        is_ascii_chars_encode_utf8(c);
        is_ascii_chars_encode_utf8(d);
        let b = encode_utf8(c);
        assert(b.skip(1) =~= encode_utf8(d)) by {
            assert forall|k: int| 0 <= k < d.len() implies b.skip(1)[k] == encode_utf8(d)[k] by {
                assert(c[k + 1] == d[k]);
                assert(c[k + 1] as u8 == b[k + 1]);
                assert(d[k] as u8 == encode_utf8(d)[k]);
            }
        }
        assert(b[0] == c[0] as u8);
        assert(b[0] == 45);
        assert(integer_literal(b, true) == Some(i));
    }
}

} // verus!
