//! Decimal text of integers: the formatting of `Display` for integers and
//! the parsing of `FromStr` for `i32` and `usize`, specified and verified.
use vstd::prelude::*;

verus! {

/// The ASCII digit for `d` (below ten).
pub open spec fn digit_char(d: int) -> char {
    (d + 48) as char
}

/// `c` is one of `0`..`9`.
pub open spec fn is_ascii_digit(c: char) -> bool {
    '0' <= c && c <= '9'
}

/// Every character of `d` is an ASCII digit.
pub open spec fn all_digits(d: Seq<char>) -> bool {
    forall|i: int| 0 <= i < d.len() ==> is_ascii_digit(#[trigger] d[i])
}

/// The value of a string of decimal digits.
pub open spec fn digits_value(d: Seq<char>) -> int
    decreases d.len(),
{
    if d.len() == 0 {
        0
    } else {
        digits_value(d.drop_last()) * 10 + (d.last() as int - 48)
    }
}

/// The decimal digits of `n`, without leading zeros (`Display` for unsigned integers).
pub open spec fn decimal(n: nat) -> Seq<char>
    decreases n,
{
    if n < 10 {
        seq![digit_char(n as int)]
    } else {
        decimal(n / 10).push(digit_char((n % 10) as int))
    }
}

/// The decimal text of `n`, with a leading `-` when it is negative (`Display` for signed integers).
pub open spec fn signed_decimal(n: int) -> Seq<char> {
    if n < 0 {
        seq!['-'] + decimal((-n) as nat)
    } else {
        decimal(n as nat)
    }
}

/// What `i32::from_str` gives for `s`: an optional `+` or `-`, then one or
/// more ASCII digits whose value lies in the range of `i32`.
pub open spec fn parse_i32(s: Seq<char>) -> Option<i32> {
    let negative = s.len() > 0 && s[0] == '-';
    let digits = if s.len() > 0 && (s[0] == '-' || s[0] == '+') { s.skip(1) } else { s };
    let v = if negative { -digits_value(digits) } else { digits_value(digits) };
    if digits.len() == 0 || !all_digits(digits) || v < i32::MIN || v > i32::MAX {
        None
    } else {
        Some(v as i32)
    }
}

/// What `usize::from_str` gives for `s`: an optional `+`, then one or more
/// ASCII digits whose value fits in `usize`.
pub open spec fn parse_usize(s: Seq<char>) -> Option<usize> {
    let digits = if s.len() > 0 && s[0] == '+' { s.skip(1) } else { s };
    if digits.len() == 0 || !all_digits(digits) || digits_value(digits) > usize::MAX {
        None
    } else {
        Some(digits_value(digits) as usize)
    }
}

pub proof fn lemma_digits_value_nonneg(d: Seq<char>)
    requires
        all_digits(d),
    ensures
        digits_value(d) >= 0,
    decreases d.len(),
{
    if d.len() > 0 {
        lemma_digits_value_nonneg(d.drop_last());
    }
}

/// The decimal text of a number is a non-empty string of digits denoting it.
pub proof fn lemma_decimal_digits(n: nat)
    ensures
        decimal(n).len() > 0,
        all_digits(decimal(n)),
        digits_value(decimal(n)) == n,
    decreases n,
{
    if n < 10 {
        assert(decimal(n).drop_last() =~= Seq::<char>::empty());
        assert(digit_char(n as int) as int == n + 48);
        assert(digits_value(decimal(n)) == digits_value(decimal(n).drop_last()) * 10 + (decimal(n).last() as int - 48));
    } else {
        lemma_decimal_digits(n / 10);
        let d = decimal(n);
        assert(d.drop_last() =~= decimal(n / 10));
        let r = n % 10;
        assert(digit_char(r as int) as int == r + 48);
        assert(n == (n / 10) * 10 + r);
        assert(d.last() == digit_char(r as int));
        assert(digits_value(d) == digits_value(d.drop_last()) * 10 + (d.last() as int - 48));
        assert forall|i: int| 0 <= i < d.len() implies is_ascii_digit(#[trigger] d[i]) by {
            if i < d.len() - 1 {
                assert(d[i] == decimal(n / 10)[i]);
            }
        }
    }
}

/// The decimal text of a positive number does not begin with `0`.
pub proof fn lemma_decimal_no_leading_zero(n: nat)
    requires
        n > 0,
    ensures
        decimal(n)[0] != '0',
    decreases n,
{
    if n >= 10 {
        lemma_decimal_no_leading_zero(n / 10);
        lemma_decimal_digits(n / 10);
        assert(decimal(n)[0] == decimal(n / 10)[0]);
    }
}

/// Reading back the decimal text of an `i32` gives the number.
pub proof fn lemma_parse_signed_decimal(n: i32)
    ensures
        parse_i32(signed_decimal(n as int)) == Some(n),
{
    let m: nat = if n < 0 { (-n) as nat } else { n as nat };
    lemma_decimal_digits(m);
    let s = signed_decimal(n as int);
    if n < 0 {
        assert(s.skip(1) =~= decimal(m));
    } else {
        assert(is_ascii_digit(decimal(m)[0]));
    }
}

/// The ASCII digit for `d`.
pub fn digit(d: u64) -> (c: char)
    requires
        d < 10,
    ensures
        c == digit_char(d as int),
{
    if d == 0 { '0' }
    else if d == 1 { '1' }
    else if d == 2 { '2' }
    else if d == 3 { '3' }
    else if d == 4 { '4' }
    else if d == 5 { '5' }
    else if d == 6 { '6' }
    else if d == 7 { '7' }
    else if d == 8 { '8' }
    else { '9' }
}

/// Appends the decimal digits of `n` to `out`.
pub fn push_decimal(out: &mut Vec<char>, n: u64)
    ensures
        final(out)@ == old(out)@ + decimal(n as nat),
    decreases n,
{
    if n >= 10 {
        push_decimal(out, n / 10);
        out.push(digit(n % 10));
        assert(final(out)@ =~= old(out)@ + decimal(n as nat)) by {
            assert(decimal(n as nat) == decimal((n / 10) as nat).push(digit_char((n % 10) as int)));
        }
    } else {
        out.push(digit(n));
        assert(out@ =~= old(out)@ + decimal(n as nat));
    }
}

/// Appends the decimal text of `n` to `out`, with a `-` when negative.
pub fn push_signed_decimal(out: &mut Vec<char>, n: i32)
    ensures
        final(out)@ == old(out)@ + signed_decimal(n as int),
{
    if n < 0 {
        out.push('-');
        let m: u64 = (-(n as i64)) as u64;
        push_decimal(out, m);
        assert(out@ =~= old(out)@ + signed_decimal(n as int));
    } else {
        push_decimal(out, n as u64);
    }
}

/// The value of the ASCII digit `c`.
fn digit_value(c: char) -> (d: u64)
    requires
        is_ascii_digit(c),
    ensures
        d == c as int - 48,
        d < 10,
{
    (c as u32 - '0' as u32) as u64
}

/// Whether every character of `d` is an ASCII digit.
fn all_digits_exec(d: &Vec<char>) -> (b: bool)
    ensures
        b == all_digits(d@),
{
    let mut i: usize = 0;
    while i < d.len()
        invariant
            i <= d.len(),
            forall|k: int| 0 <= k < i ==> is_ascii_digit(#[trigger] d@[k]),
        decreases d.len() - i,
    {
        if !('0' <= d[i] && d[i] <= '9') {
            return false;
        }
        i += 1;
    }
    true
}

/// The value of the digits `d` when it is at most `cap`, else `None`.
fn bounded_digits_value(d: &Vec<char>, cap: u64) -> (r: Option<u64>)
    requires
        all_digits(d@),
        cap <= u64::MAX / 20,
    ensures
        match r {
            Some(v) => v == digits_value(d@) && v <= cap,
            None => digits_value(d@) > cap,
        },
{
    let mut acc: u64 = 0;
    let mut big = false;
    let mut i: usize = 0;
    assert(d@.take(0) =~= Seq::<char>::empty());
    while i < d.len()
        invariant
            i <= d.len(),
            all_digits(d@),
            cap <= u64::MAX / 20,
            big ==> digits_value(d@.take(i as int)) > cap,
            !big ==> acc == digits_value(d@.take(i as int)) && acc <= cap,
        decreases d.len() - i,
    {
        let x = digit_value(d[i]);
        proof {
            assert(d@.take(i + 1).drop_last() =~= d@.take(i as int));
            assert(d@.take(i + 1).last() == d@[i as int]);
        }
        if !big {
            let nv = acc * 10 + x;
            if nv > cap {
                big = true;
            } else {
                acc = nv;
            }
        }
        i += 1;
    }
    assert(d@.take(i as int) =~= d@);
    if big { None } else { Some(acc) }
}

/// `s` read as an `i32` (`i32::from_str`).
pub fn parse_i32_exec(s: &Vec<char>) -> (r: Option<i32>)
    ensures
        r == parse_i32(s@),
{
    let negative = s.len() > 0 && s[0] == '-';
    let signed = s.len() > 0 && (s[0] == '-' || s[0] == '+');
    let digits = if signed { crate::text::slice_of(s, 1, s.len()) } else { crate::text::slice_of(s, 0, s.len()) };
    assert(signed ==> digits@ =~= s@.skip(1));
    assert(!signed ==> digits@ =~= s@);
    if digits.len() == 0 || !all_digits_exec(&digits) {
        return None;
    }
    match bounded_digits_value(&digits, 2147483648) {
        None => None,
        Some(v) => {
            if negative {
                Some((-(v as i64)) as i32)
            } else if v <= 2147483647 {
                Some(v as i32)
            } else {
                None
            }
        },
    }
}

/// `s` read as a `usize` (`usize::from_str`).
pub fn parse_usize_exec(s: &Vec<char>) -> (r: Option<usize>)
    ensures
        r == parse_usize(s@),
{
    let signed = s.len() > 0 && s[0] == '+';
    let digits = if signed { crate::text::slice_of(s, 1, s.len()) } else { crate::text::slice_of(s, 0, s.len()) };
    assert(signed ==> digits@ =~= s@.skip(1));
    assert(!signed ==> digits@ =~= s@);
    if digits.len() == 0 || !all_digits_exec(&digits) {
        return None;
    }
    let mut acc: usize = 0;
    let mut i: usize = 0;
    assert(digits@.take(0) =~= Seq::<char>::empty());
    while i < digits.len()
        invariant
            i <= digits.len(),
            all_digits(digits@),
            digits@ == (if s@.len() > 0 && s@[0] == '+' { s@.skip(1) } else { s@ }),
            acc == digits_value(digits@.take(i as int)),
        decreases digits.len() - i,
    {
        let x = digit_value(digits[i]) as usize;
        proof {
            assert(digits@.take(i + 1).drop_last() =~= digits@.take(i as int));
            assert(digits@.take(i + 1).last() == digits@[i as int]);
        }
        match acc.checked_mul(10) {
            None => {
                proof {
                    lemma_value_grows(digits@, i as int);
                    assert(is_ascii_digit(digits@[i as int]));
                    assert(acc * 10 > usize::MAX);
                }
                return None;
            },
            Some(m) => match m.checked_add(x) {
                None => {
                    proof { lemma_value_grows(digits@, i as int); }
                    return None;
                },
                Some(n) => {
                    acc = n;
                },
            },
        }
        i += 1;
    }
    assert(digits@.take(i as int) =~= digits@);
    Some(acc)
}

/// A longer string of digits denotes at least ten times the value of its
/// prefix, and at least the value of the prefix.
proof fn lemma_value_grows(d: Seq<char>, k: int)
    requires
        all_digits(d),
        0 <= k < d.len(),
    ensures
        digits_value(d) >= digits_value(d.take(k)) * 10 + (d[k] as int - 48),
        digits_value(d) >= digits_value(d.take(k + 1)),
    decreases d.len() - k,
{
    assert(d.take(k + 1).drop_last() =~= d.take(k));
    lemma_digits_value_nonneg(d.take(k));
    if k + 1 == d.len() {
        assert(d.take(k + 1) =~= d);
    } else {
        lemma_value_grows(d, k + 1);
        assert(d.take(k + 2).drop_last() =~= d.take(k + 1));
        assert forall|i: int| 0 <= i < d.take(k + 1).len() implies is_ascii_digit(#[trigger] d.take(k + 1)[i]) by {
            assert(d.take(k + 1)[i] == d[i]);
        }
        lemma_digits_value_nonneg(d.take(k + 1));
    }
}

} // verus!
