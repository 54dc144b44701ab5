//! Decimal rendering of the numbers that appear in the report.

use vstd::prelude::*;

verus! {

/// The decimal digit character for a value below ten.
pub open spec fn dec_digit(d: int) -> char {
    if d == 0 {
        '0'
    } else if d == 1 {
        '1'
    } else if d == 2 {
        '2'
    } else if d == 3 {
        '3'
    } else if d == 4 {
        '4'
    } else if d == 5 {
        '5'
    } else if d == 6 {
        '6'
    } else if d == 7 {
        '7'
    } else if d == 8 {
        '8'
    } else {
        '9'
    }
}

/// The usual decimal numeral of a non-negative number: no leading zeros,
/// except that zero itself is the single digit `0`.
pub open spec fn dec_digits(n: int) -> Seq<char>
    recommends
        0 <= n,
    decreases n,
{
    if n < 10 {
        seq![dec_digit(n)]
    } else {
        dec_digits(n / 10).push(dec_digit(n % 10))
    }
}

/// The decimal numeral right-aligned in a field of width two: a value below
/// ten gets one leading space, a wider value is not truncated.
pub open spec fn padded2(n: int) -> Seq<char>
    recommends
        0 <= n,
{
    if n < 10 {
        seq![' '] + dec_digits(n)
    } else {
        dec_digits(n)
    }
}

/// The one-character string for a decimal digit.
fn digit_str(d: u64) -> (s: &'static str)
    requires
        d < 10,
    ensures
        s@ == seq![dec_digit(d as int)],
{
    proof {
        reveal_strlit("0");
        reveal_strlit("1");
        reveal_strlit("2");
        reveal_strlit("3");
        reveal_strlit("4");
        reveal_strlit("5");
        reveal_strlit("6");
        reveal_strlit("7");
        reveal_strlit("8");
        reveal_strlit("9");
    }
    if d == 0 {
        "0"
    } else if d == 1 {
        "1"
    } else if d == 2 {
        "2"
    } else if d == 3 {
        "3"
    } else if d == 4 {
        "4"
    } else if d == 5 {
        "5"
    } else if d == 6 {
        "6"
    } else if d == 7 {
        "7"
    } else if d == 8 {
        "8"
    } else {
        "9"
    }
}

/// Appends the decimal numeral of `n` to `out`.
pub fn append_decimal(out: &mut String, n: u64)
    ensures
        final (out)@ == old(out)@ + dec_digits(n as int),
    decreases n,
{
    if n >= 10 {
        append_decimal(out, n / 10);
    }
    let s = digit_str(n % 10);
    out.append(s);
    proof {
        if n < 10 {
            assert(n % 10 == n as int);
        }
        assert(old(out)@ + dec_digits(n as int) =~= final (out)@);
    }
}

/// Appends the decimal numeral of `n`, right-aligned in a field of width
/// two, to `out`.
pub fn append_padded2(out: &mut String, n: u64)
    ensures
        final (out)@ == old(out)@ + padded2(n as int),
{
    if n < 10 {
        out.append(" ");
        proof {
            reveal_strlit(" ");
        }
    }
    append_decimal(out, n);
    proof {
        assert(old(out)@ + padded2(n as int) =~= final (out)@);
    }
}

} // verus!
