//! Decimal rendering of integers, specified over `Seq<char>`.

use vstd::prelude::*;

verus! {

/// The decimal digit character for `d` (`d < 10`).
pub open spec fn dec_digit(d: int) -> char {
    if d == 0 {
        '0'
    } else if d == 1 {
        '1'
    } else if d == 2 {
        '2'
    } else if d == 3 {
        '3'
    } else if d == 4 {
        '4'
    } else if d == 5 {
        '5'
    } else if d == 6 {
        '6'
    } else if d == 7 {
        '7'
    } else if d == 8 {
        '8'
    } else {
        '9'
    }
}

/// The decimal rendering of a nonnegative integer, without leading zeros
/// (except for the single digit of zero itself).
pub open spec fn dec_of(n: int) -> Seq<char>
    decreases n,
{
    if n < 10 {
        seq![dec_digit(n)]
    } else {
        dec_of(n / 10) + seq![dec_digit(n % 10)]
    }
}

/// The decimal rendering of a signed integer: a minus sign before the
/// magnitude when negative.
pub open spec fn dec_of_signed(i: int) -> Seq<char> {
    if i < 0 {
        seq!['-'] + dec_of(-i)
    } else {
        dec_of(i)
    }
}

/// The decimal rendering of `n < 100` padded to two digits with a leading zero.
pub open spec fn dec_pad2(n: int) -> Seq<char> {
    if n < 10 {
        seq!['0'] + dec_of(n)
    } else {
        dec_of(n)
    }
}

/// Appends the decimal rendering of `n` to `v`.
pub fn push_dec_u64(v: &mut Vec<char>, n: u64)
    ensures
        final(v)@ == old(v)@ + dec_of(n as int),
    decreases n,
{
    if n < 10 {
        let d: u64 = n;
        let c: char = if d == 0 {
            '0'
        } else if d == 1 {
            '1'
        } else if d == 2 {
            '2'
        } else if d == 3 {
            '3'
        } else if d == 4 {
            '4'
        } else if d == 5 {
            '5'
        } else if d == 6 {
            '6'
        } else if d == 7 {
            '7'
        } else if d == 8 {
            '8'
        } else {
            '9'
        };
        v.push(c);
        proof {
            assert(v@ =~= old(v)@ + dec_of(n as int));
        }
    } else {
        push_dec_u64(v, n / 10);
        let d: u64 = n % 10;
        let c: char = if d == 0 {
            '0'
        } else if d == 1 {
            '1'
        } else if d == 2 {
            '2'
        } else if d == 3 {
            '3'
        } else if d == 4 {
            '4'
        } else if d == 5 {
            '5'
        } else if d == 6 {
            '6'
        } else if d == 7 {
            '7'
        } else if d == 8 {
            '8'
        } else {
            '9'
        };
        v.push(c);
        proof {
            assert(v@ =~= old(v)@ + dec_of(n as int));
        }
    }
}

/// Appends the decimal rendering of a signed 64-bit integer to `v`.
pub fn push_dec_i64(v: &mut Vec<char>, i: i64)
    ensures
        final(v)@ == old(v)@ + dec_of_signed(i as int),
{
    if i < 0 {
        v.push('-');
        let mag: u64 = (-(i as i128)) as u64;
        proof {
            assert(mag as int == -(i as int));
        }
        push_dec_u64(v, mag);
        proof {
            assert(v@ =~= old(v)@ + dec_of_signed(i as int));
        }
    } else {
        push_dec_u64(v, i as u64);
    }
}

/// Appends the two-digit zero-padded rendering of `n < 100` to `v`.
pub fn push_dec_pad2(v: &mut Vec<char>, n: u64)
    requires
        n < 100,
    ensures
        final(v)@ == old(v)@ + dec_pad2(n as int),
{
    if n < 10 {
        v.push('0');
    }
    push_dec_u64(v, n);
    proof {
        assert(v@ =~= old(v)@ + dec_pad2(n as int));
    }
}

} // verus!
