//! Decimal rendering of integers, for the session count and for
//! timestamps that fall outside the calendar's range.

use vstd::prelude::*;

verus! {

/// The decimal digit character for `d`.
pub open spec fn digit_of(d: int) -> char {
    if d == 0 {
        '0'
    } else if d == 1 {
        '1'
    } else if d == 2 {
        '2'
    } else if d == 3 {
        '3'
    } else if d == 4 {
        '4'
    } else if d == 5 {
        '5'
    } else if d == 6 {
        '6'
    } else if d == 7 {
        '7'
    } else if d == 8 {
        '8'
    } else {
        '9'
    }
}

/// The decimal rendering of a non-negative integer, without leading
/// zeroes.
pub open spec fn dec_of(n: int) -> Seq<char>
    decreases n,
{
    if n < 0 {
        Seq::<char>::empty()
    } else if n < 10 {
        seq![digit_of(n)]
    } else {
        dec_of(n / 10).push(digit_of(n % 10))
    }
}

/// The two-digit decimal rendering of an integer below one hundred,
/// zero-padded on the left, as a clock field reads.
pub open spec fn two_dec(n: int) -> Seq<char> {
    if n < 10 {
        seq!['0', digit_of(n)]
    } else {
        dec_of(n)
    }
}

/// The decimal rendering of any integer: a minus sign before the
/// magnitude when negative.
pub open spec fn dec_int_of(n: int) -> Seq<char> {
    if n < 0 {
        seq!['-'] + dec_of(-n)
    } else {
        dec_of(n)
    }
}

fn digit_str(d: u64) -> (r: &'static str)
    requires
        d < 10,
    ensures
        r@ == seq![digit_of(d as int)],
{
    let r: &'static str = match d {
        0 => "0",
        1 => "1",
        2 => "2",
        3 => "3",
        4 => "4",
        5 => "5",
        6 => "6",
        7 => "7",
        8 => "8",
        _ => "9",
    };
    proof {
        reveal_strlit("0");
        reveal_strlit("1");
        reveal_strlit("2");
        reveal_strlit("3");
        reveal_strlit("4");
        reveal_strlit("5");
        reveal_strlit("6");
        reveal_strlit("7");
        reveal_strlit("8");
        reveal_strlit("9");
    }
    r
}

/// Renders an unsigned integer in decimal, as `dec_of` describes.
pub fn dec_u64(n: u64) -> (r: String)
    ensures
        r@ == dec_of(n as int),
    decreases n,
{
    if n < 10 {
        String::from_str(digit_str(n))
    } else {
        let mut s = dec_u64(n / 10);
        s.append(digit_str(n % 10));
        proof {
            assert(s@ =~= dec_of(n as int / 10).push(digit_of(n as int % 10)));
        }
        s
    }
}

/// Renders a signed integer in decimal, as `dec_int_of` describes.
pub fn dec_i64(n: i64) -> (r: String)
    ensures
        r@ == dec_int_of(n as int),
{
    if n >= 0 {
        dec_u64(n as u64)
    } else {
        let mag: u64 = if n == i64::MIN {
            9223372036854775808u64
        } else {
            (-n) as u64
        };
        let mut s = String::from_str("-");
        let tail = dec_u64(mag);
        s.append(tail.as_str());
        proof {
            reveal_strlit("-");
            assert(s@ =~= seq!['-'] + dec_of(-(n as int)));
        }
        s
    }
}

} // verus!
