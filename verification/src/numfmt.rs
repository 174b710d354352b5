//! Decimal rendering of the non-negative integers used as row identifiers
//! and logical timestamps, with an exact character-level specification.

use vstd::prelude::*;
use vstd::string::StringExecFns;

verus! {

/// The decimal digit character for `d`, which must lie in 0 to 9.
pub open spec fn dec_digit(d: int) -> char {
    if d == 0 {
        '0'
    } else if d == 1 {
        '1'
    } else if d == 2 {
        '2'
    } else if d == 3 {
        '3'
    } else if d == 4 {
        '4'
    } else if d == 5 {
        '5'
    } else if d == 6 {
        '6'
    } else if d == 7 {
        '7'
    } else if d == 8 {
        '8'
    } else {
        '9'
    }
}

/// The decimal digits of `n`, most significant first, without a leading
/// zero; the empty sequence when `n <= 0`.
pub open spec fn dec_rep(n: int) -> Seq<char>
    decreases n,
{
    if n <= 0 {
        Seq::empty()
    } else {
        dec_rep(n / 10).push(dec_digit(n % 10))
    }
}

/// The decimal rendering of a non-negative integer: `"0"` for zero, and
/// the digits of `n` without leading zeros otherwise.
pub open spec fn dec_str(n: int) -> Seq<char> {
    if n == 0 {
        seq!['0']
    } else {
        dec_rep(n)
    }
}

/// The one-character string for the digit `d`.
fn digit_str(d: u64) -> (r: &'static str)
    requires
        d < 10,
    ensures
        r@ == seq![dec_digit(d as int)],
{
    if d == 0 {
        proof {
            reveal_strlit("0");
            assert("0"@ =~= seq![dec_digit(d as int)]);
        }
        "0"
    } else if d == 1 {
        proof {
            reveal_strlit("1");
            assert("1"@ =~= seq![dec_digit(d as int)]);
        }
        "1"
    } else if d == 2 {
        proof {
            reveal_strlit("2");
            assert("2"@ =~= seq![dec_digit(d as int)]);
        }
        "2"
    } else if d == 3 {
        proof {
            reveal_strlit("3");
            assert("3"@ =~= seq![dec_digit(d as int)]);
        }
        "3"
    } else if d == 4 {
        proof {
            reveal_strlit("4");
            assert("4"@ =~= seq![dec_digit(d as int)]);
        }
        "4"
    } else if d == 5 {
        proof {
            reveal_strlit("5");
            assert("5"@ =~= seq![dec_digit(d as int)]);
        }
        "5"
    } else if d == 6 {
        proof {
            reveal_strlit("6");
            assert("6"@ =~= seq![dec_digit(d as int)]);
        }
        "6"
    } else if d == 7 {
        proof {
            reveal_strlit("7");
            assert("7"@ =~= seq![dec_digit(d as int)]);
        }
        "7"
    } else if d == 8 {
        proof {
            reveal_strlit("8");
            assert("8"@ =~= seq![dec_digit(d as int)]);
        }
        "8"
    } else {
        proof {
            reveal_strlit("9");
            assert("9"@ =~= seq![dec_digit(d as int)]);
        }
        "9"
    }
}

/// The decimal digits of a positive integer.
fn dec_digits_pos(n: u64) -> (r: String)
    requires
        n > 0,
    ensures
        r@ == dec_rep(n as int),
    decreases n,
{
    let d = n % 10;
    let q = n / 10;
    if q == 0 {
        let r = String::from_str(digit_str(d));
        proof {
            assert(dec_rep(0) =~= Seq::<char>::empty());
            assert(dec_rep(n as int) == dec_rep(n as int / 10).push(dec_digit(n as int % 10)));
            assert(dec_rep(n as int) =~= seq![dec_digit(d as int)]);
        }
        r
    } else {
        let mut r = dec_digits_pos(q);
        r.append(digit_str(d));
        proof {
            assert(dec_rep(n as int) == dec_rep(n as int / 10).push(dec_digit(n as int % 10)));
            assert(r@ =~= dec_rep(n as int));
        }
        r
    }
}

/// Renders `n` in decimal.
pub fn u64_to_string(n: u64) -> (r: String)
    ensures
        r@ == dec_str(n as int),
{
    if n == 0 {
        let r = String::from_str(digit_str(0));
        proof {
            assert(r@ =~= dec_str(0));
        }
        r
    } else {
        dec_digits_pos(n)
    }
}

/// Renders a non-negative row identifier in decimal.
pub fn i32_to_string(n: i32) -> (r: String)
    requires
        n >= 0,
    ensures
        r@ == dec_str(n as int),
{
    u64_to_string(n as u64)
}

} // verus!
