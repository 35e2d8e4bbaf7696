//! Decimal formatting of unsigned integers, for the textual image export.

use vstd::prelude::*;
use vstd::string::StringExecFns;

verus! {

/// The decimal digit character for a value in 0..=9.
pub open spec fn dec_digit(n: int) -> char {
    if n == 0 {
        '0'
    } else if n == 1 {
        '1'
    } else if n == 2 {
        '2'
    } else if n == 3 {
        '3'
    } else if n == 4 {
        '4'
    } else if n == 5 {
        '5'
    } else if n == 6 {
        '6'
    } else if n == 7 {
        '7'
    } else if n == 8 {
        '8'
    } else {
        '9'
    }
}

/// The decimal representation of a non-negative integer, most significant
/// digit first, with no leading zeros (a lone `0` for zero).
pub open spec fn dec_rep(n: int) -> Seq<char>
    decreases n,
{
    if n < 10 {
        seq![dec_digit(n)]
    } else {
        dec_rep(n / 10).push(dec_digit(n % 10))
    }
}

fn digit_str(d: u64) -> (s: &'static str)
    requires
        d < 10,
    ensures
        s@ =~= seq![dec_digit(d as int)],
{
    match d {
        0 => {
            proof {
                reveal_strlit("0");
            }
            "0"
        },
        1 => {
            proof {
                reveal_strlit("1");
            }
            "1"
        },
        2 => {
            proof {
                reveal_strlit("2");
            }
            "2"
        },
        3 => {
            proof {
                reveal_strlit("3");
            }
            "3"
        },
        4 => {
            proof {
                reveal_strlit("4");
            }
            "4"
        },
        5 => {
            proof {
                reveal_strlit("5");
            }
            "5"
        },
        6 => {
            proof {
                reveal_strlit("6");
            }
            "6"
        },
        7 => {
            proof {
                reveal_strlit("7");
            }
            "7"
        },
        8 => {
            proof {
                reveal_strlit("8");
            }
            "8"
        },
        _ => {
            proof {
                reveal_strlit("9");
            }
            "9"
        },
    }
}

/// Formats `n` in decimal, most significant digit first.
pub fn u64_to_decimal(n: u64) -> (s: String)
    ensures
        s@ == dec_rep(n as int),
    decreases n,
{
    if n < 10 {
        let mut s = String::new();
        s.append(digit_str(n));
        proof {
            assert(s@ =~= dec_rep(n as int));
        }
        s
    } else {
        let mut s = u64_to_decimal(n / 10);
        s.append(digit_str(n % 10));
        proof {
            assert(s@ =~= dec_rep(n as int));
        }
        s
    }
}

} // verus!
