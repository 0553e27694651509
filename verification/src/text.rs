//! Verified text building: decimal rendering of integers and the exact
//! character sequences of every log message the engine emits.

use vstd::prelude::*;
use vstd::string::StringExecFns;

verus! {

/// The digit character for a value between 0 and 9.
pub open spec fn digit_char(d: int) -> char {
    ((48 + d) as u32) as char
}

/// The decimal representation of a natural number, most significant digit
/// first.
pub open spec fn dec_nat(n: nat) -> Seq<char>
    decreases n,
{
    if n < 10 {
        seq![digit_char(n as int)]
    } else {
        dec_nat(n / 10).push(digit_char((n % 10) as int))
    }
}

/// The decimal representation of an integer: a minus sign for negatives.
pub open spec fn dec_int(v: int) -> Seq<char> {
    if v < 0 {
        seq!['-'] + dec_nat((-v) as nat)
    } else {
        dec_nat(v as nat)
    }
}

/// Appends the single digit `d` to `s`.
fn push_digit(s: &mut String, d: u32)
    requires
        d < 10,
    ensures
        final(s)@ == old(s)@.push(digit_char(d as int)),
{
    let t: &str = match d {
        0 => "0",
        1 => "1",
        2 => "2",
        3 => "3",
        4 => "4",
        5 => "5",
        6 => "6",
        7 => "7",
        8 => "8",
        _ => "9",
    };
    proof {
        reveal_strlit("0");
        reveal_strlit("1");
        reveal_strlit("2");
        reveal_strlit("3");
        reveal_strlit("4");
        reveal_strlit("5");
        reveal_strlit("6");
        reveal_strlit("7");
        reveal_strlit("8");
        reveal_strlit("9");
        assert(t@ =~= seq![digit_char(d as int)]);
    }
    let ghost prev = s@;
    s.append(t);
    proof {
        assert(s@ =~= prev.push(digit_char(d as int)));
    }
}

/// Renders a `u32` in decimal.
pub fn u32_to_string(n: u32) -> (s: String)
    ensures
        s@ == dec_nat(n as nat),
    decreases n,
{
    if n < 10 {
        let mut s = String::new();
        push_digit(&mut s, n);
        proof {
            assert(s@ =~= dec_nat(n as nat));
        }
        s
    } else {
        let mut s = u32_to_string(n / 10);
        push_digit(&mut s, n % 10);
        s
    }
}

/// Renders an `i32` in decimal, with a minus sign for negatives.
pub fn i32_to_string(v: i32) -> (s: String)
    ensures
        s@ == dec_int(v as int),
{
    if v < 0 {
        let magnitude: u32 = ((-(v as i64)) as u32);
        let mut s: String = "-".to_owned();
        proof {
            reveal_strlit("-");
            assert(s@ =~= seq!['-']);
        }
        let digits = u32_to_string(magnitude);
        s.append(digits.as_str());
        proof {
            assert(s@ =~= dec_int(v as int));
        }
        s
    } else {
        u32_to_string(v as u32)
    }
}

} // verus!
