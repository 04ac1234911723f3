use vstd::prelude::*;

use crate::error::Error;

verus! {

/// The decimal digit for a value below ten.
pub open spec fn dec_digit(d: nat) -> char {
    if d == 0 {
        '0'
    } else if d == 1 {
        '1'
    } else if d == 2 {
        '2'
    } else if d == 3 {
        '3'
    } else if d == 4 {
        '4'
    } else if d == 5 {
        '5'
    } else if d == 6 {
        '6'
    } else if d == 7 {
        '7'
    } else if d == 8 {
        '8'
    } else {
        '9'
    }
}

/// The usual decimal rendering of a natural number, without leading zeroes
/// (except for zero itself).
pub open spec fn dec_str(n: nat) -> Seq<char>
    decreases n,
{
    if n < 10 {
        seq![dec_digit(n)]
    } else {
        dec_str(n / 10).push(dec_digit(n % 10))
    }
}

fn dec_digit_str(d: u64) -> (r: &'static str)
    requires
        d < 10,
    ensures
        r@ =~= seq![dec_digit(d as nat)],
{
    let r: &'static str = if d == 0 {
        "0"
    } else if d == 1 {
        "1"
    } else if d == 2 {
        "2"
    } else if d == 3 {
        "3"
    } else if d == 4 {
        "4"
    } else if d == 5 {
        "5"
    } else if d == 6 {
        "6"
    } else if d == 7 {
        "7"
    } else if d == 8 {
        "8"
    } else {
        "9"
    };
    proof {
        reveal_strlit("0");
        reveal_strlit("1");
        reveal_strlit("2");
        reveal_strlit("3");
        reveal_strlit("4");
        reveal_strlit("5");
        reveal_strlit("6");
        reveal_strlit("7");
        reveal_strlit("8");
        reveal_strlit("9");
    }
    r
}

/// Renders a number in decimal, as file names such as `3.html` need it.
pub fn u64_to_dec(n: u64) -> (r: String)
    ensures
        r@ == dec_str(n as nat),
    decreases n,
{
    if n < 10 {
        let r = String::from_str(dec_digit_str(n));
        proof {
            assert(r@ =~= dec_str(n as nat));
        }
        r
    } else {
        let mut s = u64_to_dec(n / 10);
        s.append(dec_digit_str(n % 10));
        proof {
            assert(s@ =~= dec_str(n as nat));
        }
        s
    }
}

/// The roman numeral for a positive number: the greedy expansion over the
/// thirteen numeral pairs, from `M` down to `I`.
pub open spec fn roman_of(n: int) -> Seq<char>
    decreases n,
{
    if n >= 1000 {
        "M"@ + roman_of(n - 1000)
    } else if n >= 900 {
        "CM"@ + roman_of(n - 900)
    } else if n >= 500 {
        "D"@ + roman_of(n - 500)
    } else if n >= 400 {
        "CD"@ + roman_of(n - 400)
    } else if n >= 100 {
        "C"@ + roman_of(n - 100)
    } else if n >= 90 {
        "XC"@ + roman_of(n - 90)
    } else if n >= 50 {
        "L"@ + roman_of(n - 50)
    } else if n >= 40 {
        "XL"@ + roman_of(n - 40)
    } else if n >= 10 {
        "X"@ + roman_of(n - 10)
    } else if n >= 9 {
        "IX"@ + roman_of(n - 9)
    } else if n >= 5 {
        "V"@ + roman_of(n - 5)
    } else if n >= 4 {
        "IV"@ + roman_of(n - 4)
    } else if n >= 1 {
        "I"@ + roman_of(n - 1)
    } else {
        Seq::empty()
    }
}

/// Relies on roman::to: the greedy conversion to a roman numeral, which
/// returns a numeral exactly for inputs between 1 and 3999.
#[verifier::external_body]
fn roman_to(n: i32) -> (r: Option<String>)
    ensures
        r is Some <==> 1 <= n <= 3999,
        r matches Some(s) ==> s@ == roman_of(n as int),
{
    roman::to(n)
}

/// The numeric display filter of the static site: a positive ordinal becomes
/// a roman numeral; any value outside 1..=3999 is rejected.
pub fn roman_filter(value: i64) -> (r: Result<String, Error>)
    ensures
        r is Ok <==> 1 <= value <= 3999,
        r matches Ok(s) ==> s@ == roman_of(value as int),
{
    if value < 1 || value > 3999 {
        Err(Error::new("Could not convert to roman notation"))
    } else {
        match roman_to(value as i32) {
            Some(s) => Ok(s),
            None => Err(Error::new("Could not convert to roman notation")),
        }
    }
}

} // verus!
