//! Decimal text of machine integers.

use vstd::prelude::*;
use vstd::string::*;

verus! {

/// The character that writes the digit `digit`, for `0 <= digit <= 9`.
pub open spec fn digit_char(digit: int) -> char {
    if digit == 0 {
        '0'
    } else if digit == 1 {
        '1'
    } else if digit == 2 {
        '2'
    } else if digit == 3 {
        '3'
    } else if digit == 4 {
        '4'
    } else if digit == 5 {
        '5'
    } else if digit == 6 {
        '6'
    } else if digit == 7 {
        '7'
    } else if digit == 8 {
        '8'
    } else {
        '9'
    }
}

/// The decimal digits of `value`, most significant first, without leading
/// zeros; zero is written `0`.
pub open spec fn decimal(value: nat) -> Seq<char>
    decreases value,
{
    if value < 10 {
        seq![digit_char(value as int)]
    } else {
        decimal(value / 10).push(digit_char((value % 10) as int))
    }
}

/// The decimal text of `value`, with a leading minus sign when it is negative.
pub open spec fn signed_decimal(value: int) -> Seq<char> {
    if value < 0 {
        seq!['-'] + decimal((-value) as nat)
    } else {
        decimal(value as nat)
    }
}

/// The one-character text of a single digit.
fn digit_text(digit: u64) -> (text: &'static str)
    requires
        digit < 10,
    ensures
        text@ == seq![digit_char(digit as int)],
{
    proof {
        reveal_strlit("0");
        reveal_strlit("1");
        reveal_strlit("2");
        reveal_strlit("3");
        reveal_strlit("4");
        reveal_strlit("5");
        reveal_strlit("6");
        reveal_strlit("7");
        reveal_strlit("8");
        reveal_strlit("9");
    }
    let text = if digit == 0 {
        "0"
    } else if digit == 1 {
        "1"
    } else if digit == 2 {
        "2"
    } else if digit == 3 {
        "3"
    } else if digit == 4 {
        "4"
    } else if digit == 5 {
        "5"
    } else if digit == 6 {
        "6"
    } else if digit == 7 {
        "7"
    } else if digit == 8 {
        "8"
    } else {
        "9"
    };
    assert(text@ =~= seq![digit_char(digit as int)]);
    text
}

/// Writes `value` in decimal.
pub fn u64_text(value: u64) -> (text: String)
    ensures
        text@ == decimal(value as nat),
{
    let mut text = String::from_str(digit_text(value % 10));
    let mut rest: u64 = value / 10;
    while rest > 0
        invariant
            decimal(value as nat) == if rest > 0 {
                decimal(rest as nat) + text@
            } else {
                text@
            },
        decreases rest,
    {
        let digit = digit_text(rest % 10);
        proof {
            let ghost low = seq![digit_char((rest % 10) as int)];
            if rest >= 10 {
                assert(decimal(rest as nat) + text@ =~= decimal((rest / 10) as nat) + (low
                    + text@));
            } else {
                assert(decimal(rest as nat) + text@ =~= low + text@);
            }
        }
        text = String::from_str(digit).concat(text.as_str());
        rest = rest / 10;
    }
    text
}

/// Writes `value` in decimal.
pub fn usize_text(value: usize) -> (text: String)
    ensures
        text@ == decimal(value as nat),
{
    u64_text(value as u64)
}

/// Writes `value` in decimal, with a leading minus sign when it is negative.
pub fn i64_text(value: i64) -> (text: String)
    ensures
        text@ == signed_decimal(value as int),
{
    if value >= 0 {
        u64_text(value as u64)
    } else {
        // `-(value + 1)` cannot overflow, unlike `-value` at the least `i64`.
        let magnitude: u64 = (-(value + 1)) as u64 + 1;
        proof {
            reveal_strlit("-");
            assert("-"@ =~= seq!['-']);
        }
        String::from_str("-").concat(u64_text(magnitude).as_str())
    }
}

} // verus!
