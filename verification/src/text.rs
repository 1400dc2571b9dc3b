//! Numbers as text.

use vstd::prelude::*;
use vstd::string::StringExecFns;

verus! {

/// A decimal digit.
pub open spec fn digit_char(digit: nat) -> char {
    if digit == 0 {
        '0'
    } else if digit == 1 {
        '1'
    } else if digit == 2 {
        '2'
    } else if digit == 3 {
        '3'
    } else if digit == 4 {
        '4'
    } else if digit == 5 {
        '5'
    } else if digit == 6 {
        '6'
    } else if digit == 7 {
        '7'
    } else if digit == 8 {
        '8'
    } else {
        '9'
    }
}

/// A number in decimal, without leading zeros.
pub open spec fn digits(value: nat) -> Seq<char>
    decreases value,
{
    if value < 10 {
        seq![digit_char(value)]
    } else {
        digits(value / 10).push(digit_char(value % 10))
    }
}

/// A decimal digit.
fn digit(value: u64) -> (text: &'static str)
    requires
        value < 10,
    ensures
        text@ == seq![digit_char(value as nat)],
{
    proof {
        reveal_strlit("0");
        reveal_strlit("1");
        reveal_strlit("2");
        reveal_strlit("3");
        reveal_strlit("4");
        reveal_strlit("5");
        reveal_strlit("6");
        reveal_strlit("7");
        reveal_strlit("8");
        reveal_strlit("9");
    }
    let text = match value {
        0 => "0",
        1 => "1",
        2 => "2",
        3 => "3",
        4 => "4",
        5 => "5",
        6 => "6",
        7 => "7",
        8 => "8",
        _ => "9",
    };
    proof {
        assert(text@ =~= seq![digit_char(value as nat)]);
    }
    text
}

/// A number in decimal, without leading zeros.
pub fn decimal(value: u64) -> (text: String)
    ensures
        text@ == digits(value as nat),
    decreases value,
{
    if value < 10 {
        return String::from_str(digit(value));
    }
    let mut text = decimal(value / 10);
    let ghost before = text@;
    text.append(digit(value % 10));
    proof {
        assert(text@ =~= before.push(digit_char((value % 10) as nat)));
    }
    text
}

/// The number that a text spells in decimal.
pub open spec fn spelled(text: Seq<char>) -> int
    decreases text.len(),
{
    if text.len() == 0 {
        0
    } else {
        spelled(text.drop_last()) * 10 + (text.last() as int - '0' as int)
    }
}

/// A number's text is made of the ten digits, spells the number, and begins with a zero only
/// where that is all there is.
pub proof fn law_numbers_are_spelled(value: nat)
    ensures
        spelled(digits(value)) == value,
        digits(value).len() > 0,
        forall|i: int|
            0 <= i < digits(value).len() ==> '0' as int <= (#[trigger] digits(value)[i]) as int
                && digits(value)[i] as int <= '9' as int,
        digits(value)[0] == '0' ==> value == 0 && digits(value).len() == 1,
    decreases value,
{
    reveal_with_fuel(spelled, 2);
    if value >= 10 {
        law_numbers_are_spelled(value / 10);
        let front = digits(value / 10);
        assert(digits(value).drop_last() =~= front);
        assert(digits(value)[0] == front[0]);
    } else {
        assert(digits(value).drop_last() =~= Seq::empty());
    }
}

} // verus!
