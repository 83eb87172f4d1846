//! Text.

use vstd::prelude::*;
use vstd::string::StringExecFns;

verus! {

/// The text of a digit.
pub open spec fn digit(value: nat) -> Seq<char> {
    seq![
        if value == 0 {
            '0'
        } else if value == 1 {
            '1'
        } else if value == 2 {
            '2'
        } else if value == 3 {
            '3'
        } else if value == 4 {
            '4'
        } else if value == 5 {
            '5'
        } else if value == 6 {
            '6'
        } else if value == 7 {
            '7'
        } else if value == 8 {
            '8'
        } else {
            '9'
        },
    ]
}

/// The text of a number, in base ten.
pub open spec fn decimal(value: nat) -> Seq<char>
    decreases value,
{
    if value < 10 {
        digit(value)
    } else {
        decimal(value / 10) + digit(value % 10)
    }
}

fn digit_text(value: usize) -> (text: &'static str)
    requires
        value < 10,
    ensures
        text@ == digit(value as nat),
{
    proof {
        reveal_strlit("0");
        reveal_strlit("1");
        reveal_strlit("2");
        reveal_strlit("3");
        reveal_strlit("4");
        reveal_strlit("5");
        reveal_strlit("6");
        reveal_strlit("7");
        reveal_strlit("8");
        reveal_strlit("9");
    }
    let text = match value {
        0 => "0",
        1 => "1",
        2 => "2",
        3 => "3",
        4 => "4",
        5 => "5",
        6 => "6",
        7 => "7",
        8 => "8",
        _ => "9",
    };
    assert(text@ =~= digit(value as nat));
    text
}

/// Writes a number in base ten.
pub fn decimal_text(value: usize) -> (text: String)
    ensures
        text@ == decimal(value as nat),
    decreases value,
{
    if value < 10 {
        digit_text(value).to_owned()
    } else {
        let mut text = decimal_text(value / 10);
        text.append(digit_text(value % 10));
        text
    }
}

/// The number that a text in base ten stands for.
pub open spec fn number(text: Seq<char>) -> int
    decreases text.len(),
{
    if text.len() == 0 {
        0
    } else {
        number(text.drop_last()) * 10 + (text.last() as int - '0' as int)
    }
}

/// The text of a number consists of digits, without leading zeros, and stands for that
/// number.
pub proof fn law_decimal(value: nat)
    ensures
        number(decimal(value)) == value,
        decimal(value).len() > 0,
        forall|i: int| 0 <= i < decimal(value).len() ==> '0' <= #[trigger] decimal(value)[i] <= '9',
        value > 0 ==> decimal(value)[0] != '0',
        value == 0 ==> decimal(value).len() == 1,
    decreases value,
{
    reveal_with_fuel(number, 2);
    if value >= 10 {
        law_decimal(value / 10);
        let text = decimal(value / 10) + digit(value % 10);
        assert(text.drop_last() =~= decimal(value / 10));
        assert(text.last() == digit(value % 10)[0]);
    } else {
        assert(digit(value).drop_last() =~= Seq::<char>::empty());
    }
}

} // verus!
