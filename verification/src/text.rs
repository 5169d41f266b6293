//! Numbers written out in error messages: decimal, and `0x` with two
//! lowercase hex digits.

use vstd::prelude::*;
use vstd::string::StringExecFns;

verus! {

/// The character of one digit, `0`-`9` then `a`-`f`.
pub open spec fn digit_char(digit: nat) -> char {
    if digit < 10 {
        (48 + digit) as char
    } else {
        (87 + digit) as char
    }
}

/// `value` in decimal, without leading zeros.
pub open spec fn decimal(value: nat) -> Seq<char>
    decreases value,
{
    if value < 10 {
        seq![digit_char(value)]
    } else {
        decimal(value / 10) + seq![digit_char(value % 10)]
    }
}

/// `value` as `0x` and two lowercase hex digits.
pub open spec fn hex_byte(value: u8) -> Seq<char> {
    seq!['0', 'x', digit_char(value as nat / 16), digit_char(value as nat % 16)]
}

fn digit_str(digit: u8) -> (text: &'static str)
    requires
        digit < 16,
    ensures
        text@ == seq![digit_char(digit as nat)],
{
    proof {
        reveal_strlit("0");
        reveal_strlit("1");
        reveal_strlit("2");
        reveal_strlit("3");
        reveal_strlit("4");
        reveal_strlit("5");
        reveal_strlit("6");
        reveal_strlit("7");
        reveal_strlit("8");
        reveal_strlit("9");
        reveal_strlit("a");
        reveal_strlit("b");
        reveal_strlit("c");
        reveal_strlit("d");
        reveal_strlit("e");
        reveal_strlit("f");
    }
    match digit {
        0 => "0",
        1 => "1",
        2 => "2",
        3 => "3",
        4 => "4",
        5 => "5",
        6 => "6",
        7 => "7",
        8 => "8",
        9 => "9",
        10 => "a",
        11 => "b",
        12 => "c",
        13 => "d",
        14 => "e",
        _ => "f",
    }
}

/// Appends `value` in decimal.
pub fn push_decimal(text: &mut String, value: usize)
    ensures
        final(text)@ == old(text)@ + decimal(value as nat),
    decreases value,
{
    if value >= 10 {
        push_decimal(text, value / 10);
    }
    text.append(digit_str((value % 10) as u8));
    assert(final(text)@ =~= old(text)@ + decimal(value as nat));
}

/// Appends `value` as `0x` and two lowercase hex digits.
pub fn push_hex_byte(text: &mut String, value: u8)
    ensures
        final(text)@ == old(text)@ + hex_byte(value),
{
    proof {
        reveal_strlit("0x");
    }
    text.append("0x");
    text.append(digit_str(value / 16));
    text.append(digit_str(value % 16));
    assert(final(text)@ =~= old(text)@ + hex_byte(value));
}

} // verus!
