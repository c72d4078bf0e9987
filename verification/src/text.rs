//! Numbers in decimal and in hexadecimal.
use vstd::prelude::*;
use vstd::string::StringExecFns;

verus! {

/// The digit for `value`, in any base up to sixteen.
pub open spec fn digit(value: nat) -> char {
    if value < 10 {
        (48 + value) as char
    } else {
        (87 + value) as char
    }
}

/// The decimal digits of a number, without leading zeros.
pub open spec fn digits(value: nat) -> Seq<char>
    decreases value,
{
    if value < 10 {
        seq![digit(value)]
    } else {
        digits(value / 10).push(digit(value % 10))
    }
}

/// A number in decimal.
pub open spec fn decimal(value: int) -> Seq<char> {
    if value < 0 {
        seq!['-'] + digits((-value) as nat)
    } else {
        digits(value as nat)
    }
}

/// A number below 256 as two hexadecimal digits, in lower case.
pub open spec fn hex_pair(value: nat) -> Seq<char> {
    seq![digit(value / 16), digit(value % 16)]
}

/// The text of the digit for `value`.
fn digit_text(value: u32) -> (text: &'static str)
    requires
        value < 16,
    ensures
        text@ == seq![digit(value as nat)],
{
    proof {
        reveal_strlit("0");
        reveal_strlit("1");
        reveal_strlit("2");
        reveal_strlit("3");
        reveal_strlit("4");
        reveal_strlit("5");
        reveal_strlit("6");
        reveal_strlit("7");
        reveal_strlit("8");
        reveal_strlit("9");
        reveal_strlit("a");
        reveal_strlit("b");
        reveal_strlit("c");
        reveal_strlit("d");
        reveal_strlit("e");
        reveal_strlit("f");
    }
    match value {
        0 => "0",
        1 => "1",
        2 => "2",
        3 => "3",
        4 => "4",
        5 => "5",
        6 => "6",
        7 => "7",
        8 => "8",
        9 => "9",
        10 => "a",
        11 => "b",
        12 => "c",
        13 => "d",
        14 => "e",
        _ => "f",
    }
}

fn append_digits(text: &mut String, value: u64)
    ensures
        final(text)@ == old(text)@ + digits(value as nat),
    decreases value,
{
    if value >= 10 {
        append_digits(text, value / 10);
    }
    text.append(digit_text((value % 10) as u32));
}

/// Appends a number in decimal.
pub fn append_decimal(text: &mut String, value: i32)
    ensures
        final(text)@ == old(text)@ + decimal(value as int),
{
    if value >= 0 {
        append_digits(text, value as u64);
    } else {
        proof {
            reveal_strlit("-");
        }
        text.append("-");
        append_digits(text, (-(value as i64)) as u64);
        assert("-"@ =~= seq!['-']);
    }
}

/// Appends a place or a count in decimal.
pub fn append_index(text: &mut String, value: usize)
    ensures
        final(text)@ == old(text)@ + decimal(value as int),
{
    append_digits(text, value as u64);
}

/// Appends a number below 256 as two hexadecimal digits.
pub fn append_hex_pair(text: &mut String, value: u32)
    requires
        value < 256,
    ensures
        final(text)@ == old(text)@ + hex_pair(value as nat),
{
    text.append(digit_text(value / 16));
    text.append(digit_text(value % 16));
}

} // verus!
