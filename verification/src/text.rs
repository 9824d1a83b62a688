//! Numbers in texts.
use vstd::prelude::*;

verus! {

/// The digit for a number below ten.
pub open spec fn decimal_digit(value: nat) -> char {
    (value + 48) as u8 as char
}

/// A number in decimal notation.
pub open spec fn decimal(value: nat) -> Seq<char>
    decreases value,
{
    if value < 10 {
        seq![decimal_digit(value)]
    } else {
        decimal(value / 10).push(decimal_digit(value % 10))
    }
}

/// The digit for a number below sixteen, with capital letters.
pub open spec fn hex_digit(value: u8) -> char {
    if value < 10 {
        (value + 48) as u8 as char
    } else {
        (value + 55) as u8 as char
    }
}

/// A byte as two hexadecimal digits.
pub open spec fn hex(byte: u8) -> Seq<char> {
    seq![hex_digit(byte / 16), hex_digit(byte % 16)]
}

/// The text is not empty, and it consists of decimal digits.
pub open spec fn is_digits(text: Seq<char>) -> bool {
    &&& text.len() > 0
    &&& forall|i: int| 0 <= i < text.len() ==> '0' <= #[trigger] text[i] <= '9'
}

/// The value of a sequence of decimal digits.
pub open spec fn digits_value(text: Seq<char>) -> nat
    decreases text.len(),
{
    if text.len() == 0 {
        0
    } else {
        10 * digits_value(text.drop_last()) + (text.last() as nat - '0' as nat) as nat
    }
}

/// The number that a text stands for: an optional plus sign followed by decimal digits.
pub open spec fn number(text: Seq<char>) -> Option<nat> {
    let digits = if text.len() > 0 && text[0] == '+' {
        text.skip(1)
    } else {
        text
    };
    if is_digits(digits) {
        Some(digits_value(digits))
    } else {
        None
    }
}

/// Calls `str::parse::<u64>`, which takes an optional plus sign followed by decimal digits
/// and fails on any other text and on numbers that are too large.
#[verifier::external_body]
pub(crate) fn parse_u64(text: &str) -> (value: Option<u64>)
    ensures
        match number(text@) {
            Some(n) => if n <= u64::MAX {
                value == Some(n as u64)
            } else {
                value is None
            },
            None => value is None,
        },
{
    text.parse().ok()
}

/// Calls `str::parse::<u8>`, which takes an optional plus sign followed by decimal digits
/// and fails on any other text and on numbers that are too large.
#[verifier::external_body]
pub(crate) fn parse_u8(text: &str) -> (value: Option<u8>)
    ensures
        match number(text@) {
            Some(n) => if n <= u8::MAX {
                value == Some(n as u8)
            } else {
                value is None
            },
            None => value is None,
        },
{
    text.parse().ok()
}

/// Calls `str::split_once`, which splits a text at the first occurrence of a character.
#[verifier::external_body]
pub(crate) fn split_once(text: &str, delimiter: char) -> (parts: Option<(&str, &str)>)
    ensures
        match parts {
            Some((before, after)) => {
                &&& text@ == before@.push(delimiter) + after@
                &&& !before@.contains(delimiter)
            },
            None => !text@.contains(delimiter),
        },
{
    text.split_once(delimiter)
}

/// Calls `usize::to_string`, which writes a number in decimal notation.
#[verifier::external_body]
pub(crate) fn usize_to_string(value: usize) -> (text: String)
    ensures
        text@ == decimal(value as nat),
{
    value.to_string()
}

/// Calls `format` with a byte as two hexadecimal digits, with capital letters.
#[verifier::external_body]
pub(crate) fn hex_string(byte: u8) -> (text: String)
    ensures
        text@ == hex(byte),
{
    format!("{byte:02X}")
}

/// The decimal notation of a number consists of digits, and they have the value of the number.
proof fn lemma_decimal_digits(value: nat)
    ensures
        is_digits(decimal(value)),
        digits_value(decimal(value)) == value,
    decreases value,
{
    let text = decimal(value);
    if value < 10 {
        assert(digits_value(text.drop_last()) == 0);
    } else {
        lemma_decimal_digits(value / 10);
        assert(text.drop_last() =~= decimal(value / 10));
        assert forall|i: int| 0 <= i < text.len() implies '0' <= #[trigger] text[i] <= '9' by {
            if i < text.len() - 1 {
                assert(text[i] == decimal(value / 10)[i]);
            }
        }
    }
}

/// A number that is written in decimal notation is read back as the same number.
pub proof fn law_decimal_is_read_back(value: nat)
    ensures
        number(decimal(value)) == Some(value),
{
    lemma_decimal_digits(value);
    let first = decimal(value)[0];
    assert('0' <= first);
}

/// The two hexadecimal digits of a byte are its upper and lower half, with capital letters.
pub proof fn law_hex_shows_both_halves(byte: u8)
    ensures
        hex(byte).len() == 2,
        exists|upper: int, lower: int| #![trigger "0123456789ABCDEF"@[upper], "0123456789ABCDEF"@[lower]]
            0 <= upper < 16 && 0 <= lower < 16 && byte == 16 * upper + lower && hex(byte)[0]
                == "0123456789ABCDEF"@[upper] && hex(byte)[1] == "0123456789ABCDEF"@[lower],
{
    reveal_strlit("0123456789ABCDEF");
    let upper = (byte / 16) as int;
    let lower = (byte % 16) as int;
    let digits = "0123456789ABCDEF"@;
    assert(hex(byte)[0] == digits[upper]);
    assert(hex(byte)[1] == digits[lower]);
}

} // verus!
