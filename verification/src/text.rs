//! Decimal and hexadecimal text, and the messages of machine errors.
use vstd::prelude::*;

use crate::machine::Chip8Error;

verus! {

/// The character of hexadecimal digit `d` (lower case).
pub open spec fn hex_digit_char(d: int) -> char {
    seq!['0', '1', '2', '3', '4', '5', '6', '7', '8', '9', 'a', 'b', 'c', 'd', 'e', 'f'][d]
}

/// The character of decimal digit `d`.
pub open spec fn digit_char(d: int) -> char {
    hex_digit_char(d)
}

/// The decimal representation of `n`, without leading zeros.
pub open spec fn decimal(n: nat) -> Seq<char>
    decreases n,
{
    if n < 10 {
        seq![digit_char(n as int)]
    } else {
        decimal(n / 10).push(digit_char((n % 10) as int))
    }
}

/// `n` as exactly four lower-case hexadecimal digits.
pub open spec fn hex4(n: u16) -> Seq<char> {
    seq![
        hex_digit_char((n / 0x1000) as int),
        hex_digit_char(((n / 0x100) % 0x10) as int),
        hex_digit_char(((n / 0x10) % 0x10) as int),
        hex_digit_char((n % 0x10) as int),
    ]
}

/// The one-character string of hexadecimal digit `d`.
fn hex_digit_str(d: u16) -> (s: &'static str)
    requires
        d < 16,
    ensures
        s@ == seq![hex_digit_char(d as int)],
{
    proof {
        reveal_strlit("0");
        reveal_strlit("1");
        reveal_strlit("2");
        reveal_strlit("3");
        reveal_strlit("4");
        reveal_strlit("5");
        reveal_strlit("6");
        reveal_strlit("7");
        reveal_strlit("8");
        reveal_strlit("9");
        reveal_strlit("a");
        reveal_strlit("b");
        reveal_strlit("c");
        reveal_strlit("d");
        reveal_strlit("e");
        reveal_strlit("f");
    }
    let s = match d {
        0 => "0",
        1 => "1",
        2 => "2",
        3 => "3",
        4 => "4",
        5 => "5",
        6 => "6",
        7 => "7",
        8 => "8",
        9 => "9",
        10 => "a",
        11 => "b",
        12 => "c",
        13 => "d",
        14 => "e",
        _ => "f",
    };
    assert(s@ =~= seq![hex_digit_char(d as int)]);
    s
}

/// Appends the decimal representation of `n` to `text`.
pub fn push_decimal(text: &mut String, n: usize)
    ensures
        final(text)@ == old(text)@ + decimal(n as nat),
    decreases n,
{
    if n >= 10 {
        push_decimal(text, n / 10);
    }
    text.append(hex_digit_str((n % 10) as u16));
    assert(text@ =~= old(text)@ + decimal(n as nat));
}

/// Appends `n` as four hexadecimal digits to `text`.
fn push_hex4(text: &mut String, n: u16)
    ensures
        final(text)@ == old(text)@ + hex4(n),
{
    text.append(hex_digit_str(n / 0x1000));
    text.append(hex_digit_str((n / 0x100) % 0x10));
    text.append(hex_digit_str((n / 0x10) % 0x10));
    text.append(hex_digit_str(n % 0x10));
    assert(text@ =~= old(text)@ + hex4(n));
}

/// The message that describes `e`.
pub open spec fn error_message(e: Chip8Error) -> Seq<char> {
    match e {
        Chip8Error::ProgramTooLarge { size, capacity } => "program is "@ + decimal(size as nat)
            + " bytes, but only "@ + decimal(capacity as nat) + " bytes fit"@,
        Chip8Error::StackOverflow => "stack overflow"@,
        Chip8Error::StackUnderflow => "stack underflow"@,
        Chip8Error::UnknownOpcode(op) => "unknown opcode: 0x"@ + hex4(op),
    }
}

impl Chip8Error {
    /// A one-line description of the error.
    pub fn message(&self) -> (m: String)
        ensures
            m@ == error_message(*self),
    {
        let mut m = String::new();
        match *self {
            Chip8Error::ProgramTooLarge { size, capacity } => {
                m.append("program is ");
                push_decimal(&mut m, size);
                m.append(" bytes, but only ");
                push_decimal(&mut m, capacity);
                m.append(" bytes fit");
            },
            Chip8Error::StackOverflow => m.append("stack overflow"),
            Chip8Error::StackUnderflow => m.append("stack underflow"),
            Chip8Error::UnknownOpcode(op) => {
                m.append("unknown opcode: 0x");
                push_hex4(&mut m, op);
            },
        }
        assert(m@ =~= error_message(*self));
        m
    }
}

} // verus!
