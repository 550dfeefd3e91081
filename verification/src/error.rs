use vstd::prelude::*;
use vstd::string::StringExecFns;

verus! {

/// Why a byte string could not be decoded.
#[derive(Debug, Clone, Copy, PartialEq, Eq)]
pub enum Error {
    /// The input ended before a value was complete.
    ShortRead,
    /// A tag or discriminant byte outside its valid set, with the byte found.
    UnexpectedByte(u8),
}

/// The character of the decimal digit `d`.
pub open spec fn digit_char(d: nat) -> char {
    ((48 + d) as u8) as char
}

/// `n` in decimal, without leading zeros.
pub open spec fn decimal(n: nat) -> Seq<char>
    decreases n,
{
    if n < 10 {
        seq![digit_char(n)]
    } else {
        decimal(n / 10).push(digit_char(n % 10))
    }
}

/// The text of the decimal digit `d`.
fn digit(d: u8) -> (text: &'static str)
    requires
        d < 10,
    ensures
        text@ == seq![digit_char(d as nat)],
{
    proof {
        reveal_strlit("0");
        reveal_strlit("1");
        reveal_strlit("2");
        reveal_strlit("3");
        reveal_strlit("4");
        reveal_strlit("5");
        reveal_strlit("6");
        reveal_strlit("7");
        reveal_strlit("8");
        reveal_strlit("9");
    }
    let text = match d {
        0 => "0",
        1 => "1",
        2 => "2",
        3 => "3",
        4 => "4",
        5 => "5",
        6 => "6",
        7 => "7",
        8 => "8",
        _ => "9",
    };
    text
}

impl Error {
    /// What `message` says of the error.
    pub open spec fn message_text(self) -> Seq<char> {
        match self {
            Error::ShortRead => "failed to fill whole buffer"@,
            Error::UnexpectedByte(byte) => "Unexpected byte "@ + decimal(byte as nat),
        }
    }

    /// The error in words, with the byte of `UnexpectedByte` in decimal.
    pub fn message(&self) -> (text: String)
        ensures
            text@ == self.message_text(),
    {
        match self {
            Error::ShortRead => String::from_str("failed to fill whole buffer"),
            Error::UnexpectedByte(byte) => {
                let n: u8 = *byte;
                let mut text = String::from_str("Unexpected byte ");
                proof {
                    reveal_with_fuel(decimal, 3);
                }
                if n >= 100 {
                    text.append(digit(n / 100));
                }
                if n >= 10 {
                    text.append(digit((n / 10) % 10));
                }
                text.append(digit(n % 10));
                text
            },
        }
    }
}

} // verus!
