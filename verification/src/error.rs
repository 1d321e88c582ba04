//! Errors of Unified Address parsing.

use vstd::prelude::*;
use crate::typecode::{Typecode, byte_of_typecode};

verus! {

/// An error while attempting to parse a string as a Zcash address.
#[derive(Clone, Copy, Debug, PartialEq, Eq, Structural)]
pub enum ParseError {
    /// The unified address contains both P2PKH and P2SH receivers.
    BothP2phkAndP2sh,
    /// The unified address contains a duplicated typecode.
    DuplicateTypecode(Typecode),
    /// The string is an invalid encoding.
    InvalidEncoding,
    /// The unified address only contains transparent receivers.
    OnlyTransparent,
}


/// The text of one decimal digit.
pub open spec fn digit_text(d: nat) -> Seq<char> {
    if d == 0 {
        "0"@
    } else if d == 1 {
        "1"@
    } else if d == 2 {
        "2"@
    } else if d == 3 {
        "3"@
    } else if d == 4 {
        "4"@
    } else if d == 5 {
        "5"@
    } else if d == 6 {
        "6"@
    } else if d == 7 {
        "7"@
    } else if d == 8 {
        "8"@
    } else {
        "9"@
    }
}

/// The decimal text of a natural number, without leading zeros.
pub open spec fn decimal_text(n: nat) -> Seq<char>
    decreases n,
{
    if n < 10 {
        digit_text(n)
    } else {
        decimal_text(n / 10) + digit_text(n % 10)
    }
}

/// The message that describes a parse error.
pub open spec fn error_message(e: ParseError) -> Seq<char> {
    match e {
        ParseError::BothP2phkAndP2sh => "UA contains both P2PKH and P2SH receivers"@,
        ParseError::DuplicateTypecode(t) => "Duplicate typecode "@ + decimal_text(byte_of_typecode(t) as nat),
        ParseError::InvalidEncoding => "Invalid encoding"@,
        ParseError::OnlyTransparent => "UA only contains transparent receivers"@,
    }
}

fn push_digit(s: &mut String, d: u8)
    requires
        d < 10,
    ensures
        final(s)@ == old(s)@ + digit_text(d as nat),
{
    match d {
        0 => s.append("0"),
        1 => s.append("1"),
        2 => s.append("2"),
        3 => s.append("3"),
        4 => s.append("4"),
        5 => s.append("5"),
        6 => s.append("6"),
        7 => s.append("7"),
        8 => s.append("8"),
        _ => s.append("9"),
    }
}

impl ParseError {
    /// The message that describes the error.
    pub fn to_string(&self) -> (s: String)
        ensures
            s@ == error_message(*self),
    {
        match self {
            ParseError::BothP2phkAndP2sh => String::from_str("UA contains both P2PKH and P2SH receivers"),
            ParseError::DuplicateTypecode(typecode) => {
                let b = u8::from(*typecode);
                let mut s = String::from_str("Duplicate typecode ");
                proof {
                    reveal_with_fuel(decimal_text, 3);
                }
                if b >= 100 {
                    push_digit(&mut s, b / 100);
                    push_digit(&mut s, b / 10 % 10);
                    push_digit(&mut s, b % 10);
                    assert(decimal_text(b as nat) =~= digit_text((b / 100) as nat) + digit_text((b / 10 % 10) as nat) + digit_text((b % 10) as nat));
                } else if b >= 10 {
                    push_digit(&mut s, b / 10);
                    push_digit(&mut s, b % 10);
                    assert(decimal_text(b as nat) =~= digit_text((b / 10) as nat) + digit_text((b % 10) as nat));
                } else {
                    push_digit(&mut s, b);
                }
                s
            },
            ParseError::InvalidEncoding => String::from_str("Invalid encoding"),
            ParseError::OnlyTransparent => String::from_str("UA only contains transparent receivers"),
        }
    }
}

} // verus!
