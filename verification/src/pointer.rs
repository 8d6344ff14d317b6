//! Addresses, with the base in which they were written.

use vstd::prelude::*;
use vstd::string::*;
use crate::error::{ParseError, ParseFault};
use crate::text::{
    all_digits, number_text, parse_number, parsed_number, push_number, trim, trimmed, NumberFault,
};

verus! {

/// An address in one of the memory spaces.
#[derive(Copy, Clone, Debug, PartialEq, Eq, PartialOrd, Ord, Structural)]
pub struct Pointer {
    /// The address itself.
    pub address: u32,
    /// The base in which the address was written and is shown: 10 or 16.
    pub natural_radix: u32,
}

impl Pointer {
    /// Whether the base is one of the two in which addresses are written.
    pub open spec fn wf(self) -> bool {
        self.natural_radix == 10 || self.natural_radix == 16
    }

    /// The address that `text` writes: decimal where it holds decimal digits
    /// only, hexadecimal after `0x` or `0X`.
    pub open spec fn parse(text: Seq<char>) -> Result<Pointer, ParseFault> {
        let inner = trimmed(text);
        if all_digits(inner, 10) {
            match parsed_number(inner, 10) {
                Ok(address) => Ok(Pointer { address, natural_radix: 10 }),
                Err(fault) => Err(ParseFault::InvalidDecimalPointer { text: inner, fault }),
            }
        } else if inner.len() >= 2 && inner[0] == '0' && (inner[1] == 'x' || inner[1] == 'X') {
            match parsed_number(inner.skip(2), 16) {
                Ok(address) => Ok(Pointer { address, natural_radix: 16 }),
                Err(fault) => Err(ParseFault::InvalidHexPointer { text: inner.skip(2), fault }),
            }
        } else {
            Err(ParseFault::InvalidPointer { text: inner })
        }
    }

    /// The address as it is shown: in the base in which it was written.
    pub open spec fn text(self) -> Seq<char> {
        if self.natural_radix == 10 {
            number_text(self.address as nat, 10)
        } else {
            "0x"@ + number_text(self.address as nat, 16)
        }
    }

    /// Reads an address.
    pub fn from_str(s: &str) -> (pointer: Result<Pointer, ParseError>)
        ensures
            match pointer {
                Ok(p) => Pointer::parse(s@) == Ok::<Pointer, ParseFault>(p),
                Err(error) => Pointer::parse(s@) == Err::<Pointer, ParseFault>(error@),
            },
            pointer matches Ok(p) ==> p.wf(),
    {
        let inner = trim(s);
        let length = inner.unicode_len();
        match parse_number(inner, 10) {
            Ok(address) => Ok(Pointer { address, natural_radix: 10 }),
            Err(NumberFault::InvalidDigit) => {
                if length >= 2 && inner.get_char(0) == '0' && (inner.get_char(1) == 'x'
                    || inner.get_char(1) == 'X') {
                    let digits = inner.substring_char(2, length);
                    proof {
                        assert(inner@.subrange(2, length as int) =~= inner@.skip(2));
                    }
                    match parse_number(digits, 16) {
                        Ok(address) => Ok(Pointer { address, natural_radix: 16 }),
                        Err(fault) => Err(
                            ParseError::InvalidHexPointer { text: digits.to_owned(), fault },
                        ),
                    }
                } else {
                    Err(ParseError::InvalidPointer { text: inner.to_owned() })
                }
            },
            Err(fault) => Err(ParseError::InvalidDecimalPointer { text: inner.to_owned(), fault }),
        }
    }

    /// The address as it is shown.
    pub fn to_string(&self) -> (text: String)
        requires
            self.wf(),
        ensures
            text@ == self.text(),
    {
        if self.natural_radix == 10 {
            let mut text = String::new();
            push_number(&mut text, self.address as u128, 10);
            proof {
                assert(Seq::<char>::empty() + number_text(self.address as nat, 10) =~= number_text(
                    self.address as nat,
                    10,
                ));
            }
            text
        } else {
            let mut text = "0x".to_owned();
            push_number(&mut text, self.address as u128, 16);
            text
        }
    }
}

} // verus!
