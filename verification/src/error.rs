//! What can go wrong when a watch is evaluated.

use vstd::prelude::*;
use vstd::string::*;
use crate::render::{format_text_debug, text_debug};
use crate::text::NumberFault;

verus! {

/// Why a watch has no value.
#[derive(Debug, PartialEq, Eq)]
pub enum WatchError {
    /// The memory space ends before the value does.
    EndOfMemory,
    /// The watch names a symbol that the executable does not define.
    SymbolNotFound { name: String },
    /// The watch reads program space, which cannot be read.
    ProgramSpaceUnsupported,
    /// The watch reads an I/O port whose registers were not sampled.
    PortUnavailable { port_letter: char },
}

/// The mathematical value of a `WatchError`.
pub ghost enum WatchFault {
    EndOfMemory,
    SymbolNotFound { name: Seq<char> },
    ProgramSpaceUnsupported,
    PortUnavailable { port_letter: char },
}

impl View for WatchError {
    type V = WatchFault;

    open spec fn view(&self) -> WatchFault {
        match self {
            WatchError::EndOfMemory => WatchFault::EndOfMemory,
            WatchError::SymbolNotFound { name } => WatchFault::SymbolNotFound { name: name@ },
            WatchError::ProgramSpaceUnsupported => WatchFault::ProgramSpaceUnsupported,
            WatchError::PortUnavailable { port_letter } => WatchFault::PortUnavailable {
                port_letter: *port_letter,
            },
        }
    }
}

/// Why a text is no watch.
#[derive(Debug, PartialEq, Eq)]
pub enum ParseError {
    /// A data memory watch without a data type.
    MissingDataType,
    /// An address of decimal digits that is no 32-bit number.
    InvalidDecimalPointer { text: String, fault: NumberFault },
    /// An address with the prefix `0x` whose digits are no 32-bit number.
    InvalidHexPointer { text: String, fault: NumberFault },
    /// An address that is neither decimal nor prefixed with `0x`.
    InvalidPointer { text: String },
    /// `null_terminated` without `=` and an inner type after it.
    MissingInnerType { text: String },
    /// A data type that is none of the keywords.
    InvalidDataType { text: String },
    /// An I/O watch without a letter for its port.
    MissingPortLetter,
    /// An I/O watch with anything but one digit after the port letter.
    InvalidPortIndex,
    /// A text of none of the forms.
    InvalidWatchable { text: String },
}

/// The mathematical value of a `ParseError`.
pub ghost enum ParseFault {
    MissingDataType,
    InvalidDecimalPointer { text: Seq<char>, fault: NumberFault },
    InvalidHexPointer { text: Seq<char>, fault: NumberFault },
    InvalidPointer { text: Seq<char> },
    MissingInnerType { text: Seq<char> },
    InvalidDataType { text: Seq<char> },
    MissingPortLetter,
    InvalidPortIndex,
    InvalidWatchable { text: Seq<char> },
}

impl View for ParseError {
    type V = ParseFault;

    open spec fn view(&self) -> ParseFault {
        match self {
            ParseError::MissingDataType => ParseFault::MissingDataType,
            ParseError::InvalidDecimalPointer { text, fault } => ParseFault::InvalidDecimalPointer {
                text: text@,
                fault: *fault,
            },
            ParseError::InvalidHexPointer { text, fault } => ParseFault::InvalidHexPointer {
                text: text@,
                fault: *fault,
            },
            ParseError::InvalidPointer { text } => ParseFault::InvalidPointer { text: text@ },
            ParseError::MissingInnerType { text } => ParseFault::MissingInnerType { text: text@ },
            ParseError::InvalidDataType { text } => ParseFault::InvalidDataType { text: text@ },
            ParseError::MissingPortLetter => ParseFault::MissingPortLetter,
            ParseError::InvalidPortIndex => ParseFault::InvalidPortIndex,
            ParseError::InvalidWatchable { text } => ParseFault::InvalidWatchable { text: text@ },
        }
    }
}

/// What is said of a symbol that the executable does not define.
pub open spec fn missing_symbol_text(name: Seq<char>) -> Seq<char> {
    "the symbol '"@ + name
        + "' does not exist in the ELF file, or the ELF file contains no debug information"@
}

/// What is said of a symbol that the executable does not define.
pub fn missing_symbol_message(name: &str) -> (message: String)
    ensures
        message@ == missing_symbol_text(name@),
{
    let mut message = "the symbol '".to_owned();
    message.append(name);
    message.append(
        "' does not exist in the ELF file, or the ELF file contains no debug information",
    );
    message
}

impl WatchFault {
    /// The error in words.
    pub open spec fn text(self) -> Seq<char> {
        match self {
            WatchFault::EndOfMemory => "end of memory"@,
            WatchFault::SymbolNotFound { name } => missing_symbol_text(name),
            WatchFault::ProgramSpaceUnsupported => "watches on program space are not implemented"@,
            WatchFault::PortUnavailable { port_letter } => "avr ioctl failed for port '"@
                + seq![port_letter] + "'"@,
        }
    }
}

impl WatchError {
    /// The error in words.
    pub fn message(&self) -> (message: String)
        ensures
            message@ == self@.text(),
    {
        match self {
            WatchError::EndOfMemory => "end of memory".to_owned(),
            WatchError::SymbolNotFound { name } => missing_symbol_message(name.as_str()),
            WatchError::ProgramSpaceUnsupported => "watches on program space are not implemented"
                .to_owned(),
            WatchError::PortUnavailable { port_letter } => {
                let mut message = "avr ioctl failed for port '".to_owned();
                message.push(*port_letter);
                message.append("'");
                message
            },
        }
    }
}

/// Why a run of characters is no number, in words.
pub open spec fn number_fault_text(fault: NumberFault) -> Seq<char> {
    match fault {
        NumberFault::Empty => "cannot parse integer from empty string"@,
        NumberFault::InvalidDigit => "invalid digit found in string"@,
        NumberFault::TooLarge => "number too large to fit in target type"@,
    }
}

impl ParseFault {
    /// The error in words. A text that was read is quoted as `{:?}` quotes it.
    pub open spec fn text(self) -> Seq<char> {
        match self {
            ParseFault::MissingDataType => "expected data memory address to include a data type separated by equals sign"@,
            ParseFault::InvalidDecimalPointer { text, fault } => "could not parse base-10 integer ("@
                + text_debug(text) + ") as pointer: "@ + number_fault_text(fault),
            ParseFault::InvalidHexPointer { text, fault } => "could not parse base-16 integer ("@
                + text_debug(text) + ") as pointer: "@ + number_fault_text(fault),
            ParseFault::InvalidPointer { text } => "invalid pointer value: "@ + text_debug(text),
            ParseFault::MissingInnerType { text } => "null terminated types must have an inner type separated by the equals sign: "@
                + text_debug(text),
            ParseFault::InvalidDataType { text } => "invalid data type: "@ + text_debug(text),
            ParseFault::MissingPortLetter => "expected IO port to include a port letter and an optional index after the equals sign"@,
            ParseFault::InvalidPortIndex => "port index is not a single digit"@,
            ParseFault::InvalidWatchable { text } => "invalid WATCHABLE: "@ + text,
        }
    }
}

/// Why a run of characters is no number, in words.
fn number_fault_message(fault: NumberFault) -> (message: &'static str)
    ensures
        message@ == number_fault_text(fault),
{
    match fault {
        NumberFault::Empty => "cannot parse integer from empty string",
        NumberFault::InvalidDigit => "invalid digit found in string",
        NumberFault::TooLarge => "number too large to fit in target type",
    }
}

impl ParseError {
    /// The error in words.
    pub fn message(&self) -> (message: String)
        ensures
            message@ == self@.text(),
    {
        match self {
            ParseError::MissingDataType => "expected data memory address to include a data type separated by equals sign".to_owned(),
            ParseError::InvalidDecimalPointer { text, fault } => {
                let mut message = "could not parse base-10 integer (".to_owned();
                message.append(format_text_debug(text.as_str()).as_str());
                message.append(") as pointer: ");
                message.append(number_fault_message(*fault));
                message
            },
            ParseError::InvalidHexPointer { text, fault } => {
                let mut message = "could not parse base-16 integer (".to_owned();
                message.append(format_text_debug(text.as_str()).as_str());
                message.append(") as pointer: ");
                message.append(number_fault_message(*fault));
                message
            },
            ParseError::InvalidPointer { text } => {
                let mut message = "invalid pointer value: ".to_owned();
                message.append(format_text_debug(text.as_str()).as_str());
                message
            },
            ParseError::MissingInnerType { text } => {
                let mut message = "null terminated types must have an inner type separated by the equals sign: ".to_owned();
                message.append(format_text_debug(text.as_str()).as_str());
                message
            },
            ParseError::InvalidDataType { text } => {
                let mut message = "invalid data type: ".to_owned();
                message.append(format_text_debug(text.as_str()).as_str());
                message
            },
            ParseError::MissingPortLetter => "expected IO port to include a port letter and an optional index after the equals sign".to_owned(),
            ParseError::InvalidPortIndex => "port index is not a single digit".to_owned(),
            ParseError::InvalidWatchable { text } => {
                let mut message = "invalid WATCHABLE: ".to_owned();
                message.append(text.as_str());
                message
            },
        }
    }
}

} // verus!
