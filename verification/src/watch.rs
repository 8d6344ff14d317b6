//! Watches: what a user asks to have sampled, and the texts that ask for it.

use vstd::prelude::*;
use vstd::string::*;
use crate::data_type::DataType;
use crate::error::{ParseError, ParseFault};
use crate::pointer::Pointer;
use crate::space::MemorySpace;
use crate::text::{
    find_from, lemma_trimmed_twice, position_from, trim, trimmed, try_consume,
};

verus! {

/// A request to sample one value of the simulated machine.
#[derive(Debug, PartialEq, Eq, PartialOrd, Ord)]
pub enum Watch {
    /// The value at an address of a memory space.
    MemoryAddress { space: MemorySpace, address: Pointer, data_type: DataType },
    /// The value at a symbol of the executable, found when the watch is evaluated.
    Symbol { name: String, data_type: DataType },
    /// The output register of a port, or one bit of it.
    IoPort { port_letter: char, port_index: Option<u8> },
    /// The input pins of a port, or one of them.
    IoPin { port_letter: char, port_index: Option<u8> },
    /// The data direction register of a port, or one bit of it.
    IoDataDirectionRegister { port_letter: char, port_index: Option<u8> },
}

/// The mathematical value of a `Watch`.
pub ghost enum WatchView {
    MemoryAddress { space: MemorySpace, address: Pointer, data_type: DataType },
    Symbol { name: Seq<char>, data_type: DataType },
    IoPort { port_letter: char, port_index: Option<u8> },
    IoPin { port_letter: char, port_index: Option<u8> },
    IoDataDirectionRegister { port_letter: char, port_index: Option<u8> },
}

impl View for Watch {
    type V = WatchView;

    open spec fn view(&self) -> WatchView {
        match self {
            Watch::MemoryAddress { space, address, data_type } => WatchView::MemoryAddress {
                space: *space,
                address: *address,
                data_type: *data_type,
            },
            Watch::Symbol { name, data_type } => WatchView::Symbol {
                name: name@,
                data_type: *data_type,
            },
            Watch::IoPort { port_letter, port_index } => WatchView::IoPort {
                port_letter: *port_letter,
                port_index: *port_index,
            },
            Watch::IoPin { port_letter, port_index } => WatchView::IoPin {
                port_letter: *port_letter,
                port_index: *port_index,
            },
            Watch::IoDataDirectionRegister {
                port_letter,
                port_index,
            } => WatchView::IoDataDirectionRegister {
                port_letter: *port_letter,
                port_index: *port_index,
            },
        }
    }
}

impl WatchView {
    /// Whether the watch can be shown: an address has a base to be shown in.
    pub open spec fn wf(self) -> bool {
        self matches WatchView::MemoryAddress { address, .. } ==> address.wf()
    }
}

/// The values of a run of watches, one for one.
pub open spec fn watch_views(watches: Seq<Watch>) -> Seq<WatchView> {
    Seq::new(watches.len(), |i: int| watches[i]@)
}

impl Clone for Watch {
    fn clone(&self) -> (copy: Watch)
        ensures
            copy@ == self@,
    {
        match self {
            Watch::MemoryAddress { space, address, data_type } => Watch::MemoryAddress {
                space: *space,
                address: *address,
                data_type: data_type.clone(),
            },
            Watch::Symbol { name, data_type } => Watch::Symbol {
                name: name.clone(),
                data_type: data_type.clone(),
            },
            Watch::IoPort { port_letter, port_index } => Watch::IoPort {
                port_letter: *port_letter,
                port_index: *port_index,
            },
            Watch::IoPin { port_letter, port_index } => Watch::IoPin {
                port_letter: *port_letter,
                port_index: *port_index,
            },
            Watch::IoDataDirectionRegister {
                port_letter,
                port_index,
            } => Watch::IoDataDirectionRegister {
                port_letter: *port_letter,
                port_index: *port_index,
            },
        }
    }
}

/// `c`, as a capital where it is one of the letters `a` to `z`.
pub open spec fn ascii_uppercase(c: char) -> char {
    if 'a' <= c <= 'z' {
        ((c as u32) - 32) as char
    } else {
        c
    }
}

/// Whether `c` is one of the letters `a` to `z` or `A` to `Z`.
pub open spec fn is_port_letter(c: char) -> bool {
    'a' <= c <= 'z' || 'A' <= c <= 'Z'
}

/// The port that is written after the equals sign of an I/O watch: one
/// letter, taken as a capital, and after it at most one digit, the bit
/// index. Nothing may follow.
pub open spec fn parse_port(port: Seq<char>) -> Result<(char, Option<u8>), ParseFault> {
    if port.len() == 0 || !is_port_letter(port[0]) {
        Err(ParseFault::MissingPortLetter)
    } else if port.len() == 1 {
        Ok((ascii_uppercase(port[0]), None))
    } else if port.len() == 2 && '0' <= port[1] <= '9' {
        Ok((ascii_uppercase(port[0]), Some(((port[1] as u32) - 48) as u8)))
    } else {
        Err(ParseFault::InvalidPortIndex)
    }
}

/// The data memory watch that is written after `datamem=`: an address up
/// to the next equals sign, and a data type after it.
pub open spec fn parse_data_memory(remaining: Seq<char>) -> Result<WatchView, ParseFault> {
    let equals = position_from(remaining, '=', 0);
    if equals >= remaining.len() {
        Err(ParseFault::MissingDataType)
    } else {
        match Pointer::parse(remaining.take(equals)) {
            Err(fault) => Err(fault),
            Ok(address) => match DataType::parse(remaining.skip(equals + 1)) {
                Err(fault) => Err(fault),
                Ok(data_type) => Ok(
                    WatchView::MemoryAddress { space: MemorySpace::Data, address, data_type },
                ),
            },
        }
    }
}

/// The symbol watch that `text` writes: a name before the first equals
/// sign and a data type after it.
pub open spec fn parse_symbol(text: Seq<char>) -> Result<WatchView, ParseFault> {
    let equals = position_from(text, '=', 0);
    if equals >= text.len() {
        Err(ParseFault::InvalidWatchable { text })
    } else {
        match DataType::parse(text.skip(equals + 1)) {
            Err(fault) => Err(fault),
            Ok(data_type) => Ok(WatchView::Symbol { name: text.take(equals), data_type }),
        }
    }
}

/// The watches that `text` asks for. A text that starts with `datamem=`,
/// `io-port=`, `io-pin=`, `io-ddr=` or `io=` (which asks for all three
/// registers of the port) is of that form, the equals sign included; every
/// other text is a symbol watch, where it holds an equals sign.
pub open spec fn parse_watch_text(text: Seq<char>) -> Result<Seq<WatchView>, ParseFault> {
    let s = trimmed(text);
    if "datamem="@.is_prefix_of(s) {
        match parse_data_memory(s.skip("datamem="@.len() as int)) {
            Ok(watch) => Ok(seq![watch]),
            Err(fault) => Err(fault),
        }
    } else if "io-port="@.is_prefix_of(s) {
        match parse_port(s.skip("io-port="@.len() as int)) {
            Ok((port_letter, port_index)) => Ok(seq![WatchView::IoPort { port_letter, port_index }]),
            Err(fault) => Err(fault),
        }
    } else if "io-pin="@.is_prefix_of(s) {
        match parse_port(s.skip("io-pin="@.len() as int)) {
            Ok((port_letter, port_index)) => Ok(seq![WatchView::IoPin { port_letter, port_index }]),
            Err(fault) => Err(fault),
        }
    } else if "io-ddr="@.is_prefix_of(s) {
        match parse_port(s.skip("io-ddr="@.len() as int)) {
            Ok((port_letter, port_index)) => Ok(
                seq![WatchView::IoDataDirectionRegister { port_letter, port_index }],
            ),
            Err(fault) => Err(fault),
        }
    } else if "io="@.is_prefix_of(s) {
        match parse_port(s.skip("io="@.len() as int)) {
            Ok((port_letter, port_index)) => Ok(
                seq![
                    WatchView::IoPort { port_letter, port_index },
                    WatchView::IoPin { port_letter, port_index },
                    WatchView::IoDataDirectionRegister { port_letter, port_index },
                ],
            ),
            Err(fault) => Err(fault),
        }
    } else {
        match parse_symbol(s) {
            Ok(watch) => Ok(seq![watch]),
            Err(fault) => Err(fault),
        }
    }
}

/// The watches that a text asks for depend on the text alone: the same
/// text asks for the same watches, or fails with the same fault.
pub proof fn lemma_parse_deterministic(first: Seq<char>, second: Seq<char>)
    requires
        first == second,
    ensures
        parse_watch_text(first) == parse_watch_text(second),
{
}

/// A text asks for the same watches with and without the white space
/// around it, so that reading what was trimmed before changes nothing.
pub proof fn lemma_parse_trimmed(text: Seq<char>)
    ensures
        parse_watch_text(trimmed(text)) == parse_watch_text(text),
{
    lemma_trimmed_twice(text);
}

/// Reads the port of an I/O watch.
fn io_port_from_str(port: &str) -> (found: Result<(char, Option<u8>), ParseError>)
    ensures
        match found {
            Ok(named) => parse_port(port@) == Ok::<(char, Option<u8>), ParseFault>(named),
            Err(error) => parse_port(port@) == Err::<(char, Option<u8>), ParseFault>(error@),
        },
{
    let length = port.unicode_len();
    if length == 0 {
        return Err(ParseError::MissingPortLetter);
    }
    let first = port.get_char(0);
    let code: u32 = first as u32;
    let port_letter = if 97 <= code && code <= 122 {
        (((code - 32) as u8) as char)
    } else if 65 <= code && code <= 90 {
        first
    } else {
        return Err(ParseError::MissingPortLetter);
    };
    proof {
        if 97 <= code && code <= 122 {
            assert(((code - 32) as u8) as char == ((first as u32) - 32) as char);
        }
    }
    if length == 1 {
        return Ok((port_letter, None));
    }
    let digit: u32 = port.get_char(1) as u32;
    if length == 2 && 48 <= digit && digit <= 57 {
        Ok((port_letter, Some((digit - 48) as u8)))
    } else {
        Err(ParseError::InvalidPortIndex)
    }
}

/// Reads what follows `datamem=`.
fn data_memory_from_str(remaining: &str) -> (watch: Result<Watch, ParseError>)
    ensures
        match watch {
            Ok(found) => parse_data_memory(remaining@) == Ok::<WatchView, ParseFault>(found@)
                && found@.wf(),
            Err(error) => parse_data_memory(remaining@) == Err::<WatchView, ParseFault>(error@),
        },
{
    let length = remaining.unicode_len();
    let equals = find_from(remaining, '=', 0);
    if equals >= length {
        return Err(ParseError::MissingDataType);
    }
    proof {
        assert(remaining@.subrange(equals + 1, length as int) =~= remaining@.skip(equals + 1));
        assert(remaining@.subrange(0, equals as int) =~= remaining@.take(equals as int));
    }
    let address = match Pointer::from_str(remaining.substring_char(0, equals)) {
        Ok(address) => address,
        Err(error) => {
            return Err(error);
        },
    };
    match DataType::from_str(remaining.substring_char(equals + 1, length)) {
        Ok(data_type) => Ok(Watch::MemoryAddress { space: MemorySpace::Data, address, data_type }),
        Err(error) => Err(error),
    }
}

/// Reads a symbol watch.
fn symbol_from_str(text: &str) -> (watch: Result<Watch, ParseError>)
    ensures
        match watch {
            Ok(found) => parse_symbol(text@) == Ok::<WatchView, ParseFault>(found@),
            Err(error) => parse_symbol(text@) == Err::<WatchView, ParseFault>(error@),
        },
{
    let length = text.unicode_len();
    let equals = find_from(text, '=', 0);
    if equals >= length {
        return Err(ParseError::InvalidWatchable { text: text.to_owned() });
    }
    proof {
        assert(text@.subrange(equals + 1, length as int) =~= text@.skip(equals + 1));
        assert(text@.subrange(0, equals as int) =~= text@.take(equals as int));
    }
    match DataType::from_str(text.substring_char(equals + 1, length)) {
        Ok(data_type) => Ok(
            Watch::Symbol { name: text.substring_char(0, equals).to_owned(), data_type },
        ),
        Err(error) => Err(error),
    }
}

/// Reads the watches that a text asks for. One text may ask for several.
pub fn parse_watch(s: &str) -> (watches: Result<Vec<Watch>, ParseError>)
    ensures
        match watches {
            Ok(found) => parse_watch_text(s@) == Ok::<Seq<WatchView>, ParseFault>(
                watch_views(found@),
            ) && found@.len() >= 1 && forall|i: int|
                0 <= i < found@.len() ==> (#[trigger] found@[i])@.wf(),
            Err(error) => parse_watch_text(s@) == Err::<Seq<WatchView>, ParseFault>(error@),
        },
{
    let s = trim(s);
    if let Some(remaining) = try_consume("datamem=", s) {
        match data_memory_from_str(remaining) {
            Ok(watch) => {
                let found = vec![watch];
                proof {
                    assert(watch_views(found@) =~= seq![watch@]);
                }
                Ok(found)
            },
            Err(error) => Err(error),
        }
    } else if let Some(remaining) = try_consume("io-port=", s) {
        match io_port_from_str(remaining) {
            Ok((port_letter, port_index)) => {
                let found = vec![Watch::IoPort { port_letter, port_index }];
                proof {
                    assert(watch_views(found@) =~= seq![
                        WatchView::IoPort { port_letter, port_index },
                    ]);
                }
                Ok(found)
            },
            Err(error) => Err(error),
        }
    } else if let Some(remaining) = try_consume("io-pin=", s) {
        match io_port_from_str(remaining) {
            Ok((port_letter, port_index)) => {
                let found = vec![Watch::IoPin { port_letter, port_index }];
                proof {
                    assert(watch_views(found@) =~= seq![WatchView::IoPin { port_letter, port_index }]);
                }
                Ok(found)
            },
            Err(error) => Err(error),
        }
    } else if let Some(remaining) = try_consume("io-ddr=", s) {
        match io_port_from_str(remaining) {
            Ok((port_letter, port_index)) => {
                let found = vec![Watch::IoDataDirectionRegister { port_letter, port_index }];
                proof {
                    assert(watch_views(found@) =~= seq![
                        WatchView::IoDataDirectionRegister { port_letter, port_index },
                    ]);
                }
                Ok(found)
            },
            Err(error) => Err(error),
        }
    } else if let Some(remaining) = try_consume("io=", s) {
        match io_port_from_str(remaining) {
            Ok((port_letter, port_index)) => {
                let found = vec![
                    Watch::IoPort { port_letter, port_index },
                    Watch::IoPin { port_letter, port_index },
                    Watch::IoDataDirectionRegister { port_letter, port_index },
                ];
                proof {
                    assert(watch_views(found@) =~= seq![
                        WatchView::IoPort { port_letter, port_index },
                        WatchView::IoPin { port_letter, port_index },
                        WatchView::IoDataDirectionRegister { port_letter, port_index },
                    ]);
                }
                Ok(found)
            },
            Err(error) => Err(error),
        }
    } else {
        match symbol_from_str(s) {
            Ok(watch) => {
                let found = vec![watch];
                proof {
                    assert(watch_views(found@) =~= seq![watch@]);
                }
                Ok(found)
            },
            Err(error) => Err(error),
        }
    }
}

} // verus!
