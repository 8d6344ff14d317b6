//! The mailbox through which the simulated program prints: one byte of
//! payload and one byte of flags, both in data space.

use vstd::prelude::*;
use vstd::string::*;
use crate::machine::MachineState;
use crate::symbols::{find_symbol, has_symbol, symbol_position, symbol_views, WatchableSymbol};

verus! {

/// The name of the symbol of the payload byte.
pub const SEND_BUFFER: &'static str = "__AVR_SIM_SEND_BUFFER";

/// The name of the symbol of the flags byte.
pub const SEND_BUFFER_FLAGS: &'static str = "__AVR_SIM_SEND_BUFFER_FLAGS";

/// The flag that is set, and stays set, once the program has set up the mailbox.
pub const INITIALIZED: u8 = 0b0000_0001;

/// The flag that is set while the program may write the next byte.
pub const READY_FOR_WRITE: u8 = 0b0000_0010;

/// The flags of the mailbox.
#[derive(Copy, Clone, Debug, PartialEq, Eq, Structural)]
pub struct WriteBufferFlags {
    pub bits: u8,
}

impl WriteBufferFlags {
    /// Whether `bits` holds no bit but the two flags.
    pub open spec fn valid(bits: u8) -> bool {
        bits & !(INITIALIZED | READY_FOR_WRITE) == 0
    }

    /// Whether every bit of `flag` is set.
    pub open spec fn has(self, flag: u8) -> bool {
        self.bits & flag == flag
    }

    /// The flags that a byte holds, where it holds no other bit.
    pub fn from_bits(bits: u8) -> (flags: Option<WriteBufferFlags>)
        ensures
            flags == if WriteBufferFlags::valid(bits) {
                Some(WriteBufferFlags { bits })
            } else {
                None
            },
    {
        if bits & !(INITIALIZED | READY_FOR_WRITE) == 0 {
            Some(WriteBufferFlags { bits })
        } else {
            None
        }
    }

    /// The byte that holds the flags.
    pub fn bits(&self) -> (bits: u8)
        ensures
            bits == self.bits,
    {
        self.bits
    }

    /// Whether every bit of `flag` is set.
    pub fn contains(&self, flag: u8) -> (set: bool)
        ensures
            set == self.has(flag),
    {
        self.bits & flag == flag
    }
}

/// Why the mailbox cannot be read.
#[derive(Copy, Clone, Debug, PartialEq, Eq, Structural)]
pub enum PrintError {
    /// The executable has no symbol for the payload byte.
    MissingSendBuffer,
    /// The executable has no symbol for the flags byte.
    MissingSendBufferFlags,
    /// A symbol of the mailbox lies behind the end of data space.
    EndOfMemory,
    /// The symbol of the flags byte lies at the end of data space.
    FlagsUnallocated,
    /// The flags byte holds a bit that is no flag.
    FlagsCorrupted,
    /// The symbol of the payload byte lies at the end of data space.
    BufferUnallocated,
}

impl PrintError {
    /// The error in words.
    pub open spec fn text(self) -> Seq<char> {
        match self {
            PrintError::MissingSendBuffer => "the AVR executable does not contain the libavrlit special symbol '__AVR_SIM_SEND_BUFFER'"@,
            PrintError::MissingSendBufferFlags => "the AVR executable does not contain the libavrlit special symbol '__AVR_SIM_SEND_BUFFER_FLAGS'"@,
            PrintError::EndOfMemory => "end of memory"@,
            PrintError::FlagsUnallocated => "the debug write buffer flag has no allocated space"@,
            PrintError::FlagsCorrupted => "the debug write buffer flag variable is corrupted"@,
            PrintError::BufferUnallocated => "the debug write buffer has no allocated space"@,
        }
    }

    /// The error in words.
    pub fn message(&self) -> (message: &'static str)
        ensures
            message@ == self.text(),
    {
        match self {
            PrintError::MissingSendBuffer => "the AVR executable does not contain the libavrlit special symbol '__AVR_SIM_SEND_BUFFER'",
            PrintError::MissingSendBufferFlags => "the AVR executable does not contain the libavrlit special symbol '__AVR_SIM_SEND_BUFFER_FLAGS'",
            PrintError::EndOfMemory => "end of memory",
            PrintError::FlagsUnallocated => "the debug write buffer flag has no allocated space",
            PrintError::FlagsCorrupted => "the debug write buffer flag variable is corrupted",
            PrintError::BufferUnallocated => "the debug write buffer has no allocated space",
        }
    }
}

/// Where the mailbox lies.
#[derive(Debug, PartialEq, Eq)]
pub struct Config {
    pub symbol_for_send_buffer: WatchableSymbol,
    pub symbol_for_send_buffer_flags: WatchableSymbol,
}

impl Clone for Config {
    fn clone(&self) -> (copy: Config)
        ensures
            copy.symbol_for_send_buffer@ == self.symbol_for_send_buffer@,
            copy.symbol_for_send_buffer_flags@ == self.symbol_for_send_buffer_flags@,
    {
        Config {
            symbol_for_send_buffer: self.symbol_for_send_buffer.clone(),
            symbol_for_send_buffer_flags: self.symbol_for_send_buffer_flags.clone(),
        }
    }
}

/// The byte at an address of data space. An address behind the end is the
/// end of memory, and at the end itself there is no byte: `unallocated`.
pub open spec fn byte_at(address: int, data: Seq<u8>, unallocated: PrintError) -> Result<u8, PrintError> {
    if address > data.len() {
        Err(PrintError::EndOfMemory)
    } else if address == data.len() {
        Err(unallocated)
    } else {
        Ok(data[address])
    }
}

/// The flags at an address of data space. A byte with a bit that is no
/// flag holds no flags.
pub open spec fn flags_at(address: int, data: Seq<u8>) -> Result<WriteBufferFlags, PrintError> {
    match byte_at(address, data, PrintError::FlagsUnallocated) {
        Err(error) => Err(error),
        Ok(bits) => if WriteBufferFlags::valid(bits) {
            Ok(WriteBufferFlags { bits })
        } else {
            Err(PrintError::FlagsCorrupted)
        },
    }
}

/// What taking a byte from the mailbox gives, and the data space after it.
///
/// A byte waits where the flags say `INITIALIZED` and do not say
/// `READY_FOR_WRITE`. Taking it clears the payload and sets
/// `READY_FOR_WRITE`. In every other case data space is left as it is.
pub open spec fn consumed(buffer: int, flags: int, data: Seq<u8>) -> Result<
    (Option<u8>, Seq<u8>),
    PrintError,
> {
    match flags_at(flags, data) {
        Err(error) => Err(error),
        Ok(current) => {
            if current.has(INITIALIZED) && !current.has(READY_FOR_WRITE) {
                match byte_at(buffer, data, PrintError::BufferUnallocated) {
                    Err(error) => Err(error),
                    Ok(byte) => Ok(
                        (
                            Some(byte),
                            data.update(buffer, 0).update(flags, current.bits | READY_FOR_WRITE),
                        ),
                    ),
                }
            } else {
                Ok((None, data))
            }
        },
    }
}

/// After a byte was taken, none waits: the payload is cleared, the flags
/// say `READY_FOR_WRITE`, and taking again gives no byte and leaves data
/// space as it is.
pub proof fn lemma_consumed_once(buffer: int, flags: int, data: Seq<u8>, byte: u8, after: Seq<u8>)
    requires
        0 <= buffer,
        0 <= flags,
        consumed(buffer, flags, data) == Ok::<(Option<u8>, Seq<u8>), PrintError>((Some(byte), after)),
    ensures
        buffer != flags ==> after[buffer] == 0,
        (WriteBufferFlags { bits: after[flags] }).has(READY_FOR_WRITE),
        consumed(buffer, flags, after) == Ok::<(Option<u8>, Seq<u8>), PrintError>((None, after)),
{
    let before = data[flags];
    let set = before | READY_FOR_WRITE;
    assert(set & !(INITIALIZED | READY_FOR_WRITE) == 0 && set & READY_FOR_WRITE == READY_FOR_WRITE)
        by (bit_vector)
        requires
            before & !(INITIALIZED | READY_FOR_WRITE) == 0,
            set == before | READY_FOR_WRITE,
    ;
}

impl Config {
    /// The mailbox of an executable with the symbols `watchable_symbols`.
    pub fn new(watchable_symbols: &[WatchableSymbol]) -> (config: Result<Config, PrintError>)
        ensures
            match config {
                Ok(found) => {
                    let symbols = symbol_views(watchable_symbols@);
                    &&& has_symbol(symbols, SEND_BUFFER@)
                    &&& has_symbol(symbols, SEND_BUFFER_FLAGS@)
                    &&& found.symbol_for_send_buffer@ == symbols[symbol_position(
                        symbols,
                        SEND_BUFFER@,
                    )]
                    &&& found.symbol_for_send_buffer_flags@ == symbols[symbol_position(
                        symbols,
                        SEND_BUFFER_FLAGS@,
                    )]
                },
                Err(error) => {
                    let symbols = symbol_views(watchable_symbols@);
                    if has_symbol(symbols, SEND_BUFFER@) {
                        error == PrintError::MissingSendBufferFlags && !has_symbol(
                            symbols,
                            SEND_BUFFER_FLAGS@,
                        )
                    } else {
                        error == PrintError::MissingSendBuffer
                    }
                },
            },
    {
        let symbol_for_send_buffer = match find_symbol(watchable_symbols, SEND_BUFFER) {
            Some(symbol) => symbol.clone(),
            None => {
                return Err(PrintError::MissingSendBuffer);
            },
        };
        let symbol_for_send_buffer_flags = match find_symbol(watchable_symbols, SEND_BUFFER_FLAGS) {
            Some(symbol) => symbol.clone(),
            None => {
                return Err(PrintError::MissingSendBufferFlags);
            },
        };
        Ok(Config { symbol_for_send_buffer, symbol_for_send_buffer_flags })
    }

    /// Takes the waiting byte from the mailbox, as a character.
    pub fn consume_character(&self, machine: &mut MachineState) -> (taken: Result<
        Option<char>,
        PrintError,
    >)
        ensures
            final(machine).ports == old(machine).ports,
            match consumed(
                self.symbol_for_send_buffer.address.address as int,
                self.symbol_for_send_buffer_flags.address.address as int,
                old(machine).data@,
            ) {
                Ok((Some(byte), data)) => taken == Ok::<Option<char>, PrintError>(
                    Some(byte as char),
                ) && final(machine).data@ == data,
                Ok((None, data)) => taken == Ok::<Option<char>, PrintError>(None) && final(machine).data@ == data,
                Err(error) => taken == Err::<Option<char>, PrintError>(error) && final(machine).data@ == old(machine).data@,
            },
    {
        match self.consume_byte(machine) {
            Ok(Some(byte)) => Ok(Some(byte as char)),
            Ok(None) => Ok(None),
            Err(error) => Err(error),
        }
    }

    /// Takes the waiting byte from the mailbox.
    pub fn consume_byte(&self, machine: &mut MachineState) -> (taken: Result<Option<u8>, PrintError>)
        ensures
            final(machine).ports == old(machine).ports,
            match consumed(
                self.symbol_for_send_buffer.address.address as int,
                self.symbol_for_send_buffer_flags.address.address as int,
                old(machine).data@,
            ) {
                Ok((byte, data)) => taken == Ok::<Option<u8>, PrintError>(byte) && final(machine).data@
                    == data,
                Err(error) => taken == Err::<Option<u8>, PrintError>(error) && final(machine).data@
                    == old(machine).data@,
            },
    {
        let current_flags = match self.get_current_flags(machine) {
            Ok(flags) => flags,
            Err(error) => {
                return Err(error);
            },
        };
        let ready_for_read = !current_flags.contains(READY_FOR_WRITE);
        if current_flags.contains(INITIALIZED) && ready_for_read {
            let byte_written = match self.get_current_write_buffer_value(machine) {
                Ok(byte) => byte,
                Err(error) => {
                    return Err(error);
                },
            };
            // Clear the payload so that the program can write the next byte.
            self.set_current_write_buffer_value(0, machine);
            self.set_current_flags(
                WriteBufferFlags { bits: current_flags.bits() | READY_FOR_WRITE },
                machine,
            );
            Ok(Some(byte_written))
        } else {
            Ok(None)
        }
    }

    /// The flags of the mailbox.
    fn get_current_flags(&self, machine: &MachineState) -> (flags: Result<
        WriteBufferFlags,
        PrintError,
    >)
        ensures
            flags == flags_at(
                self.symbol_for_send_buffer_flags.address.address as int,
                machine.data@,
            ),
    {
        let at = self.symbol_for_send_buffer_flags.address.address as usize;
        if at > machine.data.len() {
            return Err(PrintError::EndOfMemory);
        }
        if at == machine.data.len() {
            return Err(PrintError::FlagsUnallocated);
        }
        match WriteBufferFlags::from_bits(machine.data[at]) {
            Some(flags) => Ok(flags),
            None => Err(PrintError::FlagsCorrupted),
        }
    }

    /// Writes the flags of the mailbox.
    fn set_current_flags(&self, flags: WriteBufferFlags, machine: &mut MachineState)
        requires
            self.symbol_for_send_buffer_flags.address.address < old(machine).data@.len(),
        ensures
            final(machine).ports == old(machine).ports,
            final(machine).data@ == old(machine).data@.update(
                self.symbol_for_send_buffer_flags.address.address as int,
                flags.bits,
            ),
    {
        machine.data.set(self.symbol_for_send_buffer_flags.address.address as usize, flags.bits());
    }

    /// The payload byte of the mailbox.
    fn get_current_write_buffer_value(&self, machine: &MachineState) -> (byte: Result<u8, PrintError>)
        ensures
            byte == byte_at(
                self.symbol_for_send_buffer.address.address as int,
                machine.data@,
                PrintError::BufferUnallocated,
            ),
    {
        let at = self.symbol_for_send_buffer.address.address as usize;
        if at > machine.data.len() {
            return Err(PrintError::EndOfMemory);
        }
        if at == machine.data.len() {
            return Err(PrintError::BufferUnallocated);
        }
        Ok(machine.data[at])
    }

    /// Writes the payload byte of the mailbox.
    fn set_current_write_buffer_value(&self, new_value: u8, machine: &mut MachineState)
        requires
            self.symbol_for_send_buffer.address.address < old(machine).data@.len(),
        ensures
            final(machine).ports == old(machine).ports,
            final(machine).data@ == old(machine).data@.update(
                self.symbol_for_send_buffer.address.address as int,
                new_value,
            ),
    {
        machine.data.set(self.symbol_for_send_buffer.address.address as usize, new_value);
    }
}

} // verus!
