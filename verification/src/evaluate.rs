//! The current value of a watch.

use vstd::prelude::*;
use vstd::slice::*;
use vstd::string::*;
use crate::data_type::DataType;
use crate::decode::lemma_decode_typed;
use crate::error::{WatchError, WatchFault};
use crate::machine::{bit_is_set, bit_set, port_state, IoState, MachineState};
use crate::pointer::Pointer;
use crate::space::MemorySpace;
use crate::symbols::{
    find_symbol, has_symbol, symbol_position, symbol_views, SymbolView, WatchableSymbol,
};
use crate::value::{WatchState, WatchValue};
use crate::watch::{Watch, WatchView};

verus! {

/// The bytes of a memory space from `address` to the end of the space.
/// Only data space can be read, and only from an address within it or at
/// its end.
pub open spec fn memory_window(machine: MachineState, space: MemorySpace, address: Pointer) -> Result<
    Seq<u8>,
    WatchFault,
> {
    match space {
        MemorySpace::Program => Err(WatchFault::ProgramSpaceUnsupported),
        MemorySpace::Data => {
            if address.address <= machine.data@.len() {
                Ok(machine.data@.skip(address.address as int))
            } else {
                Err(WatchFault::EndOfMemory)
            }
        },
    }
}

/// The value that the bytes at a place decode to.
pub open spec fn value_at(
    machine: MachineState,
    space: MemorySpace,
    address: Pointer,
    data_type: DataType,
) -> Result<WatchValue, WatchFault> {
    match memory_window(machine, space, address) {
        Err(fault) => Err(fault),
        Ok(window) => match data_type.decode(window) {
            Some((value, _)) => Ok(value),
            None => Err(WatchFault::EndOfMemory),
        },
    }
}

/// What a watch shows of a register: the whole byte, or one bit of it.
pub open spec fn register_value(register: u8, port_index: Option<u8>) -> WatchValue {
    match port_index {
        Some(index) => WatchValue::HighLowBit(bit_is_set(register, index)),
        None => WatchValue::IoRegisterStatus(register),
    }
}

/// What a watch shows of one register of the port `port_letter`.
pub open spec fn port_value(
    machine: MachineState,
    port_letter: char,
    port_index: Option<u8>,
    register: spec_fn(IoState) -> u8,
) -> Result<WatchValue, WatchFault> {
    match port_state(machine.ports@, port_letter) {
        Some(state) => Ok(register_value(register(state), port_index)),
        None => Err(WatchFault::PortUnavailable { port_letter }),
    }
}

/// The value of a watch: of a place in memory, of the place that the first
/// symbol of its name gives, or of a register of an I/O port.
pub open spec fn value_of(watch: WatchView, machine: MachineState, symbols: Seq<SymbolView>) -> Result<
    WatchValue,
    WatchFault,
> {
    match watch {
        WatchView::MemoryAddress { space, address, data_type } => value_at(
            machine,
            space,
            address,
            data_type,
        ),
        WatchView::Symbol { name, data_type } => {
            if has_symbol(symbols, name) {
                let symbol = symbols[symbol_position(symbols, name)];
                value_at(machine, symbol.memory_space, symbol.address, data_type)
            } else {
                Err(WatchFault::SymbolNotFound { name })
            }
        },
        WatchView::IoPort { port_letter, port_index } => port_value(
            machine,
            port_letter,
            port_index,
            |state: IoState| state.port,
        ),
        WatchView::IoPin { port_letter, port_index } => port_value(
            machine,
            port_letter,
            port_index,
            |state: IoState| state.pin,
        ),
        WatchView::IoDataDirectionRegister { port_letter, port_index } => port_value(
            machine,
            port_letter,
            port_index,
            |state: IoState| state.data_direction_register,
        ),
    }
}

/// The base in which an address was written is for show only: the value at
/// the address is the same in any base.
pub proof fn lemma_radix_is_for_show(
    machine: MachineState,
    space: MemorySpace,
    first: Pointer,
    second: Pointer,
    data_type: DataType,
)
    requires
        first.address == second.address,
    ensures
        value_at(machine, space, first, data_type) == value_at(machine, space, second, data_type),
{
}

/// A value with the shape of a type can be shown.
pub proof fn lemma_typed_showable(value: WatchValue, data_type: DataType)
    requires
        value.has_type(data_type),
    ensures
        value.showable(),
{
    reveal_with_fuel(WatchValue::has_type, 2);
}

/// The value of a watch can be shown.
pub proof fn lemma_value_of_showable(watch: WatchView, machine: MachineState, symbols: Seq<SymbolView>)
    ensures
        value_of(watch, machine, symbols) matches Ok(value) ==> value.showable(),
{
    match watch {
        WatchView::MemoryAddress { space, address, data_type } => {
            if let Ok(window) = memory_window(machine, space, address) {
                lemma_decode_typed(data_type, window);
                if let Some((value, _)) = data_type.decode(window) {
                    lemma_typed_showable(value, data_type);
                }
            }
        },
        WatchView::Symbol { name, data_type } => {
            if has_symbol(symbols, name) {
                let symbol = symbols[symbol_position(symbols, name)];
                if let Ok(window) = memory_window(machine, symbol.memory_space, symbol.address) {
                    lemma_decode_typed(data_type, window);
                    if let Some((value, _)) = data_type.decode(window) {
                        lemma_typed_showable(value, data_type);
                    }
                }
            }
        },
        _ => {},
    }
}

/// The bytes of a memory space from `address` on.
pub fn read_current_memory_address<'m>(
    space: MemorySpace,
    address: Pointer,
    machine: &'m MachineState,
) -> (window: Result<&'m [u8], WatchError>)
    ensures
        match window {
            Ok(bytes) => memory_window(*machine, space, address) == Ok::<Seq<u8>, WatchFault>(bytes@),
            Err(error) => memory_window(*machine, space, address) == Err::<Seq<u8>, WatchFault>(
                error@,
            ),
        },
{
    match space {
        MemorySpace::Program => Err(WatchError::ProgramSpaceUnsupported),
        MemorySpace::Data => {
            let start = address.address as usize;
            if start <= machine.data.len() {
                let bytes = slice_subrange(machine.data.as_slice(), start, machine.data.len());
                Ok(bytes)
            } else {
                Err(WatchError::EndOfMemory)
            }
        },
    }
}

/// The value that the bytes at a place decode to.
fn read_value(space: MemorySpace, address: Pointer, data_type: &DataType, machine: &MachineState) -> (value:
    Result<WatchState, WatchError>)
    ensures
        match value {
            Ok(state) => value_at(*machine, space, address, *data_type) == Ok::<
                WatchValue,
                WatchFault,
            >(state@),
            Err(error) => value_at(*machine, space, address, *data_type) == Err::<
                WatchValue,
                WatchFault,
            >(error@),
        },
{
    match read_current_memory_address(space, address, machine) {
        Ok(bytes) => data_type.as_watch_state_from_bytes(bytes),
        Err(error) => Err(error),
    }
}

/// What a watch shows of a register.
fn read_register(register: u8, port_index: Option<u8>) -> (value: WatchState)
    ensures
        value@ == register_value(register, port_index),
{
    match port_index {
        Some(index) => WatchState::HighLowBit(bit_set(register, index)),
        None => WatchState::IoRegisterStatus(register),
    }
}

impl Watch {
    /// The value that the watch has in `machine`.
    pub fn current_value(&self, machine: &MachineState, watchable_symbols: &[WatchableSymbol]) -> (value:
        Result<WatchState, WatchError>)
        ensures
            match value {
                Ok(state) => value_of(self@, *machine, symbol_views(watchable_symbols@)) == Ok::<
                    WatchValue,
                    WatchFault,
                >(state@),
                Err(error) => value_of(self@, *machine, symbol_views(watchable_symbols@)) == Err::<
                    WatchValue,
                    WatchFault,
                >(error@),
            },
            value matches Ok(state) ==> state@.showable(),
    {
        proof {
            lemma_value_of_showable(self@, *machine, symbol_views(watchable_symbols@));
        }
        match self {
            Watch::MemoryAddress { space, address, data_type } => read_value(
                *space,
                *address,
                data_type,
                machine,
            ),
            Watch::Symbol { name, data_type } => {
                match find_symbol(watchable_symbols, name.as_str()) {
                    Some(symbol) => read_value(
                        symbol.memory_space,
                        symbol.address,
                        data_type,
                        machine,
                    ),
                    None => Err(WatchError::SymbolNotFound { name: name.clone() }),
                }
            },
            Watch::IoPort { port_letter, port_index } => {
                match machine.io_state(*port_letter) {
                    Some(state) => Ok(read_register(state.port, *port_index)),
                    None => Err(WatchError::PortUnavailable { port_letter: *port_letter }),
                }
            },
            Watch::IoPin { port_letter, port_index } => {
                match machine.io_state(*port_letter) {
                    Some(state) => Ok(read_register(state.pin, *port_index)),
                    None => Err(WatchError::PortUnavailable { port_letter: *port_letter }),
                }
            },
            Watch::IoDataDirectionRegister { port_letter, port_index } => {
                match machine.io_state(*port_letter) {
                    Some(state) => Ok(read_register(state.data_direction_register, *port_index)),
                    None => Err(WatchError::PortUnavailable { port_letter: *port_letter }),
                }
            },
        }
    }
}

} // verus!
