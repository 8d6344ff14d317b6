use avr_sim::data_type::DataType;
use avr_sim::error::{missing_symbol_message, WatchError};
use avr_sim::evaluate::read_current_memory_address;
use avr_sim::machine::{
    avr_ioctl_def, avr_ioctl_ioport_get_state, bit_set, ioctl, uart, IoState, MachineState,
    PortSample,
};
use avr_sim::mcu::{McuState, State};
use avr_sim::pointer::Pointer;
use avr_sim::space::MemorySpace;
use avr_sim::symbols::{find_symbol, WatchableSymbol};
use avr_sim::value::WatchState;
use avr_sim::watch::Watch;

fn machine() -> MachineState {
    MachineState {
        data: vec![10, 20, 30, 0, 0x34, 0x12],
        ports: vec![
            PortSample {
                port_letter: 'B',
                state: IoState { port: 0b0000_0101, pin: 0b1000_0000, data_direction_register: 0xff },
            },
            PortSample {
                port_letter: 'D',
                state: IoState { port: 1, pin: 2, data_direction_register: 3 },
            },
            PortSample {
                port_letter: 'B',
                state: IoState { port: 9, pin: 9, data_direction_register: 9 },
            },
        ],
    }
}

fn symbols() -> Vec<WatchableSymbol> {
    vec![
        WatchableSymbol {
            name: "counter".to_owned(),
            memory_space: MemorySpace::Data,
            address: Pointer { address: 4, natural_radix: 16 },
        },
        WatchableSymbol {
            name: "main".to_owned(),
            memory_space: MemorySpace::Program,
            address: Pointer { address: 0, natural_radix: 16 },
        },
        WatchableSymbol {
            name: "counter".to_owned(),
            memory_space: MemorySpace::Data,
            address: Pointer { address: 0, natural_radix: 16 },
        },
    ]
}

fn at(address: u32, data_type: DataType) -> Watch {
    Watch::MemoryAddress {
        space: MemorySpace::Data,
        address: Pointer { address, natural_radix: 10 },
        data_type,
    }
}

#[test]
fn memory_is_read_from_the_address_on() {
    let machine = machine();
    assert_eq!(at(0, DataType::U8).current_value(&machine, &symbols()), Ok(WatchState::U8(10)));
    assert_eq!(at(1, DataType::U8).current_value(&machine, &symbols()), Ok(WatchState::U8(20)));
    assert_eq!(at(4, DataType::U16).current_value(&machine, &symbols()), Ok(WatchState::U16(0x1234)));
    assert_eq!(
        at(0, DataType::NullTerminated(Box::new(DataType::U8))).current_value(&machine, &symbols()),
        Ok(WatchState::Array {
            elements: vec![WatchState::U8(10), WatchState::U8(20), WatchState::U8(30)],
            data_type: DataType::U8,
        })
    );
    assert_eq!(
        read_current_memory_address(MemorySpace::Data, Pointer { address: 2, natural_radix: 10 }, &machine),
        Ok(&[30u8, 0, 0x34, 0x12][..])
    );
}

#[test]
fn reading_past_the_end_is_end_of_memory() {
    let machine = machine();
    assert_eq!(
        at(5, DataType::U16).current_value(&machine, &symbols()),
        Err(WatchError::EndOfMemory)
    );
    assert_eq!(at(6, DataType::U8).current_value(&machine, &symbols()), Err(WatchError::EndOfMemory));
    assert_eq!(at(7, DataType::U8).current_value(&machine, &symbols()), Err(WatchError::EndOfMemory));
    assert_eq!(
        at(u32::MAX, DataType::U8).current_value(&machine, &symbols()),
        Err(WatchError::EndOfMemory)
    );
    assert_eq!(
        read_current_memory_address(MemorySpace::Data, Pointer { address: 6, natural_radix: 10 }, &machine),
        Ok(&[][..])
    );
    assert_eq!(
        read_current_memory_address(MemorySpace::Data, Pointer { address: 7, natural_radix: 10 }, &machine),
        Err(WatchError::EndOfMemory)
    );
    assert_eq!(WatchError::EndOfMemory.message(), "end of memory");
}

#[test]
fn program_space_cannot_be_read() {
    let machine = machine();
    let watch = Watch::MemoryAddress {
        space: MemorySpace::Program,
        address: Pointer { address: 0, natural_radix: 10 },
        data_type: DataType::U8,
    };
    assert_eq!(
        watch.current_value(&machine, &symbols()),
        Err(WatchError::ProgramSpaceUnsupported)
    );
    let symbol = Watch::Symbol { name: "main".to_owned(), data_type: DataType::U8 };
    assert_eq!(
        symbol.current_value(&machine, &symbols()),
        Err(WatchError::ProgramSpaceUnsupported)
    );
    assert_eq!(
        WatchError::ProgramSpaceUnsupported.message(),
        "watches on program space are not implemented"
    );
}

#[test]
fn symbols_are_found_by_exact_name() {
    let machine = machine();
    let symbols = symbols();
    let watch = Watch::Symbol { name: "counter".to_owned(), data_type: DataType::U16 };
    assert_eq!(watch.current_value(&machine, &symbols), Ok(WatchState::U16(0x1234)));
    assert_eq!(find_symbol(&symbols, "counter"), Some(&symbols[0]));
    assert_eq!(find_symbol(&symbols, "Counter"), None);
    let missing = Watch::Symbol { name: "Counter".to_owned(), data_type: DataType::U16 };
    let error = missing.current_value(&machine, &symbols).unwrap_err();
    assert_eq!(error, WatchError::SymbolNotFound { name: "Counter".to_owned() });
    assert_eq!(
        error.message(),
        "the symbol 'Counter' does not exist in the ELF file, or the ELF file contains no debug information"
    );
    assert_eq!(error.message(), missing_symbol_message("Counter"));
}

#[test]
fn io_watches_read_the_registers_of_their_port() {
    let machine = machine();
    let none = symbols();
    let value = |watch: Watch| watch.current_value(&machine, &none);
    assert_eq!(
        value(Watch::IoPort { port_letter: 'B', port_index: None }),
        Ok(WatchState::IoRegisterStatus(0b0000_0101))
    );
    assert_eq!(
        value(Watch::IoPin { port_letter: 'B', port_index: None }),
        Ok(WatchState::IoRegisterStatus(0b1000_0000))
    );
    assert_eq!(
        value(Watch::IoDataDirectionRegister { port_letter: 'B', port_index: None }),
        Ok(WatchState::IoRegisterStatus(0xff))
    );
    assert_eq!(
        value(Watch::IoPort { port_letter: 'D', port_index: None }),
        Ok(WatchState::IoRegisterStatus(1))
    );
    assert_eq!(
        value(Watch::IoPort { port_letter: 'B', port_index: Some(0) }),
        Ok(WatchState::HighLowBit(true))
    );
    assert_eq!(
        value(Watch::IoPort { port_letter: 'B', port_index: Some(1) }),
        Ok(WatchState::HighLowBit(false))
    );
    assert_eq!(
        value(Watch::IoPort { port_letter: 'B', port_index: Some(2) }),
        Ok(WatchState::HighLowBit(true))
    );
    assert_eq!(
        value(Watch::IoPin { port_letter: 'B', port_index: Some(7) }),
        Ok(WatchState::HighLowBit(true))
    );
    assert_eq!(
        value(Watch::IoDataDirectionRegister { port_letter: 'D', port_index: Some(1) }),
        Ok(WatchState::HighLowBit(true))
    );
    assert_eq!(
        value(Watch::IoDataDirectionRegister { port_letter: 'D', port_index: Some(2) }),
        Ok(WatchState::HighLowBit(false))
    );
    // A byte has no ninth bit.
    assert_eq!(
        value(Watch::IoDataDirectionRegister { port_letter: 'B', port_index: Some(8) }),
        Ok(WatchState::HighLowBit(false))
    );
    let error = value(Watch::IoPort { port_letter: 'C', port_index: None }).unwrap_err();
    assert_eq!(error, WatchError::PortUnavailable { port_letter: 'C' });
    assert_eq!(error.message(), "avr ioctl failed for port 'C'");
}

#[test]
fn bits_of_a_byte() {
    assert!(bit_set(0b0001_0000, 4));
    assert!(!bit_set(0b0001_0000, 3));
    assert!(bit_set(0xff, 7));
    assert!(!bit_set(0xff, 8));
    assert!(!bit_set(0xff, 255));
}

#[test]
fn ioctl_codes_pack_four_bytes() {
    assert_eq!(avr_ioctl_def('i', 'o', 's', 'B'), 0x696f_7342);
    assert_eq!(avr_ioctl_ioport_get_state('D'), 0x696f_7344);
    assert_eq!(ioctl(1, 2, 3, 4), 0x0102_0304);
    assert_eq!(ioctl(0xff, 0, 0, 0), 0xff00_0000);
    assert_eq!(uart('0'), 0x7561_7230);
}

#[test]
fn the_first_reset_powers_on_and_later_ones_are_counted() {
    let mut state = McuState::default();
    assert_eq!(state, McuState { powered_on: false, reset_count: 0 });
    assert_eq!(state.has_reset(), false);
    state.on_reset();
    assert_eq!(state.powered_on, true);
    assert_eq!(state.reset_count, 0);
    assert_eq!(state.has_reset(), false);
    state.on_reset();
    assert_eq!(state.powered_on, true);
    assert_eq!(state.reset_count, 1);
    assert_eq!(state.has_reset(), true);
    state.on_reset();
    assert_eq!(state.reset_count, 2);
}

#[test]
fn simulator_states_are_numbered() {
    let states = [
        State::Limbo,
        State::Stopped,
        State::Running,
        State::Sleeping,
        State::Step,
        State::StepDone,
        State::Done,
        State::Crashed,
    ];
    for (code, state) in states.iter().enumerate() {
        assert_eq!(State::from(code as i32), *state);
    }
    let running: Vec<bool> = states.iter().map(|state| state.is_running()).collect();
    assert_eq!(running, vec![true, false, true, true, true, true, false, false]);
}
