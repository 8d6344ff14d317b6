use avr_sim::avr_print::{
    Config, PrintError, WriteBufferFlags, INITIALIZED, READY_FOR_WRITE, SEND_BUFFER,
    SEND_BUFFER_FLAGS,
};
use avr_sim::command_line::{
    parse_cmd_line, parse_watches, print_warnings_for_unresolved_watches, Arguments, CommandLine,
};
use avr_sim::data_type::DataType;
use avr_sim::dump::{after_cycle, dump_onchanged_watches, dump_values, dump_watch, Report};
use avr_sim::mcu::{State, Step};
use avr_sim::error::{ParseError, WatchError};
use avr_sim::machine::{IoState, MachineState, PortSample};
use avr_sim::pointer::Pointer;
use avr_sim::snapshot::{
    get_changed_watches, get_current_values, Failure, Sample, Snapshot,
};
use avr_sim::space::MemorySpace;
use avr_sim::symbols::WatchableSymbol;
use avr_sim::value::WatchState;
use avr_sim::watch::{parse_watch, Watch};

fn at(address: u32) -> Watch {
    Watch::MemoryAddress {
        space: MemorySpace::Data,
        address: Pointer { address, natural_radix: 10 },
        data_type: DataType::U8,
    }
}

fn symbol_watch(name: &str) -> Watch {
    Watch::Symbol { name: name.to_owned(), data_type: DataType::U8 }
}

fn symbol(name: &str, address: u32) -> WatchableSymbol {
    WatchableSymbol {
        name: name.to_owned(),
        memory_space: MemorySpace::Data,
        address: Pointer { address, natural_radix: 16 },
    }
}

fn machine(data: Vec<u8>) -> MachineState {
    MachineState {
        data,
        ports: vec![PortSample {
            port_letter: 'B',
            state: IoState { port: 1, pin: 2, data_direction_register: 3 },
        }],
    }
}

fn snapshot(entries: Vec<(Watch, WatchState)>) -> Snapshot {
    let mut snapshot = Snapshot::new();
    for (watch, value) in entries {
        snapshot.insert(watch, value);
    }
    snapshot
}

fn lines(texts: &[&str]) -> Vec<String> {
    texts.iter().map(|text| text.to_string()).collect()
}

#[test]
fn equal_values_are_not_reported_as_changed() {
    let prior = snapshot(vec![(at(1), WatchState::U8(3))]);
    let fresh = snapshot(vec![(at(1), WatchState::U8(3))]);
    assert!(get_changed_watches(&prior, &fresh).is_empty());
}

#[test]
fn a_new_value_is_reported_as_changed() {
    let prior = snapshot(vec![(at(1), WatchState::U8(3))]);
    let fresh = snapshot(vec![(at(1), WatchState::U8(4))]);
    let changed = get_changed_watches(&prior, &fresh);
    assert_eq!(changed.entries, vec![Sample { watch: at(1), value: WatchState::U8(4) }]);
}

#[test]
fn only_the_changed_watches_are_reported_in_order() {
    let prior = snapshot(vec![
        (at(3), WatchState::U8(1)),
        (at(1), WatchState::U8(1)),
        (at(2), WatchState::U8(1)),
        (at(4), WatchState::U8(1)),
    ]);
    let fresh = snapshot(vec![
        (at(4), WatchState::U8(9)),
        (at(2), WatchState::U8(1)),
        (at(1), WatchState::U8(7)),
        (at(3), WatchState::U8(1)),
    ]);
    let changed = get_changed_watches(&prior, &fresh);
    assert_eq!(
        changed.entries,
        vec![
            Sample { watch: at(1), value: WatchState::U8(7) },
            Sample { watch: at(4), value: WatchState::U8(9) },
        ]
    );
    assert!(get_changed_watches(&fresh, &fresh).is_empty());
}

#[test]
fn snapshots_hold_each_watch_once_in_order() {
    let mut samples = Snapshot::new();
    assert!(samples.is_empty());
    samples.insert(symbol_watch("b"), WatchState::U8(1));
    samples.insert(at(9), WatchState::U8(2));
    samples.insert(Watch::IoPin { port_letter: 'A', port_index: None }, WatchState::U8(3));
    samples.insert(at(2), WatchState::U8(4));
    samples.insert(symbol_watch("b"), WatchState::U8(5));
    samples.insert(symbol_watch("a"), WatchState::U8(6));
    assert_eq!(samples.len(), 5);
    let watches: Vec<Watch> = samples.entries.iter().map(|sample| sample.watch.clone()).collect();
    let mut sorted = watches.clone();
    sorted.sort();
    sorted.dedup();
    assert_eq!(watches, sorted);
    assert_eq!(
        samples.entries[3],
        Sample { watch: symbol_watch("b"), value: WatchState::U8(5) }
    );
    let copy = snapshot(samples.entries.iter().map(|s| (s.watch.clone(), s.value.clone())).collect());
    assert!(samples.same_watches_as(&copy));
    assert!(!samples.same_watches_as(&Snapshot::new()));
}

#[test]
fn current_values_leave_out_what_fails() {
    let watches = vec![at(2), symbol_watch("missing"), at(0), at(100), at(2), symbol_watch("known")];
    let symbols = vec![symbol("known", 1)];
    let current = get_current_values(&watches, &symbols, &machine(vec![5, 6, 7]));
    assert_eq!(
        current.values.entries,
        vec![
            Sample { watch: at(0), value: WatchState::U8(5) },
            Sample { watch: at(2), value: WatchState::U8(7) },
            Sample { watch: symbol_watch("known"), value: WatchState::U8(6) },
        ]
    );
    assert_eq!(
        current.failures,
        vec![
            Failure {
                watch: symbol_watch("missing"),
                error: WatchError::SymbolNotFound { name: "missing".to_owned() },
            },
            Failure { watch: at(100), error: WatchError::EndOfMemory },
        ]
    );
}

#[test]
fn the_order_of_watches_is_the_derived_order() {
    let texts = [
        "datamem=1=u8",
        "datamem=1=char",
        "datamem=0x1=u8",
        "datamem=2=null_terminated=u8",
        "datamem=2=null_terminated=null_terminated=char",
        "datamem=2=null_terminated=i128",
        "datamem=300=i8",
        "a=u8",
        "ab=u8",
        "ab=i8",
        "b=char",
        "\u{e9}=u8",
        "z=u8",
        "=u8",
        "io=A",
        "io=A0",
        "io=B7",
        "io=a9",
    ];
    let mut watches: Vec<Watch> = Vec::new();
    for text in texts {
        watches.extend(parse_watch(text).unwrap());
    }
    watches.push(Watch::MemoryAddress {
        space: MemorySpace::Program,
        address: Pointer { address: 5, natural_radix: 10 },
        data_type: DataType::HighLowBit,
    });
    watches.push(Watch::IoPort { port_letter: '\u{10ffff}', port_index: Some(255) });
    for a in &watches {
        for b in &watches {
            assert_eq!(a.precedes(b), a < b, "{:?} before {:?}", a, b);
            assert_eq!(a.same_as(b), a == b, "{:?} same as {:?}", a, b);
        }
    }
}

#[test]
fn a_waiting_byte_is_taken_once() {
    let symbols = vec![symbol(SEND_BUFFER, 2), symbol("other", 0), symbol(SEND_BUFFER_FLAGS, 4)];
    let config = Config::new(&symbols).unwrap();
    let mut machine = machine(vec![0, 0, b'h', 0, INITIALIZED, 0]);
    assert_eq!(config.consume_byte(&mut machine), Ok(Some(b'h')));
    assert_eq!(machine.data, vec![0, 0, 0, 0, INITIALIZED | READY_FOR_WRITE, 0]);
    assert_eq!(config.consume_byte(&mut machine), Ok(None));
    assert_eq!(machine.data, vec![0, 0, 0, 0, INITIALIZED | READY_FOR_WRITE, 0]);
    // The program writes the next byte and clears the flag.
    machine.data[2] = b'i';
    machine.data[4] = INITIALIZED;
    assert_eq!(config.consume_character(&mut machine), Ok(Some('i')));
    assert_eq!(config.consume_character(&mut machine), Ok(None));
    assert_eq!(machine.data[2], 0);
    assert_eq!(machine.ports.len(), 1);
}

#[test]
fn no_byte_waits_before_the_mailbox_is_set_up() {
    let symbols = vec![symbol(SEND_BUFFER_FLAGS, 1), symbol(SEND_BUFFER, 0)];
    let config = Config::new(&symbols).unwrap();
    for flags in [0, READY_FOR_WRITE, INITIALIZED | READY_FOR_WRITE] {
        let mut machine = machine(vec![b'x', flags]);
        assert_eq!(config.consume_byte(&mut machine), Ok(None));
        assert_eq!(machine.data, vec![b'x', flags]);
    }
}

#[test]
fn a_broken_mailbox_is_an_error() {
    let config = Config::new(&[symbol(SEND_BUFFER, 0), symbol(SEND_BUFFER_FLAGS, 1)]).unwrap();
    let mut corrupted = machine(vec![b'x', 0b0000_0101]);
    assert_eq!(config.consume_byte(&mut corrupted), Err(PrintError::FlagsCorrupted));
    assert_eq!(corrupted.data, vec![b'x', 0b0000_0101]);
    let mut short = machine(vec![b'x']);
    assert_eq!(config.consume_byte(&mut short), Err(PrintError::FlagsUnallocated));
    let mut empty = machine(vec![]);
    assert_eq!(config.consume_byte(&mut empty), Err(PrintError::EndOfMemory));

    let far = Config::new(&[symbol(SEND_BUFFER, 2), symbol(SEND_BUFFER_FLAGS, 0)]).unwrap();
    let mut unallocated = machine(vec![INITIALIZED, 0]);
    assert_eq!(far.consume_byte(&mut unallocated), Err(PrintError::BufferUnallocated));
    assert_eq!(unallocated.data, vec![INITIALIZED, 0]);
    let mut behind = machine(vec![INITIALIZED]);
    assert_eq!(far.consume_byte(&mut behind), Err(PrintError::EndOfMemory));
    // A buffer behind the end does no harm while no byte waits.
    let mut idle = machine(vec![INITIALIZED | READY_FOR_WRITE]);
    assert_eq!(far.consume_byte(&mut idle), Ok(None));

    assert_eq!(
        PrintError::FlagsCorrupted.message(),
        "the debug write buffer flag variable is corrupted"
    );
    assert_eq!(
        PrintError::FlagsUnallocated.message(),
        "the debug write buffer flag has no allocated space"
    );
    assert_eq!(
        PrintError::BufferUnallocated.message(),
        "the debug write buffer has no allocated space"
    );
    assert_eq!(PrintError::EndOfMemory.message(), "end of memory");
}

#[test]
fn the_mailbox_needs_both_symbols() {
    assert_eq!(Config::new(&[]).unwrap_err(), PrintError::MissingSendBuffer);
    assert_eq!(
        Config::new(&[symbol(SEND_BUFFER_FLAGS, 1)]).unwrap_err(),
        PrintError::MissingSendBuffer
    );
    assert_eq!(
        Config::new(&[symbol(SEND_BUFFER, 1)]).unwrap_err(),
        PrintError::MissingSendBufferFlags
    );
    assert_eq!(
        PrintError::MissingSendBuffer.message(),
        format!(
            "the AVR executable does not contain the libavrlit special symbol '{}'",
            "__AVR_SIM_SEND_BUFFER"
        )
    );
    assert_eq!(
        PrintError::MissingSendBufferFlags.message(),
        format!(
            "the AVR executable does not contain the libavrlit special symbol '{}'",
            SEND_BUFFER_FLAGS
        )
    );
    let config =
        Config::new(&[symbol(SEND_BUFFER, 7), symbol(SEND_BUFFER_FLAGS, 8), symbol(SEND_BUFFER, 9)])
            .unwrap();
    assert_eq!(config.symbol_for_send_buffer, symbol(SEND_BUFFER, 7));
    assert_eq!(config.symbol_for_send_buffer_flags, symbol(SEND_BUFFER_FLAGS, 8));
}

#[test]
fn flags_hold_two_bits() {
    assert_eq!(WriteBufferFlags::from_bits(0), Some(WriteBufferFlags { bits: 0 }));
    assert_eq!(WriteBufferFlags::from_bits(3), Some(WriteBufferFlags { bits: 3 }));
    assert_eq!(WriteBufferFlags::from_bits(4), None);
    assert_eq!(WriteBufferFlags::from_bits(0x81), None);
    let flags = WriteBufferFlags::from_bits(INITIALIZED).unwrap();
    assert!(flags.contains(INITIALIZED));
    assert!(!flags.contains(READY_FOR_WRITE));
    assert_eq!(flags.bits(), 1);
}

fn command_line(before: Vec<Watch>, on_change: Vec<Watch>, after: Vec<Watch>) -> CommandLine {
    CommandLine {
        executable_path: Some("program.elf".to_owned()),
        print_before: before,
        print_on_change: on_change,
        print_after: after,
        gdb_server_port: None,
    }
}

#[test]
fn an_unknown_symbol_is_warned_of_once_and_dropped() {
    let mut command_line = command_line(
        vec![symbol_watch("ghost"), at(1), symbol_watch("known")],
        vec![symbol_watch("ghost"), symbol_watch("known")],
        vec![at(2), symbol_watch("ghost")],
    );
    let symbols = vec![symbol("known", 0)];
    let warnings = print_warnings_for_unresolved_watches(&mut command_line, &symbols);
    assert_eq!(
        warnings,
        lines(&[
            "the symbol 'ghost' does not exist in the ELF file, or the ELF file contains no debug information"
        ])
    );
    assert_eq!(command_line.print_before, vec![at(1), symbol_watch("known")]);
    assert_eq!(command_line.print_on_change, vec![symbol_watch("known")]);
    assert_eq!(command_line.print_after, vec![at(2)]);
    assert_eq!(command_line.executable_path, Some("program.elf".to_owned()));

    // Nothing is left to warn of, and no cycle fails on the symbol.
    assert!(print_warnings_for_unresolved_watches(&mut command_line, &symbols).is_empty());
    let machine = machine(vec![1, 2, 3]);
    let mut prior = get_current_values(&command_line.print_on_change, &symbols, &machine).values;
    for cycle in 0..100 {
        let report =
            dump_onchanged_watches(&mut prior, &command_line, &symbols, &machine, cycle).unwrap();
        assert!(report.failures.is_empty());
        assert!(report.lines.is_empty());
    }
}

#[test]
fn warnings_come_in_the_order_of_the_watches() {
    let other_type = Watch::Symbol { name: "a".to_owned(), data_type: DataType::Char };
    let mut command_line = command_line(
        vec![symbol_watch("c"), symbol_watch("a")],
        vec![other_type.clone(), symbol_watch("b"), symbol_watch("c")],
        vec![symbol_watch("a")],
    );
    let warnings = print_warnings_for_unresolved_watches(&mut command_line, &[symbol("b", 0)]);
    let warning = |name: &str| {
        format!(
            "the symbol '{}' does not exist in the ELF file, or the ELF file contains no debug information",
            name
        )
    };
    // The two watches on `a` differ in their type, so each is warned of.
    assert_eq!(warnings, vec![warning("a"), warning("a"), warning("c")]);
    assert!(command_line.print_before.is_empty());
    assert_eq!(command_line.print_on_change, vec![symbol_watch("b")]);
    assert!(command_line.print_after.is_empty());
}

#[test]
fn the_lists_are_made_of_the_options() {
    let texts = |list: &[&str]| -> Vec<String> { list.iter().map(|s| s.to_string()).collect() };
    let arguments = Arguments {
        watch: texts(&["w=u8"]),
        print_before: texts(&["b=u8"]),
        print_on_change: texts(&["c=u8"]),
        print_after: texts(&["a=u8"]),
        print_before_after: texts(&["io=B"]),
        executable_path: Some("firmware.elf".to_owned()),
        gdb: true,
    };
    let found = parse_cmd_line(arguments).unwrap();
    let io = parse_watch("io=B").unwrap();
    let mut before = vec![symbol_watch("b")];
    before.extend(io.clone());
    before.push(symbol_watch("w"));
    let mut after = vec![symbol_watch("a")];
    after.extend(io);
    after.push(symbol_watch("w"));
    assert_eq!(found.print_before, before);
    assert_eq!(found.print_after, after);
    assert_eq!(found.print_on_change, vec![symbol_watch("c"), symbol_watch("w")]);
    assert_eq!(found.gdb_server_port, Some(1234));
    assert_eq!(found.executable_path, Some("firmware.elf".to_owned()));
}

#[test]
fn a_text_that_is_no_watch_fails_the_command_line() {
    let texts = |list: &[&str]| -> Vec<String> { list.iter().map(|s| s.to_string()).collect() };
    let arguments = Arguments {
        watch: texts(&[]),
        print_before: texts(&["b=u8", "oops"]),
        print_on_change: texts(&["c=u7"]),
        print_after: texts(&[]),
        print_before_after: texts(&[]),
        executable_path: None,
        gdb: false,
    };
    assert_eq!(
        parse_cmd_line(arguments),
        Err(ParseError::InvalidWatchable { text: "oops".to_owned() })
    );
    assert_eq!(parse_watches(&texts(&[])), Ok(vec![]));
    assert_eq!(
        parse_watches(&texts(&["x=u8", "datamem=1", "nothing"])),
        Err(ParseError::MissingDataType)
    );
    let empty = Arguments {
        watch: vec![],
        print_before: vec![],
        print_on_change: vec![],
        print_after: vec![],
        print_before_after: vec![],
        executable_path: None,
        gdb: false,
    };
    let found = parse_cmd_line(empty).unwrap();
    assert_eq!(found.gdb_server_port, None);
    assert!(found.print_before.is_empty());
}

#[test]
fn values_are_reported_under_a_heading() {
    let watches = vec![at(1), symbol_watch("missing"), at(0)];
    let report = dump_values("before_execution", &watches, &[], &machine(vec![5, 6]));
    assert_eq!(
        report.lines,
        lines(&[
            "",
            "Dumping all before execution",
            "============================",
            "",
            "before_execution(1 (data memory)) = 6",
            "before_execution(0 (data memory)) = 5",
        ])
    );
    assert_eq!(
        report.failures,
        vec![Failure {
            watch: symbol_watch("missing"),
            error: WatchError::SymbolNotFound { name: "missing".to_owned() },
        }]
    );
    assert_eq!(
        dump_values("after_execution", &[], &[], &machine(vec![])),
        Report { lines: vec![], failures: vec![] }
    );
    assert_eq!(
        dump_watch("now", &at(0), &[], &machine(vec![9])),
        Ok(lines(&["now(0 (data memory)) = 9"]))
    );
    assert_eq!(dump_watch("now", &at(1), &[], &machine(vec![9])), Err(WatchError::EndOfMemory));
}

#[test]
fn changes_are_reported_with_their_cycle() {
    let command_line = command_line(vec![], vec![at(1), at(0), at(50)], vec![]);
    let before = machine(vec![1, 2]);
    let mut prior = get_current_values(&command_line.print_on_change, &[], &before).values;

    let same = dump_onchanged_watches(&mut prior, &command_line, &[], &before, 7).unwrap();
    assert!(same.lines.is_empty());
    assert_eq!(same.failures, vec![Failure { watch: at(50), error: WatchError::EndOfMemory }]);

    let after = machine(vec![1, 3]);
    let report = dump_onchanged_watches(&mut prior, &command_line, &[], &after, 12).unwrap();
    assert_eq!(
        report.lines,
        lines(&[
            "",
            "Dumping watches values changed in CPU cycle #12",
            "===============================================",
            "",
            "changed(1 (data memory)) = 3",
        ])
    );
    assert_eq!(
        prior.entries,
        vec![
            Sample { watch: at(0), value: WatchState::U8(1) },
            Sample { watch: at(1), value: WatchState::U8(3) },
        ]
    );
    let again = dump_onchanged_watches(&mut prior, &command_line, &[], &after, 13).unwrap();
    assert!(again.lines.is_empty());
}

#[test]
fn a_sample_of_other_watches_is_not_compared() {
    let command_line = command_line(vec![], vec![at(0), at(1)], vec![]);
    let mut prior = get_current_values(&command_line.print_on_change, &[], &machine(vec![1, 2])).values;
    let shorter = machine(vec![1]);
    assert_eq!(dump_onchanged_watches(&mut prior, &command_line, &[], &shorter, 1), None);
    assert_eq!(prior.len(), 2);
}

#[test]
fn a_cycle_samples_the_watches_before_it_takes_the_byte() {
    let symbols = vec![symbol(SEND_BUFFER, 0), symbol(SEND_BUFFER_FLAGS, 1)];
    let config = Some(Config::new(&symbols).unwrap());
    let command_line = command_line(vec![], vec![at(0), at(2)], vec![]);
    let mut machine = machine(vec![0, INITIALIZED | READY_FOR_WRITE, 5]);
    let mut prior = get_current_values(&command_line.print_on_change, &symbols, &machine).values;

    // The program writes a byte and changes a variable.
    machine.data = vec![b'!', INITIALIZED, 6];
    let cycle =
        after_cycle(&mut prior, &config, &command_line, &symbols, &mut machine, 40, State::Running);
    assert_eq!(cycle.printed, Ok(Some('!')));
    assert_eq!(cycle.step, Step::Continue);
    assert_eq!(machine.data, vec![0, INITIALIZED | READY_FOR_WRITE, 6]);
    assert_eq!(
        cycle.report.unwrap().lines,
        lines(&[
            "",
            "Dumping watches values changed in CPU cycle #40",
            "===============================================",
            "",
            "changed(0 (data memory)) = 33",
            "changed(2 (data memory)) = 6",
        ])
    );

    // In the next cycle the payload is seen as cleared, and no byte waits.
    let cycle =
        after_cycle(&mut prior, &config, &command_line, &symbols, &mut machine, 41, State::Done);
    assert_eq!(cycle.printed, Ok(None));
    assert_eq!(cycle.step, Step::Finish);
    assert_eq!(
        cycle.report.unwrap().lines,
        lines(&[
            "",
            "Dumping watches values changed in CPU cycle #41",
            "===============================================",
            "",
            "changed(0 (data memory)) = 0",
        ])
    );

    // Without a mailbox nothing is taken.
    machine.data = vec![b'?', INITIALIZED, 6];
    let cycle =
        after_cycle(&mut prior, &None, &command_line, &symbols, &mut machine, 42, State::Crashed);
    assert_eq!(cycle.printed, Ok(None));
    assert_eq!(cycle.step, Step::Crash);
    assert_eq!(machine.data, vec![b'?', INITIALIZED, 6]);
}

#[test]
fn the_run_goes_on_until_the_simulation_is_done_or_has_crashed() {
    assert_eq!(State::Limbo.step(), Step::Continue);
    assert_eq!(State::Stopped.step(), Step::Continue);
    assert_eq!(State::Running.step(), Step::Continue);
    assert_eq!(State::Sleeping.step(), Step::Continue);
    assert_eq!(State::Step.step(), Step::Continue);
    assert_eq!(State::StepDone.step(), Step::Continue);
    assert_eq!(State::Done.step(), Step::Finish);
    assert_eq!(State::Crashed.step(), Step::Crash);
}
