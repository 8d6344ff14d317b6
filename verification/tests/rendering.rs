use avr_sim::data_type::DataType;
use avr_sim::pointer::Pointer;
use avr_sim::report::{dump_value, print_heading, split_lines};
use avr_sim::space::MemorySpace;
use avr_sim::text::{push_number, push_signed};
use avr_sim::value::WatchState;
use avr_sim::watch::Watch;

fn debug_of(state: &WatchState) -> String {
    let mut text = String::new();
    state.push_debug(&mut text);
    text
}

#[test]
fn numbers_are_shown_in_base_ten() {
    assert_eq!(WatchState::U8(0).to_string(), "0");
    assert_eq!(WatchState::U8(42).to_string(), "42");
    assert_eq!(WatchState::U16(65535).to_string(), "65535");
    assert_eq!(WatchState::U32(1_000_000).to_string(), "1000000");
    assert_eq!(WatchState::U64(u64::MAX).to_string(), "18446744073709551615");
    assert_eq!(
        WatchState::U128(u128::MAX).to_string(),
        "340282366920938463463374607431768211455"
    );
    assert_eq!(WatchState::I8(-5).to_string(), "-5");
    assert_eq!(WatchState::I8(i8::MIN).to_string(), "-128");
    assert_eq!(WatchState::I16(-32768).to_string(), "-32768");
    assert_eq!(WatchState::I32(7).to_string(), "7");
    assert_eq!(WatchState::I64(i64::MIN).to_string(), "-9223372036854775808");
    assert_eq!(
        WatchState::I128(i128::MIN).to_string(),
        "-170141183460469231731687303715884105728"
    );
    assert_eq!(
        WatchState::I128(i128::MAX).to_string(),
        "170141183460469231731687303715884105727"
    );
}

#[test]
fn number_text_agrees_with_std() {
    for value in [0u128, 1, 9, 10, 11, 99, 100, 255, 256, 4095, 65536, u64::MAX as u128, u128::MAX] {
        let mut decimal = String::new();
        push_number(&mut decimal, value, 10);
        assert_eq!(decimal, format!("{}", value));
        let mut hexadecimal = String::from(">");
        push_number(&mut hexadecimal, value, 16);
        assert_eq!(hexadecimal, format!(">{:x}", value));
    }
    for value in [0i128, -1, 1, -10, 127, -128, i64::MIN as i128, i128::MIN, i128::MAX] {
        let mut text = String::from("=");
        push_signed(&mut text, value);
        assert_eq!(text, format!("={}", value));
    }
}

#[test]
fn characters_bits_and_registers_are_shown() {
    assert_eq!(WatchState::Char('x').to_string(), "x");
    assert_eq!(WatchState::Char('\n').to_string(), "\n");
    assert_eq!(WatchState::HighLowBit(true).to_string(), "HIGH");
    assert_eq!(WatchState::HighLowBit(false).to_string(), "LOW");
    assert_eq!(
        WatchState::IoRegisterStatus(0b0000_0101).to_string(),
        "0: HIGH, 1:  LOW, 2: HIGH, 3:  LOW, 4:  LOW, 5:  LOW, 6:  LOW, 7:  LOW, "
    );
    assert_eq!(
        WatchState::IoRegisterStatus(0x80).to_string(),
        "0:  LOW, 1:  LOW, 2:  LOW, 3:  LOW, 4:  LOW, 5:  LOW, 6:  LOW, 7: HIGH, "
    );
}

#[test]
fn sequences_of_characters_are_shown_as_quoted_text() {
    let text = WatchState::Array {
        elements: vec![WatchState::Char('A'), WatchState::Char('B')],
        data_type: DataType::Char,
    };
    assert_eq!(text.to_string(), "\"AB\"");
    let escaped = WatchState::Array {
        elements: vec![WatchState::Char('a'), WatchState::Char('"'), WatchState::Char('\n')],
        data_type: DataType::Char,
    };
    assert_eq!(escaped.to_string(), format!("{:?}", "a\"\n"));
    assert_eq!(escaped.to_string(), "\"a\\\"\\n\"");
    let empty = WatchState::Array { elements: vec![], data_type: DataType::Char };
    assert_eq!(empty.to_string(), "\"\"");
}

#[test]
fn other_sequences_are_shown_as_listings() {
    let elements = vec![WatchState::U16(513), WatchState::U16(3)];
    let numbers = WatchState::Array { elements: elements.clone(), data_type: DataType::U16 };
    assert_eq!(numbers.to_string(), "[U16(513), U16(3)]");
    assert_eq!(numbers.to_string(), format!("{:?}", elements));
    let empty = WatchState::Array { elements: vec![], data_type: DataType::I64 };
    assert_eq!(empty.to_string(), "[]");
    let one = WatchState::Array { elements: vec![WatchState::I8(-3)], data_type: DataType::I8 };
    assert_eq!(one.to_string(), "[I8(-3)]");
}

#[test]
fn listings_agree_with_the_derived_debug_format() {
    let values = vec![
        WatchState::Char('a'),
        WatchState::Char('\''),
        WatchState::Char('\u{7f}'),
        WatchState::U8(1),
        WatchState::U16(2),
        WatchState::U32(3),
        WatchState::U64(4),
        WatchState::U128(5),
        WatchState::I8(-1),
        WatchState::I16(-2),
        WatchState::I32(-3),
        WatchState::I64(-4),
        WatchState::I128(-5),
        WatchState::HighLowBit(true),
        WatchState::HighLowBit(false),
        WatchState::IoRegisterStatus(9),
        WatchState::Array {
            elements: vec![
                WatchState::Array { elements: vec![WatchState::U8(1)], data_type: DataType::U8 },
                WatchState::Array { elements: vec![], data_type: DataType::U8 },
            ],
            data_type: DataType::NullTerminated(Box::new(DataType::U8)),
        },
        WatchState::Array {
            elements: vec![],
            data_type: DataType::NullTerminated(Box::new(DataType::NullTerminated(Box::new(
                DataType::HighLowBit,
            )))),
        },
    ];
    for value in &values {
        assert_eq!(debug_of(value), format!("{:?}", value));
    }
    let all = WatchState::Array { elements: values.clone(), data_type: DataType::IoRegisterStatus };
    assert_eq!(all.to_string(), format!("{:?}", values));
    for data_type in [
        DataType::Char,
        DataType::U8,
        DataType::U16,
        DataType::U32,
        DataType::U64,
        DataType::U128,
        DataType::I8,
        DataType::I16,
        DataType::I32,
        DataType::I64,
        DataType::I128,
        DataType::HighLowBit,
        DataType::IoRegisterStatus,
    ] {
        let mut name = String::new();
        data_type.push_debug_name(&mut name);
        assert_eq!(name, format!("{:?}", data_type));
    }
}

#[test]
fn pointers_are_shown_in_their_base() {
    assert_eq!(Pointer { address: 999, natural_radix: 10 }.to_string(), "999");
    assert_eq!(Pointer { address: 0, natural_radix: 10 }.to_string(), "0");
    assert_eq!(Pointer { address: 0x1f, natural_radix: 16 }.to_string(), "0x1f");
    assert_eq!(Pointer { address: 0, natural_radix: 16 }.to_string(), "0x0");
    assert_eq!(Pointer { address: u32::MAX, natural_radix: 16 }.to_string(), "0xffffffff");
    assert_eq!(Pointer { address: u32::MAX, natural_radix: 10 }.to_string(), "4294967295");
}

#[test]
fn memory_spaces_have_labels() {
    assert_eq!(MemorySpace::Program.human_label(), "program memory");
    assert_eq!(MemorySpace::Data.human_label(), "data memory");
}

#[test]
fn locations_say_where_a_watch_looks() {
    let address = Watch::MemoryAddress {
        space: MemorySpace::Data,
        address: Pointer { address: 999, natural_radix: 10 },
        data_type: DataType::U8,
    };
    assert_eq!(address.location(), "999 (data memory)");
    let hexadecimal = Watch::MemoryAddress {
        space: MemorySpace::Program,
        address: Pointer { address: 1, natural_radix: 16 },
        data_type: DataType::U8,
    };
    assert_eq!(hexadecimal.location(), "0x1 (program memory)");
    let symbol = Watch::Symbol { name: "TEST_BUFFER".to_owned(), data_type: DataType::U8 };
    assert_eq!(symbol.location(), "TEST_BUFFER");
    assert_eq!(Watch::IoPort { port_letter: 'D', port_index: Some(3) }.location(), "IO PORTD3");
    assert_eq!(Watch::IoPort { port_letter: 'D', port_index: None }.location(), "IO PORTD");
    assert_eq!(Watch::IoPin { port_letter: 'E', port_index: None }.location(), "IO PINE");
    assert_eq!(
        Watch::IoDataDirectionRegister { port_letter: 'A', port_index: Some(0) }.location(),
        "IO DDRA0"
    );
}

#[test]
fn a_value_is_shown_on_one_line() {
    let watch = Watch::MemoryAddress {
        space: MemorySpace::Data,
        address: Pointer { address: 999, natural_radix: 10 },
        data_type: DataType::U8,
    };
    assert_eq!(
        dump_value("before_execution", &watch, &WatchState::U8(42)),
        vec!["before_execution(999 (data memory)) = 42".to_owned()]
    );
    let symbol = Watch::Symbol {
        name: "GREETING".to_owned(),
        data_type: DataType::NullTerminated(Box::new(DataType::Char)),
    };
    let value = WatchState::Array {
        elements: vec![WatchState::Char('h'), WatchState::Char('i')],
        data_type: DataType::Char,
    };
    assert_eq!(dump_value("changed", &symbol, &value), vec!["changed(GREETING) = \"hi\"".to_owned()]);
    assert_eq!(
        dump_value("changed", &symbol, &WatchState::Char('\n')),
        vec!["changed(GREETING) = \n".to_owned()]
    );
}

#[test]
fn headings_are_underlined() {
    assert_eq!(
        print_heading("Dumping all"),
        vec!["".to_owned(), "Dumping all".to_owned(), "===========".to_owned(), "".to_owned()]
    );
    assert_eq!(print_heading(""), vec!["".to_owned(), "".to_owned(), "".to_owned(), "".to_owned()]);
    // One sign for each byte of the heading.
    assert_eq!(print_heading("\u{e9}")[2], "==");
}

#[test]
fn split_lines_agrees_with_std() {
    for text in ["", "a", "a\nb", "a\r\nb\r\n", "\n", "\r\n", "a\r", "a\n\nb", "a\rb\n", "\n\n", "x\r\r\ny"] {
        let expected: Vec<String> = text.lines().map(str::to_owned).collect();
        assert_eq!(split_lines(text), expected);
    }
    assert_eq!(split_lines("one\r\ntwo\nthree"), vec!["one", "two", "three"]);
}
