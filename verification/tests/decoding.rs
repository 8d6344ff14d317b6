use avr_sim::data_type::DataType;
use avr_sim::error::WatchError;
use avr_sim::value::WatchState;

fn sequence_of(data_type: DataType) -> DataType {
    DataType::NullTerminated(Box::new(data_type))
}

#[test]
fn null_terminated_chars_stop_at_the_terminator() {
    let bytes = [0x41, 0x42, 0x00, 0xFF];
    let (state, rest) = sequence_of(DataType::Char).as_watch_state_from_bytes_internal(&bytes).unwrap();
    assert_eq!(
        state,
        WatchState::Array {
            elements: vec![WatchState::Char('A'), WatchState::Char('B')],
            data_type: DataType::Char,
        }
    );
    assert_eq!(rest, &[0x00, 0xFF]);
}

#[test]
fn u16_of_one_byte_is_end_of_memory() {
    let error = DataType::U16.as_watch_state_from_bytes(&[0x12]).unwrap_err();
    assert_eq!(error, WatchError::EndOfMemory);
    assert_eq!(error.message(), "end of memory");
}

#[test]
fn scalars_are_little_endian() {
    let bytes: Vec<u8> = (1..=16).collect();
    assert_eq!(DataType::U8.as_watch_state_from_bytes(&bytes), Ok(WatchState::U8(1)));
    assert_eq!(DataType::U16.as_watch_state_from_bytes(&bytes), Ok(WatchState::U16(0x0201)));
    assert_eq!(DataType::U32.as_watch_state_from_bytes(&bytes), Ok(WatchState::U32(0x0403_0201)));
    assert_eq!(
        DataType::U64.as_watch_state_from_bytes(&bytes),
        Ok(WatchState::U64(0x0807_0605_0403_0201))
    );
    assert_eq!(
        DataType::U128.as_watch_state_from_bytes(&bytes),
        Ok(WatchState::U128(0x100f_0e0d_0c0b_0a09_0807_0605_0403_0201))
    );
    assert_eq!(DataType::I16.as_watch_state_from_bytes(&bytes), Ok(WatchState::I16(0x0201)));
    assert_eq!(DataType::I32.as_watch_state_from_bytes(&bytes), Ok(WatchState::I32(0x0403_0201)));
    assert_eq!(
        DataType::I64.as_watch_state_from_bytes(&bytes),
        Ok(WatchState::I64(0x0807_0605_0403_0201))
    );
    assert_eq!(
        DataType::I128.as_watch_state_from_bytes(&bytes),
        Ok(WatchState::I128(0x100f_0e0d_0c0b_0a09_0807_0605_0403_0201))
    );
}

#[test]
fn signed_scalars_are_twos_complement() {
    let bytes = [0xfe, 0xff, 0xff, 0xff, 0xff, 0xff, 0xff, 0xff, 0xff, 0xff, 0xff, 0xff, 0xff, 0xff, 0xff, 0xff];
    assert_eq!(DataType::I8.as_watch_state_from_bytes(&bytes), Ok(WatchState::I8(-2)));
    assert_eq!(DataType::I16.as_watch_state_from_bytes(&bytes), Ok(WatchState::I16(-2)));
    assert_eq!(DataType::I32.as_watch_state_from_bytes(&bytes), Ok(WatchState::I32(-2)));
    assert_eq!(DataType::I64.as_watch_state_from_bytes(&bytes), Ok(WatchState::I64(-2)));
    assert_eq!(DataType::I128.as_watch_state_from_bytes(&bytes), Ok(WatchState::I128(-2)));
    assert_eq!(DataType::I8.as_watch_state_from_bytes(&[0x80]), Ok(WatchState::I8(-128)));
    assert_eq!(DataType::I8.as_watch_state_from_bytes(&[0x7f]), Ok(WatchState::I8(127)));
    assert_eq!(DataType::I16.as_watch_state_from_bytes(&[0x00, 0x80]), Ok(WatchState::I16(i16::MIN)));
    assert_eq!(DataType::U8.as_watch_state_from_bytes(&[0xfe]), Ok(WatchState::U8(254)));
}

#[test]
fn one_byte_types_read_the_first_byte() {
    assert_eq!(DataType::Char.as_watch_state_from_bytes(&[0x7a, 1]), Ok(WatchState::Char('z')));
    assert_eq!(DataType::Char.as_watch_state_from_bytes(&[0xe9]), Ok(WatchState::Char('\u{e9}')));
    assert_eq!(
        DataType::HighLowBit.as_watch_state_from_bytes(&[0]),
        Ok(WatchState::HighLowBit(false))
    );
    assert_eq!(
        DataType::HighLowBit.as_watch_state_from_bytes(&[4]),
        Ok(WatchState::HighLowBit(true))
    );
    assert_eq!(
        DataType::IoRegisterStatus.as_watch_state_from_bytes(&[0xa5]),
        Ok(WatchState::IoRegisterStatus(0xa5))
    );
}

#[test]
fn scalars_hand_back_what_they_did_not_take() {
    let bytes = [1, 2, 3, 4, 5];
    let (_, rest) = DataType::U8.as_watch_state_from_bytes_internal(&bytes).unwrap();
    assert_eq!(rest, &[2, 3, 4, 5]);
    let (_, rest) = DataType::I16.as_watch_state_from_bytes_internal(&bytes).unwrap();
    assert_eq!(rest, &[3, 4, 5]);
    let (_, rest) = DataType::U32.as_watch_state_from_bytes_internal(&bytes).unwrap();
    assert_eq!(rest, &[5]);
    let (_, rest) = DataType::Char.as_watch_state_from_bytes_internal(&bytes[4..]).unwrap();
    assert!(rest.is_empty());
}

#[test]
fn every_type_fails_on_too_few_bytes() {
    let cases = [
        (DataType::U8, 1),
        (DataType::I8, 1),
        (DataType::Char, 1),
        (DataType::HighLowBit, 1),
        (DataType::IoRegisterStatus, 1),
        (DataType::U16, 2),
        (DataType::I16, 2),
        (DataType::U32, 4),
        (DataType::I32, 4),
        (DataType::U64, 8),
        (DataType::I64, 8),
        (DataType::U128, 16),
        (DataType::I128, 16),
    ];
    let bytes = [7u8; 16];
    for (data_type, width) in cases {
        assert!(data_type.as_watch_state_from_bytes(&bytes[..width]).is_ok());
        assert_eq!(
            data_type.as_watch_state_from_bytes(&bytes[..width - 1]),
            Err(WatchError::EndOfMemory)
        );
    }
}

#[test]
fn sequence_without_terminator_is_empty() {
    let (state, rest) =
        sequence_of(DataType::U8).as_watch_state_from_bytes_internal(&[1, 2, 3]).unwrap();
    assert_eq!(state, WatchState::Array { elements: vec![], data_type: DataType::U8 });
    assert!(rest.is_empty());
    let (state, rest) = sequence_of(DataType::U32).as_watch_state_from_bytes_internal(&[]).unwrap();
    assert_eq!(state, WatchState::Array { elements: vec![], data_type: DataType::U32 });
    assert!(rest.is_empty());
}

#[test]
fn sequence_that_starts_with_the_terminator_is_empty() {
    let (state, rest) =
        sequence_of(DataType::Char).as_watch_state_from_bytes_internal(&[0, 65, 0]).unwrap();
    assert_eq!(state, WatchState::Array { elements: vec![], data_type: DataType::Char });
    assert_eq!(rest, &[0, 65, 0]);
}

#[test]
fn wide_elements_may_take_the_terminator() {
    // Two bytes before the terminator: one element, and the terminator is left.
    assert_eq!(
        sequence_of(DataType::U16).as_watch_state_from_bytes(&[1, 2, 0, 9]),
        Ok(WatchState::Array { elements: vec![WatchState::U16(0x0201)], data_type: DataType::U16 })
    );
    // Three bytes before the terminator: the second element takes the terminator.
    assert_eq!(
        sequence_of(DataType::U16).as_watch_state_from_bytes(&[1, 2, 3, 0, 9]),
        Ok(WatchState::Array {
            elements: vec![WatchState::U16(0x0201), WatchState::U16(0x0003)],
            data_type: DataType::U16,
        })
    );
    // An element that does not fit before the end of the window is an error.
    assert_eq!(
        sequence_of(DataType::U32).as_watch_state_from_bytes(&[1, 2, 0, 9, 9, 9]),
        Err(WatchError::EndOfMemory)
    );
    let (_, rest) =
        sequence_of(DataType::U16).as_watch_state_from_bytes_internal(&[1, 2, 3, 0, 9]).unwrap();
    assert_eq!(rest, &[0, 9]);
}

#[test]
fn sequences_nest() {
    let nested = sequence_of(sequence_of(DataType::U8));
    let (state, rest) = nested.as_watch_state_from_bytes_internal(&[5, 6, 0, 7]).unwrap();
    assert_eq!(
        state,
        WatchState::Array {
            elements: vec![WatchState::Array {
                elements: vec![WatchState::U8(5), WatchState::U8(6)],
                data_type: DataType::U8,
            }],
            data_type: sequence_of(DataType::U8),
        }
    );
    assert_eq!(rest, &[0, 7]);
}

#[test]
fn copies_and_comparisons_of_values() {
    let value = WatchState::Array {
        elements: vec![WatchState::I8(-1), WatchState::I8(3)],
        data_type: DataType::I8,
    };
    let copy = value.clone();
    assert_eq!(copy, value);
    assert!(value.same_as(&copy));
    let other = WatchState::Array {
        elements: vec![WatchState::I8(-1), WatchState::I8(4)],
        data_type: DataType::I8,
    };
    assert!(!value.same_as(&other));
    assert!(!value.same_as(&WatchState::I8(-1)));
    assert!(WatchState::U8(3).same_as(&WatchState::U8(3)));
    assert!(!WatchState::U8(3).same_as(&WatchState::U16(3)));
    assert!(DataType::U8.same_as(&DataType::U8));
    assert!(!sequence_of(DataType::U8).same_as(&sequence_of(DataType::I8)));
    assert_eq!(sequence_of(DataType::U8).clone(), sequence_of(DataType::U8));
}
