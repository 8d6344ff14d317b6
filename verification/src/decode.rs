//! Decoding windows of simulated memory into typed values.

use vstd::prelude::*;
use vstd::slice::*;
use byteorder::ByteOrder;
use crate::data_type::DataType;
use crate::error::{WatchError, WatchFault};
use crate::value::{WatchState, WatchValue, lemma_array_view, lemma_values_of_push, values_of};

verus! {

/// The number that `bytes` spell when the first byte is the least significant.
pub open spec fn le_value(bytes: Seq<u8>) -> nat
    decreases bytes.len(),
{
    if bytes.len() == 0 {
        0
    } else {
        bytes[0] as nat + 256 * le_value(bytes.skip(1))
    }
}

/// The signed number whose two's complement pattern, `bits` wide, is `pattern`.
pub open spec fn signed_value(pattern: nat, bits: nat) -> int {
    if pattern < vstd::arithmetic::power2::pow2((bits - 1) as nat) {
        pattern as int
    } else {
        pattern - vstd::arithmetic::power2::pow2(bits)
    }
}

/// The index of the first zero byte, or the length where there is none.
pub open spec fn first_zero(bytes: Seq<u8>) -> int
    decreases bytes.len(),
{
    if bytes.len() == 0 {
        0
    } else if bytes[0] == 0 {
        0
    } else {
        1 + first_zero(bytes.skip(1))
    }
}

impl DataType {
    /// The number of bytes that a value of a fixed-width type takes; 0 for a sequence.
    pub open spec fn width(self) -> nat {
        match self {
            DataType::NullTerminated(_) => 0,
            DataType::U16 | DataType::I16 => 2,
            DataType::U32 | DataType::I32 => 4,
            DataType::U64 | DataType::I64 => 8,
            DataType::U128 | DataType::I128 => 16,
            _ => 1,
        }
    }

    /// The value of a fixed-width type that `bytes`, exactly as wide, hold.
    /// (Of a sequence type, which has no width, the empty sequence.)
    pub open spec fn scalar(self, bytes: Seq<u8>) -> WatchValue {
        match self {
            DataType::Char => WatchValue::Char(bytes[0] as char),
            DataType::U8 => WatchValue::U8(bytes[0]),
            DataType::I8 => WatchValue::I8(signed_value(le_value(bytes), 8) as i8),
            DataType::U16 => WatchValue::U16(le_value(bytes) as u16),
            DataType::I16 => WatchValue::I16(signed_value(le_value(bytes), 16) as i16),
            DataType::U32 => WatchValue::U32(le_value(bytes) as u32),
            DataType::I32 => WatchValue::I32(signed_value(le_value(bytes), 32) as i32),
            DataType::U64 => WatchValue::U64(le_value(bytes) as u64),
            DataType::I64 => WatchValue::I64(signed_value(le_value(bytes), 64) as i64),
            DataType::U128 => WatchValue::U128(le_value(bytes) as u128),
            DataType::I128 => WatchValue::I128(signed_value(le_value(bytes), 128) as i128),
            DataType::HighLowBit => WatchValue::HighLowBit(bytes[0] != 0),
            DataType::IoRegisterStatus => WatchValue::IoRegisterStatus(bytes[0]),
            DataType::NullTerminated(inner) => WatchValue::Array {
                elements: Seq::empty(),
                data_type: *inner,
            },
        }
    }

    /// What decoding `bytes` as this type gives: the value and the bytes that
    /// are left, or `None` where the bytes end too early.
    ///
    /// A fixed-width type takes its width from the front. A sequence reaches
    /// to the first zero byte: its elements are decoded from the bytes up to
    /// and including that zero, and what is left starts at the zero. Without
    /// a zero byte the sequence is empty and nothing is left.
    pub open spec fn decode(self, bytes: Seq<u8>) -> Option<(WatchValue, Seq<u8>)>
        decreases self, 0nat, 0nat,
    {
        match self {
            DataType::NullTerminated(inner) => {
                let zero = first_zero(bytes);
                if zero < bytes.len() {
                    match inner.decode_elements(bytes.take(zero + 1)) {
                        Some(elements) => Some(
                            (WatchValue::Array { elements, data_type: *inner }, bytes.skip(zero)),
                        ),
                        None => None,
                    }
                } else {
                    Some(
                        (
                            WatchValue::Array { elements: Seq::empty(), data_type: *inner },
                            Seq::empty(),
                        ),
                    )
                }
            },
            _ => {
                if bytes.len() >= self.width() {
                    Some(
                        (
                            self.scalar(bytes.take(self.width() as int)),
                            bytes.skip(self.width() as int),
                        ),
                    )
                } else {
                    None
                }
            },
        }
    }

    /// The elements of this type that `window` holds: one is decoded after
    /// another for as long as more than one byte is left, so that a lone
    /// last byte, the terminator, is never an element.
    ///
    /// An element that took no byte would end the elements with a failure.
    /// None does in the window of a sequence, which holds no zero byte
    /// before its last: see `lemma_decode_elements_step`.
    pub open spec fn decode_elements(self, window: Seq<u8>) -> Option<Seq<WatchValue>>
        decreases self, 1nat, window.len(),
    {
        if window.len() <= 1 {
            Some(Seq::empty())
        } else {
            match self.decode(window) {
                Some((element, rest)) => {
                    if rest.len() < window.len() {
                        match self.decode_elements(rest) {
                            Some(elements) => Some(seq![element] + elements),
                            None => None,
                        }
                    } else {
                        None
                    }
                },
                None => None,
            }
        }
    }
}

/// `first_zero` lies within the bytes, no byte before it is zero, and the
/// byte at it is zero where it lies before the end.
pub proof fn lemma_first_zero(bytes: Seq<u8>)
    ensures
        0 <= first_zero(bytes) <= bytes.len(),
        forall|j: int| 0 <= j < first_zero(bytes) ==> bytes[j] != 0,
        first_zero(bytes) < bytes.len() ==> bytes[first_zero(bytes)] == 0,
    decreases bytes.len(),
{
    if bytes.len() > 0 && bytes[0] != 0 {
        let tail = bytes.skip(1);
        lemma_first_zero(tail);
        assert forall|j: int| 0 <= j < first_zero(bytes) implies bytes[j] != 0 by {
            if j > 0 {
                assert(tail[j - 1] == bytes[j]);
            }
        }
    }
}

/// An index with no zero byte before it, and a zero byte at it or the end of
/// the bytes, is `first_zero`.
pub proof fn lemma_first_zero_is(bytes: Seq<u8>, index: int)
    requires
        0 <= index <= bytes.len(),
        forall|j: int| 0 <= j < index ==> bytes[j] != 0,
        index < bytes.len() ==> bytes[index] == 0,
    ensures
        first_zero(bytes) == index,
{
    lemma_first_zero(bytes);
}

/// What decoding leaves is an end piece of the bytes, and a shorter one
/// where the bytes start with a byte that is not zero.
pub proof fn lemma_decode_rest(data_type: DataType, bytes: Seq<u8>)
    ensures
        data_type.decode(bytes) matches Some((_, rest)) ==> {
            &&& rest.len() <= bytes.len()
            &&& rest == bytes.skip(bytes.len() - rest.len())
            &&& bytes.len() > 0 && bytes[0] != 0 ==> rest.len() < bytes.len()
        },
{
    lemma_first_zero(bytes);
    match data_type {
        DataType::NullTerminated(inner) => {
            let zero = first_zero(bytes);
            if zero < bytes.len() {
                assert(bytes.skip(zero).len() == bytes.len() - zero);
            } else {
                assert(bytes.skip(bytes.len() as int) =~= Seq::<u8>::empty());
            }
        },
        _ => {},
    }
}

/// In a window that starts with a byte that is not zero, the elements are
/// the first element and the elements of what it leaves.
pub proof fn lemma_decode_elements_step(data_type: DataType, window: Seq<u8>)
    requires
        window.len() > 1,
        window[0] != 0,
    ensures
        data_type.decode_elements(window) == match data_type.decode(window) {
            Some((element, rest)) => followed_by(seq![element], data_type.decode_elements(rest)),
            None => None,
        },
{
    reveal_with_fuel(DataType::decode_elements, 2);
    lemma_decode_rest(data_type, window);
}

/// The elements found so far, followed by those still to come.
pub open spec fn followed_by(found: Seq<WatchValue>, coming: Option<Seq<WatchValue>>) -> Option<
    Seq<WatchValue>,
> {
    match coming {
        Some(elements) => Some(found + elements),
        None => None,
    }
}

/// Finds the first zero byte.
fn find_zero(bytes: &[u8]) -> (index: usize)
    ensures
        index == first_zero(bytes@),
{
    let mut index: usize = 0;
    while index < bytes.len() && bytes[index] != 0
        invariant
            index <= bytes.len(),
            forall|j: int| 0 <= j < index ==> bytes@[j] != 0,
        decreases bytes.len() - index,
    {
        index += 1;
    }
    proof {
        lemma_first_zero_is(bytes@, index as int);
    }
    index
}

/// `byteorder::LittleEndian::read_u16`: the first two bytes, least significant first.
#[verifier::external_body]
fn read_u16(buf: &[u8]) -> (value: u16)
    requires
        buf@.len() >= 2,
    ensures
        value == le_value(buf@.take(2)),
{
    byteorder::LittleEndian::read_u16(buf)
}

/// `byteorder::LittleEndian::read_i16`: the first two bytes, least significant
/// first, as a two's complement number.
#[verifier::external_body]
fn read_i16(buf: &[u8]) -> (value: i16)
    requires
        buf@.len() >= 2,
    ensures
        value == signed_value(le_value(buf@.take(2)), 16),
{
    byteorder::LittleEndian::read_i16(buf)
}

/// `byteorder::LittleEndian::read_u32`: the first four bytes, least significant first.
#[verifier::external_body]
fn read_u32(buf: &[u8]) -> (value: u32)
    requires
        buf@.len() >= 4,
    ensures
        value == le_value(buf@.take(4)),
{
    byteorder::LittleEndian::read_u32(buf)
}

/// `byteorder::LittleEndian::read_i32`: the first four bytes, least significant
/// first, as a two's complement number.
#[verifier::external_body]
fn read_i32(buf: &[u8]) -> (value: i32)
    requires
        buf@.len() >= 4,
    ensures
        value == signed_value(le_value(buf@.take(4)), 32),
{
    byteorder::LittleEndian::read_i32(buf)
}

/// `byteorder::LittleEndian::read_u64`: the first eight bytes, least significant first.
#[verifier::external_body]
fn read_u64(buf: &[u8]) -> (value: u64)
    requires
        buf@.len() >= 8,
    ensures
        value == le_value(buf@.take(8)),
{
    byteorder::LittleEndian::read_u64(buf)
}

/// `byteorder::LittleEndian::read_i64`: the first eight bytes, least significant
/// first, as a two's complement number.
#[verifier::external_body]
fn read_i64(buf: &[u8]) -> (value: i64)
    requires
        buf@.len() >= 8,
    ensures
        value == signed_value(le_value(buf@.take(8)), 64),
{
    byteorder::LittleEndian::read_i64(buf)
}

/// `byteorder::LittleEndian::read_u128`: the first sixteen bytes, least significant first.
#[verifier::external_body]
fn read_u128(buf: &[u8]) -> (value: u128)
    requires
        buf@.len() >= 16,
    ensures
        value == le_value(buf@.take(16)),
{
    byteorder::LittleEndian::read_u128(buf)
}

/// `byteorder::LittleEndian::read_i128`: the first sixteen bytes, least
/// significant first, as a two's complement number.
#[verifier::external_body]
fn read_i128(buf: &[u8]) -> (value: i128)
    requires
        buf@.len() >= 16,
    ensures
        value == signed_value(le_value(buf@.take(16)), 128),
{
    byteorder::LittleEndian::read_i128(buf)
}

/// The bytes after the first `count`.
fn after<'b>(bytes: &'b [u8], count: usize) -> (rest: &'b [u8])
    requires
        count <= bytes@.len(),
    ensures
        rest@ == bytes@.skip(count as int),
{
    slice_subrange(bytes, count, bytes.len())
}

/// One byte read as a signed number.
fn signed_byte(byte: u8) -> (value: i8)
    ensures
        value == signed_value(le_value(seq![byte]), 8),
{
    let value = #[verifier::truncate] (byte as i8);
    proof {
        reveal_with_fuel(le_value, 2);
        vstd::arithmetic::power2::lemma2_to64();
        assert(value as int == if byte < 128 { byte as int } else { byte as int - 256 })
            by (bit_vector)
            requires
                value == byte as i8,
        ;
    }
    value
}

impl DataType {
    /// Decodes the value at the start of `bytes`.
    pub fn as_watch_state_from_bytes(&self, bytes: &[u8]) -> (result: Result<WatchState, WatchError>)
        ensures
            match self.decode(bytes@) {
                Some((value, _)) => result matches Ok(state) && state@ == value,
                None => result matches Err(error) && error@ == WatchFault::EndOfMemory,
            },
    {
        match self.as_watch_state_from_bytes_internal(bytes) {
            Ok((state, _)) => Ok(state),
            Err(error) => Err(error),
        }
    }

    /// Decodes the value at the start of `bytes`, and hands back the bytes
    /// that the value did not take.
    pub fn as_watch_state_from_bytes_internal<'b>(&self, bytes: &'b [u8]) -> (result: Result<
        (WatchState, &'b [u8]),
        WatchError,
    >)
        ensures
            match self.decode(bytes@) {
                Some((value, rest)) => result matches Ok((state, left)) && state@ == value && left@
                    == rest,
                None => result matches Err(error) && error@ == WatchFault::EndOfMemory,
            },
        decreases *self,
    {
        match self {
            DataType::NullTerminated(element_type) => {
                let mut elements: Vec<WatchState> = Vec::new();
                let zero = find_zero(bytes);
                proof {
                    lemma_first_zero(bytes@);
                    reveal_with_fuel(DataType::decode_elements, 2);
                }
                let left_over = if zero < bytes.len() {
                    let window = slice_subrange(bytes, 0, zero + 1);
                    let mut left = window;
                    let ghost mut taken: int = 0;
                    proof {
                        assert(window@ =~= bytes@.take(zero + 1));
                        assert(window@.skip(0) =~= window@);
                    }
                    while left.len() > 1
                        invariant
                            *self == DataType::NullTerminated(*element_type),
                            zero == first_zero(bytes@),
                            zero < bytes@.len(),
                            window@ == bytes@.take(zero + 1),
                            window@.len() == zero + 1,
                            forall|j: int| 0 <= j < zero ==> window@[j] != 0,
                            0 <= taken <= window@.len(),
                            left@ == window@.skip(taken),
                            element_type.decode_elements(window@) == followed_by(
                                values_of(elements@),
                                element_type.decode_elements(left@),
                            ),
                            decreases_to!(*self => **element_type),
                        decreases left@.len(),
                    {
                        proof {
                            lemma_decode_rest(**element_type, left@);
                            reveal_with_fuel(DataType::decode_elements, 2);
                        }
                        match element_type.as_watch_state_from_bytes_internal(left) {
                            Ok((element, remaining)) => {
                                proof {
                                    lemma_values_of_push(elements@, element);
                                    let rest = element_type.decode_elements(remaining@);
                                    if rest is Some {
                                        assert(values_of(elements@) + (seq![element@] + rest->0)
                                            =~= values_of(elements@).push(element@) + rest->0);
                                    }
                                    assert(window@.skip(taken).skip(left@.len() - remaining@.len())
                                        =~= window@.skip(taken + left@.len() - remaining@.len()));
                                    taken = taken + left@.len() - remaining@.len();
                                }
                                elements.push(element);
                                left = remaining;
                            },
                            Err(error) => {
                                return Err(error);
                            },
                        }
                    }
                    after(bytes, zero)
                } else {
                    after(bytes, bytes.len())
                };
                let data_type: DataType = (**element_type).clone();
                let state = WatchState::Array { elements, data_type };
                proof {
                    lemma_array_view(elements, data_type);
                    assert(values_of(Seq::<WatchState>::empty()) =~= Seq::<WatchValue>::empty());
                    assert(bytes@.skip(bytes@.len() as int) =~= Seq::<u8>::empty());
                    assert(forall|found: Seq<WatchValue>| found + Seq::<WatchValue>::empty() =~= found);
                }
                Ok((state, left_over))
            },
            DataType::U16 => {
                if bytes.len() < 2 {
                    return Err(WatchError::EndOfMemory);
                }
                proof {
                    assert(bytes@.take(2).take(2) =~= bytes@.take(2));
                }
                Ok((WatchState::U16(read_u16(bytes)), after(bytes, 2)))
            },
            DataType::I16 => {
                if bytes.len() < 2 {
                    return Err(WatchError::EndOfMemory);
                }
                Ok((WatchState::I16(read_i16(bytes)), after(bytes, 2)))
            },
            DataType::U32 => {
                if bytes.len() < 4 {
                    return Err(WatchError::EndOfMemory);
                }
                Ok((WatchState::U32(read_u32(bytes)), after(bytes, 4)))
            },
            DataType::I32 => {
                if bytes.len() < 4 {
                    return Err(WatchError::EndOfMemory);
                }
                Ok((WatchState::I32(read_i32(bytes)), after(bytes, 4)))
            },
            DataType::U64 => {
                if bytes.len() < 8 {
                    return Err(WatchError::EndOfMemory);
                }
                Ok((WatchState::U64(read_u64(bytes)), after(bytes, 8)))
            },
            DataType::I64 => {
                if bytes.len() < 8 {
                    return Err(WatchError::EndOfMemory);
                }
                Ok((WatchState::I64(read_i64(bytes)), after(bytes, 8)))
            },
            DataType::U128 => {
                if bytes.len() < 16 {
                    return Err(WatchError::EndOfMemory);
                }
                Ok((WatchState::U128(read_u128(bytes)), after(bytes, 16)))
            },
            DataType::I128 => {
                if bytes.len() < 16 {
                    return Err(WatchError::EndOfMemory);
                }
                Ok((WatchState::I128(read_i128(bytes)), after(bytes, 16)))
            },
            _ => {
                if bytes.len() < 1 {
                    return Err(WatchError::EndOfMemory);
                }
                let byte = bytes[0];
                proof {
                    assert(bytes@.take(1) =~= seq![byte]);
                }
                let state = match self {
                    DataType::Char => WatchState::Char(byte as char),
                    DataType::U8 => WatchState::U8(byte),
                    DataType::I8 => WatchState::I8(signed_byte(byte)),
                    DataType::HighLowBit => WatchState::HighLowBit(byte != 0),
                    _ => WatchState::IoRegisterStatus(byte),
                };
                Ok((state, after(bytes, 1)))
            },
        }
    }
}

impl WatchValue {
    /// Whether the value has the shape of the type: the variant of a
    /// fixed-width type, or a sequence whose elements have the shape of the
    /// element type.
    pub open spec fn has_type(self, data_type: DataType) -> bool
        decreases self,
    {
        match self {
            WatchValue::Char(_) => data_type == DataType::Char,
            WatchValue::Array { elements, data_type: element_type } => data_type
                == DataType::NullTerminated(Box::new(element_type)) && forall|i: int|
                0 <= i < elements.len() ==> (#[trigger] elements[i]).has_type(element_type),
            WatchValue::U8(_) => data_type == DataType::U8,
            WatchValue::U16(_) => data_type == DataType::U16,
            WatchValue::U32(_) => data_type == DataType::U32,
            WatchValue::U64(_) => data_type == DataType::U64,
            WatchValue::U128(_) => data_type == DataType::U128,
            WatchValue::I8(_) => data_type == DataType::I8,
            WatchValue::I16(_) => data_type == DataType::I16,
            WatchValue::I32(_) => data_type == DataType::I32,
            WatchValue::I64(_) => data_type == DataType::I64,
            WatchValue::I128(_) => data_type == DataType::I128,
            WatchValue::HighLowBit(_) => data_type == DataType::HighLowBit,
            WatchValue::IoRegisterStatus(_) => data_type == DataType::IoRegisterStatus,
        }
    }
}

/// A decoded value has the shape of the type it was decoded as.
pub proof fn lemma_decode_typed(data_type: DataType, bytes: Seq<u8>)
    ensures
        data_type.decode(bytes) matches Some((value, _)) ==> value.has_type(data_type),
    decreases data_type, 0nat, 0nat,
{
    reveal_with_fuel(DataType::decode, 2);
    match data_type {
        DataType::NullTerminated(inner) => {
            let zero = first_zero(bytes);
            if zero < bytes.len() {
                lemma_decode_elements_typed(*inner, bytes.take(zero + 1));
            }
        },
        _ => {},
    }
}

/// Decoded elements have the shape of the element type.
pub proof fn lemma_decode_elements_typed(data_type: DataType, window: Seq<u8>)
    ensures
        data_type.decode_elements(window) matches Some(elements) ==> forall|i: int|
            0 <= i < elements.len() ==> (#[trigger] elements[i]).has_type(data_type),
    decreases data_type, 1nat, window.len(),
{
    reveal_with_fuel(DataType::decode_elements, 2);
    if window.len() > 1 {
        lemma_decode_typed(data_type, window);
        if let Some((element, rest)) = data_type.decode(window) {
            if rest.len() < window.len() {
                lemma_decode_elements_typed(data_type, rest);
            }
        }
    }
}

/// A sequence read to its terminator leaves the bytes from the terminator
/// on: the zero byte is not taken.
pub proof fn lemma_sequence_stops_at_terminator(element_type: DataType, bytes: Seq<u8>)
    requires
        first_zero(bytes) < bytes.len(),
    ensures
        DataType::NullTerminated(Box::new(element_type)).decode(bytes) matches Some((_, rest))
            ==> rest == bytes.skip(first_zero(bytes)) && rest.len() > 0 && rest[0] == 0,
{
    lemma_first_zero(bytes);
}

} // verus!
