//! The values that watched locations decode to.

use vstd::prelude::*;
use crate::data_type::DataType;

verus! {

/// The value of a watched location, shaped like the `DataType` it was read as.
#[derive(Debug, PartialEq, Eq, PartialOrd, Ord)]
pub enum WatchState {
    Char(char),
    /// The elements of a null-terminated sequence, with their type.
    Array { elements: Vec<WatchState>, data_type: DataType },
    U8(u8),
    U16(u16),
    U32(u32),
    U64(u64),
    U128(u128),
    I8(i8),
    I16(i16),
    I32(i32),
    I64(i64),
    I128(i128),
    HighLowBit(bool),
    IoRegisterStatus(u8),
}

/// The mathematical value of a `WatchState`: the same shape, over sequences.
pub ghost enum WatchValue {
    Char(char),
    Array { elements: Seq<WatchValue>, data_type: DataType },
    U8(u8),
    U16(u16),
    U32(u32),
    U64(u64),
    U128(u128),
    I8(i8),
    I16(i16),
    I32(i32),
    I64(i64),
    I128(i128),
    HighLowBit(bool),
    IoRegisterStatus(u8),
}

impl View for WatchState {
    type V = WatchValue;

    open spec fn view(&self) -> WatchValue
        decreases self,
    {
        match self {
            WatchState::Char(c) => WatchValue::Char(*c),
            WatchState::Array { elements, data_type } => WatchValue::Array {
                elements: values_of(elements@),
                data_type: *data_type,
            },
            WatchState::U8(v) => WatchValue::U8(*v),
            WatchState::U16(v) => WatchValue::U16(*v),
            WatchState::U32(v) => WatchValue::U32(*v),
            WatchState::U64(v) => WatchValue::U64(*v),
            WatchState::U128(v) => WatchValue::U128(*v),
            WatchState::I8(v) => WatchValue::I8(*v),
            WatchState::I16(v) => WatchValue::I16(*v),
            WatchState::I32(v) => WatchValue::I32(*v),
            WatchState::I64(v) => WatchValue::I64(*v),
            WatchState::I128(v) => WatchValue::I128(*v),
            WatchState::HighLowBit(b) => WatchValue::HighLowBit(*b),
            WatchState::IoRegisterStatus(r) => WatchValue::IoRegisterStatus(*r),
        }
    }
}

/// The values of a run of states, one for one.
pub open spec fn values_of(states: Seq<WatchState>) -> Seq<WatchValue>
    decreases states,
{
    if states.len() == 0 {
        Seq::empty()
    } else {
        values_of(states.drop_last()).push(states.last()@)
    }
}

/// `values_of` keeps the length and takes the value of each state in place.
pub proof fn lemma_values_of(states: Seq<WatchState>)
    ensures
        values_of(states).len() == states.len(),
        forall|i: int| 0 <= i < states.len() ==> (#[trigger] values_of(states)[i]) == states[i]@,
    decreases states.len(),
{
    reveal_with_fuel(values_of, 2);
    if states.len() > 0 {
        lemma_values_of(states.drop_last());
    }
}

/// Appending a state appends its value.
pub proof fn lemma_values_of_push(states: Seq<WatchState>, state: WatchState)
    ensures
        values_of(states.push(state)) == values_of(states).push(state@),
{
    assert(states.push(state).drop_last() =~= states);
}

/// The value of an array is made of its type and the values of its elements.
pub proof fn lemma_array_view(elements: Vec<WatchState>, data_type: DataType)
    ensures
        (WatchState::Array { elements, data_type })@ == (WatchValue::Array {
            elements: values_of(elements@),
            data_type,
        }),
{
}

impl WatchState {
    /// Whether two states hold the same value.
    pub fn same_as(&self, other: &WatchState) -> (same: bool)
        ensures
            same == (self@ == other@),
        decreases self,
    {
        match (self, other) {
            (WatchState::Char(a), WatchState::Char(b)) => *a == *b,
            (
                WatchState::Array { elements: a, data_type: ta },
                WatchState::Array { elements: b, data_type: tb },
            ) => {
                if !ta.same_as(tb) || a.len() != b.len() {
                    proof {
                        lemma_values_of(a@);
                        lemma_values_of(b@);
                    }
                    return false;
                }
                let mut i: usize = 0;
                while i < a.len()
                    invariant
                        i <= a.len(),
                        a.len() == b.len(),
                        forall|j: int| 0 <= j < i ==> a[j]@ == b[j]@,
                        self@->elements == values_of(a@),
                        other@->elements == values_of(b@),
                        decreases_to!(self => a),
                    decreases a.len() - i,
                {
                    if !a[i].same_as(&b[i]) {
                        proof {
                            lemma_values_of(a@);
                            lemma_values_of(b@);
                            assert(values_of(a@)[i as int] == a[i as int]@);
                            assert(values_of(b@)[i as int] == b[i as int]@);
                        }
                        return false;
                    }
                    i += 1;
                }
                proof {
                    lemma_values_of(a@);
                    lemma_values_of(b@);
                    assert(values_of(a@) =~= values_of(b@));
                }
                true
            },
            (WatchState::U8(a), WatchState::U8(b)) => *a == *b,
            (WatchState::U16(a), WatchState::U16(b)) => *a == *b,
            (WatchState::U32(a), WatchState::U32(b)) => *a == *b,
            (WatchState::U64(a), WatchState::U64(b)) => *a == *b,
            (WatchState::U128(a), WatchState::U128(b)) => *a == *b,
            (WatchState::I8(a), WatchState::I8(b)) => *a == *b,
            (WatchState::I16(a), WatchState::I16(b)) => *a == *b,
            (WatchState::I32(a), WatchState::I32(b)) => *a == *b,
            (WatchState::I64(a), WatchState::I64(b)) => *a == *b,
            (WatchState::I128(a), WatchState::I128(b)) => *a == *b,
            (WatchState::HighLowBit(a), WatchState::HighLowBit(b)) => *a == *b,
            (WatchState::IoRegisterStatus(a), WatchState::IoRegisterStatus(b)) => *a == *b,
            _ => false,
        }
    }
}

impl Clone for WatchState {
    fn clone(&self) -> (copy: WatchState)
        ensures
            copy@ == self@,
        decreases self,
    {
        match self {
            WatchState::Char(c) => WatchState::Char(*c),
            WatchState::Array { elements, data_type } => {
                let mut copies: Vec<WatchState> = Vec::new();
                let mut i: usize = 0;
                while i < elements.len()
                    invariant
                        i <= elements@.len(),
                        copies@.len() == i,
                        forall|j: int| 0 <= j < i ==> (#[trigger] copies@[j])@ == elements@[j]@,
                        decreases_to!(self => elements),
                    decreases elements@.len() - i,
                {
                    let copy = elements[i].clone();
                    copies.push(copy);
                    i += 1;
                }
                proof {
                    lemma_values_of(elements@);
                    lemma_values_of(copies@);
                    assert(values_of(copies@) =~= values_of(elements@));
                }
                WatchState::Array { elements: copies, data_type: data_type.clone() }
            },
            WatchState::U8(v) => WatchState::U8(*v),
            WatchState::U16(v) => WatchState::U16(*v),
            WatchState::U32(v) => WatchState::U32(*v),
            WatchState::U64(v) => WatchState::U64(*v),
            WatchState::U128(v) => WatchState::U128(*v),
            WatchState::I8(v) => WatchState::I8(*v),
            WatchState::I16(v) => WatchState::I16(*v),
            WatchState::I32(v) => WatchState::I32(*v),
            WatchState::I64(v) => WatchState::I64(*v),
            WatchState::I128(v) => WatchState::I128(*v),
            WatchState::HighLowBit(b) => WatchState::HighLowBit(*b),
            WatchState::IoRegisterStatus(r) => WatchState::IoRegisterStatus(*r),
        }
    }
}

} // verus!
