//! Values as text.

use vstd::prelude::*;
use vstd::string::*;
use crate::data_type::DataType;
use crate::machine::{bit_is_set, bit_set};
use crate::text::{number_text, push_number, push_signed, signed_text};
use crate::value::{lemma_values_of, values_of, WatchState, WatchValue};

verus! {

/// What `std` writes for a character under `{:?}`: the character between
/// single quotes, escaped where it does not print as itself.
pub uninterp spec fn char_debug(c: char) -> Seq<char>;

/// What `std` writes for a text under `{:?}`: the text between double
/// quotes, with the characters escaped that do not print as themselves.
pub uninterp spec fn text_debug(text: Seq<char>) -> Seq<char>;

/// `format!` with `{:?}` on a `char`.
#[verifier::external_body]
fn format_char_debug(c: char) -> (text: String)
    ensures
        text@ == char_debug(c),
{
    format!("{:?}", c)
}

/// `format!` with `{:?}` on a `str`.
#[verifier::external_body]
pub(crate) fn format_text_debug(s: &str) -> (text: String)
    ensures
        text@ == text_debug(s@),
{
    format!("{:?}", s)
}

impl DataType {
    /// The name of the type as it is written in listings of values.
    pub open spec fn debug_name(self) -> Seq<char>
        decreases self,
    {
        match self {
            DataType::Char => "Char"@,
            DataType::NullTerminated(inner) => "NullTerminated("@ + inner.debug_name() + ")"@,
            DataType::U8 => "U8"@,
            DataType::U16 => "U16"@,
            DataType::U32 => "U32"@,
            DataType::U64 => "U64"@,
            DataType::U128 => "U128"@,
            DataType::I8 => "I8"@,
            DataType::I16 => "I16"@,
            DataType::I32 => "I32"@,
            DataType::I64 => "I64"@,
            DataType::I128 => "I128"@,
            DataType::HighLowBit => "HighLowBit"@,
            DataType::IoRegisterStatus => "IoRegisterStatus"@,
        }
    }

    /// Appends the name of the type as it is written in listings of values.
    pub fn push_debug_name(&self, out: &mut String)
        ensures
            final(out)@ == old(out)@ + self.debug_name(),
        decreases *self,
    {
        match self {
            DataType::NullTerminated(inner) => {
                out.append("NullTerminated(");
                inner.push_debug_name(out);
                out.append(")");
                proof {
                    assert(final(out)@ =~= old(out)@ + self.debug_name());
                }
            },
            DataType::Char => out.append("Char"),
            DataType::U8 => out.append("U8"),
            DataType::U16 => out.append("U16"),
            DataType::U32 => out.append("U32"),
            DataType::U64 => out.append("U64"),
            DataType::U128 => out.append("U128"),
            DataType::I8 => out.append("I8"),
            DataType::I16 => out.append("I16"),
            DataType::I32 => out.append("I32"),
            DataType::I64 => out.append("I64"),
            DataType::I128 => out.append("I128"),
            DataType::HighLowBit => out.append("HighLowBit"),
            DataType::IoRegisterStatus => out.append("IoRegisterStatus"),
        }
    }
}

/// How the bits of a register up to bit `count` are shown: for each bit its
/// index and `HIGH` or ` LOW`, each followed by a comma and a space.
pub open spec fn register_bits_text(register: u8, count: nat) -> Seq<char>
    decreases count,
{
    if count == 0 {
        Seq::empty()
    } else {
        let bit = (count - 1) as nat;
        register_bits_text(register, bit) + number_text(bit, 10) + ": "@ + (if bit_is_set(
            register,
            bit as u8,
        ) {
            "HIGH"@
        } else {
            " LOW"@
        }) + ", "@
    }
}

/// The characters of the elements that are characters, in place; an element
/// that is none counts as the character zero.
pub open spec fn characters_of(elements: Seq<WatchValue>) -> Seq<char> {
    Seq::new(
        elements.len(),
        |i: int|
            match elements[i] {
                WatchValue::Char(c) => c,
                _ => '\0',
            },
    )
}

impl WatchValue {
    /// The value as it is written in a listing of values: the name of its
    /// variant and, in brackets, what it holds.
    pub open spec fn debug(self) -> Seq<char>
        decreases self, 0nat,
    {
        match self {
            WatchValue::Char(c) => "Char("@ + char_debug(c) + ")"@,
            WatchValue::Array { elements, data_type } => "Array { elements: "@
                + WatchValue::debug_list(elements) + ", data_type: "@ + data_type.debug_name()
                + " }"@,
            WatchValue::U8(v) => "U8("@ + number_text(v as nat, 10) + ")"@,
            WatchValue::U16(v) => "U16("@ + number_text(v as nat, 10) + ")"@,
            WatchValue::U32(v) => "U32("@ + number_text(v as nat, 10) + ")"@,
            WatchValue::U64(v) => "U64("@ + number_text(v as nat, 10) + ")"@,
            WatchValue::U128(v) => "U128("@ + number_text(v as nat, 10) + ")"@,
            WatchValue::I8(v) => "I8("@ + signed_text(v as int) + ")"@,
            WatchValue::I16(v) => "I16("@ + signed_text(v as int) + ")"@,
            WatchValue::I32(v) => "I32("@ + signed_text(v as int) + ")"@,
            WatchValue::I64(v) => "I64("@ + signed_text(v as int) + ")"@,
            WatchValue::I128(v) => "I128("@ + signed_text(v as int) + ")"@,
            WatchValue::HighLowBit(b) => "HighLowBit("@ + (if b {
                "true"@
            } else {
                "false"@
            }) + ")"@,
            WatchValue::IoRegisterStatus(r) => "IoRegisterStatus("@ + number_text(r as nat, 10)
                + ")"@,
        }
    }

    /// The values as they are written one after another, with a comma and
    /// a space between two of them.
    pub open spec fn debug_items(elements: Seq<WatchValue>) -> Seq<char>
        decreases elements, 0nat,
    {
        if elements.len() == 0 {
            Seq::empty()
        } else if elements.len() == 1 {
            elements[0].debug()
        } else {
            WatchValue::debug_items(elements.drop_last()) + ", "@ + elements.last().debug()
        }
    }

    /// A listing of values: the values between square brackets.
    pub open spec fn debug_list(elements: Seq<WatchValue>) -> Seq<char>
        decreases elements, 1nat,
    {
        "["@ + WatchValue::debug_items(elements) + "]"@
    }

    /// Whether the value can be shown: a sequence of characters holds
    /// characters only.
    pub open spec fn showable(self) -> bool {
        self matches WatchValue::Array { elements, data_type: DataType::Char } ==> forall|i: int|
            0 <= i < elements.len() ==> (#[trigger] elements[i]) is Char
    }

    /// The value as it is shown in a report.
    ///
    /// A number is shown in base ten and a character as itself; a bit is
    /// `HIGH` or `LOW`; a register is shown bit by bit; a sequence of
    /// characters is shown as a quoted text, any other sequence as a listing.
    pub open spec fn text(self) -> Seq<char> {
        match self {
            WatchValue::Char(c) => seq![c],
            WatchValue::Array { elements, data_type } => {
                if data_type == DataType::Char {
                    text_debug(characters_of(elements))
                } else {
                    WatchValue::debug_list(elements)
                }
            },
            WatchValue::U8(v) => number_text(v as nat, 10),
            WatchValue::U16(v) => number_text(v as nat, 10),
            WatchValue::U32(v) => number_text(v as nat, 10),
            WatchValue::U64(v) => number_text(v as nat, 10),
            WatchValue::U128(v) => number_text(v as nat, 10),
            WatchValue::I8(v) => signed_text(v as int),
            WatchValue::I16(v) => signed_text(v as int),
            WatchValue::I32(v) => signed_text(v as int),
            WatchValue::I64(v) => signed_text(v as int),
            WatchValue::I128(v) => signed_text(v as int),
            WatchValue::HighLowBit(b) => if b {
                "HIGH"@
            } else {
                "LOW"@
            },
            WatchValue::IoRegisterStatus(r) => register_bits_text(r, 8),
        }
    }
}

/// One more value in a listing comes after a comma and a space, but for the first.
pub proof fn lemma_debug_items_push(elements: Seq<WatchValue>, element: WatchValue)
    ensures
        WatchValue::debug_items(elements.push(element)) == if elements.len() == 0 {
            element.debug()
        } else {
            WatchValue::debug_items(elements) + ", "@ + element.debug()
        },
{
    reveal_with_fuel(WatchValue::debug_items, 2);
    assert(elements.push(element).drop_last() =~= elements);
}

/// Appends a listing of values.
fn push_debug_list(elements: &Vec<WatchState>, out: &mut String)
    ensures
        final(out)@ == old(out)@ + WatchValue::debug_list(values_of(elements@)),
    decreases elements, 1nat,
{
    out.append("[");
    let mut i: usize = 0;
    proof {
        reveal_with_fuel(WatchValue::debug_items, 2);
        assert(elements@.take(0) =~= Seq::<WatchState>::empty());
        assert(out@ =~= old(out)@ + "["@ + WatchValue::debug_items(values_of(elements@.take(0))));
    }
    while i < elements.len()
        invariant
            i <= elements@.len(),
            out@ == old(out)@ + "["@ + WatchValue::debug_items(values_of(elements@.take(i as int))),
        decreases elements@.len() - i,
    {
        let ghost before = out@;
        let ghost done = values_of(elements@.take(i as int));
        if i > 0 {
            out.append(", ");
        }
        elements[i].push_debug(out);
        proof {
            lemma_values_of(elements@.take(i as int));
            lemma_values_of(elements@.take(i + 1));
            assert(values_of(elements@.take(i + 1)) =~= done.push(elements@[i as int]@));
            lemma_debug_items_push(done, elements@[i as int]@);
            if i > 0 {
                assert(out@ =~= old(out)@ + "["@ + (WatchValue::debug_items(done) + ", "@
                    + elements@[i as int]@.debug()));
            } else {
                assert(WatchValue::debug_items(done) =~= Seq::<char>::empty());
                assert(out@ =~= old(out)@ + "["@ + elements@[i as int]@.debug());
            }
        }
        i += 1;
    }
    out.append("]");
    proof {
        assert(elements@.take(elements@.len() as int) =~= elements@);
        reveal_with_fuel(WatchValue::debug_list, 2);
        assert(out@ =~= old(out)@ + ("["@ + WatchValue::debug_items(values_of(elements@)) + "]"@));
    }
}

/// Appends how the bits of a register are shown.
fn push_register_bits(register: u8, out: &mut String)
    ensures
        final(out)@ == old(out)@ + register_bits_text(register, 8),
{
    let mut bit: u8 = 0;
    proof {
        assert(out@ =~= old(out)@ + register_bits_text(register, 0));
    }
    while bit < 8
        invariant
            bit <= 8,
            out@ == old(out)@ + register_bits_text(register, bit as nat),
        decreases 8 - bit,
    {
        let ghost before = out@;
        push_number(out, bit as u128, 10);
        out.append(": ");
        if bit_set(register, bit) {
            out.append("HIGH");
        } else {
            out.append(" LOW");
        }
        out.append(", ");
        proof {
            assert(out@ =~= old(out)@ + register_bits_text(register, (bit + 1) as nat));
        }
        bit += 1;
    }
}

impl WatchState {
    /// Appends the value as it is written in a listing of values.
    pub fn push_debug(&self, out: &mut String)
        ensures
            final(out)@ == old(out)@ + self@.debug(),
        decreases self, 0nat,
    {
        proof {
            reveal_with_fuel(WatchValue::debug, 2);
        }
        match self {
            WatchState::Char(c) => {
                out.append("Char(");
                let quoted = format_char_debug(*c);
                out.append(quoted.as_str());
            },
            WatchState::Array { elements, data_type } => {
                out.append("Array { elements: ");
                push_debug_list(elements, out);
                out.append(", data_type: ");
                data_type.push_debug_name(out);
                out.append(" }");
                proof {
                    assert(final(out)@ =~= old(out)@ + self@.debug());
                }
                return ;
            },
            WatchState::U8(v) => {
                out.append("U8(");
                push_number(out, *v as u128, 10);
            },
            WatchState::U16(v) => {
                out.append("U16(");
                push_number(out, *v as u128, 10);
            },
            WatchState::U32(v) => {
                out.append("U32(");
                push_number(out, *v as u128, 10);
            },
            WatchState::U64(v) => {
                out.append("U64(");
                push_number(out, *v as u128, 10);
            },
            WatchState::U128(v) => {
                out.append("U128(");
                push_number(out, *v, 10);
            },
            WatchState::I8(v) => {
                out.append("I8(");
                push_signed(out, *v as i128);
            },
            WatchState::I16(v) => {
                out.append("I16(");
                push_signed(out, *v as i128);
            },
            WatchState::I32(v) => {
                out.append("I32(");
                push_signed(out, *v as i128);
            },
            WatchState::I64(v) => {
                out.append("I64(");
                push_signed(out, *v as i128);
            },
            WatchState::I128(v) => {
                out.append("I128(");
                push_signed(out, *v);
            },
            WatchState::HighLowBit(b) => {
                out.append("HighLowBit(");
                if *b {
                    out.append("true");
                } else {
                    out.append("false");
                }
            },
            WatchState::IoRegisterStatus(r) => {
                out.append("IoRegisterStatus(");
                push_number(out, *r as u128, 10);
            },
        }
        out.append(")");
        proof {
            assert(final(out)@ =~= old(out)@ + self@.debug());
        }
    }

    /// The value as it is shown in a report.
    pub fn to_string(&self) -> (text: String)
        requires
            self@.showable(),
        ensures
            text@ == self@.text(),
    {
        let mut text = String::new();
        match self {
            WatchState::Char(c) => text.push(*c),
            WatchState::Array { elements, data_type } => {
                if data_type.same_as(&DataType::Char) {
                    let mut characters = String::new();
                    let mut i: usize = 0;
                    proof {
                        lemma_values_of(elements@);
                    }
                    while i < elements.len()
                        invariant
                            i <= elements@.len(),
                            self@.showable(),
                            self@ matches WatchValue::Array { elements: shown, data_type: DataType::Char }
                                && shown == values_of(elements@),
                            characters@ == characters_of(values_of(elements@)).take(i as int),
                        decreases elements@.len() - i,
                    {
                        proof {
                            lemma_values_of(elements@);
                            assert(values_of(elements@)[i as int] is Char);
                        }
                        let c = match &elements[i] {
                            WatchState::Char(c) => *c,
                            _ => '\0',
                        };
                        characters.push(c);
                        proof {
                            assert(characters@ =~= characters_of(values_of(elements@)).take(i + 1));
                        }
                        i += 1;
                    }
                    proof {
                        assert(characters@ =~= characters_of(values_of(elements@)));
                    }
                    return format_text_debug(characters.as_str());
                } else {
                    push_debug_list(elements, &mut text);
                }
            },
            WatchState::U8(v) => push_number(&mut text, *v as u128, 10),
            WatchState::U16(v) => push_number(&mut text, *v as u128, 10),
            WatchState::U32(v) => push_number(&mut text, *v as u128, 10),
            WatchState::U64(v) => push_number(&mut text, *v as u128, 10),
            WatchState::U128(v) => push_number(&mut text, *v, 10),
            WatchState::I8(v) => push_signed(&mut text, *v as i128),
            WatchState::I16(v) => push_signed(&mut text, *v as i128),
            WatchState::I32(v) => push_signed(&mut text, *v as i128),
            WatchState::I64(v) => push_signed(&mut text, *v as i128),
            WatchState::I128(v) => push_signed(&mut text, *v),
            WatchState::HighLowBit(b) => {
                if *b {
                    text.append("HIGH");
                } else {
                    text.append("LOW");
                }
            },
            WatchState::IoRegisterStatus(r) => push_register_bits(*r, &mut text),
        }
        proof {
            assert(text@ =~= self@.text());
        }
        text
    }
}

} // verus!
