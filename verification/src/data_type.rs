//! The tag that says how the bytes of a watched location are read.

use vstd::prelude::*;
use vstd::string::*;
use crate::error::{ParseError, ParseFault};
use crate::text::{lemma_trimmed_is_piece, same_text, trim, trimmed, try_consume};

verus! {

/// How a window of bytes is interpreted.
#[derive(Debug, PartialEq, Eq, PartialOrd, Ord)]
pub enum DataType {
    /// One byte, shown as a character.
    Char,
    /// Elements of the inner type, ended by the first zero byte.
    NullTerminated(Box<DataType>),
    U8,
    U16,
    U32,
    U64,
    U128,
    I8,
    I16,
    I32,
    I64,
    I128,
    /// One bit of a register, high or low.
    HighLowBit,
    /// A raw register byte, shown bit by bit.
    IoRegisterStatus,
}

impl DataType {
    /// Whether two tags are the same tag.
    pub fn same_as(&self, other: &DataType) -> (same: bool)
        ensures
            same == (*self == *other),
        decreases *self,
    {
        match (self, other) {
            (DataType::Char, DataType::Char) => true,
            (DataType::NullTerminated(a), DataType::NullTerminated(b)) => a.same_as(b),
            (DataType::U8, DataType::U8) => true,
            (DataType::U16, DataType::U16) => true,
            (DataType::U32, DataType::U32) => true,
            (DataType::U64, DataType::U64) => true,
            (DataType::U128, DataType::U128) => true,
            (DataType::I8, DataType::I8) => true,
            (DataType::I16, DataType::I16) => true,
            (DataType::I32, DataType::I32) => true,
            (DataType::I64, DataType::I64) => true,
            (DataType::I128, DataType::I128) => true,
            (DataType::HighLowBit, DataType::HighLowBit) => true,
            (DataType::IoRegisterStatus, DataType::IoRegisterStatus) => true,
            _ => false,
        }
    }
}

impl Clone for DataType {
    fn clone(&self) -> (copy: DataType)
        ensures
            copy == *self,
        decreases *self,
    {
        match self {
            DataType::Char => DataType::Char,
            DataType::NullTerminated(inner) => {
                let inner_copy: DataType = (**inner).clone();
                DataType::NullTerminated(Box::new(inner_copy))
            },
            DataType::U8 => DataType::U8,
            DataType::U16 => DataType::U16,
            DataType::U32 => DataType::U32,
            DataType::U64 => DataType::U64,
            DataType::U128 => DataType::U128,
            DataType::I8 => DataType::I8,
            DataType::I16 => DataType::I16,
            DataType::I32 => DataType::I32,
            DataType::I64 => DataType::I64,
            DataType::I128 => DataType::I128,
            DataType::HighLowBit => DataType::HighLowBit,
            DataType::IoRegisterStatus => DataType::IoRegisterStatus,
        }
    }
}

impl DataType {
    /// The fixed-width type that the keyword `text` names.
    pub open spec fn keyword(text: Seq<char>) -> Option<DataType> {
        if text == "u8"@ {
            Some(DataType::U8)
        } else if text == "i8"@ {
            Some(DataType::I8)
        } else if text == "u16"@ {
            Some(DataType::U16)
        } else if text == "i16"@ {
            Some(DataType::I16)
        } else if text == "u32"@ {
            Some(DataType::U32)
        } else if text == "i32"@ {
            Some(DataType::I32)
        } else if text == "u64"@ {
            Some(DataType::U64)
        } else if text == "i64"@ {
            Some(DataType::I64)
        } else if text == "u128"@ {
            Some(DataType::U128)
        } else if text == "i128"@ {
            Some(DataType::I128)
        } else if text == "char"@ {
            Some(DataType::Char)
        } else {
            None
        }
    }

    /// The type that `text` names: a keyword, or `null_terminated=` before
    /// the name of the element type. White space around a name is left out.
    pub open spec fn parse(text: Seq<char>) -> Result<DataType, ParseFault>
        decreases text.len(),
    {
        let name = trimmed(text);
        match DataType::keyword(name) {
            Some(data_type) => Ok(data_type),
            None => {
                if "null_terminated"@.is_prefix_of(name) {
                    let rest = name.skip("null_terminated"@.len() as int);
                    if "="@.is_prefix_of(rest) {
                        proof {
                            reveal_strlit("null_terminated");
                            lemma_trimmed_is_piece(text);
                        }
                        match DataType::parse(rest.skip("="@.len() as int)) {
                            Ok(inner) => Ok(DataType::NullTerminated(Box::new(inner))),
                            Err(fault) => Err(fault),
                        }
                    } else {
                        Err(ParseFault::MissingInnerType { text: rest })
                    }
                } else {
                    Err(ParseFault::InvalidDataType { text: name })
                }
            },
        }
    }

    /// Reads the keyword of a fixed-width type.
    fn from_keyword(name: &str) -> (data_type: Option<DataType>)
        ensures
            data_type == DataType::keyword(name@),
    {
        if same_text(name, "u8") {
            Some(DataType::U8)
        } else if same_text(name, "i8") {
            Some(DataType::I8)
        } else if same_text(name, "u16") {
            Some(DataType::U16)
        } else if same_text(name, "i16") {
            Some(DataType::I16)
        } else if same_text(name, "u32") {
            Some(DataType::U32)
        } else if same_text(name, "i32") {
            Some(DataType::I32)
        } else if same_text(name, "u64") {
            Some(DataType::U64)
        } else if same_text(name, "i64") {
            Some(DataType::I64)
        } else if same_text(name, "u128") {
            Some(DataType::U128)
        } else if same_text(name, "i128") {
            Some(DataType::I128)
        } else if same_text(name, "char") {
            Some(DataType::Char)
        } else {
            None
        }
    }

    /// Reads the name of a type.
    pub fn from_str(s: &str) -> (data_type: Result<DataType, ParseError>)
        ensures
            match data_type {
                Ok(found) => DataType::parse(s@) == Ok::<DataType, ParseFault>(found),
                Err(error) => DataType::parse(s@) == Err::<DataType, ParseFault>(error@),
            },
        decreases s@.len(),
    {
        let name = trim(s);
        match DataType::from_keyword(name) {
            Some(data_type) => Ok(data_type),
            None => {
                match try_consume("null_terminated", name) {
                    Some(rest) => {
                        match try_consume("=", rest) {
                            Some(inner) => {
                                proof {
                                    reveal_strlit("null_terminated");
                                    lemma_trimmed_is_piece(s@);
                                }
                                match DataType::from_str(inner) {
                                    Ok(element) => Ok(DataType::NullTerminated(Box::new(element))),
                                    Err(error) => Err(error),
                                }
                            },
                            None => Err(ParseError::MissingInnerType { text: rest.to_owned() }),
                        }
                    },
                    None => Err(ParseError::InvalidDataType { text: name.to_owned() }),
                }
            },
        }
    }
}

} // verus!
