//! The primitive data types that a placeholder can declare, and their
//! lookup by name.

use vstd::prelude::*;
use vstd::string::*;

verus! {

/// Primitive data types.
#[derive(Clone, Copy, Debug, PartialEq, Eq, Structural)]
pub enum DataType {
    /// The 8-bit unsigned integer type, `{{ data: u8 }}`.
    U8,
    /// The 8-bit signed integer type, `{{ data: i8 }}`.
    I8,
    /// The 16-bit unsigned integer type, `{{ data: u16 }}`.
    U16,
    /// The 16-bit signed integer type, `{{ data: i16 }}`.
    I16,
    /// The 32-bit unsigned integer type, `{{ data: u32 }}`.
    U32,
    /// The 32-bit signed integer type, `{{ data: i32 }}`.
    I32,
    /// The 64-bit unsigned integer type, `{{ data: u64 }}`.
    U64,
    /// The 64-bit signed integer type, `{{ data: i64 }}`.
    I64,
    /// The 32-bit floating point type, `{{ data: f32 }}`.
    F32,
    /// The 64-bit floating point type, `{{ data: f64 }}`.
    F64,
    /// The boolean type, `{{ data: bool }}`.
    Bool,
    /// Any text, `{{ data: str }}`.
    Str,
}

/// The type that the identifier `name` stands for: an exact, case-sensitive
/// match against the twelve type names.
pub open spec fn data_type_named(name: Seq<char>) -> Option<DataType> {
    if name == "u8"@ {
        Some(DataType::U8)
    } else if name == "i8"@ {
        Some(DataType::I8)
    } else if name == "u16"@ {
        Some(DataType::U16)
    } else if name == "i16"@ {
        Some(DataType::I16)
    } else if name == "u32"@ {
        Some(DataType::U32)
    } else if name == "i32"@ {
        Some(DataType::I32)
    } else if name == "u64"@ {
        Some(DataType::U64)
    } else if name == "i64"@ {
        Some(DataType::I64)
    } else if name == "f32"@ {
        Some(DataType::F32)
    } else if name == "f64"@ {
        Some(DataType::F64)
    } else if name == "bool"@ {
        Some(DataType::Bool)
    } else if name == "str"@ {
        Some(DataType::Str)
    } else {
        None
    }
}

/// Tells whether two texts hold the same characters.
pub fn same_text(a: &str, b: &str) -> (r: bool)
    ensures
        r == (a@ == b@),
{
    String::from_str(a) == String::from_str(b)
}

impl DataType {
    /// Looks a type up by its name.
    pub fn named(name: &str) -> (r: Option<DataType>)
        ensures
            r == data_type_named(name@),
    {
        if same_text(name, "u8") {
            Some(DataType::U8)
        } else if same_text(name, "i8") {
            Some(DataType::I8)
        } else if same_text(name, "u16") {
            Some(DataType::U16)
        } else if same_text(name, "i16") {
            Some(DataType::I16)
        } else if same_text(name, "u32") {
            Some(DataType::U32)
        } else if same_text(name, "i32") {
            Some(DataType::I32)
        } else if same_text(name, "u64") {
            Some(DataType::U64)
        } else if same_text(name, "i64") {
            Some(DataType::I64)
        } else if same_text(name, "f32") {
            Some(DataType::F32)
        } else if same_text(name, "f64") {
            Some(DataType::F64)
        } else if same_text(name, "bool") {
            Some(DataType::Bool)
        } else if same_text(name, "str") {
            Some(DataType::Str)
        } else {
            None
        }
    }

    /// The name of the variant, as a diagnostic shows it.
    pub open spec fn label(self) -> Seq<char> {
        match self {
            DataType::U8 => "U8"@,
            DataType::I8 => "I8"@,
            DataType::U16 => "U16"@,
            DataType::I16 => "I16"@,
            DataType::U32 => "U32"@,
            DataType::I32 => "I32"@,
            DataType::U64 => "U64"@,
            DataType::I64 => "I64"@,
            DataType::F32 => "F32"@,
            DataType::F64 => "F64"@,
            DataType::Bool => "Bool"@,
            DataType::Str => "Str"@,
        }
    }

    /// The name of the variant, as a diagnostic shows it.
    pub fn variant_name(self) -> (r: &'static str)
        ensures
            r@ == self.label(),
    {
        match self {
            DataType::U8 => "U8",
            DataType::I8 => "I8",
            DataType::U16 => "U16",
            DataType::I16 => "I16",
            DataType::U32 => "U32",
            DataType::I32 => "I32",
            DataType::U64 => "U64",
            DataType::I64 => "I64",
            DataType::F32 => "F32",
            DataType::F64 => "F64",
            DataType::Bool => "Bool",
            DataType::Str => "Str",
        }
    }
}

} // verus!
