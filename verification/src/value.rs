//! Literal values carried inside constant instructions.

use vstd::prelude::*;

verus! {

/// A sized integer, tagged by width and signedness.
#[derive(Debug, Clone, Copy, PartialEq, Eq, Structural)]
pub enum Int {
    Int64(i64),
    Int32(i32),
    Int16(i16),
    Int8(i8),
    Uint64(u64),
    Uint32(u32),
    Uint16(u16),
    Uint8(u8),
}

impl Int {
    /// The mathematical value of the integer, independent of its width.
    pub open spec fn as_int(self) -> int {
        match self {
            Int::Int64(v) => v as int,
            Int::Int32(v) => v as int,
            Int::Int16(v) => v as int,
            Int::Int8(v) => v as int,
            Int::Uint64(v) => v as int,
            Int::Uint32(v) => v as int,
            Int::Uint16(v) => v as int,
            Int::Uint8(v) => v as int,
        }
    }
}

/// A literal value.  Binary floating-point values are carried as the
/// bit pattern of the 64-bit encoding; the front-end never computes
/// with them.
#[derive(Debug)]
pub enum Value {
    Void,
    Bool(bool),
    Int(Int),
    Float(u64),
    String(String),
}

/// The name of the kind of a value, for diagnostics.
pub open spec fn spec_type_as_str(v: Value) -> Seq<char> {
    match v {
        Value::Void => "Void"@,
        Value::Bool(_) => "Bool"@,
        Value::Int(_) => "Int"@,
        Value::Float(_) => "Float"@,
        Value::String(_) => "String"@,
    }
}

impl Value {
    /// Name of the kind of this value, for diagnostics.
    pub fn type_as_str(&self) -> (r: &'static str)
        ensures
            r@ == spec_type_as_str(*self),
    {
        match self {
            Value::Void => "Void",
            Value::Bool(_) => "Bool",
            Value::Int(_) => "Int",
            Value::Float(_) => "Float",
            Value::String(_) => "String",
        }
    }
}

} // verus!
