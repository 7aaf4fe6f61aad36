//! The unified error surface of the compiler.

use vstd::prelude::*;
use crate::modules::FindError;

verus! {

/// Every way a compilation can fail.
#[derive(Debug)]
pub enum CompilationError {
    /// An integer literal does not fit its width or holds an invalid
    /// digit.
    IntConversion { literal: String },
    /// A floating-point literal does not parse.
    FloatConversion { literal: String },
    /// Symbol or module lookup failed.
    Find(FindError),
    /// A call resolved to more than one candidate.
    AmbiguousOverload { symbol: String, count: usize },
    /// A function was called with the wrong number of arguments.
    ArityMismatch { declared: usize, supplied: usize },
    /// A `buildin_` call with the wrong name, arity or shape.
    WrongBuildin { found: String },
    /// An argument or return value has the wrong type.
    TypeError { got: String, wanted: String },
    /// A variable was called with arguments.
    CallingVariable { identifier: String, file: String },
    /// A recursive call cannot be typed because the function declares
    /// no return type.
    RecursionWithoutReturnType,
    /// The construct is reserved for a later stage of the language.
    Unsupported { what: String },
}

} // verus!
