//! The typed intermediate representation produced by the compiler:
//! a small expression tree in which every node carries its type.

use vstd::prelude::*;
use crate::id::{FunctionId, TypeId};
use crate::value::Value;

verus! {

/// Opcode of a compiler built-in.
#[derive(Debug, Clone, Copy, PartialEq, Eq, Structural)]
pub enum CustomInstructionCode {
    StrConcat,
    Print,
    Readline,
    Identity,
}

/// Expression with type information.
///
/// Invariant (see `crate::typing`): `ty` is the type that the typing
/// rules assign to `instr`.
#[derive(Debug)]
pub struct StaticExpression {
    pub instr: Box<Instruction>,
    pub ty: TypeId,
}

#[derive(Debug)]
pub enum Instruction {
    /// A compiler built-in, lowered to a dedicated opcode.
    Custom { code: CustomInstructionCode, args: Vec<StaticExpression> },
    /// A literal constant.
    Const(Value),
    /// Call of a compiled specialization by its function-store index.
    FunctionCall { func: FunctionId, args: Vec<StaticExpression> },
    /// Read the local variable stored at the given slot.
    GetLocalVar(usize),
    /// Introduce a let binding; `body` sees the slot in scope.
    NewLocalVar { var_index: u16, var_value: StaticExpression, body: StaticExpression },
    /// Conditional; the condition must be boolean and both arms must
    /// share one type.
    IfExpr { condition: StaticExpression, case_true: StaticExpression, case_false: StaticExpression },
}

impl Instruction {
    /// Attach a type to this instruction.
    pub fn expr(self, ty: TypeId) -> (r: StaticExpression)
        ensures
            *r.instr == self,
            r.ty == ty,
    {
        StaticExpression { instr: Box::new(self), ty }
    }
}

} // verus!
