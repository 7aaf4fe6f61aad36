//! The abstract syntax consumed by the compiler.
//!
//! The lexer and parser are external collaborators: they deliver values
//! of these types (string interpolation arrives already desugared to a
//! call expression, as the parser defines it).  The compiler only ever
//! reads this data.

use vstd::prelude::*;

verus! {

/// Width and signedness suffix of an integer literal.
#[derive(Debug, Clone, Copy, PartialEq, Eq, Structural)]
pub enum IntTypeSuffix {
    Int,
    Int32,
    Int16,
    Int8,
    Uint,
    Uint32,
    Uint16,
    Uint8,
}

/// An integer literal: its digits, the radix they are written in and
/// an optional width suffix (64-bit signed when absent).
#[derive(Debug)]
pub struct IntLiteral {
    pub digits: String,
    pub radix: u32,
    pub type_suffix: Option<IntTypeSuffix>,
}

/// A binary floating-point literal.  The front-end never computes with
/// such values: the producer of the syntax tree parses the text and
/// hands over the bit pattern of the 64-bit encoding, or nothing when
/// the text does not parse.
#[derive(Debug)]
pub struct FloatLiteral {
    pub text: String,
    pub bits: Option<u64>,
}

#[derive(Debug)]
pub enum Literal {
    StringLiteral(String),
    Bool(bool),
    Int(IntLiteral),
    Float(FloatLiteral),
}

/// A value position: a literal, an identifier path, or a parenthesized
/// tuple of expressions.
#[derive(Debug)]
pub enum AstValue {
    Literal(Literal),
    FullIdentifier(Vec<String>),
    Tuple(Vec<FullExpression>),
}

/// A call of a named function on value arguments.  A bare identifier
/// parses as a call with no arguments.
#[derive(Debug)]
pub struct FunctionCallExpr {
    pub function_name: Vec<String>,
    pub args: Vec<AstValue>,
}

#[derive(Debug)]
pub enum Expression {
    FunctionCall(FunctionCallExpr),
    Value(AstValue),
}

/// `let x1 = e1, x2 = e2, ... in body`.
#[derive(Debug)]
pub struct LetExpression {
    pub definitions: Vec<(String, FullExpression)>,
    pub body: FullExpression,
}

#[derive(Debug)]
pub enum FullExpression {
    Let(Box<LetExpression>),
    Expression(Expression),
    /// String interpolation: the parser delivers the interleaved
    /// literal and expression parts; they concatenate to one string.
    Concat(Vec<AstValue>),
}

/// A formal parameter: its name and, optionally, the name of its
/// declared type.
#[derive(Debug)]
pub struct AstParam {
    pub name: String,
    pub ty: Option<String>,
}

/// A function declaration.
#[derive(Debug)]
pub struct AstFunction {
    pub name: String,
    pub params: Vec<AstParam>,
    /// Name of the declared return type, when the source gives one.
    pub ret_type: Option<String>,
    pub body: FullExpression,
}

/// The fields of a declared type: variant names of an enum or field
/// names of a struct.
#[derive(Debug)]
pub enum TypeFields {
    EnumFields(Vec<String>),
    StructFields(Vec<String>),
}

/// A type declaration.
#[derive(Debug)]
pub struct TypeDecl {
    pub name: String,
    pub fields: TypeFields,
}

/// A built-in type declaration; only the standard library holds these.
#[derive(Debug)]
pub struct BuildinTypeDecl {
    pub name: String,
    pub has_generics: bool,
}

/// A global let binding.
#[derive(Debug)]
pub struct GlobalLet {
    pub identifier: String,
}

/// One top-level item of a source file.
#[derive(Debug)]
pub enum BodyItem {
    Function(AstFunction),
    TypeDecl(TypeDecl),
    BuildinTypeDecl(BuildinTypeDecl),
    Let(GlobalLet),
    Test,
}

/// Which names an import declaration brings into the file.
#[derive(Debug)]
pub enum ImportSelection {
    /// `use a.b.c`: the last segment is the imported symbol.
    This,
    /// `use a.b.(x, y)`: each listed name is imported from the module.
    Items(Vec<String>),
    /// `use a.b..`: reserved; not yet supported.
    All,
}

/// An import declaration.
#[derive(Debug)]
pub struct ImportDecl {
    /// True when the first path segment names a dependency.
    pub is_lib: bool,
    pub path: Vec<String>,
    pub selection: ImportSelection,
}

/// The abstract syntax tree of one source file.
#[derive(Debug)]
pub struct Ast {
    pub imports: Vec<ImportDecl>,
    pub items: Vec<BodyItem>,
}

} // verus!
