//! The syntax tree of a type-checked program.

use crate::diag::Span;
use crate::types::{Heading, Type};
use vstd::prelude::*;

verus! {

/// An expression and where it stands.
#[derive(Debug)]
pub struct Expr {
    pub span: Span,
    pub kind: ExprKind,
}

/// The forms of an expression.
#[derive(Debug)]
pub enum ExprKind {
    Literal(Literal),
    Call { callee: Callee, args: Vec<(String, Expr)> },
    Transaction { body: Block },
    TupleLit { fields: Vec<(String, Expr)> },
    /// A relation of its tuples, each a list of fields.
    RelationLit { tuples: Vec<Vec<(String, Expr)>> },
    SequenceLit { elements: Vec<Expr> },
    FieldAccess { base: Box<Expr>, field: String },
    BoolLit(bool),
    Binary { op: BinaryOp, lhs: Box<Expr>, rhs: Box<Expr> },
    /// `extract`: the only tuple of a relation.
    Extract { operand: Box<Expr> },
    Project { input: Box<Expr>, attrs: Vec<String>, all_but: bool },
    Replace { input: Box<Expr>, pairs: Vec<(String, Expr)> },
    /// Renames by `(old, new)` pairs.
    Rename { input: Box<Expr>, renames: Vec<(String, String)> },
    /// Wraps by new names with the names of their components.
    Wrap { input: Box<Expr>, wraps: Vec<(String, Vec<String>)> },
    Unwrap { input: Box<Expr>, attrs: Vec<String> },
    Extend { input: Box<Expr>, pairs: Vec<(String, Expr)> },
    /// The closure, of the named attributes when there are any.
    Tclose { input: Box<Expr>, attrs: Vec<String> },
    Index { sequence: Box<Expr>, index: Box<Expr> },
    If { condition: Box<Expr>, then_body: Block, else_body: Option<Block> },
    NameRef(String),
}

/// A literal, as it is written.
#[derive(Debug)]
pub enum Literal {
    Str(String),
    Integer(String),
    Char(String),
    /// A format template, in its pieces.
    Format(Vec<TemplateChunk>),
    /// A rational or approximate number.
    Other(String),
}

/// A piece of a format template.
#[derive(Debug)]
pub enum TemplateChunk {
    /// The UTF-8 bytes of literal text.
    Literal(Vec<u8>),
    /// The value of a named argument.
    Placeholder(String),
}

/// What a call calls.
#[derive(Debug)]
pub enum Callee {
    Name(String),
    /// `receiver.method { ... }`.
    Method { receiver: Box<Expr>, method: String },
}

/// A binary operator.
#[derive(Copy, Clone, PartialEq, Eq, Debug, Structural)]
pub enum BinaryOp {
    Eq,
    NotEq,
    Lt,
    Gt,
    LtEq,
    GtEq,
    And,
    Or,
    Add,
    Sub,
    Mul,
    Div,
    Concat,
    Where,
    Join,
    Times,
    Compose,
    Intersect,
    Union,
    Minus,
}

/// Statements and the expression whose value the block has.
#[derive(Debug)]
pub struct Block {
    pub statements: Vec<Stmt>,
    pub tail: Option<Box<Expr>>,
}

/// A statement.
#[derive(Debug)]
pub enum Stmt {
    /// `annotation` is the type that the binding declares.
    Let { name: String, annotation: Option<Type>, value: Expr },
    Var { name: String, annotation: Option<Type>, value: Option<Expr> },
    Assign { target: Expr, value: Expr },
    Truncate { operand: Expr },
    Delete { operand: Expr },
    Insert { target: Expr, source: Expr },
    Update { operand: Expr, pairs: Vec<(String, Expr)> },
    Expr(Expr),
    For { span: Span, name: String, over: ForRange, body: Block },
    While { span: Span, condition: Expr, body: Block },
    DoWhile { span: Span, body: Block, condition: Expr },
    /// `load <target> from <source> order [ <attr> asc|desc, ... ]`.
    Load { target: String, source: Expr, order: Vec<(String, bool)> },
}

/// What a `for` runs over.
#[derive(Debug)]
pub enum ForRange {
    /// From one integer to another, both included.
    Counted { low: Expr, high: Expr },
    /// The elements of a sequence.
    Elements(Expr),
}

/// A type as it is written: a name, with an element type for a sequence.
#[derive(Debug)]
pub struct TypeRef {
    pub name: Option<String>,
    pub element: Option<Box<TypeRef>>,
}

/// An operator declaration.
#[derive(Debug)]
pub struct OperDecl {
    pub name: String,
    pub params: Vec<(String, Option<TypeRef>)>,
    pub return_type: Option<TypeRef>,
    pub body: Option<Block>,
}

/// A top-level item.
#[derive(Debug)]
pub enum Item {
    Program { name: String },
    /// A database binding or a relvar declaration.
    Declaration,
    Oper(OperDecl),
}

/// What kind of relvar a declaration makes.
#[derive(Copy, Clone, PartialEq, Eq, Debug, Structural)]
pub enum RelvarKind {
    Public,
    Private,
    Base,
    Virtual,
}

/// A declared relvar.
#[derive(Debug)]
pub struct RelvarInfo {
    pub name: String,
    pub kind: RelvarKind,
    pub heading: Heading,
}

} // verus!
