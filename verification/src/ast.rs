//! The expressions that a variable may be initialised with.
use std::rc::Rc;
use vstd::prelude::*;

verus! {

/// The operators that may stand before a segment of a path.
#[derive(Debug, Clone, Copy, PartialEq, Eq, Structural)]
pub enum PathOp {
    /// `/`, absolute pathing.
    Slash,
    /// `.`, checked relative pathing.
    Dot,
    /// `:`, unchecked relative pathing.
    Colon,
}

/// A path to a type: its segments, each with the operator before it.
pub type TypePath = Vec<(PathOp, String)>;

/// The unary operators, both prefix and postfix.
#[derive(Debug, Clone, Copy, PartialEq, Eq, Structural)]
pub enum UnaryOp {
    Neg,
    Not,
    BitNot,
    PreIncr,
    PostIncr,
    PreDecr,
    PostDecr,
}

/// The binary operators.
#[derive(Debug, Clone, Copy, PartialEq, Eq, Structural)]
pub enum BinaryOp {
    Add,
    Sub,
    Mul,
    Div,
    Pow,
    Mod,
    Eq,
    NotEq,
    Less,
    Greater,
    LessEq,
    GreaterEq,
    BitAnd,
    BitXor,
    BitOr,
    LShift,
    RShift,
    And,
    Or,
}

/// The assignment operators, plain and augmented.
#[derive(Debug, Clone, Copy, PartialEq, Eq, Structural)]
pub enum AssignOp {
    Assign,
    AddAssign,
    SubAssign,
    MulAssign,
    DivAssign,
    BitAndAssign,
    BitOrAssign,
    BitXorAssign,
    LShiftAssign,
    RShiftAssign,
}

/// A type path together with variable overrides, in the order they were written.
#[derive(Debug, PartialEq, Eq)]
pub struct Prefab<E> {
    pub path: TypePath,
    pub vars: Vec<(String, E)>,
}

/// What is being instantiated by a `new` expression.
#[derive(Debug, PartialEq, Eq)]
pub enum NewType<E> {
    /// The type is taken from the context.
    Implicit,
    Prefab(Prefab<E>),
    /// The type is held by a variable.
    Ident(String),
}

/// What may follow a term.
#[derive(Debug)]
pub enum Follow {
    Field(String),
    Index(Rc<Expression>),
    Call(String, Rc<Vec<Expression>>),
}

/// The innermost parts of an expression.
#[derive(Debug)]
pub enum Term {
    Null,
    New { type_: NewType<Expression>, args: Option<Vec<Expression>> },
    List(Vec<(Expression, Option<Expression>)>),
    Call(String, Vec<Expression>),
    Prefab(Prefab<Expression>),
    Ident(String),
    String(String),
    Resource(String),
    Int(i32),
    /// A single-precision literal, by its IEEE 754 bits.
    Float(u32),
    /// An expression in parentheses.
    Expr(Box<Expression>),
}

/// An expression.
#[allow(inconsistent_fields)]
#[derive(Debug)]
pub enum Expression {
    Base { unary: Vec<UnaryOp>, term: Term, follow: Vec<Follow> },
    BinaryOp { op: BinaryOp, lhs: Box<Expression>, rhs: Box<Expression> },
    AssignOp { op: AssignOp, lhs: Box<Expression>, rhs: Box<Expression> },
    TernaryOp { cond: Box<Expression>, if_: Box<Expression>, else_: Box<Expression> },
}

/// The segments of a path, each with its operator.
pub open spec fn path_view(path: Seq<(PathOp, String)>) -> Seq<(PathOp, Seq<char>)> {
    path.map_values(|segment: (PathOp, String)| (segment.0, segment.1@))
}

/// Copies a path.
pub fn clone_path(path: &TypePath) -> (copy: TypePath)
    ensures
        copy@ == path@,
{
    clone_path_from(path, 0)
}

/// Copies a path without its first `start` segments.
pub fn clone_path_from(path: &TypePath, start: usize) -> (copy: TypePath)
    requires
        start <= path.len(),
    ensures
        copy@ == path@.skip(start as int),
{
    let mut copy: TypePath = Vec::new();
    let mut i: usize = start;
    while i < path.len()
        invariant
            start <= i <= path.len(),
            copy@ =~= path@.subrange(start as int, i as int),
        decreases path.len() - i,
    {
        copy.push((path[i].0, path[i].1.clone()));
        i += 1;
    }
    copy
}

} // verus!
