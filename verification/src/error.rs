//! What can go wrong in folding, and where.
use crate::ast::{BinaryOp, Expression, Follow, UnaryOp};
use crate::constant::{Constant, ConstantV};
use crate::shared;
use vstd::prelude::*;
use vstd::string::StringExecFns;

verus! {

/// A place in a source file.
#[derive(Debug, Clone, Copy, PartialEq, Eq, Structural)]
pub struct Location {
    pub file: u16,
    pub line: u32,
    pub column: u16,
}

impl Default for Location {
    fn default() -> (location: Self)
        ensures
            location == (Location { file: 0, line: 0, column: 0 }),
    {
        Location { file: 0, line: 0, column: 0 }
    }
}

/// The kinds of error.
#[derive(Debug)]
pub enum ErrorKind {
    /// A variable's value depends on that variable.
    RecursiveReference(String),
    NonConstVariable(String),
    NonStaticVariable(String),
    /// A variable is set to something that holds no expression.
    NotAnExpression,
    AugmentedAssignment,
    /// Something follows a term from which no constant can be reached that way.
    Followers(Constant, Follow),
    UnaryOperation(UnaryOp, Constant),
    BinaryOperation(Constant, BinaryOp, Constant),
    /// The type of a `new` expression is held by a variable.
    NewExpression,
    MalformedRgb,
    FunctionCall(String),
    UnknownTypepath(String),
    UnknownVariable(String),
    /// A variable is not found in the type that declares it.
    Undeclared,
    /// A variable's initialiser could not be parsed.
    Syntax(String),
}

/// An error, with the place it is reported at.
#[derive(Debug)]
pub struct DMError {
    pub location: Location,
    pub kind: ErrorKind,
}

/// How folding fails.
#[derive(Debug)]
pub enum Failure {
    Error(DMError),
    /// Integer arithmetic without a result: an overflow, a division by zero, or a shift by a
    /// negative amount or by all bits and more.
    Arithmetic,
}

/// The mathematical value of what follows a term.
pub ghost enum FollowV {
    Field(Seq<char>),
    Index(Expression),
    Call(Seq<char>, Seq<Expression>),
}

/// The mathematical value of a kind of error.
pub ghost enum ErrorKindV {
    RecursiveReference(Seq<char>),
    NonConstVariable(Seq<char>),
    NonStaticVariable(Seq<char>),
    NotAnExpression,
    AugmentedAssignment,
    Followers(ConstantV, FollowV),
    UnaryOperation(UnaryOp, ConstantV),
    BinaryOperation(ConstantV, BinaryOp, ConstantV),
    NewExpression,
    MalformedRgb,
    FunctionCall(Seq<char>),
    UnknownTypepath(Seq<char>),
    UnknownVariable(Seq<char>),
    Undeclared,
    Syntax(Seq<char>),
}

/// The mathematical value of an error.
pub ghost struct ErrorV {
    pub location: Location,
    pub kind: ErrorKindV,
}

/// The mathematical value of a failure.
pub ghost enum FailureV {
    Error(ErrorV),
    Arithmetic,
}

impl View for Follow {
    type V = FollowV;

    open spec fn view(&self) -> FollowV {
        match *self {
            Follow::Field(name) => FollowV::Field(name@),
            Follow::Index(index) => FollowV::Index(*index),
            Follow::Call(name, args) => FollowV::Call(name@, args@),
        }
    }
}

impl View for ErrorKind {
    type V = ErrorKindV;

    open spec fn view(&self) -> ErrorKindV {
        match *self {
            ErrorKind::RecursiveReference(ident) => ErrorKindV::RecursiveReference(ident@),
            ErrorKind::NonConstVariable(ident) => ErrorKindV::NonConstVariable(ident@),
            ErrorKind::NonStaticVariable(ident) => ErrorKindV::NonStaticVariable(ident@),
            ErrorKind::NotAnExpression => ErrorKindV::NotAnExpression,
            ErrorKind::AugmentedAssignment => ErrorKindV::AugmentedAssignment,
            ErrorKind::Followers(term, follow) => ErrorKindV::Followers(term@, follow@),
            ErrorKind::UnaryOperation(op, term) => ErrorKindV::UnaryOperation(op, term@),
            ErrorKind::BinaryOperation(lhs, op, rhs) => ErrorKindV::BinaryOperation(
                lhs@,
                op,
                rhs@,
            ),
            ErrorKind::NewExpression => ErrorKindV::NewExpression,
            ErrorKind::MalformedRgb => ErrorKindV::MalformedRgb,
            ErrorKind::FunctionCall(ident) => ErrorKindV::FunctionCall(ident@),
            ErrorKind::UnknownTypepath(path) => ErrorKindV::UnknownTypepath(path@),
            ErrorKind::UnknownVariable(ident) => ErrorKindV::UnknownVariable(ident@),
            ErrorKind::Undeclared => ErrorKindV::Undeclared,
            ErrorKind::Syntax(desc) => ErrorKindV::Syntax(desc@),
        }
    }
}

impl View for DMError {
    type V = ErrorV;

    open spec fn view(&self) -> ErrorV {
        ErrorV { location: self.location, kind: self.kind@ }
    }
}

impl View for Failure {
    type V = FailureV;

    open spec fn view(&self) -> FailureV {
        match *self {
            Failure::Error(error) => FailureV::Error(error@),
            Failure::Arithmetic => FailureV::Arithmetic,
        }
    }
}

impl DMError {
    pub fn new(location: Location, kind: ErrorKind) -> (error: DMError)
        ensures
            error == (DMError { location, kind }),
    {
        DMError { location, kind }
    }
}

/// Things that errors can be reported at.
pub trait HasLocation {
    spec fn located(&self) -> Location;

    fn location(&self) -> (location: Location)
        ensures
            location == self.located(),
    ;

    /// An error at this place.
    fn error(&self, kind: ErrorKind) -> (failure: Failure)
        ensures
            failure == Failure::Error(DMError { location: self.located(), kind }),
    {
        Failure::Error(DMError::new(self.location(), kind))
    }
}

/// What an error message says before it shows the constants and the operators concerned.
pub open spec fn headline(kind: ErrorKindV) -> Seq<char> {
    match kind {
        ErrorKindV::RecursiveReference(ident) => "recursive constant reference: "@ + ident,
        ErrorKindV::NonConstVariable(ident) => "non-const variable: "@ + ident,
        ErrorKindV::NonStaticVariable(ident) => "non-static variable: "@ + ident,
        ErrorKindV::NotAnExpression => "not an expression"@,
        ErrorKindV::AugmentedAssignment => "non-constant augmented assignment"@,
        ErrorKindV::Followers(_, _) => "non-constant expression followers: "@,
        ErrorKindV::UnaryOperation(_, _) => "non-constant unary operation: "@,
        ErrorKindV::BinaryOperation(_, _, _) => "non-constant binary operation: "@,
        ErrorKindV::NewExpression => "non-constant new expression"@,
        ErrorKindV::MalformedRgb => "malformed rgb() call"@,
        ErrorKindV::FunctionCall(ident) => "non-constant function call: "@ + ident,
        ErrorKindV::UnknownTypepath(path) => "unknown typepath "@ + path,
        ErrorKindV::UnknownVariable(ident) => "unknown variable: "@ + ident,
        ErrorKindV::Undeclared => "oh no"@,
        ErrorKindV::Syntax(desc) => desc,
    }
}

impl ErrorKind {
    /// What the error message says before it shows the constants and the operators concerned.
    pub fn headline(&self) -> (text: String)
        ensures
            text@ == headline(self@),
    {
        match self {
            ErrorKind::RecursiveReference(ident) => "recursive constant reference: ".to_owned().concat(
                ident.as_str(),
            ),
            ErrorKind::NonConstVariable(ident) => "non-const variable: ".to_owned().concat(
                ident.as_str(),
            ),
            ErrorKind::NonStaticVariable(ident) => "non-static variable: ".to_owned().concat(
                ident.as_str(),
            ),
            ErrorKind::NotAnExpression => "not an expression".to_owned(),
            ErrorKind::AugmentedAssignment => "non-constant augmented assignment".to_owned(),
            ErrorKind::Followers(_, _) => "non-constant expression followers: ".to_owned(),
            ErrorKind::UnaryOperation(_, _) => "non-constant unary operation: ".to_owned(),
            ErrorKind::BinaryOperation(_, _, _) => "non-constant binary operation: ".to_owned(),
            ErrorKind::NewExpression => "non-constant new expression".to_owned(),
            ErrorKind::MalformedRgb => "malformed rgb() call".to_owned(),
            ErrorKind::FunctionCall(ident) => "non-constant function call: ".to_owned().concat(
                ident.as_str(),
            ),
            ErrorKind::UnknownTypepath(path) => "unknown typepath ".to_owned().concat(
                path.as_str(),
            ),
            ErrorKind::UnknownVariable(ident) => "unknown variable: ".to_owned().concat(
                ident.as_str(),
            ),
            ErrorKind::Undeclared => "oh no".to_owned(),
            ErrorKind::Syntax(desc) => desc.clone(),
        }
    }
}

impl ErrorKind {
    /// Copies a kind of error.
    pub fn copied(&self) -> (copy: ErrorKind)
        ensures
            copy@ == self@,
    {
        match self {
            ErrorKind::RecursiveReference(ident) => ErrorKind::RecursiveReference(ident.clone()),
            ErrorKind::NonConstVariable(ident) => ErrorKind::NonConstVariable(ident.clone()),
            ErrorKind::NonStaticVariable(ident) => ErrorKind::NonStaticVariable(ident.clone()),
            ErrorKind::NotAnExpression => ErrorKind::NotAnExpression,
            ErrorKind::AugmentedAssignment => ErrorKind::AugmentedAssignment,
            ErrorKind::Followers(term, follow) => ErrorKind::Followers(
                term.clone(),
                follow.copied(),
            ),
            ErrorKind::UnaryOperation(op, term) => ErrorKind::UnaryOperation(*op, term.clone()),
            ErrorKind::BinaryOperation(lhs, op, rhs) => ErrorKind::BinaryOperation(
                lhs.clone(),
                *op,
                rhs.clone(),
            ),
            ErrorKind::NewExpression => ErrorKind::NewExpression,
            ErrorKind::MalformedRgb => ErrorKind::MalformedRgb,
            ErrorKind::FunctionCall(ident) => ErrorKind::FunctionCall(ident.clone()),
            ErrorKind::UnknownTypepath(path) => ErrorKind::UnknownTypepath(path.clone()),
            ErrorKind::UnknownVariable(ident) => ErrorKind::UnknownVariable(ident.clone()),
            ErrorKind::Undeclared => ErrorKind::Undeclared,
            ErrorKind::Syntax(desc) => ErrorKind::Syntax(desc.clone()),
        }
    }
}

impl Follow {
    /// Copies what follows a term.
    pub fn copied(&self) -> (copy: Follow)
        ensures
            copy@ == self@,
    {
        match self {
            Follow::Field(name) => Follow::Field(name.clone()),
            Follow::Index(index) => Follow::Index(shared::share(index)),
            Follow::Call(name, args) => Follow::Call(name.clone(), shared::share(args)),
        }
    }
}

} // verus!
