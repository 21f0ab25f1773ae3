//! The syntax tree that evaluation consumes, and the errors it reports.

use vstd::prelude::*;

verus! {

/// A source location. Evaluation never looks inside; it only hands spans on
/// to errors.
#[derive(Clone, Copy, Debug, PartialEq, Eq, Structural)]
pub struct Span {
    pub start: usize,
    pub len: usize,
}

#[derive(Clone, Copy, Debug, PartialEq, Eq, Structural)]
pub enum UnOp {
    /// Logical negation.
    Neg,
}

#[derive(Clone, Copy, Debug, PartialEq, Eq, Structural)]
pub enum BinOp {
    Union,
    And,
    Or,
    Add,
    Mul,
    Lt,
    Gt,
    LtEq,
    GtEq,
}

/// An expression.
#[derive(Debug)]
pub enum Expr {
    /// `{ ... }`: a set or a record, decided by the first element.
    BraceLit(Vec<Clause>),
    /// `[ ... ]`: a list.
    BracketLit(Vec<Clause>),
    BoolLit(bool),
    IntegerLit(i64),
    StringLit(String),
    /// Condition, then-branch, else-branch.
    IfThenElse(Box<Expr>, Box<Expr>, Box<Expr>),
    Var(String),
    Field { field: String, inner: Box<Expr> },
    Let { ident: String, value: Box<Expr>, body: Box<Expr> },
    Call { function: Box<Expr>, args: Vec<Expr> },
    /// A function literal. It has no value yet.
    Lam(Vec<String>, Box<Expr>),
    UnOp(UnOp, Box<Expr>),
    BinOp { op: BinOp, op_span: Span, lhs: Box<Expr>, rhs: Box<Expr> },
}

/// One clause inside a collection literal.
#[derive(Debug)]
pub enum Clause {
    /// A bare element.
    Elem { span: Span, value: Box<Expr> },
    /// `key: value`.
    Assoc { op_span: Span, key: Box<Expr>, value: Box<Expr> },
    /// `for idents in collection: body`.
    For { idents: Vec<String>, collection: Box<Expr>, body: Box<Clause> },
    /// `if condition: body`.
    If { condition: Box<Expr>, body: Box<Clause> },
    /// `let ident = value; body`.
    Let { ident: String, value: Box<Expr>, body: Box<Clause> },
}

/// The callables that field access on a string, a record or a list yields.
#[derive(Clone, Copy, Debug, PartialEq, Eq, Structural)]
pub enum BuiltinKind {
    StringLen,
    MapContains,
    MapGet,
    ListContains,
}

/// Which value had a type that its context does not take.
#[derive(Clone, Copy, Debug, PartialEq, Eq, Structural)]
pub enum Mismatch {
    /// The condition of a conditional expression is not a boolean.
    Condition,
    /// The condition of a comprehension guard is not a boolean.
    Guard,
    /// The unary operator is not defined on its operand.
    UnaryOperand,
    /// The binary operator is not defined on this pair of operands.
    BinaryOperands,
    /// Field access on something that is no string, record or list.
    FieldBase,
}

/// What an element of a collection literal should have been.
#[derive(Clone, Copy, Debug, PartialEq, Eq, Structural)]
pub enum Shape {
    Scalar,
    KeyValue,
}

/// Every way in which evaluation fails. Each is final for the call.
#[derive(Clone, Copy, Debug, PartialEq, Eq, Structural)]
pub enum Error {
    TypeMismatch(Mismatch),
    UndefinedVariable,
    UndefinedField,
    NotCallable,
    /// A function literal was evaluated.
    UnsupportedLambda,
    /// The builtin was called with the wrong number of arguments.
    Arity(BuiltinKind),
    /// Checked addition or multiplication left the range of the integers.
    Overflow { op: BinOp, span: Span },
    /// A literal mixes bare elements and `key: value` pairs. `at` is the
    /// offending clause, `evidence` the clause that fixed the shape; a list
    /// literal has no such clause.
    ShapeConflict { at: Span, expected: Shape, evidence: Option<Span> },
    UnsupportedIteration,
}

/// The text of an error.
pub open spec fn message_of(e: Error) -> Seq<char> {
    match e {
        Error::TypeMismatch(Mismatch::Condition) => "Condition should be boolean."@,
        Error::TypeMismatch(Mismatch::Guard) => "Comprehension condition should be boolean."@,
        Error::TypeMismatch(Mismatch::UnaryOperand) => "The unary operator is not supported for this value."@,
        Error::TypeMismatch(Mismatch::BinaryOperands) => "The binary operator is not supported for this value."@,
        Error::TypeMismatch(Mismatch::FieldBase) => "Can only access fields on records, strings and lists for now."@,
        Error::UndefinedVariable => "Variable not found."@,
        Error::UndefinedField => "No such field in this value."@,
        Error::NotCallable => "Can only call functions."@,
        Error::UnsupportedLambda => "Functions are not implemented."@,
        Error::Arity(BuiltinKind::StringLen) => "String.len takes no arguments."@,
        Error::Arity(BuiltinKind::MapContains) => "Map.contains takes a single argument."@,
        Error::Arity(BuiltinKind::MapGet) => "Map.get takes two arguments."@,
        Error::Arity(BuiltinKind::ListContains) => "List.contains takes a single argument."@,
        Error::Overflow { op: BinOp::Mul, .. } => "Multiplication would overflow."@,
        Error::Overflow { .. } => "Addition would overflow."@,
        Error::ShapeConflict { expected: Shape::KeyValue, .. } => "Expected key-value, not a scalar element."@,
        Error::ShapeConflict { expected: Shape::Scalar, .. } => "Expected scalar element, not key-value."@,
        Error::UnsupportedIteration => "Iteration is not supported like this."@,
    }
}

impl Error {
    /// The text of the error.
    pub fn message(&self) -> (r: String)
        ensures
            r@ == message_of(*self),
    {
        match self {
            Error::TypeMismatch(Mismatch::Condition) => "Condition should be boolean.".to_owned(),
            Error::TypeMismatch(Mismatch::Guard) => "Comprehension condition should be boolean.".to_owned(),
            Error::TypeMismatch(Mismatch::UnaryOperand) => "The unary operator is not supported for this value.".to_owned(),
            Error::TypeMismatch(Mismatch::BinaryOperands) => "The binary operator is not supported for this value.".to_owned(),
            Error::TypeMismatch(Mismatch::FieldBase) => "Can only access fields on records, strings and lists for now.".to_owned(),
            Error::UndefinedVariable => "Variable not found.".to_owned(),
            Error::UndefinedField => "No such field in this value.".to_owned(),
            Error::NotCallable => "Can only call functions.".to_owned(),
            Error::UnsupportedLambda => "Functions are not implemented.".to_owned(),
            Error::Arity(BuiltinKind::StringLen) => "String.len takes no arguments.".to_owned(),
            Error::Arity(BuiltinKind::MapContains) => "Map.contains takes a single argument.".to_owned(),
            Error::Arity(BuiltinKind::MapGet) => "Map.get takes two arguments.".to_owned(),
            Error::Arity(BuiltinKind::ListContains) => "List.contains takes a single argument.".to_owned(),
            Error::Overflow { op: BinOp::Mul, .. } => "Multiplication would overflow.".to_owned(),
            Error::Overflow { .. } => "Addition would overflow.".to_owned(),
            Error::ShapeConflict { expected: Shape::KeyValue, .. } => "Expected key-value, not a scalar element.".to_owned(),
            Error::ShapeConflict { expected: Shape::Scalar, .. } => "Expected scalar element, not key-value.".to_owned(),
            Error::UnsupportedIteration => "Iteration is not supported like this.".to_owned(),
        }
    }

    /// Advice on how to mend the input: given for a pair in a list literal,
    /// and for nothing else.
    pub fn help(&self) -> (r: Option<String>)
        ensures
            match *self {
                Error::ShapeConflict { expected: Shape::Scalar, evidence: None, .. } => r is Some
                    && r->0@
                    == "Key-value pairs are allowed in records, which are enclosed in '{}', not '[]'."@,
                _ => r is None,
            },
    {
        match self {
            Error::ShapeConflict { expected: Shape::Scalar, evidence: None, .. } => Some(
                "Key-value pairs are allowed in records, which are enclosed in '{}', not '[]'.".to_owned(),
            ),
            _ => None,
        }
    }

    /// The clause that decided the shape of the literal, where the error is
    /// about that shape and such a clause exists.
    pub fn evidence(&self) -> (r: Option<Span>)
        ensures
            r == match *self {
                Error::ShapeConflict { evidence, .. } => evidence,
                _ => None,
            },
    {
        match self {
            Error::ShapeConflict { evidence, .. } => *evidence,
            _ => None,
        }
    }
}

} // verus!
