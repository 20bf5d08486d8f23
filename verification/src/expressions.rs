//! The expressions of the language, as a tree.
//!
//! A reference to a variable carries the scope distance that resolution found for it:
//! the number of scopes between the reference and the scope that declares the name, or
//! nothing where no local scope declares it.

use vstd::prelude::*;
use crate::token::{LiteralType, Token};

verus! {

#[derive(Debug)]
pub enum Expr {
    Assign(Box<Assign>),
    Binary(Box<Binary>),
    Call(Box<Call>),
    Get(Box<Get>),
    SetExpr(Box<SetExpr>),
    Grouping(Box<Grouping>),
    Array(Box<Array>),
    Index(Box<Index>),
    AssignIndex(Box<AssignIndex>),
    Literal(Literal),
    Logical(Box<Logical>),
    Super(Super),
    This(This),
    Unary(Box<Unary>),
    Variable(Variable),
}

/// Assignment to a variable.
#[derive(Debug)]
pub struct Assign {
    pub name: Token,
    pub value: Expr,
    pub distance: Option<u64>,
}

/// An operator between two operands.
#[derive(Debug)]
pub struct Binary {
    pub left: Expr,
    pub operator: Token,
    pub right: Expr,
}

/// A call of a callee with arguments.
#[derive(Debug)]
pub struct Call {
    pub callee: Expr,
    pub paren: Token,
    pub arguments: Vec<Expr>,
}

/// Reading a property of an object.
#[derive(Debug)]
pub struct Get {
    pub object: Expr,
    pub name: Token,
}

/// A parenthesised expression.
#[derive(Debug)]
pub struct Grouping {
    pub expression: Expr,
}

/// An array written out item by item.
#[derive(Debug)]
pub struct Array {
    pub values: Vec<Expr>,
}

/// Reading an item of an array. The bracket is the one that closes the index: an error
/// of indexing is reported on its line.
#[derive(Debug)]
pub struct Index {
    pub object: Expr,
    pub bracket: Token,
    pub index: Expr,
}

/// Assignment to an item of an array. The bracket is the one that closes the index.
#[derive(Debug)]
pub struct AssignIndex {
    pub object: Expr,
    pub bracket: Token,
    pub index: Expr,
    pub value: Expr,
}

/// A literal value.
#[derive(Debug)]
pub struct Literal {
    pub value: LiteralType,
}

/// `and` and `or`.
#[derive(Debug)]
pub struct Logical {
    pub left: Expr,
    pub operator: Token,
    pub right: Expr,
}

/// Writing a property of an object.
#[derive(Debug)]
pub struct SetExpr {
    pub object: Expr,
    pub name: Token,
    pub value: Expr,
}

/// A method of the superclass.
#[derive(Debug)]
pub struct Super {
    pub keyword: Token,
    pub method: Token,
}

/// The instance that a method was read from.
#[derive(Debug)]
pub struct This {
    pub keyword: Token,
    pub distance: Option<u64>,
}

/// An operator before one operand.
#[derive(Debug)]
pub struct Unary {
    pub operator: Token,
    pub right: Expr,
}

/// A reference to a variable.
#[derive(Debug)]
pub struct Variable {
    pub name: Token,
    pub distance: Option<u64>,
}

} // verus!
