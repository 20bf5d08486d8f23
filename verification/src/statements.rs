//! The statements of the language, as a tree.

use vstd::prelude::*;
use crate::expressions::Expr;
use crate::token::Token;

verus! {

#[derive(Debug)]
pub enum Stmt {
    Block(Box<Block>),
    Class(Class),
    Expression(Expression),
    Function(Function),
    If(Box<If>),
    Print(Print),
    Return(Return),
    Variable(Variable),
    While(Box<While>),
}

/// Statements in a scope of their own.
#[derive(Debug)]
pub struct Block {
    pub statements: Vec<Stmt>,
}

/// A class: its name and its methods.
#[derive(Debug)]
pub struct Class {
    pub name: Token,
    pub methods: Vec<Function>,
}

/// An expression evaluated for its effect.
#[derive(Debug)]
pub struct Expression {
    pub expression: Expr,
}

/// A function: its name, its parameters and its body.
#[derive(Debug)]
pub struct Function {
    pub name: Token,
    pub params: Vec<Token>,
    pub body: Vec<Stmt>,
}

#[derive(Debug)]
pub struct If {
    pub condition: Expr,
    pub then_branch: Stmt,
    pub else_branch: Option<Stmt>,
}

#[derive(Debug)]
pub struct Print {
    pub expression: Expr,
}

#[derive(Debug)]
pub struct Return {
    pub keyword: Token,
    pub value: Option<Expr>,
}

/// The declaration of a variable, with or without an initial value.
#[derive(Debug)]
pub struct Variable {
    pub name: Token,
    pub initializer: Option<Expr>,
}

#[derive(Debug)]
pub struct While {
    pub condition: Expr,
    pub body: Stmt,
}

} // verus!
