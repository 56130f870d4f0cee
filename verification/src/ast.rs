//! The syntax tree that a parser hands to the resolver and the evaluator.

use vstd::prelude::*;
use crate::token::Token;

verus! {

/// The body of a function, a lambda or a `match` arm.
#[derive(Debug, PartialEq)]
pub enum FuncBody {
    Statements(Vec<Statement>),
    Expression(Box<Expression>),
}

/// An expression. Each carries the identity that the parser gave it, by
/// which the resolver's table finds it again.
#[derive(Debug, PartialEq)]
#[allow(inconsistent_fields)]
pub enum Expression {
    Value { id: usize, value: Token },
    Var { id: usize, name: Token },
    Unary { id: usize, left: Box<Expression>, operator: Token },
    Binary { id: usize, left: Box<Expression>, operator: Token, right: Box<Expression> },
    Grouping { id: usize, expression: Box<Expression> },
    Call { id: usize, name: Box<Expression>, args: Vec<Expression> },
    Method { id: usize, left: Box<Expression>, name: Token, args: Vec<Expression> },
    Assign { id: usize, name: Token, value: Box<Expression> },
    Array { id: usize, items: Vec<Expression> },
    Object { id: usize, fields: Vec<(Token, Expression)> },
    Func {
        id: usize,
        name: Token,
        value_type: Token,
        body: FuncBody,
        params: Vec<(Token, Token)>,
        is_async: bool,
        is_pub: bool,
    },
    Await { id: usize, expr: Box<Expression> },
}

/// A statement.
#[derive(Debug, PartialEq)]
#[allow(inconsistent_fields)]
pub enum Statement {
    Expression { expr: Expression },
    Block { stmts: Vec<Statement> },
    Var {
        names: Vec<Token>,
        value_type: Token,
        value: Option<Expression>,
        is_mut: bool,
        is_pub: bool,
        pub_names: Vec<Token>,
        is_func: bool,
    },
    Func {
        name: Token,
        value_type: Token,
        body: FuncBody,
        params: Vec<(Token, Token)>,
        is_async: bool,
        is_pub: bool,
        is_impl: bool,
        is_mut: bool,
    },
    If {
        cond: Expression,
        body: Vec<Statement>,
        else_branch: Option<Vec<Statement>>,
        else_if_branches: Vec<(Expression, Vec<Statement>)>,
    },
    Return { expr: Expression },
    While { cond: Expression, body: Vec<Statement> },
    Loop { iter: Option<usize>, body: Vec<Statement> },
    Break {},
    Match { cond: Expression, def_case: FuncBody, cases: Vec<(Expression, FuncBody)> },
    Mod { src: String },
    Use { src: String, names: Vec<(Token, Option<Token>)>, all: bool },
    Struct { name: Token, is_pub: bool },
    Impl { name: Token, body: Vec<Statement> },
    Enum { name: Token, enums: Vec<(Token, Option<Token>)>, is_pub: bool },
}

impl Expression {
    /// The identity of the expression.
    pub open spec fn ident(self) -> usize {
        match self {
            Expression::Value { id, .. } => id,
            Expression::Var { id, .. } => id,
            Expression::Unary { id, .. } => id,
            Expression::Binary { id, .. } => id,
            Expression::Grouping { id, .. } => id,
            Expression::Call { id, .. } => id,
            Expression::Method { id, .. } => id,
            Expression::Assign { id, .. } => id,
            Expression::Array { id, .. } => id,
            Expression::Object { id, .. } => id,
            Expression::Func { id, .. } => id,
            Expression::Await { id, .. } => id,
        }
    }

    /// The identity of the expression.
    pub fn id(&self) -> (r: usize)
        ensures
            r == self.ident(),
    {
        match self {
            Expression::Value { id, .. } => *id,
            Expression::Var { id, .. } => *id,
            Expression::Unary { id, .. } => *id,
            Expression::Binary { id, .. } => *id,
            Expression::Grouping { id, .. } => *id,
            Expression::Call { id, .. } => *id,
            Expression::Method { id, .. } => *id,
            Expression::Assign { id, .. } => *id,
            Expression::Array { id, .. } => *id,
            Expression::Object { id, .. } => *id,
            Expression::Func { id, .. } => *id,
            Expression::Await { id, .. } => *id,
        }
    }
}

} // verus!
