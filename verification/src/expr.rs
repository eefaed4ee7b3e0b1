//! The syntax tree model: the closed set of expression node shapes.
//!
//! Only literal, unary, binary, and grouping nodes are produced and consumed
//! by this core; the other shapes are reserved extension points for a later
//! statement-level language and stay inert here.
use vstd::prelude::*;

use crate::number::Number;
use crate::token::{Token, TokenModel};

verus! {

/// An expression node.
#[derive(Debug)]
pub enum Expr {
    Assign(Assign),
    Binary(Binary),
    Call(Call),
    Get(Get),
    Grouping(Grouping),
    Literal(Literal),
    Logical(Logical),
    SetExpr(SetExpr),
    Super(Super),
    This(This),
    Unary(Unary),
    Variable(Variable),
}

/// Assignment expression, such as `x = 5` (reserved).
#[derive(Debug)]
pub struct Assign {
    pub name: Token,
    pub value: Box<Expr>,
}

/// Binary operator expression, such as `3 + 4` or `a == b`.
#[derive(Debug)]
pub struct Binary {
    pub left: Box<Expr>,
    pub operator: Token,
    pub right: Box<Expr>,
}

/// Function call expression, such as `max(1, 2)` (reserved).
#[derive(Debug)]
pub struct Call {
    pub callee: Box<Expr>,
    pub paren: Token,
    pub arguments: Vec<Expr>,
}

/// Property access expression, such as `person.age` (reserved).
#[derive(Debug)]
pub struct Get {
    pub object: Box<Expr>,
    pub name: Token,
}

/// Grouping expression: a parenthesized sub-expression.
#[derive(Debug)]
pub struct Grouping {
    pub expression: Box<Expr>,
}

/// Literal value expression, such as `123`, `"hello"`, `true`, or `nil`.
#[derive(Debug)]
pub struct Literal {
    pub value: LiteralValue,
}

/// Logical operator expression, such as `a and b` (reserved).
#[derive(Debug)]
pub struct Logical {
    pub left: Box<Expr>,
    pub operator: Token,
    pub right: Box<Expr>,
}

/// Property assignment expression, such as `person.age = 25` (reserved).
#[derive(Debug)]
pub struct SetExpr {
    pub object: Box<Expr>,
    pub name: Token,
    pub value: Box<Expr>,
}

/// Parent class method reference, such as `super.cook()` (reserved).
#[derive(Debug)]
pub struct Super {
    pub keyword: Token,
    pub method: Token,
}

/// Current object reference (reserved).
#[derive(Debug)]
pub struct This {
    pub keyword: Token,
}

/// Unary prefix operator expression, such as `-5` or `!true`.
#[derive(Debug)]
pub struct Unary {
    pub operator: Token,
    pub right: Box<Expr>,
}

/// Variable reference expression, such as `count` (reserved).
#[derive(Debug)]
pub struct Variable {
    pub name: Token,
}

/// The compile-time-known value baked into a literal node.
#[derive(Debug, PartialEq)]
pub enum LiteralValue {
    Number(Number),
    String(String),
    Bool(bool),
    Nil,
}

impl Clone for LiteralValue {
    /// Cloning keeps the value exactly.
    fn clone(&self) -> (r: Self)
        ensures
            r == *self,
    {
        match self {
            LiteralValue::Number(n) => LiteralValue::Number(*n),
            LiteralValue::String(s) => LiteralValue::String(s.clone()),
            LiteralValue::Bool(b) => LiteralValue::Bool(*b),
            LiteralValue::Nil => LiteralValue::Nil,
        }
    }
}

/// Mathematical model of a literal node's value.
pub enum LiteralValueModel {
    Number(int),
    String(Seq<char>),
    Bool(bool),
    Nil,
}

impl View for LiteralValue {
    type V = LiteralValueModel;

    open spec fn view(&self) -> LiteralValueModel {
        match self {
            LiteralValue::Number(n) => LiteralValueModel::Number(n@),
            LiteralValue::String(s) => LiteralValueModel::String(s@),
            LiteralValue::Bool(b) => LiteralValueModel::Bool(*b),
            LiteralValue::Nil => LiteralValueModel::Nil,
        }
    }
}

/// Mathematical model of an expression node.
pub enum ExprModel {
    Assign { name: TokenModel, value: Box<ExprModel> },
    Binary { left: Box<ExprModel>, operator: TokenModel, right: Box<ExprModel> },
    Call { callee: Box<ExprModel>, paren: TokenModel, arguments: Seq<ExprModel> },
    Get { object: Box<ExprModel>, name: TokenModel },
    Grouping { expression: Box<ExprModel> },
    Literal { value: LiteralValueModel },
    Logical { left: Box<ExprModel>, operator: TokenModel, right: Box<ExprModel> },
    SetExpr { object: Box<ExprModel>, name: TokenModel, value: Box<ExprModel> },
    Super { keyword: TokenModel, method: TokenModel },
    This { keyword: TokenModel },
    Unary { operator: TokenModel, right: Box<ExprModel> },
    Variable { name: TokenModel },
}

broadcast use vstd::std_specs::vec::axiom_vec_decreases_to_view, vstd::seq::axiom_seq_index_decreases, vstd::seq::axiom_seq_subrange_decreases;

/// The model of a list of expression trees.
pub open spec fn exprs_model(s: Seq<Expr>) -> Seq<ExprModel>
    decreases s,
{
    if s.len() <= 0 {
        Seq::empty()
    } else {
        exprs_model(s.drop_last()).push(expr_model(s.last()))
    }
}

/// The model of an expression tree.
pub open spec fn expr_model(e: Expr) -> ExprModel
    decreases e,
{
    match e {
        Expr::Assign(a) => ExprModel::Assign {
            name: a.name@,
            value: Box::new(expr_model(*a.value)),
        },
        Expr::Binary(b) => ExprModel::Binary {
            left: Box::new(expr_model(*b.left)),
            operator: b.operator@,
            right: Box::new(expr_model(*b.right)),
        },
        Expr::Call(c) => ExprModel::Call {
            callee: Box::new(expr_model(*c.callee)),
            paren: c.paren@,
            arguments: exprs_model(c.arguments@),
        },
        Expr::Get(g) => ExprModel::Get { object: Box::new(expr_model(*g.object)), name: g.name@ },
        Expr::Grouping(g) => ExprModel::Grouping {
            expression: Box::new(expr_model(*g.expression)),
        },
        Expr::Literal(l) => ExprModel::Literal { value: l.value@ },
        Expr::Logical(l) => ExprModel::Logical {
            left: Box::new(expr_model(*l.left)),
            operator: l.operator@,
            right: Box::new(expr_model(*l.right)),
        },
        Expr::SetExpr(s) => ExprModel::SetExpr {
            object: Box::new(expr_model(*s.object)),
            name: s.name@,
            value: Box::new(expr_model(*s.value)),
        },
        Expr::Super(s) => ExprModel::Super { keyword: s.keyword@, method: s.method@ },
        Expr::This(t) => ExprModel::This { keyword: t.keyword@ },
        Expr::Unary(u) => ExprModel::Unary {
            operator: u.operator@,
            right: Box::new(expr_model(*u.right)),
        },
        Expr::Variable(v) => ExprModel::Variable { name: v.name@ },
    }
}

impl View for Expr {
    type V = ExprModel;

    open spec fn view(&self) -> ExprModel {
        expr_model(*self)
    }
}

} // verus!
