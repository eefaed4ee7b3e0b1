//! The evaluator: recursive post-order evaluation of a syntax tree into a
//! runtime value or a typed runtime failure.
use vstd::prelude::*;
use vstd::string::*;

use crate::expr::{Binary, Expr, ExprModel, Grouping, Literal, Unary};
use crate::lox_value::{literal_to_value, truthy, values_equal, LoxValue, ValueModel};
use crate::number::{div_trunc, in_range, Number, SCALE};
use crate::runtime_error::{ErrorModel, RuntimeError};
use crate::token::{TokenModel, TokenType};

verus! {

/// The token a reserved, unsupported node shape reports as its location.
pub open spec fn reserved_token(e: ExprModel) -> TokenModel
    recommends
        !(e is Binary) && !(e is Grouping) && !(e is Literal) && !(e is Unary),
{
    match e {
        ExprModel::Assign { name, .. } => name,
        ExprModel::Call { paren, .. } => paren,
        ExprModel::Get { name, .. } => name,
        ExprModel::Logical { operator, .. } => operator,
        ExprModel::SetExpr { name, .. } => name,
        ExprModel::Super { keyword, .. } => keyword,
        ExprModel::This { keyword } => keyword,
        ExprModel::Variable { name } => name,
        _ => arbitrary(),
    }
}

/// What a unary operator yields on an already-evaluated operand.
pub open spec fn eval_unary_op(operator: TokenModel, v: ValueModel) -> Result<
    ValueModel,
    ErrorModel,
> {
    match operator.token_type {
        TokenType::Minus => match v {
            ValueModel::Number(k) => Ok(ValueModel::Number(-k)),
            _ => Err(ErrorModel { token: operator, message: "Operand must be a number."@ }),
        },
        TokenType::Bang => Ok(ValueModel::Bool(!truthy(v))),
        _ => Err(ErrorModel { token: operator, message: "Invalid unary operator."@ }),
    }
}

/// What a binary operator yields on two already-evaluated operands.
///
/// Sums and differences are exact; products and quotients are truncated
/// toward zero to the nine-digit grid; a result beyond the representable
/// range is a runtime failure. Division by zero is detected before any
/// division is performed.
pub open spec fn eval_binary_op(operator: TokenModel, l: ValueModel, r: ValueModel) -> Result<
    ValueModel,
    ErrorModel,
> {
    match operator.token_type {
        TokenType::Minus => match (l, r) {
            (ValueModel::Number(a), ValueModel::Number(b)) => num_result(operator, a - b),
            _ => Err(numbers_error(operator)),
        },
        TokenType::Star => match (l, r) {
            (ValueModel::Number(a), ValueModel::Number(b)) => num_result(
                operator,
                div_trunc(a * b, SCALE as int),
            ),
            _ => Err(numbers_error(operator)),
        },
        TokenType::Slash => match (l, r) {
            (ValueModel::Number(a), ValueModel::Number(b)) => if b == 0 {
                Err(ErrorModel { token: operator, message: "Division by zero."@ })
            } else {
                num_result(operator, div_trunc(a * SCALE as int, b))
            },
            _ => Err(numbers_error(operator)),
        },
        TokenType::Plus => match (l, r) {
            (ValueModel::Number(a), ValueModel::Number(b)) => num_result(operator, a + b),
            (ValueModel::String(a), ValueModel::String(b)) => Ok(ValueModel::String(a + b)),
            _ => Err(
                ErrorModel {
                    token: operator,
                    message: "Operands must be two numbers or two strings."@,
                },
            ),
        },
        TokenType::Greater => match (l, r) {
            (ValueModel::Number(a), ValueModel::Number(b)) => Ok(ValueModel::Bool(a > b)),
            _ => Err(numbers_error(operator)),
        },
        TokenType::GreaterEqual => match (l, r) {
            (ValueModel::Number(a), ValueModel::Number(b)) => Ok(ValueModel::Bool(a >= b)),
            _ => Err(numbers_error(operator)),
        },
        TokenType::Less => match (l, r) {
            (ValueModel::Number(a), ValueModel::Number(b)) => Ok(ValueModel::Bool(a < b)),
            _ => Err(numbers_error(operator)),
        },
        TokenType::LessEqual => match (l, r) {
            (ValueModel::Number(a), ValueModel::Number(b)) => Ok(ValueModel::Bool(a <= b)),
            _ => Err(numbers_error(operator)),
        },
        TokenType::EqualEqual => Ok(ValueModel::Bool(values_equal(l, r))),
        TokenType::BangEqual => Ok(ValueModel::Bool(!values_equal(l, r))),
        _ => Err(ErrorModel { token: operator, message: "Invalid binary operator."@ }),
    }
}

/// The failure reported when an arithmetic or relational operator meets a
/// non-numeric operand.
pub open spec fn numbers_error(operator: TokenModel) -> ErrorModel {
    ErrorModel { token: operator, message: "Operands must be numbers."@ }
}

/// A numeric result when it is representable, a range failure otherwise.
pub open spec fn num_result(operator: TokenModel, k: int) -> Result<ValueModel, ErrorModel> {
    if in_range(k) {
        Ok(ValueModel::Number(k))
    } else {
        Err(ErrorModel { token: operator, message: "Number out of range."@ })
    }
}

/// What evaluating a tree yields: post-order, with the first failure from a
/// sub-expression short-circuiting the enclosing evaluation.
pub open spec fn eval_expr(e: ExprModel) -> Result<ValueModel, ErrorModel>
    decreases e,
{
    match e {
        ExprModel::Literal { value } => Ok(literal_to_value(value)),
        ExprModel::Grouping { expression } => eval_expr(*expression),
        ExprModel::Unary { operator, right } => match eval_expr(*right) {
            Ok(v) => eval_unary_op(operator, v),
            Err(err) => Err(err),
        },
        ExprModel::Binary { left, operator, right } => match eval_expr(*left) {
            Ok(l) => match eval_expr(*right) {
                Ok(r) => eval_binary_op(operator, l, r),
                Err(err) => Err(err),
            },
            Err(err) => Err(err),
        },
        _ => Err(
            ErrorModel {
                token: reserved_token(e),
                message: "This expression is not supported in this subset."@,
            },
        ),
    }
}

/// Whether an executable evaluation outcome models a specification outcome.
pub open spec fn outcome_models(
    r: Result<LoxValue, RuntimeError>,
    s: Result<ValueModel, ErrorModel>,
) -> bool {
    match (r, s) {
        (Ok(v), Ok(m)) => v@ == m,
        (Err(e), Err(m)) => e@ == m,
        _ => false,
    }
}

/// The tree-walking evaluator. It holds no state: evaluation is a pure
/// function of the tree.
pub struct Interpreter;

impl Interpreter {
    /// Builds an evaluator.
    pub fn new() -> (r: Self)
        ensures
            true,
    {
        Self
    }

    /// Evaluates an expression tree to a runtime value or the first runtime
    /// failure, exactly as `eval_expr` describes.
    pub fn evaluate(&mut self, expr: &Expr) -> (r: Result<LoxValue, RuntimeError>)
        ensures
            outcome_models(r, eval_expr(expr@)),
        decreases *expr,
    {
        match expr {
            Expr::Literal(lit) => Ok(self.visit_literal(lit)),
            Expr::Grouping(grp) => self.visit_grouping(grp),
            Expr::Unary(un) => self.visit_unary(un),
            Expr::Binary(bin) => self.visit_binary(bin),
            Expr::Assign(n) => Err(
                RuntimeError::new(&n.name, "This expression is not supported in this subset."),
            ),
            Expr::Call(n) => Err(
                RuntimeError::new(&n.paren, "This expression is not supported in this subset."),
            ),
            Expr::Get(n) => Err(
                RuntimeError::new(&n.name, "This expression is not supported in this subset."),
            ),
            Expr::Logical(n) => Err(
                RuntimeError::new(&n.operator, "This expression is not supported in this subset."),
            ),
            Expr::SetExpr(n) => Err(
                RuntimeError::new(&n.name, "This expression is not supported in this subset."),
            ),
            Expr::Super(n) => Err(
                RuntimeError::new(&n.keyword, "This expression is not supported in this subset."),
            ),
            Expr::This(n) => Err(
                RuntimeError::new(&n.keyword, "This expression is not supported in this subset."),
            ),
            Expr::Variable(n) => Err(
                RuntimeError::new(&n.name, "This expression is not supported in this subset."),
            ),
        }
    }

    /// A literal evaluates to its value, converted with no coercion.
    fn visit_literal(&mut self, literal: &Literal) -> (r: LoxValue)
        ensures
            r@ == literal_to_value(literal.value@),
    {
        LoxValue::from(literal.value.clone())
    }

    /// A grouping evaluates to whatever its inner expression evaluates to.
    fn visit_grouping(&mut self, grouping: &Grouping) -> (r: Result<LoxValue, RuntimeError>)
        ensures
            outcome_models(r, eval_expr(grouping.expression@)),
        decreases *grouping,
    {
        self.evaluate(&grouping.expression)
    }

    /// Evaluates the operand, then applies the unary operator.
    fn visit_unary(&mut self, unary: &Unary) -> (r: Result<LoxValue, RuntimeError>)
        ensures
            outcome_models(
                r,
                eval_expr(
                    ExprModel::Unary { operator: unary.operator@, right: Box::new(unary.right@) },
                ),
            ),
        decreases *unary,
    {
        let right = match self.evaluate(&unary.right) {
            Ok(v) => v,
            Err(e) => {
                return Err(e);
            },
        };
        match unary.operator.token_type {
            TokenType::Minus => {
                match right.as_number() {
                    Some(n) => Ok(LoxValue::Number(n.neg())),
                    None => Err(RuntimeError::new(&unary.operator, "Operand must be a number.")),
                }
            },
            TokenType::Bang => Ok(LoxValue::Bool(!right.is_truthy())),
            _ => Err(RuntimeError::new(&unary.operator, "Invalid unary operator.")),
        }
    }

    /// Evaluates both operands left to right, then applies the binary
    /// operator.
    fn visit_binary(&mut self, binary: &Binary) -> (r: Result<LoxValue, RuntimeError>)
        ensures
            outcome_models(
                r,
                eval_expr(
                    ExprModel::Binary {
                        left: Box::new(binary.left@),
                        operator: binary.operator@,
                        right: Box::new(binary.right@),
                    },
                ),
            ),
        decreases *binary,
    {
        let left = match self.evaluate(&binary.left) {
            Ok(v) => v,
            Err(e) => {
                return Err(e);
            },
        };
        let right = match self.evaluate(&binary.right) {
            Ok(v) => v,
            Err(e) => {
                return Err(e);
            },
        };
        match binary.operator.token_type {
            TokenType::Minus => {
                match (left.as_number(), right.as_number()) {
                    (Some(l), Some(r)) => self.num_or_range_error(
                        &binary.operator,
                        l.checked_sub(&r),
                    ),
                    _ => Err(RuntimeError::new(&binary.operator, "Operands must be numbers.")),
                }
            },
            TokenType::Star => {
                match (left.as_number(), right.as_number()) {
                    (Some(l), Some(r)) => self.num_or_range_error(
                        &binary.operator,
                        l.checked_mul(&r),
                    ),
                    _ => Err(RuntimeError::new(&binary.operator, "Operands must be numbers.")),
                }
            },
            TokenType::Slash => {
                match (left.as_number(), right.as_number()) {
                    (Some(l), Some(r)) => {
                        if r.is_zero() {
                            Err(RuntimeError::new(&binary.operator, "Division by zero."))
                        } else {
                            self.num_or_range_error(&binary.operator, l.checked_div(&r))
                        }
                    },
                    _ => Err(RuntimeError::new(&binary.operator, "Operands must be numbers.")),
                }
            },
            TokenType::Plus => {
                match (left.as_number(), right.as_number()) {
                    (Some(l), Some(r)) => self.num_or_range_error(
                        &binary.operator,
                        l.checked_add(&r),
                    ),
                    _ => {
                        match (left.as_string(), right.as_string()) {
                            (Some(l), Some(r)) => Ok(LoxValue::String(l.to_owned().concat(r))),
                            _ => Err(
                                RuntimeError::new(
                                    &binary.operator,
                                    "Operands must be two numbers or two strings.",
                                ),
                            ),
                        }
                    },
                }
            },
            TokenType::Greater => {
                match (left.as_number(), right.as_number()) {
                    (Some(l), Some(r)) => Ok(LoxValue::Bool(l.gt(&r))),
                    _ => Err(RuntimeError::new(&binary.operator, "Operands must be numbers.")),
                }
            },
            TokenType::GreaterEqual => {
                match (left.as_number(), right.as_number()) {
                    (Some(l), Some(r)) => Ok(LoxValue::Bool(l.ge(&r))),
                    _ => Err(RuntimeError::new(&binary.operator, "Operands must be numbers.")),
                }
            },
            TokenType::Less => {
                match (left.as_number(), right.as_number()) {
                    (Some(l), Some(r)) => Ok(LoxValue::Bool(l.lt(&r))),
                    _ => Err(RuntimeError::new(&binary.operator, "Operands must be numbers.")),
                }
            },
            TokenType::LessEqual => {
                match (left.as_number(), right.as_number()) {
                    (Some(l), Some(r)) => Ok(LoxValue::Bool(l.le(&r))),
                    _ => Err(RuntimeError::new(&binary.operator, "Operands must be numbers.")),
                }
            },
            TokenType::EqualEqual => Ok(LoxValue::Bool(self.is_equal(&left, &right))),
            TokenType::BangEqual => Ok(LoxValue::Bool(!self.is_equal(&left, &right))),
            _ => Err(RuntimeError::new(&binary.operator, "Invalid binary operator.")),
        }
    }

    /// Wraps a checked numeric result, reporting a range failure at the
    /// given operator when the result is not representable.
    fn num_or_range_error(&self, operator: &crate::token::Token, n: Option<Number>) -> (r: Result<
        LoxValue,
        RuntimeError,
    >)
        ensures
            match n {
                Some(v) => r matches Ok(x) && x@ == ValueModel::Number(v@),
                None => r matches Err(e) && e@ == (ErrorModel {
                    token: operator@,
                    message: "Number out of range."@,
                }),
            },
    {
        match n {
            Some(v) => Ok(LoxValue::Number(v)),
            None => Err(RuntimeError::new(operator, "Number out of range.")),
        }
    }

    /// Structural equality of two runtime values.
    fn is_equal(&self, left: &LoxValue, right: &LoxValue) -> (r: bool)
        ensures
            r == values_equal(left@, right@),
    {
        left.equals(right)
    }
}



} // verus!
