//! The tree printer: renders a syntax tree as fully parenthesized
//! prefix-notation text, for diagnostics and tests.
use vstd::prelude::*;
use vstd::string::*;

use crate::expr::{Binary, Expr, ExprModel, Grouping, Literal, LiteralValueModel, Unary};
use crate::number::number_text;

verus! {

/// The display text of a literal node's value: plain decimal for numbers,
/// the raw text for strings, `true`/`false` for booleans, `nil` for nil.
pub open spec fn literal_text(v: LiteralValueModel) -> Seq<char> {
    match v {
        LiteralValueModel::Number(k) => number_text(k),
        LiteralValueModel::String(s) => s,
        LiteralValueModel::Bool(b) => if b {
            seq!['t', 'r', 'u', 'e']
        } else {
            seq!['f', 'a', 'l', 's', 'e']
        },
        LiteralValueModel::Nil => seq!['n', 'i', 'l'],
    }
}

/// The fully parenthesized prefix rendering of a syntax tree: a binary node
/// renders as `(operator left right)`, a unary node as `(operator operand)`,
/// a grouping as `(group inner)`, and a literal as its value's display form.
/// The reserved node shapes render as a fixed placeholder.
pub open spec fn render(e: ExprModel) -> Seq<char>
    decreases e,
{
    match e {
        ExprModel::Binary { left, operator, right } => seq!['('] + operator.lexeme + seq![' ']
            + render(*left) + seq![' '] + render(*right) + seq![')'],
        ExprModel::Grouping { expression } => "(group "@ + render(*expression) + seq![')'],
        ExprModel::Literal { value } => literal_text(value),
        ExprModel::Unary { operator, right } => seq!['('] + operator.lexeme + seq![' '] + render(
            *right,
        ) + seq![')'],
        _ => "(not implemented)"@,
    }
}

/// Law: rendering is deterministic and stable across calls — any two
/// renderings of the same tree are the same text, character for character.
/// Together with `print`'s contract, two calls of `print` on one tree
/// always return equal strings.
pub proof fn lemma_render_stable(e: ExprModel, a: Seq<char>, b: Seq<char>)
    requires
        a == render(e),
        b == render(e),
    ensures
        a == b,
{
}

/// Law: the rendering of every compound node — binary, unary, or grouping —
/// is fully parenthesized: it opens with a parenthesis and closes with the
/// matching one around its operator and children.
pub proof fn lemma_render_parenthesized(e: ExprModel)
    requires
        e is Binary || e is Unary || e is Grouping,
    ensures
        render(e).len() >= 2,
        render(e)[0] == '(',
        render(e).last() == ')',
{
    reveal_strlit("(group ");
    match e {
        ExprModel::Binary { left, operator, right } => {
            let s = seq!['('] + operator.lexeme + seq![' '] + render(*left) + seq![' '] + render(
                *right,
            ) + seq![')'];
            assert(render(e) == s);
            assert(s[0] == '(');
            assert(s.last() == ')');
        },
        ExprModel::Unary { operator, right } => {
            let s = seq!['('] + operator.lexeme + seq![' '] + render(*right) + seq![')'];
            assert(render(e) == s);
            assert(s[0] == '(');
            assert(s.last() == ')');
        },
        ExprModel::Grouping { expression } => {
            let s = "(group "@ + render(*expression) + seq![')'];
            assert(render(e) == s);
            assert(s[0] == '(');
            assert(s.last() == ')');
        },
        _ => {},
    }
}

/// Printer that converts a syntax tree to a human-readable string in
/// Lisp-style parenthesized prefix notation.
pub struct AstPrinter;

impl AstPrinter {
    /// Builds a printer; it carries no state.
    pub fn new() -> (r: Self)
        ensures
            true,
    {
        Self
    }

    /// Converts an expression tree to its prefix-notation text.
    pub fn print(&self, expr: &Expr) -> (r: String)
        ensures
            r@ == render(expr@),
        decreases *expr,
    {
        match expr {
            Expr::Binary(binary) => self.visit_binary(binary),
            Expr::Grouping(grouping) => self.visit_grouping(grouping),
            Expr::Literal(literal) => self.visit_literal(literal),
            Expr::Unary(unary) => self.visit_unary(unary),
            _ => {
                let t = "(not implemented)".to_owned();
                proof {
                    assert(t@ == render(expr@));
                }
                t
            },
        }
    }

    /// Renders a binary node as `(operator left right)`.
    fn visit_binary(&self, expr: &Binary) -> (r: String)
        ensures
            r@ == render(ExprModel::Binary {
                left: Box::new(expr.left@),
                operator: expr.operator@,
                right: Box::new(expr.right@),
            }),
        decreases *expr,
    {
        let mut s = String::new();
        s.append("(");
        s.append(expr.operator.lexeme.as_str());
        s.append(" ");
        let left = self.print(&expr.left);
        s.append(left.as_str());
        s.append(" ");
        let right = self.print(&expr.right);
        s.append(right.as_str());
        s.append(")");
        proof {
            reveal_strlit("(");
            reveal_strlit(" ");
            reveal_strlit(")");
            assert(s@ =~= seq!['('] + expr.operator@.lexeme + seq![' '] + render(expr.left@)
                + seq![' '] + render(expr.right@) + seq![')']);
        }
        s
    }

    /// Renders a grouping node as `(group inner)`.
    fn visit_grouping(&self, expr: &Grouping) -> (r: String)
        ensures
            r@ == render(ExprModel::Grouping { expression: Box::new(expr.expression@) }),
        decreases *expr,
    {
        let mut s = String::new();
        s.append("(group ");
        let inner = self.print(&expr.expression);
        s.append(inner.as_str());
        s.append(")");
        proof {
            reveal_strlit(")");
            assert(s@ =~= "(group "@ + render(expr.expression@) + seq![')']);
        }
        s
    }

    /// Renders a literal node as its value's display form.
    fn visit_literal(&self, expr: &Literal) -> (r: String)
        ensures
            r@ == render(ExprModel::Literal { value: expr.value@ }),
    {
        match &expr.value {
            crate::expr::LiteralValue::Number(n) => n.to_text(),
            crate::expr::LiteralValue::String(s) => s.clone(),
            crate::expr::LiteralValue::Bool(b) => {
                if *b {
                    let t = "true".to_owned();
                    proof {
                        reveal_strlit("true");
                        assert(t@ =~= literal_text(expr.value@));
                    }
                    t
                } else {
                    let t = "false".to_owned();
                    proof {
                        reveal_strlit("false");
                        assert(t@ =~= literal_text(expr.value@));
                    }
                    t
                }
            },
            crate::expr::LiteralValue::Nil => {
                let t = "nil".to_owned();
                proof {
                    reveal_strlit("nil");
                    assert(t@ =~= literal_text(expr.value@));
                }
                t
            },
        }
    }

    /// Renders a unary node as `(operator operand)`.
    fn visit_unary(&self, expr: &Unary) -> (r: String)
        ensures
            r@ == render(ExprModel::Unary {
                operator: expr.operator@,
                right: Box::new(expr.right@),
            }),
        decreases *expr,
    {
        let mut s = String::new();
        s.append("(");
        s.append(expr.operator.lexeme.as_str());
        s.append(" ");
        let right = self.print(&expr.right);
        s.append(right.as_str());
        s.append(")");
        proof {
            reveal_strlit("(");
            reveal_strlit(" ");
            reveal_strlit(")");
            assert(s@ =~= seq!['('] + expr.operator@.lexeme + seq![' '] + render(expr.right@)
                + seq![')']);
        }
        s
    }
}

} // verus!
