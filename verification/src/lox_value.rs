//! The runtime value model: the closed set of values evaluation can produce,
//! with their truthiness and display rules.
use vstd::prelude::*;
use vstd::string::*;

use crate::expr::{LiteralValue, LiteralValueModel};
use crate::number::{number_text, Number};

verus! {

/// A runtime value: what evaluating an expression produces.
#[derive(Debug, PartialEq)]
pub enum LoxValue {
    Number(Number),
    String(String),
    Bool(bool),
    Nil,
}

impl Clone for LoxValue {
    /// Cloning keeps the value exactly.
    fn clone(&self) -> (r: Self)
        ensures
            r == *self,
    {
        match self {
            LoxValue::Number(n) => LoxValue::Number(*n),
            LoxValue::String(s) => LoxValue::String(s.clone()),
            LoxValue::Bool(b) => LoxValue::Bool(*b),
            LoxValue::Nil => LoxValue::Nil,
        }
    }
}

/// Mathematical model of a runtime value.
pub enum ValueModel {
    Number(int),
    String(Seq<char>),
    Bool(bool),
    Nil,
}

impl View for LoxValue {
    type V = ValueModel;

    open spec fn view(&self) -> ValueModel {
        match self {
            LoxValue::Number(n) => ValueModel::Number(n@),
            LoxValue::String(s) => ValueModel::String(s@),
            LoxValue::Bool(b) => ValueModel::Bool(*b),
            LoxValue::Nil => ValueModel::Nil,
        }
    }
}

/// The truthiness rule: `false` and `nil` are falsy, every other value is
/// truthy, including zero and the empty string.
pub open spec fn truthy(v: ValueModel) -> bool {
    match v {
        ValueModel::Bool(b) => b,
        ValueModel::Nil => false,
        _ => true,
    }
}

/// The conversion of a literal node's value into a runtime value: the same
/// value, with no computation.
pub open spec fn literal_to_value(l: LiteralValueModel) -> ValueModel {
    match l {
        LiteralValueModel::Number(k) => ValueModel::Number(k),
        LiteralValueModel::String(s) => ValueModel::String(s),
        LiteralValueModel::Bool(b) => ValueModel::Bool(b),
        LiteralValueModel::Nil => ValueModel::Nil,
    }
}

/// Structural equality of runtime values: equal only if both the kind and
/// the value match; values of different kinds are never equal.
pub open spec fn values_equal(a: ValueModel, b: ValueModel) -> bool {
    match (a, b) {
        (ValueModel::Number(x), ValueModel::Number(y)) => x == y,
        (ValueModel::String(x), ValueModel::String(y)) => x == y,
        (ValueModel::Bool(x), ValueModel::Bool(y)) => x == y,
        (ValueModel::Nil, ValueModel::Nil) => true,
        _ => false,
    }
}

/// Law: equality never crosses kinds — two values can only be equal when
/// they are of the same kind, so no value is ever coerced for comparison.
pub proof fn lemma_equality_requires_same_kind(a: ValueModel, b: ValueModel)
    ensures
        values_equal(a, b) ==> ((a is Number && b is Number) || (a is String && b is String) || (
        a is Bool && b is Bool) || (a is Nil && b is Nil)),
{
}

/// The display text of a runtime value.
pub open spec fn value_text(v: ValueModel) -> Seq<char> {
    match v {
        ValueModel::Number(k) => number_text(k),
        ValueModel::String(s) => s,
        ValueModel::Bool(b) => if b {
            seq!['t', 'r', 'u', 'e']
        } else {
            seq!['f', 'a', 'l', 's', 'e']
        },
        ValueModel::Nil => seq!['n', 'i', 'l'],
    }
}

impl LoxValue {
    /// Whether this value counts as true: `false` and `nil` are falsy,
    /// everything else is truthy.
    pub fn is_truthy(&self) -> (r: bool)
        ensures
            r == truthy(self@),
    {
        match self {
            LoxValue::Bool(b) => *b,
            LoxValue::Nil => false,
            _ => true,
        }
    }

    /// The contained number, when this value is a number.
    pub fn as_number(&self) -> (r: Option<Number>)
        ensures
            match r {
                Some(n) => self@ == ValueModel::Number(n@),
                None => !(self@ is Number),
            },
    {
        match self {
            LoxValue::Number(n) => Some(*n),
            _ => None,
        }
    }

    /// The contained text, when this value is a string.
    pub fn as_string(&self) -> (r: Option<&str>)
        ensures
            match r {
                Some(s) => self@ == ValueModel::String(s@),
                None => !(self@ is String),
            },
    {
        match self {
            LoxValue::String(s) => Some(s.as_str()),
            _ => None,
        }
    }

    /// The contained boolean, when this value is a boolean.
    pub fn as_bool(&self) -> (r: Option<bool>)
        ensures
            match r {
                Some(b) => self@ == ValueModel::Bool(b),
                None => !(self@ is Bool),
            },
    {
        match self {
            LoxValue::Bool(b) => Some(*b),
            _ => None,
        }
    }

    /// Whether this value is `nil`.
    pub fn as_nil(&self) -> (r: bool)
        ensures
            r == (self@ is Nil),
    {
        match self {
            LoxValue::Nil => true,
            _ => false,
        }
    }

    /// Structural equality with another value.
    pub fn equals(&self, other: &LoxValue) -> (r: bool)
        ensures
            r == values_equal(self@, other@),
    {
        match (self, other) {
            (LoxValue::Number(a), LoxValue::Number(b)) => a.eq_value(b),
            (LoxValue::String(a), LoxValue::String(b)) => a.eq(b),
            (LoxValue::Bool(a), LoxValue::Bool(b)) => *a == *b,
            (LoxValue::Nil, LoxValue::Nil) => true,
            _ => false,
        }
    }

    /// The display text of this value: plain decimal for numbers, the raw
    /// text for strings, `true`/`false` for booleans, and `nil` for nil.
    pub fn to_text(&self) -> (r: String)
        ensures
            r@ == value_text(self@),
    {
        match self {
            LoxValue::Number(n) => n.to_text(),
            LoxValue::String(s) => s.clone(),
            LoxValue::Bool(b) => {
                if *b {
                    let t = "true".to_owned();
                    proof {
                        reveal_strlit("true");
                        assert(t@ =~= value_text(self@));
                    }
                    t
                } else {
                    let t = "false".to_owned();
                    proof {
                        reveal_strlit("false");
                        assert(t@ =~= value_text(self@));
                    }
                    t
                }
            },
            LoxValue::Nil => {
                let t = "nil".to_owned();
                proof {
                    reveal_strlit("nil");
                    assert(t@ =~= value_text(self@));
                }
                t
            },
        }
    }
}

impl From<LiteralValue> for LoxValue {
    /// A literal value converts losslessly into the runtime value of the
    /// same kind.
    fn from(literal_value: LiteralValue) -> (r: LoxValue) {
        match literal_value {
            LiteralValue::Number(n) => LoxValue::Number(n),
            LiteralValue::String(s) => LoxValue::String(s),
            LiteralValue::Bool(b) => LoxValue::Bool(b),
            LiteralValue::Nil => LoxValue::Nil,
        }
    }
}

impl vstd::std_specs::convert::FromSpecImpl<LiteralValue> for LoxValue {
    open spec fn obeys_from_spec() -> bool {
        true
    }

    open spec fn from_spec(literal_value: LiteralValue) -> LoxValue {
        match literal_value {
            LiteralValue::Number(n) => LoxValue::Number(n),
            LiteralValue::String(s) => LoxValue::String(s),
            LiteralValue::Bool(b) => LoxValue::Bool(b),
            LiteralValue::Nil => LoxValue::Nil,
        }
    }
}

/// Converting a literal value to a runtime value keeps its model.
pub proof fn lemma_from_literal_model(l: LiteralValue)
    ensures
        (<LoxValue as vstd::std_specs::convert::FromSpec<LiteralValue>>::from_spec(l))@
            == literal_to_value(l@),
{
}

} // verus!
