//! Literal values.

use vstd::prelude::*;

verus! {

/// A literal as it stands in the source. A floating-point literal is kept as
/// written (digits, a dot, digits): its numeric value is for the evaluator.
#[derive(Debug, PartialEq)]
pub enum Value {
    Int(i64),
    Float(String),
    Bool(bool),
    Str(String),
    Null,
}

/// What a [`Value`] denotes.
pub enum ValueView {
    Int(i64),
    Float(Seq<char>),
    Bool(bool),
    Str(Seq<char>),
    Null,
}

impl View for Value {
    type V = ValueView;

    open spec fn view(&self) -> ValueView {
        match self {
            Value::Int(i) => ValueView::Int(*i),
            Value::Float(s) => ValueView::Float(s@),
            Value::Bool(b) => ValueView::Bool(*b),
            Value::Str(s) => ValueView::Str(s@),
            Value::Null => ValueView::Null,
        }
    }
}

impl Clone for Value {
    fn clone(&self) -> (r: Value)
        ensures
            r@ == self@,
    {
        match self {
            Value::Int(i) => Value::Int(*i),
            Value::Float(s) => Value::Float(s.clone()),
            Value::Bool(b) => Value::Bool(*b),
            Value::Str(s) => Value::Str(s.clone()),
            Value::Null => Value::Null,
        }
    }
}

impl ValueView {
    /// The name of the kind of value.
    pub open spec fn kind_name(self) -> Seq<char> {
        match self {
            ValueView::Int(_) => "int"@,
            ValueView::Float(_) => "float"@,
            ValueView::Bool(_) => "bool"@,
            ValueView::Str(_) => "string"@,
            ValueView::Null => "null"@,
        }
    }
}

impl Value {
    /// The name of the kind of value: `int`, `float`, `bool`, `string` or `null`.
    pub fn kind_name(&self) -> (r: &'static str)
        ensures
            r@ == self@.kind_name(),
    {
        match self {
            Value::Int(_) => "int",
            Value::Float(_) => "float",
            Value::Bool(_) => "bool",
            Value::Str(_) => "string",
            Value::Null => "null",
        }
    }
}

} // verus!
