//! Runtime values and their mathematical model.
use vstd::prelude::*;

use crate::text::{int_chars, int_text, push_chars};
use crate::types::Type;

verus! {

/// The result of evaluating an expression.
#[derive(Debug, PartialEq, Eq)]
pub enum Value {
    Number(i32),
    Bool(bool),
    Str(String),
    EnumElement(String),
    /// A variable name that had no binding when it was read.
    Var(String),
    Empty,
}

/// The model of a [`Value`].
pub enum Val {
    Number(i32),
    Bool(bool),
    Str(Seq<char>),
    EnumElement(Seq<char>),
    Var(Seq<char>),
    Empty,
}

impl View for Value {
    type V = Val;

    open spec fn view(&self) -> Val {
        match self {
            Value::Number(n) => Val::Number(*n),
            Value::Bool(b) => Val::Bool(*b),
            Value::Str(s) => Val::Str(s@),
            Value::EnumElement(s) => Val::EnumElement(s@),
            Value::Var(s) => Val::Var(s@),
            Value::Empty => Val::Empty,
        }
    }
}

impl Clone for Value {
    fn clone(&self) -> (r: Self)
        ensures
            r@ == self@,
    {
        match self {
            Value::Number(n) => Value::Number(*n),
            Value::Bool(b) => Value::Bool(*b),
            Value::Str(s) => Value::Str(s.clone()),
            Value::EnumElement(s) => Value::EnumElement(s.clone()),
            Value::Var(s) => Value::Var(s.clone()),
            Value::Empty => Value::Empty,
        }
    }
}

/// The type tag of a value.
pub open spec fn type_of(v: Val) -> Type {
    match v {
        Val::Number(_) => Type::Number,
        Val::Bool(_) => Type::Bool,
        Val::Str(_) => Type::Str,
        Val::Var(_) => Type::Var,
        _ => Type::Expression,
    }
}

/// The text that printing a value writes.
pub open spec fn render(v: Val) -> Seq<char> {
    match v {
        Val::Number(n) => int_text(n as int),
        Val::Bool(b) => if b {
            seq!['t', 'r', 'u', 'e']
        } else {
            seq!['f', 'a', 'l', 's', 'e']
        },
        Val::Str(s) => s,
        _ => Seq::empty(),
    }
}

impl Value {
    /// The type tag of this value.
    pub fn get_type(&self) -> (r: Type)
        ensures
            r == type_of(self@),
    {
        match self {
            Value::Number(_) => Type::Number,
            Value::Bool(_) => Type::Bool,
            Value::Str(_) => Type::Str,
            Value::Var(_) => Type::Var,
            _ => Type::Expression,
        }
    }

    /// Appends the printed form of this value to `out`.
    pub fn write_to(&self, out: &mut String)
        ensures
            final(out)@ == old(out)@ + render(self@),
    {
        match self {
            Value::Number(n) => {
                let t = int_chars(*n);
                push_chars(out, &t);
            },
            Value::Bool(b) => {
                let t = if *b {
                    vec!['t', 'r', 'u', 'e']
                } else {
                    vec!['f', 'a', 'l', 's', 'e']
                };
                push_chars(out, &t);
                assert(t@ =~= render(self@));
            },
            Value::Str(s) => {
                let t = crate::text::chars_of(s.as_str());
                push_chars(out, &t);
            },
            _ => {
                assert(old(out)@ + render(self@) =~= old(out)@);
            },
        }
    }
}

} // verus!
