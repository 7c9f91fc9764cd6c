//! The errors that evaluation reports, and their model.
use vstd::prelude::*;

use crate::types::Type;

verus! {

/// An operand had the wrong type.
#[derive(Debug, PartialEq, Eq)]
pub struct TypeError {
    pub expected: Type,
    pub found: Type,
    pub expression: String,
}

/// A name with no binding was assigned or called.
#[derive(Debug, PartialEq, Eq)]
pub struct UndefVarError {
    pub name: String,
    pub expression: String,
}

/// An index past the end of a vector.
#[derive(Debug, PartialEq, Eq)]
pub struct OOBError {
    pub len: usize,
    pub index: usize,
    pub expression: String,
}

impl TypeError {
    pub fn new(expected_type: Type, given_type: Type, faulty_expression: String) -> (r: Self)
        ensures
            r.expected == expected_type,
            r.found == given_type,
            r.expression@ == faulty_expression@,
    {
        TypeError { expected: expected_type, found: given_type, expression: faulty_expression }
    }
}

impl UndefVarError {
    pub fn new(var_name: String, faulty_expression: String) -> (r: Self)
        ensures
            r.name@ == var_name@,
            r.expression@ == faulty_expression@,
    {
        UndefVarError { name: var_name, expression: faulty_expression }
    }
}

impl OOBError {
    pub fn new(vec_len: usize, attempted_index: usize, faulty_expression: String) -> (r: Self)
        ensures
            r.len == vec_len,
            r.index == attempted_index,
            r.expression@ == faulty_expression@,
    {
        OOBError { len: vec_len, index: attempted_index, expression: faulty_expression }
    }
}

/// Every way in which parsing or evaluation can fail.
#[derive(Debug, PartialEq, Eq)]
pub enum LangError {
    TypeError(TypeError),
    UndefVarError(UndefVarError),
    OutOfBounds(OOBError),
    /// Division or remainder by zero in the given expression.
    DivisionByZero(String),
    /// An arithmetic result outside the range of `i32`.
    Overflow(String),
    /// A form that lacks operands or is not closed.
    ParseError(String),
    /// `input` was evaluated with no line left to read.
    InputExhausted,
    /// The evaluation step budget ran out.
    LimitReached,
}

/// The model of a [`LangError`].
pub enum Fault {
    Type { expected: Type, found: Type, src: Seq<char> },
    Undef { name: Seq<char>, src: Seq<char> },
    OutOfBounds { len: nat, index: nat, src: Seq<char> },
    DivisionByZero { src: Seq<char> },
    Overflow { src: Seq<char> },
    Parse { src: Seq<char> },
    InputExhausted,
    LimitReached,
}

impl View for LangError {
    type V = Fault;

    open spec fn view(&self) -> Fault {
        match self {
            LangError::TypeError(e) => Fault::Type {
                expected: e.expected,
                found: e.found,
                src: e.expression@,
            },
            LangError::UndefVarError(e) => Fault::Undef { name: e.name@, src: e.expression@ },
            LangError::OutOfBounds(e) => Fault::OutOfBounds {
                len: e.len as nat,
                index: e.index as nat,
                src: e.expression@,
            },
            LangError::DivisionByZero(s) => Fault::DivisionByZero { src: s@ },
            LangError::Overflow(s) => Fault::Overflow { src: s@ },
            LangError::ParseError(s) => Fault::Parse { src: s@ },
            LangError::InputExhausted => Fault::InputExhausted,
            LangError::LimitReached => Fault::LimitReached,
        }
    }
}

impl LangError {
    pub fn new_type_error(expected_type: Type, given_type: Type, faulty_expression: String) -> (r:
        Self)
        ensures
            r@ == (Fault::Type { expected: expected_type, found: given_type, src: faulty_expression@ }),
    {
        LangError::TypeError(TypeError::new(expected_type, given_type, faulty_expression))
    }

    pub fn new_undefined_variable_error(var_name: String, faulty_expression: String) -> (r: Self)
        ensures
            r@ == (Fault::Undef { name: var_name@, src: faulty_expression@ }),
    {
        LangError::UndefVarError(UndefVarError::new(var_name, faulty_expression))
    }
}

} // verus!
