//! Type tags reported by type errors.
use vstd::prelude::*;

verus! {

/// The type of a value or of an expression node.
#[derive(Debug, Clone, Copy, PartialEq, Eq, Structural)]
pub enum Type {
    Number,
    Bool,
    Str,
    Expression,
    Var,
    Vector,
}

} // verus!
