//! User-defined functions: a name, parameter names and an unevaluated body.
use vstd::prelude::*;

use crate::tokens::{Expr, Tree};

verus! {

/// A function table entry.
#[derive(Debug)]
pub struct Function {
    pub name: String,
    pub args: Vec<String>,
    pub core: Box<Expr>,
}

/// The model of a [`Function`].
pub struct FunSpec {
    pub name: Seq<char>,
    pub params: Seq<Seq<char>>,
    pub body: Tree,
}

/// The views of a list of strings.
pub open spec fn strings(v: Seq<String>) -> Seq<Seq<char>> {
    v.map_values(|s: String| s@)
}

impl View for Function {
    type V = FunSpec;

    open spec fn view(&self) -> FunSpec {
        FunSpec { name: self.name@, params: strings(self.args@), body: self.core@ }
    }
}

/// A copy of a list of strings.
pub fn copy_strings(v: &Vec<String>) -> (r: Vec<String>)
    ensures
        strings(r@) == strings(v@),
{
    let mut r: Vec<String> = Vec::new();
    let mut i: usize = 0;
    while i < v.len()
        invariant
            i <= v@.len(),
            r@.len() == i,
            forall|j: int| 0 <= j < i ==> (#[trigger] r@[j])@ == v@[j]@,
        decreases v.len() - i,
    {
        r.push(v[i].clone());
        i = i + 1;
    }
    assert(strings(r@) =~= strings(v@));
    r
}

impl Function {
    pub fn new(name: String, args: Vec<String>, core: Box<Expr>) -> (r: Self)
        ensures
            r@ == (FunSpec { name: name@, params: strings(args@), body: core@ }),
    {
        Function { name, args, core }
    }

    /// A copy of the parameter names.
    pub fn get_args(&self) -> (r: Vec<String>)
        ensures
            strings(r@) == self@.params,
    {
        copy_strings(&self.args)
    }

    /// A copy of the body.
    pub fn get_core(&self) -> (r: Box<Expr>)
        ensures
            r@ == self@.body,
    {
        Box::new(self.core.duplicate())
    }
}

} // verus!
