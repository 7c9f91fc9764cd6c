//! What evaluating an expression tree means: a result and the state that
//! follows, within a budget of nested steps (`fuel`).
use vstd::prelude::*;

use crate::env::{bind, initial, lookup, restore, State};
use crate::errors::Fault;
use crate::functions::FunSpec;
use crate::text::{parse_int, trim};
use crate::tokens::{tree_type, BinOp, Tree};
use crate::types::Type;
use crate::values::{render, type_of, Val};

verus! {

/// An integer result, or an overflow error when it leaves the range of `i32`.
pub open spec fn checked(v: int, src: Seq<char>) -> Result<Val, Fault> {
    if i32::MIN <= v <= i32::MAX {
        Ok(Val::Number(v as i32))
    } else {
        Err(Fault::Overflow { src })
    }
}

pub open spec fn abs(a: int) -> int {
    if a < 0 {
        -a
    } else {
        a
    }
}

/// Division rounding toward zero.
pub open spec fn trunc_div(a: int, b: int) -> int {
    let q = abs(a) / abs(b);
    if (a < 0) != (b < 0) {
        -q
    } else {
        q
    }
}

/// The remainder that goes with `trunc_div`; it has the sign of `a`.
pub open spec fn trunc_rem(a: int, b: int) -> int {
    a - b * trunc_div(a, b)
}

/// A binary operator applied to two numbers.
pub open spec fn arith(op: BinOp, a: i32, b: i32, src: Seq<char>) -> Result<Val, Fault> {
    match op {
        BinOp::Add => checked(a + b, src),
        BinOp::Sub => checked(a - b, src),
        BinOp::Mul => checked(a * b, src),
        BinOp::Div => if b == 0 {
            Err(Fault::DivisionByZero { src })
        } else {
            checked(trunc_div(a as int, b as int), src)
        },
        BinOp::Mod => if b == 0 {
            Err(Fault::DivisionByZero { src })
        } else {
            checked(trunc_rem(a as int, b as int), src)
        },
        BinOp::Equal => Ok(Val::Bool(a == b)),
        BinOp::NEqual => Ok(Val::Bool(a != b)),
        BinOp::GreaterThan => Ok(Val::Bool(a > b)),
        BinOp::GreaterEqualThan => Ok(Val::Bool(a >= b)),
        BinOp::LessThan => Ok(Val::Bool(a < b)),
        BinOp::LessEqualThan => Ok(Val::Bool(a <= b)),
        _ => Ok(Val::Empty),
    }
}

pub open spec fn is_logical(op: BinOp) -> bool {
    op == BinOp::And || op == BinOp::Or
}

/// A binary operator applied to two values: `&&` and `||` take booleans,
/// every other operator takes numbers; the left operand is checked first.
pub open spec fn apply_binary(op: BinOp, x: Val, y: Val, src: Seq<char>) -> Result<Val, Fault> {
    if is_logical(op) {
        match (x, y) {
            (Val::Bool(a), Val::Bool(b)) => Ok(
                Val::Bool(
                    if op == BinOp::And {
                        a && b
                    } else {
                        a || b
                    },
                ),
            ),
            (Val::Bool(_), _) => Err(Fault::Type { expected: Type::Bool, found: type_of(y), src }),
            _ => Err(Fault::Type { expected: Type::Bool, found: type_of(x), src }),
        }
    } else {
        match (x, y) {
            (Val::Number(a), Val::Number(b)) => arith(op, a, b, src),
            (Val::Number(_), _) => Err(
                Fault::Type { expected: Type::Number, found: type_of(y), src },
            ),
            _ => Err(Fault::Type { expected: Type::Number, found: type_of(x), src }),
        }
    }
}

/// The value of variable `x`: an unbound name stands for itself, and a
/// binding to another name is followed, at most `fuel` times. Evaluation
/// gives it as many steps as there are bindings, so only a cycle of names
/// runs out.
pub open spec fn resolve(x: Seq<char>, vars: Seq<(Seq<char>, Val)>, fuel: nat) -> Result<Val, Fault>
    decreases fuel,
{
    match lookup(vars, x) {
        None => Ok(Val::Var(x)),
        Some(Val::Var(y)) => if fuel == 0 {
            Err(Fault::LimitReached)
        } else {
            resolve(y, vars, (fuel - 1) as nat)
        },
        Some(v) => Ok(v),
    }
}

pub open spec fn with_vars(s: State, vars: Seq<(Seq<char>, Val)>) -> State {
    State { vars, ..s }
}

/// The parameter names that one parameter expression declares: a name, or
/// a parenthesised group of names.
pub open spec fn param_names(p: Tree, src: Seq<char>) -> Result<Seq<Seq<char>>, Fault> {
    match p {
        Tree::Var(x) => Ok(seq![x]),
        Tree::Sequence(items, _) => names_upto(items, items.len() as int, src),
        _ => Err(Fault::Type { expected: Type::Var, found: tree_type(p), src }),
    }
}

/// The names of `items[0..i]`, each of which must be a variable.
pub open spec fn names_upto(items: Seq<Tree>, i: int, src: Seq<char>) -> Result<Seq<Seq<char>>, Fault>
    decreases i,
{
    if i <= 0 {
        Ok(Seq::empty())
    } else {
        match names_upto(items, i - 1, src) {
            Err(e) => Err(e),
            Ok(acc) => match items[i - 1] {
                Tree::Var(x) => Ok(acc.push(x)),
                _ => Err(Fault::Type { expected: Type::Var, found: tree_type(items[i - 1]), src }),
            },
        }
    }
}

/// The parameter names declared by `ps[0..i]`.
pub open spec fn params_upto(ps: Seq<Tree>, i: int, src: Seq<char>) -> Result<Seq<Seq<char>>, Fault>
    decreases i,
{
    if i <= 0 {
        Ok(Seq::empty())
    } else {
        match params_upto(ps, i - 1, src) {
            Err(e) => Err(e),
            Ok(acc) => match param_names(ps[i - 1], src) {
                Err(e) => Err(e),
                Ok(h) => Ok(acc + h),
            },
        }
    }
}

/// `def`: registers a function; nothing is evaluated.
pub open spec fn define(name: Tree, ps: Seq<Tree>, body: Tree, src: Seq<char>, s: State) -> (
    Result<Val, Fault>,
    State,
) {
    match name {
        Tree::Var(n) => match params_upto(ps, ps.len() as int, src) {
            Err(e) => (Err(e), s),
            Ok(params) => (
                Ok(Val::Empty),
                State { funs: bind(s.funs, n, FunSpec { name: n, params, body }), ..s },
            ),
        },
        _ => (Err(Fault::Type { expected: Type::Var, found: tree_type(name), src }), s),
    }
}

/// The text of a name in an `enum` declaration: a string literal or a bare name.
pub open spec fn enum_text(t: Tree) -> Option<Seq<char>> {
    match t {
        Tree::Str(x) => Some(x),
        Tree::Var(x) => Some(x),
        _ => None,
    }
}

/// The qualified name `e.m` of a member.
pub open spec fn qualified(e: Seq<char>, m: Seq<char>) -> Seq<char> {
    e + seq!['.'] + m
}

/// The first member of `ms[i..]` that is not a name, if any.
pub open spec fn bad_member(ms: Seq<Tree>, i: int) -> Option<Tree>
    decreases ms.len() - i,
{
    if i < 0 || i >= ms.len() {
        None
    } else if enum_text(ms[i]) is None {
        Some(ms[i])
    } else {
        bad_member(ms, i + 1)
    }
}

/// `vars` with each member of `ms[i..]` bound to itself as an enum element
/// under its qualified name.
pub open spec fn bind_members(vars: Seq<(Seq<char>, Val)>, e: Seq<char>, ms: Seq<Tree>, i: int) -> Seq<(Seq<char>, Val)>
    decreases ms.len() - i,
{
    if i < 0 || i >= ms.len() {
        vars
    } else {
        let q = qualified(e, enum_text(ms[i]).unwrap());
        bind_members(bind(vars, q, Val::EnumElement(q)), e, ms, i + 1)
    }
}

/// `enum`: binds `Name.member` to an enum element for each member.
pub open spec fn declare_enum(name: Tree, ms: Seq<Tree>, src: Seq<char>, s: State) -> (
    Result<Val, Fault>,
    State,
) {
    match enum_text(name) {
        None => (Err(Fault::Type { expected: Type::Str, found: tree_type(name), src }), s),
        Some(e) => match bad_member(ms, 0) {
            Some(m) => (Err(Fault::Type { expected: Type::Str, found: tree_type(m), src }), s),
            None => (Ok(Val::Empty), with_vars(s, bind_members(s.vars, e, ms, 0))),
        },
    }
}

/// `input`: the next line, trimmed, as a number when it spells one.
pub open spec fn read_input(s: State) -> (Result<Val, Fault>, State) {
    if s.next < s.inputs.len() {
        let line = trim(s.inputs[s.next as int]);
        let v = match parse_int(line) {
            Some(n) => Val::Number(n),
            None => Val::Str(line),
        };
        (Ok(v), State { next: s.next + 1, ..s })
    } else {
        (Err(Fault::InputExhausted), s)
    }
}

/// `vars` with `ps[k]` bound to `vals[k]` for each `k` from `i` on.
pub open spec fn bind_params(vars: Seq<(Seq<char>, Val)>, ps: Seq<Seq<char>>, vals: Seq<Val>, i: int) -> Seq<(Seq<char>, Val)>
    decreases ps.len() - i,
{
    if i < 0 || i >= ps.len() {
        vars
    } else {
        bind_params(bind(vars, ps[i], vals[i]), ps, vals, i + 1)
    }
}

/// `vars` with `ps[k]` put back to `saved[k]` for each `k` from `i` on.
pub open spec fn restore_params(vars: Seq<(Seq<char>, Val)>, ps: Seq<Seq<char>>, saved: Seq<Option<Val>>, i: int) -> Seq<(Seq<char>, Val)>
    decreases ps.len() - i,
{
    if i < 0 || i >= ps.len() {
        vars
    } else {
        restore_params(restore(vars, ps[i], saved[i]), ps, saved, i + 1)
    }
}

/// The bindings that the parameters `ps` had before a call.
pub open spec fn saved_params(vars: Seq<(Seq<char>, Val)>, ps: Seq<Seq<char>>) -> Seq<Option<Val>> {
    Seq::new(ps.len(), |k: int| lookup(vars, ps[k]))
}

/// Runs the body `f` with its parameters bound to `vals` (the shorter of
/// the two lists decides how many are bound), then puts the parameters'
/// earlier bindings back, whether the body failed or not.
pub open spec fn apply_function(f: FunSpec, vals: Seq<Val>, s: State, fuel: nat) -> (
    Result<Val, Fault>,
    State,
)
    decreases fuel, 1int,
{
    let m = if f.params.len() < vals.len() {
        f.params.len()
    } else {
        vals.len()
    };
    let ps = f.params.take(m as int);
    let saved = saved_params(s.vars, ps);
    let (r, s1) = eval(f.body, with_vars(s, bind_params(s.vars, ps, vals, 0)), fuel);
    (r, with_vars(s1, restore_params(s1.vars, ps, saved, 0)))
}

/// Evaluates `ts[i..]` in order and gives the value of the last one
/// (`last` when there is none left).
pub open spec fn eval_seq(ts: Seq<Tree>, i: int, last: Val, s: State, fuel: nat) -> (
    Result<Val, Fault>,
    State,
)
    decreases fuel, ts.len() - i + 1,
{
    if i < 0 || i >= ts.len() {
        (Ok(last), s)
    } else {
        let (r, s1) = eval(ts[i], s, fuel);
        match r {
            Err(e) => (Err(e), s1),
            Ok(v) => eval_seq(ts, i + 1, v, s1, fuel),
        }
    }
}

/// Evaluates `ts[i..]` in order, appending their values to `acc`.
pub open spec fn eval_args(ts: Seq<Tree>, i: int, acc: Seq<Val>, s: State, fuel: nat) -> (
    Result<Seq<Val>, Fault>,
    State,
)
    decreases fuel, ts.len() - i + 1,
{
    if i < 0 || i >= ts.len() {
        (Ok(acc), s)
    } else {
        let (r, s1) = eval(ts[i], s, fuel);
        match r {
            Err(e) => (Err(e), s1),
            Ok(v) => eval_args(ts, i + 1, acc.push(v), s1, fuel),
        }
    }
}

/// Evaluates `ts[i..]` in order, writing each value's text to the output.
pub open spec fn eval_print(ts: Seq<Tree>, i: int, s: State, fuel: nat) -> (
    Result<Val, Fault>,
    State,
)
    decreases fuel, ts.len() - i + 1,
{
    if i < 0 || i >= ts.len() {
        (Ok(Val::Empty), s)
    } else {
        let (r, s1) = eval(ts[i], s, fuel);
        match r {
            Err(e) => (Err(e), s1),
            Ok(v) => eval_print(ts, i + 1, State { out: s1.out + render(v), ..s1 }, fuel),
        }
    }
}

/// The iterations `i..hi` of a `for` loop over variable `n`.
pub open spec fn for_loop(n: Seq<char>, i: int, hi: int, body: Tree, s: State, fuel: nat) -> (
    Result<Val, Fault>,
    State,
)
    decreases fuel, if hi > i {
        hi - i
    } else {
        0
    },
{
    if i >= hi {
        (Ok(Val::Empty), s)
    } else {
        let (r, s1) = eval(body, with_vars(s, bind(s.vars, n, Val::Number(i as i32))), fuel);
        match r {
            Err(e) => (Err(e), s1),
            Ok(_) => for_loop(n, i + 1, hi, body, s1, fuel),
        }
    }
}

/// `for var lower upper body`: both bounds are evaluated and must be
/// numbers; the loop variable's earlier binding is put back afterwards,
/// also when the body fails.
pub open spec fn eval_for(var: Tree, lo: Tree, hi: Tree, body: Tree, src: Seq<char>, s: State, fuel: nat) -> (
    Result<Val, Fault>,
    State,
)
    decreases fuel, 0x1_0000_0004int,
{
    let (r1, s1) = eval(lo, s, fuel);
    match r1 {
        Err(e) => (Err(e), s1),
        Ok(a) => {
            let (r2, s2) = eval(hi, s1, fuel);
            match r2 {
                Err(e) => (Err(e), s2),
                Ok(b) => match (a, b, var) {
                    (Val::Number(x), Val::Number(y), Tree::Var(n)) => {
                        let saved = lookup(s2.vars, n);
                        let (r, s3) = for_loop(n, x as int, y as int, body, s2, fuel);
                        (
                            match r {
                                Err(e) => Err(e),
                                Ok(_) => Ok(Val::Empty),
                            },
                            with_vars(s3, restore(s3.vars, n, saved)),
                        )
                    },
                    (Val::Number(_), Val::Number(_), _) => (
                        Err(Fault::Type { expected: Type::Var, found: tree_type(var), src }),
                        s2,
                    ),
                    (Val::Number(_), _, _) => (
                        Err(Fault::Type { expected: Type::Number, found: type_of(b), src }),
                        s2,
                    ),
                    _ => (Err(Fault::Type { expected: Type::Number, found: type_of(a), src }), s2),
                },
            }
        },
    }
}

/// `while cond body`: one step of `fuel` per iteration.
pub open spec fn eval_while(c: Tree, b: Tree, src: Seq<char>, s: State, fuel: nat) -> (
    Result<Val, Fault>,
    State,
)
    decreases fuel, 1int,
{
    if fuel == 0 {
        (Err(Fault::LimitReached), s)
    } else {
        let (r, s1) = eval(c, s, fuel);
        match r {
            Err(e) => (Err(e), s1),
            Ok(Val::Bool(false)) => (Ok(Val::Empty), s1),
            Ok(Val::Bool(true)) => {
                let (r2, s2) = eval(b, s1, fuel);
                match r2 {
                    Err(e) => (Err(e), s2),
                    Ok(_) => eval_while(c, b, src, s2, (fuel - 1) as nat),
                }
            },
            Ok(v) => (Err(Fault::Type { expected: Type::Bool, found: type_of(v), src }), s1),
        }
    }
}

/// `call name args...`: the function is looked up first (an unknown name
/// is an error and nothing is evaluated), then the arguments are evaluated
/// in the caller's environment, then the body runs.
pub open spec fn eval_call(name: Tree, args: Seq<Tree>, src: Seq<char>, s: State, fuel: nat) -> (
    Result<Val, Fault>,
    State,
)
    decreases fuel, args.len() + 2,
{
    match name {
        Tree::Var(n) => match lookup(s.funs, n) {
            None => (Err(Fault::Undef { name: n, src }), s),
            Some(f) => {
                let (r, s1) = eval_args(args, 0, Seq::empty(), s, fuel);
                match r {
                    Err(e) => (Err(e), s1),
                    Ok(vals) => apply_function(f, vals, s1, fuel),
                }
            },
        },
        _ => (Err(Fault::Type { expected: Type::Var, found: tree_type(name), src }), s),
    }
}

/// Evaluates the operands of a binary form, left first.
pub open spec fn eval_binary(op: BinOp, a: Tree, b: Tree, src: Seq<char>, s: State, fuel: nat) -> (
    Result<Val, Fault>,
    State,
)
    decreases fuel, 1int,
{
    let (r1, s1) = eval(a, s, fuel);
    match r1 {
        Err(e) => (Err(e), s1),
        Ok(x) => {
            let (r2, s2) = eval(b, s1, fuel);
            match r2 {
                Err(e) => (Err(e), s2),
                Ok(y) => (apply_binary(op, x, y, src), s2),
            }
        },
    }
}

/// `!`: the operand must be a boolean.
pub open spec fn eval_not(a: Tree, src: Seq<char>, s: State, fuel: nat) -> (Result<Val, Fault>, State)
    decreases fuel, 1int,
{
    let (r, s1) = eval(a, s, fuel);
    match r {
        Err(e) => (Err(e), s1),
        Ok(Val::Bool(b)) => (Ok(Val::Bool(!b)), s1),
        Ok(v) => (Err(Fault::Type { expected: Type::Bool, found: type_of(v), src }), s1),
    }
}

/// `if`: the condition must be a boolean; only the chosen branch runs.
pub open spec fn eval_if(c: Tree, a: Tree, b: Tree, src: Seq<char>, s: State, fuel: nat) -> (
    Result<Val, Fault>,
    State,
)
    decreases fuel, 1int,
{
    let (r, s1) = eval(c, s, fuel);
    match r {
        Err(e) => (Err(e), s1),
        Ok(Val::Bool(true)) => eval(a, s1, fuel),
        Ok(Val::Bool(false)) => eval(b, s1, fuel),
        Ok(v) => (Err(Fault::Type { expected: Type::Bool, found: type_of(v), src }), s1),
    }
}

/// `let` (and `set` when `existing` holds): the value is evaluated first,
/// then the target must be a variable name; `set` also requires that the
/// name is already bound.
pub open spec fn eval_assign(
    name: Tree,
    x: Tree,
    src: Seq<char>,
    existing: bool,
    s: State,
    fuel: nat,
) -> (Result<Val, Fault>, State)
    decreases fuel, 1int,
{
    let (r, s1) = eval(x, s, fuel);
    match r {
        Err(e) => (Err(e), s1),
        Ok(v) => match name {
            Tree::Var(n) => if existing && lookup(s1.vars, n) is None {
                (Err(Fault::Undef { name: n, src }), s1)
            } else {
                (Ok(Val::Empty), with_vars(s1, bind(s1.vars, n, v)))
            },
            _ => (Err(Fault::Type { expected: Type::Var, found: tree_type(name), src }), s1),
        },
    }
}

/// The result of evaluating `t` in state `s`, and the state afterwards.
/// Each level of nesting takes one step of `fuel`; running out of it is an
/// error.
pub open spec fn eval(t: Tree, s: State, fuel: nat) -> (Result<Val, Fault>, State)
    decreases fuel, 0int,
{
    if fuel == 0 {
        (Err(Fault::LimitReached), s)
    } else {
        let f = (fuel - 1) as nat;
        match t {
            Tree::Number(n) => (Ok(Val::Number(n)), s),
            Tree::Bool(b) => (Ok(Val::Bool(b)), s),
            Tree::Str(x) => (Ok(Val::Str(x)), s),
            Tree::EnumElement(x) => (Ok(Val::EnumElement(x)), s),
            Tree::Empty => (Ok(Val::Empty), s),
            Tree::Malformed(src) => (Err(Fault::Parse { src }), s),
            Tree::Var(x) => (resolve(x, s.vars, s.vars.len()), s),
            Tree::Binary(op, a, b, src) => eval_binary(op, *a, *b, src, s, f),
            Tree::Not(a, src) => eval_not(*a, src, s, f),
            Tree::If(c, a, b, src) => eval_if(*c, *a, *b, src, s, f),
            Tree::Let(n, x, src) => eval_assign(*n, *x, src, false, s, f),
            Tree::Assign(n, x, src) => eval_assign(*n, *x, src, true, s, f),
            Tree::Sequence(ts, _) => eval_seq(ts, 0, Val::Empty, s, f),
            Tree::For(v, lo, hi, body, src) => eval_for(*v, *lo, *hi, *body, src, s, f),
            Tree::While(c, b, src) => eval_while(*c, *b, src, s, f),
            Tree::Define(n, ps, b, src) => define(*n, ps, *b, src, s),
            Tree::Call(n, args, src) => eval_call(*n, args, src, s, f),
            Tree::Print(ts) => eval_print(ts, 0, s, f),
            Tree::Enum(n, ms, src) => declare_enum(*n, ms, src, s),
            Tree::Input => read_input(s),
        }
    }
}

/// The step budget of a top-level run.
pub open spec fn top_fuel() -> nat {
    u64::MAX as nat
}

/// Running a program: evaluation from the initial state with the given
/// input lines.
pub open spec fn execute(t: Tree, inputs: Seq<Seq<char>>) -> (Result<Val, Fault>, State) {
    eval(t, initial(inputs), top_fuel())
}

} // verus!
