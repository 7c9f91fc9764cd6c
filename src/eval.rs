//! The evaluator: runs an expression tree against an environment, as the
//! semantics describe.
use vstd::prelude::*;

use crate::env::{opt_val, Env};
use crate::errors::{Fault, LangError};
use crate::functions::{strings, FunSpec, Function};
use crate::semantics::{
    abs, apply_binary, apply_function, arith, bad_member, bind_members, bind_params, checked,
    declare_enum, define, enum_text, eval, eval_args, eval_assign, eval_binary, eval_call, eval_for,
    eval_if, eval_not, eval_print, eval_seq, eval_while, execute, for_loop, names_upto, param_names,
    params_upto, qualified, read_input, resolve, restore_params, saved_params, trunc_div, with_vars,
};
use crate::text::{chars_of, parse_int_range, push_char, push_chars, string_of, trim_range};
use crate::tokens::{tree_type, views, BinOp, Expr, Tree};
use crate::types::Type;
use crate::values::{Val, Value};

verus! {

/// The model of an evaluation result.
pub open spec fn outcome(r: Result<Value, LangError>) -> Result<Val, Fault> {
    match r {
        Ok(v) => Ok(v@),
        Err(e) => Err(e@),
    }
}

/// The models of a list of values.
pub open spec fn vals(v: Seq<Value>) -> Seq<Val> {
    v.map_values(|x: Value| x@)
}

fn type_error(expected: Type, found: Type, src: &String) -> (r: LangError)
    ensures
        r@ == (Fault::Type { expected, found, src: src@ }),
{
    LangError::new_type_error(expected, found, src.clone())
}

/// A number, or an overflow error when `v` leaves the range of `i32`.
fn checked_number(v: i64, src: &String) -> (r: Result<Value, LangError>)
    ensures
        outcome(r) == checked(v as int, src@),
{
    if v < i32::MIN as i64 || v > i32::MAX as i64 {
        Err(LangError::Overflow(src.clone()))
    } else {
        Ok(Value::Number(v as i32))
    }
}

/// `a / b` rounded toward zero, for `b != 0`.
fn quotient(a: i32, b: i32) -> (q: i64)
    requires
        b != 0,
    ensures
        q as int == trunc_div(a as int, b as int),
        -2147483648 <= q <= 2147483648,
{
    let ua: u64 = if a < 0 {
        (-(a as i64)) as u64
    } else {
        a as u64
    };
    let ub: u64 = if b < 0 {
        (-(b as i64)) as u64
    } else {
        b as u64
    };
    let m = ua / ub;
    assert(m <= ua) by (nonlinear_arith)
        requires
            ub >= 1,
            m == ua / ub,
    ;
    if (a < 0) != (b < 0) {
        -(m as i64)
    } else {
        m as i64
    }
}

/// A binary operator applied to two numbers.
fn arith_exec(op: BinOp, a: i32, b: i32, src: &String) -> (r: Result<Value, LangError>)
    ensures
        outcome(r) == arith(op, a, b, src@),
{
    match op {
        BinOp::Add => checked_number(a as i64 + b as i64, src),
        BinOp::Sub => checked_number(a as i64 - b as i64, src),
        BinOp::Mul => {
            assert(-0x4000_0000_0000_0000 <= (a as int) * (b as int) <= 0x4000_0000_0000_0000)
                by (nonlinear_arith)
                requires
                    -0x8000_0000 <= a < 0x8000_0000,
                    -0x8000_0000 <= b < 0x8000_0000,
            ;
            checked_number(a as i64 * b as i64, src)
        },
        BinOp::Div => {
            if b == 0 {
                Err(LangError::DivisionByZero(src.clone()))
            } else {
                checked_number(quotient(a, b), src)
            }
        },
        BinOp::Mod => {
            if b == 0 {
                Err(LangError::DivisionByZero(src.clone()))
            } else {
                let q = quotient(a, b);
                let ghost ai = a as int;
                let ghost bi = b as int;
                assert(abs(bi) * abs(trunc_div(ai, bi)) <= abs(ai)) by (nonlinear_arith)
                    requires
                        bi != 0,
                        abs(trunc_div(ai, bi)) == abs(ai) / abs(bi),
                        abs(bi) > 0,
                        abs(ai) >= 0,
                ;
                assert(-0x8000_0000 <= bi * trunc_div(ai, bi) <= 0x8000_0000) by (nonlinear_arith)
                    requires
                        abs(bi) * abs(trunc_div(ai, bi)) <= abs(ai),
                        abs(ai) <= 0x8000_0000,
                        abs(bi) == (if bi < 0 { -bi } else { bi }),
                        abs(trunc_div(ai, bi)) == (if trunc_div(ai, bi) < 0 { -trunc_div(ai, bi) } else { trunc_div(ai, bi) }),
                ;
                checked_number(a as i64 - (b as i64) * q, src)
            }
        },
        BinOp::Equal => Ok(Value::Bool(a == b)),
        BinOp::NEqual => Ok(Value::Bool(a != b)),
        BinOp::GreaterThan => Ok(Value::Bool(a > b)),
        BinOp::GreaterEqualThan => Ok(Value::Bool(a >= b)),
        BinOp::LessThan => Ok(Value::Bool(a < b)),
        BinOp::LessEqualThan => Ok(Value::Bool(a <= b)),
        _ => Ok(Value::Empty),
    }
}

/// A binary operator applied to two values.
fn apply_binary_exec(op: BinOp, x: &Value, y: &Value, src: &String) -> (r: Result<Value, LangError>)
    ensures
        outcome(r) == apply_binary(op, x@, y@, src@),
{
    if op == BinOp::And || op == BinOp::Or {
        match (x, y) {
            (Value::Bool(a), Value::Bool(b)) => Ok(
                Value::Bool(
                    if op == BinOp::And {
                        *a && *b
                    } else {
                        *a || *b
                    },
                ),
            ),
            (Value::Bool(_), _) => Err(type_error(Type::Bool, y.get_type(), src)),
            _ => Err(type_error(Type::Bool, x.get_type(), src)),
        }
    } else {
        match (x, y) {
            (Value::Number(a), Value::Number(b)) => arith_exec(op, *a, *b, src),
            (Value::Number(_), _) => Err(type_error(Type::Number, y.get_type(), src)),
            _ => Err(type_error(Type::Number, x.get_type(), src)),
        }
    }
}

/// The value of variable `x`.
fn resolve_exec(x: &String, env: &Env, fuel: u64) -> (r: Result<Value, LangError>)
    ensures
        outcome(r) == resolve(x@, env@.vars, fuel as nat),
{
    let mut name = x.clone();
    let mut g = fuel;
    loop
        invariant
            resolve(x@, env@.vars, fuel as nat) == resolve(name@, env@.vars, g as nat),
        decreases g,
    {
        match env.lookup_var(&name) {
            None => {
                return Ok(Value::Var(name));
            },
            Some(Value::Var(y)) => {
                if g == 0 {
                    return Err(LangError::LimitReached);
                }
                name = y;
                g = g - 1;
            },
            Some(v) => {
                return Ok(v);
            },
        }
    }
}

/// The text of a name in an `enum` declaration.
fn enum_text_exec(e: &Expr) -> (r: Option<String>)
    ensures
        match r {
            Some(s) => enum_text(e@) == Some(s@),
            None => enum_text(e@) is None,
        },
{
    match e {
        Expr::Str(x) => Some(x.clone()),
        Expr::Var(x) => Some(x.clone()),
        _ => None,
    }
}

/// The qualified name `e.m`.
fn qualify(e: &String, m: &String) -> (r: String)
    ensures
        r@ == qualified(e@, m@),
{
    let mut q = e.clone();
    push_char(&mut q, '.');
    let mc = chars_of(m.as_str());
    push_chars(&mut q, &mc);
    assert(q@ =~= qualified(e@, m@));
    q
}

impl Expr {
    /// The type tag of this (unevaluated) node.
    pub fn get_type(&self) -> (r: Type)
        ensures
            r == tree_type(self@),
    {
        match self {
            Expr::Number(_) => Type::Number,
            Expr::Str(_) => Type::Str,
            Expr::Var(_) => Type::Var,
            Expr::Bool(_) => Type::Bool,
            _ => Type::Expression,
        }
    }
}

/// Once a name list has failed, it stays failed with the same error.
proof fn lemma_names_error_sticks(items: Seq<Tree>, i: int, j: int, src: Seq<char>)
    requires
        0 <= i <= j,
        names_upto(items, i, src) is Err,
    ensures
        names_upto(items, j, src) == names_upto(items, i, src),
    decreases j - i,
{
    if j > i {
        lemma_names_error_sticks(items, i, j - 1, src);
    }
}

/// Once a parameter list has failed, it stays failed with the same error.
proof fn lemma_params_error_sticks(ps: Seq<Tree>, i: int, j: int, src: Seq<char>)
    requires
        0 <= i <= j,
        params_upto(ps, i, src) is Err,
    ensures
        params_upto(ps, j, src) == params_upto(ps, i, src),
    decreases j - i,
{
    if j > i {
        lemma_params_error_sticks(ps, i, j - 1, src);
    }
}

/// The parameter names declared by the parameter expressions `ps`.
fn params_exec(ps: &Vec<Expr>, src: &String) -> (r: Result<Vec<String>, LangError>)
    ensures
        match r {
            Ok(names) => params_upto(views(ps@), ps@.len() as int, src@) == Ok::<
                Seq<Seq<char>>,
                Fault,
            >(strings(names@)),
            Err(e) => params_upto(views(ps@), ps@.len() as int, src@) == Err::<
                Seq<Seq<char>>,
                Fault,
            >(e@),
        },
{
    let ghost pv = views(ps@);
    assert(pv.len() == ps@.len());
    let mut names: Vec<String> = Vec::new();
    assert(strings(names@) =~= Seq::empty());
    let mut i: usize = 0;
    while i < ps.len()
        invariant
            i <= ps@.len(),
            pv == views(ps@),
            pv.len() == ps@.len(),
            params_upto(pv, i as int, src@) == Ok::<Seq<Seq<char>>, Fault>(strings(names@)),
        decreases ps.len() - i,
    {
        assert(pv[i as int] == ps@[i as int]@);
        let ghost acc = strings(names@);
        match &ps[i] {
            Expr::Var(x) => {
                names.push(x.clone());
                assert(strings(names@) =~= acc + seq![x@]);
            },
            Expr::Sequence(items, _) => {
                let ghost iv = views(items@);
                assert(iv.len() == items@.len());
                assert(param_names(pv[i as int], src@) == names_upto(iv, iv.len() as int, src@));
                let mut j: usize = 0;
                while j < items.len()
                    invariant
                        i < ps@.len(),
                        pv == views(ps@),
                        pv.len() == ps@.len(),
                        params_upto(pv, i as int, src@) == Ok::<Seq<Seq<char>>, Fault>(acc),
                        param_names(pv[i as int], src@) == names_upto(iv, iv.len() as int, src@),
                        j <= items@.len(),
                        iv == views(items@),
                        iv.len() == items@.len(),
                        names_upto(iv, j as int, src@) is Ok,
                        strings(names@) == acc + names_upto(iv, j as int, src@)->Ok_0,
                    decreases items.len() - j,
                {
                    assert(iv[j as int] == items@[j as int]@);
                    match &items[j] {
                        Expr::Var(y) => {
                            let ghost before = strings(names@);
                            names.push(y.clone());
                            assert(strings(names@) =~= before.push(y@));
                            assert(acc + names_upto(iv, j as int, src@)->Ok_0.push(y@) =~= acc
                                + names_upto(iv, j + 1, src@)->Ok_0);
                        },
                        other => {
                            let e = type_error(Type::Var, other.get_type(), src);
                            proof {
                                assert(names_upto(iv, j + 1, src@) == Err::<Seq<Seq<char>>, Fault>(e@));
                                lemma_names_error_sticks(iv, j + 1, iv.len() as int, src@);
                                assert(params_upto(pv, i + 1, src@) == Err::<Seq<Seq<char>>, Fault>(e@));
                                lemma_params_error_sticks(pv, i + 1, pv.len() as int, src@);
                            }
                            return Err(e);
                        },
                    }
                    j = j + 1;
                }
                assert(params_upto(pv, i + 1, src@) == Ok::<Seq<Seq<char>>, Fault>(strings(names@)));
            },
            other => {
                let e = type_error(Type::Var, other.get_type(), src);
                proof {
                    assert(param_names(pv[i as int], src@) == Err::<Seq<Seq<char>>, Fault>(e@));
                    assert(params_upto(pv, i + 1, src@) == Err::<Seq<Seq<char>>, Fault>(e@));
                    lemma_params_error_sticks(pv, i + 1, pv.len() as int, src@);
                }
                return Err(e);
            },
        }
        i = i + 1;
    }
    Ok(names)
}

/// `def`: registers a function.
fn define_exec(name: &Expr, ps: &Vec<Expr>, body: &Expr, src: &String, env: &mut Env) -> (r:
    Result<Value, LangError>)
    ensures
        (outcome(r), final(env)@) == define(name@, views(ps@), body@, src@, old(env)@),
{
    match name {
        Expr::Var(n) => {
            match params_exec(ps, src) {
                Err(e) => Err(e),
                Ok(names) => {
                    let f = Function::new(n.clone(), names, Box::new(body.duplicate()));
                    env.define_function(n.clone(), f);
                    Ok(Value::Empty)
                },
            }
        },
        _ => Err(type_error(Type::Var, name.get_type(), src)),
    }
}

/// `enum`: binds each qualified member name.
fn declare_enum_exec(name: &Expr, ms: &Vec<Expr>, src: &String, env: &mut Env) -> (r: Result<
    Value,
    LangError,
>)
    ensures
        (outcome(r), final(env)@) == declare_enum(name@, views(ms@), src@, old(env)@),
{
    let e = match enum_text_exec(name) {
        Some(e) => e,
        None => {
            return Err(type_error(Type::Str, name.get_type(), src));
        },
    };
    let ghost mv = views(ms@);
    assert(mv.len() == ms@.len());
    let mut i: usize = 0;
    while i < ms.len()
        invariant
            mv.len() == ms@.len(),
            enum_text(name@) == Some(e@),
            i <= ms@.len(),
            mv == views(ms@),
            bad_member(mv, 0) == bad_member(mv, i as int),
        decreases ms.len() - i,
    {
        assert(mv[i as int] == ms@[i as int]@);
        match enum_text_exec(&ms[i]) {
            None => {
                assert(bad_member(mv, i as int) == Some(mv[i as int]));
                return Err(type_error(Type::Str, ms[i].get_type(), src));
            },
            Some(_) => {},
        }
        i = i + 1;
    }
    let ghost s0 = env@;
    let mut k: usize = 0;
    while k < ms.len()
        invariant
            k <= ms@.len(),
            mv == views(ms@),
            bad_member(mv, k as int) is None,
            env@ == with_vars(s0, env@.vars),
            bind_members(s0.vars, e@, mv, 0) == bind_members(env@.vars, e@, mv, k as int),
        decreases ms.len() - k,
    {
        assert(mv[k as int] == ms@[k as int]@);
        match enum_text_exec(&ms[k]) {
            Some(m) => {
                let q = qualify(&e, &m);
                let q2 = q.clone();
                env.bind_var(q, Value::EnumElement(q2));
            },
            None => {},
        }
        k = k + 1;
    }
    Ok(Value::Empty)
}

/// `input`: reads the next pending line.
fn read_input_exec(env: &mut Env) -> (r: Result<Value, LangError>)
    ensures
        (outcome(r), final(env)@) == read_input(old(env)@),
{
    if env.next_input < env.inputs.len() {
        let line = chars_of(env.inputs[env.next_input].as_str());
        assert(strings(env.inputs@)[env.next_input as int] == line@);
        let (a, b) = trim_range(&line, 0, line.len());
        let v = match parse_int_range(&line, a, b) {
            Some(n) => Value::Number(n),
            None => Value::Str(string_of(&line, a, b)),
        };
        env.next_input = env.next_input + 1;
        Ok(v)
    } else {
        Err(LangError::InputExhausted)
    }
}

/// Evaluates the operands of a binary form, then applies the operator.
fn eval_binary_exec(op: BinOp, a: &Expr, b: &Expr, src: &String, env: &mut Env, fuel: u64) -> (r:
    Result<Value, LangError>)
    ensures
        (outcome(r), final(env)@) == eval_binary(op, a@, b@, src@, old(env)@, fuel as nat),
    decreases fuel, 1int,
{
    let x = match a.evaluate(env, fuel) {
        Err(e) => {
            return Err(e);
        },
        Ok(x) => x,
    };
    let y = match b.evaluate(env, fuel) {
        Err(e) => {
            return Err(e);
        },
        Ok(y) => y,
    };
    apply_binary_exec(op, &x, &y, src)
}

/// `!`.
fn eval_not_exec(a: &Expr, src: &String, env: &mut Env, fuel: u64) -> (r: Result<Value, LangError>)
    ensures
        (outcome(r), final(env)@) == eval_not(a@, src@, old(env)@, fuel as nat),
    decreases fuel, 1int,
{
    match a.evaluate(env, fuel) {
        Err(e) => Err(e),
        Ok(Value::Bool(b)) => Ok(Value::Bool(!b)),
        Ok(v) => Err(type_error(Type::Bool, v.get_type(), src)),
    }
}

/// `if`.
fn eval_if_exec(c: &Expr, a: &Expr, b: &Expr, src: &String, env: &mut Env, fuel: u64) -> (r:
    Result<Value, LangError>)
    ensures
        (outcome(r), final(env)@) == eval_if(c@, a@, b@, src@, old(env)@, fuel as nat),
    decreases fuel, 1int,
{
    match c.evaluate(env, fuel) {
        Err(e) => Err(e),
        Ok(Value::Bool(true)) => a.evaluate(env, fuel),
        Ok(Value::Bool(false)) => b.evaluate(env, fuel),
        Ok(v) => Err(type_error(Type::Bool, v.get_type(), src)),
    }
}

/// `let`, and `set` when `existing` holds.
fn eval_assign_exec(
    name: &Expr,
    x: &Expr,
    src: &String,
    existing: bool,
    env: &mut Env,
    fuel: u64,
) -> (r: Result<Value, LangError>)
    ensures
        (outcome(r), final(env)@) == eval_assign(name@, x@, src@, existing, old(env)@, fuel as nat),
    decreases fuel, 1int,
{
    let v = match x.evaluate(env, fuel) {
        Err(e) => {
            return Err(e);
        },
        Ok(v) => v,
    };
    match name {
        Expr::Var(n) => {
            if existing {
                match env.lookup_var(n) {
                    None => {
                        return Err(LangError::new_undefined_variable_error(n.clone(), src.clone()));
                    },
                    Some(_) => {},
                }
            }
            env.bind_var(n.clone(), v);
            Ok(Value::Empty)
        },
        _ => Err(type_error(Type::Var, name.get_type(), src)),
    }
}

/// A sequence: every element in order, the value of the last.
fn eval_seq_exec(ts: &Vec<Expr>, env: &mut Env, fuel: u64) -> (r: Result<Value, LangError>)
    ensures
        (outcome(r), final(env)@) == eval_seq(views(ts@), 0, Val::Empty, old(env)@, fuel as nat),
    decreases fuel, ts@.len() + 1,
{
    let ghost tv = views(ts@);
    let ghost s0 = env@;
    assert(tv.len() == ts@.len());
    let mut last = Value::Empty;
    let mut i: usize = 0;
    while i < ts.len()
        invariant
            i <= ts@.len(),
            tv == views(ts@),
            tv.len() == ts@.len(),
            s0 == old(env)@,
            eval_seq(tv, 0, Val::Empty, s0, fuel as nat) == eval_seq(tv, i as int, last@, env@, fuel as nat),
        decreases ts.len() - i,
    {
        assert(tv[i as int] == ts@[i as int]@);
        match ts[i].evaluate(env, fuel) {
            Err(e) => {
                return Err(e);
            },
            Ok(v) => {
                last = v;
            },
        }
        i = i + 1;
    }
    Ok(last)
}

/// `print`: each value's text is appended to the output.
fn eval_print_exec(ts: &Vec<Expr>, env: &mut Env, fuel: u64) -> (r: Result<Value, LangError>)
    ensures
        (outcome(r), final(env)@) == eval_print(views(ts@), 0, old(env)@, fuel as nat),
    decreases fuel, ts@.len() + 1,
{
    let ghost tv = views(ts@);
    let ghost s0 = env@;
    assert(tv.len() == ts@.len());
    let mut i: usize = 0;
    while i < ts.len()
        invariant
            i <= ts@.len(),
            tv == views(ts@),
            tv.len() == ts@.len(),
            s0 == old(env)@,
            eval_print(tv, 0, s0, fuel as nat) == eval_print(tv, i as int, env@, fuel as nat),
        decreases ts.len() - i,
    {
        assert(tv[i as int] == ts@[i as int]@);
        match ts[i].evaluate(env, fuel) {
            Err(e) => {
                return Err(e);
            },
            Ok(v) => {
                v.write_to(&mut env.output);
            },
        }
        i = i + 1;
    }
    Ok(Value::Empty)
}

/// `for`.
fn eval_for_exec(
    var: &Expr,
    lo: &Expr,
    hi: &Expr,
    body: &Expr,
    src: &String,
    env: &mut Env,
    fuel: u64,
) -> (r: Result<Value, LangError>)
    ensures
        (outcome(r), final(env)@) == eval_for(var@, lo@, hi@, body@, src@, old(env)@, fuel as nat),
    decreases fuel, 0x1_0000_0004int,
{
    let a = match lo.evaluate(env, fuel) {
        Err(e) => {
            return Err(e);
        },
        Ok(a) => a,
    };
    let b = match hi.evaluate(env, fuel) {
        Err(e) => {
            return Err(e);
        },
        Ok(b) => b,
    };
    let x = match a {
        Value::Number(x) => x,
        _ => {
            return Err(type_error(Type::Number, a.get_type(), src));
        },
    };
    let y = match b {
        Value::Number(y) => y,
        _ => {
            return Err(type_error(Type::Number, b.get_type(), src));
        },
    };
    let n = match var {
        Expr::Var(n) => n,
        _ => {
            return Err(type_error(Type::Var, var.get_type(), src));
        },
    };
    let saved = env.lookup_var(n);
    let ghost s2 = env@;
    let ghost bv = body@;
    let mut i: i64 = x as i64;
    let mut failure: Option<LangError> = None;
    while i < y as i64
        invariant_except_break
            failure is None,
            for_loop(n@, x as int, y as int, bv, s2, fuel as nat) == for_loop(
                n@,
                i as int,
                y as int,
                bv,
                env@,
                fuel as nat,
            ),
        invariant
            x <= i <= (if x <= y { y as i64 } else { x as i64 }),
            bv == body@,
        ensures
            match failure {
                Some(e) => for_loop(n@, x as int, y as int, bv, s2, fuel as nat) == (Err::<Val, Fault>(e@), env@),
                None => for_loop(n@, x as int, y as int, bv, s2, fuel as nat) == (Ok::<Val, Fault>(Val::Empty), env@),
            },
        decreases y - i,
    {
        env.bind_var(n.clone(), Value::Number(i as i32));
        match body.evaluate(env, fuel) {
            Err(e) => {
                failure = Some(e);
                break;
            },
            Ok(_) => {},
        }
        i = i + 1;
    }
    env.restore_var(n.clone(), saved);
    match failure {
        Some(e) => Err(e),
        None => Ok(Value::Empty),
    }
}

/// `while`: each iteration takes one step of `fuel`.
fn eval_while_exec(c: &Expr, b: &Expr, src: &String, env: &mut Env, fuel: u64) -> (r: Result<
    Value,
    LangError,
>)
    ensures
        (outcome(r), final(env)@) == eval_while(c@, b@, src@, old(env)@, fuel as nat),
    decreases fuel, 1int,
{
    let ghost s0 = env@;
    let mut g = fuel;
    loop
        invariant
            g <= fuel,
            s0 == old(env)@,
            eval_while(c@, b@, src@, s0, fuel as nat) == eval_while(c@, b@, src@, env@, g as nat),
        decreases g,
    {
        if g == 0 {
            return Err(LangError::LimitReached);
        }
        match c.evaluate(env, g) {
            Err(e) => {
                return Err(e);
            },
            Ok(Value::Bool(false)) => {
                return Ok(Value::Empty);
            },
            Ok(Value::Bool(true)) => {},
            Ok(v) => {
                return Err(type_error(Type::Bool, v.get_type(), src));
            },
        }
        match b.evaluate(env, g) {
            Err(e) => {
                return Err(e);
            },
            Ok(_) => {},
        }
        g = g - 1;
    }
}

/// Runs a function body with its parameters bound, then puts the
/// parameters' earlier bindings back.
fn apply_function_exec(
    params: &Vec<String>,
    body: &Expr,
    args: &Vec<Value>,
    env: &mut Env,
    fuel: u64,
    Ghost(f): Ghost<FunSpec>,
) -> (r: Result<Value, LangError>)
    requires
        strings(params@) == f.params,
        body@ == f.body,
    ensures
        (outcome(r), final(env)@) == apply_function(f, vals(args@), old(env)@, fuel as nat),
    decreases fuel, 1int,
{
    let m = if params.len() < args.len() {
        params.len()
    } else {
        args.len()
    };
    let ghost ps = f.params.take(m as int);
    let ghost av = vals(args@);
    let ghost s0 = env@;
    let mut saved: Vec<Option<Value>> = Vec::new();
    let mut k: usize = 0;
    while k < m
        invariant
            k <= m <= params@.len(),
            m <= args@.len(),
            strings(params@) == f.params,
            ps == f.params.take(m as int),
            env@ == s0,
            saved@.len() == k,
            forall|j: int| 0 <= j < k ==> opt_val(#[trigger] saved@[j]) == saved_params(s0.vars, ps)[j],
        decreases m - k,
    {
        assert(ps[k as int] == params@[k as int]@);
        saved.push(env.lookup_var(&params[k]));
        k = k + 1;
    }
    let ghost sv = saved_params(s0.vars, ps);
    let mut k: usize = 0;
    while k < m
        invariant
            k <= m <= params@.len(),
            m <= args@.len(),
            strings(params@) == f.params,
            ps == f.params.take(m as int),
            av == vals(args@),
            env@ == with_vars(s0, env@.vars),
            bind_params(s0.vars, ps, av, 0) == bind_params(env@.vars, ps, av, k as int),
        decreases m - k,
    {
        assert(ps[k as int] == params@[k as int]@);
        assert(av[k as int] == args@[k as int]@);
        env.bind_var(params[k].clone(), args[k].clone());
        k = k + 1;
    }
    let r = body.evaluate(env, fuel);
    let ghost s1 = env@;
    let mut k: usize = 0;
    while k < m
        invariant
            k <= m <= params@.len(),
            strings(params@) == f.params,
            ps == f.params.take(m as int),
            saved@.len() == m,
            forall|j: int| 0 <= j < m ==> opt_val(#[trigger] saved@[j]) == sv[j],
            env@ == with_vars(s1, env@.vars),
            restore_params(s1.vars, ps, sv, 0) == restore_params(env@.vars, ps, sv, k as int),
        decreases m - k,
    {
        assert(ps[k as int] == params@[k as int]@);
        let back = match &saved[k] {
            Some(v) => Some(v.clone()),
            None => None,
        };
        assert(opt_val(back) == sv[k as int]);
        env.restore_var(params[k].clone(), back);
        k = k + 1;
    }
    r
}

/// `call`.
fn eval_call_exec(name: &Expr, args: &Vec<Expr>, src: &String, env: &mut Env, fuel: u64) -> (r:
    Result<Value, LangError>)
    ensures
        (outcome(r), final(env)@) == eval_call(name@, views(args@), src@, old(env)@, fuel as nat),
    decreases fuel, args@.len() + 2,
{
    let n = match name {
        Expr::Var(n) => n,
        _ => {
            return Err(type_error(Type::Var, name.get_type(), src));
        },
    };
    let k = match env.find_function(n) {
        None => {
            return Err(LangError::new_undefined_variable_error(n.clone(), src.clone()));
        },
        Some(k) => k,
    };
    let ghost f = env@.funs[k as int].1;
    assert(f == env.functions@[k as int].1@);
    assert(crate::env::lookup(env@.funs, n@) == Some(f));
    let params = env.functions[k].1.get_args();
    let body = env.functions[k].1.get_core();
    let ghost tv = views(args@);
    let ghost s0 = env@;
    assert(tv.len() == args@.len());
    let mut values: Vec<Value> = Vec::new();
    assert(vals(values@) =~= Seq::empty());
    let mut i: usize = 0;
    while i < args.len()
        invariant
            i <= args@.len(),
            tv == views(args@),
            tv.len() == args@.len(),
            s0 == old(env)@,
            name@ == Tree::Var(n@),
            crate::env::lookup(s0.funs, n@) == Some(f),
            eval_args(tv, 0, Seq::empty(), s0, fuel as nat) == eval_args(
                tv,
                i as int,
                vals(values@),
                env@,
                fuel as nat,
            ),
        decreases args.len() - i,
    {
        assert(tv[i as int] == args@[i as int]@);
        match args[i].evaluate(env, fuel) {
            Err(e) => {
                return Err(e);
            },
            Ok(v) => {
                let ghost before = vals(values@);
                let ghost vv = v@;
                values.push(v);
                assert(vals(values@) =~= before.push(vv));
            },
        }
        i = i + 1;
    }
    apply_function_exec(&params, &body, &values, env, fuel, Ghost(f))
}

impl Expr {
    /// Evaluates this expression in `env`. Each level of nesting takes one
    /// step of `fuel`; running out of it is an error.
    pub fn evaluate(&self, env: &mut Env, fuel: u64) -> (r: Result<Value, LangError>)
        ensures
            (outcome(r), final(env)@) == eval(self@, old(env)@, fuel as nat),
        decreases fuel, 0int,
    {
        if fuel == 0 {
            return Err(LangError::LimitReached);
        }
        let f = fuel - 1;
        match self {
            Expr::Number(n) => Ok(Value::Number(*n)),
            Expr::Bool(b) => Ok(Value::Bool(*b)),
            Expr::Str(x) => Ok(Value::Str(x.clone())),
            Expr::EnumElement(x) => Ok(Value::EnumElement(x.clone())),
            Expr::Empty => Ok(Value::Empty),
            Expr::Malformed(src) => Err(LangError::ParseError(src.clone())),
            Expr::Var(x) => resolve_exec(x, env, env.vars.len() as u64),
            Expr::Binary(op, a, b, src) => eval_binary_exec(*op, a, b, src, env, f),
            Expr::Not(a, src) => eval_not_exec(a, src, env, f),
            Expr::If(c, a, b, src) => eval_if_exec(c, a, b, src, env, f),
            Expr::Let(n, x, src) => eval_assign_exec(n, x, src, false, env, f),
            Expr::Assign(n, x, src) => eval_assign_exec(n, x, src, true, env, f),
            Expr::Sequence(ts, _) => eval_seq_exec(ts, env, f),
            Expr::For(v, lo, hi, body, src) => eval_for_exec(v, lo, hi, body, src, env, f),
            Expr::While(c, b, src) => eval_while_exec(c, b, src, env, f),
            Expr::Define(n, ps, b, src) => define_exec(n, ps, b, src, env),
            Expr::Call(n, args, src) => eval_call_exec(n, args, src, env, f),
            Expr::Print(ts) => eval_print_exec(ts, env, f),
            Expr::Enum(n, ms, src) => declare_enum_exec(n, ms, src, env),
            Expr::Input => read_input_exec(env),
        }
    }

    /// Runs the program with fresh, empty environments and no input lines.
    pub fn exec(&self) -> (r: Result<Value, LangError>)
        ensures
            outcome(r) == execute(self@, Seq::empty()).0,
    {
        let inputs: Vec<String> = Vec::new();
        assert(strings(inputs@) =~= Seq::<Seq<char>>::empty());
        let mut env = Env::new(inputs);
        self.evaluate(&mut env, u64::MAX)
    }

    /// Runs the program with fresh environments, reading `inputs` in order
    /// for `input`, and returns the result with everything printed.
    pub fn run(&self, inputs: Vec<String>) -> (r: (Result<Value, LangError>, String))
        ensures
            outcome(r.0) == execute(self@, strings(inputs@)).0,
            r.1@ == execute(self@, strings(inputs@)).1.out,
    {
        let mut env = Env::new(inputs);
        let r = self.evaluate(&mut env, u64::MAX);
        (r, env.output)
    }
}

} // verus!
