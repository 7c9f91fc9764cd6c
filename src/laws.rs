//! Properties of the parser and the evaluator, stated over their models.
use vstd::prelude::*;

use crate::env::{lemma_lookup_restore, lemma_lookup_restore_other, lookup, restore, State};
use crate::errors::Fault;
use crate::functions::FunSpec;
use crate::semantics::{
    apply_binary, apply_function, arith, bind_params, checked, eval, eval_for, execute, for_loop,
    restore_params, saved_params, top_fuel, with_vars,
};
use crate::text::{
    all_digits, digit_char, digit_value, digits_value, int_text, is_digit, is_space, nat_text,
    normalize, parse_int, squeeze, trim_bounds, unsigned_part,
};
use crate::tokens::{child, form_of, form_tree, parse, parse_norm, scan, split, BinOp, Form, Tree};
use crate::values::Val;

verus! {

proof fn lemma_digit_char(d: int)
    requires
        0 <= d < 10,
    ensures
        is_digit(digit_char(d)),
        digit_value(digit_char(d)) == d,
{
}

proof fn lemma_nat_text(m: nat)
    ensures
        nat_text(m).len() >= 1,
        all_digits(nat_text(m)),
        digits_value(nat_text(m)) == m,
    decreases m,
{
    if m < 10 {
        lemma_digit_char(m as int);
        let t = nat_text(m);
        assert(t.drop_last() =~= Seq::<char>::empty());
        assert(t.last() == digit_char(m as int));
        assert(digits_value(t) == digits_value(t.drop_last()) * 10 + digit_value(t.last()));
    } else {
        lemma_nat_text(m / 10);
        lemma_digit_char((m % 10) as int);
        let t = nat_text(m);
        assert(t.drop_last() =~= nat_text(m / 10));
        assert(t.last() == digit_char((m % 10) as int));
        assert(digits_value(t) == digits_value(t.drop_last()) * 10 + digit_value(t.last()));
        assert forall|i: int| 0 <= i < t.len() implies is_digit(#[trigger] t[i]) by {
            if i < t.len() - 1 {
                assert(t[i] == nat_text(m / 10)[i]);
            }
        }
    }
}

/// Reading back the decimal text of a number gives the number.
pub proof fn lemma_int_text_parses(n: i32)
    ensures
        parse_int(int_text(n as int)) == Some(n),
        int_text(n as int).len() >= 1,
        forall|i: int| 0 <= i < int_text(n as int).len() ==> {
            let c = #[trigger] int_text(n as int)[i];
            c == '-' || is_digit(c)
        },
{
    let t = int_text(n as int);
    if n < 0 {
        let m = (-(n as int)) as nat;
        lemma_nat_text(m);
        assert(t.drop_first() =~= nat_text(m));
        assert(unsigned_part(t) == nat_text(m));
        assert forall|i: int| 0 <= i < t.len() implies {
            let c = #[trigger] t[i];
            c == '-' || is_digit(c)
        } by {
            if i > 0 {
                assert(t[i] == nat_text(m)[i - 1]);
            }
        }
    } else {
        lemma_nat_text(n as nat);
        assert(is_digit(t[0]));
        assert(unsigned_part(t) == t);
    }
}

/// A text whose only whitespace is single spaces, none of them at either
/// end.
pub open spec fn is_plain_text(s: Seq<char>) -> bool {
    &&& forall|i: int| 0 <= i < s.len() ==> !is_space(#[trigger] s[i]) || s[i] == ' '
    &&& forall|i: int| 0 <= i < s.len() - 1 ==> !(#[trigger] s[i] == ' ' && s[i + 1] == ' ')
    &&& s.len() > 0 ==> s[0] != ' ' && s.last() != ' '
}

proof fn lemma_squeeze_plain(s: Seq<char>)
    requires
        forall|i: int| 0 <= i < s.len() ==> !is_space(#[trigger] s[i]) || s[i] == ' ',
        forall|i: int| 0 <= i < s.len() - 1 ==> !(#[trigger] s[i] == ' ' && s[i + 1] == ' '),
        s.len() > 0 ==> s[0] != ' ',
    ensures
        squeeze(s) == s,
    decreases s.len(),
{
    if s.len() > 0 {
        let d = s.drop_last();
        assert forall|i: int| 0 <= i < d.len() implies !is_space(#[trigger] d[i]) || d[i] == ' ' by {
            assert(d[i] == s[i]);
        }
        assert forall|i: int| 0 <= i < d.len() - 1 implies !(#[trigger] d[i] == ' ' && d[i + 1]
            == ' ') by {
            assert(d[i] == s[i] && d[i + 1] == s[i + 1]);
        }
        lemma_squeeze_plain(d);
        if s.len() > 1 {
            assert(d.last() == s[s.len() - 2]);
        }
        assert(d.push(s.last()) =~= s);
    }
}

/// Normalising a plain text leaves it as it is.
pub proof fn lemma_normalize_plain(s: Seq<char>)
    requires
        is_plain_text(s),
    ensures
        normalize(s) == s,
{
    lemma_squeeze_plain(s);
}

/// The source form of a literal: a number in decimal, a string in quotes.
pub open spec fn literal_text(t: Tree) -> Seq<char> {
    match t {
        Tree::Number(n) => int_text(n as int),
        Tree::Str(x) => seq!['"'] + x + seq!['"'],
        Tree::Bool(b) => if b {
            seq!['t', 'r', 'u', 'e']
        } else {
            seq!['f', 'a', 'l', 's', 'e']
        },
        _ => Seq::empty(),
    }
}

/// Parsing the decimal text of a number gives that number back.
pub proof fn lemma_number_round_trip(n: i32)
    ensures
        parse(literal_text(Tree::Number(n))) == Tree::Number(n),
{
    let t = int_text(n as int);
    lemma_int_text_parses(n);
    assert(is_plain_text(t)) by {
        assert forall|i: int| 0 <= i < t.len() implies !is_space(#[trigger] t[i]) || t[i] == ' ' by {
            let c = t[i];
            assert(c == '-' || is_digit(c));
        }
        assert forall|i: int| 0 <= i < t.len() - 1 implies !(#[trigger] t[i] == ' ' && t[i + 1]
            == ' ') by {
            let c = t[i];
            assert(c == '-' || is_digit(c));
        }
        assert(t[0] == '-' || is_digit(t[0]));
        assert(t.last() == '-' || is_digit(t.last()));
    }
    lemma_normalize_plain(t);
    assert(t[0] == '-' || is_digit(t[0]));
}

/// Parsing a quoted string gives the string back, provided normalisation
/// leaves its content alone: no whitespace but single spaces.
pub proof fn lemma_string_round_trip(x: Seq<char>)
    requires
        forall|i: int| 0 <= i < x.len() ==> !is_space(#[trigger] x[i]) || x[i] == ' ',
        forall|i: int| 0 <= i < x.len() - 1 ==> !(#[trigger] x[i] == ' ' && x[i + 1] == ' '),
    ensures
        parse(literal_text(Tree::Str(x))) == Tree::Str(x),
{
    let t = seq!['"'] + x + seq!['"'];
    assert(t.len() == x.len() + 2);
    assert(t[0] == '"');
    assert(t.last() == '"');
    assert forall|i: int| 1 <= i < t.len() - 1 implies t[i] == x[i - 1] by {}
    assert(is_plain_text(t)) by {
        assert forall|i: int| 0 <= i < t.len() implies !is_space(#[trigger] t[i]) || t[i] == ' ' by {
            if 1 <= i < t.len() - 1 {
                assert(t[i] == x[i - 1]);
            }
        }
        assert forall|i: int| 0 <= i < t.len() - 1 implies !(#[trigger] t[i] == ' ' && t[i + 1]
            == ' ') by {
            if 1 <= i < t.len() - 2 {
                assert(t[i] == x[i - 1] && t[i + 1] == x[i]);
            }
        }
    }
    lemma_normalize_plain(t);
    assert(unsigned_part(t) == t);
    assert(!is_digit(t[0]));
    assert(parse_int(t) is None);
    assert(t.subrange(1, t.len() - 1) =~= x);
}

/// The value that a literal stands for.
pub open spec fn literal_value(t: Tree) -> Val {
    match t {
        Tree::Number(n) => Val::Number(n),
        Tree::Bool(b) => Val::Bool(b),
        Tree::Str(x) => Val::Str(x),
        _ => Val::Empty,
    }
}

pub open spec fn is_literal(t: Tree) -> bool {
    t is Number || t is Bool || t is Str
}

/// Evaluating a literal gives its own value and changes nothing, in any
/// state with at least one step of fuel.
pub proof fn lemma_literal_evaluates_to_itself(t: Tree, s: State, fuel: nat)
    requires
        is_literal(t),
        fuel >= 1,
    ensures
        eval(t, s, fuel) == (Ok::<Val, Fault>(literal_value(t)), s),
{
}

/// An arithmetic form over two number literals gives the exact result, or
/// an overflow error when that leaves the range of `i32`; the state is
/// unchanged.
pub proof fn lemma_arithmetic(op: BinOp, a: i32, b: i32, src: Seq<char>, s: State, fuel: nat)
    requires
        op == BinOp::Add || op == BinOp::Sub || op == BinOp::Mul,
        fuel >= 2,
    ensures
        eval(Tree::Binary(op, Box::new(Tree::Number(a)), Box::new(Tree::Number(b)), src), s, fuel)
            == (
            checked(
                if op == BinOp::Add {
                    a + b
                } else if op == BinOp::Sub {
                    a - b
                } else {
                    a * b
                },
                src,
            ),
            s,
        ),
{
    let f = (fuel - 1) as nat;
    assert(eval(Tree::Number(a), s, f) == (Ok::<Val, Fault>(Val::Number(a)), s));
    assert(eval(Tree::Number(b), s, f) == (Ok::<Val, Fault>(Val::Number(b)), s));
}

/// `set` on a name that has no binding fails with an undefined-variable
/// error naming it, and binds nothing.
pub proof fn lemma_set_unbound(y: Seq<char>, v: i32, src: Seq<char>, s: State, fuel: nat)
    requires
        lookup(s.vars, y) is None,
        fuel >= 2,
    ensures
        eval(Tree::Assign(Box::new(Tree::Var(y)), Box::new(Tree::Number(v)), src), s, fuel) == (
            Err::<Val, Fault>(Fault::Undef { name: y, src }),
            s,
        ),
{
    let f = (fuel - 1) as nat;
    assert(eval(Tree::Number(v), s, f) == (Ok::<Val, Fault>(Val::Number(v)), s));
}

/// After a `for` loop over literal bounds, the loop variable has the
/// binding it had before (none, if it had none), whether the body
/// succeeded or failed.
pub proof fn lemma_for_restores_loop_variable(
    n: Seq<char>,
    lo: i32,
    hi: i32,
    body: Tree,
    src: Seq<char>,
    s: State,
    fuel: nat,
)
    ensures
        lookup(
            eval(
                Tree::For(
                    Box::new(Tree::Var(n)),
                    Box::new(Tree::Number(lo)),
                    Box::new(Tree::Number(hi)),
                    Box::new(body),
                    src,
                ),
                s,
                fuel,
            ).1.vars,
            n,
        ) == lookup(s.vars, n),
{
    let t = Tree::For(
        Box::new(Tree::Var(n)),
        Box::new(Tree::Number(lo)),
        Box::new(Tree::Number(hi)),
        Box::new(body),
        src,
    );
    if fuel >= 1 {
        let f = (fuel - 1) as nat;
        assert(eval(t, s, fuel) == eval_for(Tree::Var(n), Tree::Number(lo), Tree::Number(hi), body, src, s, f));
        if f == 0 {
            assert(eval(Tree::Number(lo), s, f) == (Err::<Val, Fault>(Fault::LimitReached), s));
        } else {
            assert(eval(Tree::Number(lo), s, f) == (Ok::<Val, Fault>(Val::Number(lo)), s));
            assert(eval(Tree::Number(hi), s, f) == (Ok::<Val, Fault>(Val::Number(hi)), s));
            let saved = lookup(s.vars, n);
            let (r, s3) = for_loop(n, lo as int, hi as int, body, s, f);
            assert(eval_for(Tree::Var(n), Tree::Number(lo), Tree::Number(hi), body, src, s, f).1
                == with_vars(s3, restore(s3.vars, n, saved)));
            lemma_lookup_restore(s3.vars, n, saved);
        }
    }
}

/// A character that the splitter passes over without acting on it.
pub open spec fn is_word_char(c: char) -> bool {
    !is_space(c) && c != '(' && c != ')' && c != '"'
}

/// Word characters outside parentheses and strings only extend the
/// current token.
proof fn lemma_scan_word(s: Seq<char>, i: int, j: int)
    requires
        0 <= i <= j <= s.len(),
        forall|m: int| i <= m < j ==> is_word_char(#[trigger] s[m]),
        scan(s, i).depth == 0,
        !scan(s, i).in_str,
    ensures
        scan(s, j).start == scan(s, i).start,
        scan(s, j).depth == 0,
        !scan(s, j).in_str,
        scan(s, j).toks == scan(s, i).toks,
        j > i ==> !scan(s, j).just_pushed,
    decreases j - i,
{
    if j > i {
        lemma_scan_word(s, i, j - 1);
        assert(is_word_char(s[j - 1]));
    }
}

/// Trimming a window that starts and ends with a non-space character
/// changes nothing.
proof fn lemma_trim_word(s: Seq<char>, a: int, b: int)
    requires
        0 <= a < b <= s.len(),
        !is_space(s[a]),
        !is_space(s[b - 1]),
    ensures
        trim_bounds(s, a, b) == (a, b),
{
}

/// The text of a binary form over two number literals, `(k a b)`.
pub open spec fn binary_text(k: char, a: i32, b: i32) -> Seq<char> {
    seq!['(', k, ' '] + int_text(a as int) + seq![' '] + int_text(b as int) + seq![')']
}

pub open spec fn binary_op(k: char) -> BinOp {
    if k == '+' {
        BinOp::Add
    } else if k == '-' {
        BinOp::Sub
    } else if k == '*' {
        BinOp::Mul
    } else if k == '/' {
        BinOp::Div
    } else {
        BinOp::Mod
    }
}

/// The one-character keywords of the arithmetic forms.
pub open spec fn is_arith_key(k: char) -> bool {
    k == '+' || k == '-' || k == '*' || k == '/' || k == '%'
}

proof fn lemma_form_of_op(k: char)
    requires
        is_arith_key(k),
    ensures
        form_of(seq![k]) == Form::Binary(binary_op(k)),
{
    let w = seq![k];
    assert(w.len() == 1 && w[0] == k);
    assert forall|c: char| #[trigger] seq![c] == w implies c == k by {
        assert(seq![c][0] == c);
    }
    assert(w =~= seq![k]);
    if k == '+' {
        assert(w =~= seq!['+']);
    } else if k == '-' {
        assert(w =~= seq!['-']);
    } else if k == '*' {
        assert(w =~= seq!['*']);
    } else if k == '/' {
        assert(w =~= seq!['/']);
    } else {
        assert(w =~= seq!['%']);
    }
}

/// The splitter cuts `k A B` (single spaces, word characters only) into
/// its three words.
proof fn lemma_split_three(inner: Seq<char>, k: char, ta: Seq<char>, tb: Seq<char>)
    requires
        inner == seq![k, ' '] + ta + seq![' '] + tb,
        is_word_char(k),
        ta.len() >= 1,
        tb.len() >= 1,
        forall|m: int| 0 <= m < ta.len() ==> is_word_char(#[trigger] ta[m]),
        forall|m: int| 0 <= m < tb.len() ==> is_word_char(#[trigger] tb[m]),
    ensures
        split(inner) == seq![
            (0int, 1int),
            (2int, 2 + ta.len() as int),
            (3 + ta.len() as int, 3 + ta.len() as int + tb.len() as int),
        ],
{
    let p = ta.len() as int;
    let q = tb.len() as int;
    assert(inner.len() == p + q + 3);
    assert(forall|m: int| 0 <= m < p ==> inner[2 + m] == ta[m]);
    assert(forall|m: int| 0 <= m < q ==> inner[3 + p + m] == tb[m]);
    assert(inner[0] == k && inner[1] == ' ' && inner[2 + p] == ' ');
    lemma_scan_word(inner, 0, 1);
    assert(scan(inner, 2).start == 2);
    assert(scan(inner, 2).toks == seq![trim_bounds(inner, 0, 1)]);
    assert forall|m: int| 2 <= m < 2 + p implies is_word_char(#[trigger] inner[m]) by {
        assert(inner[m] == ta[m - 2]);
    }
    lemma_scan_word(inner, 2, 2 + p);
    assert(scan(inner, 3 + p).start == 3 + p);
    assert(scan(inner, 3 + p).toks == seq![trim_bounds(inner, 0, 1), trim_bounds(inner, 2, 2 + p)]);
    assert forall|m: int| 3 + p <= m < 3 + p + q implies is_word_char(#[trigger] inner[m]) by {
        assert(inner[m] == tb[m - 3 - p]);
    }
    lemma_scan_word(inner, 3 + p, 3 + p + q);
    assert(inner[2] == ta[0] && inner[1 + p] == ta[p - 1]);
    assert(inner[3 + p] == tb[0] && inner[2 + p + q] == tb[q - 1]);
    lemma_trim_word(inner, 0, 1);
    lemma_trim_word(inner, 2, 2 + p);
    lemma_trim_word(inner, 3 + p, 3 + p + q);
    assert(split(inner) =~= seq![(0int, 1int), (2int, 2 + p), (3 + p, 3 + p + q)]);
}

/// The text of `(k a b)` is already normalised, and its interior is
/// `k a b`.
proof fn lemma_binary_text_shape(k: char, a: i32, b: i32)
    requires
        is_word_char(k),
        int_text(a as int).len() >= 1,
        int_text(b as int).len() >= 1,
        forall|m: int| 0 <= m < int_text(a as int).len() ==> is_word_char(#[trigger] int_text(a as int)[m]),
        forall|m: int| 0 <= m < int_text(b as int).len() ==> is_word_char(#[trigger] int_text(b as int)[m]),
    ensures
        normalize(binary_text(k, a, b)) == binary_text(k, a, b),
        trim_bounds(binary_text(k, a, b), 1, binary_text(k, a, b).len() - 1) == (
            1int,
            binary_text(k, a, b).len() - 1,
        ),
        binary_text(k, a, b).subrange(1, binary_text(k, a, b).len() - 1) == seq![k, ' ']
            + int_text(a as int) + seq![' '] + int_text(b as int),
        binary_text(k, a, b)[0] == '(',
        binary_text(k, a, b).last() == ')',
{
    let ta = int_text(a as int);
    let tb = int_text(b as int);
    let p = ta.len() as int;
    let q = tb.len() as int;
    let t = binary_text(k, a, b);
    assert(t.len() == p + q + 5);
    assert(forall|m: int| 0 <= m < p ==> t[3 + m] == ta[m]);
    assert(forall|m: int| 0 <= m < q ==> t[4 + p + m] == tb[m]);
    assert(t[0] == '(' && t[1] == k && t[2] == ' ' && t[3 + p] == ' ' && t[t.len() - 1] == ')');
    assert forall|i: int| 0 <= i < t.len() implies !is_space(#[trigger] t[i]) || t[i] == ' ' by {
        if 3 <= i < 3 + p {
            assert(is_word_char(ta[i - 3]));
        } else if 4 + p <= i < 4 + p + q {
            assert(is_word_char(tb[i - 4 - p]));
        }
    }
    assert forall|i: int| 0 <= i < t.len() - 1 implies !(#[trigger] t[i] == ' ' && t[i + 1]
        == ' ') by {
        if 3 <= i < 3 + p {
            assert(is_word_char(ta[i - 3]));
        } else if 4 + p <= i < 4 + p + q {
            assert(is_word_char(tb[i - 4 - p]));
        } else if i == 2 {
            assert(is_word_char(ta[0]));
        } else if i == 3 + p {
            assert(is_word_char(tb[0]));
        }
    }
    lemma_normalize_plain(t);
    assert(t[t.len() - 2] == tb[q - 1]);
    assert(is_word_char(tb[q - 1]));
    lemma_trim_word(t, 1, t.len() - 1);
    assert(t.subrange(1, t.len() - 1) =~= seq![k, ' '] + ta + seq![' '] + tb);
}

/// Parsing `(k a b)` for `k` one of `+ - * / %` gives that operator over
/// the two numbers.
#[verifier::rlimit(100)]
pub proof fn lemma_parse_binary_text(k: char, a: i32, b: i32)
    requires
        is_arith_key(k),
    ensures
        parse(binary_text(k, a, b)) == Tree::Binary(
            binary_op(k),
            Box::new(Tree::Number(a)),
            Box::new(Tree::Number(b)),
            binary_text(k, a, b),
        ),
{
    let ta = int_text(a as int);
    let tb = int_text(b as int);
    let t = binary_text(k, a, b);
    let inner = t.subrange(1, t.len() - 1);
    assert(parse_norm(ta) == Tree::Number(a) && parse_norm(tb) == Tree::Number(b)) by {
        lemma_int_text_parses(a);
        lemma_int_text_parses(b);
        assert(ta[0] == '-' || is_digit(ta[0]));
        assert(tb[0] == '-' || is_digit(tb[0]));
    }
    assert(normalize(t) == t && trim_bounds(t, 1, t.len() - 1) == (1int, t.len() - 1) && inner
        == seq![k, ' '] + ta + seq![' '] + tb && t[0] == '(' && t.last() == ')' && split(inner)
        == seq![
        (0int, 1int),
        (2int, 2 + ta.len() as int),
        (3 + ta.len() as int, 3 + ta.len() as int + tb.len() as int),
    ]) by {
        lemma_int_text_parses(a);
        lemma_int_text_parses(b);
        assert forall|m: int| 0 <= m < ta.len() implies is_word_char(#[trigger] ta[m]) by {
            let c = ta[m];
            assert(c == '-' || is_digit(c));
        }
        assert forall|m: int| 0 <= m < tb.len() implies is_word_char(#[trigger] tb[m]) by {
            let c = tb[m];
            assert(c == '-' || is_digit(c));
        }
        lemma_binary_text_shape(k, a, b);
        lemma_split_three(inner, k, ta, tb);
    }
    let p = ta.len() as int;
    let q = tb.len() as int;
    let toks = split(inner);
    assert(form_of(inner.subrange(toks[0].0, toks[0].1)) == Form::Binary(binary_op(k))) by {
        assert(inner.subrange(0, 1) =~= seq![k]);
        lemma_form_of_op(k);
    }
    assert(child(t, inner, toks, 1) == Tree::Number(a)) by {
        assert(inner.subrange(2, 2 + p) =~= ta);
    }
    assert(child(t, inner, toks, 2) == Tree::Number(b)) by {
        assert(inner.subrange(3 + p, 3 + p + q) =~= tb);
    }
    assert(parse_norm(t) == form_tree(t, inner, toks, Form::Binary(binary_op(k))));
}

/// The laws of arithmetic hold of whole programs: `(+ a b)`, `(- a b)`
/// and `(* a b)` evaluate to the exact sum, difference and product, or to
/// an overflow error when that leaves the range of `i32`.
pub proof fn lemma_arithmetic_program(k: char, a: i32, b: i32, inputs: Seq<Seq<char>>)
    requires
        k == '+' || k == '-' || k == '*',
    ensures
        execute(parse(binary_text(k, a, b)), inputs).0 == checked(
            if k == '+' {
                a + b
            } else if k == '-' {
                a - b
            } else {
                a * b
            },
            binary_text(k, a, b),
        ),
{
    lemma_parse_binary_text(k, a, b);
    lemma_arithmetic(
        binary_op(k),
        a,
        b,
        binary_text(k, a, b),
        crate::env::initial(inputs),
        top_fuel(),
    );
}

/// Division or remainder by zero is always reported as such, with the
/// form's source text, and changes nothing.
pub proof fn lemma_division_by_zero(op: BinOp, a: i32, src: Seq<char>, s: State, fuel: nat)
    requires
        op == BinOp::Div || op == BinOp::Mod,
        fuel >= 2,
    ensures
        eval(Tree::Binary(op, Box::new(Tree::Number(a)), Box::new(Tree::Number(0)), src), s, fuel)
            == (Err::<Val, Fault>(Fault::DivisionByZero { src }), s),
{
    let f = (fuel - 1) as nat;
    assert(eval(Tree::Number(a), s, f) == (Ok::<Val, Fault>(Val::Number(a)), s));
    assert(eval(Tree::Number(0), s, f) == (Ok::<Val, Fault>(Val::Number(0)), s));
}

/// Restoring keys other than `k` leaves its lookup as it was.
proof fn lemma_restore_params_other(
    vars: Seq<(Seq<char>, Val)>,
    ps: Seq<Seq<char>>,
    saved: Seq<Option<Val>>,
    i: int,
    k: Seq<char>,
)
    requires
        0 <= i,
        forall|j: int| i <= j < ps.len() ==> ps[j] != k,
    ensures
        lookup(restore_params(vars, ps, saved, i), k) == lookup(vars, k),
    decreases ps.len() - i,
{
    if i < ps.len() {
        lemma_lookup_restore_other(vars, ps[i], saved[i], k);
        lemma_restore_params_other(restore(vars, ps[i], saved[i]), ps, saved, i + 1, k);
    }
}

/// After restoring keys from `i` on, a key among them has the binding
/// saved for it.
proof fn lemma_restore_params_lookup(
    vars: Seq<(Seq<char>, Val)>,
    ps: Seq<Seq<char>>,
    saved: Seq<Option<Val>>,
    i: int,
    k: Seq<char>,
    target: Option<Val>,
)
    requires
        0 <= i,
        exists|j: int| i <= j < ps.len() && ps[j] == k,
        forall|j: int| i <= j < ps.len() && ps[j] == k ==> saved[j] == target,
    ensures
        lookup(restore_params(vars, ps, saved, i), k) == target,
    decreases ps.len() - i,
{
    let next = restore(vars, ps[i], saved[i]);
    if exists|j: int| i + 1 <= j < ps.len() && ps[j] == k {
        lemma_restore_params_lookup(next, ps, saved, i + 1, k, target);
    } else {
        assert(ps[i] == k);
        lemma_lookup_restore(vars, k, saved[i]);
        lemma_restore_params_other(next, ps, saved, i + 1, k);
    }
}

/// A function call puts every parameter it bound back to its binding
/// before the call (or to none), whether the body succeeded or failed.
pub proof fn lemma_call_restores_parameters(
    f: FunSpec,
    vals: Seq<Val>,
    s: State,
    fuel: nat,
    k: Seq<char>,
)
    requires
        exists|j: int| 0 <= j < f.params.len() && j < vals.len() && f.params[j] == k,
    ensures
        lookup(apply_function(f, vals, s, fuel).1.vars, k) == lookup(s.vars, k),
{
    let m = if f.params.len() < vals.len() {
        f.params.len()
    } else {
        vals.len()
    };
    let ps = f.params.take(m as int);
    let saved = saved_params(s.vars, ps);
    let (r, s1) = eval(f.body, with_vars(s, bind_params(s.vars, ps, vals, 0)), fuel);
    let j = choose|j: int| 0 <= j < f.params.len() && j < vals.len() && f.params[j] == k;
    assert(ps[j] == k);
    lemma_restore_params_lookup(s1.vars, ps, saved, 0, k, lookup(s.vars, k));
}

/// Every arithmetic or comparison operator over two number literals
/// gives `apply_binary` of the two numbers, and changes nothing.
pub proof fn lemma_binary_numbers(op: BinOp, a: i32, b: i32, src: Seq<char>, s: State, fuel: nat)
    requires
        fuel >= 2,
    ensures
        eval(Tree::Binary(op, Box::new(Tree::Number(a)), Box::new(Tree::Number(b)), src), s, fuel)
            == (apply_binary(op, Val::Number(a), Val::Number(b), src), s),
{
    let f = (fuel - 1) as nat;
    assert(eval(Tree::Number(a), s, f) == (Ok::<Val, Fault>(Val::Number(a)), s));
    assert(eval(Tree::Number(b), s, f) == (Ok::<Val, Fault>(Val::Number(b)), s));
}

/// A whole program `(k a b)`, `k` one of `+ - * / %`, gives the operator's
/// result on the two numbers (`arith`): in particular `(/ a 0)` and
/// `(% a 0)` always give the division-by-zero error for that text.
pub proof fn lemma_binary_program(k: char, a: i32, b: i32, inputs: Seq<Seq<char>>)
    requires
        is_arith_key(k),
    ensures
        execute(parse(binary_text(k, a, b)), inputs).0 == arith(
            binary_op(k),
            a,
            b,
            binary_text(k, a, b),
        ),
        b == 0 && (k == '/' || k == '%') ==> execute(parse(binary_text(k, a, b)), inputs).0
            == Err::<Val, Fault>(Fault::DivisionByZero { src: binary_text(k, a, b) }),
{
    lemma_parse_binary_text(k, a, b);
    lemma_binary_numbers(
        binary_op(k),
        a,
        b,
        binary_text(k, a, b),
        crate::env::initial(inputs),
        top_fuel(),
    );
}

} // verus!
