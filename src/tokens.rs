//! The expression tree and the parser that builds it from source text.
use vstd::prelude::*;

use crate::text::{
    chars_of, lemma_trim_shift, normalize, normalize_chars, parse_int, parse_int_range,
    string_of, trim_bounds, trim_range,
};
use crate::types::Type;

verus! {

/// The binary operators.
#[derive(Debug, Clone, Copy, PartialEq, Eq, Structural)]
pub enum BinOp {
    Add,
    Sub,
    Mul,
    Div,
    Mod,
    Equal,
    NEqual,
    GreaterThan,
    GreaterEqualThan,
    LessThan,
    LessEqualThan,
    And,
    Or,
}

/// An expression tree. Each compound node keeps the trimmed source text it
/// was parsed from, for error reports.
#[derive(Debug, PartialEq, Eq)]
pub enum Expr {
    Number(i32),
    Bool(bool),
    Var(String),
    Str(String),
    EnumElement(String),
    Binary(BinOp, Box<Expr>, Box<Expr>, String),
    Not(Box<Expr>, String),
    If(Box<Expr>, Box<Expr>, Box<Expr>, String),
    Let(Box<Expr>, Box<Expr>, String),
    /// `set`: overwrites an existing binding.
    Assign(Box<Expr>, Box<Expr>, String),
    Sequence(Vec<Expr>, String),
    For(Box<Expr>, Box<Expr>, Box<Expr>, Box<Expr>, String),
    While(Box<Expr>, Box<Expr>, String),
    Define(Box<Expr>, Vec<Expr>, Box<Expr>, String),
    Call(Box<Expr>, Vec<Expr>, String),
    Print(Vec<Expr>),
    Enum(Box<Expr>, Vec<Expr>, String),
    Input,
    Empty,
    /// A form whose operands are missing or whose parentheses do not close.
    Malformed(String),
}

/// The model of an [`Expr`].
pub enum Tree {
    Number(i32),
    Bool(bool),
    Var(Seq<char>),
    Str(Seq<char>),
    EnumElement(Seq<char>),
    Binary(BinOp, Box<Tree>, Box<Tree>, Seq<char>),
    Not(Box<Tree>, Seq<char>),
    If(Box<Tree>, Box<Tree>, Box<Tree>, Seq<char>),
    Let(Box<Tree>, Box<Tree>, Seq<char>),
    Assign(Box<Tree>, Box<Tree>, Seq<char>),
    Sequence(Seq<Tree>, Seq<char>),
    For(Box<Tree>, Box<Tree>, Box<Tree>, Box<Tree>, Seq<char>),
    While(Box<Tree>, Box<Tree>, Seq<char>),
    Define(Box<Tree>, Seq<Tree>, Box<Tree>, Seq<char>),
    Call(Box<Tree>, Seq<Tree>, Seq<char>),
    Print(Seq<Tree>),
    Enum(Box<Tree>, Seq<Tree>, Seq<char>),
    Input,
    Empty,
    Malformed(Seq<char>),
}

/// The models of a list of expressions.
pub open spec fn views(v: Seq<Expr>) -> Seq<Tree>
    decreases v,
{
    Seq::new(v.len(), |i: int| if 0 <= i < v.len() { v[i].view() } else { Tree::Empty })
}

impl Expr {
    pub open spec fn view(&self) -> Tree
        decreases self,
    {
        match self {
            Expr::Number(n) => Tree::Number(*n),
            Expr::Bool(b) => Tree::Bool(*b),
            Expr::Var(s) => Tree::Var(s@),
            Expr::Str(s) => Tree::Str(s@),
            Expr::EnumElement(s) => Tree::EnumElement(s@),
            Expr::Binary(op, a, b, s) => Tree::Binary(
                *op,
                Box::new(a.view()),
                Box::new(b.view()),
                s@,
            ),
            Expr::Not(a, s) => Tree::Not(Box::new(a.view()), s@),
            Expr::If(a, b, c, s) => Tree::If(
                Box::new(a.view()),
                Box::new(b.view()),
                Box::new(c.view()),
                s@,
            ),
            Expr::Let(a, b, s) => Tree::Let(Box::new(a.view()), Box::new(b.view()), s@),
            Expr::Assign(a, b, s) => Tree::Assign(Box::new(a.view()), Box::new(b.view()), s@),
            Expr::Sequence(v, s) => Tree::Sequence(
                views(v@),
                s@,
            ),
            Expr::For(a, b, c, d, s) => Tree::For(
                Box::new(a.view()),
                Box::new(b.view()),
                Box::new(c.view()),
                Box::new(d.view()),
                s@,
            ),
            Expr::While(a, b, s) => Tree::While(Box::new(a.view()), Box::new(b.view()), s@),
            Expr::Define(a, v, b, s) => Tree::Define(
                Box::new(a.view()),
                views(v@),
                Box::new(b.view()),
                s@,
            ),
            Expr::Call(a, v, s) => Tree::Call(
                Box::new(a.view()),
                views(v@),
                s@,
            ),
            Expr::Print(v) => Tree::Print(
                views(v@),
            ),
            Expr::Enum(a, v, s) => Tree::Enum(
                Box::new(a.view()),
                views(v@),
                s@,
            ),
            Expr::Input => Tree::Input,
            Expr::Empty => Tree::Empty,
            Expr::Malformed(s) => Tree::Malformed(s@),
        }
    }
}

/// The type tag of an unevaluated expression node.
pub open spec fn tree_type(t: Tree) -> Type {
    match t {
        Tree::Number(_) => Type::Number,
        Tree::Str(_) => Type::Str,
        Tree::Var(_) => Type::Var,
        Tree::Bool(_) => Type::Bool,
        _ => Type::Expression,
    }
}

/// The shape selected by a form's first token.
#[derive(Clone, Copy, PartialEq, Eq, Structural)]
pub enum Form {
    Binary(BinOp),
    Not,
    If,
    Let,
    Assign,
    While,
    For,
    Define,
    Call,
    Enum,
    Print,
    Input,
    Other,
}

/// The keyword table.
pub open spec fn form_of(w: Seq<char>) -> Form {
    if w == seq!['+'] {
        Form::Binary(BinOp::Add)
    } else if w == seq!['-'] {
        Form::Binary(BinOp::Sub)
    } else if w == seq!['*'] {
        Form::Binary(BinOp::Mul)
    } else if w == seq!['/'] {
        Form::Binary(BinOp::Div)
    } else if w == seq!['%'] {
        Form::Binary(BinOp::Mod)
    } else if w == seq!['='] {
        Form::Binary(BinOp::Equal)
    } else if w == seq!['!', '='] {
        Form::Binary(BinOp::NEqual)
    } else if w == seq!['>'] {
        Form::Binary(BinOp::GreaterThan)
    } else if w == seq!['>', '='] {
        Form::Binary(BinOp::GreaterEqualThan)
    } else if w == seq!['<'] {
        Form::Binary(BinOp::LessThan)
    } else if w == seq!['<', '='] {
        Form::Binary(BinOp::LessEqualThan)
    } else if w == seq!['&', '&'] {
        Form::Binary(BinOp::And)
    } else if w == seq!['|', '|'] {
        Form::Binary(BinOp::Or)
    } else if w == seq!['!'] {
        Form::Not
    } else if w == seq!['i', 'f'] {
        Form::If
    } else if w == seq!['l', 'e', 't'] {
        Form::Let
    } else if w == seq!['s', 'e', 't'] {
        Form::Assign
    } else if w == seq!['d', 'e', 'f'] {
        Form::Define
    } else if w == seq!['c', 'a', 'l', 'l'] {
        Form::Call
    } else if w == seq!['e', 'n', 'u', 'm'] {
        Form::Enum
    } else if w == seq!['p', 'r', 'i', 'n', 't'] {
        Form::Print
    } else if w == seq!['i', 'n', 'p', 'u', 't'] {
        Form::Input
    } else if w == seq!['w', 'h', 'i', 'l', 'e'] {
        Form::While
    } else if w == seq!['f', 'o', 'r'] {
        Form::For
    } else {
        Form::Other
    }
}

/// The state of the splitter after a prefix of its input: where the
/// current token starts, the parenthesis depth, whether a string literal is
/// open, whether a group was just emitted, and the tokens so far (as bounds).
pub struct Scan {
    pub start: int,
    pub depth: int,
    pub in_str: bool,
    pub just_pushed: bool,
    pub toks: Seq<(int, int)>,
}

/// The splitter's reaction to character `i` of `s`.
pub open spec fn scan_step(s: Seq<char>, st: Scan, i: int) -> Scan {
    let c = s[i];
    if st.in_str {
        if c == '"' {
            Scan { in_str: false, ..st }
        } else {
            Scan { just_pushed: false, ..st }
        }
    } else if c == ' ' && st.depth == 0 && !st.just_pushed {
        Scan {
            start: i + 1,
            just_pushed: false,
            toks: st.toks.push(trim_bounds(s, st.start, i)),
            ..st
        }
    } else if c == '(' {
        Scan { depth: st.depth + 1, ..st }
    } else if c == ')' && st.depth > 0 {
        if st.depth == 1 {
            Scan {
                start: i + 1,
                depth: 0,
                just_pushed: true,
                toks: st.toks.push(trim_bounds(s, st.start, i + 1)),
                ..st
            }
        } else {
            Scan { depth: st.depth - 1, ..st }
        }
    } else if c == '"' {
        Scan { in_str: true, ..st }
    } else {
        Scan { just_pushed: false, ..st }
    }
}

/// The splitter's state after the first `n` characters of `s`.
pub open spec fn scan(s: Seq<char>, n: int) -> Scan
    decreases n,
{
    if n <= 0 {
        Scan { start: 0, depth: 0, in_str: false, just_pushed: false, toks: Seq::empty() }
    } else {
        scan_step(s, scan(s, n - 1), n - 1)
    }
}

/// The top-level sub-expressions of `s`, as bounds into `s`: a space
/// separates tokens only outside parentheses and string literals, and a
/// parenthesised group ends its token when it closes.
pub open spec fn split(s: Seq<char>) -> Seq<(int, int)> {
    let st = scan(s, s.len() as int);
    if st.start < s.len() {
        st.toks.push(trim_bounds(s, st.start, s.len() as int))
    } else {
        st.toks
    }
}

/// A leaf: a number, a string literal, or a variable name.
pub open spec fn parse_leaf(t: Seq<char>) -> Tree {
    match parse_int(t) {
        Some(n) => Tree::Number(n),
        None => if t[0] == '"' {
            if t.len() >= 2 && t.last() == '"' {
                Tree::Str(t.subrange(1, t.len() - 1))
            } else {
                Tree::Malformed(t)
            }
        } else {
            Tree::Var(t)
        },
    }
}

/// The tree of token `k` of the form `t`, whose trimmed interior is `inner`.
pub open spec fn child(t: Seq<char>, inner: Seq<char>, toks: Seq<(int, int)>, k: int) -> Tree
    decreases t.len(), 0int,
{
    if 0 <= k < toks.len() && 0 <= toks[k].0 <= toks[k].1 <= inner.len() && inner.len() < t.len() {
        parse_norm(inner.subrange(toks[k].0, toks[k].1))
    } else {
        Tree::Empty
    }
}

/// The trees of tokens `from..to` of the form `t`.
pub open spec fn children(
    t: Seq<char>,
    inner: Seq<char>,
    toks: Seq<(int, int)>,
    from: int,
    to: int,
) -> Seq<Tree>
    decreases t.len(), 1int,
{
    Seq::new((to - from) as nat, |j: int| child(t, inner, toks, from + j))
}

/// The tree of the form `t` whose tokens select the shape `f`.
pub open spec fn form_tree(t: Seq<char>, inner: Seq<char>, toks: Seq<(int, int)>, f: Form) -> Tree
    decreases t.len(), 2int,
{
    let n = toks.len() as int;
    let c = |k: int| Box::new(child(t, inner, toks, k));
    match f {
        Form::Binary(op) => if n >= 3 {
            Tree::Binary(op, c(1), c(2), t)
        } else {
            Tree::Malformed(t)
        },
        Form::Not => if n >= 2 {
            Tree::Not(c(1), t)
        } else {
            Tree::Malformed(t)
        },
        Form::If => if n >= 4 {
            Tree::If(c(1), c(2), c(3), t)
        } else {
            Tree::Malformed(t)
        },
        Form::Let => if n >= 3 {
            Tree::Let(c(1), c(2), t)
        } else {
            Tree::Malformed(t)
        },
        Form::Assign => if n >= 3 {
            Tree::Assign(c(1), c(2), t)
        } else {
            Tree::Malformed(t)
        },
        Form::While => if n >= 3 {
            Tree::While(c(1), c(2), t)
        } else {
            Tree::Malformed(t)
        },
        Form::For => if n >= 5 {
            Tree::For(c(1), c(2), c(3), c(4), t)
        } else {
            Tree::Malformed(t)
        },
        Form::Define => if n >= 3 {
            Tree::Define(c(1), children(t, inner, toks, 2, n - 1), c(n - 1), t)
        } else {
            Tree::Malformed(t)
        },
        Form::Call => if n >= 2 {
            Tree::Call(c(1), children(t, inner, toks, 2, n), t)
        } else {
            Tree::Malformed(t)
        },
        Form::Enum => if n >= 2 {
            Tree::Enum(c(1), children(t, inner, toks, 2, n), t)
        } else {
            Tree::Malformed(t)
        },
        Form::Print => Tree::Print(children(t, inner, toks, 1, n)),
        Form::Input => Tree::Input,
        Form::Other => Tree::Sequence(children(t, inner, toks, 0, n), t),
    }
}

/// The tree of a normalised text.
pub open spec fn parse_norm(t: Seq<char>) -> Tree
    decreases t.len(), 3int,
{
    if t.len() == 0 {
        Tree::Empty
    } else if t[0] != '(' {
        parse_leaf(t)
    } else if t.len() < 2 || t.last() != ')' {
        Tree::Malformed(t)
    } else {
        let (a, b) = trim_bounds(t, 1, t.len() - 1);
        let inner = t.subrange(a, b);
        let toks = split(inner);
        let n = toks.len() as int;
        if n == 0 {
            Tree::Malformed(t)
        } else {
            form_tree(t, inner, toks, form_of(inner.subrange(toks[0].0, toks[0].1)))
        }
    }
}

/// The tree of a source text.
pub open spec fn parse(s: Seq<char>) -> Tree {
    parse_norm(normalize(s))
}

/// Whether `text[a..b]` is the one-character word `c0`.
fn word1(text: &Vec<char>, a: usize, b: usize, c0: char) -> (r: bool)
    requires
        a <= b <= text@.len(),
    ensures
        r == (text@.subrange(a as int, b as int) == seq![c0]),
{
    let r = b - a == 1 && text[a] == c0;
    proof {
        let w = text@.subrange(a as int, b as int);
        let l = seq![c0];
        assert(l.len() == 1 && l[0] == c0);
        if w.len() == 1 {
            assert(w[0] == text@[a + 0]);
        }
        if r {
            assert(w =~= l);
        }
    }
    r
}

/// Whether `text[a..b]` is the two-character word `c0 c1`.
fn word2(text: &Vec<char>, a: usize, b: usize, c0: char, c1: char) -> (r: bool)
    requires
        a <= b <= text@.len(),
    ensures
        r == (text@.subrange(a as int, b as int) == seq![c0, c1]),
{
    let r = b - a == 2 && text[a] == c0 && text[a + 1] == c1;
    proof {
        let w = text@.subrange(a as int, b as int);
        let l = seq![c0, c1];
        assert(l.len() == 2 && l[0] == c0 && l[1] == c1);
        if w.len() == 2 {
            assert(w[0] == text@[a + 0] && w[1] == text@[a + 1]);
        }
        if r {
            assert(w =~= l);
        }
    }
    r
}

/// Whether `text[a..b]` is the three-character word `c0 c1 c2`.
fn word3(text: &Vec<char>, a: usize, b: usize, c0: char, c1: char, c2: char) -> (r: bool)
    requires
        a <= b <= text@.len(),
    ensures
        r == (text@.subrange(a as int, b as int) == seq![c0, c1, c2]),
{
    let r = b - a == 3 && text[a] == c0 && text[a + 1] == c1 && text[a + 2] == c2;
    proof {
        let w = text@.subrange(a as int, b as int);
        let l = seq![c0, c1, c2];
        assert(l.len() == 3 && l[0] == c0 && l[1] == c1 && l[2] == c2);
        if w.len() == 3 {
            assert(w[0] == text@[a + 0] && w[1] == text@[a + 1] && w[2] == text@[a + 2]);
        }
        if r {
            assert(w =~= l);
        }
    }
    r
}

/// Whether `text[a..b]` is the four-character word `c0 c1 c2 c3`.
fn word4(text: &Vec<char>, a: usize, b: usize, c0: char, c1: char, c2: char, c3: char) -> (r:
    bool)
    requires
        a <= b <= text@.len(),
    ensures
        r == (text@.subrange(a as int, b as int) == seq![c0, c1, c2, c3]),
{
    let r = b - a == 4 && text[a] == c0 && text[a + 1] == c1 && text[a + 2] == c2 && text[a + 3]
        == c3;
    proof {
        let w = text@.subrange(a as int, b as int);
        let l = seq![c0, c1, c2, c3];
        assert(l.len() == 4 && l[0] == c0 && l[1] == c1 && l[2] == c2 && l[3] == c3);
        if w.len() == 4 {
            assert(w[0] == text@[a + 0] && w[1] == text@[a + 1] && w[2] == text@[a + 2] && w[3] == text@[a + 3]);
        }
        if r {
            assert(w =~= l);
        }
    }
    r
}

/// Whether `text[a..b]` is the five-character word `c0 c1 c2 c3 c4`.
fn word5(text: &Vec<char>, a: usize, b: usize, c0: char, c1: char, c2: char, c3: char, c4: char) -> (r: bool)
    requires
        a <= b <= text@.len(),
    ensures
        r == (text@.subrange(a as int, b as int) == seq![c0, c1, c2, c3, c4]),
{
    let r = b - a == 5 && text[a] == c0 && text[a + 1] == c1 && text[a + 2] == c2 && text[a + 3]
        == c3 && text[a + 4] == c4;
    proof {
        let w = text@.subrange(a as int, b as int);
        let l = seq![c0, c1, c2, c3, c4];
        assert(l.len() == 5 && l[0] == c0 && l[1] == c1 && l[2] == c2 && l[3] == c3 && l[4] == c4);
        if w.len() == 5 {
            assert(w[0] == text@[a + 0] && w[1] == text@[a + 1] && w[2] == text@[a + 2] && w[3] == text@[a + 3] && w[4] == text@[a + 4]);
        }
        if r {
            assert(w =~= l);
        }
    }
    r
}

/// The form that the keyword `text[a..b]` selects.
fn form_at(text: &Vec<char>, a: usize, b: usize) -> (r: Form)
    requires
        a <= b <= text@.len(),
    ensures
        r == form_of(text@.subrange(a as int, b as int)),
{
    if word1(text, a, b, '+') {
        Form::Binary(BinOp::Add)
    } else if word1(text, a, b, '-') {
        Form::Binary(BinOp::Sub)
    } else if word1(text, a, b, '*') {
        Form::Binary(BinOp::Mul)
    } else if word1(text, a, b, '/') {
        Form::Binary(BinOp::Div)
    } else if word1(text, a, b, '%') {
        Form::Binary(BinOp::Mod)
    } else if word1(text, a, b, '=') {
        Form::Binary(BinOp::Equal)
    } else if word2(text, a, b, '!', '=') {
        Form::Binary(BinOp::NEqual)
    } else if word1(text, a, b, '>') {
        Form::Binary(BinOp::GreaterThan)
    } else if word2(text, a, b, '>', '=') {
        Form::Binary(BinOp::GreaterEqualThan)
    } else if word1(text, a, b, '<') {
        Form::Binary(BinOp::LessThan)
    } else if word2(text, a, b, '<', '=') {
        Form::Binary(BinOp::LessEqualThan)
    } else if word2(text, a, b, '&', '&') {
        Form::Binary(BinOp::And)
    } else if word2(text, a, b, '|', '|') {
        Form::Binary(BinOp::Or)
    } else if word1(text, a, b, '!') {
        Form::Not
    } else if word2(text, a, b, 'i', 'f') {
        Form::If
    } else if word3(text, a, b, 'l', 'e', 't') {
        Form::Let
    } else if word3(text, a, b, 's', 'e', 't') {
        Form::Assign
    } else if word3(text, a, b, 'd', 'e', 'f') {
        Form::Define
    } else if word4(text, a, b, 'c', 'a', 'l', 'l') {
        Form::Call
    } else if word4(text, a, b, 'e', 'n', 'u', 'm') {
        Form::Enum
    } else if word5(text, a, b, 'p', 'r', 'i', 'n', 't') {
        Form::Print
    } else if word5(text, a, b, 'i', 'n', 'p', 'u', 't') {
        Form::Input
    } else if word5(text, a, b, 'w', 'h', 'i', 'l', 'e') {
        Form::While
    } else if word3(text, a, b, 'f', 'o', 'r') {
        Form::For
    } else {
        Form::Other
    }
}

/// The top-level tokens of `text[lo..hi]`, as bounds into `text`.
fn split_range(text: &Vec<char>, lo: usize, hi: usize) -> (r: Vec<(usize, usize)>)
    requires
        lo <= hi <= text@.len(),
    ensures
        r@.len() == split(text@.subrange(lo as int, hi as int)).len(),
        forall|k: int|
            0 <= k < r@.len() ==> {
                &&& r@[k].0 == lo + split(text@.subrange(lo as int, hi as int))[k].0
                &&& r@[k].1 == lo + split(text@.subrange(lo as int, hi as int))[k].1
                &&& lo <= r@[k].0 <= r@[k].1 <= hi
            },
{
    let ghost sub = text@.subrange(lo as int, hi as int);
    let n = hi - lo;
    let mut toks: Vec<(usize, usize)> = Vec::new();
    let mut start: usize = 0;
    let mut depth: usize = 0;
    let mut in_str = false;
    let mut just_pushed = false;
    let mut i: usize = 0;
    while i < n
        invariant
            lo <= hi <= text@.len(),
            n == hi - lo,
            sub == text@.subrange(lo as int, hi as int),
            i <= n,
            start <= i,
            depth <= i,
            scan(sub, i as int).start == start as int,
            scan(sub, i as int).depth == depth as int,
            scan(sub, i as int).in_str == in_str,
            scan(sub, i as int).just_pushed == just_pushed,
            scan(sub, i as int).toks.len() == toks@.len(),
            forall|k: int|
                0 <= k < toks@.len() ==> {
                    &&& toks@[k].0 == lo + scan(sub, i as int).toks[k].0
                    &&& toks@[k].1 == lo + scan(sub, i as int).toks[k].1
                    &&& lo <= toks@[k].0 <= toks@[k].1 <= lo + i
                },
        decreases n - i,
    {
        let ghost st = scan(sub, i as int);
        let c = text[lo + i];
        assert(sub[i as int] == c);
        if in_str {
            if c == '"' {
                in_str = false;
            } else {
                just_pushed = false;
            }
        } else if c == ' ' && depth == 0 && !just_pushed {
            let (x, y) = trim_range(text, lo + start, lo + i);
            proof {
                lemma_trim_shift(text@, lo as int, hi as int, start as int, i as int);
            }
            toks.push((x, y));
            start = i + 1;
            just_pushed = false;
        } else if c == '(' {
            depth = depth + 1;
        } else if c == ')' && depth > 0 {
            if depth == 1 {
                let (x, y) = trim_range(text, lo + start, lo + i + 1);
                proof {
                    lemma_trim_shift(text@, lo as int, hi as int, start as int, i + 1);
                }
                toks.push((x, y));
                start = i + 1;
                depth = 0;
                just_pushed = true;
            } else {
                depth = depth - 1;
            }
        } else if c == '"' {
            in_str = true;
        } else {
            just_pushed = false;
        }
        i = i + 1;
    }
    if start < n {
        let (x, y) = trim_range(text, lo + start, hi);
        proof {
            lemma_trim_shift(text@, lo as int, hi as int, start as int, n as int);
        }
        toks.push((x, y));
    }
    toks
}

/// The leaf that `text[lo..hi]` spells.
fn leaf(text: &Vec<char>, lo: usize, hi: usize) -> (r: Expr)
    requires
        lo < hi <= text@.len(),
    ensures
        r@ == parse_leaf(text@.subrange(lo as int, hi as int)),
{
    let ghost t = text@.subrange(lo as int, hi as int);
    match parse_int_range(text, lo, hi) {
        Some(n) => Expr::Number(n),
        None => {
            assert(t[0] == text@[lo as int]);
            if text[lo] == '"' {
                if hi - lo >= 2 && text[hi - 1] == '"' {
                    let s = string_of(text, lo + 1, hi - 1);
                    assert(t.subrange(1, t.len() - 1) =~= text@.subrange(lo + 1, hi - 1));
                    Expr::Str(s)
                } else {
                    Expr::Malformed(string_of(text, lo, hi))
                }
            } else {
                Expr::Var(string_of(text, lo, hi))
            }
        },
    }
}

/// The trees of the tokens `from..to` of the form `t == text[lo..hi]`.
fn build_list(
    text: &Vec<char>,
    toks: &Vec<(usize, usize)>,
    from: usize,
    to: usize,
    lo: usize,
    hi: usize,
    Ghost(t): Ghost<Seq<char>>,
    Ghost(inner): Ghost<Seq<char>>,
    Ghost(stoks): Ghost<Seq<(int, int)>>,
) -> (r: Vec<Expr>)
    requires
        from <= to <= toks@.len(),
        hi <= text@.len(),
        forall|m: int| 0 <= m < toks@.len() ==> lo < (#[trigger] toks@[m]).0 <= toks@[m].1 < hi,
        forall|m: int|
            0 <= m < toks@.len() ==> #[trigger] child(t, inner, stoks, m) == parse_norm(
                text@.subrange(toks@[m].0 as int, toks@[m].1 as int),
            ),
    ensures
        views(r@) == children(t, inner, stoks, from as int, to as int),
    decreases hi - lo, 1int,
{
    let mut r: Vec<Expr> = Vec::new();
    let mut k = from;
    while k < to
        invariant
            from <= k <= to <= toks@.len(),
            hi <= text@.len(),
            forall|m: int| 0 <= m < toks@.len() ==> lo < (#[trigger] toks@[m]).0 <= toks@[m].1 < hi,
            forall|m: int|
                0 <= m < toks@.len() ==> #[trigger] child(t, inner, stoks, m) == parse_norm(
                    text@.subrange(toks@[m].0 as int, toks@[m].1 as int),
                ),
            r@.len() == k - from,
            forall|j: int| 0 <= j < r@.len() ==> (#[trigger] r@[j]).view() == child(t, inner, stoks, from + j),
        decreases to - k,
    {
        let e = build_child(text, toks, k, lo, hi, Ghost(t), Ghost(inner), Ghost(stoks));
        r.push(e);
        k = k + 1;
    }
    r
}

/// The tree of the normalised text `text[lo..hi]`.
#[verifier::rlimit(30)]
fn build(text: &Vec<char>, lo: usize, hi: usize) -> (r: Expr)
    requires
        lo <= hi <= text@.len(),
    ensures
        r@ == parse_norm(text@.subrange(lo as int, hi as int)),
    decreases hi - lo, 3int,
{
    let ghost t = text@.subrange(lo as int, hi as int);
    if lo == hi {
        return Expr::Empty;
    }
    assert(t[0] == text@[lo as int]);
    if text[lo] != '(' {
        return leaf(text, lo, hi);
    }
    if hi - lo < 2 || text[hi - 1] != ')' {
        return Expr::Malformed(string_of(text, lo, hi));
    }
    let (a, b) = trim_range(text, lo + 1, hi - 1);
    proof {
        lemma_trim_shift(text@, lo as int, hi as int, 1, t.len() - 1);
    }
    let ghost inner = t.subrange(a - lo, b - lo);
    assert(inner =~= text@.subrange(a as int, b as int));
    let toks = split_range(text, a, b);
    let ghost stoks = split(inner);
    let n = toks.len();
    if n == 0 {
        return Expr::Malformed(string_of(text, lo, hi));
    }
    assert forall|k: int| 0 <= k < n implies child(t, inner, stoks, k) == parse_norm(
        text@.subrange(toks@[k].0 as int, toks@[k].1 as int),
    ) by {
        assert(inner.subrange(stoks[k].0, stoks[k].1) =~= text@.subrange(
            toks@[k].0 as int,
            toks@[k].1 as int,
        ));
    }
    let (k0a, k0b) = toks[0];
    assert(inner.subrange(stoks[0].0, stoks[0].1) =~= text@.subrange(k0a as int, k0b as int));
    let form = form_at(text, k0a, k0b);
    let src = string_of(text, lo, hi);
    build_form(text, lo, hi, &toks, form, src, Ghost(t), Ghost(inner), Ghost(stoks))
}

/// The tree of token `k` of the form `t == text[lo..hi]`.
fn build_child(
    text: &Vec<char>,
    toks: &Vec<(usize, usize)>,
    k: usize,
    lo: usize,
    hi: usize,
    Ghost(t): Ghost<Seq<char>>,
    Ghost(inner): Ghost<Seq<char>>,
    Ghost(stoks): Ghost<Seq<(int, int)>>,
) -> (r: Expr)
    requires
        k < toks@.len(),
        hi <= text@.len(),
        forall|m: int| 0 <= m < toks@.len() ==> lo < (#[trigger] toks@[m]).0 <= toks@[m].1 < hi,
        forall|m: int|
            0 <= m < toks@.len() ==> #[trigger] child(t, inner, stoks, m) == parse_norm(
                text@.subrange(toks@[m].0 as int, toks@[m].1 as int),
            ),
    ensures
        r@ == child(t, inner, stoks, k as int),
    decreases hi - lo, 0int,
{
    let (a, b) = toks[k];
    build(text, a, b)
}

/// The tree of the form `t == text[lo..hi]`, whose tokens `toks` select
/// the shape `form`.
fn build_form(
    text: &Vec<char>,
    lo: usize,
    hi: usize,
    toks: &Vec<(usize, usize)>,
    form: Form,
    src: String,
    Ghost(t): Ghost<Seq<char>>,
    Ghost(inner): Ghost<Seq<char>>,
    Ghost(stoks): Ghost<Seq<(int, int)>>,
) -> (r: Expr)
    requires
        hi <= text@.len(),
        src@ == t,
        toks@.len() == stoks.len(),
        toks@.len() >= 1,
        forall|k: int| 0 <= k < toks@.len() ==> lo < (#[trigger] toks@[k]).0 <= toks@[k].1 < hi,
        forall|k: int|
            0 <= k < toks@.len() ==> #[trigger] child(t, inner, stoks, k) == parse_norm(
                text@.subrange(toks@[k].0 as int, toks@[k].1 as int),
            ),
    ensures
        r@ == form_tree(t, inner, stoks, form),
    decreases hi - lo, 2int,
{
    let n = toks.len();
    match form {
        Form::Binary(op) => {
            if n >= 3 {
                let x = build_child(text, toks, 1, lo, hi, Ghost(t), Ghost(inner), Ghost(stoks));
                let y = build_child(text, toks, 2, lo, hi, Ghost(t), Ghost(inner), Ghost(stoks));
                Expr::Binary(op, Box::new(x), Box::new(y), src)
            } else {
                Expr::Malformed(src)
            }
        },
        Form::Not => {
            if n >= 2 {
                let x = build_child(text, toks, 1, lo, hi, Ghost(t), Ghost(inner), Ghost(stoks));
                Expr::Not(Box::new(x), src)
            } else {
                Expr::Malformed(src)
            }
        },
        Form::If => {
            if n >= 4 {
                let x = build_child(text, toks, 1, lo, hi, Ghost(t), Ghost(inner), Ghost(stoks));
                let y = build_child(text, toks, 2, lo, hi, Ghost(t), Ghost(inner), Ghost(stoks));
                let z = build_child(text, toks, 3, lo, hi, Ghost(t), Ghost(inner), Ghost(stoks));
                Expr::If(Box::new(x), Box::new(y), Box::new(z), src)
            } else {
                Expr::Malformed(src)
            }
        },
        Form::Let => {
            if n >= 3 {
                let x = build_child(text, toks, 1, lo, hi, Ghost(t), Ghost(inner), Ghost(stoks));
                let y = build_child(text, toks, 2, lo, hi, Ghost(t), Ghost(inner), Ghost(stoks));
                Expr::Let(Box::new(x), Box::new(y), src)
            } else {
                Expr::Malformed(src)
            }
        },
        Form::Assign => {
            if n >= 3 {
                let x = build_child(text, toks, 1, lo, hi, Ghost(t), Ghost(inner), Ghost(stoks));
                let y = build_child(text, toks, 2, lo, hi, Ghost(t), Ghost(inner), Ghost(stoks));
                Expr::Assign(Box::new(x), Box::new(y), src)
            } else {
                Expr::Malformed(src)
            }
        },
        Form::While => {
            if n >= 3 {
                let x = build_child(text, toks, 1, lo, hi, Ghost(t), Ghost(inner), Ghost(stoks));
                let y = build_child(text, toks, 2, lo, hi, Ghost(t), Ghost(inner), Ghost(stoks));
                Expr::While(Box::new(x), Box::new(y), src)
            } else {
                Expr::Malformed(src)
            }
        },
        Form::For => {
            if n >= 5 {
                let w = build_child(text, toks, 1, lo, hi, Ghost(t), Ghost(inner), Ghost(stoks));
                let x = build_child(text, toks, 2, lo, hi, Ghost(t), Ghost(inner), Ghost(stoks));
                let y = build_child(text, toks, 3, lo, hi, Ghost(t), Ghost(inner), Ghost(stoks));
                let z = build_child(text, toks, 4, lo, hi, Ghost(t), Ghost(inner), Ghost(stoks));
                Expr::For(Box::new(w), Box::new(x), Box::new(y), Box::new(z), src)
            } else {
                Expr::Malformed(src)
            }
        },
        Form::Define => {
            if n >= 3 {
                let x = build_child(text, toks, 1, lo, hi, Ghost(t), Ghost(inner), Ghost(stoks));
                let ps = build_list(text, toks, 2, n - 1, lo, hi, Ghost(t), Ghost(inner), Ghost(stoks));
                let y = build_child(text, toks, n - 1, lo, hi, Ghost(t), Ghost(inner), Ghost(stoks));
                Expr::Define(Box::new(x), ps, Box::new(y), src)
            } else {
                Expr::Malformed(src)
            }
        },
        Form::Call => {
            if n >= 2 {
                let x = build_child(text, toks, 1, lo, hi, Ghost(t), Ghost(inner), Ghost(stoks));
                let args = build_list(text, toks, 2, n, lo, hi, Ghost(t), Ghost(inner), Ghost(stoks));
                Expr::Call(Box::new(x), args, src)
            } else {
                Expr::Malformed(src)
            }
        },
        Form::Enum => {
            if n >= 2 {
                let x = build_child(text, toks, 1, lo, hi, Ghost(t), Ghost(inner), Ghost(stoks));
                let ms = build_list(text, toks, 2, n, lo, hi, Ghost(t), Ghost(inner), Ghost(stoks));
                Expr::Enum(Box::new(x), ms, src)
            } else {
                Expr::Malformed(src)
            }
        },
        Form::Print => {
            let xs = build_list(text, toks, 1, n, lo, hi, Ghost(t), Ghost(inner), Ghost(stoks));
            Expr::Print(xs)
        },
        Form::Input => Expr::Input,
        Form::Other => {
            let xs = build_list(text, toks, 0, n, lo, hi, Ghost(t), Ghost(inner), Ghost(stoks));
            Expr::Sequence(xs, src)
        },
    }
}

impl Expr {
    /// Parses source text into an expression tree. Text that is not a
    /// well-formed form yields `Malformed` nodes, which evaluation reports
    /// as parse errors.
    pub fn token_tree(s: &str) -> (r: Expr)
        ensures
            r@ == parse(s@),
    {
        let chars = chars_of(s);
        let text = normalize_chars(&chars);
        assert(text@.subrange(0, text@.len() as int) =~= text@);
        build(&text, 0, text.len())
    }
}

impl Expr {
    /// A deep copy of this expression.
    pub fn duplicate(&self) -> (r: Expr)
        ensures
            r@ == self@,
        decreases self,
    {
        match self {
            Expr::Number(n) => Expr::Number(*n),
            Expr::Bool(b) => Expr::Bool(*b),
            Expr::Var(s) => Expr::Var(s.clone()),
            Expr::Str(s) => Expr::Str(s.clone()),
            Expr::EnumElement(s) => Expr::EnumElement(s.clone()),
            Expr::Binary(op, a, b, s) => Expr::Binary(
                *op,
                Box::new(a.duplicate()),
                Box::new(b.duplicate()),
                s.clone(),
            ),
            Expr::Not(a, s) => Expr::Not(Box::new(a.duplicate()), s.clone()),
            Expr::If(a, b, c, s) => Expr::If(
                Box::new(a.duplicate()),
                Box::new(b.duplicate()),
                Box::new(c.duplicate()),
                s.clone(),
            ),
            Expr::Let(a, b, s) => Expr::Let(Box::new(a.duplicate()), Box::new(b.duplicate()), s.clone()),
            Expr::Assign(a, b, s) => Expr::Assign(
                Box::new(a.duplicate()),
                Box::new(b.duplicate()),
                s.clone(),
            ),
            Expr::Sequence(v, s) => Expr::Sequence(duplicate_list(v), s.clone()),
            Expr::For(a, b, c, d, s) => Expr::For(
                Box::new(a.duplicate()),
                Box::new(b.duplicate()),
                Box::new(c.duplicate()),
                Box::new(d.duplicate()),
                s.clone(),
            ),
            Expr::While(a, b, s) => Expr::While(Box::new(a.duplicate()), Box::new(b.duplicate()), s.clone()),
            Expr::Define(a, v, b, s) => Expr::Define(
                Box::new(a.duplicate()),
                duplicate_list(v),
                Box::new(b.duplicate()),
                s.clone(),
            ),
            Expr::Call(a, v, s) => Expr::Call(Box::new(a.duplicate()), duplicate_list(v), s.clone()),
            Expr::Print(v) => Expr::Print(duplicate_list(v)),
            Expr::Enum(a, v, s) => Expr::Enum(Box::new(a.duplicate()), duplicate_list(v), s.clone()),
            Expr::Input => Expr::Input,
            Expr::Empty => Expr::Empty,
            Expr::Malformed(s) => Expr::Malformed(s.clone()),
        }
    }
}

/// A deep copy of a list of expressions.
pub fn duplicate_list(v: &Vec<Expr>) -> (r: Vec<Expr>)
    ensures
        views(r@) == views(v@),
    decreases v,
{
    let mut r: Vec<Expr> = Vec::new();
    let mut i: usize = 0;
    while i < v.len()
        invariant
            i <= v@.len(),
            r@.len() == i,
            forall|j: int| 0 <= j < i ==> (#[trigger] r@[j]).view() == v@[j].view(),
        decreases v.len() - i,
    {
        assert(decreases_to!(v => v@[i as int]));
        let e = v[i].duplicate();
        r.push(e);
        i = i + 1;
    }
    assert(views(r@) =~= views(v@));
    r
}

} // verus!
