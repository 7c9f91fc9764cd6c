//! The evaluation environment: variable bindings, the function table, the
//! pending input lines and the printed output.
use vstd::prelude::*;

use crate::functions::{strings, FunSpec, Function};
use crate::values::{Val, Value};

verus! {

/// The model of an [`Env`].
pub struct State {
    pub vars: Seq<(Seq<char>, Val)>,
    pub funs: Seq<(Seq<char>, FunSpec)>,
    pub inputs: Seq<Seq<char>>,
    pub next: nat,
    pub out: Seq<char>,
}

/// The keys of an association list.
pub open spec fn keys<V>(l: Seq<(Seq<char>, V)>) -> Seq<Seq<char>> {
    l.map_values(|p: (Seq<char>, V)| p.0)
}

/// The first index at or after `i` that holds key `k`, or -1.
pub open spec fn find_from(ks: Seq<Seq<char>>, k: Seq<char>, i: int) -> int
    decreases ks.len() - i,
{
    if i < 0 || i >= ks.len() {
        -1
    } else if ks[i] == k {
        i
    } else {
        find_from(ks, k, i + 1)
    }
}

/// The index of the entry for `k`, or -1.
pub open spec fn find<V>(l: Seq<(Seq<char>, V)>, k: Seq<char>) -> int {
    find_from(keys(l), k, 0)
}

/// The value bound to `k`.
pub open spec fn lookup<V>(l: Seq<(Seq<char>, V)>, k: Seq<char>) -> Option<V> {
    if find(l, k) >= 0 {
        Some(l[find(l, k)].1)
    } else {
        None
    }
}

/// `l` with `k` bound to `v`: the existing entry is overwritten, or a new
/// one is added at the end.
pub open spec fn bind<V>(l: Seq<(Seq<char>, V)>, k: Seq<char>, v: V) -> Seq<(Seq<char>, V)> {
    if find(l, k) >= 0 {
        l.update(find(l, k), (k, v))
    } else {
        l.push((k, v))
    }
}

/// `l` without any entry for `k`.
pub open spec fn unbind<V>(l: Seq<(Seq<char>, V)>, k: Seq<char>) -> Seq<(Seq<char>, V)>
    decreases l.len(),
{
    if l.len() == 0 {
        l
    } else {
        let r = unbind(l.drop_last(), k);
        if l.last().0 == k {
            r
        } else {
            r.push(l.last())
        }
    }
}

/// `l` with the binding of `k` put back to `saved`.
pub open spec fn restore<V>(l: Seq<(Seq<char>, V)>, k: Seq<char>, saved: Option<V>) -> Seq<
    (Seq<char>, V),
> {
    match saved {
        Some(v) => bind(l, k, v),
        None => unbind(l, k),
    }
}

/// The search for `k` finds an entry that holds it, and no earlier one.
pub proof fn lemma_find_from(ks: Seq<Seq<char>>, k: Seq<char>, i: int)
    requires
        0 <= i,
    ensures
        find_from(ks, k, i) == -1 || (i <= find_from(ks, k, i) < ks.len() && ks[find_from(
            ks,
            k,
            i,
        )] == k),
        find_from(ks, k, i) == -1 ==> forall|j: int| i <= j < ks.len() ==> ks[j] != k,
    decreases ks.len() - i,
{
    if i < ks.len() && ks[i] != k {
        lemma_find_from(ks, k, i + 1);
    }
}

/// A binding found after binding `k` is the new one.
pub proof fn lemma_lookup_bind<V>(l: Seq<(Seq<char>, V)>, k: Seq<char>, v: V)
    ensures
        lookup(bind(l, k, v), k) == Some(v),
{
    lemma_find_from(keys(l), k, 0);
    let b = bind(l, k, v);
    if find(l, k) >= 0 {
        assert(keys(b) =~= keys(l));
    } else {
        lemma_find_from(keys(b), k, 0);
        assert(keys(b)[l.len() as int] == k);
        assert forall|j: int| 0 <= j < l.len() implies keys(b)[j] != k by {
            assert(keys(b)[j] == keys(l)[j]);
        }
    }
    lemma_find_from(keys(b), k, 0);
}

/// No entry for `k` is left after unbinding it.
pub proof fn lemma_unbind_absent<V>(l: Seq<(Seq<char>, V)>, k: Seq<char>)
    ensures
        forall|j: int| 0 <= j < unbind(l, k).len() ==> (#[trigger] unbind(l, k)[j]).0 != k,
    decreases l.len(),
{
    if l.len() > 0 {
        lemma_unbind_absent(l.drop_last(), k);
        let r = unbind(l.drop_last(), k);
        if l.last().0 != k {
            assert forall|j: int| 0 <= j < r.push(l.last()).len() implies (#[trigger] r.push(
                l.last(),
            )[j]).0 != k by {
                if j < r.len() {
                    assert(r.push(l.last())[j] == r[j]);
                }
            }
        }
    }
}

/// Restoring a key to what `lookup` gave puts its lookup back.
pub proof fn lemma_lookup_restore<V>(l: Seq<(Seq<char>, V)>, k: Seq<char>, saved: Option<V>)
    ensures
        lookup(restore(l, k, saved), k) == saved,
{
    match saved {
        Some(v) => lemma_lookup_bind(l, k, v),
        None => {
            let u = unbind(l, k);
            lemma_unbind_absent(l, k);
            lemma_find_from(keys(u), k, 0);
            if find(u, k) >= 0 {
                assert(keys(u)[find(u, k)] == u[find(u, k)].0);
            }
        },
    }
}

/// A key other than `k` is found where it was before `(k, v)` was added.
proof fn lemma_find_push(ks: Seq<Seq<char>>, x: Seq<char>, k: Seq<char>, i: int)
    requires
        x != k,
        0 <= i <= ks.len(),
    ensures
        find_from(ks.push(x), k, i) == find_from(ks, k, i),
    decreases ks.len() - i,
{
    if i < ks.len() {
        assert(ks.push(x)[i] == ks[i]);
        lemma_find_push(ks, x, k, i + 1);
    } else {
        assert(ks.push(x)[i] == x);
        assert(find_from(ks.push(x), k, i + 1) == -1);
    }
}

/// What `lookup` sees after one more entry is added at the end.
proof fn lemma_lookup_push<V>(l: Seq<(Seq<char>, V)>, x: (Seq<char>, V), k: Seq<char>)
    ensures
        lookup(l.push(x), k) == (if lookup(l, k) is Some {
            lookup(l, k)
        } else if x.0 == k {
            Some(x.1)
        } else {
            None
        }),
{
    assert(keys(l.push(x)) =~= keys(l).push(x.0));
    lemma_find_from(keys(l), k, 0);
    lemma_find_from(keys(l.push(x)), k, 0);
    if x.0 != k {
        lemma_find_push(keys(l), x.0, k, 0);
    } else if find(l, k) >= 0 {
        let i = find(l, k);
        assert(keys(l.push(x))[i] == k);
        assert(find(l.push(x), k) == i) by {
            lemma_find_prefix(keys(l), x.0, k, 0);
        }
    } else {
        assert(keys(l.push(x))[l.len() as int] == k);
        assert forall|j: int| 0 <= j < l.len() implies keys(l.push(x))[j] != k by {
            assert(keys(l.push(x))[j] == keys(l)[j]);
        }
    }
}

/// A key found in `ks` is found at the same place after anything is added.
proof fn lemma_find_prefix(ks: Seq<Seq<char>>, x: Seq<char>, k: Seq<char>, i: int)
    requires
        0 <= i,
        find_from(ks, k, i) >= 0,
    ensures
        find_from(ks.push(x), k, i) == find_from(ks, k, i),
    decreases ks.len() - i,
{
    if i < ks.len() {
        assert(ks.push(x)[i] == ks[i]);
        if ks[i] != k {
            lemma_find_prefix(ks, x, k, i + 1);
        }
    }
}

/// Binding one key leaves the lookup of every other key as it was.
pub proof fn lemma_lookup_bind_other<V>(l: Seq<(Seq<char>, V)>, k: Seq<char>, v: V, k2: Seq<char>)
    requires
        k != k2,
    ensures
        lookup(bind(l, k, v), k2) == lookup(l, k2),
{
    lemma_find_from(keys(l), k, 0);
    if find(l, k) >= 0 {
        let i = find(l, k);
        assert(keys(bind(l, k, v)) =~= keys(l));
        lemma_find_from(keys(l), k2, 0);
    } else {
        lemma_lookup_push(l, (k, v), k2);
    }
}

/// Unbinding one key leaves the lookup of every other key as it was.
pub proof fn lemma_lookup_unbind_other<V>(l: Seq<(Seq<char>, V)>, k: Seq<char>, k2: Seq<char>)
    requires
        k != k2,
    ensures
        lookup(unbind(l, k), k2) == lookup(l, k2),
    decreases l.len(),
{
    if l.len() > 0 {
        let d = l.drop_last();
        lemma_lookup_unbind_other(d, k, k2);
        assert(d.push(l.last()) =~= l);
        lemma_lookup_push(d, l.last(), k2);
        if l.last().0 != k {
            lemma_lookup_push(unbind(d, k), l.last(), k2);
        }
    }
}

/// Restoring one key leaves the lookup of every other key as it was.
pub proof fn lemma_lookup_restore_other<V>(
    l: Seq<(Seq<char>, V)>,
    k: Seq<char>,
    saved: Option<V>,
    k2: Seq<char>,
)
    requires
        k != k2,
    ensures
        lookup(restore(l, k, saved), k2) == lookup(l, k2),
{
    match saved {
        Some(v) => lemma_lookup_bind_other(l, k, v, k2),
        None => lemma_lookup_unbind_other(l, k, k2),
    }
}

/// The models of variable bindings.
pub open spec fn var_pairs(v: Seq<(String, Value)>) -> Seq<(Seq<char>, Val)> {
    v.map_values(|p: (String, Value)| (p.0@, p.1@))
}

/// The models of function table entries.
pub open spec fn fun_pairs(v: Seq<(String, Function)>) -> Seq<(Seq<char>, FunSpec)> {
    v.map_values(|p: (String, Function)| (p.0@, p.1@))
}

/// The keys of a list of entries, as character sequences.
pub open spec fn entry_keys<V>(v: Seq<(String, V)>) -> Seq<Seq<char>> {
    v.map_values(|p: (String, V)| p.0@)
}

/// The model of an optional value.
pub open spec fn opt_val(o: Option<Value>) -> Option<Val> {
    match o {
        Some(v) => Some(v@),
        None => None,
    }
}

/// The state in which a program starts: nothing bound, nothing printed,
/// and the given input lines waiting.
pub open spec fn initial(inputs: Seq<Seq<char>>) -> State {
    State { vars: Seq::empty(), funs: Seq::empty(), inputs, next: 0, out: Seq::empty() }
}

/// An environment in which expressions are evaluated.
pub struct Env {
    pub vars: Vec<(String, Value)>,
    pub functions: Vec<(String, Function)>,
    pub inputs: Vec<String>,
    pub next_input: usize,
    pub output: String,
}

impl View for Env {
    type V = State;

    open spec fn view(&self) -> State {
        State {
            vars: var_pairs(self.vars@),
            funs: fun_pairs(self.functions@),
            inputs: strings(self.inputs@),
            next: self.next_input as nat,
            out: self.output@,
        }
    }
}

/// The index of the first entry whose key is `k`.
pub fn find_key<V>(l: &Vec<(String, V)>, k: &String) -> (r: Option<usize>)
    ensures
        match r {
            Some(i) => i as int == find_from(entry_keys(l@), k@, 0) && i < l@.len(),
            None => find_from(entry_keys(l@), k@, 0) == -1,
        },
{
    let mut i: usize = 0;
    while i < l.len()
        invariant
            i <= l@.len(),
            find_from(entry_keys(l@), k@, i as int) == find_from(entry_keys(l@), k@, 0),
        decreases l.len() - i,
    {
        assert(entry_keys(l@)[i as int] == l@[i as int].0@);
        if l[i].0 == *k {
            return Some(i);
        }
        i = i + 1;
    }
    None
}

proof fn lemma_var_keys(v: Seq<(String, Value)>)
    ensures
        keys(var_pairs(v)) == entry_keys(v),
{
    assert(keys(var_pairs(v)) =~= entry_keys(v));
}

proof fn lemma_fun_keys(v: Seq<(String, Function)>)
    ensures
        keys(fun_pairs(v)) == entry_keys(v),
{
    assert(keys(fun_pairs(v)) =~= entry_keys(v));
}

impl Env {
    /// A fresh environment that reads `inputs` in order.
    pub fn new(inputs: Vec<String>) -> (r: Env)
        ensures
            r@ == initial(strings(inputs@)),
    {
        let r = Env {
            vars: Vec::new(),
            functions: Vec::new(),
            inputs,
            next_input: 0,
            output: String::new(),
        };
        assert(var_pairs(r.vars@) =~= Seq::empty());
        assert(fun_pairs(r.functions@) =~= Seq::empty());
        r
    }

    /// The value bound to `k`.
    pub fn lookup_var(&self, k: &String) -> (r: Option<Value>)
        ensures
            opt_val(r) == lookup(self@.vars, k@),
    {
        proof {
            lemma_var_keys(self.vars@);
        }
        match find_key(&self.vars, k) {
            Some(i) => Some(self.vars[i].1.clone()),
            None => None,
        }
    }

    /// Binds `k` to `v`.
    pub fn bind_var(&mut self, k: String, v: Value)
        ensures
            final(self)@ == (State { vars: bind(old(self)@.vars, k@, v@), ..old(self)@ }),
    {
        proof {
            lemma_var_keys(self.vars@);
        }
        let ghost kv = k@;
        let ghost vv = v@;
        match find_key(&self.vars, &k) {
            Some(i) => {
                self.vars.remove(i);
                self.vars.insert(i, (k, v));
                assert(var_pairs(self.vars@) =~= var_pairs(old(self).vars@).update(
                    i as int,
                    (kv, vv),
                ));
            },
            None => {
                self.vars.push((k, v));
                assert(var_pairs(self.vars@) =~= var_pairs(old(self).vars@).push((kv, vv)));
            },
        }
    }

    /// Removes every binding of `k`.
    pub fn unbind_var(&mut self, k: &String)
        ensures
            final(self)@ == (State { vars: unbind(old(self)@.vars, k@), ..old(self)@ }),
    {
        let ghost l = var_pairs(self.vars@);
        let mut kept: Vec<(String, Value)> = Vec::new();
        let mut i: usize = 0;
        while i < self.vars.len()
            invariant
                i <= self.vars@.len(),
                l == var_pairs(self.vars@),
                var_pairs(kept@) == unbind(l.take(i as int), k@),
            decreases self.vars.len() - i,
        {
            assert(l.take(i as int + 1).drop_last() =~= l.take(i as int));
            if self.vars[i].0 != *k {
                let name = self.vars[i].0.clone();
                let value = self.vars[i].1.clone();
                let ghost before = var_pairs(kept@);
                kept.push((name, value));
                assert(var_pairs(kept@) =~= before.push(l[i as int]));
            }
            i = i + 1;
        }
        assert(l.take(i as int) =~= l);
        self.vars = kept;
    }

    /// Puts the binding of `k` back to `saved`.
    pub fn restore_var(&mut self, k: String, saved: Option<Value>)
        ensures
            final(self)@ == (State { vars: restore(old(self)@.vars, k@, opt_val(saved)), ..old(self)@ }),
    {
        match saved {
            Some(v) => self.bind_var(k, v),
            None => self.unbind_var(&k),
        }
    }

    /// The index of the function named `k`.
    pub fn find_function(&self, k: &String) -> (r: Option<usize>)
        ensures
            match r {
                Some(i) => i < self.functions@.len() && i == find(self@.funs, k@),
                None => find(self@.funs, k@) == -1,
            },
    {
        proof {
            lemma_fun_keys(self.functions@);
        }
        find_key(&self.functions, k)
    }

    /// Registers `f` under `k`, replacing an earlier function of that name.
    pub fn define_function(&mut self, k: String, f: Function)
        ensures
            final(self)@ == (State { funs: bind(old(self)@.funs, k@, f@), ..old(self)@ }),
    {
        proof {
            lemma_fun_keys(self.functions@);
        }
        let ghost kv = k@;
        let ghost fv = f@;
        match find_key(&self.functions, &k) {
            Some(i) => {
                self.functions.remove(i);
                self.functions.insert(i, (k, f));
                assert(fun_pairs(self.functions@) =~= fun_pairs(old(self).functions@).update(
                    i as int,
                    (kv, fv),
                ));
            },
            None => {
                self.functions.push((k, f));
                assert(fun_pairs(self.functions@) =~= fun_pairs(old(self).functions@).push(
                    (kv, fv),
                ));
            },
        }
    }
}

} // verus!
