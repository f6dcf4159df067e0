//! Runtime values of the core language and the environments that bind them.
use vstd::prelude::*;

use crate::ast::Ident;
use crate::core_ast::{CoreExpr, SpecCoreExpr, view_core_expr};

verus! {

#[derive(Debug, PartialEq, Eq)]
pub enum Value {
    Int(i64),
    Bool(bool),
    Unit,
    Tuple(Vec<Value>),
    Closure { param: Ident, body: CoreExpr, env: Env },
}

/// A mapping from variable names to values.
///
/// The bindings are kept in the canonical order of names (`key_lt`), so
/// each name occurs at most once and two environments with the same
/// bindings are equal, whatever order the bindings were made in. Binding a
/// name that is already bound replaces its value in place.
#[derive(Debug, PartialEq, Eq)]
pub struct Env {
    pub(crate) entries: Vec<(String, Value)>,
}

// ------------------------------------------------------------
// Environments as sequences of bindings (generic over the value model)
// ------------------------------------------------------------

/// Index of the first binding of `k` in `env`, or -1 when `k` is unbound.
pub open spec fn env_find<V>(env: Seq<(Seq<char>, V)>, k: Seq<char>) -> int
    decreases env.len(),
{
    if env.len() == 0 {
        -1
    } else {
        let i = env_find(env.drop_last(), k);
        if i >= 0 {
            i
        } else if env.last().0 == k {
            env.len() - 1
        } else {
            -1
        }
    }
}

/// The value bound to `k`, if any.
pub open spec fn env_lookup<V>(env: Seq<(Seq<char>, V)>, k: Seq<char>) -> Option<V> {
    let i = env_find(env, k);
    if i >= 0 {
        Some(env[i].1)
    } else {
        None
    }
}

/// Names in their canonical order: by character code, a proper prefix first.
pub open spec fn key_lt(a: Seq<char>, b: Seq<char>) -> bool
    decreases a.len(),
{
    if a.len() == 0 {
        b.len() > 0
    } else if b.len() == 0 {
        false
    } else if a[0] == b[0] {
        key_lt(a.drop_first(), b.drop_first())
    } else {
        (a[0] as int) < (b[0] as int)
    }
}

/// Where a new binding of `k` goes: before the first binding whose name is
/// not below `k` (at the end if there is none).
pub open spec fn insert_pos<V>(env: Seq<(Seq<char>, V)>, k: Seq<char>) -> int
    decreases env.len(),
{
    if env.len() == 0 {
        0
    } else {
        let p = insert_pos(env.drop_last(), k);
        if p < env.len() - 1 {
            p
        } else if key_lt(env.last().0, k) {
            env.len() as int
        } else {
            env.len() - 1
        }
    }
}

/// `env` with `k` bound to `v`: an existing binding of `k` is replaced in
/// place; otherwise the binding is added where `insert_pos` says, which
/// keeps the names of an environment in canonical order.
pub open spec fn env_insert<V>(env: Seq<(Seq<char>, V)>, k: Seq<char>, v: V) -> Seq<(Seq<char>, V)> {
    let i = env_find(env, k);
    if i >= 0 {
        env.update(i, (k, v))
    } else {
        env.insert(insert_pos(env, k), (k, v))
    }
}

/// The names of `env` are in strictly increasing canonical order.
pub open spec fn env_sorted<V>(env: Seq<(Seq<char>, V)>) -> bool {
    forall|i: int, j: int| 0 <= i < j < env.len() ==> key_lt(#[trigger] env[i].0, #[trigger] env[j].0)
}

pub proof fn lemma_key_lt_irreflexive(a: Seq<char>)
    ensures
        !key_lt(a, a),
    decreases a.len(),
{
    if a.len() > 0 {
        lemma_key_lt_irreflexive(a.drop_first());
    }
}

pub proof fn lemma_key_lt_total(a: Seq<char>, b: Seq<char>)
    ensures
        a != b ==> key_lt(a, b) || key_lt(b, a),
        key_lt(a, b) ==> !key_lt(b, a),
    decreases a.len(),
{
    if a.len() > 0 && b.len() > 0 {
        lemma_key_lt_total(a.drop_first(), b.drop_first());
        if a[0] != b[0] {
            assert((a[0] as int) != (b[0] as int));
        }
        if a[0] == b[0] && a != b {
            assert(a.drop_first() != b.drop_first()) by {
                if a.drop_first() == b.drop_first() {
                    assert(a =~= seq![a[0]] + a.drop_first());
                    assert(b =~= seq![b[0]] + b.drop_first());
                }
            }
        }
    } else if a.len() == 0 && b.len() == 0 {
        assert(a =~= b);
    }
}

pub proof fn lemma_key_lt_transitive(a: Seq<char>, b: Seq<char>, c: Seq<char>)
    requires
        key_lt(a, b),
        key_lt(b, c),
    ensures
        key_lt(a, c),
    decreases a.len(),
{
    if a.len() > 0 && b.len() > 0 && c.len() > 0 && a[0] == b[0] && b[0] == c[0] {
        lemma_key_lt_transitive(a.drop_first(), b.drop_first(), c.drop_first());
    }
}

pub proof fn lemma_insert_pos<V>(env: Seq<(Seq<char>, V)>, k: Seq<char>)
    ensures
        0 <= insert_pos(env, k) <= env.len(),
        forall|j: int| 0 <= j < insert_pos(env, k) ==> key_lt(#[trigger] env[j].0, k),
        insert_pos(env, k) < env.len() ==> !key_lt(env[insert_pos(env, k)].0, k),
    decreases env.len(),
{
    if env.len() > 0 {
        let d = env.drop_last();
        lemma_insert_pos(d, k);
        assert forall|j: int| 0 <= j < d.len() implies d[j] == env[j] by {}
    }
}

/// `p` is the first index whose name is not below `k`.
pub open spec fn is_insert_pos<V>(env: Seq<(Seq<char>, V)>, k: Seq<char>, p: int) -> bool {
    &&& 0 <= p <= env.len()
    &&& forall|j: int| 0 <= j < p ==> key_lt(#[trigger] env[j].0, k)
    &&& p < env.len() ==> !key_lt(env[p].0, k)
}

pub proof fn lemma_insert_pos_is<V>(env: Seq<(Seq<char>, V)>, k: Seq<char>, p: int)
    requires
        is_insert_pos(env, k, p),
    ensures
        insert_pos(env, k) == p,
{
    lemma_insert_pos(env, k);
    let q = insert_pos(env, k);
    if q < p {
        assert(key_lt(env[q].0, k));
    } else if p < q {
        assert(key_lt(env[p].0, k));
    }
}

pub proof fn lemma_env_find<V>(env: Seq<(Seq<char>, V)>, k: Seq<char>)
    ensures
        -1 <= env_find(env, k) < env.len(),
        env_find(env, k) >= 0 ==> env[env_find(env, k)].0 == k,
        env_find(env, k) >= 0 ==> forall|j: int| 0 <= j < env_find(env, k) ==> env[j].0 != k,
        env_find(env, k) == -1 ==> forall|j: int| 0 <= j < env.len() ==> env[j].0 != k,
    decreases env.len(),
{
    if env.len() > 0 {
        let d = env.drop_last();
        lemma_env_find(d, k);
        assert forall|j: int| 0 <= j < d.len() implies d[j] == env[j] by {}
    }
}

/// `f` is where `k` is first bound in `env` (-1: nowhere).
pub open spec fn is_first_binding<V>(env: Seq<(Seq<char>, V)>, k: Seq<char>, f: int) -> bool {
    if f >= 0 {
        &&& f < env.len()
        &&& env[f].0 == k
        &&& forall|j: int| 0 <= j < f ==> env[j].0 != k
    } else {
        &&& f == -1
        &&& forall|j: int| 0 <= j < env.len() ==> env[j].0 != k
    }
}

pub proof fn lemma_env_find_is<V>(env: Seq<(Seq<char>, V)>, k: Seq<char>, f: int)
    requires
        is_first_binding(env, k, f),
    ensures
        env_find(env, k) == f,
{
    lemma_env_find(env, k);
    let g = env_find(env, k);
    if g >= 0 && f >= 0 {
        if g < f {
            assert(env[g].0 != k);
        } else if f < g {
            assert(env[f].0 != k);
        }
    } else if g >= 0 {
        assert(env[g].0 != k);
    } else if f >= 0 {
        assert(env[f].0 != k);
    }
}

/// What a lookup gives back after an insert: the inserted value for the
/// inserted name, and the earlier binding for every other name.
pub proof fn lemma_env_insert_lookup<V>(env: Seq<(Seq<char>, V)>, k: Seq<char>, v: V, k2: Seq<char>)
    ensures
        env_lookup(env_insert(env, k, v), k2) == if k2 == k { Some(v) } else { env_lookup(env, k2) },
{
    lemma_env_find(env, k);
    lemma_env_find(env, k2);
    let e2 = env_insert(env, k, v);
    let i = env_find(env, k);
    let j0 = env_find(env, k2);
    if i >= 0 {
        assert(e2 == env.update(i, (k, v)));
        if k2 == k {
            assert forall|j: int| 0 <= j < i implies e2[j].0 != k by {
                assert(e2[j] == env[j]);
            }
            lemma_env_find_is(e2, k2, i);
        } else {
            if j0 >= 0 {
                assert(j0 != i);
                assert forall|j: int| 0 <= j < j0 implies e2[j].0 != k2 by {
                    if j != i {
                        assert(e2[j] == env[j]);
                    }
                }
                assert(e2[j0] == env[j0]);
                lemma_env_find_is(e2, k2, j0);
            } else {
                assert forall|j: int| 0 <= j < e2.len() implies e2[j].0 != k2 by {
                    if j != i {
                        assert(e2[j] == env[j]);
                    }
                }
                lemma_env_find_is(e2, k2, -1);
            }
        }
    } else {
        let p = insert_pos(env, k);
        lemma_insert_pos(env, k);
        assert(e2 == env.insert(p, (k, v)));
        if k2 == k {
            assert forall|j: int| 0 <= j < p implies e2[j].0 != k by {
                assert(e2[j] == env[j]);
            }
            lemma_env_find_is(e2, k2, p);
        } else {
            if j0 >= 0 {
                let jn = if j0 < p { j0 } else { j0 + 1 };
                assert forall|j: int| 0 <= j < jn implies e2[j].0 != k2 by {
                    if j < p {
                        assert(e2[j] == env[j]);
                    } else if j > p {
                        assert(e2[j] == env[j - 1]);
                    }
                }
                assert(e2[jn] == env[j0]);
                lemma_env_find_is(e2, k2, jn);
            } else {
                assert forall|j: int| 0 <= j < e2.len() implies e2[j].0 != k2 by {
                    if j < p {
                        assert(e2[j] == env[j]);
                    } else if j > p {
                        assert(e2[j] == env[j - 1]);
                    }
                }
                lemma_env_find_is(e2, k2, -1);
            }
        }
    }
}

// ------------------------------------------------------------
// Mathematical model of values
// ------------------------------------------------------------

pub enum SpecValue {
    Int(i64),
    Bool(bool),
    Unit,
    Tuple(Seq<SpecValue>),
    Closure { param: Seq<char>, body: SpecCoreExpr, env: Seq<(Seq<char>, SpecValue)> },
}

pub type SpecEnv = Seq<(Seq<char>, SpecValue)>;

/// No name is bound twice in `env`.
pub open spec fn env_names_distinct<V>(env: Seq<(Seq<char>, V)>) -> bool {
    forall|i: int, j: int| 0 <= i < j < env.len() ==> #[trigger] env[i].0 != #[trigger] env[j].0
}

/// Names in canonical order are distinct.
pub proof fn lemma_sorted_distinct<V>(env: Seq<(Seq<char>, V)>)
    requires
        env_sorted(env),
    ensures
        env_names_distinct(env),
{
    assert forall|i: int, j: int| 0 <= i < j < env.len() implies #[trigger] env[i].0 != #[trigger] env[j].0 by {
        assert(key_lt(env[i].0, env[j].0));
        lemma_key_lt_irreflexive(env[i].0);
    }
}

/// Binding a name keeps the names of an environment in canonical order (so
/// no name is bound twice), and adds a binding exactly when the name was
/// unbound. An environment is therefore fixed by its bindings alone: the
/// order in which they were made does not show.
pub proof fn law_env_insert_keeps_order<V>(env: Seq<(Seq<char>, V)>, k: Seq<char>, v: V)
    requires
        env_sorted(env),
    ensures
        env_sorted(env_insert(env, k, v)),
        env_names_distinct(env_insert(env, k, v)),
        env_insert(env, k, v).len() == if env_lookup(env, k) is Some { env.len() } else { env.len() + 1 },
{
    lemma_env_find(env, k);
    let e2 = env_insert(env, k, v);
    let f = env_find(env, k);
    if f >= 0 {
        assert forall|i: int, j: int| 0 <= i < j < e2.len() implies key_lt(#[trigger] e2[i].0, #[trigger] e2[j].0) by {
            assert(e2[i].0 == env[i].0 && e2[j].0 == env[j].0);
        }
    } else {
        let p = insert_pos(env, k);
        lemma_insert_pos(env, k);
        if p < env.len() {
            lemma_key_lt_total(env[p].0, k);
            assert(env[p].0 != k);
        }
        assert forall|i: int, j: int| 0 <= i < j < e2.len() implies key_lt(#[trigger] e2[i].0, #[trigger] e2[j].0) by {
            if j < p {
                assert(e2[i] == env[i] && e2[j] == env[j]);
            } else if j == p {
                assert(e2[i] == env[i]);
            } else if i < p {
                assert(e2[i] == env[i] && e2[j] == env[j - 1]);
            } else if i == p {
                assert(e2[j] == env[j - 1]);
                if j - 1 > p {
                    assert(key_lt(env[p].0, env[j - 1].0));
                    lemma_key_lt_transitive(k, env[p].0, env[j - 1].0);
                }
            } else {
                assert(e2[i] == env[i - 1] && e2[j] == env[j - 1]);
            }
        }
    }
    lemma_sorted_distinct(e2);
}

pub open spec fn view_value(v: Value) -> SpecValue
    decreases v,
{
    match v {
        Value::Int(n) => SpecValue::Int(n),
        Value::Bool(b) => SpecValue::Bool(b),
        Value::Unit => SpecValue::Unit,
        Value::Tuple(vs) => SpecValue::Tuple(view_values(vs@)),
        Value::Closure { param, body, env } => SpecValue::Closure {
            param: param.0@,
            body: view_core_expr(body),
            env: view_env(env),
        },
    }
}

pub open spec fn view_values(vs: Seq<Value>) -> Seq<SpecValue>
    decreases vs,
{
    Seq::new(vs.len(), |i: int| if 0 <= i < vs.len() { view_value(vs[i]) } else { SpecValue::Unit })
}

pub closed spec fn view_env(env: Env) -> SpecEnv
    decreases env,
{
    view_entries(env.entries@)
}

pub open spec fn view_entries(es: Seq<(String, Value)>) -> SpecEnv
    decreases es,
{
    Seq::new(es.len(), |i: int| if 0 <= i < es.len() { (es[i].0@, view_value(es[i].1)) } else { (Seq::empty(), SpecValue::Unit) })
}

impl View for Value {
    type V = SpecValue;
    open spec fn view(&self) -> SpecValue { view_value(*self) }
}

impl View for Env {
    type V = SpecEnv;
    open spec fn view(&self) -> SpecEnv { view_env(*self) }
}

pub proof fn lemma_view_values_ext(a: Seq<Value>, b: Seq<Value>)
    requires
        a.len() == b.len(),
        forall|j: int| 0 <= j < a.len() ==> #[trigger] view_value(a[j]) == view_value(b[j]),
    ensures
        view_values(a) == view_values(b),
{
    assert forall|j: int| 0 <= j < a.len() implies #[trigger] view_values(a)[j] == view_values(b)[j] by {
        assert(view_value(a[j]) == view_value(b[j]));
    }
    assert(view_values(a) =~= view_values(b));
}

/// Whether `a` comes before `b` in the canonical order of names.
pub(crate) fn key_less(a: &String, b: &String) -> (r: bool)
    ensures
        r == key_lt(a@, b@),
{
    let ca = crate::lexer::chars_of(a.as_str());
    let cb = crate::lexer::chars_of(b.as_str());
    let mut i: usize = 0;
    assert(a@.skip(0) =~= a@ && b@.skip(0) =~= b@);
    while i < ca.len() && i < cb.len()
        invariant
            i <= ca@.len(),
            i <= cb@.len(),
            ca@ == a@,
            cb@ == b@,
            key_lt(a@, b@) == key_lt(a@.skip(i as int), b@.skip(i as int)),
        decreases ca@.len() - i,
    {
        let x = ca[i];
        let y = cb[i];
        assert(a@.skip(i as int)[0] == x && b@.skip(i as int)[0] == y);
        if x != y {
            return x < y;
        }
        assert(a@.skip(i as int).drop_first() =~= a@.skip(i + 1));
        assert(b@.skip(i as int).drop_first() =~= b@.skip(i + 1));
        i = i + 1;
    }
    ca.len() < cb.len()
}

/// Where a binding of `k` stands among `entries`: `Ok` with the index of its
/// first binding, or `Err` with the index where a new binding goes.
pub(crate) fn find_slot<V>(entries: &Vec<(String, V)>, k: &String) -> (r: Result<usize, usize>)
    ensures
        match r {
            Ok(i) => {
                &&& i < entries@.len()
                &&& entries@[i as int].0@ == k@
                &&& forall|j: int| 0 <= j < i ==> (#[trigger] entries@[j]).0@ != k@
            },
            Err(p) => {
                &&& p <= entries@.len()
                &&& forall|j: int| 0 <= j < entries@.len() ==> (#[trigger] entries@[j]).0@ != k@
                &&& forall|j: int| 0 <= j < p ==> key_lt((#[trigger] entries@[j]).0@, k@)
                &&& p < entries@.len() ==> !key_lt(entries@[p as int].0@, k@)
            },
        },
{
    let mut i: usize = 0;
    while i < entries.len()
        invariant
            i <= entries@.len(),
            forall|j: int| 0 <= j < i ==> (#[trigger] entries@[j]).0@ != k@,
        decreases entries@.len() - i,
    {
        if entries[i].0 == *k {
            return Ok(i);
        }
        i = i + 1;
    }
    let mut p: usize = 0;
    while p < entries.len()
        invariant
            p <= entries@.len(),
            forall|j: int| 0 <= j < entries@.len() ==> (#[trigger] entries@[j]).0@ != k@,
            forall|j: int| 0 <= j < p ==> key_lt((#[trigger] entries@[j]).0@, k@),
        decreases entries@.len() - p,
    {
        if !key_less(&entries[p].0, k) {
            return Err(p);
        }
        p = p + 1;
    }
    Err(p)
}

impl Env {
    /// Every environment keeps its names in canonical order.
    #[verifier::type_invariant]
    pub(crate) open spec fn names_in_order(self) -> bool {
        env_sorted(view_env(self))
    }

    /// An environment with no bindings.
    pub fn new() -> (r: Env)
        ensures
            r@ == Seq::<(Seq<char>, SpecValue)>::empty(),
            env_sorted(r@),
    {
        let entries: Vec<(String, Value)> = Vec::new();
        assert(view_entries(entries@) =~= Seq::<(Seq<char>, SpecValue)>::empty());
        let r = Env { entries };
        r
    }

    /// Binds `k` to `v`, replacing an earlier binding of `k`; a new name
    /// takes its place in the canonical order of names.
    pub fn insert(&mut self, k: String, v: Value)
        ensures
            final(self)@ == env_insert(old(self)@, k@, v@),
            env_lookup(final(self)@, k@) == Some(v@),
            env_sorted(final(self)@),
    {
        proof {
            use_type_invariant(&*self);
        }
        let mut entries: Vec<(String, Value)> = Vec::new();
        std::mem::swap(&mut entries, &mut self.entries);
        let ghost old_view = view_entries(entries@);
        proof {
            lemma_env_insert_lookup(old_view, k@, v@, k@);
            law_env_insert_keeps_order(old_view, k@, v@);
        }
        let ghost pre = entries@;
        assert forall|j: int| 0 <= j < pre.len() implies #[trigger] old_view[j].0 == pre[j].0@ by {}
        match find_slot(&entries, &k) {
            Ok(i) => {
                proof {
                    assert forall|j: int| 0 <= j < i implies old_view[j].0 != k@ by {
                        assert(pre[j].0@ != k@);
                    }
                    lemma_env_find_is(old_view, k@, i as int);
                }
                entries.set(i, (k, v));
                proof {
                    assert forall|j: int| 0 <= j < entries@.len() implies
                        #[trigger] view_entries(entries@)[j] == env_insert(old_view, k@, v@)[j] by {
                        if j != i {
                            assert(entries@[j] == pre[j]);
                        }
                    }
                    assert(view_entries(entries@) =~= env_insert(old_view, k@, v@));
                }
            },
            Err(p) => {
                proof {
                    assert forall|j: int| 0 <= j < old_view.len() implies old_view[j].0 != k@ by {
                        assert(pre[j].0@ != k@);
                    }
                    lemma_env_find_is(old_view, k@, -1);
                    assert forall|j: int| 0 <= j < p implies key_lt(#[trigger] old_view[j].0, k@) by {
                        assert(key_lt(pre[j].0@, k@));
                    }
                    lemma_insert_pos_is(old_view, k@, p as int);
                }
                entries.insert(p, (k, v));
                proof {
                    assert forall|j: int| 0 <= j < entries@.len() implies
                        #[trigger] view_entries(entries@)[j] == env_insert(old_view, k@, v@)[j] by {
                        if j < p {
                            assert(entries@[j] == pre[j]);
                        } else if j > p {
                            assert(entries@[j] == pre[j - 1]);
                        }
                    }
                    assert(view_entries(entries@) =~= env_insert(old_view, k@, v@));
                }
            },
        }
        proof {
            assert(env_sorted(view_entries(entries@)));
        }
        self.entries = entries;
    }

    /// The value bound to `k`, if any.
    pub fn get(&self, k: &String) -> (r: Option<&Value>)
        ensures
            match r {
                Some(v) => env_lookup(self@, k@) == Some(v@),
                None => env_lookup(self@, k@) is None,
            },
    {
        let mut i: usize = 0;
        while i < self.entries.len()
            invariant
                i <= self.entries@.len(),
                forall|j: int| 0 <= j < i ==> (#[trigger] self.entries@[j]).0@ != k@,
            decreases self.entries@.len() - i,
        {
            if self.entries[i].0 == *k {
                proof {
                    assert forall|j: int| 0 <= j < i implies self@[j].0 != k@ by {
                        assert(self.entries@[j].0@ != k@);
                    }
                    lemma_env_find_is(self@, k@, i as int);
                }
                return Some(&self.entries[i].1);
            }
            i = i + 1;
        }
        proof {
            assert forall|j: int| 0 <= j < self@.len() implies self@[j].0 != k@ by {
                assert(self.entries@[j].0@ != k@);
            }
            lemma_env_find_is(self@, k@, -1);
        }
        None
    }

    /// Number of bindings.
    pub fn len(&self) -> (r: usize)
        ensures
            r == self@.len(),
    {
        self.entries.len()
    }

    /// The `i`-th binding in the canonical order of names.
    pub fn entry(&self, i: usize) -> (r: (&String, &Value))
        requires
            i < self@.len(),
        ensures
            r.0@ == self@[i as int].0,
            r.1@ == self@[i as int].1,
    {
        let e = &self.entries[i];
        (&e.0, &e.1)
    }

    pub fn copy(&self) -> (r: Env)
        ensures
            r@ == self@,
    {
        copy_env(self)
    }
}

impl Value {
    pub fn copy(&self) -> (r: Value)
        ensures
            r@ == self@,
    {
        copy_value(self)
    }
}

impl Clone for Value {
    fn clone(&self) -> (r: Value)
        ensures
            r@ == self@,
    {
        self.copy()
    }
}

impl Clone for Env {
    fn clone(&self) -> (r: Env)
        ensures
            r@ == self@,
    {
        self.copy()
    }
}

fn copy_value(v: &Value) -> (r: Value)
    ensures
        view_value(r) == view_value(*v),
    decreases v,
{
    match v {
        Value::Int(n) => Value::Int(*n),
        Value::Bool(b) => Value::Bool(*b),
        Value::Unit => Value::Unit,
        Value::Tuple(vs) => {
            proof {
                assert(decreases_to!(*v => (*v)->Tuple_0));
            }
            Value::Tuple(copy_values(vs))
        },
        Value::Closure { param, body, env } => {
            proof {
                assert(decreases_to!(*v => (*v)->Closure_env));
            }
            Value::Closure { param: param.copy(), body: body.copy(), env: copy_env(env) }
        },
    }
}

pub(crate) fn copy_values(vs: &Vec<Value>) -> (r: Vec<Value>)
    ensures
        view_values(r@) == view_values(vs@),
    decreases vs,
{
    let mut out: Vec<Value> = Vec::new();
    let mut i: usize = 0;
    while i < vs.len()
        invariant
            i <= vs@.len(),
            out@.len() == i,
            forall|j: int| 0 <= j < i ==> #[trigger] view_value(out@[j]) == view_value(vs@[j]),
        decreases vs@.len() - i,
    {
        let elem = &vs[i];
        proof {
            assert(decreases_to!(*vs => vs@));
            assert(decreases_to!(vs@ => vs@[i as int]));
        }
        out.push(copy_value(elem));
        i = i + 1;
    }
    proof {
        lemma_view_values_ext(out@, vs@);
    }
    out
}

fn copy_env(env: &Env) -> (r: Env)
    ensures
        view_env(r) == view_env(*env),
    decreases env,
{
    let mut out: Vec<(String, Value)> = Vec::new();
    let mut i: usize = 0;
    proof {
        assert(decreases_to!(*env => (*env).entries));
    }
    while i < env.entries.len()
        invariant
            i <= env.entries@.len(),
            out@.len() == i,
            forall|j: int| 0 <= j < i ==> #[trigger] out@[j].0@ == env.entries@[j].0@,
            forall|j: int| 0 <= j < i ==> #[trigger] view_value(out@[j].1) == view_value(env.entries@[j].1),
            decreases_to!(*env => env.entries),
        decreases env.entries@.len() - i,
    {
        let entry = &env.entries[i];
        proof {
            assert(decreases_to!(env.entries => env.entries@));
            assert(decreases_to!(env.entries@ => env.entries@[i as int]));
            assert(decreases_to!(env.entries@[i as int] => env.entries@[i as int].1));
        }
        out.push((entry.0.clone(), copy_value(&entry.1)));
        i = i + 1;
    }
    proof {
        use_type_invariant(env);
        assert forall|j: int| 0 <= j < out@.len() implies #[trigger] view_entries(out@)[j] == view_entries(env.entries@)[j] by {
            assert(out@[j].0@ == env.entries@[j].0@);
            assert(view_value(out@[j].1) == view_value(env.entries@[j].1));
        }
        assert(view_entries(out@) =~= view_entries(env.entries@));
    }
    Env { entries: out }
}

} // verus!
