//! Direct evaluator for the surface language, the reference against which
//! desugaring is checked.
use vstd::prelude::*;

use crate::ast::{
    Atom, AtomBase, Block, Expr, Ident, Lit, SpecType, SpecAtom, SpecAtomBase, SpecBlock, SpecExpr, SpecStmt, Stmt,
    view_atom, view_block, view_expr, view_exprs, view_stmts,
};
use crate::eval::lit_value;
use crate::value::{
    Env, SpecEnv, SpecValue, Value, env_find, env_insert, env_lookup, lemma_env_find, lemma_env_find_is,
    lemma_env_insert_lookup, lemma_view_values_ext, view_values, env_sorted, key_lt,
    lemma_insert_pos_is, law_env_insert_keeps_order, find_slot,
};

verus! {

/// The nesting depth that the surface evaluator allows: the largest `u64`,
/// so that in practice only the machine's stack limits the nesting.
pub const SURFACE_DEPTH_LIMIT: u64 = 18_446_744_073_709_551_615;

#[derive(Debug, Clone, PartialEq, Eq)]
pub enum SurfaceEvalError {
    UnboundVariable(String),
    NotAFunction,
    InvalidProjection,
    NonBoolCondition,
    /// A closure where a ground value (no closures inside) was needed.
    NonGroundResult,
    DepthLimitExceeded,
}

#[derive(Debug, PartialEq, Eq)]
pub enum SValue {
    Int(i64),
    Bool(bool),
    Unit,
    Tuple(Vec<SValue>),
    Closure { param: Ident, body: Expr, env: SEnv },
}

/// A mapping from variable names to surface values (same discipline as `Env`).
#[derive(Debug, PartialEq, Eq)]
pub struct SEnv {
    pub(crate) entries: Vec<(String, SValue)>,
}

// ------------------------------------------------------------
// Mathematical model
// ------------------------------------------------------------

pub enum SpecSurfaceEvalError {
    UnboundVariable(Seq<char>),
    NotAFunction,
    InvalidProjection,
    NonBoolCondition,
    NonGroundResult,
    DepthLimitExceeded,
}

pub enum SpecSValue {
    Int(i64),
    Bool(bool),
    Unit,
    Tuple(Seq<SpecSValue>),
    Closure { param: Seq<char>, body: SpecExpr, env: Seq<(Seq<char>, SpecSValue)> },
}

pub type SpecSEnv = Seq<(Seq<char>, SpecSValue)>;

pub open spec fn view_svalue(v: SValue) -> SpecSValue
    decreases v,
{
    match v {
        SValue::Int(n) => SpecSValue::Int(n),
        SValue::Bool(b) => SpecSValue::Bool(b),
        SValue::Unit => SpecSValue::Unit,
        SValue::Tuple(vs) => SpecSValue::Tuple(view_svalues(vs@)),
        SValue::Closure { param, body, env } => SpecSValue::Closure {
            param: param.0@,
            body: view_expr(body),
            env: view_senv(env),
        },
    }
}

pub open spec fn view_svalues(vs: Seq<SValue>) -> Seq<SpecSValue>
    decreases vs,
{
    Seq::new(vs.len(), |i: int| if 0 <= i < vs.len() { view_svalue(vs[i]) } else { SpecSValue::Unit })
}

pub closed spec fn view_senv(env: SEnv) -> SpecSEnv
    decreases env,
{
    view_sentries(env.entries@)
}

pub open spec fn view_sentries(es: Seq<(String, SValue)>) -> SpecSEnv
    decreases es,
{
    Seq::new(es.len(), |i: int| if 0 <= i < es.len() { (es[i].0@, view_svalue(es[i].1)) } else { (Seq::empty(), SpecSValue::Unit) })
}

impl View for SValue {
    type V = SpecSValue;
    open spec fn view(&self) -> SpecSValue { view_svalue(*self) }
}

impl View for SEnv {
    type V = SpecSEnv;
    open spec fn view(&self) -> SpecSEnv { view_senv(*self) }
}

pub open spec fn view_surface_error(e: SurfaceEvalError) -> SpecSurfaceEvalError {
    match e {
        SurfaceEvalError::UnboundVariable(s) => SpecSurfaceEvalError::UnboundVariable(s@),
        SurfaceEvalError::NotAFunction => SpecSurfaceEvalError::NotAFunction,
        SurfaceEvalError::InvalidProjection => SpecSurfaceEvalError::InvalidProjection,
        SurfaceEvalError::NonBoolCondition => SpecSurfaceEvalError::NonBoolCondition,
        SurfaceEvalError::NonGroundResult => SpecSurfaceEvalError::NonGroundResult,
        SurfaceEvalError::DepthLimitExceeded => SpecSurfaceEvalError::DepthLimitExceeded,
    }
}

impl View for SurfaceEvalError {
    type V = SpecSurfaceEvalError;
    open spec fn view(&self) -> SpecSurfaceEvalError { view_surface_error(*self) }
}

pub open spec fn view_seval_result(r: Result<SValue, SurfaceEvalError>) -> Result<SpecSValue, SpecSurfaceEvalError> {
    match r {
        Ok(v) => Ok(v@),
        Err(e) => Err(e@),
    }
}

pub open spec fn view_slist_result(r: Result<Vec<SValue>, SurfaceEvalError>) -> Result<Seq<SpecSValue>, SpecSurfaceEvalError> {
    match r {
        Ok(vs) => Ok(view_svalues(vs@)),
        Err(e) => Err(e@),
    }
}

pub proof fn lemma_view_svalues_ext(a: Seq<SValue>, b: Seq<SValue>)
    requires
        a.len() == b.len(),
        forall|j: int| 0 <= j < a.len() ==> #[trigger] view_svalue(a[j]) == view_svalue(b[j]),
    ensures
        view_svalues(a) == view_svalues(b),
{
    assert forall|j: int| 0 <= j < a.len() implies #[trigger] view_svalues(a)[j] == view_svalues(b)[j] by {
        assert(view_svalue(a[j]) == view_svalue(b[j]));
    }
    assert(view_svalues(a) =~= view_svalues(b));
}

impl SEnv {
    /// Every environment keeps its names in canonical order.
    #[verifier::type_invariant]
    spec fn names_in_order(self) -> bool {
        env_sorted(view_sentries(self.entries@))
    }

    /// An environment with no bindings.
    pub fn new() -> (r: SEnv)
        ensures
            r@ == Seq::<(Seq<char>, SpecSValue)>::empty(),
            env_sorted(r@),
    {
        let entries: Vec<(String, SValue)> = Vec::new();
        assert(view_sentries(entries@) =~= Seq::<(Seq<char>, SpecSValue)>::empty());
        SEnv { entries }
    }

    /// Binds `k` to `v`, replacing an earlier binding of `k`; a new name
    /// takes its place in the canonical order of names.
    pub fn insert(&mut self, k: String, v: SValue)
        ensures
            final(self)@ == env_insert(old(self)@, k@, v@),
            env_lookup(final(self)@, k@) == Some(v@),
            env_sorted(final(self)@),
    {
        proof {
            use_type_invariant(&*self);
        }
        let mut entries: Vec<(String, SValue)> = Vec::new();
        std::mem::swap(&mut entries, &mut self.entries);
        let ghost old_view = view_sentries(entries@);
        proof {
            lemma_env_insert_lookup(old_view, k@, v@, k@);
            law_env_insert_keeps_order(old_view, k@, v@);
        }
        let ghost pre = entries@;
        assert forall|j: int| 0 <= j < pre.len() implies #[trigger] old_view[j].0 == pre[j].0@ by {}
        match find_slot(&entries, &k) {
            Ok(i) => {
                proof {
                    assert forall|j: int| 0 <= j < i implies old_view[j].0 != k@ by {
                        assert(pre[j].0@ != k@);
                    }
                    lemma_env_find_is(old_view, k@, i as int);
                }
                entries.set(i, (k, v));
                proof {
                    assert forall|j: int| 0 <= j < entries@.len() implies
                        #[trigger] view_sentries(entries@)[j] == env_insert(old_view, k@, v@)[j] by {
                        if j != i {
                            assert(entries@[j] == pre[j]);
                        }
                    }
                    assert(view_sentries(entries@) =~= env_insert(old_view, k@, v@));
                }
            },
            Err(p) => {
                proof {
                    assert forall|j: int| 0 <= j < old_view.len() implies old_view[j].0 != k@ by {
                        assert(pre[j].0@ != k@);
                    }
                    lemma_env_find_is(old_view, k@, -1);
                    assert forall|j: int| 0 <= j < p implies key_lt(#[trigger] old_view[j].0, k@) by {
                        assert(key_lt(pre[j].0@, k@));
                    }
                    lemma_insert_pos_is(old_view, k@, p as int);
                }
                entries.insert(p, (k, v));
                proof {
                    assert forall|j: int| 0 <= j < entries@.len() implies
                        #[trigger] view_sentries(entries@)[j] == env_insert(old_view, k@, v@)[j] by {
                        if j < p {
                            assert(entries@[j] == pre[j]);
                        } else if j > p {
                            assert(entries@[j] == pre[j - 1]);
                        }
                    }
                    assert(view_sentries(entries@) =~= env_insert(old_view, k@, v@));
                }
            },
        }
        proof {
            assert(env_sorted(view_sentries(entries@)));
        }
        self.entries = entries;
    }

    /// The value bound to `k`, if any.
    pub fn get(&self, k: &String) -> (r: Option<&SValue>)
        ensures
            match r {
                Some(v) => env_lookup(self@, k@) == Some(v@),
                None => env_lookup(self@, k@) is None,
            },
    {
        let mut i: usize = 0;
        while i < self.entries.len()
            invariant
                i <= self.entries@.len(),
                forall|j: int| 0 <= j < i ==> (#[trigger] self.entries@[j]).0@ != k@,
            decreases self.entries@.len() - i,
        {
            if self.entries[i].0 == *k {
                proof {
                    assert forall|j: int| 0 <= j < i implies self@[j].0 != k@ by {
                        assert(self.entries@[j].0@ != k@);
                    }
                    lemma_env_find_is(self@, k@, i as int);
                }
                return Some(&self.entries[i].1);
            }
            i = i + 1;
        }
        proof {
            assert forall|j: int| 0 <= j < self@.len() implies self@[j].0 != k@ by {
                assert(self.entries@[j].0@ != k@);
            }
            lemma_env_find_is(self@, k@, -1);
        }
        None
    }

    /// Number of bindings.
    pub fn len(&self) -> (r: usize)
        ensures
            r == self@.len(),
    {
        self.entries.len()
    }

    /// The `i`-th binding in the canonical order of names.
    pub fn entry(&self, i: usize) -> (r: (&String, &SValue))
        requires
            i < self@.len(),
        ensures
            r.0@ == self@[i as int].0,
            r.1@ == self@[i as int].1,
    {
        let e = &self.entries[i];
        (&e.0, &e.1)
    }

    pub fn copy(&self) -> (r: SEnv)
        ensures
            r@ == self@,
    {
        copy_senv(self)
    }
}

impl SValue {
    pub fn copy(&self) -> (r: SValue)
        ensures
            r@ == self@,
    {
        copy_svalue(self)
    }
}

impl Clone for SValue {
    fn clone(&self) -> (r: SValue)
        ensures
            r@ == self@,
    {
        self.copy()
    }
}

impl Clone for SEnv {
    fn clone(&self) -> (r: SEnv)
        ensures
            r@ == self@,
    {
        self.copy()
    }
}

fn copy_svalue(v: &SValue) -> (r: SValue)
    ensures
        view_svalue(r) == view_svalue(*v),
    decreases v,
{
    match v {
        SValue::Int(n) => SValue::Int(*n),
        SValue::Bool(b) => SValue::Bool(*b),
        SValue::Unit => SValue::Unit,
        SValue::Tuple(vs) => {
            proof {
                assert(decreases_to!(*v => (*v)->Tuple_0));
            }
            SValue::Tuple(copy_svalues(vs))
        },
        SValue::Closure { param, body, env } => {
            proof {
                assert(decreases_to!(*v => (*v)->Closure_env));
            }
            SValue::Closure { param: param.copy(), body: body.copy(), env: copy_senv(env) }
        },
    }
}

fn copy_svalues(vs: &Vec<SValue>) -> (r: Vec<SValue>)
    ensures
        view_svalues(r@) == view_svalues(vs@),
    decreases vs,
{
    let mut out: Vec<SValue> = Vec::new();
    let mut i: usize = 0;
    while i < vs.len()
        invariant
            i <= vs@.len(),
            out@.len() == i,
            forall|j: int| 0 <= j < i ==> #[trigger] view_svalue(out@[j]) == view_svalue(vs@[j]),
        decreases vs@.len() - i,
    {
        let elem = &vs[i];
        proof {
            assert(decreases_to!(*vs => vs@));
            assert(decreases_to!(vs@ => vs@[i as int]));
        }
        out.push(copy_svalue(elem));
        i = i + 1;
    }
    proof {
        lemma_view_svalues_ext(out@, vs@);
    }
    out
}

fn copy_senv(env: &SEnv) -> (r: SEnv)
    ensures
        view_senv(r) == view_senv(*env),
    decreases env,
{
    let mut out: Vec<(String, SValue)> = Vec::new();
    let mut i: usize = 0;
    proof {
        assert(decreases_to!(*env => (*env).entries));
    }
    while i < env.entries.len()
        invariant
            i <= env.entries@.len(),
            out@.len() == i,
            forall|j: int| 0 <= j < i ==> #[trigger] out@[j].0@ == env.entries@[j].0@,
            forall|j: int| 0 <= j < i ==> #[trigger] view_svalue(out@[j].1) == view_svalue(env.entries@[j].1),
            decreases_to!(*env => env.entries),
        decreases env.entries@.len() - i,
    {
        let entry = &env.entries[i];
        proof {
            assert(decreases_to!(env.entries => env.entries@));
            assert(decreases_to!(env.entries@ => env.entries@[i as int]));
            assert(decreases_to!(env.entries@[i as int] => env.entries@[i as int].1));
        }
        let ghost pre = out@;
        let k = entry.0.clone();
        let v = copy_svalue(&entry.1);
        out.push((k, v));
        proof {
            assert forall|j: int| 0 <= j < i + 1 implies #[trigger] out@[j].0@ == env.entries@[j].0@ by {
                if j < i {
                    assert(out@[j] == pre[j]);
                    assert(pre[j].0@ == env.entries@[j].0@);
                }
            }
            assert forall|j: int| 0 <= j < i + 1 implies #[trigger] view_svalue(out@[j].1) == view_svalue(env.entries@[j].1) by {
                if j < i {
                    assert(out@[j] == pre[j]);
                    assert(view_svalue(pre[j].1) == view_svalue(env.entries@[j].1));
                }
            }
        }
        i = i + 1;
    }
    proof {
        use_type_invariant(env);
        assert forall|j: int| 0 <= j < out@.len() implies #[trigger] view_sentries(out@)[j] == view_sentries(env.entries@)[j] by {
            assert(out@[j].0@ == env.entries@[j].0@);
            assert(view_svalue(out@[j].1) == view_svalue(env.entries@[j].1));
        }
        assert(view_sentries(out@) =~= view_sentries(env.entries@));
    }
    SEnv { entries: out }
}

// ------------------------------------------------------------
// Semantics
// ------------------------------------------------------------

pub open spec fn ran_out_s<T>(r: Result<T, SpecSurfaceEvalError>) -> bool {
    r matches Err(SpecSurfaceEvalError::DepthLimitExceeded)
}

pub open spec fn lit_svalue(l: Lit) -> SpecSValue {
    match l {
        Lit::Int(n) => SpecSValue::Int(n),
        Lit::Bool(b) => SpecSValue::Bool(b),
        Lit::Unit => SpecSValue::Unit,
    }
}

/// The value of the surface expression `e` in `env`, with at most `depth` nested levels.
pub open spec fn spec_seval(depth: nat, e: SpecExpr, env: SpecSEnv) -> Result<SpecSValue, SpecSurfaceEvalError>
    decreases depth, 0nat,
{
    if depth == 0 {
        Err(SpecSurfaceEvalError::DepthLimitExceeded)
    } else {
        let d = (depth - 1) as nat;
        match e {
            SpecExpr::LetIn { name, ty, value, body } => match spec_seval(d, *value, env) {
                Err(x) => Err(x),
                Ok(v) => spec_seval(d, *body, env_insert(env, name, v)),
            },
            SpecExpr::If { cond, then_br, else_br } => match spec_seval(d, *cond, env) {
                Err(x) => Err(x),
                Ok(SpecSValue::Bool(true)) => spec_seval(d, *then_br, env),
                Ok(SpecSValue::Bool(false)) => spec_seval(d, *else_br, env),
                Ok(_) => Err(SpecSurfaceEvalError::NonBoolCondition),
            },
            SpecExpr::Lambda { param, body } => Ok(SpecSValue::Closure { param: param.name, body: *body, env }),
            SpecExpr::App { head, args } => match spec_seval(d, *head, env) {
                Err(x) => Err(x),
                Ok(f) => spec_sapp(d, f, args, env),
            },
            SpecExpr::Atom(a) => spec_seval_atom(d, a, env),
        }
    }
}

/// `f` applied to the arguments left to right, each argument evaluated just
/// before its application.
pub open spec fn spec_sapp(depth: nat, f: SpecSValue, args: Seq<SpecExpr>, env: SpecSEnv) -> Result<SpecSValue, SpecSurfaceEvalError>
    decreases depth, args.len() + 2,
{
    if args.len() == 0 {
        Ok(f)
    } else {
        match spec_sapp(depth, f, args.drop_last(), env) {
            Err(x) => Err(x),
            Ok(g) => match spec_seval(depth, args.last(), env) {
                Err(x) => Err(x),
                Ok(a) => spec_apply_one(depth, g, a),
            },
        }
    }
}

pub open spec fn spec_apply_one(depth: nat, f: SpecSValue, arg: SpecSValue) -> Result<SpecSValue, SpecSurfaceEvalError>
    decreases depth, 1nat,
{
    match f {
        SpecSValue::Closure { param, body, env } => spec_seval(depth, body, env_insert(env, param, arg)),
        _ => Err(SpecSurfaceEvalError::NotAFunction),
    }
}

pub open spec fn spec_seval_list(depth: nat, es: Seq<SpecExpr>, env: SpecSEnv) -> Result<Seq<SpecSValue>, SpecSurfaceEvalError>
    decreases depth, es.len(),
{
    if es.len() == 0 {
        Ok(Seq::empty())
    } else {
        match spec_seval_list(depth, es.drop_last(), env) {
            Err(x) => Err(x),
            Ok(vs) => match spec_seval(depth, es.last(), env) {
                Err(x) => Err(x),
                Ok(v) => Ok(vs.push(v)),
            },
        }
    }
}

/// Runs the statements from index `i` on, in order, then evaluates `fin`.
/// `let` and rebinding bind the name in the environment that the later
/// statements see; an expression statement is evaluated for its errors only.
pub open spec fn spec_seval_stmts(depth: nat, stmts: Seq<SpecStmt>, i: int, env: SpecSEnv, fin: SpecExpr) -> Result<SpecSValue, SpecSurfaceEvalError>
    decreases depth, (if 0 <= i < stmts.len() { stmts.len() - i } else { 0 }) + 1,
{
    if i < 0 || i >= stmts.len() {
        spec_seval(depth, fin, env)
    } else {
        match stmts[i] {
            SpecStmt::Let { name, ty, value } => match spec_seval(depth, value, env) {
                Err(x) => Err(x),
                Ok(v) => spec_seval_stmts(depth, stmts, i + 1, env_insert(env, name, v), fin),
            },
            SpecStmt::Rebind { name, value } => match spec_seval(depth, value, env) {
                Err(x) => Err(x),
                Ok(v) => spec_seval_stmts(depth, stmts, i + 1, env_insert(env, name, v), fin),
            },
            SpecStmt::Expr { expr } => match spec_seval(depth, expr, env) {
                Err(x) => Err(x),
                Ok(_) => spec_seval_stmts(depth, stmts, i + 1, env, fin),
            },
        }
    }
}

pub open spec fn spec_seval_block(depth: nat, b: SpecBlock, env: SpecSEnv) -> Result<SpecSValue, SpecSurfaceEvalError>
    decreases depth, b.stmts.len() + 2,
{
    spec_seval_stmts(depth, b.stmts, 0, env, b.expr)
}

pub open spec fn atom_measure(a: SpecAtom) -> nat {
    match a.base {
        SpecAtomBase::Tuple(xs) => xs.len() + 1,
        SpecAtomBase::Block(b) => b.stmts.len() + 3,
        _ => 1,
    }
}

pub open spec fn spec_seval_atom(depth: nat, a: SpecAtom, env: SpecSEnv) -> Result<SpecSValue, SpecSurfaceEvalError>
    decreases depth, atom_measure(a),
{
    let base = match a.base {
        SpecAtomBase::Lit(l) => Ok(lit_svalue(l)),
        SpecAtomBase::Var(x) => match env_lookup(env, x) {
            Some(v) => Ok(v),
            None => Err(SpecSurfaceEvalError::UnboundVariable(x)),
        },
        SpecAtomBase::Tuple(xs) => match spec_seval_list(depth, xs, env) {
            Err(x) => Err(x),
            Ok(vs) => Ok(SpecSValue::Tuple(vs)),
        },
        SpecAtomBase::Paren(e) => spec_seval(depth, *e, env),
        SpecAtomBase::Block(b) => spec_seval_block(depth, *b, env),
    };
    match base {
        Err(x) => Err(x),
        Ok(v) => spec_sproject(v, a.projs),
    }
}

pub open spec fn spec_sproject(v: SpecSValue, projs: Seq<usize>) -> Result<SpecSValue, SpecSurfaceEvalError>
    decreases projs.len(),
{
    if projs.len() == 0 {
        Ok(v)
    } else {
        match v {
            SpecSValue::Tuple(elems) => if 1 <= projs[0] && projs[0] - 1 < elems.len() {
                spec_sproject(elems[projs[0] - 1], projs.drop_first())
            } else {
                Err(SpecSurfaceEvalError::InvalidProjection)
            },
            _ => Err(SpecSurfaceEvalError::InvalidProjection),
        }
    }
}

// ------------------------------------------------------------
// The depth bound only decides whether evaluation finishes
// ------------------------------------------------------------

/// Once surface evaluation finishes within a depth bound (with a value or
/// with any error but running out of depth), every larger bound gives the
/// same result.
pub proof fn lemma_seval_depth_independent(d1: nat, d2: nat, e: SpecExpr, env: SpecSEnv)
    requires
        d1 <= d2,
        !ran_out_s(spec_seval(d1, e, env)),
    ensures
        spec_seval(d2, e, env) == spec_seval(d1, e, env),
    decreases d1, 0nat,
{
    if d1 > 0 {
        let a = (d1 - 1) as nat;
        let b = (d2 - 1) as nat;
        match e {
            SpecExpr::LetIn { name, ty, value, body } => {
                lemma_seval_depth_independent(a, b, *value, env);
                if let Ok(v) = spec_seval(a, *value, env) {
                    lemma_seval_depth_independent(a, b, *body, env_insert(env, name, v));
                }
            },
            SpecExpr::If { cond, then_br, else_br } => {
                lemma_seval_depth_independent(a, b, *cond, env);
                match spec_seval(a, *cond, env) {
                    Ok(SpecSValue::Bool(true)) => lemma_seval_depth_independent(a, b, *then_br, env),
                    Ok(SpecSValue::Bool(false)) => lemma_seval_depth_independent(a, b, *else_br, env),
                    _ => {},
                }
            },
            SpecExpr::Lambda { .. } => {},
            SpecExpr::App { head, args } => {
                lemma_seval_depth_independent(a, b, *head, env);
                if let Ok(f) = spec_seval(a, *head, env) {
                    lemma_sapp_depth_independent(a, b, f, args, env);
                }
            },
            SpecExpr::Atom(at) => {
                lemma_seval_atom_depth_independent(a, b, at, env);
            },
        }
    }
}

pub proof fn lemma_sapp_depth_independent(d1: nat, d2: nat, f: SpecSValue, args: Seq<SpecExpr>, env: SpecSEnv)
    requires
        d1 <= d2,
        !ran_out_s(spec_sapp(d1, f, args, env)),
    ensures
        spec_sapp(d2, f, args, env) == spec_sapp(d1, f, args, env),
    decreases d1, args.len() + 2,
{
    if args.len() > 0 {
        lemma_sapp_depth_independent(d1, d2, f, args.drop_last(), env);
        if let Ok(g) = spec_sapp(d1, f, args.drop_last(), env) {
            lemma_seval_depth_independent(d1, d2, args.last(), env);
            if let Ok(x) = spec_seval(d1, args.last(), env) {
                lemma_apply_one_depth_independent(d1, d2, g, x);
            }
        }
    }
}

pub proof fn lemma_apply_one_depth_independent(d1: nat, d2: nat, f: SpecSValue, arg: SpecSValue)
    requires
        d1 <= d2,
        !ran_out_s(spec_apply_one(d1, f, arg)),
    ensures
        spec_apply_one(d2, f, arg) == spec_apply_one(d1, f, arg),
    decreases d1, 1nat,
{
    if let SpecSValue::Closure { param, body, env } = f {
        lemma_seval_depth_independent(d1, d2, body, env_insert(env, param, arg));
    }
}

pub proof fn lemma_seval_list_depth_independent(d1: nat, d2: nat, es: Seq<SpecExpr>, env: SpecSEnv)
    requires
        d1 <= d2,
        !ran_out_s(spec_seval_list(d1, es, env)),
    ensures
        spec_seval_list(d2, es, env) == spec_seval_list(d1, es, env),
    decreases d1, es.len(),
{
    if es.len() > 0 {
        lemma_seval_list_depth_independent(d1, d2, es.drop_last(), env);
        if spec_seval_list(d1, es.drop_last(), env) is Ok {
            lemma_seval_depth_independent(d1, d2, es.last(), env);
        }
    }
}

pub proof fn lemma_seval_stmts_depth_independent(
    d1: nat,
    d2: nat,
    stmts: Seq<SpecStmt>,
    i: int,
    env: SpecSEnv,
    fin: SpecExpr,
)
    requires
        d1 <= d2,
        !ran_out_s(spec_seval_stmts(d1, stmts, i, env, fin)),
    ensures
        spec_seval_stmts(d2, stmts, i, env, fin) == spec_seval_stmts(d1, stmts, i, env, fin),
    decreases d1, (if 0 <= i < stmts.len() { stmts.len() - i } else { 0 }) + 1,
{
    if i < 0 || i >= stmts.len() {
        lemma_seval_depth_independent(d1, d2, fin, env);
    } else {
        match stmts[i] {
            SpecStmt::Let { name, ty, value } => {
                lemma_seval_depth_independent(d1, d2, value, env);
                if let Ok(v) = spec_seval(d1, value, env) {
                    lemma_seval_stmts_depth_independent(d1, d2, stmts, i + 1, env_insert(env, name, v), fin);
                }
            },
            SpecStmt::Rebind { name, value } => {
                lemma_seval_depth_independent(d1, d2, value, env);
                if let Ok(v) = spec_seval(d1, value, env) {
                    lemma_seval_stmts_depth_independent(d1, d2, stmts, i + 1, env_insert(env, name, v), fin);
                }
            },
            SpecStmt::Expr { expr } => {
                lemma_seval_depth_independent(d1, d2, expr, env);
                if spec_seval(d1, expr, env) is Ok {
                    lemma_seval_stmts_depth_independent(d1, d2, stmts, i + 1, env, fin);
                }
            },
        }
    }
}

/// The same for a whole block.
pub proof fn lemma_seval_block_depth_independent(d1: nat, d2: nat, b: SpecBlock, env: SpecSEnv)
    requires
        d1 <= d2,
        !ran_out_s(spec_seval_block(d1, b, env)),
    ensures
        spec_seval_block(d2, b, env) == spec_seval_block(d1, b, env),
    decreases d1, b.stmts.len() + 2,
{
    lemma_seval_stmts_depth_independent(d1, d2, b.stmts, 0, env, b.expr);
}

pub proof fn lemma_seval_atom_depth_independent(d1: nat, d2: nat, a: SpecAtom, env: SpecSEnv)
    requires
        d1 <= d2,
        !ran_out_s(spec_seval_atom(d1, a, env)),
    ensures
        spec_seval_atom(d2, a, env) == spec_seval_atom(d1, a, env),
    decreases d1, atom_measure(a),
{
    match a.base {
        SpecAtomBase::Tuple(xs) => lemma_seval_list_depth_independent(d1, d2, xs, env),
        SpecAtomBase::Paren(e) => lemma_seval_depth_independent(d1, d2, *e, env),
        SpecAtomBase::Block(b) => lemma_seval_block_depth_independent(d1, d2, *b, env),
        _ => {},
    }
}

// ------------------------------------------------------------
// Evaluator
// ------------------------------------------------------------

/// Runs the block's statements in order, then evaluates its final expression.
pub fn eval_block(block: &Block, env: &SEnv) -> (r: Result<SValue, SurfaceEvalError>)
    ensures
        view_seval_result(r) == spec_seval_block(SURFACE_DEPTH_LIMIT as nat, block@, env@),
        !(r matches Err(SurfaceEvalError::NonGroundResult)),
{
    proof {
        lemma_seval_stmts_never_non_ground(SURFACE_DEPTH_LIMIT as nat, block@.stmts, 0, env@, block@.expr);
    }
    eval_block_bounded(block, env, SURFACE_DEPTH_LIMIT)
}

/// Evaluates `expr` in `env`.
pub fn eval_expr(expr: &Expr, env: &SEnv) -> (r: Result<SValue, SurfaceEvalError>)
    ensures
        view_seval_result(r) == spec_seval(SURFACE_DEPTH_LIMIT as nat, expr@, env@),
        !(r matches Err(SurfaceEvalError::NonGroundResult)),
{
    proof {
        law_seval_never_non_ground(SURFACE_DEPTH_LIMIT as nat, expr@, env@);
    }
    eval_expr_bounded(expr, env, SURFACE_DEPTH_LIMIT)
}

pub fn eval_block_bounded(block: &Block, env: &SEnv, depth: u64) -> (r: Result<SValue, SurfaceEvalError>)
    ensures
        view_seval_result(r) == spec_seval_block(depth as nat, view_block(*block), env@),
    decreases depth, view_block(*block).stmts.len() + 2,
{
    let ghost stmts = view_stmts(block.stmts@);
    let ghost fin = view_expr(block.expr);
    let ghost goal = spec_seval_block(depth as nat, view_block(*block), env@);
    let mut cur = env.copy();
    let mut i: usize = 0;
    while i < block.stmts.len()
        invariant
            i <= block.stmts@.len(),
            stmts == view_stmts(block.stmts@),
            fin == view_expr(block.expr),
            goal == spec_seval_block(depth as nat, view_block(*block), env@),
            goal == spec_seval_stmts(depth as nat, stmts, i as int, cur@, fin),
        decreases block.stmts@.len() - i,
    {
        let ghost old_cur = cur@;
        match &block.stmts[i] {
            Stmt::Let { name, value, .. } => {
                match eval_expr_bounded(value, &cur, depth) {
                    Err(x) => return Err(x),
                    Ok(v) => {
                        cur.insert(name.0.clone(), v);
                    },
                }
            },
            Stmt::Rebind { name, value } => {
                match eval_expr_bounded(value, &cur, depth) {
                    Err(x) => return Err(x),
                    Ok(v) => {
                        cur.insert(name.0.clone(), v);
                    },
                }
            },
            Stmt::Expr { expr } => {
                match eval_expr_bounded(expr, &cur, depth) {
                    Err(x) => return Err(x),
                    Ok(_) => {},
                }
            },
        }
        i = i + 1;
    }
    eval_expr_bounded(&block.expr, &cur, depth)
}

pub fn eval_expr_bounded(expr: &Expr, env: &SEnv, depth: u64) -> (r: Result<SValue, SurfaceEvalError>)
    ensures
        view_seval_result(r) == spec_seval(depth as nat, expr@, env@),
    decreases depth, 0nat,
{
    if depth == 0 {
        return Err(SurfaceEvalError::DepthLimitExceeded);
    }
    let d = depth - 1;
    match expr {
        Expr::LetIn { name, value, body, .. } => {
            match eval_expr_bounded(value, env, d) {
                Err(x) => Err(x),
                Ok(v) => {
                    let mut new_env = env.copy();
                    new_env.insert(name.0.clone(), v);
                    eval_expr_bounded(body, &new_env, d)
                },
            }
        },
        Expr::If { cond, then_br, else_br } => {
            match eval_expr_bounded(cond, env, d) {
                Err(x) => Err(x),
                Ok(SValue::Bool(true)) => eval_expr_bounded(then_br, env, d),
                Ok(SValue::Bool(false)) => eval_expr_bounded(else_br, env, d),
                Ok(_) => Err(SurfaceEvalError::NonBoolCondition),
            }
        },
        Expr::Lambda { param, body } => {
            Ok(SValue::Closure { param: param.name.copy(), body: body.copy(), env: env.copy() })
        },
        Expr::App { head, args } => {
            match eval_expr_bounded(head, env, d) {
                Err(x) => Err(x),
                Ok(f) => eval_app(f, args, env, d),
            }
        },
        Expr::Atom(a) => eval_atom(a, env, d),
    }
}

fn eval_app(func: SValue, args: &Vec<Expr>, env: &SEnv, depth: u64) -> (r: Result<SValue, SurfaceEvalError>)
    ensures
        view_seval_result(r) == spec_sapp(depth as nat, func@, view_exprs(args@), env@),
    decreases depth, args@.len() + 2,
{
    let ghost vargs = view_exprs(args@);
    let mut f = func;
    let mut i: usize = 0;
    assert(vargs.take(0) =~= Seq::<SpecExpr>::empty());
    while i < args.len()
        invariant
            i <= args@.len(),
            vargs == view_exprs(args@),
            spec_sapp(depth as nat, func@, vargs.take(i as int), env@) == Ok::<SpecSValue, SpecSurfaceEvalError>(f@),
        decreases args@.len() - i,
    {
        assert(vargs.take(i + 1).drop_last() =~= vargs.take(i as int));
        assert(vargs.take(i + 1).last() == view_expr(args@[i as int]));
        match eval_expr_bounded(&args[i], env, depth) {
            Err(x) => {
                proof {
                    lemma_sapp_prefix_err(depth as nat, func@, vargs, env@, i as int + 1);
                }
                return Err(x);
            },
            Ok(a) => match apply_one(f, a, depth) {
                Err(x) => {
                    proof {
                        lemma_sapp_prefix_err(depth as nat, func@, vargs, env@, i as int + 1);
                    }
                    return Err(x);
                },
                Ok(g) => {
                    f = g;
                },
            },
        }
        i = i + 1;
    }
    assert(vargs.take(args@.len() as int) =~= vargs);
    Ok(f)
}

proof fn lemma_sapp_prefix_err(depth: nat, f: SpecSValue, args: Seq<SpecExpr>, env: SpecSEnv, n: int)
    requires
        0 <= n <= args.len(),
        spec_sapp(depth, f, args.take(n), env) is Err,
    ensures
        spec_sapp(depth, f, args, env) == spec_sapp(depth, f, args.take(n), env),
    decreases args.len() - n,
{
    if n < args.len() {
        assert(args.take(n + 1).drop_last() =~= args.take(n));
        lemma_sapp_prefix_err(depth, f, args, env, n + 1);
    } else {
        assert(args.take(n) =~= args);
    }
}

fn apply_one(func: SValue, arg: SValue, depth: u64) -> (r: Result<SValue, SurfaceEvalError>)
    ensures
        view_seval_result(r) == spec_apply_one(depth as nat, func@, arg@),
    decreases depth, 1nat,
{
    match func {
        SValue::Closure { param, body, env } => {
            let mut new_env = env;
            new_env.insert(param.0, arg);
            eval_expr_bounded(&body, &new_env, depth)
        },
        _ => Err(SurfaceEvalError::NotAFunction),
    }
}

fn eval_list(es: &Vec<Expr>, env: &SEnv, depth: u64) -> (r: Result<Vec<SValue>, SurfaceEvalError>)
    ensures
        view_slist_result(r) == spec_seval_list(depth as nat, view_exprs(es@), env@),
    decreases depth, es@.len(),
{
    let ghost ves = view_exprs(es@);
    let mut out: Vec<SValue> = Vec::new();
    let mut i: usize = 0;
    assert(ves.take(0) =~= Seq::<SpecExpr>::empty());
    assert(view_svalues(out@) =~= Seq::<SpecSValue>::empty());
    while i < es.len()
        invariant
            i <= es@.len(),
            ves == view_exprs(es@),
            spec_seval_list(depth as nat, ves.take(i as int), env@) == Ok::<Seq<SpecSValue>, SpecSurfaceEvalError>(view_svalues(out@)),
        decreases es@.len() - i,
    {
        let ghost pre = out@;
        assert(ves.take(i + 1).drop_last() =~= ves.take(i as int));
        assert(ves.take(i + 1).last() == view_expr(es@[i as int]));
        match eval_expr_bounded(&es[i], env, depth) {
            Err(x) => {
                proof {
                    lemma_seval_list_prefix_err(depth as nat, ves, env@, i as int + 1);
                }
                return Err(x);
            },
            Ok(v) => {
                out.push(v);
                proof {
                    assert(view_svalues(out@) =~= view_svalues(pre).push(v@));
                }
            },
        }
        i = i + 1;
    }
    assert(ves.take(es@.len() as int) =~= ves);
    Ok(out)
}

proof fn lemma_seval_list_prefix_err(depth: nat, es: Seq<SpecExpr>, env: SpecSEnv, n: int)
    requires
        0 <= n <= es.len(),
        spec_seval_list(depth, es.take(n), env) is Err,
    ensures
        spec_seval_list(depth, es, env) == spec_seval_list(depth, es.take(n), env),
    decreases es.len() - n,
{
    if n < es.len() {
        assert(es.take(n + 1).drop_last() =~= es.take(n));
        lemma_seval_list_prefix_err(depth, es, env, n + 1);
    } else {
        assert(es.take(n) =~= es);
    }
}

fn eval_atom(a: &Atom, env: &SEnv, depth: u64) -> (r: Result<SValue, SurfaceEvalError>)
    ensures
        view_seval_result(r) == spec_seval_atom(depth as nat, view_atom(*a), env@),
    decreases depth, atom_measure(view_atom(*a)),
{
    let base = match &a.base {
        AtomBase::Lit(l) => match l {
            Lit::Int(n) => SValue::Int(*n),
            Lit::Bool(b) => SValue::Bool(*b),
            Lit::Unit => SValue::Unit,
        },
        AtomBase::Var(id) => match env.get(&id.0) {
            Some(v) => v.copy(),
            None => return Err(SurfaceEvalError::UnboundVariable(id.0.clone())),
        },
        AtomBase::Tuple(xs) => match eval_list(xs, env, depth) {
            Err(x) => return Err(x),
            Ok(vs) => SValue::Tuple(vs),
        },
        AtomBase::Paren(e) => match eval_expr_bounded(e, env, depth) {
            Err(x) => return Err(x),
            Ok(v) => v,
        },
        AtomBase::Block(b) => match eval_block_bounded(b, env, depth) {
            Err(x) => return Err(x),
            Ok(v) => v,
        },
    };
    sproject(base, &a.projs)
}

fn sproject(v: SValue, projs: &Vec<usize>) -> (r: Result<SValue, SurfaceEvalError>)
    ensures
        view_seval_result(r) == spec_sproject(v@, projs@),
{
    let mut cur = v;
    let mut i: usize = 0;
    assert(projs@.skip(0) =~= projs@);
    while i < projs.len()
        invariant
            i <= projs@.len(),
            spec_sproject(v@, projs@) == spec_sproject(cur@, projs@.skip(i as int)),
        decreases projs@.len() - i,
    {
        let idx = projs[i];
        assert(projs@.skip(i as int)[0] == idx);
        assert(projs@.skip(i as int).drop_first() =~= projs@.skip(i + 1));
        match cur {
            SValue::Tuple(elems) => {
                if idx == 0 || idx - 1 >= elems.len() {
                    return Err(SurfaceEvalError::InvalidProjection);
                }
                let mut elems = elems;
                let picked = elems.swap_remove(idx - 1);
                cur = picked;
            },
            _ => return Err(SurfaceEvalError::InvalidProjection),
        }
        i = i + 1;
    }
    assert(projs@.skip(projs@.len() as int) =~= Seq::<usize>::empty());
    Ok(cur)
}

// ------------------------------------------------------------
// Ground values: the values without closures, shared by both languages
// ------------------------------------------------------------

/// The core value of a surface value that holds no closure.
pub open spec fn spec_value_of(sv: SpecSValue) -> Option<SpecValue>
    decreases sv,
{
    match sv {
        SpecSValue::Int(n) => Some(SpecValue::Int(n)),
        SpecSValue::Bool(b) => Some(SpecValue::Bool(b)),
        SpecSValue::Unit => Some(SpecValue::Unit),
        SpecSValue::Tuple(xs) => match spec_values_of(xs) {
            Some(vs) => Some(SpecValue::Tuple(vs)),
            None => None,
        },
        SpecSValue::Closure { .. } => None,
    }
}

pub open spec fn spec_values_of(xs: Seq<SpecSValue>) -> Option<Seq<SpecValue>>
    decreases xs,
{
    if xs.len() == 0 {
        Some(Seq::empty())
    } else {
        match spec_values_of(xs.drop_last()) {
            None => None,
            Some(vs) => match spec_value_of(xs[xs.len() - 1]) {
                None => None,
                Some(v) => Some(vs.push(v)),
            },
        }
    }
}

/// The surface value of a core value that holds no closure.
pub open spec fn spec_svalue_of(v: SpecValue) -> Option<SpecSValue>
    decreases v,
{
    match v {
        SpecValue::Int(n) => Some(SpecSValue::Int(n)),
        SpecValue::Bool(b) => Some(SpecSValue::Bool(b)),
        SpecValue::Unit => Some(SpecSValue::Unit),
        SpecValue::Tuple(xs) => match spec_svalues_of(xs) {
            Some(vs) => Some(SpecSValue::Tuple(vs)),
            None => None,
        },
        SpecValue::Closure { .. } => None,
    }
}

pub open spec fn spec_svalues_of(xs: Seq<SpecValue>) -> Option<Seq<SpecSValue>>
    decreases xs,
{
    if xs.len() == 0 {
        Some(Seq::empty())
    } else {
        match spec_svalues_of(xs.drop_last()) {
            None => None,
            Some(vs) => match spec_svalue_of(xs[xs.len() - 1]) {
                None => None,
                Some(v) => Some(vs.push(v)),
            },
        }
    }
}

/// The surface environment with the same names bound to the same ground
/// values, when every bound value is ground.
pub open spec fn spec_senv_of(env: SpecEnv) -> Option<SpecSEnv>
    decreases env.len(),
{
    if env.len() == 0 {
        Some(Seq::empty())
    } else {
        match spec_senv_of(env.drop_last()) {
            None => None,
            Some(se) => match spec_svalue_of(env.last().1) {
                None => None,
                Some(v) => Some(se.push((env.last().0, v))),
            },
        }
    }
}

/// Converts a ground surface value to the core value with the same contents.
pub fn value_from_svalue(v: &SValue) -> (r: Result<Value, SurfaceEvalError>)
    ensures
        match r {
            Ok(cv) => spec_value_of(v@) == Some(cv@),
            Err(e) => spec_value_of(v@) is None && e == SurfaceEvalError::NonGroundResult,
        },
    decreases v,
{
    match v {
        SValue::Int(n) => Ok(Value::Int(*n)),
        SValue::Bool(b) => Ok(Value::Bool(*b)),
        SValue::Unit => Ok(Value::Unit),
        SValue::Tuple(xs) => {
            let mut out: Vec<Value> = Vec::new();
            let mut i: usize = 0;
            proof {
                assert(decreases_to!(*v => (*v)->Tuple_0));
                assert(view_svalues(xs@).take(0) =~= Seq::<SpecSValue>::empty());
                assert(view_values(out@) =~= Seq::<SpecValue>::empty());
            }
            while i < xs.len()
                invariant
                    *v == SValue::Tuple(*xs),
                    i <= xs@.len(),
                    spec_values_of(view_svalues(xs@).take(i as int)) == Some(view_values(out@)),
                decreases xs@.len() - i,
            {
                let ghost vx = view_svalues(xs@);
                let ghost pre = out@;
                proof {
                    assert(decreases_to!(*v => (*v)->Tuple_0));
                    assert(decreases_to!(*xs => xs@));
                    assert(decreases_to!(xs@ => xs@[i as int]));
                    assert(vx.take(i + 1).drop_last() =~= vx.take(i as int));
                    assert(vx.take(i + 1)[i as int] == view_svalue(xs@[i as int]));
                }
                match value_from_svalue(&xs[i]) {
                    Err(e) => {
                        proof {
                            lemma_values_of_prefix_none(vx, i as int + 1);
                        }
                        return Err(e);
                    },
                    Ok(cv) => {
                        out.push(cv);
                        proof {
                            assert(view_values(out@) =~= view_values(pre).push(cv@));
                        }
                    },
                }
                i = i + 1;
            }
            proof {
                assert(view_svalues(xs@).take(xs@.len() as int) =~= view_svalues(xs@));
            }
            Ok(Value::Tuple(out))
        },
        SValue::Closure { .. } => Err(SurfaceEvalError::NonGroundResult),
    }
}

proof fn lemma_values_of_prefix_none(xs: Seq<SpecSValue>, n: int)
    requires
        0 <= n <= xs.len(),
        spec_values_of(xs.take(n)) is None,
    ensures
        spec_values_of(xs) is None,
    decreases xs.len() - n,
{
    if n < xs.len() {
        assert(xs.take(n + 1).drop_last() =~= xs.take(n));
        lemma_values_of_prefix_none(xs, n + 1);
    } else {
        assert(xs.take(n) =~= xs);
    }
}

proof fn lemma_svalues_of_prefix_none(xs: Seq<SpecValue>, n: int)
    requires
        0 <= n <= xs.len(),
        spec_svalues_of(xs.take(n)) is None,
    ensures
        spec_svalues_of(xs) is None,
    decreases xs.len() - n,
{
    if n < xs.len() {
        assert(xs.take(n + 1).drop_last() =~= xs.take(n));
        lemma_svalues_of_prefix_none(xs, n + 1);
    } else {
        assert(xs.take(n) =~= xs);
    }
}

/// Converts a ground core value to the surface value with the same contents.
pub fn svalue_from_value(v: &Value) -> (r: Result<SValue, SurfaceEvalError>)
    ensures
        match r {
            Ok(sv) => spec_svalue_of(v@) == Some(sv@),
            Err(e) => spec_svalue_of(v@) is None && e == SurfaceEvalError::NonGroundResult,
        },
    decreases v,
{
    match v {
        Value::Int(n) => Ok(SValue::Int(*n)),
        Value::Bool(b) => Ok(SValue::Bool(*b)),
        Value::Unit => Ok(SValue::Unit),
        Value::Tuple(xs) => {
            let mut out: Vec<SValue> = Vec::new();
            let mut i: usize = 0;
            proof {
                assert(decreases_to!(*v => (*v)->Tuple_0));
                assert(view_values(xs@).take(0) =~= Seq::<SpecValue>::empty());
                assert(view_svalues(out@) =~= Seq::<SpecSValue>::empty());
            }
            while i < xs.len()
                invariant
                    *v == Value::Tuple(*xs),
                    i <= xs@.len(),
                    spec_svalues_of(view_values(xs@).take(i as int)) == Some(view_svalues(out@)),
                decreases xs@.len() - i,
            {
                let ghost vx = view_values(xs@);
                let ghost pre = out@;
                proof {
                    assert(decreases_to!(*v => (*v)->Tuple_0));
                    assert(decreases_to!(*xs => xs@));
                    assert(decreases_to!(xs@ => xs@[i as int]));
                    assert(vx.take(i + 1).drop_last() =~= vx.take(i as int));
                    assert(vx.take(i + 1)[i as int] == xs@[i as int]@);
                }
                match svalue_from_value(&xs[i]) {
                    Err(e) => {
                        proof {
                            lemma_svalues_of_prefix_none(vx, i as int + 1);
                        }
                        return Err(e);
                    },
                    Ok(sv) => {
                        out.push(sv);
                        proof {
                            assert(view_svalues(out@) =~= view_svalues(pre).push(sv@));
                        }
                    },
                }
                i = i + 1;
            }
            proof {
                assert(view_values(xs@).take(xs@.len() as int) =~= view_values(xs@));
            }
            Ok(SValue::Tuple(out))
        },
        Value::Closure { .. } => Err(SurfaceEvalError::NonGroundResult),
    }
}

/// The surface environment that binds the same names to the same values,
/// when every value bound in `env` is ground.
pub fn env_from_core(env: &Env) -> (r: Result<SEnv, SurfaceEvalError>)
    ensures
        match r {
            Ok(se) => spec_senv_of(env@) == Some(se@),
            Err(e) => spec_senv_of(env@) is None && e == SurfaceEvalError::NonGroundResult,
        },
        r matches Ok(se) ==> env_sorted(se@),
{
    let mut out: Vec<(String, SValue)> = Vec::new();
    let mut i: usize = 0;
    assert(env@.take(0) =~= Seq::<(Seq<char>, SpecValue)>::empty());
    assert(view_sentries(out@) =~= Seq::<(Seq<char>, SpecSValue)>::empty());
    while i < env.len()
        invariant
            i <= env@.len(),
            spec_senv_of(env@.take(i as int)) == Some(view_sentries(out@)),
        decreases env@.len() - i,
    {
        let ghost pre = out@;
        let (k, v) = env.entry(i);
        assert(env@.take(i + 1).drop_last() =~= env@.take(i as int));
        assert(env@.take(i + 1).last() == env@[i as int]);
        match svalue_from_value(v) {
            Err(e) => {
                proof {
                    lemma_senv_of_prefix_none(env@, i as int + 1);
                }
                return Err(e);
            },
            Ok(sv) => {
                out.push((k.clone(), sv));
                proof {
                    assert(view_sentries(out@) =~= view_sentries(pre).push((k@, sv@)));
                }
            },
        }
        i = i + 1;
    }
    proof {
        use_type_invariant(env);
        assert(env@.take(env@.len() as int) =~= env@);
        law_senv_of(env@);
        let se = view_sentries(out@);
        assert forall|a: int, b: int| 0 <= a < b < se.len() implies key_lt(#[trigger] se[a].0, #[trigger] se[b].0) by {
            assert(se[a].0 == env@[a].0 && se[b].0 == env@[b].0);
        }
    }
    Ok(SEnv { entries: out })
}

proof fn lemma_senv_of_prefix_none(env: SpecEnv, n: int)
    requires
        0 <= n <= env.len(),
        spec_senv_of(env.take(n)) is None,
    ensures
        spec_senv_of(env) is None,
    decreases env.len() - n,
{
    if n < env.len() {
        assert(env.take(n + 1).drop_last() =~= env.take(n));
        lemma_senv_of_prefix_none(env, n + 1);
    } else {
        assert(env.take(n) =~= env);
    }
}

// ------------------------------------------------------------
// Ground values move between the two languages without loss
// ------------------------------------------------------------

/// A core value without closures, converted to a surface value and back,
/// is the value it was.
pub proof fn law_core_value_round_trip(v: SpecValue)
    requires
        spec_svalue_of(v) is Some,
    ensures
        spec_value_of(spec_svalue_of(v)->Some_0) == Some(v),
    decreases v,
{
    if let SpecValue::Tuple(xs) = v {
        lemma_core_values_round_trip(xs);
    }
}

proof fn lemma_core_values_round_trip(xs: Seq<SpecValue>)
    requires
        spec_svalues_of(xs) is Some,
    ensures
        spec_values_of(spec_svalues_of(xs)->Some_0) == Some(xs),
    decreases xs,
{
    if xs.len() > 0 {
        let pre = xs.drop_last();
        assert(decreases_to!(xs => xs[xs.len() - 1]));
        lemma_core_values_round_trip(pre);
        law_core_value_round_trip(xs[xs.len() - 1]);
        let svs = spec_svalues_of(xs)->Some_0;
        assert(svs.drop_last() == spec_svalues_of(pre)->Some_0);
        assert(pre.push(xs[xs.len() - 1]) =~= xs);
    }
}

/// A surface value without closures, converted to a core value and back,
/// is the value it was.
pub proof fn law_surface_value_round_trip(sv: SpecSValue)
    requires
        spec_value_of(sv) is Some,
    ensures
        spec_svalue_of(spec_value_of(sv)->Some_0) == Some(sv),
    decreases sv,
{
    if let SpecSValue::Tuple(xs) = sv {
        lemma_surface_values_round_trip(xs);
    }
}

proof fn lemma_surface_values_round_trip(xs: Seq<SpecSValue>)
    requires
        spec_values_of(xs) is Some,
    ensures
        spec_svalues_of(spec_values_of(xs)->Some_0) == Some(xs),
    decreases xs,
{
    if xs.len() > 0 {
        let pre = xs.drop_last();
        assert(decreases_to!(xs => xs[xs.len() - 1]));
        lemma_surface_values_round_trip(pre);
        law_surface_value_round_trip(xs[xs.len() - 1]);
        let vs = spec_values_of(xs)->Some_0;
        assert(vs.drop_last() == spec_values_of(pre)->Some_0);
        assert(pre.push(xs[xs.len() - 1]) =~= xs);
    }
}

// ------------------------------------------------------------
// Conversions fail exactly on closures
// ------------------------------------------------------------

/// Whether a closure occurs anywhere in the core value `v`.
pub open spec fn value_has_closure(v: SpecValue) -> bool
    decreases v,
{
    match v {
        SpecValue::Closure { .. } => true,
        SpecValue::Tuple(xs) => values_have_closure(xs),
        _ => false,
    }
}

pub open spec fn values_have_closure(xs: Seq<SpecValue>) -> bool
    decreases xs,
{
    if xs.len() == 0 {
        false
    } else {
        values_have_closure(xs.drop_last()) || value_has_closure(xs[xs.len() - 1])
    }
}

/// Whether a closure occurs anywhere in the surface value `v`.
pub open spec fn svalue_has_closure(v: SpecSValue) -> bool
    decreases v,
{
    match v {
        SpecSValue::Closure { .. } => true,
        SpecSValue::Tuple(xs) => svalues_have_closure(xs),
        _ => false,
    }
}

pub open spec fn svalues_have_closure(xs: Seq<SpecSValue>) -> bool
    decreases xs,
{
    if xs.len() == 0 {
        false
    } else {
        svalues_have_closure(xs.drop_last()) || svalue_has_closure(xs[xs.len() - 1])
    }
}

/// A core value converts to a surface value exactly when no closure occurs in it.
pub proof fn law_svalue_of_fails_on_closures(v: SpecValue)
    ensures
        spec_svalue_of(v) is None <==> value_has_closure(v),
    decreases v,
{
    if let SpecValue::Tuple(xs) = v {
        lemma_svalues_of_fails_on_closures(xs);
    }
}

proof fn lemma_svalues_of_fails_on_closures(xs: Seq<SpecValue>)
    ensures
        spec_svalues_of(xs) is None <==> values_have_closure(xs),
    decreases xs,
{
    if xs.len() > 0 {
        assert(decreases_to!(xs => xs[xs.len() - 1]));
        lemma_svalues_of_fails_on_closures(xs.drop_last());
        law_svalue_of_fails_on_closures(xs[xs.len() - 1]);
    }
}

/// A surface value converts to a core value exactly when no closure occurs in it.
pub proof fn law_value_of_fails_on_closures(v: SpecSValue)
    ensures
        spec_value_of(v) is None <==> svalue_has_closure(v),
    decreases v,
{
    if let SpecSValue::Tuple(xs) = v {
        lemma_values_of_fails_on_closures(xs);
    }
}

proof fn lemma_values_of_fails_on_closures(xs: Seq<SpecSValue>)
    ensures
        spec_values_of(xs) is None <==> svalues_have_closure(xs),
    decreases xs,
{
    if xs.len() > 0 {
        assert(decreases_to!(xs => xs[xs.len() - 1]));
        lemma_values_of_fails_on_closures(xs.drop_last());
        law_value_of_fails_on_closures(xs[xs.len() - 1]);
    }
}

/// A core environment converts exactly when none of its values holds a
/// closure; the converted environment has the same names, in the same
/// order, each bound to the converted value.
pub proof fn law_senv_of(env: SpecEnv)
    ensures
        spec_senv_of(env) is None <==> exists|i: int| 0 <= i < env.len() && value_has_closure(#[trigger] env[i].1),
        spec_senv_of(env) matches Some(se) ==> {
            &&& se.len() == env.len()
            &&& forall|i: int| 0 <= i < env.len() ==>
                (#[trigger] se[i]).0 == env[i].0 && spec_svalue_of(env[i].1) == Some(se[i].1)
        },
    decreases env.len(),
{
    if env.len() > 0 {
        let pre = env.drop_last();
        law_senv_of(pre);
        law_svalue_of_fails_on_closures(env.last().1);
        assert forall|i: int| 0 <= i < pre.len() implies pre[i] == env[i] by {}
        if spec_senv_of(pre) is None {
            let w = choose|i: int| 0 <= i < pre.len() && value_has_closure(#[trigger] pre[i].1);
            assert(value_has_closure(env[w].1));
        } else if spec_svalue_of(env.last().1) is None {
            assert(value_has_closure(env[env.len() - 1].1));
        } else {
            let se = spec_senv_of(env)->Some_0;
            let sp = spec_senv_of(pre)->Some_0;
            assert(se == sp.push((env.last().0, spec_svalue_of(env.last().1)->Some_0)));
            assert forall|i: int| 0 <= i < env.len() implies !value_has_closure(#[trigger] env[i].1) by {
                if i < pre.len() {
                    assert(pre[i] == env[i]);
                }
            }
            assert forall|i: int| 0 <= i < env.len() implies
                (#[trigger] se[i]).0 == env[i].0 && spec_svalue_of(env[i].1) == Some(se[i].1) by {
                if i < pre.len() {
                    assert(se[i] == sp[i]);
                    assert(pre[i] == env[i]);
                }
            }
        }
    }
}

// ------------------------------------------------------------
// Equations of the surface semantics, within the depth bound
// ------------------------------------------------------------

/// An application evaluates its head, then applies the result to each
/// argument in turn, evaluating each argument just before its application;
/// the first error is the result, and without arguments it is the head's
/// value.
pub proof fn law_seval_app(d: nat, head: SpecExpr, args: Seq<SpecExpr>, env: SpecSEnv)
    requires
        !ran_out_s(spec_seval(d, SpecExpr::App { head: Box::new(head), args }, env)),
    ensures
        spec_seval(d, SpecExpr::App { head: Box::new(head), args }, env) == match spec_seval(d, head, env) {
            Err(x) => Err(x),
            Ok(f) => spec_sapp(d, f, args, env),
        },
        args.len() == 0 ==> spec_seval(d, SpecExpr::App { head: Box::new(head), args }, env) == spec_seval(d, head, env),
        args.len() > 0 ==> spec_sapp(d, spec_seval(d, head, env)->Ok_0, args, env) == match spec_sapp(d, spec_seval(d, head, env)->Ok_0, args.drop_last(), env) {
            Err(x) => Err(x),
            Ok(g) => match spec_seval(d, args.last(), env) {
                Err(x) => Err(x),
                Ok(a) => spec_apply_one(d, g, a),
            },
        },
{
    let a = (d - 1) as nat;
    lemma_seval_depth_independent(a, d, head, env);
    if let Ok(f) = spec_seval(a, head, env) {
        lemma_sapp_depth_independent(a, d, f, args, env);
    }
}

/// `if` evaluates its condition, then only the branch it selects.
pub proof fn law_seval_if(d: nat, cond: SpecExpr, then_br: SpecExpr, else_br: SpecExpr, env: SpecSEnv)
    requires
        !ran_out_s(spec_seval(d, SpecExpr::If { cond: Box::new(cond), then_br: Box::new(then_br), else_br: Box::new(else_br) }, env)),
    ensures
        spec_seval(d, SpecExpr::If { cond: Box::new(cond), then_br: Box::new(then_br), else_br: Box::new(else_br) }, env)
            == match spec_seval(d, cond, env) {
                Err(x) => Err(x),
                Ok(SpecSValue::Bool(true)) => spec_seval(d, then_br, env),
                Ok(SpecSValue::Bool(false)) => spec_seval(d, else_br, env),
                Ok(_) => Err(SpecSurfaceEvalError::NonBoolCondition),
            },
{
    let a = (d - 1) as nat;
    lemma_seval_depth_independent(a, d, cond, env);
    match spec_seval(a, cond, env) {
        Ok(SpecSValue::Bool(true)) => lemma_seval_depth_independent(a, d, then_br, env),
        Ok(SpecSValue::Bool(false)) => lemma_seval_depth_independent(a, d, else_br, env),
        _ => {},
    }
}

/// A block runs its statements in order and then evaluates its final
/// expression: `let` and rebinding bind the name for the statements after
/// them, an expression statement is evaluated and its value dropped, and
/// the first error is the result.
pub proof fn law_seval_block(d: nat, b: SpecBlock, env: SpecSEnv, i: int)
    requires
        0 <= i <= b.stmts.len(),
    ensures
        spec_seval_block(d, b, env) == spec_seval_stmts(d, b.stmts, 0, env, b.expr),
        i == b.stmts.len() ==> spec_seval_stmts(d, b.stmts, i, env, b.expr) == spec_seval(d, b.expr, env),
        i < b.stmts.len() ==> spec_seval_stmts(d, b.stmts, i, env, b.expr) == match b.stmts[i] {
            SpecStmt::Let { name, ty, value } => match spec_seval(d, value, env) {
                Err(x) => Err(x),
                Ok(v) => spec_seval_stmts(d, b.stmts, i + 1, env_insert(env, name, v), b.expr),
            },
            SpecStmt::Rebind { name, value } => match spec_seval(d, value, env) {
                Err(x) => Err(x),
                Ok(v) => spec_seval_stmts(d, b.stmts, i + 1, env_insert(env, name, v), b.expr),
            },
            SpecStmt::Expr { expr } => match spec_seval(d, expr, env) {
                Err(x) => Err(x),
                Ok(_) => spec_seval_stmts(d, b.stmts, i + 1, env, b.expr),
            },
        },
{
}

/// Applying a closure evaluates its body over its captured environment,
/// with the parameter bound to the argument; nothing else can be applied.
pub proof fn law_apply_one(d: nat, f: SpecSValue, arg: SpecSValue)
    ensures
        f matches SpecSValue::Closure { param, body, env } ==> spec_apply_one(d, f, arg) == spec_seval(d, body, env_insert(env, param, arg)),
        !(f is Closure) ==> spec_apply_one(d, f, arg) == Err::<SpecSValue, SpecSurfaceEvalError>(SpecSurfaceEvalError::NotAFunction),
{
}

// ------------------------------------------------------------
// Surface evaluation never asks for a ground value
// ------------------------------------------------------------

pub open spec fn not_ground_error<T>(r: Result<T, SpecSurfaceEvalError>) -> bool {
    r matches Err(SpecSurfaceEvalError::NonGroundResult)
}

/// Surface evaluation never fails with `NonGroundResult`: a closure is a
/// legal result, and that error only comes from the conversions to core
/// values.
pub proof fn law_seval_never_non_ground(d: nat, e: SpecExpr, env: SpecSEnv)
    ensures
        !not_ground_error(spec_seval(d, e, env)),
    decreases d, 0nat,
{
    if d > 0 {
        let a = (d - 1) as nat;
        match e {
            SpecExpr::LetIn { name, ty, value, body } => {
                law_seval_never_non_ground(a, *value, env);
                if let Ok(v) = spec_seval(a, *value, env) {
                    law_seval_never_non_ground(a, *body, env_insert(env, name, v));
                }
            },
            SpecExpr::If { cond, then_br, else_br } => {
                law_seval_never_non_ground(a, *cond, env);
                law_seval_never_non_ground(a, *then_br, env);
                law_seval_never_non_ground(a, *else_br, env);
            },
            SpecExpr::Lambda { .. } => {},
            SpecExpr::App { head, args } => {
                law_seval_never_non_ground(a, *head, env);
                if let Ok(f) = spec_seval(a, *head, env) {
                    lemma_sapp_never_non_ground(a, f, args, env);
                }
            },
            SpecExpr::Atom(at) => lemma_seval_atom_never_non_ground(a, at, env),
        }
    }
}

proof fn lemma_sapp_never_non_ground(d: nat, f: SpecSValue, args: Seq<SpecExpr>, env: SpecSEnv)
    ensures
        !not_ground_error(spec_sapp(d, f, args, env)),
    decreases d, args.len() + 2,
{
    if args.len() > 0 {
        lemma_sapp_never_non_ground(d, f, args.drop_last(), env);
        if let Ok(g) = spec_sapp(d, f, args.drop_last(), env) {
            law_seval_never_non_ground(d, args.last(), env);
            if let Ok(x) = spec_seval(d, args.last(), env) {
                lemma_apply_one_never_non_ground(d, g, x);
            }
        }
    }
}

proof fn lemma_apply_one_never_non_ground(d: nat, f: SpecSValue, arg: SpecSValue)
    ensures
        !not_ground_error(spec_apply_one(d, f, arg)),
    decreases d, 1nat,
{
    if let SpecSValue::Closure { param, body, env } = f {
        law_seval_never_non_ground(d, body, env_insert(env, param, arg));
    }
}

proof fn lemma_seval_list_never_non_ground(d: nat, es: Seq<SpecExpr>, env: SpecSEnv)
    ensures
        !not_ground_error(spec_seval_list(d, es, env)),
    decreases d, es.len(),
{
    if es.len() > 0 {
        lemma_seval_list_never_non_ground(d, es.drop_last(), env);
        law_seval_never_non_ground(d, es.last(), env);
    }
}

proof fn lemma_seval_stmts_never_non_ground(d: nat, stmts: Seq<SpecStmt>, i: int, env: SpecSEnv, fin: SpecExpr)
    ensures
        !not_ground_error(spec_seval_stmts(d, stmts, i, env, fin)),
    decreases d, (if 0 <= i < stmts.len() { stmts.len() - i } else { 0 }) + 1,
{
    if i < 0 || i >= stmts.len() {
        law_seval_never_non_ground(d, fin, env);
    } else {
        match stmts[i] {
            SpecStmt::Let { name, ty, value } => {
                law_seval_never_non_ground(d, value, env);
                if let Ok(v) = spec_seval(d, value, env) {
                    lemma_seval_stmts_never_non_ground(d, stmts, i + 1, env_insert(env, name, v), fin);
                }
            },
            SpecStmt::Rebind { name, value } => {
                law_seval_never_non_ground(d, value, env);
                if let Ok(v) = spec_seval(d, value, env) {
                    lemma_seval_stmts_never_non_ground(d, stmts, i + 1, env_insert(env, name, v), fin);
                }
            },
            SpecStmt::Expr { expr } => {
                law_seval_never_non_ground(d, expr, env);
                lemma_seval_stmts_never_non_ground(d, stmts, i + 1, env, fin);
            },
        }
    }
}

proof fn lemma_sproject_never_non_ground(v: SpecSValue, projs: Seq<usize>)
    ensures
        !not_ground_error(spec_sproject(v, projs)),
    decreases projs.len(),
{
    if projs.len() > 0 {
        if let SpecSValue::Tuple(elems) = v {
            if 1 <= projs[0] && projs[0] - 1 < elems.len() {
                lemma_sproject_never_non_ground(elems[projs[0] - 1], projs.drop_first());
            }
        }
    }
}

proof fn lemma_seval_atom_never_non_ground(d: nat, a: SpecAtom, env: SpecSEnv)
    ensures
        !not_ground_error(spec_seval_atom(d, a, env)),
    decreases d, atom_measure(a),
{
    match a.base {
        SpecAtomBase::Tuple(xs) => lemma_seval_list_never_non_ground(d, xs, env),
        SpecAtomBase::Paren(e) => law_seval_never_non_ground(d, *e, env),
        SpecAtomBase::Block(b) => lemma_seval_stmts_never_non_ground(d, b.stmts, 0, env, b.expr),
        _ => {},
    }
    let base = match a.base {
        SpecAtomBase::Lit(l) => Ok(lit_svalue(l)),
        SpecAtomBase::Var(x) => match env_lookup(env, x) {
            Some(v) => Ok(v),
            None => Err(SpecSurfaceEvalError::UnboundVariable(x)),
        },
        SpecAtomBase::Tuple(xs) => match spec_seval_list(d, xs, env) {
            Err(x) => Err(x),
            Ok(vs) => Ok(SpecSValue::Tuple(vs)),
        },
        SpecAtomBase::Paren(e) => spec_seval(d, *e, env),
        SpecAtomBase::Block(b) => spec_seval_block(d, *b, env),
    };
    if let Ok(v) = base {
        lemma_sproject_never_non_ground(v, a.projs);
    }
}

/// A literal denotes itself: at every depth, in every environment, the atom
/// of a literal without projections evaluates to the integer, boolean or
/// unit that the literal writes.
pub proof fn law_seval_literal(d: nat, l: Lit, env: SpecSEnv)
    requires
        d >= 1,
    ensures
        spec_seval(d, SpecExpr::Atom(SpecAtom { base: SpecAtomBase::Lit(l), projs: Seq::empty() }), env)
            == Ok::<SpecSValue, SpecSurfaceEvalError>(match l {
                Lit::Int(n) => SpecSValue::Int(n),
                Lit::Bool(b) => SpecSValue::Bool(b),
                Lit::Unit => SpecSValue::Unit,
            }),
{
    let a = SpecAtom { base: SpecAtomBase::Lit(l), projs: Seq::empty() };
    assert(spec_seval_atom((d - 1) as nat, a, env) == spec_sproject(lit_svalue(l), Seq::empty()));
}

/// `let name = value in body` evaluates `value`, then `body` with `name`
/// bound to its value, whether or not `name` was bound before; the type
/// annotation plays no part.
pub proof fn law_seval_let_in(d: nat, name: Seq<char>, ty: SpecType, value: SpecExpr, body: SpecExpr, env: SpecSEnv)
    requires
        !ran_out_s(spec_seval(d, SpecExpr::LetIn { name, ty, value: Box::new(value), body: Box::new(body) }, env)),
    ensures
        spec_seval(d, SpecExpr::LetIn { name, ty, value: Box::new(value), body: Box::new(body) }, env)
            == match spec_seval(d, value, env) {
                Err(x) => Err(x),
                Ok(w) => spec_seval(d, body, env_insert(env, name, w)),
            },
        spec_seval(d, value, env) matches Ok(w) ==> env_lookup(env_insert(env, name, w), name) == Some(w),
{
    let a = (d - 1) as nat;
    lemma_seval_depth_independent(a, d, value, env);
    if let Ok(w) = spec_seval(a, value, env) {
        lemma_seval_depth_independent(a, d, body, env_insert(env, name, w));
        lemma_env_insert_lookup(env, name, w, name);
    }
}

/// The values of a list of expressions: all of them when every argument evaluates, in
/// order; otherwise the first error.
pub proof fn law_seval_list(d: nat, es: Seq<SpecExpr>, env: SpecSEnv)
    ensures
        spec_seval_list(d, es, env) is Ok <==> forall|i: int| 0 <= i < es.len() ==> #[trigger] spec_seval(d, es[i], env) is Ok,
        spec_seval_list(d, es, env) matches Ok(vs) ==> {
            &&& vs.len() == es.len()
            &&& forall|i: int| 0 <= i < es.len() ==> spec_seval(d, es[i], env) == Ok::<SpecSValue, SpecSurfaceEvalError>(#[trigger] vs[i])
        },
        spec_seval_list(d, es, env) matches Err(x) ==> exists|i: int| 0 <= i < es.len()
            && #[trigger] spec_seval(d, es[i], env) == Err::<SpecSValue, SpecSurfaceEvalError>(x)
            && forall|j: int| 0 <= j < i ==> spec_seval(d, es[j], env) is Ok,
    decreases es.len(),
{
    if es.len() > 0 {
        let pre = es.drop_last();
        law_seval_list(d, pre, env);
        assert forall|i: int| 0 <= i < pre.len() implies pre[i] == es[i] by {}
        match spec_seval_list(d, pre, env) {
            Err(x) => {
                let w = choose|i: int| 0 <= i < pre.len()
                    && #[trigger] spec_seval(d, pre[i], env) == Err::<SpecSValue, SpecSurfaceEvalError>(x)
                    && forall|j: int| 0 <= j < i ==> spec_seval(d, pre[j], env) is Ok;
                assert(spec_seval(d, es[w], env) == Err::<SpecSValue, SpecSurfaceEvalError>(x));
                assert forall|j: int| 0 <= j < w implies spec_seval(d, es[j], env) is Ok by {
                    assert(spec_seval(d, pre[j], env) is Ok);
                }
            },
            Ok(vs) => {
                let n = es.len() - 1;
                assert(es.last() == es[n]);
                match spec_seval(d, es[n], env) {
                    Err(x) => {
                        assert forall|j: int| 0 <= j < n implies spec_seval(d, es[j], env) is Ok by {
                            assert(spec_seval(d, pre[j], env) is Ok);
                        }
                    },
                    Ok(v) => {
                        let ws = vs.push(v);
                        assert forall|i: int| 0 <= i < es.len() implies spec_seval(d, es[i], env) == Ok::<SpecSValue, SpecSurfaceEvalError>(#[trigger] ws[i]) by {
                            if i < n {
                                assert(spec_seval(d, pre[i], env) == Ok::<SpecSValue, SpecSurfaceEvalError>(vs[i]));
                            }
                        }
                    },
                }
            },
        }
    }
}

/// A variable evaluates to the value the environment binds it to, and is
/// an error when unbound.
pub proof fn law_seval_var(d: nat, x: Seq<char>, env: SpecSEnv)
    requires
        d >= 1,
    ensures
        spec_seval(d, SpecExpr::Atom(SpecAtom { base: SpecAtomBase::Var(x), projs: Seq::empty() }), env)
            == match env_lookup(env, x) {
                Some(v) => Ok(v),
                None => Err(SpecSurfaceEvalError::UnboundVariable(x)),
            },
{
    let a = SpecAtom { base: SpecAtomBase::Var(x), projs: Seq::empty() };
    let r = spec_seval_atom((d - 1) as nat, a, env);
    if let Some(v) = env_lookup(env, x) {
        assert(spec_sproject(v, Seq::empty()) == Ok::<SpecSValue, SpecSurfaceEvalError>(v));
    }
}

/// A lambda evaluates, without evaluating its body, to a closure over the
/// current environment.
pub proof fn law_seval_lambda(d: nat, param: crate::ast::SpecParam, body: SpecExpr, env: SpecSEnv)
    requires
        d >= 1,
    ensures
        spec_seval(d, SpecExpr::Lambda { param, body: Box::new(body) }, env)
            == Ok::<SpecSValue, SpecSurfaceEvalError>(SpecSValue::Closure { param: param.name, body, env }),
{
}

/// A tuple evaluates its elements left to right in the same environment and
/// holds their values in order; the first error is the result.
pub proof fn law_seval_tuple(d: nat, xs: Seq<SpecExpr>, env: SpecSEnv)
    requires
        d >= 1,
    ensures
        spec_seval(d, SpecExpr::Atom(SpecAtom { base: SpecAtomBase::Tuple(xs), projs: Seq::empty() }), env)
            is Ok <==> forall|i: int| 0 <= i < xs.len() ==> #[trigger] spec_seval((d - 1) as nat, xs[i], env) is Ok,
        spec_seval(d, SpecExpr::Atom(SpecAtom { base: SpecAtomBase::Tuple(xs), projs: Seq::empty() }), env)
            matches Ok(v) ==> v matches SpecSValue::Tuple(vs) && vs.len() == xs.len()
                && forall|i: int| 0 <= i < xs.len() ==> spec_seval((d - 1) as nat, xs[i], env) == Ok::<SpecSValue, SpecSurfaceEvalError>(#[trigger] vs[i]),
{
    let a = (d - 1) as nat;
    let at = SpecAtom { base: SpecAtomBase::Tuple(xs), projs: Seq::empty() };
    law_seval_list(a, xs, env);
    assert(spec_seval(d, SpecExpr::Atom(at), env) == spec_seval_atom(a, at, env));
    match spec_seval_list(a, xs, env) {
        Ok(vs) => {
            assert(spec_sproject(SpecSValue::Tuple(vs), Seq::empty()) == Ok::<SpecSValue, SpecSurfaceEvalError>(SpecSValue::Tuple(vs)));
            assert(spec_seval_atom(a, at, env) == Ok::<SpecSValue, SpecSurfaceEvalError>(SpecSValue::Tuple(vs)));
        },
        Err(x) => {
            assert(spec_seval_atom(a, at, env) == Err::<SpecSValue, SpecSurfaceEvalError>(x));
        },
    }
}

/// A projection `.k` of a tuple is its `k`-th element, counted from 1; on
/// anything else, or with `k` outside `1..=len`, it is `InvalidProjection`.
pub proof fn law_sproject_one(v: SpecSValue, k: usize)
    ensures
        spec_sproject(v, seq![k]) == match v {
            SpecSValue::Tuple(es) => if 1 <= k <= es.len() {
                Ok(es[k - 1])
            } else {
                Err(SpecSurfaceEvalError::InvalidProjection)
            },
            _ => Err(SpecSurfaceEvalError::InvalidProjection),
        },
{
    if let SpecSValue::Tuple(es) = v {
        if 1 <= k <= es.len() {
            assert(seq![k].drop_first() =~= Seq::<usize>::empty());
            assert(spec_sproject(es[k - 1], Seq::<usize>::empty()) == Ok::<SpecSValue, SpecSurfaceEvalError>(es[k - 1]));
        }
    }
}

/// The conversions keep every integer, boolean and unit as it is, and
/// convert a tuple element by element, in order.
pub proof fn law_conversions_keep_contents(v: SpecValue, sv: SpecSValue)
    ensures
        v matches SpecValue::Int(n) ==> spec_svalue_of(v) == Some(SpecSValue::Int(n)),
        v matches SpecValue::Bool(b) ==> spec_svalue_of(v) == Some(SpecSValue::Bool(b)),
        v is Unit ==> spec_svalue_of(v) == Some(SpecSValue::Unit),
        sv matches SpecSValue::Int(n) ==> spec_value_of(sv) == Some(SpecValue::Int(n)),
        sv matches SpecSValue::Bool(b) ==> spec_value_of(sv) == Some(SpecValue::Bool(b)),
        sv is Unit ==> spec_value_of(sv) == Some(SpecValue::Unit),
        v matches SpecValue::Tuple(xs) ==> (spec_svalue_of(v) matches Some(t) ==> t matches SpecSValue::Tuple(ys)
            && ys.len() == xs.len() && forall|i: int| 0 <= i < xs.len() ==> spec_svalue_of(xs[i]) == Some(#[trigger] ys[i])),
        sv matches SpecSValue::Tuple(xs) ==> (spec_value_of(sv) matches Some(t) ==> t matches SpecValue::Tuple(ys)
            && ys.len() == xs.len() && forall|i: int| 0 <= i < xs.len() ==> spec_value_of(xs[i]) == Some(#[trigger] ys[i])),
{
    if let SpecValue::Tuple(xs) = v {
        lemma_svalues_of_elements(xs);
    }
    if let SpecSValue::Tuple(xs) = sv {
        lemma_values_of_elements(xs);
    }
}

proof fn lemma_svalues_of_elements(xs: Seq<SpecValue>)
    ensures
        spec_svalues_of(xs) matches Some(ys) ==> ys.len() == xs.len()
            && forall|i: int| 0 <= i < xs.len() ==> spec_svalue_of(xs[i]) == Some(#[trigger] ys[i]),
    decreases xs.len(),
{
    if xs.len() > 0 {
        let pre = xs.drop_last();
        lemma_svalues_of_elements(pre);
        if let Some(ys) = spec_svalues_of(xs) {
            let yp = spec_svalues_of(pre)->Some_0;
            assert forall|i: int| 0 <= i < xs.len() implies spec_svalue_of(xs[i]) == Some(#[trigger] ys[i]) by {
                if i < pre.len() {
                    assert(pre[i] == xs[i]);
                    assert(ys[i] == yp[i]);
                }
            }
        }
    }
}

proof fn lemma_values_of_elements(xs: Seq<SpecSValue>)
    ensures
        spec_values_of(xs) matches Some(ys) ==> ys.len() == xs.len()
            && forall|i: int| 0 <= i < xs.len() ==> spec_value_of(xs[i]) == Some(#[trigger] ys[i]),
    decreases xs.len(),
{
    if xs.len() > 0 {
        let pre = xs.drop_last();
        lemma_values_of_elements(pre);
        if let Some(ys) = spec_values_of(xs) {
            let yp = spec_values_of(pre)->Some_0;
            assert forall|i: int| 0 <= i < xs.len() implies spec_value_of(xs[i]) == Some(#[trigger] ys[i]) by {
                if i < pre.len() {
                    assert(pre[i] == xs[i]);
                    assert(ys[i] == yp[i]);
                }
            }
        }
    }
}

} // verus!
