//! Big-step evaluator for the core language.
//!
//! Evaluation is bounded by a nesting depth: every evaluation of a
//! sub-expression, and every call of a closure body, goes one level
//! deeper. A program that needs more levels than it is given yields
//! `EvalError::DepthLimitExceeded`; on every other outcome the result
//! does not depend on the bound (see `lemma_eval_depth_independent`).
//! `eval` allows the largest `u64` of levels, more than any stack holds.
use vstd::prelude::*;

use crate::ast::{Lit, SpecType};
use crate::core_ast::{
    CoreAtom, CoreAtomBase, CoreExpr, SpecCoreAtom, SpecCoreAtomBase, SpecCoreExpr, view_core_atom,
    view_core_expr, view_core_exprs,
};
use crate::value::{Env, SpecEnv, SpecValue, Value, env_insert, env_lookup, view_values};

verus! {

/// The nesting depth that `eval` allows: the largest `u64`, so that in
/// practice only the machine's stack limits the nesting of an evaluation.
pub const EVAL_DEPTH_LIMIT: u64 = 18_446_744_073_709_551_615;

#[derive(Debug, PartialEq, Eq)]
pub enum EvalError {
    UnboundVariable(String),
    TypeError(String),
    NotAFunction(Value),
    InvalidProjection,
    NonBoolCondition,
    DepthLimitExceeded,
}

pub enum SpecEvalError {
    UnboundVariable(Seq<char>),
    TypeError(Seq<char>),
    NotAFunction(SpecValue),
    InvalidProjection,
    NonBoolCondition,
    DepthLimitExceeded,
}

pub open spec fn view_eval_error(e: EvalError) -> SpecEvalError {
    match e {
        EvalError::UnboundVariable(s) => SpecEvalError::UnboundVariable(s@),
        EvalError::TypeError(s) => SpecEvalError::TypeError(s@),
        EvalError::NotAFunction(v) => SpecEvalError::NotAFunction(v@),
        EvalError::InvalidProjection => SpecEvalError::InvalidProjection,
        EvalError::NonBoolCondition => SpecEvalError::NonBoolCondition,
        EvalError::DepthLimitExceeded => SpecEvalError::DepthLimitExceeded,
    }
}

impl Clone for EvalError {
    fn clone(&self) -> (r: EvalError)
        ensures
            r@ == self@,
    {
        match self {
            EvalError::UnboundVariable(x) => EvalError::UnboundVariable(x.clone()),
            EvalError::TypeError(x) => EvalError::TypeError(x.clone()),
            EvalError::NotAFunction(v) => EvalError::NotAFunction(v.copy()),
            EvalError::InvalidProjection => EvalError::InvalidProjection,
            EvalError::NonBoolCondition => EvalError::NonBoolCondition,
            EvalError::DepthLimitExceeded => EvalError::DepthLimitExceeded,
        }
    }
}

impl View for EvalError {
    type V = SpecEvalError;
    open spec fn view(&self) -> SpecEvalError { view_eval_error(*self) }
}

pub open spec fn view_eval_result(r: Result<Value, EvalError>) -> Result<SpecValue, SpecEvalError> {
    match r {
        Ok(v) => Ok(v@),
        Err(e) => Err(e@),
    }
}

pub open spec fn view_list_result(r: Result<Vec<Value>, EvalError>) -> Result<Seq<SpecValue>, SpecEvalError> {
    match r {
        Ok(vs) => Ok(view_values(vs@)),
        Err(e) => Err(e@),
    }
}

// ------------------------------------------------------------
// Semantics
// ------------------------------------------------------------

pub open spec fn lit_value(l: Lit) -> SpecValue {
    match l {
        Lit::Int(n) => SpecValue::Int(n),
        Lit::Bool(b) => SpecValue::Bool(b),
        Lit::Unit => SpecValue::Unit,
    }
}

/// The value of `e` in `env`, evaluated with at most `depth` nested levels.
pub open spec fn spec_eval(depth: nat, e: SpecCoreExpr, env: SpecEnv) -> Result<SpecValue, SpecEvalError>
    decreases depth, 0nat,
{
    if depth == 0 {
        Err(SpecEvalError::DepthLimitExceeded)
    } else {
        let d = (depth - 1) as nat;
        match e {
            SpecCoreExpr::Sequence { first, then } => match spec_eval(d, *first, env) {
                Err(x) => Err(x),
                Ok(_) => spec_eval(d, *then, env),
            },
            SpecCoreExpr::LetIn { name, ty, value, body } => match spec_eval(d, *value, env) {
                Err(x) => Err(x),
                Ok(v) => spec_eval(d, *body, env_insert(env, name, v)),
            },
            SpecCoreExpr::If { cond, then_br, else_br } => match spec_eval(d, *cond, env) {
                Err(x) => Err(x),
                Ok(SpecValue::Bool(true)) => spec_eval(d, *then_br, env),
                Ok(SpecValue::Bool(false)) => spec_eval(d, *else_br, env),
                Ok(_) => Err(SpecEvalError::NonBoolCondition),
            },
            SpecCoreExpr::Lambda { param, body } => Ok(SpecValue::Closure { param: param.name, body: *body, env }),
            SpecCoreExpr::App { head, args } => match spec_eval(d, *head, env) {
                Err(x) => Err(x),
                Ok(f) => match spec_eval_list(d, args, env) {
                    Err(x) => Err(x),
                    Ok(vs) => spec_apply(d, f, vs),
                },
            },
            SpecCoreExpr::Atom(a) => spec_eval_atom(d, a, env),
        }
    }
}

/// The values of `es`, left to right; the first error stops the evaluation.
pub open spec fn spec_eval_list(depth: nat, es: Seq<SpecCoreExpr>, env: SpecEnv) -> Result<Seq<SpecValue>, SpecEvalError>
    decreases depth, es.len(),
{
    if es.len() == 0 {
        Ok(Seq::empty())
    } else {
        match spec_eval_list(depth, es.drop_last(), env) {
            Err(x) => Err(x),
            Ok(vs) => match spec_eval(depth, es.last(), env) {
                Err(x) => Err(x),
                Ok(v) => Ok(vs.push(v)),
            },
        }
    }
}

/// `f` applied to the arguments one at a time.
pub open spec fn spec_apply(depth: nat, f: SpecValue, args: Seq<SpecValue>) -> Result<SpecValue, SpecEvalError>
    decreases depth, args.len() + 1,
{
    if args.len() == 0 {
        Ok(f)
    } else {
        match f {
            SpecValue::Closure { param, body, env } => match spec_eval(depth, body, env_insert(env, param, args[0])) {
                Err(x) => Err(x),
                Ok(r) => spec_apply(depth, r, args.drop_first()),
            },
            _ => Err(SpecEvalError::NotAFunction(f)),
        }
    }
}

pub open spec fn core_atom_measure(a: SpecCoreAtom) -> nat {
    match a.base {
        SpecCoreAtomBase::Tuple(xs) => xs.len() + 1,
        _ => 1,
    }
}

pub open spec fn spec_eval_atom(depth: nat, a: SpecCoreAtom, env: SpecEnv) -> Result<SpecValue, SpecEvalError>
    decreases depth, core_atom_measure(a),
{
    let base = match a.base {
        SpecCoreAtomBase::Lit(l) => Ok(lit_value(l)),
        SpecCoreAtomBase::Var(x) => match env_lookup(env, x) {
            Some(v) => Ok(v),
            None => Err(SpecEvalError::UnboundVariable(x)),
        },
        SpecCoreAtomBase::Tuple(xs) => match spec_eval_list(depth, xs, env) {
            Err(x) => Err(x),
            Ok(vs) => Ok(SpecValue::Tuple(vs)),
        },
        SpecCoreAtomBase::Paren(e) => spec_eval(depth, *e, env),
    };
    match base {
        Err(x) => Err(x),
        Ok(v) => spec_project(v, a.projs),
    }
}

/// Applies the 1-based tuple projections, left to right.
pub open spec fn spec_project(v: SpecValue, projs: Seq<usize>) -> Result<SpecValue, SpecEvalError>
    decreases projs.len(),
{
    if projs.len() == 0 {
        Ok(v)
    } else {
        match v {
            SpecValue::Tuple(elems) => if 1 <= projs[0] && projs[0] - 1 < elems.len() {
                spec_project(elems[projs[0] - 1], projs.drop_first())
            } else {
                Err(SpecEvalError::InvalidProjection)
            },
            _ => Err(SpecEvalError::InvalidProjection),
        }
    }
}

// ------------------------------------------------------------
// Evaluator
// ------------------------------------------------------------

/// Evaluates `expr` in `env`, nesting at most `EVAL_DEPTH_LIMIT` levels.
pub fn eval(expr: &CoreExpr, env: &Env) -> (r: Result<Value, EvalError>)
    ensures
        view_eval_result(r) == spec_eval(EVAL_DEPTH_LIMIT as nat, expr@, env@),
{
    eval_bounded(expr, env, EVAL_DEPTH_LIMIT)
}

/// Evaluates `expr` in `env`, nesting at most `depth` levels.
pub fn eval_bounded(expr: &CoreExpr, env: &Env, depth: u64) -> (r: Result<Value, EvalError>)
    ensures
        view_eval_result(r) == spec_eval(depth as nat, expr@, env@),
    decreases depth, 0nat,
{
    if depth == 0 {
        return Err(EvalError::DepthLimitExceeded);
    }
    let d = depth - 1;
    match expr {
        CoreExpr::Sequence { first, then } => {
            match eval_bounded(first, env, d) {
                Err(x) => Err(x),
                Ok(_) => eval_bounded(then, env, d),
            }
        },
        CoreExpr::LetIn { name, value, body, .. } => {
            match eval_bounded(value, env, d) {
                Err(x) => Err(x),
                Ok(v) => {
                    let mut new_env = env.copy();
                    new_env.insert(name.0.clone(), v);
                    eval_bounded(body, &new_env, d)
                },
            }
        },
        CoreExpr::If { cond, then_br, else_br } => {
            match eval_bounded(cond, env, d) {
                Err(x) => Err(x),
                Ok(Value::Bool(true)) => eval_bounded(then_br, env, d),
                Ok(Value::Bool(false)) => eval_bounded(else_br, env, d),
                Ok(_) => Err(EvalError::NonBoolCondition),
            }
        },
        CoreExpr::Lambda { param, body } => {
            Ok(Value::Closure { param: param.name.copy(), body: body.copy(), env: env.copy() })
        },
        CoreExpr::App { head, args } => {
            match eval_bounded(head, env, d) {
                Err(x) => Err(x),
                Ok(func) => match eval_list(args, env, d) {
                    Err(x) => Err(x),
                    Ok(vals) => apply(func, vals, d),
                },
            }
        },
        CoreExpr::Atom(a) => eval_atom(a, env, d),
    }
}

fn eval_list(es: &Vec<CoreExpr>, env: &Env, depth: u64) -> (r: Result<Vec<Value>, EvalError>)
    ensures
        view_list_result(r) == spec_eval_list(depth as nat, view_core_exprs(es@), env@),
    decreases depth, es@.len(),
{
    let ghost ves = view_core_exprs(es@);
    let mut out: Vec<Value> = Vec::new();
    let mut i: usize = 0;
    assert(ves.take(0) =~= Seq::<SpecCoreExpr>::empty());
    assert(view_values(out@) =~= Seq::<SpecValue>::empty());
    while i < es.len()
        invariant
            i <= es@.len(),
            ves == view_core_exprs(es@),
            spec_eval_list(depth as nat, ves.take(i as int), env@) == Ok::<Seq<SpecValue>, SpecEvalError>(view_values(out@)),
        decreases es@.len() - i,
    {
        let ghost pre = out@;
        assert(ves.take(i + 1).drop_last() =~= ves.take(i as int));
        assert(ves.take(i + 1).last() == view_core_expr(es@[i as int]));
        match eval_bounded(&es[i], env, depth) {
            Err(x) => {
                proof {
                    lemma_eval_list_prefix_err(depth as nat, ves, env@, i as int + 1);
                }
                return Err(x);
            },
            Ok(v) => {
                out.push(v);
                proof {
                    assert(view_values(out@) =~= view_values(pre).push(v@));
                }
            },
        }
        i = i + 1;
    }
    assert(ves.take(es@.len() as int) =~= ves);
    Ok(out)
}

/// An error in a prefix of the list is the error of the whole list.
proof fn lemma_eval_list_prefix_err(depth: nat, es: Seq<SpecCoreExpr>, env: SpecEnv, n: int)
    requires
        0 <= n <= es.len(),
        spec_eval_list(depth, es.take(n), env) is Err,
    ensures
        spec_eval_list(depth, es, env) == spec_eval_list(depth, es.take(n), env),
    decreases es.len() - n,
{
    if n < es.len() {
        assert(es.take(n + 1).drop_last() =~= es.take(n));
        lemma_eval_list_prefix_err(depth, es, env, n + 1);
    } else {
        assert(es.take(n) =~= es);
    }
}

fn apply(func: Value, args: Vec<Value>, depth: u64) -> (r: Result<Value, EvalError>)
    ensures
        view_eval_result(r) == spec_apply(depth as nat, func@, view_values(args@)),
    decreases depth, args@.len() + 1,
{
    let ghost goal = spec_apply(depth as nat, func@, view_values(args@));
    let mut f = func;
    let mut rest = args;
    while rest.len() > 0
        invariant
            goal == spec_apply(depth as nat, func@, view_values(args@)),
            goal == spec_apply(depth as nat, f@, view_values(rest@)),
        decreases rest@.len(),
    {
        let ghost old_rest = rest@;
        let arg = rest.remove(0);
        assert(view_values(old_rest)[0] == arg@);
        assert(view_values(rest@) =~= view_values(old_rest).drop_first());
        match f {
            Value::Closure { param, body, env } => {
                let mut new_env = env;
                new_env.insert(param.0, arg);
                match eval_bounded(&body, &new_env, depth) {
                    Err(x) => return Err(x),
                    Ok(r) => {
                        f = r;
                    },
                }
            },
            _ => return Err(EvalError::NotAFunction(f)),
        }
    }
    Ok(f)
}

fn eval_atom(atom: &CoreAtom, env: &Env, depth: u64) -> (r: Result<Value, EvalError>)
    ensures
        view_eval_result(r) == spec_eval_atom(depth as nat, view_core_atom(*atom), env@),
    decreases depth, core_atom_measure(view_core_atom(*atom)),
{
    let base = match &atom.base {
        CoreAtomBase::Lit(l) => match l {
            Lit::Int(n) => Value::Int(*n),
            Lit::Bool(b) => Value::Bool(*b),
            Lit::Unit => Value::Unit,
        },
        CoreAtomBase::Var(id) => match env.get(&id.0) {
            Some(v) => v.copy(),
            None => return Err(EvalError::UnboundVariable(id.0.clone())),
        },
        CoreAtomBase::Tuple(xs) => match eval_list(xs, env, depth) {
            Err(x) => return Err(x),
            Ok(vs) => Value::Tuple(vs),
        },
        CoreAtomBase::Paren(e) => match eval_bounded(e, env, depth) {
            Err(x) => return Err(x),
            Ok(v) => v,
        },
    };
    project(base, &atom.projs)
}

fn project(v: Value, projs: &Vec<usize>) -> (r: Result<Value, EvalError>)
    ensures
        view_eval_result(r) == spec_project(v@, projs@),
{
    let mut cur = v;
    let mut i: usize = 0;
    assert(projs@.skip(0) =~= projs@);
    while i < projs.len()
        invariant
            i <= projs@.len(),
            spec_project(v@, projs@) == spec_project(cur@, projs@.skip(i as int)),
        decreases projs@.len() - i,
    {
        let idx = projs[i];
        assert(projs@.skip(i as int)[0] == idx);
        assert(projs@.skip(i as int).drop_first() =~= projs@.skip(i + 1));
        match cur {
            Value::Tuple(elems) => {
                if idx == 0 || idx - 1 >= elems.len() {
                    return Err(EvalError::InvalidProjection);
                }
                let mut elems = elems;
                let picked = elems.swap_remove(idx - 1);
                cur = picked;
            },
            _ => return Err(EvalError::InvalidProjection),
        }
        i = i + 1;
    }
    assert(projs@.skip(projs@.len() as int) =~= Seq::<usize>::empty());
    Ok(cur)
}

// ------------------------------------------------------------
// The depth bound only decides whether evaluation finishes
// ------------------------------------------------------------

pub open spec fn ran_out<T>(r: Result<T, SpecEvalError>) -> bool {
    r matches Err(SpecEvalError::DepthLimitExceeded)
}

/// Once evaluation finishes within a depth bound (with a value or with any
/// error but running out of depth), every larger bound gives the same result.
pub proof fn lemma_eval_depth_independent(d1: nat, d2: nat, e: SpecCoreExpr, env: SpecEnv)
    requires
        d1 <= d2,
        !ran_out(spec_eval(d1, e, env)),
    ensures
        spec_eval(d2, e, env) == spec_eval(d1, e, env),
    decreases d1, 0nat,
{
    if d1 > 0 {
        let a = (d1 - 1) as nat;
        let b = (d2 - 1) as nat;
        match e {
            SpecCoreExpr::Sequence { first, then } => {
                lemma_eval_depth_independent(a, b, *first, env);
                if spec_eval(a, *first, env) is Ok {
                    lemma_eval_depth_independent(a, b, *then, env);
                }
            },
            SpecCoreExpr::LetIn { name, ty, value, body } => {
                lemma_eval_depth_independent(a, b, *value, env);
                if let Ok(v) = spec_eval(a, *value, env) {
                    lemma_eval_depth_independent(a, b, *body, env_insert(env, name, v));
                }
            },
            SpecCoreExpr::If { cond, then_br, else_br } => {
                lemma_eval_depth_independent(a, b, *cond, env);
                match spec_eval(a, *cond, env) {
                    Ok(SpecValue::Bool(true)) => lemma_eval_depth_independent(a, b, *then_br, env),
                    Ok(SpecValue::Bool(false)) => lemma_eval_depth_independent(a, b, *else_br, env),
                    _ => {},
                }
            },
            SpecCoreExpr::Lambda { .. } => {},
            SpecCoreExpr::App { head, args } => {
                lemma_eval_depth_independent(a, b, *head, env);
                if let Ok(f) = spec_eval(a, *head, env) {
                    lemma_eval_list_depth_independent(a, b, args, env);
                    if let Ok(vs) = spec_eval_list(a, args, env) {
                        lemma_apply_depth_independent(a, b, f, vs);
                    }
                }
            },
            SpecCoreExpr::Atom(at) => {
                lemma_eval_atom_depth_independent(a, b, at, env);
            },
        }
    }
}

pub proof fn lemma_eval_list_depth_independent(d1: nat, d2: nat, es: Seq<SpecCoreExpr>, env: SpecEnv)
    requires
        d1 <= d2,
        !ran_out(spec_eval_list(d1, es, env)),
    ensures
        spec_eval_list(d2, es, env) == spec_eval_list(d1, es, env),
    decreases d1, es.len(),
{
    if es.len() > 0 {
        lemma_eval_list_depth_independent(d1, d2, es.drop_last(), env);
        if spec_eval_list(d1, es.drop_last(), env) is Ok {
            lemma_eval_depth_independent(d1, d2, es.last(), env);
        }
    }
}

pub proof fn lemma_apply_depth_independent(d1: nat, d2: nat, f: SpecValue, args: Seq<SpecValue>)
    requires
        d1 <= d2,
        !ran_out(spec_apply(d1, f, args)),
    ensures
        spec_apply(d2, f, args) == spec_apply(d1, f, args),
    decreases d1, args.len() + 1,
{
    if args.len() > 0 {
        if let SpecValue::Closure { param, body, env } = f {
            lemma_eval_depth_independent(d1, d2, body, env_insert(env, param, args[0]));
            if let Ok(r) = spec_eval(d1, body, env_insert(env, param, args[0])) {
                lemma_apply_depth_independent(d1, d2, r, args.drop_first());
            }
        }
    }
}

pub proof fn lemma_eval_atom_depth_independent(d1: nat, d2: nat, a: SpecCoreAtom, env: SpecEnv)
    requires
        d1 <= d2,
        !ran_out(spec_eval_atom(d1, a, env)),
    ensures
        spec_eval_atom(d2, a, env) == spec_eval_atom(d1, a, env),
    decreases d1, core_atom_measure(a),
{
    match a.base {
        SpecCoreAtomBase::Tuple(xs) => {
            lemma_eval_list_depth_independent(d1, d2, xs, env);
        },
        SpecCoreAtomBase::Paren(e) => {
            lemma_eval_depth_independent(d1, d2, *e, env);
        },
        _ => {},
    }
}

// ------------------------------------------------------------
// Equations of the core semantics, within the depth bound
// ------------------------------------------------------------
//
// Each law holds at every depth `d` at which the evaluation on its left
// does not run out of depth; at `EVAL_DEPTH_LIMIT` these are equations of
// `eval` itself.

/// `let name = value in body` evaluates `value`, then `body` with `name`
/// bound to its value; the type annotation plays no part.
pub proof fn law_eval_let_in(d: nat, name: Seq<char>, ty: SpecType, value: SpecCoreExpr, body: SpecCoreExpr, env: SpecEnv)
    requires
        !ran_out(spec_eval(d, SpecCoreExpr::LetIn { name, ty, value: Box::new(value), body: Box::new(body) }, env)),
    ensures
        spec_eval(d, SpecCoreExpr::LetIn { name, ty, value: Box::new(value), body: Box::new(body) }, env)
            == match spec_eval(d, value, env) {
                Err(x) => Err(x),
                Ok(w) => spec_eval(d, body, env_insert(env, name, w)),
            },
{
    let a = (d - 1) as nat;
    lemma_eval_depth_independent(a, d, value, env);
    if let Ok(w) = spec_eval(a, value, env) {
        lemma_eval_depth_independent(a, d, body, env_insert(env, name, w));
    }
}

/// `if` evaluates its condition, then only the branch it selects; a
/// condition that is not a boolean is an error.
pub proof fn law_eval_if(d: nat, cond: SpecCoreExpr, then_br: SpecCoreExpr, else_br: SpecCoreExpr, env: SpecEnv)
    requires
        !ran_out(spec_eval(d, SpecCoreExpr::If { cond: Box::new(cond), then_br: Box::new(then_br), else_br: Box::new(else_br) }, env)),
    ensures
        spec_eval(d, SpecCoreExpr::If { cond: Box::new(cond), then_br: Box::new(then_br), else_br: Box::new(else_br) }, env)
            == match spec_eval(d, cond, env) {
                Err(x) => Err(x),
                Ok(SpecValue::Bool(true)) => spec_eval(d, then_br, env),
                Ok(SpecValue::Bool(false)) => spec_eval(d, else_br, env),
                Ok(_) => Err(SpecEvalError::NonBoolCondition),
            },
{
    let a = (d - 1) as nat;
    lemma_eval_depth_independent(a, d, cond, env);
    match spec_eval(a, cond, env) {
        Ok(SpecValue::Bool(true)) => lemma_eval_depth_independent(a, d, then_br, env),
        Ok(SpecValue::Bool(false)) => lemma_eval_depth_independent(a, d, else_br, env),
        _ => {},
    }
}

/// A sequence evaluates `first`, discards its value, then evaluates `then`
/// in the same environment.
pub proof fn law_eval_sequence(d: nat, first: SpecCoreExpr, then: SpecCoreExpr, env: SpecEnv)
    requires
        !ran_out(spec_eval(d, SpecCoreExpr::Sequence { first: Box::new(first), then: Box::new(then) }, env)),
    ensures
        spec_eval(d, SpecCoreExpr::Sequence { first: Box::new(first), then: Box::new(then) }, env)
            == match spec_eval(d, first, env) {
                Err(x) => Err(x),
                Ok(_) => spec_eval(d, then, env),
            },
{
    let a = (d - 1) as nat;
    lemma_eval_depth_independent(a, d, first, env);
    if spec_eval(a, first, env) is Ok {
        lemma_eval_depth_independent(a, d, then, env);
    }
}

/// An application evaluates its head, then all its arguments in the same
/// environment, then applies; without arguments it is the head's value,
/// closure or not.
pub proof fn law_eval_app(d: nat, head: SpecCoreExpr, args: Seq<SpecCoreExpr>, env: SpecEnv)
    requires
        !ran_out(spec_eval(d, SpecCoreExpr::App { head: Box::new(head), args }, env)),
    ensures
        spec_eval(d, SpecCoreExpr::App { head: Box::new(head), args }, env)
            == match spec_eval(d, head, env) {
                Err(x) => Err(x),
                Ok(f) => match spec_eval_list(d, args, env) {
                    Err(x) => Err(x),
                    Ok(vs) => spec_apply(d, f, vs),
                },
            },
        args.len() == 0 ==> spec_eval(d, SpecCoreExpr::App { head: Box::new(head), args }, env) == spec_eval(d, head, env),
{
    let a = (d - 1) as nat;
    lemma_eval_depth_independent(a, d, head, env);
    if let Ok(f) = spec_eval(a, head, env) {
        lemma_eval_list_depth_independent(a, d, args, env);
        if let Ok(vs) = spec_eval_list(a, args, env) {
            lemma_apply_depth_independent(a, d, f, vs);
        }
    }
}

/// The arguments' values: all of them when every argument evaluates, in
/// order; otherwise the first error.
pub proof fn law_eval_list(d: nat, es: Seq<SpecCoreExpr>, env: SpecEnv)
    ensures
        spec_eval_list(d, es, env) is Ok <==> forall|i: int| 0 <= i < es.len() ==> #[trigger] spec_eval(d, es[i], env) is Ok,
        spec_eval_list(d, es, env) matches Ok(vs) ==> {
            &&& vs.len() == es.len()
            &&& forall|i: int| 0 <= i < es.len() ==> spec_eval(d, es[i], env) == Ok::<SpecValue, SpecEvalError>(#[trigger] vs[i])
        },
        spec_eval_list(d, es, env) matches Err(x) ==> exists|i: int| 0 <= i < es.len()
            && #[trigger] spec_eval(d, es[i], env) == Err::<SpecValue, SpecEvalError>(x)
            && forall|j: int| 0 <= j < i ==> spec_eval(d, es[j], env) is Ok,
    decreases es.len(),
{
    if es.len() > 0 {
        let pre = es.drop_last();
        law_eval_list(d, pre, env);
        assert forall|i: int| 0 <= i < pre.len() implies pre[i] == es[i] by {}
        match spec_eval_list(d, pre, env) {
            Err(x) => {
                let w = choose|i: int| 0 <= i < pre.len()
                    && #[trigger] spec_eval(d, pre[i], env) == Err::<SpecValue, SpecEvalError>(x)
                    && forall|j: int| 0 <= j < i ==> spec_eval(d, pre[j], env) is Ok;
                assert(spec_eval(d, es[w], env) == Err::<SpecValue, SpecEvalError>(x));
                assert forall|j: int| 0 <= j < w implies spec_eval(d, es[j], env) is Ok by {
                    assert(spec_eval(d, pre[j], env) is Ok);
                }
            },
            Ok(vs) => {
                let n = es.len() - 1;
                assert(es.last() == es[n]);
                match spec_eval(d, es[n], env) {
                    Err(x) => {
                        assert forall|j: int| 0 <= j < n implies spec_eval(d, es[j], env) is Ok by {
                            assert(spec_eval(d, pre[j], env) is Ok);
                        }
                    },
                    Ok(v) => {
                        let ws = vs.push(v);
                        assert forall|i: int| 0 <= i < es.len() implies spec_eval(d, es[i], env) == Ok::<SpecValue, SpecEvalError>(#[trigger] ws[i]) by {
                            if i < n {
                                assert(spec_eval(d, pre[i], env) == Ok::<SpecValue, SpecEvalError>(vs[i]));
                            }
                        }
                    },
                }
            },
        }
    }
}

/// Application one argument at a time: no arguments give the function
/// itself; a value that is not a closure cannot take an argument; a
/// closure evaluates its body over its captured environment with the
/// parameter bound to the first argument, and the result takes the rest.
pub proof fn law_apply(d: nat, f: SpecValue, args: Seq<SpecValue>)
    ensures
        args.len() == 0 ==> spec_apply(d, f, args) == Ok::<SpecValue, SpecEvalError>(f),
        args.len() > 0 && !(f is Closure) ==> spec_apply(d, f, args) == Err::<SpecValue, SpecEvalError>(SpecEvalError::NotAFunction(f)),
        args.len() > 0 ==> (f matches SpecValue::Closure { param, body, env } ==> spec_apply(d, f, args)
            == match spec_eval(d, body, env_insert(env, param, args[0])) {
                Err(x) => Err(x),
                Ok(g) => spec_apply(d, g, args.drop_first()),
            }),
{
}

/// Application is curried: applying to `xs + ys` applies to `xs`, then the
/// result to `ys`; an error on `xs` is the result.
pub proof fn law_apply_split(d: nat, f: SpecValue, xs: Seq<SpecValue>, ys: Seq<SpecValue>)
    ensures
        spec_apply(d, f, xs + ys) == match spec_apply(d, f, xs) {
            Err(x) => Err(x),
            Ok(g) => spec_apply(d, g, ys),
        },
    decreases xs.len(),
{
    if xs.len() == 0 {
        assert(xs + ys =~= ys);
    } else {
        assert((xs + ys)[0] == xs[0]);
        assert((xs + ys).drop_first() =~= xs.drop_first() + ys);
        if let SpecValue::Closure { param, body, env } = f {
            if let Ok(g) = spec_eval(d, body, env_insert(env, param, xs[0])) {
                law_apply_split(d, g, xs.drop_first(), ys);
            }
        }
    }
}

/// Projections come after the base of an atom: the atom's value is its
/// base's value, projected.
pub proof fn law_eval_atom_projections(d: nat, a: SpecCoreAtom, env: SpecEnv)
    ensures
        spec_eval_atom(d, a, env) == match spec_eval_atom(d, SpecCoreAtom { base: a.base, projs: Seq::empty() }, env) {
            Err(x) => Err(x),
            Ok(v) => spec_project(v, a.projs),
        },
{
    assert(core_atom_measure(SpecCoreAtom { base: a.base, projs: Seq::empty() }) == core_atom_measure(a));
}

/// Projections apply left to right; each picks the 1-based element of a
/// tuple, and every failure is `InvalidProjection`.
pub proof fn law_project_split(v: SpecValue, p: Seq<usize>, q: Seq<usize>)
    ensures
        spec_project(v, p + q) == match spec_project(v, p) {
            Err(x) => Err(x),
            Ok(w) => spec_project(w, q),
        },
        spec_project(v, p) is Err ==> spec_project(v, p) == Err::<SpecValue, SpecEvalError>(SpecEvalError::InvalidProjection),
    decreases p.len(),
{
    if p.len() == 0 {
        assert(p + q =~= q);
    } else {
        assert((p + q)[0] == p[0]);
        assert((p + q).drop_first() =~= p.drop_first() + q);
        if let SpecValue::Tuple(elems) = v {
            if 1 <= p[0] && p[0] - 1 < elems.len() {
                law_project_split(elems[p[0] - 1], p.drop_first(), q);
            }
        }
    }
}

/// A literal denotes itself: at every depth, in every environment, the atom
/// of a literal without projections evaluates to the integer, boolean or
/// unit that the literal writes.
pub proof fn law_eval_literal(d: nat, l: Lit, env: SpecEnv)
    requires
        d >= 1,
    ensures
        spec_eval(d, SpecCoreExpr::Atom(SpecCoreAtom { base: SpecCoreAtomBase::Lit(l), projs: Seq::empty() }), env)
            == Ok::<SpecValue, SpecEvalError>(match l {
                Lit::Int(n) => SpecValue::Int(n),
                Lit::Bool(b) => SpecValue::Bool(b),
                Lit::Unit => SpecValue::Unit,
            }),
{
    let a = SpecCoreAtom { base: SpecCoreAtomBase::Lit(l), projs: Seq::empty() };
    assert(spec_eval_atom((d - 1) as nat, a, env) == spec_project(lit_value(l), Seq::empty()));
}

/// A variable evaluates to the value the environment binds it to, and is
/// an error when unbound.
pub proof fn law_eval_var(d: nat, x: Seq<char>, env: SpecEnv)
    requires
        d >= 1,
    ensures
        spec_eval(d, SpecCoreExpr::Atom(SpecCoreAtom { base: SpecCoreAtomBase::Var(x), projs: Seq::empty() }), env)
            == match env_lookup(env, x) {
                Some(v) => Ok(v),
                None => Err(SpecEvalError::UnboundVariable(x)),
            },
{
    let a = SpecCoreAtom { base: SpecCoreAtomBase::Var(x), projs: Seq::empty() };
    let r = spec_eval_atom((d - 1) as nat, a, env);
    if let Some(v) = env_lookup(env, x) {
        assert(spec_project(v, Seq::empty()) == Ok::<SpecValue, SpecEvalError>(v));
    }
}

/// A lambda evaluates, without evaluating its body, to a closure over the
/// current environment.
pub proof fn law_eval_lambda(d: nat, param: crate::ast::SpecParam, body: SpecCoreExpr, env: SpecEnv)
    requires
        d >= 1,
    ensures
        spec_eval(d, SpecCoreExpr::Lambda { param, body: Box::new(body) }, env)
            == Ok::<SpecValue, SpecEvalError>(SpecValue::Closure { param: param.name, body, env }),
{
}

/// A tuple evaluates its elements left to right in the same environment and
/// holds their values in order; the first error is the result.
pub proof fn law_eval_tuple(d: nat, xs: Seq<SpecCoreExpr>, env: SpecEnv)
    requires
        d >= 1,
    ensures
        spec_eval(d, SpecCoreExpr::Atom(SpecCoreAtom { base: SpecCoreAtomBase::Tuple(xs), projs: Seq::empty() }), env)
            is Ok <==> forall|i: int| 0 <= i < xs.len() ==> #[trigger] spec_eval((d - 1) as nat, xs[i], env) is Ok,
        spec_eval(d, SpecCoreExpr::Atom(SpecCoreAtom { base: SpecCoreAtomBase::Tuple(xs), projs: Seq::empty() }), env)
            matches Ok(v) ==> v matches SpecValue::Tuple(vs) && vs.len() == xs.len()
                && forall|i: int| 0 <= i < xs.len() ==> spec_eval((d - 1) as nat, xs[i], env) == Ok::<SpecValue, SpecEvalError>(#[trigger] vs[i]),
{
    let a = (d - 1) as nat;
    let at = SpecCoreAtom { base: SpecCoreAtomBase::Tuple(xs), projs: Seq::empty() };
    law_eval_list(a, xs, env);
    assert(spec_eval(d, SpecCoreExpr::Atom(at), env) == spec_eval_atom(a, at, env));
    match spec_eval_list(a, xs, env) {
        Ok(vs) => {
            assert(spec_project(SpecValue::Tuple(vs), Seq::empty()) == Ok::<SpecValue, SpecEvalError>(SpecValue::Tuple(vs)));
            assert(spec_eval_atom(a, at, env) == Ok::<SpecValue, SpecEvalError>(SpecValue::Tuple(vs)));
        },
        Err(x) => {
            assert(spec_eval_atom(a, at, env) == Err::<SpecValue, SpecEvalError>(x));
        },
    }
}

/// A projection `.k` of a tuple is its `k`-th element, counted from 1; on
/// anything else, or with `k` outside `1..=len`, it is `InvalidProjection`.
pub proof fn law_project_one(v: SpecValue, k: usize)
    ensures
        spec_project(v, seq![k]) == match v {
            SpecValue::Tuple(es) => if 1 <= k <= es.len() {
                Ok(es[k - 1])
            } else {
                Err(SpecEvalError::InvalidProjection)
            },
            _ => Err(SpecEvalError::InvalidProjection),
        },
{
    if let SpecValue::Tuple(es) = v {
        if 1 <= k <= es.len() {
            assert(seq![k].drop_first() =~= Seq::<usize>::empty());
            assert(spec_project(es[k - 1], Seq::<usize>::empty()) == Ok::<SpecValue, SpecEvalError>(es[k - 1]));
        }
    }
}

} // verus!
