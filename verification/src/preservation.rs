//! Desugaring preserves meaning: whenever the surface evaluator gives a
//! block a value, the core evaluator gives the desugared block a
//! corresponding value.
use vstd::prelude::*;

use crate::ast::{SpecAtom, SpecAtomBase, SpecBlock, SpecExpr, SpecStmt};
use crate::core_ast::{SpecCoreAtom, SpecCoreAtomBase, SpecCoreExpr};
use crate::desugar::{
    SpecDesugarError, spec_desugar_atom, spec_desugar_block, spec_desugar_expr, spec_desugar_exprs,
    spec_desugar_stmts, spec_unbound_rebind,
};
use crate::eval::{
    lemma_apply_depth_independent, lemma_eval_atom_depth_independent, lemma_eval_depth_independent,
    lemma_eval_list_depth_independent, lit_value, spec_apply, spec_eval, spec_eval_atom, spec_eval_list,
    spec_project, ran_out,
};
use crate::surface_eval::{
    SpecSEnv, SpecSValue, lit_svalue, spec_apply_one, spec_sapp, spec_seval, spec_seval_atom, spec_seval_block,
    spec_seval_list, spec_seval_stmts, spec_senv_of, spec_sproject, spec_svalue_of, spec_svalues_of,
    spec_value_of, spec_values_of,
};
use crate::value::{SpecEnv, SpecValue, env_find, env_insert, env_lookup, insert_pos, lemma_env_find, lemma_insert_pos};

verus! {

/// A surface value and a core value that mean the same thing: equal ground
/// parts, and closures over the same parameter whose core body is the
/// desugared surface body, in corresponding environments.
pub open spec fn rel_value(sv: SpecSValue, v: SpecValue) -> bool
    decreases sv,
{
    match (sv, v) {
        (SpecSValue::Int(a), SpecValue::Int(b)) => a == b,
        (SpecSValue::Bool(a), SpecValue::Bool(b)) => a == b,
        (SpecSValue::Unit, SpecValue::Unit) => true,
        (SpecSValue::Tuple(xs), SpecValue::Tuple(ys)) => {
            &&& xs.len() == ys.len()
            &&& forall|i: int| 0 <= i < xs.len() ==> rel_value(#[trigger] xs[i], ys[i])
        },
        (SpecSValue::Closure { param: p1, body: b1, env: e1 }, SpecValue::Closure { param: p2, body: b2, env: e2 }) => {
            &&& p1 == p2
            &&& spec_desugar_expr(b1) == Ok::<SpecCoreExpr, SpecDesugarError>(b2)
            &&& e1.len() == e2.len()
            &&& forall|i: int| 0 <= i < e1.len() ==> (#[trigger] e1[i]).0 == e2[i].0 && rel_value(e1[i].1, e2[i].1)
        },
        _ => false,
    }
}

/// Environments binding the same names, in the same order, to corresponding values.
pub open spec fn rel_env(se: SpecSEnv, ce: SpecEnv) -> bool {
    &&& se.len() == ce.len()
    &&& forall|i: int| 0 <= i < se.len() ==> (#[trigger] se[i]).0 == ce[i].0 && rel_value(se[i].1, ce[i].1)
}

proof fn lemma_rel_env_find(se: SpecSEnv, ce: SpecEnv, k: Seq<char>)
    requires
        rel_env(se, ce),
    ensures
        env_find(se, k) == env_find(ce, k),
    decreases se.len(),
{
    if se.len() > 0 {
        let se2 = se.drop_last();
        let ce2 = ce.drop_last();
        assert forall|i: int| 0 <= i < se2.len() implies (#[trigger] se2[i]).0 == ce2[i].0 && rel_value(se2[i].1, ce2[i].1) by {
            assert(se2[i] == se[i]);
            assert(ce2[i] == ce[i]);
        }
        lemma_rel_env_find(se2, ce2, k);
        assert(se.last() == se[se.len() - 1]);
    }
}

pub proof fn lemma_rel_env_lookup(se: SpecSEnv, ce: SpecEnv, k: Seq<char>)
    requires
        rel_env(se, ce),
    ensures
        env_lookup(se, k) is None <==> env_lookup(ce, k) is None,
        env_lookup(se, k) is Some ==> rel_value(env_lookup(se, k)->Some_0, env_lookup(ce, k)->Some_0),
{
    lemma_rel_env_find(se, ce, k);
    lemma_env_find(se, k);
    let i = env_find(se, k);
    if i >= 0 {
        assert(se[i].0 == ce[i].0 && rel_value(se[i].1, ce[i].1));
    }
}

proof fn lemma_rel_insert_pos(se: SpecSEnv, ce: SpecEnv, k: Seq<char>)
    requires
        rel_env(se, ce),
    ensures
        insert_pos(se, k) == insert_pos(ce, k),
    decreases se.len(),
{
    if se.len() > 0 {
        let se2 = se.drop_last();
        let ce2 = ce.drop_last();
        assert forall|i: int| 0 <= i < se2.len() implies (#[trigger] se2[i]).0 == ce2[i].0 && rel_value(se2[i].1, ce2[i].1) by {
            assert(se2[i] == se[i]);
            assert(ce2[i] == ce[i]);
        }
        lemma_rel_insert_pos(se2, ce2, k);
        assert(se.last() == se[se.len() - 1]);
    }
}

pub proof fn lemma_rel_env_insert(se: SpecSEnv, ce: SpecEnv, k: Seq<char>, sv: SpecSValue, v: SpecValue)
    requires
        rel_env(se, ce),
        rel_value(sv, v),
    ensures
        rel_env(env_insert(se, k, sv), env_insert(ce, k, v)),
{
    lemma_rel_env_find(se, ce, k);
    lemma_rel_insert_pos(se, ce, k);
    lemma_env_find(se, k);
    lemma_insert_pos(se, k);
    let i = env_find(se, k);
    let p = insert_pos(se, k);
    let se2 = env_insert(se, k, sv);
    let ce2 = env_insert(ce, k, v);
    assert forall|j: int| 0 <= j < se2.len() implies (#[trigger] se2[j]).0 == ce2[j].0 && rel_value(se2[j].1, ce2[j].1) by {
        if i >= 0 {
            if j != i {
                assert(se2[j] == se[j]);
                assert(ce2[j] == ce[j]);
            }
        } else if j < p {
            assert(se2[j] == se[j]);
            assert(ce2[j] == ce[j]);
        } else if j > p {
            assert(se2[j] == se[j - 1]);
            assert(ce2[j] == ce[j - 1]);
        }
    }
}

// ------------------------------------------------------------
// Facts about the core semantics used below
// ------------------------------------------------------------

proof fn lemma_lift_eval(d1: nat, d2: nat, e: SpecCoreExpr, env: SpecEnv)
    requires
        d1 <= d2,
        spec_eval(d1, e, env) is Ok,
    ensures
        spec_eval(d2, e, env) == spec_eval(d1, e, env),
{
    lemma_eval_depth_independent(d1, d2, e, env);
}

proof fn lemma_lift_list(d1: nat, d2: nat, es: Seq<SpecCoreExpr>, env: SpecEnv)
    requires
        d1 <= d2,
        spec_eval_list(d1, es, env) is Ok,
    ensures
        spec_eval_list(d2, es, env) == spec_eval_list(d1, es, env),
{
    lemma_eval_list_depth_independent(d1, d2, es, env);
}

proof fn lemma_lift_apply(d1: nat, d2: nat, f: SpecValue, vs: Seq<SpecValue>)
    requires
        d1 <= d2,
        spec_apply(d1, f, vs) is Ok,
    ensures
        spec_apply(d2, f, vs) == spec_apply(d1, f, vs),
{
    lemma_apply_depth_independent(d1, d2, f, vs);
}

/// Applying to one more argument applies the result of the shorter application.
proof fn lemma_apply_push(d: nat, f: SpecValue, vs: Seq<SpecValue>, v: SpecValue)
    ensures
        spec_apply(d, f, vs.push(v)) == match spec_apply(d, f, vs) {
            Ok(g) => spec_apply(d, g, seq![v]),
            Err(x) => Err(x),
        },
    decreases vs.len(),
{
    if vs.len() == 0 {
        assert(vs.push(v) =~= seq![v]);
    } else {
        assert(vs.push(v).drop_first() =~= vs.drop_first().push(v));
        assert(vs.push(v)[0] == vs[0]);
        if let SpecValue::Closure { param, body, env } = f {
            if let Ok(r) = spec_eval(d, body, env_insert(env, param, vs[0])) {
                lemma_apply_push(d, r, vs.drop_first(), v);
            }
        }
    }
}

proof fn lemma_rel_project(sv: SpecSValue, v: SpecValue, projs: Seq<usize>)
    requires
        rel_value(sv, v),
        spec_sproject(sv, projs) is Ok,
    ensures
        spec_project(v, projs) is Ok,
        rel_value(spec_sproject(sv, projs)->Ok_0, spec_project(v, projs)->Ok_0),
    decreases projs.len(),
{
    if projs.len() > 0 {
        if let SpecSValue::Tuple(xs) = sv {
            if let SpecValue::Tuple(ys) = v {
                let k = projs[0] - 1;
                assert(rel_value(xs[k], ys[k]));
                lemma_rel_project(xs[k], ys[k], projs.drop_first());
            }
        }
    }
}

// ------------------------------------------------------------
// Preservation, by induction on the surface evaluation
// ------------------------------------------------------------

/// A successful surface evaluation of `e` is matched by a successful core
/// evaluation of its desugaring, with a corresponding value, at the
/// returned depth.
pub proof fn lemma_pres_expr(d: nat, e: SpecExpr, se: SpecSEnv, ce: SpecEnv) -> (d2: nat)
    requires
        rel_env(se, ce),
        spec_seval(d, e, se) is Ok,
        spec_desugar_expr(e) is Ok,
    ensures
        spec_eval(d2, spec_desugar_expr(e)->Ok_0, ce) is Ok,
        rel_value(spec_seval(d, e, se)->Ok_0, spec_eval(d2, spec_desugar_expr(e)->Ok_0, ce)->Ok_0),
    decreases d, 0nat,
{
    let dd = (d - 1) as nat;
    match e {
        SpecExpr::LetIn { name, ty, value, body } => {
            let cv = spec_desugar_expr(*value)->Ok_0;
            let cb = spec_desugar_expr(*body)->Ok_0;
            let d1 = lemma_pres_expr(dd, *value, se, ce);
            let sv = spec_seval(dd, *value, se)->Ok_0;
            let v = spec_eval(d1, cv, ce)->Ok_0;
            lemma_rel_env_insert(se, ce, name, sv, v);
            let d2 = lemma_pres_expr(dd, *body, env_insert(se, name, sv), env_insert(ce, name, v));
            let m = if d1 <= d2 { d2 } else { d1 };
            lemma_lift_eval(d1, m, cv, ce);
            lemma_lift_eval(d2, m, cb, env_insert(ce, name, v));
            m + 1
        },
        SpecExpr::If { cond, then_br, else_br } => {
            let cc = spec_desugar_expr(*cond)->Ok_0;
            let ct = spec_desugar_expr(*then_br)->Ok_0;
            let cf = spec_desugar_expr(*else_br)->Ok_0;
            let d1 = lemma_pres_expr(dd, *cond, se, ce);
            let b = spec_seval(dd, *cond, se)->Ok_0;
            if b == SpecSValue::Bool(true) {
                let d2 = lemma_pres_expr(dd, *then_br, se, ce);
                let m = if d1 <= d2 { d2 } else { d1 };
                lemma_lift_eval(d1, m, cc, ce);
                lemma_lift_eval(d2, m, ct, ce);
                m + 1
            } else {
                let d2 = lemma_pres_expr(dd, *else_br, se, ce);
                let m = if d1 <= d2 { d2 } else { d1 };
                lemma_lift_eval(d1, m, cc, ce);
                lemma_lift_eval(d2, m, cf, ce);
                m + 1
            }
        },
        SpecExpr::Lambda { param, body } => {
            1
        },
        SpecExpr::App { head, args } => {
            let ch = spec_desugar_expr(*head)->Ok_0;
            let cs = spec_desugar_exprs(args)->Ok_0;
            let d1 = lemma_pres_expr(dd, *head, se, ce);
            let sf = spec_seval(dd, *head, se)->Ok_0;
            let cf = spec_eval(d1, ch, ce)->Ok_0;
            let d2 = lemma_pres_app(dd, sf, cf, args, se, ce);
            let vs = spec_eval_list(d2, cs, ce)->Ok_0;
            let m = if d1 <= d2 { d2 } else { d1 };
            lemma_lift_eval(d1, m, ch, ce);
            lemma_lift_list(d2, m, cs, ce);
            lemma_lift_apply(d2, m, cf, vs);
            m + 1
        },
        SpecExpr::Atom(a) => {
            let d2 = lemma_pres_atom(dd, a, se, ce);
            d2 + 1
        },
    }
}

/// Applying related functions to the arguments, one at a time.
pub proof fn lemma_pres_app(d: nat, sf: SpecSValue, cf: SpecValue, args: Seq<SpecExpr>, se: SpecSEnv, ce: SpecEnv) -> (d2: nat)
    requires
        rel_env(se, ce),
        rel_value(sf, cf),
        spec_sapp(d, sf, args, se) is Ok,
        spec_desugar_exprs(args) is Ok,
    ensures
        spec_eval_list(d2, spec_desugar_exprs(args)->Ok_0, ce) is Ok,
        spec_apply(d2, cf, spec_eval_list(d2, spec_desugar_exprs(args)->Ok_0, ce)->Ok_0) is Ok,
        rel_value(
            spec_sapp(d, sf, args, se)->Ok_0,
            spec_apply(d2, cf, spec_eval_list(d2, spec_desugar_exprs(args)->Ok_0, ce)->Ok_0)->Ok_0,
        ),
    decreases d, args.len() + 2,
{
    if args.len() == 0 {
        0
    } else {
        let pre = args.drop_last();
        let last = args[args.len() - 1];
        assert(args.last() == last);
        let cs = spec_desugar_exprs(args)->Ok_0;
        let cpre = spec_desugar_exprs(pre)->Ok_0;
        let clast = spec_desugar_expr(last)->Ok_0;
        assert(cs == cpre.push(clast));
        let d1 = lemma_pres_app(d, sf, cf, pre, se, ce);
        let vs = spec_eval_list(d1, cpre, ce)->Ok_0;
        let gs = spec_sapp(d, sf, pre, se)->Ok_0;
        let gc = spec_apply(d1, cf, vs)->Ok_0;
        let d2 = lemma_pres_expr(d, last, se, ce);
        let a_s = spec_seval(d, last, se)->Ok_0;
        let a_c = spec_eval(d2, clast, ce)->Ok_0;
        let d3 = lemma_pres_apply_one(d, gs, gc, a_s, a_c);
        let m1 = if d1 <= d2 { d2 } else { d1 };
        let m = if m1 <= d3 { d3 } else { m1 };
        lemma_lift_list(d1, m, cpre, ce);
        lemma_lift_eval(d2, m, clast, ce);
        assert(cs.drop_last() =~= cpre);
        assert(cs.last() == clast);
        assert(spec_eval_list(m, cs, ce) == Ok::<Seq<SpecValue>, crate::eval::SpecEvalError>(vs.push(a_c)));
        lemma_lift_apply(d1, m, cf, vs);
        lemma_lift_apply(d3, m, gc, seq![a_c]);
        lemma_apply_push(m, cf, vs, a_c);
        m
    }
}

pub proof fn lemma_pres_apply_one(d: nat, gs: SpecSValue, gc: SpecValue, a_s: SpecSValue, a_c: SpecValue) -> (d3: nat)
    requires
        rel_value(gs, gc),
        rel_value(a_s, a_c),
        spec_apply_one(d, gs, a_s) is Ok,
    ensures
        spec_apply(d3, gc, seq![a_c]) is Ok,
        rel_value(spec_apply_one(d, gs, a_s)->Ok_0, spec_apply(d3, gc, seq![a_c])->Ok_0),
    decreases d, 1nat,
{
    match (gs, gc) {
        (SpecSValue::Closure { param: p1, body: b1, env: e1 }, SpecValue::Closure { param: p2, body: b2, env: e2 }) => {
            assert(rel_env(e1, e2));
            lemma_rel_env_insert(e1, e2, p1, a_s, a_c);
            let d3 = lemma_pres_expr(d, b1, env_insert(e1, p1, a_s), env_insert(e2, p2, a_c));
            assert(seq![a_c][0] == a_c);
            assert(seq![a_c].drop_first() =~= Seq::<SpecValue>::empty());
            let r = spec_eval(d3, b2, env_insert(e2, p2, a_c))->Ok_0;
            assert(spec_apply(d3, r, Seq::<SpecValue>::empty()) == Ok::<SpecValue, crate::eval::SpecEvalError>(r));
            assert(spec_apply(d3, gc, seq![a_c]) == spec_apply(d3, r, seq![a_c].drop_first()));
            d3
        },
        _ => {
            0
        },
    }
}

pub proof fn lemma_pres_list(d: nat, xs: Seq<SpecExpr>, se: SpecSEnv, ce: SpecEnv) -> (d2: nat)
    requires
        rel_env(se, ce),
        spec_seval_list(d, xs, se) is Ok,
        spec_desugar_exprs(xs) is Ok,
    ensures
        spec_eval_list(d2, spec_desugar_exprs(xs)->Ok_0, ce) is Ok,
        spec_seval_list(d, xs, se)->Ok_0.len() == spec_eval_list(d2, spec_desugar_exprs(xs)->Ok_0, ce)->Ok_0.len(),
        forall|i: int| 0 <= i < spec_seval_list(d, xs, se)->Ok_0.len() ==> rel_value(
            #[trigger] spec_seval_list(d, xs, se)->Ok_0[i],
            spec_eval_list(d2, spec_desugar_exprs(xs)->Ok_0, ce)->Ok_0[i],
        ),
    decreases d, xs.len(),
{
    if xs.len() == 0 {
        0
    } else {
        let pre = xs.drop_last();
        let last = xs[xs.len() - 1];
        assert(xs.last() == last);
        let cs = spec_desugar_exprs(xs)->Ok_0;
        let cpre = spec_desugar_exprs(pre)->Ok_0;
        let clast = spec_desugar_expr(last)->Ok_0;
        let d1 = lemma_pres_list(d, pre, se, ce);
        let d2 = lemma_pres_expr(d, last, se, ce);
        let m = if d1 <= d2 { d2 } else { d1 };
        lemma_lift_list(d1, m, cpre, ce);
        lemma_lift_eval(d2, m, clast, ce);
        assert(cs.drop_last() =~= cpre);
        assert(cs.last() == clast);
        m
    }
}

pub proof fn lemma_pres_atom(d: nat, a: SpecAtom, se: SpecSEnv, ce: SpecEnv) -> (d2: nat)
    requires
        rel_env(se, ce),
        spec_seval_atom(d, a, se) is Ok,
        spec_desugar_atom(a) is Ok,
    ensures
        spec_eval_atom(d2, spec_desugar_atom(a)->Ok_0, ce) is Ok,
        rel_value(spec_seval_atom(d, a, se)->Ok_0, spec_eval_atom(d2, spec_desugar_atom(a)->Ok_0, ce)->Ok_0),
    decreases d, crate::surface_eval::atom_measure(a),
{
    let ca = spec_desugar_atom(a)->Ok_0;
    match a.base {
        SpecAtomBase::Lit(l) => {
            lemma_rel_project(lit_svalue(l), lit_value(l), a.projs);
            0
        },
        SpecAtomBase::Var(x) => {
            lemma_rel_env_lookup(se, ce, x);
            lemma_rel_project(env_lookup(se, x)->Some_0, env_lookup(ce, x)->Some_0, a.projs);
            0
        },
        SpecAtomBase::Tuple(xs) => {
            let d2 = lemma_pres_list(d, xs, se, ce);
            let svs = spec_seval_list(d, xs, se)->Ok_0;
            let cvs = spec_eval_list(d2, spec_desugar_exprs(xs)->Ok_0, ce)->Ok_0;
            assert(rel_value(SpecSValue::Tuple(svs), SpecValue::Tuple(cvs)));
            lemma_rel_project(SpecSValue::Tuple(svs), SpecValue::Tuple(cvs), a.projs);
            d2
        },
        SpecAtomBase::Paren(e) => {
            let d2 = lemma_pres_expr(d, *e, se, ce);
            lemma_rel_project(spec_seval(d, *e, se)->Ok_0, spec_eval(d2, spec_desugar_expr(*e)->Ok_0, ce)->Ok_0, a.projs);
            d2
        },
        SpecAtomBase::Block(b) => {
            let d2 = lemma_pres_block(d, *b, se, ce);
            lemma_rel_project(spec_seval_block(d, *b, se)->Ok_0, spec_eval(d2, spec_desugar_block(*b)->Ok_0, ce)->Ok_0, a.projs);
            d2
        },
    }
}

pub proof fn lemma_pres_block(d: nat, b: SpecBlock, se: SpecSEnv, ce: SpecEnv) -> (d2: nat)
    requires
        rel_env(se, ce),
        spec_seval_block(d, b, se) is Ok,
        spec_desugar_block(b) is Ok,
    ensures
        spec_eval(d2, spec_desugar_block(b)->Ok_0, ce) is Ok,
        rel_value(spec_seval_block(d, b, se)->Ok_0, spec_eval(d2, spec_desugar_block(b)->Ok_0, ce)->Ok_0),
    decreases d, b.stmts.len() + 2,
{
    let fin_c = spec_desugar_expr(b.expr)->Ok_0;
    lemma_pres_stmts(d, b.stmts, 0, se, ce, b.expr, fin_c)
}

pub proof fn lemma_pres_stmts(
    d: nat,
    stmts: Seq<SpecStmt>,
    i: int,
    se: SpecSEnv,
    ce: SpecEnv,
    fin: SpecExpr,
    fin_c: SpecCoreExpr,
) -> (d2: nat)
    requires
        0 <= i <= stmts.len(),
        rel_env(se, ce),
        spec_seval_stmts(d, stmts, i, se, fin) is Ok,
        spec_desugar_expr(fin) == Ok::<SpecCoreExpr, SpecDesugarError>(fin_c),
        spec_desugar_stmts(stmts, i, fin_c) is Ok,
    ensures
        spec_eval(d2, spec_desugar_stmts(stmts, i, fin_c)->Ok_0, ce) is Ok,
        rel_value(spec_seval_stmts(d, stmts, i, se, fin)->Ok_0, spec_eval(d2, spec_desugar_stmts(stmts, i, fin_c)->Ok_0, ce)->Ok_0),
    decreases d, (if 0 <= i < stmts.len() { stmts.len() - i } else { 0 }) + 1,
{
    if i == stmts.len() {
        lemma_pres_expr(d, fin, se, ce)
    } else {
        let rest_c = spec_desugar_stmts(stmts, i + 1, fin_c)->Ok_0;
        match stmts[i] {
            SpecStmt::Let { name, ty, value } => {
                let cv = spec_desugar_expr(value)->Ok_0;
                let d1 = lemma_pres_expr(d, value, se, ce);
                let sv = spec_seval(d, value, se)->Ok_0;
                let v = spec_eval(d1, cv, ce)->Ok_0;
                lemma_rel_env_insert(se, ce, name, sv, v);
                let d2 = lemma_pres_stmts(d, stmts, i + 1, env_insert(se, name, sv), env_insert(ce, name, v), fin, fin_c);
                let m = if d1 <= d2 { d2 } else { d1 };
                lemma_lift_eval(d1, m, cv, ce);
                lemma_lift_eval(d2, m, rest_c, env_insert(ce, name, v));
                m + 1
            },
            SpecStmt::Rebind { name, value } => {
                let cv = spec_desugar_expr(value)->Ok_0;
                let d1 = lemma_pres_expr(d, value, se, ce);
                let sv = spec_seval(d, value, se)->Ok_0;
                let v = spec_eval(d1, cv, ce)->Ok_0;
                lemma_rel_env_insert(se, ce, name, sv, v);
                let d2 = lemma_pres_stmts(d, stmts, i + 1, env_insert(se, name, sv), env_insert(ce, name, v), fin, fin_c);
                let m = if d1 <= d2 { d2 } else { d1 };
                lemma_lift_eval(d1, m, cv, ce);
                lemma_lift_eval(d2, m, rest_c, env_insert(ce, name, v));
                m + 1
            },
            SpecStmt::Expr { expr } => {
                let cf = spec_desugar_expr(expr)->Ok_0;
                let d1 = lemma_pres_expr(d, expr, se, ce);
                let d2 = lemma_pres_stmts(d, stmts, i + 1, se, ce, fin, fin_c);
                let m = if d1 <= d2 { d2 } else { d1 };
                lemma_lift_eval(d1, m, cf, ce);
                lemma_lift_eval(d2, m, rest_c, ce);
                m + 1
            },
        }
    }
}

// ------------------------------------------------------------
// Ground values
// ------------------------------------------------------------

proof fn lemma_svalues_of(xs: Seq<SpecValue>)
    requires
        spec_svalues_of(xs) is Some,
    ensures
        spec_svalues_of(xs)->Some_0.len() == xs.len(),
        forall|i: int| 0 <= i < xs.len() ==> spec_svalue_of(#[trigger] xs[i]) == Some(spec_svalues_of(xs)->Some_0[i]),
    decreases xs.len(),
{
    if xs.len() > 0 {
        let pre = xs.drop_last();
        lemma_svalues_of(pre);
        assert forall|i: int| 0 <= i < xs.len() implies spec_svalue_of(#[trigger] xs[i]) == Some(spec_svalues_of(xs)->Some_0[i]) by {
            if i < xs.len() - 1 {
                assert(xs[i] == pre[i]);
            }
        }
    }
}

/// A core value with a surface counterpart corresponds to it.
proof fn lemma_svalue_of_rel(v: SpecValue)
    requires
        spec_svalue_of(v) is Some,
    ensures
        rel_value(spec_svalue_of(v)->Some_0, v),
    decreases v,
{
    if let SpecValue::Tuple(xs) = v {
        lemma_svalues_of(xs);
        let svs = spec_svalues_of(xs)->Some_0;
        assert forall|i: int| 0 <= i < svs.len() implies rel_value(#[trigger] svs[i], xs[i]) by {
            assert(spec_svalue_of(xs[i]) == Some(svs[i]));
            lemma_svalue_of_rel(xs[i]);
        }
    }
}

proof fn lemma_senv_of_rel(ce: SpecEnv)
    requires
        spec_senv_of(ce) is Some,
    ensures
        rel_env(spec_senv_of(ce)->Some_0, ce),
    decreases ce.len(),
{
    if ce.len() > 0 {
        let pre = ce.drop_last();
        lemma_senv_of_rel(pre);
        let se = spec_senv_of(ce)->Some_0;
        let spre = spec_senv_of(pre)->Some_0;
        lemma_svalue_of_rel(ce.last().1);
        assert forall|i: int| 0 <= i < se.len() implies (#[trigger] se[i]).0 == ce[i].0 && rel_value(se[i].1, ce[i].1) by {
            if i < se.len() - 1 {
                assert(se[i] == spre[i]);
                assert(ce[i] == pre[i]);
            }
        }
    }
}

proof fn lemma_values_of(xs: Seq<SpecSValue>)
    requires
        spec_values_of(xs) is Some,
    ensures
        spec_values_of(xs)->Some_0.len() == xs.len(),
        forall|i: int| 0 <= i < xs.len() ==> spec_value_of(#[trigger] xs[i]) == Some(spec_values_of(xs)->Some_0[i]),
    decreases xs.len(),
{
    if xs.len() > 0 {
        let pre = xs.drop_last();
        lemma_values_of(pre);
        assert forall|i: int| 0 <= i < xs.len() implies spec_value_of(#[trigger] xs[i]) == Some(spec_values_of(xs)->Some_0[i]) by {
            if i < xs.len() - 1 {
                assert(xs[i] == pre[i]);
            }
        }
    }
}

/// A ground surface value corresponds to exactly one core value: its conversion.
proof fn lemma_rel_ground(sv: SpecSValue, v: SpecValue)
    requires
        rel_value(sv, v),
        spec_value_of(sv) is Some,
    ensures
        spec_value_of(sv) == Some(v),
    decreases sv,
{
    if let SpecSValue::Tuple(xs) = sv {
        if let SpecValue::Tuple(ys) = v {
            lemma_values_of(xs);
            let vs = spec_values_of(xs)->Some_0;
            assert forall|i: int| 0 <= i < xs.len() implies vs[i] == ys[i] by {
                assert(rel_value(xs[i], ys[i]));
                lemma_rel_ground(xs[i], ys[i]);
            }
            assert(vs =~= ys);
        }
    }
}

// ------------------------------------------------------------
// The laws
// ------------------------------------------------------------

/// Desugaring preserves the meaning of a block: when the surface evaluator
/// gives `b` a value in `se`, the desugared block, evaluated in a
/// corresponding core environment `ce`, gives a corresponding value at every
/// large enough depth.
pub proof fn law_desugar_preserves_block(d: nat, b: SpecBlock, se: SpecSEnv, ce: SpecEnv) -> (d2: nat)
    requires
        rel_env(se, ce),
        spec_seval_block(d, b, se) is Ok,
        spec_desugar_block(b) is Ok,
    ensures
        forall|d3: nat| d3 >= d2 ==> {
            &&& #[trigger] spec_eval(d3, spec_desugar_block(b)->Ok_0, ce) is Ok
            &&& rel_value(spec_seval_block(d, b, se)->Ok_0, spec_eval(d3, spec_desugar_block(b)->Ok_0, ce)->Ok_0)
        },
{
    let d2 = lemma_pres_block(d, b, se, ce);
    assert forall|d3: nat| d3 >= d2 implies {
        &&& #[trigger] spec_eval(d3, spec_desugar_block(b)->Ok_0, ce) is Ok
        &&& rel_value(spec_seval_block(d, b, se)->Ok_0, spec_eval(d3, spec_desugar_block(b)->Ok_0, ce)->Ok_0)
    } by {
        lemma_lift_eval(d2, d3, spec_desugar_block(b)->Ok_0, ce);
    }
    d2
}

/// The same for a single expression.
pub proof fn law_desugar_preserves_expr(d: nat, e: SpecExpr, se: SpecSEnv, ce: SpecEnv) -> (d2: nat)
    requires
        rel_env(se, ce),
        spec_seval(d, e, se) is Ok,
        spec_desugar_expr(e) is Ok,
    ensures
        forall|d3: nat| d3 >= d2 ==> {
            &&& #[trigger] spec_eval(d3, spec_desugar_expr(e)->Ok_0, ce) is Ok
            &&& rel_value(spec_seval(d, e, se)->Ok_0, spec_eval(d3, spec_desugar_expr(e)->Ok_0, ce)->Ok_0)
        },
{
    let d2 = lemma_pres_expr(d, e, se, ce);
    assert forall|d3: nat| d3 >= d2 implies {
        &&& #[trigger] spec_eval(d3, spec_desugar_expr(e)->Ok_0, ce) is Ok
        &&& rel_value(spec_seval(d, e, se)->Ok_0, spec_eval(d3, spec_desugar_expr(e)->Ok_0, ce)->Ok_0)
    } by {
        lemma_lift_eval(d2, d3, spec_desugar_expr(e)->Ok_0, ce);
    }
    d2
}

/// Ground form, as a user observes it: take a core environment whose values
/// are all ground, convert it to a surface environment, evaluate the block
/// there and convert a ground result back; evaluating the desugared block
/// in the given core environment gives exactly that value, at every
/// large enough depth.
pub proof fn law_desugar_preserves_ground_block(d: nat, b: SpecBlock, ce: SpecEnv) -> (d2: nat)
    requires
        spec_senv_of(ce) is Some,
        spec_seval_block(d, b, spec_senv_of(ce)->Some_0) is Ok,
        spec_value_of(spec_seval_block(d, b, spec_senv_of(ce)->Some_0)->Ok_0) is Some,
        spec_desugar_block(b) is Ok,
    ensures
        forall|d3: nat| d3 >= d2 ==> #[trigger] spec_eval(d3, spec_desugar_block(b)->Ok_0, ce)
            == Ok::<SpecValue, crate::eval::SpecEvalError>(
                spec_value_of(spec_seval_block(d, b, spec_senv_of(ce)->Some_0)->Ok_0)->Some_0,
            ),
{
    let se = spec_senv_of(ce)->Some_0;
    lemma_senv_of_rel(ce);
    let d2 = law_desugar_preserves_block(d, b, se, ce);
    assert forall|d3: nat| d3 >= d2 implies #[trigger] spec_eval(d3, spec_desugar_block(b)->Ok_0, ce)
        == Ok::<SpecValue, crate::eval::SpecEvalError>(spec_value_of(spec_seval_block(d, b, se)->Ok_0)->Some_0) by {
        assert(spec_eval(d3, spec_desugar_block(b)->Ok_0, ce) is Ok);
        lemma_rel_ground(spec_seval_block(d, b, se)->Ok_0, spec_eval(d3, spec_desugar_block(b)->Ok_0, ce)->Ok_0);
    }
    d2
}

/// The ground form at a given core depth: whenever the core evaluation of
/// the desugared block finishes at depth `d3` (it does not run out of
/// depth), it gives exactly the ground value of the surface evaluation.
/// With `d` the surface limit and `d3` the core limit, this is the law for
/// `eval_block` and `eval` themselves.
pub proof fn law_desugar_preserves_ground_block_within(d: nat, b: SpecBlock, ce: SpecEnv, d3: nat)
    requires
        spec_senv_of(ce) is Some,
        spec_seval_block(d, b, spec_senv_of(ce)->Some_0) is Ok,
        spec_value_of(spec_seval_block(d, b, spec_senv_of(ce)->Some_0)->Ok_0) is Some,
        spec_desugar_block(b) is Ok,
        !ran_out(spec_eval(d3, spec_desugar_block(b)->Ok_0, ce)),
    ensures
        spec_eval(d3, spec_desugar_block(b)->Ok_0, ce) == Ok::<SpecValue, crate::eval::SpecEvalError>(
            spec_value_of(spec_seval_block(d, b, spec_senv_of(ce)->Some_0)->Ok_0)->Some_0,
        ),
{
    let c = spec_desugar_block(b)->Ok_0;
    let d2 = law_desugar_preserves_ground_block(d, b, ce);
    let m: nat = if d2 >= d3 { d2 } else { d3 };
    assert(spec_eval(m, c, ce) == Ok::<SpecValue, crate::eval::SpecEvalError>(
        spec_value_of(spec_seval_block(d, b, spec_senv_of(ce)->Some_0)->Ok_0)->Some_0,
    ));
    lemma_eval_depth_independent(d3, m, c, ce);
}

} // verus!
