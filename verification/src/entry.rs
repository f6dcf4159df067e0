//! Preparing a program to run: its first function is the entry point, and
//! its parameter is bound to a default value of the parameter's type.
use vstd::prelude::*;

use crate::ast::{Lit, Program, SpecFnDef, SpecType, Type, view_type, view_types};
use crate::core_ast::{
    CoreAtom, CoreAtomBase, CoreExpr, SpecCoreAtom, SpecCoreAtomBase, SpecCoreExpr, core_unit, view_core_expr,
    view_core_exprs,
};
use crate::desugar::{DesugarError, SpecDesugarError, desugar_block, spec_desugar_block};
use crate::eval::{SpecEvalError, law_eval_list, spec_eval, spec_eval_atom, spec_eval_list, spec_project};
use crate::value::{SpecEnv, SpecValue};

verus! {

/// Whether a function type occurs anywhere in `t`.
pub open spec fn spec_type_has_func(t: SpecType) -> bool
    decreases t, 0int,
{
    match t {
        SpecType::Func(_, _) => true,
        SpecType::Tuple(ts) => types_have_func(ts, ts.len() as int),
        _ => false,
    }
}

/// Whether a function type occurs in one of `ts[0..n)`.
pub open spec fn types_have_func(ts: Seq<SpecType>, n: int) -> bool
    decreases ts, n,
{
    if n <= 0 || n > ts.len() {
        false
    } else {
        types_have_func(ts, n - 1) || spec_type_has_func(ts[n - 1])
    }
}

/// Where none of `ts[0..n)` holds a function type, none of its elements does.
pub proof fn lemma_types_without_func(ts: Seq<SpecType>, n: int)
    requires
        0 <= n <= ts.len(),
        !types_have_func(ts, n),
    ensures
        forall|j: int| 0 <= j < n ==> !#[trigger] spec_type_has_func(ts[j]),
    decreases n,
{
    if n > 0 {
        lemma_types_without_func(ts, n - 1);
    }
}

pub open spec fn lit_atom(l: Lit) -> SpecCoreExpr {
    SpecCoreExpr::Atom(SpecCoreAtom { base: SpecCoreAtomBase::Lit(l), projs: Seq::empty() })
}

/// The default value of a type without function types, as a core
/// expression: `0`, `false`, `()`, and a tuple of defaults.
pub open spec fn spec_default_value(t: SpecType) -> SpecCoreExpr
    decreases t,
{
    match t {
        SpecType::Int => lit_atom(Lit::Int(0)),
        SpecType::Bool => lit_atom(Lit::Bool(false)),
        SpecType::Unit => lit_atom(Lit::Unit),
        SpecType::Tuple(ts) => SpecCoreExpr::Atom(SpecCoreAtom {
            base: SpecCoreAtomBase::Tuple(
                Seq::new(ts.len(), |i: int| if 0 <= i < ts.len() { spec_default_value(ts[i]) } else { core_unit() }),
            ),
            projs: Seq::empty(),
        }),
        SpecType::Func(_, _) => core_unit(),
    }
}

/// Tells whether a function type occurs anywhere in `ty`.
pub fn type_has_func(ty: &Type) -> (r: bool)
    ensures
        r == spec_type_has_func(view_type(*ty)),
    decreases ty,
{
    match ty {
        Type::Int | Type::Bool | Type::Unit => false,
        Type::Func(_, _) => true,
        Type::Tuple(ts) => {
            proof {
                assert(decreases_to!(*ty => (*ty)->Tuple_0));
                assert(decreases_to!(ts => ts@));
            }
            let ghost vts = view_types(ts@);
            assert(view_type(*ty) == SpecType::Tuple(vts));
            let mut found = false;
            let mut i: usize = 0;
            while i < ts.len()
                invariant
                    i <= ts@.len(),
                    vts == view_types(ts@),
                    vts.len() == ts@.len(),
                    found == types_have_func(vts, i as int),
                    decreases_to!(*ty => ts@),
                decreases ts@.len() - i,
            {
                proof {
                    assert(decreases_to!(ts@ => ts@[i as int]));
                }
                let here = type_has_func(&ts[i]);
                found = found || here;
                i = i + 1;
            }
            found
        },
    }
}

/// The literal `l` as a core expression.
fn lit_expr(l: Lit) -> (r: CoreExpr)
    ensures
        view_core_expr(r) == lit_atom(l),
{
    let r = CoreExpr::Atom(CoreAtom { base: CoreAtomBase::Lit(l), projs: Vec::new() });
    proof {
        assert(crate::core_ast::view_core_atom_base(r->Atom_0.base) == SpecCoreAtomBase::Lit(l));
        assert(r->Atom_0.projs@ =~= Seq::<usize>::empty());
        assert(crate::core_ast::view_core_atom(r->Atom_0) == SpecCoreAtom { base: SpecCoreAtomBase::Lit(l), projs: Seq::empty() });
    }
    r
}

/// The default value of `ty` as a core expression.
pub fn default_value_expr(ty: &Type) -> (r: CoreExpr)
    requires
        !spec_type_has_func(view_type(*ty)),
    ensures
        view_core_expr(r) == spec_default_value(view_type(*ty)),
    decreases ty,
{
    match ty {
        Type::Int => lit_expr(Lit::Int(0)),
        Type::Bool => lit_expr(Lit::Bool(false)),
        Type::Unit => lit_expr(Lit::Unit),
        Type::Tuple(ts) => {
            proof {
                assert(decreases_to!(*ty => (*ty)->Tuple_0));
                assert(decreases_to!(ts => ts@));
            }
            let ghost vts = view_types(ts@);
            proof {
                lemma_types_without_func(vts, vts.len() as int);
            }
            let mut xs: Vec<CoreExpr> = Vec::new();
            let mut i: usize = 0;
            while i < ts.len()
                invariant
                    i <= ts@.len(),
                    xs@.len() == i,
                    vts == view_types(ts@),
                    view_type(*ty) == SpecType::Tuple(vts),
                    vts.len() == ts@.len(),
                    forall|j: int| 0 <= j < ts@.len() ==> !#[trigger] spec_type_has_func(vts[j]),
                    forall|j: int| 0 <= j < i ==> #[trigger] view_core_expr(xs@[j]) == spec_default_value(vts[j]),
                    decreases_to!(*ty => ts@),
                decreases ts@.len() - i,
            {
                proof {
                    assert(decreases_to!(ts@ => ts@[i as int]));
                    assert(!spec_type_has_func(vts[i as int]));
                }
                let x = default_value_expr(&ts[i]);
                xs.push(x);
                i = i + 1;
            }
            let r = CoreExpr::Atom(CoreAtom { base: CoreAtomBase::Tuple(xs), projs: Vec::new() });
            proof {
                let expected = Seq::new(vts.len(), |k: int| if 0 <= k < vts.len() { spec_default_value(vts[k]) } else { core_unit() });
                assert forall|k: int| 0 <= k < vts.len() implies #[trigger] view_core_exprs(xs@)[k] == expected[k] by {
                    assert(view_core_expr(xs@[k]) == spec_default_value(vts[k]));
                }
                assert(view_core_exprs(xs@) =~= expected);
                let sd = spec_default_value(SpecType::Tuple(vts));
                let es = sd->Atom_0.base->Tuple_0;
                assert forall|k: int| 0 <= k < vts.len() implies #[trigger] es[k] == expected[k] by {}
                assert(es =~= expected);
                assert(r->Atom_0.projs@ =~= Seq::<usize>::empty());
                assert(crate::core_ast::view_core_atom_base(r->Atom_0.base) == SpecCoreAtomBase::Tuple(view_core_exprs(xs@)));
                assert(crate::core_ast::view_core_atom(r->Atom_0) == SpecCoreAtom { base: SpecCoreAtomBase::Tuple(view_core_exprs(xs@)), projs: Seq::empty() });
            }
            r
        },
        Type::Func(_, _) => {
            proof {
                assert(spec_type_has_func(view_type(*ty)));
            }
            lit_expr(Lit::Unit)
        },
    }
}

// ------------------------------------------------------------
// The entry expression of a program
// ------------------------------------------------------------

#[derive(Debug, Clone, PartialEq, Eq)]
pub enum EntryError {
    /// The program defines no function.
    NoFunctions,
    /// The body of the entry function does not desugar.
    Desugar(DesugarError),
}

pub enum SpecEntryError {
    NoFunctions,
    Desugar(SpecDesugarError),
}

impl View for EntryError {
    type V = SpecEntryError;
    open spec fn view(&self) -> SpecEntryError {
        match *self {
            EntryError::NoFunctions => SpecEntryError::NoFunctions,
            EntryError::Desugar(d) => SpecEntryError::Desugar(d@),
        }
    }
}

/// Whether preparing `p` would need a default value of a function type:
/// the entry function exists, its body desugars, and its parameter's type
/// holds a function type.
pub open spec fn spec_entry_needs_func_default(p: Seq<SpecFnDef>) -> bool {
    &&& p.len() > 0
    &&& spec_desugar_block(p[0].body) is Ok
    &&& spec_type_has_func(p[0].param.ty)
}

/// The desugared body of the first function of `p`, inside a `let` that
/// binds the function's parameter to the default value of its type.
pub open spec fn spec_entry_expr(p: Seq<SpecFnDef>) -> Result<SpecCoreExpr, SpecEntryError> {
    if p.len() == 0 {
        Err(SpecEntryError::NoFunctions)
    } else {
        match spec_desugar_block(p[0].body) {
            Err(d) => Err(SpecEntryError::Desugar(d)),
            Ok(body) => Ok(SpecCoreExpr::LetIn {
                name: p[0].param.name,
                ty: p[0].param.ty,
                value: Box::new(spec_default_value(p[0].param.ty)),
                body: Box::new(body),
            }),
        }
    }
}

/// The core expression that running `p` evaluates.
pub fn entry_expr(p: &Program) -> (r: Result<CoreExpr, EntryError>)
    requires
        !spec_entry_needs_func_default(p@),
    ensures
        match r {
            Ok(e) => spec_entry_expr(p@) == Ok::<SpecCoreExpr, SpecEntryError>(e@),
            Err(err) => spec_entry_expr(p@) == Err::<SpecCoreExpr, SpecEntryError>(err@),
        },
{
    if p.functions.len() == 0 {
        return Err(EntryError::NoFunctions);
    }
    let func = &p.functions[0];
    assert(p@[0] == crate::ast::view_fn_def(p.functions@[0]));
    let body = match desugar_block(&func.body) {
        Err(d) => return Err(EntryError::Desugar(d)),
        Ok(b) => b,
    };
    let default_arg = default_value_expr(&func.param.ty);
    Ok(CoreExpr::LetIn {
        name: func.param.name.copy(),
        ty: func.param.ty.copy(),
        value: Box::new(default_arg),
        body: Box::new(body),
    })
}

// ------------------------------------------------------------
// What a default value evaluates to
// ------------------------------------------------------------

/// The default value of a type as a runtime value: `0`, `false`, `()`, and
/// a tuple of defaults; no closure occurs in it.
pub open spec fn spec_default_of(t: SpecType) -> SpecValue
    decreases t,
{
    match t {
        SpecType::Int => SpecValue::Int(0),
        SpecType::Bool => SpecValue::Bool(false),
        SpecType::Tuple(ts) => SpecValue::Tuple(
            Seq::new(ts.len(), |i: int| if 0 <= i < ts.len() { spec_default_of(ts[i]) } else { SpecValue::Unit }),
        ),
        _ => SpecValue::Unit,
    }
}

/// The nesting depth of a type: tuples nest.
pub open spec fn type_height(t: SpecType) -> nat
    decreases t, 0int,
{
    match t {
        SpecType::Tuple(ts) => 1 + types_height(ts, ts.len() as int),
        _ => 1,
    }
}

/// The greatest height among `ts[0..n)`.
pub open spec fn types_height(ts: Seq<SpecType>, n: int) -> nat
    decreases ts, n,
{
    if n <= 0 || n > ts.len() {
        0
    } else {
        let h = types_height(ts, n - 1);
        let k = type_height(ts[n - 1]);
        if h >= k { h } else { k }
    }
}

proof fn lemma_types_height(ts: Seq<SpecType>, n: int)
    requires
        0 <= n <= ts.len(),
    ensures
        forall|i: int| 0 <= i < n ==> type_height(#[trigger] ts[i]) <= types_height(ts, n),
    decreases n,
{
    if n > 0 {
        lemma_types_height(ts, n - 1);
    }
}

/// The default value of a type without function types evaluates, at every
/// depth no smaller than the type's height and in every environment, to
/// the default runtime value of the type.
pub proof fn law_default_value_evaluates(t: SpecType, d: nat, env: SpecEnv)
    requires
        !spec_type_has_func(t),
        d >= type_height(t),
    ensures
        spec_eval(d, spec_default_value(t), env) == Ok::<SpecValue, SpecEvalError>(spec_default_of(t)),
    decreases t,
{
    let a = (d - 1) as nat;
    match t {
        SpecType::Tuple(ts) => {
            lemma_types_without_func(ts, ts.len() as int);
            lemma_types_height(ts, ts.len() as int);
            let xs = Seq::new(ts.len(), |i: int| if 0 <= i < ts.len() { spec_default_value(ts[i]) } else { core_unit() });
            let vs = Seq::new(ts.len(), |i: int| if 0 <= i < ts.len() { spec_default_of(ts[i]) } else { SpecValue::Unit });
            let at = SpecCoreAtom { base: SpecCoreAtomBase::Tuple(xs), projs: Seq::empty() };
            let es = spec_default_value(t)->Atom_0.base->Tuple_0;
            assert forall|k: int| 0 <= k < ts.len() implies #[trigger] es[k] == xs[k] by {}
            assert(es =~= xs);
            assert(spec_default_value(t) == SpecCoreExpr::Atom(at));
            let ds = spec_default_of(t)->Tuple_0;
            assert forall|k: int| 0 <= k < ts.len() implies #[trigger] ds[k] == vs[k] by {}
            assert(ds =~= vs);
            assert forall|i: int| 0 <= i < ts.len() implies #[trigger] spec_eval(a, xs[i], env) == Ok::<SpecValue, SpecEvalError>(vs[i]) by {
                assert(decreases_to!(t => ts[i]));
                law_default_value_evaluates(ts[i], a, env);
            }
            law_eval_list(a, xs, env);
            let ws = spec_eval_list(a, xs, env)->Ok_0;
            assert(ws =~= vs) by {
                assert forall|i: int| 0 <= i < ts.len() implies ws[i] == vs[i] by {
                    assert(spec_eval(a, xs[i], env) == Ok::<SpecValue, SpecEvalError>(ws[i]));
                }
            }
            assert(spec_default_of(t) == SpecValue::Tuple(vs));
            assert(spec_eval_atom(a, at, env) == spec_project(SpecValue::Tuple(ws), Seq::empty()));
            assert(spec_project(SpecValue::Tuple(ws), Seq::empty()) == Ok::<SpecValue, SpecEvalError>(SpecValue::Tuple(ws)));
        },
        SpecType::Func(_, _) => {},
        _ => {
            let l = match t {
                SpecType::Int => Lit::Int(0),
                SpecType::Bool => Lit::Bool(false),
                _ => Lit::Unit,
            };
            let at = SpecCoreAtom { base: SpecCoreAtomBase::Lit(l), projs: Seq::empty() };
            assert(spec_default_value(t) == SpecCoreExpr::Atom(at));
            assert(spec_project(spec_default_of(t), Seq::empty()) == Ok::<SpecValue, SpecEvalError>(spec_default_of(t)));
            assert(spec_eval_atom(a, at, env) == Ok::<SpecValue, SpecEvalError>(spec_default_of(t)));
        },
    }
}

/// Running a program evaluates the body of its first function with the
/// function's parameter bound to the default value of its type: wherever
/// the entry expression's evaluation finishes at a depth no smaller than
/// the parameter type's height, it equals the desugared body's evaluation
/// in that environment.
pub proof fn law_entry_evaluates(p: Seq<SpecFnDef>, d: nat, env: SpecEnv)
    requires
        spec_entry_expr(p) is Ok,
        !spec_type_has_func(p[0].param.ty),
        d >= type_height(p[0].param.ty),
        !crate::eval::ran_out(spec_eval(d, spec_entry_expr(p)->Ok_0, env)),
    ensures
        p.len() > 0,
        spec_desugar_block(p[0].body) is Ok,
        spec_eval(d, spec_entry_expr(p)->Ok_0, env) == spec_eval(
            d,
            spec_desugar_block(p[0].body)->Ok_0,
            crate::value::env_insert(env, p[0].param.name, spec_default_of(p[0].param.ty)),
        ),
{
    let f = p[0];
    let body = spec_desugar_block(f.body)->Ok_0;
    crate::eval::law_eval_let_in(d, f.param.name, f.param.ty, spec_default_value(f.param.ty), body, env);
    law_default_value_evaluates(f.param.ty, d, env);
}

} // verus!
