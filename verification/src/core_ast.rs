//! The core language: the small kernel that surface programs desugar into.
use vstd::prelude::*;

use crate::ast::{Ident, Lit, Param, Type, SpecParam, SpecType, view_param, view_type, copy_usizes};

verus! {

#[derive(Debug, PartialEq, Eq)]
pub enum CoreExpr {
    /// Evaluate `first`, discard its value, then evaluate `then`.
    Sequence { first: Box<CoreExpr>, then: Box<CoreExpr> },
    LetIn { name: Ident, ty: Type, value: Box<CoreExpr>, body: Box<CoreExpr> },
    If { cond: Box<CoreExpr>, then_br: Box<CoreExpr>, else_br: Box<CoreExpr> },
    Lambda { param: Param, body: Box<CoreExpr> },
    App { head: Box<CoreExpr>, args: Vec<CoreExpr> },
    Atom(CoreAtom),
}

#[derive(Debug, PartialEq, Eq)]
pub struct CoreAtom {
    pub base: CoreAtomBase,
    pub projs: Vec<usize>,
}

#[derive(Debug, PartialEq, Eq)]
pub enum CoreAtomBase {
    Lit(Lit),
    Var(Ident),
    Tuple(Vec<CoreExpr>),
    Paren(Box<CoreExpr>),
}

// ------------------------------------------------------------
// Mathematical model
// ------------------------------------------------------------

pub enum SpecCoreExpr {
    Sequence { first: Box<SpecCoreExpr>, then: Box<SpecCoreExpr> },
    LetIn { name: Seq<char>, ty: SpecType, value: Box<SpecCoreExpr>, body: Box<SpecCoreExpr> },
    If { cond: Box<SpecCoreExpr>, then_br: Box<SpecCoreExpr>, else_br: Box<SpecCoreExpr> },
    Lambda { param: SpecParam, body: Box<SpecCoreExpr> },
    App { head: Box<SpecCoreExpr>, args: Seq<SpecCoreExpr> },
    Atom(SpecCoreAtom),
}

pub struct SpecCoreAtom {
    pub base: SpecCoreAtomBase,
    pub projs: Seq<usize>,
}

pub enum SpecCoreAtomBase {
    Lit(Lit),
    Var(Seq<char>),
    Tuple(Seq<SpecCoreExpr>),
    Paren(Box<SpecCoreExpr>),
}

pub open spec fn core_unit() -> SpecCoreExpr {
    SpecCoreExpr::Atom(SpecCoreAtom { base: SpecCoreAtomBase::Lit(Lit::Unit), projs: Seq::empty() })
}

pub open spec fn view_core_expr(e: CoreExpr) -> SpecCoreExpr
    decreases e,
{
    match e {
        CoreExpr::Sequence { first, then } => SpecCoreExpr::Sequence {
            first: Box::new(view_core_expr(*first)),
            then: Box::new(view_core_expr(*then)),
        },
        CoreExpr::LetIn { name, ty, value, body } => SpecCoreExpr::LetIn {
            name: name.0@,
            ty: view_type(ty),
            value: Box::new(view_core_expr(*value)),
            body: Box::new(view_core_expr(*body)),
        },
        CoreExpr::If { cond, then_br, else_br } => SpecCoreExpr::If {
            cond: Box::new(view_core_expr(*cond)),
            then_br: Box::new(view_core_expr(*then_br)),
            else_br: Box::new(view_core_expr(*else_br)),
        },
        CoreExpr::Lambda { param, body } => SpecCoreExpr::Lambda {
            param: view_param(param),
            body: Box::new(view_core_expr(*body)),
        },
        CoreExpr::App { head, args } => SpecCoreExpr::App {
            head: Box::new(view_core_expr(*head)),
            args: view_core_exprs(args@),
        },
        CoreExpr::Atom(a) => SpecCoreExpr::Atom(view_core_atom(a)),
    }
}

pub open spec fn view_core_exprs(es: Seq<CoreExpr>) -> Seq<SpecCoreExpr>
    decreases es,
{
    Seq::new(es.len(), |i: int| if 0 <= i < es.len() { view_core_expr(es[i]) } else { core_unit() })
}

pub open spec fn view_core_atom(a: CoreAtom) -> SpecCoreAtom
    decreases a,
{
    SpecCoreAtom { base: view_core_atom_base(a.base), projs: a.projs@ }
}

pub open spec fn view_core_atom_base(b: CoreAtomBase) -> SpecCoreAtomBase
    decreases b,
{
    match b {
        CoreAtomBase::Lit(l) => SpecCoreAtomBase::Lit(l),
        CoreAtomBase::Var(id) => SpecCoreAtomBase::Var(id.0@),
        CoreAtomBase::Tuple(xs) => SpecCoreAtomBase::Tuple(view_core_exprs(xs@)),
        CoreAtomBase::Paren(e) => SpecCoreAtomBase::Paren(Box::new(view_core_expr(*e))),
    }
}

impl View for CoreExpr {
    type V = SpecCoreExpr;
    open spec fn view(&self) -> SpecCoreExpr { view_core_expr(*self) }
}

impl View for CoreAtom {
    type V = SpecCoreAtom;
    open spec fn view(&self) -> SpecCoreAtom { view_core_atom(*self) }
}

impl CoreExpr {
    pub fn copy(&self) -> (r: CoreExpr)
        ensures
            r@ == self@,
    {
        copy_core_expr(self)
    }
}

impl Clone for CoreExpr {
    fn clone(&self) -> (r: CoreExpr)
        ensures
            r@ == self@,
    {
        self.copy()
    }
}

impl Clone for CoreAtom {
    fn clone(&self) -> (r: CoreAtom)
        ensures
            r@ == self@,
    {
        copy_core_atom(self)
    }
}

impl Clone for CoreAtomBase {
    fn clone(&self) -> (r: CoreAtomBase)
        ensures
            view_core_atom_base(r) == view_core_atom_base(*self),
    {
        copy_core_atom_base(self)
    }
}

fn copy_core_expr(e: &CoreExpr) -> (r: CoreExpr)
    ensures
        view_core_expr(r) == view_core_expr(*e),
    decreases e,
{
    match e {
        CoreExpr::Sequence { first, then } => CoreExpr::Sequence {
            first: Box::new(copy_core_expr(first)),
            then: Box::new(copy_core_expr(then)),
        },
        CoreExpr::LetIn { name, ty, value, body } => CoreExpr::LetIn {
            name: name.copy(),
            ty: ty.copy(),
            value: Box::new(copy_core_expr(value)),
            body: Box::new(copy_core_expr(body)),
        },
        CoreExpr::If { cond, then_br, else_br } => CoreExpr::If {
            cond: Box::new(copy_core_expr(cond)),
            then_br: Box::new(copy_core_expr(then_br)),
            else_br: Box::new(copy_core_expr(else_br)),
        },
        CoreExpr::Lambda { param, body } => CoreExpr::Lambda {
            param: param.copy(),
            body: Box::new(copy_core_expr(body)),
        },
        CoreExpr::App { head, args } => {
            proof {
                assert(decreases_to!(*e => (*e)->App_args));
            }
            CoreExpr::App { head: Box::new(copy_core_expr(head)), args: copy_core_exprs(args) }
        },
        CoreExpr::Atom(a) => {
            proof {
                assert(decreases_to!(*e => (*e)->Atom_0));
            }
            CoreExpr::Atom(copy_core_atom(a))
        },
    }
}

fn copy_core_atom(a: &CoreAtom) -> (r: CoreAtom)
    ensures
        view_core_atom(r) == view_core_atom(*a),
    decreases a,
{
    proof {
        assert(decreases_to!(*a => (*a).base));
    }
    CoreAtom { base: copy_core_atom_base(&a.base), projs: copy_usizes(&a.projs) }
}

fn copy_core_atom_base(b: &CoreAtomBase) -> (r: CoreAtomBase)
    ensures
        view_core_atom_base(r) == view_core_atom_base(*b),
    decreases b,
{
    match b {
        CoreAtomBase::Lit(l) => CoreAtomBase::Lit(*l),
        CoreAtomBase::Var(id) => CoreAtomBase::Var(id.copy()),
        CoreAtomBase::Tuple(xs) => {
            proof {
                assert(decreases_to!(*b => (*b)->Tuple_0));
            }
            CoreAtomBase::Tuple(copy_core_exprs(xs))
        },
        CoreAtomBase::Paren(inner) => CoreAtomBase::Paren(Box::new(copy_core_expr(inner))),
    }
}

fn copy_core_exprs(es: &Vec<CoreExpr>) -> (r: Vec<CoreExpr>)
    ensures
        view_core_exprs(r@) == view_core_exprs(es@),
    decreases es,
{
    let mut out: Vec<CoreExpr> = Vec::new();
    let mut i: usize = 0;
    while i < es.len()
        invariant
            i <= es@.len(),
            out@.len() == i,
            forall|j: int| 0 <= j < i ==> #[trigger] view_core_expr(out@[j]) == view_core_expr(es@[j]),
        decreases es@.len() - i,
    {
        let elem = &es[i];
        proof {
            assert(decreases_to!(*es => es@));
            assert(decreases_to!(es@ => es@[i as int]));
        }
        out.push(copy_core_expr(elem));
        i = i + 1;
    }
    proof {
        lemma_view_core_exprs_ext(out@, es@);
    }
    out
}

pub proof fn lemma_view_core_exprs_ext(a: Seq<CoreExpr>, b: Seq<CoreExpr>)
    requires
        a.len() == b.len(),
        forall|j: int| 0 <= j < a.len() ==> #[trigger] view_core_expr(a[j]) == view_core_expr(b[j]),
    ensures
        view_core_exprs(a) == view_core_exprs(b),
{
    assert forall|j: int| 0 <= j < a.len() implies #[trigger] view_core_exprs(a)[j] == view_core_exprs(b)[j] by {
        assert(view_core_expr(a[j]) == view_core_expr(b[j]));
    }
    assert(view_core_exprs(a) =~= view_core_exprs(b));
}

} // verus!
