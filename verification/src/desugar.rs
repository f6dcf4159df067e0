//! Desugaring: surface programs to core expressions.
//!
//! A block `{ s1; ...; sn; e }` becomes nested core expressions: a `let`
//! or a rebinding becomes a `LetIn` around the rest of the block, an
//! expression statement becomes a `Sequence`, and the final expression is
//! innermost. A rebinding takes the type of the latest `let` of the same
//! name earlier in the same block; without one the block is refused.
use vstd::prelude::*;

use crate::ast::{
    Atom, AtomBase, Block, Expr, Ident, Program, SpecAtom, SpecAtomBase, SpecBlock, SpecExpr, SpecFnDef,
    SpecStmt, SpecType, Stmt, Type, view_atom, view_block, view_expr, view_exprs, view_fn_def, view_stmts,
    view_type,
};
use crate::core_ast::{
    CoreAtom, CoreAtomBase, CoreExpr, SpecCoreAtom, SpecCoreAtomBase, SpecCoreExpr, view_core_atom,
    view_core_expr, view_core_exprs,
};

verus! {

#[derive(Debug, Clone, PartialEq, Eq)]
pub enum DesugarError {
    RebindWithoutPriorLet { name: String },
}

pub enum SpecDesugarError {
    RebindWithoutPriorLet { name: Seq<char> },
}

impl View for DesugarError {
    type V = SpecDesugarError;
    open spec fn view(&self) -> SpecDesugarError {
        match *self {
            DesugarError::RebindWithoutPriorLet { name } => SpecDesugarError::RebindWithoutPriorLet { name: name@ },
        }
    }
}

pub open spec fn view_desugar_result(r: Result<CoreExpr, DesugarError>) -> Result<SpecCoreExpr, SpecDesugarError> {
    match r {
        Ok(c) => Ok(c@),
        Err(e) => Err(e@),
    }
}

// ------------------------------------------------------------
// Desugaring, as spec functions
// ------------------------------------------------------------

/// The type of the latest `let` of `name` among `stmts[0..i)`.
pub open spec fn spec_let_type(stmts: Seq<SpecStmt>, i: int, name: Seq<char>) -> Option<SpecType>
    decreases i,
{
    if i <= 0 || i > stmts.len() {
        None
    } else {
        match stmts[i - 1] {
            SpecStmt::Let { name: n, ty, .. } => if n == name {
                Some(ty)
            } else {
                spec_let_type(stmts, i - 1, name)
            },
            _ => spec_let_type(stmts, i - 1, name),
        }
    }
}

/// The name of the first rebinding among `stmts[0..n)` with no earlier `let`.
pub open spec fn spec_unbound_rebind(stmts: Seq<SpecStmt>, n: int) -> Option<Seq<char>>
    decreases n,
{
    if n <= 0 || n > stmts.len() {
        None
    } else {
        match spec_unbound_rebind(stmts, n - 1) {
            Some(x) => Some(x),
            None => match stmts[n - 1] {
                SpecStmt::Rebind { name, .. } => if spec_let_type(stmts, n - 1, name) is None {
                    Some(name)
                } else {
                    None
                },
                _ => None,
            },
        }
    }
}

pub open spec fn spec_desugar_expr(e: SpecExpr) -> Result<SpecCoreExpr, SpecDesugarError>
    decreases e, 0nat,
{
    match e {
        SpecExpr::LetIn { name, ty, value, body } => match spec_desugar_expr(*value) {
            Err(x) => Err(x),
            Ok(v) => match spec_desugar_expr(*body) {
                Err(x) => Err(x),
                Ok(b) => Ok(SpecCoreExpr::LetIn { name, ty, value: Box::new(v), body: Box::new(b) }),
            },
        },
        SpecExpr::If { cond, then_br, else_br } => match spec_desugar_expr(*cond) {
            Err(x) => Err(x),
            Ok(c) => match spec_desugar_expr(*then_br) {
                Err(x) => Err(x),
                Ok(t) => match spec_desugar_expr(*else_br) {
                    Err(x) => Err(x),
                    Ok(el) => Ok(SpecCoreExpr::If { cond: Box::new(c), then_br: Box::new(t), else_br: Box::new(el) }),
                },
            },
        },
        SpecExpr::Lambda { param, body } => match spec_desugar_expr(*body) {
            Err(x) => Err(x),
            Ok(b) => Ok(SpecCoreExpr::Lambda { param, body: Box::new(b) }),
        },
        SpecExpr::App { head, args } => match spec_desugar_expr(*head) {
            Err(x) => Err(x),
            Ok(h) => match spec_desugar_exprs(args) {
                Err(x) => Err(x),
                Ok(cs) => Ok(SpecCoreExpr::App { head: Box::new(h), args: cs }),
            },
        },
        SpecExpr::Atom(a) => match spec_desugar_atom(a) {
            Err(x) => Err(x),
            Ok(ca) => Ok(SpecCoreExpr::Atom(ca)),
        },
    }
}

/// The desugarings of `es`, in order; the first error is the result.
pub open spec fn spec_desugar_exprs(es: Seq<SpecExpr>) -> Result<Seq<SpecCoreExpr>, SpecDesugarError>
    decreases es, 0nat,
{
    if es.len() == 0 {
        Ok(Seq::empty())
    } else {
        match spec_desugar_exprs(es.drop_last()) {
            Err(x) => Err(x),
            Ok(cs) => match spec_desugar_expr(es[es.len() - 1]) {
                Err(x) => Err(x),
                Ok(c) => Ok(cs.push(c)),
            },
        }
    }
}

/// A block in atom position becomes a parenthesized core expression with the
/// atom's projections.
pub open spec fn spec_desugar_atom(a: SpecAtom) -> Result<SpecCoreAtom, SpecDesugarError>
    decreases a, 0nat,
{
    let base = match a.base {
        SpecAtomBase::Lit(l) => Ok(SpecCoreAtomBase::Lit(l)),
        SpecAtomBase::Var(x) => Ok(SpecCoreAtomBase::Var(x)),
        SpecAtomBase::Tuple(xs) => match spec_desugar_exprs(xs) {
            Err(x) => Err(x),
            Ok(cs) => Ok(SpecCoreAtomBase::Tuple(cs)),
        },
        SpecAtomBase::Paren(e) => match spec_desugar_expr(*e) {
            Err(x) => Err(x),
            Ok(c) => Ok(SpecCoreAtomBase::Paren(Box::new(c))),
        },
        SpecAtomBase::Block(b) => match spec_desugar_block(*b) {
            Err(x) => Err(x),
            Ok(c) => Ok(SpecCoreAtomBase::Paren(Box::new(c))),
        },
    };
    match base {
        Err(x) => Err(x),
        Ok(cb) => Ok(SpecCoreAtom { base: cb, projs: a.projs }),
    }
}

/// The statements from index `i` on, wrapped around `fin`. The result of
/// the later statements is formed first, so their errors come first.
pub open spec fn spec_desugar_stmts(stmts: Seq<SpecStmt>, i: int, fin: SpecCoreExpr) -> Result<SpecCoreExpr, SpecDesugarError>
    decreases stmts, (if 0 <= i < stmts.len() { stmts.len() - i } else { 0 }),
{
    if i < 0 || i >= stmts.len() {
        Ok(fin)
    } else {
        match spec_desugar_stmts(stmts, i + 1, fin) {
            Err(x) => Err(x),
            Ok(rest) => match stmts[i] {
                SpecStmt::Let { name, ty, value } => match spec_desugar_expr(value) {
                    Err(x) => Err(x),
                    Ok(v) => Ok(SpecCoreExpr::LetIn { name, ty, value: Box::new(v), body: Box::new(rest) }),
                },
                SpecStmt::Rebind { name, value } => match spec_desugar_expr(value) {
                    Err(x) => Err(x),
                    Ok(v) => Ok(SpecCoreExpr::LetIn {
                        name,
                        ty: spec_let_type(stmts, i, name).unwrap(),
                        value: Box::new(v),
                        body: Box::new(rest),
                    }),
                },
                SpecStmt::Expr { expr } => match spec_desugar_expr(expr) {
                    Err(x) => Err(x),
                    Ok(f) => Ok(SpecCoreExpr::Sequence { first: Box::new(f), then: Box::new(rest) }),
                },
            },
        }
    }
}

pub open spec fn spec_desugar_block(b: SpecBlock) -> Result<SpecCoreExpr, SpecDesugarError>
    decreases b, 0nat,
{
    match spec_unbound_rebind(b.stmts, b.stmts.len() as int) {
        Some(name) => Err(SpecDesugarError::RebindWithoutPriorLet { name }),
        None => match spec_desugar_expr(b.expr) {
            Err(x) => Err(x),
            Ok(fin) => spec_desugar_stmts(b.stmts, 0, fin),
        },
    }
}

// ------------------------------------------------------------
// Implementation
// ------------------------------------------------------------

/// Desugars the body of every function, in order; the first error is the result.
pub fn desugar_program(p: &Program) -> (r: Result<Vec<(Ident, CoreExpr)>, DesugarError>)
    ensures
        match r {
            Ok(out) => {
                &&& out@.len() == p.functions@.len()
                &&& forall|i: int| 0 <= i < out@.len() ==> {
                    &&& (#[trigger] out@[i]).0.0@ == p.functions@[i].name.0@
                    &&& spec_desugar_block(view_block(p.functions@[i].body)) == Ok::<SpecCoreExpr, SpecDesugarError>(out@[i].1@)
                }
            },
            Err(e) => exists|i: int| 0 <= i < p.functions@.len()
                && spec_desugar_block(view_block(#[trigger] p.functions@[i].body)) == Err::<SpecCoreExpr, SpecDesugarError>(e@)
                && forall|j: int| 0 <= j < i ==> spec_desugar_block(view_block(#[trigger] p.functions@[j].body)) is Ok,
        },
{
    let mut out: Vec<(Ident, CoreExpr)> = Vec::new();
    let mut i: usize = 0;
    while i < p.functions.len()
        invariant
            i <= p.functions@.len(),
            out@.len() == i,
            forall|k: int| 0 <= k < i ==> {
                &&& (#[trigger] out@[k]).0.0@ == p.functions@[k].name.0@
                &&& spec_desugar_block(view_block(p.functions@[k].body)) == Ok::<SpecCoreExpr, SpecDesugarError>(out@[k].1@)
            },
        decreases p.functions@.len() - i,
    {
        let f = &p.functions[i];
        match desugar_block(&f.body) {
            Err(e) => {
                assert forall|j: int| 0 <= j < i implies spec_desugar_block(view_block(#[trigger] p.functions@[j].body)) is Ok by {
                    assert(out@[j].0.0@ == p.functions@[j].name.0@);
                }
                return Err(e);
            },
            Ok(body) => {
                out.push((f.name.copy(), body));
            },
        }
        i = i + 1;
    }
    Ok(out)
}

/// Desugars a block into a single core expression.
pub fn desugar_block(b: &Block) -> (r: Result<CoreExpr, DesugarError>)
    ensures
        view_desugar_result(r) == spec_desugar_block(b@),
    decreases b, 1nat,
{
    let ghost stmts = view_stmts(b.stmts@);
    let n = b.stmts.len();
    // Every rebinding needs an earlier `let` of its name.
    let mut i: usize = 0;
    while i < n
        invariant
            n == b.stmts@.len(),
            i <= n,
            stmts == view_stmts(b.stmts@),
            spec_unbound_rebind(stmts, i as int) is None,
        decreases n - i,
    {
        match &b.stmts[i] {
            Stmt::Rebind { name, .. } => {
                let ty = let_type_before(&b.stmts, i, &name.0);
                if ty.is_none() {
                    proof {
                        lemma_unbound_rebind_prefix(stmts, i as int + 1);
                    }
                    return Err(DesugarError::RebindWithoutPriorLet { name: name.0.clone() });
                }
            },
            _ => {},
        }
        i = i + 1;
    }
    let fin = match desugar_expr(&b.expr) {
        Err(x) => return Err(x),
        Ok(c) => c,
    };
    proof {
        assert(decreases_to!(*b => (*b).stmts));
    }
    wrap_stmts(&b.stmts, fin)
}

/// All of `stmts` wrapped around `fin`, the last statement innermost.
fn wrap_stmts(stmts: &Vec<Stmt>, fin: CoreExpr) -> (r: Result<CoreExpr, DesugarError>)
    requires
        spec_unbound_rebind(view_stmts(stmts@), stmts@.len() as int) is None,
    ensures
        view_desugar_result(r) == spec_desugar_stmts(view_stmts(stmts@), 0, fin@),
    decreases stmts, stmts@.len() + 2,
{
    let ghost fin_view = fin@;
    assert(spec_desugar_stmts(view_stmts(stmts@), stmts@.len() as int, fin_view) == Ok::<SpecCoreExpr, SpecDesugarError>(fin_view));
    wrap_from(stmts, stmts.len(), fin, Ghost(fin_view))
}

/// Statements `0..k` wrapped around `acc`, the desugaring of the ones after them.
fn wrap_from(stmts: &Vec<Stmt>, k: usize, acc: CoreExpr, Ghost(fin): Ghost<SpecCoreExpr>) -> (r: Result<CoreExpr, DesugarError>)
    requires
        k <= stmts@.len(),
        spec_unbound_rebind(view_stmts(stmts@), stmts@.len() as int) is None,
        spec_desugar_stmts(view_stmts(stmts@), k as int, fin) == Ok::<SpecCoreExpr, SpecDesugarError>(acc@),
    ensures
        view_desugar_result(r) == spec_desugar_stmts(view_stmts(stmts@), 0, fin),
    decreases stmts, k + 1,
{
    if k == 0 {
        return Ok(acc);
    }
    let j = k - 1;
    match desugar_stmt_around(stmts, j, acc, Ghost(fin)) {
        Err(x) => {
            proof {
                lemma_desugar_stmts_err(view_stmts(stmts@), j as int, fin);
            }
            Err(x)
        },
        Ok(c) => wrap_from(stmts, j, c, Ghost(fin)),
    }
}

/// An error at a later statement is the error of the whole sequence.
proof fn lemma_desugar_stmts_err(vs: Seq<SpecStmt>, j: int, fin: SpecCoreExpr)
    requires
        0 <= j <= vs.len(),
        spec_desugar_stmts(vs, j, fin) is Err,
    ensures
        spec_desugar_stmts(vs, 0, fin) == spec_desugar_stmts(vs, j, fin),
    decreases j,
{
    if j > 0 {
        lemma_desugar_stmts_err(vs, j - 1, fin);
    }
}

/// Statement `j` wrapped around `rest`, the desugaring of the statements after it.
fn desugar_stmt_around(stmts: &Vec<Stmt>, j: usize, rest: CoreExpr, Ghost(fin): Ghost<SpecCoreExpr>) -> (r: Result<CoreExpr, DesugarError>)
    requires
        j < stmts@.len(),
        spec_unbound_rebind(view_stmts(stmts@), stmts@.len() as int) is None,
        spec_desugar_stmts(view_stmts(stmts@), j + 1, fin) == Ok::<SpecCoreExpr, SpecDesugarError>(rest@),
    ensures
        view_desugar_result(r) == spec_desugar_stmts(view_stmts(stmts@), j as int, fin),
    decreases stmts, 0nat,
{
    let ghost stmts_v = view_stmts(stmts@);
    proof {
        assert(decreases_to!(*stmts => stmts@));
        assert(decreases_to!(stmts@ => stmts@[j as int]));
        assert(stmts_v[j as int] == crate::ast::view_stmt(stmts@[j as int]));
    }
    match &stmts[j] {
        Stmt::Let { name, ty, value } => {
            proof {
                assert(decreases_to!(stmts@[j as int] => stmts@[j as int]->Let_value));
            }
            match desugar_expr(value) {
                Err(x) => Err(x),
                Ok(v) => Ok(CoreExpr::LetIn { name: name.copy(), ty: ty.copy(), value: Box::new(v), body: Box::new(rest) }),
            }
        },
        Stmt::Rebind { name, value } => {
            proof {
                assert(decreases_to!(stmts@[j as int] => stmts@[j as int]->Rebind_value));
            }
            match desugar_expr(value) {
                Err(x) => Err(x),
                Ok(v) => {
                    let ty = let_type_before(stmts, j, &name.0);
                    match ty {
                        Some(t) => Ok(CoreExpr::LetIn { name: name.copy(), ty: t, value: Box::new(v), body: Box::new(rest) }),
                        None => {
                            proof {
                                lemma_unbound_rebind_found(stmts_v, j as int);
                            }
                            Err(DesugarError::RebindWithoutPriorLet { name: name.0.clone() })
                        },
                    }
                },
            }
        },
        Stmt::Expr { expr } => {
            proof {
                assert(decreases_to!(stmts@[j as int] => stmts@[j as int]->Expr_expr));
            }
            match desugar_expr(expr) {
                Err(x) => Err(x),
                Ok(f) => Ok(CoreExpr::Sequence { first: Box::new(f), then: Box::new(rest) }),
            }
        },
    }
}

/// Reaching a rebinding without an earlier `let` contradicts a clean prefix check.
proof fn lemma_unbound_rebind_found(stmts: Seq<SpecStmt>, j: int)
    requires
        0 <= j < stmts.len(),
        spec_unbound_rebind(stmts, stmts.len() as int) is None,
        stmts[j] is Rebind,
    ensures
        spec_let_type(stmts, j, stmts[j]->Rebind_name) is Some,
{
    lemma_unbound_rebind_mono(stmts, j + 1, stmts.len() as int);
}

proof fn lemma_unbound_rebind_mono(stmts: Seq<SpecStmt>, m: int, n: int)
    requires
        0 <= m <= n <= stmts.len(),
        spec_unbound_rebind(stmts, n) is None,
    ensures
        spec_unbound_rebind(stmts, m) is None,
    decreases n - m,
{
    if m < n {
        lemma_unbound_rebind_mono(stmts, m, n - 1);
    }
}

proof fn lemma_unbound_rebind_prefix(stmts: Seq<SpecStmt>, n: int)
    requires
        0 <= n <= stmts.len(),
        spec_unbound_rebind(stmts, n) is Some,
    ensures
        spec_unbound_rebind(stmts, stmts.len() as int) == spec_unbound_rebind(stmts, n),
    decreases stmts.len() - n,
{
    if n < stmts.len() {
        lemma_unbound_rebind_prefix(stmts, n + 1);
    }
}

/// The type of the latest `let` of `name` before index `i`.
fn let_type_before(stmts: &Vec<Stmt>, i: usize, name: &String) -> (r: Option<Type>)
    requires
        i <= stmts@.len(),
    ensures
        match r {
            Some(t) => spec_let_type(view_stmts(stmts@), i as int, name@) == Some(t@),
            None => spec_let_type(view_stmts(stmts@), i as int, name@) is None,
        },
{
    let ghost vs = view_stmts(stmts@);
    let mut k: usize = i;
    while k > 0
        invariant
            k <= i <= stmts@.len(),
            vs == view_stmts(stmts@),
            spec_let_type(vs, i as int, name@) == spec_let_type(vs, k as int, name@),
        decreases k,
    {
        match &stmts[k - 1] {
            Stmt::Let { name: n, ty, .. } => {
                if n.0 == *name {
                    return Some(ty.copy());
                }
            },
            _ => {},
        }
        k = k - 1;
    }
    None
}

/// Desugars one surface expression.
pub fn desugar_expr(e: &Expr) -> (r: Result<CoreExpr, DesugarError>)
    ensures
        view_desugar_result(r) == spec_desugar_expr(e@),
    decreases e, 1nat,
{
    match e {
        Expr::LetIn { name, ty, value, body } => {
            let v = match desugar_expr(value) {
                Err(x) => return Err(x),
                Ok(c) => c,
            };
            let b = match desugar_expr(body) {
                Err(x) => return Err(x),
                Ok(c) => c,
            };
            Ok(CoreExpr::LetIn { name: name.copy(), ty: ty.copy(), value: Box::new(v), body: Box::new(b) })
        },
        Expr::If { cond, then_br, else_br } => {
            let c = match desugar_expr(cond) {
                Err(x) => return Err(x),
                Ok(c) => c,
            };
            let t = match desugar_expr(then_br) {
                Err(x) => return Err(x),
                Ok(c) => c,
            };
            let el = match desugar_expr(else_br) {
                Err(x) => return Err(x),
                Ok(c) => c,
            };
            Ok(CoreExpr::If { cond: Box::new(c), then_br: Box::new(t), else_br: Box::new(el) })
        },
        Expr::Lambda { param, body } => {
            let b = match desugar_expr(body) {
                Err(x) => return Err(x),
                Ok(c) => c,
            };
            Ok(CoreExpr::Lambda { param: param.copy(), body: Box::new(b) })
        },
        Expr::App { head, args } => {
            let h = match desugar_expr(head) {
                Err(x) => return Err(x),
                Ok(c) => c,
            };
            let cs = match desugar_exprs(args) {
                Err(x) => return Err(x),
                Ok(cs) => cs,
            };
            Ok(CoreExpr::App { head: Box::new(h), args: cs })
        },
        Expr::Atom(a) => match desugar_atom(a) {
            Err(x) => Err(x),
            Ok(ca) => Ok(CoreExpr::Atom(ca)),
        },
    }
}

fn desugar_exprs(es: &Vec<Expr>) -> (r: Result<Vec<CoreExpr>, DesugarError>)
    ensures
        match r {
            Ok(cs) => spec_desugar_exprs(view_exprs(es@)) == Ok::<Seq<SpecCoreExpr>, SpecDesugarError>(view_core_exprs(cs@)),
            Err(x) => spec_desugar_exprs(view_exprs(es@)) == Err::<Seq<SpecCoreExpr>, SpecDesugarError>(x@),
        },
    decreases es, 1nat,
{
    let ghost ves = view_exprs(es@);
    let mut out: Vec<CoreExpr> = Vec::new();
    let mut i: usize = 0;
    assert(ves.take(0) =~= Seq::<SpecExpr>::empty());
    assert(view_core_exprs(out@) =~= Seq::<SpecCoreExpr>::empty());
    while i < es.len()
        invariant
            i <= es@.len(),
            ves == view_exprs(es@),
            spec_desugar_exprs(ves.take(i as int)) == Ok::<Seq<SpecCoreExpr>, SpecDesugarError>(view_core_exprs(out@)),
        decreases es@.len() - i,
    {
        let ghost pre = out@;
        assert(ves.take(i + 1).drop_last() =~= ves.take(i as int));
        assert(ves.take(i + 1)[i as int] == view_expr(es@[i as int]));
        proof {
            assert(decreases_to!(*es => es@));
            assert(decreases_to!(es@ => es@[i as int]));
        }
        match desugar_expr(&es[i]) {
            Err(x) => {
                proof {
                    lemma_desugar_exprs_prefix_err(ves, i as int + 1);
                }
                return Err(x);
            },
            Ok(c) => {
                out.push(c);
                proof {
                    assert(view_core_exprs(out@) =~= view_core_exprs(pre).push(c@));
                }
            },
        }
        i = i + 1;
    }
    assert(ves.take(es@.len() as int) =~= ves);
    Ok(out)
}

proof fn lemma_desugar_exprs_prefix_err(es: Seq<SpecExpr>, n: int)
    requires
        0 <= n <= es.len(),
        spec_desugar_exprs(es.take(n)) is Err,
    ensures
        spec_desugar_exprs(es) == spec_desugar_exprs(es.take(n)),
    decreases es.len() - n,
{
    if n < es.len() {
        assert(es.take(n + 1).drop_last() =~= es.take(n));
        lemma_desugar_exprs_prefix_err(es, n + 1);
    } else {
        assert(es.take(n) =~= es);
    }
}

/// Desugars an atom; a block in atom position becomes a parenthesized core
/// expression that keeps the atom's projections.
pub fn desugar_atom(a: &Atom) -> (r: Result<CoreAtom, DesugarError>)
    ensures
        match r {
            Ok(ca) => spec_desugar_atom(a@) == Ok::<SpecCoreAtom, SpecDesugarError>(ca@),
            Err(x) => spec_desugar_atom(a@) == Err::<SpecCoreAtom, SpecDesugarError>(x@),
        },
    decreases a, 1nat,
{
    proof {
        assert(decreases_to!(*a => (*a).base));
    }
    let base = match &a.base {
        AtomBase::Lit(l) => CoreAtomBase::Lit(*l),
        AtomBase::Var(id) => CoreAtomBase::Var(id.copy()),
        AtomBase::Tuple(xs) => match desugar_exprs(xs) {
            Err(x) => return Err(x),
            Ok(cs) => CoreAtomBase::Tuple(cs),
        },
        AtomBase::Paren(e) => match desugar_expr(e) {
            Err(x) => return Err(x),
            Ok(c) => CoreAtomBase::Paren(Box::new(c)),
        },
        AtomBase::Block(b) => match desugar_block(b) {
            Err(x) => return Err(x),
            Ok(c) => CoreAtomBase::Paren(Box::new(c)),
        },
    };
    Ok(CoreAtom { base, projs: crate::ast::copy_usizes(&a.projs) })
}

// ------------------------------------------------------------
// Laws of desugaring
// ------------------------------------------------------------

/// The translations of `es`: all of them when every one succeeds, in
/// order; otherwise the first error.
pub proof fn law_desugar_exprs(es: Seq<SpecExpr>)
    ensures
        spec_desugar_exprs(es) is Ok <==> forall|i: int| 0 <= i < es.len() ==> #[trigger] spec_desugar_expr(es[i]) is Ok,
        spec_desugar_exprs(es) matches Ok(cs) ==> {
            &&& cs.len() == es.len()
            &&& forall|i: int| 0 <= i < es.len() ==> spec_desugar_expr(es[i]) == Ok::<SpecCoreExpr, SpecDesugarError>(#[trigger] cs[i])
        },
    decreases es.len(),
{
    if es.len() > 0 {
        let pre = es.drop_last();
        law_desugar_exprs(pre);
        assert forall|i: int| 0 <= i < pre.len() implies pre[i] == es[i] by {}
        let n = es.len() - 1;
        if let Ok(cs) = spec_desugar_exprs(pre) {
            if let Ok(c) = spec_desugar_expr(es[n]) {
                let ws = cs.push(c);
                assert forall|i: int| 0 <= i < es.len() implies spec_desugar_expr(es[i]) == Ok::<SpecCoreExpr, SpecDesugarError>(#[trigger] ws[i]) by {
                    if i < n {
                        assert(spec_desugar_expr(pre[i]) == Ok::<SpecCoreExpr, SpecDesugarError>(cs[i]));
                    }
                }
            }
        } else {
            let w = choose|i: int| 0 <= i < pre.len() && !(#[trigger] spec_desugar_expr(pre[i]) is Ok);
            assert(!(spec_desugar_expr(es[w]) is Ok));
        }
    }
}

/// Desugaring keeps the shape of an expression: each node becomes the
/// core node of the same kind, over the desugared children, with names,
/// types and parameters unchanged.
pub proof fn law_desugar_expr_shape(e: SpecExpr)
    requires
        spec_desugar_expr(e) is Ok,
    ensures
        match e {
            SpecExpr::LetIn { name, ty, value, body } => {
                &&& spec_desugar_expr(*value) is Ok
                &&& spec_desugar_expr(*body) is Ok
                &&& spec_desugar_expr(e)->Ok_0 == SpecCoreExpr::LetIn {
                    name,
                    ty,
                    value: Box::new(spec_desugar_expr(*value)->Ok_0),
                    body: Box::new(spec_desugar_expr(*body)->Ok_0),
                }
            },
            SpecExpr::If { cond, then_br, else_br } => {
                &&& spec_desugar_expr(*cond) is Ok
                &&& spec_desugar_expr(*then_br) is Ok
                &&& spec_desugar_expr(*else_br) is Ok
                &&& spec_desugar_expr(e)->Ok_0 == SpecCoreExpr::If {
                    cond: Box::new(spec_desugar_expr(*cond)->Ok_0),
                    then_br: Box::new(spec_desugar_expr(*then_br)->Ok_0),
                    else_br: Box::new(spec_desugar_expr(*else_br)->Ok_0),
                }
            },
            SpecExpr::Lambda { param, body } => {
                &&& spec_desugar_expr(*body) is Ok
                &&& spec_desugar_expr(e)->Ok_0 == SpecCoreExpr::Lambda { param, body: Box::new(spec_desugar_expr(*body)->Ok_0) }
            },
            SpecExpr::App { head, args } => {
                &&& spec_desugar_expr(*head) is Ok
                &&& spec_desugar_exprs(args) is Ok
                &&& spec_desugar_exprs(args)->Ok_0.len() == args.len()
                &&& forall|i: int| 0 <= i < args.len() ==> spec_desugar_expr(#[trigger] args[i]) == Ok::<SpecCoreExpr, SpecDesugarError>(spec_desugar_exprs(args)->Ok_0[i])
                &&& spec_desugar_expr(e)->Ok_0 == SpecCoreExpr::App {
                    head: Box::new(spec_desugar_expr(*head)->Ok_0),
                    args: spec_desugar_exprs(args)->Ok_0,
                }
            },
            SpecExpr::Atom(a) => {
                &&& spec_desugar_atom(a) is Ok
                &&& spec_desugar_expr(e)->Ok_0 == SpecCoreExpr::Atom(spec_desugar_atom(a)->Ok_0)
            },
        },
{
    if let SpecExpr::App { head, args } = e {
        law_desugar_exprs(args);
    }
}

/// Desugaring an atom keeps its projections and the kind of its base; a
/// block becomes a parenthesized core expression.
pub proof fn law_desugar_atom_shape(a: SpecAtom)
    requires
        spec_desugar_atom(a) is Ok,
    ensures
        spec_desugar_atom(a)->Ok_0.projs == a.projs,
        spec_desugar_atom(a)->Ok_0.base == match a.base {
            SpecAtomBase::Lit(l) => SpecCoreAtomBase::Lit(l),
            SpecAtomBase::Var(x) => SpecCoreAtomBase::Var(x),
            SpecAtomBase::Tuple(xs) => SpecCoreAtomBase::Tuple(spec_desugar_exprs(xs)->Ok_0),
            SpecAtomBase::Paren(e) => SpecCoreAtomBase::Paren(Box::new(spec_desugar_expr(*e)->Ok_0)),
            SpecAtomBase::Block(b) => SpecCoreAtomBase::Paren(Box::new(spec_desugar_block(*b)->Ok_0)),
        },
{
}

/// The expression that a statement evaluates.
pub open spec fn stmt_value(s: SpecStmt) -> SpecExpr {
    match s {
        SpecStmt::Let { value, .. } => value,
        SpecStmt::Rebind { value, .. } => value,
        SpecStmt::Expr { expr } => expr,
    }
}

/// The statements from index `i` on, wrapped around `fin`, when each of
/// their expressions desugars: a `let` becomes `LetIn` with its type, a
/// rebinding `LetIn` with the type of the latest earlier `let` of its
/// name, an expression statement a `Sequence`.
pub open spec fn desugared_stmts(stmts: Seq<SpecStmt>, i: int, fin: SpecCoreExpr) -> SpecCoreExpr
    decreases (if 0 <= i < stmts.len() { stmts.len() - i } else { 0 }),
{
    if i < 0 || i >= stmts.len() {
        fin
    } else {
        let rest = desugared_stmts(stmts, i + 1, fin);
        let v = spec_desugar_expr(stmt_value(stmts[i]))->Ok_0;
        match stmts[i] {
            SpecStmt::Let { name, ty, .. } => SpecCoreExpr::LetIn { name, ty, value: Box::new(v), body: Box::new(rest) },
            SpecStmt::Rebind { name, .. } => SpecCoreExpr::LetIn {
                name,
                ty: spec_let_type(stmts, i, name).unwrap(),
                value: Box::new(v),
                body: Box::new(rest),
            },
            SpecStmt::Expr { .. } => SpecCoreExpr::Sequence { first: Box::new(v), then: Box::new(rest) },
        }
    }
}

proof fn lemma_desugared_stmts(stmts: Seq<SpecStmt>, i: int, fin: SpecCoreExpr)
    requires
        0 <= i <= stmts.len(),
        forall|j: int| 0 <= j < stmts.len() ==> spec_desugar_expr(stmt_value(#[trigger] stmts[j])) is Ok,
    ensures
        spec_desugar_stmts(stmts, i, fin) == Ok::<SpecCoreExpr, SpecDesugarError>(desugared_stmts(stmts, i, fin)),
    decreases stmts.len() - i,
{
    if i < stmts.len() {
        lemma_desugared_stmts(stmts, i + 1, fin);
        assert(spec_desugar_expr(stmt_value(stmts[i])) is Ok);
    }
}

proof fn lemma_rebinds_have_types(stmts: Seq<SpecStmt>, n: int)
    requires
        0 <= n <= stmts.len(),
        spec_unbound_rebind(stmts, n) is None,
    ensures
        forall|i: int| 0 <= i < n ==> (#[trigger] stmts[i] matches SpecStmt::Rebind { name, .. } ==> spec_let_type(stmts, i, name) is Some),
    decreases n,
{
    if n > 0 {
        lemma_rebinds_have_types(stmts, n - 1);
    }
}

/// A block whose rebindings all follow a `let` of their name, and whose
/// expressions all desugar, desugars statement by statement around its
/// final expression; every rebinding then has the type of the latest
/// earlier `let` of its name.
pub proof fn law_desugar_block_statements(b: SpecBlock)
    requires
        spec_unbound_rebind(b.stmts, b.stmts.len() as int) is None,
        spec_desugar_expr(b.expr) is Ok,
        forall|j: int| 0 <= j < b.stmts.len() ==> spec_desugar_expr(stmt_value(#[trigger] b.stmts[j])) is Ok,
    ensures
        spec_desugar_block(b) == Ok::<SpecCoreExpr, SpecDesugarError>(desugared_stmts(b.stmts, 0, spec_desugar_expr(b.expr)->Ok_0)),
        forall|i: int| 0 <= i < b.stmts.len() ==> (#[trigger] b.stmts[i] matches SpecStmt::Rebind { name, .. } ==> spec_let_type(b.stmts, i, name) is Some),
{
    lemma_desugared_stmts(b.stmts, 0, spec_desugar_expr(b.expr)->Ok_0);
    lemma_rebinds_have_types(b.stmts, b.stmts.len() as int);
}

// ------------------------------------------------------------
// When desugaring fails
// ------------------------------------------------------------

/// Whether a block anywhere inside `e` has a rebinding without an earlier
/// `let` of its name in that block.
pub open spec fn expr_has_bad_rebind(e: SpecExpr) -> bool
    decreases e, 0nat,
{
    match e {
        SpecExpr::LetIn { value, body, .. } => expr_has_bad_rebind(*value) || expr_has_bad_rebind(*body),
        SpecExpr::If { cond, then_br, else_br } => expr_has_bad_rebind(*cond) || expr_has_bad_rebind(*then_br)
            || expr_has_bad_rebind(*else_br),
        SpecExpr::Lambda { body, .. } => expr_has_bad_rebind(*body),
        SpecExpr::App { head, args } => expr_has_bad_rebind(*head) || exprs_have_bad_rebind(args),
        SpecExpr::Atom(a) => atom_has_bad_rebind(a),
    }
}

pub open spec fn exprs_have_bad_rebind(es: Seq<SpecExpr>) -> bool
    decreases es, 0nat,
{
    if es.len() == 0 {
        false
    } else {
        exprs_have_bad_rebind(es.drop_last()) || expr_has_bad_rebind(es[es.len() - 1])
    }
}

pub open spec fn atom_has_bad_rebind(a: SpecAtom) -> bool
    decreases a, 0nat,
{
    match a.base {
        SpecAtomBase::Tuple(xs) => exprs_have_bad_rebind(xs),
        SpecAtomBase::Paren(e) => expr_has_bad_rebind(*e),
        SpecAtomBase::Block(b) => block_has_bad_rebind(*b),
        _ => false,
    }
}

pub open spec fn stmts_have_bad_rebind(stmts: Seq<SpecStmt>, i: int) -> bool
    decreases stmts, (if 0 <= i < stmts.len() { stmts.len() - i } else { 0 }),
{
    if i < 0 || i >= stmts.len() {
        false
    } else {
        stmts_have_bad_rebind(stmts, i + 1) || match stmts[i] {
            SpecStmt::Let { value, .. } => expr_has_bad_rebind(value),
            SpecStmt::Rebind { value, .. } => expr_has_bad_rebind(value),
            SpecStmt::Expr { expr } => expr_has_bad_rebind(expr),
        }
    }
}

pub open spec fn block_has_bad_rebind(b: SpecBlock) -> bool
    decreases b, 0nat,
{
    spec_unbound_rebind(b.stmts, b.stmts.len() as int) is Some || expr_has_bad_rebind(b.expr)
        || stmts_have_bad_rebind(b.stmts, 0)
}

/// Desugaring an expression fails exactly when a block somewhere inside it
/// has a rebinding without an earlier `let` of its name.
pub proof fn law_desugar_expr_fails_iff_bad_rebind(e: SpecExpr)
    ensures
        spec_desugar_expr(e) is Err <==> expr_has_bad_rebind(e),
    decreases e, 0nat,
{
    match e {
        SpecExpr::LetIn { value, body, .. } => {
            law_desugar_expr_fails_iff_bad_rebind(*value);
            law_desugar_expr_fails_iff_bad_rebind(*body);
        },
        SpecExpr::If { cond, then_br, else_br } => {
            law_desugar_expr_fails_iff_bad_rebind(*cond);
            law_desugar_expr_fails_iff_bad_rebind(*then_br);
            law_desugar_expr_fails_iff_bad_rebind(*else_br);
        },
        SpecExpr::Lambda { body, .. } => law_desugar_expr_fails_iff_bad_rebind(*body),
        SpecExpr::App { head, args } => {
            law_desugar_expr_fails_iff_bad_rebind(*head);
            lemma_exprs_fail_iff_bad_rebind(args);
        },
        SpecExpr::Atom(a) => lemma_atom_fails_iff_bad_rebind(a),
    }
}

proof fn lemma_exprs_fail_iff_bad_rebind(es: Seq<SpecExpr>)
    ensures
        spec_desugar_exprs(es) is Err <==> exprs_have_bad_rebind(es),
    decreases es, 0nat,
{
    if es.len() > 0 {
        lemma_exprs_fail_iff_bad_rebind(es.drop_last());
        law_desugar_expr_fails_iff_bad_rebind(es[es.len() - 1]);
    }
}

proof fn lemma_atom_fails_iff_bad_rebind(a: SpecAtom)
    ensures
        spec_desugar_atom(a) is Err <==> atom_has_bad_rebind(a),
    decreases a, 0nat,
{
    match a.base {
        SpecAtomBase::Tuple(xs) => lemma_exprs_fail_iff_bad_rebind(xs),
        SpecAtomBase::Paren(e) => law_desugar_expr_fails_iff_bad_rebind(*e),
        SpecAtomBase::Block(b) => law_desugar_block_fails_iff_bad_rebind(*b),
        _ => {},
    }
}

proof fn lemma_stmts_fail_iff_bad_rebind(stmts: Seq<SpecStmt>, i: int, fin: SpecCoreExpr)
    ensures
        spec_desugar_stmts(stmts, i, fin) is Err <==> stmts_have_bad_rebind(stmts, i),
    decreases stmts, (if 0 <= i < stmts.len() { stmts.len() - i } else { 0 }),
{
    if 0 <= i < stmts.len() {
        lemma_stmts_fail_iff_bad_rebind(stmts, i + 1, fin);
        match stmts[i] {
            SpecStmt::Let { value, .. } => law_desugar_expr_fails_iff_bad_rebind(value),
            SpecStmt::Rebind { value, .. } => law_desugar_expr_fails_iff_bad_rebind(value),
            SpecStmt::Expr { expr } => law_desugar_expr_fails_iff_bad_rebind(expr),
        }
    }
}

/// Desugaring a block fails exactly when the block, or a block anywhere
/// inside it, has a rebinding without an earlier `let` of its name in that
/// same block; the error is then `RebindWithoutPriorLet`.
pub proof fn law_desugar_block_fails_iff_bad_rebind(b: SpecBlock)
    ensures
        spec_desugar_block(b) is Err <==> block_has_bad_rebind(b),
        spec_desugar_block(b) is Err ==> spec_desugar_block(b)->Err_0 is RebindWithoutPriorLet,
    decreases b, 0nat,
{
    law_desugar_expr_fails_iff_bad_rebind(b.expr);
    if let Ok(fin) = spec_desugar_expr(b.expr) {
        lemma_stmts_fail_iff_bad_rebind(b.stmts, 0, fin);
    }
}

/// Whether `s` is a `let` of `name`.
pub open spec fn is_let_of(s: SpecStmt, name: Seq<char>) -> bool {
    s matches SpecStmt::Let { name: n, .. } && n == name
}

/// A rebinding takes the type of the latest `let` of its name before it:
/// when `stmts[j]` is `let name: ty = ...` and no statement strictly
/// between `j` and `i` is a `let` of `name`, the type before `i` is `ty`.
pub proof fn law_let_type_latest(stmts: Seq<SpecStmt>, i: int, name: Seq<char>, j: int, ty: SpecType, value: SpecExpr)
    requires
        0 <= j < i <= stmts.len(),
        stmts[j] == (SpecStmt::Let { name, ty, value }),
        forall|k: int| j < k < i ==> !is_let_of(#[trigger] stmts[k], name),
    ensures
        spec_let_type(stmts, i, name) == Some(ty),
    decreases i - j,
{
    if i - 1 > j {
        assert(!is_let_of(stmts[i - 1], name));
        law_let_type_latest(stmts, i - 1, name, j, ty, value);
    }
}

/// Without a `let` of `name` before `i` there is no type for it there.
pub proof fn law_let_type_none(stmts: Seq<SpecStmt>, i: int, name: Seq<char>)
    requires
        0 <= i <= stmts.len(),
        forall|k: int| 0 <= k < i ==> !is_let_of(#[trigger] stmts[k], name),
    ensures
        spec_let_type(stmts, i, name) is None,
    decreases i,
{
    if i > 0 {
        assert(!is_let_of(stmts[i - 1], name));
        law_let_type_none(stmts, i - 1, name);
    }
}

/// A desugared rebinding `name = value` at statement `i` is a `LetIn` of
/// `name` whose type is that of the latest earlier `let name: ty`, and
/// whose value is the desugared `value`.
pub proof fn law_desugar_rebind_type(
    stmts: Seq<SpecStmt>,
    i: int,
    fin: SpecCoreExpr,
    name: Seq<char>,
    value: SpecExpr,
    j: int,
    ty: SpecType,
    let_value: SpecExpr,
)
    requires
        0 <= j < i < stmts.len(),
        stmts[i] == (SpecStmt::Rebind { name, value }),
        stmts[j] == (SpecStmt::Let { name, ty, value: let_value }),
        forall|k: int| j < k < i ==> !is_let_of(#[trigger] stmts[k], name),
        spec_desugar_stmts(stmts, i, fin) is Ok,
    ensures
        spec_desugar_stmts(stmts, i, fin)->Ok_0 matches SpecCoreExpr::LetIn { name: n, ty: t, value: v, .. }
            && n == name && t == ty && spec_desugar_expr(value) == Ok::<SpecCoreExpr, SpecDesugarError>(*v),
{
    law_let_type_latest(stmts, i, name, j, ty, let_value);
}

} // verus!
