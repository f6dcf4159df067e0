//! Surface syntax tree of Axis programs, and its mathematical model.
use vstd::prelude::*;

verus! {

/// A whole source file: a sequence of function definitions.
#[derive(Debug, PartialEq, Eq)]
pub struct Program {
    pub functions: Vec<FnDef>,
}

/// `fn name(param: T) -> R { body }`
#[derive(Debug, PartialEq, Eq)]
pub struct FnDef {
    pub name: Ident,
    pub param: Param,
    pub ret_type: Type,
    pub body: Block,
}

#[derive(Debug, PartialEq, Eq)]
pub struct Param {
    pub name: Ident,
    pub ty: Type,
}

#[derive(Debug, Clone, PartialEq, Eq, Hash)]
pub struct Ident(pub String);

#[derive(Debug, PartialEq, Eq)]
pub enum Type {
    Int,
    Bool,
    Unit,
    /// `(T1, T2, ...)`
    Tuple(Vec<Type>),
    /// `A -> B`
    Func(Box<Type>, Box<Type>),
}

/// `{ stmt* expr }`: statements followed by a final expression.
#[derive(Debug, PartialEq, Eq)]
pub struct Block {
    pub stmts: Vec<Stmt>,
    pub expr: Expr,
}

#[derive(Debug, PartialEq, Eq)]
pub enum Stmt {
    Let { name: Ident, ty: Type, value: Expr },
    Rebind { name: Ident, value: Expr },
    Expr { expr: Expr },
}

#[derive(Debug, PartialEq, Eq)]
pub enum Expr {
    LetIn { name: Ident, ty: Type, value: Box<Expr>, body: Box<Expr> },
    If { cond: Box<Expr>, then_br: Box<Expr>, else_br: Box<Expr> },
    Lambda { param: Param, body: Box<Expr> },
    /// Head applied to the arguments, one after the other.
    App { head: Box<Expr>, args: Vec<Expr> },
    Atom(Atom),
}

/// An atom base followed by tuple projections: `.1.2` is `projs == [1, 2]`.
#[derive(Debug, PartialEq, Eq)]
pub struct Atom {
    pub base: AtomBase,
    pub projs: Vec<usize>,
}

#[derive(Debug, PartialEq, Eq)]
pub enum AtomBase {
    Lit(Lit),
    Var(Ident),
    Tuple(Vec<Expr>),
    Paren(Box<Expr>),
    Block(Box<Block>),
}

#[derive(Debug, Clone, Copy, PartialEq, Eq)]
pub enum Lit {
    Int(i64),
    Bool(bool),
    Unit,
}

// ------------------------------------------------------------
// Mathematical model: the same trees, with sequences and
// character strings in place of vectors and `String`s.
// ------------------------------------------------------------

pub enum SpecType {
    Int,
    Bool,
    Unit,
    Tuple(Seq<SpecType>),
    Func(Box<SpecType>, Box<SpecType>),
}

pub struct SpecParam {
    pub name: Seq<char>,
    pub ty: SpecType,
}

pub enum SpecExpr {
    LetIn { name: Seq<char>, ty: SpecType, value: Box<SpecExpr>, body: Box<SpecExpr> },
    If { cond: Box<SpecExpr>, then_br: Box<SpecExpr>, else_br: Box<SpecExpr> },
    Lambda { param: SpecParam, body: Box<SpecExpr> },
    App { head: Box<SpecExpr>, args: Seq<SpecExpr> },
    Atom(SpecAtom),
}

pub struct SpecAtom {
    pub base: SpecAtomBase,
    pub projs: Seq<usize>,
}

pub enum SpecAtomBase {
    Lit(Lit),
    Var(Seq<char>),
    Tuple(Seq<SpecExpr>),
    Paren(Box<SpecExpr>),
    Block(Box<SpecBlock>),
}

pub struct SpecBlock {
    pub stmts: Seq<SpecStmt>,
    pub expr: SpecExpr,
}

pub enum SpecStmt {
    Let { name: Seq<char>, ty: SpecType, value: SpecExpr },
    Rebind { name: Seq<char>, value: SpecExpr },
    Expr { expr: SpecExpr },
}

pub struct SpecFnDef {
    pub name: Seq<char>,
    pub param: SpecParam,
    pub ret_type: SpecType,
    pub body: SpecBlock,
}

pub open spec fn view_type(t: Type) -> SpecType
    decreases t,
{
    match t {
        Type::Int => SpecType::Int,
        Type::Bool => SpecType::Bool,
        Type::Unit => SpecType::Unit,
        Type::Tuple(ts) => SpecType::Tuple(view_types(ts@)),
        Type::Func(a, b) => SpecType::Func(Box::new(view_type(*a)), Box::new(view_type(*b))),
    }
}

pub open spec fn view_types(ts: Seq<Type>) -> Seq<SpecType>
    decreases ts,
{
    Seq::new(ts.len(), |i: int| if 0 <= i < ts.len() { view_type(ts[i]) } else { SpecType::Unit })
}

pub open spec fn view_param(p: Param) -> SpecParam {
    SpecParam { name: p.name.0@, ty: view_type(p.ty) }
}

pub open spec fn view_expr(e: Expr) -> SpecExpr
    decreases e,
{
    match e {
        Expr::LetIn { name, ty, value, body } => SpecExpr::LetIn {
            name: name.0@,
            ty: view_type(ty),
            value: Box::new(view_expr(*value)),
            body: Box::new(view_expr(*body)),
        },
        Expr::If { cond, then_br, else_br } => SpecExpr::If {
            cond: Box::new(view_expr(*cond)),
            then_br: Box::new(view_expr(*then_br)),
            else_br: Box::new(view_expr(*else_br)),
        },
        Expr::Lambda { param, body } => SpecExpr::Lambda {
            param: view_param(param),
            body: Box::new(view_expr(*body)),
        },
        Expr::App { head, args } => SpecExpr::App { head: Box::new(view_expr(*head)), args: view_exprs(args@) },
        Expr::Atom(a) => SpecExpr::Atom(view_atom(a)),
    }
}

pub open spec fn view_exprs(es: Seq<Expr>) -> Seq<SpecExpr>
    decreases es,
{
    Seq::new(es.len(), |i: int| if 0 <= i < es.len() { view_expr(es[i]) } else { SpecExpr::Atom(unit_atom()) })
}

pub open spec fn unit_atom() -> SpecAtom {
    SpecAtom { base: SpecAtomBase::Lit(Lit::Unit), projs: Seq::empty() }
}

pub open spec fn view_atom(a: Atom) -> SpecAtom
    decreases a,
{
    SpecAtom { base: view_atom_base(a.base), projs: a.projs@ }
}

pub open spec fn view_atom_base(b: AtomBase) -> SpecAtomBase
    decreases b,
{
    match b {
        AtomBase::Lit(l) => SpecAtomBase::Lit(l),
        AtomBase::Var(id) => SpecAtomBase::Var(id.0@),
        AtomBase::Tuple(xs) => SpecAtomBase::Tuple(view_exprs(xs@)),
        AtomBase::Paren(e) => SpecAtomBase::Paren(Box::new(view_expr(*e))),
        AtomBase::Block(bl) => SpecAtomBase::Block(Box::new(view_block(*bl))),
    }
}

pub open spec fn view_block(b: Block) -> SpecBlock
    decreases b,
{
    SpecBlock { stmts: view_stmts(b.stmts@), expr: view_expr(b.expr) }
}

pub open spec fn view_stmts(ss: Seq<Stmt>) -> Seq<SpecStmt>
    decreases ss,
{
    Seq::new(
        ss.len(),
        |i: int| if 0 <= i < ss.len() { view_stmt(ss[i]) } else { SpecStmt::Expr { expr: SpecExpr::Atom(unit_atom()) } },
    )
}

pub open spec fn view_stmt(s: Stmt) -> SpecStmt
    decreases s,
{
    match s {
        Stmt::Let { name, ty, value } => SpecStmt::Let { name: name.0@, ty: view_type(ty), value: view_expr(value) },
        Stmt::Rebind { name, value } => SpecStmt::Rebind { name: name.0@, value: view_expr(value) },
        Stmt::Expr { expr } => SpecStmt::Expr { expr: view_expr(expr) },
    }
}

pub open spec fn view_fn_def(f: FnDef) -> SpecFnDef {
    SpecFnDef {
        name: f.name.0@,
        param: view_param(f.param),
        ret_type: view_type(f.ret_type),
        body: view_block(f.body),
    }
}

impl View for Type {
    type V = SpecType;
    open spec fn view(&self) -> SpecType { view_type(*self) }
}

impl View for Param {
    type V = SpecParam;
    open spec fn view(&self) -> SpecParam { view_param(*self) }
}

impl View for Expr {
    type V = SpecExpr;
    open spec fn view(&self) -> SpecExpr { view_expr(*self) }
}

impl View for Atom {
    type V = SpecAtom;
    open spec fn view(&self) -> SpecAtom { view_atom(*self) }
}

impl View for Block {
    type V = SpecBlock;
    open spec fn view(&self) -> SpecBlock { view_block(*self) }
}

impl View for Stmt {
    type V = SpecStmt;
    open spec fn view(&self) -> SpecStmt { view_stmt(*self) }
}

impl View for FnDef {
    type V = SpecFnDef;
    open spec fn view(&self) -> SpecFnDef { view_fn_def(*self) }
}

impl View for Program {
    type V = Seq<SpecFnDef>;
    open spec fn view(&self) -> Seq<SpecFnDef> {
        Seq::new(self.functions@.len(), |i: int| view_fn_def(self.functions@[i]))
    }
}

// ------------------------------------------------------------
// Copies with the same model as the value copied.
// ------------------------------------------------------------

impl Ident {
    pub fn copy(&self) -> (r: Ident)
        ensures
            r.0@ == self.0@,
    {
        Ident(self.0.clone())
    }
}

impl Type {
    pub fn copy(&self) -> (r: Type)
        ensures
            r@ == self@,
    {
        copy_type(self)
    }
}

impl Clone for Type {
    fn clone(&self) -> (r: Type)
        ensures
            r@ == self@,
    {
        self.copy()
    }
}

impl Clone for Param {
    fn clone(&self) -> (r: Param)
        ensures
            r@ == self@,
    {
        self.copy()
    }
}

impl Clone for Expr {
    fn clone(&self) -> (r: Expr)
        ensures
            r@ == self@,
    {
        self.copy()
    }
}

impl Clone for Block {
    fn clone(&self) -> (r: Block)
        ensures
            r@ == self@,
    {
        self.copy()
    }
}

impl Clone for Atom {
    fn clone(&self) -> (r: Atom)
        ensures
            r@ == self@,
    {
        copy_atom(self)
    }
}

impl Clone for AtomBase {
    fn clone(&self) -> (r: AtomBase)
        ensures
            view_atom_base(r) == view_atom_base(*self),
    {
        copy_atom_base(self)
    }
}

impl Clone for Stmt {
    fn clone(&self) -> (r: Stmt)
        ensures
            r@ == self@,
    {
        copy_stmt(self)
    }
}

impl Clone for FnDef {
    fn clone(&self) -> (r: FnDef)
        ensures
            r@ == self@,
    {
        FnDef { name: self.name.copy(), param: self.param.copy(), ret_type: self.ret_type.copy(), body: self.body.copy() }
    }
}

impl Clone for Program {
    fn clone(&self) -> (r: Program)
        ensures
            r@ == self@,
    {
        let mut out: Vec<FnDef> = Vec::new();
        let mut i: usize = 0;
        while i < self.functions.len()
            invariant
                i <= self.functions@.len(),
                out@.len() == i,
                forall|j: int| 0 <= j < i ==> #[trigger] view_fn_def(out@[j]) == view_fn_def(self.functions@[j]),
            decreases self.functions@.len() - i,
        {
            out.push(self.functions[i].clone());
            i = i + 1;
        }
        let r = Program { functions: out };
        assert(r@ =~= self@);
        r
    }
}

impl Param {
    pub fn copy(&self) -> (r: Param)
        ensures
            r@ == self@,
    {
        Param { name: self.name.copy(), ty: self.ty.copy() }
    }
}

impl Expr {
    pub fn copy(&self) -> (r: Expr)
        ensures
            r@ == self@,
    {
        copy_expr(self)
    }
}

impl Block {
    pub fn copy(&self) -> (r: Block)
        ensures
            r@ == self@,
    {
        copy_block(self)
    }
}

fn copy_type(t: &Type) -> (r: Type)
    ensures
        view_type(r) == view_type(*t),
    decreases t,
{
    match t {
        Type::Int => Type::Int,
        Type::Bool => Type::Bool,
        Type::Unit => Type::Unit,
        Type::Tuple(ts) => {
            proof {
                assert(decreases_to!(*t => (*t)->Tuple_0));
            }
            Type::Tuple(copy_types(ts))
        },
        Type::Func(a, b) => Type::Func(Box::new(copy_type(a)), Box::new(copy_type(b))),
    }
}

fn copy_types(ts: &Vec<Type>) -> (r: Vec<Type>)
    ensures
        view_types(r@) == view_types(ts@),
    decreases ts,
{
    let mut out: Vec<Type> = Vec::new();
    let mut i: usize = 0;
    while i < ts.len()
        invariant
            i <= ts@.len(),
            out@.len() == i,
            forall|j: int| 0 <= j < i ==> #[trigger] view_type(out@[j]) == view_type(ts@[j]),
        decreases ts@.len() - i,
    {
        let elem = &ts[i];
        proof {
            assert(decreases_to!(*ts => ts@));
            assert(decreases_to!(ts@ => ts@[i as int]));
        }
        out.push(copy_type(elem));
        i = i + 1;
    }
    proof { lemma_view_types_ext(out@, ts@); }
    out
}

fn copy_expr(e: &Expr) -> (r: Expr)
    ensures
        view_expr(r) == view_expr(*e),
    decreases e,
{
    match e {
        Expr::LetIn { name, ty, value, body } => Expr::LetIn {
            name: name.copy(),
            ty: ty.copy(),
            value: Box::new(copy_expr(value)),
            body: Box::new(copy_expr(body)),
        },
        Expr::If { cond, then_br, else_br } => Expr::If {
            cond: Box::new(copy_expr(cond)),
            then_br: Box::new(copy_expr(then_br)),
            else_br: Box::new(copy_expr(else_br)),
        },
        Expr::Lambda { param, body } => Expr::Lambda { param: param.copy(), body: Box::new(copy_expr(body)) },
        Expr::App { head, args } => {
            proof {
                assert(decreases_to!(*e => (*e)->App_args));
            }
            Expr::App { head: Box::new(copy_expr(head)), args: copy_exprs(args) }
        },
        Expr::Atom(a) => {
            proof {
                assert(decreases_to!(*e => (*e)->Atom_0));
            }
            Expr::Atom(copy_atom(a))
        },
    }
}

fn copy_exprs(es: &Vec<Expr>) -> (r: Vec<Expr>)
    ensures
        view_exprs(r@) == view_exprs(es@),
    decreases es,
{
    let mut out: Vec<Expr> = Vec::new();
    let mut i: usize = 0;
    while i < es.len()
        invariant
            i <= es@.len(),
            out@.len() == i,
            forall|j: int| 0 <= j < i ==> #[trigger] view_expr(out@[j]) == view_expr(es@[j]),
        decreases es@.len() - i,
    {
        let elem = &es[i];
        proof {
            assert(decreases_to!(*es => es@));
            assert(decreases_to!(es@ => es@[i as int]));
        }
        out.push(copy_expr(elem));
        i = i + 1;
    }
    proof { lemma_view_exprs_ext(out@, es@); }
    out
}

pub(crate) fn copy_usizes(v: &Vec<usize>) -> (r: Vec<usize>)
    ensures
        r@ == v@,
{
    let mut out: Vec<usize> = Vec::new();
    let mut i: usize = 0;
    while i < v.len()
        invariant
            i <= v@.len(),
            out@ == v@.take(i as int),
        decreases v@.len() - i,
    {
        out.push(v[i]);
        i = i + 1;
        assert(out@ =~= v@.take(i as int));
    }
    assert(v@.take(v@.len() as int) =~= v@);
    out
}

fn copy_atom(a: &Atom) -> (r: Atom)
    ensures
        view_atom(r) == view_atom(*a),
    decreases a,
{
    proof {
        assert(decreases_to!(*a => (*a).base));
    }
    Atom { base: copy_atom_base(&a.base), projs: copy_usizes(&a.projs) }
}

fn copy_atom_base(b: &AtomBase) -> (r: AtomBase)
    ensures
        view_atom_base(r) == view_atom_base(*b),
    decreases b,
{
    match b {
        AtomBase::Lit(l) => AtomBase::Lit(*l),
        AtomBase::Var(id) => AtomBase::Var(id.copy()),
        AtomBase::Tuple(xs) => {
            proof {
                assert(decreases_to!(*b => (*b)->Tuple_0));
            }
            AtomBase::Tuple(copy_exprs(xs))
        },
        AtomBase::Paren(e) => AtomBase::Paren(Box::new(copy_expr(e))),
        AtomBase::Block(bl) => AtomBase::Block(Box::new(copy_block(bl))),
    }
}

fn copy_block(b: &Block) -> (r: Block)
    ensures
        view_block(r) == view_block(*b),
    decreases b,
{
    proof {
        assert(decreases_to!(*b => (*b).stmts));
    }
    Block { stmts: copy_stmts(&b.stmts), expr: copy_expr(&b.expr) }
}

fn copy_stmts(ss: &Vec<Stmt>) -> (r: Vec<Stmt>)
    ensures
        view_stmts(r@) == view_stmts(ss@),
    decreases ss,
{
    let mut out: Vec<Stmt> = Vec::new();
    let mut i: usize = 0;
    while i < ss.len()
        invariant
            i <= ss@.len(),
            out@.len() == i,
            forall|j: int| 0 <= j < i ==> #[trigger] view_stmt(out@[j]) == view_stmt(ss@[j]),
        decreases ss@.len() - i,
    {
        let elem = &ss[i];
        proof {
            assert(decreases_to!(*ss => ss@));
            assert(decreases_to!(ss@ => ss@[i as int]));
        }
        out.push(copy_stmt(elem));
        i = i + 1;
    }
    proof { lemma_view_stmts_ext(out@, ss@); }
    out
}

fn copy_stmt(s: &Stmt) -> (r: Stmt)
    ensures
        view_stmt(r) == view_stmt(*s),
    decreases s,
{
    match s {
        Stmt::Let { name, ty, value } => Stmt::Let { name: name.copy(), ty: ty.copy(), value: copy_expr(value) },
        Stmt::Rebind { name, value } => Stmt::Rebind { name: name.copy(), value: copy_expr(value) },
        Stmt::Expr { expr } => Stmt::Expr { expr: copy_expr(expr) },
    }
}

proof fn lemma_view_types_ext(a: Seq<Type>, b: Seq<Type>)
    requires
        a.len() == b.len(),
        forall|j: int| 0 <= j < a.len() ==> #[trigger] view_type(a[j]) == view_type(b[j]),
    ensures
        view_types(a) == view_types(b),
{
    assert forall|j: int| 0 <= j < a.len() implies #[trigger] view_types(a)[j] == view_types(b)[j] by {
        assert(view_type(a[j]) == view_type(b[j]));
    }
    assert(view_types(a) =~= view_types(b));
}

proof fn lemma_view_exprs_ext(a: Seq<Expr>, b: Seq<Expr>)
    requires
        a.len() == b.len(),
        forall|j: int| 0 <= j < a.len() ==> #[trigger] view_expr(a[j]) == view_expr(b[j]),
    ensures
        view_exprs(a) == view_exprs(b),
{
    assert forall|j: int| 0 <= j < a.len() implies #[trigger] view_exprs(a)[j] == view_exprs(b)[j] by {
        assert(view_expr(a[j]) == view_expr(b[j]));
    }
    assert(view_exprs(a) =~= view_exprs(b));
}

proof fn lemma_view_stmts_ext(a: Seq<Stmt>, b: Seq<Stmt>)
    requires
        a.len() == b.len(),
        forall|j: int| 0 <= j < a.len() ==> #[trigger] view_stmt(a[j]) == view_stmt(b[j]),
    ensures
        view_stmts(a) == view_stmts(b),
{
    assert forall|j: int| 0 <= j < a.len() implies #[trigger] view_stmts(a)[j] == view_stmts(b)[j] by {
        assert(view_stmt(a[j]) == view_stmt(b[j]));
    }
    assert(view_stmts(a) =~= view_stmts(b));
}

} // verus!
