//! The grammar of Axis, from tokens to syntax trees.
//!
//! ```text
//! program   := fn_def* EOF
//! fn_def    := "fn" IDENT "(" IDENT ":" type ")" "->" type block
//! type      := type_lhs ("->" type)?
//! type_lhs  := "Int" | "Bool" | "Unit" | "(" type ")" | "(" type ("," type)+ ")"
//! block     := "{" stmt* expr? "}"
//! stmt      := "let" IDENT ":" type "=" expr ";" | IDENT "=" expr ";" | expr ";"
//! expr      := "let" IDENT ":" type "=" expr "in" expr
//!            | "if" expr block "else" block
//!            | "|" IDENT ":" type "|" expr
//!            | atom (call | parse_app_arg)*
//! call      := "(" (expr ("," expr)*)? ")"
//! parse_app_arg   := (literal | IDENT) proj*
//! atom      := (literal | IDENT | "(" ")" | "(" expr ")" | "(" expr ("," expr)+ ")" | block) proj*
//! proj      := "." DIGITS
//! literal   := INT | "true" | "false"
//! ```
//!
//! A block without a final expression ends with `()`. Every application,
//! also one without arguments, is an `App` node; the branches of an `if`
//! are block atoms.
use vstd::prelude::*;

use crate::ast::{
    Atom, AtomBase, Block, Expr, FnDef, Ident, Lit, Param, Program, SpecAtom, SpecAtomBase, SpecBlock, SpecExpr,
    SpecFnDef, SpecParam, SpecStmt, SpecType, Stmt, Type, unit_atom, view_atom, view_atom_base, view_block,
    view_expr, view_exprs, view_fn_def, view_stmts, view_type, view_types,
};
use crate::lexer::{ParseError, ParseErrorKind, SpecToken, SpecTokenKind, Token, TokenKind, view_token_kind, view_tokens};

verus! {

pub type SpecParsed<T> = Result<(T, int), ParseError>;

/// The kind of the token at `p` (`Eof` past the end).
pub open spec fn tk(ts: Seq<SpecToken>, p: int) -> SpecTokenKind {
    if 0 <= p < ts.len() {
        ts[p].kind
    } else {
        SpecTokenKind::Eof
    }
}

pub open spec fn error_at(ts: Seq<SpecToken>, p: int, kind: ParseErrorKind) -> ParseError {
    ParseError { position: (if 0 <= p < ts.len() { ts[p].start } else { 0nat }) as usize, kind }
}

pub open spec fn unexpected(ts: Seq<SpecToken>, p: int) -> ParseError {
    error_at(ts, p, ParseErrorKind::UnexpectedToken)
}

/// Tokens left from `p` on.
pub open spec fn rem(ts: Seq<SpecToken>, p: int) -> nat {
    if 0 <= p < ts.len() {
        (ts.len() - p) as nat
    } else {
        0
    }
}

/// A sub-parse starting at `p` that ended at `q` consumed at least one token.
pub open spec fn moved(ts: Seq<SpecToken>, p: int, q: int) -> bool {
    0 <= p < q < ts.len()
}

pub open spec fn ident_at(ts: Seq<SpecToken>, p: int) -> Option<Seq<char>> {
    match tk(ts, p) {
        SpecTokenKind::Ident(x) => Some(x),
        _ => None,
    }
}

// ------------------------------------------------------------
// Types
// ------------------------------------------------------------

pub open spec fn spec_type(ts: Seq<SpecToken>, p: int) -> SpecParsed<SpecType>
    decreases rem(ts, p), 1nat,
{
    match spec_type_lhs(ts, p) {
        Err(e) => Err(e),
        Ok((lhs, q)) => if !moved(ts, p, q) {
            Err(unexpected(ts, q))
        } else if tk(ts, q) is Arrow {
            match spec_type(ts, q + 1) {
                Err(e) => Err(e),
                Ok((rhs, r)) => Ok((SpecType::Func(Box::new(lhs), Box::new(rhs)), r)),
            }
        } else {
            Ok((lhs, q))
        },
    }
}

pub open spec fn spec_type_lhs(ts: Seq<SpecToken>, p: int) -> SpecParsed<SpecType>
    decreases rem(ts, p), 0nat,
{
    match tk(ts, p) {
        SpecTokenKind::KwInt => Ok((SpecType::Int, p + 1)),
        SpecTokenKind::KwBool => Ok((SpecType::Bool, p + 1)),
        SpecTokenKind::KwUnit => Ok((SpecType::Unit, p + 1)),
        SpecTokenKind::LParen => match spec_type(ts, p + 1) {
            Err(e) => Err(e),
            Ok((t, q)) => if !moved(ts, p, q) {
                Err(unexpected(ts, q))
            } else if tk(ts, q) is RParen {
                Ok((t, q + 1))
            } else if tk(ts, q) is Comma {
                match spec_type_list(ts, q + 1, seq![t]) {
                    Err(e) => Err(e),
                    Ok((elems, r)) => Ok((SpecType::Tuple(elems), r)),
                }
            } else {
                Err(unexpected(ts, q))
            },
        },
        _ => Err(unexpected(ts, p)),
    }
}

/// `type ("," type)* ")"`, appended to `acc`.
pub open spec fn spec_type_list(ts: Seq<SpecToken>, p: int, acc: Seq<SpecType>) -> SpecParsed<Seq<SpecType>>
    decreases rem(ts, p), 2nat,
{
    match spec_type(ts, p) {
        Err(e) => Err(e),
        Ok((t, q)) => if !moved(ts, p, q) {
            Err(unexpected(ts, q))
        } else if tk(ts, q) is Comma {
            spec_type_list(ts, q + 1, acc.push(t))
        } else if tk(ts, q) is RParen {
            Ok((acc.push(t), q + 1))
        } else {
            Err(unexpected(ts, q))
        },
    }
}

// ------------------------------------------------------------
// Literals and projections
// ------------------------------------------------------------

pub open spec fn int_token_value(negative: bool, magnitude: nat) -> Option<i64> {
    if negative {
        if magnitude <= 0x8000_0000_0000_0000 {
            Some((0 - magnitude) as i64)
        } else {
            None
        }
    } else if magnitude <= 0x7fff_ffff_ffff_ffff {
        Some(magnitude as i64)
    } else {
        None
    }
}

/// A literal or a variable: the bases that an argument may have.
pub open spec fn spec_simple_base(ts: Seq<SpecToken>, p: int) -> SpecParsed<SpecAtomBase> {
    match tk(ts, p) {
        SpecTokenKind::Int { negative, magnitude } => match int_token_value(negative, magnitude) {
            Some(v) => Ok((SpecAtomBase::Lit(Lit::Int(v)), p + 1)),
            None => Err(error_at(ts, p, ParseErrorKind::IntegerOutOfRange)),
        },
        SpecTokenKind::KwTrue => Ok((SpecAtomBase::Lit(Lit::Bool(true)), p + 1)),
        SpecTokenKind::KwFalse => Ok((SpecAtomBase::Lit(Lit::Bool(false)), p + 1)),
        SpecTokenKind::Ident(x) => Ok((SpecAtomBase::Var(x), p + 1)),
        _ => Err(unexpected(ts, p)),
    }
}

pub open spec fn starts_simple_base(k: SpecTokenKind) -> bool {
    k is Int || k is KwTrue || k is KwFalse || k is Ident
}

/// `("." DIGITS)*`, appended to `acc`.
pub open spec fn spec_projs(ts: Seq<SpecToken>, p: int, acc: Seq<usize>) -> SpecParsed<Seq<usize>>
    decreases rem(ts, p),
{
    if tk(ts, p) is Dot && 0 <= p < ts.len() {
        match tk(ts, p + 1) {
            SpecTokenKind::Int { negative, magnitude } => if negative {
                Err(unexpected(ts, p + 1))
            } else if magnitude > usize::MAX {
                Err(error_at(ts, p + 1, ParseErrorKind::IntegerOutOfRange))
            } else if p + 1 < ts.len() {
                spec_projs(ts, p + 2, acc.push(magnitude as usize))
            } else {
                Err(unexpected(ts, p + 1))
            },
            _ => Err(unexpected(ts, p + 1)),
        }
    } else {
        Ok((acc, p))
    }
}

// ------------------------------------------------------------
// Expressions and blocks
// ------------------------------------------------------------

pub open spec fn spec_block(ts: Seq<SpecToken>, p: int) -> SpecParsed<SpecBlock>
    decreases rem(ts, p), 1nat,
{
    if tk(ts, p) is LBrace && 0 <= p < ts.len() {
        match spec_block_items(ts, p + 1, Seq::empty()) {
            Err(e) => Err(e),
            Ok(((stmts, e), q)) => Ok((SpecBlock { stmts, expr: e }, q)),
        }
    } else {
        Err(unexpected(ts, p))
    }
}

/// One step through a block: a statement, or the final expression with its `}`.
pub enum SpecItem {
    Stmt(SpecStmt),
    Final(SpecExpr),
}

/// The statements and final expression of a block from `p` to its `}`,
/// the statements appended to `acc`.
pub open spec fn spec_block_items(ts: Seq<SpecToken>, p: int, acc: Seq<SpecStmt>) -> SpecParsed<(Seq<SpecStmt>, SpecExpr)>
    decreases rem(ts, p), 7nat,
{
    match spec_block_step(ts, p) {
        Err(e) => Err(e),
        Ok((SpecItem::Final(e), n)) => Ok(((acc, e), n)),
        Ok((SpecItem::Stmt(st), n)) => if 0 <= p < n <= ts.len() {
            spec_block_items(ts, n, acc.push(st))
        } else {
            Err(unexpected(ts, n))
        },
    }
}

pub open spec fn spec_block_step(ts: Seq<SpecToken>, p: int) -> SpecParsed<SpecItem>
    decreases rem(ts, p), 6nat,
{
    if !(0 <= p < ts.len()) {
        Err(unexpected(ts, p))
    } else if tk(ts, p) is RBrace {
        Ok((SpecItem::Final(SpecExpr::Atom(unit_atom())), p + 1))
    } else if tk(ts, p) is KwLet {
        match spec_let_head(ts, p) {
            Err(e) => Err(e),
            Ok(((name, ty, v), r)) => if !moved(ts, p, r) {
                Err(unexpected(ts, r))
            } else if tk(ts, r) is Semi {
                Ok((SpecItem::Stmt(SpecStmt::Let { name, ty, value: v }), r + 1))
            } else if tk(ts, r) is KwIn {
                match spec_expr(ts, r + 1) {
                    Err(e) => Err(e),
                    Ok((body, s)) => if !moved(ts, r, s) {
                        Err(unexpected(ts, s))
                    } else {
                        spec_after_expr(ts, s, SpecExpr::LetIn { name, ty, value: Box::new(v), body: Box::new(body) })
                    },
                }
            } else {
                Err(unexpected(ts, r))
            },
        }
    } else if ident_at(ts, p) is Some && tk(ts, p + 1) is Eq {
        match spec_expr(ts, p + 2) {
            Err(e) => Err(e),
            Ok((v, r)) => if !moved(ts, p, r) {
                Err(unexpected(ts, r))
            } else if tk(ts, r) is Semi {
                Ok((SpecItem::Stmt(SpecStmt::Rebind { name: ident_at(ts, p)->Some_0, value: v }), r + 1))
            } else {
                Err(unexpected(ts, r))
            },
        }
    } else {
        match spec_expr(ts, p) {
            Err(e) => Err(e),
            Ok((e, r)) => if !moved(ts, p, r) {
                Err(unexpected(ts, r))
            } else {
                spec_after_expr(ts, r, e)
            },
        }
    }
}

/// After an expression in a block: `;` makes it a statement, `}` the final expression.
pub open spec fn spec_after_expr(ts: Seq<SpecToken>, r: int, e: SpecExpr) -> SpecParsed<SpecItem> {
    if tk(ts, r) is Semi {
        Ok((SpecItem::Stmt(SpecStmt::Expr { expr: e }), r + 1))
    } else if tk(ts, r) is RBrace {
        Ok((SpecItem::Final(e), r + 1))
    } else {
        Err(unexpected(ts, r))
    }
}

pub open spec fn block_atom(b: SpecBlock) -> SpecExpr {
    SpecExpr::Atom(SpecAtom { base: SpecAtomBase::Block(Box::new(b)), projs: Seq::empty() })
}

/// `"let" IDENT ":" type "=" expr`, the part that a `let` statement and a
/// `let` expression share.
pub open spec fn spec_let_head(ts: Seq<SpecToken>, p: int) -> SpecParsed<(Seq<char>, SpecType, SpecExpr)>
    decreases rem(ts, p), 0nat,
{
    if !(tk(ts, p) is KwLet && 0 <= p < ts.len()) {
        Err(unexpected(ts, p))
    } else {
        match (ident_at(ts, p + 1), tk(ts, p + 2)) {
            (Some(name), SpecTokenKind::Colon) => match spec_type(ts, p + 3) {
                Err(e) => Err(e),
                Ok((ty, q)) => if !moved(ts, p, q) {
                    Err(unexpected(ts, q))
                } else if !(tk(ts, q) is Eq) {
                    Err(unexpected(ts, q))
                } else {
                    match spec_expr(ts, q + 1) {
                        Err(e) => Err(e),
                        Ok((v, r)) => if !moved(ts, q, r) {
                            Err(unexpected(ts, r))
                        } else {
                            Ok(((name, ty, v), r))
                        },
                    }
                },
            },
            (None, _) => Err(unexpected(ts, p + 1)),
            (Some(_), _) => Err(unexpected(ts, p + 2)),
        }
    }
}

pub open spec fn spec_expr(ts: Seq<SpecToken>, p: int) -> SpecParsed<SpecExpr>
    decreases rem(ts, p), 5nat,
{
    if !(0 <= p < ts.len()) {
        Err(unexpected(ts, p))
    } else if tk(ts, p) is KwLet {
        match spec_let_head(ts, p) {
            Err(e) => Err(e),
            Ok(((name, ty, v), r)) => if !moved(ts, p, r) {
                Err(unexpected(ts, r))
            } else if !(tk(ts, r) is KwIn) {
                Err(unexpected(ts, r))
            } else {
                match spec_expr(ts, r + 1) {
                    Err(e) => Err(e),
                    Ok((body, s)) => Ok((SpecExpr::LetIn { name, ty, value: Box::new(v), body: Box::new(body) }, s)),
                }
            },
        }
    } else if tk(ts, p) is KwIf {
        spec_if(ts, p)
    } else if tk(ts, p) is Pipe {
        spec_lambda(ts, p)
    } else {
        spec_app(ts, p)
    }
}

pub open spec fn spec_if(ts: Seq<SpecToken>, p: int) -> SpecParsed<SpecExpr>
    decreases rem(ts, p), 0nat,
{
    if !(0 <= p < ts.len()) {
        Err(unexpected(ts, p))
    } else {
        match spec_expr(ts, p + 1) {
            Err(e) => Err(e),
            Ok((c, q)) => if !moved(ts, p, q) {
                Err(unexpected(ts, q))
            } else {
                match spec_block(ts, q) {
                    Err(e) => Err(e),
                    Ok((tb, r)) => if !moved(ts, q, r) {
                        Err(unexpected(ts, r))
                    } else if !(tk(ts, r) is KwElse) {
                        Err(unexpected(ts, r))
                    } else {
                        match spec_block(ts, r + 1) {
                            Err(e) => Err(e),
                            Ok((eb, s)) => Ok((
                                SpecExpr::If { cond: Box::new(c), then_br: Box::new(block_atom(tb)), else_br: Box::new(block_atom(eb)) },
                                s,
                            )),
                        }
                    },
                }
            },
        }
    }
}

pub open spec fn spec_lambda(ts: Seq<SpecToken>, p: int) -> SpecParsed<SpecExpr>
    decreases rem(ts, p), 0nat,
{
    if !(0 <= p < ts.len()) {
        Err(unexpected(ts, p))
    } else {
        match (ident_at(ts, p + 1), tk(ts, p + 2)) {
            (Some(name), SpecTokenKind::Colon) => match spec_type(ts, p + 3) {
                Err(e) => Err(e),
                Ok((ty, q)) => if !moved(ts, p, q) {
                    Err(unexpected(ts, q))
                } else if !(tk(ts, q) is Pipe) {
                    Err(unexpected(ts, q))
                } else {
                    match spec_expr(ts, q + 1) {
                        Err(e) => Err(e),
                        Ok((body, r)) => Ok((SpecExpr::Lambda { param: SpecParam { name, ty }, body: Box::new(body) }, r)),
                    }
                },
            },
            (None, _) => Err(unexpected(ts, p + 1)),
            (Some(_), _) => Err(unexpected(ts, p + 2)),
        }
    }
}

pub open spec fn spec_app(ts: Seq<SpecToken>, p: int) -> SpecParsed<SpecExpr>
    decreases rem(ts, p), 4nat,
{
    match spec_atom(ts, p) {
        Err(e) => Err(e),
        Ok((a, q)) => if !moved(ts, p, q) {
            Err(unexpected(ts, q))
        } else {
            match spec_app_args(ts, q, Seq::empty()) {
                Err(e) => Err(e),
                Ok((args, r)) => Ok((SpecExpr::App { head: Box::new(SpecExpr::Atom(a)), args }, r)),
            }
        },
    }
}

/// The arguments after an application's head, appended to `acc`.
pub open spec fn spec_app_args(ts: Seq<SpecToken>, p: int, acc: Seq<SpecExpr>) -> SpecParsed<Seq<SpecExpr>>
    decreases rem(ts, p), 3nat,
{
    if !(0 <= p < ts.len()) {
        Ok((acc, p))
    } else if tk(ts, p) is LParen {
        if tk(ts, p + 1) is RParen && p + 1 < ts.len() {
            spec_app_args(ts, p + 2, acc)
        } else {
            match spec_expr_list(ts, p + 1, acc) {
                Err(e) => Err(e),
                Ok((acc2, q)) => if !moved(ts, p, q) {
                    Err(unexpected(ts, q))
                } else {
                    spec_app_args(ts, q, acc2)
                },
            }
        }
    } else if starts_simple_base(tk(ts, p)) {
        match spec_app_arg(ts, p) {
            Err(e) => Err(e),
            Ok((a, q)) => if !moved(ts, p, q) {
                Err(unexpected(ts, q))
            } else {
                spec_app_args(ts, q, acc.push(SpecExpr::Atom(a)))
            },
        }
    } else {
        Ok((acc, p))
    }
}

pub open spec fn spec_app_arg(ts: Seq<SpecToken>, p: int) -> SpecParsed<SpecAtom>
    decreases rem(ts, p), 2nat,
{
    match spec_simple_base(ts, p) {
        Err(e) => Err(e),
        Ok((base, q)) => match spec_projs(ts, q, Seq::empty()) {
            Err(e) => Err(e),
            Ok((projs, r)) => Ok((SpecAtom { base, projs }, r)),
        },
    }
}

/// `expr ("," expr)* ")"`, appended to `acc`.
pub open spec fn spec_expr_list(ts: Seq<SpecToken>, p: int, acc: Seq<SpecExpr>) -> SpecParsed<Seq<SpecExpr>>
    decreases rem(ts, p), 6nat,
{
    match spec_expr(ts, p) {
        Err(e) => Err(e),
        Ok((e, q)) => if !moved(ts, p, q) {
            Err(unexpected(ts, q))
        } else if tk(ts, q) is Comma {
            spec_expr_list(ts, q + 1, acc.push(e))
        } else if tk(ts, q) is RParen {
            Ok((acc.push(e), q + 1))
        } else {
            Err(unexpected(ts, q))
        },
    }
}

pub open spec fn spec_atom(ts: Seq<SpecToken>, p: int) -> SpecParsed<SpecAtom>
    decreases rem(ts, p), 3nat,
{
    match spec_atom_base(ts, p) {
        Err(e) => Err(e),
        Ok((base, q)) => match spec_projs(ts, q, Seq::empty()) {
            Err(e) => Err(e),
            Ok((projs, r)) => Ok((SpecAtom { base, projs }, r)),
        },
    }
}

pub open spec fn spec_atom_base(ts: Seq<SpecToken>, p: int) -> SpecParsed<SpecAtomBase>
    decreases rem(ts, p), 2nat,
{
    if !(0 <= p < ts.len()) {
        Err(unexpected(ts, p))
    } else if tk(ts, p) is LBrace {
        match spec_block(ts, p) {
            Err(e) => Err(e),
            Ok((b, q)) => Ok((SpecAtomBase::Block(Box::new(b)), q)),
        }
    } else if tk(ts, p) is LParen {
        if tk(ts, p + 1) is RParen {
            Ok((SpecAtomBase::Lit(Lit::Unit), p + 2))
        } else {
            match spec_expr(ts, p + 1) {
                Err(e) => Err(e),
                Ok((e, q)) => if !moved(ts, p, q) {
                    Err(unexpected(ts, q))
                } else if tk(ts, q) is RParen {
                    Ok((SpecAtomBase::Paren(Box::new(e)), q + 1))
                } else if tk(ts, q) is Comma {
                    match spec_expr_list(ts, q + 1, seq![e]) {
                        Err(e2) => Err(e2),
                        Ok((xs, r)) => Ok((SpecAtomBase::Tuple(xs), r)),
                    }
                } else {
                    Err(unexpected(ts, q))
                },
            }
        }
    } else {
        spec_simple_base(ts, p)
    }
}

// ------------------------------------------------------------
// Laws of the parser
// ------------------------------------------------------------

/// From `q` on, the tokens are `. m0 . m1 ... . m(n-1)` for `ms = [m0, ...]`,
/// and no further `.` follows.
pub open spec fn proj_tokens(ts: Seq<SpecToken>, q: int, ms: Seq<usize>) -> bool {
    &&& forall|k: int| 0 <= k < ms.len() ==> #[trigger] tk(ts, q + 2 * k) is Dot
    &&& forall|k: int| 0 <= k < ms.len() ==> #[trigger] tk(ts, q + 2 * k + 1)
        == SpecTokenKind::Int { negative: false, magnitude: ms[k] as nat }
    &&& !(tk(ts, q + 2 * ms.len()) is Dot)
}

proof fn lemma_projs_tokens(ts: Seq<SpecToken>, q: int, ms: Seq<usize>, acc: Seq<usize>)
    requires
        proj_tokens(ts, q, ms),
    ensures
        spec_projs(ts, q, acc) == Ok::<(Seq<usize>, int), ParseError>((acc + ms, q + 2 * ms.len())),
    decreases ms.len(),
{
    if ms.len() == 0 {
        assert(acc + ms =~= acc);
    } else {
        assert(tk(ts, q + 2 * 0) is Dot);
        assert(tk(ts, q + 2 * 0 + 1) == SpecTokenKind::Int { negative: false, magnitude: ms[0] as nat });
        let rest = ms.drop_first();
        assert forall|k: int| 0 <= k < rest.len() implies #[trigger] tk(ts, (q + 2) + 2 * k) is Dot by {
            assert(tk(ts, q + 2 * (k + 1)) is Dot);
            assert(q + 2 * (k + 1) == (q + 2) + 2 * k);
        }
        assert forall|k: int| 0 <= k < rest.len() implies #[trigger] tk(ts, (q + 2) + 2 * k + 1)
            == SpecTokenKind::Int { negative: false, magnitude: rest[k] as nat } by {
            assert(tk(ts, q + 2 * (k + 1) + 1) == SpecTokenKind::Int { negative: false, magnitude: ms[k + 1] as nat });
            assert(q + 2 * (k + 1) + 1 == (q + 2) + 2 * k + 1);
        }
        assert((q + 2) + 2 * rest.len() == q + 2 * ms.len());
        lemma_projs_tokens(ts, q + 2, rest, acc.push(ms[0]));
        assert(acc.push(ms[0]) + rest =~= acc + ms);
    }
}

/// The projections of an argument written after a function, `base.m0.m1...`,
/// are exactly the numbers written after its dots, in order: the argument
/// is the atom of the base with projections `[m0, m1, ...]`, and parsing
/// goes on after the last of them.
pub proof fn law_app_arg_projections(ts: Seq<SpecToken>, p: int, ms: Seq<usize>)
    requires
        spec_simple_base(ts, p) is Ok,
        proj_tokens(ts, p + 1, ms),
    ensures
        spec_app_arg(ts, p) == Ok::<(SpecAtom, int), ParseError>((
            SpecAtom { base: spec_simple_base(ts, p)->Ok_0.0, projs: ms },
            p + 1 + 2 * ms.len(),
        )),
{
    lemma_projs_tokens(ts, p + 1, ms, Seq::empty());
    assert(Seq::<usize>::empty() + ms =~= ms);
}

/// The same for an atom at the head of an expression: written
/// `base.m0.m1...`, it has the projections `[m0, m1, ...]`.
pub proof fn law_atom_projections(ts: Seq<SpecToken>, p: int, ms: Seq<usize>)
    requires
        spec_simple_base(ts, p) is Ok,
        proj_tokens(ts, p + 1, ms),
    ensures
        spec_atom(ts, p) == Ok::<(SpecAtom, int), ParseError>((
            SpecAtom { base: spec_simple_base(ts, p)->Ok_0.0, projs: ms },
            p + 1 + 2 * ms.len(),
        )),
{
    lemma_projs_tokens(ts, p + 1, ms, Seq::empty());
    assert(Seq::<usize>::empty() + ms =~= ms);
}

/// Literals and names: `true` and `false` are the booleans, a name is a
/// variable, and an integer token is the integer it writes, its sign
/// included, or an error where that integer is outside `i64`.
pub proof fn law_simple_base(ts: Seq<SpecToken>, p: int)
    ensures
        tk(ts, p) is KwTrue ==> spec_simple_base(ts, p) == Ok::<(SpecAtomBase, int), ParseError>((SpecAtomBase::Lit(Lit::Bool(true)), p + 1)),
        tk(ts, p) is KwFalse ==> spec_simple_base(ts, p) == Ok::<(SpecAtomBase, int), ParseError>((SpecAtomBase::Lit(Lit::Bool(false)), p + 1)),
        tk(ts, p) is Ident ==> spec_simple_base(ts, p) == Ok::<(SpecAtomBase, int), ParseError>((SpecAtomBase::Var(tk(ts, p)->Ident_0), p + 1)),
{
}

/// An integer token is the integer it writes, its sign included, or an
/// error at the token where that integer is outside `i64`.
pub proof fn law_int_literal(ts: Seq<SpecToken>, p: int, negative: bool, magnitude: nat)
    requires
        tk(ts, p) == (SpecTokenKind::Int { negative, magnitude }),
    ensures
        ({
            let v: int = if negative { -magnitude } else { magnitude as int };
            if i64::MIN <= v <= i64::MAX {
                &&& spec_simple_base(ts, p) is Ok
                &&& spec_simple_base(ts, p)->Ok_0.1 == p + 1
                &&& spec_simple_base(ts, p)->Ok_0.0 is Lit
                &&& spec_simple_base(ts, p)->Ok_0.0->Lit_0 is Int
                &&& spec_simple_base(ts, p)->Ok_0.0->Lit_0->Int_0 == v
            } else {
                spec_simple_base(ts, p) == Err::<(SpecAtomBase, int), ParseError>(error_at(ts, p, ParseErrorKind::IntegerOutOfRange))
            }
        }),
{
}

/// Base types are their keywords.
pub proof fn law_base_types(ts: Seq<SpecToken>, p: int)
    ensures
        tk(ts, p) is KwInt ==> spec_type_lhs(ts, p) == Ok::<(SpecType, int), ParseError>((SpecType::Int, p + 1)),
        tk(ts, p) is KwBool ==> spec_type_lhs(ts, p) == Ok::<(SpecType, int), ParseError>((SpecType::Bool, p + 1)),
        tk(ts, p) is KwUnit ==> spec_type_lhs(ts, p) == Ok::<(SpecType, int), ParseError>((SpecType::Unit, p + 1)),
{
}

/// An arrow makes a function type whose argument is the type before it
/// (not itself an arrow type unless in parentheses) and whose result is
/// all of the type after it, so arrows group to the right; without an
/// arrow the type is the one before.
pub proof fn law_type_arrow(ts: Seq<SpecToken>, p: int, a: SpecType, q: int, b: SpecType, r: int)
    requires
        spec_type_lhs(ts, p) == Ok::<(SpecType, int), ParseError>((a, q)),
        0 <= p < q < ts.len(),
    ensures
        !(tk(ts, q) is Arrow) ==> spec_type(ts, p) == Ok::<(SpecType, int), ParseError>((a, q)),
        tk(ts, q) is Arrow && spec_type(ts, q + 1) == Ok::<(SpecType, int), ParseError>((b, r))
            ==> spec_type(ts, p) == Ok::<(SpecType, int), ParseError>((SpecType::Func(Box::new(a), Box::new(b)), r)),
{
}

/// `}` ends a block; without a final expression the block ends with `()`.
pub proof fn law_block_end(ts: Seq<SpecToken>, p: int)
    requires
        0 <= p < ts.len(),
        tk(ts, p) is RBrace,
    ensures
        spec_block_step(ts, p) == Ok::<(SpecItem, int), ParseError>((SpecItem::Final(SpecExpr::Atom(unit_atom())), p + 1)),
        unit_atom() == (SpecAtom { base: SpecAtomBase::Lit(Lit::Unit), projs: Seq::empty() }),
{
}

/// `let name: ty = value;` in a block is a `let` statement of that name,
/// type and value.
pub proof fn law_let_statement(ts: Seq<SpecToken>, p: int, name: Seq<char>, ty: SpecType, q: int, v: SpecExpr, r: int)
    requires
        0 <= p < ts.len(),
        tk(ts, p) is KwLet,
        tk(ts, p + 1) == SpecTokenKind::Ident(name),
        tk(ts, p + 2) is Colon,
        spec_type(ts, p + 3) == Ok::<(SpecType, int), ParseError>((ty, q)),
        p < q,
        tk(ts, q) is Eq,
        spec_expr(ts, q + 1) == Ok::<(SpecExpr, int), ParseError>((v, r)),
        q < r < ts.len(),
        tk(ts, r) is Semi,
    ensures
        spec_block_step(ts, p) == Ok::<(SpecItem, int), ParseError>((SpecItem::Stmt(SpecStmt::Let { name, ty, value: v }), r + 1)),
{
}

/// `name = value;` in a block is a rebinding of that name to that value.
pub proof fn law_rebind_statement(ts: Seq<SpecToken>, p: int, name: Seq<char>, v: SpecExpr, r: int)
    requires
        0 <= p < ts.len(),
        tk(ts, p) == SpecTokenKind::Ident(name),
        tk(ts, p + 1) is Eq,
        spec_expr(ts, p + 2) == Ok::<(SpecExpr, int), ParseError>((v, r)),
        p < r < ts.len(),
        tk(ts, r) is Semi,
    ensures
        spec_block_step(ts, p) == Ok::<(SpecItem, int), ParseError>((SpecItem::Stmt(SpecStmt::Rebind { name, value: v }), r + 1)),
{
}

/// Any other expression followed by `;` is an expression statement, and
/// followed by `}` is the block's final expression.
pub proof fn law_expr_statement(ts: Seq<SpecToken>, p: int, e: SpecExpr, r: int)
    requires
        0 <= p < ts.len(),
        !(tk(ts, p) is RBrace),
        !(tk(ts, p) is KwLet),
        !(tk(ts, p) is Ident && tk(ts, p + 1) is Eq),
        spec_expr(ts, p) == Ok::<(SpecExpr, int), ParseError>((e, r)),
        p < r < ts.len(),
    ensures
        tk(ts, r) is Semi ==> spec_block_step(ts, p) == Ok::<(SpecItem, int), ParseError>((SpecItem::Stmt(SpecStmt::Expr { expr: e }), r + 1)),
        tk(ts, r) is RBrace ==> spec_block_step(ts, p) == Ok::<(SpecItem, int), ParseError>((SpecItem::Final(e), r + 1)),
{
}

/// `|name: ty| body` is a lambda with that parameter and body.
pub proof fn law_lambda(ts: Seq<SpecToken>, p: int, name: Seq<char>, ty: SpecType, q: int, body: SpecExpr, r: int)
    requires
        0 <= p < ts.len(),
        tk(ts, p) is Pipe,
        tk(ts, p + 1) == SpecTokenKind::Ident(name),
        tk(ts, p + 2) is Colon,
        spec_type(ts, p + 3) == Ok::<(SpecType, int), ParseError>((ty, q)),
        p < q,
        tk(ts, q) is Pipe,
        spec_expr(ts, q + 1) == Ok::<(SpecExpr, int), ParseError>((body, r)),
    ensures
        spec_expr(ts, p) == Ok::<(SpecExpr, int), ParseError>((SpecExpr::Lambda { param: SpecParam { name, ty }, body: Box::new(body) }, r)),
{
    assert(spec_expr(ts, p) == spec_lambda(ts, p));
}

/// `if c { .. } else { .. }` is an `if` whose condition is `c` and whose
/// branches are the two blocks, in that order.
pub proof fn law_if(ts: Seq<SpecToken>, p: int, c: SpecExpr, q: int, tb: SpecBlock, r: int, eb: SpecBlock, s: int)
    requires
        0 <= p < ts.len(),
        tk(ts, p) is KwIf,
        spec_expr(ts, p + 1) == Ok::<(SpecExpr, int), ParseError>((c, q)),
        p < q < ts.len(),
        spec_block(ts, q) == Ok::<(SpecBlock, int), ParseError>((tb, r)),
        q < r < ts.len(),
        tk(ts, r) is KwElse,
        spec_block(ts, r + 1) == Ok::<(SpecBlock, int), ParseError>((eb, s)),
    ensures
        spec_expr(ts, p) == Ok::<(SpecExpr, int), ParseError>((
            SpecExpr::If {
                cond: Box::new(c),
                then_br: Box::new(SpecExpr::Atom(SpecAtom { base: SpecAtomBase::Block(Box::new(tb)), projs: Seq::empty() })),
                else_br: Box::new(SpecExpr::Atom(SpecAtom { base: SpecAtomBase::Block(Box::new(eb)), projs: Seq::empty() })),
            },
            s,
        )),
{
    assert(spec_expr(ts, p) == spec_if(ts, p));
}

/// A comma-separated list keeps its expressions in the order written: each
/// expression is appended after those before it, `,` continues the list
/// and `)` ends it.
pub proof fn law_expr_list(ts: Seq<SpecToken>, p: int, acc: Seq<SpecExpr>, e: SpecExpr, q: int)
    requires
        spec_expr(ts, p) == Ok::<(SpecExpr, int), ParseError>((e, q)),
        0 <= p < q < ts.len(),
    ensures
        tk(ts, q) is Comma ==> spec_expr_list(ts, p, acc) == spec_expr_list(ts, q + 1, acc.push(e)),
        tk(ts, q) is RParen ==> spec_expr_list(ts, p, acc) == Ok::<(Seq<SpecExpr>, int), ParseError>((acc.push(e), q + 1)),
{
}

/// The arguments of a call `(a1, ..., an)` follow the arguments before
/// them in the order written; `()` adds none.
pub proof fn law_call_args(ts: Seq<SpecToken>, p: int, acc: Seq<SpecExpr>, acc2: Seq<SpecExpr>, q: int)
    requires
        0 <= p < ts.len(),
        tk(ts, p) is LParen,
    ensures
        p + 1 < ts.len() && tk(ts, p + 1) is RParen ==> spec_app_args(ts, p, acc) == spec_app_args(ts, p + 2, acc),
        !(tk(ts, p + 1) is RParen) && spec_expr_list(ts, p + 1, acc) == Ok::<(Seq<SpecExpr>, int), ParseError>((acc2, q)) && p < q < ts.len()
            ==> spec_app_args(ts, p, acc) == spec_app_args(ts, q, acc2),
{
}

/// Parenthesized, `( e )` is `e` in parentheses and `( e , ...)` a tuple
/// whose first element is `e`; `()` is the unit literal.
pub proof fn law_paren_and_tuple(ts: Seq<SpecToken>, p: int, e: SpecExpr, q: int, xs: Seq<SpecExpr>, r: int)
    requires
        0 <= p < ts.len(),
        tk(ts, p) is LParen,
    ensures
        tk(ts, p + 1) is RParen ==> spec_atom_base(ts, p) == Ok::<(SpecAtomBase, int), ParseError>((SpecAtomBase::Lit(Lit::Unit), p + 2)),
        !(tk(ts, p + 1) is RParen) && spec_expr(ts, p + 1) == Ok::<(SpecExpr, int), ParseError>((e, q)) && p < q < ts.len()
            ==> (tk(ts, q) is RParen ==> spec_atom_base(ts, p) == Ok::<(SpecAtomBase, int), ParseError>((SpecAtomBase::Paren(Box::new(e)), q + 1)))
            && (tk(ts, q) is Comma && spec_expr_list(ts, q + 1, seq![e]) == Ok::<(Seq<SpecExpr>, int), ParseError>((xs, r))
                ==> spec_atom_base(ts, p) == Ok::<(SpecAtomBase, int), ParseError>((SpecAtomBase::Tuple(xs), r))),
{
}

// ------------------------------------------------------------
// Functions and programs
// ------------------------------------------------------------

pub open spec fn spec_fn_def(ts: Seq<SpecToken>, p: int) -> SpecParsed<SpecFnDef> {
    if !(tk(ts, p) is KwFn) {
        Err(unexpected(ts, p))
    } else if ident_at(ts, p + 1) is None {
        Err(unexpected(ts, p + 1))
    } else if !(tk(ts, p + 2) is LParen) {
        Err(unexpected(ts, p + 2))
    } else if ident_at(ts, p + 3) is None {
        Err(unexpected(ts, p + 3))
    } else if !(tk(ts, p + 4) is Colon) {
        Err(unexpected(ts, p + 4))
    } else {
        match spec_type(ts, p + 5) {
            Err(e) => Err(e),
            Ok((pty, q)) => if !(tk(ts, q) is RParen) {
                Err(unexpected(ts, q))
            } else if !(tk(ts, q + 1) is Arrow) {
                Err(unexpected(ts, q + 1))
            } else {
                match spec_type(ts, q + 2) {
                    Err(e) => Err(e),
                    Ok((rty, r)) => match spec_block(ts, r) {
                        Err(e) => Err(e),
                        Ok((body, s)) => Ok((
                            SpecFnDef {
                                name: ident_at(ts, p + 1)->Some_0,
                                param: SpecParam { name: ident_at(ts, p + 3)->Some_0, ty: pty },
                                ret_type: rty,
                                body,
                            },
                            s,
                        )),
                    },
                }
            },
        }
    }
}

/// Function definitions from `p` to the end of the input, appended to `acc`.
pub open spec fn spec_fn_defs(ts: Seq<SpecToken>, p: int, acc: Seq<SpecFnDef>) -> Result<Seq<SpecFnDef>, ParseError>
    decreases rem(ts, p),
{
    if tk(ts, p) is Eof {
        Ok(acc)
    } else {
        match spec_fn_def(ts, p) {
            Err(e) => Err(e),
            Ok((f, q)) => if !moved(ts, p, q) {
                Err(unexpected(ts, q))
            } else {
                spec_fn_defs(ts, q, acc.push(f))
            },
        }
    }
}

pub open spec fn spec_parse_tokens(ts: Seq<SpecToken>) -> Result<Seq<SpecFnDef>, ParseError> {
    spec_fn_defs(ts, 0, Seq::empty())
}

/// `fn name(pname: pty) -> rty { body }` is a function definition with that
/// name, parameter, result type and body.
pub proof fn law_fn_def(
    ts: Seq<SpecToken>,
    p: int,
    name: Seq<char>,
    pname: Seq<char>,
    pty: SpecType,
    q: int,
    rty: SpecType,
    r: int,
    body: SpecBlock,
    s: int,
)
    requires
        tk(ts, p) is KwFn,
        tk(ts, p + 1) == SpecTokenKind::Ident(name),
        tk(ts, p + 2) is LParen,
        tk(ts, p + 3) == SpecTokenKind::Ident(pname),
        tk(ts, p + 4) is Colon,
        spec_type(ts, p + 5) == Ok::<(SpecType, int), ParseError>((pty, q)),
        tk(ts, q) is RParen,
        tk(ts, q + 1) is Arrow,
        spec_type(ts, q + 2) == Ok::<(SpecType, int), ParseError>((rty, r)),
        spec_block(ts, r) == Ok::<(SpecBlock, int), ParseError>((body, s)),
    ensures
        spec_fn_def(ts, p) == Ok::<(SpecFnDef, int), ParseError>((
            SpecFnDef { name, param: SpecParam { name: pname, ty: pty }, ret_type: rty, body },
            s,
        )),
{
}

/// A program is its function definitions in the order they are written:
/// the token stream ends after them, and every definition starts where the
/// one before it ended.
pub proof fn law_program_in_order(ts: Seq<SpecToken>, p: int, acc: Seq<SpecFnDef>, f: SpecFnDef, q: int)
    requires
        !(tk(ts, p) is Eof),
        spec_fn_def(ts, p) == Ok::<(SpecFnDef, int), ParseError>((f, q)),
        0 <= p < q < ts.len(),
    ensures
        spec_fn_defs(ts, p, acc) == spec_fn_defs(ts, q, acc.push(f)),
{
}

/// At the end of the tokens the program is the definitions read so far.
pub proof fn law_program_end(ts: Seq<SpecToken>, p: int, acc: Seq<SpecFnDef>)
    requires
        tk(ts, p) is Eof,
    ensures
        spec_fn_defs(ts, p, acc) == Ok::<Seq<SpecFnDef>, ParseError>(acc),
{
}

/// The program that the text `cs` spells, or why it spells none.
pub open spec fn spec_parse_source(cs: Seq<char>) -> Result<Seq<SpecFnDef>, ParseError> {
    match crate::lexer::spec_lex(cs, 0) {
        Err(e) => Err(e),
        Ok(ts) => spec_parse_tokens(ts),
    }
}

// ------------------------------------------------------------
// Parser
// ------------------------------------------------------------

pub open spec fn parsed_as<T, V>(r: Result<(T, usize), ParseError>, s: SpecParsed<V>, view: spec_fn(T) -> V) -> bool {
    match r {
        Ok((t, q)) => s == Ok::<(V, int), ParseError>((view(t), q as int)),
        Err(e) => s == Err::<(V, int), ParseError>(e),
    }
}

fn kind_at(ts: &Vec<Token>, p: usize) -> (r: Option<&TokenKind>)
    ensures
        ts@.len() <= usize::MAX,
        match r {
            Some(k) => p < ts@.len() && view_token_kind(*k) == tk(view_tokens(ts@), p as int),
            None => p >= ts@.len() && tk(view_tokens(ts@), p as int) is Eof,
        },
{
    if p < ts.len() {
        Some(&ts[p].kind)
    } else {
        None
    }
}

fn error_here(ts: &Vec<Token>, p: usize, kind: ParseErrorKind) -> (r: ParseError)
    ensures
        r == error_at(view_tokens(ts@), p as int, kind),
{
    if p < ts.len() {
        ParseError { position: ts[p].start, kind }
    } else {
        ParseError { position: 0, kind }
    }
}

fn unexpected_here(ts: &Vec<Token>, p: usize) -> (r: ParseError)
    ensures
        r == unexpected(view_tokens(ts@), p as int),
{
    error_here(ts, p, ParseErrorKind::UnexpectedToken)
}

fn ident_here(ts: &Vec<Token>, p: usize) -> (r: Option<Ident>)
    ensures
        match r {
            Some(id) => ident_at(view_tokens(ts@), p as int) == Some(id.0@),
            None => ident_at(view_tokens(ts@), p as int) is None,
        },
{
    match kind_at(ts, p) {
        Some(TokenKind::Ident(x)) => Some(Ident(x.clone())),
        _ => None,
    }
}

pub fn parse_type(ts: &Vec<Token>, p: usize) -> (r: Result<(Type, usize), ParseError>)
    ensures
        parsed_as(r, spec_type(view_tokens(ts@), p as int), |t: Type| t@),
    decreases rem(view_tokens(ts@), p as int), 1nat,
{
    let ghost vt = view_tokens(ts@);
    let (lhs, q) = match parse_type_lhs(ts, p) {
        Err(e) => return Err(e),
        Ok(x) => x,
    };
    if !(p < q && q < ts.len()) {
        return Err(unexpected_here(ts, q));
    }
    match kind_at(ts, q) {
        Some(TokenKind::Arrow) => match parse_type(ts, q + 1) {
            Err(e) => Err(e),
            Ok((rhs, r)) => Ok((Type::Func(Box::new(lhs), Box::new(rhs)), r)),
        },
        _ => Ok((lhs, q)),
    }
}

fn parse_type_lhs(ts: &Vec<Token>, p: usize) -> (r: Result<(Type, usize), ParseError>)
    ensures
        parsed_as(r, spec_type_lhs(view_tokens(ts@), p as int), |t: Type| t@),
    decreases rem(view_tokens(ts@), p as int), 0nat,
{
    match kind_at(ts, p) {
        Some(TokenKind::KwInt) => Ok((Type::Int, p + 1)),
        Some(TokenKind::KwBool) => Ok((Type::Bool, p + 1)),
        Some(TokenKind::KwUnit) => Ok((Type::Unit, p + 1)),
        Some(TokenKind::LParen) => {
            let (t, q) = match parse_type(ts, p + 1) {
                Err(e) => return Err(e),
                Ok(x) => x,
            };
            if !(p < q && q < ts.len()) {
                return Err(unexpected_here(ts, q));
            }
            match kind_at(ts, q) {
                Some(TokenKind::RParen) => Ok((t, q + 1)),
                Some(TokenKind::Comma) => {
                    let mut acc: Vec<Type> = Vec::new();
                    acc.push(t);
                    proof {
                        assert(view_types(acc@) =~= seq![t@]);
                    }
                    match parse_type_list(ts, q + 1, acc) {
                        Err(e) => Err(e),
                        Ok((elems, r)) => Ok((Type::Tuple(elems), r)),
                    }
                },
                _ => Err(unexpected_here(ts, q)),
            }
        },
        _ => Err(unexpected_here(ts, p)),
    }
}

fn parse_type_list(ts: &Vec<Token>, p0: usize, acc0: Vec<Type>) -> (r: Result<(Vec<Type>, usize), ParseError>)
    ensures
        parsed_as(r, spec_type_list(view_tokens(ts@), p0 as int, view_types(acc0@)), |v: Vec<Type>| view_types(v@)),
    decreases rem(view_tokens(ts@), p0 as int), 2nat,
{
    let ghost vt = view_tokens(ts@);
    let ghost goal = spec_type_list(vt, p0 as int, view_types(acc0@));
    let ghost a0 = view_types(acc0@);
    let mut acc = acc0;
    let mut p = p0;
    loop
        invariant
            vt == view_tokens(ts@),
            p0 <= p,
            p0 == p || p0 < p <= ts@.len(),
            goal == spec_type_list(vt, p as int, view_types(acc@)),
            goal == spec_type_list(vt, p0 as int, a0),
            goal == spec_type_list(view_tokens(ts@), p0 as int, view_types(acc0@)),
        decreases rem(vt, p as int),
    {
        let ghost pre = acc@;
        let (t, q) = match parse_type(ts, p) {
            Err(e) => return Err(e),
            Ok(x) => x,
        };
        if !(p < q && q < ts.len()) {
            return Err(unexpected_here(ts, q));
        }
        acc.push(t);
        proof {
            assert(view_types(acc@) =~= view_types(pre).push(t@));
        }
        match kind_at(ts, q) {
            Some(TokenKind::Comma) => {
                p = q + 1;
            },
            Some(TokenKind::RParen) => {
                return Ok((acc, q + 1));
            },
            _ => {
                return Err(unexpected_here(ts, q));
            },
        }
    }
}

fn simple_base(ts: &Vec<Token>, p: usize) -> (r: Result<(AtomBase, usize), ParseError>)
    ensures
        parsed_as(r, spec_simple_base(view_tokens(ts@), p as int), |b: AtomBase| view_atom_base(b)),
{
    match kind_at(ts, p) {
        Some(TokenKind::Int { negative, magnitude }) => {
            let m = *magnitude;
            if *negative {
                if m < 0x8000_0000_0000_0000u64 {
                    Ok((AtomBase::Lit(Lit::Int(-(m as i64))), p + 1))
                } else if m == 0x8000_0000_0000_0000u64 {
                    Ok((AtomBase::Lit(Lit::Int(i64::MIN)), p + 1))
                } else {
                    Err(error_here(ts, p, ParseErrorKind::IntegerOutOfRange))
                }
            } else if m <= 0x7fff_ffff_ffff_ffffu64 {
                Ok((AtomBase::Lit(Lit::Int(m as i64)), p + 1))
            } else {
                Err(error_here(ts, p, ParseErrorKind::IntegerOutOfRange))
            }
        },
        Some(TokenKind::KwTrue) => Ok((AtomBase::Lit(Lit::Bool(true)), p + 1)),
        Some(TokenKind::KwFalse) => Ok((AtomBase::Lit(Lit::Bool(false)), p + 1)),
        Some(TokenKind::Ident(x)) => Ok((AtomBase::Var(Ident(x.clone())), p + 1)),
        _ => Err(unexpected_here(ts, p)),
    }
}

fn starts_simple(k: Option<&TokenKind>) -> (r: bool)
    ensures
        r == (k matches Some(kk) && starts_simple_base(view_token_kind(*kk))),
{
    match k {
        Some(TokenKind::Int { .. }) | Some(TokenKind::KwTrue) | Some(TokenKind::KwFalse) | Some(TokenKind::Ident(_)) => true,
        _ => false,
    }
}

fn parse_projs(ts: &Vec<Token>, p0: usize) -> (r: Result<(Vec<usize>, usize), ParseError>)
    ensures
        parsed_as(r, spec_projs(view_tokens(ts@), p0 as int, Seq::empty()), |v: Vec<usize>| v@),
{
    let ghost vt = view_tokens(ts@);
    let mut acc: Vec<usize> = Vec::new();
    let mut p = p0;
    assert(acc@ =~= Seq::<usize>::empty());
    loop
        invariant
            vt == view_tokens(ts@),
            spec_projs(vt, p0 as int, Seq::empty()) == spec_projs(vt, p as int, acc@),
        decreases rem(vt, p as int),
    {
        match kind_at(ts, p) {
            Some(TokenKind::Dot) => {
                match kind_at(ts, p + 1) {
                    Some(TokenKind::Int { negative, magnitude }) => {
                        if *negative {
                            return Err(unexpected_here(ts, p + 1));
                        }
                        if *magnitude > usize::MAX as u64 {
                            return Err(error_here(ts, p + 1, ParseErrorKind::IntegerOutOfRange));
                        }
                        acc.push(*magnitude as usize);
                        p = p + 2;
                    },
                    _ => {
                        return Err(unexpected_here(ts, p + 1));
                    },
                }
            },
            _ => {
                return Ok((acc, p));
            },
        }
    }
}

pub fn parse_block(ts: &Vec<Token>, p: usize) -> (r: Result<(Block, usize), ParseError>)
    ensures
        parsed_as(r, spec_block(view_tokens(ts@), p as int), |b: Block| b@),
    decreases rem(view_tokens(ts@), p as int), 1nat,
{
    match kind_at(ts, p) {
        Some(TokenKind::LBrace) => match block_items(ts, p + 1) {
            Err(e) => Err(e),
            Ok(((stmts, e), q)) => Ok((Block { stmts, expr: e }, q)),
        },
        _ => Err(unexpected_here(ts, p)),
    }
}

pub open spec fn view_items(x: (Vec<Stmt>, Expr)) -> (Seq<SpecStmt>, SpecExpr) {
    (view_stmts(x.0@), view_expr(x.1))
}

fn unit_expr() -> (r: Expr)
    ensures
        r@ == SpecExpr::Atom(unit_atom()),
{
    let projs: Vec<usize> = Vec::new();
    assert(projs@ =~= Seq::<usize>::empty());
    let a = Atom { base: AtomBase::Lit(Lit::Unit), projs };
    assert(view_atom_base(a.base) == SpecAtomBase::Lit(Lit::Unit));
    assert(view_atom(a) == unit_atom());
    Expr::Atom(a)
}

fn block_expr(b: Block) -> (r: Expr)
    ensures
        r@ == block_atom(b@),
{
    let projs: Vec<usize> = Vec::new();
    assert(projs@ =~= Seq::<usize>::empty());
    let a = Atom { base: AtomBase::Block(Box::new(b)), projs };
    assert(view_atom_base(a.base) == SpecAtomBase::Block(Box::new(view_block(b))));
    assert(view_atom(a) == SpecAtom { base: SpecAtomBase::Block(Box::new(view_block(b))), projs: Seq::empty() });
    Expr::Atom(a)
}

pub enum Item {
    Stmt(Stmt),
    Final(Expr),
}

pub open spec fn view_item(i: Item) -> SpecItem {
    match i {
        Item::Stmt(s) => SpecItem::Stmt(s@),
        Item::Final(e) => SpecItem::Final(e@),
    }
}

fn block_items(ts: &Vec<Token>, p0: usize) -> (r: Result<((Vec<Stmt>, Expr), usize), ParseError>)
    ensures
        parsed_as(r, spec_block_items(view_tokens(ts@), p0 as int, Seq::empty()), |x: (Vec<Stmt>, Expr)| view_items(x)),
    decreases rem(view_tokens(ts@), p0 as int), 7nat,
{
    let ghost vt = view_tokens(ts@);
    let mut acc: Vec<Stmt> = Vec::new();
    let mut p = p0;
    assert(view_stmts(acc@) =~= Seq::<SpecStmt>::empty());
    loop
        invariant
            vt == view_tokens(ts@),
            p0 <= p,
            spec_block_items(vt, p0 as int, Seq::empty()) == spec_block_items(vt, p as int, view_stmts(acc@)),
        decreases rem(vt, p as int),
    {
        let ghost pre = acc@;
        match block_step(ts, p) {
            Err(e) => {
                return Err(e);
            },
            Ok((Item::Final(e), n)) => {
                return Ok(((acc, e), n));
            },
            Ok((Item::Stmt(st), n)) => {
                if !(p < n && n <= ts.len()) {
                    return Err(unexpected_here(ts, n));
                }
                acc.push(st);
                proof {
                    assert(view_stmts(acc@) =~= view_stmts(pre).push(acc@[pre.len() as int]@));
                }
                p = n;
            },
        }
    }
}

#[verifier::rlimit(60)]
fn block_step(ts: &Vec<Token>, p: usize) -> (r: Result<(Item, usize), ParseError>)
    ensures
        parsed_as(r, spec_block_step(view_tokens(ts@), p as int), |x: Item| view_item(x)),
    decreases rem(view_tokens(ts@), p as int), 6nat,
{
    if p >= ts.len() {
        return Err(unexpected_here(ts, p));
    }
    match kind_at(ts, p) {
        Some(TokenKind::RBrace) => Ok((Item::Final(unit_expr()), p + 1)),
        Some(TokenKind::KwLet) => {
            let ((name, ty, v), r) = match let_head(ts, p) {
                Err(e) => return Err(e),
                Ok(x) => x,
            };
            if !(p < r && r < ts.len()) {
                return Err(unexpected_here(ts, r));
            }
            match kind_at(ts, r) {
                Some(TokenKind::Semi) => Ok((Item::Stmt(Stmt::Let { name, ty, value: v }), r + 1)),
                Some(TokenKind::KwIn) => {
                    let (body, s2) = match parse_expr(ts, r + 1) {
                        Err(e) => return Err(e),
                        Ok(x) => x,
                    };
                    if !(r < s2 && s2 < ts.len()) {
                        return Err(unexpected_here(ts, s2));
                    }
                    after_expr(ts, s2, Expr::LetIn { name, ty, value: Box::new(v), body: Box::new(body) })
                },
                _ => Err(unexpected_here(ts, r)),
            }
        },
        Some(TokenKind::Ident(x)) if matches!(kind_at(ts, p + 1), Some(TokenKind::Eq)) => {
            let name = Ident(x.clone());
            let (v, r) = match parse_expr(ts, p + 2) {
                Err(e) => return Err(e),
                Ok(x) => x,
            };
            if !(p < r && r < ts.len()) {
                return Err(unexpected_here(ts, r));
            }
            match kind_at(ts, r) {
                Some(TokenKind::Semi) => Ok((Item::Stmt(Stmt::Rebind { name, value: v }), r + 1)),
                _ => Err(unexpected_here(ts, r)),
            }
        },
        _ => {
            let (e, r) = match parse_expr(ts, p) {
                Err(e) => return Err(e),
                Ok(x) => x,
            };
            if !(p < r && r < ts.len()) {
                return Err(unexpected_here(ts, r));
            }
            after_expr(ts, r, e)
        },
    }
}

fn after_expr(ts: &Vec<Token>, r: usize, e: Expr) -> (res: Result<(Item, usize), ParseError>)
    requires
        r < ts@.len(),
    ensures
        parsed_as(res, spec_after_expr(view_tokens(ts@), r as int, e@), |x: Item| view_item(x)),
{
    match kind_at(ts, r) {
        Some(TokenKind::Semi) => Ok((Item::Stmt(Stmt::Expr { expr: e }), r + 1)),
        Some(TokenKind::RBrace) => Ok((Item::Final(e), r + 1)),
        _ => Err(unexpected_here(ts, r)),
    }
}

fn let_head(ts: &Vec<Token>, p: usize) -> (r: Result<((Ident, Type, Expr), usize), ParseError>)
    ensures
        parsed_as(r, spec_let_head(view_tokens(ts@), p as int), |x: (Ident, Type, Expr)| (x.0.0@, x.1@, x.2@)),
        r is Ok ==> r->Ok_0.1 < ts@.len(),
    decreases rem(view_tokens(ts@), p as int), 0nat,
{
    match kind_at(ts, p) {
        Some(TokenKind::KwLet) => {},
        _ => return Err(unexpected_here(ts, p)),
    }
    let name = match ident_here(ts, p + 1) {
        None => return Err(unexpected_here(ts, p + 1)),
        Some(n) => n,
    };
    match kind_at(ts, p + 2) {
        Some(TokenKind::Colon) => {},
        _ => return Err(unexpected_here(ts, p + 2)),
    }
    let (ty, q) = match parse_type(ts, p + 3) {
        Err(e) => return Err(e),
        Ok(x) => x,
    };
    if !(p < q && q < ts.len()) {
        return Err(unexpected_here(ts, q));
    }
    match kind_at(ts, q) {
        Some(TokenKind::Eq) => {},
        _ => return Err(unexpected_here(ts, q)),
    }
    let (v, r) = match parse_expr(ts, q + 1) {
        Err(e) => return Err(e),
        Ok(x) => x,
    };
    if !(q < r && r < ts.len()) {
        return Err(unexpected_here(ts, r));
    }
    Ok(((name, ty, v), r))
}

pub fn parse_expr(ts: &Vec<Token>, p: usize) -> (r: Result<(Expr, usize), ParseError>)
    ensures
        parsed_as(r, spec_expr(view_tokens(ts@), p as int), |e: Expr| e@),
    decreases rem(view_tokens(ts@), p as int), 5nat,
{
    if p >= ts.len() {
        return Err(unexpected_here(ts, p));
    }
    match kind_at(ts, p) {
        Some(TokenKind::KwLet) => {
            let ((name, ty, v), r) = match let_head(ts, p) {
                Err(e) => return Err(e),
                Ok(x) => x,
            };
            if !(p < r && r < ts.len()) {
                return Err(unexpected_here(ts, r));
            }
            match kind_at(ts, r) {
                Some(TokenKind::KwIn) => {},
                _ => return Err(unexpected_here(ts, r)),
            }
            match parse_expr(ts, r + 1) {
                Err(e) => Err(e),
                Ok((body, s2)) => Ok((Expr::LetIn { name, ty, value: Box::new(v), body: Box::new(body) }, s2)),
            }
        },
        Some(TokenKind::KwIf) => parse_if(ts, p),
        Some(TokenKind::Pipe) => parse_lambda(ts, p),
        _ => parse_app_expr(ts, p),
    }
}

#[verifier::rlimit(60)]
fn parse_if(ts: &Vec<Token>, p: usize) -> (r: Result<(Expr, usize), ParseError>)
    requires
        p < ts@.len(),
        ts@.len() <= usize::MAX,
    ensures
        parsed_as(r, spec_if(view_tokens(ts@), p as int), |e: Expr| e@),
    decreases rem(view_tokens(ts@), p as int), 0nat,
{
    let (c, q) = match parse_expr(ts, p + 1) {
        Err(e) => return Err(e),
        Ok(x) => x,
    };
    if !(p < q && q < ts.len()) {
        return Err(unexpected_here(ts, q));
    }
    let (tb, r) = match parse_block(ts, q) {
        Err(e) => return Err(e),
        Ok(x) => x,
    };
    if !(q < r && r < ts.len()) {
        return Err(unexpected_here(ts, r));
    }
    match kind_at(ts, r) {
        Some(TokenKind::KwElse) => {},
        _ => return Err(unexpected_here(ts, r)),
    }
    match parse_block(ts, r + 1) {
        Err(e) => Err(e),
        Ok((eb, s2)) => {
            let then_e = block_expr(tb);
            let else_e = block_expr(eb);
            Ok((Expr::If { cond: Box::new(c), then_br: Box::new(then_e), else_br: Box::new(else_e) }, s2))
        },
    }
}

fn parse_lambda(ts: &Vec<Token>, p: usize) -> (r: Result<(Expr, usize), ParseError>)
    requires
        p < ts@.len(),
        ts@.len() <= usize::MAX,
    ensures
        parsed_as(r, spec_lambda(view_tokens(ts@), p as int), |e: Expr| e@),
    decreases rem(view_tokens(ts@), p as int), 0nat,
{
    let name = match ident_here(ts, p + 1) {
        None => return Err(unexpected_here(ts, p + 1)),
        Some(n) => n,
    };
    match kind_at(ts, p + 2) {
        Some(TokenKind::Colon) => {},
        _ => return Err(unexpected_here(ts, p + 2)),
    }
    let (ty, q) = match parse_type(ts, p + 3) {
        Err(e) => return Err(e),
        Ok(x) => x,
    };
    if !(p < q && q < ts.len()) {
        return Err(unexpected_here(ts, q));
    }
    match kind_at(ts, q) {
        Some(TokenKind::Pipe) => {},
        _ => return Err(unexpected_here(ts, q)),
    }
    match parse_expr(ts, q + 1) {
        Err(e) => Err(e),
        Ok((body, r)) => Ok((Expr::Lambda { param: Param { name, ty }, body: Box::new(body) }, r)),
    }
}

fn parse_app_expr(ts: &Vec<Token>, p: usize) -> (r: Result<(Expr, usize), ParseError>)
    ensures
        parsed_as(r, spec_app(view_tokens(ts@), p as int), |e: Expr| e@),
    decreases rem(view_tokens(ts@), p as int), 4nat,
{
    let (a, q) = match parse_atom(ts, p) {
        Err(e) => return Err(e),
        Ok(x) => x,
    };
    if !(p < q && q < ts.len()) {
        return Err(unexpected_here(ts, q));
    }
    let head = Expr::Atom(a);
    assert(view_expr(head) == SpecExpr::Atom(view_atom(a)));
    match app_args(ts, q) {
        Err(e) => Err(e),
        Ok((args, r)) => Ok((Expr::App { head: Box::new(head), args }, r)),
    }
}

fn app_args(ts: &Vec<Token>, p0: usize) -> (r: Result<(Vec<Expr>, usize), ParseError>)
    ensures
        parsed_as(r, spec_app_args(view_tokens(ts@), p0 as int, Seq::empty()), |v: Vec<Expr>| view_exprs(v@)),
    decreases rem(view_tokens(ts@), p0 as int), 3nat,
{
    let ghost vt = view_tokens(ts@);
    let mut acc: Vec<Expr> = Vec::new();
    let mut p = p0;
    assert(view_exprs(acc@) =~= Seq::<SpecExpr>::empty());
    loop
        invariant
            vt == view_tokens(ts@),
            p0 <= p,
            spec_app_args(vt, p0 as int, Seq::empty()) == spec_app_args(vt, p as int, view_exprs(acc@)),
        decreases rem(vt, p as int),
    {
        let ghost pre = acc@;
        if p >= ts.len() {
            return Ok((acc, p));
        }
        match kind_at(ts, p) {
            Some(TokenKind::LParen) => {
                match kind_at(ts, p + 1) {
                    Some(TokenKind::RParen) => {
                        p = p + 2;
                    },
                    _ => {
                        let (acc2, q) = match expr_list(ts, p + 1, acc) {
                            Err(e) => return Err(e),
                            Ok(x) => x,
                        };
                        if !(p < q && q < ts.len()) {
                            return Err(unexpected_here(ts, q));
                        }
                        acc = acc2;
                        p = q;
                    },
                }
            },
            k => {
                if starts_simple(k) {
                    let (a, q) = match parse_app_arg(ts, p) {
                        Err(e) => return Err(e),
                        Ok(x) => x,
                    };
                    if !(p < q && q < ts.len()) {
                        return Err(unexpected_here(ts, q));
                    }
                    acc.push(Expr::Atom(a));
                    proof {
                        assert(view_exprs(acc@) =~= view_exprs(pre).push(acc@[pre.len() as int]@));
                    }
                    p = q;
                } else {
                    return Ok((acc, p));
                }
            },
        }
    }
}

fn parse_app_arg(ts: &Vec<Token>, p: usize) -> (r: Result<(Atom, usize), ParseError>)
    ensures
        parsed_as(r, spec_app_arg(view_tokens(ts@), p as int), |a: Atom| a@),
    decreases rem(view_tokens(ts@), p as int), 2nat,
{
    let (base, q) = match simple_base(ts, p) {
        Err(e) => return Err(e),
        Ok(x) => x,
    };
    match parse_projs(ts, q) {
        Err(e) => Err(e),
        Ok((projs, r)) => Ok((Atom { base, projs }, r)),
    }
}

fn expr_list(ts: &Vec<Token>, p0: usize, acc0: Vec<Expr>) -> (r: Result<(Vec<Expr>, usize), ParseError>)
    ensures
        parsed_as(r, spec_expr_list(view_tokens(ts@), p0 as int, view_exprs(acc0@)), |v: Vec<Expr>| view_exprs(v@)),
    decreases rem(view_tokens(ts@), p0 as int), 6nat,
{
    let ghost vt = view_tokens(ts@);
    let ghost goal = spec_expr_list(vt, p0 as int, view_exprs(acc0@));
    let mut acc = acc0;
    let mut p = p0;
    loop
        invariant
            vt == view_tokens(ts@),
            p0 <= p,
            goal == spec_expr_list(vt, p as int, view_exprs(acc@)),
            goal == spec_expr_list(view_tokens(ts@), p0 as int, view_exprs(acc0@)),
        decreases rem(vt, p as int),
    {
        let ghost pre = acc@;
        let (e, q) = match parse_expr(ts, p) {
            Err(e) => return Err(e),
            Ok(x) => x,
        };
        if !(p < q && q < ts.len()) {
            return Err(unexpected_here(ts, q));
        }
        acc.push(e);
        proof {
            assert(view_exprs(acc@) =~= view_exprs(pre).push(acc@[pre.len() as int]@));
        }
        match kind_at(ts, q) {
            Some(TokenKind::Comma) => {
                p = q + 1;
            },
            Some(TokenKind::RParen) => {
                return Ok((acc, q + 1));
            },
            _ => {
                return Err(unexpected_here(ts, q));
            },
        }
    }
}

fn parse_atom(ts: &Vec<Token>, p: usize) -> (r: Result<(Atom, usize), ParseError>)
    ensures
        parsed_as(r, spec_atom(view_tokens(ts@), p as int), |a: Atom| a@),
    decreases rem(view_tokens(ts@), p as int), 3nat,
{
    let (base, q) = match parse_atom_base(ts, p) {
        Err(e) => return Err(e),
        Ok(x) => x,
    };
    match parse_projs(ts, q) {
        Err(e) => Err(e),
        Ok((projs, r)) => Ok((Atom { base, projs }, r)),
    }
}

#[verifier::rlimit(60)]
fn parse_atom_base(ts: &Vec<Token>, p: usize) -> (r: Result<(AtomBase, usize), ParseError>)
    ensures
        parsed_as(r, spec_atom_base(view_tokens(ts@), p as int), |b: AtomBase| view_atom_base(b)),
    decreases rem(view_tokens(ts@), p as int), 2nat,
{
    if p >= ts.len() {
        return Err(unexpected_here(ts, p));
    }
    match kind_at(ts, p) {
        Some(TokenKind::LBrace) => match parse_block(ts, p) {
            Err(e) => Err(e),
            Ok((b, q)) => Ok((AtomBase::Block(Box::new(b)), q)),
        },
        Some(TokenKind::LParen) => {
            match kind_at(ts, p + 1) {
                Some(TokenKind::RParen) => {
                    return Ok((AtomBase::Lit(Lit::Unit), p + 2));
                },
                _ => {},
            }
            let (e, q) = match parse_expr(ts, p + 1) {
                Err(e) => return Err(e),
                Ok(x) => x,
            };
            if !(p < q && q < ts.len()) {
                return Err(unexpected_here(ts, q));
            }
            match kind_at(ts, q) {
                Some(TokenKind::RParen) => Ok((AtomBase::Paren(Box::new(e)), q + 1)),
                Some(TokenKind::Comma) => {
                    let mut acc: Vec<Expr> = Vec::new();
                    acc.push(e);
                    proof {
                        assert(view_exprs(acc@) =~= seq![acc@[0]@]);
                    }
                    match expr_list(ts, q + 1, acc) {
                        Err(e2) => Err(e2),
                        Ok((xs, r)) => Ok((AtomBase::Tuple(xs), r)),
                    }
                },
                _ => Err(unexpected_here(ts, q)),
            }
        },
        _ => simple_base(ts, p),
    }
}

fn parse_fn_def(ts: &Vec<Token>, p: usize) -> (r: Result<(FnDef, usize), ParseError>)
    ensures
        parsed_as(r, spec_fn_def(view_tokens(ts@), p as int), |f: FnDef| f@),
{
    match kind_at(ts, p) {
        Some(TokenKind::KwFn) => {},
        _ => return Err(unexpected_here(ts, p)),
    }
    let name = match ident_here(ts, p + 1) {
        None => return Err(unexpected_here(ts, p + 1)),
        Some(n) => n,
    };
    match kind_at(ts, p + 2) {
        Some(TokenKind::LParen) => {},
        _ => return Err(unexpected_here(ts, p + 2)),
    }
    let pname = match ident_here(ts, p + 3) {
        None => return Err(unexpected_here(ts, p + 3)),
        Some(n) => n,
    };
    match kind_at(ts, p + 4) {
        Some(TokenKind::Colon) => {},
        _ => return Err(unexpected_here(ts, p + 4)),
    }
    let (pty, q) = match parse_type(ts, p + 5) {
        Err(e) => return Err(e),
        Ok(x) => x,
    };
    match kind_at(ts, q) {
        Some(TokenKind::RParen) => {},
        _ => return Err(unexpected_here(ts, q)),
    }
    match kind_at(ts, q + 1) {
        Some(TokenKind::Arrow) => {},
        _ => return Err(unexpected_here(ts, q + 1)),
    }
    let (rty, r) = match parse_type(ts, q + 2) {
        Err(e) => return Err(e),
        Ok(x) => x,
    };
    match parse_block(ts, r) {
        Err(e) => Err(e),
        Ok((body, s2)) => Ok((FnDef { name, param: Param { name: pname, ty: pty }, ret_type: rty, body }, s2)),
    }
}

/// Parses a whole token stream into a program.
pub fn parse_program(ts: &Vec<Token>) -> (r: Result<Program, ParseError>)
    ensures
        match r {
            Ok(prog) => spec_parse_tokens(view_tokens(ts@)) == Ok::<Seq<SpecFnDef>, ParseError>(prog@),
            Err(e) => spec_parse_tokens(view_tokens(ts@)) == Err::<Seq<SpecFnDef>, ParseError>(e),
        },
{
    let ghost vt = view_tokens(ts@);
    let mut fns: Vec<FnDef> = Vec::new();
    let mut p: usize = 0;
    assert(Seq::new(fns@.len(), |i: int| view_fn_def(fns@[i])) =~= Seq::<SpecFnDef>::empty());
    loop
        invariant
            vt == view_tokens(ts@),
            spec_parse_tokens(vt) == spec_fn_defs(vt, p as int, Seq::new(fns@.len(), |i: int| view_fn_def(fns@[i]))),
        decreases rem(vt, p as int),
    {
        let ghost pre = fns@;
        match kind_at(ts, p) {
            None | Some(TokenKind::Eof) => {
                return Ok(Program { functions: fns });
            },
            _ => {},
        }
        let (f, q) = match parse_fn_def(ts, p) {
            Err(e) => return Err(e),
            Ok(x) => x,
        };
        if !(p < q && q < ts.len()) {
            return Err(unexpected_here(ts, q));
        }
        fns.push(f);
        proof {
            assert(Seq::new(fns@.len(), |i: int| view_fn_def(fns@[i])) =~= Seq::new(pre.len(), |i: int| view_fn_def(pre[i])).push(fns@[pre.len() as int]@));
        }
        p = q;
    }
}

} // verus!
