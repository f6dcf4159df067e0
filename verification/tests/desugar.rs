use lib::ast::{Ident, Lit, Type};
use lib::core_ast::{CoreAtom, CoreAtomBase, CoreExpr};
use lib::desugar::{desugar_block, desugar_program, DesugarError};
use lib::parse::AxisCoreParser;

fn lit(l: Lit) -> CoreExpr {
    CoreExpr::Atom(CoreAtom { base: CoreAtomBase::Lit(l), projs: vec![] })
}

fn var(x: &str) -> CoreExpr {
    CoreExpr::Atom(CoreAtom { base: CoreAtomBase::Var(Ident(x.to_string())), projs: vec![] })
}

/// An application without arguments: how the parser gives every expression
/// that is not a `let`, an `if` or a lambda.
fn app0(e: CoreExpr) -> CoreExpr {
    CoreExpr::App { head: Box::new(e), args: vec![] }
}

#[test]
fn desugar_rebind_without_let_is_refused() {
    let prog = AxisCoreParser::parse("fn main(x: Int) -> Int { y = 1; y }").expect("parse failed");
    assert_eq!(
        desugar_block(&prog.functions[0].body),
        Err(DesugarError::RebindWithoutPriorLet { name: "y".to_string() })
    );
    let nested = AxisCoreParser::parse("fn main(x: Int) -> Int { let y: Int = 1; { y = 2; y } }").expect("parse failed");
    assert_eq!(
        desugar_block(&nested.functions[0].body),
        Err(DesugarError::RebindWithoutPriorLet { name: "y".to_string() })
    );
}

#[test]
fn desugar_block_nests_lets() {
    let prog = AxisCoreParser::parse("fn main(x: Int) -> Int { let a: Bool = true; a = false; 1; a }").expect("parse failed");
    let expected = CoreExpr::LetIn {
        name: Ident("a".to_string()),
        ty: Type::Bool,
        value: Box::new(app0(lit(Lit::Bool(true)))),
        body: Box::new(CoreExpr::LetIn {
            name: Ident("a".to_string()),
            ty: Type::Bool,
            value: Box::new(app0(lit(Lit::Bool(false)))),
            body: Box::new(CoreExpr::Sequence {
                first: Box::new(app0(lit(Lit::Int(1)))),
                then: Box::new(app0(var("a"))),
            }),
        }),
    };
    assert_eq!(desugar_block(&prog.functions[0].body), Ok(expected));
}

#[test]
fn desugar_program_keeps_names_and_order() {
    let prog = AxisCoreParser::parse("fn f(x: Int) -> Int { x } fn g(x: Int) -> Int { 2 }").expect("parse failed");
    let out = desugar_program(&prog).expect("desugar failed");
    assert_eq!(out.len(), 2);
    assert_eq!(out[0].0, Ident("f".to_string()));
    assert_eq!(out[0].1, app0(var("x")));
    assert_eq!(out[1].0, Ident("g".to_string()));
    assert_eq!(out[1].1, app0(lit(Lit::Int(2))));
}

#[test]
fn desugar_program_stops_at_first_error() {
    let prog = AxisCoreParser::parse("fn f(x: Int) -> Int { x } fn g(x: Int) -> Int { z = 1; z } fn h(x: Int) -> Int { w = 1; w }")
        .expect("parse failed");
    assert_eq!(desugar_program(&prog), Err(DesugarError::RebindWithoutPriorLet { name: "z".to_string() }));
}

#[test]
fn desugar_refuses_bad_rebind_inside_a_lambda() {
    let prog = AxisCoreParser::parse("fn main(x: Int) -> Int { let f: Int -> Int = |y: Int| { z = y; z }; f(1) }")
        .expect("parse failed");
    assert_eq!(
        desugar_block(&prog.functions[0].body),
        Err(DesugarError::RebindWithoutPriorLet { name: "z".to_string() })
    );
}

#[test]
fn clone_gives_equal_trees() {
    let prog = AxisCoreParser::parse("fn main(x: (Int, Bool)) -> Int { let a: Int -> Int = |y: Int| y; a = a; { a(x.1) } }")
        .expect("parse failed");
    let copy = prog.clone();
    assert_eq!(copy, prog);
    let core = desugar_block(&prog.functions[0].body).expect("desugar failed");
    assert_eq!(core.clone(), core);
}
