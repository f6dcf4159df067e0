use lib::ast::{Ident, Lit, Type};
use lib::core_ast::{CoreAtom, CoreAtomBase, CoreExpr};
use lib::desugar::DesugarError;
use lib::entry::{default_value_expr, entry_expr, type_has_func, EntryError};
use lib::eval::eval;
use lib::parse::AxisCoreParser;
use lib::value::{Env, Value};

fn lit(l: Lit) -> CoreExpr {
    CoreExpr::Atom(CoreAtom { base: CoreAtomBase::Lit(l), projs: vec![] })
}

#[test]
fn default_values_of_types() {
    assert_eq!(default_value_expr(&Type::Int), lit(Lit::Int(0)));
    assert_eq!(default_value_expr(&Type::Bool), lit(Lit::Bool(false)));
    assert_eq!(default_value_expr(&Type::Unit), lit(Lit::Unit));
    let t = Type::Tuple(vec![Type::Int, Type::Tuple(vec![Type::Bool, Type::Unit])]);
    let expected = CoreExpr::Atom(CoreAtom {
        base: CoreAtomBase::Tuple(vec![
            lit(Lit::Int(0)),
            CoreExpr::Atom(CoreAtom { base: CoreAtomBase::Tuple(vec![lit(Lit::Bool(false)), lit(Lit::Unit)]), projs: vec![] }),
        ]),
        projs: vec![],
    });
    assert_eq!(default_value_expr(&t), expected);
}

#[test]
fn function_types_are_found() {
    assert!(!type_has_func(&Type::Tuple(vec![Type::Int, Type::Unit])));
    assert!(type_has_func(&Type::Func(Box::new(Type::Int), Box::new(Type::Int))));
    assert!(type_has_func(&Type::Tuple(vec![
        Type::Int,
        Type::Tuple(vec![Type::Func(Box::new(Type::Unit), Box::new(Type::Unit))])
    ])));
}

#[test]
fn entry_binds_the_parameter_to_its_default() {
    let prog = AxisCoreParser::parse("fn main(p: (Int, Bool)) -> Bool { p.2 }").expect("parse failed");
    let e = entry_expr(&prog).expect("entry failed");
    match &e {
        CoreExpr::LetIn { name, ty, .. } => {
            assert_eq!(name, &Ident("p".to_string()));
            assert_eq!(ty, &Type::Tuple(vec![Type::Int, Type::Bool]));
        }
        _ => panic!("a let around the body expected"),
    }
    assert_eq!(eval(&e, &Env::new()), Ok(Value::Bool(false)));
}

#[test]
fn entry_uses_the_first_function() {
    let prog = AxisCoreParser::parse("fn a(x: Int) -> Int { (x, 1) } fn b(x: Int) -> Int { 2 }").expect("parse failed");
    let e = entry_expr(&prog).expect("entry failed");
    assert_eq!(eval(&e, &Env::new()), Ok(Value::Tuple(vec![Value::Int(0), Value::Int(1)])));
}

#[test]
fn entry_errors() {
    let empty = AxisCoreParser::parse("").expect("parse failed");
    assert_eq!(entry_expr(&empty), Err(EntryError::NoFunctions));
    let bad = AxisCoreParser::parse("fn main(f: Int -> Int) -> Int { q = 1; q }").expect("parse failed");
    assert_eq!(entry_expr(&bad), Err(EntryError::Desugar(DesugarError::RebindWithoutPriorLet { name: "q".to_string() })));
}

#[test]
fn default_values_evaluate_to_defaults() {
    let t = Type::Tuple(vec![Type::Bool, Type::Tuple(vec![Type::Int, Type::Unit]), Type::Tuple(vec![])]);
    assert_eq!(
        eval(&default_value_expr(&t), &Env::new()),
        Ok(Value::Tuple(vec![
            Value::Bool(false),
            Value::Tuple(vec![Value::Int(0), Value::Unit]),
            Value::Tuple(vec![]),
        ]))
    );
}
