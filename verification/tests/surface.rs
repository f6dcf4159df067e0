use lib::ast::Block;
use lib::parse::AxisCoreParser;
use lib::surface_eval::{
    env_from_core, eval_block, eval_block_bounded, eval_expr, svalue_from_value, value_from_svalue, SEnv, SValue,
    SurfaceEvalError,
};
use lib::value::{Env, Value};

fn body(src: &str) -> Block {
    let mut prog = AxisCoreParser::parse(src).expect("parse failed");
    prog.functions.remove(0).body
}

fn run(src: &str) -> Result<SValue, SurfaceEvalError> {
    eval_block(&body(src), &SEnv::new())
}

#[test]
fn surface_let_and_rebind() {
    assert_eq!(run("fn main(x: Int) -> Int { let a: Int = 1; a = (a, 2); a.2 }"), Ok(SValue::Int(2)));
}

#[test]
fn surface_application_is_curried() {
    let src = "fn main(x: Int) -> Int { let k: Int -> Int -> Int = |a: Int| |b: Int| (b, a); k(1, 2) }";
    assert_eq!(run(src), Ok(SValue::Tuple(vec![SValue::Int(2), SValue::Int(1)])));
}

#[test]
fn surface_errors() {
    assert_eq!(
        run("fn main(x: Int) -> Int { y }"),
        Err(SurfaceEvalError::UnboundVariable("y".to_string()))
    );
    assert_eq!(run("fn main(x: Int) -> Int { 3(1) }"), Err(SurfaceEvalError::NotAFunction));
    assert_eq!(run("fn main(x: Int) -> Int { (1, 2).3 }"), Err(SurfaceEvalError::InvalidProjection));
    assert_eq!(run("fn main(x: Int) -> Int { if () { 1 } else { 2 } }"), Err(SurfaceEvalError::NonBoolCondition));
}

#[test]
fn surface_depth_limit() {
    let b = body("fn main(x: Int) -> Int { 1 }");
    assert_eq!(eval_block_bounded(&b, &SEnv::new(), 0), Err(SurfaceEvalError::DepthLimitExceeded));
    assert_eq!(eval_block_bounded(&b, &SEnv::new(), 1), Err(SurfaceEvalError::DepthLimitExceeded));
    assert_eq!(eval_block_bounded(&b, &SEnv::new(), 2), Ok(SValue::Int(1)));
}

#[test]
fn surface_eval_expr_of_final_expression() {
    let b = body("fn main(x: Int) -> Int { if false { 1 } else { 7 } }");
    assert_eq!(eval_expr(&b.expr, &SEnv::new()), Ok(SValue::Int(7)));
}

#[test]
fn closures_are_not_ground() {
    let v = run("fn main(x: Int) -> Int { |y: Int| y }").expect("surface eval failed");
    assert_eq!(value_from_svalue(&v), Err(SurfaceEvalError::NonGroundResult));
    let t = SValue::Tuple(vec![SValue::Int(1), v]);
    assert_eq!(value_from_svalue(&t), Err(SurfaceEvalError::NonGroundResult));
}

#[test]
fn ground_values_round_trip() {
    let v = Value::Tuple(vec![Value::Int(-4), Value::Tuple(vec![Value::Bool(true), Value::Unit])]);
    let sv = svalue_from_value(&v).expect("ground value");
    assert_eq!(
        sv,
        SValue::Tuple(vec![SValue::Int(-4), SValue::Tuple(vec![SValue::Bool(true), SValue::Unit])])
    );
    assert_eq!(value_from_svalue(&sv), Ok(v));
    let sv2 = SValue::Tuple(vec![SValue::Unit, SValue::Int(8)]);
    let back = svalue_from_value(&value_from_svalue(&sv2).expect("ground value")).expect("ground value");
    assert_eq!(back, sv2);
}

#[test]
fn env_from_core_refuses_closures() {
    let core_closure = {
        let prog = AxisCoreParser::parse("fn main(x: Int) -> Int { |y: Int| y }").expect("parse failed");
        let e = lib::desugar::desugar_block(&prog.functions[0].body).expect("desugar failed");
        lib::eval::eval(&e, &Env::new()).expect("core eval failed")
    };
    let mut env = Env::new();
    env.insert("a".to_string(), Value::Int(1));
    assert!(env_from_core(&env).is_ok());
    env.insert("f".to_string(), core_closure);
    assert_eq!(env_from_core(&env), Err(SurfaceEvalError::NonGroundResult));
}

#[test]
fn env_from_core_keeps_bindings() {
    let mut env = Env::new();
    env.insert("a".to_string(), Value::Int(1));
    env.insert("b".to_string(), Value::Bool(false));
    let se = env_from_core(&env).expect("ground environment");
    assert_eq!(se.len(), 2);
    assert_eq!(se.get(&"a".to_string()), Some(&SValue::Int(1)));
    assert_eq!(se.get(&"b".to_string()), Some(&SValue::Bool(false)));
    assert_eq!(se.get(&"c".to_string()), None);
}

#[test]
fn surface_depth_does_not_change_a_result() {
    let b = body("fn main(x: Int) -> Int { let f: Int -> Int = |y: Int| (y, y); (f(3)).1 }");
    for d in [10u64, 40, 1000] {
        assert_eq!(eval_block_bounded(&b, &SEnv::new(), d), Ok(SValue::Int(3)));
    }
    assert_eq!(eval_block(&b, &SEnv::new()), Ok(SValue::Int(3)));
}
