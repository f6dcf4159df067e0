use lib::ast::Program;
use lib::core_ast::CoreExpr;
use lib::desugar::desugar_program;
use lib::eval::{eval, eval_bounded, EvalError};
use lib::parse::AxisCoreParser;
use lib::value::{Env, Value};

fn first_body(src: &str) -> CoreExpr {
    let ast: Program = AxisCoreParser::parse(src).expect("parse failed");
    let mut core_fns = desugar_program(&ast).expect("desugar failed");
    core_fns.remove(0).1
}

fn run(src: &str) -> Result<Value, EvalError> {
    eval(&first_body(src), &Env::new())
}

#[test]
fn eval_simple_let() {
    let src = r#"
fn main(x: Int) -> Int {
    let y: Int = 2;
    let z: Int = y;
    z
}
"#;

    // 1. Parse
    let ast = AxisCoreParser::parse(src).expect("parse failed");

    // 2. Desugar
    let core_fns = desugar_program(&ast).expect("desugar failed");

    // Expect exactly one function
    let (_name, core_expr) = &core_fns[0];

    // 3. Evaluate
    let env = Env::new();
    let result = eval(core_expr, &env).expect("evaluation failed");

    // 4. Assert
    assert_eq!(result, Value::Int(2));
}

#[test]
fn eval_if_picks_branch() {
    assert_eq!(run("fn main(x: Int) -> Int { if true { 1 } else { 2 } }"), Ok(Value::Int(1)));
    assert_eq!(run("fn main(x: Int) -> Int { if false { 1 } else { 2 } }"), Ok(Value::Int(2)));
}

#[test]
fn eval_non_bool_condition() {
    assert_eq!(run("fn main(x: Int) -> Int { if 1 { 1 } else { 2 } }"), Err(EvalError::NonBoolCondition));
}

#[test]
fn eval_lambda_application() {
    let src = "fn main(x: Int) -> Int { let f: Int -> Int = |y: Int| y; f(7) }";
    assert_eq!(run(src), Ok(Value::Int(7)));
}

#[test]
fn eval_curried_application() {
    let src = "fn main(x: Int) -> Int { let k: Int -> Int -> Int = |a: Int| |b: Int| a; k(1, 2) }";
    assert_eq!(run(src), Ok(Value::Int(1)));
    let src2 = "fn main(x: Int) -> Int { let k: Int -> Int -> Int = |a: Int| |b: Int| b; k 1 2 }";
    assert_eq!(run(src2), Ok(Value::Int(2)));
}

#[test]
fn eval_closure_captures_its_environment() {
    let src = "fn main(x: Int) -> Int { let a: Int = 5; let f: Int -> Int = |y: Int| a; let a: Int = 6; f(0) }";
    assert_eq!(run(src), Ok(Value::Int(5)));
}

#[test]
fn eval_application_without_arguments_is_the_function() {
    let src = "fn main(x: Int) -> Int { let n: Int = 3; n() }";
    assert_eq!(run(src), Ok(Value::Int(3)));
}

#[test]
fn eval_unbound_variable() {
    assert_eq!(run("fn main(x: Int) -> Int { x }"), Err(EvalError::UnboundVariable("x".to_string())));
    let mut env = Env::new();
    env.insert("x".to_string(), Value::Bool(true));
    assert_eq!(eval(&first_body("fn main(x: Int) -> Int { x }"), &env), Ok(Value::Bool(true)));
}

#[test]
fn eval_not_a_function() {
    let src = "fn main(x: Int) -> Int { let n: Int = 3; n(1) }";
    assert_eq!(run(src), Err(EvalError::NotAFunction(Value::Int(3))));
}

#[test]
fn eval_tuple_projection_is_one_based() {
    assert_eq!(run("fn main(x: Int) -> Int { (10, 20).1 }"), Ok(Value::Int(10)));
    assert_eq!(run("fn main(x: Int) -> Int { (10, (20, 30)).2.2 }"), Ok(Value::Int(30)));
    assert_eq!(
        run("fn main(x: Int) -> Int { (10, true, ()) }"),
        Ok(Value::Tuple(vec![Value::Int(10), Value::Bool(true), Value::Unit]))
    );
}

#[test]
fn eval_invalid_projection() {
    assert_eq!(run("fn main(x: Int) -> Int { (10, 20).3 }"), Err(EvalError::InvalidProjection));
    assert_eq!(run("fn main(x: Int) -> Int { (10, 20).0 }"), Err(EvalError::InvalidProjection));
    assert_eq!(run("fn main(x: Int) -> Int { 5.1 }"), Err(EvalError::InvalidProjection));
}

#[test]
fn eval_statements_run_in_order() {
    assert_eq!(run("fn main(x: Int) -> Int { 1; 2 }"), Ok(Value::Int(2)));
    assert_eq!(run("fn main(x: Int) -> Int { y; 2 }"), Err(EvalError::UnboundVariable("y".to_string())));
    assert_eq!(run("fn main(x: Int) -> Int { 1; }"), Ok(Value::Unit));
}

#[test]
fn eval_rebinding_shadows() {
    let src = "fn main(x: Int) -> Int { let y: Int = 1; y = (y, y); y }";
    assert_eq!(run(src), Ok(Value::Tuple(vec![Value::Int(1), Value::Int(1)])));
}

#[test]
fn eval_let_in_expression() {
    assert_eq!(run("fn main(x: Int) -> Int { let a: Int = 4 in (a, a).2 }"), Ok(Value::Int(4)));
}

#[test]
fn eval_depth_limit() {
    let body = first_body("fn main(x: Int) -> Int { 1 }");
    assert_eq!(eval_bounded(&body, &Env::new(), 0), Err(EvalError::DepthLimitExceeded));
    // The literal stands inside an application without arguments: two levels.
    assert_eq!(eval_bounded(&body, &Env::new(), 1), Err(EvalError::DepthLimitExceeded));
    assert_eq!(eval_bounded(&body, &Env::new(), 2), Ok(Value::Int(1)));
    let nested = first_body("fn main(x: Int) -> Int { let a: Int = 1; let b: Int = a; b }");
    assert_eq!(eval_bounded(&nested, &Env::new(), 3), Err(EvalError::DepthLimitExceeded));
    assert_eq!(eval_bounded(&nested, &Env::new(), 4), Ok(Value::Int(1)));
}

#[test]
fn eval_depth_does_not_change_a_result() {
    let body = first_body("fn main(x: Int) -> Int { let f: Int -> Int = |y: Int| (y, y); (f(3)).2 }");
    let expected = Ok(Value::Int(3));
    for d in [10u64, 50, 1000] {
        assert_eq!(eval_bounded(&body, &Env::new(), d), expected);
    }
    assert_eq!(eval(&body, &Env::new()), expected);
}
