use lib::desugar::desugar_block;
use lib::eval::eval;
use lib::parse::AxisCoreParser;
use lib::value::{Env, Value};

use lib::surface_eval::{env_from_core, eval_block as eval_surface_block, value_from_svalue};

#[test]
fn desugar_preserves_nested_block_expression() {
    let src = r#"
fn main(x: Int) -> Int {
    let t: (Int, Int) = {
        let a: Int = x;
        let b: Int = 4;
        (a, b)
    };
    t.2
}
"#;

    // Parse → AST
    let prog = AxisCoreParser::parse(src).expect("parse failed");
    let f = &prog.functions[0];

    // Input environment: x = 9
    let mut env_core = Env::new();
    env_core.insert("x".to_string(), Value::Int(9));

    // Surface eval
    let env_surf = env_from_core(&env_core).expect("env conversion failed");
    let surf_v = eval_surface_block(&f.body, &env_surf).expect("surface eval failed");
    let surf_v = value_from_svalue(&surf_v).expect("surface non-ground result");

    // Core eval
    let core_expr = desugar_block(&f.body).expect("desugar failed");
    let core_v = eval(&core_expr, &env_core).expect("core eval failed");

    assert_eq!(surf_v, core_v);
}

fn both_ways(src: &str, env_core: &Env) -> (Value, Value) {
    let prog = AxisCoreParser::parse(src).expect("parse failed");
    let f = &prog.functions[0];
    let env_surf = env_from_core(env_core).expect("env conversion failed");
    let sv = eval_surface_block(&f.body, &env_surf).expect("surface eval failed");
    let sv = value_from_svalue(&sv).expect("surface non-ground result");
    let core_expr = desugar_block(&f.body).expect("desugar failed");
    let cv = eval(&core_expr, env_core).expect("core eval failed");
    (sv, cv)
}

#[test]
fn desugar_preserves_rebinding_and_closures() {
    let src = r#"
fn main(x: Int) -> Int {
    let y: Int = x;
    let f: Int -> (Int, Int) = |z: Int| (y, z);
    y = f(1);
    if true { (y, (f(2)).2) } else { (y, 0) }
}
"#;
    let mut env = Env::new();
    env.insert("x".to_string(), Value::Int(7));
    let (sv, cv) = both_ways(src, &env);
    assert_eq!(sv, cv);
    assert_eq!(
        cv,
        Value::Tuple(vec![Value::Tuple(vec![Value::Int(7), Value::Int(1)]), Value::Int(2)])
    );
}

#[test]
fn desugar_preserves_statement_sequences() {
    let src = "fn main(x: Int) -> Int { x; (x, x); let a: Bool = false; { a } }";
    let mut env = Env::new();
    env.insert("x".to_string(), Value::Int(-3));
    let (sv, cv) = both_ways(src, &env);
    assert_eq!(sv, cv);
    assert_eq!(cv, Value::Bool(false));
}
