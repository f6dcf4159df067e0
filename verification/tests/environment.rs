use lib::surface_eval::{SEnv, SValue};
use lib::value::{Env, Value};

#[test]
fn env_read_after_write() {
    let mut env = Env::new();
    assert_eq!(env.len(), 0);
    env.insert("x".to_string(), Value::Int(1));
    env.insert("y".to_string(), Value::Bool(true));
    assert_eq!(env.get(&"x".to_string()), Some(&Value::Int(1)));
    assert_eq!(env.get(&"y".to_string()), Some(&Value::Bool(true)));
    assert_eq!(env.get(&"z".to_string()), None);
}

#[test]
fn env_insert_replaces_in_place() {
    let mut env = Env::new();
    env.insert("x".to_string(), Value::Int(1));
    env.insert("y".to_string(), Value::Int(2));
    env.insert("x".to_string(), Value::Unit);
    assert_eq!(env.len(), 2);
    assert_eq!(env.get(&"x".to_string()), Some(&Value::Unit));
    let (k, v) = env.entry(0);
    assert_eq!(k, "x");
    assert_eq!(v, &Value::Unit);
    let (k1, v1) = env.entry(1);
    assert_eq!(k1, "y");
    assert_eq!(v1, &Value::Int(2));
}

#[test]
fn env_copy_is_equal() {
    let mut env = Env::new();
    env.insert("x".to_string(), Value::Tuple(vec![Value::Int(1), Value::Unit]));
    let c = env.copy();
    assert_eq!(c, env);
    let v = Value::Tuple(vec![Value::Bool(false)]);
    assert_eq!(v.copy(), v);
}

#[test]
fn env_equality_ignores_insertion_order() {
    let mut a = Env::new();
    a.insert("b".to_string(), Value::Int(2));
    a.insert("a".to_string(), Value::Int(1));
    a.insert("ab".to_string(), Value::Unit);
    let mut b = Env::new();
    b.insert("ab".to_string(), Value::Unit);
    b.insert("a".to_string(), Value::Int(1));
    b.insert("b".to_string(), Value::Int(2));
    assert_eq!(a, b);
    let names: Vec<String> = (0..a.len()).map(|i| a.entry(i).0.clone()).collect();
    assert_eq!(names, vec!["a".to_string(), "ab".to_string(), "b".to_string()]);
}

#[test]
fn surface_env_equality_ignores_insertion_order() {
    let mut a = SEnv::new();
    a.insert("y".to_string(), SValue::Bool(true));
    a.insert("x".to_string(), SValue::Int(0));
    let mut b = SEnv::new();
    b.insert("x".to_string(), SValue::Int(0));
    b.insert("y".to_string(), SValue::Bool(true));
    assert_eq!(a, b);
}
