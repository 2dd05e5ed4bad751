use safe_fluent::ast::{Call, Chain, Value};

fn select_call() -> Call {
    Call::new("select".to_string(), vec![Value::String("*".to_string())])
}

#[test]
fn call_renders_method_and_arguments() {
    let call = Call::new(
        "where".to_string(),
        vec![Value::Variable("age".to_string()), Value::Int(18), Value::String("x".to_string())],
    );
    assert_eq!("where(age, 18, \"x\")", call.to_string());
}

#[test]
fn call_without_arguments() {
    assert_eq!("build()", Call::new("build".to_string(), vec![]).to_string());
}

#[test]
fn chain_joins_calls_with_dots() {
    let chain = Chain::new(vec![
        select_call(),
        Call::new("from".to_string(), vec![Value::String("Students".to_string())]),
        Call::new("build".to_string(), vec![]),
    ]);
    assert_eq!("select(\"*\").from(\"Students\").build()", chain.to_string());
}

#[test]
fn empty_chain_renders_empty() {
    assert_eq!("", Chain::new(vec![]).to_string());
}

#[test]
fn put_first_prepends() {
    let mut chain = Chain::new(vec![Call::new("build".to_string(), vec![])]);
    chain.put_first(Call::new("SQL".to_string(), vec![]));
    assert_eq!("SQL().build()", chain.to_string());
}

#[test]
fn nested_chain_value_and_negative_int() {
    let inner = Chain::new(vec![Call::new("now".to_string(), vec![])]);
    let call = Call::new("f".to_string(), vec![Value::Chain(Box::new(inner)), Value::Int(-4)]);
    assert_eq!("f(now(), -4)", call.to_string());
}

#[test]
fn value_rendering() {
    assert_eq!("v", Value::Variable("v".to_string()).to_string());
    assert_eq!("2147483647", Value::Int(i32::MAX).to_string());
    assert_eq!("-2147483648", Value::Int(i32::MIN).to_string());
    assert_eq!("\"s\"", Value::String("s".to_string()).to_string());
}

#[test]
fn clone_renders_the_same() {
    let chain = Chain::new(vec![select_call()]);
    assert_eq!(chain.to_string(), chain.clone().to_string());
}
