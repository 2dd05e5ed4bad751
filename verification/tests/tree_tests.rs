use safe_fluent::tree::{_false, _int, _true, add1, eq, neg, Expr, Value};

#[test]
fn test_evaluate() {
    let expr = neg(eq(_int(1), add1(_int(0))));
    let result = expr.evaluate();
    assert_eq!(Some(Value::Bool(false)), result);
}

#[test]
fn test_reduce() {
    let good_expr = neg(eq(_int(1), add1(_int(0))));
    let result = good_expr.reduce();
    assert_eq!(Ok(Value::Bool(false)), result);

    let bad_expr = neg(eq(add1(add1(_int(2))), _false()));
    let result = bad_expr.reduce();
    assert_eq!(Err(neg(eq(_int(4), _false()))), result);
}

#[test]
fn reduce_literals_are_values() {
    assert_eq!(Ok(Value::Bool(true)), _true().reduce());
    assert_eq!(Ok(Value::Int(-7)), _int(-7).reduce());
}

#[test]
fn reduce_add_one() {
    assert_eq!(Ok(Value::Int(3)), add1(add1(_int(1))).reduce());
}

#[test]
fn reduce_equality_compares_ints_only() {
    assert_eq!(Err(eq(_true(), neg(_false()))), eq(_true(), neg(_false())).reduce());
    assert_eq!(Ok(Value::Bool(false)), eq(_int(2), add1(_int(2))).reduce());
}

#[test]
fn reduce_stuck_negation_of_int() {
    assert_eq!(Err(neg(_int(2))), neg(add1(_int(1))).reduce());
}

#[test]
fn reduce_stuck_add_one_to_bool() {
    assert_eq!(Err(add1(_true())), add1(neg(_false())).reduce());
}

#[test]
fn evaluate_agrees_with_reduce_on_values() {
    let e = eq(add1(_int(4)), add1(add1(_int(3))));
    assert_eq!(Some(Value::Bool(true)), e.evaluate());
    assert_eq!(Ok(Value::Bool(true)), e.reduce());
}

#[test]
fn evaluate_stuck_is_none() {
    let e = neg(eq(add1(add1(_int(2))), _false()));
    assert_eq!(None, e.evaluate());
    assert!(e.reduce().is_err());
}

#[test]
fn value_accessors() {
    assert_eq!(Some(true), Value::Bool(true).as_bool());
    assert_eq!(None, Value::Int(1).as_bool());
    assert_eq!(Some(5), Value::Int(5).as_int());
    assert_eq!(None, Value::Bool(false).as_int());
    assert_eq!(_int(9), Value::Int(9).as_expr());
    assert_eq!(_false(), Value::Bool(false).as_expr());
}

#[test]
fn value_roundtrip_through_expr() {
    for v in [Value::Int(0), Value::Int(-3), Value::Bool(true)] {
        assert_eq!(Ok(v), v.as_expr().reduce());
    }
}

#[test]
fn expr_clone_is_equal() {
    let e: Expr = neg(eq(_int(1), add1(_int(0))));
    assert_eq!(e.clone(), e);
}
