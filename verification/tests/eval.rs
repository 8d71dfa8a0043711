//! End-to-end evaluation: source text through the compiler and the
//! virtual machine to a final value.

use lox_core::value::Value;
use lox_core::vm::Vm;

fn eval(source: &str) -> Value {
    let mut vm = Vm::new();
    match vm.interpret_source(source.to_string()) {
        Ok(Some(v)) => v,
        other => panic!("expected a value from {:?}, got {:?}", source, other),
    }
}

fn eval_num(source: &str) -> f64 {
    match eval(source) {
        Value::Num(bits) => f64::from_bits(bits),
        other => panic!("expected a number from {:?}, got {:?}", source, other),
    }
}

fn eval_bool(source: &str) -> bool {
    match eval(source) {
        Value::Bool(b) => b,
        other => panic!("expected a boolean from {:?}, got {:?}", source, other),
    }
}

#[test]
fn arithmetic_precedence() {
    assert_eq!(eval_num("1+2*3"), 7.0);
    assert_eq!(eval_num("(1+2)*3"), 9.0);
    assert_eq!(eval_num("-(2+3)*4"), -20.0);
}

#[test]
fn arithmetic_left_to_right() {
    assert_eq!(eval_num("6-3-2"), 1.0);
    assert_eq!(eval_num("8/4/2"), 1.0);
    assert_eq!(eval_num("2*3/6*4"), 4.0);
}

#[test]
fn unary_minus_binds_tightest() {
    assert_eq!(eval_num("-2*3"), -6.0);
    assert_eq!(eval_num("-(2*3)"), -6.0);
    assert_eq!(eval_num("2*-3"), -6.0);
}

#[test]
fn decimal_literals() {
    assert_eq!(eval_num("0.5 + 0.25"), 0.75);
    assert_eq!(eval_num("1/2"), 0.5);
    assert_eq!(eval_num("3.14"), 3.14);
}

#[test]
fn literals() {
    assert_eq!(eval("nil"), Value::Nil);
    assert_eq!(eval("true"), Value::Bool(true));
    assert_eq!(eval("false"), Value::Bool(false));
    assert_eq!(eval_num("42"), 42.0);
}

#[test]
fn equality_is_kind_sensitive() {
    assert!(eval_bool("nil == nil"));
    assert!(!eval_bool("true == 1"));
    assert!(eval_bool("1 == 1.0"));
    assert!(eval_bool("true == true"));
    assert!(!eval_bool("true == false"));
    assert!(!eval_bool("nil == false"));
    assert!(eval_bool("1 != 2"));
}

#[test]
fn truthiness_of_not() {
    assert!(eval_bool("!nil"));
    assert!(eval_bool("!false"));
    assert!(!eval_bool("!0"));
    assert!(!eval_bool("!true"));
    assert!(eval_bool("!!true"));
}

#[test]
fn comparisons() {
    assert!(eval_bool("1 < 2"));
    assert!(!eval_bool("2 < 2"));
    assert!(eval_bool("2 <= 2"));
    assert!(!eval_bool("3 > 4"));
    assert!(eval_bool("4 >= 4"));
    assert!(eval_bool("2 + 3 > 4"));
}

#[test]
fn grouping_nested() {
    assert_eq!(eval_num("((1+2)*(3+4))"), 21.0);
    assert_eq!(eval_num("-((1+2)*3)"), -9.0);
}

#[test]
fn comments_are_skipped() {
    assert_eq!(eval_num("1 + // line comment\n2"), 3.0);
    assert_eq!(eval_num("1 + /* block */ 2"), 3.0);
}
