//! Tests of the generic descent (`eval_ast`) and of the environment chain.
use mal_core::env::Env;
use mal_core::eval::eval_ast;
use mal_core::value::{EvalError, Func, Prim, Value};

fn sym(s: &str) -> Value {
    Value::Symbol(s.to_string())
}

fn num(n: i64) -> Value {
    Value::Number(n)
}

const FUEL: u64 = 1_000_000;

fn env_with_plus() -> Env {
    let mut env = Env::new();
    env.set(0, &sym("+"), Value::Func(Func::Prim(Prim::Add))).unwrap();
    env
}

#[test]
fn vector_elements_evaluate_in_order_into_a_vector() {
    let mut env = env_with_plus();
    let v = Value::Vector(vec![num(1), Value::List(vec![sym("+"), num(1), num(1)])]);
    match eval_ast(&mut env, 0, v, FUEL) {
        Ok(Value::Vector(items)) => {
            assert_eq!(items.len(), 2);
            assert!(matches!(items[0], Value::Number(1)));
            assert!(matches!(items[1], Value::Number(2)));
        },
        _ => panic!("expected a vector"),
    }
}

#[test]
fn map_values_evaluate_but_keys_stay_literal() {
    let mut env = env_with_plus();
    let m = Value::HashMap(vec![(
        Value::Str("k".to_string()),
        Value::List(vec![sym("+"), num(1), num(1)]),
    )]);
    match eval_ast(&mut env, 0, m, FUEL) {
        Ok(Value::HashMap(entries)) => {
            assert_eq!(entries.len(), 1);
            match &entries[0].0 {
                Value::Str(s) => assert_eq!(s, "k"),
                _ => panic!("key changed kind"),
            }
            assert!(matches!(entries[0].1, Value::Number(2)));
        },
        _ => panic!("expected a map"),
    }
}

#[test]
fn descent_does_not_treat_special_forms_specially() {
    // In eval_ast a leading `if` is just a symbol like any other: unbound here.
    let mut env = env_with_plus();
    let v = Value::List(vec![sym("if"), num(1), num(2)]);
    match eval_ast(&mut env, 0, v, FUEL) {
        Err(EvalError::UnboundSymbol(s)) => assert_eq!(s, "if"),
        _ => panic!("expected an unbound-symbol error"),
    }
}

#[test]
fn lookup_walks_the_chain_to_the_nearest_binding() {
    let mut env = Env::new();
    env.set(0, &sym("x"), num(1)).unwrap();
    env.set(0, &sym("z"), num(9)).unwrap();
    let a = env.detach(0);
    env.set(a, &sym("x"), num(2)).unwrap();
    let b = env.detach(a);
    // x is found in the nearest scope that binds it, z in the root.
    let name_x = "x".to_string();
    let name_z = "z".to_string();
    assert_eq!(env.find(b, &name_x), Some(a));
    assert_eq!(env.find(b, &name_z), Some(0));
    assert!(matches!(env.get(a, &name_x), Value::Number(2)));
    assert!(matches!(env.get(0, &name_x), Value::Number(1)));
    let name_w = "w".to_string();
    assert_eq!(env.find(b, &name_w), None);
}

#[test]
fn set_shadows_without_touching_outer_scopes() {
    let mut env = Env::new();
    env.set(0, &sym("x"), num(1)).unwrap();
    let a = env.detach(0);
    env.set(a, &sym("x"), num(2)).unwrap();
    assert!(matches!(env.get(0, &"x".to_string()), Value::Number(1)));
    assert!(matches!(env.get(a, &"x".to_string()), Value::Number(2)));
}

#[test]
fn set_rejects_a_non_symbol_key() {
    let mut env = Env::new();
    assert!(matches!(env.set(0, &num(1), num(2)), Err(EvalError::ShapeError)));
}
