//! Behavioral tests of the evaluator: special forms, application, errors.
use mal_core::env::Env;
use mal_core::eval::{eval, evaluate};
use mal_core::value::{EvalError, Func, Prim, Value};

fn sym(s: &str) -> Value {
    Value::Symbol(s.to_string())
}

fn num(n: i64) -> Value {
    Value::Number(n)
}

fn text(s: &str) -> Value {
    Value::Str(s.to_string())
}

fn list(items: Vec<Value>) -> Value {
    Value::List(items)
}

/// A fresh environment whose root scope binds the arithmetic primitives.
fn root_env() -> Env {
    let mut env = Env::new();
    let r = env.set(0, &sym("+"), Value::Func(Func::Prim(Prim::Add)));
    assert!(r.is_ok());
    let r = env.set(0, &sym("-"), Value::Func(Func::Prim(Prim::Sub)));
    assert!(r.is_ok());
    let r = env.set(0, &sym("*"), Value::Func(Func::Prim(Prim::Mul)));
    assert!(r.is_ok());
    let r = env.set(0, &sym("<"), Value::Func(Func::Prim(Prim::Lt)));
    assert!(r.is_ok());
    env
}

#[test]
fn atoms_self_evaluate() {
    let mut env = root_env();
    assert!(matches!(evaluate(&mut env, 0, Value::Nil), Ok(Value::Nil)));
    assert!(matches!(evaluate(&mut env, 0, Value::Bool(true)), Ok(Value::Bool(true))));
    assert!(matches!(evaluate(&mut env, 0, num(42)), Ok(Value::Number(42))));
    match evaluate(&mut env, 0, text("hello")) {
        Ok(Value::Str(s)) => assert_eq!(s, "hello"),
        other => panic!("expected the string back, got {:?}", other.is_ok()),
    }
}

#[test]
fn empty_list_evaluates_to_itself() {
    let mut env = root_env();
    match evaluate(&mut env, 0, list(vec![])) {
        Ok(Value::List(l)) => assert_eq!(l.len(), 0),
        _ => panic!("expected the empty list back"),
    }
}

#[test]
fn symbol_resolves_to_most_recent_binding() {
    let mut env = root_env();
    env.set(0, &sym("x"), num(1)).unwrap();
    env.set(0, &sym("x"), num(2)).unwrap();
    assert!(matches!(evaluate(&mut env, 0, sym("x")), Ok(Value::Number(2))));
}

#[test]
fn unbound_symbol_is_reported() {
    let mut env = root_env();
    match evaluate(&mut env, 0, sym("nope")) {
        Err(EvalError::UnboundSymbol(s)) => assert_eq!(s, "nope"),
        _ => panic!("expected an unbound-symbol error"),
    }
}

#[test]
fn def_binds_and_returns_the_value() {
    let mut env = root_env();
    let form = list(vec![sym("def!"), sym("x"), num(5)]);
    assert!(matches!(evaluate(&mut env, 0, form), Ok(Value::Number(5))));
    assert!(matches!(evaluate(&mut env, 0, sym("x")), Ok(Value::Number(5))));
}

#[test]
fn def_evaluates_the_right_hand_side() {
    let mut env = root_env();
    let rhs = list(vec![sym("+"), num(2), num(3)]);
    let form = list(vec![sym("def!"), sym("x"), rhs]);
    assert!(matches!(evaluate(&mut env, 0, form), Ok(Value::Number(5))));
}

#[test]
fn def_rejects_a_non_symbol_name() {
    let mut env = root_env();
    let form = list(vec![sym("def!"), num(5), num(6)]);
    assert!(matches!(evaluate(&mut env, 0, form), Err(EvalError::ShapeError)));
}

#[test]
fn let_later_bindings_observe_earlier_ones() {
    let mut env = root_env();
    // (let* (a 1 b (+ a 1)) b) evaluates to 2
    let binds = list(vec![sym("a"), num(1), sym("b"), list(vec![sym("+"), sym("a"), num(1)])]);
    let form = list(vec![sym("let*"), binds, sym("b")]);
    assert!(matches!(evaluate(&mut env, 0, form), Ok(Value::Number(2))));
}

#[test]
fn let_with_odd_binding_list_fails() {
    let mut env = root_env();
    // (let* (a 1 b) b) has an odd-length binding list
    let binds = list(vec![sym("a"), num(1), sym("b")]);
    let form = list(vec![sym("let*"), binds, sym("b")]);
    assert!(matches!(evaluate(&mut env, 0, form), Err(EvalError::ArityError)));
}

#[test]
fn let_does_not_write_to_the_outer_scope() {
    let mut env = root_env();
    env.set(0, &sym("x"), num(1)).unwrap();
    let form = list(vec![sym("let*"), list(vec![sym("x"), num(2)]), sym("x")]);
    assert!(matches!(evaluate(&mut env, 0, form), Ok(Value::Number(2))));
    assert!(matches!(evaluate(&mut env, 0, sym("x")), Ok(Value::Number(1))));
}

#[test]
fn let_accepts_a_vector_of_bindings() {
    let mut env = root_env();
    let binds = Value::Vector(vec![sym("a"), num(1)]);
    let form = list(vec![sym("let*"), binds, sym("a")]);
    assert!(matches!(evaluate(&mut env, 0, form), Ok(Value::Number(1))));
}

#[test]
fn fn_accepts_a_vector_of_parameters() {
    let mut env = root_env();
    let lam = list(vec![sym("fn*"), Value::Vector(vec![sym("x")]), sym("x")]);
    let call = list(vec![lam, num(3)]);
    assert!(matches!(evaluate(&mut env, 0, call), Ok(Value::Number(3))));
}

#[test]
fn let_bindings_must_be_a_list_or_vector() {
    let mut env = root_env();
    let form = list(vec![sym("let*"), num(1), num(2)]);
    assert!(matches!(evaluate(&mut env, 0, form), Err(EvalError::ShapeError)));
}

#[test]
fn if_picks_the_then_branch_on_true() {
    let mut env = root_env();
    let form = list(vec![sym("if"), Value::Bool(true), text("yes"), text("no")]);
    match evaluate(&mut env, 0, form) {
        Ok(Value::Str(s)) => assert_eq!(s, "yes"),
        _ => panic!("expected the then-branch"),
    }
}

#[test]
fn if_picks_the_else_branch_on_nil() {
    let mut env = root_env();
    let form = list(vec![sym("if"), Value::Nil, text("yes"), text("no")]);
    match evaluate(&mut env, 0, form) {
        Ok(Value::Str(s)) => assert_eq!(s, "no"),
        _ => panic!("expected the else-branch"),
    }
}

#[test]
fn if_without_else_branch_gives_nil() {
    let mut env = root_env();
    let form = list(vec![sym("if"), Value::Nil, text("yes")]);
    assert!(matches!(evaluate(&mut env, 0, form), Ok(Value::Nil)));
}

#[test]
fn if_treats_zero_and_empty_string_as_truthy() {
    let mut env = root_env();
    let form = list(vec![sym("if"), num(0), text("yes"), text("no")]);
    match evaluate(&mut env, 0, form) {
        Ok(Value::Str(s)) => assert_eq!(s, "yes"),
        _ => panic!("expected the then-branch"),
    }
    let form = list(vec![sym("if"), text(""), text("yes"), text("no")]);
    match evaluate(&mut env, 0, form) {
        Ok(Value::Str(s)) => assert_eq!(s, "yes"),
        _ => panic!("expected the then-branch"),
    }
}

#[test]
fn if_with_too_few_elements_fails() {
    let mut env = root_env();
    let form = list(vec![sym("if"), Value::Bool(true)]);
    assert!(matches!(evaluate(&mut env, 0, form), Err(EvalError::ArityError)));
}

#[test]
fn closure_captures_its_defining_scope() {
    // ((fn* (x) (+ x y)) 5) defined where y is 10 resolves y lexically: 15.
    let mut env = root_env();
    let a = env.detach(0);
    env.set(a, &sym("y"), num(10)).unwrap();
    let lam = list(vec![
        sym("fn*"),
        list(vec![sym("x")]),
        list(vec![sym("+"), sym("x"), sym("y")]),
    ]);
    let call = list(vec![lam, num(5)]);
    assert!(matches!(evaluate(&mut env, a, call), Ok(Value::Number(15))));
}

#[test]
fn closure_scoping_is_lexical_not_dynamic() {
    // Define the closure where y is 10, call it from a scope where y is unbound.
    let mut env = root_env();
    let a = env.detach(0);
    env.set(a, &sym("y"), num(10)).unwrap();
    let lam = list(vec![
        sym("fn*"),
        list(vec![sym("x")]),
        list(vec![sym("+"), sym("x"), sym("y")]),
    ]);
    let clo = evaluate(&mut env, a, lam).unwrap();
    let b = env.detach(0);
    assert!(matches!(
        evaluate(&mut env, b, sym("y")),
        Err(EvalError::UnboundSymbol(_))
    ));
    env.set(b, &sym("g"), clo).unwrap();
    let call = list(vec![sym("g"), num(5)]);
    assert!(matches!(evaluate(&mut env, b, call), Ok(Value::Number(15))));
}

#[test]
fn closure_arity_mismatch_fails() {
    let mut env = root_env();
    let lam = list(vec![sym("fn*"), list(vec![sym("x")]), sym("x")]);
    let call = list(vec![lam, num(1), num(2)]);
    assert!(matches!(evaluate(&mut env, 0, call), Err(EvalError::ArityError)));
}

#[test]
fn fn_rejects_non_symbol_parameters() {
    let mut env = root_env();
    let lam = list(vec![sym("fn*"), list(vec![num(1)]), num(2)]);
    assert!(matches!(evaluate(&mut env, 0, lam), Err(EvalError::ShapeError)));
}

#[test]
fn fn_parameters_must_be_a_list_or_vector() {
    let mut env = root_env();
    let lam = list(vec![sym("fn*"), num(1), num(2)]);
    assert!(matches!(evaluate(&mut env, 0, lam), Err(EvalError::ShapeError)));
}

#[test]
fn do_returns_the_last_element() {
    let mut env = root_env();
    let form = list(vec![sym("do"), num(1), num(2), num(3)]);
    assert!(matches!(evaluate(&mut env, 0, form), Ok(Value::Number(3))));
}

#[test]
fn do_evaluates_earlier_elements_for_effect() {
    let mut env = root_env();
    // (do (def! x 1) (def! x 2) x) shows the earlier elements really ran.
    let form = list(vec![
        sym("do"),
        list(vec![sym("def!"), sym("x"), num(1)]),
        list(vec![sym("def!"), sym("x"), num(2)]),
        sym("x"),
    ]);
    assert!(matches!(evaluate(&mut env, 0, form), Ok(Value::Number(2))));
}

#[test]
fn do_with_empty_body_fails() {
    let mut env = root_env();
    let form = list(vec![sym("do")]);
    assert!(matches!(evaluate(&mut env, 0, form), Err(EvalError::ArityError)));
}

#[test]
fn deep_tail_nesting_completes() {
    // A chain of do-forms in tail position deep enough that one native stack
    // frame per step would be noticeable; the trampoline keeps the depth flat.
    let mut env = root_env();
    let mut form = num(7);
    let mut i = 0;
    while i < 4000 {
        form = list(vec![sym("do"), num(1), form]);
        i += 1;
    }
    assert!(matches!(evaluate(&mut env, 0, form), Ok(Value::Number(7))));
}

#[test]
fn running_out_of_fuel_is_reported() {
    let mut env = root_env();
    let form = list(vec![sym("do"), num(1), num(2)]);
    assert!(matches!(eval(&mut env, 0, form, 1), Err(EvalError::OutOfFuel)));
}

#[test]
fn applying_a_non_function_fails() {
    let mut env = root_env();
    let form = list(vec![num(1), num(2)]);
    assert!(matches!(evaluate(&mut env, 0, form), Err(EvalError::NotCallable)));
}

#[test]
fn eval_form_evaluates_its_argument() {
    let mut env = root_env();
    let a = env.detach(0);
    let form = list(vec![sym("eval"), list(vec![sym("+"), num(1), num(2)])]);
    assert!(matches!(evaluate(&mut env, a, form), Ok(Value::Number(3))));
}

#[test]
fn eval_form_without_argument_fails() {
    let mut env = root_env();
    let form = list(vec![sym("eval")]);
    assert!(matches!(evaluate(&mut env, 0, form), Err(EvalError::ArityError)));
}

#[test]
fn primitives_compute_exact_values() {
    let mut env = root_env();
    let form = list(vec![sym("+"), num(2), num(3)]);
    assert!(matches!(evaluate(&mut env, 0, form), Ok(Value::Number(5))));
    let form = list(vec![sym("-"), num(2), num(3)]);
    assert!(matches!(evaluate(&mut env, 0, form), Ok(Value::Number(-1))));
    let form = list(vec![sym("*"), num(6), num(7)]);
    assert!(matches!(evaluate(&mut env, 0, form), Ok(Value::Number(42))));
    let form = list(vec![sym("<"), num(1), num(2)]);
    assert!(matches!(evaluate(&mut env, 0, form), Ok(Value::Bool(true))));
    let form = list(vec![sym("<"), num(2), num(1)]);
    assert!(matches!(evaluate(&mut env, 0, form), Ok(Value::Bool(false))));
}

#[test]
fn addition_wraps_around() {
    let mut env = root_env();
    let form = list(vec![sym("+"), num(i64::MAX), num(1)]);
    assert!(matches!(evaluate(&mut env, 0, form), Ok(Value::Number(i64::MIN))));
}

#[test]
fn primitive_arity_and_shape_errors() {
    let mut env = root_env();
    let form = list(vec![sym("+"), num(1)]);
    assert!(matches!(evaluate(&mut env, 0, form), Err(EvalError::ArityError)));
    let form = list(vec![sym("+"), text("a"), num(1)]);
    assert!(matches!(evaluate(&mut env, 0, form), Err(EvalError::ShapeError)));
}
