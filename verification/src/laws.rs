//! The laws the evaluator obeys, each proved against the big-step semantics
//! [`crate::eval::eval_spec`] that the executable evaluator is verified to
//! implement. Every law asks for at least one unit of budget, since an empty
//! budget reports `OutOfFuel` before anything is looked at.
use vstd::prelude::*;

use crate::env::{empty_scope, find_spec, set_spec, SpecScope};
use crate::eval::{
    bind_params, eval_ast_spec, eval_discard_spec, eval_spec, is_form, params_of, seq_of, truthy,
};
use crate::value::{SpecErr, SpecFunc, SpecVal};

verus! {

/// An atomic value: `Nil`, a boolean, a number, or a string.
pub open spec fn is_atom(v: SpecVal) -> bool {
    v is Nil || v is Bool || v is Number || v is Str
}

/// Every well-formed atom evaluates to itself, unchanged, in every environment
/// and store.
pub proof fn lemma_atoms_self_evaluate(fuel: nat, st: Seq<SpecScope>, env: int, a: SpecVal)
    requires
        fuel >= 1,
        is_atom(a),
    ensures
        eval_spec(fuel, st, env, a) == (st, Ok::<SpecVal, SpecErr>(a)),
{
}

/// Evaluating a symbol returns the value bound in the nearest scope of the
/// chain that binds it — the most recently `set` binding there, since a later
/// `set` in a scope replaces the earlier one in that scope's mapping — and
/// fails as unbound exactly when no scope in the chain binds it.
pub proof fn lemma_symbol_resolution(fuel: nat, st: Seq<SpecScope>, env: int, s: Seq<char>)
    requires
        fuel >= 1,
    ensures
        find_spec(st, env, s) matches Some(j) ==> eval_spec(fuel, st, env, SpecVal::Symbol(s)) == (
            st,
            Ok::<SpecVal, SpecErr>(st[j].bindings[s]),
        ),
        find_spec(st, env, s) is None ==> eval_spec(fuel, st, env, SpecVal::Symbol(s)) == (
            st,
            Err::<SpecVal, SpecErr>(SpecErr::UnboundSymbol(s)),
        ),
{
}

/// `(def! name expr)` returns exactly the value `expr` evaluated to, binds it
/// in the current scope, and a lookup of `name` in that scope right afterwards
/// finds that very value.
pub proof fn lemma_def_binds_and_returns(
    fuel: nat,
    st: Seq<SpecScope>,
    env: int,
    l: Seq<SpecVal>,
    name: Seq<char>,
    st1: Seq<SpecScope>,
    v: SpecVal,
)
    requires
        fuel >= 1,
        l.len() == 3,
        l[0] == SpecVal::Symbol("def!"@),
        l[1] == SpecVal::Symbol(name),
        eval_spec((fuel - 1) as nat, st, env, l[2]) == (st1, Ok::<SpecVal, SpecErr>(v)),
    ensures
        eval_spec(fuel, st, env, SpecVal::List(l)) == (
            set_spec(st1, env, name, v),
            Ok::<SpecVal, SpecErr>(v),
        ),
        0 <= env < st1.len() ==> find_spec(set_spec(st1, env, name, v), env, name) == Some(env)
            && set_spec(st1, env, name, v)[env].bindings[name] == v,
{
}

/// Inside a `let*` binding list, once the first `(name, expr)` pair has been
/// evaluated and bound, every later binding expression — and then the body —
/// runs in a store where `name` already carries that value: later bindings
/// observe earlier ones.
pub proof fn lemma_let_bindings_observe_earlier(
    fuel: nat,
    st: Seq<SpecScope>,
    ne: int,
    b: Seq<SpecVal>,
    name: Seq<char>,
    st1: Seq<SpecScope>,
    v: SpecVal,
)
    requires
        b.len() >= 2,
        b[0] == SpecVal::Symbol(name),
        eval_spec(fuel, st, ne, b[1]) == (st1, Ok::<SpecVal, SpecErr>(v)),
    ensures
        crate::eval::eval_binds_spec(fuel, st, ne, b) == crate::eval::eval_binds_spec(
            fuel,
            set_spec(st1, ne, name, v),
            ne,
            b.subrange(2, b.len() as int),
        ),
{
}

/// A `let*` whose binding list has odd length is rejected with an arity error,
/// after the child scope was opened and before any binding is evaluated.
pub proof fn lemma_let_odd_bindings_rejected(
    fuel: nat,
    st: Seq<SpecScope>,
    env: int,
    l: Seq<SpecVal>,
    b: Seq<SpecVal>,
)
    requires
        fuel >= 1,
        l.len() >= 3,
        l[0] == SpecVal::Symbol("let*"@),
        seq_of(l[1]) == Some(b),
        b.len() % 2 == 1,
    ensures
        eval_spec(fuel, st, env, SpecVal::List(l)) == (
            st.push(empty_scope(Some(env))),
            Err::<SpecVal, SpecErr>(SpecErr::ArityError),
        ),
{
    reveal_strlit("def!");
    reveal_strlit("let*");
    assert("def!"@[0] == 'd');
    assert("let*"@[0] == 'l');
}

/// When the condition of an `if` evaluates to `c`, the whole form evaluates the
/// then-branch if `c` is truthy (anything but `Nil` and `false`), the
/// else-branch if one is given, and `Nil` otherwise, in the same scope.
pub proof fn lemma_if_picks_branch(
    fuel: nat,
    st: Seq<SpecScope>,
    env: int,
    l: Seq<SpecVal>,
    st1: Seq<SpecScope>,
    c: SpecVal,
)
    requires
        fuel >= 1,
        l.len() >= 3,
        l[0] == SpecVal::Symbol("if"@),
        eval_spec((fuel - 1) as nat, st, env, l[1]) == (st1, Ok::<SpecVal, SpecErr>(c)),
    ensures
        eval_spec(fuel, st, env, SpecVal::List(l)) == eval_spec(
            (fuel - 1) as nat,
            st1,
            env,
            if truthy(c) {
                l[2]
            } else if l.len() >= 4 {
                l[3]
            } else {
                SpecVal::Nil
            },
        ),
{
    reveal_strlit("def!");
    reveal_strlit("let*");
    reveal_strlit("do");
    reveal_strlit("if");
    assert("def!"@.len() == 4);
    assert("let*"@.len() == 4);
    assert("do"@.len() == 2);
    assert("if"@.len() == 2);
    assert("do"@[0] == 'd');
    assert("if"@[0] == 'i');
}

/// `fn*` returns a closure that captures the parameter names, the body
/// unevaluated, and the scope current at the definition site — lexical, not
/// dynamic, scoping. The store is untouched.
pub proof fn lemma_fn_captures_defining_scope(
    fuel: nat,
    st: Seq<SpecScope>,
    env: int,
    l: Seq<SpecVal>,
    ps: Seq<SpecVal>,
    params: Seq<Seq<char>>,
)
    requires
        fuel >= 1,
        l.len() >= 3,
        l[0] == SpecVal::Symbol("fn*"@),
        seq_of(l[1]) == Some(ps),
        params_of(ps) == Some(params),
    ensures
        eval_spec(fuel, st, env, SpecVal::List(l)) == (
            st,
            Ok::<SpecVal, SpecErr>(
                SpecVal::Func(SpecFunc::Closure { params, body: Box::new(l[2]), env }),
            ),
        ),
{
    reveal_strlit("def!");
    reveal_strlit("let*");
    reveal_strlit("do");
    reveal_strlit("if");
    reveal_strlit("fn*");
    assert("def!"@.len() == 4);
    assert("let*"@.len() == 4);
    assert("do"@.len() == 2);
    assert("if"@.len() == 2);
    assert("fn*"@.len() == 3);
}

/// Calling a closure evaluates its body in a fresh scope whose outer link is
/// the closure's captured scope — not the caller's — with the parameters bound
/// positionally to the evaluated arguments.
pub proof fn lemma_apply_enters_captured_scope(
    fuel: nat,
    st: Seq<SpecScope>,
    env: int,
    l: Seq<SpecVal>,
    st1: Seq<SpecScope>,
    l2: Seq<SpecVal>,
    params: Seq<Seq<char>>,
    body: SpecVal,
    cenv: int,
)
    requires
        fuel >= 1,
        l.len() >= 1,
        !is_form(l[0], "def!"@),
        !is_form(l[0], "let*"@),
        !is_form(l[0], "do"@),
        !is_form(l[0], "if"@),
        !is_form(l[0], "fn*"@),
        !is_form(l[0], "eval"@),
        eval_ast_spec((fuel - 1) as nat, st, env, SpecVal::List(l)) == (
            st1,
            Ok::<SpecVal, SpecErr>(SpecVal::List(l2)),
        ),
        l2.len() >= 1,
        l2[0] == SpecVal::Func(SpecFunc::Closure { params, body: Box::new(body), env: cenv }),
        l2.len() - 1 == params.len(),
    ensures
        eval_spec(fuel, st, env, SpecVal::List(l)) == eval_spec(
            (fuel - 1) as nat,
            st1.push(
                SpecScope {
                    bindings: bind_params(params, l2.subrange(1, l2.len() as int)),
                    outer: Some(cenv),
                },
            ),
            st1.len() as int,
            body,
        ),
{
}

/// `(do e1 ... en)` evaluates every element before the last, left to right,
/// purely for its effect on the store — the results are discarded but the store
/// they produced (`st1`) is the one the last element is evaluated in — and the
/// value of the whole form is the value of the last element.
pub proof fn lemma_do_returns_last(
    fuel: nat,
    st: Seq<SpecScope>,
    env: int,
    l: Seq<SpecVal>,
    st1: Seq<SpecScope>,
)
    requires
        fuel >= 1,
        l.len() >= 2,
        l[0] == SpecVal::Symbol("do"@),
        eval_discard_spec((fuel - 1) as nat, st, env, l.subrange(1, l.len() - 1)) == (
            st1,
            Ok::<(), SpecErr>(()),
        ),
    ensures
        eval_spec(fuel, st, env, SpecVal::List(l)) == eval_spec(
            (fuel - 1) as nat,
            st1,
            env,
            l[l.len() - 1],
        ),
{
    reveal_strlit("def!");
    reveal_strlit("let*");
    reveal_strlit("do");
    assert("do"@.len() == 2);
    assert("def!"@.len() == 4);
    assert("let*"@.len() == 4);
}

} // verus!
