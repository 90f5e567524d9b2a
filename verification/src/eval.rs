//! The evaluator: a generic environment-aware descent (`eval_ast`) and the
//! special-form dispatch loop (`eval`), whose trampoline rebinds the current
//! node and scope for forms in tail position instead of recursing, so that
//! chains of tail steps run in constant native call depth.
//!
//! The meaning of evaluation is fixed by the spec functions [`eval_spec`] and
//! [`eval_ast_spec`]: a big-step semantics over the models of values and
//! stores, bounded by a step budget (`fuel`) that shrinks by one at every
//! evaluator entry. The executable evaluator is proved to return, and to leave
//! the store as, exactly what the semantics says for the same budget.
use vstd::prelude::*;

use crate::env::{
    empty_scope, find_spec, lemma_push_scope_wf, lemma_set_spec_wf, set_spec, store_wf, Env,
    SpecScope,
};
use crate::value::{
    lemma_val_wf_widen, lemma_vals_wf_widen, pairs_wf, res_view, val_wf, vals_wf, view_names,
    view_pairs, view_seq, EvalError, Func, Prim, SpecErr, SpecFunc, SpecVal, Value,
};

verus! {

broadcast use crate::value::lemma_view_seq_len, crate::value::lemma_view_seq_index,
    crate::value::lemma_view_pairs_len, crate::value::lemma_view_pairs_index,
    crate::value::lemma_vals_wf, crate::value::lemma_pairs_wf;

/// Whether `v` is the symbol spelled `name`.
pub open spec fn is_form(v: SpecVal, name: Seq<char>) -> bool {
    v matches SpecVal::Symbol(s) && s == name
}

/// Everything but `Nil` and `false` counts as true in a condition.
pub open spec fn truthy(v: SpecVal) -> bool {
    !(v == SpecVal::Nil || v == SpecVal::Bool(false))
}

/// The elements of a list or a vector, if `v` is one.
pub open spec fn seq_of(v: SpecVal) -> Option<Seq<SpecVal>> {
    match v {
        SpecVal::List(l) => Some(l),
        SpecVal::Vector(l) => Some(l),
        _ => None,
    }
}

/// The parameter names of a parameter list: every element must be a symbol.
pub open spec fn params_of(s: Seq<SpecVal>) -> Option<Seq<Seq<char>>>
    decreases s,
{
    if s.len() == 0 {
        Some(Seq::empty())
    } else {
        match params_of(s.subrange(0, s.len() - 1)) {
            Some(ps) => match s[s.len() - 1] {
                SpecVal::Symbol(n) => Some(ps.push(n)),
                _ => None,
            },
            None => None,
        }
    }
}

/// A parameter list with a non-symbol element has no parameter names.
pub proof fn lemma_params_of_none(s: Seq<SpecVal>, i: int)
    requires
        0 <= i < s.len(),
        !(s[i] is Symbol),
    ensures
        params_of(s) is None,
    decreases s.len(),
{
    if i < s.len() - 1 {
        lemma_params_of_none(s.subrange(0, s.len() - 1), i);
    }
}

/// The bindings of a call frame: parameter names bound positionally to arguments.
pub open spec fn bind_params(params: Seq<Seq<char>>, args: Seq<SpecVal>) -> Map<Seq<char>, SpecVal>
    decreases params,
{
    if params.len() == 0 {
        Map::empty()
    } else {
        bind_params(
            params.subrange(0, params.len() - 1),
            args.subrange(0, params.len() - 1),
        ).insert(params[params.len() - 1], args[params.len() - 1])
    }
}

/// What a host primitive returns for the given evaluated arguments.
pub open spec fn apply_prim_spec(p: Prim, args: Seq<SpecVal>) -> Result<SpecVal, SpecErr> {
    if args.len() != 2 {
        Err(SpecErr::ArityError)
    } else {
        match (args[0], args[1]) {
            (SpecVal::Number(a), SpecVal::Number(b)) => Ok(
                match p {
                    Prim::Add => SpecVal::Number(vstd::wrapping::i64_specs::wrapping_add(a, b)),
                    Prim::Sub => SpecVal::Number(vstd::wrapping::i64_specs::wrapping_sub(a, b)),
                    Prim::Mul => SpecVal::Number(vstd::wrapping::i64_specs::wrapping_mul(a, b)),
                    Prim::Lt => SpecVal::Bool(a < b),
                },
            ),
            _ => Err(SpecErr::ShapeError),
        }
    }
}

/// Evaluates every element of `items` left to right, threading the store, and
/// collects the results in order; the first failure aborts the rest.
pub open spec fn eval_seq_spec(fuel: nat, st: Seq<SpecScope>, env: int, items: Seq<SpecVal>) -> (
    Seq<SpecScope>,
    Result<Seq<SpecVal>, SpecErr>,
)
    decreases fuel, 1int, items.len(),
{
    if items.len() == 0 {
        (st, Ok(Seq::empty()))
    } else {
        let (st1, r1) = eval_spec(fuel, st, env, items[0]);
        match r1 {
            Ok(v) => {
                let (st2, r2) = eval_seq_spec(fuel, st1, env, items.subrange(1, items.len() as int));
                match r2 {
                    Ok(vs) => (st2, Ok(seq![v] + vs)),
                    Err(e) => (st2, Err(e)),
                }
            },
            Err(e) => (st1, Err(e)),
        }
    }
}

/// Evaluates every element left to right for its effect on the store alone.
pub open spec fn eval_discard_spec(fuel: nat, st: Seq<SpecScope>, env: int, items: Seq<SpecVal>) -> (
    Seq<SpecScope>,
    Result<(), SpecErr>,
)
    decreases fuel, 1int, items.len(),
{
    if items.len() == 0 {
        (st, Ok(()))
    } else {
        let (st1, r1) = eval_spec(fuel, st, env, items[0]);
        match r1 {
            Ok(v) => eval_discard_spec(fuel, st1, env, items.subrange(1, items.len() as int)),
            Err(e) => (st1, Err(e)),
        }
    }
}

/// Evaluates every entry's value left to right, keeping keys as literals.
pub open spec fn eval_pairs_spec(
    fuel: nat,
    st: Seq<SpecScope>,
    env: int,
    ps: Seq<(SpecVal, SpecVal)>,
) -> (Seq<SpecScope>, Result<Seq<(SpecVal, SpecVal)>, SpecErr>)
    decreases fuel, 1int, ps.len(),
{
    if ps.len() == 0 {
        (st, Ok(Seq::empty()))
    } else {
        let (st1, r1) = eval_spec(fuel, st, env, ps[0].1);
        match r1 {
            Ok(v) => {
                let (st2, r2) = eval_pairs_spec(fuel, st1, env, ps.subrange(1, ps.len() as int));
                match r2 {
                    Ok(qs) => (st2, Ok(seq![(ps[0].0, v)] + qs)),
                    Err(e) => (st2, Err(e)),
                }
            },
            Err(e) => (st1, Err(e)),
        }
    }
}

/// Evaluates the ordered `(symbol, expression)` pairs of a `let*` binding list
/// in the growing scope `env`, binding each value as soon as it is evaluated,
/// so later bindings observe earlier ones.
pub open spec fn eval_binds_spec(fuel: nat, st: Seq<SpecScope>, env: int, binds: Seq<SpecVal>) -> (
    Seq<SpecScope>,
    Result<(), SpecErr>,
)
    decreases fuel, 1int, binds.len(),
{
    if binds.len() < 2 {
        (st, Ok(()))
    } else {
        let (st1, r1) = eval_spec(fuel, st, env, binds[1]);
        match r1 {
            Ok(v) => match binds[0] {
                SpecVal::Symbol(name) => eval_binds_spec(
                    fuel,
                    set_spec(st1, env, name, v),
                    env,
                    binds.subrange(2, binds.len() as int),
                ),
                _ => (st1, Err(SpecErr::ShapeError)),
            },
            Err(e) => (st1, Err(e)),
        }
    }
}

/// Generic descent: evaluates every sub-expression of `e` in `env` without
/// reading any symbol as a special form. Symbols resolve through the chain,
/// lists and vectors evaluate elementwise, map entries evaluate their values,
/// and atoms evaluate to themselves.
pub open spec fn eval_ast_spec(fuel: nat, st: Seq<SpecScope>, env: int, e: SpecVal) -> (
    Seq<SpecScope>,
    Result<SpecVal, SpecErr>,
)
    decreases fuel, 2int, 0int,
{
    match e {
        SpecVal::Symbol(s) => match find_spec(st, env, s) {
            Some(j) => (st, Ok(st[j].bindings[s])),
            None => (st, Err(SpecErr::UnboundSymbol(s))),
        },
        SpecVal::List(l) => {
            let (st1, r1) = eval_seq_spec(fuel, st, env, l);
            (
                st1,
                match r1 {
                    Ok(vs) => Ok(SpecVal::List(vs)),
                    Err(e) => Err(e),
                },
            )
        },
        SpecVal::Vector(l) => {
            let (st1, r1) = eval_seq_spec(fuel, st, env, l);
            (
                st1,
                match r1 {
                    Ok(vs) => Ok(SpecVal::Vector(vs)),
                    Err(e) => Err(e),
                },
            )
        },
        SpecVal::HashMap(ps) => {
            let (st1, r1) = eval_pairs_spec(fuel, st, env, ps);
            (
                st1,
                match r1 {
                    Ok(qs) => Ok(SpecVal::HashMap(qs)),
                    Err(e) => Err(e),
                },
            )
        },
        _ => (st, Ok(e)),
    }
}

/// `(def! symbol expr)`: evaluate `expr` in `env`, bind the symbol to the
/// result in `env` itself, and return the result.
pub open spec fn eval_def_spec(fuel: nat, st: Seq<SpecScope>, env: int, l: Seq<SpecVal>) -> (
    Seq<SpecScope>,
    Result<SpecVal, SpecErr>,
)
    decreases fuel, 3int, 0int,
{
    if l.len() < 3 {
        (st, Err(SpecErr::ArityError))
    } else {
        let (st1, r1) = eval_spec(fuel, st, env, l[2]);
        match r1 {
            Ok(v) => match l[1] {
                SpecVal::Symbol(name) => (set_spec(st1, env, name, v), Ok(v)),
                _ => (st1, Err(SpecErr::ShapeError)),
            },
            Err(e) => (st1, Err(e)),
        }
    }
}

/// `(let* bindings body)`: open a child scope of `env`, evaluate the even-length
/// binding list in it, then evaluate `body` there (a tail position).
pub open spec fn eval_let_spec(fuel: nat, st: Seq<SpecScope>, env: int, l: Seq<SpecVal>) -> (
    Seq<SpecScope>,
    Result<SpecVal, SpecErr>,
)
    decreases fuel, 3int, 0int,
{
    if l.len() < 3 {
        (st, Err(SpecErr::ArityError))
    } else {
        let st1 = st.push(empty_scope(Some(env)));
        let ne = st.len() as int;
        match seq_of(l[1]) {
            Some(b) => if b.len() % 2 != 0 {
                (st1, Err(SpecErr::ArityError))
            } else {
                let (st2, r2) = eval_binds_spec(fuel, st1, ne, b);
                match r2 {
                    Ok(u) => eval_spec(fuel, st2, ne, l[2]),
                    Err(e) => (st2, Err(e)),
                }
            },
            None => (st1, Err(SpecErr::ShapeError)),
        }
    }
}

/// `(do e1 ... en)`: evaluate every element but the last for effect, then the
/// last one (a tail position). An empty body is an arity error.
pub open spec fn eval_do_spec(fuel: nat, st: Seq<SpecScope>, env: int, l: Seq<SpecVal>) -> (
    Seq<SpecScope>,
    Result<SpecVal, SpecErr>,
)
    decreases fuel, 3int, 0int,
{
    if l.len() < 2 {
        (st, Err(SpecErr::ArityError))
    } else {
        let (st1, r1) = eval_discard_spec(fuel, st, env, l.subrange(1, l.len() - 1));
        match r1 {
            Ok(u) => eval_spec(fuel, st1, env, l[l.len() - 1]),
            Err(e) => (st1, Err(e)),
        }
    }
}

/// `(if cond then else?)`: needs at least the condition and the then-branch;
/// `Nil` and `false` pick the else-branch (or `Nil` when absent), anything else
/// the then-branch, evaluated in the same `env` (a tail position).
pub open spec fn eval_if_spec(fuel: nat, st: Seq<SpecScope>, env: int, l: Seq<SpecVal>) -> (
    Seq<SpecScope>,
    Result<SpecVal, SpecErr>,
)
    decreases fuel, 3int, 0int,
{
    if l.len() < 3 {
        (st, Err(SpecErr::ArityError))
    } else {
        let (st1, r1) = eval_spec(fuel, st, env, l[1]);
        match r1 {
            Ok(c) => eval_spec(
                fuel,
                st1,
                env,
                if truthy(c) {
                    l[2]
                } else if l.len() >= 4 {
                    l[3]
                } else {
                    SpecVal::Nil
                },
            ),
            Err(e) => (st1, Err(e)),
        }
    }
}

/// `(fn* params body)`: build a closure over the parameter names, the
/// unevaluated body, and the current scope (lexical capture). Nothing is
/// evaluated now and the store does not change.
pub open spec fn eval_fn_spec(st: Seq<SpecScope>, env: int, l: Seq<SpecVal>) -> (
    Seq<SpecScope>,
    Result<SpecVal, SpecErr>,
) {
    if l.len() < 3 {
        (st, Err(SpecErr::ArityError))
    } else {
        match seq_of(l[1]) {
            Some(ps) => match params_of(ps) {
                Some(params) => (
                    st,
                    Ok(
                        SpecVal::Func(
                            SpecFunc::Closure { params, body: Box::new(l[2]), env },
                        ),
                    ),
                ),
                None => (st, Err(SpecErr::ShapeError)),
            },
            None => (st, Err(SpecErr::ShapeError)),
        }
    }
}

/// `(eval expr)`: evaluate `expr` in `env`, then evaluate the result one
/// lexical level out: in `env`'s outer scope when it has one, else in `env`.
pub open spec fn eval_eval_spec(fuel: nat, st: Seq<SpecScope>, env: int, l: Seq<SpecVal>) -> (
    Seq<SpecScope>,
    Result<SpecVal, SpecErr>,
)
    decreases fuel, 3int, 0int,
{
    if l.len() < 2 {
        (st, Err(SpecErr::ArityError))
    } else {
        let (st1, r1) = eval_spec(fuel, st, env, l[1]);
        match r1 {
            Ok(v) => {
                let ne = if 0 <= env < st1.len() {
                    match st1[env].outer {
                        Some(j) => j,
                        None => env,
                    }
                } else {
                    env
                };
                eval_spec(fuel, st1, ne, v)
            },
            Err(e) => (st1, Err(e)),
        }
    }
}

/// An application: evaluate head and arguments generically, then call the head.
/// A closure call opens a child scope of the closure's captured scope with the
/// parameters bound positionally and evaluates the body there; a primitive
/// computes directly. A non-function head is `NotCallable`.
pub open spec fn eval_apply_spec(fuel: nat, st: Seq<SpecScope>, env: int, e: SpecVal) -> (
    Seq<SpecScope>,
    Result<SpecVal, SpecErr>,
)
    decreases fuel, 3int, 0int,
{
    let (st1, r1) = eval_ast_spec(fuel, st, env, e);
    match r1 {
        Ok(ev) => match ev {
            SpecVal::List(l2) => if l2.len() == 0 {
                (st1, Err(SpecErr::MalformedCall))
            } else {
                match l2[0] {
                    SpecVal::Func(func) => match func {
                        SpecFunc::Closure { params, body, env: cenv } => {
                            let args = l2.subrange(1, l2.len() as int);
                            if args.len() != params.len() {
                                (st1, Err(SpecErr::ArityError))
                            } else {
                                let st2 = st1.push(
                                    SpecScope { bindings: bind_params(params, args), outer: Some(cenv) },
                                );
                                eval_spec(fuel, st2, st1.len() as int, *body)
                            }
                        },
                        SpecFunc::Prim(p) => (
                            st1,
                            apply_prim_spec(p, l2.subrange(1, l2.len() as int)),
                        ),
                    },
                    _ => (st1, Err(SpecErr::NotCallable)),
                }
            },
            _ => (st1, Err(SpecErr::MalformedCall)),
        },
        Err(e) => (st1, Err(e)),
    }
}

/// The big-step semantics of evaluation, bounded by `fuel`: one unit is spent
/// at every entry, so `fuel` bounds the number of evaluator steps. A compound
/// form whose head is a recognized special-form symbol follows that form's
/// rule; any other list is an application; anything else descends generically.
pub open spec fn eval_spec(fuel: nat, st: Seq<SpecScope>, env: int, e: SpecVal) -> (
    Seq<SpecScope>,
    Result<SpecVal, SpecErr>,
)
    decreases fuel, 0int, 0int,
{
    if fuel == 0 {
        (st, Err(SpecErr::OutOfFuel))
    } else {
        let f = (fuel - 1) as nat;
        match e {
            SpecVal::List(l) => if l.len() == 0 {
                (st, Ok(e))
            } else if is_form(l[0], "def!"@) {
                eval_def_spec(f, st, env, l)
            } else if is_form(l[0], "let*"@) {
                eval_let_spec(f, st, env, l)
            } else if is_form(l[0], "do"@) {
                eval_do_spec(f, st, env, l)
            } else if is_form(l[0], "if"@) {
                eval_if_spec(f, st, env, l)
            } else if is_form(l[0], "fn*"@) {
                eval_fn_spec(st, env, l)
            } else if is_form(l[0], "eval"@) {
                eval_eval_spec(f, st, env, l)
            } else {
                eval_apply_spec(f, st, env, e)
            },
            _ => eval_ast_spec(f, st, env, e),
        }
    }
}

/// Prepends already-collected results to the outcome of evaluating the rest.
pub open spec fn seq_cont(
    pre: Seq<SpecVal>,
    out: (Seq<SpecScope>, Result<Seq<SpecVal>, SpecErr>),
) -> (Seq<SpecScope>, Result<Seq<SpecVal>, SpecErr>) {
    (
        out.0,
        match out.1 {
            Ok(vs) => Ok(pre + vs),
            Err(e) => Err(e),
        },
    )
}

/// Prepends already-collected entries to the outcome of evaluating the rest.
pub open spec fn pairs_cont(
    pre: Seq<(SpecVal, SpecVal)>,
    out: (Seq<SpecScope>, Result<Seq<(SpecVal, SpecVal)>, SpecErr>),
) -> (Seq<SpecScope>, Result<Seq<(SpecVal, SpecVal)>, SpecErr>) {
    (
        out.0,
        match out.1 {
            Ok(qs) => Ok(pre + qs),
            Err(e) => Err(e),
        },
    )
}

/// Whether `s` spells the same characters as the literal `lit`.
fn str_eq(s: &String, lit: &str) -> (b: bool)
    ensures
        b == (s@ == lit@),
{
    let o: String = lit.to_owned();
    *s == o
}

/// Whether `v` is the symbol spelled `lit`.
fn sym_matches(v: &Value, lit: &str) -> (b: bool)
    ensures
        b == is_form(v.view(), lit@),
{
    match v {
        Value::Symbol(s) => str_eq(s, lit),
        _ => false,
    }
}

/// Calls the host primitive `p` on the evaluated elements after the head.
fn apply_prim(p: Prim, items: &Vec<Value>) -> (r: Result<Value, EvalError>)
    requires
        items@.len() >= 1,
    ensures
        res_view(r) == apply_prim_spec(p, view_seq(items@).subrange(1, items@.len() as int)),
{
    let ghost args = view_seq(items@).subrange(1, items@.len() as int);
    if items.len() != 3 {
        return Err(EvalError::ArityError);
    }
    let a: i64 = match &items[1] {
        Value::Number(n) => *n,
        _ => {
            return Err(EvalError::ShapeError);
        },
    };
    let b: i64 = match &items[2] {
        Value::Number(n) => *n,
        _ => {
            return Err(EvalError::ShapeError);
        },
    };
    proof {
        assert(args[0] == items@[1].view());
        assert(args[1] == items@[2].view());
    }
    match p {
        Prim::Add => Ok(Value::Number(a.wrapping_add(b))),
        Prim::Sub => Ok(Value::Number(a.wrapping_sub(b))),
        Prim::Mul => Ok(Value::Number(a.wrapping_mul(b))),
        Prim::Lt => Ok(Value::Bool(a < b)),
    }
}

/// Evaluates every element of `items` left to right in `scope`, collecting the
/// results in order; the first failure aborts the rest.
fn eval_elems(env: &mut Env, scope: usize, items: &Vec<Value>, fuel: u64) -> (r: Result<
    Vec<Value>,
    EvalError,
>)
    requires
        store_wf(old(env)@),
        scope < old(env)@.len(),
        vals_wf(view_seq(items@), old(env)@.len() as int),
    ensures
        store_wf(final(env)@),
        old(env)@.len() <= final(env)@.len(),
        ({
            let (st1, r1) = eval_seq_spec(fuel as nat, old(env)@, scope as int, view_seq(items@));
            final(env)@ == st1 && (match (r, r1) {
                (Ok(vs), Ok(ws)) => view_seq(vs@) == ws && vals_wf(ws, final(env)@.len() as int),
                (Err(e), Err(e1)) => e.view() == e1,
                _ => false,
            })
        }),
    decreases fuel, 1int,
{
    let ghost im = view_seq(items@);
    let mut acc: Vec<Value> = Vec::new();
    let mut i: usize = 0;
    proof {
        assert(im.subrange(0, im.len() as int) =~= im);
        assert(view_seq(acc@) =~= Seq::<SpecVal>::empty());
        let t = eval_seq_spec(fuel as nat, old(env)@, scope as int, im);
        match t.1 {
            Ok(vs) => {
                assert(Seq::<SpecVal>::empty() + vs =~= vs);
            },
            Err(e) => {},
        }
    }
    while i < items.len()
        invariant
            store_wf(env@),
            scope < env@.len(),
            old(env)@.len() <= env@.len(),
            i <= items@.len(),
            im == view_seq(items@),
            im.len() == items@.len(),
            vals_wf(im, old(env)@.len() as int),
            acc@.len() == i as int,
            vals_wf(view_seq(acc@), env@.len() as int),
            eval_seq_spec(fuel as nat, old(env)@, scope as int, im) == seq_cont(
                view_seq(acc@),
                eval_seq_spec(fuel as nat, env@, scope as int, im.subrange(i as int, im.len() as int)),
            ),
        decreases items@.len() - i,
    {
        let ghost st_pre = env@;
        let ghost rest = im.subrange(i as int, im.len() as int);
        proof {
            assert(rest[0] == im[i as int]);
            assert(val_wf(im[i as int], old(env)@.len() as int));
            lemma_val_wf_widen(im[i as int], old(env)@.len() as int, env@.len() as int);
        }
        let v = match eval(env, scope, items[i].clone(), fuel) {
            Ok(v) => v,
            Err(e) => {
                return Err(e);
            },
        };
        proof {
            assert(rest.subrange(1, rest.len() as int) =~= im.subrange(
                i + 1,
                im.len() as int,
            ));
            let tail_next = eval_seq_spec(fuel as nat, env@, scope as int, im.subrange(i + 1, im.len() as int));
            let a_old = view_seq(acc@);
            assert(eval_seq_spec(fuel as nat, st_pre, scope as int, rest) == seq_cont(
                seq![v.view()],
                tail_next,
            ));
            assert(view_seq(acc@.push(v)) == view_seq(acc@.push(v).subrange(0, acc@.len() as int)).push(
                v.view(),
            ));
            assert(acc@.push(v).subrange(0, acc@.len() as int) =~= acc@);
            match tail_next.1 {
                Ok(vs) => {
                    assert(a_old + (seq![v.view()] + vs) =~= a_old.push(v.view()) + vs);
                },
                Err(e) => {},
            }
            // widen the collected results to the possibly grown store
            let n_pre = st_pre.len() as int;
            let n_now = env@.len() as int;
            assert forall|j: int| 0 <= j < a_old.len() implies val_wf(#[trigger] a_old[j], n_now) by {
                lemma_val_wf_widen(a_old[j], n_pre, n_now);
            }
            assert(a_old.push(v.view())[a_old.len() as int] == v.view());
            assert forall|j: int| 0 <= j < a_old.len() + 1 implies val_wf(
                #[trigger] a_old.push(v.view())[j],
                n_now,
            ) by {
                if j < a_old.len() {
                    assert(a_old.push(v.view())[j] == a_old[j]);
                }
            }
        }
        acc.push(v);
        i = i + 1;
    }
    proof {
        assert(im.subrange(i as int, im.len() as int) =~= Seq::<SpecVal>::empty());
        assert(view_seq(acc@) + Seq::<SpecVal>::empty() =~= view_seq(acc@));
    }
    Ok(acc)
}

/// Evaluates every entry's value of `items` left to right in `scope`, keeping
/// the keys as literals; the first failure aborts the rest.
fn eval_map_vals(env: &mut Env, scope: usize, items: &Vec<(Value, Value)>, fuel: u64) -> (r:
    Result<Vec<(Value, Value)>, EvalError>)
    requires
        store_wf(old(env)@),
        scope < old(env)@.len(),
        pairs_wf(view_pairs(items@), old(env)@.len() as int),
    ensures
        store_wf(final(env)@),
        old(env)@.len() <= final(env)@.len(),
        ({
            let (st1, r1) = eval_pairs_spec(fuel as nat, old(env)@, scope as int, view_pairs(items@));
            final(env)@ == st1 && (match (r, r1) {
                (Ok(qs), Ok(ws)) => view_pairs(qs@) == ws && pairs_wf(ws, final(env)@.len() as int),
                (Err(e), Err(e1)) => e.view() == e1,
                _ => false,
            })
        }),
    decreases fuel, 1int,
{
    let ghost im = view_pairs(items@);
    let mut acc: Vec<(Value, Value)> = Vec::new();
    let mut i: usize = 0;
    proof {
        assert(im.subrange(0, im.len() as int) =~= im);
        assert(view_pairs(acc@) =~= Seq::<(SpecVal, SpecVal)>::empty());
        let t = eval_pairs_spec(fuel as nat, old(env)@, scope as int, im);
        match t.1 {
            Ok(qs) => {
                assert(Seq::<(SpecVal, SpecVal)>::empty() + qs =~= qs);
            },
            Err(e) => {},
        }
    }
    while i < items.len()
        invariant
            store_wf(env@),
            scope < env@.len(),
            old(env)@.len() <= env@.len(),
            i <= items@.len(),
            im == view_pairs(items@),
            im.len() == items@.len(),
            pairs_wf(im, old(env)@.len() as int),
            acc@.len() == i as int,
            pairs_wf(view_pairs(acc@), env@.len() as int),
            eval_pairs_spec(fuel as nat, old(env)@, scope as int, im) == pairs_cont(
                view_pairs(acc@),
                eval_pairs_spec(
                    fuel as nat,
                    env@,
                    scope as int,
                    im.subrange(i as int, im.len() as int),
                ),
            ),
        decreases items@.len() - i,
    {
        let ghost st_pre = env@;
        let ghost rest = im.subrange(i as int, im.len() as int);
        proof {
            assert(rest[0] == im[i as int]);
            assert(val_wf(im[i as int].0, old(env)@.len() as int) && val_wf(
                im[i as int].1,
                old(env)@.len() as int,
            ));
            lemma_val_wf_widen(im[i as int].1, old(env)@.len() as int, env@.len() as int);
        }
        let key = items[i].0.clone();
        let v = match eval(env, scope, items[i].1.clone(), fuel) {
            Ok(v) => v,
            Err(e) => {
                return Err(e);
            },
        };
        proof {
            assert(rest.subrange(1, rest.len() as int) =~= im.subrange(i + 1, im.len() as int));
            let tail_next = eval_pairs_spec(
                fuel as nat,
                env@,
                scope as int,
                im.subrange(i + 1, im.len() as int),
            );
            let a_old = view_pairs(acc@);
            let entry = (im[i as int].0, v.view());
            assert(eval_pairs_spec(fuel as nat, st_pre, scope as int, rest) == pairs_cont(
                seq![entry],
                tail_next,
            ));
            assert(view_pairs(acc@.push((key, v))) == view_pairs(
                acc@.push((key, v)).subrange(0, acc@.len() as int),
            ).push((key.view(), v.view())));
            assert(acc@.push((key, v)).subrange(0, acc@.len() as int) =~= acc@);
            assert(key.view() == im[i as int].0);
            match tail_next.1 {
                Ok(qs) => {
                    assert(a_old + (seq![entry] + qs) =~= a_old.push(entry) + qs);
                },
                Err(e) => {},
            }
            let n_pre = st_pre.len() as int;
            let n_now = env@.len() as int;
            assert forall|j: int| 0 <= j < a_old.len() implies val_wf(
                (#[trigger] a_old[j]).0,
                n_now,
            ) && val_wf(a_old[j].1, n_now) by {
                lemma_val_wf_widen(a_old[j].0, n_pre, n_now);
                lemma_val_wf_widen(a_old[j].1, n_pre, n_now);
            }
            lemma_val_wf_widen(im[i as int].0, old(env)@.len() as int, n_now);
            assert forall|j: int| 0 <= j < a_old.len() + 1 implies val_wf(
                (#[trigger] a_old.push(entry)[j]).0,
                n_now,
            ) && val_wf(a_old.push(entry)[j].1, n_now) by {
                if j < a_old.len() {
                    assert(a_old.push(entry)[j] == a_old[j]);
                }
            }
        }
        acc.push((key, v));
        i = i + 1;
    }
    proof {
        assert(im.subrange(i as int, im.len() as int) =~= Seq::<(SpecVal, SpecVal)>::empty());
        assert(view_pairs(acc@) + Seq::<(SpecVal, SpecVal)>::empty() =~= view_pairs(acc@));
    }
    Ok(acc)
}

/// Generic environment-aware descent: evaluates every sub-expression of `mt`
/// without interpreting any symbol as a special form. A symbol resolves through
/// the chain from `scope` outward (or fails as unbound); lists and vectors
/// evaluate elementwise into the same kind; map entries evaluate their values;
/// atoms are returned unchanged.
pub fn eval_ast(env: &mut Env, scope: usize, mt: Value, fuel: u64) -> (r: Result<Value, EvalError>)
    requires
        store_wf(old(env)@),
        scope < old(env)@.len(),
        val_wf(mt.view(), old(env)@.len() as int),
    ensures
        store_wf(final(env)@),
        old(env)@.len() <= final(env)@.len(),
        (final(env)@, res_view(r)) == eval_ast_spec(fuel as nat, old(env)@, scope as int, mt.view()),
        r matches Ok(v) ==> val_wf(v.view(), final(env)@.len() as int),
    decreases fuel, 2int,
{
    match mt {
        Value::Symbol(s) => match env.find(scope, &s) {
            Some(j) => {
                let v = env.get(j, &s);
                Ok(v)
            },
            None => Err(EvalError::UnboundSymbol(s)),
        },
        Value::List(l) => match eval_elems(env, scope, &l, fuel) {
            Ok(vs) => Ok(Value::List(vs)),
            Err(e) => Err(e),
        },
        Value::Vector(l) => match eval_elems(env, scope, &l, fuel) {
            Ok(vs) => Ok(Value::Vector(vs)),
            Err(e) => Err(e),
        },
        Value::HashMap(ps) => match eval_map_vals(env, scope, &ps, fuel) {
            Ok(qs) => Ok(Value::HashMap(qs)),
            Err(e) => Err(e),
        },
        other => Ok(other),
    }
}

/// `(def! symbol expr)`: evaluate the right-hand side in `sc`, bind the symbol
/// to the result in `sc` itself, and return the bound value.
#[verifier::rlimit(50)]
fn step_def(env: &mut Env, sc: usize, l: &Vec<Value>, f: u64) -> (r: Result<Value, EvalError>)
    requires
        store_wf(old(env)@),
        sc < old(env)@.len(),
        vals_wf(view_seq(l@), old(env)@.len() as int),
    ensures
        store_wf(final(env)@),
        old(env)@.len() <= final(env)@.len(),
        (final(env)@, res_view(r)) == eval_def_spec(f as nat, old(env)@, sc as int, view_seq(l@)),
        r matches Ok(v) ==> val_wf(v.view(), final(env)@.len() as int),
    decreases f, 3int,
{
    let ghost lm = view_seq(l@);
    proof {
        assert(lm.len() == l@.len());
        assert(forall|j: int| 0 <= j < l@.len() ==> lm[j] == l@[j].view());
    }
    if l.len() < 3 {
        return Err(EvalError::ArityError);
    }
    let v = match eval(env, sc, l[2].clone(), f) {
        Ok(v) => v,
        Err(e) => {
            return Err(e);
        },
    };
    let ghost st1 = env@;
    match env.set(sc, &l[1], v.clone()) {
        Ok(u) => {
            proof {
                if let SpecVal::Symbol(name) = lm[1] {
                    lemma_set_spec_wf(st1, sc as int, name, v.view());
                }
            }
            Ok(v)
        },
        Err(e) => Err(e),
    }
}

/// The ordered `(symbol, expression)` pairs of a `let*` binding list, each
/// value evaluated in the new scope `ne` and bound there at once, so later
/// bindings observe earlier ones.
#[verifier::loop_isolation(false)]
#[verifier::rlimit(50)]
fn step_binds(env: &mut Env, ne: usize, b: &Vec<Value>, f: u64) -> (r: Result<(), EvalError>)
    requires
        store_wf(old(env)@),
        ne < old(env)@.len(),
        vals_wf(view_seq(b@), old(env)@.len() as int),
        b@.len() % 2 == 0,
    ensures
        store_wf(final(env)@),
        old(env)@.len() <= final(env)@.len(),
        ({
            let (st1, r1) = eval_binds_spec(f as nat, old(env)@, ne as int, view_seq(b@));
            final(env)@ == st1 && (match (r, r1) {
                (Ok(u), Ok(u1)) => true,
                (Err(e), Err(e1)) => e.view() == e1,
                _ => false,
            })
        }),
    decreases f, 3int,
{
    let ghost bm = view_seq(b@);
    proof {
        assert(bm.len() == b@.len());
        assert(forall|j: int| 0 <= j < b@.len() ==> bm[j] == b@[j].view());
        assert(bm.subrange(0, bm.len() as int) =~= bm);
    }
    let mut i: usize = 0;
    while i < b.len()
        invariant
            store_wf(env@),
            ne < env@.len(),
            old(env)@.len() <= env@.len(),
            i <= b@.len(),
            i % 2 == 0,
            vals_wf(bm, env@.len() as int),
            eval_binds_spec(f as nat, old(env)@, ne as int, bm) == eval_binds_spec(
                f as nat,
                env@,
                ne as int,
                bm.subrange(i as int, bm.len() as int),
            ),
        decreases b@.len() - i,
    {
        let ghost st_b0 = env@;
        let ghost rest = bm.subrange(i as int, bm.len() as int);
        proof {
            assert(rest[0] == bm[i as int] && rest[1] == bm[i + 1]);
        }
        let v = match eval(env, ne, b[i + 1].clone(), f) {
            Ok(v) => v,
            Err(e) => {
                return Err(e);
            },
        };
        let ghost st_b1 = env@;
        match env.set(ne, &b[i], v) {
            Ok(u) => {
                proof {
                    if let SpecVal::Symbol(name) = bm[i as int] {
                        lemma_set_spec_wf(st_b1, ne as int, name, v.view());
                    }
                    assert(rest.subrange(2, rest.len() as int) =~= bm.subrange(
                        i + 2,
                        bm.len() as int,
                    ));
                    lemma_vals_wf_widen(bm, st_b0.len() as int, env@.len() as int);
                }
            },
            Err(e) => {
                return Err(e);
            },
        }
        i = i + 2;
    }
    proof {
        assert(bm.subrange(i as int, bm.len() as int) =~= Seq::<SpecVal>::empty());
    }
    Ok(())
}

/// Every element of a `do` body but the last, evaluated left to right in `sc`
/// for its effect alone; the results are discarded.
#[verifier::loop_isolation(false)]
#[verifier::rlimit(50)]
fn step_do_prefix(env: &mut Env, sc: usize, l: &Vec<Value>, f: u64) -> (r: Result<(), EvalError>)
    requires
        store_wf(old(env)@),
        sc < old(env)@.len(),
        vals_wf(view_seq(l@), old(env)@.len() as int),
        l@.len() >= 2,
    ensures
        store_wf(final(env)@),
        old(env)@.len() <= final(env)@.len(),
        ({
            let (st1, r1) = eval_discard_spec(
                f as nat,
                old(env)@,
                sc as int,
                view_seq(l@).subrange(1, view_seq(l@).len() - 1),
            );
            final(env)@ == st1 && (match (r, r1) {
                (Ok(u), Ok(u1)) => true,
                (Err(e), Err(e1)) => e.view() == e1,
                _ => false,
            })
        }),
    decreases f, 3int,
{
    let ghost lm = view_seq(l@);
    let ghost mid = lm.subrange(1, lm.len() - 1);
    proof {
        assert(lm.len() == l@.len());
        assert(forall|j: int| 0 <= j < l@.len() ==> lm[j] == l@[j].view());
        assert(mid.subrange(0, mid.len() as int) =~= mid);
    }
    let mut i: usize = 1;
    while i < l.len() - 1
        invariant
            store_wf(env@),
            sc < env@.len(),
            old(env)@.len() <= env@.len(),
            1 <= i <= l@.len() - 1,
            vals_wf(lm, env@.len() as int),
            eval_discard_spec(f as nat, old(env)@, sc as int, mid) == eval_discard_spec(
                f as nat,
                env@,
                sc as int,
                mid.subrange(i - 1, mid.len() as int),
            ),
        decreases l@.len() - 1 - i,
    {
        let ghost st_d0 = env@;
        let ghost rest = mid.subrange(i - 1, mid.len() as int);
        proof {
            assert(rest[0] == mid[i - 1] && mid[i - 1] == lm[i as int]);
        }
        match eval(env, sc, l[i].clone(), f) {
            Ok(v) => {},
            Err(e) => {
                return Err(e);
            },
        }
        proof {
            assert(rest.subrange(1, rest.len() as int) =~= mid.subrange(
                i as int,
                mid.len() as int,
            ));
            lemma_vals_wf_widen(lm, st_d0.len() as int, env@.len() as int);
        }
        i = i + 1;
    }
    proof {
        assert(mid.subrange(i - 1, mid.len() as int) =~= Seq::<SpecVal>::empty());
    }
    Ok(())
}

/// `(fn* params body)`: builds the closure value for the scope `sc` current at
/// its definition site; `n` is the number of scopes the parts of `l` are
/// well-formed against. The store is not touched.
#[verifier::loop_isolation(false)]
#[verifier::rlimit(50)]
fn make_closure(l: &Vec<Value>, sc: usize, n: Ghost<int>) -> (r: Result<Value, EvalError>)
    requires
        vals_wf(view_seq(l@), n@),
        (sc as int) < n@,
    ensures
        forall|st: Seq<SpecScope>| #[trigger] eval_fn_spec(st, sc as int, view_seq(l@)) == (
            st,
            res_view(r),
        ),
        r matches Ok(v) ==> val_wf(v.view(), n@),
{
    let ghost lm = view_seq(l@);
    proof {
        assert(lm.len() == l@.len());
        assert(forall|j: int| 0 <= j < l@.len() ==> lm[j] == l@[j].view());
    }
    if l.len() < 3 {
        return Err(EvalError::ArityError);
    }
    let ps: &Vec<Value> = match &l[1] {
        Value::List(b) => b,
        Value::Vector(b) => b,
        _ => {
            return Err(EvalError::ShapeError);
        },
    };
    let ghost pm = view_seq(ps@);
    proof {
        assert(seq_of(lm[1]) == Some(pm));
        assert(pm.len() == ps@.len());
        assert(forall|j: int| 0 <= j < ps@.len() ==> pm[j] == ps@[j].view());
        assert(params_of(pm.subrange(0, 0)) == Some(Seq::<Seq<char>>::empty()));
        assert(view_names(Seq::<String>::empty()) =~= Seq::<Seq<char>>::empty());
    }
    let mut params: Vec<String> = Vec::new();
    let mut i: usize = 0;
    while i < ps.len()
        invariant
            i <= ps@.len(),
            params@.len() == i as int,
            pm == view_seq(ps@),
            pm.len() == ps@.len(),
            forall|j: int| 0 <= j < ps@.len() ==> pm[j] == ps@[j].view(),
            params_of(pm.subrange(0, i as int)) == Some(view_names(params@)),
        decreases ps@.len() - i,
    {
        let ghost pn = view_names(params@);
        match &ps[i] {
            Value::Symbol(s) => {
                params.push(s.clone());
                proof {
                    assert(pm.subrange(0, i + 1).subrange(0, i as int) =~= pm.subrange(
                        0,
                        i as int,
                    ));
                    assert(pm.subrange(0, i + 1)[i as int] == pm[i as int]);
                    assert(view_names(params@) =~= pn.push(s@));
                }
            },
            _ => {
                proof {
                    lemma_params_of_none(pm, i as int);
                }
                return Err(EvalError::ShapeError);
            },
        }
        i = i + 1;
    }
    proof {
        assert(pm.subrange(0, pm.len() as int) =~= pm);
    }
    let body = Box::new(l[2].clone());
    Ok(Value::Func(Func::Closure { params, body, env: sc }))
}

/// An application: evaluate head and arguments generically via [`eval_ast`],
/// then call the evaluated head. A closure call opens a child scope of the
/// closure's captured scope, binds the parameters positionally, and evaluates
/// the body there as a true nested call; a primitive computes directly.
#[verifier::loop_isolation(false)]
#[verifier::rlimit(80)]
fn step_apply(env: &mut Env, sc: usize, l: Vec<Value>, f: u64) -> (r: Result<Value, EvalError>)
    requires
        store_wf(old(env)@),
        sc < old(env)@.len(),
        vals_wf(view_seq(l@), old(env)@.len() as int),
    ensures
        store_wf(final(env)@),
        old(env)@.len() <= final(env)@.len(),
        (final(env)@, res_view(r)) == eval_apply_spec(
            f as nat,
            old(env)@,
            sc as int,
            SpecVal::List(view_seq(l@)),
        ),
        r matches Ok(v) ==> val_wf(v.view(), final(env)@.len() as int),
    decreases f, 3int,
{
    let ghost em = SpecVal::List(view_seq(l@));
    let ev = match eval_ast(env, sc, Value::List(l), f) {
        Ok(v) => v,
        Err(e) => {
            return Err(e);
        },
    };
    let l2: Vec<Value> = match ev {
        Value::List(l2) => l2,
        _ => {
            return Err(EvalError::MalformedCall);
        },
    };
    if l2.len() == 0 {
        return Err(EvalError::MalformedCall);
    }
    let ghost l2m = view_seq(l2@);
    let ghost st1 = env@;
    proof {
        assert(l2m.len() == l2@.len());
        assert(forall|j: int| 0 <= j < l2@.len() ==> l2m[j] == l2@[j].view());
        assert(vals_wf(l2m, env@.len() as int));
    }
    match &l2[0] {
        Value::Func(func) => match func {
            Func::Closure { params, body, env: cenv } => {
                if l2.len() - 1 != params.len() {
                    return Err(EvalError::ArityError);
                }
                let ghost pm = view_names(params@);
                let ghost am = l2m.subrange(1, l2m.len() as int);
                let ne = env.detach(*cenv);
                proof {
                    lemma_push_scope_wf(st1, empty_scope(Some(*cenv as int)));
                    assert(bind_params(pm.subrange(0, 0), am.subrange(0, 0)) =~= Map::<
                        Seq<char>,
                        SpecVal,
                    >::empty());
                    assert(env@ =~= st1.push(
                        SpecScope {
                            bindings: bind_params(pm.subrange(0, 0), am.subrange(0, 0)),
                            outer: Some(*cenv as int),
                        },
                    ));
                }
                let mut i: usize = 0;
                while i < params.len()
                    invariant
                        store_wf(env@),
                        ne < env@.len(),
                        old(env)@.len() <= env@.len(),
                        env@.len() == st1.len() + 1,
                        i <= params@.len(),
                        env@ == st1.push(
                            SpecScope {
                                bindings: bind_params(
                                    pm.subrange(0, i as int),
                                    am.subrange(0, i as int),
                                ),
                                outer: Some(*cenv as int),
                            },
                        ),
                    decreases params@.len() - i,
                {
                    let ghost st_c0 = env@;
                    let av = l2[i + 1].clone();
                    proof {
                        assert(am[i as int] == l2m[i + 1]);
                        lemma_val_wf_widen(l2m[i + 1], st1.len() as int, env@.len() as int);
                    }
                    env.define(ne, &params[i], av);
                    proof {
                        lemma_set_spec_wf(st_c0, ne as int, params@[i as int]@, l2m[i + 1]);
                        assert(pm.subrange(0, i + 1).subrange(0, i as int) =~= pm.subrange(
                            0,
                            i as int,
                        ));
                        assert(am.subrange(0, i + 1).subrange(0, i as int) =~= am.subrange(
                            0,
                            i as int,
                        ));
                        assert(pm.subrange(0, i + 1)[i as int] == pm[i as int]);
                        assert(am.subrange(0, i + 1)[i as int] == am[i as int]);
                        assert(pm[i as int] == params@[i as int]@);
                        assert(env@ =~= st1.push(
                            SpecScope {
                                bindings: bind_params(
                                    pm.subrange(0, i + 1),
                                    am.subrange(0, i + 1),
                                ),
                                outer: Some(*cenv as int),
                            },
                        ));
                    }
                    i = i + 1;
                }
                proof {
                    assert(pm.subrange(0, i as int) =~= pm);
                    assert(am.subrange(0, i as int) =~= am);
                    lemma_val_wf_widen(l2m[0], st1.len() as int, env@.len() as int);
                }
                let body_c = (**body).clone();
                eval(env, ne, body_c, f)
            },
            Func::Prim(p) => {
                let pr: Prim = *p;
                let out = apply_prim(pr, &l2);
                proof {
                    let a = apply_prim_spec(pr, l2m.subrange(1, l2m.len() as int));
                    match a {
                        Ok(v) => {
                            assert(val_wf(v, env@.len() as int));
                        },
                        Err(e) => {},
                    }
                }
                out
            },
        },
        _ => Err(EvalError::NotCallable),
    }
}

/// The special-form dispatch loop. Takes the current node and scope and loops:
/// forms in tail position (`let*` body, `do` tail, `if` branches, the result
/// of `eval`) rebind the working node, scope and remaining budget and continue
/// instead of recursing, so chains of tail steps use constant call depth.
/// One unit of `fuel` is spent per step; running out reports `OutOfFuel`.
#[verifier::loop_isolation(false)]
#[verifier::rlimit(100)]
pub fn eval(env: &mut Env, scope: usize, mt: Value, fuel: u64) -> (r: Result<Value, EvalError>)
    requires
        store_wf(old(env)@),
        scope < old(env)@.len(),
        val_wf(mt.view(), old(env)@.len() as int),
    ensures
        store_wf(final(env)@),
        old(env)@.len() <= final(env)@.len(),
        (final(env)@, res_view(r)) == eval_spec(fuel as nat, old(env)@, scope as int, mt.view()),
        r matches Ok(v) ==> val_wf(v.view(), final(env)@.len() as int),
    decreases fuel, 0int,
{
    let mut cur: Value = mt;
    let mut sc: usize = scope;
    let mut rem: u64 = fuel;
    loop
        invariant
            store_wf(env@),
            sc < env@.len(),
            val_wf(cur.view(), env@.len() as int),
            old(env)@.len() <= env@.len(),
            rem <= fuel,
            eval_spec(fuel as nat, old(env)@, scope as int, mt.view()) == eval_spec(
                rem as nat,
                env@,
                sc as int,
                cur.view(),
            ),
        decreases rem,
    {
        if rem == 0 {
            return Err(EvalError::OutOfFuel);
        }
        let ghost st_it = env@;
        let ghost cm = cur.view();
        let f: u64 = rem - 1;
        match cur {
            Value::List(l) => {
                let ghost lm = view_seq(l@);
                proof {
                    assert(cm == SpecVal::List(lm));
                    assert(lm.len() == l@.len());
                    assert(forall|j: int| 0 <= j < l@.len() ==> lm[j] == l@[j].view());
                    assert(vals_wf(lm, env@.len() as int));
                }
                if l.len() == 0 {
                    return Ok(Value::List(l));
                }
                if sym_matches(&l[0], "def!") {
                    proof {
                        assert(eval_spec(rem as nat, st_it, sc as int, cm) == eval_def_spec(
                            f as nat,
                            st_it,
                            sc as int,
                            lm,
                        ));
                    }
                    return step_def(env, sc, &l, f);
                } else if sym_matches(&l[0], "let*") {
                    proof {
                        assert(eval_spec(rem as nat, st_it, sc as int, cm) == eval_let_spec(
                            f as nat,
                            st_it,
                            sc as int,
                            lm,
                        ));
                    }
                    if l.len() < 3 {
                        return Err(EvalError::ArityError);
                    }
                    let ne = env.detach(sc);
                    proof {
                        lemma_push_scope_wf(st_it, empty_scope(Some(sc as int)));
                        lemma_vals_wf_widen(lm, st_it.len() as int, env@.len() as int);
                    }
                    let b: &Vec<Value> = match &l[1] {
                        Value::List(b) => b,
                        Value::Vector(b) => b,
                        _ => {
                            return Err(EvalError::ShapeError);
                        },
                    };
                    proof {
                        assert(seq_of(lm[1]) == Some(view_seq(b@)));
                        assert(view_seq(b@).len() == b@.len());
                    }
                    if b.len() % 2 != 0 {
                        return Err(EvalError::ArityError);
                    }
                    proof {
                        assert(vals_wf(view_seq(b@), env@.len() as int));
                    }
                    match step_binds(env, ne, b, f) {
                        Ok(u) => {},
                        Err(e) => {
                            return Err(e);
                        },
                    }
                    proof {
                        lemma_vals_wf_widen(lm, st_it.len() as int, env@.len() as int);
                    }
                    cur = l[2].clone();
                    sc = ne;
                    rem = f;
                } else if sym_matches(&l[0], "do") {
                    proof {
                        assert(eval_spec(rem as nat, st_it, sc as int, cm) == eval_do_spec(
                            f as nat,
                            st_it,
                            sc as int,
                            lm,
                        ));
                    }
                    if l.len() < 2 {
                        return Err(EvalError::ArityError);
                    }
                    match step_do_prefix(env, sc, &l, f) {
                        Ok(u) => {},
                        Err(e) => {
                            return Err(e);
                        },
                    }
                    proof {
                        lemma_vals_wf_widen(lm, st_it.len() as int, env@.len() as int);
                    }
                    cur = l[l.len() - 1].clone();
                    rem = f;
                } else if sym_matches(&l[0], "if") {
                    proof {
                        assert(eval_spec(rem as nat, st_it, sc as int, cm) == eval_if_spec(
                            f as nat,
                            st_it,
                            sc as int,
                            lm,
                        ));
                    }
                    if l.len() < 3 {
                        return Err(EvalError::ArityError);
                    }
                    let c = match eval(env, sc, l[1].clone(), f) {
                        Ok(v) => v,
                        Err(e) => {
                            return Err(e);
                        },
                    };
                    let t: bool = match &c {
                        Value::Nil => false,
                        Value::Bool(bv) => *bv,
                        _ => true,
                    };
                    proof {
                        assert(t == truthy(c.view()));
                        lemma_vals_wf_widen(lm, st_it.len() as int, env@.len() as int);
                    }
                    cur = if t {
                        l[2].clone()
                    } else if l.len() >= 4 {
                        l[3].clone()
                    } else {
                        Value::Nil
                    };
                    rem = f;
                } else if sym_matches(&l[0], "fn*") {
                    proof {
                        assert(eval_spec(rem as nat, st_it, sc as int, cm) == eval_fn_spec(
                            st_it,
                            sc as int,
                            lm,
                        ));
                    }
                    return make_closure(&l, sc, Ghost(env@.len() as int));
                } else if sym_matches(&l[0], "eval") {
                    proof {
                        assert(eval_spec(rem as nat, st_it, sc as int, cm) == eval_eval_spec(
                            f as nat,
                            st_it,
                            sc as int,
                            lm,
                        ));
                    }
                    if l.len() < 2 {
                        return Err(EvalError::ArityError);
                    }
                    let v = match eval(env, sc, l[1].clone(), f) {
                        Ok(v) => v,
                        Err(e) => {
                            return Err(e);
                        },
                    };
                    let o: Option<usize> = self_outer(env, sc);
                    match o {
                        Some(j) => {
                            sc = j;
                        },
                        None => {},
                    }
                    cur = v;
                    rem = f;
                } else {
                    proof {
                        assert(eval_spec(rem as nat, st_it, sc as int, cm) == eval_apply_spec(
                            f as nat,
                            st_it,
                            sc as int,
                            cm,
                        ));
                    }
                    return step_apply(env, sc, l, f);
                }
            },
            other => {
                return eval_ast(env, sc, other, f);
            },
        }
    }
}

/// Reads the outer link of `scope`.
fn self_outer(env: &Env, scope: usize) -> (o: Option<usize>)
    requires
        scope < env@.len(),
    ensures
        env@[scope as int].outer == (match o {
            Some(j) => Some(j as int),
            None => None::<int>,
        }),
{
    env.scopes[scope].outer
}

/// Evaluates one top-level form: the single operation the front end invokes per
/// form read, with the evaluator's full step budget.
pub fn evaluate(env: &mut Env, scope: usize, ast: Value) -> (r: Result<Value, EvalError>)
    requires
        store_wf(old(env)@),
        scope < old(env)@.len(),
        val_wf(ast.view(), old(env)@.len() as int),
    ensures
        store_wf(final(env)@),
        old(env)@.len() <= final(env)@.len(),
        (final(env)@, res_view(r)) == eval_spec(
            u64::MAX as nat,
            old(env)@,
            scope as int,
            ast.view(),
        ),
        r matches Ok(v) ==> val_wf(v.view(), final(env)@.len() as int),
{
    eval(env, scope, ast, u64::MAX)
}

} // verus!
