//! The environment: a chain of scopes, each a mapping from symbol name to
//! value, optionally linked to an outer (parent) scope.
//!
//! Scopes are shared: several closures and child scopes may all reference the
//! same outer scope. The chain is therefore kept in one arena, [`Env`], and a
//! scope is named by its index. A scope's outer link always points at an
//! earlier index, so chains never cycle, and no scope is ever removed.
use vstd::prelude::*;

use crate::value::{lemma_val_wf_widen, val_wf, EvalError, SpecErr, SpecVal, Value};

verus! {

/// One scope: local bindings and an optional link to the scope outside it.
/// Later entries of `bindings` shadow earlier ones with the same name.
pub struct Scope {
    pub bindings: Vec<(String, Value)>,
    pub outer: Option<usize>,
}

/// The model of a scope: a finite map and the outer link.
pub struct SpecScope {
    pub bindings: Map<Seq<char>, SpecVal>,
    pub outer: Option<int>,
}

/// A scope with no bindings yet.
pub open spec fn empty_scope(outer: Option<int>) -> SpecScope {
    SpecScope { bindings: Map::empty(), outer }
}

/// The model of a binding list: later entries shadow earlier ones.
pub open spec fn assoc_view(s: Seq<(String, Value)>) -> Map<Seq<char>, SpecVal>
    decreases s,
{
    if s.len() == 0 {
        Map::empty()
    } else {
        assoc_view(s.subrange(0, s.len() - 1)).insert(s[s.len() - 1].0@, s[s.len() - 1].1.view())
    }
}

impl Scope {
    /// The mathematical model of this scope.
    pub open spec fn view(&self) -> SpecScope {
        SpecScope {
            bindings: assoc_view(self.bindings@),
            outer: match self.outer {
                Some(j) => Some(j as int),
                None => None,
            },
        }
    }
}

/// The arena holding every scope of the environment chain, including the root.
pub struct Env {
    pub scopes: Vec<Scope>,
}

impl Env {
    /// The mathematical model of the environment: the sequence of scope models.
    pub open spec fn view(&self) -> Seq<SpecScope> {
        Seq::new(self.scopes@.len(), |i: int| self.scopes@[i].view())
    }
}

/// Every outer link points at a strictly earlier scope, so walking outward
/// terminates and never leaves the store.
pub open spec fn chain_wf(st: Seq<SpecScope>) -> bool {
    forall|i: int|
        0 <= i < st.len() ==> ((#[trigger] st[i]).outer matches Some(j) ==> 0 <= j < i)
}

/// Every value bound anywhere in the store is well-formed against the store.
pub open spec fn store_vals_wf(st: Seq<SpecScope>) -> bool {
    forall|i: int, k: Seq<char>|
        0 <= i < st.len() && #[trigger] st[i].bindings.dom().contains(k) ==> val_wf(
            st[i].bindings[k],
            st.len() as int,
        )
}

/// Well-formedness of the whole store.
pub open spec fn store_wf(st: Seq<SpecScope>) -> bool {
    chain_wf(st) && store_vals_wf(st)
}

/// Walks from `scope` outward and returns the nearest scope (including `scope`
/// itself) holding a local binding for `name`, if any.
pub open spec fn find_spec(st: Seq<SpecScope>, scope: int, name: Seq<char>) -> Option<int>
    decreases scope,
{
    if scope < 0 || scope >= st.len() {
        None
    } else if st[scope].bindings.dom().contains(name) {
        Some(scope)
    } else {
        match st[scope].outer {
            Some(j) => if 0 <= j < scope {
                find_spec(st, j, name)
            } else {
                None
            },
            None => None,
        }
    }
}

/// The store after binding `name` to `v` in `scope` alone.
pub open spec fn set_spec(st: Seq<SpecScope>, scope: int, name: Seq<char>, v: SpecVal) -> Seq<
    SpecScope,
> {
    st.update(
        scope,
        SpecScope { bindings: st[scope].bindings.insert(name, v), outer: st[scope].outer },
    )
}

/// Binding a well-formed value in an existing scope keeps the store well-formed.
pub proof fn lemma_set_spec_wf(st: Seq<SpecScope>, scope: int, name: Seq<char>, v: SpecVal)
    requires
        store_wf(st),
        0 <= scope < st.len(),
        val_wf(v, st.len() as int),
    ensures
        store_wf(set_spec(st, scope, name, v)),
        set_spec(st, scope, name, v).len() == st.len(),
{
    let st2 = set_spec(st, scope, name, v);
    assert forall|i: int| 0 <= i < st2.len() implies ((#[trigger] st2[i]).outer matches Some(j)
        ==> 0 <= j < i) by {
        assert(st2[i].outer == st[i].outer);
    }
    assert forall|i: int, k: Seq<char>|
        0 <= i < st2.len() && #[trigger] st2[i].bindings.dom().contains(k) implies val_wf(
        st2[i].bindings[k],
        st2.len() as int,
    ) by {
        if i == scope && k == name {
        } else {
            assert(st[i].bindings.dom().contains(k));
        }
    }
}

/// Appending a scope whose outer link is in range and whose bindings are
/// well-formed against the grown store keeps the store well-formed.
pub proof fn lemma_push_scope_wf(st: Seq<SpecScope>, sc: SpecScope)
    requires
        store_wf(st),
        sc.outer matches Some(j) ==> 0 <= j < st.len(),
        forall|k: Seq<char>|
            #[trigger] sc.bindings.dom().contains(k) ==> val_wf(sc.bindings[k], st.len() + 1int),
    ensures
        store_wf(st.push(sc)),
{
    let st2 = st.push(sc);
    assert forall|i: int| 0 <= i < st2.len() implies ((#[trigger] st2[i]).outer matches Some(j)
        ==> 0 <= j < i) by {
        if i < st.len() {
            assert(st2[i] == st[i]);
        }
    }
    assert forall|i: int, k: Seq<char>|
        0 <= i < st2.len() && #[trigger] st2[i].bindings.dom().contains(k) implies val_wf(
        st2[i].bindings[k],
        st2.len() as int,
    ) by {
        if i < st.len() {
            assert(st2[i] == st[i]);
            assert(st[i].bindings.dom().contains(k));
            lemma_val_wf_widen(st[i].bindings[k], st.len() as int, st2.len() as int);
        }
    }
}

/// Looks `name` up in one binding list, newest entry first.
fn assoc_get<'a>(bindings: &'a Vec<(String, Value)>, name: &String) -> (r: Option<&'a Value>)
    ensures
        match r {
            Some(v) => assoc_view(bindings@).dom().contains(name@) && v.view() == assoc_view(
                bindings@,
            )[name@],
            None => !assoc_view(bindings@).dom().contains(name@),
        },
{
    let mut i: usize = bindings.len();
    proof {
        assert(bindings@.subrange(0, bindings@.len() as int) =~= bindings@);
    }
    while i > 0
        invariant
            i <= bindings@.len(),
            assoc_view(bindings@).dom().contains(name@) <==> assoc_view(
                bindings@.subrange(0, i as int),
            ).dom().contains(name@),
            assoc_view(bindings@).dom().contains(name@) ==> assoc_view(bindings@)[name@]
                == assoc_view(bindings@.subrange(0, i as int))[name@],
        decreases i,
    {
        let entry = &bindings[i - 1];
        if entry.0 == *name {
            proof {
                assert(bindings@.subrange(0, i as int)[i - 1] == bindings@[i - 1]);
            }
            return Some(&entry.1);
        }
        proof {
            assert(bindings@.subrange(0, i as int).subrange(0, i - 1) =~= bindings@.subrange(
                0,
                i - 1,
            ));
            assert(bindings@.subrange(0, i as int)[i - 1] == bindings@[i - 1]);
        }
        i = i - 1;
    }
    proof {
        assert(bindings@.subrange(0, 0).len() == 0);
    }
    None
}

impl Env {
    /// Creates the environment with its root scope: no outer link, no bindings.
    pub fn new() -> (e: Env)
        ensures
            e@ =~= seq![empty_scope(None)],
            store_wf(e@),
    {
        let mut scopes: Vec<Scope> = Vec::new();
        scopes.push(Scope { bindings: Vec::new(), outer: None });
        let e = Env { scopes };
        proof {
            assert(e@[0].bindings =~= Map::<Seq<char>, SpecVal>::empty());
            assert(e@ =~= seq![empty_scope(None)]);
        }
        e
    }

    /// Opens a new scope whose outer link is `parent` and returns its identifier.
    pub fn detach(&mut self, parent: usize) -> (id: usize)
        requires
            parent < old(self)@.len(),
        ensures
            final(self)@ =~= old(self)@.push(empty_scope(Some(parent as int))),
            id == old(self)@.len(),
    {
        let id = self.scopes.len();
        self.scopes.push(Scope { bindings: Vec::new(), outer: Some(parent) });
        proof {
            assert(self@[id as int].bindings =~= Map::<Seq<char>, SpecVal>::empty());
            assert(self@ =~= old(self)@.push(empty_scope(Some(parent as int))));
        }
        id
    }

    /// Binds `key` (which must be a symbol) to `v` in `scope` alone, shadowing
    /// any outer binding and never writing to an outer scope.
    pub fn set(&mut self, scope: usize, key: &Value, v: Value) -> (r: Result<(), EvalError>)
        requires
            scope < old(self)@.len(),
        ensures
            match key.view() {
                SpecVal::Symbol(name) => r is Ok && final(self)@ == set_spec(
                    old(self)@,
                    scope as int,
                    name,
                    v.view(),
                ),
                _ => r matches Err(e) && e.view() == SpecErr::ShapeError && final(self)@ == old(
                    self,
                )@,
            },
    {
        match key {
            Value::Symbol(s) => {
                self.define(scope, s, v);
                Ok(())
            },
            _ => Err(EvalError::ShapeError),
        }
    }

    /// Binds `name` to `v` in `scope` alone; the named form of [`Env::set`],
    /// used when the name is already known to be a symbol (a call frame).
    pub fn define(&mut self, scope: usize, name: &String, v: Value)
        requires
            scope < old(self)@.len(),
        ensures
            final(self)@ == set_spec(old(self)@, scope as int, name@, v.view()),
    {
        let ghost st0 = self@;
        let ghost vv = v.view();
        let ghost b_old = self.scopes@[scope as int].bindings@;
        let key = name.clone();
        self.scopes[scope].bindings.push((key, v));
        proof {
            let b_new = self.scopes@[scope as int].bindings@;
            assert(b_new.subrange(0, b_new.len() - 1) =~= b_old);
            assert(self@[scope as int].bindings =~= st0[scope as int].bindings.insert(name@, vv));
            assert(self@ =~= set_spec(st0, scope as int, name@, vv));
        }
    }

    /// Walks from `scope` outward through the outer chain and returns the
    /// nearest scope with a local binding for `name`, or `None`.
    pub fn find(&self, scope: usize, name: &String) -> (r: Option<usize>)
        requires
            chain_wf(self@),
            scope < self@.len(),
        ensures
            match r {
                Some(j) => find_spec(self@, scope as int, name@) == Some(j as int) && j
                    < self@.len() && self@[j as int].bindings.dom().contains(name@),
                None => find_spec(self@, scope as int, name@) is None,
            },
    {
        let mut cur: usize = scope;
        loop
            invariant
                chain_wf(self@),
                cur < self@.len(),
                find_spec(self@, scope as int, name@) == find_spec(self@, cur as int, name@),
            decreases cur,
        {
            if assoc_get(&self.scopes[cur].bindings, name).is_some() {
                return Some(cur);
            }
            match self.scopes[cur].outer {
                Some(j) => {
                    proof {
                        assert(self@[cur as int].outer == Some(j as int));
                    }
                    cur = j;
                },
                None => {
                    return None;
                },
            }
        }
    }

    /// Returns the value locally bound for `name` in `scope`; callers locate the
    /// right scope with [`Env::find`] first, so the binding is present.
    pub fn get(&self, scope: usize, name: &String) -> (v: Value)
        requires
            scope < self@.len(),
            self@[scope as int].bindings.dom().contains(name@),
        ensures
            v.view() == self@[scope as int].bindings[name@],
    {
        match assoc_get(&self.scopes[scope].bindings, name) {
            Some(v) => v.clone(),
            None => {
                proof {
                    assert(false);
                }
                Value::Nil
            },
        }
    }
}

} // verus!
