//! The value type shared by code and data: an AST node and a runtime value are
//! one and the same representation, together with its mathematical model.
use vstd::prelude::*;

verus! {

/// A primitive operation built into the host, exposed to programs as a callable
/// value. All primitives take exactly two number arguments.
#[derive(Clone, Copy, PartialEq, Eq, Structural)]
pub enum Prim {
    /// Wrapping addition of two numbers.
    Add,
    /// Wrapping subtraction of two numbers.
    Sub,
    /// Wrapping multiplication of two numbers.
    Mul,
    /// Numeric strictly-less-than, returning a boolean.
    Lt,
}

/// A runtime value. Unevaluated code and data share this one representation: a
/// `List` whose first element is a recognized special-form symbol is interpreted
/// as a control construct, any other `List` as a function application.
pub enum Value {
    /// The nil value.
    Nil,
    /// A boolean.
    Bool(bool),
    /// A 64-bit signed integer.
    Number(i64),
    /// A string literal or value.
    Str(String),
    /// A symbol, resolved against the environment when evaluated.
    Symbol(String),
    /// An ordered sequence; evaluated as a special form or an application.
    List(Vec<Value>),
    /// An ordered sequence that always evaluates elementwise to a vector.
    Vector(Vec<Value>),
    /// A mapping given as ordered key-value entries; keys stay unevaluated.
    HashMap(Vec<(Value, Value)>),
    /// A callable value.
    Func(Func),
}

/// A callable: a user-defined closure or a host primitive.
pub enum Func {
    /// A closure: parameter names, unevaluated body, and the identifier of the
    /// scope that was current where `fn*` was evaluated (lexical capture).
    Closure { params: Vec<String>, body: Box<Value>, env: usize },
    /// A host primitive.
    Prim(Prim),
}

/// The mathematical model of a [`Value`].
pub enum SpecVal {
    Nil,
    Bool(bool),
    Number(i64),
    Str(Seq<char>),
    Symbol(Seq<char>),
    List(Seq<SpecVal>),
    Vector(Seq<SpecVal>),
    HashMap(Seq<(SpecVal, SpecVal)>),
    Func(SpecFunc),
}

/// The mathematical model of a [`Func`].
pub enum SpecFunc {
    Closure { params: Seq<Seq<char>>, body: Box<SpecVal>, env: int },
    Prim(Prim),
}

/// The model of a sequence of values: each element modelled by its view.
pub open spec fn view_seq(s: Seq<Value>) -> Seq<SpecVal>
    decreases s,
{
    if s.len() == 0 {
        Seq::empty()
    } else {
        view_seq(s.subrange(0, s.len() - 1)).push(s[s.len() - 1].view())
    }
}

/// The model of a sequence of key-value entries.
pub open spec fn view_pairs(s: Seq<(Value, Value)>) -> Seq<(SpecVal, SpecVal)>
    decreases s,
{
    if s.len() == 0 {
        Seq::empty()
    } else {
        view_pairs(s.subrange(0, s.len() - 1)).push(
            (s[s.len() - 1].0.view(), s[s.len() - 1].1.view()),
        )
    }
}

/// The model of a sequence of symbol names.
pub open spec fn view_names(s: Seq<String>) -> Seq<Seq<char>> {
    Seq::new(s.len(), |i: int| s[i]@)
}

impl Value {
    /// The mathematical model of this value.
    pub open spec fn view(&self) -> SpecVal
        decreases self,
    {
        match self {
            Value::Nil => SpecVal::Nil,
            Value::Bool(b) => SpecVal::Bool(*b),
            Value::Number(n) => SpecVal::Number(*n),
            Value::Str(s) => SpecVal::Str(s@),
            Value::Symbol(s) => SpecVal::Symbol(s@),
            Value::List(l) => SpecVal::List(view_seq(l@)),
            Value::Vector(l) => SpecVal::Vector(view_seq(l@)),
            Value::HashMap(ps) => SpecVal::HashMap(view_pairs(ps@)),
            Value::Func(f) => SpecVal::Func(f.view()),
        }
    }
}

impl Func {
    /// The mathematical model of this callable.
    pub open spec fn view(&self) -> SpecFunc
        decreases self,
    {
        match self {
            Func::Closure { params, body, env } => SpecFunc::Closure {
                params: view_names(params@),
                body: Box::new(body.view()),
                env: *env as int,
            },
            Func::Prim(p) => SpecFunc::Prim(*p),
        }
    }
}

/// An evaluation failure. Any failure inside a sub-expression propagates
/// immediately and aborts the whole top-level form.
#[derive(Debug)]
pub enum EvalError {
    /// A symbol was not found anywhere in the environment chain.
    UnboundSymbol(String),
    /// A special form received too few elements, or a call the wrong argument count.
    ArityError,
    /// A construct expected a list/vector or a symbol and found something else.
    ShapeError,
    /// The evaluated head of an application is not a function value.
    NotCallable,
    /// Re-evaluating an application's elements did not yield a list.
    MalformedCall,
    /// The step budget handed to the evaluator ran out.
    OutOfFuel,
}

/// The mathematical model of an [`EvalError`].
pub enum SpecErr {
    UnboundSymbol(Seq<char>),
    ArityError,
    ShapeError,
    NotCallable,
    MalformedCall,
    OutOfFuel,
}

impl EvalError {
    /// The mathematical model of this error.
    pub open spec fn view(&self) -> SpecErr {
        match self {
            EvalError::UnboundSymbol(s) => SpecErr::UnboundSymbol(s@),
            EvalError::ArityError => SpecErr::ArityError,
            EvalError::ShapeError => SpecErr::ShapeError,
            EvalError::NotCallable => SpecErr::NotCallable,
            EvalError::MalformedCall => SpecErr::MalformedCall,
            EvalError::OutOfFuel => SpecErr::OutOfFuel,
        }
    }
}

/// The model of an evaluation outcome.
pub open spec fn res_view(r: Result<Value, EvalError>) -> Result<SpecVal, SpecErr> {
    match r {
        Ok(v) => Ok(v.view()),
        Err(e) => Err(e.view()),
    }
}

impl Clone for Value {
    /// Cloning a value keeps its model: evaluation hands out copies, never
    /// aliases back into the environment.
    fn clone(&self) -> (res: Self)
        ensures
            res.view() == self.view(),
        decreases self,
    {
        match self {
            Value::Nil => Value::Nil,
            Value::Bool(b) => Value::Bool(*b),
            Value::Number(n) => Value::Number(*n),
            Value::Str(s) => Value::Str(s.clone()),
            Value::Symbol(s) => Value::Symbol(s.clone()),
            Value::List(l) => Value::List(clone_values(l)),
            Value::Vector(l) => Value::Vector(clone_values(l)),
            Value::HashMap(ps) => Value::HashMap(clone_pairs(ps)),
            Value::Func(f) => Value::Func(f.clone()),
        }
    }
}

impl Clone for Func {
    /// Cloning a callable keeps its model; a closure's captured scope stays shared.
    fn clone(&self) -> (res: Self)
        ensures
            res.view() == self.view(),
        decreases self,
    {
        match self {
            Func::Closure { params, body, env } => Func::Closure {
                params: clone_names(params),
                body: Box::new((**body).clone()),
                env: *env,
            },
            Func::Prim(p) => Func::Prim(*p),
        }
    }
}

/// Clones a sequence of values elementwise.
fn clone_values(l: &Vec<Value>) -> (r: Vec<Value>)
    ensures
        view_seq(r@) == view_seq(l@),
    decreases l,
{
    let mut r: Vec<Value> = Vec::new();
    let mut i: usize = 0;
    while i < l.len()
        invariant
            i <= l@.len(),
            r@.len() == i,
            forall|j: int| 0 <= j < i ==> r@[j].view() == l@[j].view(),
        decreases l@.len() - i,
    {
        r.push(l[i].clone());
        i = i + 1;
    }
    proof {
        lemma_view_seq_len(l@);
        lemma_view_seq_len(r@);
        assert forall|j: int| 0 <= j < l@.len() implies view_seq(r@)[j] == view_seq(l@)[j] by {
            lemma_view_seq_index(l@, j);
            lemma_view_seq_index(r@, j);
        }
        assert(view_seq(r@) =~= view_seq(l@));
    }
    r
}

/// Clones a sequence of key-value entries elementwise.
fn clone_pairs(l: &Vec<(Value, Value)>) -> (r: Vec<(Value, Value)>)
    ensures
        view_pairs(r@) == view_pairs(l@),
    decreases l,
{
    let mut r: Vec<(Value, Value)> = Vec::new();
    let mut i: usize = 0;
    while i < l.len()
        invariant
            i <= l@.len(),
            r@.len() == i,
            forall|j: int|
                0 <= j < i ==> r@[j].0.view() == l@[j].0.view() && r@[j].1.view() == l@[j].1.view(),
        decreases l@.len() - i,
    {
        let p = &l[i];
        r.push((p.0.clone(), p.1.clone()));
        i = i + 1;
    }
    proof {
        lemma_view_pairs_len(l@);
        lemma_view_pairs_len(r@);
        assert forall|j: int| 0 <= j < l@.len() implies view_pairs(r@)[j] == view_pairs(l@)[j] by {
            lemma_view_pairs_index(l@, j);
            lemma_view_pairs_index(r@, j);
        }
        assert(view_pairs(r@) =~= view_pairs(l@));
    }
    r
}

/// Clones a sequence of symbol names elementwise.
pub fn clone_names(l: &Vec<String>) -> (r: Vec<String>)
    ensures
        view_names(r@) == view_names(l@),
{
    let mut r: Vec<String> = Vec::new();
    let mut i: usize = 0;
    while i < l.len()
        invariant
            i <= l@.len(),
            r@.len() == i,
            forall|j: int| 0 <= j < i ==> r@[j]@ == l@[j]@,
        decreases l@.len() - i,
    {
        r.push(l[i].clone());
        i = i + 1;
    }
    proof {
        assert(view_names(r@) =~= view_names(l@));
    }
    r
}

/// `view_seq` models a sequence elementwise and keeps its length.
pub broadcast proof fn lemma_view_seq_len(s: Seq<Value>)
    ensures
        (#[trigger] view_seq(s)).len() == s.len(),
    decreases s.len(),
{
    if s.len() > 0 {
        lemma_view_seq_len(s.subrange(0, s.len() - 1));
    }
}

/// Each element of `view_seq(s)` is the view of the matching element of `s`.
pub broadcast proof fn lemma_view_seq_index(s: Seq<Value>, i: int)
    requires
        0 <= i < s.len(),
    ensures
        #[trigger] view_seq(s)[i] == s[i].view(),
    decreases s.len(),
{
    lemma_view_seq_len(s);
    if i < s.len() - 1 {
        lemma_view_seq_index(s.subrange(0, s.len() - 1), i);
    }
}

/// `view_pairs` models a sequence of entries elementwise and keeps its length.
pub broadcast proof fn lemma_view_pairs_len(s: Seq<(Value, Value)>)
    ensures
        (#[trigger] view_pairs(s)).len() == s.len(),
    decreases s.len(),
{
    if s.len() > 0 {
        lemma_view_pairs_len(s.subrange(0, s.len() - 1));
    }
}

/// Each entry of `view_pairs(s)` is the pair of views of the matching entry of `s`.
pub broadcast proof fn lemma_view_pairs_index(s: Seq<(Value, Value)>, i: int)
    requires
        0 <= i < s.len(),
    ensures
        #[trigger] view_pairs(s)[i] == (s[i].0.view(), s[i].1.view()),
    decreases s.len(),
{
    lemma_view_pairs_len(s);
    if i < s.len() - 1 {
        lemma_view_pairs_index(s.subrange(0, s.len() - 1), i);
    }
}

/// Well-formedness of a modelled value against a store of `n` scopes: every
/// closure reachable inside it captures a scope identifier below `n`.
pub open spec fn val_wf(v: SpecVal, n: int) -> bool
    decreases v,
{
    match v {
        SpecVal::List(l) => vals_wf(l, n),
        SpecVal::Vector(l) => vals_wf(l, n),
        SpecVal::HashMap(ps) => pairs_wf(ps, n),
        SpecVal::Func(f) => match f {
            SpecFunc::Closure { params, body, env } => 0 <= env < n && val_wf(*body, n),
            SpecFunc::Prim(p) => true,
        },
        _ => true,
    }
}

/// Well-formedness of every value of a sequence.
pub open spec fn vals_wf(s: Seq<SpecVal>, n: int) -> bool
    decreases s,
{
    if s.len() == 0 {
        true
    } else {
        vals_wf(s.subrange(0, s.len() - 1), n) && val_wf(s[s.len() - 1], n)
    }
}

/// Well-formedness of every key and value of a sequence of entries.
pub open spec fn pairs_wf(s: Seq<(SpecVal, SpecVal)>, n: int) -> bool
    decreases s,
{
    if s.len() == 0 {
        true
    } else {
        pairs_wf(s.subrange(0, s.len() - 1), n) && val_wf(s[s.len() - 1].0, n) && val_wf(
            s[s.len() - 1].1,
            n,
        )
    }
}

/// `vals_wf` holds exactly when every element is well-formed.
pub broadcast proof fn lemma_vals_wf(s: Seq<SpecVal>, n: int)
    ensures
        #[trigger] vals_wf(s, n) <==> (forall|i: int| 0 <= i < s.len() ==> val_wf(#[trigger] s[i], n)),
    decreases s.len(),
{
    if s.len() > 0 {
        lemma_vals_wf(s.subrange(0, s.len() - 1), n);
        assert(forall|i: int| 0 <= i < s.len() - 1 ==> s.subrange(0, s.len() - 1)[i] == s[i]);
    }
}

/// `pairs_wf` holds exactly when every entry is well-formed.
pub broadcast proof fn lemma_pairs_wf(s: Seq<(SpecVal, SpecVal)>, n: int)
    ensures
        #[trigger] pairs_wf(s, n) <==> (forall|i: int|
            0 <= i < s.len() ==> val_wf((#[trigger] s[i]).0, n) && val_wf(s[i].1, n)),
    decreases s.len(),
{
    if s.len() > 0 {
        lemma_pairs_wf(s.subrange(0, s.len() - 1), n);
        assert(forall|i: int| 0 <= i < s.len() - 1 ==> s.subrange(0, s.len() - 1)[i] == s[i]);
    }
}

/// A value well-formed against `n` scopes stays well-formed when scopes are added.
pub proof fn lemma_val_wf_widen(v: SpecVal, n: int, m: int)
    requires
        val_wf(v, n),
        n <= m,
    ensures
        val_wf(v, m),
    decreases v,
{
    match v {
        SpecVal::List(l) => lemma_vals_wf_widen(l, n, m),
        SpecVal::Vector(l) => lemma_vals_wf_widen(l, n, m),
        SpecVal::HashMap(ps) => lemma_pairs_wf_widen(ps, n, m),
        SpecVal::Func(f) => match f {
            SpecFunc::Closure { params, body, env } => lemma_val_wf_widen(*body, n, m),
            SpecFunc::Prim(p) => {},
        },
        _ => {},
    }
}

/// Elementwise widening for sequences of values.
pub proof fn lemma_vals_wf_widen(s: Seq<SpecVal>, n: int, m: int)
    requires
        vals_wf(s, n),
        n <= m,
    ensures
        vals_wf(s, m),
    decreases s,
{
    if s.len() > 0 {
        lemma_vals_wf_widen(s.subrange(0, s.len() - 1), n, m);
        lemma_val_wf_widen(s[s.len() - 1], n, m);
    }
}

/// Elementwise widening for sequences of entries.
pub proof fn lemma_pairs_wf_widen(s: Seq<(SpecVal, SpecVal)>, n: int, m: int)
    requires
        pairs_wf(s, n),
        n <= m,
    ensures
        pairs_wf(s, m),
    decreases s,
{
    if s.len() > 0 {
        lemma_pairs_wf_widen(s.subrange(0, s.len() - 1), n, m);
        lemma_val_wf_widen(s[s.len() - 1].0, n, m);
        lemma_val_wf_widen(s[s.len() - 1].1, n, m);
    }
}

} // verus!
