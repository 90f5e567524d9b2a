//! Tree-walking evaluator for a small Lisp-family language.
//!
//! The evaluator takes an already-parsed abstract syntax tree (a [`value::Value`])
//! together with an environment (a chain of scopes, [`env::Env`]) and produces a
//! value, implementing variable binding, conditional branching, function
//! definition and application, and sequencing, with an explicit trampoline loop
//! so that special forms in tail position do not grow the call stack.
pub mod env;
pub mod eval;
pub mod laws;
pub mod value;
