//! LispDM: an interpreter for a subset of Scheme.
//!
//! Source text is read by the lexer and the parser into expressions, which the evaluator
//! evaluates in environments held in a store. The engine keeps a root environment with the
//! built-in special forms and procedures between evaluations.
use vstd::prelude::*;

pub mod text;
pub mod lexer;
pub mod expr;
pub mod parser;
pub mod env;
pub mod error;
pub mod procedure;
pub mod primitives;
pub mod eval;
pub mod engine;
pub mod laws;

pub use engine::{new_root_env, Engine};
pub use env::Store;
pub use error::{EvalError, LispDMError};
pub use eval::{eval_expr, eval_exprs, EvalResult};
pub use expr::{Arity, EnvRef, Expr, Exprs, FromExpr, Primitive, ProcedureKind};
pub use procedure::{ProcedureResult, ProcedureReturn};

verus! {

} // verus!
