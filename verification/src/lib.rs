use vstd::prelude::*;

pub mod arith;
pub mod ast;
pub mod engine;
pub mod format;
pub mod grammar;
pub mod integrity;
pub mod integrity_statements;
pub mod interpreter;
pub mod parser;
pub mod reify;
pub mod render;
pub mod reporter;
pub mod scanner;
pub mod search;
pub mod sql_eval;
pub mod sql_interpreter;
pub mod sql_select;
pub mod sql_write;
pub mod state;
pub mod store;
pub mod value;

verus! {

} // verus!
