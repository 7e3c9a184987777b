//! A minimal single-table query engine: a SQL-like tokenizer and parser, a
//! pull-based (Volcano) operator pipeline over in-memory rows, and a model of
//! a native-code compilation path for a restricted operator subset.

use vstd::prelude::*;

pub mod row;
pub mod codegen;
pub mod eval;
pub mod executor;
pub mod operators;
pub mod sql;
pub mod text;

pub use row::Int64Row;
pub use row::Row;

verus! {

/// The error outcomes a query can end in: malformed query text, a column name
/// outside the fixed schema, an expression outside the compilable subset, or a
/// failure to set up the native-code backend.
#[derive(Debug, Clone, PartialEq, Eq)]
pub enum Error {
    ParseError,
    SchemaMismatch,
    UnsupportedExpression,
    BackendInitFailure,
}

} // verus!
