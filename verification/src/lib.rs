//! A schema-definition-to-text renderer: turns an in-memory description of a
//! relational table (columns, column types, constraints, table-level options)
//! into a canonical `CREATE TABLE` statement.
//!
//! Every renderable entity implements the [`fields::IntoSql`] capability:
//! "write your canonical textual form to a byte sink, returning the number of
//! bytes written or a failure". Composite entities render themselves by
//! invoking the same capability on their children.

use vstd::prelude::*;

pub mod fields;
pub mod laws;
pub mod sink;
pub mod text;

verus! {

/// A minimal example record with a single text column, kept for the
/// integration tests.
#[derive(Debug)]
pub struct Foo {
    pub a: String,
}

} // verus!
