//! Runtime core of a typed, GraphQL-style query engine.
//!
//! The library turns an already-validated selection set into a JSON-shaped
//! value by walking user-supplied resolver outcomes, while enforcing the
//! schema's nullability rules, attributing every error to a position and a
//! path, and reporting each execution phase to a chain of extensions.

use vstd::prelude::*;

verus! {

/// A source position (line and column) inside the query text.
#[derive(Clone, Copy, PartialEq, Eq, Structural, Debug)]
pub struct Pos {
    pub line: u64,
    pub column: u64,
}

impl Pos {
    /// The placeholder position used where no query text is involved.
    pub fn origin() -> (p: Pos)
        ensures
            p.line == 0,
            p.column == 0,
    {
        Pos { line: 0, column: 0 }
    }
}

} // verus!

pub mod value;
pub mod error;
pub mod path;
pub mod registry;
pub mod query;
pub mod env;
pub mod extensions;
pub mod resolve;
pub mod engine;
pub mod model;
pub mod query_root;
pub mod types;
pub mod codegen;
