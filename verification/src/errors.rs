//! The ways the index can fail.

use tantivy::query::QueryParserError;
use tantivy::TantivyError;

use vstd::prelude::*;

verus! {

/// Why an index operation failed.
pub enum Error {
    /// The search engine failed (reading or writing the index on disk).
    Engine(TantivyError),
    /// The query text could not be parsed.
    Query(QueryParserError),
    /// The index's schema lacks the field of this name.
    MissingField(String),
    /// A stored document lacks a text name or version, or its description is not text.
    MalformedDocument,
}

} // verus!
