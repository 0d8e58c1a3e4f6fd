use vstd::prelude::*;

verus! {

/// The failures that the database layers report to their callers.
#[derive(Debug)]
pub enum DbError {
    /// Bytes read from a page (or about to be written to one) do not have the
    /// shape that the schema or the page format requires.
    CorruptPage(String),
    /// A read or a write of the underlying byte stream failed; the text
    /// describes the failure.
    Io(String),
    /// The catalog holds no table of this name.
    TableNotFound(String),
    /// A query is malformed.
    SyntaxErr(String),
    /// The buffer pool is full and no cached page may be evicted.
    LruEviction,
}

/// The error type used throughout the crate.
pub type Error = DbError;

} // verus!
