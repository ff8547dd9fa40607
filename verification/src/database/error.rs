//! The shared error taxonomy of the storage side.

use vstd::prelude::*;

verus! {

/// An error of the storage machinery itself.
///
/// Backend operation failures never appear here: they are absorbed at the
/// request actor's boundary and surfaced to callers as an absent result.
pub enum DbError {
    /// The backend could not be brought up or torn down; the rendered
    /// message of the underlying failure is carried along.
    Backend(String),
    /// A notification stream closed, so reorgs can no longer be detected.
    /// The surrounding process must treat this as fatal.
    StreamClosed,
}

impl DbError {
    /// A human-readable description of the error.
    pub fn message<'a>(&'a self) -> (r: &'a str)
        ensures
            self matches DbError::Backend(m) ==> r@ == m@,
            self is StreamClosed ==> r@ == "notification stream closed"@,
    {
        match self {
            DbError::Backend(m) => m.as_str(),
            DbError::StreamClosed => "notification stream closed",
        }
    }
}

} // verus!
