//! A JSON column value described to the bindings as its inner type.
use vstd::prelude::*;

verus! {

/// A value that the database driver stores as JSON, described to the bindings
/// as its inner type.
pub struct SqlxJson<T>(pub T);

impl SqlxJson<()> {
    /// Wraps `value`.
    pub fn new<T>(value: T) -> (wrapped: SqlxJson<T>)
        ensures
            wrapped.0 == value,
    {
        SqlxJson(value)
    }
}

} // verus!
