//! A value stored as JSON text in a database column.
use std::ops::{Deref, DerefMut};
use vstd::prelude::*;

verus! {

/// A value that is stored as the JSON text of its inner value and described
/// to the bindings as its inner type.
#[derive(Debug, Clone)]
pub struct SJson<T>(pub T);

impl<T> Deref for SJson<T> {
    type Target = T;

    /// The wrapped value.
    fn deref(&self) -> (inner: &T)
        ensures
            *inner == self.0,
    {
        &self.0
    }
}

impl<T> DerefMut for SJson<T> {
    /// The wrapped value, to be changed in place.
    fn deref_mut(&mut self) -> (inner: &mut T)
        ensures
            *inner == old(self).0,
            final(self).0 == *final(inner),
    {
        &mut self.0
    }
}

} // verus!
