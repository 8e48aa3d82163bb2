//! Objects that many connections use.

use std::sync::Arc;
use vstd::prelude::*;

verus! {

/// A reference-counted handle, also to a value whose type is known by a trait only.
pub struct Shared<T: ?Sized>(Arc<T>);

impl<T: ?Sized> Shared<T> {
    /// What the handle refers to.
    pub closed spec fn target(&self) -> Arc<T> {
        self.0
    }

    pub fn new(target: Arc<T>) -> (r: Self)
        ensures
            r.target() == target,
    {
        Shared(target)
    }

    pub fn get(&self) -> (r: &T)
        ensures
            r == self.target(),
    {
        &*self.0
    }
}

impl<T: ?Sized> Clone for Shared<T> {
    fn clone(&self) -> (r: Self)
        ensures
            r.target() == self.target(),
    {
        Shared(Arc::clone(&self.0))
    }
}

} // verus!
