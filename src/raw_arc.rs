//! A shared ownership handle: one allocation holding an atomic reference count
//! next to the payload, freed when the last handle is dropped.
use std::sync::Arc;
use vstd::prelude::*;

verus! {

/// Relies on `Arc::strong_count`: the number of strong handles to the
/// allocation, of which the handle passed in is one.
#[verifier::external_body]
fn strong_count_of<T>(a: &Arc<T>) -> (r: usize)
    ensures
        r >= 1,
{
    Arc::strong_count(a)
}

/// A reference-counted handle to a shared payload. Cloning adds a holder;
/// dropping removes one; the payload is destroyed with the last holder.
pub struct RawArc<T> {
    inner: Arc<T>,
}

impl<T> View for RawArc<T> {
    type V = T;

    closed spec fn view(&self) -> T {
        *self.inner
    }
}

impl<T> RawArc<T> {
    /// A handle to a new allocation holding `data`, with one holder.
    pub fn new(data: T) -> (r: RawArc<T>)
        ensures
            r@ == data,
    {
        RawArc { inner: Arc::new(data) }
    }

    /// The shared payload.
    pub fn get(&self) -> (r: &T)
        ensures
            *r == self@,
    {
        &*self.inner
    }

    /// The number of handles currently sharing the payload. Other threads may
    /// change it at any moment; this handle alone makes it at least one.
    pub fn ref_count(&self) -> (r: usize)
        ensures
            r >= 1,
    {
        strong_count_of(&self.inner)
    }
}

impl<T> Clone for RawArc<T> {
    /// Another handle to the same payload.
    fn clone(&self) -> (r: RawArc<T>)
        ensures
            r@ == self@,
    {
        RawArc { inner: Arc::clone(&self.inner) }
    }
}

} // verus!
