//! Identifier projection for aggregate storage keys.

use vstd::prelude::*;

verus! {

/// A domain identifier that can be stored as an event store's raw key type.
///
/// Implement this trait when an aggregate uses a domain-specific id newtype but the
/// backing store uses a shared raw id type such as [`String`]. The projection is
/// one-way: the domain id is never reconstructed from the stored key.
pub trait StorageKey<Raw> {
    /// Project this domain id onto the store's raw key type.
    fn to_key(&self) -> Raw;
}

impl<T: Clone> StorageKey<T> for T {
    fn to_key(&self) -> (r: T)
        ensures
            cloned(*self, r),
    {
        self.clone()
    }
}

} // verus!
