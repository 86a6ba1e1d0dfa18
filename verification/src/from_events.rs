//! Base trait for objects which can be instantiated from a stream of events
//! (aggregates and projections).

use vstd::prelude::*;

use crate::store::EventFilter;

verus! {

/// An object that is built from a stream of events.
pub trait FromEvents {
    /// The IDs needed to identify events associated with this object.
    ///
    /// For an object of a single aggregate instance this could be a single ID, for
    /// one of several a tuple of IDs, and for one that consumes events globally `()`.
    type InstanceId;

    /// Aggregate identifier type stored on events (the event stream key).
    type Id;

    /// Store position type used for snapshot-based loading.
    type Position;

    /// Return filters describing the event streams this object consumes.
    fn filters(instance_id: Self::InstanceId) -> Filter<Self::Id, Self::Position>;
}

/// Event filter set which matches on any event that this object consumes.
#[derive(Clone, Debug, PartialEq, Eq)]
pub struct Filter<Id, Pos = ()> {
    /// The filters of the set.
    pub filters: Vec<EventFilter<Id, Pos>>,
}

impl<Id, Pos> Default for Filter<Id, Pos> {
    fn default() -> (r: Self)
        ensures
            r.filters@.len() == 0,
    {
        Filter { filters: Vec::new() }
    }
}

} // verus!
