//! Snapshot support for optimised aggregate loading.
//!
//! Snapshots persist state at a point in time, reducing the number of events
//! that need to be replayed. [`NoSnapshots`] keeps none; [`inmemory`] holds the
//! reference store with a configurable policy.

use std::{convert::Infallible, marker::PhantomData};

use vstd::prelude::*;

use crate::message::{prefixed_message, Message};

pub mod inmemory;
pub mod laws;

verus! {

/// Point-in-time snapshot of state.
///
/// The `position` field indicates the event stream position when this snapshot
/// was taken: only events after this position need to be replayed.
#[derive(Clone, Debug)]
pub struct Snapshot<Pos, Data> {
    /// Event position when this snapshot was taken.
    pub position: Pos,
    /// Snapshot payload.
    pub data: Data,
}

/// The types of a snapshot store: its cursor and how it fails.
pub trait SnapshotStore<Id> {
    /// Position type for tracking snapshot positions.
    type Position;

    /// Error type for snapshot operations.
    type Error;
}

/// Result of offering a snapshot to a store.
#[derive(Clone, Copy, Debug, Eq, PartialEq, Structural)]
pub enum SnapshotOffer {
    /// The snapshot store declined to store a snapshot.
    Declined,
    /// The snapshot store stored the snapshot.
    Stored,
}

/// Error returned when a snapshot is offered.
#[derive(Debug)]
pub enum OfferSnapshotError<SnapshotError, CreateError> {
    /// Snapshot creation failed (e.g., serialisation, extra I/O, etc.).
    Create(CreateError),
    /// Snapshot persistence failed.
    Snapshot(SnapshotError),
}

impl<SnapshotError: Message, CreateError: Message> Message for OfferSnapshotError<
    SnapshotError,
    CreateError,
> {
    open spec fn described_by(&self, text: Seq<char>) -> bool {
        match self {
            OfferSnapshotError::Create(cause) => crate::message::prefixed(
                "failed to create snapshot: "@,
                cause,
                text,
            ),
            OfferSnapshotError::Snapshot(cause) => crate::message::prefixed(
                "snapshot operation failed: "@,
                cause,
                text,
            ),
        }
    }

    fn message(&self) -> (text: String) {
        match self {
            OfferSnapshotError::Create(cause) => prefixed_message(
                "failed to create snapshot: ",
                cause,
            ),
            OfferSnapshotError::Snapshot(cause) => prefixed_message(
                "snapshot operation failed: ",
                cause,
            ),
        }
    }
}

impl<SnapshotError: Message, CreateError: Message> OfferSnapshotError<SnapshotError, CreateError> {
    /// The text of the underlying failure.
    pub fn source(&self) -> (r: Option<String>)
        ensures
            r matches Some(text) && match self {
                OfferSnapshotError::Create(cause) => cause.described_by(text@),
                OfferSnapshotError::Snapshot(cause) => cause.described_by(text@),
            },
    {
        match self {
            OfferSnapshotError::Create(cause) => Some(cause.message()),
            OfferSnapshotError::Snapshot(cause) => Some(cause.message()),
        }
    }
}

/// No-op snapshot store: it has nothing to load and declines every offer.
#[derive(Debug)]
pub struct NoSnapshots<Pos>(PhantomData<Pos>);

impl<Pos> Clone for NoSnapshots<Pos> {
    fn clone(&self) -> (r: Self)
        ensures
            r == *self,
    {
        NoSnapshots(PhantomData)
    }
}

impl<Pos> Default for NoSnapshots<Pos> {
    fn default() -> (r: Self)
        ensures
            r == Self::only(),
    {
        NoSnapshots(PhantomData)
    }
}

impl<Id, Pos> SnapshotStore<Id> for NoSnapshots<Pos> {
    type Position = Pos;

    type Error = Infallible;
}

impl<Pos> NoSnapshots<Pos> {
    /// The only value of this type.
    pub closed spec fn only() -> Self {
        NoSnapshots(PhantomData)
    }

    /// Create a new no-op snapshot store.
    #[must_use]
    pub fn new() -> (r: Self)
        ensures
            r == Self::only(),
    {
        NoSnapshots(PhantomData)
    }

    /// There is no snapshot.
    pub fn load<Id, T>(&self, _kind: &str, _id: &Id) -> (r: Option<Snapshot<Pos, T>>)
        ensures
            r is None,
    {
        None
    }

    /// Declines, without creating the snapshot.
    pub fn offer_snapshot<Id, CE, T, Create: FnOnce() -> Result<Snapshot<Pos, T>, CE>>(
        &self,
        _kind: &str,
        _id: &Id,
        _events_since_last_snapshot: u64,
        _create_snapshot: Create,
    ) -> (r: SnapshotOffer)
        ensures
            r == SnapshotOffer::Declined,
    {
        SnapshotOffer::Declined
    }
}

} // verus!
