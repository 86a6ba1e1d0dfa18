//! Persistence layer abstractions: stored events, filters over them, and the
//! errors of a commit.
//!
//! A [`StoredEvent`] holds the serialised payload of one domain event plus what
//! the store assigned to it (its position and its stream). An [`EventFilter`]
//! says which stored events a reader wants; [`inmemory`] holds a store that keeps
//! them in memory.

use std::fmt::Debug;

use vstd::prelude::*;
use vstd::std_specs::convert::FromSpecImpl;

pub use nonempty::NonEmpty;

use crate::{
    concurrency::ConcurrencyConflict,
    message::{prefixed_message, Message},
};

pub mod calls;
pub mod inmemory;
pub mod laws;
pub mod records;

verus! {

/// Contents of `NonEmpty` are read directly: its head, then its tail.
#[verifier::external_type_specification]
#[verifier::reject_recursive_types(T)]
pub struct ExNonEmpty<T>(NonEmpty<T>);

/// The elements of a non-empty vector, in order.
pub open spec fn batch<T>(events: NonEmpty<T>) -> Seq<T> {
    seq![events.head] + events.tail@
}

/// `NonEmpty::from_vec` takes the first element as the head and the others as the
/// tail; there is none to take only where the vector is empty.
pub assume_specification<T>[ NonEmpty::<T>::from_vec ](vec: Vec<T>) -> (r: Option<NonEmpty<T>>)
    ensures
        match r {
            Some(events) => vec@ == batch(events),
            None => vec@.len() == 0,
        },
;

/// `String::from` copies the text of a string slice.
pub assume_specification<'a>[ <String as From<&'a str>>::from ](text: &str) -> (r: String)
    ensures
        r@ == text@,
;

/// An identifier of aggregate streams: it can be copied and compared.
///
/// Its spec functions are left open here; verified code gives them a body of its own.
pub trait StreamId: Sized {
    /// What the identifiers of one stream have in common.
    type Key;

    /// The stream that this identifier names.
    open spec fn key(&self) -> Self::Key {
        arbitrary()
    }

    /// Whether `self` and `other` name the same stream.
    fn same_id(&self, other: &Self) -> (r: bool)
        ensures
            r == (self.key() == other.key()),
    ;

    /// The same identifier once more.
    fn copy_id(&self) -> (r: Self)
        ensures
            r == *self,
    ;
}

impl StreamId for String {
    type Key = Seq<char>;

    open spec fn key(&self) -> Seq<char> {
        self@
    }

    fn same_id(&self, other: &Self) -> (r: bool) {
        *self == *other
    }

    fn copy_id(&self) -> (r: Self) {
        self.clone()
    }
}

impl StreamId for u64 {
    type Key = u64;

    open spec fn key(&self) -> u64 {
        *self
    }

    fn same_id(&self, other: &Self) -> (r: bool) {
        *self == *other
    }

    fn copy_id(&self) -> (r: Self) {
        *self
    }
}

impl StreamId for () {
    type Key = ();

    open spec fn key(&self) -> () {
        ()
    }

    fn same_id(&self, other: &Self) -> (r: bool) {
        true
    }

    fn copy_id(&self) -> (r: Self) {
    }
}

/// An event loaded from the store.
///
/// Holds the serialised event data plus what the store assigned to it.
#[derive(Clone, Debug)]
pub struct StoredEvent<Id, Pos, Data, M> {
    /// The aggregate type identifier (e.g., `"account"`).
    pub aggregate_kind: String,
    /// The aggregate instance identifier.
    pub aggregate_id: Id,
    /// The event type identifier (e.g., `"account.deposited"`).
    pub kind: String,
    /// The global position assigned by the store.
    pub position: Pos,
    /// The serialised event payload.
    pub data: Data,
    /// Infrastructure metadata (timestamps, causation IDs, etc.).
    pub metadata: M,
}

impl<Id, Pos, Data, M> StoredEvent<Id, Pos, Data, M> {
    /// Returns the aggregate type identifier.
    pub fn aggregate_kind(&self) -> (r: &str)
        ensures
            r@ == self.aggregate_kind@,
    {
        self.aggregate_kind.as_str()
    }

    /// Returns a reference to the aggregate instance identifier.
    pub fn aggregate_id(&self) -> (r: &Id)
        ensures
            *r == self.aggregate_id,
    {
        &self.aggregate_id
    }

    /// Returns the event type identifier.
    pub fn kind(&self) -> (r: &str)
        ensures
            r@ == self.kind@,
    {
        self.kind.as_str()
    }

    /// Returns a reference to the metadata.
    pub fn metadata(&self) -> (r: &M)
        ensures
            *r == self.metadata,
    {
        &self.metadata
    }
}

impl<Id, Pos: Clone, Data, M> StoredEvent<Id, Pos, Data, M> {
    /// Returns a copy of the position.
    pub fn position(&self) -> (r: Pos)
        ensures
            cloned(self.position, r),
    {
        self.position.clone()
    }
}

/// Filter describing which events should be loaded from the store.
#[derive(Clone, Debug, PartialEq, Eq)]
pub struct EventFilter<Id, Pos = ()> {
    /// The event kind that an event must have.
    pub event_kind: String,
    /// The aggregate kind that an event must have, if any.
    pub aggregate_kind: Option<String>,
    /// The aggregate instance that an event must belong to, if any.
    pub aggregate_id: Option<Id>,
    /// Only load events with position strictly greater than this value.
    ///
    /// Used for snapshot-based loading to skip events already applied.
    pub after_position: Option<Pos>,
}

/// What a filter asks for.
pub struct Selector<Key, Pos> {
    pub event_kind: Seq<char>,
    pub aggregate_kind: Option<Seq<char>>,
    pub aggregate_id: Option<Key>,
    pub after_position: Option<Pos>,
}

impl<Id: StreamId, Pos> EventFilter<Id, Pos> {
    /// What this filter asks for.
    pub open spec fn selector(self) -> Selector<Id::Key, Pos> {
        Selector {
            event_kind: self.event_kind@,
            aggregate_kind: match self.aggregate_kind {
                Some(kind) => Some(kind@),
                None => None,
            },
            aggregate_id: match self.aggregate_id {
                Some(id) => Some(id.key()),
                None => None,
            },
            after_position: self.after_position,
        }
    }
}

/// What each of `filters` asks for.
pub open spec fn selectors<Id: StreamId, Pos>(filters: Seq<EventFilter<Id, Pos>>) -> Seq<
    Selector<Id::Key, Pos>,
> {
    filters.map_values(|filter: EventFilter<Id, Pos>| filter.selector())
}

/// A selector for every event of one kind.
pub open spec fn every<Key, Pos>(event_kind: Seq<char>) -> Selector<Key, Pos> {
    Selector { event_kind, aggregate_kind: None, aggregate_id: None, after_position: None }
}

/// A selector for the events of one kind in one stream.
pub open spec fn within<Key, Pos>(
    event_kind: Seq<char>,
    aggregate_kind: Seq<char>,
    aggregate_id: Key,
) -> Selector<Key, Pos> {
    Selector {
        event_kind,
        aggregate_kind: Some(aggregate_kind),
        aggregate_id: Some(aggregate_id),
        after_position: None,
    }
}

impl<Id, Pos> EventFilter<Id, Pos> {
    /// Load all events of the specified kind across every aggregate.
    #[must_use]
    pub fn for_event<K: Into<String>>(kind: K) -> (r: Self)
        ensures
            call_ensures(<K as Into<String>>::into, (kind,), r.event_kind),
            r.aggregate_kind is None,
            r.aggregate_id is None,
            r.after_position is None,
    {
        EventFilter {
            event_kind: kind.into(),
            aggregate_kind: None,
            aggregate_id: None,
            after_position: None,
        }
    }

    /// Load events of the specified kind for a single aggregate instance.
    #[must_use]
    pub fn for_aggregate<K: Into<String>, A: Into<String>, I: Into<Id>>(
        event_kind: K,
        aggregate_kind: A,
        aggregate_id: I,
    ) -> (r: Self)
        ensures
            call_ensures(<K as Into<String>>::into, (event_kind,), r.event_kind),
            r.aggregate_kind matches Some(kind) && call_ensures(
                <A as Into<String>>::into,
                (aggregate_kind,),
                kind,
            ),
            r.aggregate_id matches Some(id) && call_ensures(
                <I as Into<Id>>::into,
                (aggregate_id,),
                id,
            ),
            r.after_position is None,
    {
        EventFilter {
            event_kind: event_kind.into(),
            aggregate_kind: Some(aggregate_kind.into()),
            aggregate_id: Some(aggregate_id.into()),
            after_position: None,
        }
    }

    /// Only load events with position strictly greater than the given value.
    ///
    /// Load a snapshot at position N, then load events with `after(N)` to get
    /// only the events that occurred after the snapshot was taken.
    #[must_use]
    pub fn after(self, position: Pos) -> (r: Self)
        ensures
            r == (EventFilter { after_position: Some(position), ..self }),
    {
        let mut filter: Self = self;
        filter.after_position = Some(position);
        filter
    }
}

/// Error from commit operations without version checking.
#[derive(Debug)]
pub enum CommitError<StoreError> {
    /// Failed to serialize an event.
    Serialization {
        /// Place of the event in the batch.
        index: usize,
        /// What went wrong.
        source: StoreError,
    },
    /// Underlying store error.
    Store(StoreError),
}

impl<StoreError: Message> Message for CommitError<StoreError> {
    open spec fn described_by(&self, text: Seq<char>) -> bool {
        match self {
            CommitError::Serialization { index, .. } => crate::message::prefixed(
                "failed to serialize event at index "@,
                index,
                text,
            ),
            CommitError::Store(cause) => crate::message::prefixed("store error: "@, cause, text),
        }
    }

    fn message(&self) -> (text: String) {
        match self {
            CommitError::Serialization { index, .. } => prefixed_message(
                "failed to serialize event at index ",
                index,
            ),
            CommitError::Store(cause) => prefixed_message("store error: ", cause),
        }
    }
}

impl<StoreError: Message> CommitError<StoreError> {
    /// The text of the underlying failure.
    pub fn source(&self) -> (r: Option<String>)
        ensures
            r matches Some(text) && match self {
                CommitError::Serialization { source, .. } => source.described_by(text@),
                CommitError::Store(cause) => cause.described_by(text@),
            },
    {
        match self {
            CommitError::Serialization { source, .. } => Some(source.message()),
            CommitError::Store(cause) => Some(cause.message()),
        }
    }
}

/// Error from commit operations with optimistic concurrency checking.
#[derive(Debug)]
pub enum OptimisticCommitError<Pos, StoreError> {
    /// Failed to serialize an event.
    Serialization {
        /// Place of the event in the batch.
        index: usize,
        /// What went wrong.
        source: StoreError,
    },
    /// Concurrency conflict: another writer modified the stream.
    Conflict(ConcurrencyConflict<Pos>),
    /// Underlying store error.
    Store(StoreError),
}

impl<Pos, StoreError> From<ConcurrencyConflict<Pos>> for OptimisticCommitError<Pos, StoreError> {
    fn from(conflict: ConcurrencyConflict<Pos>) -> (r: Self) {
        OptimisticCommitError::Conflict(conflict)
    }
}

impl<Pos, StoreError> FromSpecImpl<ConcurrencyConflict<Pos>> for OptimisticCommitError<Pos, StoreError> {
    open spec fn obeys_from_spec() -> bool {
        true
    }

    open spec fn from_spec(conflict: ConcurrencyConflict<Pos>) -> Self {
        OptimisticCommitError::Conflict(conflict)
    }
}

impl<Pos: Debug, StoreError: Message> Message for OptimisticCommitError<Pos, StoreError> {
    open spec fn described_by(&self, text: Seq<char>) -> bool {
        match self {
            OptimisticCommitError::Serialization { index, .. } => crate::message::prefixed(
                "failed to serialize event at index "@,
                index,
                text,
            ),
            OptimisticCommitError::Conflict(conflict) => conflict.described_by(text),
            OptimisticCommitError::Store(cause) => crate::message::prefixed(
                "store error: "@,
                cause,
                text,
            ),
        }
    }

    fn message(&self) -> (text: String) {
        match self {
            OptimisticCommitError::Serialization { index, .. } => prefixed_message(
                "failed to serialize event at index ",
                index,
            ),
            OptimisticCommitError::Conflict(conflict) => conflict.message(),
            OptimisticCommitError::Store(cause) => prefixed_message("store error: ", cause),
        }
    }
}

impl<Pos: Debug, StoreError: Message> OptimisticCommitError<Pos, StoreError> {
    /// The text of the underlying failure; a conflict has none beside its own.
    pub fn source(&self) -> (r: Option<String>)
        ensures
            match self {
                OptimisticCommitError::Serialization { source, .. } => r matches Some(text)
                    && source.described_by(text@),
                OptimisticCommitError::Conflict(_) => r is None,
                OptimisticCommitError::Store(cause) => r matches Some(text) && cause.described_by(
                    text@,
                ),
            },
    {
        match self {
            OptimisticCommitError::Serialization { source, .. } => Some(source.message()),
            OptimisticCommitError::Conflict(_) => None,
            OptimisticCommitError::Store(cause) => Some(cause.message()),
        }
    }
}

/// Successful commit of events to a stream.
#[derive(Clone, Copy, Debug, Eq, PartialEq)]
pub struct Committed<Pos> {
    /// Position of the last event written in the batch.
    pub last_position: Pos,
}

/// A vector of stored events loaded from an event store.
pub type StoredEvents<Id, Pos, Data, M> = Vec<StoredEvent<Id, Pos, Data, M>>;

/// Result type for event loading operations.
pub type LoadEventsResult<Id, Pos, Data, M, E> = Result<StoredEvents<Id, Pos, Data, M>, E>;

/// The types of an event store: how it names streams, orders events, fails, and
/// what it keeps beside a payload.
pub trait EventStore: Sized {
    /// Aggregate identifier type.
    type Id: StreamId;

    /// Position type used for ordering events and version checking.
    type Position: Clone;

    /// Store-specific error type.
    type Error;

    /// Metadata type for infrastructure concerns.
    type Metadata;

    /// Serialised event payload type.
    type Data;
}

/// Marker trait for stores that provide globally ordered positions.
///
/// Projection snapshots require this guarantee.
pub trait GloballyOrderedStore: EventStore {
}

/// Name of one stream: an aggregate type and an instance of it.
#[derive(Clone, Debug, PartialEq, Eq)]
pub struct StreamKey<Id> {
    /// The aggregate type identifier.
    pub aggregate_kind: String,
    /// The aggregate instance identifier.
    pub aggregate_id: Id,
}

impl<Id> StreamKey<Id> {
    /// Names the stream of one aggregate instance.
    pub fn new<K: Into<String>>(aggregate_kind: K, aggregate_id: Id) -> (r: Self)
        ensures
            call_ensures(<K as Into<String>>::into, (aggregate_kind,), r.aggregate_kind),
            r.aggregate_id == aggregate_id,
    {
        StreamKey { aggregate_kind: aggregate_kind.into(), aggregate_id }
    }
}

} // verus!
