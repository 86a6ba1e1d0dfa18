//! A repository over the in-memory store.
//!
//! Here the calls into the store are plain calls, so the whole workflow, from the
//! command to the log, has one contract.

use std::convert::Infallible;

use nonempty::NonEmpty;
use serde_json::Value;
use vstd::prelude::*;

use super::{
    aggregate_event_filters, after_attempt, commit_failure, decide_create, decide_update,
    decide_upsert, finish_load, offer_outcome, optimistic_outcome, replay_projection_events,
    unchecked_outcome, usable_snapshot, Attempt, CommandError, CommitPolicyError, LoadedAggregate,
    Pending, Repository, Snapshots,
};
use crate::{
    aggregate::{Aggregate, Handle, HandleCreate},
    concurrency::{ConcurrencyConflict, ConcurrencyStrategy, Optimistic, Unchecked},
    event::{DecodeEvent, EventKind, ProjectionEvent},
    projection::{Filters, Projection, ProjectionError, ProjectionFilters, Subscribable},
    sealed::Sealed,
    snapshot::{self, NoSnapshots, Snapshot},
    store::{
        inmemory::{EncodedEvent, InMemoryError, InMemoryEvent, Store},
        EventFilter, Selector, StreamId,
    },
};

verus! {

/// An event type that can be turned into JSON.
///
/// Its spec functions are left open here; verified code gives them a body of its own.
pub trait EncodeEvent<E>: EventKind {
    /// The JSON of this event, if it has one.
    open spec fn json(&self) -> Option<Value> {
        arbitrary()
    }

    /// Whether `cause` can be why this event has no JSON.
    open spec fn unencodable(&self, cause: E) -> bool {
        arbitrary()
    }

    /// Turn this event into JSON.
    ///
    /// # Errors
    ///
    /// Returns an error if serialisation fails.
    fn to_json(&self) -> (r: Result<Value, E>)
        ensures
            match r {
                Ok(value) => self.json() == Some(value),
                Err(cause) => self.json() is None && self.unencodable(cause),
            },
    ;
}

/// An event that is JSON already.
pub struct JsonEvent {
    /// The event type identifier.
    pub kind: &'static str,
    /// The payload.
    pub data: Value,
}

impl EventKind for JsonEvent {
    open spec fn spec_kind(&self) -> Seq<char> {
        self.kind@
    }

    fn kind(&self) -> (r: &'static str) {
        self.kind
    }
}

impl<E> EncodeEvent<E> for JsonEvent {
    open spec fn json(&self) -> Option<Value> {
        Some(self.data)
    }

    open spec fn unencodable(&self, cause: E) -> bool {
        false
    }

    fn to_json(&self) -> (r: Result<Value, E>) {
        Ok(self.data.clone())
    }
}

/// JSON is decoded as itself.
impl<Id: StreamId, M: Clone, E> DecodeEvent<Store<Id, M, E>> for Value {
    open spec fn decoded(stored: InMemoryEvent<Id, M>) -> Option<Value> {
        Some(stored.data)
    }

    open spec fn undecodable(stored: InMemoryEvent<Id, M>, cause: InMemoryError<E>) -> bool {
        false
    }

    fn decode_event(_store: &Store<Id, M, E>, stored: &InMemoryEvent<Id, M>) -> (r: Result<
        Value,
        InMemoryError<E>,
    >) {
        Ok(stored.data.clone())
    }
}

/// Whether every one of `events` has JSON.
pub open spec fn all_json<E, T: EncodeEvent<E>>(events: Seq<T>) -> bool {
    forall|i: int| 0 <= i < events.len() ==> (#[trigger] events[i]).json() is Some
}

/// Whether the event at `index` is the first of `events` that has no JSON, for the
/// reason `cause`.
pub open spec fn unencodable_at<E, T: EncodeEvent<E>>(
    events: Seq<T>,
    index: int,
    cause: E,
) -> bool {
    &&& 0 <= index < events.len()
    &&& all_json::<E, T>(events.take(index))
    &&& events[index].json() is None
    &&& events[index].unencodable(cause)
}

/// Whether `cause` is why the first of `events` without JSON has none.
pub open spec fn first_unencodable<E, T: EncodeEvent<E>>(events: Seq<T>, cause: E) -> bool {
    exists|index: int| #[trigger] unencodable_at::<E, T>(events, index, cause)
}

/// The kinds and payloads of `events`, where every one has JSON.
pub open spec fn json_of<E, T: EncodeEvent<E>>(events: Seq<T>) -> Seq<(Seq<char>, Value)> {
    events.map_values(|event: T| (event.spec_kind(), event.json()->0))
}

/// Whether `r` says what came of encoding each of `events`.
pub open spec fn encodes<E, T: EncodeEvent<E>>(events: Seq<T>, r: Seq<EncodedEvent<E>>) -> bool {
    &&& r.len() == events.len()
    &&& forall|i: int|
        0 <= i < r.len() ==> (#[trigger] r[i]).kind@ == events[i].spec_kind() && match r[i].data {
            Ok(value) => events[i].json() == Some(value),
            Err(cause) => events[i].json() is None && events[i].unencodable(cause),
        }
}

fn encode_one<E, T: EncodeEvent<E>>(event: &T) -> (r: EncodedEvent<E>)
    ensures
        r.kind@ == event.spec_kind(),
        match r.data {
            Ok(value) => event.json() == Some(value),
            Err(cause) => event.json() is None && event.unencodable(cause),
        },
{
    EncodedEvent { kind: event.kind().to_owned(), data: event.to_json() }
}

/// Encodes the events of a batch.
pub fn encode_all<E, T: EncodeEvent<E>>(events: &NonEmpty<T>) -> (r: NonEmpty<EncodedEvent<E>>)
    ensures
        encodes(crate::store::batch(*events), crate::store::batch(r)),
{
    let head: EncodedEvent<E> = encode_one(&events.head);
    let mut tail: Vec<EncodedEvent<E>> = Vec::new();
    let mut i: usize = 0;
    while i < events.tail.len()
        invariant
            i <= events.tail@.len(),
            encodes(events.tail@.take(i as int), tail@),
        decreases events.tail@.len() - i,
    {
        tail.push(encode_one(&events.tail[i]));
        i = i + 1;
    }
    assert(events.tail@.take(events.tail@.len() as int) == events.tail@);
    NonEmpty { head, tail }
}

/// Encoded events carry the kinds and the JSON of what they were made of.
pub proof fn lemma_encoded_payloads<E, T: EncodeEvent<E>>(
    events: Seq<T>,
    encoded: Seq<EncodedEvent<E>>,
)
    requires
        encodes(events, encoded),
    ensures
        crate::store::inmemory::all_encoded(encoded) <==> all_json::<E, T>(events),
        all_json::<E, T>(events) ==> crate::store::inmemory::payloads(encoded) == json_of::<E, T>(
            events,
        ),
{
    if crate::store::inmemory::all_encoded(encoded) {
        assert forall|i: int| 0 <= i < events.len() implies (
        #[trigger] events[i]).json() is Some by {
            assert(encoded[i].data is Ok);
        }
    }
    if all_json::<E, T>(events) {
        assert forall|i: int| 0 <= i < encoded.len() implies {
            &&& (#[trigger] encoded[i]).data is Ok
            &&& encoded[i].kind@ == events[i].spec_kind()
            &&& encoded[i].data->Ok_0 == events[i].json()->0
        } by {
            assert(events[i].json() is Some);
        }
        assert(crate::store::inmemory::payloads(encoded) == json_of::<E, T>(events));
    }
}

/// The first event that was not encoded is the first that has no JSON.
pub proof fn lemma_first_unencodable<E, T: EncodeEvent<E>>(
    events: Seq<T>,
    encoded: Seq<EncodedEvent<E>>,
    index: int,
    cause: E,
)
    requires
        encodes(events, encoded),
        crate::store::inmemory::first_failure(encoded, index, cause),
    ensures
        first_unencodable(events, cause),
{
    assert forall|i: int| 0 <= i < index implies (
    #[trigger] events.take(index)[i]).json() is Some by {
        assert(encoded[i].data is Ok);
    }
    assert(encoded[index].data is Err);
    assert(unencodable_at(events, index, cause));
}

/// State that can be turned into JSON and back.
///
/// Its spec functions are left open here; verified code gives them a body of its own.
pub trait SnapshotState<E>: Sized {
    /// The JSON of this state, if it has one.
    open spec fn frozen(&self) -> Option<Value> {
        arbitrary()
    }

    /// Whether `cause` can be why this state has no JSON.
    open spec fn unfreezable(&self, cause: E) -> bool {
        arbitrary()
    }

    /// The state that `value` is the JSON of, if there is one.
    open spec fn revived(value: Value) -> Option<Self> {
        arbitrary()
    }

    /// Turn this state into JSON.
    ///
    /// # Errors
    ///
    /// Returns an error if serialisation fails.
    fn freeze(&self) -> (r: Result<Value, E>)
        ensures
            match r {
                Ok(value) => self.frozen() == Some(value),
                Err(cause) => self.frozen() is None && self.unfreezable(cause),
            },
    ;

    /// Turn JSON into state.
    ///
    /// # Errors
    ///
    /// Returns an error if deserialisation fails.
    fn revive(value: Value) -> (r: Result<Self, E>)
        ensures
            match r {
                Ok(state) => Self::revived(value) == Some(state),
                Err(_) => Self::revived(value) is None,
            },
    ;
}

/// State that is JSON already.
impl<E> SnapshotState<E> for Value {
    open spec fn frozen(&self) -> Option<Value> {
        Some(*self)
    }

    open spec fn unfreezable(&self, cause: E) -> bool {
        false
    }

    open spec fn revived(value: Value) -> Option<Value> {
        Some(value)
    }

    fn freeze(&self) -> (r: Result<Value, E>) {
        Ok(self.clone())
    }

    fn revive(value: Value) -> (r: Result<Value, E>) {
        Ok(value)
    }
}

/// How a repository commits.
pub trait CommitPolicy: ConcurrencyStrategy {
    /// What a conflict looks like.
    type ConcurrencyError;

    /// Whether this policy checks versions before appending.
    spec fn checks_version() -> bool;

    /// The conflict between an expected and an actual version.
    spec fn conflict(expected: Option<u64>, actual: Option<u64>) -> Self::ConcurrencyError;

    /// Commits to one stream.
    ///
    /// # Errors
    ///
    /// Returns an error if an event was not encoded or, where this policy checks
    /// versions, if the stream is not at the expected one.
    fn commit<Id: StreamId, M: Clone, E>(
        store: &mut Store<Id, M, E>,
        kind: &str,
        id: &Id,
        expected: Option<u64>,
        events: NonEmpty<EncodedEvent<E>>,
        metadata: &M,
    ) -> (r: Result<u64, CommitPolicyError<Self::ConcurrencyError, InMemoryError<E>>>)
        requires
            crate::store::inmemory::all_encoded(crate::store::batch(events)) && (
            Self::checks_version() ==> expected == crate::store::inmemory::version_of(
                old(store).log(),
                kind@,
                id.key(),
            )) ==> old(store).log().len() + crate::store::batch(events).len() <= u64::MAX,
        ensures
            crate::store::inmemory::positioned(old(store).log()),
            crate::store::inmemory::positioned(final(store).log()),
            r is Ok <==> crate::store::inmemory::all_encoded(crate::store::batch(events)) && (
            Self::checks_version() ==> expected == crate::store::inmemory::version_of(
                old(store).log(),
                kind@,
                id.key(),
            )),
            match r {
                Ok(position) => {
                    &&& crate::store::inmemory::appended(
                        old(store).log(),
                        final(store).log(),
                        kind@,
                        id.key(),
                        crate::store::inmemory::payloads(crate::store::batch(events)),
                        *metadata,
                    )
                    &&& position == final(store).log().len() - 1
                },
                Err(CommitPolicyError::Store(error)) => {
                    &&& !crate::store::inmemory::all_encoded(crate::store::batch(events))
                    &&& final(store).log() == old(store).log()
                    &&& error matches InMemoryError::Serialization(cause)
                    &&& exists|index: int|
                        crate::store::inmemory::first_failure(
                            crate::store::batch(events),
                            index,
                            cause,
                        )
                },
                Err(CommitPolicyError::Concurrency(conflict)) => {
                    &&& crate::store::inmemory::all_encoded(crate::store::batch(events))
                    &&& final(store).log() == old(store).log()
                    &&& conflict == Self::conflict(
                        expected,
                        crate::store::inmemory::version_of(old(store).log(), kind@, id.key()),
                    )
                },
            },
    ;
}

impl CommitPolicy for Unchecked {
    type ConcurrencyError = Infallible;

    open spec fn checks_version() -> bool {
        false
    }

    open spec fn conflict(expected: Option<u64>, actual: Option<u64>) -> Infallible {
        arbitrary()
    }

    fn commit<Id: StreamId, M: Clone, E>(
        store: &mut Store<Id, M, E>,
        kind: &str,
        id: &Id,
        _expected: Option<u64>,
        events: NonEmpty<EncodedEvent<E>>,
        metadata: &M,
    ) -> (r: Result<u64, CommitPolicyError<Infallible, InMemoryError<E>>>) {
        unchecked_outcome(store.commit_events(kind, id, events, metadata))
    }
}

impl CommitPolicy for Optimistic {
    type ConcurrencyError = ConcurrencyConflict<u64>;

    open spec fn checks_version() -> bool {
        true
    }

    open spec fn conflict(expected: Option<u64>, actual: Option<u64>) -> ConcurrencyConflict<u64> {
        ConcurrencyConflict { expected, actual }
    }

    fn commit<Id: StreamId, M: Clone, E>(
        store: &mut Store<Id, M, E>,
        kind: &str,
        id: &Id,
        expected: Option<u64>,
        events: NonEmpty<EncodedEvent<E>>,
        metadata: &M,
    ) -> (r: Result<u64, CommitPolicyError<ConcurrencyConflict<u64>, InMemoryError<E>>>) {
        optimistic_outcome(store.commit_events_optimistic(kind, id, expected, events, metadata))
    }
}

/// How a repository uses snapshots of `A`.
pub trait SnapshotPolicy<A, Id: StreamId>: Sealed + Sized {
    /// How storing a snapshot fails.
    type SnapshotError;

    /// Whether this mode stores state.
    spec fn keeps_state() -> bool;

    /// The state and its position that loading starts from, if there is one.
    spec fn base(&self, kind: Seq<char>, id: Id::Key) -> Option<(A, u64)>;

    /// Whether an offer of `state` takes this mode from `before` to `after` and is
    /// answered with `r`.
    spec fn takes_offer(
        before: Self,
        after: Self,
        kind: Seq<char>,
        id: Id::Key,
        events_since_snapshot: u64,
        offered: Snapshot<u64, Option<A>>,
        r: Result<(), Self::SnapshotError>,
    ) -> bool;

    /// Whether this mode stores state.
    fn wants_state() -> (r: bool)
        ensures
            r == Self::keeps_state(),
    ;

    /// What loading starts from.
    fn load_base(&self, kind: &str, id: &Id) -> (r: Option<(A, u64)>)
        ensures
            r == self.base(kind@, id.key()),
    ;

    /// Offers a snapshot.
    ///
    /// # Errors
    ///
    /// Returns an error if it was to be stored and could not be.
    fn offer_snapshot(
        &mut self,
        kind: &str,
        id: &Id,
        events_since_snapshot: u64,
        new_position: u64,
        prepared: Option<A>,
    ) -> (r: Result<(), Self::SnapshotError>)
        requires
            Self::keeps_state() ==> prepared is Some,
        ensures
            Self::takes_offer(
                *old(self),
                *final(self),
                kind@,
                id.key(),
                events_since_snapshot,
                (Snapshot { position: new_position, data: prepared }),
                r,
            ),
    ;
}

impl<A, Id: StreamId> SnapshotPolicy<A, Id> for NoSnapshots<u64> {
    type SnapshotError = Infallible;

    open spec fn keeps_state() -> bool {
        false
    }

    open spec fn base(&self, kind: Seq<char>, id: Id::Key) -> Option<(A, u64)> {
        None
    }

    open spec fn takes_offer(
        before: Self,
        after: Self,
        kind: Seq<char>,
        id: Id::Key,
        events_since_snapshot: u64,
        offered: Snapshot<u64, Option<A>>,
        r: Result<(), Infallible>,
    ) -> bool {
        after == before && r == Ok::<(), Infallible>(())
    }

    fn wants_state() -> (r: bool) {
        false
    }

    fn load_base(&self, _kind: &str, _id: &Id) -> (r: Option<(A, u64)>) {
        None
    }

    fn offer_snapshot(
        &mut self,
        _kind: &str,
        _id: &Id,
        _events_since_snapshot: u64,
        _new_position: u64,
        _prepared: Option<A>,
    ) -> (r: Result<(), Infallible>) {
        Ok(())
    }
}

impl<A: SnapshotState<E>, Id: StreamId, E> SnapshotPolicy<A, Id> for Snapshots<
    snapshot::inmemory::Store<Id, u64, E>,
> {
    type SnapshotError = snapshot::inmemory::Error<E>;

    open spec fn keeps_state() -> bool {
        true
    }

    open spec fn base(&self, kind: Seq<char>, id: Id::Key) -> Option<(A, u64)> {
        if self.0@.contains_key((kind, id)) {
            match A::revived(self.0@[(kind, id)].data) {
                Some(state) => Some((state, self.0@[(kind, id)].position)),
                None => None,
            }
        } else {
            None
        }
    }

    open spec fn takes_offer(
        before: Self,
        after: Self,
        kind: Seq<char>,
        id: Id::Key,
        events_since_snapshot: u64,
        offered: Snapshot<u64, Option<A>>,
        r: Result<(), snapshot::inmemory::Error<E>>,
    ) -> bool {
        &&& after.0.spec_policy() == before.0.spec_policy()
        &&& if !before.0.spec_policy().due(events_since_snapshot) {
            after.0@ == before.0@ && r is Ok
        } else {
            match offered.data->0.frozen() {
                Some(data) => {
                    &&& r is Ok
                    &&& after.0@ == if crate::snapshot::inmemory::outdated(
                        before.0@,
                        (kind, id),
                        offered.position,
                    ) {
                        before.0@
                    } else {
                        before.0@.insert((kind, id), (Snapshot { position: offered.position, data }))
                    }
                },
                None => {
                    &&& after.0@ == before.0@
                    &&& r matches Err(snapshot::inmemory::Error::Serialization(cause))
                        && offered.data->0.unfreezable(cause)
                },
            }
        }
    }

    fn wants_state() -> (r: bool) {
        true
    }

    fn load_base(&self, kind: &str, id: &Id) -> (r: Option<(A, u64)>) {
        let decode = |value: Value| -> (r: Result<A, E>)
            ensures
                match r {
                    Ok(state) => A::revived(value) == Some(state),
                    Err(_) => A::revived(value) is None,
                },
            { A::revive(value) };
        usable_snapshot(self.0.load(kind, id, decode))
    }

    fn offer_snapshot(
        &mut self,
        kind: &str,
        id: &Id,
        events_since_snapshot: u64,
        new_position: u64,
        prepared: Option<A>,
    ) -> (r: Result<(), snapshot::inmemory::Error<E>>) {
        let Some(state) = prepared else {
            return Ok(());
        };
        let create = || -> (r: Result<Snapshot<u64, Result<Value, E>>, Infallible>)
            ensures
                r matches Ok(snapshot) && snapshot.position == new_position
                    && match snapshot.data {
                    Ok(value) => state.frozen() == Some(value),
                    Err(cause) => state.frozen() is None && state.unfreezable(cause),
                },
            { Ok(Snapshot { position: new_position, data: state.freeze() }) };
        offer_outcome(self.0.offer_snapshot(kind, id, events_since_snapshot, create))
    }
}

/// Selectors for the events of one aggregate instance, after a position if one is
/// given.
pub open spec fn instance_selectors<Key>(
    kinds: Seq<&'static str>,
    aggregate_kind: Seq<char>,
    aggregate_id: Key,
    after: Option<u64>,
) -> Seq<Selector<Key, u64>> {
    kinds.map_values(
        |kind: &'static str|
            Selector {
                after_position: after,
                ..crate::store::within::<Key, u64>(kind@, aggregate_kind, aggregate_id)
            },
    )
}

/// Copying an integer position changes nothing.
proof fn lemma_placed_exactly<Key>(
    kinds: Seq<&'static str>,
    aggregate_kind: Seq<char>,
    aggregate_id: Key,
    after: Option<u64>,
    selectors: Seq<Selector<Key, u64>>,
)
    requires
        crate::projection::all_placed_after(
            crate::projection::within_of(kinds, aggregate_kind, aggregate_id),
            after,
            selectors,
        ),
    ensures
        selectors == instance_selectors(kinds, aggregate_kind, aggregate_id, after),
{
    let expected = instance_selectors(kinds, aggregate_kind, aggregate_id, after);
    assert forall|i: int| 0 <= i < selectors.len() implies selectors[i] == expected[i] by {
        assert(crate::projection::placed_after(
            crate::projection::within_of::<Key, ()>(kinds, aggregate_kind, aggregate_id)[i],
            after,
            selectors[i],
        ));
    }
}

/// Position of what loading starts from.
pub open spec fn base_position<A>(base: Option<(A, u64)>) -> Option<u64> {
    match base {
        Some((_, position)) => Some(position),
        None => None,
    }
}

/// Whether loading an aggregate from `log` on top of `base` comes to `r`.
pub open spec fn loads_from_log<A, Id: StreamId, Meta: Clone, E>(
    log: Seq<InMemoryEvent<Id, Meta>>,
    base: Option<(A, u64)>,
    id: Id::Key,
    r: Result<Option<LoadedAggregate<A, u64>>, ProjectionError<InMemoryError<E>>>,
) -> bool where A: Aggregate, A::Event: ProjectionEvent<Store<Id, Meta, E>> {
    exists|events: Seq<InMemoryEvent<Id, Meta>>|
        {
            &&& #[trigger] crate::store::inmemory::copies_of(
                crate::store::inmemory::matching(
                    log,
                    instance_selectors(
                        <A::Event as ProjectionEvent<Store<Id, Meta, E>>>::EVENT_KINDS@,
                        A::KIND@,
                        id,
                        base_position(base),
                    ),
                ),
                events,
            )
            &&& match r {
                Ok(loaded) => super::loads::<A, Store<Id, Meta, E>>(base, events, Ok(loaded)),
                Err(ProjectionError::EventDecode(error)) => super::loads::<
                    A,
                    Store<Id, Meta, E>,
                >(base, events, Err(error)),
                Err(ProjectionError::Store(_)) => false,
            }
        }
}

/// Whether asking for the state of an aggregate comes to `r`: there is none while its
/// stream has no events, whatever snapshot is held, and else it is what loading on top
/// of `base` gives.
pub open spec fn gives_state<A, Id: StreamId, Meta: Clone, E>(
    log: Seq<InMemoryEvent<Id, Meta>>,
    base: Option<(A, u64)>,
    id: Id::Key,
    r: Result<Option<A>, ProjectionError<InMemoryError<E>>>,
) -> bool where A: Aggregate, A::Event: ProjectionEvent<Store<Id, Meta, E>> {
    if crate::store::inmemory::version_of(log, A::KIND@, id) is None {
        r == Ok::<Option<A>, ProjectionError<InMemoryError<E>>>(None)
    } else {
        exists|loaded: Result<Option<LoadedAggregate<A, u64>>, ProjectionError<InMemoryError<E>>>|
            #[trigger] loads_from_log::<A, Id, Meta, E>(log, base, id, loaded) && r == match loaded {
                Ok(Some(loaded)) => Ok(Some(loaded.aggregate)),
                Ok(None) => Ok(None),
                Err(error) => Err(error),
            }
    }
}

/// The snapshot that is offered once `pending` is committed to a log that then has
/// `count` events.
pub open spec fn offered_with<A: Aggregate>(
    pending: Pending<A, u64>,
    count: nat,
    keeps_state: bool,
) -> Snapshot<u64, Option<A>> {
    Snapshot {
        position: (count - 1) as u64,
        data: if keeps_state {
            pending.spec_state()
        } else {
            None
        },
    }
}

/// Whether committing `pending` and then offering a snapshot takes `before` to
/// `after` and comes to `r`.
pub open spec fn persists<A, Id, Meta, E, C, M>(
    before: Repository<Store<Id, Meta, E>, C, M>,
    after: Repository<Store<Id, Meta, E>, C, M>,
    id: Id::Key,
    pending: Pending<A, u64>,
    metadata: Meta,
    r: Result<
        (),
        CommandError<A::Error, C::ConcurrencyError, InMemoryError<E>, M::SnapshotError>,
    >,
) -> bool where
    A: Aggregate,
    A::Event: EncodeEvent<E>,
    Id: StreamId,
    Meta: Clone,
    C: CommitPolicy,
    M: SnapshotPolicy<A, Id>,
 {
    let log = before.store.log();
    let events = crate::store::batch(pending.events);
    let actual = crate::store::inmemory::version_of(log, A::KIND@, id);
    let expected = pending.spec_expected_version();
    if !all_json::<E, A::Event>(events) {
        // Nothing is written where an event cannot be serialised.
        &&& unchanged(before, after)
        &&& r matches Err(CommandError::Store(InMemoryError::Serialization(cause)))
            && first_unencodable::<E, A::Event>(events, cause)
    } else if C::checks_version() && expected != actual {
        // Nor where another writer got in between.
        &&& unchanged(before, after)
        &&& r matches Err(CommandError::Concurrency(conflict)) && conflict == C::conflict(
            expected,
            actual,
        )
    } else {
        &&& crate::store::inmemory::appended(
            log,
            after.store.log(),
            A::KIND@,
            id,
            json_of::<E, A::Event>(events),
            metadata,
        )
        &&& exists|answer: Result<(), M::SnapshotError>|
            {
                &&& #[trigger] M::takes_offer(
                    before.snapshots,
                    after.snapshots,
                    A::KIND@,
                    id,
                    pending.spec_events_since_snapshot() as u64,
                    offered_with::<A>(pending, after.store.log().len(), M::keeps_state()),
                    answer,
                )
                &&& match answer {
                    Ok(()) => r is Ok,
                    Err(error) => r matches Err(CommandError::Snapshot(cause)) && cause == error,
                }
            }
    }
}

/// Whether `after` holds the events and the snapshots that `before` holds.
pub open spec fn unchanged<Id, Meta, E, C, M>(
    before: Repository<Store<Id, Meta, E>, C, M>,
    after: Repository<Store<Id, Meta, E>, C, M>,
) -> bool where Id: StreamId, Meta: Clone, C: ConcurrencyStrategy {
    after.store.log() == before.store.log() && after.snapshots == before.snapshots
}

/// Whether carrying out `answer`, which was given on `base`, takes `before` to
/// `after` and comes to `r`.
pub open spec fn carries_out<A, Id, Meta, E, C, M>(
    before: Repository<Store<Id, Meta, E>, C, M>,
    after: Repository<Store<Id, Meta, E>, C, M>,
    id: Id::Key,
    base: Option<LoadedAggregate<A, u64>>,
    answer: Result<Option<NonEmpty<A::Event>>, A::Error>,
    metadata: Meta,
    r: Result<
        (),
        CommandError<A::Error, C::ConcurrencyError, InMemoryError<E>, M::SnapshotError>,
    >,
) -> bool where
    A: Aggregate,
    A::Event: EncodeEvent<E>,
    Id: StreamId,
    Meta: Clone,
    C: CommitPolicy,
    M: SnapshotPolicy<A, Id>,
 {
    match answer {
        Ok(Some(events)) => persists(
            before,
            after,
            id,
            (Pending { base, events }),
            metadata,
            r,
        ),
        Ok(None) => unchanged(before, after) && r is Ok,
        Err(error) => {
            &&& unchanged(before, after)
            &&& r matches Err(CommandError::Aggregate(cause)) && cause == error
        },
    }
}

/// Whether the events of `answer` find room after `taken` positions.
pub open spec fn fits<T, AE>(taken: nat, answer: Result<Option<NonEmpty<T>>, AE>) -> bool {
    answer matches Ok(Some(events)) ==> taken + crate::store::batch(events).len() <= u64::MAX
}

impl<Id, Meta, E, C, M> Repository<Store<Id, Meta, E>, C, M> where
    Id: StreamId,
    Meta: Clone,
    C: CommitPolicy,
 {
    /// Loads an aggregate, its version, and the number of events replayed.
    ///
    /// Returns `None` if neither a snapshot nor an event exists for the given ID.
    ///
    /// # Errors
    ///
    /// Returns [`ProjectionError::EventDecode`] if an event cannot be decoded.
    pub fn load_aggregate<A>(&self, id: &Id) -> (r: Result<
        Option<LoadedAggregate<A, u64>>,
        ProjectionError<InMemoryError<E>>,
    >) where
        A: Aggregate<Id = Id>,
        A::Event: ProjectionEvent<Store<Id, Meta, E>>,
        M: SnapshotPolicy<A, Id>,

        ensures
            crate::store::inmemory::positioned(self.store.log()),
            loads_from_log::<A, Id, Meta, E>(
                self.store.log(),
                self.snapshots.base(A::KIND@, id.key()),
                id.key(),
                r,
            ),
    {
        let base: Option<(A, u64)> = self.snapshots.load_base(A::KIND, id);
        let after: Option<&u64> = match &base {
            Some((_, position)) => Some(position),
            None => None,
        };
        let filters: Vec<EventFilter<Id, u64>> = aggregate_event_filters::<
            Store<Id, Meta, E>,
            A::Event,
        >(A::KIND, id, after);
        proof {
            lemma_placed_exactly(
                <A::Event as ProjectionEvent<Store<Id, Meta, E>>>::EVENT_KINDS@,
                A::KIND@,
                id.key(),
                base_position(base),
                crate::store::selectors(filters@),
            );
        }
        let events: Vec<InMemoryEvent<Id, Meta>> = self.store.load_events(&filters);
        match finish_load::<A, Store<Id, Meta, E>>(&self.store, base, &events) {
            Ok(loaded) => Ok(loaded),
            Err(error) => Err(ProjectionError::EventDecode(error)),
        }
    }

    /// Commits the events of a decision, and offers a snapshot after it.
    ///
    /// # Errors
    ///
    /// Returns an error if an event cannot be serialised, if the version check
    /// fails, or if a snapshot was to be stored and could not be; in this last case
    /// the events are committed.
    pub fn persist_events<A>(&mut self, id: &Id, pending: Pending<A, u64>, metadata: &Meta) -> (r:
        Result<
        (),
        CommandError<A::Error, C::ConcurrencyError, InMemoryError<E>, M::SnapshotError>,
    >) where A: Aggregate<Id = Id>, A::Event: EncodeEvent<E>, M: SnapshotPolicy<A, Id>,
        requires
            all_json::<E, A::Event>(crate::store::batch(pending.events)) && (C::checks_version()
                ==> pending.spec_expected_version() == crate::store::inmemory::version_of(
                old(self).store.log(),
                A::KIND@,
                id.key(),
            )) ==> old(self).store.log().len() + crate::store::batch(pending.events).len()
                <= u64::MAX,
            pending.spec_events_since_snapshot() <= u64::MAX,
        ensures
            persists(*old(self), *final(self), id.key(), pending, *metadata, r),
            crate::store::inmemory::positioned(old(self).store.log()),
            crate::store::inmemory::positioned(final(self).store.log()),
    {
        let (expected, events, events_since_snapshot, state) = pending.prepare(M::wants_state());
        let encoded: NonEmpty<EncodedEvent<E>> = encode_all(&events);
        let ghost plain = crate::store::batch(events);
        let ghost coded = crate::store::batch(encoded);
        proof {
            lemma_encoded_payloads::<E, A::Event>(plain, coded);
        }
        match C::commit(&mut self.store, A::KIND, id, expected, encoded, metadata) {
            Ok(new_position) => {
                let ghost offered = Snapshot { position: new_position, data: state };
                let answer: Result<(), M::SnapshotError> = self.snapshots.offer_snapshot(
                    A::KIND,
                    id,
                    events_since_snapshot,
                    new_position,
                    state,
                );
                assert(offered == offered_with::<A>(
                    pending,
                    self.store.log().len(),
                    M::keeps_state(),
                ));
                assert(M::takes_offer(
                    old(self).snapshots,
                    self.snapshots,
                    A::KIND@,
                    id.key(),
                    pending.spec_events_since_snapshot() as u64,
                    offered_with::<A>(pending, self.store.log().len(), M::keeps_state()),
                    answer,
                ));
                match answer {
                    Ok(()) => Ok(()),
                    Err(error) => Err(CommandError::Snapshot(error)),
                }
            },
            Err(error) => {
                let ghost failure = error;
                proof {
                    if let CommitPolicyError::Store(InMemoryError::Serialization(cause)) = failure {
                        let index = choose|index: int|
                            crate::store::inmemory::first_failure(coded, index, cause);
                        lemma_first_unencodable::<E, A::Event>(plain, coded, index, cause);
                    }
                }
                Err(commit_failure(error))
            },
        }
    }
}

/// Whether events of a creation always find room after `taken` positions.
pub open spec fn creation_fits<A: HandleCreate<Cmd>, Cmd>(taken: nat, command: &Cmd) -> bool {
    forall|answer: Result<Option<NonEmpty<A::Event>>, A::Error>| #[trigger]
        super::answers_creation::<A, Cmd>(command, answer) ==> fits(taken, answer)
}

/// Whether events that a command brings about always find room after `taken`
/// positions, whatever the state.
pub open spec fn command_fits<A: Handle<Cmd>, Cmd>(taken: nat, command: &Cmd) -> bool {
    forall|aggregate: A, answer: Result<Option<NonEmpty<A::Event>>, A::Error>| #[trigger]
        super::answers_command::<A, Cmd>(&aggregate, command, answer) ==> fits(taken, answer)
}

/// What is loaded is no more than what was committed.
proof fn lemma_matching_len<Id: StreamId, Meta>(
    log: Seq<InMemoryEvent<Id, Meta>>,
    selectors: Seq<Selector<Id::Key, u64>>,
)
    ensures
        crate::store::inmemory::matching(log, selectors).len() <= log.len(),
{
    log.lemma_filter_len(crate::store::inmemory::accepted_by(selectors));
}

/// No more events are replayed than were committed.
proof fn lemma_loaded_len<A, Id: StreamId, Meta: Clone, E>(
    log: Seq<InMemoryEvent<Id, Meta>>,
    base: Option<(A, u64)>,
    id: Id::Key,
    r: Result<Option<LoadedAggregate<A, u64>>, ProjectionError<InMemoryError<E>>>,
) where A: Aggregate, A::Event: ProjectionEvent<Store<Id, Meta, E>>
    requires
        loads_from_log::<A, Id, Meta, E>(log, base, id, r),
    ensures
        r matches Ok(Some(loaded)) ==> loaded.events_since_snapshot <= log.len(),
{
    lemma_matching_len(
        log,
        instance_selectors(
            <A::Event as ProjectionEvent<Store<Id, Meta, E>>>::EVENT_KINDS@,
            A::KIND@,
            id,
            base_position(base),
        ),
    );
}

impl<Id, Meta, E, C, M> Repository<Store<Id, Meta, E>, C, M> where
    Id: StreamId,
    Meta: Clone,
    C: CommitPolicy,
 {
    /// Load an aggregate, using snapshots when configured.
    ///
    /// Returns `None` if no events exist for the given ID (the aggregate has not yet been
    /// created), even where a snapshot is held for it.
    ///
    /// # Errors
    ///
    /// Returns [`ProjectionError::EventDecode`] if an event cannot be decoded.
    pub fn load<A>(&self, id: &Id) -> (r: Result<
        Option<A>,
        ProjectionError<InMemoryError<E>>,
    >) where
        A: Aggregate<Id = Id>,
        A::Event: ProjectionEvent<Store<Id, Meta, E>>,
        M: SnapshotPolicy<A, Id>,

        ensures
            gives_state::<A, Id, Meta, E>(
                self.store.log(),
                self.snapshots.base(A::KIND@, id.key()),
                id.key(),
                r,
            ),
            crate::store::inmemory::positioned(self.store.log()),
    {
        if self.store.stream_version(A::KIND, id).is_none() {
            return Ok(None);
        }
        match self.load_aggregate::<A>(id) {
            Ok(Some(loaded)) => Ok(Some(loaded.aggregate)),
            Ok(None) => Ok(None),
            Err(error) => Err(error),
        }
    }

    /// Execute a creation command, initialising a new aggregate stream.
    ///
    /// # Errors
    ///
    /// Returns [`LifecycleError::AggregateAlreadyExists`](super::LifecycleError) if
    /// the stream already exists, [`CommandError::Aggregate`] if the command is
    /// rejected, and otherwise as [`persist_events`](Self::persist_events).
    pub fn create<A, Cmd>(&mut self, id: &Id, command: &Cmd, metadata: &Meta) -> (r: Result<
        (),
        CommandError<A::Error, C::ConcurrencyError, InMemoryError<E>, M::SnapshotError>,
    >) where
        A: Aggregate<Id = Id> + HandleCreate<Cmd>,
        A::Event: EncodeEvent<E>,
        M: SnapshotPolicy<A, Id>,

        requires
            creation_fits::<A, Cmd>(old(self).store.log().len(), command),
        ensures
            crate::store::inmemory::version_of(old(self).store.log(), A::KIND@, id.key()) is Some
                ==> unchanged(*old(self), *final(self)) && (r matches Err(CommandError::Lifecycle(error))
                && error == super::LifecycleError::AggregateAlreadyExists),
            crate::store::inmemory::version_of(old(self).store.log(), A::KIND@, id.key()) is None
                ==> exists|answer: Result<Option<NonEmpty<A::Event>>, A::Error>| #[trigger]
                super::answers_creation::<A, Cmd>(command, answer) && carries_out::<
                    A,
                    Id,
                    Meta,
                    E,
                    C,
                    M,
                >(*old(self), *final(self), id.key(), None, answer, *metadata, r),
    {
        let version: Option<u64> = self.store.stream_version(A::KIND, id);
        let decision: Result<
            Option<Pending<A, u64>>,
            CommandError<A::Error, C::ConcurrencyError, InMemoryError<E>, M::SnapshotError>,
        > = decide_create::<A, Cmd, u64, _, _, _>(Ok(version), command);
        let ghost answer = choose|answer: Result<Option<NonEmpty<A::Event>>, A::Error>| #[trigger]
            super::answers_creation::<A, Cmd>(command, answer) && decision == super::pends::<
                A,
                u64,
                C::ConcurrencyError,
                InMemoryError<E>,
                M::SnapshotError,
            >(None, answer);
        match decision {
            Ok(Some(pending)) => {
                assert(fits(self.store.log().len(), answer));
                self.persist_events(id, pending, metadata)
            },
            Ok(None) => Ok(()),
            Err(error) => Err(error),
        }
    }

    /// Execute a command against an existing aggregate stream.
    ///
    /// # Errors
    ///
    /// Returns [`LifecycleError::AggregateNotFound`](super::LifecycleError) if the
    /// stream does not yet exist, [`CommandError::Projection`] if it cannot be
    /// rebuilt, [`CommandError::Aggregate`] if the command is rejected, and otherwise
    /// as [`persist_events`](Self::persist_events).
    pub fn update<A, Cmd>(&mut self, id: &Id, command: &Cmd, metadata: &Meta) -> (r: Result<
        (),
        CommandError<A::Error, C::ConcurrencyError, InMemoryError<E>, M::SnapshotError>,
    >) where
        A: Aggregate<Id = Id> + Handle<Cmd>,
        A::Event: ProjectionEvent<Store<Id, Meta, E>> + EncodeEvent<E>,
        M: SnapshotPolicy<A, Id>,

        requires
            command_fits::<A, Cmd>(old(self).store.log().len(), command),
        ensures
            exists|
                loaded: Result<
                    Option<LoadedAggregate<A, u64>>,
                    ProjectionError<InMemoryError<E>>,
                >,
            |
                #[trigger] loads_from_log::<A, Id, Meta, E>(
                    old(self).store.log(),
                    old(self).snapshots.base(A::KIND@, id.key()),
                    id.key(),
                    loaded,
                ) && updates::<A, Cmd, Id, Meta, E, C, M>(
                    *old(self),
                    *final(self),
                    id.key(),
                    loaded,
                    command,
                    *metadata,
                    r,
                ),
            crate::store::inmemory::positioned(old(self).store.log()),
    {
        let loaded: Result<
            Option<LoadedAggregate<A, u64>>,
            ProjectionError<InMemoryError<E>>,
        > = self.load_aggregate::<A>(id);
        let ghost seen = loaded;
        proof {
            lemma_loaded_len::<A, Id, Meta, E>(
                self.store.log(),
                self.snapshots.base(A::KIND@, id.key()),
                id.key(),
                loaded,
            );
        }
        let decision: Result<
            Option<Pending<A, u64>>,
            CommandError<A::Error, C::ConcurrencyError, InMemoryError<E>, M::SnapshotError>,
        > = decide_update::<A, Cmd, u64, _, _, _>(loaded, command);
        let ghost base = seen->Ok_0->0;
        let ghost answer = choose|answer: Result<Option<NonEmpty<A::Event>>, A::Error>| #[trigger]
            super::answers_command::<A, Cmd>(&base.aggregate, command, answer) && decision
                == super::pends::<
                A,
                u64,
                C::ConcurrencyError,
                InMemoryError<E>,
                M::SnapshotError,
            >(Some(base), answer);
        match decision {
            Ok(Some(pending)) => {
                assert(fits(self.store.log().len(), answer));
                self.persist_events(id, pending, metadata)
            },
            Ok(None) => Ok(()),
            Err(error) => Err(error),
        }
    }
}

/// Whether a command for an existing stream, of which `loaded` was loaded, takes
/// `before` to `after` and comes to `r`.
pub open spec fn updates<A, Cmd, Id, Meta, E, C, M>(
    before: Repository<Store<Id, Meta, E>, C, M>,
    after: Repository<Store<Id, Meta, E>, C, M>,
    id: Id::Key,
    loaded: Result<Option<LoadedAggregate<A, u64>>, ProjectionError<InMemoryError<E>>>,
    command: &Cmd,
    metadata: Meta,
    r: Result<
        (),
        CommandError<A::Error, C::ConcurrencyError, InMemoryError<E>, M::SnapshotError>,
    >,
) -> bool where
    A: Aggregate + Handle<Cmd>,
    A::Event: EncodeEvent<E>,
    Id: StreamId,
    Meta: Clone,
    C: CommitPolicy,
    M: SnapshotPolicy<A, Id>,
 {
    match loaded {
        Err(error) => {
            &&& unchanged(before, after)
            &&& r matches Err(CommandError::Projection(cause)) && cause == error
        },
        Ok(None) => {
            &&& unchanged(before, after)
            &&& r matches Err(CommandError::Lifecycle(error)) && error
                == super::LifecycleError::AggregateNotFound
        },
        Ok(Some(base)) => exists|answer: Result<Option<NonEmpty<A::Event>>, A::Error>| #[trigger]
            super::answers_command::<A, Cmd>(&base.aggregate, command, answer) && carries_out::<
                A,
                Id,
                Meta,
                E,
                C,
                M,
            >(before, after, id, Some(base), answer, metadata, r),
    }
}

/// Whether a command for a stream that may or may not exist, of which `loaded` was
/// loaded, takes `before` to `after` and comes to `r`.
pub open spec fn upserts<A, Cmd, Id, Meta, E, C, M>(
    before: Repository<Store<Id, Meta, E>, C, M>,
    after: Repository<Store<Id, Meta, E>, C, M>,
    id: Id::Key,
    loaded: Result<Option<LoadedAggregate<A, u64>>, ProjectionError<InMemoryError<E>>>,
    command: &Cmd,
    metadata: Meta,
    r: Result<
        (),
        CommandError<A::Error, C::ConcurrencyError, InMemoryError<E>, M::SnapshotError>,
    >,
) -> bool where
    A: Aggregate + Handle<Cmd> + HandleCreate<Cmd>,
    A::Event: EncodeEvent<E>,
    Id: StreamId,
    Meta: Clone,
    C: CommitPolicy,
    M: SnapshotPolicy<A, Id>,
 {
    match loaded {
        Ok(None) => exists|answer: Result<Option<NonEmpty<A::Event>>, A::Error>| #[trigger]
            super::answers_creation::<A, Cmd>(command, answer) && carries_out::<
                A,
                Id,
                Meta,
                E,
                C,
                M,
            >(before, after, id, None, answer, metadata, r),
        _ => updates::<A, Cmd, Id, Meta, E, C, M>(
            before,
            after,
            id,
            loaded,
            command,
            metadata,
            r,
        ),
    }
}

impl<Id, Meta, E, C, M> Repository<Store<Id, Meta, E>, C, M> where
    Id: StreamId,
    Meta: Clone,
    C: CommitPolicy,
 {
    /// Execute a command that may create or update an aggregate stream.
    ///
    /// If the stream already exists, the command is dispatched via [`Handle`]. If it
    /// does not yet exist, it is dispatched via [`HandleCreate`].
    ///
    /// # Errors
    ///
    /// Returns [`CommandError::Projection`] if the stream cannot be rebuilt,
    /// [`CommandError::Aggregate`] if the command is rejected, and otherwise as
    /// [`persist_events`](Self::persist_events).
    pub fn upsert<A, Cmd>(&mut self, id: &Id, command: &Cmd, metadata: &Meta) -> (r: Result<
        (),
        CommandError<A::Error, C::ConcurrencyError, InMemoryError<E>, M::SnapshotError>,
    >) where
        A: Aggregate<Id = Id> + Handle<Cmd> + HandleCreate<Cmd>,
        A::Event: ProjectionEvent<Store<Id, Meta, E>> + EncodeEvent<E>,
        M: SnapshotPolicy<A, Id>,

        requires
            command_fits::<A, Cmd>(old(self).store.log().len(), command),
            creation_fits::<A, Cmd>(old(self).store.log().len(), command),
        ensures
            exists|
                loaded: Result<
                    Option<LoadedAggregate<A, u64>>,
                    ProjectionError<InMemoryError<E>>,
                >,
            |
                #[trigger] loads_from_log::<A, Id, Meta, E>(
                    old(self).store.log(),
                    old(self).snapshots.base(A::KIND@, id.key()),
                    id.key(),
                    loaded,
                ) && upserts::<A, Cmd, Id, Meta, E, C, M>(
                    *old(self),
                    *final(self),
                    id.key(),
                    loaded,
                    command,
                    *metadata,
                    r,
                ),
            crate::store::inmemory::positioned(old(self).store.log()),
    {
        let loaded: Result<
            Option<LoadedAggregate<A, u64>>,
            ProjectionError<InMemoryError<E>>,
        > = self.load_aggregate::<A>(id);
        let ghost seen = loaded;
        proof {
            lemma_loaded_len::<A, Id, Meta, E>(
                self.store.log(),
                self.snapshots.base(A::KIND@, id.key()),
                id.key(),
                loaded,
            );
        }
        let decision: Result<
            Option<Pending<A, u64>>,
            CommandError<A::Error, C::ConcurrencyError, InMemoryError<E>, M::SnapshotError>,
        > = decide_upsert::<A, Cmd, u64, _, _, _>(loaded, command);
        let ghost answer;
        proof {
            match seen {
                Ok(Some(base)) => {
                    answer = choose|answer: Result<Option<NonEmpty<A::Event>>, A::Error>|
                        #[trigger] super::answers_command::<A, Cmd>(
                            &base.aggregate,
                            command,
                            answer,
                        ) && decision == super::pends::<
                            A,
                            u64,
                            C::ConcurrencyError,
                            InMemoryError<E>,
                            M::SnapshotError,
                        >(Some(base), answer);
                },
                _ => {
                    answer = choose|answer: Result<Option<NonEmpty<A::Event>>, A::Error>|
                        #[trigger] super::answers_creation::<A, Cmd>(command, answer) && decision
                            == super::pends::<
                            A,
                            u64,
                            C::ConcurrencyError,
                            InMemoryError<E>,
                            M::SnapshotError,
                        >(None, answer);
                },
            }
        }
        match decision {
            Ok(Some(pending)) => {
                assert(fits(self.store.log().len(), answer));
                self.persist_events(id, pending, metadata)
            },
            Ok(None) => Ok(()),
            Err(error) => Err(error),
        }
    }
}

/// Whether replaying what `filters` select from `log`, after a position if one is
/// given, into `start` comes to `r`: the projection after all of it, or why the first
/// event that its handler refuses was refused.
pub open spec fn projection_built<P, Id, Meta, E>(
    log: Seq<InMemoryEvent<Id, Meta>>,
    filters: Filters<Store<Id, Meta, E>, P, P::Handler>,
    start: P,
    after: Option<u64>,
    r: Result<P, ProjectionError<InMemoryError<E>>>,
) -> bool where
    P: ProjectionFilters<Store<Id, Meta, E>>,
    Id: StreamId,
    Meta: Clone,
 {
    exists|events: Seq<InMemoryEvent<Id, Meta>>|
        {
            &&& #[trigger] crate::store::inmemory::copies_of(
                crate::store::inmemory::matching(
                    log,
                    positioned_selectors(crate::store::selectors(filters.specs@), after),
                ),
                events,
            )
            &&& match r {
                Ok(projection) => super::projects_all::<P, Store<Id, Meta, E>, P::Handler>(
                    filters.handlers,
                    start,
                    events,
                    projection,
                ),
                Err(ProjectionError::EventDecode(error)) => exists|i: int, reached: P|
                    {
                        &&& 0 <= i < events.len()
                        &&& #[trigger] super::projects_all::<P, Store<Id, Meta, E>, P::Handler>(
                            filters.handlers,
                            start,
                            events.take(i),
                            reached,
                        )
                        &&& super::step_fails::<P, Store<Id, Meta, E>, P::Handler>(
                            filters.handlers,
                            events[i],
                            error,
                        )
                    },
                Err(ProjectionError::Store(_)) => false,
            }
        }
}

/// Where replaying a projection starts: at the snapshot, if there is one that can
/// be read, and else at a fresh instance.
pub open spec fn projection_start<P: Projection>(
    base: Option<(P, u64)>,
    instance_id: P::InstanceId,
) -> P {
    match base {
        Some((projection, _)) => projection,
        None => P::initial(instance_id),
    }
}

/// Whether loading a projection from `base`, or from a fresh instance, comes to `r`.
pub open spec fn loads_projection<P, Id, Meta, E>(
    log: Seq<InMemoryEvent<Id, Meta>>,
    instance_id: P::InstanceId,
    base: Option<(P, u64)>,
    r: Result<P, ProjectionError<InMemoryError<E>>>,
) -> bool where
    P: Projection + ProjectionFilters<Store<Id, Meta, E>>,
    Id: StreamId,
    Meta: Clone,
 {
    exists|filters: Filters<Store<Id, Meta, E>, P, P::Handler>| #[trigger]
        call_ensures(
            <P as ProjectionFilters<Store<Id, Meta, E>>>::filters,
            (&instance_id,),
            filters,
        ) && projection_built::<P, Id, Meta, E>(
            log,
            filters,
            projection_start(base, instance_id),
            base_position(base),
            r,
        )
}

/// `specs` as selectors for what comes after a position, if one is given.
pub open spec fn positioned_selectors<Key>(
    specs: Seq<Selector<Key, ()>>,
    after: Option<u64>,
) -> Seq<Selector<Key, u64>> {
    specs.map_values(
        |spec_: Selector<Key, ()>|
            Selector {
                event_kind: spec_.event_kind,
                aggregate_kind: spec_.aggregate_kind,
                aggregate_id: spec_.aggregate_id,
                after_position: after,
            },
    )
}

/// Copying an integer position changes nothing.
pub proof fn lemma_specs_placed_exactly<Key>(
    specs: Seq<Selector<Key, ()>>,
    after: Option<u64>,
    selectors: Seq<Selector<Key, u64>>,
)
    requires
        crate::projection::all_placed_after(specs, after, selectors),
    ensures
        selectors == positioned_selectors(specs, after),
{
    let expected = positioned_selectors(specs, after);
    assert forall|i: int| 0 <= i < selectors.len() implies selectors[i] == expected[i] by {
        assert(crate::projection::placed_after(specs[i], after, selectors[i]));
    }
}

impl<Id, Meta, E, C, M> Repository<Store<Id, Meta, E>, C, M> where
    Id: StreamId,
    Meta: Clone,
    C: CommitPolicy,
 {
    /// Replays what `filters` select, after a position if one is given, into
    /// `start`. Also returns the number of events replayed and the position of the
    /// last.
    ///
    /// # Errors
    ///
    /// Returns [`ProjectionError::EventDecode`] when an event cannot be decoded.
    pub fn project<P>(
        &self,
        filters: Filters<Store<Id, Meta, E>, P, P::Handler>,
        start: P,
        after: Option<&u64>,
    ) -> (r: Result<(P, u64, Option<u64>), ProjectionError<InMemoryError<E>>>) where
        P: ProjectionFilters<Store<Id, Meta, E>>,

        ensures
            projection_built::<P, Id, Meta, E>(
                self.store.log(),
                filters,
                start,
                match after {
                    Some(position) => Some(*position),
                    None => None,
                },
                match r {
                    Ok((projection, _, _)) => Ok(projection),
                    Err(error) => Err(error),
                },
            ),
            r matches Ok((_, count, last)) ==> ({
                let found = crate::store::inmemory::matching(
                    self.store.log(),
                    positioned_selectors(
                        crate::store::selectors(filters.specs@),
                        match after {
                            Some(position) => Some(*position),
                            None => None,
                        },
                    ),
                );
                count == found.len() && last == crate::store::inmemory::newest(found)
            }),
            crate::store::inmemory::positioned(self.store.log()),
    {
        let ghost specs = crate::store::selectors(filters.specs@);
        let ghost bound = match after {
            Some(position) => Some(*position),
            None => None,
        };
        let ghost given = filters.handlers;
        let (event_filters, handlers) = filters.into_event_filters(after);
        proof {
            lemma_specs_placed_exactly(specs, bound, crate::store::selectors(event_filters@));
        }
        let events: Vec<InMemoryEvent<Id, Meta>> = self.store.load_events(&event_filters);
        let count: u64 = events.len() as u64;
        let mut projection: P = start;
        match replay_projection_events::<P, Store<Id, Meta, E>, P::Handler>(
            &mut projection,
            &events,
            &handlers,
            &self.store,
        ) {
            Ok(last) => Ok((projection, count, last)),
            Err(error) => Err(error),
        }
    }

    /// Load a projection by replaying events (one-shot query, no snapshots).
    ///
    /// # Errors
    ///
    /// Returns [`ProjectionError::EventDecode`] when an event cannot be decoded.
    pub fn load_projection<P>(&self, instance_id: &P::InstanceId) -> (r: Result<
        P,
        ProjectionError<InMemoryError<E>>,
    >) where P: Projection + ProjectionFilters<Store<Id, Meta, E>>,
        ensures
            loads_projection::<P, Id, Meta, E>(self.store.log(), *instance_id, None, r),
            crate::store::inmemory::positioned(self.store.log()),
    {
        let filters: Filters<Store<Id, Meta, E>, P, P::Handler> = <P as ProjectionFilters<
            Store<Id, Meta, E>,
        >>::filters(instance_id);
        match self.project(filters, P::init(instance_id), None) {
            Ok((projection, _, _)) => Ok(projection),
            Err(error) => Err(error),
        }
    }
}

/// Whether offering a snapshot of `projection`, built from `found` events, takes
/// `before` to `after`. Nothing is offered where there was nothing to replay.
pub open spec fn offers_projection<P: SnapshotState<F>, Inst: StreamId, Id, Meta, F>(
    before: Snapshots<snapshot::inmemory::Store<Inst, u64, F>>,
    after: Snapshots<snapshot::inmemory::Store<Inst, u64, F>>,
    kind: Seq<char>,
    instance_id: Inst::Key,
    found: Seq<InMemoryEvent<Id, Meta>>,
    projection: P,
) -> bool {
    if found.len() == 0 {
        after == before
    } else {
        exists|answer: Result<(), snapshot::inmemory::Error<F>>| #[trigger]
            <Snapshots<snapshot::inmemory::Store<Inst, u64, F>> as SnapshotPolicy<
                P,
                Inst,
            >>::takes_offer(
                before,
                after,
                kind,
                instance_id,
                found.len() as u64,
                (Snapshot { position: found.last().position, data: Some(projection) }),
                answer,
            )
    }
}

impl<Id, Meta, E, C, Inst, F> Repository<
    Store<Id, Meta, E>,
    C,
    Snapshots<snapshot::inmemory::Store<Inst, u64, F>>,
> where Id: StreamId, Meta: Clone, C: CommitPolicy, Inst: StreamId {
    /// Load a projection with snapshot support.
    ///
    /// Loads the most recent snapshot (if available), replays events from that
    /// position, and offers a new snapshot after loading. An offer that fails does
    /// not fail the load.
    ///
    /// # Errors
    ///
    /// Returns [`ProjectionError::EventDecode`] when an event cannot be decoded.
    pub fn load_projection_with_snapshot<P>(&mut self, instance_id: &Inst) -> (r: Result<
        P,
        ProjectionError<InMemoryError<E>>,
    >) where
        P: Projection + Subscribable<InstanceId = Inst> + ProjectionFilters<Store<Id, Meta, E>>
            + SnapshotState<F>,

        ensures
            final(self).store == old(self).store,
            ({
                let base: Option<(P, u64)> = old(self).snapshots.base(
                    P::KIND@,
                    instance_id.key(),
                );
                &&& loads_projection::<P, Id, Meta, E>(
                    old(self).store.log(),
                    *instance_id,
                    base,
                    r,
                )
                &&& match r {
                    Ok(projection) => offers_projection::<P, Inst, Id, Meta, F>(
                        old(self).snapshots,
                        final(self).snapshots,
                        P::KIND@,
                        instance_id.key(),
                        crate::store::inmemory::matching(
                            old(self).store.log(),
                            positioned_selectors(
                                <P as ProjectionFilters<Store<Id, Meta, E>>>::selected(
                                    *instance_id,
                                ),
                                base_position(base),
                            ),
                        ),
                        projection,
                    ),
                    Err(_) => final(self).snapshots == old(self).snapshots,
                }
            }),
            crate::store::inmemory::positioned(old(self).store.log()),
    {
        let base: Option<(P, u64)> = self.snapshots.load_base(P::KIND, instance_id);
        let ghost given = base;
        let (start, position): (P, Option<u64>) = match base {
            Some((projection, position)) => (projection, Some(position)),
            None => (P::init(instance_id), None),
        };
        let filters: Filters<Store<Id, Meta, E>, P, P::Handler> = <P as ProjectionFilters<
            Store<Id, Meta, E>,
        >>::filters(instance_id);
        let ghost found = crate::store::inmemory::matching(
            self.store.log(),
            positioned_selectors(crate::store::selectors(filters.specs@), position),
        );
        let built: Result<(P, u64, Option<u64>), ProjectionError<InMemoryError<E>>> = self.project(
            filters,
            start,
            position.as_ref(),
        );
        let (projection, count, last): (P, u64, Option<u64>) = match built {
            Ok(built) => built,
            Err(error) => {
                return Err(error);
            },
        };
        if count > 0 {
            if let Some(position) = last {
                let state: &P = &projection;
                let create = || -> (r: Result<Snapshot<u64, Result<Value, F>>, Infallible>)
                    ensures
                        r matches Ok(snapshot) && snapshot.position == position
                            && match snapshot.data {
                            Ok(value) => state.frozen() == Some(value),
                            Err(cause) => state.frozen() is None && state.unfreezable(cause),
                        },
                    { Ok(Snapshot { position, data: state.freeze() }) };
                let answer: Result<(), snapshot::inmemory::Error<F>> = offer_outcome(
                    self.snapshots.0.offer_snapshot(P::KIND, instance_id, count, create),
                );
                assert(<Snapshots<
                    snapshot::inmemory::Store<Inst, u64, F>,
                > as SnapshotPolicy<P, Inst>>::takes_offer(
                    old(self).snapshots,
                    self.snapshots,
                    P::KIND@,
                    instance_id.key(),
                    found.len() as u64,
                    (Snapshot { position: found.last().position, data: Some(projection) }),
                    answer,
                ));
            }
        }
        Ok(projection)
    }
}

/// Whether one attempt at a command for an existing stream can take `before` to
/// `after` and come to `r`.
pub open spec fn attempted<A, Cmd, Id, Meta, E, C, M>(
    before: Repository<Store<Id, Meta, E>, C, M>,
    after: Repository<Store<Id, Meta, E>, C, M>,
    id: Id::Key,
    command: &Cmd,
    metadata: Meta,
    r: Result<
        (),
        CommandError<A::Error, C::ConcurrencyError, InMemoryError<E>, M::SnapshotError>,
    >,
) -> bool where
    A: Aggregate + Handle<Cmd>,
    A::Event: ProjectionEvent<Store<Id, Meta, E>> + EncodeEvent<E>,
    Id: StreamId,
    Meta: Clone,
    C: CommitPolicy,
    M: SnapshotPolicy<A, Id>,
 {
    exists|loaded: Result<Option<LoadedAggregate<A, u64>>, ProjectionError<InMemoryError<E>>>|
        #[trigger] loads_from_log::<A, Id, Meta, E>(
            before.store.log(),
            before.snapshots.base(A::KIND@, id),
            id,
            loaded,
        ) && updates::<A, Cmd, Id, Meta, E, C, M>(
            before,
            after,
            id,
            loaded,
            command,
            metadata,
            r,
        )
}

impl<Id, Meta, E, M> Repository<Store<Id, Meta, E>, Optimistic, M> where
    Id: StreamId,
    Meta: Clone,
 {
    /// Execute a command against an existing aggregate stream, retrying
    /// automatically on concurrency conflicts.
    ///
    /// Returns the number of attempts made (1-based). An attempt that conflicts
    /// changes nothing, so what is left behind is what one attempt leaves behind.
    ///
    /// # Errors
    ///
    /// Returns the last error if all retries are exhausted, or a non-concurrency
    /// error on the first such failure.
    pub fn update_with_retry<A, Cmd>(
        &mut self,
        id: &Id,
        command: &Cmd,
        metadata: &Meta,
        max_retries: usize,
    ) -> (r: Result<
        usize,
        CommandError<A::Error, ConcurrencyConflict<u64>, InMemoryError<E>, M::SnapshotError>,
    >) where
        A: Aggregate<Id = Id> + Handle<Cmd>,
        A::Event: ProjectionEvent<Store<Id, Meta, E>> + EncodeEvent<E>,
        M: SnapshotPolicy<A, Id>,

        requires
            command_fits::<A, Cmd>(old(self).store.log().len(), command),
            max_retries < usize::MAX,
        ensures
            exists|
                outcomes: Seq<
                    Result<
                        (),
                        CommandError<
                            A::Error,
                            ConcurrencyConflict<u64>,
                            InMemoryError<E>,
                            M::SnapshotError,
                        >,
                    >,
                >,
            |
                {
                    &&& #[trigger] super::attempts_made(outcomes, max_retries)
                    &&& r == super::retry_result(outcomes)
                    &&& forall|i: int|
                        0 <= i < outcomes.len() - 1 ==> attempted::<
                            A,
                            Cmd,
                            Id,
                            Meta,
                            E,
                            Optimistic,
                            M,
                        >(
                            *old(self),
                            *old(self),
                            id.key(),
                            command,
                            *metadata,
                            #[trigger] outcomes[i],
                        )
                    &&& attempted::<A, Cmd, Id, Meta, E, Optimistic, M>(
                        *old(self),
                        *final(self),
                        id.key(),
                        command,
                        *metadata,
                        outcomes.last(),
                    )
                },
    {
        let ghost mut outcomes = Seq::<
            Result<
                (),
                CommandError<A::Error, ConcurrencyConflict<u64>, InMemoryError<E>, M::SnapshotError>,
            >,
        >::empty();
        let mut attempt: usize = 1;
        loop
            invariant
                1 <= attempt <= max_retries + 1,
                max_retries < usize::MAX,
                self.store.log() == old(self).store.log(),
                self.snapshots == old(self).snapshots,
                command_fits::<A, Cmd>(old(self).store.log().len(), command),
                outcomes.len() == attempt - 1,
                forall|i: int|
                    0 <= i < outcomes.len() ==> {
                        &&& (#[trigger] outcomes[i]) matches Err(CommandError::Concurrency(_))
                        &&& attempted::<A, Cmd, Id, Meta, E, Optimistic, M>(
                            *old(self),
                            *old(self),
                            id.key(),
                            command,
                            *metadata,
                            outcomes[i],
                        )
                    },
            decreases max_retries + 1 - attempt,
        {
            let ghost before = *self;
            let outcome: Result<
                (),
                CommandError<A::Error, ConcurrencyConflict<u64>, InMemoryError<E>, M::SnapshotError>,
            > = self.update::<A, Cmd>(id, command, metadata);
            proof {
                let loaded = choose|
                    loaded: Result<
                        Option<LoadedAggregate<A, u64>>,
                        ProjectionError<InMemoryError<E>>,
                    >,
                |
                    #[trigger] loads_from_log::<A, Id, Meta, E>(
                        before.store.log(),
                        before.snapshots.base(A::KIND@, id.key()),
                        id.key(),
                        loaded,
                    ) && updates::<A, Cmd, Id, Meta, E, Optimistic, M>(
                        before,
                        *self,
                        id.key(),
                        loaded,
                        command,
                        *metadata,
                        outcome,
                    );
                assert(loads_from_log::<A, Id, Meta, E>(
                    old(self).store.log(),
                    old(self).snapshots.base(A::KIND@, id.key()),
                    id.key(),
                    loaded,
                ));
                assert(attempted::<A, Cmd, Id, Meta, E, Optimistic, M>(
                    *old(self),
                    *self,
                    id.key(),
                    command,
                    *metadata,
                    outcome,
                ));
                if outcome matches Err(CommandError::Concurrency(_)) {
                    assert(attempted::<A, Cmd, Id, Meta, E, Optimistic, M>(
                        *old(self),
                        *old(self),
                        id.key(),
                        command,
                        *metadata,
                        outcome,
                    ));
                }
                outcomes = outcomes.push(outcome);
            }
            match after_attempt(attempt, max_retries, outcome) {
                Attempt::Done(r) => {
                    assert(super::attempts_made(outcomes, max_retries));
                    return r;
                },
                Attempt::Again => {
                    attempt = attempt + 1;
                },
            }
        }
    }
}

} // verus!
