//! What the calls of the in-memory store do, from the log before the call to the log after
//! it.

use nonempty::NonEmpty;
use vstd::prelude::*;

use super::{
    inmemory::{EncodedEvent, InMemoryError, InMemoryEvent, Store},
    records::named_by,
    CommitError, Committed, EventFilter, OptimisticCommitError, StreamId,
};
use crate::subscription::Delivery;

verus! {

/// A load returns what its filters ask for, and nothing else: every event that comes out is
/// named by some filter, and every committed event that some filter names comes out, once,
/// as it was committed, in the order of commits.
pub proof fn load_returns_what_was_asked_for<Id: StreamId, M: Clone, E>(
    store: &Store<Id, M, E>,
    filters: &[EventFilter<Id, u64>],
    r: Vec<InMemoryEvent<Id, M>>,
)
    requires
        call_ensures(Store::<Id, M, E>::load_events, (store, filters), r),
    ensures
        forall|i: int|
            0 <= i < r@.len() ==> {
                let committed = store.log()[r@[i].position as int];
                &&& named_by(filters@, #[trigger] r@[i])
                &&& r@[i].position < store.log().len()
                &&& r@[i].kind@ == committed.kind@
                &&& r@[i].aggregate_kind@ == committed.aggregate_kind@
                &&& r@[i].aggregate_id.key() == committed.aggregate_id.key()
                &&& r@[i].data == committed.data
                &&& cloned(committed.metadata, r@[i].metadata)
            },
        forall|p: int|
            0 <= p < store.log().len() && named_by(filters@, #[trigger] store.log()[p]) ==> exists|
                i: int,
            |
                0 <= i < r@.len() && (#[trigger] r@[i]).position == p,
        forall|i: int, j: int|
            0 <= i < j < r@.len() ==> (#[trigger] r@[i]).position < (#[trigger] r@[j]).position,
{
    super::records::loads_are_what_was_asked_for(store.log(), filters@, r@);
}

/// Every event that a load returns has exactly the kind that one of the filters names; and
/// where the filters name kinds alone, the load returns precisely the committed events whose
/// kind is one of those.
pub proof fn load_by_kind_is_exact<Id: StreamId, M: Clone, E>(
    store: &Store<Id, M, E>,
    filters: &[EventFilter<Id, u64>],
    r: Vec<InMemoryEvent<Id, M>>,
)
    requires
        call_ensures(Store::<Id, M, E>::load_events, (store, filters), r),
    ensures
        forall|i: int|
            0 <= i < r@.len() ==> has_kind_of_one(filters@, (#[trigger] r@[i]).kind@),
        (forall|j: int|
            0 <= j < filters@.len() ==> {
                &&& (#[trigger] filters@[j]).aggregate_kind is None
                &&& filters@[j].aggregate_id is None
                &&& filters@[j].after_position is None
            }) ==> forall|p: int|
            0 <= p < store.log().len() ==> (has_kind_of_one(
                filters@,
                (#[trigger] store.log()[p]).kind@,
            ) <==> has_position(r@, p)),
{
    let log = store.log();
    assert forall|i: int| 0 <= i < r@.len() implies has_kind_of_one(
        filters@,
        (#[trigger] r@[i]).kind@,
    ) by {
        super::records::loads_have_the_kinds_asked_for(log, filters@, r@, i);
    }
    if forall|j: int|
        0 <= j < filters@.len() ==> {
            &&& (#[trigger] filters@[j]).aggregate_kind is None
            &&& filters@[j].aggregate_id is None
            &&& filters@[j].after_position is None
        } {
        assert forall|p: int| 0 <= p < log.len() implies (has_kind_of_one(
            filters@,
            (#[trigger] log[p]).kind@,
        ) <==> has_position(r@, p)) by {
            super::records::kinds_are_selected_exactly(log, filters@, r@, p);
        }
    }
}

/// Whether one of `filters` names this kind.
pub open spec fn has_kind_of_one<Id>(filters: Seq<EventFilter<Id, u64>>, kind: Seq<char>) -> bool {
    exists|j: int| 0 <= j < filters.len() && (#[trigger] filters[j]).event_kind@ == kind
}

/// Whether one of `events` has this position.
pub open spec fn has_position<Id, M>(events: Seq<InMemoryEvent<Id, M>>, position: int) -> bool {
    exists|i: int| 0 <= i < events.len() && (#[trigger] events[i]).position == position
}

/// Whether `after` is `before` with the events of a batch behind it: one record for each, in
/// order, with its kind and payload, in the stream that is named, with the metadata that is
/// given, at the position of its place.
pub open spec fn grown_by<Id: StreamId, M: Clone, E>(
    before: Seq<InMemoryEvent<Id, M>>,
    after: Seq<InMemoryEvent<Id, M>>,
    kind: Seq<char>,
    id: Id::Key,
    events: NonEmpty<EncodedEvent<E>>,
    metadata: M,
) -> bool {
    &&& after.len() == before.len() + 1 + events.tail@.len()
    &&& forall|p: int| 0 <= p < before.len() ==> #[trigger] after[p] == before[p]
    &&& forall|p: int|
        before.len() <= p < after.len() ==> {
            let given = if p == before.len() {
                events.head
            } else {
                events.tail@[p - before.len() - 1]
            };
            &&& (#[trigger] after[p]).kind@ == given.kind@
            &&& given.data == Ok::<_, E>(after[p].data)
            &&& after[p].aggregate_kind@ == kind
            &&& after[p].aggregate_id.key() == id
            &&& cloned(metadata, after[p].metadata)
            &&& after[p].position == p
        }
}

/// Whether every event of a batch was encoded.
pub open spec fn encoded_throughout<E>(events: NonEmpty<EncodedEvent<E>>) -> bool {
    &&& events.head.data is Ok
    &&& forall|i: int| 0 <= i < events.tail@.len() ==> (#[trigger] events.tail@[i]).data is Ok
}

/// Whether the event at `index` is the first of a batch that was not encoded, because of
/// `cause`.
pub open spec fn first_not_encoded<E>(
    events: NonEmpty<EncodedEvent<E>>,
    index: int,
    cause: E,
) -> bool {
    &&& 0 <= index <= events.tail@.len()
    &&& index == 0 ==> events.head.data is Err && events.head.data->Err_0 == cause
    &&& index > 0 ==> {
        &&& events.head.data is Ok
        &&& events.tail@[index - 1].data is Err
        &&& events.tail@[index - 1].data->Err_0 == cause
        &&& forall|i: int| 0 <= i < index - 1 ==> (#[trigger] events.tail@[i]).data is Ok
    }
}

/// A commit writes all events of its batch where every one was encoded, and tells the
/// position of the last; it writes nothing where one was not, and names the first.
pub proof fn commit_writes_all_or_nothing<Id: StreamId, M: Clone, E>(
    store: &mut Store<Id, M, E>,
    kind: &str,
    id: &Id,
    events: NonEmpty<EncodedEvent<E>>,
    metadata: &M,
    r: Result<Committed<u64>, CommitError<InMemoryError<E>>>,
)
    requires
        call_ensures(Store::<Id, M, E>::commit_events, (store, kind, id, events, metadata), r),
    ensures
        if encoded_throughout(events) {
            &&& r is Ok
            &&& grown_by(
                old(store).log(),
                final(store).log(),
                kind@,
                id.key(),
                events,
                *metadata,
            )
            &&& r->Ok_0.last_position == final(store).log().len() - 1
        } else {
            &&& final(store).log() == old(store).log()
            &&& r is Err
            &&& r->Err_0 is Serialization
            &&& r->Err_0->Serialization_source is Serialization
            &&& first_not_encoded(
                events,
                r->Err_0->Serialization_index as int,
                r->Err_0->Serialization_source->Serialization_0,
            )
        },
{
    match r {
        Ok(_) => {
            super::records::batches_stand_or_fall_together(events, 0, arbitrary());
            super::records::commits_write_what_was_given(
                old(store).log(),
                final(store).log(),
                kind@,
                id.key(),
                events,
                *metadata,
            );
        },
        Err(CommitError::Serialization { index, source: InMemoryError::Serialization(cause) }) => {
            super::records::batches_stand_or_fall_together(events, index as int, cause);
        },
        Err(_) => {},
    }
}

/// Whether a stream of `log` is at `version`: its last event has that position; or it has
/// none, and neither has the stream any event.
pub open spec fn is_at<Id: StreamId, M>(
    log: Seq<InMemoryEvent<Id, M>>,
    kind: Seq<char>,
    id: Id::Key,
    version: Option<u64>,
) -> bool {
    &&& version is Some ==> {
        &&& version->0 < log.len()
        &&& log[version->0 as int].aggregate_kind@ == kind
        &&& log[version->0 as int].aggregate_id.key() == id
    }
    &&& forall|p: int|
        0 <= p < log.len() && (version is Some ==> p > version->0) ==> !((
        #[trigger] log[p]).aggregate_kind@ == kind && log[p].aggregate_id.key() == id)
}

/// A stream is at its version and at no other.
proof fn lemma_is_at_its_version<Id: StreamId, M>(
    log: Seq<InMemoryEvent<Id, M>>,
    kind: Seq<char>,
    id: Id::Key,
    version: Option<u64>,
)
    requires
        super::inmemory::positioned(log),
    ensures
        is_at(log, kind, id, version) <==> version == super::inmemory::version_of(log, kind, id),
{
    super::records::versions_are_last_positions(log, kind, id);
    let actual = super::inmemory::version_of(log, kind, id);
    assert(is_at(log, kind, id, actual));
    if is_at(log, kind, id, version) && version != actual {
        if let Some(v) = version {
            assert(log[v as int].aggregate_kind@ == kind);
        }
        if let Some(a) = actual {
            assert(log[a as int].aggregate_kind@ == kind);
        }
    }
}

/// The version that a store tells is the one that the stream is at.
pub proof fn version_is_that_of_the_last_event<Id: StreamId, M, E>(
    store: &Store<Id, M, E>,
    kind: &str,
    id: &Id,
    r: Option<u64>,
)
    requires
        call_ensures(Store::<Id, M, E>::stream_version, (store, kind, id), r),
    ensures
        is_at(store.log(), kind@, id.key(), r),
{
    lemma_is_at_its_version(store.log(), kind@, id.key(), r);
}

/// An optimistic commit writes all events of its batch where every one was encoded and the
/// stream is at the version that was expected. It writes nothing otherwise: an event that
/// was not encoded is named, and else the conflict tells both the version expected and the
/// one that the stream is at.
pub proof fn optimistic_commit_writes_at_the_expected_version<Id: StreamId, M: Clone, E>(
    store: &mut Store<Id, M, E>,
    kind: &str,
    id: &Id,
    expected: Option<u64>,
    events: NonEmpty<EncodedEvent<E>>,
    metadata: &M,
    r: Result<Committed<u64>, OptimisticCommitError<u64, InMemoryError<E>>>,
)
    requires
        call_ensures(
            Store::<Id, M, E>::commit_events_optimistic,
            (store, kind, id, expected, events, metadata),
            r,
        ),
    ensures
        if !encoded_throughout(events) {
            &&& final(store).log() == old(store).log()
            &&& r is Err
            &&& r->Err_0 is Serialization
            &&& r->Err_0->Serialization_source is Serialization
            &&& first_not_encoded(
                events,
                r->Err_0->Serialization_index as int,
                r->Err_0->Serialization_source->Serialization_0,
            )
        } else if !is_at(old(store).log(), kind@, id.key(), expected) {
            &&& final(store).log() == old(store).log()
            &&& r is Err
            &&& r->Err_0 is Conflict
            &&& r->Err_0->Conflict_0.expected == expected
            &&& is_at(old(store).log(), kind@, id.key(), r->Err_0->Conflict_0.actual)
        } else {
            &&& r is Ok
            &&& grown_by(
                old(store).log(),
                final(store).log(),
                kind@,
                id.key(),
                events,
                *metadata,
            )
            &&& r->Ok_0.last_position == final(store).log().len() - 1
        },
{
    let log = old(store).log();
    lemma_is_at_its_version(log, kind@, id.key(), expected);
    lemma_is_at_its_version(
        log,
        kind@,
        id.key(),
        super::inmemory::version_of(log, kind@, id.key()),
    );
    match r {
        Ok(_) => {
            super::records::batches_stand_or_fall_together(events, 0, arbitrary());
            super::records::commits_write_what_was_given(
                old(store).log(),
                final(store).log(),
                kind@,
                id.key(),
                events,
                *metadata,
            );
        },
        Err(
            OptimisticCommitError::Serialization {
                index,
                source: InMemoryError::Serialization(cause),
            },
        ) => {
            super::records::batches_stand_or_fall_together(events, index as int, cause);
        },
        Err(_) => {
            super::records::batches_stand_or_fall_together(events, 0, arbitrary());
        },
    }
}

/// The latest checkpoint is the position of the last event, and the checkpoint of a position
/// is that position, where an event stands there.
pub proof fn checkpoints_are_told_by_position<Id: StreamId, M, E>(
    store: &Store<Id, M, E>,
    latest: Option<u64>,
    position: u64,
    checkpoint: Option<u64>,
)
    requires
        call_ensures(Store::<Id, M, E>::latest_checkpoint, (store,), latest),
        call_ensures(
            Store::<Id, M, E>::checkpoint_for_position,
            (store, &position),
            checkpoint,
        ),
    ensures
        latest is None <==> store.log().len() == 0,
        latest is Some ==> latest->0 == store.log().len() - 1,
        checkpoint is Some <==> position < store.log().len(),
        checkpoint is Some ==> checkpoint->0 == position,
{
}

/// A drain hands out the matching events past the cursor, each at the checkpoint of its
/// position and as it was committed, in their order; behind them comes the frontier, which is
/// the last position there is. The cursor is then at the last event handed out, or where it
/// was.
pub proof fn drain_hands_out_what_is_new<Id: StreamId, M: Clone, E>(
    store: &Store<Id, M, E>,
    filters: &[EventFilter<Id, u64>],
    cursor: &mut Option<u64>,
    r: Vec<Delivery<Store<Id, M, E>>>,
)
    requires
        call_ensures(Store::<Id, M, E>::drain, (store, filters, cursor), r),
    ensures
        store.log().len() == 0 ==> r@.len() == 0,
        store.log().len() > 0 ==> {
            &&& r@.len() > 0
            &&& r@.last() is Frontier
            &&& r@.last()->Frontier_0 == store.log().len() - 1
        },
        forall|i: int|
            0 <= i < r@.len() - 1 ==> {
                let item = r@[i]->Event_0;
                let committed = store.log()[item.checkpoint as int];
                &&& (#[trigger] r@[i]) is Event
                &&& item.checkpoint == item.event.position
                &&& item.checkpoint < store.log().len()
                &&& (*old(cursor)) is None || (*old(cursor))->0 < item.checkpoint
                &&& item.event.kind@ == committed.kind@
                &&& item.event.aggregate_kind@ == committed.aggregate_kind@
                &&& item.event.aggregate_id.key() == committed.aggregate_id.key()
                &&& item.event.data == committed.data
                &&& cloned(committed.metadata, item.event.metadata)
                &&& named_by(filters@, committed)
            },
        forall|p: int|
            {
                &&& 0 <= p < store.log().len()
                &&& (*old(cursor)) is None || (*old(cursor))->0 < p
                &&& named_by(filters@, #[trigger] store.log()[p])
            } ==> delivered_at(r@, p),
        forall|i: int, j: int|
            0 <= i < j < r@.len() - 1 ==> (#[trigger] r@[i])->Event_0.checkpoint < (
            #[trigger] r@[j])->Event_0.checkpoint,
        r@.len() <= 1 ==> *final(cursor) == *old(cursor),
        r@.len() > 1 ==> *final(cursor) == Some(r@[r@.len() - 2]->Event_0.checkpoint),
{
    let log = store.log();
    let fresh = super::inmemory::unseen(log, crate::store::selectors(filters@), *old(cursor));
    if log.len() == 0 {
        reveal(Seq::filter);
        assert(fresh.len() == 0);
    }
    assert forall|i: int| 0 <= i < r@.len() - 1 implies {
        let item = r@[i]->Event_0;
        let committed = store.log()[item.checkpoint as int];
        &&& (#[trigger] r@[i]) is Event
        &&& item.checkpoint == item.event.position
        &&& item.checkpoint < store.log().len()
        &&& (*old(cursor)) is None || (*old(cursor))->0 < item.checkpoint
        &&& item.event.kind@ == committed.kind@
        &&& item.event.aggregate_kind@ == committed.aggregate_kind@
        &&& item.event.aggregate_id.key() == committed.aggregate_id.key()
        &&& item.event.data == committed.data
        &&& cloned(committed.metadata, item.event.metadata)
        &&& named_by(filters@, committed)
    } by {
        super::records::drains_hand_out_what_is_new::<Id, M, E>(
            log,
            filters@,
            *old(cursor),
            i,
            r@[i],
        );
    }
    super::records::drains_leave_nothing_behind(log, filters@, *old(cursor));
    assert forall|p: int|
        {
            &&& 0 <= p < log.len()
            &&& (*old(cursor)) is None || (*old(cursor))->0 < p
            &&& named_by(filters@, #[trigger] log[p])
        } implies delivered_at(r@, p) by {
        let i = choose|i: int| 0 <= i < fresh.len() && fresh[i] == log[p];
        assert(super::inmemory::delivers(r@[i], fresh[i]));
        assert(log[p].position == p);
    }
    assert forall|i: int, j: int| 0 <= i < j < r@.len() - 1 implies (
    #[trigger] r@[i])->Event_0.checkpoint < (#[trigger] r@[j])->Event_0.checkpoint by {
        assert(super::inmemory::delivers(r@[i], fresh[i]));
        assert(super::inmemory::delivers(r@[j], fresh[j]));
        assert(fresh[i].position < fresh[j].position);
    }
}

/// Whether one of `deliveries` is an event at this checkpoint.
pub open spec fn delivered_at<Id: StreamId, M: Clone, E>(
    deliveries: Seq<Delivery<Store<Id, M, E>>>,
    checkpoint: int,
) -> bool {
    exists|i: int|
        {
            &&& 0 <= i < deliveries.len()
            &&& (#[trigger] deliveries[i]) is Event
            &&& deliveries[i]->Event_0.checkpoint == checkpoint
        }
}

/// Ids tell streams apart as they differ: numbers by value, strings by their characters.
pub proof fn ids_are_told_apart(a: u64, b: u64, one: String, other: String)
    ensures
        a.key() == b.key() <==> a == b,
        one.key() == other.key() <==> one@ == other@,
{
}

} // verus!
