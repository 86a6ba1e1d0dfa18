//! What commands do to the log, and what loads make of it, event by event.

use nonempty::NonEmpty;
use vstd::prelude::*;

use super::{
    inmemory::{CommitPolicy, EncodeEvent, SnapshotPolicy, SnapshotState},
    CommandError, CommitPolicyError, LifecycleError, LoadedAggregate, Pending, Repository,
    Snapshots,
};
use crate::{
    aggregate::{Aggregate, Handle, HandleCreate},
    concurrency::{ConcurrencyConflict, Optimistic, Unchecked},
    event::ProjectionEvent,
    projection::ProjectionError,
    snapshot::{self, inmemory::SnapshotPolicy as Policy, OfferSnapshotError, SnapshotOffer},
    store::{
        inmemory::{InMemoryError, InMemoryEvent, Store},
        CommitError, Committed, OptimisticCommitError, StreamId,
    },
};

verus! {

/// Whether `after` is `before` with `events` behind it: one record for each, in order,
/// with the kind and the JSON of its event, in the stream that is named, with the metadata
/// that is given, at the position of its place.
pub open spec fn written_behind<T, Id, Meta, E>(
    before: Seq<InMemoryEvent<Id, Meta>>,
    after: Seq<InMemoryEvent<Id, Meta>>,
    kind: Seq<char>,
    id: Id::Key,
    events: Seq<T>,
    metadata: Meta,
) -> bool where T: EncodeEvent<E>, Id: StreamId, Meta: Clone {
    &&& after.len() == before.len() + events.len()
    &&& forall|p: int| 0 <= p < before.len() ==> #[trigger] after[p] == before[p]
    &&& forall|p: int|
        before.len() <= p < after.len() ==> {
            let event = events[p - before.len()];
            &&& (#[trigger] after[p]).kind@ == event.spec_kind()
            &&& event.json() == Some(after[p].data)
            &&& after[p].aggregate_kind@ == kind
            &&& after[p].aggregate_id.key() == id
            &&& cloned(metadata, after[p].metadata)
            &&& after[p].position == p
        }
}

/// Whether the events that a handler returned, for a stream that is expected at
/// `expected`, take `before` to `after` and come to `r`. Either all of them are written
/// behind what was there, in the order in which they were returned, or nothing changes:
/// because there are none, because one has no JSON, or because the stream is elsewhere.
pub open spec fn all_or_nothing<A, Id, Meta, E, C, M>(
    before: Repository<Store<Id, Meta, E>, C, M>,
    after: Repository<Store<Id, Meta, E>, C, M>,
    id: Id::Key,
    expected: Option<u64>,
    events: Seq<A::Event>,
    metadata: Meta,
    r: Result<
        (),
        CommandError<A::Error, C::ConcurrencyError, InMemoryError<E>, M::SnapshotError>,
    >,
) -> bool where
    A: Aggregate,
    A::Event: EncodeEvent<E>,
    Id: StreamId,
    Meta: Clone,
    C: CommitPolicy,
    M: SnapshotPolicy<A, Id>,
 {
    let actual = crate::store::inmemory::version_of(before.store.log(), A::KIND@, id);
    if events.len() == 0 {
        r is Ok && after.store.log() == before.store.log() && after.snapshots == before.snapshots
    } else if exists|i: int| 0 <= i < events.len() && (#[trigger] events[i]).json() is None {
        &&& after.store.log() == before.store.log()
        &&& after.snapshots == before.snapshots
        &&& r is Err
        &&& r->Err_0 is Store
        &&& r->Err_0->Store_0 is Serialization
        &&& exists|i: int|
            {
                &&& 0 <= i < events.len()
                &&& forall|j: int| 0 <= j < i ==> (#[trigger] events[j]).json() is Some
                &&& (#[trigger] events[i]).json() is None
                &&& events[i].unencodable(r->Err_0->Store_0->Serialization_0)
            }
    } else if C::checks_version() && expected != actual {
        &&& after.store.log() == before.store.log()
        &&& after.snapshots == before.snapshots
        &&& r is Err
        &&& r->Err_0 is Concurrency
        &&& r->Err_0->Concurrency_0 == C::conflict(expected, actual)
    } else {
        &&& r is Ok || r->Err_0 is Snapshot
        &&& written_behind::<A::Event, Id, Meta, E>(
            before.store.log(),
            after.store.log(),
            A::KIND@,
            id,
            events,
            metadata,
        )
    }
}

/// What is appended for events that all have JSON is those events, one record for each.
pub proof fn lemma_appended_is_written_behind<T, Id, Meta, E>(
    before: Seq<InMemoryEvent<Id, Meta>>,
    after: Seq<InMemoryEvent<Id, Meta>>,
    kind: Seq<char>,
    id: Id::Key,
    events: Seq<T>,
    metadata: Meta,
) where T: EncodeEvent<E>, Id: StreamId, Meta: Clone
    requires
        super::inmemory::all_json::<E, T>(events),
        crate::store::inmemory::appended(
            before,
            after,
            kind,
            id,
            super::inmemory::json_of::<E, T>(events),
            metadata,
        ),
    ensures
        written_behind::<T, Id, Meta, E>(before, after, kind, id, events, metadata),
{
    let staged = super::inmemory::json_of::<E, T>(events);
    assert forall|p: int| 0 <= p < before.len() implies #[trigger] after[p] == before[p] by {
        assert(after.take(before.len() as int)[p] == after[p]);
    }
    assert forall|p: int| before.len() <= p < after.len() implies {
        let event = events[p - before.len()];
        &&& (#[trigger] after[p]).kind@ == event.spec_kind()
        &&& event.json() == Some(after[p].data)
        &&& after[p].aggregate_kind@ == kind
        &&& after[p].aggregate_id.key() == id
        &&& cloned(metadata, after[p].metadata)
        &&& after[p].position == p
    } by {
        let i = p - before.len();
        assert(crate::store::inmemory::recorded(
            after[before.len() + i],
            kind,
            id,
            staged[i],
            metadata,
            before.len() + i,
        ));
        assert(events[i].json() is Some);
    }
}

/// Committing a decision writes all of its events, in order, or nothing.
proof fn lemma_persisting_is_all_or_nothing<A, Id, Meta, E, C, M>(
    before: Repository<Store<Id, Meta, E>, C, M>,
    after: Repository<Store<Id, Meta, E>, C, M>,
    id: Id::Key,
    base: Option<LoadedAggregate<A, u64>>,
    events: NonEmpty<A::Event>,
    metadata: Meta,
    r: Result<
        (),
        CommandError<A::Error, C::ConcurrencyError, InMemoryError<E>, M::SnapshotError>,
    >,
) where
    A: Aggregate,
    A::Event: EncodeEvent<E>,
    Id: StreamId,
    Meta: Clone,
    C: CommitPolicy,
    M: SnapshotPolicy<A, Id>,

    requires
        super::inmemory::persists(before, after, id, (Pending { base, events }), metadata, r),
    ensures
        all_or_nothing::<A, Id, Meta, E, C, M>(
            before,
            after,
            id,
            match base {
                Some(base) => base.version,
                None => None,
            },
            seq![events.head] + events.tail@,
            metadata,
            r,
        ),
{
    let all = seq![events.head] + events.tail@;
    let log = before.store.log();
    if super::inmemory::all_json::<E, A::Event>(all) {
        assert forall|i: int| 0 <= i < all.len() implies (#[trigger] all[i]).json() is Some by {}
        let expected = match base {
            Some(base) => base.version,
            None => None,
        };
        let actual = crate::store::inmemory::version_of(log, A::KIND@, id);
        if !(C::checks_version() && expected != actual) {
            lemma_appended_is_written_behind::<A::Event, Id, Meta, E>(
                log,
                after.store.log(),
                A::KIND@,
                id,
                all,
                metadata,
            );
        }
    } else {
        let i = choose|i: int| 0 <= i < all.len() && !((#[trigger] all[i]).json() is Some);
        assert(all[i].json() is None);
        let cause = r->Err_0->Store_0->Serialization_0;
        let first = choose|first: int| #[trigger]
            super::inmemory::unencodable_at::<E, A::Event>(all, first, cause);
        assert forall|j: int| 0 <= j < first implies (#[trigger] all[j]).json() is Some by {
            assert(all.take(first)[j] == all[j]);
        }
    }
}

/// A command for an existing stream does what its handler said. What the handler returned
/// is written behind the log, every event of it and in its order, or nothing is; a
/// rejected command changes nothing and is answered with the handler's error.
pub proof fn updates_append_what_was_handled<A, Cmd, Id, Meta, E, C, M>(
    before: Repository<Store<Id, Meta, E>, C, M>,
    after: Repository<Store<Id, Meta, E>, C, M>,
    id: Id::Key,
    base: LoadedAggregate<A, u64>,
    command: &Cmd,
    metadata: Meta,
    r: Result<
        (),
        CommandError<A::Error, C::ConcurrencyError, InMemoryError<E>, M::SnapshotError>,
    >,
) where
    A: Aggregate + Handle<Cmd>,
    A::Event: EncodeEvent<E>,
    Id: StreamId,
    Meta: Clone,
    C: CommitPolicy,
    M: SnapshotPolicy<A, Id>,

    requires
        super::inmemory::updates::<A, Cmd, Id, Meta, E, C, M>(
            before,
            after,
            id,
            Ok(Some(base)),
            command,
            metadata,
            r,
        ),
    ensures
        exists|handled: Result<Vec<A::Event>, A::HandleError>|
            {
                &&& #[trigger] call_ensures(
                    <A as Handle<Cmd>>::handle,
                    (&base.aggregate, command),
                    handled,
                )
                &&& handled is Ok ==> all_or_nothing::<A, Id, Meta, E, C, M>(
                    before,
                    after,
                    id,
                    base.version,
                    handled->Ok_0@,
                    metadata,
                    r,
                )
                &&& handled is Err ==> {
                    &&& after.store.log() == before.store.log()
                    &&& after.snapshots == before.snapshots
                    &&& r is Err
                    &&& r->Err_0 is Aggregate
                    &&& call_ensures(
                        <A::HandleError as Into<A::Error>>::into,
                        (handled->Err_0,),
                        r->Err_0->Aggregate_0,
                    )
                }
            },
{
    let answer = choose|answer: Result<Option<NonEmpty<A::Event>>, A::Error>| #[trigger]
        super::answers_command::<A, Cmd>(&base.aggregate, command, answer)
            && super::inmemory::carries_out::<A, Id, Meta, E, C, M>(
            before,
            after,
            id,
            Some(base),
            answer,
            metadata,
            r,
        );
    let handled = choose|handled: Result<Vec<A::Event>, A::HandleError>| #[trigger]
        call_ensures(<A as Handle<Cmd>>::handle, (&base.aggregate, command), handled)
            && super::decided(handled, answer);
    if let Ok(Some(events)) = answer {
        lemma_persisting_is_all_or_nothing::<A, Id, Meta, E, C, M>(
            before,
            after,
            id,
            Some(base),
            events,
            metadata,
            r,
        );
        assert(seq![events.head] + events.tail@ == handled->Ok_0@);
    }
}

/// A creation command on a stream without events does what its handler said, as a command
/// for an existing stream does; the stream is then expected to have no events.
pub proof fn creations_append_what_was_handled<A, Cmd, Id, Meta, E, C, M>(
    before: Repository<Store<Id, Meta, E>, C, M>,
    after: Repository<Store<Id, Meta, E>, C, M>,
    id: Id::Key,
    command: &Cmd,
    answer: Result<Option<NonEmpty<A::Event>>, A::Error>,
    metadata: Meta,
    r: Result<
        (),
        CommandError<A::Error, C::ConcurrencyError, InMemoryError<E>, M::SnapshotError>,
    >,
) where
    A: Aggregate + HandleCreate<Cmd>,
    A::Event: EncodeEvent<E>,
    Id: StreamId,
    Meta: Clone,
    C: CommitPolicy,
    M: SnapshotPolicy<A, Id>,

    requires
        super::answers_creation::<A, Cmd>(command, answer),
        super::inmemory::carries_out::<A, Id, Meta, E, C, M>(
            before,
            after,
            id,
            None,
            answer,
            metadata,
            r,
        ),
    ensures
        exists|handled: Result<Vec<A::Event>, A::HandleCreateError>|
            {
                &&& #[trigger] call_ensures(
                    <A as HandleCreate<Cmd>>::handle_create,
                    (command,),
                    handled,
                )
                &&& handled is Ok ==> all_or_nothing::<A, Id, Meta, E, C, M>(
                    before,
                    after,
                    id,
                    None,
                    handled->Ok_0@,
                    metadata,
                    r,
                )
                &&& handled is Err ==> {
                    &&& after.store.log() == before.store.log()
                    &&& after.snapshots == before.snapshots
                    &&& r is Err
                    &&& r->Err_0 is Aggregate
                    &&& call_ensures(
                        <A::HandleCreateError as Into<A::Error>>::into,
                        (handled->Err_0,),
                        r->Err_0->Aggregate_0,
                    )
                }
            },
{
    let handled = choose|handled: Result<Vec<A::Event>, A::HandleCreateError>| #[trigger]
        call_ensures(<A as HandleCreate<Cmd>>::handle_create, (command,), handled)
            && super::decided(handled, answer);
    if let Ok(Some(events)) = answer {
        lemma_persisting_is_all_or_nothing::<A, Id, Meta, E, C, M>(
            before,
            after,
            id,
            None,
            events,
            metadata,
            r,
        );
        assert(seq![events.head] + events.tail@ == handled->Ok_0@);
    }
}

/// A command that may create or update is an update where something was loaded, and a
/// creation where nothing was. What could not be loaded is answered with the reason, and
/// an update of what does not exist is refused; neither changes anything.
pub proof fn upserts_update_or_create<A, Cmd, Id, Meta, E, C, M>(
    before: Repository<Store<Id, Meta, E>, C, M>,
    after: Repository<Store<Id, Meta, E>, C, M>,
    id: Id::Key,
    loaded: Result<Option<LoadedAggregate<A, u64>>, ProjectionError<InMemoryError<E>>>,
    command: &Cmd,
    metadata: Meta,
    r: Result<
        (),
        CommandError<A::Error, C::ConcurrencyError, InMemoryError<E>, M::SnapshotError>,
    >,
) where
    A: Aggregate + Handle<Cmd> + HandleCreate<Cmd>,
    A::Event: EncodeEvent<E>,
    Id: StreamId,
    Meta: Clone,
    C: CommitPolicy,
    M: SnapshotPolicy<A, Id>,

    ensures
        super::inmemory::upserts::<A, Cmd, Id, Meta, E, C, M>(
            before,
            after,
            id,
            loaded,
            command,
            metadata,
            r,
        ) ==> {
            &&& loaded is Ok && loaded->Ok_0 is Some ==> exists|
                handled: Result<Vec<A::Event>, A::HandleError>,
            |
                {
                    &&& #[trigger] call_ensures(
                        <A as Handle<Cmd>>::handle,
                        (&loaded->Ok_0->0.aggregate, command),
                        handled,
                    )
                    &&& handled is Ok ==> all_or_nothing::<A, Id, Meta, E, C, M>(
                        before,
                        after,
                        id,
                        loaded->Ok_0->0.version,
                        handled->Ok_0@,
                        metadata,
                        r,
                    )
                    &&& handled is Err ==> after.store.log() == before.store.log() && r is Err
                }
            &&& loaded is Ok && loaded->Ok_0 is None ==> exists|
                handled: Result<Vec<A::Event>, A::HandleCreateError>,
            |
                {
                    &&& #[trigger] call_ensures(
                        <A as HandleCreate<Cmd>>::handle_create,
                        (command,),
                        handled,
                    )
                    &&& handled is Ok ==> all_or_nothing::<A, Id, Meta, E, C, M>(
                        before,
                        after,
                        id,
                        None,
                        handled->Ok_0@,
                        metadata,
                        r,
                    )
                    &&& handled is Err ==> after.store.log() == before.store.log() && r is Err
                }
            &&& loaded is Err ==> {
                &&& after.store.log() == before.store.log()
                &&& after.snapshots == before.snapshots
                &&& r is Err && r->Err_0 is Projection
                &&& r->Err_0->Projection_0 == loaded->Err_0
            }
        },
        super::inmemory::updates::<A, Cmd, Id, Meta, E, C, M>(
            before,
            after,
            id,
            loaded,
            command,
            metadata,
            r,
        ) && !(loaded is Ok && loaded->Ok_0 is Some) ==> {
            &&& after.store.log() == before.store.log()
            &&& after.snapshots == before.snapshots
            &&& r is Err
            &&& loaded is Err ==> r->Err_0 is Projection && r->Err_0->Projection_0 == loaded->Err_0
            &&& loaded is Ok ==> r->Err_0 is Lifecycle && r->Err_0->Lifecycle_0
                == LifecycleError::AggregateNotFound
        },
{
    if super::inmemory::upserts::<A, Cmd, Id, Meta, E, C, M>(
        before,
        after,
        id,
        loaded,
        command,
        metadata,
        r,
    ) {
        match loaded {
            Ok(Some(base)) => {
                updates_append_what_was_handled::<A, Cmd, Id, Meta, E, C, M>(
                    before,
                    after,
                    id,
                    base,
                    command,
                    metadata,
                    r,
                );
            },
            Ok(None) => {
                let answer = choose|answer: Result<Option<NonEmpty<A::Event>>, A::Error>| #[trigger]
                    super::answers_creation::<A, Cmd>(command, answer)
                        && super::inmemory::carries_out::<A, Id, Meta, E, C, M>(
                        before,
                        after,
                        id,
                        None,
                        answer,
                        metadata,
                        r,
                    );
                creations_append_what_was_handled::<A, Cmd, Id, Meta, E, C, M>(
                    before,
                    after,
                    id,
                    command,
                    answer,
                    metadata,
                    r,
                );
            },
            Err(_) => {},
        }
    }
}

/// A repository with snapshots offers one after each commit: the state that the events
/// lead to, at the position of the last of them. It is stored if the policy says so for
/// the number of events since the last snapshot and nothing as new is held; a state
/// without JSON that was to be stored is reported.
pub proof fn commits_offer_the_new_state<A, Id, Meta, E, C, F>(
    before: Repository<Store<Id, Meta, E>, C, Snapshots<snapshot::inmemory::Store<Id, u64, F>>>,
    after: Repository<Store<Id, Meta, E>, C, Snapshots<snapshot::inmemory::Store<Id, u64, F>>>,
    id: Id::Key,
    base: Option<LoadedAggregate<A, u64>>,
    events: NonEmpty<A::Event>,
    metadata: Meta,
    r: Result<
        (),
        CommandError<
            A::Error,
            C::ConcurrencyError,
            InMemoryError<E>,
            snapshot::inmemory::Error<F>,
        >,
    >,
) where
    A: Aggregate + SnapshotState<F>,
    A::Event: EncodeEvent<E>,
    Id: StreamId,
    Meta: Clone,
    C: CommitPolicy,

    requires
        super::inmemory::persists(before, after, id, (Pending { base, events }), metadata, r),
        after.store.log() != before.store.log(),
        after.store.log().len() <= u64::MAX,
        base matches Some(loaded) ==> loaded.events_since_snapshot + 1 + events.tail@.len()
            <= u64::MAX,
    ensures
        ({
            let key = (A::KIND@, id);
            let held = before.snapshots.0@;
            let position = (after.store.log().len() - 1) as u64;
            let state = match base {
                Some(base) => crate::aggregate::replay(
                    base.aggregate,
                    seq![events.head] + events.tail@,
                ),
                None => crate::aggregate::replay(A::created(events.head), events.tail@),
            };
            let count = 1 + events.tail@.len() + match base {
                Some(base) => base.events_since_snapshot as int,
                None => 0,
            };
            let due = match before.snapshots.0.spec_policy() {
                Policy::Always => true,
                Policy::EveryNEvents(n) => count >= n,
                Policy::Never => false,
            };
            &&& after.snapshots.0.spec_policy() == before.snapshots.0.spec_policy()
            &&& due && state.frozen() is Some && !(held.contains_key(key) && held[key].position
                >= position) ==> {
                &&& r is Ok
                &&& after.snapshots.0@ == held.insert(
                    key,
                    (snapshot::Snapshot { position, data: state.frozen()->0 }),
                )
            }
            &&& !due || state.frozen() is None || (held.contains_key(key) && held[key].position
                >= position) ==> after.snapshots.0@ == held
            &&& r is Ok <==> !(due && state.frozen() is None)
        }),
{
    let all = seq![events.head] + events.tail@;
    assert(all.skip(1) == events.tail@);
    assert(all.first() == events.head);
    assert(crate::store::batch(events) == all);
}

/// Whether `event` belongs to the instance of `A` with `id` and has a kind that its event
/// type knows.
pub open spec fn concerns<A, Id, Meta, E>(id: Id::Key, event: InMemoryEvent<Id, Meta>) -> bool where
    A: Aggregate,
    A::Event: ProjectionEvent<Store<Id, Meta, E>>,
    Id: StreamId,
    Meta: Clone,
 {
    &&& event.aggregate_kind@ == A::KIND@
    &&& event.aggregate_id.key() == id
    &&& exists|k: int|
        {
            &&& 0 <= k < <A::Event as ProjectionEvent<Store<Id, Meta, E>>>::EVENT_KINDS@.len()
            &&& (#[trigger] <A::Event as ProjectionEvent<
                Store<Id, Meta, E>,
            >>::EVENT_KINDS@[k])@ == event.kind@
        }
}

/// Where the log grows by one event, a load changes by that event alone. One that concerns
/// the instance creates it or is applied to it, counts as one more and gives the version;
/// one that concerns it and cannot be restored makes the load fail; any other makes no
/// difference.
pub proof fn loads_follow_the_log<A, Id, Meta, E>(
    log: Seq<InMemoryEvent<Id, Meta>>,
    event: InMemoryEvent<Id, Meta>,
    base: Option<(A, u64)>,
    id: Id::Key,
    earlier: Result<Option<LoadedAggregate<A, u64>>, ProjectionError<InMemoryError<E>>>,
    later: Result<Option<LoadedAggregate<A, u64>>, ProjectionError<InMemoryError<E>>>,
) where
    A: Aggregate,
    A::Event: ProjectionEvent<Store<Id, Meta, E>>,
    Id: StreamId,
    Meta: Clone,

    requires
        super::laws::clones_exactly::<Meta>(),
        base matches Some((_, position)) ==> position < event.position,
        super::inmemory::loads_from_log::<A, Id, Meta, E>(log, base, id, earlier),
        super::inmemory::loads_from_log::<A, Id, Meta, E>(log.push(event), base, id, later),
    ensures
        ({
            let concerned = concerns::<A, Id, Meta, E>(id, event);
            let restored = <A::Event as ProjectionEvent<Store<Id, Meta, E>>>::restored(event);
            &&& earlier is Err ==> later is Err
            &&& earlier is Ok && !concerned ==> later == earlier
            &&& earlier is Ok && concerned && restored is None ==> later is Err
            &&& earlier is Ok && concerned && restored is Some ==> {
                &&& later is Ok && later->Ok_0 is Some
                &&& later->Ok_0->0.version == Some(event.position)
                &&& match earlier->Ok_0 {
                    None => {
                        &&& later->Ok_0->0.aggregate == A::created(restored->0)
                        &&& later->Ok_0->0.events_since_snapshot == 1
                    },
                    Some(loaded) => {
                        &&& later->Ok_0->0.aggregate == loaded.aggregate.applied(restored->0)
                        &&& later->Ok_0->0.events_since_snapshot == loaded.events_since_snapshot
                            + 1
                    },
                }
            }
        }),
{
    let kinds = <A::Event as ProjectionEvent<Store<Id, Meta, E>>>::EVENT_KINDS@;
    let after = super::inmemory::base_position(base);
    let selectors = super::inmemory::instance_selectors(kinds, A::KIND@, id, after);
    let pred = crate::store::inmemory::accepted_by::<Id, Meta>(selectors);
    let found = crate::store::inmemory::matching(log, selectors);
    let grown = crate::store::inmemory::matching(log.push(event), selectors);
    assert(grown == if pred(event) {
        found.push(event)
    } else {
        found
    }) by {
        reveal(Seq::filter);
        assert(log.push(event).drop_last() == log);
        assert(log.push(event).last() == event);
    }
    let concerned = concerns::<A, Id, Meta, E>(id, event);
    assert(pred(event) == concerned) by {
        if concerned {
            let k = choose|k: int| 0 <= k < kinds.len() && (#[trigger] kinds[k])@ == event.kind@;
            assert(crate::store::inmemory::accepts(selectors[k], event));
        }
    }
    let first = choose|events: Seq<InMemoryEvent<Id, Meta>>|
        {
            &&& #[trigger] crate::store::inmemory::copies_of(found, events)
            &&& match earlier {
                Ok(loaded) => super::loads::<A, Store<Id, Meta, E>>(base, events, Ok(loaded)),
                Err(ProjectionError::EventDecode(error)) => super::loads::<
                    A,
                    Store<Id, Meta, E>,
                >(base, events, Err(error)),
                Err(ProjectionError::Store(_)) => false,
            }
        };
    let second = choose|events: Seq<InMemoryEvent<Id, Meta>>|
        {
            &&& #[trigger] crate::store::inmemory::copies_of(grown, events)
            &&& match later {
                Ok(loaded) => super::loads::<A, Store<Id, Meta, E>>(base, events, Ok(loaded)),
                Err(ProjectionError::EventDecode(error)) => super::loads::<
                    A,
                    Store<Id, Meta, E>,
                >(base, events, Err(error)),
                Err(ProjectionError::Store(_)) => false,
            }
        };
    super::laws::loads_are_exact(found, first);
    super::laws::loads_are_exact(grown, second);
    let old_events = super::restored_all::<Store<Id, Meta, E>, A::Event>(found);
    if let Err(ProjectionError::EventDecode(error)) = earlier {
        let i = choose|i: int| #[trigger]
            super::undecodable_at::<Store<Id, Meta, E>, A::Event>(found, i, error);
        assert(grown[i] == found[i]);
    } else if concerned {
        assert(grown.last() == event);
        assert(grown[found.len() as int] == event);
        let restored = <A::Event as ProjectionEvent<Store<Id, Meta, E>>>::restored(event);
        if let Some(restored) = restored {
            assert forall|i: int| 0 <= i < grown.len() implies <A::Event as ProjectionEvent<
                Store<Id, Meta, E>,
            >>::restored(#[trigger] grown[i]) is Some by {
                if i < found.len() {
                    assert(grown[i] == found[i]);
                }
            }
            assert(super::restored_all::<Store<Id, Meta, E>, A::Event>(grown) == old_events.push(
                restored,
            ));
            crate::aggregate::histories_create_and_then_apply::<A>(old_events, restored);
            if let Some((aggregate, _)) = base {
                crate::aggregate::replay_applies_each::<A>(aggregate, old_events, restored);
            }
        }
    }
}

/// A load of an empty log gives what it starts from, and nothing where there is nothing to
/// start from.
pub proof fn loads_start_from_the_base<A, Id, Meta, E>(
    base: Option<(A, u64)>,
    id: Id::Key,
    r: Result<Option<LoadedAggregate<A, u64>>, ProjectionError<InMemoryError<E>>>,
) where
    A: Aggregate,
    A::Event: ProjectionEvent<Store<Id, Meta, E>>,
    Id: StreamId,
    Meta: Clone,

    requires
        super::inmemory::loads_from_log::<A, Id, Meta, E>(Seq::empty(), base, id, r),
    ensures
        r is Ok,
        match base {
            Some((aggregate, position)) => {
                &&& r->Ok_0 is Some
                &&& r->Ok_0->0.aggregate == aggregate
                &&& r->Ok_0->0.version == Some(position)
                &&& r->Ok_0->0.events_since_snapshot == 0
            },
            None => r->Ok_0 is None,
        },
{
    reveal(Seq::filter);
    let events = choose|events: Seq<InMemoryEvent<Id, Meta>>|
        {
            &&& #[trigger] crate::store::inmemory::copies_of(
                crate::store::inmemory::matching(
                    Seq::<InMemoryEvent<Id, Meta>>::empty(),
                    super::inmemory::instance_selectors(
                        <A::Event as ProjectionEvent<Store<Id, Meta, E>>>::EVENT_KINDS@,
                        A::KIND@,
                        id,
                        super::inmemory::base_position(base),
                    ),
                ),
                events,
            )
            &&& match r {
                Ok(loaded) => super::loads::<A, Store<Id, Meta, E>>(base, events, Ok(loaded)),
                Err(ProjectionError::EventDecode(error)) => super::loads::<
                    A,
                    Store<Id, Meta, E>,
                >(base, events, Err(error)),
                Err(ProjectionError::Store(_)) => false,
            }
        };
    assert(events.len() == 0);
    assert(super::restored_all::<Store<Id, Meta, E>, A::Event>(events) == Seq::<
        A::Event,
    >::empty());
}

/// Optimistic repositories check versions and tell of both in a conflict; unchecked ones
/// do not check.
pub proof fn strategies_check_or_do_not(expected: Option<u64>, actual: Option<u64>)
    ensures
        <Optimistic as CommitPolicy>::checks_version(),
        !<Unchecked as CommitPolicy>::checks_version(),
        <Optimistic as CommitPolicy>::conflict(expected, actual).expected == expected,
        <Optimistic as CommitPolicy>::conflict(expected, actual).actual == actual,
{
}

/// A decision has the events that the handler returned, all of them and in their order; it
/// has none where there are none, and is an error, converted, exactly where the handler's
/// answer is.
pub proof fn decisions_keep_the_events<T, HE: Into<AE>, AE>(
    handled: Result<Vec<T>, HE>,
    r: Result<Option<NonEmpty<T>>, AE>,
)
    requires
        call_ensures(super::decide::<T, HE, AE>, (handled,), r),
    ensures
        handled is Err <==> r is Err,
        handled is Err ==> call_ensures(<HE as Into<AE>>::into, (handled->Err_0,), r->Err_0),
        handled is Ok ==> (r->Ok_0 is None <==> handled->Ok_0@.len() == 0),
        handled is Ok && handled->Ok_0@.len() > 0 ==> {
            &&& r->Ok_0->0.tail@.len() == handled->Ok_0@.len() - 1
            &&& r->Ok_0->0.head == handled->Ok_0@[0]
            &&& forall|i: int|
                0 <= i < r->Ok_0->0.tail@.len() ==> #[trigger] r->Ok_0->0.tail@[i]
                    == handled->Ok_0@[i + 1]
        },
{
    if let (Ok(events), Ok(Some(batch))) = (handled, r) {
        let all = crate::store::batch(batch);
        assert(all[0] == batch.head);
        assert forall|i: int| 0 <= i < batch.tail@.len() implies #[trigger] batch.tail@[i]
            == events@[i + 1] by {
            assert(all[i + 1] == batch.tail@[i]);
        }
    }
}

/// What is to be committed is the decision, with the state it was made on; nothing is where
/// there are no events, and a rejected command fails with the aggregate's error.
pub proof fn decisions_pend_on_their_state<A: Aggregate, Pos, CE, SE, NE>(
    base: Option<LoadedAggregate<A, Pos>>,
    answer: Result<Option<NonEmpty<A::Event>>, A::Error>,
)
    ensures
        ({
            let r = super::pends::<A, Pos, CE, SE, NE>(base, answer);
            &&& r is Err <==> answer is Err
            &&& answer is Err ==> r->Err_0 is Aggregate && r->Err_0->Aggregate_0 == answer->Err_0
            &&& answer is Ok ==> (r->Ok_0 is Some <==> answer->Ok_0 is Some)
            &&& answer is Ok && answer->Ok_0 is Some ==> r->Ok_0->0.base == base
                && r->Ok_0->0.events == answer->Ok_0->0
        }),
{
}

/// A command is tried again after a conflict, while fewer retries were made than are
/// allowed, and after nothing else. What it comes to otherwise is the number of the attempt,
/// or the error of that attempt.
pub proof fn only_conflicts_are_tried_again<AE, CE, SE, NE>(
    attempt: usize,
    max_retries: usize,
    outcome: Result<(), CommandError<AE, CE, SE, NE>>,
    next: super::Attempt<CommandError<AE, CE, SE, NE>>,
)
    requires
        call_ensures(
            super::after_attempt::<AE, CE, SE, NE>,
            (attempt, max_retries, outcome),
            next,
        ),
    ensures
        ({
            &&& next is Again <==> outcome is Err && outcome->Err_0 is Concurrency && attempt
                <= max_retries
            &&& outcome is Ok ==> next is Done && next->Done_0 is Ok && next->Done_0->Ok_0
                == attempt
            &&& outcome is Err && next is Done ==> next->Done_0 is Err && next->Done_0->Err_0
                == outcome->Err_0
        }),
{
}

/// Retrying makes at least one attempt and at most one more than the retries allowed. Every
/// attempt but the last conflicted, and the last did so only where no retry was left. A
/// success is reported as the number of attempts, and a failure as the last one.
pub proof fn retries_are_counted<AE, CE, SE, NE>(
    outcomes: Seq<Result<(), CommandError<AE, CE, SE, NE>>>,
    max_retries: usize,
    r: Result<usize, CommandError<AE, CE, SE, NE>>,
)
    requires
        max_retries < usize::MAX,
        super::attempts_made(outcomes, max_retries),
        r == super::retry_result(outcomes),
    ensures
        1 <= outcomes.len() <= max_retries + 1,
        forall|i: int|
            0 <= i < outcomes.len() - 1 ==> (#[trigger] outcomes[i]) is Err
                && outcomes[i]->Err_0 is Concurrency,
        outcomes.last() is Err && outcomes.last()->Err_0 is Concurrency ==> outcomes.len()
            == max_retries + 1,
        r is Ok <==> outcomes.last() is Ok,
        r is Ok ==> r->Ok_0 == outcomes.len(),
        r is Err ==> r->Err_0 == outcomes.last()->Err_0,
{
    assert forall|i: int| 0 <= i < outcomes.len() - 1 implies (#[trigger] outcomes[i]) is Err
        && outcomes[i]->Err_0 is Concurrency by {
        assert(super::conflicts(outcomes[i]));
    }
}

/// What is picked from a log at a place stands in the log behind all that is picked at the
/// places before.
proof fn lemma_place_in_log<T>(log: Seq<T>, pred: spec_fn(T) -> bool, i: int)
    requires
        0 <= i < log.filter(pred).len(),
    ensures
        exists|p: int|
            {
                &&& 0 <= p < log.len()
                &&& log[p] == log.filter(pred)[i]
                &&& #[trigger] log.take(p).filter(pred) == log.filter(pred).take(i)
            },
    decreases log.len(),
{
    reveal(Seq::filter);
    let found = log.filter(pred);
    let early = log.drop_last();
    let n = log.len() - 1;
    assert(log.take(n) == early);
    if i == early.filter(pred).len() {
        assert(found == early.filter(pred).push(log.last()));
        assert(log[n] == found[i]);
        assert(log.take(n).filter(pred) == found.take(i));
    } else {
        lemma_place_in_log(early, pred, i);
        let p = choose|p: int|
            {
                &&& 0 <= p < early.len()
                &&& early[p] == early.filter(pred)[i]
                &&& #[trigger] early.take(p).filter(pred) == early.filter(pred).take(i)
            };
        assert(early.take(p) == log.take(p));
        assert(early.filter(pred).take(i) == found.take(i));
        assert(log.take(p).filter(pred) == found.take(i));
    }
}

/// A load that fails tells of the first event, among those that concern the instance, that
/// cannot be restored, and of the store's reason.
pub proof fn failed_loads_tell_why<A, Id, Meta, E>(
    log: Seq<InMemoryEvent<Id, Meta>>,
    id: Id::Key,
    error: ProjectionError<InMemoryError<E>>,
) where
    A: Aggregate,
    A::Event: ProjectionEvent<Store<Id, Meta, E>>,
    Id: StreamId,
    Meta: Clone,

    requires
        super::laws::clones_exactly::<Meta>(),
        super::inmemory::loads_from_log::<A, Id, Meta, E>(log, None, id, Err(error)),
    ensures
        error is EventDecode,
        error->EventDecode_0 is Store,
        exists|p: int|
            {
                &&& 0 <= p < log.len()
                &&& forall|q: int|
                    0 <= q < p && concerns::<A, Id, Meta, E>(id, #[trigger] log[q])
                        ==> <A::Event as ProjectionEvent<Store<Id, Meta, E>>>::restored(
                        log[q],
                    ) is Some
                &&& concerns::<A, Id, Meta, E>(id, #[trigger] log[p])
                &&& <A::Event as ProjectionEvent<Store<Id, Meta, E>>>::restored(log[p]) is None
                &&& <A::Event as ProjectionEvent<Store<Id, Meta, E>>>::unrestorable(
                    log[p],
                    error->EventDecode_0->Store_0,
                )
            },
{
    let kinds = <A::Event as ProjectionEvent<Store<Id, Meta, E>>>::EVENT_KINDS@;
    let selectors = super::inmemory::instance_selectors(kinds, A::KIND@, id, None);
    let pred = crate::store::inmemory::accepted_by::<Id, Meta>(selectors);
    let found = crate::store::inmemory::matching(log, selectors);
    let decode = error->EventDecode_0;
    let events = choose|events: Seq<InMemoryEvent<Id, Meta>>|
        {
            &&& #[trigger] crate::store::inmemory::copies_of(found, events)
            &&& super::loads::<A, Store<Id, Meta, E>>(None, events, Err(decode))
        };
    super::laws::loads_are_exact(found, events);
    let i = choose|i: int| #[trigger]
        super::undecodable_at::<Store<Id, Meta, E>, A::Event>(found, i, decode);
    log.lemma_filter_pred(pred, i);
    lemma_place_in_log(log, pred, i);
    let p = choose|p: int|
        {
            &&& 0 <= p < log.len()
            &&& log[p] == log.filter(pred)[i]
            &&& #[trigger] log.take(p).filter(pred) == log.filter(pred).take(i)
        };
    assert forall|q: int| 0 <= q < p && concerns::<A, Id, Meta, E>(id, #[trigger] log[q]) implies <
    A::Event as ProjectionEvent<Store<Id, Meta, E>>>::restored(log[q]) is Some by {
        let k = choose|k: int| 0 <= k < kinds.len() && (#[trigger] kinds[k])@ == log[q].kind@;
        assert(crate::store::inmemory::accepts(selectors[k], log[q]));
        assert(pred(log.take(p)[q]));
        log.take(p).lemma_filter_contains(pred, q);
        let early = found.take(i);
        let j = choose|j: int| 0 <= j < early.len() && early[j] == log[q];
        assert(<A::Event as ProjectionEvent<Store<Id, Meta, E>>>::restored(early[j]) is Some);
    }
    let k = choose|k: int|
        0 <= k < selectors.len() && crate::store::inmemory::accepts(
            #[trigger] selectors[k],
            found[i],
        );
    assert(kinds[k]@ == log[p].kind@);
    assert(concerns::<A, Id, Meta, E>(id, log[p]));
    assert(crate::event::is_kind(kinds, log[p].kind@));
}

/// What a load starts from: the snapshot of the instance, where one is held and can be
/// turned back into state, with its position, and else nothing. A repository without
/// snapshots has nothing to start from, and takes offers without a trace.
pub proof fn loads_start_from_what_is_held<A, Id, F>(
    snapshots: Snapshots<snapshot::inmemory::Store<Id, u64, F>>,
    kind: Seq<char>,
    id: Id::Key,
    before: snapshot::NoSnapshots<u64>,
    after: snapshot::NoSnapshots<u64>,
    count: u64,
    offered: snapshot::Snapshot<u64, Option<A>>,
    answer: Result<(), std::convert::Infallible>,
) where A: SnapshotState<F>, Id: StreamId
    ensures
        ({
            let base = SnapshotPolicy::<A, Id>::base(&snapshots, kind, id);
            let held = snapshots.0@;
            &&& base is Some <==> held.contains_key((kind, id)) && A::revived(
                held[(kind, id)].data,
            ) is Some
            &&& base matches Some((state, position)) ==> Some(state) == A::revived(
                held[(kind, id)].data,
            ) && position == held[(kind, id)].position
        }),
        SnapshotPolicy::<A, Id>::base(&before, kind, id) is None,
        <snapshot::NoSnapshots<u64> as SnapshotPolicy<A, Id>>::takes_offer(
            before,
            after,
            kind,
            id,
            count,
            offered,
            answer,
        ) ==> after == before && answer is Ok,
{
}

/// What a commit comes to for its command. One that was made is told by its last position; a
/// conflict stays one; every other failure is the store's, whichever way it came about.
pub proof fn commit_outcomes_keep_their_cause<Pos, CE, SE>(
    plain: Result<Committed<Pos>, CommitError<SE>>,
    plain_outcome: Result<Pos, CommitPolicyError<CE, SE>>,
    checked: Result<Committed<Pos>, OptimisticCommitError<Pos, SE>>,
    checked_outcome: Result<Pos, CommitPolicyError<ConcurrencyConflict<Pos>, SE>>,
)
    requires
        call_ensures(super::unchecked_outcome::<Pos, CE, SE>, (plain,), plain_outcome),
        call_ensures(super::optimistic_outcome::<Pos, SE>, (checked,), checked_outcome),
    ensures
        match plain {
            Ok(committed) => plain_outcome is Ok && plain_outcome->Ok_0 == committed.last_position,
            Err(CommitError::Store(error)) => plain_outcome is Err && plain_outcome->Err_0 is Store
                && plain_outcome->Err_0->Store_0 == error,
            Err(CommitError::Serialization { source, .. }) => plain_outcome is Err
                && plain_outcome->Err_0 is Store && plain_outcome->Err_0->Store_0 == source,
        },
        match checked {
            Ok(committed) => checked_outcome is Ok && checked_outcome->Ok_0
                == committed.last_position,
            Err(OptimisticCommitError::Conflict(conflict)) => checked_outcome is Err
                && checked_outcome->Err_0 is Concurrency && checked_outcome->Err_0->Concurrency_0
                == conflict,
            Err(OptimisticCommitError::Store(error)) => checked_outcome is Err
                && checked_outcome->Err_0 is Store && checked_outcome->Err_0->Store_0 == error,
            Err(OptimisticCommitError::Serialization { source, .. }) => checked_outcome is Err
                && checked_outcome->Err_0 is Store && checked_outcome->Err_0->Store_0 == source,
        },
{
}

/// A snapshot fails its command only where the snapshot store failed: not where it declined,
/// and not where there was nothing to store. One that could not be loaded counts as none.
pub proof fn snapshots_fail_commands_only_in_the_store<T, Pos, E, CE>(
    offered: Result<SnapshotOffer, OfferSnapshotError<E, CE>>,
    outcome: Result<(), E>,
    loaded: Result<Option<snapshot::Snapshot<Pos, T>>, E>,
    usable: Option<(T, Pos)>,
)
    requires
        call_ensures(super::offer_outcome::<E, CE>, (offered,), outcome),
        call_ensures(super::usable_snapshot::<T, Pos, E>, (loaded,), usable),
    ensures
        outcome is Err <==> offered is Err && offered->Err_0 is Snapshot,
        outcome is Err ==> outcome->Err_0 == offered->Err_0->Snapshot_0,
        usable is Some <==> loaded is Ok && loaded->Ok_0 is Some,
        usable matches Some((state, position)) ==> state == loaded->Ok_0->0.data && position
            == loaded->Ok_0->0.position,
{
}

} // verus!
