//! What holds of a repository over the in-memory store as a whole.

use nonempty::NonEmpty;
use serde_json::Value;
use vstd::prelude::*;

use super::{
    inmemory::{CommitPolicy, EncodeEvent, SnapshotPolicy, SnapshotState},
    CommandError, LoadedAggregate, Pending, Repository, Snapshots,
};
use crate::{
    aggregate::Aggregate,
    event::{EventKind, ProjectionEvent},
    projection::ProjectionError,
    snapshot::{self, Snapshot},
    store::{
        inmemory::{InMemoryError, InMemoryEvent, Store},
        Selector, StreamId,
    },
};

verus! {

/// Selectors for every event of one aggregate instance.
pub open spec fn instance_events<A, Id, Meta, E>(id: Id::Key) -> Seq<
    Selector<Id::Key, u64>,
> where
    A: Aggregate,
    A::Event: ProjectionEvent<Store<Id, Meta, E>>,
    Id: StreamId,
    Meta: Clone,
 {
    super::inmemory::instance_selectors(
        <A::Event as ProjectionEvent<Store<Id, Meta, E>>>::EVENT_KINDS@,
        A::KIND@,
        id,
        None,
    )
}

/// The events of one aggregate instance, oldest first.
pub open spec fn history<A, Id, Meta, E>(log: Seq<InMemoryEvent<Id, Meta>>, id: Id::Key) -> Seq<
    InMemoryEvent<Id, Meta>,
> where
    A: Aggregate,
    A::Event: ProjectionEvent<Store<Id, Meta, E>>,
    Id: StreamId,
    Meta: Clone,
 {
    crate::store::inmemory::matching(log, instance_events::<A, Id, Meta, E>(id))
}

/// Whether every event of one aggregate instance can be restored.
pub open spec fn readable<A, Id, Meta, E>(log: Seq<InMemoryEvent<Id, Meta>>, id: Id::Key) -> bool where
    A: Aggregate,
    A::Event: ProjectionEvent<Store<Id, Meta, E>>,
    Id: StreamId,
    Meta: Clone,
 {
    super::all_restored::<Store<Id, Meta, E>, A::Event>(history::<A, Id, Meta, E>(log, id))
}

/// The state of one aggregate instance: what its whole history builds.
pub open spec fn state_of<A, Id, Meta, E>(
    log: Seq<InMemoryEvent<Id, Meta>>,
    id: Id::Key,
) -> Option<A> where
    A: Aggregate,
    A::Event: ProjectionEvent<Store<Id, Meta, E>>,
    Id: StreamId,
    Meta: Clone,
 {
    crate::aggregate::rebuilt::<A>(
        super::restored_all::<Store<Id, Meta, E>, A::Event>(history::<A, Id, Meta, E>(log, id)),
    )
}

/// Whether what loading starts from is the state at its position.
pub open spec fn sound<A, Id, Meta, E>(
    log: Seq<InMemoryEvent<Id, Meta>>,
    base: Option<(A, u64)>,
    id: Id::Key,
) -> bool where
    A: Aggregate,
    A::Event: ProjectionEvent<Store<Id, Meta, E>>,
    Id: StreamId,
    Meta: Clone,
 {
    base matches Some((aggregate, position)) ==> {
        &&& position < log.len()
        &&& readable::<A, Id, Meta, E>(log.take(position + 1), id)
        &&& state_of::<A, Id, Meta, E>(log.take(position + 1), id) == Some(aggregate)
    }
}

/// Whether a clone is always equal to what it was made of.
pub open spec fn clones_exactly<M: Clone>() -> bool {
    forall|value: M, copy: M| #[trigger] cloned(value, copy) ==> copy == value
}

/// Where metadata clones exactly, what is loaded is what was committed.
pub proof fn loads_are_exact<Id: StreamId, M: Clone>(
    events: Seq<InMemoryEvent<Id, M>>,
    copies: Seq<InMemoryEvent<Id, M>>,
)
    requires
        clones_exactly::<M>(),
        crate::store::inmemory::copies_of(events, copies),
    ensures
        copies == events,
{
    assert forall|i: int| 0 <= i < copies.len() implies copies[i] == events[i] by {
        assert(crate::store::inmemory::copy_of(events[i], copies[i]));
    }
}

/// Restoring a longer list restores its parts.
proof fn lemma_restored_add<A, Id, Meta, E>(
    first: Seq<InMemoryEvent<Id, Meta>>,
    second: Seq<InMemoryEvent<Id, Meta>>,
) where
    A: Aggregate,
    A::Event: ProjectionEvent<Store<Id, Meta, E>>,
    Id: StreamId,
    Meta: Clone,

    ensures
        super::restored_all::<Store<Id, Meta, E>, A::Event>(first + second) == super::restored_all::<
            Store<Id, Meta, E>,
            A::Event,
        >(first) + super::restored_all::<Store<Id, Meta, E>, A::Event>(second),
        super::all_restored::<Store<Id, Meta, E>, A::Event>(first + second) <==> (
        super::all_restored::<Store<Id, Meta, E>, A::Event>(first) && super::all_restored::<
            Store<Id, Meta, E>,
            A::Event,
        >(second)),
{
    if super::all_restored::<Store<Id, Meta, E>, A::Event>(first + second) {
        assert forall|i: int| 0 <= i < first.len() implies <A::Event as ProjectionEvent<
            Store<Id, Meta, E>,
        >>::restored(#[trigger] first[i]) is Some by {
            assert((first + second)[i] == first[i]);
        }
        assert forall|i: int| 0 <= i < second.len() implies <A::Event as ProjectionEvent<
            Store<Id, Meta, E>,
        >>::restored(#[trigger] second[i]) is Some by {
            assert((first + second)[first.len() + i] == second[i]);
        }
    }
}

/// The events after a position, asked for as an instance's loading asks for them.
proof fn lemma_instance_after<A, Id, Meta, E>(id: Id::Key, position: u64) where
    A: Aggregate,
    A::Event: ProjectionEvent<Store<Id, Meta, E>>,
    Id: StreamId,
    Meta: Clone,

    ensures
        super::inmemory::instance_selectors(
            <A::Event as ProjectionEvent<Store<Id, Meta, E>>>::EVENT_KINDS@,
            A::KIND@,
            id,
            Some(position),
        ) == crate::store::laws::all_after(instance_events::<A, Id, Meta, E>(id), position),
        crate::store::laws::unpositioned(instance_events::<A, Id, Meta, E>(id)),
{
}

/// Loading an aggregate gives the state that its whole history builds, whether it
/// starts from a sound snapshot or from the beginning; it fails exactly where some
/// event of that history cannot be restored after the snapshot, and finds nothing
/// exactly where there is no history.
pub proof fn loading_gives_the_state<A, Id, Meta, E>(
    log: Seq<InMemoryEvent<Id, Meta>>,
    base: Option<(A, u64)>,
    id: Id::Key,
    r: Result<Option<LoadedAggregate<A, u64>>, ProjectionError<InMemoryError<E>>>,
) where
    A: Aggregate,
    A::Event: ProjectionEvent<Store<Id, Meta, E>>,
    Id: StreamId,
    Meta: Clone,

    requires
        crate::store::inmemory::positioned(log),
        clones_exactly::<Meta>(),
        sound::<A, Id, Meta, E>(log, base, id),
        super::inmemory::loads_from_log::<A, Id, Meta, E>(log, base, id, r),
    ensures
        r is Ok <==> readable::<A, Id, Meta, E>(log, id),
        r matches Ok(Some(loaded)) ==> state_of::<A, Id, Meta, E>(log, id) == Some(
            loaded.aggregate,
        ),
        r matches Ok(None) ==> state_of::<A, Id, Meta, E>(log, id) is None,
{
    let found = crate::store::inmemory::matching(
        log,
        super::inmemory::instance_selectors(
            <A::Event as ProjectionEvent<Store<Id, Meta, E>>>::EVENT_KINDS@,
            A::KIND@,
            id,
            super::inmemory::base_position(base),
        ),
    );
    let events = choose|events: Seq<InMemoryEvent<Id, Meta>>|
        {
            &&& #[trigger] crate::store::inmemory::copies_of(found, events)
            &&& match r {
                Ok(loaded) => super::loads::<A, Store<Id, Meta, E>>(base, events, Ok(loaded)),
                Err(ProjectionError::EventDecode(error)) => super::loads::<
                    A,
                    Store<Id, Meta, E>,
                >(base, events, Err(error)),
                Err(ProjectionError::Store(_)) => false,
            }
        };
    loads_are_exact(found, events);
    match base {
        Some((aggregate, position)) => {
            let early = history::<A, Id, Meta, E>(log.take(position + 1), id);
            lemma_instance_after::<A, Id, Meta, E>(id, position);
            crate::store::laws::loading_splits_at_a_position(
                log,
                instance_events::<A, Id, Meta, E>(id),
                position,
            );
            assert(history::<A, Id, Meta, E>(log, id) == early + found);
            lemma_restored_add::<A, Id, Meta, E>(early, found);
            crate::aggregate::rebuilding_resumes::<A>(
                super::restored_all::<Store<Id, Meta, E>, A::Event>(early),
                super::restored_all::<Store<Id, Meta, E>, A::Event>(found),
            );
        },
        None => {
            assert(found == history::<A, Id, Meta, E>(log, id));
        },
    }
}

/// An instance whose stream has no events has no history, and so no state.
pub proof fn no_events_no_state<A, Id, Meta, E>(
    log: Seq<InMemoryEvent<Id, Meta>>,
    id: Id::Key,
) where
    A: Aggregate,
    A::Event: ProjectionEvent<Store<Id, Meta, E>>,
    Id: StreamId,
    Meta: Clone,

    requires
        crate::store::inmemory::version_of(log, A::KIND@, id) is None,
    ensures
        history::<A, Id, Meta, E>(log, id).len() == 0,
        readable::<A, Id, Meta, E>(log, id),
        state_of::<A, Id, Meta, E>(log, id) is None,
{
    let selectors = instance_events::<A, Id, Meta, E>(id);
    let pred = crate::store::inmemory::accepted_by::<Id, Meta>(selectors);
    let stream = crate::store::inmemory::in_stream::<Id, Meta>(A::KIND@, id);
    let found = history::<A, Id, Meta, E>(log, id);
    if found.len() > 0 {
        let event = found[0];
        assert(found.contains(event));
        log.lemma_filter_contains_rev(pred, event);
        log.lemma_filter_pred(pred, 0);
        let p = choose|p: int| 0 <= p < log.len() && log[p] == event;
        let k = choose|k: int|
            0 <= k < selectors.len() && crate::store::inmemory::accepts(
                #[trigger] selectors[k],
                event,
            );
        assert(selectors[k].aggregate_kind == Some(A::KIND@));
        assert(stream(log[p]));
        log.lemma_filter_contains(stream, p);
        assert(false);
    }
}

/// Asking for an aggregate gives the state that its whole history builds, and none
/// where there is no history: with sound snapshots it makes no difference whether any
/// is held. It fails exactly where some event of that history cannot be restored after
/// the snapshot.
pub proof fn asking_gives_the_state<A, Id, Meta, E>(
    log: Seq<InMemoryEvent<Id, Meta>>,
    base: Option<(A, u64)>,
    id: Id::Key,
    r: Result<Option<A>, ProjectionError<InMemoryError<E>>>,
) where
    A: Aggregate,
    A::Event: ProjectionEvent<Store<Id, Meta, E>>,
    Id: StreamId,
    Meta: Clone,

    requires
        crate::store::inmemory::positioned(log),
        clones_exactly::<Meta>(),
        sound::<A, Id, Meta, E>(log, base, id),
        super::inmemory::gives_state::<A, Id, Meta, E>(log, base, id, r),
    ensures
        r is Ok <==> readable::<A, Id, Meta, E>(log, id),
        r matches Ok(state) ==> state == state_of::<A, Id, Meta, E>(log, id),
{
    if crate::store::inmemory::version_of(log, A::KIND@, id) is None {
        no_events_no_state::<A, Id, Meta, E>(log, id);
    } else {
        let loaded = choose|
            loaded: Result<Option<LoadedAggregate<A, u64>>, ProjectionError<InMemoryError<E>>>,
        |
            #[trigger] super::inmemory::loads_from_log::<A, Id, Meta, E>(log, base, id, loaded)
                && r == match loaded {
                Ok(Some(loaded)) => Ok(Some(loaded.aggregate)),
                Ok(None) => Ok(None),
                Err(error) => Err(error),
            };
        loading_gives_the_state::<A, Id, Meta, E>(log, base, id, loaded);
    }
}

/// Whether reading a record of any of `events` gives that event back: its kind is
/// one of those its type knows, and decoding undoes encoding.
pub open spec fn round_trips<T, Id, Meta, E>(events: Seq<T>) -> bool where
    T: EncodeEvent<E> + ProjectionEvent<Store<Id, Meta, E>>,
    Id: StreamId,
    Meta: Clone,
 {
    forall|i: int, stored: InMemoryEvent<Id, Meta>|
        0 <= i < events.len() && stored.kind@ == (#[trigger] events[i]).spec_kind() && events[i].json()
            == Some(stored.data) ==> {
            &&& crate::event::is_kind(T::EVENT_KINDS@, stored.kind@)
            &&& #[trigger] T::restored(stored) == Some(events[i])
        }
}

/// A commit of `events` adds them, and nothing else, to the history of its
/// instance: what was readable stays so, and `events` come back as they went in.
pub proof fn commit_extends_history<A, Id, Meta, E>(
    before: Seq<InMemoryEvent<Id, Meta>>,
    after: Seq<InMemoryEvent<Id, Meta>>,
    id: Id::Key,
    events: Seq<A::Event>,
    metadata: Meta,
) where
    A: Aggregate,
    A::Event: ProjectionEvent<Store<Id, Meta, E>> + EncodeEvent<E>,
    Id: StreamId,
    Meta: Clone,

    requires
        super::inmemory::all_json::<E, A::Event>(events),
        round_trips::<A::Event, Id, Meta, E>(events),
        crate::store::inmemory::appended(
            before,
            after,
            A::KIND@,
            id,
            super::inmemory::json_of::<E, A::Event>(events),
            metadata,
        ),
    ensures
        readable::<A, Id, Meta, E>(after, id) <==> readable::<A, Id, Meta, E>(before, id),
        super::restored_all::<Store<Id, Meta, E>, A::Event>(
            history::<A, Id, Meta, E>(after, id),
        ) == super::restored_all::<Store<Id, Meta, E>, A::Event>(
            history::<A, Id, Meta, E>(before, id),
        ) + events,
{
    let stored = after.skip(before.len() as int);
    let selectors = instance_events::<A, Id, Meta, E>(id);
    let pred = crate::store::inmemory::accepted_by::<Id, Meta>(selectors);
    let kinds = <A::Event as ProjectionEvent<Store<Id, Meta, E>>>::EVENT_KINDS@;
    assert(after == before + stored);
    assert forall|i: int| 0 <= i < stored.len() implies pred(#[trigger] stored[i])
        && <A::Event as ProjectionEvent<Store<Id, Meta, E>>>::restored(stored[i]) == Some(
        events[i],
    ) by {
        assert(stored[i] == after[before.len() + i]);
        assert(events[i].json() is Some);
        assert(stored[i].kind@ == events[i].spec_kind());
        assert(<A::Event as ProjectionEvent<Store<Id, Meta, E>>>::restored(stored[i]) == Some(
            events[i],
        ));
        let k = choose|k: int| 0 <= k < kinds.len() && (#[trigger] kinds[k])@ == stored[i].kind@;
        assert(crate::store::inmemory::accepts(selectors[k], stored[i]));
    }
    Seq::filter_distributes_over_add(before, stored, pred);
    crate::store::inmemory::lemma_filter_keeps_all(stored, pred);
    lemma_restored_add::<A, Id, Meta, E>(history::<A, Id, Meta, E>(before, id), stored);
    assert(super::restored_all::<Store<Id, Meta, E>, A::Event>(stored) == events);
}

/// What a command wrote is what the next load reads: once the events of a decision
/// are committed, the state of the instance is the state that the decision led to.
pub proof fn writes_are_read_back<A, Id, Meta, E>(
    before: Seq<InMemoryEvent<Id, Meta>>,
    after: Seq<InMemoryEvent<Id, Meta>>,
    base: Option<(A, u64)>,
    id: Id::Key,
    pending: Pending<A, u64>,
    metadata: Meta,
) where
    A: Aggregate,
    A::Event: ProjectionEvent<Store<Id, Meta, E>> + EncodeEvent<E>,
    Id: StreamId,
    Meta: Clone,

    requires
        crate::store::inmemory::positioned(before),
        clones_exactly::<Meta>(),
        sound::<A, Id, Meta, E>(before, base, id),
        super::inmemory::loads_from_log::<A, Id, Meta, E>(before, base, id, Ok(pending.base)),
        super::inmemory::all_json::<E, A::Event>(crate::store::batch(pending.events)),
        round_trips::<A::Event, Id, Meta, E>(crate::store::batch(pending.events)),
        crate::store::inmemory::appended(
            before,
            after,
            A::KIND@,
            id,
            super::inmemory::json_of::<E, A::Event>(crate::store::batch(pending.events)),
            metadata,
        ),
    ensures
        readable::<A, Id, Meta, E>(after, id),
        pending.spec_state() is Some,
        state_of::<A, Id, Meta, E>(after, id) == pending.spec_state(),
{
    let events = crate::store::batch(pending.events);
    loading_gives_the_state::<A, Id, Meta, E>(before, base, id, Ok(pending.base));
    commit_extends_history::<A, Id, Meta, E>(before, after, id, events, metadata);
    let old_events = super::restored_all::<Store<Id, Meta, E>, A::Event>(
        history::<A, Id, Meta, E>(before, id),
    );
    if old_events.len() > 0 {
        crate::aggregate::rebuilding_resumes::<A>(old_events, events);
    } else {
        assert(old_events + events == events);
    }
}

/// A snapshot that is offered after a commit is the state at its position, so one
/// that is held stays sound: every operation of the repository that commits keeps
/// the snapshots of the instance sound.
pub proof fn snapshots_stay_sound<A, Id, Meta, E, C, F>(
    before: Repository<
        Store<Id, Meta, E>,
        C,
        Snapshots<snapshot::inmemory::Store<Id, u64, F>>,
    >,
    after: Repository<Store<Id, Meta, E>, C, Snapshots<snapshot::inmemory::Store<Id, u64, F>>>,
    id: Id::Key,
    pending: Pending<A, u64>,
    metadata: Meta,
    r: Result<
        (),
        CommandError<
            A::Error,
            C::ConcurrencyError,
            InMemoryError<E>,
            snapshot::inmemory::Error<F>,
        >,
    >,
) where
    A: Aggregate + SnapshotState<F>,
    A::Event: ProjectionEvent<Store<Id, Meta, E>> + EncodeEvent<E>,
    Id: StreamId,
    Meta: Clone,
    C: CommitPolicy,

    requires
        crate::store::inmemory::positioned(before.store.log()),
        after.store.log().len() <= u64::MAX,
        clones_exactly::<Meta>(),
        forall|state: A, value: Value|
            #![trigger state.frozen(), A::revived(value)]
            state.frozen() == Some(value) ==> A::revived(value) == Some(state),
        sound::<A, Id, Meta, E>(before.store.log(), before.snapshots.base(A::KIND@, id), id),
        super::inmemory::loads_from_log::<A, Id, Meta, E>(
            before.store.log(),
            before.snapshots.base(A::KIND@, id),
            id,
            Ok(pending.base),
        ),
        round_trips::<A::Event, Id, Meta, E>(crate::store::batch(pending.events)),
        super::inmemory::persists::<
            A,
            Id,
            Meta,
            E,
            C,
            Snapshots<snapshot::inmemory::Store<Id, u64, F>>,
        >(before, after, id, pending, metadata, r),
    ensures
        sound::<A, Id, Meta, E>(after.store.log(), after.snapshots.base(A::KIND@, id), id),
{
    let log = before.store.log();
    let grown = after.store.log();
    let base: Option<(A, u64)> = before.snapshots.base(A::KIND@, id);
    let events = crate::store::batch(pending.events);
    let actual = crate::store::inmemory::version_of(log, A::KIND@, id);
    if super::inmemory::all_json::<E, A::Event>(events) && !(C::checks_version()
        && pending.spec_expected_version() != actual) {
        writes_are_read_back::<A, Id, Meta, E>(log, grown, base, id, pending, metadata);
        assert(grown.take(grown.len() as int) == grown);
        if let Some((_, position)) = base {
            assert(grown.take(position + 1) == log.take(position + 1));
        }
        let now: Option<(A, u64)> = after.snapshots.base(A::KIND@, id);
        let offered = super::inmemory::offered_with::<A>(pending, grown.len(), true);
        assert(now == base || now == Some((pending.spec_state()->0, offered.position)));
    }
}

/// Whether every event in the stream of one instance is of a kind that its event
/// type knows.
pub open spec fn all_known<A, Id, Meta, E>(log: Seq<InMemoryEvent<Id, Meta>>, id: Id::Key) -> bool where
    A: Aggregate,
    A::Event: ProjectionEvent<Store<Id, Meta, E>>,
    Id: StreamId,
    Meta: Clone,
 {
    forall|p: int|
        0 <= p < log.len() && crate::store::inmemory::in_stream::<Id, Meta>(A::KIND@, id)(
            #[trigger] log[p],
        ) ==> crate::event::is_kind(
            <A::Event as ProjectionEvent<Store<Id, Meta, E>>>::EVENT_KINDS@,
            log[p].kind@,
        )
}

/// Where all kinds are known, the history of an instance is its stream.
pub proof fn history_is_the_stream<A, Id, Meta, E>(
    log: Seq<InMemoryEvent<Id, Meta>>,
    id: Id::Key,
) where
    A: Aggregate,
    A::Event: ProjectionEvent<Store<Id, Meta, E>>,
    Id: StreamId,
    Meta: Clone,

    requires
        all_known::<A, Id, Meta, E>(log, id),
    ensures
        history::<A, Id, Meta, E>(log, id) == crate::store::inmemory::stream_of(
            log,
            A::KIND@,
            id,
        ),
{
    let selectors = instance_events::<A, Id, Meta, E>(id);
    let pred = crate::store::inmemory::accepted_by::<Id, Meta>(selectors);
    let within = crate::store::inmemory::in_stream::<Id, Meta>(A::KIND@, id);
    let kinds = <A::Event as ProjectionEvent<Store<Id, Meta, E>>>::EVENT_KINDS@;
    assert forall|p: int| 0 <= p < log.len() implies pred(#[trigger] log[p]) == within(
        log[p],
    ) by {
        if pred(log[p]) {
            let k = choose|k: int|
                0 <= k < selectors.len() && crate::store::inmemory::accepts(
                    #[trigger] selectors[k],
                    log[p],
                );
            assert(selectors[k].aggregate_kind == Some(A::KIND@));
        }
        if within(log[p]) {
            let k = choose|k: int| 0 <= k < kinds.len() && (#[trigger] kinds[k])@ == log[p].kind@;
            assert(crate::store::inmemory::accepts(selectors[k], log[p]));
        }
    }
    crate::store::laws::lemma_filter_same(log, pred, within);
}

/// A load reports the version of the stream, so a command that is decided on it and
/// committed before anyone else writes never conflicts.
pub proof fn fresh_loads_do_not_conflict<A, Id, Meta, E>(
    log: Seq<InMemoryEvent<Id, Meta>>,
    base: Option<(A, u64)>,
    id: Id::Key,
    loaded: Option<LoadedAggregate<A, u64>>,
) where
    A: Aggregate,
    A::Event: ProjectionEvent<Store<Id, Meta, E>>,
    Id: StreamId,
    Meta: Clone,

    requires
        crate::store::inmemory::positioned(log),
        all_known::<A, Id, Meta, E>(log, id),
        base matches Some((_, position)) ==> position < log.len()
            && crate::store::inmemory::version_of(log.take(position + 1), A::KIND@, id) == Some(
            position,
        ),
        super::inmemory::loads_from_log::<A, Id, Meta, E>(log, base, id, Ok(loaded)),
    ensures
        crate::store::inmemory::version_of(log, A::KIND@, id) == match loaded {
            Some(loaded) => loaded.version,
            None => None,
        },
{
    let found = crate::store::inmemory::matching(
        log,
        super::inmemory::instance_selectors(
            <A::Event as ProjectionEvent<Store<Id, Meta, E>>>::EVENT_KINDS@,
            A::KIND@,
            id,
            super::inmemory::base_position(base),
        ),
    );
    let events = choose|events: Seq<InMemoryEvent<Id, Meta>>|
        #[trigger] crate::store::inmemory::copies_of(found, events) && super::loads::<
            A,
            Store<Id, Meta, E>,
        >(base, events, Ok(loaded));
    if found.len() > 0 {
        assert(crate::store::inmemory::copy_of(found.last(), events.last()));
    }
    history_is_the_stream::<A, Id, Meta, E>(log, id);
    match base {
        Some((_, position)) => {
            let head = log.take(position + 1);
            lemma_instance_after::<A, Id, Meta, E>(id, position);
            crate::store::laws::loading_splits_at_a_position(
                log,
                instance_events::<A, Id, Meta, E>(id),
                position,
            );
            assert forall|p: int|
                0 <= p < head.len() && crate::store::inmemory::in_stream::<Id, Meta>(
                    A::KIND@,
                    id,
                )(#[trigger] head[p]) implies crate::event::is_kind(
                <A::Event as ProjectionEvent<Store<Id, Meta, E>>>::EVENT_KINDS@,
                head[p].kind@,
            ) by {
                assert(head[p] == log[p]);
            }
            history_is_the_stream::<A, Id, Meta, E>(head, id);
        },
        None => {},
    }
}

/// A decision that was made on a version which another writer has since moved is
/// turned away, and nothing is written.
pub proof fn stale_decisions_conflict<A, Id, Meta, E, C, M>(
    seen: Seq<InMemoryEvent<Id, Meta>>,
    staged: Seq<(Seq<char>, Value)>,
    foreign: Meta,
    before: Repository<Store<Id, Meta, E>, C, M>,
    after: Repository<Store<Id, Meta, E>, C, M>,
    id: Id::Key,
    pending: Pending<A, u64>,
    metadata: Meta,
    r: Result<
        (),
        CommandError<A::Error, C::ConcurrencyError, InMemoryError<E>, M::SnapshotError>,
    >,
) where
    A: Aggregate,
    A::Event: EncodeEvent<E>,
    Id: StreamId,
    Meta: Clone,
    C: CommitPolicy,
    M: SnapshotPolicy<A, Id>,

    requires
        crate::store::inmemory::positioned(seen),
        C::checks_version(),
        pending.spec_expected_version() == crate::store::inmemory::version_of(seen, A::KIND@, id),
        staged.len() > 0,
        crate::store::inmemory::appended(
            seen,
            before.store.log(),
            A::KIND@,
            id,
            staged,
            foreign,
        ),
        before.store.log().len() <= u64::MAX,
        super::inmemory::all_json::<E, A::Event>(crate::store::batch(pending.events)),
        super::inmemory::persists(before, after, id, pending, metadata, r),
    ensures
        r matches Err(CommandError::Concurrency(_)),
        super::inmemory::unchanged(before, after),
{
    crate::store::laws::second_writer_conflicts(
        seen,
        before.store.log(),
        A::KIND@,
        id,
        staged,
        foreign,
    );
}

/// A command that fails leaves no trace, unless all that failed is the snapshot
/// after its events were committed.
pub proof fn failed_commands_leave_no_trace<A, Id, Meta, E, C, M>(
    before: Repository<Store<Id, Meta, E>, C, M>,
    after: Repository<Store<Id, Meta, E>, C, M>,
    id: Id::Key,
    base: Option<LoadedAggregate<A, u64>>,
    answer: Result<Option<NonEmpty<A::Event>>, A::Error>,
    metadata: Meta,
    r: Result<
        (),
        CommandError<A::Error, C::ConcurrencyError, InMemoryError<E>, M::SnapshotError>,
    >,
) where
    A: Aggregate,
    A::Event: EncodeEvent<E>,
    Id: StreamId,
    Meta: Clone,
    C: CommitPolicy,
    M: SnapshotPolicy<A, Id>,

    requires
        super::inmemory::carries_out(before, after, id, base, answer, metadata, r),
        r is Err,
        !(r matches Err(CommandError::Snapshot(_))),
    ensures
        super::inmemory::unchanged(before, after),
{
}

/// Without version checks a commit never conflicts: the last writer wins.
pub proof fn unchecked_writers_never_conflict<A, Id, Meta, E, C, M>(
    before: Repository<Store<Id, Meta, E>, C, M>,
    after: Repository<Store<Id, Meta, E>, C, M>,
    id: Id::Key,
    pending: Pending<A, u64>,
    metadata: Meta,
    r: Result<
        (),
        CommandError<A::Error, C::ConcurrencyError, InMemoryError<E>, M::SnapshotError>,
    >,
) where
    A: Aggregate,
    A::Event: EncodeEvent<E>,
    Id: StreamId,
    Meta: Clone,
    C: CommitPolicy,
    M: SnapshotPolicy<A, Id>,

    requires
        !C::checks_version(),
        super::inmemory::all_json::<E, A::Event>(crate::store::batch(pending.events)),
        super::inmemory::persists(before, after, id, pending, metadata, r),
    ensures
        !(r matches Err(CommandError::Concurrency(_))),
        crate::store::inmemory::appended(
            before.store.log(),
            after.store.log(),
            A::KIND@,
            id,
            super::inmemory::json_of::<E, A::Event>(crate::store::batch(pending.events)),
            metadata,
        ),
{
}

} // verus!
