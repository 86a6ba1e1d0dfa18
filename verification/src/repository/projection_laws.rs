//! What holds of projections over the in-memory store as a whole.

use serde_json::Value;
use vstd::prelude::*;

use super::{inmemory::SnapshotState, Snapshots};
use crate::{
    event::{DecodeEvent, ProjectionEvent},
    projection::{
        ApplyProjection, DomainHandler, EventHandler, Filters, HandlerError, Handlers, Projection,
        ProjectionError, ProjectionFilters, Subscribable, SumHandler,
    },
    snapshot,
    store::{
        inmemory::{InMemoryError, InMemoryEvent, Store},
        EventStore, Selector, StoredEvent, StreamId,
    },
};

verus! {

/// Whether what replaying starts from is what the events up to its position build
/// out of `initial`.
pub open spec fn projection_sound<P, Id, Meta, E>(
    log: Seq<InMemoryEvent<Id, Meta>>,
    filters: Filters<Store<Id, Meta, E>, P, P::Handler>,
    initial: P,
    base: Option<(P, u64)>,
) -> bool where P: ProjectionFilters<Store<Id, Meta, E>>, Id: StreamId, Meta: Clone {
    base matches Some((state, position)) ==> {
        &&& position < log.len()
        &&& super::inmemory::projection_built::<P, Id, Meta, E>(
            log.take(position + 1),
            filters,
            initial,
            None,
            Ok(state),
        )
    }
}

/// Copies of two lists, one after the other, are copies of both.
pub proof fn lemma_copies_add<Id: StreamId, Meta: Clone>(
    first: Seq<InMemoryEvent<Id, Meta>>,
    first_copies: Seq<InMemoryEvent<Id, Meta>>,
    second: Seq<InMemoryEvent<Id, Meta>>,
    second_copies: Seq<InMemoryEvent<Id, Meta>>,
)
    requires
        crate::store::inmemory::copies_of(first, first_copies),
        crate::store::inmemory::copies_of(second, second_copies),
    ensures
        crate::store::inmemory::copies_of(first + second, first_copies + second_copies),
{
    let copies = first_copies + second_copies;
    assert forall|i: int| 0 <= i < copies.len() implies crate::store::inmemory::copy_of(
        (first + second)[i],
        #[trigger] copies[i],
    ) by {
        if i < first_copies.len() {
            assert(copies[i] == first_copies[i]);
        } else {
            assert(copies[i] == second_copies[i - first_copies.len()]);
        }
    }
}

/// Selectors for what comes after a position are those for everything, narrowed.
proof fn lemma_narrowed<Key>(specs: Seq<Selector<Key, ()>>, position: u64)
    ensures
        super::inmemory::positioned_selectors(specs, Some(position))
            == crate::store::laws::all_after(
            super::inmemory::positioned_selectors(specs, None),
            position,
        ),
        crate::store::laws::unpositioned(super::inmemory::positioned_selectors(specs, None)),
{
}

/// Loading a projection from a sound snapshot gives what replaying every event gives:
/// snapshots save time and change nothing.
pub proof fn snapshots_do_not_change_projections<P, Id, Meta, E>(
    log: Seq<InMemoryEvent<Id, Meta>>,
    filters: Filters<Store<Id, Meta, E>, P, P::Handler>,
    initial: P,
    base: Option<(P, u64)>,
    projection: P,
) where P: ProjectionFilters<Store<Id, Meta, E>>, Id: StreamId, Meta: Clone
    requires
        crate::store::inmemory::positioned(log),
        projection_sound::<P, Id, Meta, E>(log, filters, initial, base),
        super::inmemory::projection_built::<P, Id, Meta, E>(
            log,
            filters,
            match base {
                Some((state, _)) => state,
                None => initial,
            },
            super::inmemory::base_position(base),
            Ok(projection),
        ),
    ensures
        super::inmemory::projection_built::<P, Id, Meta, E>(
            log,
            filters,
            initial,
            None,
            Ok(projection),
        ),
{
    if let Some((state, position)) = base {
        let specs = crate::store::selectors(filters.specs@);
        let every = super::inmemory::positioned_selectors(specs, None);
        let later = super::inmemory::positioned_selectors(specs, Some(position));
        lemma_narrowed(specs, position);
        crate::store::laws::loading_splits_at_a_position(log, every, position);
        let head = crate::store::inmemory::matching(log.take(position + 1), every);
        let tail = crate::store::inmemory::matching(log, later);
        let first = choose|events: Seq<InMemoryEvent<Id, Meta>>|
            {
                &&& #[trigger] crate::store::inmemory::copies_of(head, events)
                &&& super::projects_all::<P, Store<Id, Meta, E>, P::Handler>(
                    filters.handlers,
                    initial,
                    events,
                    state,
                )
            };
        let second = choose|events: Seq<InMemoryEvent<Id, Meta>>|
            {
                &&& #[trigger] crate::store::inmemory::copies_of(tail, events)
                &&& super::projects_all::<P, Store<Id, Meta, E>, P::Handler>(
                    filters.handlers,
                    state,
                    events,
                    projection,
                )
            };
        lemma_copies_add(head, first, tail, second);
        super::projecting_composes::<P, Store<Id, Meta, E>, P::Handler>(
            filters.handlers,
            initial,
            first,
            second,
            projection,
        );
    }
}

/// Nothing that matches comes after the last event that matches.
pub proof fn lemma_nothing_after_the_last<Id: StreamId, Meta>(
    log: Seq<InMemoryEvent<Id, Meta>>,
    specs: Seq<Selector<Id::Key, ()>>,
    after: Option<u64>,
)
    requires
        crate::store::inmemory::positioned(log),
        crate::store::inmemory::matching(
            log,
            super::inmemory::positioned_selectors(specs, after),
        ).len() > 0,
    ensures
        ({
            let last = crate::store::inmemory::matching(
                log,
                super::inmemory::positioned_selectors(specs, after),
            ).last().position;
            let every = super::inmemory::positioned_selectors(specs, None);
            &&& last < log.len()
            &&& crate::store::inmemory::matching(log, every) == crate::store::inmemory::matching(
                log.take(last + 1),
                every,
            )
        }),
{
    let selectors = super::inmemory::positioned_selectors(specs, after);
    let found = crate::store::inmemory::matching(log, selectors);
    let pred = crate::store::inmemory::accepted_by::<Id, Meta>(selectors);
    let last = found.last().position;
    let every = super::inmemory::positioned_selectors(specs, None);
    let later = super::inmemory::positioned_selectors(specs, Some(last));
    let beyond = crate::store::inmemory::accepted_by::<Id, Meta>(later);
    let rest = crate::store::inmemory::matching(log, later);
    assert(found.contains(found.last()));
    log.lemma_filter_contains_rev(pred, found.last());
    crate::store::inmemory::lemma_filter_ascending(log, pred);
    log.lemma_filter_pred(pred, found.len() - 1);
    if rest.len() > 0 {
        let event = rest[0];
        assert(rest.contains(event));
        log.lemma_filter_contains_rev(beyond, event);
        log.lemma_filter_pred(beyond, 0);
        let p = choose|p: int| 0 <= p < log.len() && log[p] == event;
        let k = choose|k: int|
            0 <= k < later.len() && crate::store::inmemory::accepts(#[trigger] later[k], event);
        let j = choose|j: int|
            0 <= j < selectors.len() && crate::store::inmemory::accepts(
                #[trigger] selectors[j],
                found.last(),
            );
        assert(selectors[j].after_position == after);
        assert(event.position > last);
        assert(crate::store::inmemory::accepts(selectors[k], event));
        assert(pred(log[p]));
        log.lemma_filter_contains(pred, p);
        let q = choose|q: int| 0 <= q < found.len() && found[q] == event;
        assert(found[q].position <= last);
        assert(false);
    }
    lemma_narrowed(specs, last);
    crate::store::laws::loading_splits_at_a_position(log, every, last);
    assert(rest == Seq::<InMemoryEvent<Id, Meta>>::empty());
}

/// A snapshot that is offered after a projection was loaded is what the events up to
/// its position build, so loading keeps the snapshots sound.
pub proof fn loading_keeps_projection_snapshots_sound<P, Id, Meta, E, Inst, F>(
    log: Seq<InMemoryEvent<Id, Meta>>,
    filters: Filters<Store<Id, Meta, E>, P, P::Handler>,
    initial: P,
    before: Snapshots<snapshot::inmemory::Store<Inst, u64, F>>,
    after: Snapshots<snapshot::inmemory::Store<Inst, u64, F>>,
    kind: Seq<char>,
    instance_id: Inst::Key,
    projection: P,
) where
    P: ProjectionFilters<Store<Id, Meta, E>> + SnapshotState<F>,
    Id: StreamId,
    Meta: Clone,
    Inst: StreamId,

    requires
        crate::store::inmemory::positioned(log),
        forall|state: P, value: Value|
            #![trigger state.frozen(), P::revived(value)]
            state.frozen() == Some(value) ==> P::revived(value) == Some(state),
        ({
            let base: Option<(P, u64)> = super::inmemory::SnapshotPolicy::<P, Inst>::base(
                &before,
                kind,
                instance_id,
            );
            &&& projection_sound::<P, Id, Meta, E>(log, filters, initial, base)
            &&& super::inmemory::projection_built::<P, Id, Meta, E>(
                log,
                filters,
                match base {
                    Some((state, _)) => state,
                    None => initial,
                },
                super::inmemory::base_position(base),
                Ok(projection),
            )
            &&& super::inmemory::offers_projection::<P, Inst, Id, Meta, F>(
                before,
                after,
                kind,
                instance_id,
                crate::store::inmemory::matching(
                    log,
                    super::inmemory::positioned_selectors(
                        crate::store::selectors(filters.specs@),
                        super::inmemory::base_position(base),
                    ),
                ),
                projection,
            )
        }),
    ensures
        projection_sound::<P, Id, Meta, E>(
            log,
            filters,
            initial,
            super::inmemory::SnapshotPolicy::<P, Inst>::base(&after, kind, instance_id),
        ),
{
    let base: Option<(P, u64)> = super::inmemory::SnapshotPolicy::<P, Inst>::base(
        &before,
        kind,
        instance_id,
    );
    let specs = crate::store::selectors(filters.specs@);
    let found = crate::store::inmemory::matching(
        log,
        super::inmemory::positioned_selectors(specs, super::inmemory::base_position(base)),
    );
    if found.len() > 0 {
        let last = found.last().position;
        snapshots_do_not_change_projections::<P, Id, Meta, E>(
            log,
            filters,
            initial,
            base,
            projection,
        );
        lemma_nothing_after_the_last(log, specs, super::inmemory::base_position(base));
        assert(super::inmemory::projection_built::<P, Id, Meta, E>(
            log.take(last + 1),
            filters,
            initial,
            None,
            Ok(projection),
        ));
        let now: Option<(P, u64)> = super::inmemory::SnapshotPolicy::<P, Inst>::base(
            &after,
            kind,
            instance_id,
        );
        assert(now == base || now == Some((projection, last)));
    }
}

/// Later commits do not make a projection snapshot unsound.
pub proof fn commits_keep_projection_snapshots_sound<P, Id, Meta, E>(
    log: Seq<InMemoryEvent<Id, Meta>>,
    grown: Seq<InMemoryEvent<Id, Meta>>,
    filters: Filters<Store<Id, Meta, E>, P, P::Handler>,
    initial: P,
    base: Option<(P, u64)>,
) where P: ProjectionFilters<Store<Id, Meta, E>>, Id: StreamId, Meta: Clone
    requires
        log.len() <= grown.len(),
        grown.take(log.len() as int) == log,
        projection_sound::<P, Id, Meta, E>(log, filters, initial, base),
    ensures
        projection_sound::<P, Id, Meta, E>(grown, filters, initial, base),
{
    if let Some((_, position)) = base {
        assert(grown.take(position + 1) == log.take(position + 1));
    }
}

/// Whether handlers of type `H` leave no choice: an event takes a state to one other at
/// most, and is not refused where it takes a state anywhere.
pub open spec fn handles_exactly<P, S: EventStore, H: EventHandler<P, S>>() -> bool {
    &&& forall|
        handler: H,
        before: P,
        stored: StoredEvent<S::Id, S::Position, S::Data, S::Metadata>,
        one: P,
        other: P,
    | #[trigger]
        handler.handled(before, stored, one) && #[trigger] handler.handled(before, stored, other)
            ==> one == other
    &&& forall|
        handler: H,
        before: P,
        stored: StoredEvent<S::Id, S::Position, S::Data, S::Metadata>,
        after: P,
        error: HandlerError<S::Error>,
    | #[trigger]
        handler.handled(before, stored, after) ==> !#[trigger] handler.refused(stored, error)
}

/// Whether converting a value always gives the same.
pub open spec fn converts_exactly<M: Into<N>, N>() -> bool {
    forall|value: M, one: N, other: N| #[trigger]
        call_ensures(<M as Into<N>>::into, (value,), one) && #[trigger] call_ensures(
            <M as Into<N>>::into,
            (value,),
            other,
        ) ==> one == other
}

/// Where metadata clones and converts exactly, only one conversion can come of it.
proof fn lemma_converts_to_one<M: Clone + Into<N>, N>(metadata: M, one: N, other: N)
    requires
        super::laws::clones_exactly::<M>(),
        converts_exactly::<M, N>(),
        crate::projection::metadata_converts(metadata, one),
        crate::projection::metadata_converts(metadata, other),
    ensures
        one == other,
{
    let first = choose|copy: M|
        cloned(metadata, copy) && #[trigger] call_ensures(<M as Into<N>>::into, (copy,), one);
    let second = choose|copy: M|
        cloned(metadata, copy) && #[trigger] call_ensures(<M as Into<N>>::into, (copy,), other);
    assert(first == metadata && second == metadata);
}

/// Handlers of one event type leave no choice where metadata clones and converts
/// exactly.
pub proof fn domain_handlers_are_exact<P, S, E>() where
    S: EventStore,
    P: ApplyProjection<E> + Subscribable<Id = S::Id>,
    E: DecodeEvent<S>,
    S::Metadata: Clone + Into<<P as Subscribable>::Metadata>,

    requires
        super::laws::clones_exactly::<S::Metadata>(),
        converts_exactly::<S::Metadata, <P as Subscribable>::Metadata>(),
    ensures
        handles_exactly::<P, S, DomainHandler<E>>(),
{
    assert forall|
        handler: DomainHandler<E>,
        before: P,
        stored: StoredEvent<S::Id, S::Position, S::Data, S::Metadata>,
        one: P,
        other: P,
    | #[trigger]
        EventHandler::<P, S>::handled(&handler, before, stored, one) && #[trigger] EventHandler::<
            P,
            S,
        >::handled(&handler, before, stored, other) implies one == other by {
        lemma_projects_to_one::<P, S, E>(before, stored, E::decoded(stored)->0, one, other);
    }
}

/// Handlers of a sum type leave no choice where metadata clones and converts exactly.
pub proof fn sum_handlers_are_exact<P, S, E>() where
    S: EventStore,
    P: ApplyProjection<E> + Subscribable<Id = S::Id>,
    E: ProjectionEvent<S>,
    S::Metadata: Clone + Into<<P as Subscribable>::Metadata>,

    requires
        super::laws::clones_exactly::<S::Metadata>(),
        converts_exactly::<S::Metadata, <P as Subscribable>::Metadata>(),
    ensures
        handles_exactly::<P, S, SumHandler<E>>(),
{
    assert forall|
        handler: SumHandler<E>,
        before: P,
        stored: StoredEvent<S::Id, S::Position, S::Data, S::Metadata>,
        one: P,
        other: P,
    | #[trigger]
        EventHandler::<P, S>::handled(&handler, before, stored, one) && #[trigger] EventHandler::<
            P,
            S,
        >::handled(&handler, before, stored, other) implies one == other by {
        lemma_projects_to_one::<P, S, E>(before, stored, E::restored(stored)->0, one, other);
    }
}

/// One event takes a state to one other where metadata clones and converts exactly.
proof fn lemma_projects_to_one<P, S, E>(
    before: P,
    stored: StoredEvent<S::Id, S::Position, S::Data, S::Metadata>,
    event: E,
    one: P,
    other: P,
) where
    S: EventStore,
    P: ApplyProjection<E> + Subscribable<Id = S::Id>,
    S::Metadata: Clone + Into<<P as Subscribable>::Metadata>,

    requires
        super::laws::clones_exactly::<S::Metadata>(),
        converts_exactly::<S::Metadata, <P as Subscribable>::Metadata>(),
        crate::projection::projects::<P, S, E>(before, stored, event, one),
        crate::projection::projects::<P, S, E>(before, stored, event, other),
    ensures
        one == other,
{
    let first = choose|metadata: <P as Subscribable>::Metadata| #[trigger]
        crate::projection::metadata_converts(stored.metadata, metadata) && one == before.projected(
            stored.aggregate_id,
            event,
            metadata,
        );
    let second = choose|metadata: <P as Subscribable>::Metadata| #[trigger]
        crate::projection::metadata_converts(stored.metadata, metadata) && other
            == before.projected(stored.aggregate_id, event, metadata);
    lemma_converts_to_one::<S::Metadata, <P as Subscribable>::Metadata>(
        stored.metadata,
        first,
        second,
    );
}

/// Runs over the same events from the same state agree where handlers leave no choice.
proof fn lemma_runs_agree<P, S: EventStore, H: EventHandler<P, S>>(
    handlers: Handlers<H>,
    same: Handlers<H>,
    one: Seq<P>,
    other: Seq<P>,
    events: Seq<StoredEvent<S::Id, S::Position, S::Data, S::Metadata>>,
    n: int,
)
    requires
        handles_exactly::<P, S, H>(),
        forall|kind: Seq<char>| #[trigger] handlers.handler_of(kind) == same.handler_of(kind),
        super::is_run::<P, S, H>(handlers, one, events),
        super::is_run::<P, S, H>(same, other, events),
        one.first() == other.first(),
        0 <= n <= events.len(),
    ensures
        one[n] == other[n],
    decreases n,
{
    if n > 0 {
        lemma_runs_agree::<P, S, H>(handlers, same, one, other, events, n - 1);
        let stored = events[n - 1];
        assert(super::steps::<P, S, H>(handlers, one[n - 1], stored, one[n]));
        assert(super::steps::<P, S, H>(same, other[n - 1], stored, other[n]));
        assert(handlers.handler_of(stored.kind@) == same.handler_of(stored.kind@));
    }
}

/// Where metadata clones exactly and handlers leave no choice, building a projection
/// with filter sets that ask for the same and handle the same comes to the same, once
/// it succeeds.
proof fn lemma_built_once<P, Id, Meta, E>(
    log: Seq<InMemoryEvent<Id, Meta>>,
    filters: Filters<Store<Id, Meta, E>, P, P::Handler>,
    same: Filters<Store<Id, Meta, E>, P, P::Handler>,
    start: P,
    after: Option<u64>,
    projection: P,
    r: Result<P, ProjectionError<InMemoryError<E>>>,
) where P: ProjectionFilters<Store<Id, Meta, E>>, Id: StreamId, Meta: Clone
    requires
        super::laws::clones_exactly::<Meta>(),
        handles_exactly::<P, Store<Id, Meta, E>, P::Handler>(),
        crate::store::selectors(filters.specs@) == crate::store::selectors(same.specs@),
        forall|kind: Seq<char>| #[trigger]
            filters.handlers.handler_of(kind) == same.handlers.handler_of(kind),
        super::inmemory::projection_built::<P, Id, Meta, E>(
            log,
            filters,
            start,
            after,
            Ok(projection),
        ),
        super::inmemory::projection_built::<P, Id, Meta, E>(log, same, start, after, r),
    ensures
        r == Ok::<P, ProjectionError<InMemoryError<E>>>(projection),
{
    let specs = crate::store::selectors(filters.specs@);
    let found = crate::store::inmemory::matching(
        log,
        super::inmemory::positioned_selectors(specs, after),
    );
    let one = choose|events: Seq<InMemoryEvent<Id, Meta>>|
        {
            &&& #[trigger] crate::store::inmemory::copies_of(found, events)
            &&& super::projects_all::<P, Store<Id, Meta, E>, P::Handler>(
                filters.handlers,
                start,
                events,
                projection,
            )
        };
    super::laws::loads_are_exact(found, one);
    let states = choose|states: Seq<P>| #[trigger]
        super::is_run::<P, Store<Id, Meta, E>, P::Handler>(filters.handlers, states, found)
            && states.first() == start && states.last() == projection;
    let other = choose|events: Seq<InMemoryEvent<Id, Meta>>|
        {
            &&& #[trigger] crate::store::inmemory::copies_of(found, events)
            &&& match r {
                Ok(built) => super::projects_all::<P, Store<Id, Meta, E>, P::Handler>(
                    same.handlers,
                    start,
                    events,
                    built,
                ),
                Err(ProjectionError::EventDecode(error)) => exists|i: int, reached: P|
                    {
                        &&& 0 <= i < events.len()
                        &&& #[trigger] super::projects_all::<P, Store<Id, Meta, E>, P::Handler>(
                            same.handlers,
                            start,
                            events.take(i),
                            reached,
                        )
                        &&& super::step_fails::<P, Store<Id, Meta, E>, P::Handler>(
                            same.handlers,
                            events[i],
                            error,
                        )
                    },
                Err(ProjectionError::Store(_)) => false,
            }
        };
    super::laws::loads_are_exact(found, other);
    match r {
        Ok(built) => {
            let again = choose|states: Seq<P>| #[trigger]
                super::is_run::<P, Store<Id, Meta, E>, P::Handler>(same.handlers, states, found)
                    && states.first() == start && states.last() == built;
            lemma_runs_agree::<P, Store<Id, Meta, E>, P::Handler>(
                filters.handlers,
                same.handlers,
                states,
                again,
                found,
                found.len() as int,
            );
        },
        Err(ProjectionError::EventDecode(error)) => {
            let (i, reached) = choose|i: int, reached: P|
                {
                    &&& 0 <= i < found.len()
                    &&& #[trigger] super::projects_all::<P, Store<Id, Meta, E>, P::Handler>(
                        same.handlers,
                        start,
                        found.take(i),
                        reached,
                    )
                    &&& super::step_fails::<P, Store<Id, Meta, E>, P::Handler>(
                        same.handlers,
                        found[i],
                        error,
                    )
                };
            let handler = same.handlers.handler_of(found[i].kind@)->0;
            assert(filters.handlers.handler_of(found[i].kind@) == Some(handler));
            assert(super::steps::<P, Store<Id, Meta, E>, P::Handler>(
                filters.handlers,
                states[i],
                found[i],
                states[i + 1],
            ));
            let cause = choose|cause: HandlerError<InMemoryError<E>>| #[trigger]
                handler.refused(found[i], cause) && error == cause.as_decode_error();
            assert(handler.handled(states[i], found[i], states[i + 1]));
            assert(false);
        },
        Err(ProjectionError::Store(_)) => {},
    }
}

/// A snapshot changes what loading a projection costs, never what it gives: what a load
/// from a sound snapshot returns, a load of everything returns, where metadata clones
/// exactly and handlers leave no choice.
pub proof fn both_loads_give_the_same<P, Id, Meta, E>(
    log: Seq<InMemoryEvent<Id, Meta>>,
    instance_id: P::InstanceId,
    base: Option<(P, u64)>,
    filters: Filters<Store<Id, Meta, E>, P, P::Handler>,
    projection: P,
    plain: Result<P, ProjectionError<InMemoryError<E>>>,
) where
    P: Projection + ProjectionFilters<Store<Id, Meta, E>>,
    Id: StreamId,
    Meta: Clone,

    requires
        crate::store::inmemory::positioned(log),
        super::laws::clones_exactly::<Meta>(),
        handles_exactly::<P, Store<Id, Meta, E>, P::Handler>(),
        call_ensures(
            <P as ProjectionFilters<Store<Id, Meta, E>>>::filters,
            (&instance_id,),
            filters,
        ),
        projection_sound::<P, Id, Meta, E>(log, filters, P::initial(instance_id), base),
        super::inmemory::loads_projection::<P, Id, Meta, E>(log, instance_id, base, Ok(projection)),
        super::inmemory::loads_projection::<P, Id, Meta, E>(log, instance_id, None, plain),
    ensures
        plain == Ok::<P, ProjectionError<InMemoryError<E>>>(projection),
{
    let initial = P::initial(instance_id);
    let from = choose|from: Filters<Store<Id, Meta, E>, P, P::Handler>| #[trigger]
        call_ensures(
            <P as ProjectionFilters<Store<Id, Meta, E>>>::filters,
            (&instance_id,),
            from,
        ) && super::inmemory::projection_built::<P, Id, Meta, E>(
            log,
            from,
            super::inmemory::projection_start(base, instance_id),
            super::inmemory::base_position(base),
            Ok(projection),
        );
    let whole = choose|whole: Filters<Store<Id, Meta, E>, P, P::Handler>| #[trigger]
        call_ensures(
            <P as ProjectionFilters<Store<Id, Meta, E>>>::filters,
            (&instance_id,),
            whole,
        ) && super::inmemory::projection_built::<P, Id, Meta, E>(log, whole, initial, None, plain);
    if let Some((state, position)) = base {
        lemma_built_alike::<P, Id, Meta, E>(
            log.take(position + 1),
            filters,
            from,
            initial,
            None,
            state,
        );
    }
    snapshots_do_not_change_projections::<P, Id, Meta, E>(log, from, initial, base, projection);
    lemma_built_once::<P, Id, Meta, E>(log, from, whole, initial, None, projection, plain);
}

/// Filter sets that ask for the same and handle the same build the same.
proof fn lemma_built_alike<P, Id, Meta, E>(
    log: Seq<InMemoryEvent<Id, Meta>>,
    filters: Filters<Store<Id, Meta, E>, P, P::Handler>,
    same: Filters<Store<Id, Meta, E>, P, P::Handler>,
    start: P,
    after: Option<u64>,
    projection: P,
) where P: ProjectionFilters<Store<Id, Meta, E>>, Id: StreamId, Meta: Clone
    requires
        crate::store::selectors(filters.specs@) == crate::store::selectors(same.specs@),
        forall|kind: Seq<char>| #[trigger]
            filters.handlers.handler_of(kind) == same.handlers.handler_of(kind),
        super::inmemory::projection_built::<P, Id, Meta, E>(
            log,
            filters,
            start,
            after,
            Ok(projection),
        ),
    ensures
        super::inmemory::projection_built::<P, Id, Meta, E>(
            log,
            same,
            start,
            after,
            Ok(projection),
        ),
{
    let specs = crate::store::selectors(filters.specs@);
    let found = crate::store::inmemory::matching(
        log,
        super::inmemory::positioned_selectors(specs, after),
    );
    let events = choose|events: Seq<InMemoryEvent<Id, Meta>>|
        {
            &&& #[trigger] crate::store::inmemory::copies_of(found, events)
            &&& super::projects_all::<P, Store<Id, Meta, E>, P::Handler>(
                filters.handlers,
                start,
                events,
                projection,
            )
        };
    let states = choose|states: Seq<P>| #[trigger]
        super::is_run::<P, Store<Id, Meta, E>, P::Handler>(filters.handlers, states, events)
            && states.first() == start && states.last() == projection;
    assert forall|i: int| 0 <= i < events.len() implies super::steps::<
        P,
        Store<Id, Meta, E>,
        P::Handler,
    >(same.handlers, states[i], #[trigger] events[i], states[i + 1]) by {
        assert(super::steps::<P, Store<Id, Meta, E>, P::Handler>(
            filters.handlers,
            states[i],
            events[i],
            states[i + 1],
        ));
        assert(filters.handlers.handler_of(events[i].kind@) == same.handlers.handler_of(
            events[i].kind@,
        ));
    }
    assert(super::is_run::<P, Store<Id, Meta, E>, P::Handler>(same.handlers, states, events));
}

/// Whether `filters` subscribe to `event`: one of them has its kind and, where it says more,
/// its stream.
pub open spec fn subscribed<P, Id, Meta, E, H>(
    filters: Filters<Store<Id, Meta, E>, P, H>,
    event: InMemoryEvent<Id, Meta>,
) -> bool where Id: StreamId, Meta: Clone {
    exists|j: int|
        {
            &&& 0 <= j < filters.specs@.len()
            &&& (#[trigger] filters.specs@[j]).event_kind@ == event.kind@
            &&& filters.specs@[j].aggregate_kind is Some ==> filters.specs@[j].aggregate_kind->0@
                == event.aggregate_kind@
            &&& filters.specs@[j].aggregate_id is Some ==> filters.specs@[j].aggregate_id->0.key()
                == event.aggregate_id.key()
        }
}

/// What the filters of a projection pick from a log that grew by one event is what they
/// picked before and, where they subscribe to it, that event.
proof fn lemma_picked_grows<P, Id, Meta, E, H>(
    log: Seq<InMemoryEvent<Id, Meta>>,
    event: InMemoryEvent<Id, Meta>,
    filters: Filters<Store<Id, Meta, E>, P, H>,
    after: Option<u64>,
) where Id: StreamId, Meta: Clone
    requires
        after is Some ==> after->0 < event.position,
    ensures
        crate::store::inmemory::matching(
            log.push(event),
            super::inmemory::positioned_selectors(crate::store::selectors(filters.specs@), after),
        ) == {
            let found = crate::store::inmemory::matching(
                log,
                super::inmemory::positioned_selectors(
                    crate::store::selectors(filters.specs@),
                    after,
                ),
            );
            if subscribed(filters, event) {
                found.push(event)
            } else {
                found
            }
        },
{
    let selectors = super::inmemory::positioned_selectors(
        crate::store::selectors(filters.specs@),
        after,
    );
    let pred = crate::store::inmemory::accepted_by::<Id, Meta>(selectors);
    reveal(Seq::filter);
    assert(log.push(event).drop_last() == log);
    assert(log.push(event).last() == event);
    assert forall|j: int| 0 <= j < filters.specs@.len() implies {
        let spec_ = #[trigger] filters.specs@[j];
        &&& selectors[j].event_kind == spec_.event_kind@
        &&& selectors[j].aggregate_kind is Some <==> spec_.aggregate_kind is Some
        &&& spec_.aggregate_kind is Some ==> selectors[j].aggregate_kind->0
            == spec_.aggregate_kind->0@
        &&& selectors[j].aggregate_id is Some <==> spec_.aggregate_id is Some
        &&& spec_.aggregate_id is Some ==> selectors[j].aggregate_id->0
            == spec_.aggregate_id->0.key()
        &&& selectors[j].after_position == after
    } by {}
    if subscribed(filters, event) {
        let j = choose|j: int|
            {
                &&& 0 <= j < filters.specs@.len()
                &&& (#[trigger] filters.specs@[j]).event_kind@ == event.kind@
                &&& filters.specs@[j].aggregate_kind is Some ==> filters.specs@[j].aggregate_kind->0@
                    == event.aggregate_kind@
                &&& filters.specs@[j].aggregate_id is Some
                    ==> filters.specs@[j].aggregate_id->0.key() == event.aggregate_id.key()
            };
        assert(crate::store::inmemory::accepts(selectors[j], event));
        assert(pred(event));
    }
    if pred(event) {
        let j = choose|j: int|
            0 <= j < selectors.len() && crate::store::inmemory::accepts(
                #[trigger] selectors[j],
                event,
            );
        assert(filters.specs@[j].event_kind@ == event.kind@);
    }
}

/// Where the log grows by one event, a projection changes by that event alone: one that it
/// subscribes to and has a handler for is handled, on top of what the log built before; any
/// other makes no difference.
pub proof fn projections_follow_the_log<P, Id, Meta, E>(
    log: Seq<InMemoryEvent<Id, Meta>>,
    event: InMemoryEvent<Id, Meta>,
    filters: Filters<Store<Id, Meta, E>, P, P::Handler>,
    start: P,
    after: Option<u64>,
    later: P,
) where P: ProjectionFilters<Store<Id, Meta, E>>, Id: StreamId, Meta: Clone
    requires
        super::laws::clones_exactly::<Meta>(),
        after is Some ==> after->0 < event.position,
        super::inmemory::projection_built::<P, Id, Meta, E>(
            log.push(event),
            filters,
            start,
            after,
            Ok(later),
        ),
    ensures
        exists|earlier: P|
            {
                &&& #[trigger] super::inmemory::projection_built::<P, Id, Meta, E>(
                    log,
                    filters,
                    start,
                    after,
                    Ok(earlier),
                )
                &&& if subscribed(filters, event) && filters.handlers.handler_of(
                    event.kind@,
                ) is Some {
                    filters.handlers.handler_of(event.kind@)->0.handled(earlier, event, later)
                } else {
                    later == earlier
                }
            },
{
    let selectors = super::inmemory::positioned_selectors(
        crate::store::selectors(filters.specs@),
        after,
    );
    let found = crate::store::inmemory::matching(log, selectors);
    let grown = crate::store::inmemory::matching(log.push(event), selectors);
    lemma_picked_grows(log, event, filters, after);
    let events = choose|events: Seq<InMemoryEvent<Id, Meta>>|
        {
            &&& #[trigger] crate::store::inmemory::copies_of(grown, events)
            &&& super::projects_all::<P, Store<Id, Meta, E>, P::Handler>(
                filters.handlers,
                start,
                events,
                later,
            )
        };
    super::laws::loads_are_exact(grown, events);
    let states = choose|states: Seq<P>| #[trigger]
        super::is_run::<P, Store<Id, Meta, E>, P::Handler>(filters.handlers, states, grown)
            && states.first() == start && states.last() == later;
    let n = found.len() as int;
    let begun = states.take(n + 1);
    assert forall|i: int| 0 <= i < found.len() implies super::steps::<
        P,
        Store<Id, Meta, E>,
        P::Handler,
    >(filters.handlers, begun[i], #[trigger] found[i], begun[i + 1]) by {
        assert(grown[i] == found[i]);
    }
    assert(super::is_run::<P, Store<Id, Meta, E>, P::Handler>(filters.handlers, begun, found));
    assert(begun.first() == start);
    let earlier = states[n];
    assert(begun.last() == earlier);
    assert(super::projects_all::<P, Store<Id, Meta, E>, P::Handler>(
        filters.handlers,
        start,
        found,
        earlier,
    ));
    assert forall|i: int| 0 <= i < found.len() implies crate::store::inmemory::copy_of(
        found[i],
        #[trigger] found[i],
    ) by {
        assert(crate::store::inmemory::copy_of(grown[i], events[i]));
        assert(grown[i] == found[i]);
    }
    assert(crate::store::inmemory::copies_of(found, found));
    assert(super::inmemory::projection_built::<P, Id, Meta, E>(
        log,
        filters,
        start,
        after,
        Ok(earlier),
    ));
    if subscribed(filters, event) {
        assert(grown[n] == event);
        assert(super::steps::<P, Store<Id, Meta, E>, P::Handler>(
            filters.handlers,
            states[n],
            grown[n],
            states[n + 1],
        ));
    }
}

/// A projection that is loaded from an empty log is the one in the snapshot, and else a
/// fresh instance.
pub proof fn projections_start_fresh_or_from_the_snapshot<P, Id, Meta, E>(
    instance_id: P::InstanceId,
    base: Option<(P, u64)>,
    r: Result<P, ProjectionError<InMemoryError<E>>>,
) where P: Projection + ProjectionFilters<Store<Id, Meta, E>>, Id: StreamId, Meta: Clone
    requires
        super::inmemory::loads_projection::<P, Id, Meta, E>(Seq::empty(), instance_id, base, r),
    ensures
        r is Ok,
        match base {
            Some((projection, _)) => r->Ok_0 == projection,
            None => r->Ok_0 == P::initial(instance_id),
        },
{
    let start = super::inmemory::projection_start(base, instance_id);
    let after = super::inmemory::base_position(base);
    let filters = choose|filters: Filters<Store<Id, Meta, E>, P, P::Handler>| #[trigger]
        call_ensures(
            <P as ProjectionFilters<Store<Id, Meta, E>>>::filters,
            (&instance_id,),
            filters,
        ) && super::inmemory::projection_built::<P, Id, Meta, E>(
            Seq::empty(),
            filters,
            start,
            after,
            r,
        );
    reveal(Seq::filter);
}

/// A projection that cannot be built tells of an event in the log, after the position and
/// subscribed to, that its handler refused, and why.
pub proof fn failed_projections_tell_why<P, Id, Meta, E>(
    log: Seq<InMemoryEvent<Id, Meta>>,
    filters: Filters<Store<Id, Meta, E>, P, P::Handler>,
    start: P,
    after: Option<u64>,
    error: ProjectionError<InMemoryError<E>>,
) where P: ProjectionFilters<Store<Id, Meta, E>>, Id: StreamId, Meta: Clone
    requires
        super::laws::clones_exactly::<Meta>(),
        super::inmemory::projection_built::<P, Id, Meta, E>(
            log,
            filters,
            start,
            after,
            Err(error),
        ),
    ensures
        error is EventDecode,
        exists|p: int, cause: HandlerError<InMemoryError<E>>|
            {
                &&& 0 <= p < log.len()
                &&& after is Some ==> log[p].position > after->0
                &&& subscribed(filters, log[p])
                &&& filters.handlers.handler_of(log[p].kind@) is Some
                &&& #[trigger] filters.handlers.handler_of(log[p].kind@)->0.refused(log[p], cause)
                &&& match cause {
                    HandlerError::EventDecode(decode) => error->EventDecode_0 == decode,
                    HandlerError::Store(inner) => error->EventDecode_0
                        == crate::event::EventDecodeError::Store(inner),
                }
            },
{
    let specs = crate::store::selectors(filters.specs@);
    let selectors = super::inmemory::positioned_selectors(specs, after);
    let pred = crate::store::inmemory::accepted_by::<Id, Meta>(selectors);
    let found = crate::store::inmemory::matching(log, selectors);
    let decode = error->EventDecode_0;
    let events = choose|events: Seq<InMemoryEvent<Id, Meta>>|
        {
            &&& #[trigger] crate::store::inmemory::copies_of(found, events)
            &&& exists|i: int, reached: P|
                {
                    &&& 0 <= i < events.len()
                    &&& #[trigger] super::projects_all::<P, Store<Id, Meta, E>, P::Handler>(
                        filters.handlers,
                        start,
                        events.take(i),
                        reached,
                    )
                    &&& super::step_fails::<P, Store<Id, Meta, E>, P::Handler>(
                        filters.handlers,
                        events[i],
                        decode,
                    )
                }
        };
    super::laws::loads_are_exact(found, events);
    let (i, reached) = choose|i: int, reached: P|
        {
            &&& 0 <= i < found.len()
            &&& #[trigger] super::projects_all::<P, Store<Id, Meta, E>, P::Handler>(
                filters.handlers,
                start,
                found.take(i),
                reached,
            )
            &&& super::step_fails::<P, Store<Id, Meta, E>, P::Handler>(
                filters.handlers,
                found[i],
                decode,
            )
        };
    let handler = filters.handlers.handler_of(found[i].kind@)->0;
    let cause = choose|cause: HandlerError<InMemoryError<E>>| #[trigger]
        handler.refused(found[i], cause) && decode == cause.as_decode_error();
    assert(found.contains(found[i]));
    log.lemma_filter_contains_rev(pred, found[i]);
    log.lemma_filter_pred(pred, i);
    let p = choose|p: int| 0 <= p < log.len() && log[p] == found[i];
    let j = choose|j: int|
        0 <= j < selectors.len() && crate::store::inmemory::accepts(
            #[trigger] selectors[j],
            found[i],
        );
    assert(filters.specs@[j].event_kind@ == log[p].kind@);
    assert(subscribed(filters, log[p]));
    assert(filters.handlers.handler_of(log[p].kind@)->0.refused(log[p], cause));
}

/// A projection that was replayed offers itself as a snapshot, at the position of the last
/// event that it was built from; one for which there was nothing to replay does not. The
/// offer is stored where the policy asks for it after that many events, the projection has
/// JSON and nothing as new is held.
pub proof fn replayed_projections_are_offered<P: SnapshotState<F>, Inst: StreamId, Id, Meta, F>(
    before: Snapshots<snapshot::inmemory::Store<Inst, u64, F>>,
    after: Snapshots<snapshot::inmemory::Store<Inst, u64, F>>,
    kind: Seq<char>,
    instance_id: Inst::Key,
    found: Seq<InMemoryEvent<Id, Meta>>,
    projection: P,
)
    requires
        found.len() <= u64::MAX,
        super::inmemory::offers_projection::<P, Inst, Id, Meta, F>(
            before,
            after,
            kind,
            instance_id,
            found,
            projection,
        ),
    ensures
        after.0.spec_policy() == before.0.spec_policy(),
        ({
            let key = (kind, instance_id);
            let held = before.0@;
            let position = found.last().position;
            if found.len() > 0 && crate::subscription::deliveries::asks_after(
                before.0.spec_policy(),
                found.len() as int,
            ) && projection.frozen() is Some && !(held.contains_key(key) && held[key].position
                >= position) {
                after.0@ == held.insert(
                    key,
                    (snapshot::Snapshot { position, data: projection.frozen()->0 }),
                )
            } else {
                after.0@ == held
            }
        }),
{
}

} // verus!
