//! What subscriptions to the in-memory store make of what they are handed.

use serde_json::Value;
use vstd::prelude::*;

use super::{
    AwaitError, ConsistencyToken, Delivery, Progress, SubscribableStore, SubscriptionError,
    SubscriptionLoop, TaskEnd,
};
use crate::{
    projection::{EventHandler, Filters, HandlerError, Handlers, Projection, ProjectionFilters},
    repository::inmemory::SnapshotState,
    snapshot::{self, inmemory::SnapshotPolicy, Snapshot},
    store::{
        inmemory::{InMemoryError, InMemoryEvent, Store},
        EventFilter, StreamId,
    },
};

verus! {

/// What a subscription makes of a frontier: its global progress moves there where that is
/// further, which is then published, and nothing else changes. A failure changes nothing
/// and is reported.
pub proof fn frontiers_move_progress_alone<Id, M, E, P, H>(
    state: &mut SubscriptionLoop<Store<Id, M, E>, P, H>,
    frontier: u64,
    store: &Store<Id, M, E>,
    r: Result<Progress<u64>, SubscriptionError<InMemoryError<E>>>,
    error: InMemoryError<E>,
) where Id: StreamId, M: Clone, H: EventHandler<P, Store<Id, M, E>>
    ensures
        call_ensures(
            SubscriptionLoop::<Store<Id, M, E>, P, H>::handle_delivery,
            (state, Ok(Delivery::Frontier(frontier)), store),
            r,
        ) ==> {
            &&& final(state).handlers == old(state).handlers
            &&& final(state).projection == old(state).projection
            &&& final(state).catchup_target == old(state).catchup_target
            &&& final(state).last_checkpoint == old(state).last_checkpoint
            &&& final(state).events_since_snapshot == old(state).events_since_snapshot
            &&& final(state).caught_up == old(state).caught_up
            &&& r is Ok
            &&& !r->Ok_0.applied
            &&& !r->Ok_0.ready
            &&& r->Ok_0.offer is None
            &&& if old(state).observed is Some && frontier <= old(state).observed->0 {
                final(state).observed == old(state).observed && r->Ok_0.observed is None
            } else {
                final(state).observed == Some(frontier) && r->Ok_0.observed == Some(frontier)
            }
        },
        call_ensures(
            SubscriptionLoop::<Store<Id, M, E>, P, H>::handle_delivery,
            (state, Err(error), store),
            r,
        ) ==> {
            &&& *final(state) == *old(state)
            &&& r is Err
            &&& r->Err_0 is Store
            &&& r->Err_0->Store_0 == error
        },
{
    if call_ensures(
        SubscriptionLoop::<Store<Id, M, E>, P, H>::handle_delivery,
        (state, Ok(Delivery::Frontier(frontier)), store),
        r,
    ) {
        assert(old(state).handles(Ok(Delivery::Frontier(frontier)), *final(state), r));
    }
    if call_ensures(
        SubscriptionLoop::<Store<Id, M, E>, P, H>::handle_delivery,
        (state, Err(error), store),
        r,
    ) {
        assert(old(state).handles(Err(error), *final(state), r));
    }
}

/// What a subscription makes of an event. One at or before its last matching event changes
/// nothing. Any other is handled, where there is a handler for its kind, and is then the
/// last; it counts as one more, moves the global progress where that is further, completes
/// catch-up where it reaches the target, and brings a snapshot offer at its checkpoint. One
/// that its handler refuses changes nothing and is reported.
pub proof fn events_are_applied_once<Id, M, E, P, H>(
    state: &mut SubscriptionLoop<Store<Id, M, E>, P, H>,
    item: super::Checkpointed<Store<Id, M, E>>,
    store: &Store<Id, M, E>,
    r: Result<Progress<u64>, SubscriptionError<InMemoryError<E>>>,
) where Id: StreamId, M: Clone, H: EventHandler<P, Store<Id, M, E>>
    requires
        call_ensures(
            SubscriptionLoop::<Store<Id, M, E>, P, H>::handle_delivery,
            (state, Ok(Delivery::Event(item)), store),
            r,
        ),
    ensures
        old(state).last_checkpoint is Some && item.checkpoint <= old(state).last_checkpoint->0 ==> {
            &&& *final(state) == *old(state)
            &&& r is Ok
            &&& !r->Ok_0.applied
            &&& !r->Ok_0.ready
            &&& r->Ok_0.offer is None
            &&& r->Ok_0.observed is None
        },
        !(old(state).last_checkpoint is Some && item.checkpoint <= old(state).last_checkpoint->0) && r is Ok
            ==> {
            &&& match old(state).handlers.handler_of(item.event.kind@) {
                Some(handler) => handler.handled(old(state).projection, item.event, final(state).projection),
                None => final(state).projection == old(state).projection,
            }
            &&& final(state).handlers == old(state).handlers
            &&& final(state).catchup_target == old(state).catchup_target
            &&& final(state).last_checkpoint == Some(item.checkpoint)
            &&& final(state).events_since_snapshot == old(state).events_since_snapshot + 1
            &&& final(state).observed == if old(state).observed is Some && item.checkpoint
                <= old(state).observed->0 {
                old(state).observed
            } else {
                Some(item.checkpoint)
            }
            &&& final(state).caught_up <==> old(state).caught_up || old(state).catchup_target is None
                || item.checkpoint >= old(state).catchup_target->0
            &&& r->Ok_0.applied
            &&& r->Ok_0.ready <==> final(state).caught_up && !old(state).caught_up
            &&& r->Ok_0.observed is Some <==> final(state).observed != old(state).observed
            &&& r->Ok_0.observed is Some ==> r->Ok_0.observed == final(state).observed
            &&& r->Ok_0.offer is Some
            &&& r->Ok_0.offer->0.checkpoint == item.checkpoint
            &&& r->Ok_0.offer->0.events_since_snapshot == old(state).events_since_snapshot + 1
        },
        r is Err ==> {
            &&& *final(state) == *old(state)
            &&& r->Err_0 is EventDecode
            &&& old(state).handlers.handler_of(item.event.kind@) is Some
            &&& exists|cause: HandlerError<InMemoryError<E>>|
                {
                    &&& #[trigger] old(state).handlers.handler_of(item.event.kind@)->0.refused(
                        item.event,
                        cause,
                    )
                    &&& match cause {
                        HandlerError::EventDecode(decode) => r->Err_0->EventDecode_0 == decode,
                        HandlerError::Store(inner) => r->Err_0->EventDecode_0
                            == crate::event::EventDecodeError::Store(inner),
                    }
                }
        },
{
    assert(old(state).handles(Ok(Delivery::Event(item)), *final(state), r));
}

/// Whether a policy asks for a snapshot after this many events without one.
pub open spec fn asks_after(policy: SnapshotPolicy, count: int) -> bool {
    match policy {
        SnapshotPolicy::Always => true,
        SnapshotPolicy::EveryNEvents(n) => count >= n,
        SnapshotPolicy::Never => false,
    }
}

/// A subscription that has events pending offers its read model at its last checkpoint. It
/// is stored where the policy asks for it, it has JSON and nothing as new is held, and only
/// then does the count of pending events start anew.
pub proof fn pending_events_are_snapshotted_when_due<S, P, H, Inst, F>(
    before: SubscriptionLoop<S, P, H>,
    after: SubscriptionLoop<S, P, H>,
    held: snapshot::inmemory::Store<Inst, u64, F>,
    kept: snapshot::inmemory::Store<Inst, u64, F>,
    key: (Seq<char>, Inst::Key),
) where
    S: SubscribableStore<Checkpoint = u64>,
    P: SnapshotState<F>,
    Inst: StreamId,

    requires
        super::inmemory::maintained(before, after, held, kept, key),
    ensures
        after.handlers == before.handlers,
        after.projection == before.projection,
        after.catchup_target == before.catchup_target,
        after.last_checkpoint == before.last_checkpoint,
        after.observed == before.observed,
        after.caught_up == before.caught_up,
        if before.events_since_snapshot > 0 && before.last_checkpoint is Some && asks_after(
            held.spec_policy(),
            before.events_since_snapshot as int,
        ) && before.projection.frozen() is Some && !(held@.contains_key(key) && held@[key].position
            >= before.last_checkpoint->0) {
            &&& after.events_since_snapshot == 0
            &&& kept@.contains_key(key)
            &&& kept@[key].position == before.last_checkpoint->0
            &&& kept@[key].data == before.projection.frozen()->0
            &&& kept@.remove(key) == held@.remove(key)
        } else {
            after.events_since_snapshot == before.events_since_snapshot && kept@ == held@
        },
{
}

/// Along the way each event brings one offer, of the read model that it led to, at its
/// position: it is stored where the policy asks for it after that many pending events, the
/// read model has JSON and nothing as new is held.
pub proof fn each_event_brings_an_offer<P, F, Id, Meta, Key>(
    policy: SnapshotPolicy,
    key: Key,
    held: Map<Key, Snapshot<u64, Value>>,
    pending: int,
    states: Seq<P>,
    events: Seq<InMemoryEvent<Id, Meta>>,
    state: P,
    event: InMemoryEvent<Id, Meta>,
) where P: SnapshotState<F>
    requires
        0 <= pending,
        pending + events.len() < u64::MAX,
    ensures
        super::inmemory::offers_along::<P, F, Id, Meta, Key>(
            policy,
            key,
            held,
            pending,
            states,
            Seq::empty(),
        ) == (held, pending),
        ({
            let (kept, waiting) = super::inmemory::offers_along::<P, F, Id, Meta, Key>(
                policy,
                key,
                held,
                pending,
                states,
                events,
            );
            let grown = super::inmemory::offers_along::<P, F, Id, Meta, Key>(
                policy,
                key,
                held,
                pending,
                states.push(state),
                events.push(event),
            );
            &&& 0 <= waiting <= pending + events.len()
            &&& if asks_after(policy, waiting + 1) && state.frozen() is Some && !(
            kept.contains_key(key) && kept[key].position >= event.position) {
                grown == (
                    kept.insert(
                        key,
                        (Snapshot { position: event.position, data: state.frozen()->0 }),
                    ),
                    0int,
                )
            } else {
                grown == (kept, waiting + 1)
            }
        }),
    decreases events.len(),
{
    assert(states.push(state).drop_last() == states);
    assert(events.push(event).drop_last() == events);
    if events.len() > 0 {
        each_event_brings_an_offer::<P, F, Id, Meta, Key>(
            policy,
            key,
            held,
            pending,
            states.drop_last(),
            events.drop_last(),
            state,
            event,
        );
    }
}

/// Whether each of `events` takes one of `states` to the next: by its handler, or not at
/// all where there is none for its kind.
pub open spec fn led_through<Id, Meta, E, P, H>(
    handlers: Handlers<H>,
    states: Seq<P>,
    events: Seq<InMemoryEvent<Id, Meta>>,
) -> bool where Id: StreamId, Meta: Clone, H: EventHandler<P, Store<Id, Meta, E>> {
    &&& states.len() == events.len() + 1
    &&& forall|i: int|
        0 <= i < events.len() ==> match handlers.handler_of((#[trigger] events[i]).kind@) {
            Some(handler) => handler.handled(states[i], events[i], states[i + 1]),
            None => states[i + 1] == states[i],
        }
}

/// What taking everything does to a subscription. Its read model is led through all events
/// that it had not seen, or through those before the first that is refused; the last of
/// them is then its last, and its global progress is at the frontier, or at that event,
/// unless it was further. It offers a snapshot after each of them, and reports readiness
/// where catch-up is complete by that.
pub proof fn pumping_leads_through_what_is_new<Id, Meta, E, P, H, Inst, F>(
    before: SubscriptionLoop<Store<Id, Meta, E>, P, H>,
    fresh: Seq<InMemoryEvent<Id, Meta>>,
    frontier: Option<u64>,
    after: SubscriptionLoop<Store<Id, Meta, E>, P, H>,
    held: snapshot::inmemory::Store<Inst, u64, F>,
    kept: snapshot::inmemory::Store<Inst, u64, F>,
    key: (Seq<char>, Inst::Key),
    r: Result<bool, SubscriptionError<InMemoryError<E>>>,
) where
    Id: StreamId,
    Meta: Clone,
    H: EventHandler<P, Store<Id, Meta, E>>,
    P: SnapshotState<F>,
    Inst: StreamId,

    requires
        crate::repository::laws::clones_exactly::<Meta>(),
        super::inmemory::pumped(before, fresh, frontier, after, held, kept, key, r),
    ensures
        after.handlers == before.handlers,
        after.catchup_target == before.catchup_target,
        exists|states: Seq<P>, n: int|
            {
                &&& 0 <= n <= fresh.len()
                &&& #[trigger] led_through::<Id, Meta, E, P, H>(
                    before.handlers,
                    states,
                    fresh.take(n),
                )
                &&& states[0] == before.projection
                &&& states[n] == after.projection
                &&& after.last_checkpoint == if n == 0 {
                    before.last_checkpoint
                } else {
                    Some(fresh[n - 1].position)
                }
                &&& after.caught_up <==> before.caught_up || (n > 0 && (
                before.catchup_target is None || fresh[n - 1].position
                    >= before.catchup_target->0))
                &&& super::inmemory::offers_along::<P, F, Id, Meta, (Seq<char>, Inst::Key)>(
                    held.spec_policy(),
                    key,
                    held@,
                    before.events_since_snapshot as int,
                    states,
                    fresh.take(n),
                ) == (kept@, after.events_since_snapshot as int)
                &&& match r {
                    Ok(ready) => {
                        &&& n == fresh.len()
                        &&& ready <==> after.caught_up && !before.caught_up
                        &&& after.observed == if frontier is None || (before.observed is Some
                            && frontier->0 <= before.observed->0) {
                            before.observed
                        } else {
                            frontier
                        }
                    },
                    Err(error) => {
                        &&& n < fresh.len()
                        &&& after.observed == if n == 0 || (before.observed is Some && fresh[n
                            - 1].position <= before.observed->0) {
                            before.observed
                        } else {
                            Some(fresh[n - 1].position)
                        }
                        &&& error is EventDecode
                        &&& before.handlers.handler_of(fresh[n].kind@) is Some
                        &&& exists|cause: HandlerError<InMemoryError<E>>| #[trigger]
                            before.handlers.handler_of(fresh[n].kind@)->0.refused(fresh[n], cause)
                    },
                }
            },
{
    let (copies, states, n) = choose|
        copies: Seq<InMemoryEvent<Id, Meta>>,
        states: Seq<P>,
        n: int,
    |
        {
            &&& crate::store::inmemory::copies_of(fresh, copies)
            &&& 0 <= n <= fresh.len()
            &&& #[trigger] super::inmemory::took::<Id, Meta, E, P, H>(
                before,
                fresh,
                copies.take(n),
                states,
                after,
            )
            &&& super::inmemory::offers_along::<P, F, Id, Meta, (Seq<char>, Inst::Key)>(
                held.spec_policy(),
                key,
                held@,
                before.events_since_snapshot as int,
                states,
                copies.take(n),
            ) == (kept@, after.events_since_snapshot as int)
            &&& match r {
                Ok(ready) => {
                    &&& n == fresh.len()
                    &&& after.observed == crate::order::furthest(before.observed, frontier)
                    &&& ready == (after.caught_up && !before.caught_up)
                },
                Err(SubscriptionError::EventDecode(error)) => {
                    &&& n < fresh.len()
                    &&& after.observed == crate::order::furthest(
                        before.observed,
                        crate::store::inmemory::newest(fresh.take(n)),
                    )
                    &&& crate::repository::step_fails::<P, Store<Id, Meta, E>, H>(
                        before.handlers,
                        copies[n],
                        error,
                    )
                },
                Err(_) => false,
            }
        };
    crate::repository::laws::loads_are_exact(fresh, copies);
    let events = fresh.take(n);
    assert forall|i: int| 0 <= i < events.len() implies match before.handlers.handler_of(
        (#[trigger] events[i]).kind@,
    ) {
        Some(handler) => handler.handled(states[i], events[i], states[i + 1]),
        None => states[i + 1] == states[i],
    } by {
        assert(crate::repository::steps::<P, Store<Id, Meta, E>, H>(
            before.handlers,
            states[i],
            events[i],
            states[i + 1],
        ));
    }
    assert(led_through::<Id, Meta, E, P, H>(before.handlers, states, fresh.take(n)));
    if n > 0 {
        assert(events.last() == fresh[n - 1]);
    }
}

/// A token of the in-memory store is reached once progress is at its position or past it.
/// Waiting for one that is reached succeeds at once; for one that is not, it goes on while
/// the subscription runs and fails once it has stopped.
pub proof fn tokens_are_reached_by_number(
    token: ConsistencyToken<u64>,
    processed: Option<u64>,
    running: bool,
)
    ensures
        token.reached_by(processed) <==> processed is Some && processed->0
            >= token.spec_checkpoint(),
        processed is Some && processed->0 >= token.spec_checkpoint() ==> token.awaits(
            processed,
            running,
        ) == Some(Ok::<(), AwaitError>(())),
        !(processed is Some && processed->0 >= token.spec_checkpoint()) && running ==> token.awaits(
            processed,
            running,
        ) is None,
        !(processed is Some && processed->0 >= token.spec_checkpoint()) && !running ==> {
            &&& token.awaits(processed, running) is Some
            &&& token.awaits(processed, running)->0 is Err
            &&& token.awaits(processed, running)->0->Err_0 is SubscriptionStopped
        },
{
}

/// A subscription that is started is up to date: catch-up is complete, the last event that
/// it subscribes to is its last, and its global progress is at the end of the log. It goes
/// on with the filters of its projection, without a position.
pub proof fn subscriptions_start_up_to_date<P, Id, Meta, E>(
    log: Seq<InMemoryEvent<Id, Meta>>,
    filters: Filters<Store<Id, Meta, E>, P, P::Handler>,
    start: P,
    position: Option<u64>,
    running: SubscriptionLoop<Store<Id, Meta, E>, P, P::Handler>,
    event_filters: Vec<EventFilter<Id, u64>>,
) where P: ProjectionFilters<Store<Id, Meta, E>>, Id: StreamId, Meta: Clone
    requires
        crate::store::inmemory::positioned(log),
        log.len() <= u64::MAX,
        super::inmemory::started::<P, Id, Meta, E>(
            log,
            filters,
            start,
            position,
            Ok((running, event_filters)),
        ),
    ensures
        running.caught_up,
        running.handlers == filters.handlers,
        running.observed == if log.len() == 0 || (position is Some && log.len() - 1
            <= position->0) {
            position
        } else {
            Some((log.len() - 1) as u64)
        },
        running.last_checkpoint == position || exists|p: int|
            {
                &&& 0 <= p < log.len()
                &&& running.last_checkpoint == Some(p as u64)
                &&& crate::repository::projection_laws::subscribed(filters, #[trigger] log[p])
                &&& position is Some ==> p > position->0
            },
        forall|p: int|
            {
                &&& 0 <= p < log.len()
                &&& crate::repository::projection_laws::subscribed(filters, #[trigger] log[p])
                &&& position is Some ==> p > position->0
            } ==> running.last_checkpoint is Some && running.last_checkpoint->0 >= p,
        event_filters@.len() == filters.specs@.len(),
        forall|j: int|
            0 <= j < event_filters@.len() ==> {
                let spec_ = filters.specs@[j];
                &&& (#[trigger] event_filters@[j]).event_kind@ == spec_.event_kind@
                &&& event_filters@[j].aggregate_kind is Some <==> spec_.aggregate_kind is Some
                &&& spec_.aggregate_kind is Some ==> event_filters@[j].aggregate_kind->0@
                    == spec_.aggregate_kind->0@
                &&& event_filters@[j].aggregate_id is Some <==> spec_.aggregate_id is Some
                &&& spec_.aggregate_id is Some ==> event_filters@[j].aggregate_id->0.key()
                    == spec_.aggregate_id->0.key()
                &&& event_filters@[j].after_position is None
            },
{
    let specs = crate::store::selectors(filters.specs@);
    let selectors = crate::repository::inmemory::positioned_selectors(specs, position);
    let pred = crate::store::inmemory::accepted_by::<Id, Meta>(selectors);
    let found = crate::store::inmemory::matching(log, selectors);
    crate::store::inmemory::lemma_filter_ascending(log, pred);
    if found.len() > 0 {
        let last = found.last();
        assert(found.contains(last));
        log.lemma_filter_contains_rev(pred, last);
        log.lemma_filter_pred(pred, found.len() - 1);
        let p = choose|p: int| 0 <= p < log.len() && log[p] == last;
        assert(log[p].position == p);
        let j = choose|j: int|
            0 <= j < selectors.len() && crate::store::inmemory::accepts(
                #[trigger] selectors[j],
                last,
            );
        assert(filters.specs@[j].event_kind@ == log[p].kind@);
        assert(crate::repository::projection_laws::subscribed(filters, log[p]));
    }
    assert forall|p: int|
        {
            &&& 0 <= p < log.len()
            &&& crate::repository::projection_laws::subscribed(filters, #[trigger] log[p])
            &&& position is Some ==> p > position->0
        } implies running.last_checkpoint is Some && running.last_checkpoint->0 >= p by {
        assert(log[p].position == p);
        let j = choose|j: int|
            {
                &&& 0 <= j < filters.specs@.len()
                &&& (#[trigger] filters.specs@[j]).event_kind@ == log[p].kind@
                &&& filters.specs@[j].aggregate_kind is Some ==> filters.specs@[j].aggregate_kind->0@
                    == log[p].aggregate_kind@
                &&& filters.specs@[j].aggregate_id is Some
                    ==> filters.specs@[j].aggregate_id->0.key() == log[p].aggregate_id.key()
            };
        assert(crate::store::inmemory::accepts(selectors[j], log[p]));
        assert(pred(log[p]));
        log.lemma_filter_contains(pred, p);
        let k = choose|k: int| 0 <= k < found.len() && found[k] == log[p];
        if k < found.len() - 1 {
            assert(found[k].position < found[found.len() - 1].position);
        }
    }
    let going_on = crate::store::selectors(event_filters@);
    assert(going_on.len() == event_filters@.len());
    assert(going_on.len() == filters.specs@.len());
    assert forall|j: int| 0 <= j < event_filters@.len() implies {
        let spec_ = filters.specs@[j];
        &&& (#[trigger] event_filters@[j]).event_kind@ == spec_.event_kind@
        &&& event_filters@[j].aggregate_kind is Some <==> spec_.aggregate_kind is Some
        &&& spec_.aggregate_kind is Some ==> event_filters@[j].aggregate_kind->0@
            == spec_.aggregate_kind->0@
        &&& event_filters@[j].aggregate_id is Some <==> spec_.aggregate_id is Some
        &&& spec_.aggregate_id is Some ==> event_filters@[j].aggregate_id->0.key()
            == spec_.aggregate_id->0.key()
        &&& event_filters@[j].after_position is None
    } by {
        assert(going_on[j] == event_filters@[j].selector());
        assert(specs[j] == filters.specs@[j].selector());
        assert(going_on[j] == crate::repository::inmemory::positioned_selectors(specs, None)[j]);
    }
}

/// Maintaining the snapshot of a subscription stores its read model where that is due, and
/// changes nothing else.
pub proof fn maintaining_stores_what_is_due<Id, Meta, E, P, H, F>(
    state: &mut SubscriptionLoop<Store<Id, Meta, E>, P, H>,
    snapshots: &mut snapshot::inmemory::Store<P::InstanceId, u64, F>,
    instance_id: &P::InstanceId,
) where
    Id: StreamId,
    Meta: Clone,
    H: EventHandler<P, Store<Id, Meta, E>>,
    P: Projection + SnapshotState<F>,
    P::InstanceId: StreamId,

    requires
        call_ensures(
            SubscriptionLoop::<Store<Id, Meta, E>, P, H>::maintain_snapshot::<F>,
            (state, snapshots, instance_id),
            (),
        ),
    ensures
        ({
            let key = (P::KIND@, instance_id.key());
            let held = old(snapshots)@;
            let kept = final(snapshots)@;
            let last = old(state).last_checkpoint;
            &&& final(state).projection == old(state).projection
            &&& final(state).last_checkpoint == last
            &&& final(state).observed == old(state).observed
            &&& if old(state).events_since_snapshot > 0 && last is Some && asks_after(
                old(snapshots).spec_policy(),
                old(state).events_since_snapshot as int,
            ) && old(state).projection.frozen() is Some && !(held.contains_key(key)
                && held[key].position >= last->0) {
                &&& final(state).events_since_snapshot == 0
                &&& kept.contains_key(key)
                &&& kept[key].position == last->0
                &&& kept[key].data == old(state).projection.frozen()->0
                &&& kept.remove(key) == held.remove(key)
            } else {
                &&& final(state).events_since_snapshot == old(state).events_since_snapshot
                &&& kept == held
            }
        }),
{
    pending_events_are_snapshotted_when_due(
        *old(state),
        *final(state),
        *old(snapshots),
        *final(snapshots),
        (P::KIND@, instance_id.key()),
    );
}

/// Taking everything leads the read model of a subscription through the events that its
/// filters ask for and that lie past its last, in their order; or through those before the
/// first that is refused.
pub proof fn pump_leads_through_what_is_new<Id, Meta, E, P, H, F>(
    state: &mut SubscriptionLoop<Store<Id, Meta, E>, P, H>,
    store: &Store<Id, Meta, E>,
    filters: &[EventFilter<Id, u64>],
    snapshots: &mut snapshot::inmemory::Store<P::InstanceId, u64, F>,
    instance_id: &P::InstanceId,
    r: Result<bool, SubscriptionError<InMemoryError<E>>>,
) where
    Id: StreamId,
    Meta: Clone,
    H: EventHandler<P, Store<Id, Meta, E>>,
    P: Projection + SnapshotState<F>,
    P::InstanceId: StreamId,

    requires
        crate::repository::laws::clones_exactly::<Meta>(),
        call_ensures(
            SubscriptionLoop::<Store<Id, Meta, E>, P, H>::pump::<F>,
            (state, store, filters, snapshots, instance_id),
            r,
        ),
    ensures
        exists|fresh: Seq<InMemoryEvent<Id, Meta>>, states: Seq<P>, n: int|
            {
                &&& all_of_the_new(store.log(), filters@, old(state).last_checkpoint, fresh)
                &&& 0 <= n <= fresh.len()
                &&& #[trigger] led_through::<Id, Meta, E, P, H>(
                    old(state).handlers,
                    states,
                    fresh.take(n),
                )
                &&& states[0] == old(state).projection
                &&& states[n] == final(state).projection
                &&& final(state).last_checkpoint == if n == 0 {
                    old(state).last_checkpoint
                } else {
                    Some(fresh[n - 1].position)
                }
                &&& r is Ok <==> n == fresh.len()
                &&& r is Ok && store.log().len() > 0 ==> final(state).observed == if old(
                    state,
                ).observed is Some && store.log().len() - 1 <= old(state).observed->0 {
                    old(state).observed
                } else {
                    Some((store.log().len() - 1) as u64)
                }
                &&& r is Err ==> r->Err_0 is EventDecode
            },
{
    let fresh = crate::store::inmemory::unseen(
        store.log(),
        crate::store::selectors(filters@),
        old(state).last_checkpoint,
    );
    let frontier = crate::store::inmemory::latest(store.log());
    pumping_leads_through_what_is_new::<Id, Meta, E, P, H, P::InstanceId, F>(
        *old(state),
        fresh,
        frontier,
        *final(state),
        *old(snapshots),
        *final(snapshots),
        (P::KIND@, instance_id.key()),
        r,
    );
    lemma_unseen_is_all_of_the_new(store.log(), filters@, old(state).last_checkpoint);
    let (states, n) = choose|states: Seq<P>, n: int|
        {
            &&& 0 <= n <= fresh.len()
            &&& #[trigger] led_through::<Id, Meta, E, P, H>(
                old(state).handlers,
                states,
                fresh.take(n),
            )
            &&& states[0] == old(state).projection
            &&& states[n] == final(state).projection
            &&& final(state).last_checkpoint == if n == 0 {
                old(state).last_checkpoint
            } else {
                Some(fresh[n - 1].position)
            }
            &&& match r {
                Ok(ready) => {
                    &&& n == fresh.len()
                    &&& final(state).observed == if frontier is None || (old(state).observed is Some
                        && frontier->0 <= old(state).observed->0) {
                        old(state).observed
                    } else {
                        frontier
                    }
                },
                Err(error) => n < fresh.len() && error is EventDecode,
            }
        };
    assert(led_through::<Id, Meta, E, P, H>(old(state).handlers, states, fresh.take(n)));
}

/// Whether `fresh` are all events of `log` that one of `filters` names and that lie past a
/// cursor, in the order of their positions, and nothing else.
pub open spec fn all_of_the_new<Id: StreamId, Meta>(
    log: Seq<InMemoryEvent<Id, Meta>>,
    filters: Seq<EventFilter<Id, u64>>,
    cursor: Option<u64>,
    fresh: Seq<InMemoryEvent<Id, Meta>>,
) -> bool {
    &&& forall|i: int, j: int|
        0 <= i < j < fresh.len() ==> (#[trigger] fresh[i]).position < (#[trigger] fresh[j]).position
    &&& forall|event: InMemoryEvent<Id, Meta>| #[trigger]
        fresh.contains(event) <==> {
            &&& log.contains(event)
            &&& cursor is None || cursor->0 < event.position
            &&& crate::store::records::named_by(filters, event)
        }
}

/// What was not seen yet is all that is new.
proof fn lemma_unseen_is_all_of_the_new<Id: StreamId, Meta>(
    log: Seq<InMemoryEvent<Id, Meta>>,
    filters: Seq<EventFilter<Id, u64>>,
    cursor: Option<u64>,
)
    requires
        crate::store::inmemory::positioned(log),
    ensures
        all_of_the_new(
            log,
            filters,
            cursor,
            crate::store::inmemory::unseen(log, crate::store::selectors(filters), cursor),
        ),
{
    let selectors = crate::store::selectors(filters);
    let pred = crate::store::inmemory::accepted_by::<Id, Meta>(selectors);
    let later = crate::store::inmemory::past::<Id, Meta>(cursor);
    let found = crate::store::inmemory::matching(log, selectors);
    let fresh = crate::store::inmemory::unseen(log, selectors, cursor);
    crate::store::inmemory::lemma_filter_ascending(log, pred);
    crate::store::inmemory::lemma_filter_ascending(found, later);
    assert forall|event: InMemoryEvent<Id, Meta>| #[trigger] fresh.contains(event) <==> {
        &&& log.contains(event)
        &&& cursor is None || cursor->0 < event.position
        &&& crate::store::records::named_by(filters, event)
    } by {
        crate::store::records::selectors_pick_what_they_ask_for(log, selectors, event);
        if fresh.contains(event) {
            found.lemma_filter_contains_rev(later, event);
            let i = choose|i: int| 0 <= i < fresh.len() && fresh[i] == event;
            found.lemma_filter_pred(later, i);
            let j = choose|j: int|
                0 <= j < selectors.len() && crate::store::records::asked_by::<Id, Meta>(
                    #[trigger] selectors[j],
                    event,
                );
            assert(selectors[j] == filters[j].selector());
            assert(crate::store::records::names(filters[j], event));
        }
        if log.contains(event) && (cursor is None || cursor->0 < event.position)
            && crate::store::records::named_by(filters, event) {
            let j = choose|j: int|
                0 <= j < filters.len() && crate::store::records::names(#[trigger] filters[j], event);
            assert(selectors[j] == filters[j].selector());
            assert(crate::store::records::asked_by::<Id, Meta>(selectors[j], event));
            let k = choose|k: int| 0 <= k < found.len() && found[k] == event;
            found.lemma_filter_contains(later, k);
        }
    }
}

/// Starting a subscription leads its read model, from where it resumes, through the events
/// after that position that its filters pick, and offers a snapshot after each of them; it
/// fails at the first that is refused.
pub proof fn starting_leads_through_what_is_new<P, Id, Meta, E, F, Key>(
    log: Seq<InMemoryEvent<Id, Meta>>,
    filters: Filters<Store<Id, Meta, E>, P, P::Handler>,
    start: P,
    position: Option<u64>,
    policy: SnapshotPolicy,
    held: Map<Key, Snapshot<u64, Value>>,
    kept: Map<Key, Snapshot<u64, Value>>,
    key: Key,
    r: Result<
        (SubscriptionLoop<Store<Id, Meta, E>, P, P::Handler>, Vec<EventFilter<Id, u64>>),
        SubscriptionError<InMemoryError<E>>,
    >,
) where
    P: ProjectionFilters<Store<Id, Meta, E>> + SnapshotState<F>,
    Id: StreamId,
    Meta: Clone,

    requires
        crate::repository::laws::clones_exactly::<Meta>(),
        super::inmemory::snapshots_along::<P, Id, Meta, E, F, Key>(
            log,
            filters,
            start,
            position,
            policy,
            held,
            kept,
            key,
            r,
        ),
    ensures
        ({
            let found = crate::store::inmemory::matching(
                log,
                crate::repository::inmemory::positioned_selectors(
                    crate::store::selectors(filters.specs@),
                    position,
                ),
            );
            exists|states: Seq<P>, n: int|
                {
                    let (stored, pending) = super::inmemory::offers_along::<P, F, Id, Meta, Key>(
                        policy,
                        key,
                        held,
                        0,
                        states,
                        found.take(n),
                    );
                    &&& 0 <= n <= found.len()
                    &&& #[trigger] led_through::<Id, Meta, E, P, P::Handler>(
                        filters.handlers,
                        states,
                        found.take(n),
                    )
                    &&& states[0] == start
                    &&& kept == stored
                    &&& match r {
                        Ok((running, _)) => {
                            &&& n == found.len()
                            &&& running.projection == states[n]
                            &&& running.events_since_snapshot == pending
                        },
                        Err(error) => {
                            &&& n < found.len()
                            &&& error is EventDecode
                            &&& filters.handlers.handler_of(found[n].kind@) is Some
                            &&& exists|cause: HandlerError<InMemoryError<E>>| #[trigger]
                                filters.handlers.handler_of(found[n].kind@)->0.refused(
                                    found[n],
                                    cause,
                                )
                        },
                    }
                }
        }),
{
    let found = crate::store::inmemory::matching(
        log,
        crate::repository::inmemory::positioned_selectors(
            crate::store::selectors(filters.specs@),
            position,
        ),
    );
    let (copies, states, n) = choose|
        copies: Seq<InMemoryEvent<Id, Meta>>,
        states: Seq<P>,
        n: int,
    |
        {
            let (stored, pending) = super::inmemory::offers_along::<P, F, Id, Meta, Key>(
                policy,
                key,
                held,
                0,
                states,
                copies.take(n),
            );
            &&& crate::store::inmemory::copies_of(found, copies)
            &&& 0 <= n <= found.len()
            &&& #[trigger] crate::repository::is_run::<P, Store<Id, Meta, E>, P::Handler>(
                filters.handlers,
                states,
                copies.take(n),
            )
            &&& states.first() == start
            &&& kept == stored
            &&& match r {
                Ok((running, _)) => {
                    &&& n == found.len()
                    &&& running.projection == states.last()
                    &&& running.events_since_snapshot == pending
                },
                Err(SubscriptionError::EventDecode(error)) => {
                    &&& n < found.len()
                    &&& crate::repository::step_fails::<P, Store<Id, Meta, E>, P::Handler>(
                        filters.handlers,
                        copies[n],
                        error,
                    )
                },
                Err(_) => false,
            }
        };
    crate::repository::laws::loads_are_exact(found, copies);
    let events = found.take(n);
    assert forall|i: int| 0 <= i < events.len() implies match filters.handlers.handler_of(
        (#[trigger] events[i]).kind@,
    ) {
        Some(handler) => handler.handled(states[i], events[i], states[i + 1]),
        None => states[i + 1] == states[i],
    } by {
        assert(crate::repository::steps::<P, Store<Id, Meta, E>, P::Handler>(
            filters.handlers,
            states[i],
            events[i],
            states[i + 1],
        ));
    }
    assert(led_through::<Id, Meta, E, P, P::Handler>(filters.handlers, states, events));
}

/// A subscription resumes at its snapshot, where one is held and can be turned back into a
/// read model, and at a fresh instance otherwise. It is up to date when it is handed out.
pub proof fn start_resumes_at_the_snapshot<P, Id, Meta, E, F>(
    store: &Store<Id, Meta, E>,
    snapshots: &mut snapshot::inmemory::Store<P::InstanceId, u64, F>,
    instance_id: &P::InstanceId,
    running: SubscriptionLoop<Store<Id, Meta, E>, P, P::Handler>,
    event_filters: Vec<EventFilter<Id, u64>>,
) where
    P: Projection + ProjectionFilters<Store<Id, Meta, E>> + SnapshotState<F>,
    P::InstanceId: StreamId,
    Id: StreamId,
    Meta: Clone,

    requires
        call_ensures(
            super::inmemory::start::<P, Id, Meta, E, F>,
            (store, snapshots, instance_id),
            Ok((running, event_filters)),
        ),
    ensures
        running.caught_up,
        store.log().len() == 0 ==> {
            let key = (P::KIND@, instance_id.key());
            let held = old(snapshots)@;
            if held.contains_key(key) && P::revived(held[key].data) is Some {
                &&& running.projection == P::revived(held[key].data)->0
                &&& running.last_checkpoint == Some(held[key].position)
            } else {
                &&& running.projection == P::initial(*instance_id)
                &&& running.last_checkpoint is None
            }
        },
{
    let base: Option<(P, u64)> = super::inmemory::resume_point(
        *old(snapshots),
        P::KIND@,
        instance_id.key(),
    );
    let start = crate::repository::inmemory::projection_start(base, *instance_id);
    let position = crate::repository::inmemory::base_position(base);
    let filters = choose|filters: Filters<Store<Id, Meta, E>, P, P::Handler>|
        {
            &&& #[trigger] call_ensures(
                <P as ProjectionFilters<Store<Id, Meta, E>>>::filters,
                (instance_id,),
                filters,
            )
            &&& super::inmemory::started::<P, Id, Meta, E>(
                store.log(),
                filters,
                start,
                position,
                Ok((running, event_filters)),
            )
        };
    subscriptions_start_up_to_date::<P, Id, Meta, E>(
        store.log(),
        filters,
        start,
        position,
        running,
        event_filters,
    );
    if store.log().len() == 0 {
        assert(store.log() == Seq::<InMemoryEvent<Id, Meta>>::empty());
        crate::repository::projection_laws::projections_start_fresh_or_from_the_snapshot::<
            P,
            Id,
            Meta,
            E,
        >(*instance_id, base, Ok(running.projection));
    }
}

/// How a subscription that ended is told of. One that never got ready was interrupted,
/// panicked, or failed with its own error; one that is stopped returns what its task did, and
/// nothing is wrong where no task was left.
pub proof fn ended_subscriptions_tell_why<E>(
    ended: TaskEnd<Result<(), SubscriptionError<E>>>,
    failure: SubscriptionError<E>,
    task: Option<TaskEnd<Result<(), SubscriptionError<E>>>>,
    stopped: Result<(), SubscriptionError<E>>,
)
    requires
        call_ensures(super::startup_failure::<E>, (ended,), failure),
        call_ensures(super::stop_outcome::<E>, (task,), stopped),
    ensures
        ended is Panicked ==> failure is TaskPanicked,
        ended is Returned && ended->Returned_0 is Ok ==> failure is CatchupInterrupted,
        ended is Returned && ended->Returned_0 is Err ==> failure == ended->Returned_0->Err_0,
        task is None ==> stopped is Ok,
        task is Some && task->0 is Panicked ==> stopped is Err && stopped->Err_0 is TaskPanicked,
        task is Some && task->0 is Returned ==> stopped == task->0->Returned_0,
{
}

} // verus!
