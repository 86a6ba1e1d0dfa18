//! What holds of subscriptions as a whole.

use serde_json::Value;
use vstd::prelude::*;

use super::{
    Checkpointed, ConsistencyToken, Delivery, Progress, SubscribableStore, SubscriptionError,
    SubscriptionLoop,
};
use crate::{
    projection::{EventHandler, Filters, ProjectionFilters},
    repository::inmemory::SnapshotState,
    snapshot,
    store::{
        inmemory::{InMemoryError, InMemoryEvent, Store},
        EventFilter, Selector, StreamId,
    },
};

verus! {

/// Tokens inherit the order of checkpoints: they compare as their checkpoints do, so
/// their order is total where that of the checkpoints is, and only tokens of one
/// checkpoint are on a level.
pub proof fn tokens_compare_as_checkpoints<C: PartialOrd>(
    a: ConsistencyToken<C>,
    b: ConsistencyToken<C>,
)
    ensures
        crate::order::comparable::<ConsistencyToken<C>>() == crate::order::comparable::<C>(),
        crate::order::at_least(a, b) == crate::order::at_least(
            a.spec_checkpoint(),
            b.spec_checkpoint(),
        ),
        crate::order::at_most(a, b) == crate::order::at_most(
            a.spec_checkpoint(),
            b.spec_checkpoint(),
        ),
        crate::order::above(a, b) == crate::order::above(a.spec_checkpoint(), b.spec_checkpoint()),
        crate::order::total::<C>() ==> crate::order::total::<ConsistencyToken<C>>(),
        crate::order::equal(a, b) == crate::order::equal(a.spec_checkpoint(), b.spec_checkpoint()),
{
    if crate::order::total::<C>() {
        assert forall|x: ConsistencyToken<C>, y: ConsistencyToken<C>| #[trigger]
            crate::order::at_least(x, y) || crate::order::above(y, x) by {
            assert(crate::order::at_least(x.spec_checkpoint(), y.spec_checkpoint())
                || crate::order::above(y.spec_checkpoint(), x.spec_checkpoint()));
        }
        assert forall|x: ConsistencyToken<C>, y: ConsistencyToken<C>| #[trigger]
            crate::order::above(x, y) <==> crate::order::at_least(x, y) && x != y by {
            super::lemma_tokens_are_their_checkpoints(x, y);
            assert(crate::order::above(x.spec_checkpoint(), y.spec_checkpoint())
                <==> crate::order::at_least(x.spec_checkpoint(), y.spec_checkpoint())
                && x.spec_checkpoint() != y.spec_checkpoint());
        }
        assert forall|x: ConsistencyToken<C>, y: ConsistencyToken<C>| #[trigger]
            crate::order::at_most(x, y) <==> crate::order::at_least(y, x) by {
            assert(crate::order::at_most(x.spec_checkpoint(), y.spec_checkpoint())
                <==> crate::order::at_least(y.spec_checkpoint(), x.spec_checkpoint()));
        }
        assert forall|x: ConsistencyToken<C>, y: ConsistencyToken<C>, z: ConsistencyToken<C>|
            #[trigger] crate::order::at_least(x, y) && #[trigger] crate::order::at_least(
                y,
                z,
            ) implies crate::order::at_least(x, z) by {
            assert(crate::order::at_least(x.spec_checkpoint(), y.spec_checkpoint())
                && crate::order::at_least(y.spec_checkpoint(), z.spec_checkpoint()));
        }
        assert forall|x: ConsistencyToken<C>| #[trigger] crate::order::at_least(x, x) by {
            assert(crate::order::at_least(x.spec_checkpoint(), x.spec_checkpoint()));
        }
        assert forall|x: ConsistencyToken<C>, y: ConsistencyToken<C>| #[trigger]
            crate::order::at_least(x, y) && crate::order::at_least(y, x) implies x == y by {
            super::lemma_tokens_are_their_checkpoints(x, y);
            assert(crate::order::at_least(x.spec_checkpoint(), y.spec_checkpoint())
                && crate::order::at_least(y.spec_checkpoint(), x.spec_checkpoint()));
        }
    }
}

/// The global progress never goes back, whatever is delivered, and never falls
/// behind the last matching event.
pub proof fn progress_never_goes_back<S: SubscribableStore, P, H: EventHandler<P, S>>(
    before: SubscriptionLoop<S, P, H>,
    delivered: Result<Delivery<S>, S::Error>,
    after: SubscriptionLoop<S, P, H>,
    r: Result<Progress<S::Checkpoint>, SubscriptionError<S::Error>>,
)
    requires
        crate::order::total::<S::Checkpoint>(),
        crate::repository::laws::clones_exactly::<S::Checkpoint>(),
        before.handles(delivered, after, r),
    ensures
        crate::order::cursor_at_least(after.observed, before.observed),
        crate::order::cursor_at_least(before.observed, before.last_checkpoint)
            ==> crate::order::cursor_at_least(after.observed, after.last_checkpoint),
{
    let candidate = match delivered {
        Ok(Delivery::Event(item)) => Some(item.checkpoint),
        Ok(Delivery::Frontier(frontier)) => Some(frontier),
        Err(_) => None,
    };
    if let Some(candidate) = candidate {
        if let Some(current) = before.observed {
            assert(crate::order::at_least(current, candidate) || crate::order::above(
                candidate,
                current,
            ));
            assert(crate::order::above(candidate, current) ==> crate::order::at_least(
                candidate,
                current,
            ));
            assert(crate::order::at_least(current, current));
        }
        assert(crate::order::at_least(candidate, candidate));
        if let Some(last) = before.last_checkpoint {
            if let Some(current) = before.observed {
                if crate::order::at_least(current, last) && crate::order::above(
                    candidate,
                    current,
                ) {
                    assert(crate::order::at_least(candidate, last));
                }
            }
        }
    }
}

/// An event that is applied moves the cursor of matching events forward.
pub proof fn applied_events_come_in_order<S: SubscribableStore, P, H: EventHandler<P, S>>(
    before: SubscriptionLoop<S, P, H>,
    item: Checkpointed<S>,
    after: SubscriptionLoop<S, P, H>,
    progress: Progress<S::Checkpoint>,
)
    requires
        crate::order::total::<S::Checkpoint>(),
        before.handles(Ok(Delivery::Event(item)), after, Ok(progress)),
        progress.applied,
    ensures
        after.last_checkpoint == Some(item.checkpoint),
        before.last_checkpoint matches Some(last) ==> crate::order::above(item.checkpoint, last),
{
    if let Some(last) = before.last_checkpoint {
        assert(crate::order::at_least(last, item.checkpoint) || crate::order::above(
            item.checkpoint,
            last,
        ));
        assert(crate::order::at_most(item.checkpoint, last) <==> crate::order::at_least(
            last,
            item.checkpoint,
        ));
    }
}

/// An event that is delivered again after it was applied changes nothing, so
/// delivery may be at-least-once.
pub proof fn redelivery_is_harmless<S: SubscribableStore, P, H: EventHandler<P, S>>(
    before: SubscriptionLoop<S, P, H>,
    item: Checkpointed<S>,
    applied: SubscriptionLoop<S, P, H>,
    first: Progress<S::Checkpoint>,
    again: Checkpointed<S>,
    after: SubscriptionLoop<S, P, H>,
    r: Result<Progress<S::Checkpoint>, SubscriptionError<S::Error>>,
)
    requires
        crate::order::total::<S::Checkpoint>(),
        before.handles(Ok(Delivery::Event(item)), applied, Ok(first)),
        first.applied,
        again.checkpoint == item.checkpoint,
        applied.handles(Ok(Delivery::Event(again)), after, r),
    ensures
        after == applied,
        r matches Ok(progress) && !progress.applied && progress.offer is None,
{
    assert(crate::order::at_least(item.checkpoint, item.checkpoint));
    assert(crate::order::at_most(item.checkpoint, item.checkpoint));
}

/// An event at or before the last one that was taken changes nothing, and no room is
/// asked for it: it is not counted.
pub proof fn seen_events_change_nothing<S: SubscribableStore, P, H: EventHandler<P, S>>(
    before: SubscriptionLoop<S, P, H>,
    item: Checkpointed<S>,
    after: SubscriptionLoop<S, P, H>,
    r: Result<Progress<S::Checkpoint>, SubscriptionError<S::Error>>,
)
    requires
        before.last_checkpoint matches Some(last) && crate::order::at_most(item.checkpoint, last),
        before.handles(Ok(Delivery::Event(item)), after, r),
    ensures
        !before.counts(Ok(Delivery::Event(item))),
        after == before,
        r matches Ok(progress) && !progress.applied && !progress.ready && progress.observed is None
            && progress.offer is None,
{
}

/// Readiness is signalled when catch-up completes and at no other time; catch-up
/// never comes undone, so it is signalled at most once.
pub proof fn readiness_is_signalled_once<S: SubscribableStore, P, H: EventHandler<P, S>>(
    before: SubscriptionLoop<S, P, H>,
    delivered: Result<Delivery<S>, S::Error>,
    after: SubscriptionLoop<S, P, H>,
    r: Result<Progress<S::Checkpoint>, SubscriptionError<S::Error>>,
)
    requires
        before.handles(delivered, after, r),
    ensures
        before.caught_up ==> after.caught_up,
        r matches Ok(progress) ==> progress.ready == (after.caught_up && !before.caught_up),
{
}

/// The state and the cursor of matching events change only where an event is
/// applied; in particular a frontier changes neither.
pub proof fn only_events_change_the_state<S: SubscribableStore, P, H: EventHandler<P, S>>(
    before: SubscriptionLoop<S, P, H>,
    delivered: Result<Delivery<S>, S::Error>,
    after: SubscriptionLoop<S, P, H>,
    r: Result<Progress<S::Checkpoint>, SubscriptionError<S::Error>>,
)
    requires
        before.handles(delivered, after, r),
        !(r matches Ok(progress) && progress.applied),
    ensures
        before.same_but_observed(after),
{
}

/// A subscription that starts at the beginning is handed what one load of the same
/// filters gives, so the two build the same read models.
pub proof fn subscribing_agrees_with_loading<Id: StreamId, M>(
    log: Seq<InMemoryEvent<Id, M>>,
    filters: Seq<Selector<Id::Key, u64>>,
)
    ensures
        crate::store::inmemory::unseen(log, filters, None) == crate::store::inmemory::matching(
            log,
            filters,
        ),
{
    crate::store::inmemory::lemma_filter_keeps_all(
        crate::store::inmemory::matching(log, filters),
        crate::store::inmemory::past::<Id, M>(None),
    );
}

/// Every matching event that was committed is either past for a subscription at
/// `cursor`, or among what it is handed next.
pub proof fn no_write_is_missed<Id: StreamId, M>(
    log: Seq<InMemoryEvent<Id, M>>,
    filters: Seq<Selector<Id::Key, u64>>,
    cursor: Option<u64>,
    position: int,
)
    requires
        crate::store::inmemory::positioned(log),
        0 <= position < log.len(),
        crate::store::inmemory::accepted_by::<Id, M>(filters)(log[position]),
    ensures
        super::already_seen(cursor, log[position].position) || crate::store::inmemory::unseen(
            log,
            filters,
            cursor,
        ).contains(log[position]),
{
    let found = crate::store::inmemory::matching(log, filters);
    log.lemma_filter_contains(crate::store::inmemory::accepted_by(filters), position);
    let k = choose|k: int| 0 <= k < found.len() && found[k] == log[position];
    if !super::already_seen(cursor, log[position].position) {
        found.lemma_filter_contains(crate::store::inmemory::past(cursor), k);
    }
}

/// A subscription that has been handed everything is handed nothing more until
/// something is committed.
pub proof fn nothing_comes_twice<Id: StreamId, M>(
    log: Seq<InMemoryEvent<Id, M>>,
    filters: Seq<Selector<Id::Key, u64>>,
    cursor: Option<u64>,
)
    requires
        crate::store::inmemory::positioned(log),
    ensures
        crate::store::inmemory::unseen(
            log,
            filters,
            crate::store::inmemory::moved_past(
                cursor,
                crate::store::inmemory::unseen(log, filters, cursor),
            ),
        ).len() == 0,
{
    assert(log.take(log.len() as int) == log);
    crate::store::laws::drains_add_up(log, log, filters, cursor);
}

/// The matching events up to one of them are those before it, and that one.
proof fn lemma_matching_up_to<Id: StreamId, Meta>(
    log: Seq<InMemoryEvent<Id, Meta>>,
    selectors: Seq<Selector<Id::Key, u64>>,
    n: int,
)
    requires
        crate::store::inmemory::positioned(log),
        0 < n <= crate::store::inmemory::matching(log, selectors).len(),
    ensures
        ({
            let found = crate::store::inmemory::matching(log, selectors);
            let position = found[n - 1].position;
            &&& position < log.len()
            &&& crate::store::inmemory::matching(log.take(position + 1), selectors) == found.take(n)
        }),
{
    let pred = crate::store::inmemory::accepted_by::<Id, Meta>(selectors);
    let found = log.filter(pred);
    let position = found[n - 1].position as int;
    assert(found.contains(found[n - 1]));
    log.lemma_filter_contains_rev(pred, found[n - 1]);
    log.lemma_filter_pred(pred, n - 1);
    crate::store::inmemory::lemma_filter_ascending(log, pred);
    let head = log.take(position + 1);
    let tail = log.skip(position + 1);
    assert(log == head + tail);
    Seq::filter_distributes_over_add(head, tail, pred);
    let early = head.filter(pred);
    assert(head.drop_last() == log.take(position));
    assert(head.last() == log[position]);
    reveal(Seq::filter);
    assert(early == head.drop_last().filter(pred).push(log[position]));
    let m = early.len() as int;
    assert(found[m - 1] == early[m - 1]);
    assert(early == found.take(m));
    if m < n {
        assert(found[m - 1].position < found[n - 1].position);
    }
    if n < m {
        assert(found[n - 1].position < found[m - 1].position);
    }
}

/// A snapshot that a subscription stores along the way is what the events up to its
/// position build, so subscriptions keep the snapshots of their projections sound: a
/// restart resumes where the snapshot was taken and misses nothing.
pub proof fn subscriptions_keep_snapshots_sound<P, Id, Meta, E, Inst, F>(
    log: Seq<InMemoryEvent<Id, Meta>>,
    filters: Filters<Store<Id, Meta, E>, P, P::Handler>,
    initial: P,
    held: snapshot::inmemory::Store<Inst, u64, F>,
    kept: snapshot::inmemory::Store<Inst, u64, F>,
    kind: Seq<char>,
    instance_id: Inst::Key,
    r: Result<
        (SubscriptionLoop<Store<Id, Meta, E>, P, P::Handler>, Vec<EventFilter<Id, u64>>),
        SubscriptionError<InMemoryError<E>>,
    >,
) where
    P: ProjectionFilters<Store<Id, Meta, E>> + SnapshotState<F>,
    Id: StreamId,
    Meta: Clone,
    Inst: StreamId,

    requires
        crate::store::inmemory::positioned(log),
        forall|state: P, value: Value|
            #![trigger state.frozen(), P::revived(value)]
            state.frozen() == Some(value) ==> P::revived(value) == Some(state),
        ({
            let base: Option<(P, u64)> = super::inmemory::resume_point(held, kind, instance_id);
            &&& crate::repository::projection_laws::projection_sound::<P, Id, Meta, E>(
                log,
                filters,
                initial,
                base,
            )
            &&& super::inmemory::snapshots_along::<P, Id, Meta, E, F, (Seq<char>, Inst::Key)>(
                log,
                filters,
                match base {
                    Some((state, _)) => state,
                    None => initial,
                },
                crate::repository::inmemory::base_position(base),
                held.spec_policy(),
                held@,
                kept@,
                (kind, instance_id),
                r,
            )
        }),
    ensures
        crate::repository::projection_laws::projection_sound::<P, Id, Meta, E>(
            log,
            filters,
            initial,
            super::inmemory::resume_point(kept, kind, instance_id),
        ),
{
    let key = (kind, instance_id);
    let base: Option<(P, u64)> = super::inmemory::resume_point(held, kind, instance_id);
    let after = crate::repository::inmemory::base_position(base);
    let start = match base {
        Some((state, _)) => state,
        None => initial,
    };
    let specs = crate::store::selectors(filters.specs@);
    let every = crate::repository::inmemory::positioned_selectors(specs, None);
    let later = crate::repository::inmemory::positioned_selectors(specs, after);
    let found = crate::store::inmemory::matching(log, later);
    if kept@ != held@ {
        let (copies, states, count) = choose|
            copies: Seq<InMemoryEvent<Id, Meta>>,
            states: Seq<P>,
            count: int,
        |
            {
                &&& crate::store::inmemory::copies_of(found, copies)
                &&& 0 <= count <= found.len()
                &&& #[trigger] crate::repository::is_run::<P, Store<Id, Meta, E>, P::Handler>(
                    filters.handlers,
                    states,
                    copies.take(count),
                )
                &&& states.first() == start
                &&& kept@ == super::inmemory::offers_along::<
                    P,
                    F,
                    Id,
                    Meta,
                    (Seq<char>, Inst::Key),
                >(held.spec_policy(), key, held@, 0, states, copies.take(count)).0
            };
        let events = copies.take(count);
        super::inmemory::lemma_offers_along::<P, F, Id, Meta, (Seq<char>, Inst::Key)>(
            held.spec_policy(),
            key,
            held@,
            0,
            states,
            events,
        );
        let n = choose|n: int|
            {
                &&& 0 < n <= events.len()
                &&& kept@ == held@.insert(key, kept@[key])
                &&& kept@[key].position == events[n - 1].position
                &&& (#[trigger] states[n]).frozen() == Some(kept@[key].data)
            };
        let state = states[n];
        let position = found[n - 1].position;
        assert(crate::store::inmemory::copy_of(found[n - 1], copies[n - 1]));
        lemma_matching_up_to(log, later, n);
        assert(P::revived(kept@[key].data) == Some(state));
        super::inmemory::lemma_run_prefix::<P, Store<Id, Meta, E>, P::Handler>(
            filters.handlers,
            states,
            events,
            n,
        );
        assert(events.take(n) == copies.take(n));
        super::inmemory::lemma_copies_prefix(found, copies, n);
        let reached = log.take(position + 1);
        assert(crate::repository::inmemory::projection_built::<P, Id, Meta, E>(
            reached,
            filters,
            start,
            after,
            Ok(state),
        ));
        assert(crate::store::inmemory::positioned(reached));
        if let Some((_, from)) = base {
            let pred = crate::store::inmemory::accepted_by::<Id, Meta>(later);
            log.lemma_filter_pred(pred, n - 1);
            let k = choose|k: int|
                0 <= k < later.len() && crate::store::inmemory::accepts(
                    #[trigger] later[k],
                    found[n - 1],
                );
            assert(later[k].after_position == Some(from));
            assert(reached.take(from + 1) == log.take(from + 1));
        }
        crate::repository::projection_laws::snapshots_do_not_change_projections::<
            P,
            Id,
            Meta,
            E,
        >(reached, filters, initial, base, state);
        assert(super::inmemory::resume_point::<P, Inst, F>(kept, kind, instance_id) == Some(
            (state, position),
        ));
    }
}

/// A subscription that is started from a sound snapshot has the read model that
/// replaying every event builds.
pub proof fn starting_gives_the_projection<P, Id, Meta, E>(
    log: Seq<InMemoryEvent<Id, Meta>>,
    filters: Filters<Store<Id, Meta, E>, P, P::Handler>,
    initial: P,
    base: Option<(P, u64)>,
    running: SubscriptionLoop<Store<Id, Meta, E>, P, P::Handler>,
    event_filters: Vec<EventFilter<Id, u64>>,
) where P: ProjectionFilters<Store<Id, Meta, E>>, Id: StreamId, Meta: Clone
    requires
        crate::store::inmemory::positioned(log),
        crate::repository::projection_laws::projection_sound::<P, Id, Meta, E>(
            log,
            filters,
            initial,
            base,
        ),
        super::inmemory::started::<P, Id, Meta, E>(
            log,
            filters,
            match base {
                Some((state, _)) => state,
                None => initial,
            },
            crate::repository::inmemory::base_position(base),
            Ok((running, event_filters)),
        ),
    ensures
        crate::repository::inmemory::projection_built::<P, Id, Meta, E>(
            log,
            filters,
            initial,
            None,
            Ok(running.projection),
        ),
        running.caught_up,
{
    crate::repository::projection_laws::snapshots_do_not_change_projections::<P, Id, Meta, E>(
        log,
        filters,
        initial,
        base,
        running.projection,
    );
}

} // verus!
