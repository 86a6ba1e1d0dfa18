//! What holds of reactors as a whole.

use vstd::prelude::*;

use super::{
    DomainReaction, EventContext, React, ReactDispatchError, ReactError, ReactFilters, ReactStep,
    ReactorError, ReactorLoop, Receipt, RetryPolicy, SumReaction,
};
use crate::{
    aggregate::Aggregate,
    event::{DomainEvent, ProjectionEvent},
    key::StorageKey,
    projection::Handlers,
    snapshot::{Snapshot, SnapshotOffer},
    store::{
        inmemory::{InMemoryEvent, Store},
        EventFilter, Selector, StreamId,
    },
    subscription::{
        Checkpointed, Delivery, Progress, RunnerError, SubscribableStore, SubscriptionError,
        TaskEnd,
    },
};

verus! {

/// Reactions come in the order of checkpoints: an event that gets one is after the
/// last that got one.
pub proof fn reactions_come_in_order<S: SubscribableStore>(
    before: ReactorLoop<S>,
    delivered: Result<Delivery<S>, S::Error>,
    item: Checkpointed<S>,
    received: ReactorLoop<S>,
    after: ReactorLoop<S>,
    progress: Progress<S::Checkpoint>,
)
    requires
        crate::order::total::<S::Checkpoint>(),
        before.receives(delivered, received, Ok(Receipt::React(item))),
        received.processes(item.checkpoint, after, progress),
    ensures
        delivered == Ok::<Delivery<S>, S::Error>(Delivery::Event(item)),
        before.last_checkpoint matches Some(last) ==> crate::order::above(item.checkpoint, last),
        after.last_checkpoint == Some(item.checkpoint),
{
    if let Some(last) = before.last_checkpoint {
        assert(crate::order::at_most(item.checkpoint, last) <==> crate::order::at_least(
            last,
            item.checkpoint,
        ));
        assert(crate::order::at_least(last, item.checkpoint) || crate::order::above(
            item.checkpoint,
            last,
        ));
    }
}

/// An event that got its reaction gets none again while the reactor runs, nor does
/// any event before it: a redelivery is skipped.
pub proof fn reactions_are_not_repeated<S: SubscribableStore>(
    before: ReactorLoop<S>,
    checkpoint: S::Checkpoint,
    reacted: ReactorLoop<S>,
    progress: Progress<S::Checkpoint>,
    again: Checkpointed<S>,
    after: ReactorLoop<S>,
    r: Result<Receipt<S>, RunnerError<S::Error>>,
)
    requires
        crate::order::total::<S::Checkpoint>(),
        before.processes(checkpoint, reacted, progress),
        crate::order::at_least(checkpoint, again.checkpoint),
        reacted.receives(Ok(Delivery::Event(again)), after, r),
    ensures
        after == reacted,
        r matches Ok(Receipt::Skip),
{
    assert(crate::order::at_most(again.checkpoint, checkpoint));
}

/// The global progress of a reactor never goes back.
pub proof fn progress_never_goes_back<S: SubscribableStore>(
    before: ReactorLoop<S>,
    delivered: Result<Delivery<S>, S::Error>,
    received: ReactorLoop<S>,
    r: Result<Receipt<S>, RunnerError<S::Error>>,
    checkpoint: S::Checkpoint,
    after: ReactorLoop<S>,
    progress: Progress<S::Checkpoint>,
)
    requires
        crate::order::total::<S::Checkpoint>(),
        crate::repository::laws::clones_exactly::<S::Checkpoint>(),
        before.receives(delivered, received, r),
        received.processes(checkpoint, after, progress),
    ensures
        crate::order::cursor_at_least(received.observed, before.observed),
        crate::order::cursor_at_least(after.observed, received.observed),
        crate::order::cursor_at_least(after.observed, after.last_checkpoint),
{
    if let Some(current) = before.observed {
        assert(crate::order::at_least(current, current));
        if let Ok(Delivery::Frontier(frontier)) = delivered {
            assert(crate::order::above(frontier, current) ==> crate::order::at_least(
                frontier,
                current,
            ));
        }
    }
    if let Some(current) = received.observed {
        assert(crate::order::at_least(current, current));
        assert(crate::order::above(checkpoint, current) ==> crate::order::at_least(
            checkpoint,
            current,
        ));
        assert(crate::order::at_least(current, checkpoint) || crate::order::above(
            checkpoint,
            current,
        ));
    }
    assert(crate::order::at_least(checkpoint, checkpoint));
}

/// The number of events that is offered with a checkpoint grows by one with every
/// event, and starts over only where a checkpoint was stored.
pub proof fn declined_offers_add_up<S: SubscribableStore>(
    before: ReactorLoop<S>,
    first: S::Checkpoint,
    reacted: ReactorLoop<S>,
    offered: Progress<S::Checkpoint>,
    stored: bool,
    second: S::Checkpoint,
    after: ReactorLoop<S>,
    offered_next: Progress<S::Checkpoint>,
)
    requires
        before.processes(first, reacted, offered),
        (ReactorLoop {
            events_since_checkpoint: if stored {
                0
            } else {
                reacted.events_since_checkpoint
            },
            ..reacted
        }).processes(second, after, offered_next),
    ensures
        offered.offer matches Some(due) && due.events_since_snapshot
            == before.events_since_checkpoint + 1,
        offered_next.offer matches Some(due) && due.events_since_snapshot == if stored {
            1
        } else {
            before.events_since_checkpoint + 2
        },
{
}

/// A checkpoint that is offered marks the last event that got its reaction: a reactor
/// that is started again from it skips that event and what came before, and nothing
/// else.
pub proof fn checkpoints_mark_what_was_done<S: SubscribableStore>(
    before: ReactorLoop<S>,
    checkpoint: S::Checkpoint,
    after: ReactorLoop<S>,
    progress: Progress<S::Checkpoint>,
    other: S::Checkpoint,
)
    requires
        crate::order::total::<S::Checkpoint>(),
        crate::repository::laws::clones_exactly::<S::Checkpoint>(),
        before.processes(checkpoint, after, progress),
    ensures
        progress.offer matches Some(due) && Some(due.checkpoint) == after.last_checkpoint
            && crate::subscription::already_seen(Some(due.checkpoint), other)
            == crate::order::at_least(checkpoint, other),
{
    assert(crate::order::at_most(other, checkpoint) <==> crate::order::at_least(
        checkpoint,
        other,
    ));
}

/// Whether `steps` follow one after the other from reactions to one event, each a
/// retry of the one before.
pub open spec fn retries<SE, CE, E>(
    policy: RetryPolicy,
    outcomes: Seq<Result<(), ReactDispatchError<SE, E>>>,
    steps: Seq<ReactStep<SE, CE, E>>,
) -> bool {
    &&& outcomes.len() == steps.len() <= usize::MAX
    &&& forall|i: int|
        0 <= i < steps.len() ==> policy.follows(i as usize, outcomes[i], #[trigger] steps[i])
    &&& forall|i: int| 0 <= i < steps.len() - 1 ==> (#[trigger] steps[i]) is RetryAfter
}

/// A policy with a limit lets an event have that many retries and no more, and an
/// event that has them all without success fails its reactor.
pub proof fn retries_are_bounded<SE, CE, E>(
    policy: RetryPolicy,
    limit: usize,
    outcomes: Seq<Result<(), ReactDispatchError<SE, E>>>,
    steps: Seq<ReactStep<SE, CE, E>>,
)
    requires
        policy.max_retries == Some(limit),
        retries(policy, outcomes, steps),
    ensures
        steps.len() <= limit + 1,
        steps.len() == limit + 1 && outcomes.last() is Err ==> steps.last() is Fail,
{
    if steps.len() > limit + 1 {
        assert(policy.follows(limit, outcomes[limit as int], steps[limit as int]));
        assert(steps[limit as int] is RetryAfter);
    }
    if steps.len() == limit + 1 {
        assert(policy.follows(limit, outcomes[limit as int], steps[limit as int]));
    }
}

/// Only a retryable failure is retried: any other outcome settles the event at once.
pub proof fn only_retryable_failures_are_retried<SE, CE, E>(
    policy: RetryPolicy,
    retry_index: usize,
    outcome: Result<(), ReactDispatchError<SE, E>>,
    step: ReactStep<SE, CE, E>,
)
    requires
        policy.follows(retry_index, outcome, step),
        step is RetryAfter,
    ensures
        outcome matches Err(ReactDispatchError::Reaction(super::ReactError::Retry(_))),
{
}

/// Moving filters to a position changes what they pick by that position alone.
proof fn lemma_moved_filters_pick<Id: StreamId, M>(
    log: Seq<InMemoryEvent<Id, M>>,
    selectors: Seq<Selector<Id::Key, u64>>,
    after: Option<u64>,
    placed: Seq<Selector<Id::Key, u64>>,
    event: InMemoryEvent<Id, M>,
)
    requires
        super::repositioned(selectors, after, placed),
    ensures
        crate::store::inmemory::matching(log, placed).contains(event) <==> {
            &&& log.contains(event)
            &&& after is Some ==> event.position > after->0
            &&& exists|i: int|
                {
                    &&& 0 <= i < selectors.len()
                    &&& event.kind@ == (#[trigger] selectors[i]).event_kind
                    &&& selectors[i].aggregate_kind is Some ==> event.aggregate_kind@
                        == selectors[i].aggregate_kind->0
                    &&& selectors[i].aggregate_id is Some ==> event.aggregate_id.key()
                        == selectors[i].aggregate_id->0
                }
        },
{
    crate::store::records::selectors_pick_what_they_ask_for(log, placed, event);
    assert forall|i: int| 0 <= i < placed.len() implies {
        &&& (#[trigger] placed[i]).event_kind == selectors[i].event_kind
        &&& placed[i].aggregate_kind == selectors[i].aggregate_kind
        &&& placed[i].aggregate_id == selectors[i].aggregate_id
        &&& placed[i].after_position == after
    } by {
        assert(super::moved(selectors[i], after, placed[i]));
    }
    if crate::store::inmemory::matching(log, placed).contains(event) {
        let i = choose|i: int|
            0 <= i < placed.len() && crate::store::records::asked_by::<Id, M>(
                #[trigger] placed[i],
                event,
            );
        assert(event.kind@ == selectors[i].event_kind);
    }
    if log.contains(event) && (after is Some ==> event.position > after->0) && exists|i: int|
        {
            &&& 0 <= i < selectors.len()
            &&& event.kind@ == (#[trigger] selectors[i]).event_kind
            &&& selectors[i].aggregate_kind is Some ==> event.aggregate_kind@
                == selectors[i].aggregate_kind->0
            &&& selectors[i].aggregate_id is Some ==> event.aggregate_id.key()
                == selectors[i].aggregate_id->0
        } {
        let i = choose|i: int|
            {
                &&& 0 <= i < selectors.len()
                &&& event.kind@ == (#[trigger] selectors[i]).event_kind
                &&& selectors[i].aggregate_kind is Some ==> event.aggregate_kind@
                    == selectors[i].aggregate_kind->0
                &&& selectors[i].aggregate_id is Some ==> event.aggregate_id.key()
                    == selectors[i].aggregate_id->0
            };
        assert(crate::store::records::asked_by::<Id, M>(placed[i], event));
    }
}

/// A subscription to one aggregate instance adds the events of its stream, and of no
/// other: of what is in the log, a reactor gets after it what it got before and the events
/// of that stream with a kind that was subscribed to, after the position.
pub proof fn instance_subscriptions_add_their_stream<Id, M, E, R, H, T>(
    before: ReactFilters<Store<Id, M, E>, R, H>,
    kinds: Seq<&'static str>,
    aggregate_kind: Seq<char>,
    id: Id,
    source: T,
    built: ReactFilters<Store<Id, M, E>, R, H>,
    after: Option<u64>,
    earlier: Seq<EventFilter<Id, u64>>,
    filters: Seq<EventFilter<Id, u64>>,
    log: Seq<InMemoryEvent<Id, M>>,
    event: InMemoryEvent<Id, M>,
) where Id: StreamId, M: Clone, H: From<T>,
    requires
        super::subscribes(
            before,
            crate::projection::within_of(kinds, aggregate_kind, id.key()),
            kinds,
            source,
            built,
        ),
        super::repositioned(
            crate::store::selectors(before.specs@),
            after,
            crate::store::selectors(earlier),
        ),
        super::repositioned(
            crate::store::selectors(built.specs@),
            after,
            crate::store::selectors(filters),
        ),
    ensures
        crate::store::inmemory::matching(log, crate::store::selectors(filters)).contains(event) <==> {
            ||| crate::store::inmemory::matching(log, crate::store::selectors(earlier)).contains(
                event,
            )
            ||| {
                &&& log.contains(event)
                &&& event.aggregate_kind@ == aggregate_kind
                &&& event.aggregate_id.key() == id.key()
                &&& crate::store::records::of_kinds_after(event, kinds, after)
            }
        },
{
    let had = crate::store::selectors(before.specs@);
    let has = crate::store::selectors(built.specs@);
    lemma_moved_filters_pick(log, had, after, crate::store::selectors(earlier), event);
    lemma_moved_filters_pick(log, has, after, crate::store::selectors(filters), event);
    assert forall|i: int| 0 <= i < had.len() implies has[i] == #[trigger] had[i] by {}
    assert forall|k: int| 0 <= k < kinds.len() implies {
        &&& has[had.len() + k].event_kind == (#[trigger] kinds[k])@
        &&& has[had.len() + k].aggregate_kind == Some(aggregate_kind)
        &&& has[had.len() + k].aggregate_id == Some(id.key())
    } by {}
    if crate::store::inmemory::matching(log, crate::store::selectors(filters)).contains(event) {
        let i = choose|i: int|
            {
                &&& 0 <= i < has.len()
                &&& event.kind@ == (#[trigger] has[i]).event_kind
                &&& has[i].aggregate_kind is Some ==> event.aggregate_kind@
                    == has[i].aggregate_kind->0
                &&& has[i].aggregate_id is Some ==> event.aggregate_id.key()
                    == has[i].aggregate_id->0
            };
        if i < had.len() {
            assert(had[i] == has[i]);
        } else {
            assert(kinds[i - had.len()]@ == event.kind@);
        }
    }
    if crate::store::records::of_kinds_after(event, kinds, after) {
        let k = choose|k: int| 0 <= k < kinds.len() && (#[trigger] kinds[k])@ == event.kind@;
        assert(has[had.len() + k].event_kind == event.kind@);
    }
}

/// What a reactor that subscribed to one aggregate instance and to nothing else gets: only
/// events of that stream with a kind that was subscribed to and after the position, and
/// every one of those.
pub proof fn instance_subscriptions_get_their_stream<Id, M, E, R, H, T>(
    empty: ReactFilters<Store<Id, M, E>, R, H>,
    kinds: Seq<&'static str>,
    aggregate_kind: Seq<char>,
    id: Id,
    source: T,
    built: ReactFilters<Store<Id, M, E>, R, H>,
    after: Option<u64>,
    filters: Seq<EventFilter<Id, u64>>,
    log: Seq<InMemoryEvent<Id, M>>,
) where Id: StreamId, M: Clone, H: From<T>,
    requires
        empty.specs@.len() == 0,
        super::subscribes(
            empty,
            crate::projection::within_of(kinds, aggregate_kind, id.key()),
            kinds,
            source,
            built,
        ),
        super::repositioned(
            crate::store::selectors(built.specs@),
            after,
            crate::store::selectors(filters),
        ),
    ensures
        forall|i: int|
            0 <= i < crate::store::inmemory::matching(log, crate::store::selectors(filters)).len()
                ==> {
                let event = #[trigger] crate::store::inmemory::matching(
                    log,
                    crate::store::selectors(filters),
                )[i];
                &&& event.aggregate_kind@ == aggregate_kind
                &&& event.aggregate_id.key() == id.key()
                &&& crate::store::records::of_kinds_after(event, kinds, after)
            },
        forall|i: int|
            0 <= i < crate::store::inmemory::stream_of(log, aggregate_kind, id.key()).len()
                && crate::store::records::of_kinds_after(
                #[trigger] crate::store::inmemory::stream_of(log, aggregate_kind, id.key())[i],
                kinds,
                after,
            ) ==> crate::store::inmemory::matching(log, crate::store::selectors(filters)).contains(
                crate::store::inmemory::stream_of(log, aggregate_kind, id.key())[i],
            ),
{
    let found = crate::store::inmemory::matching(log, crate::store::selectors(filters));
    let stream = crate::store::inmemory::stream_of(log, aggregate_kind, id.key());
    let picks = crate::store::inmemory::in_stream::<Id, M>(aggregate_kind, id.key());
    let none = Seq::<EventFilter<Id, u64>>::empty();
    assert forall|event: InMemoryEvent<Id, M>| #[trigger] found.contains(event) <==> {
        &&& log.contains(event)
        &&& event.aggregate_kind@ == aggregate_kind
        &&& event.aggregate_id.key() == id.key()
        &&& crate::store::records::of_kinds_after(event, kinds, after)
    } by {
        instance_subscriptions_add_their_stream(
            empty,
            kinds,
            aggregate_kind,
            id,
            source,
            built,
            after,
            none,
            filters,
            log,
            event,
        );
        crate::store::records::selectors_pick_what_they_ask_for(
            log,
            crate::store::selectors(none),
            event,
        );
    }
    assert forall|i: int| 0 <= i < found.len() implies {
        &&& (#[trigger] found[i]).aggregate_kind@ == aggregate_kind
        &&& found[i].aggregate_id.key() == id.key()
        &&& crate::store::records::of_kinds_after(found[i], kinds, after)
    } by {
        assert(found.contains(found[i]));
    }
    assert forall|i: int|
        0 <= i < stream.len() && crate::store::records::of_kinds_after(#[trigger] stream[i], kinds, after) implies found.contains(
        stream[i],
    ) by {
        assert(stream.contains(stream[i]));
        log.lemma_filter_contains_rev(picks, stream[i]);
        log.lemma_filter_pred(picks, i);
    }
}

/// A subscription to kinds of events adds every event of those kinds after the position,
/// whatever its stream, and nothing else.
pub proof fn global_subscriptions_add_their_kinds<Id, M, E, R, H, T>(
    before: ReactFilters<Store<Id, M, E>, R, H>,
    kinds: Seq<&'static str>,
    source: T,
    built: ReactFilters<Store<Id, M, E>, R, H>,
    after: Option<u64>,
    earlier: Seq<EventFilter<Id, u64>>,
    filters: Seq<EventFilter<Id, u64>>,
    log: Seq<InMemoryEvent<Id, M>>,
    event: InMemoryEvent<Id, M>,
) where Id: StreamId, M: Clone, H: From<T>,
    requires
        super::subscribes(before, crate::projection::every_of(kinds), kinds, source, built),
        super::repositioned(
            crate::store::selectors(before.specs@),
            after,
            crate::store::selectors(earlier),
        ),
        super::repositioned(
            crate::store::selectors(built.specs@),
            after,
            crate::store::selectors(filters),
        ),
    ensures
        crate::store::inmemory::matching(log, crate::store::selectors(filters)).contains(event) <==> {
            ||| crate::store::inmemory::matching(log, crate::store::selectors(earlier)).contains(
                event,
            )
            ||| log.contains(event) && crate::store::records::of_kinds_after(event, kinds, after)
        },
        before.specs@.len() == 0 ==> (crate::store::inmemory::matching(
            log,
            crate::store::selectors(filters),
        ).contains(event) <==> log.contains(event) && crate::store::records::of_kinds_after(event, kinds, after)),
{
    let had = crate::store::selectors(before.specs@);
    let has = crate::store::selectors(built.specs@);
    lemma_moved_filters_pick(log, had, after, crate::store::selectors(earlier), event);
    lemma_moved_filters_pick(log, has, after, crate::store::selectors(filters), event);
    assert forall|i: int| 0 <= i < had.len() implies has[i] == #[trigger] had[i] by {}
    assert forall|k: int| 0 <= k < kinds.len() implies {
        &&& has[had.len() + k].event_kind == (#[trigger] kinds[k])@
        &&& has[had.len() + k].aggregate_kind is None
        &&& has[had.len() + k].aggregate_id is None
    } by {}
    if crate::store::inmemory::matching(log, crate::store::selectors(filters)).contains(event) {
        let i = choose|i: int|
            {
                &&& 0 <= i < has.len()
                &&& event.kind@ == (#[trigger] has[i]).event_kind
                &&& has[i].aggregate_kind is Some ==> event.aggregate_kind@
                    == has[i].aggregate_kind->0
                &&& has[i].aggregate_id is Some ==> event.aggregate_id.key()
                    == has[i].aggregate_id->0
            };
        if i < had.len() {
            assert(had[i] == has[i]);
        } else {
            assert(kinds[i - had.len()]@ == event.kind@);
        }
    }
    if crate::store::records::of_kinds_after(event, kinds, after) {
        let k = choose|k: int| 0 <= k < kinds.len() && (#[trigger] kinds[k])@ == event.kind@;
        assert(has[had.len() + k].event_kind == event.kind@);
    }
}

/// A subscription registers one handler, made of what was subscribed, for each of its
/// kinds, and leaves the handlers of all other kinds as they are.
pub proof fn subscriptions_register_their_kinds<Id, M, E, R, H, T>(
    before: ReactFilters<Store<Id, M, E>, R, H>,
    selectors: Seq<Selector<Id::Key, u64>>,
    kinds: Seq<&'static str>,
    source: T,
    built: ReactFilters<Store<Id, M, E>, R, H>,
) where Id: StreamId, M: Clone, H: From<T>,
    requires
        super::subscribes(before, selectors, kinds, source, built),
    ensures
        exists|handler: H|
            {
                &&& #[trigger] call_ensures(<H as From<T>>::from, (source,), handler)
                &&& forall|k: int|
                    0 <= k < kinds.len() ==> built.handlers.handler_of((#[trigger] kinds[k])@) == Some(
                        handler,
                    )
                &&& forall|kind: Seq<char>|
                    (forall|k: int| 0 <= k < kinds.len() ==> (#[trigger] kinds[k])@ != kind)
                        ==> #[trigger] built.handlers.handler_of(kind)
                        == before.handlers.handler_of(kind)
            },
{
    let handler = choose|handler: H| #[trigger]
        call_ensures(<H as From<T>>::from, (source,), handler) && crate::projection::registers(
            before.handlers,
            built.handlers,
            kinds,
            handler,
        );
    assert forall|k: int| 0 <= k < kinds.len() implies built.handlers.handler_of(
        (#[trigger] kinds[k])@,
    ) == Some(handler) by {
        assert(crate::event::is_kind(kinds, kinds[k]@));
    }
}

/// What follows each outcome of a reaction. One that succeeded is done with. An event that
/// cannot be decoded and a fatal failure stop the reactor with their error. A retryable
/// failure is retried while fewer retries were made than the policy allows, and then stops
/// the reactor with its error too.
pub proof fn each_outcome_has_its_step<SE, CE, E>(
    policy: &RetryPolicy,
    retry_index: usize,
    outcome: Result<(), ReactDispatchError<SE, E>>,
    step: ReactStep<SE, CE, E>,
)
    requires
        call_ensures(
            RetryPolicy::after_reaction::<SE, CE, E>,
            (policy, retry_index, outcome),
            step,
        ),
    ensures
        outcome is Ok <==> step is Processed,
        outcome is Err && outcome->Err_0 is EventDecode ==> step == ReactStep::<SE, CE, E>::Fail(
            ReactorError::Runner(SubscriptionError::EventDecode(outcome->Err_0->EventDecode_0)),
        ),
        outcome is Err && outcome->Err_0 is Reaction && outcome->Err_0->Reaction_0 is Fatal
            ==> step == ReactStep::<SE, CE, E>::Fail(
            ReactorError::Reaction(outcome->Err_0->Reaction_0->Fatal_0),
        ),
        outcome is Err && outcome->Err_0 is Reaction && outcome->Err_0->Reaction_0 is Retry ==> {
            if policy.max_retries is None || retry_index < policy.max_retries->0 {
                step is RetryAfter
            } else {
                step == ReactStep::<SE, CE, E>::Fail(
                    ReactorError::Reaction(outcome->Err_0->Reaction_0->Retry_0),
                )
            }
        },
{
}

/// How long a retry waits, in nanoseconds: the initial delay, doubled for each retry
/// before it, up to the longest delay of the policy. The factor stops growing at the
/// largest that 32 bits hold, and the product at the longest delay there is.
pub proof fn retries_wait_twice_as_long_each<SE, CE, E>(
    policy: &RetryPolicy,
    retry_index: usize,
    outcome: Result<(), ReactDispatchError<SE, E>>,
    step: ReactStep<SE, CE, E>,
)
    requires
        call_ensures(
            RetryPolicy::after_reaction::<SE, CE, E>,
            (policy, retry_index, outcome),
            step,
        ),
        step is RetryAfter,
    ensures
        ({
            let waits = step->RetryAfter_0.spec_nanos();
            let wanted = policy.initial_delay.spec_nanos() * (if retry_index <= 31 {
                vstd::arithmetic::power2::pow2(retry_index as nat) as int
            } else {
                4_294_967_295
            });
            let longest = policy.max_delay.spec_nanos();
            &&& waits <= longest
            &&& waits <= wanted
            &&& waits <= 18_446_744_073_709_551_615_999_999_999
            &&& waits == longest || waits == wanted || waits
                == 18_446_744_073_709_551_615_999_999_999
        }),
{
}

/// A reaction is told of the event that was stored: of the aggregate instance it belongs
/// to, and of its metadata.
pub proof fn reactions_are_told_of_the_stored_event<R, E, Pos, Data>(
    reactor: R,
    stored: crate::store::StoredEvent<R::Id, Pos, Data, R::Metadata>,
    event: E,
    r: Result<(), ReactError<R::Failure>>,
) where R: React<E>
    requires
        super::reacts(reactor, stored, event, r),
    ensures
        exists|context: EventContext<R::Id, R::Metadata>|
            {
                &&& #[trigger] call_ensures(
                    <R as React<E>>::react,
                    (&reactor, context, &event),
                    r,
                )
                &&& context.aggregate_id == stored.aggregate_id
                &&& context.metadata == stored.metadata
            },
{
    let context = EventContext { aggregate_id: &stored.aggregate_id, metadata: &stored.metadata };
    assert(call_ensures(<R as React<E>>::react, (&reactor, context, &event), r));
}

/// What a reactor makes of a delivery of the in-memory store. An event at or before the
/// last that got its reaction is skipped, and any other is to get one; neither changes the
/// reactor. A frontier moves the global progress where it is further, and is published only
/// then. A failure is reported.
pub proof fn deliveries_are_received_by_number<Id: StreamId, M: Clone, E>(
    state: &mut ReactorLoop<Store<Id, M, E>>,
    delivered: Result<
        Delivery<Store<Id, M, E>>,
        crate::store::inmemory::InMemoryError<E>,
    >,
    r: Result<
        Receipt<Store<Id, M, E>>,
        RunnerError<crate::store::inmemory::InMemoryError<E>>,
    >,
)
    requires
        call_ensures(ReactorLoop::<Store<Id, M, E>>::receive, (state, delivered), r),
    ensures
        final(state).catchup_target == old(state).catchup_target,
        final(state).last_checkpoint == old(state).last_checkpoint,
        final(state).events_since_checkpoint == old(state).events_since_checkpoint,
        final(state).caught_up == old(state).caught_up,
        match delivered {
            Err(error) => {
                &&& final(state).observed == old(state).observed
                &&& r is Err
                &&& r->Err_0 is Store
                &&& r->Err_0->Store_0 == error
            },
            Ok(Delivery::Event(item)) => {
                &&& final(state).observed == old(state).observed
                &&& if old(state).last_checkpoint is Some && item.checkpoint
                    <= old(state).last_checkpoint->0 {
                    r is Ok && r->Ok_0 is Skip
                } else {
                    r is Ok && r->Ok_0 is React && r->Ok_0->React_0 == item
                }
            },
            Ok(Delivery::Frontier(frontier)) => {
                &&& r is Ok && r->Ok_0 is Observed
                &&& if old(state).observed is Some && frontier <= old(state).observed->0 {
                    final(state).observed == old(state).observed && r->Ok_0->Observed_0 is None
                } else {
                    final(state).observed == Some(frontier) && r->Ok_0->Observed_0 == Some(frontier)
                }
            },
        },
{
    assert(old(state).receives(delivered, *final(state), r));
}

/// What a reactor notes of an event that got its reaction: it is the last one, there is one
/// more since a checkpoint was stored, the global progress is at least there, and catch-up
/// is complete once its target is reached. The checkpoint that is offered is that of the
/// event, with the number of events it stands for.
pub proof fn reactions_are_noted_by_number<Id: StreamId, M: Clone, E>(
    state: &mut ReactorLoop<Store<Id, M, E>>,
    checkpoint: u64,
    progress: Progress<u64>,
)
    requires
        call_ensures(ReactorLoop::<Store<Id, M, E>>::processed, (state, checkpoint), progress),
    ensures
        final(state).catchup_target == old(state).catchup_target,
        final(state).last_checkpoint == Some(checkpoint),
        final(state).events_since_checkpoint == old(state).events_since_checkpoint + 1,
        final(state).observed == if old(state).observed is Some && checkpoint <= old(state).observed->0 {
            old(state).observed
        } else {
            Some(checkpoint)
        },
        progress.applied,
        progress.observed == if old(state).observed is Some && checkpoint <= old(state).observed->0 {
            None
        } else {
            Some(checkpoint)
        },
        final(state).caught_up <==> old(state).caught_up || old(state).catchup_target is None || checkpoint
            >= old(state).catchup_target->0,
        progress.ready <==> final(state).caught_up && !old(state).caught_up,
        progress.offer is Some,
        progress.offer->0.checkpoint == checkpoint,
        progress.offer->0.events_since_snapshot == old(state).events_since_checkpoint + 1,
{
    assert(old(state).processes(checkpoint, *final(state), progress));
}

/// Whether `filters` pick from `log` the events of one stream with one of `kinds` that come
/// after a position, if one is given: only such events, and every one of them.
pub open spec fn picks_the_stream<Id: StreamId, M>(
    log: Seq<InMemoryEvent<Id, M>>,
    filters: Seq<EventFilter<Id, u64>>,
    aggregate_kind: Seq<char>,
    id: Id::Key,
    kinds: Seq<&'static str>,
    after: Option<u64>,
) -> bool {
    &&& forall|i: int|
        0 <= i < crate::store::inmemory::matching(log, crate::store::selectors(filters)).len() ==> {
            let event = #[trigger] crate::store::inmemory::matching(
                log,
                crate::store::selectors(filters),
            )[i];
            &&& event.aggregate_kind@ == aggregate_kind
            &&& event.aggregate_id.key() == id
            &&& crate::store::records::of_kinds_after(event, kinds, after)
        }
    &&& forall|i: int|
        0 <= i < crate::store::inmemory::stream_of(log, aggregate_kind, id).len()
            && crate::store::records::of_kinds_after(
            #[trigger] crate::store::inmemory::stream_of(log, aggregate_kind, id)[i],
            kinds,
            after,
        ) ==> crate::store::inmemory::matching(log, crate::store::selectors(filters)).contains(
            crate::store::inmemory::stream_of(log, aggregate_kind, id)[i],
        )
}

/// A reactor that subscribes to one event type of one aggregate instance gets exactly the
/// events of that kind in the stream of that instance, after the position.
pub proof fn reactors_to_one_event_get_its_stream<A, E, R, H, Id, M, F>(
    empty: ReactFilters<Store<Id, M, F>, R, H>,
    aggregate_id: &A::Id,
    built: ReactFilters<Store<Id, M, F>, R, H>,
    after: Option<&u64>,
    r: (Vec<EventFilter<Id, u64>>, Handlers<H>),
    log: Seq<InMemoryEvent<Id, M>>,
) where
    A: Aggregate,
    A::Id: StorageKey<Id>,
    E: DomainEvent,
    H: From<DomainReaction<E>>,
    Id: StreamId,
    M: Clone,

    requires
        call_ensures(ReactFilters::<Store<Id, M, F>, R, H>::new, (), empty),
        call_ensures(
            ReactFilters::<Store<Id, M, F>, R, H>::event_for::<A, E>,
            (empty, aggregate_id),
            built,
        ),
        call_ensures(
            ReactFilters::<Store<Id, M, F>, R, H>::into_event_filters,
            (built, after),
            r,
        ),
    ensures
        exists|key: Id|
            {
                &&& #[trigger] call_ensures(
                    <A::Id as StorageKey<Id>>::to_key,
                    (aggregate_id,),
                    key,
                )
                &&& picks_the_stream(
                    log,
                    r.0@,
                    A::KIND@,
                    key.key(),
                    seq![E::KIND],
                    match after {
                        Some(position) => Some(*position),
                        None => None,
                    },
                )
            },
{
    let kinds = seq![E::KIND];
    let position = match after {
        Some(position) => Some(*position),
        None => None,
    };
    let key = choose|key: Id| #[trigger]
        call_ensures(<A::Id as StorageKey<Id>>::to_key, (aggregate_id,), key)
            && super::subscribes(
            empty,
            crate::projection::within_of(kinds, A::KIND@, key.key()),
            kinds,
            DomainReaction::<E>::only(),
            built,
        );
    instance_subscriptions_get_their_stream(
        empty,
        kinds,
        A::KIND@,
        key,
        DomainReaction::<E>::only(),
        built,
        position,
        r.0@,
        log,
    );
    assert(picks_the_stream(log, r.0@, A::KIND@, key.key(), kinds, position));
}

/// A reactor that subscribes to all events of one aggregate instance gets exactly the events
/// of the kinds that its event type knows in the stream of that instance, after the
/// position.
pub proof fn reactors_to_one_instance_get_its_stream<A, R, H, Id, M, F>(
    empty: ReactFilters<Store<Id, M, F>, R, H>,
    aggregate_id: &A::Id,
    built: ReactFilters<Store<Id, M, F>, R, H>,
    after: Option<&u64>,
    r: (Vec<EventFilter<Id, u64>>, Handlers<H>),
    log: Seq<InMemoryEvent<Id, M>>,
) where
    A: Aggregate,
    A::Id: StorageKey<Id>,
    A::Event: ProjectionEvent<Store<Id, M, F>>,
    H: From<SumReaction<A::Event>>,
    Id: StreamId,
    M: Clone,

    requires
        call_ensures(ReactFilters::<Store<Id, M, F>, R, H>::new, (), empty),
        call_ensures(
            ReactFilters::<Store<Id, M, F>, R, H>::events_for::<A>,
            (empty, aggregate_id),
            built,
        ),
        call_ensures(
            ReactFilters::<Store<Id, M, F>, R, H>::into_event_filters,
            (built, after),
            r,
        ),
    ensures
        exists|key: Id|
            {
                &&& #[trigger] call_ensures(
                    <A::Id as StorageKey<Id>>::to_key,
                    (aggregate_id,),
                    key,
                )
                &&& picks_the_stream(
                    log,
                    r.0@,
                    A::KIND@,
                    key.key(),
                    <A::Event as ProjectionEvent<Store<Id, M, F>>>::EVENT_KINDS@,
                    match after {
                        Some(position) => Some(*position),
                        None => None,
                    },
                )
            },
{
    let kinds = <A::Event as ProjectionEvent<Store<Id, M, F>>>::EVENT_KINDS@;
    let position = match after {
        Some(position) => Some(*position),
        None => None,
    };
    let key = choose|key: Id| #[trigger]
        call_ensures(<A::Id as StorageKey<Id>>::to_key, (aggregate_id,), key)
            && super::subscribes(
            empty,
            crate::projection::within_of(kinds, A::KIND@, key.key()),
            kinds,
            SumReaction::<A::Event>::only(),
            built,
        );
    instance_subscriptions_get_their_stream(
        empty,
        kinds,
        A::KIND@,
        key,
        SumReaction::<A::Event>::only(),
        built,
        position,
        r.0@,
        log,
    );
    assert(picks_the_stream(log, r.0@, A::KIND@, key.key(), kinds, position));
}

/// Where a reactor resumes: at the checkpoint that was loaded, and at the beginning where there
/// is none. An offer counts as stored only where it was; a failure of the checkpoint store is
/// the reactor's.
pub proof fn checkpoints_are_loaded_and_stored<Cp, SE, CE, RE>(
    loaded: Result<Option<Snapshot<Cp, ()>>, CE>,
    from: Result<Option<Cp>, ReactorError<SE, CE, RE>>,
    offered: Result<SnapshotOffer, CE>,
    stored: Result<bool, ReactorError<SE, CE, RE>>,
)
    requires
        call_ensures(super::load_checkpoint::<Cp, SE, CE, RE>, (loaded,), from),
        call_ensures(super::checkpoint_outcome::<SE, CE, RE>, (offered,), stored),
    ensures
        loaded is Err ==> from is Err && from->Err_0 is Checkpoint && from->Err_0->Checkpoint_0
            == loaded->Err_0,
        loaded is Ok ==> from is Ok && (from->Ok_0 is Some <==> loaded->Ok_0 is Some),
        loaded is Ok && loaded->Ok_0 is Some ==> from->Ok_0->0 == loaded->Ok_0->0.position,
        offered is Err ==> stored is Err && stored->Err_0 is Checkpoint
            && stored->Err_0->Checkpoint_0 == offered->Err_0,
        offered is Ok ==> stored is Ok && (stored->Ok_0 <==> offered->Ok_0 is Stored),
{
}

/// How a reactor that ended is told of: one that never got ready was interrupted, panicked, or
/// failed with its own error; one that is stopped returns what its task did.
pub proof fn ended_reactors_tell_why<SE, CE, RE>(
    ended: TaskEnd<Result<(), ReactorError<SE, CE, RE>>>,
    failure: ReactorError<SE, CE, RE>,
    task: Option<TaskEnd<Result<(), ReactorError<SE, CE, RE>>>>,
    stopped: Result<(), ReactorError<SE, CE, RE>>,
)
    requires
        call_ensures(super::startup_failure::<SE, CE, RE>, (ended,), failure),
        call_ensures(super::stop_outcome::<SE, CE, RE>, (task,), stopped),
    ensures
        ended is Panicked ==> failure is Runner && failure->Runner_0 is TaskPanicked,
        ended is Returned && ended->Returned_0 is Ok ==> failure is Runner
            && failure->Runner_0 is CatchupInterrupted,
        ended is Returned && ended->Returned_0 is Err ==> failure == ended->Returned_0->Err_0,
        task is None ==> stopped is Ok,
        task is Some && task->0 is Panicked ==> stopped is Err && stopped->Err_0 is Runner
            && stopped->Err_0->Runner_0 is TaskPanicked,
        task is Some && task->0 is Returned ==> stopped == task->0->Returned_0,
{
}

/// The policy that a reactor has without being told: a first delay of fifty milliseconds, none
/// longer than five seconds, and no end to retries.
pub proof fn retries_go_on_by_default(policy: RetryPolicy)
    requires
        call_ensures(<RetryPolicy as Default>::default, (), policy),
    ensures
        policy.initial_delay.spec_nanos() == 50_000_000,
        policy.max_delay.spec_nanos() == 5_000_000_000,
        policy.max_retries is None,
{
}

} // verus!
