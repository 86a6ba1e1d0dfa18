//! Command execution and aggregate lifecycle management.
//!
//! The functions of this module are the decisions between the calls into a
//! store: which events to ask for, what state they rebuild, which events a
//! command brings about, and what a commit's outcome means for the caller.

use std::marker::PhantomData;

use nonempty::NonEmpty;
use vstd::prelude::*;

use crate::{
    aggregate::{Aggregate, Handle, HandleCreate},
    concurrency::{ConcurrencyConflict, ConcurrencyStrategy, Optimistic, Unchecked},
    event::{EventDecodeError, ProjectionEvent},
    message::{prefixed_message, Message},
    projection::{EventHandler, Handlers, HandlerError, ProjectionError},
    snapshot::{NoSnapshots, OfferSnapshotError, Snapshot, SnapshotOffer, SnapshotStore},
    store::{
        CommitError, Committed, EventFilter, EventStore, OptimisticCommitError, StoredEvent,
        StreamId,
    },
};

pub mod calls;
pub mod command_laws;
pub mod inmemory;
pub mod laws;
pub mod projection_laws;

verus! {

/// Whether `after` is a copy of the position of the last of `events`, if there is
/// a last one.
pub open spec fn is_last_position<Id, Pos: Clone, Data, M>(
    events: Seq<StoredEvent<Id, Pos, Data, M>>,
    after: Option<Pos>,
) -> bool {
    match after {
        Some(position) => events.len() > 0 && cloned(events.last().position, position),
        None => events.len() == 0,
    }
}

/// Whether every one of `events` can be restored.
pub open spec fn all_restored<S: EventStore, E: ProjectionEvent<S>>(
    events: Seq<StoredEvent<S::Id, S::Position, S::Data, S::Metadata>>,
) -> bool {
    forall|i: int| 0 <= i < events.len() ==> E::restored(#[trigger] events[i]) is Some
}

/// What `events` hold, where every one can be restored.
pub open spec fn restored_all<S: EventStore, E: ProjectionEvent<S>>(
    events: Seq<StoredEvent<S::Id, S::Position, S::Data, S::Metadata>>,
) -> Seq<E> {
    events.map_values(
        |stored: StoredEvent<S::Id, S::Position, S::Data, S::Metadata>| E::restored(stored)->0,
    )
}

/// Whether the event at `i` is the first of `events` that cannot be restored, and
/// `error` tells of it.
pub open spec fn undecodable_at<S: EventStore, E: ProjectionEvent<S>>(
    events: Seq<StoredEvent<S::Id, S::Position, S::Data, S::Metadata>>,
    i: int,
    error: EventDecodeError<S::Error>,
) -> bool {
    &&& 0 <= i < events.len()
    &&& all_restored::<S, E>(events.take(i))
    &&& E::restored(events[i]) is None
    &&& match error {
        EventDecodeError::UnknownKind { kind, expected } => {
            &&& !crate::event::is_kind(E::EVENT_KINDS@, events[i].kind@)
            &&& kind@ == events[i].kind@
            &&& expected@ == E::EVENT_KINDS@
        },
        EventDecodeError::Store(cause) => {
            &&& crate::event::is_kind(E::EVENT_KINDS@, events[i].kind@)
            &&& E::unrestorable(events[i], cause)
        },
    }
}

/// Whether `error` tells of the first of `events` that cannot be restored.
pub open spec fn first_undecodable<S: EventStore, E: ProjectionEvent<S>>(
    events: Seq<StoredEvent<S::Id, S::Position, S::Data, S::Metadata>>,
    error: EventDecodeError<S::Error>,
) -> bool {
    exists|i: int| #[trigger] undecodable_at::<S, E>(events, i, error)
}

/// Filters for the events of one aggregate instance, after a position if one is
/// given.
pub fn aggregate_event_filters<S: EventStore, E: ProjectionEvent<S>>(
    aggregate_kind: &str,
    aggregate_id: &S::Id,
    after: Option<&S::Position>,
) -> (r: Vec<EventFilter<S::Id, S::Position>>)
    ensures
        crate::projection::all_placed_after(
            crate::projection::within_of(E::EVENT_KINDS@, aggregate_kind@, aggregate_id.key()),
            match after {
                Some(position) => Some(*position),
                None => None,
            },
            crate::store::selectors(r@),
        ),
{
    let kinds: &'static [&'static str] = E::EVENT_KINDS;
    let ghost bound = match after {
        Some(position) => Some(*position),
        None => None,
    };
    let mut filters: Vec<EventFilter<S::Id, S::Position>> = Vec::new();
    let mut i: usize = 0;
    while i < kinds.len()
        invariant
            i <= kinds@.len(),
            filters@.len() == i,
            bound == match after {
                Some(position) => Some(*position),
                None => None,
            },
            forall|k: int|
                0 <= k < i ==> crate::projection::placed_after(
                    crate::store::within(kinds@[k]@, aggregate_kind@, aggregate_id.key()),
                    bound,
                    (#[trigger] filters@[k]).selector(),
                ),
        decreases kinds@.len() - i,
    {
        let mut filter: EventFilter<S::Id, S::Position> = crate::projection::stream_filter(
            kinds[i],
            aggregate_kind,
            aggregate_id,
        );
        if let Some(position) = after {
            filter = filter.after(position.clone());
        }
        filters.push(filter);
        i = i + 1;
    }
    filters
}

/// Apply stored events, oldest first, and report the position of the last.
///
/// # Errors
///
/// Returns an error at the first event that cannot be decoded; the aggregate is then
/// left as the events before it made it.
pub fn apply_stored_events<A, S>(
    aggregate: &mut A,
    store: &S,
    events: &Vec<StoredEvent<S::Id, S::Position, S::Data, S::Metadata>>,
) -> (r: Result<Option<S::Position>, EventDecodeError<S::Error>>) where
    S: EventStore,
    A: Aggregate,
    A::Event: ProjectionEvent<S>,

    ensures
        match r {
            Ok(last) => {
                &&& all_restored::<S, A::Event>(events@)
                &&& *final(aggregate) == crate::aggregate::replay(
                    *old(aggregate),
                    restored_all::<S, A::Event>(events@),
                )
                &&& is_last_position(events@, last)
            },
            Err(error) => exists|i: int|
                {
                    &&& #[trigger] undecodable_at::<S, A::Event>(events@, i, error)
                    &&& *final(aggregate) == crate::aggregate::replay(
                        *old(aggregate),
                        restored_all::<S, A::Event>(events@.take(i)),
                    )
                },
        },
{
    let ghost start = *aggregate;
    let mut last_event_position: Option<S::Position> = None;
    let mut i: usize = 0;
    assert(restored_all::<S, A::Event>(events@.take(0)) == Seq::<A::Event>::empty());
    while i < events.len()
        invariant
            i <= events@.len(),
            start == *old(aggregate),
            all_restored::<S, A::Event>(events@.take(i as int)),
            *aggregate == crate::aggregate::replay(
                start,
                restored_all::<S, A::Event>(events@.take(i as int)),
            ),
            is_last_position(events@.take(i as int), last_event_position),
        decreases events@.len() - i,
    {
        let stored: &StoredEvent<S::Id, S::Position, S::Data, S::Metadata> = &events[i];
        match <A::Event as ProjectionEvent<S>>::from_stored(stored, store) {
            Ok(event) => {
                aggregate.apply(&event);
                last_event_position = Some(stored.position());
            },
            Err(error) => {
                assert(undecodable_at::<S, A::Event>(events@, i as int, error));
                return Err(error);
            },
        }
        proof {
            let before = events@.take(i as int);
            let after = events@.take(i + 1);
            assert(after == before.push(events@[i as int]));
            assert(restored_all::<S, A::Event>(after) == restored_all::<S, A::Event>(before).push(
                <A::Event as ProjectionEvent<S>>::restored(events@[i as int])->0,
            ));
            assert(restored_all::<S, A::Event>(after).drop_last() == restored_all::<S, A::Event>(
                before,
            ));
        }
        i = i + 1;
    }
    assert(events@.take(events@.len() as int) == events@);
    Ok(last_event_position)
}

/// One more event carries the state that was built before it.
proof fn lemma_rebuilt_push<A: Aggregate>(events: Seq<A::Event>, event: A::Event)
    ensures
        crate::aggregate::rebuilt::<A>(events.push(event)) == Some(
            match crate::aggregate::rebuilt::<A>(events) {
                Some(aggregate) => aggregate.applied(event),
                None => A::created(event),
            },
        ),
{
    if events.len() > 0 {
        assert(events.push(event).skip(1).drop_last() == events.skip(1));
    } else {
        assert(events.push(event).skip(1) == Seq::<A::Event>::empty());
    }
}

/// Build an aggregate from scratch using the first event's `create` constructor
/// then applying subsequent events.
///
/// Returns `None` if the event list is empty (aggregate does not yet exist).
///
/// # Errors
///
/// Returns an error at the first event that cannot be decoded.
pub fn create_from_stored_events<A, S>(
    store: &S,
    events: &Vec<StoredEvent<S::Id, S::Position, S::Data, S::Metadata>>,
) -> (r: Result<Option<(A, S::Position)>, EventDecodeError<S::Error>>) where
    S: EventStore,
    A: Aggregate,
    A::Event: ProjectionEvent<S>,

    ensures
        match r {
            Ok(None) => events@.len() == 0,
            Ok(Some((aggregate, last))) => {
                &&& all_restored::<S, A::Event>(events@)
                &&& crate::aggregate::rebuilt::<A>(restored_all::<S, A::Event>(events@)) == Some(
                    aggregate,
                )
                &&& is_last_position(events@, Some(last))
            },
            Err(error) => first_undecodable::<S, A::Event>(events@, error),
        },
{
    let mut aggregate: Option<A> = None;
    let mut last_position: Option<S::Position> = None;
    let mut i: usize = 0;
    assert(restored_all::<S, A::Event>(events@.take(0)) == Seq::<A::Event>::empty());
    while i < events.len()
        invariant
            i <= events@.len(),
            all_restored::<S, A::Event>(events@.take(i as int)),
            aggregate == crate::aggregate::rebuilt::<A>(
                restored_all::<S, A::Event>(events@.take(i as int)),
            ),
            is_last_position(events@.take(i as int), last_position),
        decreases events@.len() - i,
    {
        let stored: &StoredEvent<S::Id, S::Position, S::Data, S::Metadata> = &events[i];
        match <A::Event as ProjectionEvent<S>>::from_stored(stored, store) {
            Ok(event) => {
                proof {
                    let before = events@.take(i as int);
                    let after = events@.take(i + 1);
                    assert(after == before.push(events@[i as int]));
                    assert(restored_all::<S, A::Event>(after) == restored_all::<S, A::Event>(
                        before,
                    ).push(event));
                    lemma_rebuilt_push::<A>(restored_all::<S, A::Event>(before), event);
                }
                aggregate = match aggregate {
                    Some(mut state) => {
                        state.apply(&event);
                        Some(state)
                    },
                    None => Some(A::create(&event)),
                };
                last_position = Some(stored.position());
            },
            Err(error) => {
                assert(undecodable_at::<S, A::Event>(events@, i as int, error));
                return Err(error);
            },
        }
        i = i + 1;
    }
    assert(events@.take(events@.len() as int) == events@);
    match (aggregate, last_position) {
        (Some(aggregate), Some(position)) => Ok(Some((aggregate, position))),
        _ => Ok(None),
    }
}

/// Build an aggregate from the events of its creation.
pub fn create_from_new_events<A: Aggregate>(events: &NonEmpty<A::Event>) -> (r: A)
    ensures
        crate::aggregate::rebuilt::<A>(crate::store::batch(*events)) == Some(r),
{
    let mut aggregate: A = A::create(&events.head);
    assert(crate::store::batch(*events).skip(1) == events.tail@);
    apply_all(&mut aggregate, &events.tail);
    aggregate
}

/// Apply events, oldest first.
pub fn apply_all<A: Aggregate>(aggregate: &mut A, events: &Vec<A::Event>)
    ensures
        *final(aggregate) == crate::aggregate::replay(*old(aggregate), events@),
{
    let ghost start = *aggregate;
    let mut i: usize = 0;
    while i < events.len()
        invariant
            i <= events@.len(),
            *aggregate == crate::aggregate::replay(start, events@.take(i as int)),
        decreases events@.len() - i,
    {
        aggregate.apply(&events[i]);
        assert(events@.take(i + 1).drop_last() == events@.take(i as int));
        i = i + 1;
    }
    assert(events@.take(events@.len() as int) == events@);
}

/// Whether `stored` takes a subscriber from `before` to `after`; an event without
/// a handler changes nothing.
pub open spec fn steps<P, S: EventStore, H: EventHandler<P, S>>(
    handlers: Handlers<H>,
    before: P,
    stored: StoredEvent<S::Id, S::Position, S::Data, S::Metadata>,
    after: P,
) -> bool {
    match handlers.handler_of(stored.kind@) {
        Some(handler) => handler.handled(before, stored, after),
        None => after == before,
    }
}

/// Whether `states` are the states between `events`, each taking one to the next.
pub open spec fn is_run<P, S: EventStore, H: EventHandler<P, S>>(
    handlers: Handlers<H>,
    states: Seq<P>,
    events: Seq<StoredEvent<S::Id, S::Position, S::Data, S::Metadata>>,
) -> bool {
    &&& states.len() == events.len() + 1
    &&& forall|i: int|
        0 <= i < events.len() ==> steps::<P, S, H>(
            handlers,
            states[i],
            #[trigger] events[i],
            states[i + 1],
        )
}

/// Whether `events`, oldest first, take a subscriber from `before` to `after`.
pub open spec fn projects_all<P, S: EventStore, H: EventHandler<P, S>>(
    handlers: Handlers<H>,
    before: P,
    events: Seq<StoredEvent<S::Id, S::Position, S::Data, S::Metadata>>,
    after: P,
) -> bool {
    exists|states: Seq<P>| #[trigger]
        is_run::<P, S, H>(handlers, states, events) && states.first() == before && states.last()
            == after
}

/// Whether the handler of `stored` refuses it, for a reason that amounts to
/// `error`.
pub open spec fn step_fails<P, S: EventStore, H: EventHandler<P, S>>(
    handlers: Handlers<H>,
    stored: StoredEvent<S::Id, S::Position, S::Data, S::Metadata>,
    error: EventDecodeError<S::Error>,
) -> bool {
    handlers.handler_of(stored.kind@) matches Some(handler) && exists|
        cause: HandlerError<S::Error>,
    | #[trigger]
        handler.refused(stored, cause) && error == cause.as_decode_error()
}

/// Replays events into a projection, oldest first, and reports the position of the
/// last, whether or not it had a handler.
///
/// # Errors
///
/// Returns an error at the first event that its handler refuses; the projection is
/// then left as the events before it made it.
pub fn replay_projection_events<P, S, H>(
    projection: &mut P,
    events: &Vec<StoredEvent<S::Id, S::Position, S::Data, S::Metadata>>,
    handlers: &Handlers<H>,
    store: &S,
) -> (r: Result<Option<S::Position>, ProjectionError<S::Error>>) where
    S: EventStore,
    H: EventHandler<P, S>,

    ensures
        match r {
            Ok(last) => {
                &&& projects_all::<P, S, H>(
                    *handlers,
                    *old(projection),
                    events@,
                    *final(projection),
                )
                &&& is_last_position(events@, last)
            },
            Err(ProjectionError::EventDecode(error)) => exists|i: int|
                {
                    &&& 0 <= i < events@.len()
                    &&& #[trigger] projects_all::<P, S, H>(
                        *handlers,
                        *old(projection),
                        events@.take(i),
                        *final(projection),
                    )
                    &&& step_fails::<P, S, H>(*handlers, events@[i], error)
                },
            Err(ProjectionError::Store(_)) => false,
        },
{
    let ghost start = *projection;
    let ghost mut states = seq![start];
    let mut last_position: Option<S::Position> = None;
    let mut i: usize = 0;
    while i < events.len()
        invariant
            i <= events@.len(),
            start == *old(projection),
            is_run::<P, S, H>(*handlers, states, events@.take(i as int)),
            states.first() == start,
            states.last() == *projection,
            is_last_position(events@.take(i as int), last_position),
        decreases events@.len() - i,
    {
        let stored: &StoredEvent<S::Id, S::Position, S::Data, S::Metadata> = &events[i];
        if let Some(handler) = handlers.get(stored.kind()) {
            if let Err(error) = handler.call(projection, stored, store) {
                assert(projects_all::<P, S, H>(
                    *handlers,
                    start,
                    events@.take(i as int),
                    *projection,
                ));
                proof {
                    let of_kind = handlers.handler_of(events@[i as int].kind@)->0;
                    assert(of_kind.refused(events@[i as int], error));
                }
                let cause: EventDecodeError<S::Error> = error.into_decode_error();
                assert(step_fails::<P, S, H>(*handlers, events@[i as int], cause));
                return Err(ProjectionError::EventDecode(cause));
            }
        }
        last_position = Some(stored.position());
        proof {
            let longer = states.push(*projection);
            assert forall|k: int| 0 <= k < i + 1 implies steps::<P, S, H>(
                *handlers,
                longer[k],
                #[trigger] events@.take(i + 1)[k],
                longer[k + 1],
            ) by {
                if k < i {
                    assert(events@.take(i as int)[k] == events@.take(i + 1)[k]);
                }
            }
            states = longer;
        }
        i = i + 1;
    }
    assert(events@.take(events@.len() as int) == events@);
    Ok(last_position)
}

/// Replaying events into a projection in two goes gives what replaying them in one
/// can give, and nothing else: a projection snapshot stands for the events before
/// it.
pub proof fn projecting_composes<P, S: EventStore, H: EventHandler<P, S>>(
    handlers: Handlers<H>,
    before: P,
    first: Seq<StoredEvent<S::Id, S::Position, S::Data, S::Metadata>>,
    second: Seq<StoredEvent<S::Id, S::Position, S::Data, S::Metadata>>,
    after: P,
)
    ensures
        projects_all::<P, S, H>(handlers, before, first + second, after) <==> exists|mid: P|
            #[trigger] projects_all::<P, S, H>(handlers, before, first, mid) && projects_all::<
                P,
                S,
                H,
            >(handlers, mid, second, after),
{
    let n = first.len() as int;
    let all = first + second;
    if projects_all::<P, S, H>(handlers, before, all, after) {
        let states = choose|states: Seq<P>| #[trigger]
            is_run::<P, S, H>(handlers, states, all) && states.first() == before && states.last()
                == after;
        let early = states.take(n + 1);
        let late = states.skip(n);
        assert forall|i: int| 0 <= i < first.len() implies steps::<P, S, H>(
            handlers,
            early[i],
            #[trigger] first[i],
            early[i + 1],
        ) by {
            assert(all[i] == first[i]);
        }
        assert forall|i: int| 0 <= i < second.len() implies steps::<P, S, H>(
            handlers,
            late[i],
            #[trigger] second[i],
            late[i + 1],
        ) by {
            assert(all[n + i] == second[i]);
        }
        assert(is_run::<P, S, H>(handlers, early, first));
        assert(is_run::<P, S, H>(handlers, late, second));
        assert(projects_all::<P, S, H>(handlers, before, first, states[n]));
        assert(projects_all::<P, S, H>(handlers, states[n], second, after));
    }
    if exists|mid: P| #[trigger]
        projects_all::<P, S, H>(handlers, before, first, mid) && projects_all::<P, S, H>(
            handlers,
            mid,
            second,
            after,
        ) {
        let mid = choose|mid: P| #[trigger]
            projects_all::<P, S, H>(handlers, before, first, mid) && projects_all::<P, S, H>(
                handlers,
                mid,
                second,
                after,
            );
        let early = choose|states: Seq<P>| #[trigger]
            is_run::<P, S, H>(handlers, states, first) && states.first() == before && states.last()
                == mid;
        let late = choose|states: Seq<P>| #[trigger]
            is_run::<P, S, H>(handlers, states, second) && states.first() == mid && states.last()
                == after;
        let states = early + late.skip(1);
        assert forall|i: int| 0 <= i < all.len() implies steps::<P, S, H>(
            handlers,
            states[i],
            #[trigger] all[i],
            states[i + 1],
        ) by {
            if i < n {
                assert(all[i] == first[i]);
            } else {
                assert(all[i] == second[i - n]);
                assert(states[i] == late[i - n]);
            }
        }
        assert(is_run::<P, S, H>(handlers, states, all));
        assert(states.last() == after);
    }
}

/// Lifecycle mismatch when executing a command.
#[derive(Debug, Clone, Copy, PartialEq, Eq, Structural)]
pub enum LifecycleError {
    /// The stream does not exist yet.
    AggregateNotFound,
    /// The stream exists already.
    AggregateAlreadyExists,
}

impl Message for LifecycleError {
    open spec fn described_by(&self, text: Seq<char>) -> bool {
        match self {
            LifecycleError::AggregateNotFound => text == "aggregate not found"@,
            LifecycleError::AggregateAlreadyExists => text == "aggregate already exists"@,
        }
    }

    fn message(&self) -> (text: String) {
        match self {
            LifecycleError::AggregateNotFound => "aggregate not found".to_owned(),
            LifecycleError::AggregateAlreadyExists => "aggregate already exists".to_owned(),
        }
    }
}

/// Error type for command execution across all repository modes.
#[derive(Debug)]
pub enum CommandError<AggregateError, ConcurrencyError, StoreError, SnapshotError> {
    /// The aggregate rejected the command.
    Aggregate(AggregateError),
    /// The stream exists where it should not, or does not where it should.
    Lifecycle(LifecycleError),
    /// Another writer got in between.
    Concurrency(ConcurrencyError),
    /// The state that the command is meant for could not be rebuilt.
    Projection(ProjectionError<StoreError>),
    /// The events could not be persisted.
    Store(StoreError),
    /// The events were persisted, a snapshot was not.
    Snapshot(SnapshotError),
}

impl<AE: Message, CE: Message, SE: Message, NE: Message> Message for CommandError<AE, CE, SE, NE> {
    open spec fn described_by(&self, text: Seq<char>) -> bool {
        match self {
            CommandError::Aggregate(cause) => crate::message::prefixed(
                "aggregate rejected command: "@,
                cause,
                text,
            ),
            CommandError::Lifecycle(cause) => cause.described_by(text),
            CommandError::Concurrency(cause) => cause.described_by(text),
            CommandError::Projection(cause) => crate::message::prefixed(
                "failed to rebuild aggregate state: "@,
                cause,
                text,
            ),
            CommandError::Store(cause) => crate::message::prefixed(
                "failed to persist events: "@,
                cause,
                text,
            ),
            CommandError::Snapshot(cause) => crate::message::prefixed(
                "snapshot operation failed: "@,
                cause,
                text,
            ),
        }
    }

    fn message(&self) -> (text: String) {
        match self {
            CommandError::Aggregate(cause) => prefixed_message(
                "aggregate rejected command: ",
                cause,
            ),
            CommandError::Lifecycle(cause) => cause.message(),
            CommandError::Concurrency(cause) => cause.message(),
            CommandError::Projection(cause) => prefixed_message(
                "failed to rebuild aggregate state: ",
                cause,
            ),
            CommandError::Store(cause) => prefixed_message("failed to persist events: ", cause),
            CommandError::Snapshot(cause) => prefixed_message(
                "snapshot operation failed: ",
                cause,
            ),
        }
    }
}

impl<AE: Message, CE: Message, SE: Message, NE: Message> CommandError<AE, CE, SE, NE> {
    /// The text of the underlying failure, if there is one.
    pub fn source(&self) -> (r: Option<String>)
        ensures
            match self {
                CommandError::Aggregate(_) | CommandError::Lifecycle(_)
                | CommandError::Concurrency(_) => r is None,
                CommandError::Projection(cause) => r matches Some(text) && cause.described_by(
                    text@,
                ),
                CommandError::Store(cause) => r matches Some(text) && cause.described_by(text@),
                CommandError::Snapshot(cause) => r matches Some(text) && cause.described_by(text@),
            },
    {
        match self {
            CommandError::Aggregate(_) => None,
            CommandError::Lifecycle(_) => None,
            CommandError::Concurrency(_) => None,
            CommandError::Projection(cause) => Some(cause.message()),
            CommandError::Store(cause) => Some(cause.message()),
            CommandError::Snapshot(cause) => Some(cause.message()),
        }
    }
}

/// An aggregate, the version of its stream, and how many events were replayed.
pub struct LoadedAggregate<A, Pos> {
    /// The state.
    pub aggregate: A,
    /// Position of the last event in that state.
    pub version: Option<Pos>,
    /// Number of events since the snapshot that the state was built on, or since
    /// the beginning.
    pub events_since_snapshot: u64,
}

/// Whether loading `events` on top of `base` comes to `r`.
pub open spec fn loads<A, S: EventStore>(
    base: Option<(A, S::Position)>,
    events: Seq<StoredEvent<S::Id, S::Position, S::Data, S::Metadata>>,
    r: Result<Option<LoadedAggregate<A, S::Position>>, EventDecodeError<S::Error>>,
) -> bool where A: Aggregate, A::Event: ProjectionEvent<S> {
    match r {
        Ok(Some(loaded)) => {
            &&& all_restored::<S, A::Event>(events)
            &&& loaded.events_since_snapshot == events.len()
            &&& match base {
                Some((aggregate, position)) => {
                    &&& loaded.aggregate == crate::aggregate::replay(
                        aggregate,
                        restored_all::<S, A::Event>(events),
                    )
                    &&& if events.len() == 0 {
                        loaded.version == Some(position)
                    } else {
                        is_last_position(events, loaded.version)
                    }
                },
                None => {
                    &&& events.len() > 0
                    &&& crate::aggregate::rebuilt::<A>(restored_all::<S, A::Event>(events)) == Some(
                        loaded.aggregate,
                    )
                    &&& is_last_position(events, loaded.version)
                },
            }
        },
        Ok(None) => base is None && events.len() == 0,
        Err(error) => first_undecodable::<S, A::Event>(events, error),
    }
}

/// Rebuilds an aggregate from what was loaded: from `base`, which a snapshot held,
/// or else from scratch.
///
/// Returns `None` if there is nothing to build from (aggregate does not yet exist).
///
/// # Errors
///
/// Returns an error at the first event that cannot be decoded.
pub fn finish_load<A, S>(
    store: &S,
    base: Option<(A, S::Position)>,
    events: &Vec<StoredEvent<S::Id, S::Position, S::Data, S::Metadata>>,
) -> (r: Result<Option<LoadedAggregate<A, S::Position>>, EventDecodeError<S::Error>>) where
    S: EventStore,
    A: Aggregate,
    A::Event: ProjectionEvent<S>,

    ensures
        loads::<A, S>(base, events@, r),
{
    let events_since_snapshot: u64 = events.len() as u64;
    if let Some((state, position)) = base {
        let mut aggregate: A = state;
        match apply_stored_events::<A, S>(&mut aggregate, store, events) {
            Ok(last) => {
                let version: Option<S::Position> = match last {
                    Some(last) => Some(last),
                    None => Some(position),
                };
                Ok(Some(LoadedAggregate { aggregate, version, events_since_snapshot }))
            },
            Err(error) => Err(error),
        }
    } else {
        match create_from_stored_events::<A, S>(store, events) {
            Ok(Some((aggregate, position))) => Ok(
                Some(
                    LoadedAggregate { aggregate, version: Some(position), events_since_snapshot },
                ),
            ),
            Ok(None) => Ok(None),
            Err(error) => Err(error),
        }
    }
}

/// What a snapshot offers to start from. A snapshot that could not be loaded is
/// treated as none: the full replay gives the same state.
pub fn usable_snapshot<T, Pos, E>(loaded: Result<Option<Snapshot<Pos, T>>, E>) -> (r: Option<
    (T, Pos),
>)
    ensures
        r == match loaded {
            Ok(Some(snapshot)) => Some((snapshot.data, snapshot.position)),
            _ => None,
        },
{
    match loaded {
        Ok(Some(snapshot)) => {
            let Snapshot { position, data } = snapshot;
            Some((data, position))
        },
        Ok(None) => None,
        Err(_) => None,
    }
}

/// Whether a command handler's answer `handled` comes to `r`: no batch where there
/// are no events, and the error converted where it rejected the command.
pub open spec fn decided<E, HE: Into<AE>, AE>(
    handled: Result<Vec<E>, HE>,
    r: Result<Option<NonEmpty<E>>, AE>,
) -> bool {
    match handled {
        Ok(events) => match r {
            Ok(Some(batch)) => crate::store::batch(batch) == events@,
            Ok(None) => events@.len() == 0,
            Err(_) => false,
        },
        Err(cause) => r matches Err(error) && call_ensures(
            <HE as Into<AE>>::into,
            (cause,),
            error,
        ),
    }
}

/// The batch that a command handler's answer asks for.
///
/// # Errors
///
/// Returns the handler's error, converted into that of the aggregate.
pub fn decide<E, HE: Into<AE>, AE>(handled: Result<Vec<E>, HE>) -> (r: Result<
    Option<NonEmpty<E>>,
    AE,
>)
    ensures
        decided(handled, r),
{
    match handled {
        Ok(events) => Ok(NonEmpty::from_vec(events)),
        Err(cause) => Err(cause.into()),
    }
}

/// Whether a creation command can be answered with `answer`.
pub open spec fn answers_creation<A: HandleCreate<Cmd>, Cmd>(
    command: &Cmd,
    answer: Result<Option<NonEmpty<A::Event>>, A::Error>,
) -> bool {
    exists|handled: Result<Vec<A::Event>, A::HandleCreateError>| #[trigger]
        call_ensures(<A as HandleCreate<Cmd>>::handle_create, (command,), handled) && decided(
            handled,
            answer,
        )
}

/// Whether `aggregate` can answer a command with `answer`.
pub open spec fn answers_command<A: Handle<Cmd>, Cmd>(
    aggregate: &A,
    command: &Cmd,
    answer: Result<Option<NonEmpty<A::Event>>, A::Error>,
) -> bool {
    exists|handled: Result<Vec<A::Event>, A::HandleError>| #[trigger]
        call_ensures(<A as Handle<Cmd>>::handle, (aggregate, command), handled) && decided(
            handled,
            answer,
        )
}

/// Events to be committed, and the state that they were decided on; there is none
/// for a creation.
pub struct Pending<A: Aggregate, Pos> {
    /// What the decision was made on.
    pub base: Option<LoadedAggregate<A, Pos>>,
    /// What was decided.
    pub events: NonEmpty<A::Event>,
}

/// What a decision comes to: the answer to the command, with the state it was
/// given on.
pub open spec fn pends<A: Aggregate, Pos, CE, SE, NE>(
    base: Option<LoadedAggregate<A, Pos>>,
    answer: Result<Option<NonEmpty<A::Event>>, A::Error>,
) -> Result<Option<Pending<A, Pos>>, CommandError<A::Error, CE, SE, NE>> {
    match answer {
        Ok(Some(events)) => Ok(Some(Pending { base, events })),
        Ok(None) => Ok(None),
        Err(error) => Err(CommandError::Aggregate(error)),
    }
}

fn pend<A: Aggregate, Pos, CE, SE, NE>(
    base: Option<LoadedAggregate<A, Pos>>,
    answer: Result<Option<NonEmpty<A::Event>>, A::Error>,
) -> (r: Result<Option<Pending<A, Pos>>, CommandError<A::Error, CE, SE, NE>>)
    ensures
        r == pends::<A, Pos, CE, SE, NE>(base, answer),
{
    match answer {
        Ok(Some(events)) => Ok(Some(Pending { base, events })),
        Ok(None) => Ok(None),
        Err(error) => Err(CommandError::Aggregate(error)),
    }
}

/// Decides a creation command, given the version of the stream.
///
/// Returns `None` where there is nothing to commit.
///
/// # Errors
///
/// Returns [`LifecycleError::AggregateAlreadyExists`] if the stream has events,
/// [`CommandError::Store`] if its version could not be read, and
/// [`CommandError::Aggregate`] if the command is rejected.
pub fn decide_create<A: HandleCreate<Cmd>, Cmd, Pos, CE, SE, NE>(
    version: Result<Option<Pos>, SE>,
    command: &Cmd,
) -> (r: Result<Option<Pending<A, Pos>>, CommandError<A::Error, CE, SE, NE>>)
    ensures
        match version {
            Err(error) => r == Err::<Option<Pending<A, Pos>>, _>(
                CommandError::<A::Error, CE, SE, NE>::Store(error),
            ),
            Ok(Some(_)) => r == Err::<Option<Pending<A, Pos>>, _>(
                CommandError::<A::Error, CE, SE, NE>::Lifecycle(
                    LifecycleError::AggregateAlreadyExists,
                ),
            ),
            Ok(None) => exists|answer: Result<Option<NonEmpty<A::Event>>, A::Error>| #[trigger]
                answers_creation::<A, Cmd>(command, answer) && r == pends::<A, Pos, CE, SE, NE>(
                    None,
                    answer,
                ),
        },
{
    match version {
        Err(error) => Err(CommandError::Store(error)),
        Ok(Some(_)) => Err(CommandError::Lifecycle(LifecycleError::AggregateAlreadyExists)),
        Ok(None) => {
            let handled: Result<Vec<A::Event>, A::HandleCreateError> = <A as HandleCreate<
                Cmd,
            >>::handle_create(command);
            let answer: Result<Option<NonEmpty<A::Event>>, A::Error> = decide(handled);
            assert(answers_creation::<A, Cmd>(command, answer));
            pend(None, answer)
        },
    }
}

/// Decides a command for an existing stream, given what was loaded of it.
///
/// Returns `None` where there is nothing to commit.
///
/// # Errors
///
/// Returns [`LifecycleError::AggregateNotFound`] if the stream has no events,
/// [`CommandError::Projection`] if it could not be rebuilt, and
/// [`CommandError::Aggregate`] if the command is rejected.
pub fn decide_update<A: Handle<Cmd>, Cmd, Pos, CE, SE, NE>(
    loaded: Result<Option<LoadedAggregate<A, Pos>>, ProjectionError<SE>>,
    command: &Cmd,
) -> (r: Result<Option<Pending<A, Pos>>, CommandError<A::Error, CE, SE, NE>>)
    ensures
        match loaded {
            Err(error) => r == Err::<Option<Pending<A, Pos>>, _>(
                CommandError::<A::Error, CE, SE, NE>::Projection(error),
            ),
            Ok(None) => r == Err::<Option<Pending<A, Pos>>, _>(
                CommandError::<A::Error, CE, SE, NE>::Lifecycle(LifecycleError::AggregateNotFound),
            ),
            Ok(Some(base)) => exists|answer: Result<Option<NonEmpty<A::Event>>, A::Error>|
                #[trigger] answers_command::<A, Cmd>(&base.aggregate, command, answer) && r
                    == pends::<A, Pos, CE, SE, NE>(Some(base), answer),
        },
{
    match loaded {
        Err(error) => Err(CommandError::Projection(error)),
        Ok(None) => Err(CommandError::Lifecycle(LifecycleError::AggregateNotFound)),
        Ok(Some(base)) => {
            let handled: Result<Vec<A::Event>, A::HandleError> = <A as Handle<Cmd>>::handle(
                &base.aggregate,
                command,
            );
            let answer: Result<Option<NonEmpty<A::Event>>, A::Error> = decide(handled);
            assert(answers_command::<A, Cmd>(&base.aggregate, command, answer));
            pend(Some(base), answer)
        },
    }
}

/// Decides a command for a stream that may or may not exist, given what was loaded
/// of it: an existing one answers as for an update, a missing one as for a
/// creation.
///
/// Returns `None` where there is nothing to commit.
///
/// # Errors
///
/// Returns [`CommandError::Projection`] if the stream could not be rebuilt, and
/// [`CommandError::Aggregate`] if the command is rejected.
pub fn decide_upsert<A: Handle<Cmd> + HandleCreate<Cmd>, Cmd, Pos, CE, SE, NE>(
    loaded: Result<Option<LoadedAggregate<A, Pos>>, ProjectionError<SE>>,
    command: &Cmd,
) -> (r: Result<Option<Pending<A, Pos>>, CommandError<A::Error, CE, SE, NE>>)
    ensures
        match loaded {
            Err(error) => r == Err::<Option<Pending<A, Pos>>, _>(
                CommandError::<A::Error, CE, SE, NE>::Projection(error),
            ),
            Ok(None) => exists|answer: Result<Option<NonEmpty<A::Event>>, A::Error>| #[trigger]
                answers_creation::<A, Cmd>(command, answer) && r == pends::<A, Pos, CE, SE, NE>(
                    None,
                    answer,
                ),
            Ok(Some(base)) => exists|answer: Result<Option<NonEmpty<A::Event>>, A::Error>|
                #[trigger] answers_command::<A, Cmd>(&base.aggregate, command, answer) && r
                    == pends::<A, Pos, CE, SE, NE>(Some(base), answer),
        },
{
    match loaded {
        Ok(None) => decide_create::<A, Cmd, Pos, CE, SE, NE>(Ok(None), command),
        loaded => decide_update::<A, Cmd, Pos, CE, SE, NE>(loaded, command),
    }
}

impl<A: Aggregate, Pos> Pending<A, Pos> {
    /// The version that the stream is expected to be at: that of the state the
    /// decision was made on, and none for a creation.
    pub open spec fn spec_expected_version(self) -> Option<Pos> {
        match self.base {
            Some(base) => base.version,
            None => None,
        }
    }

    /// Number of events since the last snapshot, once these are committed.
    pub open spec fn spec_events_since_snapshot(self) -> int {
        crate::store::batch(self.events).len() + match self.base {
            Some(base) => base.events_since_snapshot as int,
            None => 0,
        }
    }

    /// The state once these events are committed.
    pub open spec fn spec_state(self) -> Option<A> {
        match self.base {
            Some(base) => Some(
                crate::aggregate::replay(base.aggregate, crate::store::batch(self.events)),
            ),
            None => crate::aggregate::rebuilt::<A>(crate::store::batch(self.events)),
        }
    }

    /// What goes into a commit: the expected version and the events; and into the
    /// snapshot offer after it: the number of events since the last one and, where
    /// snapshots are in use, the state.
    pub fn prepare(self, with_state: bool) -> (r: (
        Option<Pos>,
        NonEmpty<A::Event>,
        u64,
        Option<A>,
    ))
        requires
            self.spec_events_since_snapshot() <= u64::MAX,
        ensures
            r.0 == self.spec_expected_version(),
            r.1 == self.events,
            r.2 == self.spec_events_since_snapshot(),
            r.3 == if with_state {
                self.spec_state()
            } else {
                None
            },
    {
        let Pending { base, events } = self;
        let added: u64 = events.tail.len() as u64;
        match base {
            Some(base) => {
                let LoadedAggregate { aggregate, version, events_since_snapshot } = base;
                let mut state: Option<A> = None;
                if with_state {
                    state = Some(prepare_snapshot_from_existing(aggregate, &events));
                }
                (version, events, events_since_snapshot + (added + 1), state)
            },
            None => {
                let mut state: Option<A> = None;
                if with_state {
                    state = Some(create_from_new_events(&events));
                }
                (None, events, added + 1, state)
            },
        }
    }
}

/// The state of an existing aggregate after new events.
pub fn prepare_snapshot_from_existing<A: Aggregate>(
    aggregate: A,
    events: &NonEmpty<A::Event>,
) -> (r: A)
    ensures
        r == crate::aggregate::replay(aggregate, crate::store::batch(*events)),
{
    let mut state: A = aggregate;
    state.apply(&events.head);
    apply_all(&mut state, &events.tail);
    proof {
        let first = seq![events.head];
        assert(first.drop_last() == Seq::<A::Event>::empty());
        assert(crate::aggregate::replay(aggregate, first.drop_last()) == aggregate);
        crate::aggregate::replay_composes(aggregate, first, events.tail@);
    }
    state
}

/// Why a commit failed, whatever the concurrency strategy.
pub enum CommitPolicyError<C, S> {
    /// Another writer got in between.
    Concurrency(C),
    /// The store failed, or an event could not be serialised.
    Store(S),
}

/// What the outcome of a commit without version checking means.
///
/// # Errors
///
/// Returns the store's error, whichever way it failed.
pub fn unchecked_outcome<Pos, C, S>(committed: Result<Committed<Pos>, CommitError<S>>) -> (r: Result<
    Pos,
    CommitPolicyError<C, S>,
>)
    ensures
        r == match committed {
            Ok(committed) => Ok(committed.last_position),
            Err(CommitError::Store(error)) => Err(CommitPolicyError::<C, S>::Store(error)),
            Err(CommitError::Serialization { source, .. }) => Err(CommitPolicyError::Store(source)),
        },
{
    match committed {
        Ok(committed) => Ok(committed.last_position),
        Err(CommitError::Store(error)) => Err(CommitPolicyError::Store(error)),
        Err(CommitError::Serialization { index: _, source }) => Err(
            CommitPolicyError::Store(source),
        ),
    }
}

/// What the outcome of a commit with version checking means.
///
/// # Errors
///
/// Returns the conflict, or the store's error, whichever way it failed.
pub fn optimistic_outcome<Pos, S>(
    committed: Result<Committed<Pos>, OptimisticCommitError<Pos, S>>,
) -> (r: Result<Pos, CommitPolicyError<ConcurrencyConflict<Pos>, S>>)
    ensures
        r == match committed {
            Ok(committed) => Ok(committed.last_position),
            Err(OptimisticCommitError::Conflict(conflict)) => Err(
                CommitPolicyError::Concurrency(conflict),
            ),
            Err(OptimisticCommitError::Store(error)) => Err(CommitPolicyError::Store(error)),
            Err(OptimisticCommitError::Serialization { source, .. }) => Err(
                CommitPolicyError::Store(source),
            ),
        },
{
    match committed {
        Ok(committed) => Ok(committed.last_position),
        Err(OptimisticCommitError::Conflict(conflict)) => Err(
            CommitPolicyError::Concurrency(conflict),
        ),
        Err(OptimisticCommitError::Store(error)) => Err(CommitPolicyError::Store(error)),
        Err(OptimisticCommitError::Serialization { index: _, source }) => Err(
            CommitPolicyError::Store(source),
        ),
    }
}

/// A failed commit as the failure of the command.
pub fn commit_failure<AE, CE, SE, NE>(error: CommitPolicyError<CE, SE>) -> (r: CommandError<
    AE,
    CE,
    SE,
    NE,
>)
    ensures
        r == match error {
            CommitPolicyError::Concurrency(conflict) => CommandError::<
                AE,
                CE,
                SE,
                NE,
            >::Concurrency(conflict),
            CommitPolicyError::Store(error) => CommandError::Store(error),
        },
{
    match error {
        CommitPolicyError::Concurrency(conflict) => CommandError::Concurrency(conflict),
        CommitPolicyError::Store(error) => CommandError::Store(error),
    }
}

/// What the answer to a snapshot offer means for the command: a declined offer is
/// no failure, nor is a snapshot that could not be created.
///
/// # Errors
///
/// Returns the snapshot store's error.
pub fn offer_outcome<E, CE>(offered: Result<SnapshotOffer, OfferSnapshotError<E, CE>>) -> (r: Result<
    (),
    E,
>)
    ensures
        r == match offered {
            Err(OfferSnapshotError::Snapshot(error)) => Err(error),
            _ => Ok(()),
        },
{
    match offered {
        Ok(_) => Ok(()),
        Err(OfferSnapshotError::Create(_)) => Ok(()),
        Err(OfferSnapshotError::Snapshot(error)) => Err(error),
    }
}

/// What to do after an attempt at a command.
pub enum Attempt<E> {
    /// Return this: the number of attempts made, or the error.
    Done(Result<usize, E>),
    /// Try again.
    Again,
}

/// What to do after attempt number `attempt`, counted from one, of a command that
/// may be retried `max_retries` times on conflicts.
pub open spec fn next_attempt<AE, CE, SE, NE>(
    attempt: usize,
    max_retries: usize,
    outcome: Result<(), CommandError<AE, CE, SE, NE>>,
) -> Attempt<CommandError<AE, CE, SE, NE>> {
    match outcome {
        Ok(()) => Attempt::Done(Ok(attempt)),
        Err(error) => if error is Concurrency && attempt <= max_retries {
            Attempt::Again
        } else {
            Attempt::Done(Err(error))
        },
    }
}

/// Decides whether a command is tried again: only a conflict is retried, and no
/// more than `max_retries` times.
pub fn after_attempt<AE, CE, SE, NE>(
    attempt: usize,
    max_retries: usize,
    outcome: Result<(), CommandError<AE, CE, SE, NE>>,
) -> (r: Attempt<CommandError<AE, CE, SE, NE>>)
    ensures
        r == next_attempt(attempt, max_retries, outcome),
{
    match outcome {
        Ok(()) => Attempt::Done(Ok(attempt)),
        Err(CommandError::Concurrency(conflict)) => if attempt <= max_retries {
            Attempt::Again
        } else {
            Attempt::Done(Err(CommandError::Concurrency(conflict)))
        },
        Err(error) => Attempt::Done(Err(error)),
    }
}

/// What retrying returns if attempt number `n` (from one) comes out as
/// `outcomes[n - 1]`; none where it would go on past the outcomes given.
pub open spec fn retried<AE, CE, SE, NE>(
    outcomes: Seq<Result<(), CommandError<AE, CE, SE, NE>>>,
    attempt: usize,
    max_retries: usize,
) -> Option<Result<usize, CommandError<AE, CE, SE, NE>>>
    decreases outcomes.len() + 1 - attempt,
{
    if attempt == 0 || attempt > outcomes.len() {
        None
    } else {
        match next_attempt(attempt, max_retries, outcomes[attempt - 1]) {
            Attempt::Done(r) => Some(r),
            Attempt::Again => if attempt < usize::MAX {
                retried(outcomes, (attempt + 1) as usize, max_retries)
            } else {
                None
            },
        }
    }
}

/// Whether an attempt came to a conflict.
pub open spec fn conflicts<AE, CE, SE, NE>(
    outcome: Result<(), CommandError<AE, CE, SE, NE>>,
) -> bool {
    outcome matches Err(CommandError::Concurrency(_))
}

/// Whether `outcomes` are those of all the attempts made: every one but the last is a
/// conflict, and the last is none unless no retry was left.
pub open spec fn attempts_made<AE, CE, SE, NE>(
    outcomes: Seq<Result<(), CommandError<AE, CE, SE, NE>>>,
    max_retries: usize,
) -> bool {
    &&& 0 < outcomes.len() <= max_retries + 1
    &&& forall|i: int| 0 <= i < outcomes.len() - 1 ==> conflicts(#[trigger] outcomes[i])
    &&& !conflicts(outcomes.last()) || outcomes.len() == max_retries + 1
}

/// What retrying returns, given the outcomes of all the attempts made: a success as
/// their number, and else the last error.
pub open spec fn retry_result<AE, CE, SE, NE>(
    outcomes: Seq<Result<(), CommandError<AE, CE, SE, NE>>>,
) -> Result<usize, CommandError<AE, CE, SE, NE>> {
    match outcomes.last() {
        Ok(()) => Ok(outcomes.len() as usize),
        Err(error) => Err(error),
    }
}

/// As many attempts are made as it takes to get something other than a conflict, and no
/// more than one and the retries: if `results` are what successive attempts come to and
/// `first`, counted from one, is the first that is no conflict, the attempts made are
/// the lesser of `first` and `max_retries + 1`.
pub proof fn attempts_are_as_many_as_needed<AE, CE, SE, NE>(
    results: Seq<Result<(), CommandError<AE, CE, SE, NE>>>,
    outcomes: Seq<Result<(), CommandError<AE, CE, SE, NE>>>,
    max_retries: usize,
    first: int,
)
    requires
        attempts_made(outcomes, max_retries),
        outcomes.len() <= results.len(),
        outcomes == results.take(outcomes.len() as int),
        1 <= first,
        forall|i: int|
            0 <= i < first - 1 && i < results.len() ==> conflicts(#[trigger] results[i]),
        first <= results.len() ==> !conflicts(results[first - 1]),
        first > results.len() ==> results.len() > max_retries,
    ensures
        outcomes.len() == if first <= max_retries + 1 {
            first
        } else {
            max_retries + 1
        },
        max_retries < usize::MAX ==> retried(results, 1, max_retries) == Some(
            retry_result(outcomes),
        ),
{
    let n = outcomes.len() as int;
    assert(outcomes.last() == results[n - 1]);
    if first < n {
        assert(outcomes[first - 1] == results[first - 1]);
    }
    if max_retries < usize::MAX {
        assert forall|i: int| 1 <= i < n implies conflicts(#[trigger] results[i - 1]) by {
            assert(outcomes[i - 1] == results[i - 1]);
        }
        retrying_stops(results, 1, max_retries, n as usize);
    }
}

/// Retrying stops at the first outcome that is no conflict, or at attempt
/// `max_retries + 1`, whichever comes first. It returns that outcome, a success as
/// the number of attempts.
pub proof fn retrying_stops<AE, CE, SE, NE>(
    outcomes: Seq<Result<(), CommandError<AE, CE, SE, NE>>>,
    attempt: usize,
    max_retries: usize,
    last: usize,
)
    requires
        1 <= attempt <= last <= outcomes.len(),
        last <= max_retries + 1,
        forall|i: int|
            attempt <= i < last ==> (#[trigger] outcomes[i - 1]) matches Err(
                CommandError::Concurrency(_),
            ),
        !(outcomes[last - 1] matches Err(CommandError::Concurrency(_))) || last == max_retries + 1,
    ensures
        retried(outcomes, attempt, max_retries) == Some(
            match outcomes[last - 1] {
                Ok(()) => Ok(last),
                Err(error) => Err(error),
            },
        ),
    decreases last - attempt,
{
    if attempt < last {
        assert(outcomes[attempt - 1] matches Err(CommandError::Concurrency(_)));
        retrying_stops(outcomes, (attempt + 1) as usize, max_retries, last);
    }
}

/// Snapshot-enabled repository mode wrapper.
pub struct Snapshots<SS>(
    /// The underlying snapshot store.
    pub SS,
);

impl<Id, SS: SnapshotStore<Id>> SnapshotStore<Id> for Snapshots<SS> {
    type Position = SS::Position;

    type Error = SS::Error;
}

/// Command execution and aggregate lifecycle orchestrator.
///
/// `C` is the concurrency strategy, `M` the snapshot mode.
pub struct Repository<S, C = Optimistic, M = NoSnapshots<<S as EventStore>::Position>> where
    S: EventStore,
    C: ConcurrencyStrategy,
 {
    /// Where the events are.
    pub store: S,
    /// Where the snapshots are.
    pub snapshots: M,
    /// The concurrency strategy.
    pub concurrency: PhantomData<C>,
}

/// Repository type alias with optimistic concurrency and no snapshots.
pub type OptimisticRepository<S> = Repository<
    S,
    Optimistic,
    NoSnapshots<<S as EventStore>::Position>,
>;

/// Repository type alias with unchecked concurrency and no snapshots.
pub type UncheckedRepository<S> = Repository<
    S,
    Unchecked,
    NoSnapshots<<S as EventStore>::Position>,
>;

/// Repository type alias with optimistic concurrency and snapshot support.
pub type OptimisticSnapshotRepository<S, SS> = Repository<S, Optimistic, Snapshots<SS>>;

impl<S: EventStore> Repository<S> {
    /// A repository with optimistic concurrency and no snapshots.
    #[must_use]
    pub fn new(store: S) -> (r: Self)
        ensures
            r.store == store,
            r.snapshots == NoSnapshots::<S::Position>::only(),
    {
        Repository { store, snapshots: NoSnapshots::new(), concurrency: PhantomData }
    }
}

impl<S: EventStore, M> Repository<S, Optimistic, M> {
    /// Disable optimistic concurrency checking for this repository.
    #[must_use]
    pub fn without_concurrency_checking(self) -> (r: Repository<S, Unchecked, M>)
        ensures
            r.store == self.store,
            r.snapshots == self.snapshots,
    {
        Repository { store: self.store, snapshots: self.snapshots, concurrency: PhantomData }
    }
}

impl<S: EventStore, C: ConcurrencyStrategy, M> Repository<S, C, M> {
    /// The event store.
    #[must_use]
    pub fn event_store(&self) -> (r: &S)
        ensures
            *r == self.store,
    {
        &self.store
    }

    /// Enable snapshots.
    #[must_use]
    pub fn with_snapshots<SS: SnapshotStore<S::Id, Position = S::Position>>(
        self,
        snapshots: SS,
    ) -> (r: Repository<S, C, Snapshots<SS>>)
        ensures
            r.store == self.store,
            r.snapshots == Snapshots(snapshots),
    {
        Repository {
            store: self.store,
            snapshots: Snapshots(snapshots),
            concurrency: PhantomData,
        }
    }
}

impl<S: EventStore, C: ConcurrencyStrategy, SS> Repository<S, C, Snapshots<SS>> {
    /// The snapshot store.
    #[must_use]
    pub fn snapshot_store(&self) -> (r: &SS)
        ensures
            *r == self.snapshots.0,
    {
        &self.snapshots.0
    }
}

} // verus!
