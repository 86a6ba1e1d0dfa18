//! Command-side domain primitives.
//!
//! An [`Aggregate`] is rebuilt from its events and decides, through [`Handle`]
//! and [`HandleCreate`], which events a command brings about.

use vstd::prelude::*;

verus! {

/// Command-side entities that produce domain events.
///
/// Its spec functions are left open here; verified code gives them a body of its own.
pub trait Aggregate: Sized {
    /// Aggregate type identifier used by the event store.
    ///
    /// Together with the aggregate ID it names a stream.
    const KIND: &'static str;

    /// The sum type of all events this aggregate can produce and handle.
    type Event;

    /// The top-level error type returned by command handlers.
    type Error;

    /// The aggregate instance identifier type.
    type Id;

    /// The state after the very first event.
    open spec fn created(event: Self::Event) -> Self {
        arbitrary()
    }

    /// The state after one more event.
    open spec fn applied(self, event: Self::Event) -> Self {
        arbitrary()
    }

    /// Construct aggregate state from its very first event.
    ///
    /// The first event of a stream is passed to `create` rather than `apply`, so
    /// that required fields can be initialised without a default.
    fn create(event: &Self::Event) -> (r: Self)
        ensures
            r == Self::created(*event),
    ;

    /// Apply an event to update aggregate state.
    fn apply(&mut self, event: &Self::Event)
        ensures
            *final(self) == old(self).applied(*event),
    ;
}

/// The state of `aggregate` after `events`.
pub open spec fn replay<A: Aggregate>(aggregate: A, events: Seq<A::Event>) -> A
    decreases events.len(),
{
    if events.len() == 0 {
        aggregate
    } else {
        replay(aggregate, events.drop_last()).applied(events.last())
    }
}

/// The state that `events` build from scratch; there is none before the first.
pub open spec fn rebuilt<A: Aggregate>(events: Seq<A::Event>) -> Option<A> {
    if events.len() == 0 {
        None
    } else {
        Some(replay(A::created(events.first()), events.skip(1)))
    }
}

/// Replaying events in two goes gives what replaying them in one does.
pub proof fn replay_composes<A: Aggregate>(
    aggregate: A,
    first: Seq<A::Event>,
    second: Seq<A::Event>,
)
    ensures
        replay(aggregate, first + second) == replay(replay(aggregate, first), second),
    decreases second.len(),
{
    if second.len() == 0 {
        assert(first + second == first);
    } else {
        assert((first + second).drop_last() == first + second.drop_last());
        replay_composes(aggregate, first, second.drop_last());
    }
}

/// State built from a first part of a history is carried by the rest of it to the
/// state that the whole history builds: a snapshot stands for the events before it.
pub proof fn rebuilding_resumes<A: Aggregate>(first: Seq<A::Event>, second: Seq<A::Event>)
    requires
        first.len() > 0,
    ensures
        rebuilt::<A>(first) is Some,
        rebuilt::<A>(first + second) == Some(replay(rebuilt::<A>(first)->0, second)),
{
    assert((first + second).skip(1) == first.skip(1) + second);
    replay_composes(A::created(first.first()), first.skip(1), second);
}

/// Nothing replayed changes nothing, and one more event changes the state as `apply`
/// does: replaying applies every event, in order, once.
pub proof fn replay_applies_each<A: Aggregate>(
    aggregate: A,
    events: Seq<A::Event>,
    event: A::Event,
)
    ensures
        replay(aggregate, Seq::empty()) == aggregate,
        replay(aggregate, events.push(event)) == replay(aggregate, events).applied(event),
{
    assert(events.push(event).drop_last() == events);
}

/// The first event of a history creates the aggregate and every later one is applied to
/// it; there is none before the first.
pub proof fn histories_create_and_then_apply<A: Aggregate>(
    events: Seq<A::Event>,
    event: A::Event,
)
    ensures
        rebuilt::<A>(Seq::empty()) is None,
        rebuilt::<A>(seq![event]) == Some(A::created(event)),
        events.len() > 0 ==> rebuilt::<A>(events) is Some && rebuilt::<A>(events.push(event))
            == Some(rebuilt::<A>(events)->0.applied(event)),
{
    assert(seq![event].skip(1) == Seq::<A::Event>::empty());
    if events.len() > 0 {
        assert(events.push(event).skip(1) == events.skip(1).push(event));
        replay_applies_each(A::created(events.first()), events.skip(1), event);
    }
}

/// Construct an aggregate from a specific creation event.
///
/// The counterpart to [`Apply`] for the first event in a stream.
pub trait Create<E>: Sized {
    /// Construct `Self` from the creation event.
    fn create(event: &E) -> Self;
}

/// Mutate an aggregate with a domain event.
pub trait Apply<E> {
    /// Apply `event` to update `self` in place.
    fn apply(&mut self, event: &E);
}

/// Entry point for command handling.
///
/// Each command type gets its own implementation.
pub trait Handle<C>: Aggregate {
    /// Narrower error type for this specific command.
    type HandleError: Into<<Self as Aggregate>::Error>;

    /// Handle a command and produce events.
    ///
    /// # Errors
    ///
    /// Returns [`Self::HandleError`] if the command is invalid for the current
    /// aggregate state.
    fn handle(&self, command: &C) -> Result<Vec<Self::Event>, Self::HandleError>;
}

/// Entry point for creation command handling, used when the aggregate stream does
/// not yet exist.
pub trait HandleCreate<C>: Aggregate {
    /// Narrower error type for this specific creation command.
    type HandleCreateError: Into<<Self as Aggregate>::Error>;

    /// Handle a creation command and produce events.
    ///
    /// # Errors
    ///
    /// Returns [`Self::HandleCreateError`] if the command is invalid for a missing
    /// aggregate.
    fn handle_create(command: &C) -> Result<Vec<Self::Event>, Self::HandleCreateError>;
}

} // verus!
