//! Push-based projection subscriptions.
//!
//! A subscription replays historical events (catch-up), then goes on with live
//! ones as they are committed. [`SubscriptionLoop`] is what it does with each
//! delivery; whoever drives it performs what the [`Progress`] it returns asks for.

use std::cmp::Ordering;

use vstd::prelude::*;
use vstd::std_specs::cmp::{PartialEqSpec, PartialEqSpecImpl, PartialOrdSpec, PartialOrdSpecImpl};

use crate::{
    event::EventDecodeError,
    message::{prefixed_message, Message},
    order::has_reached,
    projection::{EventHandler, Handlers, Subscribable},
    repository::usable_snapshot,
    snapshot::{OfferSnapshotError, Snapshot, SnapshotOffer},
    store::{EventStore, StoredEvent},
};

pub mod deliveries;
pub mod inmemory;
pub mod laws;
pub mod mirroring;

verus! {

/// A store that supports push-based event subscriptions.
///
/// A subscription cursor is not a position: positions may become visible out of
/// order, checkpoints advance in the order of delivery.
pub trait SubscribableStore: EventStore {
    /// Opaque, ordered cursor into the commit-ordered delivery stream.
    type Checkpoint: Clone + Ord;
}

/// A stored event paired with the checkpoint that marks its place in the
/// commit-ordered delivery stream.
pub struct Checkpointed<S: SubscribableStore> {
    /// Cursor marking this event's position in the delivery stream.
    pub checkpoint: S::Checkpoint,
    /// The delivered event.
    pub event: StoredEvent<S::Id, S::Position, S::Data, S::Metadata>,
}

/// What a subscription stream yields: a matching event or a frontier.
///
/// Filtered-out events never reach a subscriber, so their checkpoints cannot be
/// observed from the events alone. A frontier closes that gap: no (further)
/// matching event exists through it. It carries no event, and must not apply a
/// handler, publish an update, or trigger a snapshot.
pub enum Delivery<S: SubscribableStore> {
    /// A filter-matching event at its delivery checkpoint.
    Event(Checkpointed<S>),
    /// No (further) matching event exists through this stable global
    /// checkpoint; advance global progress to here.
    Frontier(S::Checkpoint),
}

/// An opaque, ordered marker for a point in a store's commit-ordered delivery
/// stream, used to read one's own writes from a subscription-fed read model.
///
/// Tokens compare as their checkpoints do.
#[derive(Clone, Copy, Debug, Eq, Ord)]
pub struct ConsistencyToken<C>(C);

impl<C: PartialEq> PartialEq for ConsistencyToken<C> {
    fn eq(&self, other: &Self) -> (r: bool) {
        self.0 == other.0
    }
}

impl<C: PartialEq> PartialEqSpecImpl for ConsistencyToken<C> {
    open spec fn obeys_eq_spec() -> bool {
        C::obeys_eq_spec()
    }

    open spec fn eq_spec(&self, other: &Self) -> bool {
        self.spec_checkpoint().eq_spec(&other.spec_checkpoint())
    }
}

impl<C: PartialOrd> PartialOrd for ConsistencyToken<C> {
    fn partial_cmp(&self, other: &Self) -> (r: Option<Ordering>) {
        self.0.partial_cmp(&other.0)
    }
}

impl<C: PartialOrd> PartialOrdSpecImpl for ConsistencyToken<C> {
    open spec fn obeys_partial_cmp_spec() -> bool {
        C::obeys_partial_cmp_spec()
    }

    open spec fn partial_cmp_spec(&self, other: &Self) -> Option<Ordering> {
        self.spec_checkpoint().partial_cmp_spec(&other.spec_checkpoint())
    }
}

impl<C> ConsistencyToken<C> {
    /// The checkpoint that this token stands for.
    pub closed spec fn spec_checkpoint(self) -> C {
        self.0
    }

    /// Wrap a checkpoint as a consistency token.
    pub fn new(checkpoint: C) -> (r: Self)
        ensures
            r.spec_checkpoint() == checkpoint,
    {
        ConsistencyToken(checkpoint)
    }

    /// Borrow the underlying checkpoint.
    pub fn checkpoint(&self) -> (r: &C)
        ensures
            *r == self.spec_checkpoint(),
    {
        &self.0
    }

    /// Unwrap into the underlying checkpoint.
    pub fn into_checkpoint(self) -> (r: C)
        ensures
            r == self.spec_checkpoint(),
    {
        self.0
    }
}

impl<C: PartialOrd> ConsistencyToken<C> {
    /// Whether progress up to `processed` is progress up to this token.
    pub open spec fn reached_by(self, processed: Option<C>) -> bool {
        processed matches Some(checkpoint) && crate::order::at_least(
            checkpoint,
            self.spec_checkpoint(),
        )
    }

    /// What waiting for this token comes to; none is to wait on.
    pub open spec fn awaits(self, processed: Option<C>, running: bool) -> Option<
        Result<(), AwaitError>,
    > {
        if self.reached_by(processed) {
            Some(Ok(()))
        } else if running {
            None
        } else {
            Some(Err(AwaitError::SubscriptionStopped))
        }
    }

    /// Whether a subscription that has processed up to `processed` has processed up
    /// to this token.
    pub fn is_reached(&self, processed: &Option<C>) -> (r: bool)
        requires
            crate::order::comparable::<C>(),
        ensures
            r == self.reached_by(*processed),
    {
        match processed {
            Some(checkpoint) => *checkpoint >= self.0,
            None => false,
        }
    }

    /// What waiting for this token comes to, where the subscription has processed up to
    /// `processed` and is still running or not; `None` is to wait on.
    ///
    /// A token that was reached is never waited for, even if the subscription has
    /// stopped since.
    ///
    /// # Errors
    ///
    /// Returns [`AwaitError::SubscriptionStopped`] if the subscription stopped before it
    /// reached this token.
    pub fn awaited(&self, processed: &Option<C>, running: bool) -> (r: Option<
        Result<(), AwaitError>,
    >)
        requires
            crate::order::comparable::<C>(),
        ensures
            r == self.awaits(*processed, running),
    {
        if self.is_reached(processed) {
            Some(Ok(()))
        } else if running {
            None
        } else {
            Some(Err(AwaitError::SubscriptionStopped))
        }
    }
}

/// A token is what its checkpoint makes it.
pub proof fn lemma_tokens_are_their_checkpoints<C>(a: ConsistencyToken<C>, b: ConsistencyToken<C>)
    ensures
        a == b <==> a.spec_checkpoint() == b.spec_checkpoint(),
{
}

/// Error returned when the requested checkpoint cannot be awaited.
#[derive(Debug)]
pub enum AwaitError {
    /// The subscription stopped (gracefully or due to a failure) before processing
    /// up to the requested checkpoint.
    SubscriptionStopped,
}

impl Message for AwaitError {
    open spec fn described_by(&self, text: Seq<char>) -> bool {
        text == "subscription stopped before reaching the requested checkpoint"@
    }

    fn message(&self) -> (text: String) {
        "subscription stopped before reaching the requested checkpoint".to_owned()
    }
}

/// Errors that can occur during subscription lifecycle.
#[derive(Debug)]
pub enum SubscriptionError<StoreError> {
    /// The event store returned an error.
    Store(StoreError),
    /// An event could not be decoded.
    EventDecode(EventDecodeError<StoreError>),
    /// The subscription ended before completing catch-up.
    CatchupInterrupted,
    /// The subscription task panicked.
    TaskPanicked,
}

/// Errors of the loop that subscriptions and reactors share.
pub type RunnerError<StoreError> = SubscriptionError<StoreError>;

impl<StoreError: Message> Message for SubscriptionError<StoreError> {
    open spec fn described_by(&self, text: Seq<char>) -> bool {
        match self {
            SubscriptionError::Store(cause) => crate::message::prefixed(
                "store error: "@,
                cause,
                text,
            ),
            SubscriptionError::EventDecode(cause) => crate::message::prefixed(
                "failed to decode event: "@,
                cause,
                text,
            ),
            SubscriptionError::CatchupInterrupted => text
                == "subscription ended before catch-up completed"@,
            SubscriptionError::TaskPanicked => text == "subscription task panicked"@,
        }
    }

    fn message(&self) -> (text: String) {
        match self {
            SubscriptionError::Store(cause) => prefixed_message("store error: ", cause),
            SubscriptionError::EventDecode(cause) => prefixed_message(
                "failed to decode event: ",
                cause,
            ),
            SubscriptionError::CatchupInterrupted => {
                "subscription ended before catch-up completed".to_owned()
            },
            SubscriptionError::TaskPanicked => "subscription task panicked".to_owned(),
        }
    }
}

impl<StoreError: Message> SubscriptionError<StoreError> {
    /// The text of the underlying failure, if there is one.
    pub fn source(&self) -> (r: Option<String>)
        ensures
            match self {
                SubscriptionError::Store(cause) => r matches Some(text) && cause.described_by(
                    text@,
                ),
                SubscriptionError::EventDecode(cause) => r matches Some(text)
                    && cause.described_by(text@),
                SubscriptionError::CatchupInterrupted | SubscriptionError::TaskPanicked => r
                    is None,
            },
    {
        match self {
            SubscriptionError::Store(cause) => Some(cause.message()),
            SubscriptionError::EventDecode(cause) => Some(cause.message()),
            SubscriptionError::CatchupInterrupted => None,
            SubscriptionError::TaskPanicked => None,
        }
    }
}

/// A snapshot to be offered: the number of events since the last one, and the
/// checkpoint of the state.
pub struct SnapshotDue<Cp> {
    /// Number of events since the last snapshot.
    pub events_since_snapshot: u64,
    /// Checkpoint of the last event in the state.
    pub checkpoint: Cp,
}

/// What to do after a delivery, in this order: publish the state, publish the
/// progress, signal readiness, offer a snapshot.
pub struct Progress<Cp> {
    /// Whether the state changed and is to be published.
    pub applied: bool,
    /// The new global progress, where it moved.
    pub observed: Option<Cp>,
    /// Whether catch-up is complete as of this delivery.
    pub ready: bool,
    /// The snapshot to be offered, if one is.
    pub offer: Option<SnapshotDue<Cp>>,
}

/// State of a running subscription.
pub struct SubscriptionLoop<S: SubscribableStore, P, H> {
    /// How to apply events.
    pub handlers: Handlers<H>,
    /// The live read model.
    pub projection: P,
    /// Where catch-up ends, if there is anything to catch up with.
    pub catchup_target: Option<S::Checkpoint>,
    /// Checkpoint of the last matching event.
    pub last_checkpoint: Option<S::Checkpoint>,
    /// Global progress: the largest of all matching checkpoints and frontiers.
    pub observed: Option<S::Checkpoint>,
    /// Number of events since the last snapshot.
    pub events_since_snapshot: u64,
    /// Whether catch-up is complete.
    pub caught_up: bool,
}

/// Whether `after` is `before`, moved forward to a copy of `candidate` if that is
/// further.
pub open spec fn observes<Cp: Clone + PartialOrd>(
    before: Option<Cp>,
    candidate: Cp,
    after: Option<Cp>,
) -> bool {
    if before matches Some(current) && !crate::order::above(candidate, current) {
        after == before
    } else {
        after matches Some(copy) && cloned(candidate, copy)
    }
}

/// Whether `candidate` would move a cursor at `before`.
pub open spec fn moves<Cp: PartialOrd>(before: Option<Cp>, candidate: Cp) -> bool {
    !(before matches Some(current) && !crate::order::above(candidate, current))
}

/// Whether an event at `checkpoint` was delivered before to a subscriber whose last
/// one was at `last`.
pub open spec fn already_seen<Cp: PartialOrd>(last: Option<Cp>, checkpoint: Cp) -> bool {
    last matches Some(last) && crate::order::at_most(checkpoint, last)
}

impl<S: SubscribableStore, P, H> SubscriptionLoop<S, P, H> {
    /// Whether only the global progress differs between two states.
    pub open spec fn same_but_observed(self, other: Self) -> bool {
        &&& other.handlers == self.handlers
        &&& other.projection == self.projection
        &&& other.catchup_target == self.catchup_target
        &&& other.last_checkpoint == self.last_checkpoint
        &&& other.events_since_snapshot == self.events_since_snapshot
        &&& other.caught_up == self.caught_up
    }

    /// Whether `delivered` is an event that was not seen before, and so is counted.
    pub open spec fn counts(self, delivered: Result<Delivery<S>, S::Error>) -> bool {
        delivered matches Ok(Delivery::Event(item)) && !already_seen(
            self.last_checkpoint,
            item.checkpoint,
        )
    }

    /// A subscription that resumes at `from`, with `projection` as its state there.
    ///
    /// It is caught up from the start when there is nothing to replay.
    pub fn resume(
        handlers: Handlers<H>,
        projection: P,
        from: Option<S::Checkpoint>,
        catchup_target: Option<S::Checkpoint>,
    ) -> (r: Self)
        requires
            crate::order::comparable::<S::Checkpoint>(),
        ensures
            r.handlers == handlers,
            r.projection == projection,
            r.catchup_target == catchup_target,
            r.last_checkpoint == from,
            match from {
                Some(checkpoint) => r.observed matches Some(copy) && cloned(checkpoint, copy),
                None => r.observed is None,
            },
            r.events_since_snapshot == 0,
            r.caught_up == crate::order::cursor_at_least(from, catchup_target),
    {
        let observed: Option<S::Checkpoint> = match &from {
            Some(checkpoint) => Some(checkpoint.clone()),
            None => None,
        };
        let caught_up: bool = has_reached(&from, &catchup_target);
        SubscriptionLoop {
            handlers,
            projection,
            catchup_target,
            last_checkpoint: from,
            observed,
            events_since_snapshot: 0,
            caught_up,
        }
    }

    /// The snapshot to be offered now: none while no events are pending.
    pub fn pending_snapshot(&self) -> (r: Option<SnapshotDue<S::Checkpoint>>)
        ensures
            match (self.last_checkpoint, r) {
                (Some(checkpoint), Some(due)) => {
                    &&& self.events_since_snapshot > 0
                    &&& due.events_since_snapshot == self.events_since_snapshot
                    &&& cloned(checkpoint, due.checkpoint)
                },
                (Some(_), None) => self.events_since_snapshot == 0,
                (None, Some(_)) => false,
                (None, None) => true,
            },
    {
        if self.events_since_snapshot > 0 {
            if let Some(checkpoint) = &self.last_checkpoint {
                return Some(
                    SnapshotDue {
                        events_since_snapshot: self.events_since_snapshot,
                        checkpoint: checkpoint.clone(),
                    },
                );
            }
        }
        None
    }

    /// Takes note of the answer to an offer: only a stored snapshot starts the count
    /// of events anew, so a policy that batches sees the count grow.
    pub fn snapshot_answered(&mut self, stored: bool)
        ensures
            *final(self) == (SubscriptionLoop {
                events_since_snapshot: if stored {
                    0
                } else {
                    old(self).events_since_snapshot
                },
                ..*old(self)
            }),
    {
        if stored {
            self.events_since_snapshot = 0;
        }
    }
}

/// Whether a snapshot offer was stored; one that failed was not.
pub fn was_stored<E, CE>(offered: Result<SnapshotOffer, OfferSnapshotError<E, CE>>) -> (r: bool)
    ensures
        r == (offered matches Ok(offer) && offer == SnapshotOffer::Stored),
{
    match offered {
        Ok(SnapshotOffer::Stored) => true,
        Ok(SnapshotOffer::Declined) => false,
        Err(_) => false,
    }
}

/// Moves the global progress to `candidate` if that is further, and copies it out
/// where it moved.
pub fn advance_observed<Cp: Clone + PartialOrd>(
    observed: &mut Option<Cp>,
    candidate: &Cp,
) -> (r: Option<Cp>)
    requires
        crate::order::comparable::<Cp>(),
    ensures
        observes(*old(observed), *candidate, *final(observed)),
        r is Some == moves(*old(observed), *candidate),
        r matches Some(published) ==> cloned(final(observed)->0, published),
{
    let further: bool = match &*observed {
        Some(current) => *candidate > *current,
        None => true,
    };
    if further {
        let copy: Cp = candidate.clone();
        let published: Cp = copy.clone();
        *observed = Some(copy);
        Some(published)
    } else {
        None
    }
}

impl<S: SubscribableStore, P, H: EventHandler<P, S>> SubscriptionLoop<S, P, H> {
    /// Whether an event takes this state to `after`, with `progress` to be made of
    /// it.
    pub open spec fn applies(
        self,
        item: Checkpointed<S>,
        after: Self,
        progress: Progress<S::Checkpoint>,
    ) -> bool {
        &&& after.handlers == self.handlers
        &&& after.catchup_target == self.catchup_target
        &&& crate::repository::steps::<P, S, H>(
            self.handlers,
            self.projection,
            item.event,
            after.projection,
        )
        &&& after.last_checkpoint == Some(item.checkpoint)
        &&& after.events_since_snapshot == self.events_since_snapshot + 1
        &&& observes(self.observed, item.checkpoint, after.observed)
        &&& after.caught_up == (self.caught_up || crate::order::cursor_at_least(
            Some(item.checkpoint),
            self.catchup_target,
        ))
        &&& progress.applied
        &&& progress.ready == (after.caught_up && !self.caught_up)
        &&& progress.observed is Some == moves(self.observed, item.checkpoint)
        &&& progress.observed matches Some(published) ==> cloned(after.observed->0, published)
        &&& progress.offer matches Some(due) && due.events_since_snapshot
            == after.events_since_snapshot && cloned(item.checkpoint, due.checkpoint)
    }

    /// Whether one delivery takes this state to `after` and comes to `r`.
    ///
    /// An event that was seen before changes nothing. A frontier moves the global
    /// progress and nothing else. A failure changes nothing.
    pub open spec fn handles(
        self,
        delivered: Result<Delivery<S>, S::Error>,
        after: Self,
        r: Result<Progress<S::Checkpoint>, SubscriptionError<S::Error>>,
    ) -> bool {
        match delivered {
            Err(error) => {
                &&& after == self
                &&& r matches Err(SubscriptionError::Store(cause)) && cause == error
            },
            Ok(Delivery::Frontier(frontier)) => {
                &&& self.same_but_observed(after)
                &&& observes(self.observed, frontier, after.observed)
                &&& r matches Ok(progress) && !progress.applied && !progress.ready
                    && progress.offer is None && progress.observed is Some == moves(
                    self.observed,
                    frontier,
                ) && (progress.observed matches Some(published) ==> cloned(
                    after.observed->0,
                    published,
                ))
            },
            Ok(Delivery::Event(item)) => if already_seen(self.last_checkpoint, item.checkpoint) {
                &&& after == self
                &&& r matches Ok(progress) && !progress.applied && !progress.ready
                    && progress.offer is None && progress.observed is None
            } else {
                match r {
                    Ok(progress) => self.applies(item, after, progress),
                    Err(SubscriptionError::EventDecode(error)) => {
                        &&& after == self
                        &&& crate::repository::step_fails::<P, S, H>(
                            self.handlers,
                            item.event,
                            error,
                        )
                    },
                    Err(_) => false,
                }
            },
        }
    }

    /// Process one event through handler dispatch and checkpoint tracking.
    ///
    /// Unknown kinds are ignored: filters can be wider than the set of handlers.
    ///
    /// # Errors
    ///
    /// Returns [`SubscriptionError::EventDecode`] if the event's handler refuses it.
    fn process_event(&mut self, item: Checkpointed<S>, store: &S) -> (r: Result<
        (),
        SubscriptionError<S::Error>,
    >)
        requires
            old(self).events_since_snapshot < u64::MAX,
        ensures
            match r {
                Ok(()) => {
                    &&& crate::repository::steps::<P, S, H>(
                        old(self).handlers,
                        old(self).projection,
                        item.event,
                        final(self).projection,
                    )
                    &&& *final(self) == (SubscriptionLoop {
                        projection: final(self).projection,
                        last_checkpoint: Some(item.checkpoint),
                        events_since_snapshot: (old(self).events_since_snapshot + 1) as u64,
                        ..*old(self)
                    })
                },
                Err(SubscriptionError::EventDecode(error)) => {
                    &&& *final(self) == *old(self)
                    &&& crate::repository::step_fails::<P, S, H>(
                        old(self).handlers,
                        item.event,
                        error,
                    )
                },
                Err(_) => false,
            },
    {
        let Checkpointed { checkpoint, event } = item;
        if let Some(handler) = self.handlers.get(event.kind()) {
            if let Err(error) = handler.call(&mut self.projection, &event, store) {
                proof {
                    let of_kind = self.handlers.handler_of(item.event.kind@)->0;
                    assert(of_kind.refused(item.event, error));
                }
                return Err(SubscriptionError::EventDecode(error.into_decode_error()));
            }
        }
        self.last_checkpoint = Some(checkpoint);
        self.events_since_snapshot = self.events_since_snapshot + 1;
        Ok(())
    }

    /// Whether the count of events has room for `delivered`; only an event that was not
    /// seen before takes any.
    pub fn has_room(&self, delivered: &Result<Delivery<S>, S::Error>) -> (r: bool)
        requires
            crate::order::comparable::<S::Checkpoint>(),
        ensures
            r == (self.counts(*delivered) ==> self.events_since_snapshot < u64::MAX),
    {
        match delivered {
            Ok(Delivery::Event(item)) => match &self.last_checkpoint {
                Some(last) => item.checkpoint <= *last || self.events_since_snapshot < u64::MAX,
                None => self.events_since_snapshot < u64::MAX,
            },
            _ => true,
        }
    }

    /// Takes one item of the delivery stream.
    ///
    /// # Errors
    ///
    /// Returns [`SubscriptionError::Store`] if the stream failed, and
    /// [`SubscriptionError::EventDecode`] if an event cannot be decoded.
    pub fn handle_delivery(
        &mut self,
        delivered: Result<Delivery<S>, S::Error>,
        store: &S,
    ) -> (r: Result<Progress<S::Checkpoint>, SubscriptionError<S::Error>>)
        requires
            crate::order::comparable::<S::Checkpoint>(),
            old(self).counts(delivered) ==> old(self).events_since_snapshot < u64::MAX,
        ensures
            old(self).handles(delivered, *final(self), r),
    {
        let item: Checkpointed<S> = match delivered {
            Err(error) => {
                return Err(SubscriptionError::Store(error));
            },
            Ok(Delivery::Frontier(frontier)) => {
                let observed: Option<S::Checkpoint> = advance_observed(
                    &mut self.observed,
                    &frontier,
                );
                return Ok(Progress { applied: false, observed, ready: false, offer: None });
            },
            Ok(Delivery::Event(item)) => item,
        };
        if let Some(last) = &self.last_checkpoint {
            if item.checkpoint <= *last {
                return Ok(Progress { applied: false, observed: None, ready: false, offer: None });
            }
        }
        if let Err(error) = self.process_event(item, store) {
            return Err(error);
        }
        let observed: Option<S::Checkpoint> = match &self.last_checkpoint {
            Some(checkpoint) => advance_observed(&mut self.observed, checkpoint),
            None => None,
        };
        let mut ready: bool = false;
        if !self.caught_up && has_reached(&self.last_checkpoint, &self.catchup_target) {
            self.caught_up = true;
            ready = true;
        }
        let offer: Option<SnapshotDue<S::Checkpoint>> = self.pending_snapshot();
        Ok(Progress { applied: true, observed, ready, offer })
    }
}

/// Where a subscription starts: at the snapshot, if there is one that could be
/// loaded, and else at a fresh instance.
pub fn load_snapshot<P: Subscribable, Cp, E>(
    loaded: Result<Option<Snapshot<Cp, P>>, E>,
    instance_id: &P::InstanceId,
) -> (r: (P, Option<Cp>))
    ensures
        r == match loaded {
            Ok(Some(snapshot)) => (snapshot.data, Some(snapshot.position)),
            _ => (P::initial(*instance_id), None),
        },
{
    match usable_snapshot(loaded) {
        Some((projection, position)) => (projection, Some(position)),
        None => (P::init(instance_id), None),
    }
}

/// How a background task ended.
pub enum TaskEnd<T> {
    /// It returned.
    Returned(T),
    /// It panicked.
    Panicked,
}

/// Why a subscription that never got ready failed to start.
pub fn startup_failure<E>(ended: TaskEnd<Result<(), SubscriptionError<E>>>) -> (r: SubscriptionError<
    E,
>)
    ensures
        r == match ended {
            TaskEnd::Returned(Ok(())) => SubscriptionError::CatchupInterrupted,
            TaskEnd::Returned(Err(error)) => error,
            TaskEnd::Panicked => SubscriptionError::TaskPanicked,
        },
{
    match ended {
        TaskEnd::Returned(Ok(())) => SubscriptionError::CatchupInterrupted,
        TaskEnd::Returned(Err(error)) => error,
        TaskEnd::Panicked => SubscriptionError::TaskPanicked,
    }
}

/// What stopping a subscription returns; one without a task left has stopped.
///
/// # Errors
///
/// Returns the subscription's error if it failed before being stopped.
pub fn stop_outcome<E>(ended: Option<TaskEnd<Result<(), SubscriptionError<E>>>>) -> (r: Result<
    (),
    SubscriptionError<E>,
>)
    ensures
        r == match ended {
            Some(TaskEnd::Returned(outcome)) => outcome,
            Some(TaskEnd::Panicked) => Err(SubscriptionError::TaskPanicked),
            None => Ok(()),
        },
{
    match ended {
        Some(TaskEnd::Returned(outcome)) => outcome,
        Some(TaskEnd::Panicked) => Err(SubscriptionError::TaskPanicked),
        None => Ok(()),
    }
}

} // verus!
