//! Write-side event reactors.
//!
//! A reactor consumes the same checkpointed event stream as a projection
//! subscription, but performs side effects instead of folding a read model. With a
//! checkpoint store configured, delivery is at-least-once with resume.

use std::marker::PhantomData;

use vstd::prelude::*;
use vstd::std_specs::convert::FromSpecImpl;

use crate::{
    aggregate::Aggregate,
    event::{DecodeEvent, DomainEvent, EventDecodeError, ProjectionEvent},
    key::StorageKey,
    message::{prefixed_message, Message},
    order::has_reached,
    projection::{push_every, push_within, Handlers},
    snapshot::{Snapshot, SnapshotOffer, SnapshotStore},
    store::{EventFilter, EventStore, Selector, StoredEvent, StreamId},
    subscription::{
        advance_observed, Checkpointed, Delivery, Progress, RunnerError, SnapshotDue,
        SubscribableStore, SubscriptionError, TaskEnd,
    },
};

pub mod laws;

verus! {

/// A write-side event handler that declares what it consumes and how to resume.
///
/// A reactor is stateless from the runtime's perspective: keep event-derived
/// decision state in aggregates or other durable systems so redelivery is
/// idempotent.
pub trait Reactor: Sized {
    /// Stable type identifier used as the checkpoint-store kind.
    const KIND: &'static str;

    /// Raw store stream-key type.
    type Id;

    /// Metadata type expected by this reactor's handlers.
    type Metadata;

    /// Stable checkpoint-store instance id for this logical reactor instance.
    fn checkpoint_id(&self) -> (r: String)
        default_ensures
            r@ == "default"@,
    {
        "default".to_owned()
    }
}

/// What a reaction is told beside the event.
pub struct EventContext<'a, Id, M> {
    /// The aggregate instance that brought the event about.
    pub aggregate_id: &'a Id,
    /// What the store keeps beside the event.
    pub metadata: &'a M,
}

impl<'a, Id, M> EventContext<'a, Id, M> {
    /// The context of a stored event.
    pub fn from_stored<Pos, Data>(stored: &'a StoredEvent<Id, Pos, Data, M>) -> (r: Self)
        ensures
            r == (EventContext {
                aggregate_id: &stored.aggregate_id,
                metadata: &stored.metadata,
            }),
    {
        EventContext { aggregate_id: &stored.aggregate_id, metadata: &stored.metadata }
    }
}

/// Handle one concrete event type.
pub trait React<E>: Reactor {
    /// Why a reaction fails.
    type Failure;

    /// React to one event.
    ///
    /// Reactions are at-least-once: a crash after the effect but before checkpoint
    /// persistence can redeliver the same event. Implementations must therefore be
    /// idempotent.
    ///
    /// # Errors
    ///
    /// Returns an error if the effect did not come about.
    fn react(&self, ctx: EventContext<'_, Self::Id, Self::Metadata>, event: &E) -> Result<
        (),
        ReactError<Self::Failure>,
    >;
}

/// Whether reacting to `event`, which `stored` holds, can come to `r`.
pub open spec fn reacts<R: React<E>, E, Pos, Data>(
    reactor: R,
    stored: StoredEvent<R::Id, Pos, Data, R::Metadata>,
    event: E,
    r: Result<(), ReactError<R::Failure>>,
) -> bool {
    call_ensures(
        <R as React<E>>::react,
        (
            &reactor,
            EventContext { aggregate_id: &stored.aggregate_id, metadata: &stored.metadata },
            &event,
        ),
        r,
    )
}

/// Error returned by a reaction.
#[derive(Debug)]
pub enum ReactError<E> {
    /// Transient error; the runner retries according to its policy.
    Retry(E),
    /// Fatal error; the runner stops.
    Fatal(E),
}

impl<E> ReactError<E> {
    /// Wrap a retryable infrastructure failure.
    pub fn retry(error: E) -> (r: Self)
        ensures
            r == ReactError::Retry(error),
    {
        ReactError::Retry(error)
    }

    /// Wrap a fatal infrastructure failure.
    pub fn fatal(error: E) -> (r: Self)
        ensures
            r == ReactError::Fatal(error),
    {
        ReactError::Fatal(error)
    }

    /// The underlying failure.
    pub fn into_inner(self) -> (r: E)
        ensures
            r == match self {
                ReactError::Retry(error) => error,
                ReactError::Fatal(error) => error,
            },
    {
        match self {
            ReactError::Retry(error) => error,
            ReactError::Fatal(error) => error,
        }
    }
}

impl<E: Message> Message for ReactError<E> {
    open spec fn described_by(&self, text: Seq<char>) -> bool {
        match self {
            ReactError::Retry(cause) => crate::message::prefixed(
                "retryable reaction error: "@,
                cause,
                text,
            ),
            ReactError::Fatal(cause) => crate::message::prefixed(
                "fatal reaction error: "@,
                cause,
                text,
            ),
        }
    }

    fn message(&self) -> (text: String) {
        match self {
            ReactError::Retry(cause) => prefixed_message("retryable reaction error: ", cause),
            ReactError::Fatal(cause) => prefixed_message("fatal reaction error: ", cause),
        }
    }
}

impl<E: Message> ReactError<E> {
    /// The text of the underlying failure.
    pub fn source(&self) -> (r: Option<String>)
        ensures
            r matches Some(text) && match self {
                ReactError::Retry(cause) => cause.described_by(text@),
                ReactError::Fatal(cause) => cause.described_by(text@),
            },
    {
        match self {
            ReactError::Retry(cause) => Some(cause.message()),
            ReactError::Fatal(cause) => Some(cause.message()),
        }
    }
}

/// Errors that can occur during reactor lifecycle.
#[derive(Debug)]
pub enum ReactorError<StoreError, CheckpointError = String, ReactionError = String> {
    /// Shared runner failure.
    Runner(RunnerError<StoreError>),
    /// Checkpoint load or persist failed.
    Checkpoint(CheckpointError),
    /// A reaction returned a fatal error or exhausted retries.
    Reaction(ReactionError),
}

impl<SE, CE, RE> From<SubscriptionError<SE>> for ReactorError<SE, CE, RE> {
    fn from(error: SubscriptionError<SE>) -> (r: Self) {
        ReactorError::Runner(error)
    }
}

impl<SE, CE, RE> FromSpecImpl<SubscriptionError<SE>> for ReactorError<SE, CE, RE> {
    open spec fn obeys_from_spec() -> bool {
        true
    }

    open spec fn from_spec(error: SubscriptionError<SE>) -> Self {
        ReactorError::Runner(error)
    }
}

impl<SE: Message, CE: Message, RE: Message> Message for ReactorError<SE, CE, RE> {
    open spec fn described_by(&self, text: Seq<char>) -> bool {
        match self {
            ReactorError::Runner(cause) => cause.described_by(text),
            ReactorError::Checkpoint(cause) => crate::message::prefixed(
                "checkpoint operation failed: "@,
                cause,
                text,
            ),
            ReactorError::Reaction(cause) => crate::message::prefixed(
                "reaction failed: "@,
                cause,
                text,
            ),
        }
    }

    fn message(&self) -> (text: String) {
        match self {
            ReactorError::Runner(cause) => cause.message(),
            ReactorError::Checkpoint(cause) => prefixed_message(
                "checkpoint operation failed: ",
                cause,
            ),
            ReactorError::Reaction(cause) => prefixed_message("reaction failed: ", cause),
        }
    }
}

impl<SE: Message, CE: Message, RE: Message> ReactorError<SE, CE, RE> {
    /// The text of the underlying failure, if there is one.
    pub fn source(&self) -> (r: Option<String>)
        ensures
            match self {
                ReactorError::Runner(SubscriptionError::Store(cause)) => r matches Some(text)
                    && cause.described_by(text@),
                ReactorError::Runner(SubscriptionError::EventDecode(cause)) => r matches Some(text)
                    && cause.described_by(text@),
                ReactorError::Runner(_) => r is None,
                ReactorError::Checkpoint(cause) => r matches Some(text) && cause.described_by(
                    text@,
                ),
                ReactorError::Reaction(cause) => r matches Some(text) && cause.described_by(text@),
            },
    {
        match self {
            ReactorError::Runner(cause) => cause.source(),
            ReactorError::Checkpoint(cause) => Some(cause.message()),
            ReactorError::Reaction(cause) => Some(cause.message()),
        }
    }
}

/// Number of nanoseconds in the longest delay.
pub const MAX_NANOS: u128 = 18_446_744_073_709_551_615_999_999_999;

/// A span of time, in nanoseconds: at most `u64::MAX` seconds and a fraction.
#[derive(Clone, Copy, Debug, PartialEq, Eq, PartialOrd, Ord)]
pub struct Delay {
    nanos: u128,
}

/// `a`, but no more than `b`.
pub open spec fn at_most(a: int, b: int) -> int {
    if a <= b {
        a
    } else {
        b
    }
}

impl Delay {
    #[verifier::type_invariant]
    spec fn wf(self) -> bool {
        self.nanos <= MAX_NANOS
    }

    /// Number of nanoseconds.
    pub closed spec fn spec_nanos(self) -> int {
        self.nanos as int
    }

    /// A delay of `nanos` nanoseconds, or the longest one.
    pub fn from_nanos(nanos: u128) -> (r: Self)
        ensures
            r.spec_nanos() == at_most(nanos as int, MAX_NANOS as int),
    {
        if nanos <= MAX_NANOS {
            Delay { nanos }
        } else {
            Delay { nanos: MAX_NANOS }
        }
    }

    /// A delay of `millis` milliseconds.
    pub fn from_millis(millis: u64) -> (r: Self)
        ensures
            r.spec_nanos() == millis * 1_000_000,
    {
        Delay { nanos: millis as u128 * 1_000_000 }
    }

    /// A delay of `secs` seconds.
    pub fn from_secs(secs: u64) -> (r: Self)
        ensures
            r.spec_nanos() == secs * 1_000_000_000,
    {
        Delay { nanos: secs as u128 * 1_000_000_000 }
    }

    /// Number of nanoseconds.
    pub fn as_nanos(&self) -> (r: u128)
        ensures
            r == self.spec_nanos(),
            r <= MAX_NANOS,
    {
        proof {
            use_type_invariant(self);
        }
        self.nanos
    }

    /// `multiplier` times this delay, or the longest one.
    fn saturating_mul(self, multiplier: u32) -> (r: Self)
        ensures
            r.spec_nanos() == at_most(self.spec_nanos() * multiplier, MAX_NANOS as int),
    {
        proof {
            use_type_invariant(&self);
        }
        assert(self.nanos * multiplier <= u128::MAX) by (nonlinear_arith)
            requires
                self.nanos <= 18_446_744_073_709_551_615_999_999_999,
                multiplier <= 4_294_967_295,
        ;
        Delay::from_nanos(self.nanos * multiplier as u128)
    }

    /// This delay, or `other` if that is shorter.
    fn min(self, other: Self) -> (r: Self)
        ensures
            r.spec_nanos() == at_most(self.spec_nanos(), other.spec_nanos()),
    {
        if self.nanos <= other.nanos {
            self
        } else {
            other
        }
    }
}

/// Retry/backoff policy for [`ReactError::Retry`].
#[derive(Clone, Debug)]
pub struct RetryPolicy {
    /// Delay before the first retry.
    pub initial_delay: Delay,
    /// The longest delay.
    pub max_delay: Delay,
    /// How many retries there are, if they are limited.
    pub max_retries: Option<usize>,
}

/// What the initial delay is multiplied by for the retry with the given number: it
/// doubles each time, until it no longer fits.
pub open spec fn backoff(retry_index: nat) -> int {
    if retry_index < 32 {
        vstd::arithmetic::power2::pow2(retry_index) as int
    } else {
        u32::MAX as int
    }
}

/// Delay, in nanoseconds, before the retry with the given number.
pub open spec fn delay_before(policy: RetryPolicy, retry_index: nat) -> int {
    at_most(
        at_most(policy.initial_delay.spec_nanos() * backoff(retry_index), MAX_NANOS as int),
        policy.max_delay.spec_nanos(),
    )
}

impl RetryPolicy {
    /// Create an exponential retry policy.
    #[must_use]
    pub fn exponential(
        initial_delay: Delay,
        max_delay: Delay,
        max_retries: Option<usize>,
    ) -> (r: Self)
        ensures
            r == (RetryPolicy { initial_delay, max_delay, max_retries }),
    {
        RetryPolicy { initial_delay, max_delay, max_retries }
    }

    /// Delay before the retry with the given number, counted from zero.
    pub fn next_delay(&self, retry_index: usize) -> (r: Delay)
        ensures
            r.spec_nanos() == delay_before(*self, retry_index as nat),
    {
        let multiplier: u32 = if retry_index < 32 {
            let shift: u32 = retry_index as u32;
            proof {
                vstd::arithmetic::power2::lemma2_to64();
                if shift < 31 {
                    vstd::arithmetic::power2::lemma_pow2_strictly_increases(shift as nat, 31);
                }
                vstd::bits::lemma_u32_shl_is_mul(1, shift);
            }
            1u32 << shift
        } else {
            u32::MAX
        };
        self.initial_delay.saturating_mul(multiplier).min(self.max_delay)
    }
}

impl Default for RetryPolicy {
    fn default() -> (r: Self)
        ensures
            r.initial_delay.spec_nanos() == 50 * 1_000_000,
            r.max_delay.spec_nanos() == 5 * 1_000_000_000,
            r.max_retries is None,
    {
        RetryPolicy {
            initial_delay: Delay::from_millis(50),
            max_delay: Delay::from_secs(5),
            max_retries: None,
        }
    }
}

/// Why an event did not get its reaction.
#[derive(Debug)]
pub enum ReactDispatchError<StoreError, E> {
    /// The event could not be decoded.
    EventDecode(EventDecodeError<StoreError>),
    /// The reaction failed.
    Reaction(ReactError<E>),
}

/// What to do after a reaction to an event.
pub enum ReactStep<StoreError, CheckpointError, E> {
    /// The event is done with.
    Processed,
    /// Wait this long, then react again, unless stopped meanwhile.
    RetryAfter(Delay),
    /// Stop with this error.
    Fail(ReactorError<StoreError, CheckpointError, E>),
}

impl RetryPolicy {
    /// Whether a reaction that has been retried `retry_index` times is not retried
    /// again.
    pub open spec fn exhausted(self, retry_index: usize) -> bool {
        self.max_retries matches Some(limit) && retry_index >= limit
    }

    /// Whether `r` is what follows a reaction that has been retried `retry_index`
    /// times and came to `outcome`.
    pub open spec fn follows<SE, CE, E>(
        self,
        retry_index: usize,
        outcome: Result<(), ReactDispatchError<SE, E>>,
        r: ReactStep<SE, CE, E>,
    ) -> bool {
        match outcome {
            Ok(()) => r is Processed,
            Err(ReactDispatchError::EventDecode(error)) => r == ReactStep::<SE, CE, E>::Fail(
                ReactorError::Runner(SubscriptionError::EventDecode(error)),
            ),
            Err(ReactDispatchError::Reaction(ReactError::Fatal(error))) => r == ReactStep::<
                SE,
                CE,
                E,
            >::Fail(ReactorError::Reaction(error)),
            Err(ReactDispatchError::Reaction(ReactError::Retry(error))) => if self.exhausted(
                retry_index,
            ) {
                r == ReactStep::<SE, CE, E>::Fail(ReactorError::Reaction(error))
            } else {
                r matches ReactStep::RetryAfter(delay) && delay.spec_nanos() == delay_before(
                    self,
                    retry_index as nat,
                )
            },
        }
    }

    /// Whether a retry follows a reaction that has been retried `retry_index` times and
    /// came to `outcome`.
    pub open spec fn retries<SE, E>(
        self,
        retry_index: usize,
        outcome: Result<(), ReactDispatchError<SE, E>>,
    ) -> bool {
        outcome matches Err(ReactDispatchError::Reaction(ReactError::Retry(_)))
            && !self.exhausted(retry_index)
    }

    /// Decides what follows a reaction that has been retried `retry_index` times.
    ///
    /// Only a retryable failure is retried, and only while the policy allows it.
    pub fn after_reaction<SE, CE, E>(
        &self,
        retry_index: usize,
        outcome: Result<(), ReactDispatchError<SE, E>>,
    ) -> (r: ReactStep<SE, CE, E>)
        ensures
            self.follows(retry_index, outcome, r),
    {
        match outcome {
            Ok(()) => ReactStep::Processed,
            Err(ReactDispatchError::EventDecode(error)) => ReactStep::Fail(
                ReactorError::from(SubscriptionError::EventDecode(error)),
            ),
            Err(ReactDispatchError::Reaction(error)) => {
                if let ReactError::Fatal(error) = error {
                    return ReactStep::Fail(ReactorError::Reaction(error));
                }
                let exhausted: bool = match self.max_retries {
                    Some(limit) => retry_index >= limit,
                    None => false,
                };
                if exhausted {
                    ReactStep::Fail(ReactorError::Reaction(error.into_inner()))
                } else {
                    ReactStep::RetryAfter(self.next_delay(retry_index))
                }
            },
        }
    }
}

/// The retries of the reaction to one event.
pub struct Retries {
    /// How often the reaction has been retried.
    pub retried: usize,
}

impl Retries {
    /// Of a reaction that has not been tried yet.
    #[must_use]
    pub fn new() -> (r: Self)
        ensures
            r.retried == 0,
    {
        Retries { retried: 0 }
    }

    /// Whether the count has room for what follows the reaction; only a retry takes any.
    pub fn has_room<SE, E>(
        &self,
        policy: &RetryPolicy,
        outcome: &Result<(), ReactDispatchError<SE, E>>,
    ) -> (r: bool)
        ensures
            r == (policy.retries(self.retried, *outcome) ==> self.retried < usize::MAX),
    {
        match outcome {
            Err(ReactDispatchError::Reaction(ReactError::Retry(_))) => match policy.max_retries {
                Some(limit) => self.retried >= limit || self.retried < usize::MAX,
                None => self.retried < usize::MAX,
            },
            _ => true,
        }
    }

    /// Decides what follows the reaction, and counts a retry where one follows.
    pub fn after_reaction<SE, CE, E>(
        &mut self,
        policy: &RetryPolicy,
        outcome: Result<(), ReactDispatchError<SE, E>>,
    ) -> (r: ReactStep<SE, CE, E>)
        requires
            policy.retries(old(self).retried, outcome) ==> old(self).retried < usize::MAX,
        ensures
            policy.follows(old(self).retried, outcome, r),
            final(self).retried == old(self).retried + if r is RetryAfter {
                1int
            } else {
                0
            },
    {
        let step: ReactStep<SE, CE, E> = policy.after_reaction(self.retried, outcome);
        if let ReactStep::RetryAfter(_) = &step {
            self.retried = self.retried + 1;
        }
        step
    }
}

/// Delays never shrink from one retry to the next and never exceed the policy's
/// longest one; the first is the initial delay, if that is not longer.
pub proof fn delays_back_off(policy: RetryPolicy, retry_index: nat)
    requires
        policy.initial_delay.spec_nanos() <= MAX_NANOS,
    ensures
        delay_before(policy, retry_index) <= delay_before(policy, retry_index + 1),
        delay_before(policy, retry_index) <= policy.max_delay.spec_nanos(),
        delay_before(policy, 0) == at_most(
            policy.initial_delay.spec_nanos(),
            policy.max_delay.spec_nanos(),
        ),
{
    vstd::arithmetic::power2::lemma2_to64();
    if retry_index < 32 {
        vstd::arithmetic::power2::lemma_pow2_strictly_increases(retry_index, retry_index + 1);
        if retry_index < 31 {
            vstd::arithmetic::power2::lemma_pow2_strictly_increases(retry_index, 31);
        }
    }
    assert(backoff(retry_index) <= backoff(retry_index + 1));
    let initial = policy.initial_delay.spec_nanos();
    let (small, large) = (backoff(retry_index), backoff(retry_index + 1));
    assert(initial * small <= initial * large) by (nonlinear_arith)
        requires
            initial >= 0,
            small <= large,
    ;
    assert(backoff(0) == 1);
}

/// A delay doubles from one retry to the next as long as neither limit is reached.
pub proof fn delays_double(policy: RetryPolicy, retry_index: nat)
    requires
        retry_index + 1 < 32,
        delay_before(policy, retry_index + 1) < policy.max_delay.spec_nanos(),
        delay_before(policy, retry_index + 1) < MAX_NANOS,
    ensures
        delay_before(policy, retry_index + 1) == 2 * delay_before(policy, retry_index),
{
    let initial = policy.initial_delay.spec_nanos();
    vstd::arithmetic::power2::lemma_pow2_unfold(retry_index + 1);
    vstd::arithmetic::power2::lemma_pow2_pos(retry_index);
    let factor = backoff(retry_index);
    assert(backoff(retry_index + 1) == 2 * factor);
    assert(initial * (2 * factor) == 2 * (initial * factor)) by (nonlinear_arith);
    assert(initial * factor >= 0) by (nonlinear_arith)
        requires
            initial >= 0,
            factor >= 0,
    ;
}

/// Handler for events of one type.
pub struct DomainReaction<E>(PhantomData<E>);

impl<E> DomainReaction<E> {
    /// The only value of this type.
    pub closed spec fn only() -> Self {
        DomainReaction(PhantomData)
    }

    /// Handler for events of type `E`.
    #[must_use]
    pub fn new() -> (r: Self)
        ensures
            r == Self::only(),
    {
        DomainReaction(PhantomData)
    }

    /// Decodes the event to react to.
    ///
    /// # Errors
    ///
    /// Returns [`ReactDispatchError::EventDecode`] if that fails.
    pub fn decode<S: EventStore, F>(
        &self,
        stored: &StoredEvent<S::Id, S::Position, S::Data, S::Metadata>,
        store: &S,
    ) -> (r: Result<E, ReactDispatchError<S::Error, F>>) where E: DecodeEvent<S>,
        ensures
            match r {
                Ok(event) => E::decoded(*stored) == Some(event),
                Err(ReactDispatchError::EventDecode(EventDecodeError::Store(cause))) => {
                    &&& E::decoded(*stored) is None
                    &&& E::undecodable(*stored, cause)
                },
                Err(_) => false,
            },
    {
        match E::decode_event(store, stored) {
            Ok(event) => Ok(event),
            Err(error) => Err(ReactDispatchError::EventDecode(EventDecodeError::Store(error))),
        }
    }

    /// Decodes a stored event and reacts to it.
    ///
    /// # Errors
    ///
    /// Returns [`ReactDispatchError`] if either fails; what cannot be decoded gets no
    /// reaction.
    pub fn dispatch<S: EventStore, R>(
        &self,
        reactor: &R,
        stored: &StoredEvent<S::Id, S::Position, S::Data, S::Metadata>,
        store: &S,
    ) -> (r: Result<(), ReactDispatchError<S::Error, R::Failure>>) where
        E: DecodeEvent<S>,
        R: React<E, Id = S::Id, Metadata = S::Metadata>,

        ensures
            match r {
                Ok(done) => E::decoded(*stored) matches Some(event) && reacts(
                    *reactor,
                    *stored,
                    event,
                    Ok(done),
                ),
                Err(ReactDispatchError::Reaction(error)) => E::decoded(*stored) matches Some(event)
                    && reacts(*reactor, *stored, event, Err(error)),
                Err(ReactDispatchError::EventDecode(EventDecodeError::Store(cause))) => {
                    &&& E::decoded(*stored) is None
                    &&& E::undecodable(*stored, cause)
                },
                Err(ReactDispatchError::EventDecode(_)) => false,
            },
    {
        let event: E = match self.decode(stored, store) {
            Ok(event) => event,
            Err(error) => {
                return Err(error);
            },
        };
        let answer: Result<(), ReactError<R::Failure>> = reactor.react(
            EventContext::from_stored(stored),
            &event,
        );
        assert(reacts(*reactor, *stored, event, answer));
        match answer {
            Ok(done) => Ok(done),
            Err(error) => Err(ReactDispatchError::Reaction(error)),
        }
    }
}

/// Handler for the events of one sum type.
pub struct SumReaction<E>(PhantomData<E>);

impl<E> SumReaction<E> {
    /// The only value of this type.
    pub closed spec fn only() -> Self {
        SumReaction(PhantomData)
    }

    /// Handler for events of the sum type `E`.
    #[must_use]
    pub fn new() -> (r: Self)
        ensures
            r == Self::only(),
    {
        SumReaction(PhantomData)
    }

    /// Decodes the event to react to.
    ///
    /// # Errors
    ///
    /// Returns [`ReactDispatchError::EventDecode`] if that fails.
    pub fn decode<S: EventStore, F>(
        &self,
        stored: &StoredEvent<S::Id, S::Position, S::Data, S::Metadata>,
        store: &S,
    ) -> (r: Result<E, ReactDispatchError<S::Error, F>>) where E: ProjectionEvent<S>,
        ensures
            match r {
                Ok(event) => E::restored(*stored) == Some(event),
                Err(ReactDispatchError::EventDecode(EventDecodeError::Store(cause))) => {
                    &&& E::restored(*stored) is None
                    &&& crate::event::is_kind(E::EVENT_KINDS@, stored.kind@)
                    &&& E::unrestorable(*stored, cause)
                },
                Err(
                    ReactDispatchError::EventDecode(
                        EventDecodeError::UnknownKind { kind, expected },
                    ),
                ) => {
                    &&& E::restored(*stored) is None
                    &&& !crate::event::is_kind(E::EVENT_KINDS@, stored.kind@)
                    &&& kind@ == stored.kind@
                    &&& expected@ == E::EVENT_KINDS@
                },
                Err(ReactDispatchError::Reaction(_)) => false,
            },
    {
        match E::from_stored(stored, store) {
            Ok(event) => Ok(event),
            Err(error) => Err(ReactDispatchError::EventDecode(error)),
        }
    }

    /// Restores a stored event and reacts to it.
    ///
    /// # Errors
    ///
    /// Returns [`ReactDispatchError`] if either fails; what cannot be restored gets no
    /// reaction.
    pub fn dispatch<S: EventStore, R>(
        &self,
        reactor: &R,
        stored: &StoredEvent<S::Id, S::Position, S::Data, S::Metadata>,
        store: &S,
    ) -> (r: Result<(), ReactDispatchError<S::Error, R::Failure>>) where
        E: ProjectionEvent<S>,
        R: React<E, Id = S::Id, Metadata = S::Metadata>,

        ensures
            match r {
                Ok(done) => E::restored(*stored) matches Some(event) && reacts(
                    *reactor,
                    *stored,
                    event,
                    Ok(done),
                ),
                Err(ReactDispatchError::Reaction(error)) => E::restored(*stored) matches Some(event)
                    && reacts(*reactor, *stored, event, Err(error)),
                Err(ReactDispatchError::EventDecode(EventDecodeError::Store(cause))) => {
                    &&& E::restored(*stored) is None
                    &&& crate::event::is_kind(E::EVENT_KINDS@, stored.kind@)
                    &&& E::unrestorable(*stored, cause)
                },
                Err(
                    ReactDispatchError::EventDecode(
                        EventDecodeError::UnknownKind { kind, expected },
                    ),
                ) => {
                    &&& E::restored(*stored) is None
                    &&& !crate::event::is_kind(E::EVENT_KINDS@, stored.kind@)
                    &&& kind@ == stored.kind@
                    &&& expected@ == E::EVENT_KINDS@
                },
            },
    {
        let event: E = match self.decode(stored, store) {
            Ok(event) => event,
            Err(error) => {
                return Err(error);
            },
        };
        let answer: Result<(), ReactError<R::Failure>> = reactor.react(
            EventContext::from_stored(stored),
            &event,
        );
        assert(reacts(*reactor, *stored, event, answer));
        match answer {
            Ok(done) => Ok(done),
            Err(error) => Err(ReactDispatchError::Reaction(error)),
        }
    }
}

/// What an event asks of a reactor.
pub enum Work<'a, H> {
    /// To react with this handler.
    React(&'a H),
    /// Nothing: it counts as processed.
    Nothing,
}

/// What `stored` asks of a reactor with `handlers`: nothing, where no handler is
/// registered for its kind. Filters can be wider than the set of handlers.
pub fn work_of<'a, H, Id, Pos, Data, M>(
    handlers: &'a Handlers<H>,
    stored: &StoredEvent<Id, Pos, Data, M>,
) -> (r: Work<'a, H>)
    ensures
        match r {
            Work::React(handler) => handlers.handler_of(stored.kind@) == Some(*handler),
            Work::Nothing => handlers.handler_of(stored.kind@) is None,
        },
{
    match handlers.get(stored.kind()) {
        Some(handler) => Work::React(handler),
        None => Work::Nothing,
    }
}

/// Combined filter configuration and handlers of a reactor.
pub struct ReactFilters<S: EventStore, R, H> {
    /// Which events to load.
    pub specs: Vec<EventFilter<S::Id, S::Position>>,
    /// How to react to them.
    pub handlers: Handlers<H>,
    /// The reactor.
    pub reactor: PhantomData<R>,
}

/// Whether `r` is `filters` with `selectors` added and, for `kinds`, the handler
/// that `source` converts into.
pub open spec fn subscribes<S: EventStore, R, H: From<T>, T>(
    filters: ReactFilters<S, R, H>,
    selectors: Seq<Selector<<S::Id as StreamId>::Key, S::Position>>,
    kinds: Seq<&'static str>,
    source: T,
    r: ReactFilters<S, R, H>,
) -> bool {
    &&& crate::store::selectors(r.specs@) == crate::store::selectors(filters.specs@) + selectors
    &&& exists|handler: H| #[trigger]
        call_ensures(<H as From<T>>::from, (source,), handler) && crate::projection::registers(
            filters.handlers,
            r.handlers,
            kinds,
            handler,
        )
}

impl<S: EventStore, R, H> Default for ReactFilters<S, R, H> {
    fn default() -> (r: Self)
        ensures
            r.specs@.len() == 0,
            forall|kind: Seq<char>| (#[trigger] r.handlers.handler_of(kind)) is None,
    {
        Self::new()
    }
}

impl<S: EventStore, R, H> ReactFilters<S, R, H> {
    /// Create an empty filter set.
    #[must_use]
    pub fn new() -> (r: Self)
        ensures
            r.specs@.len() == 0,
            forall|kind: Seq<char>| (#[trigger] r.handlers.handler_of(kind)) is None,
    {
        ReactFilters { specs: Vec::new(), handlers: Handlers::new(), reactor: PhantomData }
    }

    /// Subscribe to a specific event type globally.
    #[must_use]
    pub fn event<E>(self) -> (r: Self) where E: DomainEvent, H: From<DomainReaction<E>>,
        ensures
            subscribes(
                self,
                crate::projection::every_of(seq![E::KIND]),
                seq![E::KIND],
                DomainReaction::<E>::only(),
                r,
            ),
    {
        let mut filters: Self = self;
        let kinds: [&'static str; 1] = [E::KIND];
        push_every(&mut filters.specs, &kinds);
        filters.handlers.insert(&kinds, H::from(DomainReaction::new()));
        assert(kinds@ == seq![E::KIND]);
        filters
    }

    /// Subscribe to all event kinds supported by a [`ProjectionEvent`] sum type.
    #[must_use]
    pub fn events<E>(self) -> (r: Self) where E: ProjectionEvent<S>, H: From<SumReaction<E>>,
        ensures
            subscribes(
                self,
                crate::projection::every_of(E::EVENT_KINDS@),
                E::EVENT_KINDS@,
                SumReaction::<E>::only(),
                r,
            ),
    {
        let mut filters: Self = self;
        push_every(&mut filters.specs, E::EVENT_KINDS);
        filters.handlers.insert(E::EVENT_KINDS, H::from(SumReaction::new()));
        filters
    }

    /// Subscribe to a specific event type from a specific aggregate instance.
    ///
    /// The instance is named by the aggregate's own id type, projected onto the
    /// store's raw key via [`StorageKey`].
    #[must_use]
    pub fn event_for<A, E>(self, aggregate_id: &A::Id) -> (r: Self) where
        A: Aggregate,
        A::Id: StorageKey<S::Id>,
        E: DomainEvent,
        H: From<DomainReaction<E>>,

        ensures
            exists|key: S::Id| #[trigger]
                call_ensures(
                    <A::Id as StorageKey<S::Id>>::to_key,
                    (aggregate_id,),
                    key,
                ) && subscribes(
                    self,
                    crate::projection::within_of(seq![E::KIND], A::KIND@, key.key()),
                    seq![E::KIND],
                    DomainReaction::<E>::only(),
                    r,
                ),
    {
        let mut filters: Self = self;
        let key: S::Id = aggregate_id.to_key();
        let kinds: [&'static str; 1] = [E::KIND];
        push_within(&mut filters.specs, &kinds, A::KIND, &key);
        filters.handlers.insert(&kinds, H::from(DomainReaction::new()));
        assert(kinds@ == seq![E::KIND]);
        filters
    }

    /// Subscribe to all events from a specific aggregate instance.
    ///
    /// The instance is named as for [`event_for`](Self::event_for).
    #[must_use]
    pub fn events_for<A>(self, aggregate_id: &A::Id) -> (r: Self) where
        A: Aggregate,
        A::Id: StorageKey<S::Id>,
        A::Event: ProjectionEvent<S>,
        H: From<SumReaction<A::Event>>,

        ensures
            exists|key: S::Id| #[trigger]
                call_ensures(
                    <A::Id as StorageKey<S::Id>>::to_key,
                    (aggregate_id,),
                    key,
                ) && subscribes(
                    self,
                    crate::projection::within_of(
                        <A::Event as ProjectionEvent<S>>::EVENT_KINDS@,
                        A::KIND@,
                        key.key(),
                    ),
                    <A::Event as ProjectionEvent<S>>::EVENT_KINDS@,
                    SumReaction::<A::Event>::only(),
                    r,
                ),
    {
        let mut filters: Self = self;
        let key: S::Id = aggregate_id.to_key();
        let kinds: &'static [&'static str] = <A::Event as ProjectionEvent<S>>::EVENT_KINDS;
        push_within(&mut filters.specs, kinds, A::KIND, &key);
        filters.handlers.insert(kinds, H::from(SumReaction::new()));
        filters
    }

    /// The filters, each for what comes after `after`, and the handlers.
    pub fn into_event_filters(self, after: Option<&S::Position>) -> (r: (
        Vec<EventFilter<S::Id, S::Position>>,
        Handlers<H>,
    ))
        ensures
            repositioned(
                crate::store::selectors(self.specs@),
                match after {
                    Some(position) => Some(*position),
                    None => None,
                },
                crate::store::selectors(r.0@),
            ),
            r.1 == self.handlers,
    {
        let ReactFilters { specs, handlers, reactor: _ } = self;
        let ghost given = specs@;
        let ghost bound = match after {
            Some(position) => Some(*position),
            None => None,
        };
        let mut filters: Vec<EventFilter<S::Id, S::Position>> = Vec::new();
        for item in iter: specs
            invariant
                iter.seq() == given,
                filters@.len() == iter.index(),
                bound == match after {
                    Some(position) => Some(*position),
                    None => None,
                },
                forall|i: int|
                    0 <= i < filters@.len() ==> moved(
                        given[i].selector(),
                        bound,
                        (#[trigger] filters@[i]).selector(),
                    ),
        {
            let after_position: Option<S::Position> = match after {
                Some(position) => Some(position.clone()),
                None => None,
            };
            filters.push(
                EventFilter {
                    event_kind: item.event_kind,
                    aggregate_kind: item.aggregate_kind,
                    aggregate_id: item.aggregate_id,
                    after_position,
                },
            );
        }
        (filters, handlers)
    }
}

/// Whether `r` asks for what `filter` asks for, but after `after` and nothing else.
pub open spec fn moved<Key, Pos: Clone>(
    filter: Selector<Key, Pos>,
    after: Option<Pos>,
    r: Selector<Key, Pos>,
) -> bool {
    &&& r.event_kind == filter.event_kind
    &&& r.aggregate_kind == filter.aggregate_kind
    &&& r.aggregate_id == filter.aggregate_id
    &&& match (after, r.after_position) {
        (Some(position), Some(copy)) => cloned(position, copy),
        (None, None) => true,
        _ => false,
    }
}

/// Whether each of `r` asks for what the one of `filters` at its place asks for, but
/// after `after` and nothing else.
pub open spec fn repositioned<Key, Pos: Clone>(
    filters: Seq<Selector<Key, Pos>>,
    after: Option<Pos>,
    r: Seq<Selector<Key, Pos>>,
) -> bool {
    &&& r.len() == filters.len()
    &&& forall|i: int| 0 <= i < r.len() ==> moved(filters[i], after, #[trigger] r[i])
}

/// State of a running reactor.
pub struct ReactorLoop<S: SubscribableStore> {
    /// Where catch-up ends, if there is anything to catch up with.
    pub catchup_target: Option<S::Checkpoint>,
    /// Checkpoint of the last event that was reacted to.
    pub last_checkpoint: Option<S::Checkpoint>,
    /// Global progress: the largest of all matching checkpoints and frontiers.
    pub observed: Option<S::Checkpoint>,
    /// Number of events since a checkpoint was last stored.
    pub events_since_checkpoint: u64,
    /// Whether catch-up is complete.
    pub caught_up: bool,
}

/// What to do with a delivery.
pub enum Receipt<S: SubscribableStore> {
    /// It was seen before: nothing.
    Skip,
    /// It is a frontier: publish the global progress, where it moved.
    Observed(Option<S::Checkpoint>),
    /// It is an event: react to it.
    React(Checkpointed<S>),
}

impl<S: SubscribableStore> ReactorLoop<S> {
    /// A reactor that resumes at `from`.
    ///
    /// It is caught up from the start when there is nothing to replay.
    pub fn resume(
        from: Option<S::Checkpoint>,
        catchup_target: Option<S::Checkpoint>,
    ) -> (r: Self)
        requires
            crate::order::comparable::<S::Checkpoint>(),
        ensures
            r.catchup_target == catchup_target,
            r.last_checkpoint == from,
            match from {
                Some(checkpoint) => r.observed matches Some(copy) && cloned(checkpoint, copy),
                None => r.observed is None,
            },
            r.events_since_checkpoint == 0,
            r.caught_up == crate::order::cursor_at_least(from, catchup_target),
    {
        let observed: Option<S::Checkpoint> = match &from {
            Some(checkpoint) => Some(checkpoint.clone()),
            None => None,
        };
        let caught_up: bool = has_reached(&from, &catchup_target);
        ReactorLoop {
            catchup_target,
            last_checkpoint: from,
            observed,
            events_since_checkpoint: 0,
            caught_up,
        }
    }

    /// Whether receiving `delivered` takes this state to `after` and comes to `r`.
    pub open spec fn receives(
        self,
        delivered: Result<Delivery<S>, S::Error>,
        after: Self,
        r: Result<Receipt<S>, RunnerError<S::Error>>,
    ) -> bool {
        match delivered {
            Err(error) => {
                &&& after == self
                &&& r matches Err(SubscriptionError::Store(cause)) && cause == error
            },
            Ok(Delivery::Frontier(frontier)) => {
                &&& after == (ReactorLoop {
                    observed: after.observed,
                    ..self
                })
                &&& crate::subscription::observes(
                    self.observed,
                    frontier,
                    after.observed,
                )
                &&& r matches Ok(Receipt::Observed(published)) && published is Some
                    == crate::subscription::moves(self.observed, frontier) && (
                published matches Some(copy) ==> cloned(after.observed->0, copy))
            },
            Ok(Delivery::Event(item)) => {
                &&& after == self
                &&& if crate::subscription::already_seen(
                    self.last_checkpoint,
                    item.checkpoint,
                ) {
                    r matches Ok(Receipt::Skip)
                } else {
                    r matches Ok(Receipt::React(received)) && received == item
                }
            },
        }
    }

    /// Decides what to do with one item of the delivery stream: events seen before
    /// are skipped, frontiers move the global progress and nothing else.
    ///
    /// # Errors
    ///
    /// Returns [`SubscriptionError::Store`] if the stream failed.
    pub fn receive(&mut self, delivered: Result<Delivery<S>, S::Error>) -> (r: Result<
        Receipt<S>,
        RunnerError<S::Error>,
    >)
        requires
            crate::order::comparable::<S::Checkpoint>(),
        ensures
            old(self).receives(delivered, *final(self), r),
    {
        match delivered {
            Err(error) => Err(SubscriptionError::Store(error)),
            Ok(Delivery::Frontier(frontier)) => Ok(
                Receipt::Observed(advance_observed(&mut self.observed, &frontier)),
            ),
            Ok(Delivery::Event(item)) => {
                if let Some(last) = &self.last_checkpoint {
                    if item.checkpoint <= *last {
                        return Ok(Receipt::Skip);
                    }
                }
                Ok(Receipt::React(item))
            },
        }
    }

    /// Whether noting the reaction to the event at `checkpoint` takes this state to
    /// `after` and reports `r`.
    pub open spec fn processes(
        self,
        checkpoint: S::Checkpoint,
        after: Self,
        r: Progress<S::Checkpoint>,
    ) -> bool {
        &&& after.catchup_target == self.catchup_target
        &&& after.last_checkpoint == Some(checkpoint)
        &&& after.events_since_checkpoint == self.events_since_checkpoint + 1
        &&& crate::subscription::observes(self.observed, checkpoint, after.observed)
        &&& after.caught_up == (self.caught_up || crate::order::cursor_at_least(
            Some(checkpoint),
            self.catchup_target,
        ))
        &&& r.applied
        &&& r.ready == (after.caught_up && !self.caught_up)
        &&& r.observed is Some == crate::subscription::moves(self.observed, checkpoint)
        &&& r.observed matches Some(published) ==> cloned(after.observed->0, published)
        &&& r.offer matches Some(due) && due.events_since_snapshot
            == after.events_since_checkpoint && cloned(checkpoint, due.checkpoint)
    }

    /// Takes note that the event at `checkpoint` was reacted to. The checkpoint is
    /// offered to the checkpoint store after every event.
    pub fn processed(&mut self, checkpoint: S::Checkpoint) -> (r: Progress<S::Checkpoint>)
        requires
            crate::order::comparable::<S::Checkpoint>(),
            old(self).events_since_checkpoint < u64::MAX,
        ensures
            old(self).processes(checkpoint, *final(self), r),
    {
        let observed: Option<S::Checkpoint> = advance_observed(&mut self.observed, &checkpoint);
        self.last_checkpoint = Some(checkpoint);
        let mut ready: bool = false;
        if !self.caught_up && has_reached(&self.last_checkpoint, &self.catchup_target) {
            self.caught_up = true;
            ready = true;
        }
        self.events_since_checkpoint = self.events_since_checkpoint + 1;
        let offer: Option<SnapshotDue<S::Checkpoint>> = self.pending_checkpoint();
        Progress { applied: true, observed, ready, offer }
    }

    /// The checkpoint to be offered now: none while no events are pending.
    pub fn pending_checkpoint(&self) -> (r: Option<SnapshotDue<S::Checkpoint>>)
        ensures
            match (self.last_checkpoint, r) {
                (Some(checkpoint), Some(due)) => {
                    &&& self.events_since_checkpoint > 0
                    &&& due.events_since_snapshot == self.events_since_checkpoint
                    &&& cloned(checkpoint, due.checkpoint)
                },
                (Some(_), None) => self.events_since_checkpoint == 0,
                (None, Some(_)) => false,
                (None, None) => true,
            },
    {
        if self.events_since_checkpoint > 0 {
            if let Some(checkpoint) = &self.last_checkpoint {
                return Some(
                    SnapshotDue {
                        events_since_snapshot: self.events_since_checkpoint,
                        checkpoint: checkpoint.clone(),
                    },
                );
            }
        }
        None
    }

    /// Takes note of the answer to an offer: only a stored checkpoint starts the
    /// count of events anew, so a policy that batches sees the count grow.
    pub fn checkpoint_answered(&mut self, stored: bool)
        ensures
            *final(self) == (ReactorLoop {
                events_since_checkpoint: if stored {
                    0
                } else {
                    old(self).events_since_checkpoint
                },
                ..*old(self)
            }),
    {
        if stored {
            self.events_since_checkpoint = 0;
        }
    }
}

/// Where a reactor resumes, from what came of loading its checkpoint.
///
/// # Errors
///
/// Returns [`ReactorError::Checkpoint`] if it could not be loaded.
pub fn load_checkpoint<Cp, SE, CE, RE>(loaded: Result<Option<Snapshot<Cp, ()>>, CE>) -> (r: Result<
    Option<Cp>,
    ReactorError<SE, CE, RE>,
>)
    ensures
        r == match loaded {
            Ok(Some(snapshot)) => Ok(Some(snapshot.position)),
            Ok(None) => Ok(None),
            Err(error) => Err(ReactorError::<SE, CE, RE>::Checkpoint(error)),
        },
{
    match loaded {
        Ok(Some(snapshot)) => Ok(Some(snapshot.position)),
        Ok(None) => Ok(None),
        Err(error) => Err(ReactorError::Checkpoint(error)),
    }
}

/// What the answer to a checkpoint offer means: whether it was stored.
///
/// # Errors
///
/// Returns [`ReactorError::Checkpoint`] if the offer failed.
pub fn checkpoint_outcome<SE, CE, RE>(offered: Result<SnapshotOffer, CE>) -> (r: Result<
    bool,
    ReactorError<SE, CE, RE>,
>)
    ensures
        r == match offered {
            Ok(offer) => Ok(offer == SnapshotOffer::Stored),
            Err(error) => Err(ReactorError::<SE, CE, RE>::Checkpoint(error)),
        },
{
    match offered {
        Ok(SnapshotOffer::Stored) => Ok(true),
        Ok(SnapshotOffer::Declined) => Ok(false),
        Err(error) => Err(ReactorError::Checkpoint(error)),
    }
}

/// Offers a checkpoint, unless no event was processed since the last one, and
/// reports whether it was stored.
///
/// # Errors
///
/// Returns [`ReactorError::Checkpoint`] if the offer failed.
pub fn offer_checkpoint<SE, CE, RE, Offer: FnOnce() -> Result<SnapshotOffer, CE>>(
    events_since_checkpoint: u64,
    offer: Offer,
) -> (r: Result<bool, ReactorError<SE, CE, RE>>)
    requires
        events_since_checkpoint > 0 ==> offer.requires(()),
    ensures
        events_since_checkpoint == 0 ==> r == Ok::<bool, ReactorError<SE, CE, RE>>(false),
        events_since_checkpoint > 0 ==> exists|offered: Result<SnapshotOffer, CE>| #[trigger]
            offer.ensures((), offered) && r == match offered {
                Ok(answer) => Ok(answer == SnapshotOffer::Stored),
                Err(error) => Err(ReactorError::<SE, CE, RE>::Checkpoint(error)),
            },
{
    if events_since_checkpoint == 0 {
        return Ok(false);
    }
    checkpoint_outcome(offer())
}

/// Why a reactor that never got ready failed to start.
pub fn startup_failure<SE, CE, RE>(
    ended: TaskEnd<Result<(), ReactorError<SE, CE, RE>>>,
) -> (r: ReactorError<SE, CE, RE>)
    ensures
        r == match ended {
            TaskEnd::Returned(Ok(())) => ReactorError::Runner(
                SubscriptionError::CatchupInterrupted,
            ),
            TaskEnd::Returned(Err(error)) => error,
            TaskEnd::Panicked => ReactorError::Runner(SubscriptionError::TaskPanicked),
        },
{
    match ended {
        TaskEnd::Returned(Ok(())) => ReactorError::Runner(SubscriptionError::CatchupInterrupted),
        TaskEnd::Returned(Err(error)) => error,
        TaskEnd::Panicked => ReactorError::Runner(SubscriptionError::TaskPanicked),
    }
}

/// What stopping a reactor returns; one without a task left has stopped.
///
/// # Errors
///
/// Returns the reactor's error if it failed before being stopped.
pub fn stop_outcome<SE, CE, RE>(
    ended: Option<TaskEnd<Result<(), ReactorError<SE, CE, RE>>>>,
) -> (r: Result<(), ReactorError<SE, CE, RE>>)
    ensures
        r == match ended {
            Some(TaskEnd::Returned(outcome)) => outcome,
            Some(TaskEnd::Panicked) => Err(ReactorError::Runner(SubscriptionError::TaskPanicked)),
            None => Ok(()),
        },
{
    match ended {
        Some(TaskEnd::Returned(outcome)) => outcome,
        Some(TaskEnd::Panicked) => Err(ReactorError::Runner(SubscriptionError::TaskPanicked)),
        None => Ok(()),
    }
}

/// Builder for configuring and starting a reactor.
pub struct ReactorBuilder<S: EventStore, R: Reactor, CS> {
    /// Where the events come from.
    pub store: S,
    /// What reacts to them.
    pub reactor: R,
    /// Where progress is persisted.
    pub checkpoints: CS,
    /// How retryable failures are retried.
    pub retry_policy: RetryPolicy,
}

impl<S: EventStore, R: Reactor, CS> ReactorBuilder<S, R, CS> {
    /// A builder with the default retry policy.
    pub fn new(store: S, reactor: R, checkpoints: CS) -> (r: Self)
        ensures
            r.store == store,
            r.reactor == reactor,
            r.checkpoints == checkpoints,
            call_ensures(<RetryPolicy as Default>::default, (), r.retry_policy),
    {
        ReactorBuilder { store, reactor, checkpoints, retry_policy: RetryPolicy::default() }
    }

    /// Persist reactor progress with an explicit checkpoint store.
    pub fn with_checkpoints<CS2: SnapshotStore<String>>(self, store: CS2) -> (r: ReactorBuilder<
        S,
        R,
        CS2,
    >)
        ensures
            r.store == self.store,
            r.reactor == self.reactor,
            r.checkpoints == store,
            r.retry_policy == self.retry_policy,
    {
        ReactorBuilder {
            store: self.store,
            reactor: self.reactor,
            checkpoints: store,
            retry_policy: self.retry_policy,
        }
    }

    /// Configure retry/backoff for [`ReactError::Retry`].
    #[must_use]
    pub fn with_retry(self, policy: RetryPolicy) -> (r: Self)
        ensures
            r == (ReactorBuilder { retry_policy: policy, ..self }),
    {
        let mut builder: Self = self;
        builder.retry_policy = policy;
        builder
    }
}

} // verus!
