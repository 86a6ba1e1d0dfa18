//! Test utilities for event-sourced aggregates.
//!
//! [`TestFramework`] tests an aggregate in isolation, given earlier events, when a
//! command is executed; [`RepositoryTestExt`] puts events into a repository without
//! going through commands.

use std::marker::PhantomData;

use nonempty::NonEmpty;
use serde_json::Value;
use vstd::prelude::*;

use crate::{
    aggregate::{Aggregate, Handle, HandleCreate},
    concurrency::ConcurrencyStrategy,
    message::{prefixed_message, Message},
    repository::{
        apply_all,
        inmemory::{encode_all, EncodeEvent},
        Repository,
    },
    store::{
        inmemory::{EncodedEvent, InMemoryError, InMemoryEvent, Store},
        CommitError, Committed, EventStore, StreamId,
    },
};

pub mod laws;

verus! {

/// Test framework for aggregate testing using a given-when-then pattern.
pub struct TestFramework<A: Aggregate> {
    aggregate: PhantomData<A>,
}

/// Whether `state` is a default with `events` applied to it.
pub open spec fn from_default<A: Aggregate + Default>(events: Seq<A::Event>, state: A) -> bool {
    exists|initial: A| #[trigger]
        call_ensures(<A as Default>::default, (), initial) && state == crate::aggregate::replay(
            initial,
            events,
        )
}

impl<A: Aggregate> Default for TestFramework<A> {
    fn default() -> (r: Self)
        ensures
            r == Self::only(),
    {
        Self::new()
    }
}

impl<A: Aggregate> TestFramework<A> {
    /// The only value of this type.
    pub closed spec fn only() -> Self {
        TestFramework { aggregate: PhantomData }
    }

    /// Create a new test framework instance.
    #[must_use]
    pub fn new() -> (r: Self)
        ensures
            r == Self::only(),
    {
        TestFramework { aggregate: PhantomData }
    }

    /// Start a test scenario with no previous events.
    ///
    /// The aggregate will be initialized with its default state.
    #[must_use]
    pub fn given_no_previous_events(self) -> (r: TestExecutor<A>) where A: Default
        ensures
            call_ensures(<A as Default>::default, (), r.aggregate),
    {
        TestExecutor { aggregate: A::default() }
    }

    /// Start a test scenario with previous events already applied.
    #[must_use]
    pub fn given(self, events: &[A::Event]) -> (r: TestExecutor<A>) where A: Default
        ensures
            from_default(events@, r.aggregate),
    {
        let mut aggregate: A = A::default();
        let ghost initial = aggregate;
        let mut i: usize = 0;
        while i < events.len()
            invariant
                i <= events@.len(),
                call_ensures(<A as Default>::default, (), initial),
                aggregate == crate::aggregate::replay(initial, events@.take(i as int)),
            decreases events@.len() - i,
        {
            aggregate.apply(&events[i]);
            assert(events@.take(i + 1).drop_last() == events@.take(i as int));
            i = i + 1;
        }
        assert(events@.take(events@.len() as int) == events@);
        TestExecutor { aggregate }
    }

    /// Execute a creation command.
    #[must_use]
    pub fn when_create<C>(self, command: &C) -> (r: TestResult<A>) where A: HandleCreate<C>
        ensures
            exists|handled: Result<Vec<A::Event>, A::HandleCreateError>| #[trigger]
                call_ensures(<A as HandleCreate<C>>::handle_create, (command,), handled)
                    && comes_to(handled, r.result),
    {
        TestResult { result: convert(A::handle_create(command)) }
    }
}

/// Executor that holds the aggregate state and waits for a command.
pub struct TestExecutor<A: Aggregate> {
    /// The state.
    pub aggregate: A,
}

/// Whether a handler's answer `handled` comes to `r`: the same events, or the error
/// converted.
pub open spec fn comes_to<E, HE: Into<AE>, AE>(
    handled: Result<Vec<E>, HE>,
    r: Result<Vec<E>, AE>,
) -> bool {
    match handled {
        Ok(events) => r == Ok::<Vec<E>, AE>(events),
        Err(cause) => r matches Err(error) && call_ensures(
            <HE as Into<AE>>::into,
            (cause,),
            error,
        ),
    }
}

fn convert<E, HE: Into<AE>, AE>(handled: Result<Vec<E>, HE>) -> (r: Result<Vec<E>, AE>)
    ensures
        comes_to(handled, r),
{
    match handled {
        Ok(events) => Ok(events),
        Err(cause) => Err(cause.into()),
    }
}

impl<A: Aggregate> TestExecutor<A> {
    /// Execute a command against the aggregate.
    #[must_use]
    pub fn when<C>(self, command: &C) -> (r: TestResult<A>) where A: Handle<C>
        ensures
            exists|handled: Result<Vec<A::Event>, A::HandleError>| #[trigger]
                call_ensures(<A as Handle<C>>::handle, (&self.aggregate, command), handled)
                    && comes_to(handled, r.result),
    {
        let handled: Result<Vec<A::Event>, A::HandleError> = self.aggregate.handle(command);
        TestResult { result: convert(handled) }
    }

    /// Add more events to the aggregate state before executing the command.
    #[must_use]
    pub fn and(self, events: Vec<A::Event>) -> (r: Self)
        ensures
            r.aggregate == crate::aggregate::replay(self.aggregate, events@),
    {
        let mut executor: Self = self;
        apply_all(&mut executor.aggregate, &events);
        executor
    }
}

/// Result of executing a command, ready to be looked at.
pub struct TestResult<A: Aggregate> {
    /// What the command came to.
    pub result: Result<Vec<A::Event>, A::Error>,
}

impl<A: Aggregate> TestResult<A> {
    /// Whether the command produced exactly the expected events.
    #[must_use]
    pub fn then_expect_events(self, expected: &[A::Event]) -> (r: bool) where A::Event: PartialEq
        ensures
            match self.result {
                Ok(events) => found_same(events@, expected@, r),
                Err(_) => !r,
            },
    {
        match self.result {
            Ok(events) => {
                if events.len() != expected.len() {
                    return false;
                }
                let mut i: usize = 0;
                while i < events.len()
                    invariant
                        i <= events@.len(),
                        events@.len() == expected@.len(),
                        self.result == Ok::<Vec<A::Event>, A::Error>(events),
                        forall|k: int|
                            0 <= k < i ==> found_equal(#[trigger] events@[k], expected@[k], true),
                    decreases events@.len() - i,
                {
                    let same: bool = events[i].eq(&expected[i]);
                    assert(found_equal(events@[i as int], expected@[i as int], same));
                    if !same {
                        return false;
                    }
                    i = i + 1;
                }
                true
            },
            Err(_) => false,
        }
    }

    /// Whether the command produced no events.
    #[must_use]
    pub fn then_expect_no_events(self) -> (r: bool)
        ensures
            r == (self.result matches Ok(events) && events@.len() == 0),
    {
        match self.result {
            Ok(events) => events.len() == 0,
            Err(_) => false,
        }
    }

    /// Whether the command returned an error.
    #[must_use]
    pub fn then_expect_error(self) -> (r: bool)
        ensures
            r == self.result is Err,
    {
        self.result.is_err()
    }

    /// Whether the command returned a specific error.
    #[must_use]
    pub fn then_expect_error_eq(self, expected: &A::Error) -> (r: bool) where A::Error: PartialEq
        ensures
            match self.result {
                Ok(_) => !r,
                Err(error) => found_equal(error, *expected, r),
            },
    {
        match self.result {
            Ok(_) => false,
            Err(error) => error.eq(expected),
        }
    }

    /// Whether the command returned an error whose text contains the given one.
    #[must_use]
    pub fn then_expect_error_message(self, expected_substring: &str) -> (r: bool) where
        A::Error: Message,

        ensures
            match self.result {
                Ok(_) => !r,
                Err(error) => exists|text: Seq<char>| #[trigger]
                    error.described_by(text) && r == contains_text(text, expected_substring@),
            },
    {
        match self.result {
            Ok(_) => false,
            Err(error) => {
                let text: String = error.message();
                text_contains(text.as_str(), expected_substring)
            },
        }
    }

    /// Get the raw result for custom assertions.
    ///
    /// # Errors
    ///
    /// Returns any command handling error produced by the aggregate.
    pub fn inspect_result(self) -> (r: Result<Vec<A::Event>, A::Error>)
        ensures
            r == self.result,
    {
        self.result
    }
}

/// Whether comparing `a` with `b` by `==` can come to `verdict`.
pub open spec fn found_equal<T: PartialEq>(a: T, b: T, verdict: bool) -> bool {
    call_ensures(<T as PartialEq>::eq, (&a, &b), verdict)
}

/// Whether comparing two lists place by place can come to `verdict`.
pub open spec fn found_same<T: PartialEq>(a: Seq<T>, b: Seq<T>, verdict: bool) -> bool {
    if a.len() != b.len() {
        !verdict
    } else if verdict {
        forall|i: int| 0 <= i < a.len() ==> found_equal(#[trigger] a[i], b[i], true)
    } else {
        exists|i: int| 0 <= i < a.len() && found_equal(#[trigger] a[i], b[i], false)
    }
}

/// Whether `part` stands somewhere in `text`.
pub open spec fn contains_text(text: Seq<char>, part: Seq<char>) -> bool {
    exists|from: int|
        0 <= from <= text.len() - part.len() && #[trigger] text.subrange(
            from,
            from + part.len(),
        ) == part
}

/// The characters of a text.
fn characters(text: &str) -> (r: Vec<char>)
    ensures
        r@ == text@,
{
    let ghost all = text@;
    let mut r: Vec<char> = Vec::new();
    for ch in iter: text.chars()
        invariant
            iter.seq() == all,
            r@ == all.take(iter.index()),
    {
        assert(all.take(iter.index() + 1) == all.take(iter.index()).push(ch));
        r.push(ch);
    }
    assert(all.take(all.len() as int) == all);
    r
}

/// Whether `part` stands somewhere in `text`.
fn text_contains(text: &str, part: &str) -> (r: bool)
    ensures
        r == contains_text(text@, part@),
{
    let letters: Vec<char> = characters(text);
    let wanted: Vec<char> = characters(part);
    if wanted.len() > letters.len() {
        return false;
    }
    let last: usize = letters.len() - wanted.len();
    let mut from: usize = 0;
    while from < last
        invariant
            from <= last,
            letters@ == text@,
            wanted@ == part@,
            last == text@.len() - part@.len(),
            forall|k: int| 0 <= k < from ==> #[trigger] text@.subrange(k, k + part@.len()) != part@,
        decreases last - from,
    {
        if stands_at(&letters, &wanted, from) {
            return true;
        }
        from = from + 1;
    }
    stands_at(&letters, &wanted, last)
}

/// Whether `part` stands in `text` at the given place.
fn stands_at(text: &Vec<char>, part: &Vec<char>, from: usize) -> (r: bool)
    requires
        from + part@.len() <= text@.len(),
    ensures
        r == (text@.subrange(from as int, from + part@.len()) == part@),
{
    let ghost there = text@.subrange(from as int, from + part@.len());
    let length: usize = text.len();
    let mut i: usize = 0;
    while i < part.len()
        invariant
            length == text@.len(),
            i <= part@.len(),
            from + part@.len() <= text@.len(),
            there == text@.subrange(from as int, from + part@.len()),
            forall|k: int| 0 <= k < i ==> there[k] == part@[k],
        decreases part@.len() - i,
    {
        if text[from + i] != part[i] {
            assert(there[i as int] != part@[i as int]);
            return false;
        }
        i = i + 1;
    }
    assert(there == part@);
    true
}

/// Error type for seeding operations.
#[derive(Debug)]
pub enum SeedError<StoreError, CodecError> {
    /// Failed to serialize an event.
    Codec(CodecError),
    /// Failed to persist events to the store.
    Store(StoreError),
}

impl<SE: Message, CE: Message> Message for SeedError<SE, CE> {
    open spec fn described_by(&self, text: Seq<char>) -> bool {
        match self {
            SeedError::Codec(cause) => crate::message::prefixed(
                "failed to serialize event: "@,
                cause,
                text,
            ),
            SeedError::Store(cause) => crate::message::prefixed(
                "failed to persist event: "@,
                cause,
                text,
            ),
        }
    }

    fn message(&self) -> (text: String) {
        match self {
            SeedError::Codec(cause) => prefixed_message("failed to serialize event: ", cause),
            SeedError::Store(cause) => prefixed_message("failed to persist event: ", cause),
        }
    }
}

/// Whether putting `events` at the end of one stream, without a command, takes
/// `before` to `after` and comes to `r`.
///
/// Every event gets default metadata. Where one cannot be serialised, none is
/// written.
pub open spec fn seeds<Id, Meta, E, T>(
    before: Seq<InMemoryEvent<Id, Meta>>,
    after: Seq<InMemoryEvent<Id, Meta>>,
    kind: Seq<char>,
    id: Id::Key,
    events: Seq<T>,
    r: Result<(), SeedError<InMemoryError<E>, E>>,
) -> bool where Id: StreamId, Meta: Clone + Default, T: EncodeEvent<E> {
    if crate::repository::inmemory::all_json::<E, T>(events) {
        &&& r is Ok
        &&& exists|metadata: Meta| #[trigger]
            call_ensures(<Meta as Default>::default, (), metadata)
                && crate::store::inmemory::appended(
                before,
                after,
                kind,
                id,
                crate::repository::inmemory::json_of::<E, T>(events),
                metadata,
            )
    } else {
        &&& after == before
        &&& r matches Err(SeedError::Codec(cause))
            && crate::repository::inmemory::first_unencodable::<E, T>(events, cause)
    }
}

/// The store behind a repository.
pub trait StoreAccess {
    /// Its type.
    type Store: EventStore;

    /// The store.
    spec fn spec_store(&self) -> Self::Store;

    /// The store.
    fn store(&self) -> (r: &Self::Store)
        ensures
            *r == self.spec_store(),
    ;
}

impl<S: EventStore, C: ConcurrencyStrategy, M> StoreAccess for Repository<S, C, M> {
    type Store = S;

    open spec fn spec_store(&self) -> S {
        self.store
    }

    fn store(&self) -> (r: &S) {
        &self.store
    }
}

/// Test utilities for a repository over the in-memory store.
///
/// All methods bypass command handling, so that fixtures can be set up, and other
/// writers simulated, without aggregate business logic.
pub trait RepositoryTestExt<Id: StreamId, Meta: Clone, E>: StoreAccess<
    Store = Store<Id, Meta, E>,
> {
    /// Seed events for an aggregate, bypassing command handlers.
    ///
    /// # Errors
    ///
    /// Returns [`SeedError::Codec`] if event serialization fails.
    fn seed_events<A>(&mut self, id: &Id, events: Vec<A::Event>) -> (r: Result<
        (),
        SeedError<InMemoryError<E>, E>,
    >) where A: Aggregate<Id = Id>, A::Event: EncodeEvent<E>, Meta: Default,
        requires
            old(self).spec_store().log().len() + events@.len() <= u64::MAX,
        ensures
            if events@.len() == 0 {
                final(self).spec_store().log() == old(self).spec_store().log() && r is Ok
            } else {
                seeds::<Id, Meta, E, A::Event>(
                    old(self).spec_store().log(),
                    final(self).spec_store().log(),
                    A::KIND@,
                    id.key(),
                    events@,
                    r,
                )
            },
    ;

    /// Inject a single event as if from a concurrent writer.
    ///
    /// # Errors
    ///
    /// Returns [`SeedError::Codec`] if serialization fails.
    fn inject_concurrent_event<A>(&mut self, id: &Id, event: A::Event) -> (r: Result<
        (),
        SeedError<InMemoryError<E>, E>,
    >) where A: Aggregate<Id = Id>, A::Event: EncodeEvent<E>, Meta: Default,
        requires
            old(self).spec_store().log().len() < u64::MAX,
        ensures
            seeds::<Id, Meta, E, A::Event>(
                old(self).spec_store().log(),
                final(self).spec_store().log(),
                A::KIND@,
                id.key(),
                seq![event],
                r,
            ),
    ;

    /// Inject an event as the store keeps it, with its kind and JSON given.
    fn inject_raw_event(
        &mut self,
        aggregate_kind: &str,
        id: &Id,
        kind: &str,
        data: Value,
        metadata: Meta,
    )
        requires
            old(self).spec_store().log().len() < u64::MAX,
        ensures
            crate::store::inmemory::appended(
                old(self).spec_store().log(),
                final(self).spec_store().log(),
                aggregate_kind@,
                id.key(),
                seq![(kind@, data)],
                metadata,
            ),
    ;
}

/// Commits a batch with default metadata.
fn seed<Id, Meta, E, T>(
    store: &mut Store<Id, Meta, E>,
    kind: &str,
    id: &Id,
    events: &NonEmpty<T>,
) -> (r: Result<(), SeedError<InMemoryError<E>, E>>) where
    Id: StreamId,
    Meta: Clone + Default,
    T: EncodeEvent<E>,

    requires
        old(store).log().len() + crate::store::batch(*events).len() <= u64::MAX,
    ensures
        seeds::<Id, Meta, E, T>(
            old(store).log(),
            final(store).log(),
            kind@,
            id.key(),
            crate::store::batch(*events),
            r,
        ),
{
    let encoded: NonEmpty<EncodedEvent<E>> = encode_all(events);
    let ghost plain = crate::store::batch(*events);
    let ghost coded = crate::store::batch(encoded);
    proof {
        crate::repository::inmemory::lemma_encoded_payloads::<E, T>(plain, coded);
    }
    let metadata: Meta = Meta::default();
    match store.commit_events(kind, id, encoded, &metadata) {
        Ok(_) => Ok(()),
        Err(CommitError::Serialization { index, source }) => match source {
            InMemoryError::Serialization(cause) => {
                proof {
                    crate::repository::inmemory::lemma_first_unencodable::<E, T>(
                        plain,
                        coded,
                        index as int,
                        cause,
                    );
                }
                Err(SeedError::Codec(cause))
            },
            InMemoryError::Deserialization(cause) => Err(SeedError::Codec(cause)),
        },
        Err(CommitError::Store(error)) => Err(SeedError::Store(error)),
    }
}

impl<Id: StreamId, Meta: Clone, E, C: ConcurrencyStrategy, M> RepositoryTestExt<
    Id,
    Meta,
    E,
> for Repository<Store<Id, Meta, E>, C, M> {
    fn seed_events<A>(&mut self, id: &Id, events: Vec<A::Event>) -> (r: Result<
        (),
        SeedError<InMemoryError<E>, E>,
    >) where A: Aggregate<Id = Id>, A::Event: EncodeEvent<E>, Meta: Default,
        ensures
            final(self).snapshots == old(self).snapshots,
    {
        match NonEmpty::from_vec(events) {
            Some(events) => seed(&mut self.store, A::KIND, id, &events),
            None => Ok(()),
        }
    }

    fn inject_concurrent_event<A>(&mut self, id: &Id, event: A::Event) -> (r: Result<
        (),
        SeedError<InMemoryError<E>, E>,
    >) where A: Aggregate<Id = Id>, A::Event: EncodeEvent<E>, Meta: Default,
        ensures
            final(self).snapshots == old(self).snapshots,
    {
        let events: NonEmpty<A::Event> = NonEmpty { head: event, tail: Vec::new() };
        assert(crate::store::batch(events) == seq![event]);
        seed(&mut self.store, A::KIND, id, &events)
    }

    fn inject_raw_event(
        &mut self,
        aggregate_kind: &str,
        id: &Id,
        kind: &str,
        data: Value,
        metadata: Meta,
    )
        ensures
            final(self).snapshots == old(self).snapshots,
    {
        let events: NonEmpty<EncodedEvent<E>> = NonEmpty {
            head: EncodedEvent { kind: kind.to_owned(), data: Ok(data) },
            tail: Vec::new(),
        };
        assert(crate::store::batch(events).len() == 1);
        assert(crate::store::inmemory::payloads(crate::store::batch(events)) == seq![
            (kind@, data),
        ]);
        let _committed: Result<Committed<u64>, CommitError<InMemoryError<E>>> =
            self.store.commit_events(aggregate_kind, id, events, &metadata);
    }
}

} // verus!
