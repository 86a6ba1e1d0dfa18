//! What the texts of errors say.

use std::fmt::Debug;

use vstd::prelude::*;

use super::Message;
use crate::{
    event::EventDecodeError,
    projection::ProjectionError,
    reactor::{ReactError, ReactorError},
    repository::{CommandError, LifecycleError},
    snapshot::{self, OfferSnapshotError},
    store::{inmemory::InMemoryError, CommitError, OptimisticCommitError},
    subscription::{AwaitError, SubscriptionError},
    test::SeedError,
};

verus! {

/// Whether `text` begins with `start` and then tells of `cause`, and says nothing else.
pub open spec fn tells_of<T: Message>(start: Seq<char>, cause: T, text: Seq<char>) -> bool {
    &&& text.len() >= start.len()
    &&& text.take(start.len() as int) == start
    &&& cause.described_by(text.skip(start.len() as int))
}

/// A text with something in front of it is that, and then the text.
pub proof fn prefixed_texts_tell_of_their_cause<T: Message>(
    start: Seq<char>,
    cause: T,
    text: Seq<char>,
)
    ensures
        super::prefixed(start, &cause, text) <==> tells_of(start, cause, text),
{
    if super::prefixed(start, &cause, text) {
        let tail = choose|tail: Seq<char>| #[trigger]
            cause.described_by(tail) && text == start + tail;
        assert(text.take(start.len() as int) == start);
        assert(text.skip(start.len() as int) == tail);
    }
    if tells_of(start, cause, text) {
        let tail = text.skip(start.len() as int);
        assert(text == start + tail);
    }
}

/// The text of a decode error names the kind that is not known and those that are, or tells
/// of the store.
pub proof fn decode_errors_say_what_was_expected<SE: Message>(
    error: EventDecodeError<SE>,
    text: Seq<char>,
)
    requires
        error.described_by(text),
    ensures
        match error {
            EventDecodeError::UnknownKind { kind, expected } => exists|shown: Seq<char>|
                {
                    &&& #[trigger] super::shown_as(&expected, shown)
                    &&& text == "unknown event kind `"@ + kind@ + "`, expected one of "@ + shown
                },
            EventDecodeError::Store(cause) => tells_of("store error: "@, cause, text),
        },
{
    match error {
        EventDecodeError::UnknownKind { kind, expected } => {
            let shown = choose|shown: Seq<char>| #[trigger]
                super::shown_as(&expected, shown) && text == crate::event::unknown_kind_text(
                    kind@,
                    shown,
                );
            assert(super::shown_as(&expected, shown));
        },
        EventDecodeError::Store(cause) => {
            prefixed_texts_tell_of_their_cause("store error: "@, cause, text);
        },
    }
}

/// The text of a failed offer says whether the snapshot could not be made or not be stored.
pub proof fn offer_errors_say_which_half_failed<SE: Message, CE: Message>(
    error: OfferSnapshotError<SE, CE>,
    text: Seq<char>,
)
    requires
        error.described_by(text),
    ensures
        match error {
            OfferSnapshotError::Create(cause) => tells_of(
                "failed to create snapshot: "@,
                cause,
                text,
            ),
            OfferSnapshotError::Snapshot(cause) => tells_of(
                "snapshot operation failed: "@,
                cause,
                text,
            ),
        },
{
    match error {
        OfferSnapshotError::Create(cause) => {
            prefixed_texts_tell_of_their_cause("failed to create snapshot: "@, cause, text);
        },
        OfferSnapshotError::Snapshot(cause) => {
            prefixed_texts_tell_of_their_cause("snapshot operation failed: "@, cause, text);
        },
    }
}

/// The text of a failed commit names the place of the event, or tells of the store.
pub proof fn commit_errors_say_which_event_failed<SE: Message>(
    error: CommitError<SE>,
    text: Seq<char>,
)
    requires
        error.described_by(text),
    ensures
        match error {
            CommitError::Serialization { index, .. } => tells_of(
                "failed to serialize event at index "@,
                index,
                text,
            ),
            CommitError::Store(cause) => tells_of("store error: "@, cause, text),
        },
{
    match error {
        CommitError::Serialization { index, .. } => {
            prefixed_texts_tell_of_their_cause("failed to serialize event at index "@, index, text);
        },
        CommitError::Store(cause) => {
            prefixed_texts_tell_of_their_cause("store error: "@, cause, text);
        },
    }
}

/// The text of a failed optimistic commit is that of a conflict, or that of a failed commit.
pub proof fn optimistic_commit_errors_say_what_went_wrong<Pos: Debug, SE: Message>(
    error: OptimisticCommitError<Pos, SE>,
    text: Seq<char>,
)
    requires
        error.described_by(text),
    ensures
        match error {
            OptimisticCommitError::Serialization { index, .. } => tells_of(
                "failed to serialize event at index "@,
                index,
                text,
            ),
            OptimisticCommitError::Conflict(conflict) => conflict.described_by(text),
            OptimisticCommitError::Store(cause) => tells_of("store error: "@, cause, text),
        },
{
    match error {
        OptimisticCommitError::Serialization { index, .. } => {
            prefixed_texts_tell_of_their_cause("failed to serialize event at index "@, index, text);
        },
        OptimisticCommitError::Conflict(_) => {},
        OptimisticCommitError::Store(cause) => {
            prefixed_texts_tell_of_their_cause("store error: "@, cause, text);
        },
    }
}

/// The text of a failed projection says whether events could not be loaded or one could not
/// be decoded.
pub proof fn projection_errors_say_where_they_come_from<SE: Message>(
    error: ProjectionError<SE>,
    text: Seq<char>,
)
    requires
        error.described_by(text),
    ensures
        match error {
            ProjectionError::Store(cause) => tells_of("failed to load events: "@, cause, text),
            ProjectionError::EventDecode(cause) => tells_of(
                "failed to decode event: "@,
                cause,
                text,
            ),
        },
{
    match error {
        ProjectionError::Store(cause) => {
            prefixed_texts_tell_of_their_cause("failed to load events: "@, cause, text);
        },
        ProjectionError::EventDecode(cause) => {
            prefixed_texts_tell_of_their_cause("failed to decode event: "@, cause, text);
        },
    }
}

/// The text of a failed reaction says whether it is worth a retry.
pub proof fn reaction_errors_say_whether_they_are_retried<E: Message>(
    error: ReactError<E>,
    text: Seq<char>,
)
    requires
        error.described_by(text),
    ensures
        match error {
            ReactError::Retry(cause) => tells_of("retryable reaction error: "@, cause, text),
            ReactError::Fatal(cause) => tells_of("fatal reaction error: "@, cause, text),
        },
{
    match error {
        ReactError::Retry(cause) => {
            prefixed_texts_tell_of_their_cause("retryable reaction error: "@, cause, text);
        },
        ReactError::Fatal(cause) => {
            prefixed_texts_tell_of_their_cause("fatal reaction error: "@, cause, text);
        },
    }
}

/// The text of a failed reactor is that of its loop, or tells of the checkpoint store or of
/// the reaction.
pub proof fn reactor_errors_say_what_stopped_it<SE: Message, CE: Message, RE: Message>(
    error: ReactorError<SE, CE, RE>,
    text: Seq<char>,
)
    requires
        error.described_by(text),
    ensures
        match error {
            ReactorError::Runner(cause) => cause.described_by(text),
            ReactorError::Checkpoint(cause) => tells_of(
                "checkpoint operation failed: "@,
                cause,
                text,
            ),
            ReactorError::Reaction(cause) => tells_of("reaction failed: "@, cause, text),
        },
{
    match error {
        ReactorError::Runner(_) => {},
        ReactorError::Checkpoint(cause) => {
            prefixed_texts_tell_of_their_cause("checkpoint operation failed: "@, cause, text);
        },
        ReactorError::Reaction(cause) => {
            prefixed_texts_tell_of_their_cause("reaction failed: "@, cause, text);
        },
    }
}

/// The text of a lifecycle error says whether the aggregate is missing or there already.
pub proof fn lifecycle_errors_say_which_it_was(error: LifecycleError, text: Seq<char>)
    requires
        error.described_by(text),
    ensures
        match error {
            LifecycleError::AggregateNotFound => text == "aggregate not found"@,
            LifecycleError::AggregateAlreadyExists => text == "aggregate already exists"@,
        },
{
}

/// The text of a failed command says which step failed, and tells of the cause.
pub proof fn command_errors_say_what_went_wrong<AE: Message, CE: Message, SE: Message, NE: Message>(
    error: CommandError<AE, CE, SE, NE>,
    text: Seq<char>,
)
    requires
        error.described_by(text),
    ensures
        match error {
            CommandError::Aggregate(cause) => tells_of(
                "aggregate rejected command: "@,
                cause,
                text,
            ),
            CommandError::Lifecycle(cause) => cause.described_by(text),
            CommandError::Concurrency(cause) => cause.described_by(text),
            CommandError::Projection(cause) => tells_of(
                "failed to rebuild aggregate state: "@,
                cause,
                text,
            ),
            CommandError::Store(cause) => tells_of("failed to persist events: "@, cause, text),
            CommandError::Snapshot(cause) => tells_of("snapshot operation failed: "@, cause, text),
        },
{
    match error {
        CommandError::Aggregate(cause) => {
            prefixed_texts_tell_of_their_cause("aggregate rejected command: "@, cause, text);
        },
        CommandError::Lifecycle(_) => {},
        CommandError::Concurrency(_) => {},
        CommandError::Projection(cause) => {
            prefixed_texts_tell_of_their_cause("failed to rebuild aggregate state: "@, cause, text);
        },
        CommandError::Store(cause) => {
            prefixed_texts_tell_of_their_cause("failed to persist events: "@, cause, text);
        },
        CommandError::Snapshot(cause) => {
            prefixed_texts_tell_of_their_cause("snapshot operation failed: "@, cause, text);
        },
    }
}

/// The text of a failed wait says that the subscription stopped.
pub proof fn await_errors_say_that_it_stopped(error: AwaitError, text: Seq<char>)
    requires
        error.described_by(text),
    ensures
        match error {
            AwaitError::SubscriptionStopped => text == "subscription stopped before reaching the requested checkpoint"@,
        },
{
}

/// The text of a failed subscription says what stopped it.
pub proof fn subscription_errors_say_what_stopped_it<SE: Message>(
    error: SubscriptionError<SE>,
    text: Seq<char>,
)
    requires
        error.described_by(text),
    ensures
        match error {
            SubscriptionError::Store(cause) => tells_of("store error: "@, cause, text),
            SubscriptionError::EventDecode(cause) => tells_of(
                "failed to decode event: "@,
                cause,
                text,
            ),
            SubscriptionError::CatchupInterrupted => text == "subscription ended before catch-up completed"@,
            SubscriptionError::TaskPanicked => text == "subscription task panicked"@,
        },
{
    match error {
        SubscriptionError::Store(cause) => {
            prefixed_texts_tell_of_their_cause("store error: "@, cause, text);
        },
        SubscriptionError::EventDecode(cause) => {
            prefixed_texts_tell_of_their_cause("failed to decode event: "@, cause, text);
        },
        SubscriptionError::CatchupInterrupted => {},
        SubscriptionError::TaskPanicked => {},
    }
}

/// The text of a failed snapshot store says whether JSON was written or read.
pub proof fn snapshot_store_errors_say_which_way<E: Message>(
    error: snapshot::inmemory::Error<E>,
    text: Seq<char>,
)
    requires
        error.described_by(text),
    ensures
        match error {
            snapshot::inmemory::Error::Serialization(cause) => tells_of(
                "serialization error: "@,
                cause,
                text,
            ),
            snapshot::inmemory::Error::Deserialization(cause) => tells_of(
                "deserialization error: "@,
                cause,
                text,
            ),
        },
{
    match error {
        snapshot::inmemory::Error::Serialization(cause) => {
            prefixed_texts_tell_of_their_cause("serialization error: "@, cause, text);
        },
        snapshot::inmemory::Error::Deserialization(cause) => {
            prefixed_texts_tell_of_their_cause("deserialization error: "@, cause, text);
        },
    }
}

/// The text of a failed store says whether JSON was written or read.
pub proof fn store_errors_say_which_way<E: Message>(error: InMemoryError<E>, text: Seq<char>)
    requires
        error.described_by(text),
    ensures
        match error {
            InMemoryError::Serialization(cause) => tells_of("serialization error: "@, cause, text),
            InMemoryError::Deserialization(cause) => tells_of(
                "deserialization error: "@,
                cause,
                text,
            ),
        },
{
    match error {
        InMemoryError::Serialization(cause) => {
            prefixed_texts_tell_of_their_cause("serialization error: "@, cause, text);
        },
        InMemoryError::Deserialization(cause) => {
            prefixed_texts_tell_of_their_cause("deserialization error: "@, cause, text);
        },
    }
}

/// The text of failed seeding says whether an event could not be serialised or not be
/// persisted.
pub proof fn seed_errors_say_which_half_failed<SE: Message, CE: Message>(
    error: SeedError<SE, CE>,
    text: Seq<char>,
)
    requires
        error.described_by(text),
    ensures
        match error {
            SeedError::Codec(cause) => tells_of("failed to serialize event: "@, cause, text),
            SeedError::Store(cause) => tells_of("failed to persist event: "@, cause, text),
        },
{
    match error {
        SeedError::Codec(cause) => {
            prefixed_texts_tell_of_their_cause("failed to serialize event: "@, cause, text);
        },
        SeedError::Store(cause) => {
            prefixed_texts_tell_of_their_cause("failed to persist event: "@, cause, text);
        },
    }
}

/// The text of a conflict shows both versions, where there are two, and says which of them
/// was expected; where none was, that the stream was to be new.
pub proof fn conflicts_show_both_versions(expected: Seq<char>, actual: Seq<char>)
    ensures
        crate::concurrency::conflict_text(Some(expected), Some(actual))
            == "concurrency conflict: expected version "@ + expected + ", found Some("@ + actual
            + ") (hint: stream was modified; reload and retry)"@,
        crate::concurrency::conflict_text(Some(expected), None)
            == "concurrency conflict: expected version "@ + expected
            + ", found None (hint: stream was modified; reload and retry)"@,
        crate::concurrency::conflict_text(None, Some(actual))
            == "concurrency conflict: expected new stream, found version "@ + actual
            + " (hint: another process created this aggregate; reload and retry)"@,
        crate::concurrency::conflict_text(None, None)
            == "concurrency conflict: unexpected empty state"@,
{
}

/// The versions in the text of a conflict are shown as `{:?}` shows them, the expected one
/// and the actual one each in its place.
pub proof fn conflicts_show_their_own_versions<Pos: Debug>(
    conflict: crate::concurrency::ConcurrencyConflict<Pos>,
    text: Seq<char>,
)
    requires
        conflict.described_by(text),
    ensures
        exists|expected: Option<Seq<char>>, actual: Option<Seq<char>>|
            {
                &&& text == #[trigger] crate::concurrency::conflict_text(expected, actual)
                &&& expected is Some <==> conflict.expected is Some
                &&& actual is Some <==> conflict.actual is Some
                &&& expected is Some ==> super::shown_as(&conflict.expected->0, expected->0)
                &&& actual is Some ==> super::shown_as(&conflict.actual->0, actual->0)
            },
{
}

} // verus!
