//! Domain events and how they come back out of a store.

use vstd::prelude::*;

use crate::{
    message::{debug_text, prefixed_message, Message},
    store::{EventStore, StoredEvent},
};

verus! {

/// Error returned when deserializing a stored event fails.
#[derive(Debug)]
pub enum EventDecodeError<StoreError> {
    /// The event kind was not recognized by this event enum.
    UnknownKind {
        /// The unrecognized event kind string.
        kind: String,
        /// The list of event kinds this enum can handle.
        expected: &'static [&'static str],
    },
    /// The store failed to deserialize the event data.
    Store(StoreError),
}

/// The text of an unknown kind, where the expected ones read `expected`.
pub open spec fn unknown_kind_text(kind: Seq<char>, expected: Seq<char>) -> Seq<char> {
    "unknown event kind `"@ + kind + "`, expected one of "@ + expected
}

impl<StoreError: Message> Message for EventDecodeError<StoreError> {
    open spec fn described_by(&self, text: Seq<char>) -> bool {
        match self {
            EventDecodeError::UnknownKind { kind, expected } => exists|shown: Seq<char>| #[trigger]
                crate::message::shown_as(expected, shown) && text == unknown_kind_text(
                    kind@,
                    shown,
                ),
            EventDecodeError::Store(cause) => crate::message::prefixed(
                "store error: "@,
                cause,
                text,
            ),
        }
    }

    fn message(&self) -> (text: String) {
        match self {
            EventDecodeError::UnknownKind { kind, expected } => {
                let shown: String = debug_text(expected);
                let mut text: String = "unknown event kind `".to_owned();
                text.append(kind.as_str());
                text.append("`, expected one of ");
                text.append(shown.as_str());
                text
            },
            EventDecodeError::Store(cause) => prefixed_message("store error: ", cause),
        }
    }
}

impl<StoreError: Message> EventDecodeError<StoreError> {
    /// The text of the underlying failure, if there is one.
    pub fn source(&self) -> (r: Option<String>)
        ensures
            match self {
                EventDecodeError::UnknownKind { .. } => r is None,
                EventDecodeError::Store(cause) => r matches Some(text) && cause.described_by(text@),
            },
    {
        match self {
            EventDecodeError::UnknownKind { .. } => None,
            EventDecodeError::Store(cause) => Some(cause.message()),
        }
    }
}

/// Marker trait for events that can be persisted by the event store.
///
/// Each event type carries a unique [`Self::KIND`] identifier so that stored
/// events can be routed back to the type that they came from.
pub trait DomainEvent {
    /// The event type identifier.
    const KIND: &'static str;
}

/// The event kind of an event instance.
///
/// Implemented for every [`DomainEvent`]; event enums implement it by
/// dispatching to their variants.
///
/// Its spec functions are left open here; verified code gives them a body of its own.
pub trait EventKind {
    /// What [`kind`](Self::kind) returns.
    open spec fn spec_kind(&self) -> Seq<char> {
        arbitrary()
    }

    /// The event type identifier.
    fn kind(&self) -> (r: &'static str)
        ensures
            r@ == self.spec_kind(),
    ;
}

impl<T: DomainEvent> EventKind for T {
    open spec fn spec_kind(&self) -> Seq<char> {
        T::KIND@
    }

    fn kind(&self) -> (r: &'static str) {
        T::KIND
    }
}

/// An event type that store `S` can decode.
///
/// Its spec functions are left open here; verified code gives them a body of its own.
pub trait DecodeEvent<S: EventStore>: Sized {
    /// The event that `stored` holds, if it can be decoded.
    open spec fn decoded(
        stored: StoredEvent<S::Id, S::Position, S::Data, S::Metadata>,
    ) -> Option<Self> {
        arbitrary()
    }

    /// Whether `cause` can be why `stored` cannot be decoded.
    open spec fn undecodable(
        stored: StoredEvent<S::Id, S::Position, S::Data, S::Metadata>,
        cause: S::Error,
    ) -> bool {
        arbitrary()
    }

    /// Decode a stored event.
    ///
    /// # Errors
    ///
    /// Returns an error if deserialization fails.
    fn decode_event(
        store: &S,
        stored: &StoredEvent<S::Id, S::Position, S::Data, S::Metadata>,
    ) -> (r: Result<Self, S::Error>)
        ensures
            match r {
                Ok(event) => Self::decoded(*stored) == Some(event),
                Err(cause) => Self::decoded(*stored) is None && Self::undecodable(
                    *stored,
                    cause,
                ),
            },
    ;
}

/// Whether `kind` is one of `kinds`.
pub open spec fn is_kind(kinds: Seq<&'static str>, kind: Seq<char>) -> bool {
    exists|i: int| 0 <= i < kinds.len() && (#[trigger] kinds[i])@ == kind
}

/// Event sum types that can deserialize themselves from stored events.
///
/// Its spec functions are left open here; verified code gives them a body of its own.
pub trait ProjectionEvent<S: EventStore>: Sized {
    /// The list of event kinds this sum type can deserialize.
    const EVENT_KINDS: &'static [&'static str];

    /// The event that `stored` holds, if it can be restored.
    open spec fn restored(
        stored: StoredEvent<S::Id, S::Position, S::Data, S::Metadata>,
    ) -> Option<Self> {
        arbitrary()
    }

    /// Whether `cause` can be why `stored`, which has one of the kinds, cannot be
    /// restored.
    open spec fn unrestorable(
        stored: StoredEvent<S::Id, S::Position, S::Data, S::Metadata>,
        cause: S::Error,
    ) -> bool {
        arbitrary()
    }

    /// Deserialize an event from stored representation.
    ///
    /// # Errors
    ///
    /// Returns [`EventDecodeError::UnknownKind`] if the event kind is not
    /// recognized, or [`EventDecodeError::Store`] if deserialization fails.
    fn from_stored(
        stored: &StoredEvent<S::Id, S::Position, S::Data, S::Metadata>,
        store: &S,
    ) -> (r: Result<Self, EventDecodeError<S::Error>>)
        ensures
            match r {
                Ok(event) => Self::restored(*stored) == Some(event),
                Err(EventDecodeError::UnknownKind { kind, expected }) => {
                    &&& Self::restored(*stored) is None
                    &&& !is_kind(Self::EVENT_KINDS@, stored.kind@)
                    &&& kind@ == stored.kind@
                    &&& expected@ == Self::EVENT_KINDS@
                },
                Err(EventDecodeError::Store(cause)) => {
                    &&& Self::restored(*stored) is None
                    &&& is_kind(Self::EVENT_KINDS@, stored.kind@)
                    &&& Self::unrestorable(*stored, cause)
                },
            },
    ;
}

} // verus!
