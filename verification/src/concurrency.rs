//! Concurrency strategy selection, and the conflict that a version check finds.

use std::fmt::Debug;

use vstd::prelude::*;

use crate::{
    message::{debug_text, Message},
    sealed::Sealed,
};

verus! {

/// No version checking: the last writer wins.
#[derive(Debug, Clone, Copy)]
pub struct Unchecked;

/// Optimistic concurrency control: the version is checked on every write.
#[derive(Debug, Clone, Copy)]
pub struct Optimistic;

impl Default for Unchecked {
    fn default() -> (r: Self)
        ensures
            r == Unchecked,
    {
        Unchecked
    }
}

impl Default for Optimistic {
    fn default() -> (r: Self)
        ensures
            r == Optimistic,
    {
        Optimistic
    }
}

/// How a repository treats writes that arrived since it loaded a stream.
///
/// The set of strategies is closed.
pub trait ConcurrencyStrategy: Sealed + Default + Send + Sync {
    /// Whether this strategy checks versions before appending.
    const CHECK_VERSION: bool;
}

impl ConcurrencyStrategy for Unchecked {
    const CHECK_VERSION: bool = false;
}

impl ConcurrencyStrategy for Optimistic {
    const CHECK_VERSION: bool = true;
}

/// A stream was not at the version that a writer expected.
#[derive(Debug, Clone, PartialEq, Eq)]
pub struct ConcurrencyConflict<Pos> {
    /// The version that the writer expected; `None` for a new stream.
    pub expected: Option<Pos>,
    /// The version of the stream; `None` when it has no events.
    pub actual: Option<Pos>,
}

/// The text of a conflict between versions that read `expected` and `actual`.
pub open spec fn conflict_text(expected: Option<Seq<char>>, actual: Option<Seq<char>>) -> Seq<
    char,
> {
    match (expected, actual) {
        (None, Some(actual)) => "concurrency conflict: expected new stream, found version "@
            + actual
            + " (hint: another process created this aggregate; reload and retry)"@,
        (Some(expected), Some(actual)) => "concurrency conflict: expected version "@ + expected
            + ", found Some("@ + actual + ") (hint: stream was modified; reload and retry)"@,
        (Some(expected), None) => "concurrency conflict: expected version "@ + expected
            + ", found None (hint: stream was modified; reload and retry)"@,
        (None, None) => "concurrency conflict: unexpected empty state"@,
    }
}

/// The text of a conflict, from the texts of its two versions.
pub fn conflict_message(expected: Option<&str>, actual: Option<&str>) -> (text: String)
    ensures
        text@ == conflict_text(
            match expected {
                Some(shown) => Some(shown@),
                None => None,
            },
            match actual {
                Some(shown) => Some(shown@),
                None => None,
            },
        ),
{
    match (expected, actual) {
        (None, Some(actual)) => {
            let mut text: String =
                "concurrency conflict: expected new stream, found version ".to_owned();
            text.append(actual);
            text.append(" (hint: another process created this aggregate; reload and retry)");
            text
        },
        (Some(expected), Some(actual)) => {
            let mut text: String = "concurrency conflict: expected version ".to_owned();
            text.append(expected);
            text.append(", found Some(");
            text.append(actual);
            text.append(") (hint: stream was modified; reload and retry)");
            text
        },
        (Some(expected), None) => {
            let mut text: String = "concurrency conflict: expected version ".to_owned();
            text.append(expected);
            text.append(", found None (hint: stream was modified; reload and retry)");
            text
        },
        (None, None) => "concurrency conflict: unexpected empty state".to_owned(),
    }
}

/// Whether `shown` shows `position` as `{:?}` does, where there is one.
pub open spec fn version_shown<Pos: Debug>(position: Option<&Pos>, shown: Option<Seq<char>>) -> bool {
    match (position, shown) {
        (Some(position), Some(shown)) => crate::message::shown_as(position, shown),
        (None, None) => true,
        _ => false,
    }
}

/// Whether `text` tells of a conflict between `expected` and `actual`.
pub open spec fn tells_conflict<Pos: Debug>(
    expected: Option<&Pos>,
    actual: Option<&Pos>,
    text: Seq<char>,
) -> bool {
    exists|expected_text: Option<Seq<char>>, actual_text: Option<Seq<char>>|
        {
            &&& version_shown(expected, expected_text)
            &&& version_shown(actual, actual_text)
            &&& text == #[trigger] conflict_text(expected_text, actual_text)
        }
}

/// A human-readable message for a conflict, with a hint for the caller.
pub fn format_conflict<Pos: Debug>(expected: Option<&Pos>, actual: Option<&Pos>) -> (text: String)
    ensures
        tells_conflict(expected, actual, text@),
{
    let expected_text: Option<String> = match expected {
        Some(position) => Some(debug_text(position)),
        None => None,
    };
    let actual_text: Option<String> = match actual {
        Some(position) => Some(debug_text(position)),
        None => None,
    };
    let expected_str: Option<&str> = match &expected_text {
        Some(text) => Some(text.as_str()),
        None => None,
    };
    let actual_str: Option<&str> = match &actual_text {
        Some(text) => Some(text.as_str()),
        None => None,
    };
    conflict_message(expected_str, actual_str)
}

impl<Pos: Debug> Message for ConcurrencyConflict<Pos> {
    open spec fn described_by(&self, text: Seq<char>) -> bool {
        tells_conflict(
            match self.expected {
                Some(position) => Some(&position),
                None => None,
            },
            match self.actual {
                Some(position) => Some(&position),
                None => None,
            },
            text,
        )
    }

    fn message(&self) -> (text: String) {
        format_conflict(self.expected.as_ref(), self.actual.as_ref())
    }
}

} // verus!
