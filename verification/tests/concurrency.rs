//! Conflicts and how they read.

use sourcery::concurrency::{
    conflict_message, format_conflict, ConcurrencyConflict, ConcurrencyStrategy, Optimistic,
    Unchecked,
};
use sourcery::message::Message;

#[test]
fn conflict_expected_new_stream_mentions_hint() {
    let conflict: ConcurrencyConflict<u64> = ConcurrencyConflict {
        expected: None,
        actual: Some(42),
    };
    let msg = conflict.message();
    assert!(msg.contains("expected new stream"));
    assert!(msg.contains("reload and retry"));
}

#[test]
fn conflict_expected_version_includes_versions() {
    let conflict: ConcurrencyConflict<u64> = ConcurrencyConflict {
        expected: Some(5),
        actual: Some(10),
    };
    let msg = conflict.message();
    assert!(msg.contains("expected version"));
    assert!(msg.contains('5'));
    assert!(msg.contains("10"));
}

#[test]
fn conflict_unexpected_empty_state_formats() {
    let conflict: ConcurrencyConflict<u64> = ConcurrencyConflict {
        expected: None,
        actual: None,
    };
    let msg = conflict.message();
    assert!(msg.contains("unexpected empty state"));
}

#[test]
fn conflict_texts_read_in_full() {
    assert_eq!(
        format_conflict(None, Some(&42u64)),
        "concurrency conflict: expected new stream, found version 42 (hint: another process \
         created this aggregate; reload and retry)"
    );
    assert_eq!(
        format_conflict(Some(&5u64), Some(&10)),
        "concurrency conflict: expected version 5, found Some(10) (hint: stream was modified; \
         reload and retry)"
    );
    assert_eq!(
        format_conflict(Some(&5u64), None),
        "concurrency conflict: expected version 5, found None (hint: stream was modified; reload \
         and retry)"
    );
    assert_eq!(
        format_conflict::<u64>(None, None),
        "concurrency conflict: unexpected empty state"
    );
}

#[test]
fn conflict_texts_show_versions_as_debug_does() {
    assert_eq!(
        format_conflict(Some(&"a\"b"), Some(&"c")),
        "concurrency conflict: expected version \"a\\\"b\", found Some(\"c\") (hint: stream was \
         modified; reload and retry)"
    );
    assert_eq!(
        conflict_message(Some("v1"), None),
        "concurrency conflict: expected version v1, found None (hint: stream was modified; reload \
         and retry)"
    );
}

#[test]
fn only_the_optimistic_strategy_checks_versions() {
    assert!(Optimistic::CHECK_VERSION);
    assert!(!Unchecked::CHECK_VERSION);
}
