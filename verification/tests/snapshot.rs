//! Snapshot policies and snapshot stores.

use std::convert::Infallible;
use std::io;

use sourcery::message::Message;
use sourcery::snapshot::inmemory::{Error, SnapshotPolicy, Store};
use sourcery::snapshot::{NoSnapshots, OfferSnapshotError, Snapshot, SnapshotOffer};

fn encoded(
    position: u64,
    data: &str,
) -> Result<Snapshot<u64, Result<serde_json::Value, String>>, Infallible> {
    Ok(Snapshot { position, data: Ok(serde_json::Value::from(data)) })
}

fn text(value: serde_json::Value) -> Result<String, String> {
    match value {
        serde_json::Value::String(text) => Ok(text),
        _ => Err("not a text".to_string()),
    }
}

#[test]
fn no_snapshots_load_returns_none() {
    let store = NoSnapshots::<u64>::new();
    let result: Option<Snapshot<u64, String>> = store.load("test", &"id");
    assert!(result.is_none());
}

#[test]
fn no_snapshots_offer_declines() {
    let store = NoSnapshots::<u64>::new();
    let result = store.offer_snapshot("test", &"id", 100, || {
        Ok::<_, io::Error>(Snapshot { position: 1, data: "data" })
    });

    assert_eq!(result, SnapshotOffer::Declined);
}

#[test]
fn offer_error_create_displays_source() {
    let err: OfferSnapshotError<io::Error, io::Error> =
        OfferSnapshotError::Create(io::Error::other("create failed"));
    let msg = err.message();
    assert!(msg.contains("failed to create snapshot"));
    assert!(err.source().is_some());
}

#[test]
fn offer_error_snapshot_displays_source() {
    let err: OfferSnapshotError<io::Error, io::Error> =
        OfferSnapshotError::Snapshot(io::Error::other("snapshot failed"));
    let msg = err.message();
    assert!(msg.contains("snapshot operation failed"));
    assert!(err.source().is_some());
}

#[test]
fn always_should_snapshot() {
    let policy = SnapshotPolicy::Always;
    assert!(policy.should_snapshot(0));
    assert!(policy.should_snapshot(1));
    assert!(policy.should_snapshot(100));
}

#[test]
fn every_n_at_threshold() {
    let policy = SnapshotPolicy::EveryNEvents(3);
    assert!(policy.should_snapshot(3));
    assert!(policy.should_snapshot(4));
    assert!(policy.should_snapshot(100));
}

#[test]
fn every_n_below_threshold() {
    let policy = SnapshotPolicy::EveryNEvents(3);
    assert!(!policy.should_snapshot(0));
    assert!(!policy.should_snapshot(1));
    assert!(!policy.should_snapshot(2));
}

#[test]
fn never_should_snapshot() {
    let policy = SnapshotPolicy::Never;
    assert!(!policy.should_snapshot(0));
    assert!(!policy.should_snapshot(1));
    assert!(!policy.should_snapshot(100));
}

#[test]
fn load_returns_none_for_missing() {
    let store = Store::<String, u64>::always();
    let result = store.load("test", &"id".to_string(), text).unwrap();
    assert!(result.is_none());
}

#[test]
fn load_returns_stored_snapshot() {
    let mut store = Store::<String, u64>::always();
    let id = "test-id".to_string();

    store.offer_snapshot("test", &id, 1, || encoded(5, "snapshot-data")).unwrap();

    let loaded = store.load("test", &id, text).unwrap().unwrap();
    assert_eq!(loaded.position, 5);
    assert_eq!(loaded.data, "snapshot-data");
}

#[test]
fn offer_declines_older_position() {
    let mut store = Store::<String, u64>::always();
    let id = "test-id".to_string();

    // Store initial snapshot at position 10
    store.offer_snapshot("test", &id, 1, || encoded(10, "first")).unwrap();

    // Try to store older snapshot at position 5 - should be declined
    let result = store.offer_snapshot("test", &id, 1, || encoded(5, "older")).unwrap();

    assert_eq!(result, SnapshotOffer::Declined);

    // Verify original snapshot is still there
    let loaded = store.load("test", &id, text).unwrap().unwrap();
    assert_eq!(loaded.position, 10);
    assert_eq!(loaded.data, "first");
}

#[test]
fn default_is_always() {
    let store = Store::<String, u64>::default();
    assert!(matches!(store.policy(), SnapshotPolicy::Always));
}

#[test]
fn equal_positions_are_declined_and_newer_ones_stored() {
    let mut store = Store::<String, u64>::always();
    let id = "a".to_string();
    assert_eq!(
        store.offer_snapshot("test", &id, 0, || encoded(4, "four")).unwrap(),
        SnapshotOffer::Stored
    );
    assert_eq!(
        store.offer_snapshot("test", &id, 0, || encoded(4, "again")).unwrap(),
        SnapshotOffer::Declined
    );
    assert_eq!(
        store.offer_snapshot("test", &id, 0, || encoded(5, "five")).unwrap(),
        SnapshotOffer::Stored
    );
    let held = store.lookup("test", &id).unwrap();
    assert_eq!(held.position, 5);
    assert_eq!(held.data, serde_json::Value::from("five"));
}

#[test]
fn instances_and_kinds_are_kept_apart() {
    let mut store = Store::<String, u64>::always();
    let (a, b) = ("a".to_string(), "b".to_string());
    store.offer_snapshot("test", &a, 0, || encoded(1, "of a")).unwrap();
    store.offer_snapshot("test", &b, 0, || encoded(2, "of b")).unwrap();
    store.offer_snapshot("else", &a, 0, || encoded(3, "else")).unwrap();
    assert_eq!(store.load("test", &a, text).unwrap().unwrap().data, "of a");
    assert_eq!(store.load("test", &b, text).unwrap().unwrap().data, "of b");
    assert_eq!(store.load("else", &a, text).unwrap().unwrap().data, "else");
    assert!(store.load("else", &b, text).unwrap().is_none());
}

#[test]
fn snapshots_are_created_only_when_due() {
    let mut store = Store::<String, u64>::every(3);
    let id = "a".to_string();
    let early = store.offer_snapshot("test", &id, 2, || -> Result<_, Infallible> {
        panic!("must not be created")
    });
    assert_eq!(early.unwrap(), SnapshotOffer::Declined);
    let due = store.offer_snapshot("test", &id, 3, || encoded(1, "due")).unwrap();
    assert_eq!(due, SnapshotOffer::Stored);

    let mut never = Store::<String, u64>::never();
    let offered = never.offer_snapshot("test", &id, 100, || encoded(1, "no")).unwrap();
    assert_eq!(offered, SnapshotOffer::Declined);
    assert!(never.lookup("test", &id).is_none());
}

#[test]
fn failures_are_told_apart_and_store_nothing() {
    let mut store = Store::<String, u64>::always();
    let id = "a".to_string();
    let failed = store.offer_snapshot("test", &id, 0, || Err("no state".to_string()));
    match failed {
        Err(OfferSnapshotError::Create(cause)) => assert_eq!(cause, "no state"),
        _ => panic!("expected the creation to fail"),
    }
    let unserialized = store.offer_snapshot("test", &id, 0, || {
        Ok::<_, Infallible>(Snapshot { position: 1, data: Err("not a number".to_string()) })
    });
    match unserialized {
        Err(OfferSnapshotError::Snapshot(Error::Serialization(cause))) => {
            assert_eq!(cause, "not a number");
        }
        _ => panic!("expected the serialization to fail"),
    }
    assert!(store.lookup("test", &id).is_none());

    store
        .store_snapshot("test", &id, Snapshot { position: 1, data: serde_json::Value::Null });
    match store.load("test", &id, text) {
        Err(Error::Deserialization(cause)) => assert_eq!(cause, "not a text"),
        _ => panic!("expected the deserialization to fail"),
    }
}

#[test]
fn snapshot_error_texts_read_in_full() {
    let created: OfferSnapshotError<io::Error, io::Error> =
        OfferSnapshotError::Create(io::Error::other("create failed"));
    assert_eq!(created.message(), "failed to create snapshot: create failed");
    assert_eq!(created.source().as_deref(), Some("create failed"));
    let stored: OfferSnapshotError<Error<String>, io::Error> =
        OfferSnapshotError::Snapshot(Error::serialization("no".to_string()));
    assert_eq!(stored.message(), "snapshot operation failed: serialization error: no");
    let read: Error<String> = Error::deserialization("bad".to_string());
    assert_eq!(read.message(), "deserialization error: bad");
    assert_eq!(read.source().as_deref(), Some("bad"));
}
