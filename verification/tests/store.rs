//! Filters, and the in-memory event store.

use sourcery::concurrency::ConcurrencyConflict;
use sourcery::event::{DecodeEvent, DomainEvent, EventKind};
use sourcery::message::Message;
use sourcery::repository::inmemory::{encode_all, EncodeEvent};
use sourcery::store::inmemory::{stage_events, EncodedEvent, InMemoryError, InMemoryEvent, Store};
use sourcery::store::{
    CommitError, EventFilter, NonEmpty, OptimisticCommitError, StoredEvent, StreamKey,
};
use sourcery::subscription::Delivery;

type MemStore = Store<String, ()>;

#[derive(Debug, Clone, PartialEq, Eq)]
struct TestEvent {
    value: i32,
}

impl DomainEvent for TestEvent {
    const KIND: &'static str = "test-event";
}

impl EncodeEvent<String> for TestEvent {
    fn to_json(&self) -> Result<serde_json::Value, String> {
        if self.value < 0 {
            return Err("negative".to_string());
        }
        let mut object = serde_json::Map::new();
        object.insert("value".to_string(), serde_json::Value::from(self.value));
        Ok(serde_json::Value::Object(object))
    }
}

impl DecodeEvent<MemStore> for TestEvent {
    fn decode_event(
        _store: &MemStore,
        stored: &InMemoryEvent<String, ()>,
    ) -> Result<Self, InMemoryError<String>> {
        match stored.data.get("value").and_then(serde_json::Value::as_i64) {
            Some(value) => Ok(TestEvent { value: value as i32 }),
            None => Err(InMemoryError::Deserialization("no value".to_string())),
        }
    }
}

fn one(value: i32) -> NonEmpty<EncodedEvent<String>> {
    encode_all(&NonEmpty::new(TestEvent { value }))
}

fn many(values: &[i32]) -> NonEmpty<EncodedEvent<String>> {
    let events: Vec<TestEvent> = values.iter().map(|value| TestEvent { value: *value }).collect();
    encode_all(&NonEmpty::from_vec(events).unwrap())
}

fn raw(kind: &str, value: u64) -> NonEmpty<EncodedEvent<String>> {
    NonEmpty::new(EncodedEvent {
        kind: kind.to_string(),
        data: Ok(serde_json::Value::from(value)),
    })
}

fn id(name: &str) -> String {
    name.to_string()
}

fn positions(events: &[InMemoryEvent<String, ()>]) -> Vec<u64> {
    events.iter().map(|event| event.position).collect()
}

#[test]
fn event_filter_for_event_is_unrestricted() {
    let filter: EventFilter<String> = EventFilter::for_event("my-event");
    assert_eq!(filter.event_kind, "my-event");
    assert_eq!(filter.aggregate_kind, None);
    assert_eq!(filter.aggregate_id, None);
    assert_eq!(filter.after_position, None);
}

#[test]
fn event_filter_for_aggregate_is_restricted() {
    let filter: EventFilter<String> = EventFilter::for_aggregate("my-event", "my-aggregate", "123");
    assert_eq!(filter.event_kind, "my-event");
    assert_eq!(filter.aggregate_kind.as_deref(), Some("my-aggregate"));
    assert_eq!(filter.aggregate_id.as_deref(), Some("123"));
    assert_eq!(filter.after_position, None);
}

#[test]
fn event_filter_after_sets_after_position() {
    let filter: EventFilter<String, u64> = EventFilter::for_event("e").after(10);
    assert_eq!(filter.after_position, Some(10));
}

#[test]
fn new_has_no_streams() {
    let store = MemStore::new();
    assert_eq!(store.stream_version("test-agg", &id("id")), None);
    assert_eq!(store.latest_checkpoint(), None);
    assert!(store.load_events(&[EventFilter::for_event("test-event")]).is_empty());
}

#[test]
fn decode_event_deserializes() {
    let store = MemStore::new();
    let event = TestEvent { value: 42 };
    let data = event.to_json().unwrap();

    // Create a stored event
    let stored = StoredEvent {
        aggregate_kind: "test-agg".to_string(),
        aggregate_id: "id".to_string(),
        kind: "test-event".to_string(),
        position: 0,
        data,
        metadata: (),
    };

    let decoded = TestEvent::decode_event(&store, &stored).unwrap();
    assert_eq!(decoded, event);
}

#[test]
fn error_display_serialization() {
    let err = InMemoryError::Serialization(std::io::Error::other("test"));
    assert!(err.message().contains("serialization error"));
}

#[test]
fn error_display_deserialization() {
    let err = InMemoryError::Deserialization(std::io::Error::other("test"));
    assert!(err.message().contains("deserialization error"));
}

#[test]
fn version_returns_none_for_new_stream() {
    let store = MemStore::new();
    let version = store.stream_version("test-agg", &"id".to_string());
    assert!(version.is_none());
}

#[test]
fn version_returns_position_after_commit() {
    let mut store = MemStore::new();
    let id = "id".to_string();

    store.commit_events("test-agg", &id, one(1), &()).unwrap();

    let version = store.stream_version("test-agg", &id);
    assert_eq!(version, Some(0));
}

#[test]
fn commit_with_wrong_version_returns_conflict() {
    let mut store = MemStore::new();
    let id = "id".to_string();

    // First, create the stream
    store.commit_events("test-agg", &id, one(1), &()).unwrap();

    // Try to commit with wrong expected version
    let result = store.commit_events_optimistic("test-agg", &id, Some(99), one(2), &());

    assert!(matches!(result, Err(OptimisticCommitError::Conflict(_))));
}

#[test]
fn commit_new_stream_fails_if_stream_exists() {
    let mut store = MemStore::new();
    let id = "id".to_string();

    // First, create the stream
    store.commit_events("test-agg", &id, one(1), &()).unwrap();

    // Try to commit expecting new stream
    let result = store.commit_events_optimistic("test-agg", &id, None, one(2), &());

    assert!(matches!(result, Err(OptimisticCommitError::Conflict(_))));
}

#[test]
fn conflicts_name_both_versions_and_write_nothing() {
    let mut store = MemStore::new();
    store.commit_events("agg", &id("a"), many(&[1, 2, 3]), &()).unwrap();
    match store.commit_events_optimistic("agg", &id("a"), Some(1), one(9), &()) {
        Err(OptimisticCommitError::Conflict(conflict)) => {
            assert_eq!(conflict, ConcurrencyConflict { expected: Some(1), actual: Some(2) });
        }
        _ => panic!("expected a conflict"),
    }
    match store.commit_events_optimistic("agg", &id("b"), Some(0), one(9), &()) {
        Err(OptimisticCommitError::Conflict(conflict)) => {
            assert_eq!(conflict, ConcurrencyConflict { expected: Some(0), actual: None });
        }
        _ => panic!("expected a conflict"),
    }
    assert_eq!(store.latest_checkpoint(), Some(2));
    let committed =
        store.commit_events_optimistic("agg", &id("a"), Some(2), one(4), &()).unwrap();
    assert_eq!(committed.last_position, 3);
    let committed = store.commit_events_optimistic("agg", &id("b"), None, one(5), &()).unwrap();
    assert_eq!(committed.last_position, 4);
}

#[test]
fn batches_are_all_or_nothing() {
    let mut store = MemStore::new();
    match store.commit_events("agg", &id("a"), many(&[1, 2, -3, -4]), &()) {
        Err(CommitError::Serialization { index, source: InMemoryError::Serialization(cause) }) => {
            assert_eq!(index, 2);
            assert_eq!(cause, "negative");
        }
        _ => panic!("expected a serialization failure"),
    }
    assert_eq!(store.latest_checkpoint(), None);
    match store.commit_events_optimistic("agg", &id("a"), Some(7), one(-1), &()) {
        Err(OptimisticCommitError::Serialization { index, .. }) => assert_eq!(index, 0),
        _ => panic!("expected a serialization failure"),
    }
}

#[test]
fn positions_are_global() {
    let mut store = MemStore::new();
    store.commit_events("agg", &id("a"), many(&[1, 2]), &()).unwrap();
    store.commit_events("agg", &id("b"), one(3), &()).unwrap();
    store.commit_events("agg", &id("a"), one(4), &()).unwrap();
    assert_eq!(store.stream_version("agg", &id("a")), Some(3));
    assert_eq!(store.stream_version("agg", &id("b")), Some(2));
    assert_eq!(store.stream_version("other", &id("a")), None);
    assert_eq!(store.checkpoint_for_position(&3), Some(3));
    assert_eq!(store.checkpoint_for_position(&4), None);
    let events = store.load_events(&[EventFilter::for_event("test-event")]);
    assert_eq!(positions(&events), vec![0, 1, 2, 3]);
    let values: Vec<i32> = events
        .iter()
        .map(|event| TestEvent::decode_event(&store, event).unwrap().value)
        .collect();
    assert_eq!(values, vec![1, 2, 3, 4]);
}

#[test]
fn overlapping_filters_give_each_event_once() {
    let mut store = MemStore::new();
    store.commit_events("agg", &id("a"), one(1), &()).unwrap();
    store.commit_events("agg", &id("b"), one(2), &()).unwrap();
    store.commit_events("agg", &id("a"), raw("other", 3), &()).unwrap();
    store.commit_events("else", &id("a"), one(4), &()).unwrap();

    let of_a = EventFilter::for_aggregate("test-event", "agg", id("a"));
    let every = EventFilter::for_event("test-event");
    assert_eq!(positions(&store.load_events(&[of_a.clone()])), vec![0]);
    assert_eq!(positions(&store.load_events(&[every.clone(), of_a.clone()])), vec![0, 1, 3]);
    let other = EventFilter::for_event("other");
    assert_eq!(positions(&store.load_events(&[other, of_a])), vec![0, 2]);
    assert_eq!(positions(&store.load_events(&[every.after(1)])), vec![3]);
    assert!(store.load_events(&[]).is_empty());
}

#[test]
fn loading_splits_at_any_position() {
    let mut store = MemStore::new();
    store.commit_events("agg", &id("a"), many(&[0, 1, 2, 3, 4]), &()).unwrap();
    let whole = positions(&store.load_events(&[EventFilter::for_event("test-event")]));
    for split in 0..5u64 {
        let later =
            positions(&store.load_events(&[EventFilter::for_event("test-event").after(split)]));
        let mut joined: Vec<u64> = whole.iter().copied().filter(|p| *p <= split).collect();
        joined.extend(later);
        assert_eq!(joined, whole);
    }
}

#[test]
fn stored_events_keep_what_was_committed() {
    let mut store: Store<String, u32> = Store::new();
    store
        .commit_events("agg", &id("a"), raw("noted", 17), &9)
        .unwrap();
    let events = store.load_events(&[EventFilter::for_event("noted")]);
    assert_eq!(events.len(), 1);
    assert_eq!(events[0].aggregate_kind(), "agg");
    assert_eq!(events[0].aggregate_id(), "a");
    assert_eq!(events[0].kind(), "noted");
    assert_eq!(events[0].position(), 0);
    assert_eq!(*events[0].metadata(), 9);
    assert_eq!(events[0].data, serde_json::Value::from(17u64));
}

#[test]
fn the_current_checkpoint_is_the_newest_match() {
    let mut store = MemStore::new();
    let noted = [EventFilter::for_event("noted")];
    assert_eq!(store.current_checkpoint(&noted), None);
    store.commit_events("agg", &id("a"), raw("noted", 0), &()).unwrap();
    store.commit_events("agg", &id("a"), raw("other", 1), &()).unwrap();
    assert_eq!(store.current_checkpoint(&noted), Some(0));
    assert_eq!(store.latest_checkpoint(), Some(1));
}

#[test]
fn draining_ends_with_the_frontier() {
    let mut store = MemStore::new();
    let filters = [EventFilter::for_event("noted")];
    let mut cursor = None;
    assert!(store.drain(&filters, &mut cursor).is_empty());

    store.commit_events("agg", &id("a"), raw("noted", 0), &()).unwrap();
    store.commit_events("agg", &id("a"), raw("other", 1), &()).unwrap();
    let deliveries = store.drain(&filters, &mut cursor);
    assert_eq!(deliveries.len(), 2);
    match &deliveries[0] {
        Delivery::Event(item) => assert_eq!((item.checkpoint, item.event.position), (0, 0)),
        Delivery::Frontier(_) => panic!("expected an event"),
    }
    assert!(matches!(&deliveries[1], Delivery::Frontier(1)));
    assert_eq!(cursor, Some(0));

    // Nothing comes twice, and nothing new is missed.
    let again = store.drain(&filters, &mut cursor);
    assert_eq!(again.len(), 1);
    assert!(matches!(&again[0], Delivery::Frontier(1)));
    store.commit_events("agg", &id("b"), raw("noted", 2), &()).unwrap();
    let more = store.drain(&filters, &mut cursor);
    assert_eq!(more.len(), 2);
    assert_eq!(cursor, Some(2));
}

#[test]
fn a_frontier_separates_what_came_from_what_comes() {
    let mut store = MemStore::new();
    let filters = [EventFilter::for_event("noted")];
    let mut cursor = Some(0);
    let mut positions = Vec::new();
    let mut frontiers = Vec::new();
    for round in 0..4 {
        store.commit_events("agg", &id("a"), raw("noted", round), &()).unwrap();
        store.commit_events("agg", &id("b"), raw("other", round), &()).unwrap();
        for delivery in store.drain(&filters, &mut cursor) {
            match delivery {
                Delivery::Event(item) => {
                    assert_eq!(item.checkpoint, item.event.position);
                    assert!(frontiers.iter().all(|frontier| item.checkpoint > *frontier));
                    positions.push(item.checkpoint);
                }
                Delivery::Frontier(frontier) => frontiers.push(frontier),
            }
        }
    }
    assert_eq!(positions, vec![2, 4, 6]);
    assert_eq!(frontiers, vec![1, 3, 5, 7]);
    // A committed position keeps its checkpoint.
    assert_eq!(store.checkpoint_for_position(&0), Some(0));
    assert_eq!(store.checkpoint_for_position(&8), None);
}

#[test]
fn staging_reports_the_first_failure() {
    match stage_events(many(&[1, -2, -3])) {
        Err((index, InMemoryError::Serialization(cause))) => {
            assert_eq!((index, cause.as_str()), (1, "negative"));
        }
        _ => panic!("expected a failure"),
    }
    let staged = stage_events(many(&[1, 2])).unwrap();
    assert_eq!(staged.len(), 2);
    assert_eq!(staged[1].0, "test-event");
    assert_eq!(staged[1].1.get("value"), Some(&serde_json::Value::from(2)));
}

#[test]
fn commit_error_texts_read_in_full() {
    let unserialized: CommitError<InMemoryError<String>> = CommitError::Serialization {
        index: 12,
        source: InMemoryError::Serialization("negative".to_string()),
    };
    assert_eq!(unserialized.message(), "failed to serialize event at index 12");
    assert_eq!(unserialized.source().as_deref(), Some("serialization error: negative"));
    let failed: CommitError<String> = CommitError::Store("offline".to_string());
    assert_eq!(failed.message(), "store error: offline");

    let conflict = ConcurrencyConflict { expected: Some(1u64), actual: None };
    let text = conflict.message();
    let raced: OptimisticCommitError<u64, String> = OptimisticCommitError::from(conflict);
    assert_eq!(raced.message(), text);
    assert!(raced.source().is_none());
    let failed: OptimisticCommitError<u64, String> =
        OptimisticCommitError::Store("offline".to_string());
    assert_eq!(failed.message(), "store error: offline");
    assert_eq!(failed.source().as_deref(), Some("offline"));
}

#[test]
fn event_kinds_follow_from_the_type() {
    assert_eq!(TestEvent { value: 0 }.kind(), "test-event");
    let key = StreamKey::new("agg", id("a"));
    assert_eq!(key.aggregate_kind, "agg");
    assert_eq!(key.aggregate_id, "a");
}
