//! The given-when-then framework, and seeding repositories.

use sourcery::aggregate::{Aggregate, Handle, HandleCreate};
use sourcery::event::{DomainEvent, EventDecodeError, EventKind, ProjectionEvent};
use sourcery::message::Message;
use sourcery::repository::inmemory::EncodeEvent;
use sourcery::repository::Repository;
use sourcery::store::inmemory::{InMemoryError, InMemoryEvent, Store};
use sourcery::test::{RepositoryTestExt, SeedError, StoreAccess, TestFramework};

#[derive(Debug, Clone, PartialEq, Eq)]
struct ValueAdded {
    amount: i32,
}

#[derive(Debug, Clone, PartialEq, Eq)]
struct ValueSubtracted {
    amount: i32,
}

#[derive(Debug, Clone, PartialEq, Eq)]
enum CounterEvent {
    Added(ValueAdded),
    Subtracted(ValueSubtracted),
}

#[derive(Debug, Default)]
struct Counter {
    value: i32,
}

impl Aggregate for Counter {
    const KIND: &'static str = "counter";

    type Event = CounterEvent;

    type Error = String;

    type Id = String;

    fn create(event: &Self::Event) -> Self {
        let mut counter = Counter::default();
        counter.apply(event);
        counter
    }

    fn apply(&mut self, event: &Self::Event) {
        match event {
            CounterEvent::Added(e) => self.value += e.amount,
            CounterEvent::Subtracted(e) => self.value -= e.amount,
        }
    }
}

struct AddValue {
    amount: i32,
}

struct SubtractValue {
    amount: i32,
}

impl Handle<AddValue> for Counter {
    type HandleError = String;

    fn handle(&self, command: &AddValue) -> Result<Vec<Self::Event>, Self::HandleError> {
        if command.amount <= 0 {
            return Err("amount must be positive".to_string());
        }
        Ok(vec![CounterEvent::Added(ValueAdded {
            amount: command.amount,
        })])
    }
}

impl HandleCreate<AddValue> for Counter {
    type HandleCreateError = &'static str;

    fn handle_create(command: &AddValue) -> Result<Vec<Self::Event>, Self::HandleCreateError> {
        if command.amount <= 0 {
            return Err("amount must be positive");
        }
        Ok(vec![CounterEvent::Added(ValueAdded {
            amount: command.amount,
        })])
    }
}

impl Handle<SubtractValue> for Counter {
    type HandleError = String;

    fn handle(&self, command: &SubtractValue) -> Result<Vec<Self::Event>, Self::HandleError> {
        if command.amount <= 0 {
            return Err("amount must be positive".to_string());
        }
        if self.value < command.amount {
            return Err("insufficient value".to_string());
        }
        Ok(vec![CounterEvent::Subtracted(ValueSubtracted {
            amount: command.amount,
        })])
    }
}

struct NoOp;

impl Handle<NoOp> for Counter {
    type HandleError = String;

    fn handle(&self, _: &NoOp) -> Result<Vec<Self::Event>, Self::HandleError> {
        Ok(vec![])
    }
}

type CounterTest = TestFramework<Counter>;

#[test]
fn given_no_events_when_add_then_produces_event() {
    assert!(CounterTest::new()
        .given_no_previous_events()
        .when(&AddValue { amount: 10 })
        .then_expect_events(&[CounterEvent::Added(ValueAdded { amount: 10 })]));
}

#[test]
fn given_events_when_subtract_then_produces_event() {
    assert!(CounterTest::new()
        .given(&[CounterEvent::Added(ValueAdded { amount: 20 })])
        .when(&SubtractValue { amount: 5 })
        .then_expect_events(&[CounterEvent::Subtracted(ValueSubtracted { amount: 5 })]));
}

#[test]
fn given_insufficient_balance_when_subtract_then_error() {
    assert!(CounterTest::new()
        .given(&[CounterEvent::Added(ValueAdded { amount: 10 })])
        .when(&SubtractValue { amount: 20 })
        .then_expect_error());
}

#[test]
fn given_insufficient_balance_when_subtract_then_error_message() {
    assert!(CounterTest::new()
        .given(&[CounterEvent::Added(ValueAdded { amount: 10 })])
        .when(&SubtractValue { amount: 20 })
        .then_expect_error_message("insufficient value"));
}

#[test]
fn given_events_and_more_events_when_command() {
    assert!(CounterTest::new()
        .given(&[CounterEvent::Added(ValueAdded { amount: 10 })])
        .and(vec![CounterEvent::Added(ValueAdded { amount: 5 })])
        .when(&SubtractValue { amount: 12 })
        .then_expect_events(&[CounterEvent::Subtracted(ValueSubtracted { amount: 12 })]));
}

#[test]
fn invalid_command_returns_error() {
    assert!(CounterTest::new()
        .given_no_previous_events()
        .when(&AddValue { amount: -5 })
        .then_expect_error_message("amount must be positive"));
}

#[test]
fn inspect_result_returns_raw_result() {
    let result = CounterTest::new()
        .given_no_previous_events()
        .when(&AddValue { amount: 10 })
        .inspect_result();

    assert!(result.is_ok());
    assert_eq!(result.unwrap().len(), 1);
}

#[test]
fn default_creates_new_framework() {
    let _framework: TestFramework<Counter> = TestFramework::default();
}

#[test]
fn no_op_command_produces_no_events() {
    assert!(CounterTest::new()
        .given_no_previous_events()
        .when(&NoOp)
        .then_expect_no_events());
}

#[test]
fn then_expect_error_eq_matches_error_value() {
    assert!(CounterTest::new()
        .given_no_previous_events()
        .when(&AddValue { amount: -5 })
        .then_expect_error_eq(&"amount must be positive".to_string()));
}

#[test]
fn expectations_that_are_not_met_say_so() {
    let ten = [CounterEvent::Added(ValueAdded { amount: 10 })];
    let add = |amount| CounterTest::new().given_no_previous_events().when(&AddValue { amount });
    assert!(!add(11).then_expect_events(&ten));
    assert!(!add(10).then_expect_events(&[]));
    assert!(!add(-1).then_expect_events(&ten));
    assert!(!add(10).then_expect_no_events());
    assert!(!add(-1).then_expect_no_events());
    assert!(!add(10).then_expect_error());
    assert!(!add(10).then_expect_error_message("positive"));
    assert!(!add(-1).then_expect_error_message("negative"));
    assert!(!add(-1).then_expect_error_message("amount must be positive, always"));
    assert!(!add(-1).then_expect_error_eq(&"amount".to_string()));
    assert!(!add(10).then_expect_error_eq(&"amount must be positive".to_string()));
}

#[test]
fn error_messages_are_searched_everywhere() {
    let failed = || {
        CounterTest::new()
            .given_no_previous_events()
            .when(&AddValue { amount: -5 })
    };
    assert!(failed().then_expect_error_message("amount"));
    assert!(failed().then_expect_error_message("must be"));
    assert!(failed().then_expect_error_message("positive"));
    assert!(failed().then_expect_error_message(""));
}

#[test]
fn creation_commands_convert_their_errors() {
    assert!(CounterTest::new()
        .when_create(&AddValue { amount: 3 })
        .then_expect_events(&[CounterEvent::Added(ValueAdded { amount: 3 })]));
    assert!(CounterTest::new()
        .when_create(&AddValue { amount: 0 })
        .then_expect_error_eq(&"amount must be positive".to_string()));
}

#[derive(Debug, Clone, PartialEq, Eq)]
struct PointsAdded {
    points: i32,
}

impl DomainEvent for PointsAdded {
    const KIND: &'static str = "points-added";
}

#[derive(Debug, Clone, PartialEq, Eq)]
enum ScoreEvent {
    Added(PointsAdded),
}

impl From<PointsAdded> for ScoreEvent {
    fn from(e: PointsAdded) -> Self {
        Self::Added(e)
    }
}

impl EventKind for ScoreEvent {
    fn kind(&self) -> &'static str {
        match self {
            Self::Added(e) => e.kind(),
        }
    }
}

impl EncodeEvent<String> for ScoreEvent {
    fn to_json(&self) -> Result<serde_json::Value, String> {
        match self {
            Self::Added(e) if e.points < 0 => Err("points cannot be taken away".to_string()),
            Self::Added(e) => {
                let mut object = serde_json::Map::new();
                object.insert("points".to_string(), serde_json::Value::from(e.points));
                Ok(serde_json::Value::Object(object))
            }
        }
    }
}

type MemStore = Store<String, ()>;

impl ProjectionEvent<MemStore> for ScoreEvent {
    const EVENT_KINDS: &'static [&'static str] = &[PointsAdded::KIND];

    fn from_stored(
        stored: &InMemoryEvent<String, ()>,
        _store: &MemStore,
    ) -> Result<Self, EventDecodeError<InMemoryError<String>>> {
        if stored.kind != PointsAdded::KIND {
            return Err(EventDecodeError::UnknownKind {
                kind: stored.kind.clone(),
                expected: Self::EVENT_KINDS,
            });
        }
        match stored.data.get("points").and_then(serde_json::Value::as_i64) {
            Some(points) => Ok(Self::Added(PointsAdded { points: points as i32 })),
            None => Err(EventDecodeError::Store(InMemoryError::Deserialization(
                "no points".to_string(),
            ))),
        }
    }
}

#[derive(Debug, Default)]
struct Score {
    total: i32,
}

impl Aggregate for Score {
    const KIND: &'static str = "score";

    type Event = ScoreEvent;

    type Error = String;

    type Id = String;

    fn create(event: &Self::Event) -> Self {
        let mut score = Score::default();
        score.apply(event);
        score
    }

    fn apply(&mut self, event: &Self::Event) {
        match event {
            ScoreEvent::Added(e) => self.total += e.points,
        }
    }
}

#[test]
fn seed_events_appends_typed_events() {
    let store = MemStore::new();
    let mut repo = Repository::new(store);
    let id = "s1".to_string();

    repo.seed_events::<Score>(
        &id,
        vec![
            PointsAdded { points: 10 }.into(),
            PointsAdded { points: 20 }.into(),
        ],
    )
    .unwrap();

    assert_eq!(repo.store().stream_version(Score::KIND, &id), Some(1));

    // Verify events are loadable
    let loaded: Score = repo.load(&id).unwrap().unwrap();
    assert_eq!(loaded.total, 30);
}

#[test]
fn inject_concurrent_event_appends_single_event() {
    let mut repo = Repository::new(MemStore::new());
    let id = "s1".to_string();

    // Seed initial state
    repo.seed_events::<Score>(&id, vec![PointsAdded { points: 100 }.into()])
        .unwrap();

    // Inject concurrent event
    repo.inject_concurrent_event::<Score>(&id, PointsAdded { points: 50 }.into())
        .unwrap();

    assert_eq!(repo.store().stream_version(Score::KIND, &id), Some(1));

    // Verify both events are reflected
    let loaded: Score = repo.load(&id).unwrap().unwrap();
    assert_eq!(loaded.total, 150);
}

#[test]
fn inject_raw_event_appends_raw_bytes() {
    let mut repo = Repository::new(MemStore::new());

    // Inject raw event with pre-serialized data
    repo.inject_raw_event(
        "score",
        &"s1".to_string(),
        "points-added",
        serde_json::from_str(r#"{"points":42}"#).unwrap(),
        (),
    );

    // Verify event is loadable
    let loaded: Score = repo.load(&"s1".to_string()).unwrap().unwrap();
    assert_eq!(loaded.total, 42);
}

#[test]
fn seeding_nothing_changes_nothing() {
    let mut repo = Repository::new(MemStore::new());
    let id = "s1".to_string();
    repo.seed_events::<Score>(&id, vec![]).unwrap();
    assert_eq!(repo.store().latest_checkpoint(), None);
    let loaded: Option<Score> = repo.load(&id).unwrap();
    assert!(loaded.is_none());
}

#[test]
fn seeding_fails_as_a_whole() {
    let mut repo = Repository::new(MemStore::new());
    let id = "s1".to_string();
    let failed = repo.seed_events::<Score>(
        &id,
        vec![
            PointsAdded { points: 1 }.into(),
            PointsAdded { points: -1 }.into(),
        ],
    );
    match &failed {
        Err(SeedError::Codec(cause)) => assert_eq!(cause, "points cannot be taken away"),
        _ => panic!("expected a codec failure"),
    }
    assert_eq!(
        failed.unwrap_err().message(),
        "failed to serialize event: points cannot be taken away"
    );
    assert_eq!(repo.store().latest_checkpoint(), None);
    let error: SeedError<String, String> = SeedError::Store("offline".to_string());
    assert_eq!(error.message(), "failed to persist event: offline");
}
