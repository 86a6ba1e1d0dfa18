//! Commands, loads and projections over the in-memory store.

use std::convert::Infallible;
use std::io;

use sourcery::aggregate::{Aggregate, Handle, HandleCreate};
use sourcery::concurrency::{ConcurrencyConflict, Optimistic};
use sourcery::event::{DecodeEvent, DomainEvent, EventDecodeError, EventKind, ProjectionEvent};
use sourcery::message::Message;
use sourcery::projection::{
    ApplyProjection, DomainHandler, EventHandler, Filters, HandlerError, Projection,
    ProjectionError, ProjectionFilters, Subscribable, SumHandler,
};
use sourcery::repository::inmemory::{EncodeEvent, SnapshotState};
use sourcery::repository::{
    after_attempt, apply_all, create_from_new_events, decide, usable_snapshot, Attempt, CommandError,
    CommitPolicyError, LifecycleError, LoadedAggregate, Pending, Repository,
};
use sourcery::snapshot::inmemory as snapshots;
use sourcery::snapshot::{OfferSnapshotError, Snapshot, SnapshotOffer};
use sourcery::store::inmemory::{InMemoryError, InMemoryEvent, Store};
use sourcery::store::{NonEmpty, StoredEvent};
use sourcery::subscription::inmemory::start;
use sourcery::subscription::{
    load_snapshot, startup_failure, stop_outcome, was_stored, AwaitError, Checkpointed,
    ConsistencyToken, Delivery, SubscriptionError, SubscriptionLoop, TaskEnd,
};
use sourcery::test::RepositoryTestExt;

type MemStore = Store<String, u32>;

fn number(key: &str, value: i64) -> serde_json::Value {
    let mut object = serde_json::Map::new();
    object.insert(key.to_string(), serde_json::Value::from(value));
    serde_json::Value::Object(object)
}

fn read(data: &serde_json::Value, key: &str) -> Result<i64, String> {
    data.get(key)
        .and_then(serde_json::Value::as_i64)
        .ok_or(format!("no {key}"))
}

#[derive(Debug, Clone, PartialEq, Eq)]
struct Opened {
    balance: i64,
}

#[derive(Debug, Clone, PartialEq, Eq)]
struct Moved {
    amount: i64,
}

impl DomainEvent for Opened {
    const KIND: &'static str = "account.opened";
}

impl DomainEvent for Moved {
    const KIND: &'static str = "account.moved";
}

impl DecodeEvent<MemStore> for Moved {
    fn decode_event(
        _store: &MemStore,
        stored: &InMemoryEvent<String, u32>,
    ) -> Result<Self, InMemoryError<String>> {
        match read(&stored.data, "amount") {
            Ok(amount) => Ok(Moved { amount }),
            Err(cause) => Err(InMemoryError::Deserialization(cause)),
        }
    }
}

#[derive(Debug, Clone, PartialEq, Eq)]
enum AccountEvent {
    Opened(Opened),
    Moved(Moved),
}

impl EventKind for AccountEvent {
    fn kind(&self) -> &'static str {
        match self {
            AccountEvent::Opened(event) => event.kind(),
            AccountEvent::Moved(event) => event.kind(),
        }
    }
}

impl EncodeEvent<String> for AccountEvent {
    fn to_json(&self) -> Result<serde_json::Value, String> {
        match self {
            AccountEvent::Opened(event) => Ok(number("balance", event.balance)),
            AccountEvent::Moved(event) if event.amount == 13 => Err("unlucky".to_string()),
            AccountEvent::Moved(event) => Ok(number("amount", event.amount)),
        }
    }
}

impl ProjectionEvent<MemStore> for AccountEvent {
    const EVENT_KINDS: &'static [&'static str] = &[Opened::KIND, Moved::KIND];

    fn from_stored(
        stored: &InMemoryEvent<String, u32>,
        _store: &MemStore,
    ) -> Result<Self, EventDecodeError<InMemoryError<String>>> {
        let decoded = match stored.kind() {
            "account.opened" => read(&stored.data, "balance")
                .map(|balance| AccountEvent::Opened(Opened { balance })),
            "account.moved" => read(&stored.data, "amount")
                .map(|amount| AccountEvent::Moved(Moved { amount })),
            kind => {
                return Err(EventDecodeError::UnknownKind {
                    kind: kind.to_string(),
                    expected: Self::EVENT_KINDS,
                })
            }
        };
        decoded.map_err(|cause| EventDecodeError::Store(InMemoryError::Deserialization(cause)))
    }
}

#[derive(Debug, Clone, PartialEq, Eq)]
struct Account {
    balance: i64,
}

impl Aggregate for Account {
    const KIND: &'static str = "account";

    type Event = AccountEvent;

    type Error = String;

    type Id = String;

    fn create(event: &AccountEvent) -> Self {
        match event {
            AccountEvent::Opened(opened) => Account { balance: opened.balance },
            AccountEvent::Moved(moved) => Account { balance: moved.amount },
        }
    }

    fn apply(&mut self, event: &AccountEvent) {
        match event {
            AccountEvent::Opened(opened) => self.balance = opened.balance,
            AccountEvent::Moved(moved) => self.balance += moved.amount,
        }
    }
}

impl SnapshotState<String> for Account {
    fn freeze(&self) -> Result<serde_json::Value, String> {
        if self.balance == 666 {
            return Err("not to be written down".to_string());
        }
        Ok(number("balance", self.balance))
    }

    fn revive(value: serde_json::Value) -> Result<Self, String> {
        read(&value, "balance").map(|balance| Account { balance })
    }
}

struct Open {
    balance: i64,
}

struct Deposit {
    amounts: Vec<i64>,
}

struct Close;

impl HandleCreate<Open> for Account {
    type HandleCreateError = &'static str;

    fn handle_create(command: &Open) -> Result<Vec<AccountEvent>, &'static str> {
        if command.balance < 0 {
            return Err("no overdraft");
        }
        Ok(vec![AccountEvent::Opened(Opened { balance: command.balance })])
    }
}

impl Handle<Deposit> for Account {
    type HandleError = String;

    fn handle(&self, command: &Deposit) -> Result<Vec<AccountEvent>, String> {
        let sum: i64 = command.amounts.iter().sum();
        if self.balance + sum < 0 {
            return Err(format!("only {} left", self.balance));
        }
        Ok(command
            .amounts
            .iter()
            .map(|amount| AccountEvent::Moved(Moved { amount: *amount }))
            .collect())
    }
}

impl HandleCreate<Deposit> for Account {
    type HandleCreateError = String;

    fn handle_create(command: &Deposit) -> Result<Vec<AccountEvent>, String> {
        Ok(command
            .amounts
            .iter()
            .map(|amount| AccountEvent::Opened(Opened { balance: *amount }))
            .collect())
    }
}

impl HandleCreate<Close> for Account {
    type HandleCreateError = String;

    fn handle_create(_command: &Close) -> Result<Vec<AccountEvent>, String> {
        Ok(vec![])
    }
}

fn id(name: &str) -> String {
    name.to_string()
}

fn deposit(amounts: &[i64]) -> Deposit {
    Deposit { amounts: amounts.to_vec() }
}

fn balance<C, M>(repo: &Repository<MemStore, C, M>, name: &str) -> Option<i64>
where
    C: sourcery::repository::inmemory::CommitPolicy,
    M: sourcery::repository::inmemory::SnapshotPolicy<Account, String>,
{
    let loaded: Option<Account> = repo.load(&id(name)).unwrap();
    loaded.map(|account| account.balance)
}

#[test]
fn command_error_display_mentions_aggregate() {
    let error: CommandError<String, Infallible, io::Error, Infallible> =
        CommandError::Aggregate("invalid state".to_string());
    let msg = error.message();
    assert!(msg.contains("aggregate rejected command"));
    assert!(error.source().is_none());
}

#[test]
fn command_error_store_has_source() {
    let error: CommandError<String, Infallible, io::Error, Infallible> =
        CommandError::Store(io::Error::other("store error"));
    assert!(error.source().is_some());
}

#[test]
fn optimistic_command_error_concurrency_mentions_conflict() {
    let conflict = ConcurrencyConflict {
        expected: Some(1u64),
        actual: Some(2u64),
    };
    let error: CommandError<String, ConcurrencyConflict<u64>, io::Error, Infallible> =
        CommandError::Concurrency(conflict);
    let msg = error.message();
    assert!(msg.contains("concurrency conflict"));
    assert!(error.source().is_none());
}

#[test]
fn error_display_store_mentions_loading() {
    let error: ProjectionError<io::Error> = ProjectionError::Store(io::Error::other("not found"));
    let msg = error.message();
    assert!(msg.contains("failed to load events"));
    assert!(error.source().is_some());
}

#[test]
fn subscription_error_store_displays() {
    let err: SubscriptionError<io::Error> = SubscriptionError::Store(io::Error::other("test"));
    assert!(err.message().contains("store error"));
    assert!(err.source().is_some());
}

#[test]
fn subscription_error_task_panicked_displays() {
    let err: SubscriptionError<io::Error> = SubscriptionError::TaskPanicked;
    assert!(err.message().contains("panicked"));
}

#[test]
fn what_is_committed_is_loaded_back() {
    let mut repo = Repository::new(MemStore::new());
    assert_eq!(balance(&repo, "a"), None);
    repo.create::<Account, _>(&id("a"), &Open { balance: 10 }, &1).unwrap();
    repo.update::<Account, _>(&id("a"), &deposit(&[5, -3]), &2).unwrap();
    repo.create::<Account, _>(&id("b"), &Open { balance: 1 }, &3).unwrap();
    assert_eq!(balance(&repo, "a"), Some(12));
    assert_eq!(balance(&repo, "b"), Some(1));
    let loaded: LoadedAggregate<Account, u64> = repo.load_aggregate(&id("a")).unwrap().unwrap();
    assert_eq!(loaded.version, Some(2));
    assert_eq!(loaded.events_since_snapshot, 3);
}

#[test]
fn lifecycles_are_enforced() {
    let mut repo = Repository::new(MemStore::new());
    let missing = repo.update::<Account, _>(&id("a"), &deposit(&[1]), &0);
    assert!(matches!(
        missing,
        Err(CommandError::Lifecycle(LifecycleError::AggregateNotFound))
    ));
    repo.create::<Account, _>(&id("a"), &Open { balance: 10 }, &0).unwrap();
    let taken = repo.create::<Account, _>(&id("a"), &Open { balance: 10 }, &0);
    assert!(matches!(
        taken,
        Err(CommandError::Lifecycle(LifecycleError::AggregateAlreadyExists))
    ));
    assert_eq!(repo.event_store().latest_checkpoint(), Some(0));
}

#[test]
fn upserts_create_and_then_update() {
    let mut repo = Repository::new(MemStore::new());
    repo.upsert::<Account, _>(&id("a"), &deposit(&[7]), &0).unwrap();
    assert_eq!(balance(&repo, "a"), Some(7));
    repo.upsert::<Account, _>(&id("a"), &deposit(&[7]), &0).unwrap();
    assert_eq!(balance(&repo, "a"), Some(14));
}

#[test]
fn rejected_commands_leave_no_trace() {
    let mut repo = Repository::new(MemStore::new());
    let refused = repo.create::<Account, _>(&id("a"), &Open { balance: -1 }, &0);
    assert!(matches!(refused, Err(CommandError::Aggregate(cause)) if cause == "no overdraft"));
    repo.create::<Account, _>(&id("a"), &Open { balance: 1 }, &0).unwrap();
    let refused = repo.update::<Account, _>(&id("a"), &deposit(&[-2]), &0);
    assert!(matches!(refused, Err(CommandError::Aggregate(cause)) if cause == "only 1 left"));
    let unwritten = repo.update::<Account, _>(&id("a"), &deposit(&[1, 13]), &0);
    assert!(matches!(
        unwritten,
        Err(CommandError::Store(InMemoryError::Serialization(cause))) if cause == "unlucky"
    ));
    assert_eq!(repo.event_store().latest_checkpoint(), Some(0));
}

#[test]
fn commands_without_events_write_nothing() {
    let mut repo = Repository::new(MemStore::new());
    repo.create::<Account, _>(&id("a"), &Close, &0).unwrap();
    assert_eq!(repo.event_store().latest_checkpoint(), None);
    repo.create::<Account, _>(&id("a"), &Open { balance: 1 }, &0).unwrap();
    repo.update::<Account, _>(&id("a"), &deposit(&[]), &0).unwrap();
    assert_eq!(repo.event_store().latest_checkpoint(), Some(0));
}

#[test]
fn unreadable_streams_cannot_be_rebuilt() {
    let mut repo = Repository::new(MemStore::new());
    repo.inject_raw_event("account", &id("a"), "account.opened", serde_json::Value::Null, 0);
    let loaded: Result<Option<Account>, _> = repo.load(&id("a"));
    assert!(matches!(
        loaded,
        Err(ProjectionError::EventDecode(EventDecodeError::Store(
            InMemoryError::Deserialization(_)
        )))
    ));
    let refused = repo.update::<Account, _>(&id("a"), &deposit(&[1]), &0);
    assert!(matches!(refused, Err(CommandError::Projection(_))));
}

#[test]
fn stale_decisions_conflict() {
    let mut repo = Repository::new(MemStore::new());
    repo.create::<Account, _>(&id("a"), &Open { balance: 10 }, &0).unwrap();
    let base: LoadedAggregate<Account, u64> = repo.load_aggregate(&id("a")).unwrap().unwrap();
    repo.inject_concurrent_event::<Account>(&id("a"), AccountEvent::Moved(Moved { amount: -9 }))
        .unwrap();
    let pending = Pending {
        base: Some(base),
        events: NonEmpty::new(AccountEvent::Moved(Moved { amount: -9 })),
    };
    match repo.persist_events::<Account>(&id("a"), pending, &0) {
        Err(CommandError::Concurrency(conflict)) => {
            assert_eq!(conflict, ConcurrencyConflict { expected: Some(0), actual: Some(1) });
        }
        _ => panic!("expected a conflict"),
    }
    assert_eq!(balance(&repo, "a"), Some(1));
}

#[test]
fn the_last_writer_wins_without_checks() {
    let mut repo = Repository::new(MemStore::new()).without_concurrency_checking();
    repo.create::<Account, _>(&id("a"), &Open { balance: 10 }, &0).unwrap();
    let base: LoadedAggregate<Account, u64> = repo.load_aggregate(&id("a")).unwrap().unwrap();
    repo.inject_concurrent_event::<Account>(&id("a"), AccountEvent::Moved(Moved { amount: -9 }))
        .unwrap();
    let pending = Pending {
        base: Some(base),
        events: NonEmpty::new(AccountEvent::Moved(Moved { amount: -9 })),
    };
    assert!(repo.persist_events::<Account>(&id("a"), pending, &0).is_ok());
    assert_eq!(balance(&repo, "a"), Some(-8));
}

#[test]
fn retrying_counts_attempts() {
    let mut repo = Repository::new(MemStore::new());
    repo.create::<Account, _>(&id("a"), &Open { balance: 10 }, &0).unwrap();
    let attempts = repo.update_with_retry::<Account, _>(&id("a"), &deposit(&[1]), &0, 3);
    assert!(matches!(attempts, Ok(1)));
    let missing = repo.update_with_retry::<Account, _>(&id("b"), &deposit(&[1]), &0, 3);
    assert!(matches!(missing, Err(CommandError::Lifecycle(_))));

    type Failure = CommandError<String, ConcurrencyConflict<u64>, String, Infallible>;
    let conflict =
        || -> Failure { CommandError::Concurrency(ConcurrencyConflict { expected: None, actual: None }) };
    assert!(matches!(after_attempt(1, 2, Err(conflict())), Attempt::Again));
    assert!(matches!(after_attempt(2, 2, Err(conflict())), Attempt::Again));
    assert!(matches!(
        after_attempt(3, 2, Err(conflict())),
        Attempt::Done(Err(CommandError::Concurrency(_)))
    ));
    assert!(matches!(after_attempt::<String, u64, String, u64>(3, 2, Ok(())), Attempt::Done(Ok(3))));
    let fatal: Failure = CommandError::Store("offline".to_string());
    assert!(matches!(
        after_attempt(1, 2, Err(fatal)),
        Attempt::Done(Err(CommandError::Store(_)))
    ));
}

#[test]
fn a_snapshot_that_claims_too_much_makes_every_attempt_conflict() {
    let mut held = snapshots::Store::<String, u64>::never();
    held.store_snapshot("account", &id("a"), Snapshot { position: 9, data: number("balance", 5) });
    let mut repo = Repository::new(MemStore::new()).with_snapshots(held);
    repo.seed_events::<Account>(&id("a"), vec![AccountEvent::Opened(Opened { balance: 5 })])
        .unwrap();
    let failed = repo.update_with_retry::<Account, _>(&id("a"), &deposit(&[1]), &0, 2);
    assert!(matches!(failed, Err(CommandError::Concurrency(_))));
    assert_eq!(repo.event_store().latest_checkpoint(), Some(0));
}

#[test]
fn a_snapshot_alone_is_no_aggregate() {
    let mut held = snapshots::Store::<String, u64>::never();
    held.store_snapshot("account", &id("a"), Snapshot { position: 0, data: number("balance", 5) });
    let mut repo = Repository::new(MemStore::new()).with_snapshots(held);
    assert!(repo.load::<Account>(&id("a")).unwrap().is_none());
    // Once the stream has events, the snapshot stands for those up to its position.
    repo.create::<Account, _>(&id("a"), &Open { balance: 5 }, &0).unwrap();
    assert_eq!(repo.load::<Account>(&id("a")).unwrap(), Some(Account { balance: 5 }));
    assert!(repo.load::<Account>(&id("b")).unwrap().is_none());
}

#[test]
fn snapshots_do_not_change_what_is_loaded() {
    let mut plain = Repository::new(MemStore::new());
    let mut quick = Repository::new(MemStore::new())
        .with_snapshots(snapshots::Store::<String, u64>::every(2));
    for step in 0..6i64 {
        if step == 0 {
            plain.create::<Account, _>(&id("a"), &Open { balance: 100 }, &0).unwrap();
            quick.create::<Account, _>(&id("a"), &Open { balance: 100 }, &0).unwrap();
        } else {
            plain.update::<Account, _>(&id("a"), &deposit(&[step]), &0).unwrap();
            quick.update::<Account, _>(&id("a"), &deposit(&[step]), &0).unwrap();
        }
        assert_eq!(balance(&plain, "a"), balance(&quick, "a"));
    }
    let held = quick.snapshot_store().lookup("account", &id("a")).unwrap();
    assert_eq!(held.position, 5);
    assert_eq!(held.data, number("balance", 115));
    let loaded: LoadedAggregate<Account, u64> = quick.load_aggregate(&id("a")).unwrap().unwrap();
    assert_eq!(loaded.events_since_snapshot, 0);
    assert_eq!(loaded.version, Some(5));
}

#[test]
fn a_snapshot_that_fails_comes_after_the_commit() {
    let mut repo = Repository::new(MemStore::new())
        .with_snapshots(snapshots::Store::<String, u64>::always());
    let failed = repo.create::<Account, _>(&id("a"), &Open { balance: 666 }, &0);
    assert!(matches!(
        failed,
        Err(CommandError::Snapshot(snapshots::Error::Serialization(_)))
    ));
    assert_eq!(balance(&repo, "a"), Some(666));
}

#[test]
fn unreadable_snapshots_are_passed_over() {
    let mut held = snapshots::Store::<String, u64>::never();
    held.store_snapshot("account", &id("a"), Snapshot { position: 0, data: serde_json::Value::Null });
    let mut repo = Repository::new(MemStore::new()).with_snapshots(held);
    repo.create::<Account, _>(&id("a"), &Open { balance: 4 }, &0).unwrap();
    assert_eq!(balance(&repo, "a"), Some(4));
    assert_eq!(
        usable_snapshot::<_, _, String>(Ok(Some(Snapshot { position: 1u64, data: "s" }))),
        Some(("s", 1))
    );
    assert_eq!(usable_snapshot::<&str, u64, _>(Err("bad")), None);
    assert_eq!(usable_snapshot::<&str, u64, &str>(Ok(None)), None);
}

#[test]
fn new_events_build_state_on_their_own() {
    let events = NonEmpty {
        head: AccountEvent::Opened(Opened { balance: 3 }),
        tail: vec![AccountEvent::Moved(Moved { amount: 4 })],
    };
    assert_eq!(create_from_new_events::<Account>(&events), Account { balance: 7 });
    let none: Result<Option<NonEmpty<u8>>, String> = decide(Ok::<_, &str>(vec![]));
    assert_eq!(none, Ok(None));
    let some: Result<Option<NonEmpty<u8>>, String> = decide(Ok::<_, &str>(vec![1, 2]));
    assert_eq!(some, Ok(Some(NonEmpty { head: 1, tail: vec![2] })));
    let failed: Result<Option<NonEmpty<u8>>, String> = decide(Err("no"));
    assert_eq!(failed, Err("no".to_string()));
}

#[test]
fn command_error_texts_read_in_full() {
    type Failure = CommandError<String, ConcurrencyConflict<u64>, io::Error, io::Error>;
    let rejected: Failure = CommandError::Aggregate("invalid state".to_string());
    assert_eq!(rejected.message(), "aggregate rejected command: invalid state");
    let offline: Failure = CommandError::Store(io::Error::other("offline"));
    assert_eq!(offline.source().as_deref(), Some("offline"));
    let missing: Failure = CommandError::Lifecycle(LifecycleError::AggregateNotFound);
    assert!(missing.message().contains(&LifecycleError::AggregateNotFound.message()));
    let policy: CommitPolicyError<u8, String> = CommitPolicyError::Store("offline".to_string());
    assert!(matches!(policy, CommitPolicyError::Store(_)));
}

/// A read model: what moved, by instance.
#[derive(Debug, Clone, PartialEq, Eq)]
struct Ledger {
    of: String,
    moved: Vec<i64>,
    opened: u32,
    requests: Vec<u32>,
}

impl Subscribable for Ledger {
    type Id = String;

    type InstanceId = String;

    type Metadata = u64;

    fn init(instance_id: &String) -> Self {
        Ledger { of: instance_id.clone(), moved: vec![], opened: 0, requests: vec![] }
    }
}

impl Projection for Ledger {
    const KIND: &'static str = "ledger";
}

impl ApplyProjection<Moved> for Ledger {
    fn apply_projection(&mut self, _aggregate_id: &String, event: &Moved, metadata: &u64) {
        self.moved.push(event.amount);
        self.requests.push(*metadata as u32);
    }
}

impl ApplyProjection<AccountEvent> for Ledger {
    fn apply_projection(&mut self, _aggregate_id: &String, event: &AccountEvent, _metadata: &u64) {
        if let AccountEvent::Opened(_) = event {
            self.opened += 1;
        }
    }
}

impl SnapshotState<String> for Ledger {
    fn freeze(&self) -> Result<serde_json::Value, String> {
        let mut object = serde_json::Map::new();
        object.insert("of".to_string(), serde_json::Value::from(self.of.clone()));
        object.insert("moved".to_string(), serde_json::Value::from(self.moved.clone()));
        object.insert("opened".to_string(), serde_json::Value::from(self.opened));
        object.insert("requests".to_string(), serde_json::Value::from(self.requests.clone()));
        Ok(serde_json::Value::Object(object))
    }

    fn revive(value: serde_json::Value) -> Result<Self, String> {
        let numbers = |key: &str| -> Option<Vec<i64>> {
            value.get(key)?.as_array()?.iter().map(serde_json::Value::as_i64).collect()
        };
        let revived = || -> Option<Ledger> {
            Some(Ledger {
                of: value.get("of")?.as_str()?.to_string(),
                moved: numbers("moved")?,
                opened: value.get("opened")?.as_i64()? as u32,
                requests: numbers("requests")?.iter().map(|n| *n as u32).collect(),
            })
        };
        revived().ok_or("not a ledger".to_string())
    }
}

/// How events reach a ledger.
enum LedgerHandler {
    Moved(DomainHandler<Moved>),
    Account(SumHandler<AccountEvent>),
}

impl From<DomainHandler<Moved>> for LedgerHandler {
    fn from(handler: DomainHandler<Moved>) -> Self {
        LedgerHandler::Moved(handler)
    }
}

impl From<SumHandler<AccountEvent>> for LedgerHandler {
    fn from(handler: SumHandler<AccountEvent>) -> Self {
        LedgerHandler::Account(handler)
    }
}

impl EventHandler<Ledger, MemStore> for LedgerHandler {
    fn call(
        &self,
        subscriber: &mut Ledger,
        stored: &InMemoryEvent<String, u32>,
        store: &MemStore,
    ) -> Result<(), HandlerError<InMemoryError<String>>> {
        match self {
            LedgerHandler::Moved(handler) => handler.call(subscriber, stored, store),
            LedgerHandler::Account(handler) => handler.call(subscriber, stored, store),
        }
    }
}

impl ProjectionFilters<MemStore> for Ledger {
    type Handler = LedgerHandler;

    fn filters(instance_id: &String) -> Filters<MemStore, Ledger, LedgerHandler> {
        Filters::new()
            .events_for::<Account>(instance_id)
            .event_for::<Account, Moved>(instance_id)
    }
}

fn busy() -> Repository<MemStore> {
    let mut repo = Repository::new(MemStore::new());
    repo.create::<Account, _>(&id("a"), &Open { balance: 10 }, &1).unwrap();
    repo.create::<Account, _>(&id("b"), &Open { balance: 20 }, &2).unwrap();
    repo.update::<Account, _>(&id("a"), &deposit(&[5]), &3).unwrap();
    repo.update::<Account, _>(&id("b"), &deposit(&[6]), &4).unwrap();
    repo.update::<Account, _>(&id("a"), &deposit(&[7, 8]), &5).unwrap();
    repo
}

#[test]
fn the_last_handler_for_a_kind_stays() {
    let repo = busy();
    let ledger: Ledger = repo.load_projection(&id("a")).unwrap();
    assert_eq!(ledger, Ledger {
        of: id("a"),
        moved: vec![5, 7, 8],
        opened: 1,
        requests: vec![3, 5, 5],
    });
    let empty: Ledger = repo.load_projection(&id("c")).unwrap();
    assert_eq!(empty, Ledger::init(&id("c")));
}

#[test]
fn projection_snapshots_do_not_change_projections() {
    let mut repo = busy().with_snapshots(snapshots::Store::<String, u64>::always());
    let plain: Ledger = repo.load_projection(&id("a")).unwrap();
    let first: Ledger = repo.load_projection_with_snapshot(&id("a")).unwrap();
    assert_eq!(first, plain);
    assert_eq!(repo.snapshot_store().lookup("ledger", &id("a")).unwrap().position, 5);

    repo.seed_events::<Account>(&id("a"), vec![AccountEvent::Moved(Moved { amount: 1 })])
        .unwrap();
    let plain: Ledger = repo.load_projection(&id("a")).unwrap();
    let second: Ledger = repo.load_projection_with_snapshot(&id("a")).unwrap();
    assert_eq!(second, plain);
    assert_eq!(second.moved, vec![5, 7, 8, 1]);
    assert_eq!(repo.snapshot_store().lookup("ledger", &id("a")).unwrap().position, 6);
}

#[test]
fn projections_fail_on_what_cannot_be_decoded() {
    let mut repo = busy();
    repo.inject_raw_event("account", &id("a"), "account.moved", serde_json::Value::Null, 0);
    let failed: Result<Ledger, _> = repo.load_projection(&id("a"));
    assert!(matches!(
        failed,
        Err(ProjectionError::EventDecode(EventDecodeError::Store(_)))
    ));
    let fine: Ledger = repo.load_projection(&id("b")).unwrap();
    assert_eq!(fine.moved, vec![6]);
}

#[test]
fn filters_collect_what_a_subscriber_wants() {
    let filters: Filters<MemStore, Ledger, LedgerHandler> = Filters::new()
        .event::<Moved>()
        .events::<AccountEvent>()
        .event_for::<Account, Moved>(&id("a"));
    let (specs, handlers) = filters.into_event_filters(Some(&4));
    let kinds: Vec<&str> = specs.iter().map(|spec| spec.event_kind.as_str()).collect();
    assert_eq!(kinds, vec![
        "account.moved",
        "account.opened",
        "account.moved",
        "account.moved",
    ]);
    assert!(specs.iter().all(|spec| spec.after_position == Some(4)));
    assert_eq!(specs[3].aggregate_kind.as_deref(), Some("account"));
    assert_eq!(specs[3].aggregate_id.as_deref(), Some("a"));
    assert!(matches!(handlers.get("account.moved"), Some(LedgerHandler::Moved(_))));
    assert!(matches!(handlers.get("account.opened"), Some(LedgerHandler::Account(_))));
    assert!(handlers.get("account.closed").is_none());
}

#[test]
fn subscriptions_start_up_to_date_and_keep_up() {
    let mut repo = busy();
    let mut held = snapshots::Store::<String, u64>::every(2);
    let (mut running, filters) = start::<Ledger, _, _, _, _>(repo.event_store(), &mut held, &id("a"))
        .ok()
        .unwrap();
    assert!(running.caught_up);
    assert_eq!(running.projection, repo.load_projection(&id("a")).unwrap());
    assert_eq!(running.last_checkpoint, Some(5));
    assert_eq!(running.observed, Some(5));
    // Of four events every second one was worth a snapshot.
    assert_eq!(held.lookup("ledger", &id("a")).unwrap().position, 5);
    assert_eq!(running.events_since_snapshot, 0);

    // A foreign write moves the global progress only.
    repo.update::<Account, _>(&id("b"), &deposit(&[9]), &0).unwrap();
    assert_eq!(
        running.pump(repo.event_store(), &filters, &mut held, &id("a")).ok(),
        Some(false)
    );
    assert_eq!(running.last_checkpoint, Some(5));
    assert_eq!(running.observed, Some(6));
    assert!(ConsistencyToken::new(6u64).is_reached(&running.observed));

    repo.update::<Account, _>(&id("a"), &deposit(&[2]), &0).unwrap();
    assert!(running.pump(repo.event_store(), &filters, &mut held, &id("a")).is_ok());
    assert_eq!(running.projection, repo.load_projection(&id("a")).unwrap());
    assert_eq!(held.lookup("ledger", &id("a")).unwrap().position, 5);

    // On the way out the rest is offered too; the policy still decides.
    running.maintain_snapshot(&mut held, &id("a"));
    assert_eq!(running.events_since_snapshot, 1);
}

#[test]
fn subscriptions_resume_from_their_snapshots() {
    let mut repo = busy();
    let mut held = snapshots::Store::<String, u64>::always();
    drop(start::<Ledger, _, _, _, _>(repo.event_store(), &mut held, &id("a")).ok().unwrap());
    repo.update::<Account, _>(&id("a"), &deposit(&[2]), &0).unwrap();
    let (running, _filters) = start::<Ledger, _, _, _, _>(repo.event_store(), &mut held, &id("a"))
        .ok()
        .unwrap();
    assert_eq!(running.projection, repo.load_projection(&id("a")).unwrap());
    assert_eq!(running.last_checkpoint, Some(6));
}

#[test]
fn a_subscription_fails_to_start_on_what_cannot_be_decoded() {
    let mut repo = busy();
    repo.inject_raw_event("account", &id("a"), "account.moved", serde_json::Value::Null, 0);
    let mut held = snapshots::Store::<String, u64>::always();
    let failed = start::<Ledger, _, _, _, _>(repo.event_store(), &mut held, &id("a"));
    assert!(matches!(failed, Err(SubscriptionError::EventDecode(_))));
    // The events before it were taken, and a snapshot of them stored.
    assert_eq!(held.lookup("ledger", &id("a")).unwrap().position, 5);
}

fn moved_at(position: u64, amount: i64) -> Delivery<MemStore> {
    Delivery::Event(Checkpointed {
        checkpoint: position,
        event: StoredEvent {
            aggregate_kind: "account".to_string(),
            aggregate_id: id("a"),
            kind: "account.moved".to_string(),
            position,
            data: number("amount", amount),
            metadata: 0,
        },
    })
}

#[test]
fn deliveries_are_applied_once() {
    let store = MemStore::new();
    let (_, handlers) = Ledger::filters(&id("a")).into_event_filters(None);
    let mut running: SubscriptionLoop<MemStore, Ledger, LedgerHandler> =
        SubscriptionLoop::resume(handlers, Ledger::init(&id("a")), None, Some(2));
    assert!(!running.caught_up);

    let progress = running.handle_delivery(Ok(moved_at(1, 10)), &store).ok().unwrap();
    assert!(progress.applied && !progress.ready);
    assert_eq!(progress.observed, Some(1));
    let due = progress.offer.unwrap();
    assert_eq!((due.events_since_snapshot, due.checkpoint), (1, 1));

    let again = running.handle_delivery(Ok(moved_at(1, 10)), &store).ok().unwrap();
    assert!(!again.applied && again.offer.is_none());
    assert_eq!(running.projection.moved, vec![10]);

    let caught_up = running.handle_delivery(Ok(moved_at(2, 20)), &store).ok().unwrap();
    assert!(caught_up.ready);
    let later = running.handle_delivery(Ok(moved_at(3, 30)), &store).ok().unwrap();
    assert!(!later.ready);
    assert_eq!(running.projection.moved, vec![10, 20, 30]);

    let frontier = running.handle_delivery(Ok(Delivery::Frontier(8)), &store).ok().unwrap();
    assert_eq!(frontier.observed, Some(8));
    assert!(!frontier.applied);
    let failed = Err(InMemoryError::Deserialization("gone".to_string()));
    assert!(matches!(
        running.handle_delivery(failed, &store),
        Err(SubscriptionError::Store(_))
    ));
    running.snapshot_answered(true);
    assert!(running.pending_snapshot().is_none());
}

#[test]
fn tokens_compare_with_progress() {
    let token = ConsistencyToken::new(4u64);
    assert_eq!(*token.checkpoint(), 4);
    assert!(!token.is_reached(&None));
    assert!(!token.is_reached(&Some(3)));
    assert!(token.is_reached(&Some(4)));
    assert!(token.is_reached(&Some(5)));
    assert_eq!(token.into_checkpoint(), 4);
    assert!(AwaitError::SubscriptionStopped.message().contains("stopped"));
}

#[test]
fn tokens_inherit_the_order_of_checkpoints() {
    let early = ConsistencyToken::new(4u64);
    let late = ConsistencyToken::new(9u64);
    assert!(early < late && late > early && early <= early && late >= late);
    assert!(early == ConsistencyToken::new(4) && early != late);
    assert_eq!(early.max(late), late);
}

#[test]
fn waiting_ends_where_the_token_is_reached_or_the_subscription_stops() {
    let token = ConsistencyToken::new(4u64);
    assert!(token.awaited(&None, true).is_none());
    assert!(token.awaited(&Some(3), true).is_none());
    assert!(matches!(token.awaited(&Some(4), true), Some(Ok(()))));
    assert!(matches!(token.awaited(&Some(5), false), Some(Ok(()))));
    assert!(matches!(
        token.awaited(&Some(3), false),
        Some(Err(AwaitError::SubscriptionStopped))
    ));
}

#[test]
fn a_reached_token_is_in_the_read_model() {
    let mut repo = busy();
    let mut held = snapshots::Store::<String, u64>::never();
    let (mut running, filters) =
        start::<Ledger, _, _, _, _>(repo.event_store(), &mut held, &id("a")).ok().unwrap();
    repo.update::<Account, _>(&id("a"), &deposit(&[2]), &0).unwrap();
    let token = ConsistencyToken::new(repo.event_store().latest_checkpoint().unwrap());
    assert!(!token.is_reached(&running.observed));
    assert_eq!(running.projection.moved, vec![5, 7, 8]);

    assert!(running.pump(repo.event_store(), &filters, &mut held, &id("a")).is_ok());
    assert!(token.is_reached(&running.observed));
    assert_eq!(running.projection.moved, vec![5, 7, 8, 2]);
    // Progress is at the last commit, and no further.
    assert_eq!(running.observed, Some(6));
}

#[test]
fn a_refused_event_is_not_reached() {
    let mut repo = busy();
    let mut held = snapshots::Store::<String, u64>::never();
    let (mut running, filters) =
        start::<Ledger, _, _, _, _>(repo.event_store(), &mut held, &id("a")).ok().unwrap();
    repo.update::<Account, _>(&id("a"), &deposit(&[2]), &0).unwrap();
    repo.inject_raw_event("account", &id("a"), "account.moved", serde_json::Value::Null, 0);
    repo.update::<Account, _>(&id("b"), &deposit(&[3]), &0).unwrap();
    let failed = running.pump(repo.event_store(), &filters, &mut held, &id("a"));
    assert!(matches!(failed, Err(SubscriptionError::EventDecode(_))));
    assert_eq!((running.last_checkpoint, running.observed), (Some(6), Some(6)));
    assert!(!ConsistencyToken::new(7u64).is_reached(&running.observed));
}

#[test]
fn pumping_stores_the_snapshots_that_are_due() {
    let mut repo = busy();
    let mut held = snapshots::Store::<String, u64>::every(3);
    let (mut running, filters) =
        start::<Ledger, _, _, _, _>(repo.event_store(), &mut held, &id("a")).ok().unwrap();
    // Due after the third of the four events; one is pending since.
    assert_eq!(held.lookup("ledger", &id("a")).unwrap().position, 4);
    assert_eq!(running.events_since_snapshot, 1);
    repo.update::<Account, _>(&id("a"), &deposit(&[1, 2, 3]), &0).unwrap();
    assert!(running.pump(repo.event_store(), &filters, &mut held, &id("a")).is_ok());
    assert_eq!(held.lookup("ledger", &id("a")).unwrap().position, 7);
    assert_eq!(running.events_since_snapshot, 1);
}

#[test]
fn seen_events_need_no_room() {
    let store = MemStore::new();
    let (_, handlers) = Ledger::filters(&id("a")).into_event_filters(None);
    let mut running: SubscriptionLoop<MemStore, Ledger, LedgerHandler> =
        SubscriptionLoop::resume(handlers, Ledger::init(&id("a")), Some(5), None);
    running.events_since_snapshot = u64::MAX;
    assert!(running.has_room(&Ok(moved_at(5, 1))));
    assert!(running.has_room(&Ok(Delivery::Frontier(9))));
    assert!(!running.has_room(&Ok(moved_at(6, 1))));
    let again = running.handle_delivery(Ok(moved_at(5, 1)), &store).ok().unwrap();
    assert!(!again.applied && !again.ready && again.observed.is_none() && again.offer.is_none());
    assert_eq!((running.last_checkpoint, running.events_since_snapshot), (Some(5), u64::MAX));
}

#[test]
fn the_resume_point_is_the_snapshot_or_a_fresh_instance() {
    let fresh: (Ledger, Option<u64>) = load_snapshot(Err("bad"), &id("a"));
    assert_eq!(fresh, (Ledger::init(&id("a")), None));
    let none: (Ledger, Option<u64>) = load_snapshot(Ok::<_, String>(None), &id("a"));
    assert_eq!(none.1, None);
    let ledger = Ledger { of: id("a"), moved: vec![1], opened: 0, requests: vec![] };
    let snapshot = Snapshot { position: 3, data: ledger.clone() };
    assert_eq!(load_snapshot(Ok::<_, String>(Some(snapshot)), &id("a")), (ledger, Some(3)));
}

#[test]
fn subscription_ends_are_told_apart() {
    type Ended = TaskEnd<Result<(), SubscriptionError<String>>>;
    let returned: Ended = TaskEnd::Returned(Ok(()));
    assert!(matches!(startup_failure(returned), SubscriptionError::CatchupInterrupted));
    let panicked: Ended = TaskEnd::Panicked;
    assert!(matches!(startup_failure(panicked), SubscriptionError::TaskPanicked));
    let failed: Ended = TaskEnd::Returned(Err(SubscriptionError::Store("offline".to_string())));
    assert!(matches!(startup_failure(failed), SubscriptionError::Store(_)));
    assert!(stop_outcome::<String>(None).is_ok());
    let panicked: Ended = TaskEnd::Panicked;
    assert!(matches!(stop_outcome(Some(panicked)), Err(SubscriptionError::TaskPanicked)));
}

#[test]
fn failed_offers_count_as_not_stored() {
    type Offered = Result<SnapshotOffer, OfferSnapshotError<String, String>>;
    let stored: Offered = Ok(SnapshotOffer::Stored);
    assert!(was_stored(stored));
    let declined: Offered = Ok(SnapshotOffer::Declined);
    assert!(!was_stored(declined));
    let failed: Offered = Err(OfferSnapshotError::Snapshot("full".to_string()));
    assert!(!was_stored(failed));
}

#[test]
fn decode_error_texts_read_in_full() {
    let unknown: EventDecodeError<io::Error> = EventDecodeError::UnknownKind {
        kind: "account.closed".to_string(),
        expected: AccountEvent::EVENT_KINDS,
    };
    assert_eq!(
        unknown.message(),
        "unknown event kind `account.closed`, expected one of [\"account.opened\", \
         \"account.moved\"]"
    );
    assert!(unknown.source().is_none());
    let failed: ProjectionError<InMemoryError<String>> = ProjectionError::EventDecode(
        EventDecodeError::Store(InMemoryError::Deserialization("bad".to_string())),
    );
    assert_eq!(
        failed.message(),
        "failed to decode event: store error: deserialization error: bad"
    );
}

#[test]
fn repositories_are_optimistic_by_default() {
    fn strategy<C: 'static, M>(_: &Repository<MemStore, C, M>) -> std::any::TypeId
    where
        C: sourcery::concurrency::ConcurrencyStrategy,
    {
        std::any::TypeId::of::<C>()
    }
    let repo = Repository::new(MemStore::new());
    assert_eq!(strategy(&repo), std::any::TypeId::of::<Optimistic>());
}

#[test]
fn replaying_in_two_goes_changes_nothing() {
    let first = vec![Moved { amount: 1 }, Moved { amount: 2 }];
    let second = vec![Moved { amount: 3 }, Moved { amount: 4 }];
    let events = |moves: &[Moved]| -> Vec<AccountEvent> {
        moves.iter().cloned().map(AccountEvent::Moved).collect()
    };
    let mut whole = Account { balance: 0 };
    apply_all(&mut whole, &events(&[first.clone(), second.clone()].concat()));
    let mut halves = Account { balance: 0 };
    apply_all(&mut halves, &events(&first));
    apply_all(&mut halves, &events(&second));
    assert_eq!(whole, halves);
    assert_eq!(whole, Account { balance: 10 });
}

#[test]
fn projecting_in_two_goes_changes_nothing() {
    let repo = busy();
    let whole: Ledger = repo.load_projection(&id("a")).unwrap();

    let mut early = Repository::new(MemStore::new());
    early.create::<Account, _>(&id("a"), &Open { balance: 10 }, &1).unwrap();
    early.create::<Account, _>(&id("b"), &Open { balance: 20 }, &2).unwrap();
    early.update::<Account, _>(&id("a"), &deposit(&[5]), &3).unwrap();
    let (half, count, last) =
        early.project(Ledger::filters(&id("a")), Ledger::init(&id("a")), None).unwrap();
    assert_eq!((count, last), (2, Some(2)));

    let (rest, count, last) = repo.project(Ledger::filters(&id("a")), half, Some(&2)).unwrap();
    assert_eq!((count, last), (2, Some(5)));
    assert_eq!(rest, whole);
}

#[test]
fn store_failures_convert_into_handler_failures() {
    let failure: HandlerError<String> = HandlerError::from("offline".to_string());
    assert!(matches!(&failure, HandlerError::Store(cause) if cause == "offline"));
    assert!(matches!(failure.into_decode_error(), EventDecodeError::Store(_)));
}
