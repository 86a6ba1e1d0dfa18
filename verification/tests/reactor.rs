//! Retry policies, reactor errors, and the reactor loop.

use std::io;

use sourcery::event::{DomainEvent, EventDecodeError};
use sourcery::message::Message;
use sourcery::reactor::{
    checkpoint_outcome, load_checkpoint, offer_checkpoint, startup_failure, stop_outcome, work_of,
    Delay, DomainReaction, EventContext, React, ReactDispatchError, ReactError, ReactFilters,
    ReactStep, Reactor, ReactorBuilder, ReactorError, ReactorLoop, Receipt, Retries, RetryPolicy,
    Work,
};
use sourcery::repository::inmemory::JsonEvent;
use sourcery::snapshot::{inmemory as snapshots, NoSnapshots, Snapshot, SnapshotOffer};
use sourcery::store::inmemory::{EncodedEvent, InMemoryError, Store};
use sourcery::store::{NonEmpty, StoredEvent};
use sourcery::subscription::{Checkpointed, Delivery, SubscriptionError, TaskEnd};

type MemStore = Store<String, ()>;

#[test]
fn retry_policy_delay_starts_at_initial() {
    let policy = RetryPolicy::exponential(Delay::from_millis(10), Delay::from_secs(1), None);
    assert_eq!(policy.next_delay(0), Delay::from_millis(10));
}

#[test]
fn retry_policy_delay_doubles_each_step() {
    let policy = RetryPolicy::exponential(Delay::from_millis(10), Delay::from_secs(1), None);
    assert_eq!(policy.next_delay(1), Delay::from_millis(20));
    assert_eq!(policy.next_delay(2), Delay::from_millis(40));
    assert_eq!(policy.next_delay(3), Delay::from_millis(80));
}

#[test]
fn retry_policy_delay_saturates_at_max() {
    let policy = RetryPolicy::exponential(Delay::from_millis(10), Delay::from_millis(50), None);
    // 10ms * 8 = 80ms > 50ms cap
    assert_eq!(policy.next_delay(3), Delay::from_millis(50));
    assert_eq!(policy.next_delay(100), Delay::from_millis(50));
}

#[test]
fn retry_policy_large_index_no_overflow() {
    let policy = RetryPolicy::exponential(Delay::from_millis(10), Delay::from_secs(5), None);
    // Both very large indices should saturate silently rather than panicking.
    let _ = policy.next_delay(64);
    let _ = policy.next_delay(usize::MAX);
}

#[test]
fn retry_policy_default_has_sane_bounds() {
    let policy = RetryPolicy::default();
    // First retry should be short; after many retries it must cap.
    assert!(policy.next_delay(0) < Delay::from_secs(1));
    assert_eq!(policy.next_delay(usize::MAX), policy.max_delay);
}

#[test]
fn react_error_retry_display_mentions_retryable() {
    let err = ReactError::retry(io::Error::other("transient failure"));
    assert!(err.message().contains("retryable"));
    assert!(err.source().is_some());
}

#[test]
fn react_error_fatal_display_mentions_fatal() {
    let err = ReactError::fatal(io::Error::other("permanent failure"));
    assert!(err.message().contains("fatal"));
    assert!(err.source().is_some());
}

#[test]
fn reactor_error_checkpoint_has_source() {
    let err: ReactorError<io::Error, io::Error> =
        ReactorError::Checkpoint(io::Error::other("db unavailable"));
    assert!(err.message().contains("checkpoint"));
    assert!(err.source().is_some());
}

#[test]
fn reactor_error_reaction_has_source() {
    let err: ReactorError<io::Error, String, io::Error> =
        ReactorError::Reaction(io::Error::other("side-effect failed"));
    assert!(err.message().contains("reaction failed"));
    assert!(err.source().is_some());
}

#[test]
fn reactor_error_runner_displays_transparently() {
    let inner: SubscriptionError<io::Error> = SubscriptionError::TaskPanicked;
    let err: ReactorError<io::Error> = ReactorError::Runner(inner);
    assert!(err.message().contains("panicked"));
}

#[test]
fn offer_checkpoint_skips_store_when_no_events_processed() {
    // A reactor that has not yet processed any events should never write a
    // checkpoint: the position has not advanced.
    let store: NoSnapshots<i64> = NoSnapshots::new();
    let id = "reactor-instance".to_string();
    let result: Result<bool, ReactorError<io::Error>> = offer_checkpoint(0, || {
        Ok(store.offer_snapshot("MyReactor", &id, 0, || {
            Ok::<_, io::Error>(Snapshot { position: 42_i64, data: () })
        }))
    });
    assert_eq!(result.unwrap(), false);
}

#[test]
fn load_checkpoint_returns_none_for_fresh_reactor() {
    // A brand-new reactor with no prior checkpoint should start from the
    // beginning of the stream (None position).
    let store: NoSnapshots<i64> = NoSnapshots::new();
    let id = "reactor-instance".to_string();
    let result: Result<Option<i64>, ReactorError<io::Error>> =
        load_checkpoint(Ok(store.load("MyReactor", &id)));
    assert_eq!(result.unwrap(), None);
}

#[test]
fn delays_convert_between_units() {
    assert_eq!(Delay::from_millis(1_500).as_nanos(), 1_500_000_000);
    assert_eq!(Delay::from_secs(2).as_nanos(), 2_000_000_000);
    assert_eq!(Delay::from_nanos(7).as_nanos(), 7);
    assert_eq!(
        Delay::from_nanos(u128::MAX).as_nanos(),
        18_446_744_073_709_551_615_999_999_999
    );
}

#[test]
fn backoff_factor_stops_growing() {
    // 2^31 is the last power of two; from then on the factor is u32::MAX.
    let policy = RetryPolicy::exponential(Delay::from_nanos(1), Delay::from_secs(100), None);
    assert_eq!(policy.next_delay(31).as_nanos(), 2_147_483_648);
    assert_eq!(policy.next_delay(32).as_nanos(), 4_294_967_295);
    assert_eq!(policy.next_delay(1_000_000).as_nanos(), 4_294_967_295);
}

#[test]
fn long_delays_saturate() {
    let longest = Delay::from_nanos(u128::MAX);
    let policy = RetryPolicy::exponential(longest, longest, None);
    assert_eq!(policy.next_delay(5), longest);
}

#[test]
fn delays_never_shrink_before_the_cap() {
    let policy = RetryPolicy::default();
    let mut last = policy.next_delay(0);
    assert_eq!(last, Delay::from_millis(50));
    for retry in 1..40 {
        let next = policy.next_delay(retry);
        assert!(next >= last);
        assert!(next <= policy.max_delay);
        last = next;
    }
    assert_eq!(last, Delay::from_secs(5));
}

fn step(
    policy: &RetryPolicy,
    retry_index: usize,
    outcome: Result<(), ReactDispatchError<io::Error, String>>,
) -> ReactStep<io::Error, String, String> {
    policy.after_reaction(retry_index, outcome)
}

#[test]
fn retryable_failures_are_retried_up_to_the_limit() {
    let policy = RetryPolicy::exponential(Delay::from_millis(1), Delay::from_secs(1), Some(2));
    let failure = || Err(ReactDispatchError::Reaction(ReactError::retry("later".to_string())));

    match step(&policy, 0, failure()) {
        ReactStep::RetryAfter(delay) => assert_eq!(delay, Delay::from_millis(1)),
        _ => panic!("expected a retry"),
    }
    match step(&policy, 1, failure()) {
        ReactStep::RetryAfter(delay) => assert_eq!(delay, Delay::from_millis(2)),
        _ => panic!("expected a retry"),
    }
    match step(&policy, 2, failure()) {
        ReactStep::Fail(ReactorError::Reaction(cause)) => assert_eq!(cause, "later"),
        _ => panic!("expected a failure"),
    }
}

#[test]
fn other_outcomes_settle_at_once() {
    let policy = RetryPolicy::default();
    assert!(matches!(step(&policy, 0, Ok(())), ReactStep::Processed));
    let fatal = Err(ReactDispatchError::Reaction(ReactError::fatal("no".to_string())));
    match step(&policy, 0, fatal) {
        ReactStep::Fail(ReactorError::Reaction(cause)) => assert_eq!(cause, "no"),
        _ => panic!("expected a failure"),
    }
    let undecodable = Err(ReactDispatchError::EventDecode(EventDecodeError::Store(
        io::Error::other("bad"),
    )));
    assert!(matches!(
        step(&policy, 0, undecodable),
        ReactStep::Fail(ReactorError::Runner(SubscriptionError::EventDecode(
            EventDecodeError::Store(_)
        )))
    ));
}

#[test]
fn reaction_error_texts_read_in_full() {
    let retry = ReactError::retry(io::Error::other("transient failure"));
    assert_eq!(retry.message(), "retryable reaction error: transient failure");
    assert_eq!(retry.source().as_deref(), Some("transient failure"));
    assert_eq!(retry.into_inner().to_string(), "transient failure");
    let fatal = ReactError::fatal(io::Error::other("permanent failure"));
    assert_eq!(fatal.message(), "fatal reaction error: permanent failure");

    let checkpoint: ReactorError<io::Error, io::Error> =
        ReactorError::Checkpoint(io::Error::other("db unavailable"));
    assert_eq!(checkpoint.message(), "checkpoint operation failed: db unavailable");
    let reaction: ReactorError<io::Error, String, io::Error> =
        ReactorError::Reaction(io::Error::other("side-effect failed"));
    assert_eq!(reaction.message(), "reaction failed: side-effect failed");
    assert_eq!(reaction.source().as_deref(), Some("side-effect failed"));
}

#[test]
fn runner_errors_convert() {
    let inner: SubscriptionError<io::Error> = SubscriptionError::CatchupInterrupted;
    let text = inner.message();
    let err: ReactorError<io::Error> = ReactorError::from(inner);
    assert_eq!(err.message(), text);
}

#[test]
fn checkpoint_offers_report_whether_they_were_stored() {
    let outcome = |offered| checkpoint_outcome::<io::Error, String, String>(offered);
    assert_eq!(outcome(Ok(SnapshotOffer::Stored)).unwrap(), true);
    assert_eq!(outcome(Ok(SnapshotOffer::Declined)).unwrap(), false);
    assert!(matches!(
        outcome(Err("full".to_string())),
        Err(ReactorError::Checkpoint(cause)) if cause == "full"
    ));
    let offered: Result<bool, ReactorError<io::Error>> =
        offer_checkpoint(1, || Ok(SnapshotOffer::Stored));
    assert_eq!(offered.unwrap(), true);
}

#[test]
fn loading_a_checkpoint_gives_its_position() {
    let loaded: Result<Option<u64>, ReactorError<io::Error>> =
        load_checkpoint(Ok(Some(Snapshot { position: 9, data: () })));
    assert_eq!(loaded.unwrap(), Some(9));
    let failed: Result<Option<u64>, ReactorError<io::Error>> =
        load_checkpoint(Err("gone".to_string()));
    assert!(matches!(failed, Err(ReactorError::Checkpoint(cause)) if cause == "gone"));
}

#[test]
fn ends_of_the_task_are_told_apart() {
    type Ended = TaskEnd<Result<(), ReactorError<io::Error>>>;
    let interrupted: Ended = TaskEnd::Returned(Ok(()));
    assert!(matches!(
        startup_failure(interrupted),
        ReactorError::Runner(SubscriptionError::CatchupInterrupted)
    ));
    let panicked: Ended = TaskEnd::Panicked;
    assert!(matches!(
        startup_failure(panicked),
        ReactorError::Runner(SubscriptionError::TaskPanicked)
    ));
    let failed: Ended = TaskEnd::Returned(Err(ReactorError::Reaction("no".to_string())));
    assert!(matches!(startup_failure(failed), ReactorError::Reaction(_)));

    assert!(stop_outcome::<io::Error, String, String>(None).is_ok());
    let panicked: Ended = TaskEnd::Panicked;
    assert!(matches!(
        stop_outcome(Some(panicked)),
        Err(ReactorError::Runner(SubscriptionError::TaskPanicked))
    ));
}

fn stored(position: u64, kind: &str) -> StoredEvent<String, u64, serde_json::Value, ()> {
    StoredEvent {
        aggregate_kind: "account".to_string(),
        aggregate_id: "a1".to_string(),
        kind: kind.to_string(),
        position,
        data: serde_json::Value::from(position),
        metadata: (),
    }
}

fn event_at(checkpoint: u64) -> Result<Delivery<MemStore>, InMemoryError<String>> {
    Ok(Delivery::Event(Checkpointed { checkpoint, event: stored(checkpoint, "noted") }))
}

#[test]
fn reacted_events_are_skipped_when_delivered_again() {
    let mut running: ReactorLoop<MemStore> = ReactorLoop::resume(None, Some(4));
    assert!(!running.caught_up);

    let Ok(Receipt::React(item)) = running.receive(event_at(3)) else {
        panic!("expected a reaction");
    };
    assert_eq!(item.checkpoint, 3);
    let progress = running.processed(item.checkpoint);
    assert!(progress.applied);
    assert!(!progress.ready);
    assert_eq!(progress.observed, Some(3));

    assert!(matches!(running.receive(event_at(3)), Ok(Receipt::Skip)));
    assert!(matches!(running.receive(event_at(2)), Ok(Receipt::Skip)));
    assert!(matches!(running.receive(event_at(4)), Ok(Receipt::React(_))));
    let progress = running.processed(4);
    assert!(progress.ready);
}

#[test]
fn frontiers_move_the_global_progress_only() {
    let mut running: ReactorLoop<MemStore> = ReactorLoop::resume(Some(2), None);
    assert!(running.caught_up);
    match running.receive(Ok(Delivery::Frontier(7))) {
        Ok(Receipt::Observed(published)) => assert_eq!(published, Some(7)),
        _ => panic!("expected a frontier"),
    }
    match running.receive(Ok(Delivery::Frontier(5))) {
        Ok(Receipt::Observed(published)) => assert_eq!(published, None),
        _ => panic!("expected a frontier"),
    }
    assert_eq!(running.observed, Some(7));
    assert_eq!(running.last_checkpoint, Some(2));
    assert_eq!(running.events_since_checkpoint, 0);
}

#[test]
fn a_failing_stream_stops_the_reactor() {
    let mut running: ReactorLoop<MemStore> = ReactorLoop::resume(None, None);
    let failed = Err(InMemoryError::Deserialization("bad".to_string()));
    assert!(matches!(running.receive(failed), Err(SubscriptionError::Store(_))));
}

#[test]
fn declined_checkpoints_keep_the_count_growing() {
    let mut running: ReactorLoop<MemStore> = ReactorLoop::resume(None, None);
    assert!(running.pending_checkpoint().is_none());
    let first = running.processed(0).offer.unwrap();
    assert_eq!((first.events_since_snapshot, first.checkpoint), (1, 0));
    running.checkpoint_answered(false);
    let second = running.processed(1).offer.unwrap();
    assert_eq!((second.events_since_snapshot, second.checkpoint), (2, 1));
    running.checkpoint_answered(true);
    assert!(running.pending_checkpoint().is_none());
    let third = running.processed(2).offer.unwrap();
    assert_eq!(third.events_since_snapshot, 1);
}

struct Noted;

impl DomainEvent for Noted {
    const KIND: &'static str = "noted";
}

struct Notifier {
    refuse: bool,
}

impl Reactor for Notifier {
    const KIND: &'static str = "notifier";

    type Id = String;

    type Metadata = ();
}

impl React<serde_json::Value> for Notifier {
    type Failure = String;

    fn react(
        &self,
        ctx: EventContext<'_, String, ()>,
        event: &serde_json::Value,
    ) -> Result<(), ReactError<String>> {
        assert_eq!(ctx.aggregate_id, "a1");
        if self.refuse {
            Err(ReactError::retry(event.to_string()))
        } else {
            Ok(())
        }
    }
}

#[test]
fn reactors_have_a_default_checkpoint_id() {
    assert_eq!(Notifier { refuse: false }.checkpoint_id(), "default");
}

#[test]
fn dispatch_decodes_and_reacts() {
    let store = MemStore::new();
    let reaction: DomainReaction<serde_json::Value> = DomainReaction::new();
    let event = stored(8, "noted");
    assert!(reaction.dispatch(&Notifier { refuse: false }, &event, &store).is_ok());
    match reaction.dispatch(&Notifier { refuse: true }, &event, &store) {
        Err(ReactDispatchError::Reaction(ReactError::Retry(cause))) => assert_eq!(cause, "8"),
        _ => panic!("expected the reaction to fail"),
    }
}

enum NotedHandler {
    Noted,
}

impl From<DomainReaction<Noted>> for NotedHandler {
    fn from(_: DomainReaction<Noted>) -> Self {
        NotedHandler::Noted
    }
}

#[test]
fn filters_collect_specs_and_handlers() {
    let filters: ReactFilters<MemStore, Notifier, NotedHandler> =
        ReactFilters::new().event::<Noted>();
    let (specs, handlers) = filters.into_event_filters(Some(&5));
    assert_eq!(specs.len(), 1);
    assert_eq!(specs[0].event_kind, "noted");
    assert_eq!(specs[0].aggregate_kind, None);
    assert_eq!(specs[0].after_position, Some(5));
    assert!(matches!(handlers.get("noted"), Some(NotedHandler::Noted)));
    assert!(handlers.get("other").is_none());
}

#[test]
fn an_event_without_a_handler_asks_for_nothing() {
    let filters: ReactFilters<MemStore, Notifier, NotedHandler> =
        ReactFilters::new().event::<Noted>();
    let (_specs, handlers) = filters.into_event_filters(None);
    assert!(matches!(work_of(&handlers, &stored(1, "noted")), Work::React(NotedHandler::Noted)));
    assert!(matches!(work_of(&handlers, &stored(1, "other")), Work::Nothing));
}

#[test]
fn builders_take_checkpoints_and_policies() {
    let policy = RetryPolicy::exponential(Delay::from_millis(1), Delay::from_millis(2), Some(3));
    let builder = ReactorBuilder::new(MemStore::new(), Notifier { refuse: false }, ())
        .with_checkpoints(snapshots::Store::<String, u64>::always())
        .with_retry(policy);
    assert_eq!(builder.retry_policy.max_retries, Some(3));
    assert_eq!(builder.retry_policy.next_delay(9), Delay::from_millis(2));
    let plain = ReactorBuilder::new(MemStore::new(), Notifier { refuse: false }, ());
    assert_eq!(plain.retry_policy.max_retries, None);
}

#[test]
fn a_drained_store_feeds_a_reactor_in_order() {
    let mut store = MemStore::new();
    for value in 0..3u64 {
        let event = JsonEvent { kind: "noted", data: serde_json::Value::from(value) };
        let encoded = EncodedEvent { kind: event.kind.to_string(), data: Ok(event.data) };
        store
            .commit_events("account", &"a1".to_string(), NonEmpty::new(encoded), &())
            .unwrap();
    }
    let filters: ReactFilters<MemStore, Notifier, NotedHandler> =
        ReactFilters::new().event::<Noted>();
    let (specs, _handlers) = filters.into_event_filters(None);

    let mut cursor = None;
    let mut running: ReactorLoop<MemStore> =
        ReactorLoop::resume(None, store.current_checkpoint(&specs));
    let mut seen = Vec::new();
    for delivery in store.drain(&specs, &mut cursor) {
        if let Ok(Receipt::React(item)) = running.receive(Ok(delivery)) {
            seen.push(item.event.data.clone());
            let _ = running.processed(item.checkpoint);
        }
    }
    assert_eq!(seen, vec![
        serde_json::Value::from(0u64),
        serde_json::Value::from(1u64),
        serde_json::Value::from(2u64),
    ]);
    assert!(running.caught_up);
    assert_eq!(running.observed, Some(2));
}

#[test]
fn retries_are_counted() {
    let policy = RetryPolicy::exponential(Delay::from_millis(1), Delay::from_secs(1), Some(1));
    let failure = || -> Result<(), ReactDispatchError<io::Error, String>> {
        Err(ReactDispatchError::Reaction(ReactError::retry("later".to_string())))
    };
    let mut retries = Retries::new();
    let first: ReactStep<io::Error, String, String> = retries.after_reaction(&policy, failure());
    assert!(matches!(first, ReactStep::RetryAfter(_)));
    assert_eq!(retries.retried, 1);
    let second: ReactStep<io::Error, String, String> = retries.after_reaction(&policy, failure());
    assert!(matches!(second, ReactStep::Fail(ReactorError::Reaction(_))));
    assert_eq!(retries.retried, 1);
    let done: ReactStep<io::Error, String, String> = Retries::new().after_reaction(&policy, Ok(()));
    assert!(matches!(done, ReactStep::Processed));
}

#[test]
fn only_a_retry_needs_room() {
    type Outcome = Result<(), ReactDispatchError<io::Error, String>>;
    let endless = RetryPolicy::exponential(Delay::from_millis(1), Delay::from_secs(1), None);
    let limited = RetryPolicy::exponential(Delay::from_millis(1), Delay::from_secs(1), Some(3));
    let failed: Outcome =
        Err(ReactDispatchError::Reaction(ReactError::retry("later".to_string())));
    let fatal: Outcome =
        Err(ReactDispatchError::Reaction(ReactError::fatal("never".to_string())));
    let mut full = Retries { retried: usize::MAX };
    assert!(!full.has_room(&endless, &failed));
    assert!(full.has_room(&limited, &failed));
    assert!(full.has_room(&endless, &fatal) && full.has_room(&endless, &Outcome::Ok(())));
    assert!(Retries::new().has_room(&endless, &failed));
    let done: ReactStep<io::Error, String, String> = full.after_reaction(&endless, fatal);
    assert!(matches!(done, ReactStep::Fail(_)));
    assert_eq!(full.retried, usize::MAX);
}

#[test]
fn restarting_from_a_checkpoint_skips_what_was_done() {
    let mut running: ReactorLoop<MemStore> = ReactorLoop::resume(None, None);
    let due = running.processed(4).offer.unwrap();
    let mut restarted: ReactorLoop<MemStore> = ReactorLoop::resume(Some(due.checkpoint), None);
    assert!(matches!(restarted.receive(event_at(4)), Ok(Receipt::Skip)));
    assert!(matches!(restarted.receive(event_at(5)), Ok(Receipt::React(_))));
}
