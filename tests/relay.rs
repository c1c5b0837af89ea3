use realworld::outbox::{create_outbox_entry, CreateOutboxEntry, OutboxStore};
use realworld::publish::{to_message, Delivery, PublishError, PUBLISH_TIMEOUT_MS};
use realworld::relay::{run_cycle, Action, DeliveryPolicy, Phase, RelayWorker, Resolution};

fn ok(offset: i64) -> Result<Delivery, PublishError> {
    Ok(Delivery {
        partition: 0,
        offset,
    })
}

fn store_of(topics: &[&str]) -> OutboxStore {
    let mut store = OutboxStore::new();
    for (i, t) in topics.iter().enumerate() {
        create_outbox_entry(
            &mut store,
            CreateOutboxEntry {
                topic: t.to_string(),
                partition_key: None,
                headers: None,
                payload: Some(format!("p{}", i)),
            },
            i as i64,
        )
        .unwrap();
    }
    store
}

fn topics(store: &OutboxStore) -> Vec<String> {
    store.entries().iter().map(|e| e.topic.clone()).collect()
}

#[test]
fn one_cycle_delivers_the_concrete_entry() {
    let mut store = OutboxStore::new();
    create_outbox_entry(
        &mut store,
        CreateOutboxEntry {
            topic: "user".to_string(),
            partition_key: Some("u-1".to_string()),
            headers: Some(vec![("type".to_string(), "USER_CREATED".to_string())]),
            payload: Some("{\"id\":\"u-1\"}".to_string()),
        },
        1,
    )
    .unwrap();
    let report = run_cycle(
        &mut store,
        10,
        DeliveryPolicy::AtLeastOnce,
        &vec![ok(7)],
        true,
    );
    assert_eq!(1, report.sent.len());
    let m = &report.sent[0];
    assert_eq!("user", m.topic);
    assert_eq!(Some("u-1".to_string()), m.key);
    assert_eq!(
        vec![("type".to_string(), "USER_CREATED".to_string())],
        m.headers
    );
    assert_eq!(Some("{\"id\":\"u-1\"}".to_string()), m.payload);
    assert_eq!(Resolution::Commit, report.resolution);
    assert!(store.is_empty());
}

#[test]
fn at_least_once_rolls_back_a_partly_failed_batch() {
    let mut store = store_of(&["a", "b", "c"]);
    let report = run_cycle(
        &mut store,
        10,
        DeliveryPolicy::AtLeastOnce,
        &vec![ok(1), Err(PublishError::Timeout), ok(3)],
        true,
    );
    assert!(report.aborted);
    assert_eq!(3, report.claimed);
    assert_eq!(2, report.attempted);
    assert_eq!(Resolution::Rollback, report.resolution);
    assert_eq!(1, report.sent.len());
    assert_eq!("a", report.sent[0].topic);
    assert_eq!(vec!["a", "b", "c"], topics(&store));

    let again = run_cycle(
        &mut store,
        10,
        DeliveryPolicy::AtLeastOnce,
        &vec![ok(4), ok(5), ok(6)],
        true,
    );
    let sent: Vec<&str> = again.sent.iter().map(|m| m.topic.as_str()).collect();
    assert_eq!(vec!["a", "b", "c"], sent);
    assert_eq!(Resolution::Commit, again.resolution);
    assert!(store.is_empty());
}

#[test]
fn at_most_once_loses_the_rest_of_a_failed_batch() {
    let mut store = store_of(&["a", "b", "c"]);
    let report = run_cycle(
        &mut store,
        10,
        DeliveryPolicy::AtMostOnce,
        &vec![ok(1), Err(PublishError::BrokerRejected), ok(3)],
        true,
    );
    assert!(report.aborted);
    assert_eq!(Resolution::Commit, report.resolution);
    assert_eq!(1, report.sent.len());
    assert_eq!("a", report.sent[0].topic);
    assert!(store.is_empty());
}

#[test]
fn at_least_once_survives_a_crash_before_commit() {
    let mut store = store_of(&["a", "b"]);
    let report = run_cycle(
        &mut store,
        10,
        DeliveryPolicy::AtLeastOnce,
        &vec![ok(1), ok(2)],
        false,
    );
    assert_eq!(2, report.sent.len());
    assert!(!report.aborted);
    assert_eq!(vec!["a", "b"], topics(&store));

    let retry = run_cycle(
        &mut store,
        10,
        DeliveryPolicy::AtLeastOnce,
        &vec![ok(3), ok(4)],
        true,
    );
    assert_eq!(2, retry.sent.len());
    assert!(store.is_empty());
}

#[test]
fn at_most_once_loses_the_batch_on_a_crash() {
    let mut store = store_of(&["a", "b"]);
    run_cycle(
        &mut store,
        10,
        DeliveryPolicy::AtMostOnce,
        &vec![ok(1), ok(2)],
        false,
    );
    assert!(store.is_empty());
}

#[test]
fn unencodable_entry_is_dropped_and_the_batch_goes_on() {
    let mut store = store_of(&["a", "b", "c"]);
    let report = run_cycle(
        &mut store,
        10,
        DeliveryPolicy::AtLeastOnce,
        &vec![ok(1), Err(PublishError::SerializationFailed), ok(3)],
        true,
    );
    assert!(!report.aborted);
    assert_eq!(3, report.attempted);
    let sent: Vec<&str> = report.sent.iter().map(|m| m.topic.as_str()).collect();
    assert_eq!(vec!["a", "c"], sent);
    assert!(store.is_empty());
}

#[test]
fn missing_broker_answer_counts_as_timeout() {
    let mut store = store_of(&["a", "b"]);
    let report = run_cycle(&mut store, 10, DeliveryPolicy::AtLeastOnce, &vec![ok(1)], true);
    assert!(report.aborted);
    assert_eq!(2, report.attempted);
    assert_eq!(2, store.len());
}

#[test]
fn cycle_claims_at_most_the_batch_size() {
    let mut store = store_of(&["a", "b", "c", "d"]);
    let report = run_cycle(
        &mut store,
        2,
        DeliveryPolicy::AtLeastOnce,
        &vec![ok(1), ok(2), ok(3), ok(4)],
        true,
    );
    assert_eq!(2, report.claimed);
    assert_eq!(vec!["c", "d"], topics(&store));
}

#[test]
fn message_maps_entry_fields() {
    let store = {
        let mut s = OutboxStore::new();
        create_outbox_entry(
            &mut s,
            CreateOutboxEntry {
                topic: "t".to_string(),
                partition_key: None,
                headers: None,
                payload: None,
            },
            0,
        )
        .unwrap();
        s
    };
    let m = to_message(&store.entries()[0]);
    assert_eq!("t", m.topic);
    assert_eq!(None, m.key);
    assert!(m.headers.is_empty());
    assert_eq!(None, m.payload);
}

#[test]
fn publish_error_retryability() {
    assert!(PublishError::Timeout.is_retryable());
    assert!(PublishError::BrokerRejected.is_retryable());
    assert!(!PublishError::SerializationFailed.is_retryable());
    assert_eq!(5000, PUBLISH_TIMEOUT_MS);
}

#[test]
fn default_policy_is_at_least_once() {
    assert_eq!(DeliveryPolicy::AtLeastOnce, DeliveryPolicy::default());
}

#[test]
fn policies_resolve_batches() {
    assert_eq!(Resolution::Commit, DeliveryPolicy::AtMostOnce.resolve(true));
    assert_eq!(Resolution::Commit, DeliveryPolicy::AtMostOnce.resolve(false));
    assert_eq!(Resolution::Rollback, DeliveryPolicy::AtLeastOnce.resolve(true));
    assert_eq!(Resolution::Commit, DeliveryPolicy::AtLeastOnce.resolve(false));
}

#[test]
fn worker_runs_a_full_cycle() {
    let mut store = store_of(&["a", "b"]);
    let mut w = RelayWorker::new(DeliveryPolicy::AtLeastOnce, 10);
    assert!(matches!(w.on_wake(), Action::Claim(10)));
    assert_eq!(Phase::Claiming, w.phase());
    let batch = realworld::outbox::query_outbox_entry_batch(&mut store, 10);
    match w.on_claimed(batch) {
        Action::Publish(m) => assert_eq!("a", m.topic),
        other => panic!("unexpected {:?}", other),
    }
    match w.on_published(ok(1)) {
        Action::Publish(m) => assert_eq!("b", m.topic),
        other => panic!("unexpected {:?}", other),
    }
    assert!(matches!(
        w.on_published(ok(2)),
        Action::Resolve(Resolution::Commit)
    ));
    assert_eq!(Phase::Resolving, w.phase());
    assert!(matches!(w.on_resolved(), Action::Wait));
    assert_eq!(Phase::Idle, w.phase());
}

#[test]
fn worker_rolls_back_on_retryable_failure() {
    let mut store = store_of(&["a", "b"]);
    let mut w = RelayWorker::new(DeliveryPolicy::AtLeastOnce, 10);
    w.on_wake();
    let batch = realworld::outbox::query_outbox_entry_batch(&mut store, 10);
    w.on_claimed(batch);
    assert!(matches!(
        w.on_published(Err(PublishError::Timeout)),
        Action::Resolve(Resolution::Rollback)
    ));
}

#[test]
fn worker_coalesces_wakes_during_a_cycle() {
    let mut w = RelayWorker::new(DeliveryPolicy::AtLeastOnce, 4);
    assert!(matches!(w.on_wake(), Action::Claim(4)));
    assert!(matches!(w.on_wake(), Action::Wait));
    assert!(matches!(w.on_wake(), Action::Wait));
    assert!(matches!(w.on_claimed(Vec::new()), Action::Claim(4)));
    assert!(matches!(w.on_claimed(Vec::new()), Action::Wait));
    assert_eq!(Phase::Idle, w.phase());
}

#[test]
fn worker_finishes_its_cycle_before_shutting_down() {
    let mut store = store_of(&["a"]);
    let mut w = RelayWorker::new(DeliveryPolicy::AtLeastOnce, 10);
    w.on_wake();
    assert!(matches!(w.on_shutdown(), Action::Wait));
    let batch = realworld::outbox::query_outbox_entry_batch(&mut store, 10);
    assert!(matches!(w.on_claimed(batch), Action::Publish(_)));
    assert!(matches!(w.on_published(ok(1)), Action::Resolve(Resolution::Commit)));
    assert!(matches!(w.on_resolved(), Action::Exit));
    assert_eq!(Phase::Stopped, w.phase());
    assert!(matches!(w.on_wake(), Action::Exit));
}

#[test]
fn idle_worker_stops_at_once() {
    let mut w = RelayWorker::new(DeliveryPolicy::AtMostOnce, 10);
    assert!(matches!(w.on_shutdown(), Action::Exit));
    assert_eq!(Phase::Stopped, w.phase());
}

#[test]
fn store_failure_ends_the_worker() {
    let mut w = RelayWorker::new(DeliveryPolicy::AtLeastOnce, 10);
    w.on_wake();
    assert!(matches!(w.on_store_failed(), Action::Exit));
    assert_eq!(Phase::Stopped, w.phase());
}

#[test]
fn events_out_of_phase_are_ignored() {
    let mut w = RelayWorker::new(DeliveryPolicy::AtLeastOnce, 10);
    assert!(matches!(w.on_published(ok(1)), Action::Wait));
    assert!(matches!(w.on_resolved(), Action::Wait));
    assert!(matches!(w.on_claimed(Vec::new()), Action::Wait));
    assert_eq!(Phase::Idle, w.phase());
}
