use chat_core::event::Event;
use chat_core::fanout::{Broadcaster, QueueItem};
use chat_core::ingest::{
    decode_notification, DecodeError, FeedState, IngestOutcome, IngestionCore, Notification,
    BACKOFF_BASE_MS, BACKOFF_CAP_MS,
};
use chat_core::shared_log::SharedLog;

fn notif(id: i64, text: &str) -> Notification {
    Notification {
        id: Some(id),
        text: Some(text.to_owned()),
        created_at: Some("2024-01-01T00:00:00".to_owned()),
    }
}

fn subscribed_core() -> IngestionCore {
    let mut core = IngestionCore::new();
    core.begin_connect();
    core.connection_established();
    core
}

#[test]
fn decode_accepts_a_complete_notification() {
    let e: Event = decode_notification(notif(4, "hi")).expect("complete notification");
    assert_eq!(e.id, 4);
    assert_eq!(e.text, "hi");
    assert_eq!(e.created_at, "2024-01-01T00:00:00");
}

#[test]
fn decode_names_the_first_missing_field() {
    let no_id = Notification { id: None, text: Some("x".into()), created_at: None };
    assert_eq!(decode_notification(no_id).unwrap_err(), DecodeError::MissingId);

    let no_text = Notification { id: Some(1), text: None, created_at: Some("t".into()) };
    assert_eq!(decode_notification(no_text).unwrap_err(), DecodeError::MissingText);

    let no_stamp = Notification { id: Some(1), text: Some("x".into()), created_at: None };
    assert_eq!(decode_notification(no_stamp).unwrap_err(), DecodeError::MissingCreatedAt);
}

#[test]
fn malformed_notification_changes_nothing_and_ingestion_continues() {
    let mut log = SharedLog::new();
    let mut fan = Broadcaster::new();
    let core = subscribed_core();
    let h = fan.subscribe(10);

    let missing_text = Notification {
        id: Some(1),
        text: None,
        created_at: Some("2024-01-01T00:00:00".to_owned()),
    };
    let outcome = core.handle_notification(&mut log, &mut fan, missing_text);
    assert_eq!(outcome, IngestOutcome::Dropped(DecodeError::MissingText));
    assert_eq!(log.len(), 0);
    assert!(fan.poll(h).is_none());

    // The next valid notification is processed as if nothing happened.
    let outcome = core.handle_notification(&mut log, &mut fan, notif(1, "ok"));
    assert_eq!(outcome, IngestOutcome::Ingested);
    assert_eq!(log.len(), 1);
    match fan.poll(h) {
        Some(QueueItem::Data(e)) => assert_eq!(e.text, "ok"),
        other => panic!("expected the valid event, got {other:?}"),
    }
}

#[test]
fn redelivered_notification_is_not_ingested_twice() {
    let mut log = SharedLog::new();
    let mut fan = Broadcaster::new();
    let core = subscribed_core();
    let h = fan.subscribe(10);

    assert_eq!(core.handle_notification(&mut log, &mut fan, notif(1, "hi")), IngestOutcome::Ingested);
    assert_eq!(core.handle_notification(&mut log, &mut fan, notif(1, "hi")), IngestOutcome::Duplicate);
    assert_eq!(log.len(), 1);
    assert!(matches!(fan.poll(h), Some(QueueItem::Data(_))));
    assert!(fan.poll(h).is_none());
}

#[test]
fn ingestion_survives_a_feed_disconnect() {
    let mut log = SharedLog::new();
    let mut fan = Broadcaster::new();
    let mut core = subscribed_core();

    assert_eq!(core.handle_notification(&mut log, &mut fan, notif(1, "before")), IngestOutcome::Ingested);

    // The feed breaks mid-stream and the loop reconnects.
    core.feed_lost();
    assert_eq!(core.state, FeedState::Disconnected);
    core.begin_connect();
    core.connection_established();
    assert_eq!(core.state, FeedState::Subscribed);

    // A redelivery of the last notification is ignored.
    assert_eq!(core.handle_notification(&mut log, &mut fan, notif(1, "before")), IngestOutcome::Duplicate);
    assert_eq!(log.len(), 1);

    // New notifications keep flowing, and later subscribers see them.
    assert_eq!(core.handle_notification(&mut log, &mut fan, notif(2, "after")), IngestOutcome::Ingested);
    let h = fan.subscribe(10);
    assert_eq!(core.handle_notification(&mut log, &mut fan, notif(3, "later")), IngestOutcome::Ingested);
    match fan.poll(h) {
        Some(QueueItem::Data(e)) => assert_eq!(e.text, "later"),
        other => panic!("expected the post-reconnect event, got {other:?}"),
    }
    let ids: Vec<i64> = log.snapshot().iter().map(|e| e.id).collect();
    assert_eq!(ids, vec![1, 2, 3]);
}

#[test]
fn backoff_doubles_from_base_to_cap() {
    let mut core = IngestionCore::new();
    assert_eq!(core.next_retry_delay_ms(), BACKOFF_BASE_MS);
    let mut expected = vec![];
    for _ in 0..8 {
        core.begin_connect();
        core.connection_failed();
        expected.push(core.next_retry_delay_ms());
    }
    assert_eq!(expected, vec![1000, 2000, 4000, 8000, 16000, 30000, 30000, 30000]);
    assert_eq!(BACKOFF_CAP_MS, 30000);
}

#[test]
fn connection_success_ends_the_failure_streak() {
    let mut core = IngestionCore::new();
    core.begin_connect();
    core.connection_failed();
    core.begin_connect();
    core.connection_failed();
    assert_eq!(core.failures, 2);
    core.begin_connect();
    core.connection_established();
    assert_eq!(core.failures, 0);
    assert_eq!(core.next_retry_delay_ms(), BACKOFF_BASE_MS);
}
