use chat_core::event::Event;
use chat_core::fanout::Broadcaster;
use chat_core::ingest::{IngestOutcome, IngestionCore, Notification};
use chat_core::session::{OutboundItem, StreamSession, KEEPALIVE_INTERVAL_SECS};
use chat_core::shared_log::SharedLog;

fn ev(id: i64, text: &str) -> Event {
    Event { id, text: text.to_owned(), created_at: String::new() }
}

fn notif(id: i64, text: &str) -> Notification {
    Notification { id: Some(id), text: Some(text.to_owned()), created_at: Some(String::new()) }
}

fn subscribed_core() -> IngestionCore {
    let mut core = IngestionCore::new();
    core.begin_connect();
    core.connection_established();
    core
}

#[test]
fn snapshot_then_live_tail_end_to_end() {
    let mut log = SharedLog::new();
    let mut fan = Broadcaster::new();
    let core = subscribed_core();
    log.bootstrap(vec![ev(1, "hi")]);

    // Subscriber A attaches: its initial batch is the snapshot.
    let (a, a_snapshot) = StreamSession::attach(&log, &mut fan, 10);
    assert_eq!(a_snapshot.len(), 1);
    assert_eq!(a_snapshot[0].text, "hi");

    // A new event arrives over the feed.
    let outcome = core.handle_notification(&mut log, &mut fan, notif(2, "there"));
    assert_eq!(outcome, IngestOutcome::Ingested);

    // A's next live item is exactly that event's text.
    match a.next_live_item(&mut fan) {
        Some(OutboundItem::Data(text)) => assert_eq!(text, "there"),
        other => panic!("expected the live event, got {other:?}"),
    }

    // The log now holds both events in order.
    let snap: Vec<(i64, String)> = log.snapshot().into_iter().map(|e| (e.id, e.text)).collect();
    assert_eq!(snap, vec![(1, "hi".to_owned()), (2, "there".to_owned())]);

    // Subscriber B attaches afterwards: its snapshot equals A's view,
    // and nothing of event 2 is replayed beyond it.
    let (b, b_snapshot) = StreamSession::attach(&log, &mut fan, 10);
    let b_ids: Vec<i64> = b_snapshot.iter().map(|e| e.id).collect();
    assert_eq!(b_ids, vec![1, 2]);
    assert!(b.next_live_item(&mut fan).is_none());
}

#[test]
fn lagging_session_sees_gap_then_newest() {
    let mut log = SharedLog::new();
    let mut fan = Broadcaster::new();
    let core = subscribed_core();
    let (s, _) = StreamSession::attach(&log, &mut fan, 2);
    for id in 1..=4i64 {
        let outcome = core.handle_notification(&mut log, &mut fan, notif(id, &format!("m{id}")));
        assert_eq!(outcome, IngestOutcome::Ingested);
    }
    assert!(matches!(s.next_live_item(&mut fan), Some(OutboundItem::Gap)));
    match s.next_live_item(&mut fan) {
        Some(OutboundItem::Data(text)) => assert_eq!(text, "m3"),
        other => panic!("expected m3, got {other:?}"),
    }
    match s.next_live_item(&mut fan) {
        Some(OutboundItem::Data(text)) => assert_eq!(text, "m4"),
        other => panic!("expected m4, got {other:?}"),
    }
    assert!(s.next_live_item(&mut fan).is_none());
}

#[test]
fn keepalive_carries_no_payload() {
    let log = SharedLog::new();
    let mut fan = Broadcaster::new();
    let (s, _) = StreamSession::attach(&log, &mut fan, 10);
    assert!(matches!(s.keepalive_item(), OutboundItem::Keepalive));
    assert_eq!(KEEPALIVE_INTERVAL_SECS, 15);
}

#[test]
fn detach_releases_the_subscription_on_any_path() {
    let mut log = SharedLog::new();
    let mut fan = Broadcaster::new();
    let core = subscribed_core();
    let (s, _) = StreamSession::attach(&log, &mut fan, 10);
    s.detach(&mut fan);
    // Detaching twice is safe, and a detached session gets nothing.
    s.detach(&mut fan);
    let outcome = core.handle_notification(&mut log, &mut fan, notif(1, "x"));
    assert_eq!(outcome, IngestOutcome::Ingested);
    assert!(s.next_live_item(&mut fan).is_none());
}
