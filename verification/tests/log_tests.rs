use chat_core::event::Event;
use chat_core::shared_log::SharedLog;

fn ev(id: i64, text: &str) -> Event {
    Event { id, text: text.to_owned(), created_at: format!("2024-01-0{id}T00:00:00") }
}

fn ids(log: &SharedLog) -> Vec<i64> {
    log.snapshot().iter().map(|e| e.id).collect()
}

#[test]
fn empty_log_snapshot_is_empty() {
    let log = SharedLog::new();
    assert_eq!(log.len(), 0);
    assert!(log.snapshot().is_empty());
}

#[test]
fn append_twice_keeps_event_once() {
    let mut log = SharedLog::new();
    assert!(log.append(ev(7, "hello")));
    assert!(!log.append(ev(7, "hello")));
    let snap = log.snapshot();
    assert_eq!(snap.len(), 1);
    assert_eq!(snap[0].id, 7);
    assert_eq!(snap[0].text, "hello");
}

#[test]
fn duplicate_id_with_other_text_is_not_retained() {
    let mut log = SharedLog::new();
    assert!(log.append(ev(3, "first")));
    assert!(!log.append(ev(3, "second")));
    let snap = log.snapshot();
    assert_eq!(snap.len(), 1);
    assert_eq!(snap[0].text, "first");
}

#[test]
fn snapshot_sorted_regardless_of_arrival_order() {
    let mut log = SharedLog::new();
    for id in [4i64, 1, 3, 2] {
        assert!(log.append(ev(id, "x")));
    }
    assert_eq!(ids(&log), vec![1, 2, 3, 4]);

    let mut other = SharedLog::new();
    for id in [2i64, 3, 1, 4] {
        assert!(other.append(ev(id, "x")));
    }
    assert_eq!(ids(&other), vec![1, 2, 3, 4]);
}

#[test]
fn out_of_order_id_is_inserted_not_rejected() {
    let mut log = SharedLog::new();
    assert!(log.append(ev(10, "later")));
    assert!(log.append(ev(5, "earlier")));
    let snap = log.snapshot();
    assert_eq!(snap[0].id, 5);
    assert_eq!(snap[1].id, 10);
}

#[test]
fn bootstrap_then_append_extends_in_order() {
    let mut log = SharedLog::new();
    log.bootstrap(vec![ev(1, "a"), ev(2, "b")]);
    assert_eq!(log.len(), 2);
    assert!(log.append(ev(3, "c")));
    assert_eq!(ids(&log), vec![1, 2, 3]);
    assert!(!log.append(ev(2, "b")));
    assert_eq!(log.len(), 3);
}

#[test]
fn snapshot_is_a_copy_not_a_window() {
    let mut log = SharedLog::new();
    log.bootstrap(vec![ev(1, "a")]);
    let snap = log.snapshot();
    assert!(log.append(ev(2, "b")));
    assert_eq!(snap.len(), 1);
    assert_eq!(log.len(), 2);
}
