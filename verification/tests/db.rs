use easyshare::db::{decide_recall, message_from_row, new_message, page_of_rows, RecallDecision};
use easyshare::models::{Message, MessageKind};

fn msg(id: i64) -> Message {
    new_message(id, "host", "127.0.0.1", MessageKind::Text, Some(&format!("msg {id}")), None, None, 0)
}

/// Rows as the newest-first query returns them: ids below `before`,
/// descending, at most `limit + 1` of them.
fn query(total: i64, before: Option<i64>, limit: i64) -> Vec<Message> {
    let top = before.map(|b| b - 1).unwrap_or(total).min(total);
    (1..=top).rev().take((limit + 1) as usize).map(msg).collect()
}

#[test]
fn page_of_latest_rows() {
    let (msgs, has_more) = page_of_rows(query(3, None, 10), 10);
    assert_eq!(msgs.len(), 3);
    assert!(!has_more);
    assert_eq!(msgs[0].content.as_deref(), Some("msg 1"));
    assert_eq!(msgs[2].content.as_deref(), Some("msg 3"));
}

#[test]
fn pages_of_ten() {
    let (p1, more1) = page_of_rows(query(25, None, 10), 10);
    assert_eq!(p1.len(), 10);
    assert!(more1);
    assert_eq!(p1[9].id, 25);
    assert_eq!(p1[0].id, 16);
    let (p2, more2) = page_of_rows(query(25, Some(p1[0].id), 10), 10);
    assert_eq!(p2.len(), 10);
    assert!(more2);
    assert_eq!(p2[9].id, 15);
    let (p3, more3) = page_of_rows(query(25, Some(p2[0].id), 10), 10);
    assert_eq!(p3.len(), 5);
    assert!(!more3);
    assert_eq!(p3[0].id, 1);
    let (p4, more4) = page_of_rows(query(25, Some(p3[0].id), 10), 10);
    assert!(p4.is_empty());
    assert!(!more4);
}

#[test]
fn negative_limit_keeps_all_rows() {
    let (p, more) = page_of_rows(query(4, None, 10), -1);
    assert_eq!(p.iter().map(|m| m.id).collect::<Vec<_>>(), vec![1, 2, 3, 4]);
    assert!(more);
    let (p, more) = page_of_rows(query(4, None, 10), 0);
    assert!(p.is_empty());
    assert!(more);
}

#[test]
fn rows_read_back() {
    let m = message_from_row(
        7,
        "h".to_string(),
        "1.2.3.4".to_string(),
        "image",
        None,
        Some("f".to_string()),
        Some("o.png".to_string()),
        99,
        1,
    );
    assert_eq!(m.kind, MessageKind::Image);
    assert!(m.recalled);
    assert_eq!(m.filename.as_deref(), Some("f"));
    let m = message_from_row(8, "h".into(), "ip".into(), "weird", Some("x".into()), None, None, 1, 0);
    assert_eq!(m.kind, MessageKind::Text);
    assert!(!m.recalled);
    let m = message_from_row(9, "h".into(), "ip".into(), "file", None, None, None, 1, -5);
    assert_eq!(m.kind, MessageKind::File);
    assert!(m.recalled);
}

#[test]
fn new_messages_are_not_recalled() {
    let m = new_message(3, "alice-pc", "192.168.1.2", MessageKind::Text, Some("hello"), None, None, 42);
    assert_eq!(m.id, 3);
    assert_eq!(m.hostname, "alice-pc");
    assert_eq!(m.ip, "192.168.1.2");
    assert_eq!(m.content.as_deref(), Some("hello"));
    assert_eq!(m.created_at, 42);
    assert!(!m.recalled);
}

#[test]
fn recall_by_owner_only() {
    assert_eq!(
        decide_recall(Some(("alice-pc", "192.168.1.2")), "alice-pc", "192.168.1.2"),
        RecallDecision::Allowed
    );
    assert_eq!(
        decide_recall(Some(("alice-pc", "192.168.1.2")), "bob-pc", "192.168.1.3"),
        RecallDecision::Denied
    );
    assert_eq!(
        decide_recall(Some(("alice-pc", "192.168.1.2")), "alice-pc", "192.168.1.3"),
        RecallDecision::Denied
    );
    assert_eq!(decide_recall(None, "a", "1.1.1.1"), RecallDecision::NotFound);
}
