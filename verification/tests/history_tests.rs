use std::time::{SystemTime, UNIX_EPOCH};
use lion_calculator::history::{History, HistoryRecord, HISTORY_LIMIT};

fn is_clock(ts: &str) -> bool {
    let b = ts.as_bytes();
    b.len() == 8
        && b[2] == b':'
        && b[5] == b':'
        && b.iter().enumerate().all(|(i, c)| i == 2 || i == 5 || c.is_ascii_digit())
}

#[test]
fn new_history_is_empty() {
    let h = History::new();
    assert!(h.is_empty());
    assert_eq!(h.len(), 0);
    assert!(h.get(0).is_none());
    assert!(h.all().is_empty());
}

#[test]
fn newest_first() {
    let mut h = History::new();
    h.push("1 + 1 =".to_string(), "2".to_string());
    h.push("2 × 3 =".to_string(), "6".to_string());
    assert_eq!(h.len(), 2);
    assert_eq!(h.get(0).unwrap().expr, "2 × 3 =");
    assert_eq!(h.get(0).unwrap().result, "6");
    assert_eq!(h.get(1).unwrap().result, "2");
    assert!(h.get(2).is_none());
    assert!(is_clock(&h.get(0).unwrap().ts));
    assert_eq!(h.all()[1].expr, "1 + 1 =");
}

#[test]
fn bounded_to_limit() {
    let mut h = History::new();
    for i in 0..(HISTORY_LIMIT + 5) {
        h.push(format!("e{i}"), format!("{i}"));
    }
    assert_eq!(h.len(), HISTORY_LIMIT);
    assert_eq!(h.get(0).unwrap().result, format!("{}", HISTORY_LIMIT + 4));
    assert_eq!(h.get(HISTORY_LIMIT - 1).unwrap().result, "5");
}

#[test]
fn push_record_keeps_given_stamp() {
    let mut h = History::default();
    h.push_record(HistoryRecord { expr: "x".into(), result: "1".into(), ts: "12:00:00".into() });
    assert_eq!(h.get(0).unwrap().ts, "12:00:00");
}

#[test]
fn record_new_stamps_time() {
    let r = HistoryRecord::new("a".to_string(), "b".to_string());
    assert_eq!(r.expr, "a");
    assert_eq!(r.result, "b");
    assert!(is_clock(&r.ts));
}

#[test]
fn clear_empties() {
    let mut h = History::new();
    h.push("a".to_string(), "1".to_string());
    h.clear();
    assert!(h.is_empty());
}

fn utc_text(secs: u64) -> String {
    let d = secs % 86400;
    format!("{:02}:{:02}:{:02}", d / 3600, (d / 60) % 60, d % 60)
}

#[test]
fn stamp_is_utc_time_of_day() {
    let before = SystemTime::now().duration_since(UNIX_EPOCH).unwrap().as_secs();
    let r = HistoryRecord::new("1".to_string(), "1".to_string());
    let after = SystemTime::now().duration_since(UNIX_EPOCH).unwrap().as_secs();
    assert!(r.ts == utc_text(before) || r.ts == utc_text(after), "{}", r.ts);
}
