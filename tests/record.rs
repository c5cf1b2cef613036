use clog::record::{acknowledge, frame_record, record_line, Timestamp};

#[test]
fn record_at_epoch() {
    let line = record_line(&Timestamp { secs: 0, nanos: 0 }, "{\"x\":1}").unwrap();
    assert_eq!(
        String::from_utf8(line).unwrap(),
        "{\"ts\":\"1970-01-01T00:00:00+00:00\",\"data\":{\"x\":1}}\n"
    );
}

#[test]
fn record_time_is_the_given_instant() {
    let line = record_line(&Timestamp { secs: 1_700_000_000, nanos: 500_000_000 }, "null").unwrap();
    assert_eq!(
        String::from_utf8(line).unwrap(),
        "{\"ts\":\"2023-11-14T22:13:20.500+00:00\",\"data\":null}\n"
    );
}

#[test]
fn record_out_of_range_instant() {
    assert_eq!(record_line(&Timestamp { secs: i64::MAX, nanos: 0 }, "1"), None);
}

#[test]
fn frame_escapes_the_time_text() {
    let line = frame_record("a\"b\\c\nd", "[1,2]");
    assert_eq!(
        String::from_utf8(line).unwrap(),
        "{\"ts\":\"a\\\"b\\\\c\\u000ad\",\"data\":[1,2]}\n"
    );
}

#[test]
fn frame_is_one_line_holding_the_body() {
    let body = "{\"nested\":{\"s\":\"line\\nbreak\"},\"n\":[1,2,3]}";
    let line = String::from_utf8(frame_record("2024-01-01T00:00:00+00:00", body)).unwrap();
    assert_eq!(line.matches('\n').count(), 1);
    assert!(line.ends_with('\n'));
    assert!(line.contains(body));
}

#[test]
fn ack_success() {
    let a = acknowledge(None);
    assert_eq!(a.status, 200);
    assert_eq!(a.body, b"{\"ok\":true}".to_vec());
}

#[test]
fn ack_failure_carries_message() {
    let a = acknowledge(Some("Permission denied (os error 13)"));
    assert_eq!(a.status, 500);
    assert_eq!(
        String::from_utf8(a.body).unwrap(),
        "{\"ok\":false,\"error\":\"Permission denied (os error 13)\"}"
    );
}
