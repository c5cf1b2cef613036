use clog::reader::{latest, matches_query};
use clog::record::{frame_record, record_line, Timestamp};

fn lines(v: &[&str]) -> Vec<String> {
    v.iter().map(|s| s.to_string()).collect()
}

#[test]
fn latest_takes_last_n() {
    let all = lines(&["a", "b", "c", "d"]);
    assert_eq!(latest(&all, 2, None), lines(&["c", "d"]));
    assert_eq!(latest(&all, 10, None), all);
    assert_eq!(latest(&all, 0, None), Vec::<String>::new());
}

#[test]
fn latest_filters_then_takes_last_n() {
    let all = lines(&["err one", "ok", "err two", "warn", "err three"]);
    assert_eq!(latest(&all, 2, Some("err")), lines(&["err two", "err three"]));
    assert_eq!(latest(&all, 5, Some("err")), lines(&["err one", "err two", "err three"]));
    assert_eq!(latest(&all, 3, Some("zzz")), Vec::<String>::new());
}

#[test]
fn latest_after_clear_is_empty() {
    let cleared: Vec<String> = Vec::new();
    for n in [1usize, 5, 100] {
        assert!(latest(&cleared, n, None).is_empty());
        assert!(latest(&cleared, n, Some("x")).is_empty());
    }
}

#[test]
fn latest_results_are_bounded_matching_and_ordered() {
    let all = lines(&["x1", "y", "x2", "x3", "y", "x4"]);
    let got = latest(&all, 3, Some("x"));
    assert!(got.len() <= 3);
    assert!(got.iter().all(|l| l.contains('x')));
    assert_eq!(got, lines(&["x2", "x3", "x4"]));
}

#[test]
fn query_matching() {
    assert!(matches_query("anything", None));
    assert!(matches_query("anything", Some("")));
    assert!(matches_query("héllo wörld", Some("wö")));
    assert!(!matches_query("abc", Some("abcd")));
    assert!(!matches_query("abc", Some("ac")));
}

#[test]
fn ingested_record_is_found_by_latest() {
    let first = String::from_utf8(frame_record("2024-05-01T10:00:00+00:00", "{\"y\":2}")).unwrap();
    let rec = record_line(&Timestamp { secs: 1_714_557_600, nanos: 0 }, "{\"x\":1}").unwrap();
    let second = String::from_utf8(rec).unwrap();
    let log = format!("{first}{second}");
    let all: Vec<String> = log.lines().map(|l| l.to_string()).collect();
    assert_eq!(all.len(), 2);
    let got = latest(&all, 1, None);
    assert_eq!(got.len(), 1);
    assert!(got[0].contains("\"data\":{\"x\":1}"));
}
