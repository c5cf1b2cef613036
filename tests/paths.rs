use clog::paths::{clog_dir, join, log_file, logs_dir, server_json, server_log};

#[test]
fn layout_under_home() {
    assert_eq!(clog_dir("/home/ann"), "/home/ann/.clog");
    assert_eq!(logs_dir("/home/ann"), "/home/ann/.clog/logs");
    assert_eq!(log_file("/home/ann"), "/home/ann/.clog/logs/clog.ndjson");
    assert_eq!(server_json("/home/ann"), "/home/ann/.clog/server.json");
    assert_eq!(server_log("/home/ann"), "/home/ann/.clog/server.log");
}

#[test]
fn join_separators() {
    assert_eq!(join("/root/", "x"), "/root/x");
    assert_eq!(join("", "x"), "x");
    assert_eq!(join("a", "b"), "a/b");
}
