//! Where the relay keeps its state: under `<home>/.clog`, the descriptor
//! `server.json`, the daemon's own output `server.log`, and the log
//! `logs/clog.ndjson`.
use vstd::prelude::*;
use vstd::string::*;

verus! {

/// `name` appended to the path `base`, with a `/` between unless `base` is
/// empty or already ends with one.
pub open spec fn joined(base: Seq<char>, name: Seq<char>) -> Seq<char> {
    if base.len() == 0 || base.last() == '/' {
        base + name
    } else {
        base + seq!['/'] + name
    }
}

pub fn join(base: &str, name: &str) -> (r: String)
    ensures
        r@ == joined(base@, name@),
{
    let len = base.unicode_len();
    let mut r = String::from_str(base);
    if len == 0 || base.get_char(len - 1) == '/' {
        r.append(name);
    } else {
        r.append("/");
        proof {
            reveal_strlit("/");
        }
        r.append(name);
    }
    r
}

pub open spec fn clog_dir_of(home: Seq<char>) -> Seq<char> {
    joined(home, ".clog"@)
}

pub open spec fn logs_dir_of(home: Seq<char>) -> Seq<char> {
    joined(clog_dir_of(home), "logs"@)
}

/// The state directory for the home directory `home`.
pub fn clog_dir(home: &str) -> (r: String)
    ensures
        r@ == clog_dir_of(home@),
{
    join(home, ".clog")
}

/// The directory that holds the log file.
pub fn logs_dir(home: &str) -> (r: String)
    ensures
        r@ == logs_dir_of(home@),
{
    let dir = clog_dir(home);
    join(dir.as_str(), "logs")
}

/// The append-only log of records.
pub fn log_file(home: &str) -> (r: String)
    ensures
        r@ == joined(logs_dir_of(home@), "clog.ndjson"@),
{
    let dir = logs_dir(home);
    join(dir.as_str(), "clog.ndjson")
}

/// The descriptor of the running daemon.
pub fn server_json(home: &str) -> (r: String)
    ensures
        r@ == joined(clog_dir_of(home@), "server.json"@),
{
    let dir = clog_dir(home);
    join(dir.as_str(), "server.json")
}

/// Where the daemon's standard output and error go.
pub fn server_log(home: &str) -> (r: String)
    ensures
        r@ == joined(clog_dir_of(home@), "server.log"@),
{
    let dir = clog_dir(home);
    join(dir.as_str(), "server.log")
}

} // verus!
