//! The records that the daemon appends to the log file, one per line:
//! `{"ts":"<RFC 3339 time>","data":<request body>}`, and the body of its
//! answer to each request.
use vstd::prelude::*;
use vstd::string::*;
use vstd::utf8::encode_utf8;
use crate::descriptor::push_all;

verus! {

/// A UTC instant: seconds since the Unix epoch and the nanoseconds within that
/// second (above 999_999_999 only during a leap second).
#[derive(Clone, Copy, Debug, PartialEq, Eq, Structural)]
pub struct Timestamp {
    pub secs: i64,
    pub nanos: u32,
}

/// What chrono writes for a UTC instant in RFC 3339 form; `None` for an
/// instant outside the range of its dates.
pub uninterp spec fn rfc3339_of(secs: i64, nanos: u32) -> Option<Seq<char>>;

/// Relies on chrono's `DateTime::<Utc>::from_timestamp`, which yields `None`
/// outside its supported range, and on `DateTime::to_rfc3339`; the text
/// depends on the instant alone.
#[verifier::external_body]
fn format_rfc3339(secs: i64, nanos: u32) -> (r: Option<String>)
    ensures
        match r {
            Some(t) => rfc3339_of(secs, nanos) == Some(t@),
            None => rfc3339_of(secs, nanos) is None,
        },
{
    match chrono::DateTime::<chrono::Utc>::from_timestamp(secs, nanos) {
        Some(t) => Some(t.to_rfc3339()),
        None => None,
    }
}

pub open spec fn hex_digit(d: u8) -> u8 {
    if d < 10 {
        (48 + d) as u8
    } else {
        (87 + d) as u8
    }
}

/// How one byte stands inside a JSON string literal.
pub open spec fn escape_byte(c: u8) -> Seq<u8> {
    if c == 34 {
        seq![92u8, 34u8]
    } else if c == 92 {
        seq![92u8, 92u8]
    } else if c < 32 {
        seq![92u8, 117u8, 48u8, 48u8, hex_digit(c / 16), hex_digit(c % 16)]
    } else {
        seq![c]
    }
}

pub open spec fn escaped(s: Seq<u8>) -> Seq<u8>
    decreases s.len(),
{
    if s.len() == 0 {
        Seq::empty()
    } else {
        escaped(s.drop_last()) + escape_byte(s.last())
    }
}

/// `s` as a JSON string literal.
pub open spec fn quoted(s: Seq<u8>) -> Seq<u8> {
    seq![34u8] + escaped(s) + seq![34u8]
}

/// `{"ts":`
pub open spec fn ts_key() -> Seq<u8> {
    seq![123u8, 34u8, 116u8, 115u8, 34u8, 58u8]
}

/// `,"data":`
pub open spec fn data_key() -> Seq<u8> {
    seq![44u8, 34u8, 100u8, 97u8, 116u8, 97u8, 34u8, 58u8]
}

/// The log line, newline included, for a request body `data` (JSON text)
/// received at the time written `ts`.
pub open spec fn record_bytes(ts: Seq<u8>, data: Seq<u8>) -> Seq<u8> {
    ts_key() + quoted(ts) + data_key() + data + seq![125u8, 10u8]
}

fn hex(d: u8) -> (r: u8)
    requires
        d < 16,
    ensures
        r == hex_digit(d),
{
    if d < 10 {
        48 + d
    } else {
        87 + d
    }
}

/// Appends `s` to `out` as a JSON string literal.
fn push_quoted(out: &mut Vec<u8>, s: &[u8])
    ensures
        final(out)@ == old(out)@ + quoted(s@),
{
    out.push(34);
    let mut i: usize = 0;
    while i < s.len()
        invariant
            i <= s@.len(),
            out@ == old(out)@ + seq![34u8] + escaped(s@.subrange(0, i as int)),
        decreases s@.len() - i,
    {
        let c = s[i];
        let ghost before = out@;
        if c == 34 {
            out.push(92);
            out.push(34);
        } else if c == 92 {
            out.push(92);
            out.push(92);
        } else if c < 32 {
            out.push(92);
            out.push(117);
            out.push(48);
            out.push(48);
            out.push(hex(c / 16));
            out.push(hex(c % 16));
        } else {
            out.push(c);
        }
        assert(out@ =~= before + escape_byte(c));
        i = i + 1;
        assert(s@.subrange(0, i as int).drop_last() =~= s@.subrange(0, i - 1));
    }
    out.push(34);
    assert(s@.subrange(0, s@.len() as int) =~= s@);
    assert(out@ =~= old(out)@ + quoted(s@));
}

/// The log line for the request body `data`, received at the time written `ts`.
pub fn frame_record(ts: &str, data: &str) -> (r: Vec<u8>)
    ensures
        r@ == record_bytes(encode_utf8(ts@), encode_utf8(data@)),
{
    let ts_bytes = ts.as_bytes_vec();
    let data_bytes = data.as_bytes_vec();
    let head: [u8; 6] = [123, 34, 116, 115, 34, 58];
    let mid: [u8; 8] = [44, 34, 100, 97, 116, 97, 34, 58];
    assert(head@ =~= ts_key());
    assert(mid@ =~= data_key());
    let mut out: Vec<u8> = Vec::new();
    push_all(&mut out, &head);
    push_quoted(&mut out, ts_bytes.as_slice());
    push_all(&mut out, &mid);
    push_all(&mut out, data_bytes.as_slice());
    out.push(125);
    out.push(10);
    assert(out@ =~= record_bytes(encode_utf8(ts@), encode_utf8(data@)));
    out
}

/// The log line for the request body `data` received at `at`; `None` when the
/// instant cannot be written as a date.
pub fn record_line(at: &Timestamp, data: &str) -> (r: Option<Vec<u8>>)
    ensures
        match r {
            Some(line) => exists|ts: Seq<char>|
                rfc3339_of(at.secs, at.nanos) == Some(ts) && line@ == record_bytes(
                    encode_utf8(ts),
                    encode_utf8(data@),
                ),
            None => rfc3339_of(at.secs, at.nanos) is None,
        },
{
    match format_rfc3339(at.secs, at.nanos) {
        Some(ts) => Some(frame_record(ts.as_str(), data)),
        None => None,
    }
}

/// The daemon's answer to one request.
#[derive(Debug, PartialEq, Eq)]
pub struct Ack {
    /// HTTP status: 200, or 500 when the append failed.
    pub status: u16,
    /// JSON body: `{"ok":true}` or `{"ok":false,"error":"<message>"}`.
    pub body: Vec<u8>,
}

/// `{"ok":true}`
pub open spec fn ok_body() -> Seq<u8> {
    seq![123u8, 34u8, 111u8, 107u8, 34u8, 58u8, 116u8, 114u8, 117u8, 101u8, 125u8]
}

/// `{"ok":false,"error":` + the quoted message + `}`
pub open spec fn error_body(message: Seq<u8>) -> Seq<u8> {
    seq![123u8, 34u8, 111u8, 107u8, 34u8, 58u8, 102u8, 97u8, 108u8, 115u8, 101u8, 44u8, 34u8,
        101u8, 114u8, 114u8, 111u8, 114u8, 34u8, 58u8] + quoted(message) + seq![125u8]
}

/// The answer once the append has been tried: `failure` holds the error's
/// description when it failed.
pub fn acknowledge(failure: Option<&str>) -> (r: Ack)
    ensures
        match failure {
            None => r.status == 200 && r.body@ == ok_body(),
            Some(m) => r.status == 500 && r.body@ == error_body(encode_utf8(m@)),
        },
{
    match failure {
        None => {
            let body: Vec<u8> = vec![123, 34, 111, 107, 34, 58, 116, 114, 117, 101, 125];
            assert(body@ =~= ok_body());
            Ack { status: 200, body }
        },
        Some(m) => {
            let head: [u8; 20] = [
                123, 34, 111, 107, 34, 58, 102, 97, 108, 115, 101, 44, 34, 101, 114, 114, 111,
                114, 34, 58,
            ];
            let mut body: Vec<u8> = Vec::new();
            push_all(&mut body, &head);
            let mb = m.as_bytes_vec();
            push_quoted(&mut body, mb.as_slice());
            body.push(125);
            assert(body@ =~= error_body(encode_utf8(m@)));
            Ack { status: 500, body }
        },
    }
}

/// How many times `b` occurs in `s`.
pub open spec fn count_byte(s: Seq<u8>, b: u8) -> nat
    decreases s.len(),
{
    if s.len() == 0 {
        0
    } else {
        count_byte(s.drop_last(), b) + if s.last() == b {
            1nat
        } else {
            0nat
        }
    }
}

proof fn lemma_count_concat(a: Seq<u8>, c: Seq<u8>, b: u8)
    ensures
        count_byte(a + c, b) == count_byte(a, b) + count_byte(c, b),
    decreases c.len(),
{
    if c.len() > 0 {
        lemma_count_concat(a, c.drop_last(), b);
        assert((a + c).drop_last() =~= a + c.drop_last());
    } else {
        assert(a + c =~= a);
    }
}

proof fn lemma_escaped_has_no_newline(s: Seq<u8>)
    ensures
        count_byte(escaped(s), 10) == 0,
    decreases s.len(),
{
    if s.len() > 0 {
        lemma_escaped_has_no_newline(s.drop_last());
        let e = escape_byte(s.last());
        lemma_count_concat(escaped(s.drop_last()), e, 10);
        assert(count_byte(e, 10) == 0) by {
            reveal_with_fuel(count_byte, 7);
            let c = s.last();
            if c < 32 {
                assert(hex_digit(c / 16) != 10 && hex_digit(c % 16) != 10);
            }
        }
    }
}

/// Appending the record of a request body that holds no newline adds exactly
/// one line to the log: the record ends with the only newline it holds, and
/// it carries the body verbatim after the quoted time.
pub proof fn lemma_record_adds_one_line(log: Seq<u8>, ts: Seq<u8>, data: Seq<u8>)
    requires
        count_byte(data, 10) == 0,
    ensures
        count_byte(log + record_bytes(ts, data), 10) == count_byte(log, 10) + 1,
        record_bytes(ts, data).last() == 10u8,
        ({
            let start: int = (ts_key().len() + quoted(ts).len() + data_key().len()) as int;
            record_bytes(ts, data).subrange(start, start + data.len() as int) == data
        }),
{
    let r = record_bytes(ts, data);
    lemma_escaped_has_no_newline(ts);
    assert(count_byte(ts_key(), 10) == 0) by {
        reveal_with_fuel(count_byte, 7);
    }
    assert(count_byte(data_key(), 10) == 0) by {
        reveal_with_fuel(count_byte, 9);
    }
    assert(count_byte(seq![34u8], 10) == 0) by {
        reveal_with_fuel(count_byte, 2);
    }
    assert(count_byte(seq![125u8, 10u8], 10) == 1) by {
        reveal_with_fuel(count_byte, 3);
    }
    lemma_count_concat(seq![34u8], escaped(ts), 10);
    lemma_count_concat(seq![34u8] + escaped(ts), seq![34u8], 10);
    lemma_count_concat(ts_key(), quoted(ts), 10);
    lemma_count_concat(ts_key() + quoted(ts), data_key(), 10);
    lemma_count_concat(ts_key() + quoted(ts) + data_key(), data, 10);
    lemma_count_concat(ts_key() + quoted(ts) + data_key() + data, seq![125u8, 10u8], 10);
    lemma_count_concat(log, r, 10);
    let start: int = (ts_key().len() + quoted(ts).len() + data_key().len()) as int;
    assert(r.subrange(start, start + data.len() as int) =~= data);
}

} // verus!
