//! The descriptor file: `{"pid":<pid>,"port":<port>}`, written by the daemon
//! once it is bound and read back by the supervisor.
use vstd::prelude::*;

verus! {

/// The daemon that currently owns the ingestion port, if the descriptor file exists.
#[derive(Clone, Copy, Debug, PartialEq, Eq, Structural)]
pub struct ServerInfo {
    pub pid: u32,
    pub port: u16,
}

/// ASCII digits of `n`, most significant first, without leading zeros.
pub open spec fn decimal(n: nat) -> Seq<u8>
    decreases n,
{
    if n < 10 {
        seq![(48 + n) as u8]
    } else {
        decimal(n / 10).push((48 + n % 10) as u8)
    }
}

/// The number that a run of ASCII digits stands for.
pub open spec fn digits_value(s: Seq<u8>) -> nat
    decreases s.len(),
{
    if s.len() == 0 {
        0
    } else {
        digits_value(s.drop_last()) * 10 + (s.last() - 48) as nat
    }
}

pub open spec fn is_digit(b: u8) -> bool {
    48 <= b <= 57
}

/// `{"pid":`
pub open spec fn pid_key() -> Seq<u8> {
    seq![123u8, 34u8, 112u8, 105u8, 100u8, 34u8, 58u8]
}

/// `,"port":`
pub open spec fn port_key() -> Seq<u8> {
    seq![44u8, 34u8, 112u8, 111u8, 114u8, 116u8, 34u8, 58u8]
}

/// The bytes of the descriptor file that describes `info`.
pub open spec fn descriptor_bytes(info: ServerInfo) -> Seq<u8> {
    pid_key() + decimal(info.pid as nat) + port_key() + decimal(info.port as nat) + seq![125u8]
}

pub open spec fn pow10(k: nat) -> nat
    decreases k,
{
    if k == 0 {
        1
    } else {
        10 * pow10((k - 1) as nat)
    }
}

proof fn lemma_decimal_digits(n: nat)
    ensures
        decimal(n).len() >= 1,
        forall|i: int| 0 <= i < decimal(n).len() ==> is_digit(#[trigger] decimal(n)[i]),
        digits_value(decimal(n)) == n,
    decreases n,
{
    if n >= 10 {
        lemma_decimal_digits(n / 10);
        let s = decimal(n);
        assert(s.drop_last() =~= decimal(n / 10));
        assert(n == (n / 10) * 10 + n % 10);
        assert(s.last() == (48 + n % 10) as u8);
        assert(digits_value(s) == digits_value(decimal(n / 10)) * 10 + n % 10);
        assert forall|i: int| 0 <= i < s.len() implies is_digit(#[trigger] s[i]) by {
            if i < s.len() - 1 {
                assert(s[i] == decimal(n / 10)[i]);
            }
        }
    } else {
        let s = decimal(n);
        assert(s.drop_last() =~= Seq::<u8>::empty());
        assert(digits_value(s.drop_last()) == 0);
        assert(s.last() == (48 + n) as u8);
    }
}

proof fn lemma_decimal_len(n: nat, k: nat)
    requires
        n < pow10(k),
        k >= 1,
    ensures
        decimal(n).len() <= k,
    decreases n,
{
    if n >= 10 {
        assert(pow10(1) == 10) by {
            reveal_with_fuel(pow10, 2);
        }
        if k >= 2 {
            let p = pow10((k - 1) as nat);
            assert(n / 10 < p) by (nonlinear_arith)
                requires
                    n < 10 * p,
            ;
            lemma_decimal_len(n / 10, (k - 1) as nat);
        }
    }
}

proof fn lemma_pow10_mono(a: nat, b: nat)
    requires
        a <= b,
    ensures
        pow10(a) <= pow10(b),
    decreases b - a,
{
    if a < b {
        lemma_pow10_mono(a, (b - 1) as nat);
    }
}

proof fn lemma_pow10_values()
    ensures
        pow10(5) == 100000,
        pow10(10) == 10000000000,
{
    reveal_with_fuel(pow10, 11);
}

/// Appends the ASCII digits of `n` to `out`.
fn push_decimal(out: &mut Vec<u8>, n: u64)
    ensures
        final(out)@ == old(out)@ + decimal(n as nat),
    decreases n,
{
    if n < 10 {
        out.push(48 + n as u8);
        assert(old(out)@.push((48 + n) as u8) =~= old(out)@ + decimal(n as nat));
    } else {
        push_decimal(out, n / 10);
        out.push(48 + (n % 10) as u8);
        assert(old(out)@ + decimal((n / 10) as nat) + seq![(48 + n % 10) as u8] =~= old(out)@
            + decimal(n as nat));
    }
}

/// Appends the bytes `s` to `out`.
pub(crate) fn push_all(out: &mut Vec<u8>, s: &[u8])
    ensures
        final(out)@ == old(out)@ + s@,
{
    let mut i: usize = 0;
    while i < s.len()
        invariant
            i <= s@.len(),
            out@ == old(out)@ + s@.subrange(0, i as int),
        decreases s@.len() - i,
    {
        out.push(s[i]);
        i = i + 1;
        assert(out@ =~= old(out)@ + s@.subrange(0, i as int));
    }
    assert(s@.subrange(0, s@.len() as int) =~= s@);
}

/// The bytes of the descriptor file for `info`.
pub fn encode_descriptor(info: &ServerInfo) -> (r: Vec<u8>)
    ensures
        r@ == descriptor_bytes(*info),
{
    let mut out: Vec<u8> = Vec::new();
    let head: [u8; 7] = [123, 34, 112, 105, 100, 34, 58];
    let mid: [u8; 8] = [44, 34, 112, 111, 114, 116, 34, 58];
    assert(head@ =~= pid_key());
    assert(mid@ =~= port_key());
    push_all(&mut out, &head);
    push_decimal(&mut out, info.pid as u64);
    push_all(&mut out, &mid);
    push_decimal(&mut out, info.port as u64);
    out.push(125);
    assert(out@ =~= descriptor_bytes(*info));
    out
}

/// The value of the digits `b[from..to]`, if they are all digits and there are at most `max_len`.
fn parse_digits(b: &[u8], from: usize, to: usize, max_len: usize) -> (r: Option<u64>)
    requires
        from <= to <= b@.len(),
        max_len <= 10,
    ensures
        match r {
            Some(v) => {
                &&& from < to
                &&& to - from <= max_len
                &&& forall|i: int| from <= i < to ==> is_digit(#[trigger] b@[i])
                &&& v == digits_value(b@.subrange(from as int, to as int))
            },
            None => from == to || to - from > max_len || exists|i: int|
                from <= i < to && !is_digit(#[trigger] b@[i]),
        },
{
    if from == to || to - from > max_len {
        return None;
    }
    let mut v: u64 = 0;
    let mut i: usize = from;
    proof {
        lemma_pow10_values();
        lemma_pow10_mono(0, (to - from) as nat);
        lemma_pow10_mono((to - from) as nat, 10);
    }
    while i < to
        invariant
            from <= i <= to <= b@.len(),
            to - from <= max_len <= 10,
            pow10(10) == 10000000000,
            forall|j: int| from <= j < i ==> is_digit(#[trigger] b@[j]),
            v == digits_value(b@.subrange(from as int, i as int)),
            v < pow10((i - from) as nat),
            pow10((i - from) as nat) <= pow10((to - from) as nat),
            pow10((to - from) as nat) <= pow10(10),
        decreases to - i,
    {
        let c = b[i];
        if c < 48 || c > 57 {
            return None;
        }
        let ghost p = pow10((i - from) as nat);
        proof {
            lemma_pow10_mono((i - from + 1) as nat, (to - from) as nat);
            assert(p * 10 <= 10000000000);
            assert(v * 10 + 9 < p * 10) by (nonlinear_arith)
                requires
                    v < p,
            ;
        }
        v = v * 10 + (c - 48) as u64;
        i = i + 1;
        assert(b@.subrange(from as int, i as int).drop_last() =~= b@.subrange(
            from as int,
            (i - 1) as int,
        ));
    }
    Some(v)
}

/// The position of the first byte `c` in `b` at or after `from`, or `b.len()`.
fn find_byte(b: &[u8], from: usize, c: u8) -> (r: usize)
    requires
        from <= b@.len(),
    ensures
        from <= r <= b@.len(),
        r < b@.len() ==> b@[r as int] == c,
        forall|i: int| from <= i < r ==> b@[i] != c,
{
    let mut i: usize = from;
    while i < b.len()
        invariant
            from <= i <= b@.len(),
            forall|j: int| from <= j < i ==> b@[j] != c,
        decreases b@.len() - i,
    {
        if b[i] == c {
            return i;
        }
        i = i + 1;
    }
    i
}

fn bytes_equal(a: &[u8], b: &[u8]) -> (r: bool)
    ensures
        r == (a@ == b@),
{
    if a.len() != b.len() {
        return false;
    }
    let mut i: usize = 0;
    while i < a.len()
        invariant
            a@.len() == b@.len(),
            i <= a@.len(),
            forall|j: int| 0 <= j < i ==> a@[j] == b@[j],
        decreases a@.len() - i,
    {
        if a[i] != b[i] {
            return false;
        }
        i = i + 1;
    }
    assert(a@ =~= b@);
    true
}

/// Reads a descriptor file. Anything that is not exactly the encoding of a
/// descriptor is absent.
pub fn decode_descriptor(b: &[u8]) -> (r: Option<ServerInfo>)
    ensures
        match r {
            Some(info) => b@ == descriptor_bytes(info),
            None => forall|info: ServerInfo| b@ != descriptor_bytes(info),
        },
        forall|info: ServerInfo| b@ == descriptor_bytes(info) ==> r == Some(info),
{
    proof {
        assert forall|x: ServerInfo, y: ServerInfo|
            descriptor_bytes(x) == descriptor_bytes(y) implies x == y by {
            lemma_descriptor_bytes_injective(y);
        }
    }
    let ghost target: Option<ServerInfo> = if exists|info: ServerInfo|
        b@ == descriptor_bytes(info) {
        Some(choose|info: ServerInfo| b@ == descriptor_bytes(info))
    } else {
        None
    };
    if b.len() < 7 {
        proof {
            if target is Some {
                lemma_descriptor_shape(target->0);
            }
        }
        return None;
    }
    let comma = find_byte(b, 7, 44);
    proof {
        if target is Some {
            lemma_descriptor_shape(target->0);
            let c: int = 7 + decimal(target->0.pid as nat).len() as int;
            if comma < c {
                assert(b@[comma as int] == 44u8);
            }
            if c < comma {
                assert(b@[c] == 44u8);
            }
        }
    }
    if comma == b.len() || b.len() - comma < 10 {
        return None;
    }
    let pid = parse_digits(b, 7, comma, 10);
    let port = parse_digits(b, comma + 8, b.len() - 1, 5);
    match (pid, port) {
        (Some(pid), Some(port)) => {
            if pid <= 0xffff_ffff && port <= 0xffff {
                let cand = ServerInfo { pid: pid as u32, port: port as u16 };
                let enc = encode_descriptor(&cand);
                if bytes_equal(enc.as_slice(), b) {
                    return Some(cand);
                }
                None
            } else {
                None
            }
        },
        _ => None,
    }
}

/// Where the parts of a descriptor's encoding stand.
proof fn lemma_descriptor_shape(info: ServerInfo)
    ensures
        ({
            let b = descriptor_bytes(info);
            let p = decimal(info.pid as nat);
            let q = decimal(info.port as nat);
            let c: int = 7 + p.len() as int;
            &&& 1 <= p.len() <= 10
            &&& 1 <= q.len() <= 5
            &&& b.len() == c + 8 + q.len() + 1
            &&& b.subrange(7, c) == p
            &&& b.subrange(c + 8, b.len() - 1) == q
            &&& b[c] == 44u8
            &&& forall|i: int| 7 <= i < c ==> b[i] != 44u8
            &&& forall|i: int| 7 <= i < c ==> is_digit(#[trigger] b[i])
            &&& forall|i: int| c + 8 <= i < b.len() - 1 ==> is_digit(#[trigger] b[i])
            &&& b.subrange(0, 7) == pid_key()
            &&& digits_value(p) == info.pid
            &&& digits_value(q) == info.port
        }),
{
    let p = decimal(info.pid as nat);
    let q = decimal(info.port as nat);
    lemma_decimal_digits(info.pid as nat);
    lemma_decimal_digits(info.port as nat);
    lemma_pow10_values();
    lemma_decimal_len(info.pid as nat, 10);
    lemma_decimal_len(info.port as nat, 5);
    let b = descriptor_bytes(info);
    let c: int = 7 + p.len() as int;
    assert(b.subrange(7, c) =~= p);
    assert(b.subrange(c + 8, b.len() - 1) =~= q);
    assert(b.subrange(0, 7) =~= pid_key());
    assert forall|i: int| 7 <= i < c implies is_digit(#[trigger] b[i]) && b[i] != 44u8 by {
        assert(b[i] == p[i - 7]);
    }
    assert forall|i: int| c + 8 <= i < b.len() - 1 implies is_digit(#[trigger] b[i]) by {
        assert(b[i] == q[i - c - 8]);
    }
}

/// No two descriptors are written alike, so reading back what was written
/// for a descriptor gives that descriptor.
pub proof fn lemma_descriptor_bytes_injective(info: ServerInfo)
    ensures
        forall|other: ServerInfo| descriptor_bytes(other) == descriptor_bytes(info) ==> other
            == info,
{
    assert forall|other: ServerInfo| descriptor_bytes(other) == descriptor_bytes(info) implies other
        == info by {
        lemma_descriptor_shape(info);
        lemma_descriptor_shape(other);
        lemma_decimal_digits(info.pid as nat);
        lemma_decimal_digits(other.pid as nat);
        lemma_decimal_digits(info.port as nat);
        lemma_decimal_digits(other.port as nat);
        let b = descriptor_bytes(info);
        let c1: int = 7 + decimal(info.pid as nat).len() as int;
        let c2: int = 7 + decimal(other.pid as nat).len() as int;
        if c1 < c2 {
            assert(b[c1] == 44u8);
        } else if c2 < c1 {
            assert(b[c2] == 44u8);
        }
    }
}

} // verus!
