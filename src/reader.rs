//! Selection of the most recent log lines, optionally only those that contain
//! a given text.
use vstd::prelude::*;
use vstd::string::*;
use vstd::utf8::encode_utf8;

verus! {

/// `q` occurs in `s` as a contiguous run of bytes.
pub open spec fn contains_bytes(s: Seq<u8>, q: Seq<u8>) -> bool {
    exists|i: int| 0 <= i <= s.len() - q.len() && #[trigger] s.subrange(i, i + q.len()) == q
}

/// A line is kept when there is no query or its text contains the query's.
pub open spec fn line_matches(line: Seq<char>, query: Option<Seq<char>>) -> bool {
    match query {
        None => true,
        Some(q) => contains_bytes(encode_utf8(line), encode_utf8(q)),
    }
}

/// The lines that match, in the order of the log.
pub open spec fn matching_lines(lines: Seq<Seq<char>>, query: Option<Seq<char>>) -> Seq<Seq<char>>
    decreases lines.len(),
{
    if lines.len() == 0 {
        Seq::empty()
    } else {
        let prev = matching_lines(lines.drop_last(), query);
        if line_matches(lines.last(), query) {
            prev.push(lines.last())
        } else {
            prev
        }
    }
}

/// The positions of the lines that match, in increasing order.
pub open spec fn matching_indices(lines: Seq<Seq<char>>, query: Option<Seq<char>>) -> Seq<int>
    decreases lines.len(),
{
    if lines.len() == 0 {
        Seq::empty()
    } else {
        let prev = matching_indices(lines.drop_last(), query);
        if line_matches(lines.last(), query) {
            prev.push(lines.len() - 1)
        } else {
            prev
        }
    }
}

/// The last `n` items of `s`, or all of them when there are fewer.
pub open spec fn last_n<A>(s: Seq<A>, n: nat) -> Seq<A> {
    if s.len() <= n {
        s
    } else {
        s.subrange(s.len() - n, s.len() as int)
    }
}

/// The last `n` lines among those that match `query`.
pub open spec fn latest_lines(lines: Seq<Seq<char>>, n: nat, query: Option<Seq<char>>) -> Seq<
    Seq<char>,
> {
    last_n(matching_lines(lines, query), n)
}

pub open spec fn texts(lines: Seq<String>) -> Seq<Seq<char>> {
    lines.map_values(|l: String| l@)
}

pub open spec fn query_text(query: Option<&str>) -> Option<Seq<char>> {
    match query {
        Some(q) => Some(q@),
        None => None,
    }
}

/// Whether `q` occurs in `s`.
fn find_bytes(s: &[u8], q: &[u8]) -> (r: bool)
    ensures
        r == contains_bytes(s@, q@),
{
    if q.len() > s.len() {
        return false;
    }
    let mut i: usize = 0;
    assert(s@.len() == s.len());
    while i <= s.len() - q.len()
        invariant
            q@.len() <= s@.len(),
            s@.len() <= usize::MAX,
            i <= s@.len() - q@.len() + 1,
            forall|k: int| 0 <= k < i ==> #[trigger] s@.subrange(k, k + q@.len()) != q@,
        decreases s@.len() - q@.len() + 1 - i,
    {
        let mut j: usize = 0;
        let mut same = true;
        while j < q.len()
            invariant
                s@.len() <= usize::MAX,
                i + q@.len() <= s@.len(),
                j <= q@.len(),
                same == (forall|t: int| 0 <= t < j ==> s@[i + t] == q@[t]),
            decreases q@.len() - j,
        {
            if s[i + j] != q[j] {
                same = false;
            }
            j = j + 1;
        }
        if same {
            assert(s@.subrange(i as int, i + q@.len()) =~= q@);
            return true;
        }
        assert(s@.subrange(i as int, i + q@.len()) != q@) by {
            let t = choose|t: int| 0 <= t < q@.len() && s@[i + t] != q@[t];
            assert(s@.subrange(i as int, i + q@.len())[t] != q@[t]);
        }
        i = i + 1;
    }
    false
}

/// Whether `line` is kept for `query`.
pub fn matches_query(line: &str, query: Option<&str>) -> (r: bool)
    ensures
        r == line_matches(line@, query_text(query)),
{
    match query {
        None => true,
        Some(q) => {
            let lb = line.as_bytes_vec();
            let qb = q.as_bytes_vec();
            find_bytes(lb.as_slice(), qb.as_slice())
        },
    }
}

/// The last `n` lines of `lines` that contain `query` (all lines when there is
/// none), in the order of the log.
pub fn latest(lines: &Vec<String>, n: usize, query: Option<&str>) -> (r: Vec<String>)
    ensures
        texts(r@) == latest_lines(texts(lines@), n as nat, query_text(query)),
{
    let ghost q = query_text(query);
    let mut kept: Vec<String> = Vec::new();
    let mut i: usize = 0;
    while i < lines.len()
        invariant
            i <= lines@.len(),
            q == query_text(query),
            texts(kept@) == matching_lines(texts(lines@.subrange(0, i as int)), q),
        decreases lines@.len() - i,
    {
        let line = &lines[i];
        let ghost before = texts(lines@.subrange(0, i as int));
        if matches_query(line.as_str(), query) {
            kept.push(line.clone());
        }
        i = i + 1;
        proof {
            let now = texts(lines@.subrange(0, i as int));
            assert(now.drop_last() =~= before);
            assert(now.last() == lines@[i - 1]@);
            assert(texts(kept@) =~= matching_lines(now, q));
        }
    }
    assert(lines@.subrange(0, lines@.len() as int) =~= lines@);
    let start: usize = if kept.len() > n {
        kept.len() - n
    } else {
        0
    };
    let mut r: Vec<String> = Vec::new();
    let mut k: usize = start;
    while k < kept.len()
        invariant
            start <= k <= kept@.len(),
            texts(r@) == texts(kept@).subrange(start as int, k as int),
        decreases kept@.len() - k,
    {
        let ghost before = texts(r@);
        let line = kept[k].clone();
        r.push(line);
        k = k + 1;
        assert(texts(r@) =~= before.push(kept@[k - 1]@));
        assert(texts(r@) =~= texts(kept@).subrange(start as int, k as int));
    }
    assert(texts(r@) =~= latest_lines(texts(lines@), n as nat, q));
    r
}

proof fn lemma_matching_indices(lines: Seq<Seq<char>>, query: Option<Seq<char>>)
    ensures
        ({
            let m = matching_lines(lines, query);
            let idx = matching_indices(lines, query);
            &&& idx.len() == m.len()
            &&& forall|k: int| 0 <= k < idx.len() ==> 0 <= #[trigger] idx[k] < lines.len()
            &&& forall|k: int| 0 <= k < idx.len() ==> lines[#[trigger] idx[k]] == m[k]
            &&& forall|k: int| 0 <= k < m.len() ==> line_matches(#[trigger] m[k], query)
            &&& forall|k: int, j: int| 0 <= k < j < idx.len() ==> idx[k] < idx[j]
        }),
    decreases lines.len(),
{
    if lines.len() > 0 {
        lemma_matching_indices(lines.drop_last(), query);
    }
}

/// Once the log has been cleared it holds no line, so asking for its latest
/// lines gives none, whatever the count and query.
pub proof fn lemma_cleared_log_has_no_latest(n: nat, query: Option<Seq<char>>)
    ensures
        latest_lines(Seq::empty(), n, query) == Seq::<Seq<char>>::empty(),
{
}

/// The latest lines are at most `n`, each matches the query, and they are the
/// lines at increasing positions of the log: the last `n` of those that match.
pub proof fn lemma_latest_lines_shape(lines: Seq<Seq<char>>, n: nat, query: Option<Seq<char>>)
    ensures
        ({
            let r = latest_lines(lines, n, query);
            let idx = last_n(matching_indices(lines, query), n);
            &&& r.len() <= n
            &&& r.len() == idx.len()
            &&& r.len() == n || r == matching_lines(lines, query)
            &&& forall|k: int| 0 <= k < r.len() ==> line_matches(#[trigger] r[k], query)
            &&& forall|k: int| 0 <= k < r.len() ==> 0 <= #[trigger] idx[k] < lines.len()
            &&& forall|k: int| 0 <= k < r.len() ==> lines[#[trigger] idx[k]] == r[k]
            &&& forall|k: int, j: int| 0 <= k < j < r.len() ==> idx[k] < idx[j]
        }),
{
    lemma_matching_indices(lines, query);
    let m = matching_lines(lines, query);
    let idx0 = matching_indices(lines, query);
    let r = latest_lines(lines, n, query);
    let idx = last_n(idx0, n);
    if m.len() > n {
        let off = m.len() - n;
        assert forall|k: int| 0 <= k < r.len() implies line_matches(#[trigger] r[k], query) by {
            assert(r[k] == m[k + off]);
        }
        assert forall|k: int| 0 <= k < r.len() implies 0 <= #[trigger] idx[k] < lines.len()
            && lines[idx[k]] == r[k] by {
            assert(idx[k] == idx0[k + off]);
            assert(r[k] == m[k + off]);
        }
        assert forall|k: int, j: int| 0 <= k < j < r.len() implies idx[k] < idx[j] by {
            assert(idx[k] == idx0[k + off]);
            assert(idx[j] == idx0[j + off]);
        }
    }
}

} // verus!
