use vstd::prelude::*;
use crate::record::{
    record_of, records_of, row_fits, row_of, rows_fit, Highscore, StoredRow,
};

verus! {

/// The records whose version is exactly `v`, in their stored order.
pub open spec fn with_version(s: Seq<Highscore>, v: Seq<char>) -> Seq<Highscore>
    decreases s.len(),
{
    if s.len() == 0 {
        Seq::empty()
    } else {
        let rest = with_version(s.drop_last(), v);
        if s.last().version@ == v {
            rest.push(s.last())
        } else {
            rest
        }
    }
}

/// Places `x` after every record of `s` whose score is at least its own,
/// scanning from the back.
pub open spec fn insert_by_score(s: Seq<Highscore>, x: Highscore) -> Seq<Highscore>
    decreases s.len(),
{
    if s.len() == 0 {
        seq![x]
    } else if s.last().score >= x.score {
        s.push(x)
    } else {
        insert_by_score(s.drop_last(), x).push(s.last())
    }
}

/// The records ordered by score, highest first; records of equal score keep
/// their stored order.
pub open spec fn sort_by_score(s: Seq<Highscore>) -> Seq<Highscore>
    decreases s.len(),
{
    if s.len() == 0 {
        Seq::empty()
    } else {
        insert_by_score(sort_by_score(s.drop_last()), s.last())
    }
}

/// At most the first `n` records.
pub open spec fn take_up_to(s: Seq<Highscore>, n: nat) -> Seq<Highscore> {
    if n < s.len() {
        s.take(n as int)
    } else {
        s
    }
}

/// Scores never rise along the sequence.
pub open spec fn descending(s: Seq<Highscore>) -> bool {
    forall|i: int, j: int| 0 <= i < j < s.len() ==> s[i].score >= s[j].score
}

/// The number of records whose version is `v`.
pub open spec fn count_version(s: Seq<Highscore>, v: Seq<char>) -> nat {
    with_version(s, v).len()
}

/// A read of the table: an optional version filter, an optional ordering by
/// score (highest first) and an optional bound on the number of records.
pub struct Query {
    pub version: Option<String>,
    pub by_score: bool,
    pub limit: Option<usize>,
}

impl Query {
    /// What the query returns on a table holding `t`, in stored order.
    pub open spec fn result(&self, t: Seq<Highscore>) -> Seq<Highscore> {
        let kept = match self.version {
            Some(v) => with_version(t, v@),
            None => t,
        };
        let ordered = if self.by_score {
            sort_by_score(kept)
        } else {
            kept
        };
        match self.limit {
            Some(n) => take_up_to(ordered, n as nat),
            None => ordered,
        }
    }

    /// Every record, in stored order.
    pub fn all() -> (q: Query)
        ensures
            q.version is None,
            !q.by_score,
            q.limit is None,
    {
        Query { version: None, by_score: false, limit: None }
    }

    /// The records of one version, in stored order.
    pub fn of_version(version: String) -> (q: Query)
        ensures
            q.version == Some(version),
            !q.by_score,
            q.limit is None,
    {
        Query { version: Some(version), by_score: false, limit: None }
    }

    /// The `n` best records of one version, highest score first.
    pub fn top(version: String, n: usize) -> (q: Query)
        ensures
            q.version == Some(version),
            q.by_score,
            q.limit == Some(n),
    {
        Query { version: Some(version), by_score: true, limit: Some(n) }
    }
}

/// The records whose version is exactly `version`, in their given order.
pub fn keep_version(records: &Vec<Highscore>, version: &String) -> (r: Vec<Highscore>)
    ensures
        r@ == with_version(records@, version@),
{
    let mut out: Vec<Highscore> = Vec::new();
    let mut i: usize = 0;
    while i < records.len()
        invariant
            i <= records@.len(),
            out@ == with_version(records@.subrange(0, i as int), version@),
        decreases records@.len() - i,
    {
        proof {
            assert(records@.subrange(0, i + 1).drop_last() == records@.subrange(0, i as int));
        }
        if records[i].version == *version {
            out.push(records[i].copied());
        }
        i = i + 1;
    }
    proof {
        assert(records@.subrange(0, records@.len() as int) == records@);
    }
    out
}

/// Scanning from `p` to the end finds only lower scores, and the record before
/// `p`, if any, scores at least as much: then `x` goes in at `p`.
proof fn lemma_insert_at(s: Seq<Highscore>, x: Highscore, p: int)
    requires
        0 <= p <= s.len(),
        forall|k: int| p <= k < s.len() ==> #[trigger] s[k].score < x.score,
        p > 0 ==> s[p - 1].score >= x.score,
    ensures
        insert_by_score(s, x) == s.insert(p, x),
    decreases s.len(),
{
    if s.len() == 0 {
        assert(s.insert(p, x) == seq![x]);
    } else if p == s.len() {
        assert(s.insert(p, x) == s.push(x));
    } else {
        let d = s.drop_last();
        lemma_insert_at(d, x, p);
        assert(s.insert(p, x) == d.insert(p, x).push(s.last()));
    }
}

/// The records ordered by score, highest first; equal scores keep their order.
pub fn order_by_score(records: &Vec<Highscore>) -> (r: Vec<Highscore>)
    ensures
        r@ == sort_by_score(records@),
{
    let mut out: Vec<Highscore> = Vec::new();
    let mut i: usize = 0;
    while i < records.len()
        invariant
            i <= records@.len(),
            out@ == sort_by_score(records@.subrange(0, i as int)),
        decreases records@.len() - i,
    {
        let x = records[i].copied();
        proof {
            lemma_sort_facts(records@.subrange(0, i as int));
        }
        let mut p: usize = out.len();
        while p > 0 && out[p - 1].score < x.score
            invariant
                p <= out@.len(),
                forall|k: int| p <= k < out@.len() ==> #[trigger] out@[k].score < x.score,
            decreases p,
        {
            p = p - 1;
        }
        proof {
            lemma_insert_at(out@, x, p as int);
            assert(records@.subrange(0, i + 1).drop_last() == records@.subrange(0, i as int));
        }
        out.insert(p, x);
        i = i + 1;
    }
    proof {
        assert(records@.subrange(0, records@.len() as int) == records@);
    }
    out
}

/// At most the first `n` records.
pub fn first_n(records: Vec<Highscore>, n: usize) -> (r: Vec<Highscore>)
    ensures
        r@ == take_up_to(records@, n as nat),
{
    let mut out = records;
    out.truncate(n);
    out
}

/// Runs a query over the given records.
pub fn run_query(records: &Vec<Highscore>, q: &Query) -> (r: Vec<Highscore>)
    ensures
        r@ == q.result(records@),
{
    let kept = match &q.version {
        Some(v) => keep_version(records, v),
        None => copy_records(records),
    };
    let ordered = if q.by_score {
        order_by_score(&kept)
    } else {
        kept
    };
    match q.limit {
        Some(n) => first_n(ordered, n),
        None => ordered,
    }
}

/// A copy of every record, in order.
fn copy_records(records: &Vec<Highscore>) -> (r: Vec<Highscore>)
    ensures
        r@ == records@,
{
    let mut out: Vec<Highscore> = Vec::new();
    let mut i: usize = 0;
    while i < records.len()
        invariant
            i <= records@.len(),
            out@ == records@.subrange(0, i as int),
        decreases records@.len() - i,
    {
        out.push(records[i].copied());
        proof {
            assert(records@.subrange(0, i + 1) == records@.subrange(0, i as int).push(records@[i as int]));
        }
        i = i + 1;
    }
    proof {
        assert(records@.subrange(0, records@.len() as int) == records@);
    }
    out
}

proof fn lemma_insert_facts(s: Seq<Highscore>, x: Highscore)
    ensures
        insert_by_score(s, x).len() == s.len() + 1,
        insert_by_score(s, x).to_multiset() == s.to_multiset().insert(x),
        descending(s) ==> descending(insert_by_score(s, x)),
    decreases s.len(),
{
    broadcast use vstd::seq_lib::group_to_multiset_ensures;
    if s.len() == 0 {
        assert(seq![x] == Seq::<Highscore>::empty().push(x));
    } else if s.last().score >= x.score {
    } else {
        let d = s.drop_last();
        lemma_insert_facts(d, x);
        assert(s == d.push(s.last()));
        assert(insert_by_score(d, x).to_multiset().insert(s.last())
            == d.to_multiset().insert(s.last()).insert(x));
        if descending(s) {
            let t = insert_by_score(d, x);
            let u = t.push(s.last());
            assert forall|i: int, j: int| 0 <= i < j < u.len() implies u[i].score >= u[j].score by {
                if j == u.len() - 1 && i < t.len() {
                    lemma_insert_members(d, x, i);
                }
            }
        }
    }
}

proof fn lemma_insert_members(s: Seq<Highscore>, x: Highscore, i: int)
    requires
        0 <= i < insert_by_score(s, x).len(),
    ensures
        insert_by_score(s, x)[i] == x || exists|k: int| 0 <= k < s.len() && insert_by_score(s, x)[i] == s[k],
    decreases s.len(),
{
    if s.len() == 0 {
    } else if s.last().score >= x.score {
        if i < s.len() {
            assert(insert_by_score(s, x)[i] == s[i]);
        }
    } else {
        let d = s.drop_last();
        if i < insert_by_score(s, x).len() - 1 {
            lemma_insert_facts(d, x);
            lemma_insert_members(d, x, i);
            if insert_by_score(d, x)[i] != x {
                let k = choose|k: int| 0 <= k < d.len() && insert_by_score(d, x)[i] == d[k];
                assert(s[k] == d[k]);
            }
        } else {
            assert(insert_by_score(s, x)[i] == s[s.len() - 1]);
        }
    }
}

proof fn lemma_sort_facts(s: Seq<Highscore>)
    ensures
        sort_by_score(s).len() == s.len(),
        sort_by_score(s).to_multiset() == s.to_multiset(),
        descending(sort_by_score(s)),
    decreases s.len(),
{
    broadcast use vstd::seq_lib::group_to_multiset_ensures;
    if s.len() > 0 {
        let d = s.drop_last();
        lemma_sort_facts(d);
        lemma_insert_facts(sort_by_score(d), s.last());
        assert(s == d.push(s.last()));
    }
}

proof fn lemma_with_version_members(s: Seq<Highscore>, v: Seq<char>)
    ensures
        forall|x: Highscore| #[trigger] with_version(s, v).contains(x) <==> (s.contains(x) && x.version@ == v),
    decreases s.len(),
{
    if s.len() > 0 {
        let d = s.drop_last();
        lemma_with_version_members(d, v);
        assert(s == d.push(s.last()));
        let w = with_version(d, v);
        let ws = with_version(s, v);
        let l = s.last();
        assert forall|x: Highscore| #[trigger] ws.contains(x) <==> (s.contains(x) && x.version@ == v) by {
            if ws.contains(x) {
                let k = choose|k: int| 0 <= k < ws.len() && ws[k] == x;
                if k < w.len() {
                    assert(w[k] == x);
                    assert(w.contains(x));
                    let j = choose|j: int| 0 <= j < d.len() && d[j] == x;
                    assert(s[j] == x);
                } else {
                    assert(x == l);
                    assert(s[s.len() - 1] == x);
                }
            }
            if s.contains(x) && x.version@ == v {
                let k = choose|k: int| 0 <= k < s.len() && s[k] == x;
                if k == s.len() - 1 {
                    assert(ws[w.len() as int] == x);
                } else {
                    assert(d[k] == x);
                    assert(d.contains(x));
                    assert(w.contains(x));
                    let j = choose|j: int| 0 <= j < w.len() && w[j] == x;
                    assert(ws[j] == x);
                }
            }
        }
    }
}

/// A version read returns exactly the stored records of that version: a record
/// is in it if and only if it is stored and carries that version, and every
/// record in it carries that version.
pub proof fn lemma_filter_exact(stored: Seq<Highscore>, v: Seq<char>)
    ensures
        forall|x: Highscore| #[trigger] with_version(stored, v).contains(x) <==> (stored.contains(x) && x.version@ == v),
        forall|i: int| 0 <= i < with_version(stored, v).len() ==> (#[trigger] with_version(stored, v)[i]).version@ == v,
{
    lemma_with_version_members(stored, v);
    assert forall|i: int| 0 <= i < with_version(stored, v).len() implies (#[trigger] with_version(stored, v)[i]).version@ == v by {
        assert(with_version(stored, v).contains(with_version(stored, v)[i]));
    }
}

/// The best `n` records of a version come highest score first, number exactly
/// the smaller of `n` and the count of stored records of that version (never
/// more, never padded), and are all stored records of that version.
pub proof fn lemma_top_n_ordered(stored: Seq<Highscore>, version: String, n: usize)
    ensures
        ({
            let r = (Query { version: Some(version), by_score: true, limit: Some(n) }).result(stored);
            &&& descending(r)
            &&& r.len() == if (n as nat) < count_version(stored, version@) {
                n as nat
            } else {
                count_version(stored, version@)
            }
            &&& forall|i: int| 0 <= i < r.len() ==> (#[trigger] r[i]).version@ == version@ && stored.contains(r[i])
        }),
{
    broadcast use vstd::seq_lib::group_to_multiset_ensures;
    let kept = with_version(stored, version@);
    let sorted = sort_by_score(kept);
    let r = take_up_to(sorted, n as nat);
    lemma_sort_facts(kept);
    lemma_filter_exact(stored, version@);
    assert forall|i: int| 0 <= i < r.len() implies (#[trigger] r[i]).version@ == version@ && stored.contains(r[i]) by {
        assert(r[i] == sorted[i]);
        assert(sorted.to_multiset().count(sorted[i]) > 0);
        assert(kept.contains(sorted[i]));
    }
}

/// A record inserted into a table whose rows all read back is read back
/// unchanged: the table then reads as before with that record appended, and
/// both the full read and the read of the record's version hold it.
pub proof fn lemma_round_trip(stored: Seq<StoredRow>, r: Highscore)
    requires
        rows_fit(stored),
    ensures
        rows_fit(stored.push(row_of(r))),
        records_of(stored.push(row_of(r))) == records_of(stored).push(r),
        (Query { version: None, by_score: false, limit: None }).result(records_of(stored.push(row_of(r)))).contains(r),
        (Query { version: Some(r.version), by_score: false, limit: None }).result(records_of(stored.push(row_of(r)))).contains(r),
{
    let rows = stored.push(row_of(r));
    assert(rows_fit(rows)) by {
        assert forall|i: int| 0 <= i < rows.len() implies row_fits(#[trigger] rows[i]) by {
            if i < stored.len() {
                assert(rows[i] == stored[i]);
            }
        }
    }
    assert(record_of(row_of(r)) == r);
    assert(records_of(rows) == records_of(stored).push(r));
    let t = records_of(rows);
    assert(t[t.len() - 1] == r);
    lemma_filter_exact(t, r.version@);
}

} // verus!
