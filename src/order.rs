use vstd::prelude::*;
use crate::record::{MemoryItem, MemoryRecord, records};

verus! {

/// Newest first: timestamps never increase along the sequence.
pub open spec fn sorted_desc(s: Seq<MemoryRecord>) -> bool {
    forall|i: int, j: int| 0 <= i < j < s.len() ==> s[i].timestamp >= s[j].timestamp
}

/// The position at which a record with timestamp `t` joins `s`: after the
/// leading run of records whose timestamp is at least `t`.
pub open spec fn insertion_point(s: Seq<MemoryRecord>, t: u64) -> int
    decreases s.len(),
{
    if s.len() == 0 {
        0
    } else if s[0].timestamp < t {
        0
    } else {
        1 + insertion_point(s.drop_first(), t)
    }
}

/// `x` placed into `s` after every record of the leading run that is at
/// least as new as `x`.
pub open spec fn insert_desc(s: Seq<MemoryRecord>, x: MemoryRecord) -> Seq<MemoryRecord> {
    s.insert(insertion_point(s, x.timestamp), x)
}

/// Stable sort, newest first: records with equal timestamps keep their
/// relative order.
pub open spec fn sort_desc(s: Seq<MemoryRecord>) -> Seq<MemoryRecord>
    decreases s.len(),
{
    if s.len() == 0 {
        s
    } else {
        insert_desc(sort_desc(s.drop_last()), s.last())
    }
}

/// The insertion point ends the leading run of records at least `t` new.
pub proof fn lemma_insertion_point(s: Seq<MemoryRecord>, t: u64)
    ensures
        0 <= insertion_point(s, t) <= s.len(),
        forall|i: int| 0 <= i < insertion_point(s, t) ==> s[i].timestamp >= t,
        insertion_point(s, t) < s.len() ==> s[insertion_point(s, t)].timestamp < t,
    decreases s.len(),
{
    if s.len() > 0 && s[0].timestamp >= t {
        lemma_insertion_point(s.drop_first(), t);
        assert forall|i: int| 0 <= i < insertion_point(s, t) implies s[i].timestamp >= t by {
            if i > 0 {
                assert(s[i] == s.drop_first()[i - 1]);
            }
        }
    }
}

/// Any index with the properties of the insertion point is the insertion point.
pub proof fn lemma_insertion_point_unique(s: Seq<MemoryRecord>, t: u64, k: int)
    requires
        0 <= k <= s.len(),
        forall|i: int| 0 <= i < k ==> s[i].timestamp >= t,
        k < s.len() ==> s[k].timestamp < t,
    ensures
        insertion_point(s, t) == k,
{
    lemma_insertion_point(s, t);
    let p = insertion_point(s, t);
    if p < k {
        assert(s[p].timestamp >= t);
    } else if p > k {
        assert(s[k].timestamp >= t);
    }
}

/// Inserting into a newest-first sequence keeps it ordered and adds exactly `x`.
pub proof fn lemma_insert_desc_sorted(s: Seq<MemoryRecord>, x: MemoryRecord)
    requires
        sorted_desc(s),
    ensures
        sorted_desc(insert_desc(s, x)),
        insert_desc(s, x).to_multiset() == s.to_multiset().insert(x),
{
    broadcast use vstd::seq_lib::to_multiset_insert;

    lemma_insertion_point(s, x.timestamp);
    let k = insertion_point(s, x.timestamp);
    let r = insert_desc(s, x);
    assert forall|i: int, j: int| 0 <= i < j < r.len() implies r[i].timestamp >= r[j].timestamp by {
        if j < k {
            assert(r[i] == s[i] && r[j] == s[j]);
        } else if j == k {
            assert(r[i] == s[i]);
        } else if i < k {
            assert(r[i] == s[i] && r[j] == s[j - 1]);
        } else if i == k {
            assert(r[j] == s[j - 1]);
            assert(s[k].timestamp >= s[j - 1].timestamp);
        } else {
            assert(r[i] == s[i - 1] && r[j] == s[j - 1]);
        }
    }
}

/// The sort yields a newest-first arrangement of the same records.
pub proof fn lemma_sort_desc(s: Seq<MemoryRecord>)
    ensures
        sorted_desc(sort_desc(s)),
        sort_desc(s).to_multiset() == s.to_multiset(),
        sort_desc(s).len() == s.len(),
    decreases s.len(),
{
    broadcast use vstd::seq_lib::to_multiset_build, vstd::seq_lib::to_multiset_len;

    if s.len() > 0 {
        let d = s.drop_last();
        lemma_sort_desc(d);
        lemma_insert_desc_sorted(sort_desc(d), s.last());
        assert(d.push(s.last()) =~= s);
        assert(s.to_multiset() == d.to_multiset().insert(s.last()));
    }
    assert(sort_desc(s).to_multiset().len() == s.to_multiset().len());
}

/// The records of `s` whose timestamp is `t`, in their order in `s`.
pub open spec fn with_timestamp(s: Seq<MemoryRecord>, t: u64) -> Seq<MemoryRecord> {
    s.filter(|r: MemoryRecord| r.timestamp == t)
}

/// Among records of one timestamp, an inserted record comes last.
proof fn lemma_insert_desc_ties(s: Seq<MemoryRecord>, x: MemoryRecord, t: u64)
    requires
        sorted_desc(s),
    ensures
        with_timestamp(insert_desc(s, x), t) == if x.timestamp == t {
            with_timestamp(s, t).push(x)
        } else {
            with_timestamp(s, t)
        },
{
    broadcast use Seq::filter_distributes_over_add;

    let pred = |r: MemoryRecord| r.timestamp == t;
    lemma_insertion_point(s, x.timestamp);
    let k = insertion_point(s, x.timestamp);
    let a = s.take(k);
    let b = s.skip(k);
    assert(s =~= a + b);
    assert(insert_desc(s, x) =~= a + seq![x] + b);
    let e = Seq::<MemoryRecord>::empty();
    assert(seq![x] =~= e.push(x));
    e.lemma_filter_push(x, pred);
    assert(e.filter(pred) =~= e) by {
        reveal(Seq::filter);
    }
    if x.timestamp == t {
        assert(b.all(|r: MemoryRecord| !pred(r))) by {
            assert forall|j: int| 0 <= j < b.len() implies !pred(b[j]) by {
                assert(b[j] == s[k + j]);
                if j > 0 {
                    assert(s[k].timestamp >= s[k + j].timestamp);
                }
            }
        }
        b.lemma_all_neg_filter_empty(pred);
        assert(b.filter(pred) =~= e);
        assert(a.filter(pred) + seq![x] + e =~= (a.filter(pred) + e).push(x));
    } else {
        assert(a.filter(pred) + e + b.filter(pred) =~= a.filter(pred) + b.filter(pred));
    }
}

/// The sort is stable: for each timestamp, the records that carry it come
/// out in the order they went in.
pub proof fn sort_keeps_order_of_ties(s: Seq<MemoryRecord>, t: u64)
    ensures
        with_timestamp(sort_desc(s), t) == with_timestamp(s, t),
    decreases s.len(),
{
    if s.len() > 0 {
        let d = s.drop_last();
        sort_keeps_order_of_ties(d, t);
        lemma_sort_desc(d);
        lemma_insert_desc_ties(sort_desc(d), s.last(), t);
        assert(d.push(s.last()) =~= s);
        d.lemma_filter_push(s.last(), |r: MemoryRecord| r.timestamp == t);
    }
}

/// Where a record with timestamp `t` joins the newest-first sequence `v`.
fn insertion_index(v: &Vec<MemoryItem>, t: u64) -> (j: usize)
    ensures
        j <= v@.len(),
        j == insertion_point(records(v@), t),
{
    let mut j: usize = 0;
    while j < v.len() && v[j].timestamp >= t
        invariant
            j <= v.len(),
            forall|i: int| 0 <= i < j ==> v@[i].timestamp >= t,
        decreases v.len() - j,
    {
        j = j + 1;
    }
    proof {
        lemma_insertion_point_unique(records(v@), t, j as int);
    }
    j
}

/// Sorts the items newest first; items with equal timestamps keep their order.
pub fn sort_newest_first(items: Vec<MemoryItem>) -> (r: Vec<MemoryItem>)
    ensures
        records(r@) == sort_desc(records(items@)),
{
    let ghost orig = records(items@);
    let mut rest = items;
    let mut out: Vec<MemoryItem> = Vec::new();
    let ghost mut k: int = 0;
    while rest.len() > 0
        invariant
            0 <= k <= orig.len(),
            orig.len() == k + rest@.len(),
            records(rest@) == orig.skip(k),
            records(out@) == sort_desc(orig.take(k)),
        decreases rest.len(),
    {
        let ghost rest_before = rest@;
        let x = rest.remove(0);
        proof {
            assert(x@ == records(rest_before)[0]);
            assert(records(rest@) =~= records(rest_before).drop_first());
            assert(records(rest@) =~= orig.skip(k + 1));
        }
        let j = insertion_index(&out, x.timestamp);
        let ghost before = out@;
        out.insert(j, x);
        proof {
            assert(records(out@) =~= records(before).insert(j as int, x@));
            assert(orig.take(k + 1).drop_last() =~= orig.take(k));
            k = k + 1;
        }
    }
    proof {
        assert(orig.take(k) =~= orig);
    }
    out
}

} // verus!
