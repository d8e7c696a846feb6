use vstd::prelude::*;
use crate::record::MemoryRecord;
use crate::order::{sorted_desc, sort_desc, insert_desc, insertion_point, lemma_sort_desc};
use crate::store::{
    first_with_id, put_record, upserted, ids_unique, matches_filters, selected, without_id,
};
use crate::document::{StoredDocument, write_base};

verus! {

/// A record survives a filter exactly when it was there and passes the predicate.
proof fn lemma_filter_membership(s: Seq<MemoryRecord>, pred: spec_fn(MemoryRecord) -> bool)
    ensures
        forall|r: MemoryRecord| #[trigger] s.filter(pred).contains(r) <==> s.contains(r) && pred(r),
{
    broadcast use vstd::seq_lib::group_filter_ensures;

    assert forall|r: MemoryRecord| #[trigger] s.filter(pred).contains(r) implies s.contains(r)
        && pred(r) by {
        s.lemma_filter_contains_rev(pred, r);
    }
}

/// A filter that every record passes changes nothing.
proof fn lemma_filter_all(s: Seq<MemoryRecord>, pred: spec_fn(MemoryRecord) -> bool)
    requires
        forall|i: int| 0 <= i < s.len() ==> pred(s[i]),
    ensures
        s.filter(pred) == s,
    decreases s.len(),
{
    if s.len() > 0 {
        let d = s.drop_last();
        lemma_filter_all(d, pred);
        d.lemma_filter_push(s.last(), pred);
        assert(d.push(s.last()) =~= s);
    }
}

/// Sorting keeps exactly the records it was given.
proof fn lemma_sort_members(s: Seq<MemoryRecord>)
    ensures
        forall|r: MemoryRecord| #[trigger] sort_desc(s).contains(r) <==> s.contains(r),
{
    broadcast use vstd::seq_lib::to_multiset_contains;

    lemma_sort_desc(s);
    assert forall|r: MemoryRecord| #[trigger] sort_desc(s).contains(r) <==> s.contains(r) by {
        assert(sort_desc(s).to_multiset().count(r) == s.to_multiset().count(r));
    }
}

/// Sorting keeps ids unique.
proof fn lemma_sort_unique(s: Seq<MemoryRecord>)
    requires
        ids_unique(s),
    ensures
        ids_unique(sort_desc(s)),
    decreases s.len(),
{
    if s.len() > 0 {
        let d = s.drop_last();
        let x = s.last();
        assert(ids_unique(d)) by {
            assert forall|i: int, j: int|
                0 <= i < d.len() && 0 <= j < d.len() && #[trigger] d[i].id == #[trigger] d[j].id
                implies i == j by {
                assert(d[i] == s[i] && d[j] == s[j]);
            }
        }
        lemma_sort_unique(d);
        lemma_sort_members(d);
        let p = sort_desc(d);
        lemma_sort_desc(d);
        let k = insertion_point(p, x.timestamp);
        crate::order::lemma_insertion_point(p, x.timestamp);
        let r = insert_desc(p, x);
        assert forall|i: int| 0 <= i < p.len() implies p[i].id != x.id by {
            assert(p.contains(p[i]));
            let j = choose|j: int| 0 <= j < d.len() && d[j] == p[i];
            assert(s[j] == d[j]);
            assert(s[s.len() - 1] == x);
        }
        assert forall|i: int, j: int|
            0 <= i < r.len() && 0 <= j < r.len() && #[trigger] r[i].id == #[trigger] r[j].id
            implies i == j by {
            let pi = if i < k { i } else { i - 1 };
            let pj = if j < k { j } else { j - 1 };
            if i != k && j != k {
                assert(r[i] == p[pi] && r[j] == p[pj]);
            } else if i == k && j != k {
                assert(r[j] == p[pj]);
            } else if j == k && i != k {
                assert(r[i] == p[pi]);
            }
        }
    }
}

/// An upsert into a store with unique ids leaves the ids unique, holds the
/// upserted record, and is ordered newest first.
pub proof fn upsert_keeps_store_valid(s: Seq<MemoryRecord>, x: MemoryRecord)
    requires
        ids_unique(s),
    ensures
        ids_unique(upserted(s, x)),
        upserted(s, x).contains(x),
        sorted_desc(upserted(s, x)),
{
    let q = put_record(s, x);
    if exists|i: int| first_with_id(s, x.id, i) {
        let c = choose|i: int| first_with_id(s, x.id, i);
        assert(q[c] == x);
        assert forall|i: int, j: int|
            0 <= i < q.len() && 0 <= j < q.len() && #[trigger] q[i].id == #[trigger] q[j].id
            implies i == j by {
            assert(s[i].id == q[i].id && s[j].id == q[j].id);
        }
    } else {
        assert(q[s.len() as int] == x);
        assert forall|i: int, j: int|
            0 <= i < q.len() && 0 <= j < q.len() && #[trigger] q[i].id == #[trigger] q[j].id
            implies i == j by {
            if i < s.len() && j == s.len() {
                assert(!first_with_id(s, x.id, i));
                assert(q[i] == s[i]);
                assert(exists|c: int| 0 <= c <= i && first_with_id(s, x.id, c)) by {
                    lemma_first_exists(s, x.id, i);
                }
            } else if j < s.len() && i == s.len() {
                assert(q[j] == s[j]);
                lemma_first_exists(s, x.id, j);
            }
        }
    }
    assert(q.contains(x));
    lemma_sort_unique(q);
    lemma_sort_members(q);
    lemma_sort_desc(q);
}

/// Where a record has the id, some position is the first with it.
proof fn lemma_first_exists(s: Seq<MemoryRecord>, id: Seq<char>, i: int)
    requires
        0 <= i < s.len(),
        s[i].id == id,
    ensures
        exists|c: int| 0 <= c <= i && first_with_id(s, id, c),
    decreases i,
{
    if exists|j: int| 0 <= j < i && s[j].id == id {
        let j = choose|j: int| 0 <= j < i && s[j].id == id;
        lemma_first_exists(s, id, j);
    } else {
        assert(first_with_id(s, id, i));
    }
}

/// A single record is already sorted.
proof fn lemma_sort_single(x: MemoryRecord)
    ensures
        sort_desc(seq![x]) == seq![x],
{
    let e = Seq::<MemoryRecord>::empty();
    let s = seq![x];
    assert(s.drop_last() =~= e);
    assert(sort_desc(e) == e);
    assert(insertion_point(e, x.timestamp) == 0);
    assert(e.insert(0, x) =~= s);
    assert(insert_desc(e, x) == s);
}

/// Saving one record into an empty store and loading with no filter and no
/// limit gives back exactly that record.
pub proof fn save_then_load_round_trip(x: MemoryRecord)
    ensures
        selected(upserted(Seq::empty(), x), None, None, None) == seq![x],
{
    let e = Seq::<MemoryRecord>::empty();
    assert(!exists|i: int| first_with_id(e, x.id, i));
    assert(put_record(e, x) =~= seq![x]);
    lemma_sort_single(x);
    lemma_filter_all(seq![x], |r: MemoryRecord| matches_filters(r, None, None));
}

/// Saving over a malformed document discards it: the store that is written
/// holds the saved record alone.
pub proof fn save_over_malformed_keeps_only_new(msg: String, x: MemoryRecord)
    ensures
        upserted(write_base(StoredDocument::Malformed(msg)), x) == seq![x],
{
    let e = Seq::<MemoryRecord>::empty();
    assert(!exists|i: int| first_with_id(e, x.id, i));
    assert(put_record(e, x) =~= seq![x]);
    lemma_sort_single(x);
}

/// Upserting two records with the same id leaves exactly one record with
/// that id, and it carries the second one's values.
pub proof fn upsert_same_id_twice_keeps_latest(
    s: Seq<MemoryRecord>,
    first: MemoryRecord,
    second: MemoryRecord,
)
    requires
        ids_unique(s),
        first.id == second.id,
    ensures
        ({
            let r = upserted(upserted(s, first), second);
            exists|i: int|
                0 <= i < r.len() && r[i] == second && forall|j: int|
                    0 <= j < r.len() && r[j].id == second.id ==> j == i
        }),
{
    upsert_keeps_store_valid(s, first);
    upsert_keeps_store_valid(upserted(s, first), second);
    let r = upserted(upserted(s, first), second);
    let i = choose|i: int| 0 <= i < r.len() && r[i] == second;
    assert forall|j: int| 0 <= j < r.len() && r[j].id == second.id implies j == i by {
        assert(r[i].id == r[j].id);
    }
}

/// Load filters are conjunctive: a record is returned exactly when it is in
/// the store and meets every filter that is given.
pub proof fn load_filters_are_conjunctive(
    s: Seq<MemoryRecord>,
    agent_type: Option<Seq<char>>,
    topic: Option<Seq<char>>,
)
    ensures
        forall|r: MemoryRecord| #[trigger]
            selected(s, agent_type, topic, None).contains(r) <==> s.contains(r) && (agent_type
                is Some ==> r.agent_type == agent_type->0) && (topic is Some ==> r.topic
                == topic->0),
{
    lemma_filter_membership(s, |r: MemoryRecord| matches_filters(r, agent_type, topic));
}

/// A limit keeps the leading records of the store order; in a newest-first
/// store none of the dropped records is newer than a kept one.
pub proof fn load_limit_keeps_newest(s: Seq<MemoryRecord>, limit: usize)
    ensures
        ({
            let r = selected(s, None, None, Some(limit));
            &&& r.len() == if limit < s.len() {
                limit as int
            } else {
                s.len() as int
            }
            &&& r == s.take(r.len() as int)
            &&& sorted_desc(s) ==> forall|i: int, j: int|
                0 <= i < r.len() <= j < s.len() ==> r[i].timestamp >= s[j].timestamp
        }),
{
    lemma_filter_all(s, |r: MemoryRecord| matches_filters(r, None, None));
    let r = selected(s, None, None, Some(limit));
    assert(r =~= s.take(r.len() as int));
}

/// A delete drops exactly the records with the given id, and changes nothing
/// when no record has it.
pub proof fn delete_removes_only_target(s: Seq<MemoryRecord>, id: Seq<char>)
    ensures
        forall|r: MemoryRecord| #[trigger]
            without_id(s, id).contains(r) <==> s.contains(r) && r.id != id,
        (forall|i: int| 0 <= i < s.len() ==> s[i].id != id) ==> without_id(s, id) == s,
{
    let pred = |r: MemoryRecord| r.id != id;
    lemma_filter_membership(s, pred);
    if forall|i: int| 0 <= i < s.len() ==> s[i].id != id {
        lemma_filter_all(s, pred);
    }
}

/// Dropping records keeps a newest-first store ordered and its ids unique.
proof fn lemma_filter_keeps_valid(s: Seq<MemoryRecord>, pred: spec_fn(MemoryRecord) -> bool)
    requires
        ids_unique(s),
        sorted_desc(s),
    ensures
        ids_unique(s.filter(pred)),
        sorted_desc(s.filter(pred)),
    decreases s.len(),
{
    if s.len() > 0 {
        let d = s.drop_last();
        let l = s.last();
        assert(ids_unique(d)) by {
            assert forall|i: int, j: int|
                0 <= i < d.len() && 0 <= j < d.len() && #[trigger] d[i].id == #[trigger] d[j].id
                implies i == j by {
                assert(d[i] == s[i] && d[j] == s[j]);
            }
        }
        lemma_filter_keeps_valid(d, pred);
        lemma_filter_membership(d, pred);
        d.lemma_filter_push(l, pred);
        assert(d.push(l) =~= s);
        if pred(l) {
            let f = d.filter(pred);
            let r = f.push(l);
            assert forall|i: int| 0 <= i < f.len() implies f[i].id != l.id && f[i].timestamp
                >= l.timestamp by {
                assert(f.contains(f[i]));
                let j = choose|j: int| 0 <= j < d.len() && d[j] == f[i];
                assert(s[j] == d[j]);
            }
            assert forall|i: int, j: int|
                0 <= i < r.len() && 0 <= j < r.len() && #[trigger] r[i].id == #[trigger] r[j].id
                implies i == j by {
                if i < f.len() && j < f.len() {
                    assert(r[i] == f[i] && r[j] == f[j]);
                } else if i < f.len() {
                    assert(r[i] == f[i]);
                } else if j < f.len() {
                    assert(r[j] == f[j]);
                }
            }
            assert forall|i: int, j: int| 0 <= i < j < r.len() implies r[i].timestamp
                >= r[j].timestamp by {
                assert(r[i] == f[i]);
                if j < f.len() {
                    assert(r[j] == f[j]);
                }
            }
        }
    }
}

/// A delete keeps a valid store valid: ids stay unique and the records stay
/// newest first.
pub proof fn delete_keeps_store_valid(s: Seq<MemoryRecord>, id: Seq<char>)
    requires
        ids_unique(s),
        sorted_desc(s),
    ensures
        ids_unique(without_id(s, id)),
        sorted_desc(without_id(s, id)),
{
    lemma_filter_keeps_valid(s, |r: MemoryRecord| r.id != id);
}

} // verus!
