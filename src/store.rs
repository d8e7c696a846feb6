use vstd::prelude::*;
use crate::record::{MemoryItem, MemoryRecord, records, opt_chars};
use crate::order::{sort_desc, sort_newest_first};

verus! {

/// `i` is the first position of `s` that holds a record with this id.
pub open spec fn first_with_id(s: Seq<MemoryRecord>, id: Seq<char>, i: int) -> bool {
    0 <= i < s.len() && s[i].id == id && forall|j: int| 0 <= j < i ==> s[j].id != id
}

/// The first record with `x`'s id replaced by `x` in place, or `x` appended
/// when no record has that id.
pub open spec fn put_record(s: Seq<MemoryRecord>, x: MemoryRecord) -> Seq<MemoryRecord> {
    if exists|i: int| first_with_id(s, x.id, i) {
        s.update(choose|i: int| first_with_id(s, x.id, i), x)
    } else {
        s.push(x)
    }
}

/// The store after an upsert of `x`: replaced or appended, then sorted newest
/// first.
pub open spec fn upserted(s: Seq<MemoryRecord>, x: MemoryRecord) -> Seq<MemoryRecord> {
    sort_desc(put_record(s, x))
}

/// At most one record per id.
pub open spec fn ids_unique(s: Seq<MemoryRecord>) -> bool {
    forall|i: int, j: int|
        0 <= i < s.len() && 0 <= j < s.len() && #[trigger] s[i].id == #[trigger] s[j].id ==> i == j
}

/// The exact-match filters of a load; an absent filter admits every record.
pub open spec fn matches_filters(
    r: MemoryRecord,
    agent_type: Option<Seq<char>>,
    topic: Option<Seq<char>>,
) -> bool {
    (agent_type is Some ==> r.agent_type == agent_type->0) && (topic is Some ==> r.topic
        == topic->0)
}

/// The records that pass both filters, in store order.
pub open spec fn filtered(
    s: Seq<MemoryRecord>,
    agent_type: Option<Seq<char>>,
    topic: Option<Seq<char>>,
) -> Seq<MemoryRecord> {
    s.filter(|r: MemoryRecord| matches_filters(r, agent_type, topic))
}

/// At most `limit` leading records of `s`; all of them when there is no limit.
pub open spec fn limited(s: Seq<MemoryRecord>, limit: Option<usize>) -> Seq<MemoryRecord> {
    match limit {
        Some(l) => if l < s.len() {
            s.take(l as int)
        } else {
            s
        },
        None => s,
    }
}

/// What a load returns: filtered first, then truncated to the limit.
pub open spec fn selected(
    s: Seq<MemoryRecord>,
    agent_type: Option<Seq<char>>,
    topic: Option<Seq<char>>,
    limit: Option<usize>,
) -> Seq<MemoryRecord> {
    limited(filtered(s, agent_type, topic), limit)
}

/// The store with every record of this id removed.
pub open spec fn without_id(s: Seq<MemoryRecord>, id: Seq<char>) -> Seq<MemoryRecord> {
    s.filter(|r: MemoryRecord| r.id != id)
}

/// The ordered collection of records held in the store document.
pub struct MemoryStore {
    pub memories: Vec<MemoryItem>,
}

impl View for MemoryStore {
    type V = Seq<MemoryRecord>;

    open spec fn view(&self) -> Seq<MemoryRecord> {
        records(self.memories@)
    }
}

impl MemoryStore {
    /// A store without records.
    pub fn new() -> (r: MemoryStore)
        ensures
            r@ == Seq::<MemoryRecord>::empty(),
    {
        let r = MemoryStore { memories: Vec::new() };
        assert(r@ =~= Seq::<MemoryRecord>::empty());
        r
    }

    /// A store holding `memories` in the given order.
    pub fn from_items(memories: Vec<MemoryItem>) -> (r: MemoryStore)
        ensures
            r@ == records(memories@),
    {
        MemoryStore { memories }
    }

    /// The items, in store order.
    pub fn into_items(self) -> (r: Vec<MemoryItem>)
        ensures
            records(r@) == self@,
    {
        self.memories
    }

    /// Inserts `item`, or overwrites the first record with its id, then sorts
    /// the store newest first (stable).
    pub fn upsert(&mut self, item: MemoryItem)
        ensures
            final(self)@ == upserted(old(self)@, item@),
    {
        let ghost s = self@;
        let mut i: usize = 0;
        while i < self.memories.len() && self.memories[i].id != item.id
            invariant
                i <= self.memories@.len(),
                self@ == s,
                forall|j: int| 0 <= j < i ==> s[j].id != item@.id,
            decreases self.memories@.len() - i,
        {
            i = i + 1;
        }
        if i < self.memories.len() {
            proof {
                assert(first_with_id(s, item@.id, i as int));
                let c = choose|c: int| first_with_id(s, item@.id, c);
                assert(c == i as int) by {
                    if c < i {
                        assert(s[c].id != item@.id);
                    } else if c > i {
                        assert(s[i as int].id != item@.id);
                    }
                }
            }
            self.memories.set(i, item);
            proof {
                assert(self@ =~= s.update(i as int, item@));
            }
        } else {
            proof {
                assert forall|c: int| !first_with_id(s, item@.id, c) by {
                    if 0 <= c < s.len() {
                        assert(s[c].id != item@.id);
                    }
                }
            }
            self.memories.push(item);
            proof {
                assert(self@ =~= s.push(item@));
            }
        }
        let mut taken: Vec<MemoryItem> = Vec::new();
        std::mem::swap(&mut taken, &mut self.memories);
        self.memories = sort_newest_first(taken);
    }

    /// The records that pass both exact-match filters, in store order,
    /// truncated to at most `limit` records.
    pub fn select(
        self,
        agent_type: Option<String>,
        topic: Option<String>,
        limit: Option<usize>,
    ) -> (r: Vec<MemoryItem>)
        ensures
            records(r@) == selected(self@, opt_chars(agent_type), opt_chars(topic), limit),
    {
        let ghost orig = self@;
        let ghost pred = |r: MemoryRecord|
            matches_filters(r, opt_chars(agent_type), opt_chars(topic));
        let mut rest = self.memories;
        let mut out: Vec<MemoryItem> = Vec::new();
        let ghost mut k: int = 0;
        while rest.len() > 0
            invariant
                0 <= k <= orig.len(),
                orig.len() == k + rest@.len(),
                records(rest@) == orig.skip(k),
                records(out@) == orig.take(k).filter(pred),
                pred == (|r: MemoryRecord|
                    matches_filters(r, opt_chars(agent_type), opt_chars(topic))),
            decreases rest.len(),
        {
            let ghost rest_before = rest@;
            let x = rest.remove(0);
            proof {
                assert(x@ == records(rest_before)[0]);
                assert(records(rest@) =~= records(rest_before).drop_first());
                assert(records(rest@) =~= orig.skip(k + 1));
                assert(orig.take(k + 1) =~= orig.take(k).push(x@));
                orig.take(k).lemma_filter_push(x@, pred);
            }
            let keep = match &agent_type {
                Some(a) => x.agent_type == *a,
                None => true,
            } && match &topic {
                Some(t) => x.topic == *t,
                None => true,
            };
            let ghost before = out@;
            if keep {
                out.push(x);
                proof {
                    assert(records(out@) =~= records(before).push(x@));
                }
            }
            proof {
                k = k + 1;
            }
        }
        proof {
            assert(orig.take(k) =~= orig);
        }
        match limit {
            Some(l) => {
                let ghost before = out@;
                out.truncate(l);
                proof {
                    if l < before.len() {
                        assert(records(out@) =~= records(before).take(l as int));
                    }
                }
            },
            None => {},
        }
        out
    }

    /// Removes every record whose id is `id`; the others keep their order.
    pub fn delete(&mut self, id: &String)
        ensures
            final(self)@ == without_id(old(self)@, id@),
    {
        let ghost orig = self@;
        let ghost pred = |r: MemoryRecord| r.id != id@;
        let mut rest: Vec<MemoryItem> = Vec::new();
        std::mem::swap(&mut rest, &mut self.memories);
        let mut out: Vec<MemoryItem> = Vec::new();
        let ghost mut k: int = 0;
        while rest.len() > 0
            invariant
                0 <= k <= orig.len(),
                orig.len() == k + rest@.len(),
                records(rest@) == orig.skip(k),
                records(out@) == orig.take(k).filter(pred),
                pred == (|r: MemoryRecord| r.id != id@),
            decreases rest.len(),
        {
            let ghost rest_before = rest@;
            let x = rest.remove(0);
            proof {
                assert(x@ == records(rest_before)[0]);
                assert(records(rest@) =~= records(rest_before).drop_first());
                assert(records(rest@) =~= orig.skip(k + 1));
                assert(orig.take(k + 1) =~= orig.take(k).push(x@));
                orig.take(k).lemma_filter_push(x@, pred);
            }
            let ghost before = out@;
            if x.id != *id {
                out.push(x);
                proof {
                    assert(records(out@) =~= records(before).push(x@));
                }
            }
            proof {
                k = k + 1;
            }
        }
        proof {
            assert(orig.take(k) =~= orig);
        }
        self.memories = out;
    }
}

} // verus!
