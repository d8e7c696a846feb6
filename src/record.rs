use vstd::prelude::*;

verus! {

/// One stored note: a caller-assigned id, an ordering key, a free-form
/// category and topic, the body text and optional tags.
#[derive(Clone, Debug, PartialEq, Eq)]
pub struct MemoryItem {
    pub id: String,
    pub timestamp: u64,
    pub agent_type: String,
    pub topic: String,
    pub content: String,
    pub tags: Option<Vec<String>>,
}

/// The mathematical value of a `MemoryItem`.
pub struct MemoryRecord {
    pub id: Seq<char>,
    pub timestamp: u64,
    pub agent_type: Seq<char>,
    pub topic: Seq<char>,
    pub content: Seq<char>,
    pub tags: Option<Seq<Seq<char>>>,
}

/// The values of a sequence of strings.
pub open spec fn string_seq(v: Seq<String>) -> Seq<Seq<char>> {
    v.map_values(|s: String| s@)
}

impl View for MemoryItem {
    type V = MemoryRecord;

    open spec fn view(&self) -> MemoryRecord {
        MemoryRecord {
            id: self.id@,
            timestamp: self.timestamp,
            agent_type: self.agent_type@,
            topic: self.topic@,
            content: self.content@,
            tags: match self.tags {
                Some(t) => Some(string_seq(t@)),
                None => None,
            },
        }
    }
}

/// The records that a sequence of items stands for, in the same order.
pub open spec fn records(v: Seq<MemoryItem>) -> Seq<MemoryRecord> {
    v.map_values(|m: MemoryItem| m@)
}

/// The value of an optional string.
pub open spec fn opt_chars(o: Option<String>) -> Option<Seq<char>> {
    match o {
        Some(s) => Some(s@),
        None => None,
    }
}

impl MemoryItem {
    /// An item with the given fields.
    pub fn new(
        id: String,
        timestamp: u64,
        agent_type: String,
        topic: String,
        content: String,
        tags: Option<Vec<String>>,
    ) -> (r: MemoryItem)
        ensures
            r.id == id,
            r.timestamp == timestamp,
            r.agent_type == agent_type,
            r.topic == topic,
            r.content == content,
            r.tags == tags,
    {
        MemoryItem { id, timestamp, agent_type, topic, content, tags }
    }
}

} // verus!
