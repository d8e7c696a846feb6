use vstd::prelude::*;
use crate::record::{MemoryItem, MemoryRecord, records, opt_chars};
use crate::store::{MemoryStore, upserted, selected, without_id};

verus! {

/// What was found at the store's path before an operation.
pub enum StoredDocument {
    /// No file at the path.
    Missing,
    /// A file whose text does not decode to a store; the decoder's message.
    Malformed(String),
    /// A file that decoded to this store.
    Parsed(MemoryStore),
}

/// Why a reading operation refused to go on.
pub enum StoreError {
    /// The document is present but does not decode; the decoder's message.
    Parse(String),
}

/// The records a writing operation starts from: a missing or malformed
/// document counts as an empty store.
pub open spec fn write_base(doc: StoredDocument) -> Seq<MemoryRecord> {
    match doc {
        StoredDocument::Parsed(s) => s@,
        _ => Seq::empty(),
    }
}

/// The store that a write path starts from; a malformed document is
/// discarded, not repaired.
pub fn store_for_write(doc: StoredDocument) -> (r: MemoryStore)
    ensures
        r@ == write_base(doc),
{
    match doc {
        StoredDocument::Parsed(s) => s,
        _ => MemoryStore::new(),
    }
}

/// The store to write back after saving `item`: upserted into what the
/// document held, or into an empty store when it was missing or malformed.
pub fn save_into(doc: StoredDocument, item: MemoryItem) -> (r: MemoryStore)
    ensures
        r@ == upserted(write_base(doc), item@),
{
    let mut store = store_for_write(doc);
    store.upsert(item);
    store
}

/// The records a load returns. A missing document gives no records; a
/// malformed one is an error.
pub fn load_from(
    doc: StoredDocument,
    agent_type: Option<String>,
    topic: Option<String>,
    limit: Option<usize>,
) -> (r: Result<Vec<MemoryItem>, StoreError>)
    ensures
        doc is Missing ==> r is Ok && r->Ok_0@.len() == 0,
        doc is Malformed <==> r is Err,
        doc is Malformed ==> r == Err::<Vec<MemoryItem>, StoreError>(
            StoreError::Parse(doc->Malformed_0),
        ),
        doc is Parsed ==> r is Ok && records(r->Ok_0@) == selected(
            doc->Parsed_0@,
            opt_chars(agent_type),
            opt_chars(topic),
            limit,
        ),
{
    match doc {
        StoredDocument::Missing => Ok(Vec::new()),
        StoredDocument::Malformed(msg) => Err(StoreError::Parse(msg)),
        StoredDocument::Parsed(s) => Ok(s.select(agent_type, topic, limit)),
    }
}

/// The store to write back after deleting `id`, or `None` when there is no
/// document and nothing is to be written. A malformed document is an error.
pub fn delete_from(doc: StoredDocument, id: &String) -> (r: Result<Option<MemoryStore>, StoreError>)
    ensures
        doc is Missing ==> r is Ok && r->Ok_0 is None,
        doc is Malformed <==> r is Err,
        doc is Malformed ==> r == Err::<Option<MemoryStore>, StoreError>(
            StoreError::Parse(doc->Malformed_0),
        ),
        doc is Parsed ==> r is Ok && r->Ok_0 is Some && r->Ok_0->Some_0@ == without_id(
            doc->Parsed_0@,
            id@,
        ),
{
    match doc {
        StoredDocument::Missing => Ok(None),
        StoredDocument::Malformed(msg) => Err(StoreError::Parse(msg)),
        StoredDocument::Parsed(mut s) => {
            s.delete(id);
            Ok(Some(s))
        },
    }
}

} // verus!
