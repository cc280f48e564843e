//! Snapshots: a store's whole state as one blob, and back.
//!
//! A snapshot holds the arena, the norm cache, the documents and the
//! dimension. The identifier index is not part of it: loading rebuilds the
//! index from the documents, each identifier at the position of its
//! document.

use vstd::prelude::*;
use vstd::hash_map::StringHashMap;
use crate::codec::{
    decoded_snapshot,
    deserialize_snapshot,
    docs_view,
    error_text,
    serialize_snapshot,
    SnapshotFields,
};
use crate::memory::{Entry, StoreView, VectorStore};
use crate::types::Document;

verus! {

/// Why a snapshot could not be written or read.
#[derive(Debug)]
pub enum SnapshotError {
    /// The blob could not be written or read as a file; the text says why.
    Io(String),
    /// The encoder reported an error; the text is its message. On a store
    /// it reports none.
    Encode(String),
    /// The blob is cut short, malformed, or does not describe a store; the
    /// text says why.
    Decode(String),
}

/// Whether decoded fields describe a store: the dimension fits the
/// machine, the arena holds one chunk per document and the norm cache one
/// norm per document, and no identifier occurs twice.
pub open spec fn consistent(fields: SnapshotFields) -> bool {
    &&& fields.3 <= usize::MAX
    &&& fields.0.len() == fields.2.len() * fields.3
    &&& fields.1.len() == fields.2.len()
    &&& forall|i: int, j: int|
        0 <= i < j < fields.2.len() ==> (#[trigger] fields.2[i]).0 != (#[trigger] fields.2[j]).0
}

/// The store that consistent fields describe.
pub open spec fn restored(fields: SnapshotFields) -> StoreView {
    StoreView {
        dim: fields.3 as nat,
        entries: Seq::new(
            fields.2.len(),
            |i: int|
                Entry {
                    id: fields.2[i].0,
                    vector: fields.0.subrange(i * fields.3, i * fields.3 + fields.3),
                    norm: fields.1[i],
                    metadata: fields.2[i].1,
                },
        ),
    }
}

impl VectorStore {
    /// The fields that a snapshot of this store holds.
    pub open spec fn snapshot_fields(&self) -> SnapshotFields {
        (self.vectors@, self.norms@, docs_view(self.docs@), self.dim as u64)
    }

    /// Builds a store from the parts of a snapshot, rebuilding the
    /// identifier index from the documents in order. Parts that do not fit
    /// together give nothing.
    pub fn from_parts(vectors: Vec<u32>, norms: Vec<u32>, docs: Vec<Document>, dim: usize) -> (r:
        Option<VectorStore>)
        ensures
            r is Some == consistent((vectors@, norms@, docs_view(docs@), dim as u64)),
            r is Some ==> {
                &&& r->Some_0.wf()
                &&& r->Some_0.vectors == vectors
                &&& r->Some_0.norms == norms
                &&& r->Some_0.docs == docs
                &&& r->Some_0.dim == dim
                &&& r->Some_0@ == restored((vectors@, norms@, docs_view(docs@), dim as u64))
            },
    {
        let ghost fields = (vectors@, norms@, docs_view(docs@), dim as u64);
        let n: usize = docs.len();
        match n.checked_mul(dim) {
            Some(total) => {
                if vectors.len() != total {
                    return None;
                }
            },
            None => {
                assert(vectors.len() <= usize::MAX);
                assert(fields.2.len() * fields.3 == n * dim);
                return None;
            },
        }
        if norms.len() != n {
            return None;
        }
        let mut index: StringHashMap<usize> = StringHashMap::new();
        let mut i: usize = 0;
        while i < n
            invariant
                n == docs@.len(),
                0 <= i <= n,
                fields == (vectors@, norms@, docs_view(docs@), dim as u64),
                forall|a: int, b: int|
                    0 <= a < b < i ==> (#[trigger] docs@[a]).id@ != (#[trigger] docs@[b]).id@,
                forall|a: int|
                    0 <= a < i ==> index@.contains_key((#[trigger] docs@[a]).id@)
                        && index@[docs@[a].id@] == a,
                forall|k: Seq<char>| #[trigger]
                    index@.contains_key(k) ==> index@[k] < i && docs@[index@[k] as int].id@ == k,
            decreases n - i,
        {
            if index.contains_key(docs[i].id.as_str()) {
                proof {
                    let a = index@[docs@[i as int].id@] as int;
                    assert(fields.2[a].0 == fields.2[i as int].0);
                }
                return None;
            }
            index.insert(docs[i].id.clone(), i);
            i = i + 1;
        }
        let store = VectorStore { vectors, norms, id_to_index: index, docs, dim };
        proof {
            assert forall|a: int, b: int| 0 <= a < b < fields.2.len() implies (
            #[trigger] fields.2[a]).0 != (#[trigger] fields.2[b]).0 by {
                assert(docs@[a].id@ != docs@[b].id@);
            }
            assert(store@.entries =~= restored(fields).entries);
        }
        Some(store)
    }
}

/// Encodes a store's state as one blob. Every store has one, and the blob
/// decodes to the store's arena, norms, documents and dimension.
pub fn save_snapshot(store: &VectorStore) -> (r: Result<Vec<u8>, SnapshotError>)
    ensures
        r is Ok,
        decoded_snapshot(r->Ok_0@) == Some(store.snapshot_fields()),
{
    match serialize_snapshot(&store.vectors, &store.norms, &store.docs, store.dim as u64) {
        Ok(blob) => Ok(blob),
        Err(e) => Err(SnapshotError::Encode(error_text(&e))),
    }
}

/// Builds a store from decoded snapshot fields: the store that they
/// describe where they are consistent, else a decoding error.
pub fn restore(vectors: Vec<u32>, norms: Vec<u32>, docs: Vec<Document>, dim: u64) -> (r: Result<
    VectorStore,
    SnapshotError,
>)
    ensures
        match r {
            Ok(store) => {
                &&& consistent((vectors@, norms@, docs_view(docs@), dim))
                &&& store.wf()
                &&& store@ == restored((vectors@, norms@, docs_view(docs@), dim))
                &&& store.snapshot_fields() == (vectors@, norms@, docs_view(docs@), dim)
            },
            Err(e) => e is Decode && !consistent((vectors@, norms@, docs_view(docs@), dim)),
        },
{
    if dim > usize::MAX as u64 {
        return Err(SnapshotError::Decode("snapshot dimension out of range".to_owned()));
    }
    match VectorStore::from_parts(vectors, norms, docs, dim as usize) {
        Some(store) => Ok(store),
        None => Err(SnapshotError::Decode("snapshot parts do not fit together".to_owned())),
    }
}

/// Decodes a blob into a store with a rebuilt identifier index. A blob that
/// does not decode, or whose parts do not fit together, is a decoding
/// error.
pub fn load_snapshot(blob: &[u8]) -> (r: Result<VectorStore, SnapshotError>)
    ensures
        match r {
            Ok(store) => {
                &&& decoded_snapshot(blob@) is Some
                &&& consistent(decoded_snapshot(blob@)->Some_0)
                &&& store.wf()
                &&& store@ == restored(decoded_snapshot(blob@)->Some_0)
                &&& store.snapshot_fields() == decoded_snapshot(blob@)->Some_0
            },
            Err(e) => e is Decode && (decoded_snapshot(blob@) is None || !consistent(
                decoded_snapshot(blob@)->Some_0,
            )),
        },
{
    match deserialize_snapshot(blob) {
        Ok(fields) => restore(fields.0, fields.1, fields.2, fields.3),
        Err(e) => Err(SnapshotError::Decode(error_text(&e))),
    }
}

/// What a well-formed store saves can be loaded, and loading it gives the
/// same store: the same dimension and, entry by entry, the same
/// identifiers, vectors, norms and metadata. The identifier index is
/// fixed by the documents, so two well-formed stores with the same
/// documents have the same index.
pub proof fn lemma_snapshot_round_trip(store: &VectorStore, loaded: &VectorStore)
    requires
        store.wf(),
        loaded.wf(),
        loaded.snapshot_fields() == store.snapshot_fields(),
    ensures
        consistent(store.snapshot_fields()),
        restored(store.snapshot_fields()) == store@,
        loaded@ == store@,
        loaded.id_to_index@ == store.id_to_index@,
{
    let fields = store.snapshot_fields();
    store.lemma_view_wf();
    loaded.lemma_view_wf();
    assert forall|i: int, j: int| 0 <= i < j < fields.2.len() implies (#[trigger] fields.2[i]).0
        != (#[trigger] fields.2[j]).0 by {
        assert(store@.entries[i].id == fields.2[i].0);
        assert(store@.entries[j].id == fields.2[j].0);
    }
    assert(restored(fields).entries =~= store@.entries);
    assert(loaded.docs@.len() == store.docs@.len()) by {
        assert(docs_view(loaded.docs@).len() == docs_view(store.docs@).len());
    }
    assert(restored(loaded.snapshot_fields()).entries =~= loaded@.entries);
    assert forall|k: Seq<char>|
        loaded.id_to_index@.contains_key(k) == store.id_to_index@.contains_key(k) && (
        loaded.id_to_index@.contains_key(k) ==> loaded.id_to_index@[k]
            == store.id_to_index@[k]) by {
        if loaded.id_to_index@.contains_key(k) {
            let p = loaded.id_to_index@[k] as int;
            assert(docs_view(loaded.docs@)[p].0 == k);
            assert(docs_view(store.docs@)[p].0 == k);
            assert(store.docs@[p].id@ == k);
        }
        if store.id_to_index@.contains_key(k) {
            let p = store.id_to_index@[k] as int;
            assert(docs_view(store.docs@)[p].0 == k);
            assert(docs_view(loaded.docs@)[p].0 == k);
            assert(loaded.docs@[p].id@ == k);
        }
    }
    assert(loaded.id_to_index@ =~= store.id_to_index@);
}

} // verus!
