//! The requests that the engine takes and the answers that it gives.

use vstd::prelude::*;
use std::collections::HashMap;
use crate::types::{metadata_view, Embedding, Metric};
use crate::memory::Entry;

verus! {

/// A request to write one vector. `norm` is the L2 norm of `vector`, which
/// the store caches beside it.
pub struct InsertRequest {
    pub id: String,
    pub vector: Embedding,
    pub norm: u32,
    pub metadata: Option<HashMap<String, String>>,
}

impl InsertRequest {
    /// The entry that the request asks to write; absent metadata is empty
    /// metadata.
    pub open spec fn entry(&self) -> Entry {
        Entry {
            id: self.id@,
            vector: self.vector@,
            norm: self.norm,
            metadata: match self.metadata {
                Some(m) => metadata_view(m),
                None => Map::<Seq<char>, Seq<char>>::empty(),
            },
        }
    }
}

/// The entries that a list of requests asks to write.
pub open spec fn requests_view(items: Seq<InsertRequest>) -> Seq<Entry> {
    Seq::new(items.len(), |i: int| items[i].entry())
}

/// The answer to a write that was accepted.
pub struct InsertResponse {
    pub status: String,
    pub id: String,
}

/// A search request: the query vector, how many results to report, and the
/// metric to rank by. The filter is accepted and not applied.
pub struct SearchRequest {
    pub vector: Embedding,
    pub top_k: usize,
    pub metric: Metric,
    pub filter: Option<HashMap<String, String>>,
}

/// One search result: the document's identifier, its score, its vector
/// and its metadata.
pub struct SearchResult {
    pub id: String,
    pub score: u32,
    pub vector: Embedding,
    pub metadata: HashMap<String, String>,
}

/// A request to write a list of vectors, each on its own.
pub struct BulkInsertRequest {
    pub items: Vec<InsertRequest>,
}

/// The outcome of a bulk insert: how many items were written, and one
/// error for each item that was refused.
pub struct BulkInsertResponse {
    pub status: String,
    pub inserted: usize,
    pub errors: Vec<BulkInsertError>,
}

/// Why one item of a bulk insert was refused.
pub struct BulkInsertError {
    pub id: String,
    pub error: String,
}

/// Bulk-insert errors as pairs of identifier and message.
pub open spec fn errors_view(errors: Seq<BulkInsertError>) -> Seq<(Seq<char>, Seq<char>)> {
    Seq::new(errors.len(), |i: int| (errors[i].id@, errors[i].error@))
}

/// The size of a store: its number of vectors, its dimension and the
/// bytes that its vectors take.
pub struct StatsResponse {
    pub num_vectors: usize,
    pub dim: usize,
    pub mem_bytes_approx: usize,
}

/// A stored document as reported to a caller: identifier and metadata.
pub struct DocumentResponse {
    pub id: String,
    pub metadata: HashMap<String, String>,
}

/// A request to create a collection.
pub struct CreateCollectionRequest {
    pub name: String,
    pub dimension: usize,
}

/// A collection as listed: name, dimension, size and time of creation.
pub struct CollectionInfo {
    pub name: String,
    pub dimension: usize,
    pub num_vectors: usize,
    pub created_at: u64,
}

/// The list of all collections.
pub struct ListCollectionsResponse {
    pub collections: Vec<CollectionInfo>,
}

/// Names the collection that a request is for; none means the default one.
pub struct CollectionQuery {
    pub collection: Option<String>,
}

} // verus!
