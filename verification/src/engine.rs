//! The operations that the engine offers to the layer above it: each names
//! a collection, or none for the default one, and is answered from that
//! collection alone.

use vstd::prelude::*;
use vstd::string::{StrSliceExecFns, StringExecFns};
use std::collections::HashMap;
use crate::bulk::{accepted_count, apply_all, rejections};
use crate::collection::{
    CollectionError,
    CollectionManager,
    CollectionView,
    InsertError,
};
use crate::memory::{StoreView, VectorStore};
use crate::models::{
    errors_view,
    requests_view,
    BulkInsertRequest,
    BulkInsertResponse,
    CollectionInfo,
    CollectionQuery,
    CreateCollectionRequest,
    DocumentResponse,
    InsertRequest,
    InsertResponse,
    ListCollectionsResponse,
    SearchRequest,
    SearchResult,
    StatsResponse,
};
use crate::rank::{positions, rank_top, top_ranked};
use crate::snapshot::{load_snapshot, restored, save_snapshot, consistent, SnapshotError};
use crate::codec::decoded_snapshot;
use crate::types::{lemma_text_map_empty, metadata_view, Metric, StoreError};

verus! {

/// The number of bytes of one stored scalar.
pub const SCALAR_BYTES: usize = 4;

/// The name of the collection that a query is for.
pub open spec fn resolved(query: &CollectionQuery) -> Seq<char> {
    match query.collection {
        Some(name) => name@,
        None => "default"@,
    }
}

/// The name of the collection that a query is for: the one it names, else
/// "default".
pub fn resolve(query: &CollectionQuery) -> (name: String)
    ensures
        name@ == resolved(query),
{
    match &query.collection {
        Some(name) => name.clone(),
        None => "default".to_owned(),
    }
}

/// The name of the file that holds the snapshot of a collection.
pub open spec fn snapshot_file_name_spec(name: Seq<char>) -> Seq<char> {
    name + ".bin"@
}

/// The name of the file that holds the snapshot of a collection: the
/// collection's name and the extension ".bin".
pub fn snapshot_file_name(name: &str) -> (file: String)
    ensures
        file@ == snapshot_file_name_spec(name@),
{
    name.to_owned().concat(".bin")
}

/// The name of the collection whose snapshot a file of this name holds:
/// the file's name without the extension ".bin". A name that does not end
/// in ".bin", or that is the extension alone, names none.
pub fn collection_name_of_file(file: &str) -> (r: Option<String>)
    ensures
        match r {
            Some(name) => name@.len() > 0 && file@ == snapshot_file_name_spec(name@),
            None => forall|name: Seq<char>|
                name.len() > 0 ==> file@ != #[trigger] snapshot_file_name_spec(name),
        },
{
    proof {
        reveal_strlit(".bin");
    }
    let n: usize = file.unicode_len();
    if n <= 4 {
        return None;
    }
    let stem = file.substring_char(0, n - 4);
    let extension = file.substring_char(n - 4, n);
    if extension.to_owned() == ".bin".to_owned() {
        assert(file@ =~= stem@ + ".bin"@);
        Some(stem.to_owned())
    } else {
        assert forall|name: Seq<char>| name.len() > 0 implies file@
            != #[trigger] snapshot_file_name_spec(name) by {
            if file@ == snapshot_file_name_spec(name) {
                assert(file@.subrange(n - 4, n as int) =~= ".bin"@);
            }
        }
        None
    }
}

/// A collection made ready for saving: its name, the name of its file,
/// and its snapshot.
pub struct CollectionFile {
    pub name: String,
    pub file_name: String,
    pub blob: Result<Vec<u8>, SnapshotError>,
}

/// Why a document could not be reported.
#[derive(Debug)]
pub enum LookupError {
    /// The collection does not exist.
    Collection(CollectionError),
    /// The collection holds no document of this identifier.
    VectorNotFound,
}

/// Search results with their documents, as mathematical values: for each
/// result its identifier, score, vector and metadata.
pub open spec fn results_view(results: Seq<SearchResult>) -> Seq<
    (Seq<char>, u32, Seq<u32>, Map<Seq<char>, Seq<char>>),
> {
    Seq::new(
        results.len(),
        |p: int|
            (results[p].id@, results[p].score, results[p].vector@, metadata_view(results[p].metadata)),
    )
}

impl StoreView {
    /// What a search reports with the documents attached: the first `k`
    /// entries of the ranking, each with its score.
    pub open spec fn detailed_hits(self, scores: Seq<u32>, k: nat, metric: Metric) -> Seq<
        (Seq<char>, u32, Seq<u32>, Map<Seq<char>, Seq<char>>),
    > {
        let top = top_ranked(scores, metric, k);
        Seq::new(
            top.len(),
            |p: int|
                (
                    self.entries[top[p]].id,
                    scores[top[p]],
                    self.entries[top[p]].vector,
                    self.entries[top[p]].metadata,
                ),
        )
    }
}

impl VectorStore {
    /// The store's size: the number of vectors, the dimension, and the
    /// bytes that the vectors take, four per scalar (capped at the largest
    /// number that the machine can hold).
    pub fn stats(&self) -> (stats: StatsResponse)
        requires
            self.wf(),
        ensures
            stats.num_vectors == self@.entries.len(),
            stats.dim == self@.dim,
            stats.mem_bytes_approx == (if self@.entries.len() * self@.dim * 4 <= usize::MAX {
                self@.entries.len() * self@.dim * 4
            } else {
                usize::MAX as nat
            }),
    {
        let scalars: usize = self.vectors.len();
        let mem: usize = match scalars.checked_mul(SCALAR_BYTES) {
            Some(bytes) => bytes,
            None => usize::MAX,
        };
        StatsResponse { num_vectors: self.docs.len(), dim: self.dim, mem_bytes_approx: mem }
    }

    /// Searches as `search` does and attaches to each result the vector
    /// and the metadata stored under its identifier.
    pub fn search_documents(&self, query: &[u32], scores: &[u32], k: usize, metric: Metric) -> (results:
        Vec<SearchResult>)
        requires
            self.wf(),
        ensures
            query@.len() != self@.dim || scores@.len() != self@.entries.len() ==> results@.len()
                == 0,
            query@.len() == self@.dim && scores@.len() == self@.entries.len() ==> results_view(
                results@,
            ) == self@.detailed_hits(scores@, k as nat, metric),
    {
        let mut results: Vec<SearchResult> = Vec::new();
        if query.len() != self.dim || scores.len() != self.docs.len() {
            return results;
        }
        let top: Vec<usize> = rank_top(scores, metric, k);
        let ghost t = positions(top@);
        let mut p: usize = 0;
        while p < top.len()
            invariant
                self.wf(),
                0 <= p <= top@.len(),
                scores@.len() == self.docs@.len(),
                t == positions(top@),
                forall|i: int| 0 <= i < top@.len() ==> #[trigger] top@[i] < scores@.len(),
                results@.len() == p,
                results_view(results@) =~= Seq::new(
                    p as nat,
                    |q: int|
                        (
                            self@.entries[t[q]].id,
                            scores@[t[q]],
                            self@.entries[t[q]].vector,
                            self@.entries[t[q]].metadata,
                        ),
                ),
            decreases top@.len() - p,
        {
            let idx: usize = top[p];
            let doc = &self.docs[idx];
            let ghost shown = results_view(results@);
            let result = SearchResult {
                id: doc.id.clone(),
                score: scores[idx],
                vector: self.chunk(idx),
                metadata: doc.metadata.clone(),
            };
            results.push(result);
            p = p + 1;
            assert(results_view(results@) =~= shown.push(
                (
                    self@.entries[idx as int].id,
                    scores@[idx as int],
                    self@.entries[idx as int].vector,
                    self@.entries[idx as int].metadata,
                ),
            ));
        }
        assert(results_view(results@) =~= self@.detailed_hits(scores@, k as nat, metric));
        results
    }
}

/// Registers the empty collection that the request describes. A name that
/// is taken is refused and the registry is left as it was.
pub fn create_collection(
    manager: &mut CollectionManager,
    request: CreateCollectionRequest,
    created_at: u64,
) -> (r: Result<(), CollectionError>)
    requires
        old(manager).wf(),
    ensures
        final(manager).wf(),
        match r {
            Ok(_) => !old(manager)@.contains_key(request.name@) && final(manager)@ == old(
                manager,
            )@.insert(
                request.name@,
                CollectionView {
                    dimension: request.dimension as nat,
                    created_at,
                    store: StoreView::empty(request.dimension as nat),
                },
            ),
            Err(e) => old(manager)@.contains_key(request.name@) && e
                == CollectionError::AlreadyExists(request.name) && *final(manager) == *old(manager),
        },
{
    manager.create_collection(request.name, request.dimension, created_at)
}

/// Lists every collection with its name, dimension, size and time of
/// creation, in the order of creation.
pub fn list_collections(manager: &CollectionManager) -> (response: ListCollectionsResponse)
    ensures
        response.collections@.len() == manager.collections@.len(),
        forall|i: int|
            0 <= i < response.collections@.len() ==> {
                &&& (#[trigger] response.collections@[i]).name@ == manager.collections@[i].name@
                &&& response.collections@[i].dimension == manager.collections@[i].dimension
                &&& response.collections@[i].num_vectors
                    == manager.collections@[i]@.store.entries.len()
                &&& response.collections@[i].created_at == manager.collections@[i].created_at
            },
{
    let listed = manager.list_collections();
    let mut collections: Vec<CollectionInfo> = Vec::new();
    let n: usize = listed.len();
    let mut i: usize = 0;
    while i < n
        invariant
            n == listed@.len(),
            n == manager.collections@.len(),
            0 <= i <= n,
            collections@.len() == i,
            forall|j: int| 0 <= j < n ==> *(#[trigger] listed@[j]) == manager.collections@[j],
            forall|j: int|
                0 <= j < i ==> {
                    &&& (#[trigger] collections@[j]).name@ == manager.collections@[j].name@
                    &&& collections@[j].dimension == manager.collections@[j].dimension
                    &&& collections@[j].num_vectors == manager.collections@[j]@.store.entries.len()
                    &&& collections@[j].created_at == manager.collections@[j].created_at
                },
        decreases n - i,
    {
        let info = listed[i].info();
        collections.push(info);
        i = i + 1;
    }
    ListCollectionsResponse { collections }
}

/// Writes one vector into the collection that the query names. Absent
/// metadata is empty metadata.
pub fn insert_vector(
    manager: &mut CollectionManager,
    query: &CollectionQuery,
    request: InsertRequest,
) -> (r: Result<InsertResponse, InsertError>)
    requires
        old(manager).wf(),
    ensures
        final(manager).wf(),
        match r {
            Ok(response) => {
                &&& response.status@ == "ok"@
                &&& response.id@ == request.id@
                &&& old(manager)@.contains_key(resolved(query))
                &&& request.vector@.len() == old(manager)@[resolved(query)].dimension
                &&& final(manager)@ == old(manager)@.insert(
                    resolved(query),
                    CollectionView {
                        store: old(manager)@[resolved(query)].store.upsert(request.entry()),
                        ..old(manager)@[resolved(query)]
                    },
                )
            },
            Err(InsertError::Collection(e)) => {
                &&& !old(manager)@.contains_key(resolved(query))
                &&& e is NotFound
                &&& e->NotFound_0@ == resolved(query)
                &&& *final(manager) == *old(manager)
            },
            Err(InsertError::Store(e)) => {
                &&& old(manager)@.contains_key(resolved(query))
                &&& request.vector@.len() != old(manager)@[resolved(query)].dimension
                &&& e == (StoreError::DimensionMismatch {
                    expected: old(manager).at(resolved(query)).dimension,
                    actual: request.vector@.len() as usize,
                })
                &&& final(manager)@ == old(manager)@
            },
        },
{
    let name = resolve(query);
    let id = request.id.clone();
    let metadata: HashMap<String, String> = match request.metadata {
        Some(m) => m,
        None => {
            proof {
                lemma_text_map_empty();
            }
            HashMap::new()
        },
    };
    match manager.insert(name.as_str(), request.id, request.vector, request.norm, metadata) {
        Ok(_) => Ok(InsertResponse { status: "ok".to_owned(), id }),
        Err(e) => Err(e),
    }
}

/// Writes a list of vectors into the collection that the query names,
/// each on its own.
pub fn bulk_insert(
    manager: &mut CollectionManager,
    query: &CollectionQuery,
    request: &BulkInsertRequest,
) -> (r: Result<BulkInsertResponse, CollectionError>)
    requires
        old(manager).wf(),
    ensures
        final(manager).wf(),
        match r {
            Ok(response) => {
                &&& old(manager)@.contains_key(resolved(query))
                &&& final(manager)@ == old(manager)@.insert(
                    resolved(query),
                    CollectionView {
                        store: apply_all(
                            old(manager)@[resolved(query)].store,
                            requests_view(request.items@),
                        ),
                        ..old(manager)@[resolved(query)]
                    },
                )
                &&& response.status@ == "ok"@
                &&& response.inserted == accepted_count(
                    old(manager)@[resolved(query)].dimension,
                    requests_view(request.items@),
                )
                &&& errors_view(response.errors@) == rejections(
                    old(manager).at(resolved(query)).dimension,
                    requests_view(request.items@),
                )
            },
            Err(e) => {
                &&& !old(manager)@.contains_key(resolved(query))
                &&& e is NotFound
                &&& e->NotFound_0@ == resolved(query)
                &&& *final(manager) == *old(manager)
            },
        },
{
    let name = resolve(query);
    manager.bulk_insert(name.as_str(), &request.items)
}

/// Reports the document stored under an identifier in the collection that
/// the query names: its identifier and metadata, not its vector.
pub fn get_vector(manager: &CollectionManager, query: &CollectionQuery, id: &str) -> (r: Result<
    DocumentResponse,
    LookupError,
>)
    requires
        manager.wf(),
    ensures
        match r {
            Ok(response) => {
                &&& manager@.contains_key(resolved(query))
                &&& manager@[resolved(query)].store.contains(id@)
                &&& response.id@ == id@
                &&& metadata_view(response.metadata) == manager@[resolved(query)].store.entries[manager@[resolved(
                    query,
                )].store.position(id@)].metadata
            },
            Err(LookupError::Collection(e)) => {
                &&& !manager@.contains_key(resolved(query))
                &&& e is NotFound
                &&& e->NotFound_0@ == resolved(query)
            },
            Err(LookupError::VectorNotFound) => {
                &&& manager@.contains_key(resolved(query))
                &&& !manager@[resolved(query)].store.contains(id@)
            },
        },
{
    let name = resolve(query);
    match manager.get_collection(name.as_str()) {
        None => Err(LookupError::Collection(CollectionError::NotFound(name))),
        Some(collection) => {
            match collection.store.get(id) {
                Some(doc) => Ok(
                    DocumentResponse { id: doc.id.clone(), metadata: doc.metadata.clone() },
                ),
                None => Err(LookupError::VectorNotFound),
            }
        },
    }
}

/// Reports the size of the collection that the query names.
pub fn get_stats(manager: &CollectionManager, query: &CollectionQuery) -> (r: Result<
    StatsResponse,
    CollectionError,
>)
    requires
        manager.wf(),
    ensures
        match r {
            Ok(stats) => {
                &&& manager@.contains_key(resolved(query))
                &&& stats.num_vectors == manager@[resolved(query)].store.entries.len()
                &&& stats.dim == manager@[resolved(query)].store.dim
                &&& stats.mem_bytes_approx == (if stats.num_vectors * stats.dim * 4 <= usize::MAX {
                    stats.num_vectors * stats.dim * 4
                } else {
                    usize::MAX as int
                })
            },
            Err(e) => {
                &&& !manager@.contains_key(resolved(query))
                &&& e is NotFound
                &&& e->NotFound_0@ == resolved(query)
            },
        },
{
    let name = resolve(query);
    match manager.get_collection(name.as_str()) {
        None => Err(CollectionError::NotFound(name)),
        Some(collection) => Ok(collection.store.stats()),
    }
}

/// Searches the collection that the query names, given the score of the
/// request's vector against each vector of that collection.
pub fn search_vectors(
    manager: &CollectionManager,
    query: &CollectionQuery,
    request: &SearchRequest,
    scores: &[u32],
) -> (r: Result<Vec<SearchResult>, CollectionError>)
    requires
        manager.wf(),
    ensures
        match r {
            Ok(results) => {
                let store = manager@[resolved(query)].store;
                &&& manager@.contains_key(resolved(query))
                &&& (request.vector@.len() != store.dim || scores@.len() != store.entries.len()
                    ==> results@.len() == 0)
                &&& (request.vector@.len() == store.dim && scores@.len() == store.entries.len()
                    ==> results_view(results@) == store.detailed_hits(
                    scores@,
                    request.top_k as nat,
                    request.metric,
                ))
            },
            Err(e) => {
                &&& !manager@.contains_key(resolved(query))
                &&& e is NotFound
                &&& e->NotFound_0@ == resolved(query)
            },
        },
{
    let name = resolve(query);
    match manager.get_collection(name.as_str()) {
        None => Err(CollectionError::NotFound(name)),
        Some(collection) => Ok(
            collection.store.search_documents(
                request.vector.as_slice(),
                scores,
                request.top_k,
                request.metric,
            ),
        ),
    }
}

/// Encodes every collection for saving: for each, in the order of
/// creation, its name, the name of its file and its snapshot.
pub fn save_collections(manager: &CollectionManager) -> (files: Vec<CollectionFile>)
    ensures
        files@.len() == manager.collections@.len(),
        forall|i: int|
            0 <= i < files@.len() ==> {
                &&& (#[trigger] files@[i]).name@ == manager.collections@[i].name@
                &&& files@[i].file_name@ == snapshot_file_name_spec(manager.collections@[i].name@)
                &&& files@[i].blob is Ok
                &&& decoded_snapshot(files@[i].blob->Ok_0@) == Some(
                    manager.collections@[i].store.snapshot_fields(),
                )
            },
{
    let mut files: Vec<CollectionFile> = Vec::new();
    let n: usize = manager.collections.len();
    let mut i: usize = 0;
    while i < n
        invariant
            n == manager.collections@.len(),
            0 <= i <= n,
            files@.len() == i,
            forall|j: int|
                0 <= j < i ==> {
                    &&& (#[trigger] files@[j]).name@ == manager.collections@[j].name@
                    &&& files@[j].file_name@ == snapshot_file_name_spec(
                        manager.collections@[j].name@,
                    )
                    &&& files@[j].blob is Ok
                    &&& decoded_snapshot(files@[j].blob->Ok_0@) == Some(
                        manager.collections@[j].store.snapshot_fields(),
                    )
                },
        decreases n - i,
    {
        let collection = &manager.collections[i];
        let file_name = snapshot_file_name(collection.name.as_str());
        let blob = save_snapshot(&collection.store);
        files.push(CollectionFile { name: collection.name.clone(), file_name, blob });
        i = i + 1;
    }
    files
}

/// Loads a snapshot as the collection of the given name, in place of any
/// collection that had the name. A blob that does not load leaves the
/// registry as it was.
pub fn load_collection(
    manager: &mut CollectionManager,
    name: String,
    blob: &[u8],
    created_at: u64,
) -> (r: Result<(), SnapshotError>)
    requires
        old(manager).wf(),
    ensures
        final(manager).wf(),
        match r {
            Ok(_) => {
                &&& decoded_snapshot(blob@) is Some
                &&& consistent(decoded_snapshot(blob@)->Some_0)
                &&& final(manager)@ == old(manager)@.insert(
                    name@,
                    CollectionView {
                        dimension: decoded_snapshot(blob@)->Some_0.3 as nat,
                        created_at,
                        store: restored(decoded_snapshot(blob@)->Some_0),
                    },
                )
            },
            Err(e) => {
                &&& e is Decode
                &&& (decoded_snapshot(blob@) is None || !consistent(decoded_snapshot(blob@)->Some_0))
                &&& *final(manager) == *old(manager)
            },
        },
{
    match load_snapshot(blob) {
        Ok(store) => {
            manager.install(name, store, created_at);
            Ok(())
        },
        Err(e) => Err(e),
    }
}

} // verus!
