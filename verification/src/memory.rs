//! The in-memory vector store: a flat arena of fixed-dimension vectors, a
//! cached norm per vector, the document table and the identifier index.

use vstd::prelude::*;
use vstd::hash_map::StringHashMap;
use std::collections::HashMap;
use crate::types::{metadata_view, Document, Embedding, Metric, StoreError};
use crate::rank::{
    comes_before,
    lemma_best_comes_first,
    lemma_ranking_arranges,
    positions,
    rank_top,
    top_ranked,
};
use crate::score::all_comparable;

verus! {

/// One stored vector as a mathematical value. The components of the
/// vector and the norm are bit patterns of binary32 values.
pub struct Entry {
    pub id: Seq<char>,
    pub vector: Seq<u32>,
    pub norm: u32,
    pub metadata: Map<Seq<char>, Seq<char>>,
}

/// A store as a mathematical value: its dimension and its entries in
/// insertion order.
pub struct StoreView {
    pub dim: nat,
    pub entries: Seq<Entry>,
}

impl StoreView {
    /// The empty store of dimension `dim`.
    pub open spec fn empty(dim: nat) -> StoreView {
        StoreView { dim, entries: Seq::<Entry>::empty() }
    }

    /// Whether an entry with this identifier is stored.
    pub open spec fn contains(self, id: Seq<char>) -> bool {
        exists|i: int| 0 <= i < self.entries.len() && (#[trigger] self.entries[i]).id == id
    }

    /// The position of the entry with this identifier, where one is stored.
    pub open spec fn position(self, id: Seq<char>) -> int {
        choose|i: int| 0 <= i < self.entries.len() && (#[trigger] self.entries[i]).id == id
    }

    /// Every vector has the store's dimension, and no identifier occurs
    /// twice.
    pub open spec fn wf(self) -> bool {
        &&& forall|i: int|
            0 <= i < self.entries.len() ==> (#[trigger] self.entries[i]).vector.len() == self.dim
        &&& forall|i: int, j: int|
            0 <= i < j < self.entries.len() ==> (#[trigger] self.entries[i]).id != (
            #[trigger] self.entries[j]).id
    }

    /// The store after writing `e`: an entry with the same identifier is
    /// replaced where it stands, a new one is appended.
    pub open spec fn upsert(self, e: Entry) -> StoreView {
        if self.contains(e.id) {
            StoreView { dim: self.dim, entries: self.entries.update(self.position(e.id), e) }
        } else {
            StoreView { dim: self.dim, entries: self.entries.push(e) }
        }
    }

    /// What a search reports for a table of one score per entry: the first
    /// `k` entries of the ranking, each with its identifier and score.
    pub open spec fn hits(self, scores: Seq<u32>, k: nat, metric: Metric) -> Seq<(Seq<char>, u32)> {
        let top = top_ranked(scores, metric, k);
        Seq::new(top.len(), |p: int| (self.entries[top[p]].id, scores[top[p]]))
    }
}

/// Search results as mathematical values.
pub open spec fn hits_view(hits: Seq<(String, u32)>) -> Seq<(Seq<char>, u32)> {
    Seq::new(hits.len(), |p: int| (hits[p].0@, hits[p].1))
}

/// The columnar store. `vectors` holds the chunks back to back, `norms` one
/// cached norm per chunk, `docs` the documents, and `id_to_index` the
/// position of each identifier.
pub struct VectorStore {
    pub vectors: Vec<u32>,
    pub norms: Vec<u32>,
    pub id_to_index: StringHashMap<usize>,
    pub docs: Vec<Document>,
    pub dim: usize,
}

proof fn lemma_chunk_bounds(i: int, n: int, d: int)
    requires
        0 <= i < n,
        0 <= d,
    ensures
        0 <= i * d,
        i * d + d <= n * d,
        i * d + d == (i + 1) * d,
{
    assert(0 <= i * d && i * d + d <= n * d && i * d + d == (i + 1) * d) by (nonlinear_arith)
        requires
            0 <= i < n,
            0 <= d,
    ;
}

/// After a write the written entry is the one found under its identifier,
/// and still no identifier occurs twice.
pub proof fn lemma_upsert_found(s: StoreView, e: Entry)
    requires
        s.wf(),
    ensures
        s.upsert(e).contains(e.id),
        s.upsert(e).entries[s.upsert(e).position(e.id)] == e,
        forall|i: int, j: int|
            0 <= i < j < s.upsert(e).entries.len() ==> (#[trigger] s.upsert(e).entries[i]).id != (
            #[trigger] s.upsert(e).entries[j]).id,
{
    let t = s.upsert(e);
    let p = if s.contains(e.id) {
        s.position(e.id)
    } else {
        s.entries.len() as int
    };
    assert(t.entries[p] == e);
    assert forall|i: int, j: int| 0 <= i < j < t.entries.len() implies (#[trigger] t.entries[i]).id
        != (#[trigger] t.entries[j]).id by {
        if i != p {
            assert(t.entries[i].id == s.entries[i].id);
        }
        if j != p {
            assert(t.entries[j].id == s.entries[j].id);
        }
    }
    let q = t.position(e.id);
    assert(t.entries[q].id == e.id);
    if q != p {
        assert(t.entries[p].id == t.entries[q].id);
    }
}

/// Writing an entry keeps a store well-formed, provided the vector has the
/// store's dimension.
pub proof fn lemma_upsert_wf(s: StoreView, e: Entry)
    requires
        s.wf(),
        e.vector.len() == s.dim,
    ensures
        s.upsert(e).wf(),
{
    lemma_upsert_found(s, e);
    let t = s.upsert(e);
    assert forall|i: int| 0 <= i < t.entries.len() implies (#[trigger] t.entries[i]).vector.len()
        == t.dim by {
        if t.entries[i] != e {
            assert(t.entries[i] == s.entries[i]);
        }
    }
}

/// Writing the same entry twice leaves the store as writing it once did:
/// the number of entries, every vector, every norm and every document stay
/// as they were after the first write.
pub proof fn lemma_upsert_idempotent(s: StoreView, e: Entry)
    requires
        s.wf(),
    ensures
        s.upsert(e).upsert(e) == s.upsert(e),
{
    let t = s.upsert(e);
    lemma_upsert_found(s, e);
    let q = t.position(e.id);
    assert(t.entries.update(q, e) =~= t.entries);
}

/// A search reports first the entry with the best score, and among equal
/// scores the one written first: where no score is a NaN and position `x`
/// is to be reported before every other, the first result is the
/// identifier at `x` with its score.
pub proof fn lemma_search_finds_best(s: StoreView, scores: Seq<u32>, k: nat, metric: Metric, x: int)
    requires
        scores.len() == s.entries.len(),
        k >= 1,
        all_comparable(scores),
        0 <= x < scores.len(),
        forall|y: int| 0 <= y < scores.len() && y != x ==> comes_before(scores, metric, x, y),
    ensures
        s.hits(scores, k, metric).len() >= 1,
        s.hits(scores, k, metric)[0] == (s.entries[x].id, scores[x]),
{
    lemma_best_comes_first(scores, metric, scores.len(), x);
    lemma_ranking_arranges(scores, metric, 0, scores.len() as int);
}

/// Two well-formed stores with the same entries are the same in every
/// part: arena, norm cache, documents and identifier index.
pub proof fn lemma_same_entries_same_store(a: &VectorStore, b: &VectorStore)
    requires
        a.wf(),
        b.wf(),
        a@ == b@,
    ensures
        a.dim == b.dim,
        a.vectors@ == b.vectors@,
        a.norms@ == b.norms@,
        a.docs@.len() == b.docs@.len(),
        forall|i: int|
            0 <= i < a.docs@.len() ==> (#[trigger] a.docs@[i]).id@ == b.docs@[i].id@
                && metadata_view(a.docs@[i].metadata) == metadata_view(b.docs@[i].metadata),
        a.id_to_index@ == b.id_to_index@,
{
    let n = a.docs@.len() as int;
    let d = a.dim as int;
    assert(a@.entries.len() == a.docs@.len());
    assert(b@.entries.len() == b.docs@.len());
    assert(a@.dim == b@.dim);
    assert forall|i: int| 0 <= i < n implies a.entry(i) == b.entry(i) by {
        assert(a@.entries[i] == a.entry(i));
        assert(b@.entries[i] == b.entry(i));
    }
    assert(a.vectors@.len() == b.vectors@.len());
    assert forall|p: int| 0 <= p < a.vectors@.len() implies a.vectors@[p] == b.vectors@[p] by {
        assert(d > 0) by (nonlinear_arith)
            requires
                0 <= p < n * d,
                0 <= d,
        ;
        let i = p / d;
        let r = p % d;
        assert(p == i * d + r && 0 <= r < d && 0 <= i < n) by (nonlinear_arith)
            requires
                0 <= p < n * d,
                d > 0,
                i == p / d,
                r == p % d,
        ;
        lemma_chunk_bounds(i, n, d);
        assert(a.entry(i).vector == b.entry(i).vector);
        assert(a.vectors@.subrange(i * d, i * d + d)[r] == a.vectors@[p]);
        assert(b.vectors@.subrange(i * d, i * d + d)[r] == b.vectors@[p]);
    }
    assert(a.vectors@ =~= b.vectors@);
    assert forall|i: int| 0 <= i < n implies a.norms@[i] == b.norms@[i] by {
        assert(a.entry(i).norm == b.entry(i).norm);
    }
    assert(a.norms@ =~= b.norms@);
    assert forall|i: int| 0 <= i < n implies (#[trigger] a.docs@[i]).id@ == b.docs@[i].id@
        && metadata_view(a.docs@[i].metadata) == metadata_view(b.docs@[i].metadata) by {
        assert(a.entry(i) == b.entry(i));
    }
    assert forall|k: Seq<char>|
        a.id_to_index@.contains_key(k) == b.id_to_index@.contains_key(k) && (
        a.id_to_index@.contains_key(k) ==> a.id_to_index@[k] == b.id_to_index@[k]) by {
        if a.id_to_index@.contains_key(k) {
            let p = a.id_to_index@[k] as int;
            assert(b.docs@[p].id@ == k);
        }
        if b.id_to_index@.contains_key(k) {
            let p = b.id_to_index@[k] as int;
            assert(a.docs@[p].id@ == k);
        }
    }
    assert(a.id_to_index@ =~= b.id_to_index@);
}

/// Overwrites `arena[start .. start + vector.len()]` with `vector`.
fn overwrite_chunk(arena: &mut Vec<u32>, start: usize, vector: &Vec<u32>)
    requires
        start + vector@.len() <= old(arena)@.len(),
    ensures
        final(arena)@ == old(arena)@.subrange(0, start as int) + vector@ + old(arena)@.subrange(
            start + vector@.len(),
            old(arena)@.len() as int,
        ),
{
    let n: usize = vector.len();
    let mut t: usize = 0;
    while t < n
        invariant
            n == vector@.len(),
            0 <= t <= n,
            start + n <= arena.len(),
            arena@.len() == old(arena)@.len(),
            forall|p: int| 0 <= p < t ==> arena@[start + p] == vector@[p],
            forall|p: int|
                0 <= p < arena@.len() && !(start <= p < start + t) ==> arena@[p] == old(arena)@[p],
        decreases n - t,
    {
        arena.set(start + t, vector[t]);
        t = t + 1;
    }
    assert(arena@ =~= old(arena)@.subrange(0, start as int) + vector@ + old(arena)@.subrange(
        start + vector@.len(),
        old(arena)@.len() as int,
    ));
}

impl View for VectorStore {
    type V = StoreView;

    open spec fn view(&self) -> StoreView {
        StoreView {
            dim: self.dim as nat,
            entries: Seq::new(self.docs@.len(), |i: int| self.entry(i)),
        }
    }
}

impl VectorStore {
    /// The entry at position `i`.
    pub open spec fn entry(&self, i: int) -> Entry {
        Entry {
            id: self.docs@[i].id@,
            vector: self.vectors@.subrange(i * self.dim, i * self.dim + self.dim),
            norm: self.norms@[i],
            metadata: metadata_view(self.docs@[i].metadata),
        }
    }

    /// The store's invariant: the arena holds one chunk of `dim` scalars per
    /// document, the norm cache one norm per document, and the identifier
    /// index maps exactly the stored identifiers, each to its position.
    pub open spec fn wf(&self) -> bool {
        &&& self.vectors@.len() == self.docs@.len() * self.dim
        &&& self.norms@.len() == self.docs@.len()
        &&& forall|i: int|
            0 <= i < self.docs@.len() ==> self.id_to_index@.contains_key(
                (#[trigger] self.docs@[i]).id@,
            ) && self.id_to_index@[self.docs@[i].id@] == i
        &&& forall|k: Seq<char>| #[trigger]
            self.id_to_index@.contains_key(k) ==> self.id_to_index@[k] < self.docs@.len()
                && self.docs@[self.id_to_index@[k] as int].id@ == k
    }

    /// The view of a well-formed store is well-formed, and its entries are
    /// found through the identifier index.
    pub proof fn lemma_view_wf(&self)
        requires
            self.wf(),
        ensures
            self@.wf(),
            self@.entries.len() == self.docs@.len(),
            forall|id: Seq<char>| self@.contains(id) <==> self.id_to_index@.contains_key(id),
            forall|id: Seq<char>|
                self.id_to_index@.contains_key(id) ==> self@.position(id)
                    == self.id_to_index@[id],
    {
        let v = self@;
        assert forall|i: int| 0 <= i < v.entries.len() implies (#[trigger] v.entries[i]).vector.len()
            == v.dim by {
            lemma_chunk_bounds(i, self.docs@.len() as int, self.dim as int);
        }
        assert forall|i: int, j: int| 0 <= i < j < v.entries.len() implies (
        #[trigger] v.entries[i]).id != (#[trigger] v.entries[j]).id by {
            assert(self.docs@[i].id@ == v.entries[i].id);
            assert(self.docs@[j].id@ == v.entries[j].id);
        }
        assert forall|id: Seq<char>| v.contains(id) <==> self.id_to_index@.contains_key(id) by {
            if v.contains(id) {
                let i = v.position(id);
                assert(self.docs@[i].id@ == id);
            }
            if self.id_to_index@.contains_key(id) {
                let i = self.id_to_index@[id] as int;
                assert(v.entries[i].id == id);
            }
        }
        assert forall|id: Seq<char>| self.id_to_index@.contains_key(id) implies v.position(id)
            == self.id_to_index@[id] by {
            let i = self.id_to_index@[id] as int;
            assert(v.entries[i].id == id);
            let p = v.position(id);
            assert(self.docs@[p].id@ == id);
        }
    }

    /// In a well-formed store the arena holds exactly `dim` scalars per
    /// document and the norm cache exactly one norm per document.
    pub proof fn lemma_dimension_invariant(&self)
        requires
            self.wf(),
        ensures
            self.vectors@.len() == self.docs@.len() * self.dim,
            self.norms@.len() == self.docs@.len(),
            self@.entries.len() == self.docs@.len(),
            forall|i: int|
                0 <= i < self@.entries.len() ==> (#[trigger] self@.entries[i]).vector.len()
                    == self.dim,
    {
        self.lemma_view_wf();
    }

    /// Creates an empty store for vectors of `dim` components.
    pub fn new(dim: usize) -> (store: VectorStore)
        ensures
            store.wf(),
            store@ == StoreView::empty(dim as nat),
    {
        let store = VectorStore {
            vectors: Vec::new(),
            norms: Vec::new(),
            id_to_index: StringHashMap::new(),
            docs: Vec::new(),
            dim,
        };
        assert(store@.entries =~= Seq::<Entry>::empty());
        assert(store.vectors@.len() == store.docs@.len() * store.dim) by (nonlinear_arith)
            requires
                store.vectors@.len() == 0,
                store.docs@.len() == 0,
        ;
        store
    }

    /// The number of stored documents.
    pub fn len(&self) -> (n: usize)
        ensures
            n == self@.entries.len(),
    {
        self.docs.len()
    }

    /// The dimension that every stored vector has.
    pub fn dim(&self) -> (d: usize)
        ensures
            d == self@.dim,
    {
        self.dim
    }

    /// Tells whether a vector of `len` components can be written: `Ok` where
    /// `len` is the store's dimension, else the mismatch with both lengths.
    pub fn check_dimension(&self, len: usize) -> (r: Result<(), StoreError>)
        ensures
            r == (if len == self.dim {
                Ok::<(), StoreError>(())
            } else {
                Err::<(), StoreError>(
                    StoreError::DimensionMismatch { expected: self.dim, actual: len },
                )
            }),
    {
        if len == self.dim {
            Ok(())
        } else {
            Err(StoreError::DimensionMismatch { expected: self.dim, actual: len })
        }
    }

    /// Writes a vector under `id` with its cached `norm` and its metadata.
    ///
    /// A vector of the wrong length is refused and the store is left as it
    /// was. Otherwise an entry with the same identifier is overwritten where
    /// it stands (vector, norm and metadata replaced), and a new identifier
    /// is appended at the end.
    pub fn insert(
        &mut self,
        id: String,
        vector: Embedding,
        norm: u32,
        metadata: HashMap<String, String>,
    ) -> (r: Result<(), StoreError>)
        requires
            old(self).wf(),
        ensures
            final(self).wf(),
            r == old(self).check_dimension_spec(vector@.len()),
            r.is_err() ==> *final(self) == *old(self),
            r.is_ok() ==> final(self)@ == old(self)@.upsert(
                Entry { id: id@, vector: vector@, norm, metadata: metadata_view(metadata) },
            ),
    {
        if vector.len() != self.dim {
            return Err(StoreError::DimensionMismatch { expected: self.dim, actual: vector.len() });
        }
        let ghost e = Entry { id: id@, vector: vector@, norm, metadata: metadata_view(metadata) };
        let ghost pre = *self;
        proof {
            self.lemma_view_wf();
        }
        let found: Option<usize> = match self.id_to_index.get(id.as_str()) {
            Some(index) => Some(*index),
            None => None,
        };
        match found {
            Some(index) => {
                proof {
                    lemma_chunk_bounds(index as int, self.docs@.len() as int, self.dim as int);
                    assert(index * self.dim + self.dim <= self.vectors.len());
                }
                let start: usize = index * self.dim;
                overwrite_chunk(&mut self.vectors, start, &vector);
                self.norms.set(index, norm);
                self.docs.set(index, Document { id, metadata });
                proof {
                    let n = pre.docs@.len() as int;
                    let d = self.dim as int;
                    assert forall|i: int| 0 <= i < n implies #[trigger] self.entry(i) == (if i
                        == index {
                        e
                    } else {
                        pre.entry(i)
                    }) by {
                        lemma_chunk_bounds(i, n, d);
                        if i < index {
                            lemma_chunk_bounds(i, index as int, d);
                        } else if i > index {
                            lemma_chunk_bounds(index as int, i, d);
                        }
                        assert(self.vectors@.subrange(i * d, i * d + d) =~= (if i == index {
                            vector@
                        } else {
                            pre.vectors@.subrange(i * d, i * d + d)
                        }));
                    }
                    assert(self@.entries =~= pre@.entries.update(index as int, e));
                    assert(self.wf());
                }
            },
            None => {
                let index: usize = self.docs.len();
                let ghost n = index as int;
                let ghost d = self.dim as int;
                self.vectors.extend_from_slice(vector.as_slice());
                self.norms.push(norm);
                self.docs.push(Document { id: id.clone(), metadata });
                self.id_to_index.insert(id, index);
                proof {
                    assert(self.vectors@ =~= pre.vectors@ + vector@);
                    assert((n + 1) * d == n * d + d) by (nonlinear_arith);
                    assert forall|i: int| 0 <= i <= n implies #[trigger] self.entry(i) == (if i
                        == n {
                        e
                    } else {
                        pre.entry(i)
                    }) by {
                        if i < n {
                            lemma_chunk_bounds(i, n, d);
                        }
                        assert(self.vectors@.subrange(i * d, i * d + d) =~= (if i == n {
                            vector@
                        } else {
                            pre.vectors@.subrange(i * d, i * d + d)
                        }));
                    }
                    assert(self@.entries =~= pre@.entries.push(e));
                    assert forall|i: int| 0 <= i < self.docs@.len() implies self.id_to_index@.contains_key(
                        (#[trigger] self.docs@[i]).id@,
                    ) && self.id_to_index@[self.docs@[i].id@] == i by {
                        if i < n {
                            assert(self.docs@[i] == pre.docs@[i]);
                        }
                    }
                    assert(self.wf());
                }
            },
        }
        Ok(())
    }

    /// What `check_dimension` returns for a vector of `len` components.
    pub open spec fn check_dimension_spec(&self, len: nat) -> Result<(), StoreError> {
        if len == self.dim {
            Ok(())
        } else {
            Err(StoreError::DimensionMismatch { expected: self.dim, actual: len as usize })
        }
    }

    /// Looks a document up by its identifier. The vector is not part of the
    /// answer: see `get_vector`.
    pub fn get(&self, id: &str) -> (r: Option<&Document>)
        requires
            self.wf(),
        ensures
            r.is_some() == self@.contains(id@),
            r.is_some() ==> {
                &&& r.unwrap().id@ == id@
                &&& metadata_view(r.unwrap().metadata) == self@.entries[self@.position(id@)].metadata
                &&& *r.unwrap() == self.docs@[self@.position(id@)]
            },
    {
        proof {
            self.lemma_view_wf();
        }
        match self.id_to_index.get(id) {
            Some(index) => Some(&self.docs[*index]),
            None => None,
        }
    }

    /// Copies out the vector at position `index`.
    pub fn chunk(&self, index: usize) -> (out: Embedding)
        requires
            self.wf(),
            index < self.docs@.len(),
        ensures
            out@ == self@.entries[index as int].vector,
    {
        proof {
            lemma_chunk_bounds(index as int, self.docs@.len() as int, self.dim as int);
            assert(index * self.dim + self.dim <= self.vectors.len());
        }
        let start: usize = index * self.dim;
        let mut out: Vec<u32> = Vec::new();
        let mut t: usize = 0;
        while t < self.dim
            invariant
                0 <= t <= self.dim,
                start + self.dim <= self.vectors.len(),
                out@ == self.vectors@.subrange(start as int, start + t),
            decreases self.dim - t,
        {
            out.push(self.vectors[start + t]);
            t = t + 1;
            assert(out@ =~= self.vectors@.subrange(start as int, start + t));
        }
        out
    }

    /// Copies out the vector stored under an identifier.
    pub fn get_vector(&self, id: &str) -> (r: Option<Embedding>)
        requires
            self.wf(),
        ensures
            r.is_some() == self@.contains(id@),
            r.is_some() ==> r.unwrap()@ == self@.entries[self@.position(id@)].vector,
    {
        proof {
            self.lemma_view_wf();
        }
        match self.id_to_index.get(id) {
            Some(index) => Some(self.chunk(*index)),
            None => None,
        }
    }

    /// Ranks the stored documents for a query, given the score of the query
    /// against each stored vector (`scores[i]` for the vector at position
    /// `i`), and reports the best `k` with their scores.
    ///
    /// A query whose length is not the store's dimension yields no results,
    /// and so does a score table that does not hold one score per document.
    /// Larger scores come first for cosine and dot product, smaller ones for
    /// Euclidean distance; documents whose scores rank as equals keep their
    /// insertion order, and a NaN ranks as equal to every score.
    pub fn search(&self, query: &[u32], scores: &[u32], k: usize, metric: Metric) -> (hits: Vec<
        (String, u32),
    >)
        requires
            self.wf(),
        ensures
            query@.len() != self@.dim || scores@.len() != self@.entries.len() ==> hits@.len() == 0,
            query@.len() == self@.dim && scores@.len() == self@.entries.len() ==> hits_view(hits@)
                == self@.hits(scores@, k as nat, metric),
    {
        let mut hits: Vec<(String, u32)> = Vec::new();
        if query.len() != self.dim || scores.len() != self.docs.len() {
            return hits;
        }
        let top: Vec<usize> = rank_top(scores, metric, k);
        let ghost t = positions(top@);
        let mut p: usize = 0;
        while p < top.len()
            invariant
                0 <= p <= top@.len(),
                scores@.len() == self.docs@.len(),
                t == positions(top@),
                forall|i: int| 0 <= i < top@.len() ==> #[trigger] top@[i] < scores@.len(),
                hits@.len() == p,
                hits_view(hits@) =~= Seq::new(
                    p as nat,
                    |q: int| (self@.entries[t[q]].id, scores@[t[q]]),
                ),
            decreases top@.len() - p,
        {
            let idx: usize = top[p];
            let ghost shown = hits_view(hits@);
            hits.push((self.docs[idx].id.clone(), scores[idx]));
            p = p + 1;
            assert(hits_view(hits@) =~= shown.push((self@.entries[idx as int].id, scores@[idx as int])));
        }
        assert(hits_view(hits@) =~= self@.hits(scores@, k as nat, metric));
        hits
    }
}

} // verus!
