//! Named collections: independent stores, each with its own dimension,
//! kept in one registry.

use vstd::prelude::*;
use vstd::string::StringExecFns;
use std::collections::HashMap;
use crate::bulk::apply_all;
use crate::memory::{Entry, StoreView, VectorStore};
use crate::models::{requests_view, BulkInsertResponse, CollectionInfo, InsertRequest};
use crate::types::{metadata_view, Embedding, Metric, StoreError};

verus! {

/// A named store with its dimension and the time of its creation, in
/// seconds since the Unix epoch.
pub struct Collection {
    pub name: String,
    pub dimension: usize,
    pub created_at: u64,
    pub store: VectorStore,
}

/// A collection as a mathematical value.
pub struct CollectionView {
    pub dimension: nat,
    pub created_at: u64,
    pub store: StoreView,
}

impl View for Collection {
    type V = CollectionView;

    open spec fn view(&self) -> CollectionView {
        CollectionView {
            dimension: self.dimension as nat,
            created_at: self.created_at,
            store: self.store@,
        }
    }
}

impl Collection {
    /// The collection's store is well-formed and has the collection's
    /// dimension.
    pub open spec fn wf(&self) -> bool {
        &&& self.store.wf()
        &&& self.store.dim == self.dimension
    }

    /// Creates an empty collection.
    pub fn new(name: String, dimension: usize, created_at: u64) -> (c: Collection)
        ensures
            c.wf(),
            c.name == name,
            c@ == (CollectionView {
                dimension: dimension as nat,
                created_at,
                store: StoreView::empty(dimension as nat),
            }),
    {
        Collection { name, dimension, created_at, store: VectorStore::new(dimension) }
    }

    /// The collection's name, dimension, size and time of creation.
    pub fn info(&self) -> (info: CollectionInfo)
        ensures
            info.name@ == self.name@,
            info.dimension == self.dimension,
            info.num_vectors == self@.store.entries.len(),
            info.created_at == self.created_at,
    {
        CollectionInfo {
            name: self.name.clone(),
            dimension: self.dimension,
            num_vectors: self.store.len(),
            created_at: self.created_at,
        }
    }
}

/// Why the registry refused an operation.
#[derive(Debug)]
pub enum CollectionError {
    /// A collection of this name exists already.
    AlreadyExists(String),
    /// No collection has this name.
    NotFound(String),
}

impl CollectionError {
    /// The text of this error.
    pub open spec fn spec_message(self) -> Seq<char> {
        match self {
            CollectionError::AlreadyExists(name) => "Collection '"@ + name@ + "' already exists"@,
            CollectionError::NotFound(name) => "Collection '"@ + name@ + "' not found"@,
        }
    }

    /// The message shown to a caller, naming the collection.
    pub fn message(&self) -> (text: String)
        ensures
            text@ == self.spec_message(),
    {
        match self {
            CollectionError::AlreadyExists(name) => "Collection '".to_owned().concat(
                name.as_str(),
            ).concat("' already exists"),
            CollectionError::NotFound(name) => "Collection '".to_owned().concat(
                name.as_str(),
            ).concat("' not found"),
        }
    }
}

/// Writing into one collection leaves every other collection as it was.
/// Where a registry differs from an earlier one only in what it holds
/// under `name`, every other collection is the same in both: the same
/// dimension, time of creation and store, so that looking a document up in
/// it and searching it give what they gave before.
pub proof fn lemma_collections_isolated(
    before: &CollectionManager,
    after: &CollectionManager,
    name: Seq<char>,
    other: Seq<char>,
)
    requires
        before.wf(),
        after@ == before@.insert(name, after@[name]),
        other != name,
        before@.contains_key(other),
    ensures
        after@.contains_key(other),
        after.at(other).name@ == other,
        after.at(other)@ == before.at(other)@,
        forall|id: Seq<char>|
            after.at(other).store@.contains(id) == before.at(other).store@.contains(id),
        forall|id: Seq<char>|
            before.at(other).store@.contains(id) ==> after.at(other).store@.entries[after.at(
                other,
            ).store@.position(id)] == before.at(other).store@.entries[before.at(
                other,
            ).store@.position(id)],
        forall|scores: Seq<u32>, k: nat, metric: Metric|
            after.at(other).store@.hits(scores, k, metric) == before.at(other).store@.hits(
                scores,
                k,
                metric,
            ),
{
    assert(after@.contains_key(other));
    assert(after@[other] == before@[other]);
    assert(after.has(other));
    assert(before.has(other));
}

/// Why a write into a named collection failed.
#[derive(Debug)]
pub enum InsertError {
    /// The collection does not exist.
    Collection(CollectionError),
    /// The collection's store refused the write.
    Store(StoreError),
}

impl InsertError {
    /// The text of this error.
    pub open spec fn spec_message(self) -> Seq<char> {
        match self {
            InsertError::Collection(e) => e.spec_message(),
            InsertError::Store(e) => e.spec_message(),
        }
    }

    /// The message shown to a caller.
    pub fn message(&self) -> (text: String)
        ensures
            text@ == self.spec_message(),
    {
        match self {
            InsertError::Collection(e) => e.message(),
            InsertError::Store(e) => e.message(),
        }
    }
}

/// The registry of collections, in the order of their creation.
pub struct CollectionManager {
    pub collections: Vec<Collection>,
}

impl View for CollectionManager {
    type V = Map<Seq<char>, CollectionView>;

    open spec fn view(&self) -> Map<Seq<char>, CollectionView> {
        Map::new(|name: Seq<char>| self.has(name), |name: Seq<char>| self.at(name)@)
    }
}

impl CollectionManager {
    /// Whether a collection of this name is registered.
    pub open spec fn has(&self, name: Seq<char>) -> bool {
        exists|i: int|
            0 <= i < self.collections@.len() && (#[trigger] self.collections@[i]).name@ == name
    }

    /// The position of the collection of this name, where one is
    /// registered.
    pub open spec fn position(&self, name: Seq<char>) -> int {
        choose|i: int|
            0 <= i < self.collections@.len() && (#[trigger] self.collections@[i]).name@ == name
    }

    /// The collection of this name, where one is registered.
    pub open spec fn at(&self, name: Seq<char>) -> Collection {
        self.collections@[self.position(name)]
    }

    /// Every collection is well-formed, and no name occurs twice.
    pub open spec fn wf(&self) -> bool {
        &&& forall|i: int| 0 <= i < self.collections@.len() ==> (#[trigger] self.collections@[i]).wf()
        &&& forall|i: int, j: int|
            0 <= i < j < self.collections@.len() ==> (#[trigger] self.collections@[i]).name@ != (
            #[trigger] self.collections@[j]).name@
    }

    /// In a well-formed registry a collection is found under its name.
    pub proof fn lemma_lookup(&self, i: int)
        requires
            self.wf(),
            0 <= i < self.collections@.len(),
        ensures
            self.has(self.collections@[i].name@),
            self.position(self.collections@[i].name@) == i,
            self@.contains_key(self.collections@[i].name@),
            self@[self.collections@[i].name@] == self.collections@[i]@,
    {
        let name = self.collections@[i].name@;
        let p = self.position(name);
        assert(self.collections@[p].name@ == name);
    }

    /// A registry that is a well-formed one with one more collection, of a
    /// name that was free, is well-formed and holds the new collection
    /// under its name beside all that were there.
    pub proof fn lemma_added(&self, pre: &CollectionManager, added: Collection)
        requires
            pre.wf(),
            added.wf(),
            !pre@.contains_key(added.name@),
            self.collections@ == pre.collections@.push(added),
        ensures
            self.wf(),
            self@ == pre@.insert(added.name@, added@),
    {
        let last = pre.collections@.len() as int;
        assert(self.collections@[last] == added);
        assert forall|i: int, j: int| 0 <= i < j < self.collections@.len() implies (
        #[trigger] self.collections@[i]).name@ != (#[trigger] self.collections@[j]).name@ by {
            assert(self.collections@[i] == pre.collections@[i]);
            if j < last {
                assert(self.collections@[j] == pre.collections@[j]);
            } else {
                pre.lemma_lookup(i);
            }
        }
        assert forall|i: int| 0 <= i < self.collections@.len() implies (
        #[trigger] self.collections@[i]).wf() by {
            if i < last {
                assert(self.collections@[i] == pre.collections@[i]);
            }
        }
        let target = pre@.insert(added.name@, added@);
        assert forall|k: Seq<char>| #[trigger]
            self@.contains_key(k) == target.contains_key(k) && (self@.contains_key(k) ==> self@[k]
                == target[k]) by {
            if pre.has(k) {
                let p = pre.position(k);
                assert(self.collections@[p] == pre.collections@[p]);
                self.lemma_lookup(p);
            }
            if k == added.name@ {
                self.lemma_lookup(last);
            }
            if self.has(k) {
                let p = self.position(k);
                if p < last {
                    assert(self.collections@[p] == pre.collections@[p]);
                    pre.lemma_lookup(p);
                }
            }
        }
        assert(self@ =~= target);
    }

    /// Creates a registry without collections.
    pub fn new() -> (manager: CollectionManager)
        ensures
            manager.wf(),
            manager@ == Map::<Seq<char>, CollectionView>::empty(),
    {
        let manager = CollectionManager { collections: Vec::new() };
        assert(manager@ =~= Map::<Seq<char>, CollectionView>::empty());
        manager
    }

    fn find(&self, name: &str) -> (r: Option<usize>)
        requires
            self.wf(),
        ensures
            r is Some == self.has(name@),
            r is Some ==> r->Some_0 == self.position(name@) && r->Some_0 < self.collections@.len(),
    {
        let wanted: String = name.to_owned();
        let n: usize = self.collections.len();
        let mut i: usize = 0;
        while i < n
            invariant
                self.wf(),
                n == self.collections@.len(),
                0 <= i <= n,
                wanted@ == name@,
                forall|j: int| 0 <= j < i ==> (#[trigger] self.collections@[j]).name@ != name@,
            decreases n - i,
        {
            if self.collections[i].name == wanted {
                proof {
                    self.lemma_lookup(i as int);
                }
                return Some(i);
            }
            i = i + 1;
        }
        None
    }

    /// Registers an empty collection. A name that is taken is refused and
    /// the registry is left as it was.
    pub fn create_collection(&mut self, name: String, dimension: usize, created_at: u64) -> (r:
        Result<(), CollectionError>)
        requires
            old(self).wf(),
        ensures
            final(self).wf(),
            match r {
                Ok(_) => !old(self)@.contains_key(name@) && final(self)@ == old(self)@.insert(
                    name@,
                    CollectionView {
                        dimension: dimension as nat,
                        created_at,
                        store: StoreView::empty(dimension as nat),
                    },
                ),
                Err(e) => old(self)@.contains_key(name@) && e == CollectionError::AlreadyExists(
                    name,
                ) && *final(self) == *old(self),
            },
    {
        if self.find(name.as_str()).is_some() {
            return Err(CollectionError::AlreadyExists(name));
        }
        let ghost pre = *self;
        let collection = Collection::new(name.clone(), dimension, created_at);
        self.collections.push(collection);
        proof {
            self.lemma_added(&pre, collection);
        }
        Ok(())
    }

    /// Looks a collection up by name.
    pub fn get_collection(&self, name: &str) -> (r: Option<&Collection>)
        requires
            self.wf(),
        ensures
            r is Some == self@.contains_key(name@),
            r is Some ==> {
                &&& *r->Some_0 == self.at(name@)
                &&& r->Some_0@ == self@[name@]
                &&& r->Some_0.name@ == name@
                &&& r->Some_0.wf()
            },
    {
        match self.find(name) {
            Some(i) => Some(&self.collections[i]),
            None => None,
        }
    }

    /// Hands out a collection for writing. The registry afterwards holds
    /// whatever the caller left in it, at the same position; keeping the
    /// name distinct and the store well-formed is then the caller's part.
    pub fn get_collection_mut(&mut self, name: &str) -> (r: Option<&mut Collection>)
        requires
            old(self).wf(),
        ensures
            r is Some == old(self)@.contains_key(name@),
            r is Some ==> {
                &&& *r->Some_0 == old(self).at(name@)
                &&& final(self).collections@ == old(self).collections@.update(
                    old(self).position(name@),
                    *final(r->Some_0),
                )
            },
            r is None ==> *final(self) == *old(self),
    {
        match self.find(name) {
            Some(i) => Some(&mut self.collections[i]),
            None => None,
        }
    }

    /// Tells whether a collection of this name is registered.
    pub fn collection_exists(&self, name: &str) -> (r: bool)
        requires
            self.wf(),
        ensures
            r == self@.contains_key(name@),
    {
        self.find(name).is_some()
    }

    /// Lists all collections, in the order of their creation.
    pub fn list_collections(&self) -> (list: Vec<&Collection>)
        ensures
            list@.len() == self.collections@.len(),
            forall|i: int| 0 <= i < list@.len() ==> *(#[trigger] list@[i]) == self.collections@[i],
    {
        let mut list: Vec<&Collection> = Vec::new();
        let n: usize = self.collections.len();
        let mut i: usize = 0;
        while i < n
            invariant
                n == self.collections@.len(),
                0 <= i <= n,
                list@.len() == i,
                forall|j: int| 0 <= j < i ==> *(#[trigger] list@[j]) == self.collections@[j],
            decreases n - i,
        {
            list.push(&self.collections[i]);
            i = i + 1;
        }
        list
    }

    /// Removes a collection and its store. A name that is not registered
    /// is refused.
    pub fn delete_collection(&mut self, name: &str) -> (r: Result<(), CollectionError>)
        requires
            old(self).wf(),
        ensures
            final(self).wf(),
            match r {
                Ok(_) => old(self)@.contains_key(name@) && final(self)@ == old(self)@.remove(name@),
                Err(e) => !old(self)@.contains_key(name@) && e is NotFound && e->NotFound_0@
                    == name@ && *final(self) == *old(self),
            },
    {
        match self.find(name) {
            None => Err(CollectionError::NotFound(name.to_owned())),
            Some(i) => {
                let ghost pre = *self;
                let _ = self.collections.remove(i);
                proof {
                    assert(self.wf());
                    assert forall|k: Seq<char>| #[trigger]
                        self@.contains_key(k) == pre@.remove(name@).contains_key(k) && (
                        self@.contains_key(k) ==> self@[k] == pre@.remove(name@)[k]) by {
                        if pre.has(k) && k != name@ {
                            let p = pre.position(k);
                            let q = if p < i { p } else { p - 1 };
                            assert(self.collections@[q] == pre.collections@[p]);
                            self.lemma_lookup(q);
                        }
                        if self.has(k) {
                            let q = self.position(k);
                            let p = if q < i { q } else { q + 1 };
                            assert(self.collections@[q] == pre.collections@[p]);
                            pre.lemma_lookup(p);
                            pre.lemma_lookup(i as int);
                        }
                    }
                    assert(self@ =~= pre@.remove(name@));
                }
                Ok(())
            },
        }
    }

    /// Registers a loaded store under a name, in place of any collection
    /// that had the name. The collection takes the store's dimension.
    pub fn install(&mut self, name: String, store: VectorStore, created_at: u64)
        requires
            old(self).wf(),
            store.wf(),
        ensures
            final(self).wf(),
            final(self)@ == old(self)@.insert(
                name@,
                CollectionView { dimension: store.dim as nat, created_at, store: store@ },
            ),
    {
        let _ = self.delete_collection(name.as_str());
        let ghost pre = *self;
        let dimension: usize = store.dim;
        let collection = Collection { name, dimension, created_at, store };
        self.collections.push(collection);
        proof {
            self.lemma_added(&pre, collection);
            assert(pre@.insert(name@, collection@) =~= old(self)@.insert(name@, collection@));
        }
    }

    /// Writes a vector into the named collection. Only that collection
    /// changes, and it changes as its store does.
    pub fn insert(
        &mut self,
        name: &str,
        id: String,
        vector: Embedding,
        norm: u32,
        metadata: HashMap<String, String>,
    ) -> (r: Result<(), InsertError>)
        requires
            old(self).wf(),
        ensures
            final(self).wf(),
            match r {
                Ok(_) => {
                    &&& old(self)@.contains_key(name@)
                    &&& vector@.len() == old(self)@[name@].dimension
                    &&& final(self)@ == old(self)@.insert(
                        name@,
                        CollectionView {
                            store: old(self)@[name@].store.upsert(
                                Entry {
                                    id: id@,
                                    vector: vector@,
                                    norm,
                                    metadata: metadata_view(metadata),
                                },
                            ),
                            ..old(self)@[name@]
                        },
                    )
                },
                Err(InsertError::Collection(e)) => {
                    &&& !old(self)@.contains_key(name@)
                    &&& e is NotFound
                    &&& e->NotFound_0@ == name@
                    &&& *final(self) == *old(self)
                },
                Err(InsertError::Store(e)) => {
                    &&& old(self)@.contains_key(name@)
                    &&& vector@.len() != old(self)@[name@].dimension
                    &&& e == (StoreError::DimensionMismatch {
                        expected: old(self).at(name@).dimension,
                        actual: vector@.len() as usize,
                    })
                    &&& final(self)@ == old(self)@
                },
            },
    {
        match self.find(name) {
            None => Err(InsertError::Collection(CollectionError::NotFound(name.to_owned()))),
            Some(i) => {
                let ghost pre = *self;
                proof {
                    pre.lemma_lookup(i as int);
                }
                let r = self.collections[i].store.insert(id, vector, norm, metadata);
                proof {
                    self.lemma_changed_at(&pre, i as int);
                }
                match r {
                    Ok(_) => Ok(()),
                    Err(e) => Err(InsertError::Store(e)),
                }
            },
        }
    }

    /// Writes a list of items into the named collection, each on its own.
    /// Only that collection changes.
    pub fn bulk_insert(&mut self, name: &str, items: &Vec<InsertRequest>) -> (r: Result<
        BulkInsertResponse,
        CollectionError,
    >)
        requires
            old(self).wf(),
        ensures
            final(self).wf(),
            match r {
                Ok(response) => {
                    &&& old(self)@.contains_key(name@)
                    &&& final(self)@ == old(self)@.insert(
                        name@,
                        CollectionView {
                            store: apply_all(old(self)@[name@].store, requests_view(items@)),
                            ..old(self)@[name@]
                        },
                    )
                    &&& response.status@ == "ok"@
                    &&& response.inserted == crate::bulk::accepted_count(
                        old(self)@[name@].dimension,
                        requests_view(items@),
                    )
                    &&& crate::models::errors_view(response.errors@) == crate::bulk::rejections(
                        old(self).at(name@).dimension,
                        requests_view(items@),
                    )
                },
                Err(e) => {
                    &&& !old(self)@.contains_key(name@)
                    &&& e is NotFound
                    &&& e->NotFound_0@ == name@
                    &&& *final(self) == *old(self)
                },
            },
    {
        match self.find(name) {
            None => Err(CollectionError::NotFound(name.to_owned())),
            Some(i) => {
                let ghost pre = *self;
                proof {
                    pre.lemma_lookup(i as int);
                }
                let response = self.collections[i].store.bulk_insert(items);
                proof {
                    pre.collections@[i as int].store.lemma_view_wf();
                    crate::bulk::lemma_apply_all_wf(
                        pre.collections@[i as int].store@,
                        requests_view(items@),
                    );
                    self.lemma_changed_at(&pre, i as int);
                }
                Ok(response)
            },
        }
    }

    /// A registry that differs from a well-formed one only in the store of
    /// one collection, which kept its dimension, differs from it only
    /// under that collection's name.
    pub proof fn lemma_changed_at(&self, pre: &CollectionManager, i: int)
        requires
            pre.wf(),
            0 <= i < pre.collections@.len(),
            self.collections@.len() == pre.collections@.len(),
            forall|j: int|
                0 <= j < pre.collections@.len() && j != i ==> self.collections@[j]
                    == pre.collections@[j],
            self.collections@[i].name == pre.collections@[i].name,
            self.collections@[i].dimension == pre.collections@[i].dimension,
            self.collections@[i].created_at == pre.collections@[i].created_at,
            self.collections@[i].store.wf(),
            self.collections@[i].store.dim == pre.collections@[i].store.dim,
        ensures
            self.wf(),
            self@ == pre@.insert(pre.collections@[i].name@, self.collections@[i]@),
            forall|other: Seq<char>|
                other != pre.collections@[i].name@ && pre@.contains_key(other)
                    ==> self@.contains_key(other) && self@[other] == pre@[other],
    {
        let name = pre.collections@[i].name@;
        assert forall|a: int, b: int| 0 <= a < b < self.collections@.len() implies (
        #[trigger] self.collections@[a]).name@ != (#[trigger] self.collections@[b]).name@ by {
            assert(self.collections@[a].name@ == pre.collections@[a].name@);
            assert(self.collections@[b].name@ == pre.collections@[b].name@);
        }
        assert forall|j: int| 0 <= j < self.collections@.len() implies (
        #[trigger] self.collections@[j]).wf() by {
            if j != i {
                assert(pre.collections@[j].wf());
            } else {
                assert(pre.collections@[i].wf());
            }
        }
        let target = pre@.insert(name, self.collections@[i]@);
        assert forall|k: Seq<char>| #[trigger]
            self@.contains_key(k) == target.contains_key(k) && (self@.contains_key(k) ==> self@[k]
                == target[k]) by {
            if pre.has(k) {
                let p = pre.position(k);
                assert(self.collections@[p].name@ == pre.collections@[p].name@);
                self.lemma_lookup(p);
                pre.lemma_lookup(p);
            }
            if self.has(k) {
                let p = self.position(k);
                assert(self.collections@[p].name@ == pre.collections@[p].name@);
                pre.lemma_lookup(p);
                self.lemma_lookup(p);
            }
            pre.lemma_lookup(i);
            self.lemma_lookup(i);
        }
        assert(self@ =~= target);
    }
}

} // verus!
