//! Writing a list of entries to a store, each on its own: an entry that
//! the store refuses is reported and does not stop the others. Replaying a
//! log is the same operation.

use vstd::prelude::*;
use vstd::slice::slice_to_vec;
use std::collections::HashMap;
use crate::codec::decoded_entry;
use crate::memory::{
    lemma_same_entries_same_store,
    lemma_upsert_wf,
    Entry,
    StoreView,
    VectorStore,
};
use crate::wal::{
    all_fit,
    decode_prefix,
    frames,
    is_torn,
    lemma_entries_round_trip,
    records,
    INSERT_TAG,
};
use crate::models::{errors_view, requests_view, BulkInsertError, BulkInsertResponse, InsertRequest};
use crate::types::{dimension_mismatch_text, lemma_text_map_empty, metadata_view};

verus! {

/// The store after one write: unchanged where the vector's length is not
/// the store's dimension.
pub open spec fn apply_one(s: StoreView, e: Entry) -> StoreView {
    if e.vector.len() == s.dim {
        s.upsert(e)
    } else {
        s
    }
}

/// The store after a list of writes, applied in order.
pub open spec fn apply_all(s: StoreView, items: Seq<Entry>) -> StoreView
    decreases items.len(),
{
    if items.len() == 0 {
        s
    } else {
        apply_one(apply_all(s, items.drop_last()), items.last())
    }
}

/// How many of the entries have the dimension `dim`.
pub open spec fn accepted_count(dim: nat, items: Seq<Entry>) -> nat
    decreases items.len(),
{
    if items.len() == 0 {
        0
    } else {
        accepted_count(dim, items.drop_last()) + (if items.last().vector.len() == dim {
            1nat
        } else {
            0nat
        })
    }
}

/// The identifier and the error message of each entry that does not have
/// the dimension `dim`, in order.
pub open spec fn rejections(dim: usize, items: Seq<Entry>) -> Seq<(Seq<char>, Seq<char>)>
    decreases items.len(),
{
    if items.len() == 0 {
        Seq::<(Seq<char>, Seq<char>)>::empty()
    } else if items.last().vector.len() == dim {
        rejections(dim, items.drop_last())
    } else {
        rejections(dim, items.drop_last()).push(
            (
                items.last().id,
                dimension_mismatch_text(dim, items.last().vector.len() as usize),
            ),
        )
    }
}

/// A list of writes keeps a store well-formed and does not change its
/// dimension.
pub proof fn lemma_apply_all_wf(s: StoreView, items: Seq<Entry>)
    requires
        s.wf(),
    ensures
        apply_all(s, items).wf(),
        apply_all(s, items).dim == s.dim,
    decreases items.len(),
{
    if items.len() > 0 {
        lemma_apply_all_wf(s, items.drop_last());
        let mid = apply_all(s, items.drop_last());
        if items.last().vector.len() == mid.dim {
            lemma_upsert_wf(mid, items.last());
        }
    }
}

/// Every entry is either written or reported: the two counts add up to the
/// number of entries.
pub proof fn lemma_accepted_and_rejected(dim: usize, items: Seq<Entry>)
    ensures
        accepted_count(dim as nat, items) + rejections(dim, items).len() == items.len(),
    decreases items.len(),
{
    if items.len() > 0 {
        lemma_accepted_and_rejected(dim, items.drop_last());
    }
}

/// A list in which exactly one entry has the wrong dimension has all the
/// others written and exactly that one reported, under its identifier.
pub proof fn lemma_single_rejection(dim: usize, items: Seq<Entry>, bad: int)
    requires
        0 <= bad < items.len(),
        items[bad].vector.len() != dim,
        forall|i: int| 0 <= i < items.len() && i != bad ==> (#[trigger] items[i]).vector.len() == dim,
    ensures
        accepted_count(dim as nat, items) == items.len() - 1,
        rejections(dim, items).len() == 1,
        rejections(dim, items)[0].0 == items[bad].id,
    decreases items.len(),
{
    let front = items.drop_last();
    if bad == items.len() - 1 {
        lemma_none_rejected(dim, front);
    } else {
        lemma_single_rejection(dim, front, bad);
    }
}

proof fn lemma_none_rejected(dim: usize, items: Seq<Entry>)
    requires
        forall|i: int| 0 <= i < items.len() ==> (#[trigger] items[i]).vector.len() == dim,
    ensures
        accepted_count(dim as nat, items) == items.len(),
        rejections(dim, items).len() == 0,
    decreases items.len(),
{
    if items.len() > 0 {
        lemma_none_rejected(dim, items.drop_last());
    }
}

/// Replaying a log gives the store that the writes gave. Where the payloads
/// of the log's records decode to the written entries, the entries read
/// back from the log (with or without a torn record at its end), each with
/// the norm of its vector, bring a store of the same dimension to the same
/// state as the writes did: the same documents, vectors and norms.
pub proof fn lemma_replay_equivalence(
    start: StoreView,
    written: Seq<Entry>,
    payloads: Seq<Seq<u8>>,
    tail: Seq<u8>,
    replayed: Seq<Entry>,
)
    requires
        payloads.len() == written.len(),
        all_fit(payloads),
        forall|i: int|
            0 <= i < written.len() ==> decoded_entry(#[trigger] payloads[i]) == Some(
                (INSERT_TAG, written[i].id, written[i].vector, written[i].metadata),
            ),
        tail.len() == 0 || is_torn(tail),
        replayed.len() == decode_prefix(records(frames(payloads) + tail)).len(),
        forall|i: int|
            0 <= i < replayed.len() ==> {
                let fields = decode_prefix(records(frames(payloads) + tail))[i];
                #[trigger] replayed[i] == (Entry {
                    id: fields.1,
                    vector: fields.2,
                    norm: written[i].norm,
                    metadata: fields.3,
                })
            },
    ensures
        replayed == written,
        apply_all(start, replayed) == apply_all(start, written),
{
    let fields = Seq::new(
        written.len(),
        |i: int| (INSERT_TAG, written[i].id, written[i].vector, written[i].metadata),
    );
    lemma_entries_round_trip(fields, payloads, tail);
    assert(replayed =~= written);
}

/// A store that took a sequence of writes and a store of the same
/// dimension that took the entries read back from the log of those writes
/// are the same in every part: arena, norm cache, documents and identifier
/// index.
pub proof fn lemma_replayed_store_is_identical(
    direct: &VectorStore,
    restored: &VectorStore,
    start: StoreView,
    written: Seq<Entry>,
    payloads: Seq<Seq<u8>>,
    tail: Seq<u8>,
    replayed: Seq<Entry>,
)
    requires
        direct.wf(),
        restored.wf(),
        direct@ == apply_all(start, written),
        restored@ == apply_all(start, replayed),
        payloads.len() == written.len(),
        all_fit(payloads),
        forall|i: int|
            0 <= i < written.len() ==> decoded_entry(#[trigger] payloads[i]) == Some(
                (INSERT_TAG, written[i].id, written[i].vector, written[i].metadata),
            ),
        tail.len() == 0 || is_torn(tail),
        replayed.len() == decode_prefix(records(frames(payloads) + tail)).len(),
        forall|i: int|
            0 <= i < replayed.len() ==> {
                let fields = decode_prefix(records(frames(payloads) + tail))[i];
                #[trigger] replayed[i] == (Entry {
                    id: fields.1,
                    vector: fields.2,
                    norm: written[i].norm,
                    metadata: fields.3,
                })
            },
    ensures
        restored@ == direct@,
        restored.vectors@ == direct.vectors@,
        restored.norms@ == direct.norms@,
        restored.docs@.len() == direct.docs@.len(),
        forall|i: int|
            0 <= i < restored.docs@.len() ==> (#[trigger] restored.docs@[i]).id@
                == direct.docs@[i].id@ && metadata_view(restored.docs@[i].metadata)
                == metadata_view(direct.docs@[i].metadata),
        restored.id_to_index@ == direct.id_to_index@,
{
    lemma_replay_equivalence(start, written, payloads, tail, replayed);
    lemma_same_entries_same_store(restored, direct);
}

/// A run of single writes is a list of writes: writing one more entry to
/// a store that took a list gives the store that took the longer list.
pub proof fn lemma_apply_all_push(s: StoreView, items: Seq<Entry>, e: Entry)
    ensures
        apply_all(s, items.push(e)) == apply_one(apply_all(s, items), e),
        e.vector.len() == s.dim && s.wf() ==> apply_all(s, items.push(e)) == apply_all(
            s,
            items,
        ).upsert(e),
{
    assert(items.push(e).drop_last() =~= items);
    if s.wf() {
        lemma_apply_all_wf(s, items);
    }
}

impl VectorStore {
    /// Writes each item in turn. An item whose vector has the wrong length
    /// is reported with its identifier and the error's message, and the
    /// others are written all the same: nothing is rolled back.
    pub fn bulk_insert(&mut self, items: &Vec<InsertRequest>) -> (response: BulkInsertResponse)
        requires
            old(self).wf(),
        ensures
            final(self).wf(),
            final(self)@ == apply_all(old(self)@, requests_view(items@)),
            response.status@ == "ok"@,
            response.inserted == accepted_count(old(self)@.dim, requests_view(items@)),
            errors_view(response.errors@) == rejections(old(self).dim, requests_view(items@)),
    {
        let mut inserted: usize = 0;
        let mut errors: Vec<BulkInsertError> = Vec::new();
        let n: usize = items.len();
        let ghost all = requests_view(items@);
        let ghost start = self@;
        let ghost dim = self.dim;
        let mut i: usize = 0;
        assert(all.subrange(0, 0) =~= Seq::<Entry>::empty());
        while i < n
            invariant
                n == items@.len(),
                all == requests_view(items@),
                0 <= i <= n,
                self.wf(),
                self.dim == dim,
                self@ == apply_all(start, all.subrange(0, i as int)),
                inserted == accepted_count(dim as nat, all.subrange(0, i as int)),
                inserted <= i,
                errors_view(errors@) == rejections(dim, all.subrange(0, i as int)),
            decreases n - i,
        {
            let item: &InsertRequest = &items[i];
            let metadata: HashMap<String, String> = match &item.metadata {
                Some(m) => m.clone(),
                None => {
                    proof {
                        lemma_text_map_empty();
                    }
                    HashMap::new()
                },
            };
            let vector: Vec<u32> = slice_to_vec(item.vector.as_slice());
            let ghost before = self@;
            proof {
                let next = all.subrange(0, i + 1);
                assert(next.drop_last() =~= all.subrange(0, i as int));
                assert(next.last() == items@[i as int].entry());
            }
            match self.insert(item.id.clone(), vector, item.norm, metadata) {
                Ok(_) => {
                    inserted = inserted + 1;
                },
                Err(e) => {
                    let ghost shown = errors_view(errors@);
                    errors.push(BulkInsertError { id: item.id.clone(), error: e.message() });
                    assert(errors_view(errors@) =~= shown.push(
                        (item.id@, dimension_mismatch_text(dim, item.vector@.len() as usize)),
                    ));
                },
            }
            i = i + 1;
        }
        assert(all.subrange(0, n as int) =~= all);
        BulkInsertResponse { status: "ok".to_owned(), inserted, errors }
    }
}

} // verus!
