//! The write-ahead log's record format.
//!
//! A log is a run of records, each an 8-byte little-endian length followed
//! by that many payload bytes. Reading stops at the first record that is
//! not complete: a torn tail is what a crash in the middle of an append
//! leaves behind, and it is dropped without complaint.

use vstd::prelude::*;
use vstd::bytes::{
    lemma_auto_spec_u64_to_from_le_bytes,
    spec_u64_from_le_bytes,
    spec_u64_to_le_bytes,
    u64_from_le_bytes,
    u64_to_le_bytes,
};
use vstd::slice::slice_subrange;
use std::collections::HashMap;
use crate::codec::{decoded_entry, deserialize_entry, error_text, serialize_entry, EntryFields};
use crate::memory::{Entry, VectorStore};
use crate::models::InsertRequest;
use crate::types::{metadata_view, Embedding, StoreError};

verus! {

/// The number of bytes of a record's length prefix.
pub const PREFIX_LEN: usize = 8;

/// One record: the payload behind its length prefix.
pub open spec fn frame(payload: Seq<u8>) -> Seq<u8> {
    spec_u64_to_le_bytes(payload.len() as u64) + payload
}

/// A log that holds these payloads, one record each, in order.
pub open spec fn frames(payloads: Seq<Seq<u8>>) -> Seq<u8>
    decreases payloads.len(),
{
    if payloads.len() == 0 {
        Seq::<u8>::empty()
    } else {
        frame(payloads.first()) + frames(payloads.drop_first())
    }
}

/// The payloads of the complete records at the start of a log.
pub open spec fn records(log: Seq<u8>) -> Seq<Seq<u8>>
    decreases log.len(),
{
    if log.len() < PREFIX_LEN {
        Seq::<Seq<u8>>::empty()
    } else {
        let n = spec_u64_from_le_bytes(log.subrange(0, PREFIX_LEN as int)) as int;
        if log.len() - PREFIX_LEN < n {
            Seq::<Seq<u8>>::empty()
        } else {
            seq![log.subrange(PREFIX_LEN as int, PREFIX_LEN + n)] + records(
                log.subrange(PREFIX_LEN + n, log.len() as int),
            )
        }
    }
}

/// Whether every payload is short enough for its length to fit the prefix.
pub open spec fn all_fit(payloads: Seq<Seq<u8>>) -> bool {
    forall|i: int| 0 <= i < payloads.len() ==> (#[trigger] payloads[i]).len() <= u64::MAX
}

/// Whether `tail` is the beginning of a record that was not written to its
/// end: a proper prefix of the record of some payload.
pub open spec fn is_torn(tail: Seq<u8>) -> bool {
    exists|payload: Seq<u8>|
        payload.len() <= u64::MAX && tail.len() < (#[trigger] frame(payload)).len() && tail
            =~= frame(payload).subrange(0, tail.len() as int)
}

/// The payloads of a vector of byte strings.
pub open spec fn payloads_view(v: Seq<Vec<u8>>) -> Seq<Seq<u8>> {
    Seq::new(v.len(), |i: int| v[i]@)
}

/// A record in front of a log is read first, and the rest after it.
pub proof fn lemma_records_frame(payload: Seq<u8>, rest: Seq<u8>)
    requires
        payload.len() <= u64::MAX,
    ensures
        records(frame(payload) + rest) == seq![payload] + records(rest),
{
    lemma_auto_spec_u64_to_from_le_bytes();
    let log = frame(payload) + rest;
    let prefix = spec_u64_to_le_bytes(payload.len() as u64);
    assert(log.subrange(0, PREFIX_LEN as int) =~= prefix);
    let n = payload.len() as int;
    assert(log.subrange(PREFIX_LEN as int, PREFIX_LEN + n) =~= payload);
    assert(log.subrange(PREFIX_LEN + n, log.len() as int) =~= rest);
}

/// A torn record holds no complete record.
pub proof fn lemma_records_torn(tail: Seq<u8>)
    requires
        is_torn(tail),
    ensures
        records(tail) == Seq::<Seq<u8>>::empty(),
{
    lemma_auto_spec_u64_to_from_le_bytes();
    if tail.len() >= PREFIX_LEN {
        let payload = choose|payload: Seq<u8>|
            payload.len() <= u64::MAX && tail.len() < (#[trigger] frame(payload)).len() && tail
                =~= frame(payload).subrange(0, tail.len() as int);
        let prefix = spec_u64_to_le_bytes(payload.len() as u64);
        assert(tail.subrange(0, PREFIX_LEN as int) =~= prefix);
    }
}

/// Reading a log gives back the payloads that were appended, in order, and
/// a torn record at the end is dropped: all complete records before it are
/// still read.
pub proof fn lemma_log_round_trip(payloads: Seq<Seq<u8>>, tail: Seq<u8>)
    requires
        all_fit(payloads),
        tail.len() == 0 || is_torn(tail),
    ensures
        records(frames(payloads) + tail) == payloads,
    decreases payloads.len(),
{
    if payloads.len() == 0 {
        assert(frames(payloads) + tail =~= tail);
        if tail.len() > 0 {
            lemma_records_torn(tail);
        }
        assert(payloads =~= Seq::<Seq<u8>>::empty());
    } else {
        let first = payloads.first();
        let others = payloads.drop_first();
        assert(all_fit(others)) by {
            assert forall|i: int| 0 <= i < others.len() implies (#[trigger] others[i]).len()
                <= u64::MAX by {
                assert(others[i] == payloads[i + 1]);
            }
        }
        lemma_log_round_trip(others, tail);
        lemma_records_frame(first, frames(others) + tail);
        assert(frames(payloads) + tail =~= frame(first) + (frames(others) + tail));
        assert(seq![first] + others =~= payloads);
    }
}

/// A log with one more payload is the log so far with that payload's
/// record appended.
pub proof fn lemma_frames_push(payloads: Seq<Seq<u8>>, payload: Seq<u8>)
    ensures
        frames(payloads.push(payload)) == frames(payloads) + frame(payload),
    decreases payloads.len(),
{
    if payloads.len() == 0 {
        let one = payloads.push(payload);
        assert(one.first() == payload);
        assert(one.drop_first() =~= Seq::<Seq<u8>>::empty());
        assert(frames(one.drop_first()) =~= Seq::<u8>::empty());
        assert(frames(payloads) =~= Seq::<u8>::empty());
        assert(frames(one) =~= frames(payloads) + frame(payload));
    } else {
        lemma_frames_push(payloads.drop_first(), payload);
        assert(payloads.push(payload).drop_first() =~= payloads.drop_first().push(payload));
        assert(frames(payloads.push(payload)) =~= frames(payloads) + frame(payload));
    }
}

/// Builds the record for a payload: the bytes to append to the log.
pub fn encode_record(payload: &[u8]) -> (record: Vec<u8>)
    ensures
        record@ == frame(payload@),
{
    let n: usize = payload.len();
    let mut record: Vec<u8> = u64_to_le_bytes(n as u64);
    record.extend_from_slice(payload);
    assert(record@ =~= frame(payload@));
    record
}

/// Reads the payloads of all complete records of a log, in order, and stops
/// without failing at the first record that is cut short.
pub fn read_records(log: &[u8]) -> (payloads: Vec<Vec<u8>>)
    ensures
        payloads_view(payloads@) == records(log@),
{
    let mut payloads: Vec<Vec<u8>> = Vec::new();
    let total: usize = log.len();
    let mut pos: usize = 0;
    assert(log@.subrange(0, total as int) =~= log@);
    let mut complete: bool = total >= PREFIX_LEN;
    while complete
        invariant
            total == log@.len(),
            0 <= pos <= total,
            complete ==> total - pos >= PREFIX_LEN,
            records(log@) == payloads_view(payloads@) + records(
                log@.subrange(pos as int, total as int),
            ),
            !complete ==> records(log@.subrange(pos as int, total as int)) == Seq::<
                Seq<u8>,
            >::empty(),
        decreases total - pos + (if complete { 1int } else { 0int }),
    {
        let ghost rest = log@.subrange(pos as int, total as int);
        let n: u64 = u64_from_le_bytes(slice_subrange(log, pos, pos + PREFIX_LEN));
        assert(rest.subrange(0, PREFIX_LEN as int) =~= log@.subrange(
            pos as int,
            pos + PREFIX_LEN,
        ));
        let room: usize = total - pos - PREFIX_LEN;
        if (room as u64) < n {
            complete = false;
        } else {
            let start: usize = pos + PREFIX_LEN;
            let end: usize = start + (n as usize);
            let payload: Vec<u8> = vstd::slice::slice_to_vec(slice_subrange(log, start, end));
            proof {
                assert(rest.subrange(PREFIX_LEN as int, PREFIX_LEN + n) =~= payload@);
                assert(rest.subrange(PREFIX_LEN + n, rest.len() as int) =~= log@.subrange(
                    end as int,
                    total as int,
                ));
                assert(payloads_view(payloads@.push(payload)) =~= payloads_view(payloads@)
                    + seq![payload@]);
            }
            payloads.push(payload);
            pos = end;
            complete = total - pos >= PREFIX_LEN;
        }
    }
    proof {
        assert(payloads_view(payloads@) + Seq::<Seq<u8>>::empty() =~= payloads_view(payloads@));
    }
    payloads
}

/// The tag that marks an encoded entry as an insert.
pub const INSERT_TAG: u32 = 0;

/// A logged operation. Every write, new or overwriting, is an `Insert`.
pub enum WalEntry {
    Insert { id: String, vector: Embedding, metadata: HashMap<String, String> },
}

/// Why an entry could not be turned into a record.
#[derive(Debug)]
pub enum WalError {
    /// The encoder reported an error; the text is its message. On an entry
    /// it reports none.
    Encode(String),
}

impl WalEntry {
    /// The four encoded fields of the entry.
    pub open spec fn fields(&self) -> EntryFields {
        match self {
            WalEntry::Insert { id, vector, metadata } => (
                INSERT_TAG,
                id@,
                vector@,
                metadata_view(*metadata),
            ),
        }
    }

    /// Turns a replayed entry into the write that it stands for, with the
    /// norm of its vector.
    pub fn into_request(self, norm: u32) -> (request: InsertRequest)
        ensures
            request.entry() == (Entry {
                id: self.fields().1,
                vector: self.fields().2,
                norm,
                metadata: self.fields().3,
            }),
    {
        match self {
            WalEntry::Insert { id, vector, metadata } => InsertRequest {
                id,
                vector,
                norm,
                metadata: Some(metadata),
            },
        }
    }
}

/// The fields of a list of entries.
pub open spec fn entries_view(entries: Seq<WalEntry>) -> Seq<EntryFields> {
    Seq::new(entries.len(), |i: int| entries[i].fields())
}

/// The entry that decoded fields stand for: they count only under the
/// insert tag.
pub open spec fn accepted(fields: Option<EntryFields>) -> Option<EntryFields> {
    match fields {
        Some(f) => if f.0 == INSERT_TAG {
            Some(f)
        } else {
            None
        },
        None => None,
    }
}

/// The entries of a run of payloads, up to the first payload that does not
/// decode to an entry.
pub open spec fn decode_prefix(payloads: Seq<Seq<u8>>) -> Seq<EntryFields>
    decreases payloads.len(),
{
    if payloads.len() == 0 {
        Seq::<EntryFields>::empty()
    } else {
        match accepted(decoded_entry(payloads.first())) {
            Some(f) => seq![f] + decode_prefix(payloads.drop_first()),
            None => Seq::<EntryFields>::empty(),
        }
    }
}

/// Builds the record for an entry: the bytes to append to the log. Every
/// entry has a record, and the record frames a payload that decodes back
/// to the entry.
pub fn encode_entry(entry: &WalEntry) -> (r: Result<Vec<u8>, WalError>)
    ensures
        r is Ok,
        exists|payload: Seq<u8>|
            r->Ok_0@ == frame(payload) && #[trigger] decoded_entry(payload) == Some(
                entry.fields(),
            ),
{
    match entry {
        WalEntry::Insert { id, vector, metadata } => {
            match serialize_entry(INSERT_TAG, id, vector, metadata) {
                Ok(payload) => {
                    let record = encode_record(payload.as_slice());
                    assert(decoded_entry(payload@) == Some(entry.fields()));
                    Ok(record)
                },
                Err(e) => Err(WalError::Encode(error_text(&e))),
            }
        },
    }
}

/// Why a write could not be logged.
#[derive(Debug)]
pub enum LogError {
    /// The store would refuse the write, so it is not logged.
    Store(StoreError),
    /// The encoder reported an error. On an entry it reports none.
    Wal(WalError),
}

/// Builds the record that must be appended to the log before `entry` is
/// written to `store`. A write that the store would refuse gets no record:
/// the refusal comes back instead, and nothing is to be logged. Every other
/// write gets its record.
pub fn record_for_insert(store: &VectorStore, entry: &WalEntry) -> (r: Result<Vec<u8>, LogError>)
    ensures
        r is Ok == (entry.fields().2.len() == store.dim),
        r is Ok ==> exists|payload: Seq<u8>|
            r->Ok_0@ == frame(payload) && #[trigger] decoded_entry(payload) == Some(
                entry.fields(),
            ),
        r is Err ==> r->Err_0 is Store && r->Err_0->Store_0 == (StoreError::DimensionMismatch {
            expected: store.dim,
            actual: entry.fields().2.len() as usize,
        }),
{
    let len: usize = match entry {
        WalEntry::Insert { id, vector, metadata } => vector.len(),
    };
    match store.check_dimension(len) {
        Err(e) => Err(LogError::Store(e)),
        Ok(_) => match encode_entry(entry) {
            Ok(record) => Ok(record),
            Err(e) => Err(LogError::Wal(e)),
        },
    }
}

/// Makes an entry of four decoded fields: an insert under the insert tag,
/// nothing under any other tag.
pub fn entry_from_fields(
    tag: u32,
    id: String,
    vector: Embedding,
    metadata: HashMap<String, String>,
) -> (r: Option<WalEntry>)
    ensures
        r is Some == (tag == INSERT_TAG),
        r is Some ==> r->Some_0.fields() == (tag, id@, vector@, metadata_view(metadata)),
{
    if tag == INSERT_TAG {
        Some(WalEntry::Insert { id, vector, metadata })
    } else {
        None
    }
}

/// Decodes one payload. A payload that does not decode, or that carries an
/// unknown tag, gives nothing.
pub fn decode_entry(payload: &[u8]) -> (r: Option<WalEntry>)
    ensures
        match r {
            Some(entry) => accepted(decoded_entry(payload@)) == Some(entry.fields()),
            None => accepted(decoded_entry(payload@)) is None,
        },
{
    match deserialize_entry(payload) {
        Ok(fields) => entry_from_fields(fields.0, fields.1, fields.2, fields.3),
        Err(_) => None,
    }
}

/// Reads a log: the entries of its complete records, in order, up to the
/// first record that is cut short or does not decode. It never fails.
pub fn read_all(log: &[u8]) -> (entries: Vec<WalEntry>)
    ensures
        entries_view(entries@) == decode_prefix(records(log@)),
{
    let payloads: Vec<Vec<u8>> = read_records(log);
    let mut entries: Vec<WalEntry> = Vec::new();
    let n: usize = payloads.len();
    let ghost all = payloads_view(payloads@);
    let mut i: usize = 0;
    let mut readable: bool = true;
    assert(all.subrange(0, n as int) =~= all);
    while readable && i < n
        invariant
            n == payloads@.len(),
            all == payloads_view(payloads@),
            0 <= i <= n,
            decode_prefix(all) == entries_view(entries@) + (if readable {
                decode_prefix(all.subrange(i as int, n as int))
            } else {
                Seq::<EntryFields>::empty()
            }),
        decreases n - i + (if readable { 1int } else { 0int }),
    {
        let ghost rest = all.subrange(i as int, n as int);
        assert(rest.first() == payloads@[i as int]@);
        assert(rest.drop_first() =~= all.subrange(i + 1, n as int));
        match decode_entry(payloads[i].as_slice()) {
            Some(entry) => {
                assert(entries_view(entries@.push(entry)) =~= entries_view(entries@) + seq![
                    entry.fields(),
                ]);
                entries.push(entry);
                i = i + 1;
            },
            None => {
                readable = false;
            },
        }
    }
    proof {
        if readable {
            assert(all.subrange(n as int, n as int) =~= Seq::<Seq<u8>>::empty());
        }
        assert(entries_view(entries@) + Seq::<EntryFields>::empty() =~= entries_view(entries@));
    }
    entries
}

/// Reading a log gives back the entries that were logged, in order: where
/// each payload decodes to its entry, the log of their records reads as
/// those entries, with or without a torn record behind them.
pub proof fn lemma_entries_round_trip(
    entries: Seq<EntryFields>,
    payloads: Seq<Seq<u8>>,
    tail: Seq<u8>,
)
    requires
        payloads.len() == entries.len(),
        all_fit(payloads),
        forall|i: int|
            0 <= i < entries.len() ==> decoded_entry(#[trigger] payloads[i]) == Some(entries[i])
                && entries[i].0 == INSERT_TAG,
        tail.len() == 0 || is_torn(tail),
    ensures
        decode_prefix(records(frames(payloads) + tail)) == entries,
{
    lemma_log_round_trip(payloads, tail);
    lemma_decode_prefix_all(entries, payloads);
}

proof fn lemma_decode_prefix_all(entries: Seq<EntryFields>, payloads: Seq<Seq<u8>>)
    requires
        payloads.len() == entries.len(),
        forall|i: int|
            0 <= i < entries.len() ==> decoded_entry(#[trigger] payloads[i]) == Some(entries[i])
                && entries[i].0 == INSERT_TAG,
    ensures
        decode_prefix(payloads) == entries,
    decreases payloads.len(),
{
    if payloads.len() == 0 {
        assert(entries =~= Seq::<EntryFields>::empty());
    } else {
        let rest_p = payloads.drop_first();
        let rest_e = entries.drop_first();
        assert forall|i: int| 0 <= i < rest_e.len() implies decoded_entry(#[trigger] rest_p[i])
            == Some(rest_e[i]) && rest_e[i].0 == INSERT_TAG by {
            assert(rest_p[i] == payloads[i + 1]);
            assert(rest_e[i] == entries[i + 1]);
        }
        lemma_decode_prefix_all(rest_e, rest_p);
        assert(payloads.first() == payloads[0]);
        assert(seq![entries[0]] + rest_e =~= entries);
    }
}

} // verus!
