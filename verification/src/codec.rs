//! The binary encoding of log entries and snapshots.
//!
//! Both are written with bincode in its fixed-width little-endian layout. A
//! log entry is a 32-bit variant tag, the identifier, the vector and the
//! metadata; a snapshot is the arena, the norm cache, the documents and the
//! dimension. Scalars travel as their 32-bit patterns, which is the layout
//! of a binary32 value.

use vstd::prelude::*;
use std::collections::HashMap;
use crate::types::{metadata_view, Document};

verus! {

/// The error type of the bincode crate.
#[verifier::external_type_specification]
#[verifier::external_body]
pub struct ExBincodeErrorKind(bincode::ErrorKind);

/// The fields of an encoded log entry: tag, identifier, vector, metadata.
pub type EntryFields = (u32, Seq<char>, Seq<u32>, Map<Seq<char>, Seq<char>>);

/// The fields of an encoded snapshot: arena, norms, documents (identifier
/// and metadata each), dimension.
pub type SnapshotFields = (
    Seq<u32>,
    Seq<u32>,
    Seq<(Seq<char>, Map<Seq<char>, Seq<char>>)>,
    u64,
);

/// What bincode decodes from `bytes` as a log entry, `None` where it
/// reports an error.
pub uninterp spec fn decoded_entry(bytes: Seq<u8>) -> Option<EntryFields>;

/// What bincode decodes from `bytes` as a snapshot, `None` where it reports
/// an error.
pub uninterp spec fn decoded_snapshot(bytes: Seq<u8>) -> Option<SnapshotFields>;

/// The documents of a snapshot as mathematical values.
pub open spec fn docs_view(docs: Seq<Document>) -> Seq<(Seq<char>, Map<Seq<char>, Seq<char>>)> {
    Seq::new(docs.len(), |i: int| (docs[i].id@, metadata_view(docs[i].metadata)))
}

/// Calls `bincode::serialize` on the four fields of a log entry. It
/// succeeds on every entry (the encoder writes to memory without a size
/// limit, and every length is known), and decoding the bytes gives the
/// same four fields back.
#[verifier::external_body]
pub(crate) fn serialize_entry(
    tag: u32,
    id: &String,
    vector: &Vec<u32>,
    metadata: &HashMap<String, String>,
) -> (r: Result<Vec<u8>, Box<bincode::ErrorKind>>)
    ensures
        r is Ok,
        decoded_entry(r->Ok_0@) == Some((tag, id@, vector@, metadata_view(*metadata))),
{
    bincode::serialize(&(tag, id, vector, metadata))
}

/// Calls `bincode::deserialize` for the four fields of a log entry: the
/// result is what the bytes decode to, and an error where they do not
/// decode.
#[verifier::external_body]
pub(crate) fn deserialize_entry(bytes: &[u8]) -> (r: Result<
    (u32, String, Vec<u32>, HashMap<String, String>),
    Box<bincode::ErrorKind>,
>)
    ensures
        match r {
            Ok(fields) => decoded_entry(bytes@) == Some(
                (fields.0, fields.1@, fields.2@, metadata_view(fields.3)),
            ),
            Err(_) => decoded_entry(bytes@) is None,
        },
{
    bincode::deserialize::<(u32, String, Vec<u32>, HashMap<String, String>)>(bytes)
}

/// Calls `bincode::serialize` on the four fields of a snapshot. It
/// succeeds on every store (the encoder writes to memory without a size
/// limit, and every length is known), and decoding the bytes gives the
/// same four fields back.
#[verifier::external_body]
pub(crate) fn serialize_snapshot(
    vectors: &Vec<u32>,
    norms: &Vec<u32>,
    docs: &Vec<Document>,
    dim: u64,
) -> (r: Result<Vec<u8>, Box<bincode::ErrorKind>>)
    ensures
        r is Ok,
        decoded_snapshot(r->Ok_0@) == Some((vectors@, norms@, docs_view(docs@), dim)),
{
    let pairs: Vec<(&String, &HashMap<String, String>)> =
        docs.iter().map(|d| (&d.id, &d.metadata)).collect();
    bincode::serialize(&(vectors, norms, pairs, dim))
}

/// Calls `bincode::deserialize` for the four fields of a snapshot: the
/// result is what the bytes decode to, and an error where they do not
/// decode.
#[verifier::external_body]
pub(crate) fn deserialize_snapshot(bytes: &[u8]) -> (r: Result<
    (Vec<u32>, Vec<u32>, Vec<Document>, u64),
    Box<bincode::ErrorKind>,
>)
    ensures
        match r {
            Ok(fields) => decoded_snapshot(bytes@) == Some(
                (fields.0@, fields.1@, docs_view(fields.2@), fields.3),
            ),
            Err(_) => decoded_snapshot(bytes@) is None,
        },
{
    let (vectors, norms, pairs, dim) = bincode::deserialize::<
        (Vec<u32>, Vec<u32>, Vec<(String, HashMap<String, String>)>, u64),
    >(bytes)?;
    let docs = pairs.into_iter().map(|(id, metadata)| Document { id, metadata }).collect();
    Ok((vectors, norms, docs, dim))
}

/// Renders a bincode error as text, as its `Display` impl writes it.
#[verifier::external_body]
pub(crate) fn error_text(error: &Box<bincode::ErrorKind>) -> (text: String) {
    format!("{}", error)
}

} // verus!
