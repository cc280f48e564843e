use std::collections::HashMap;
use vectordb::memory::VectorStore;
use vectordb::snapshot::{load_snapshot, restore, save_snapshot, SnapshotError};
use vectordb::types::Document;
use vectordb::wal::{decode_entry, encode_entry, encode_record, entry_from_fields, read_all, read_records, WalEntry};

fn bits(v: &[f32]) -> Vec<u32> {
    v.iter().map(|x| x.to_bits()).collect()
}

fn norm(v: &[f32]) -> u32 {
    v.iter().map(|x| x * x).sum::<f32>().sqrt().to_bits()
}

fn entry(id: &str, v: &[f32], pairs: &[(&str, &str)]) -> WalEntry {
    let mut metadata = HashMap::new();
    for (k, val) in pairs {
        metadata.insert(k.to_string(), val.to_string());
    }
    WalEntry::Insert { id: id.to_string(), vector: bits(v), metadata }
}

fn parts(e: &WalEntry) -> (String, Vec<u32>, HashMap<String, String>) {
    match e {
        WalEntry::Insert { id, vector, metadata } => (id.clone(), vector.clone(), metadata.clone()),
    }
}

fn record(e: &WalEntry) -> Vec<u8> {
    match encode_entry(e) {
        Ok(bytes) => bytes,
        Err(_) => panic!("entry did not encode"),
    }
}

#[test]
fn record_is_length_prefix_then_payload() {
    assert_eq!(encode_record(&[]), vec![0, 0, 0, 0, 0, 0, 0, 0]);
    assert_eq!(encode_record(&[7, 9, 11]), vec![3, 0, 0, 0, 0, 0, 0, 0, 7, 9, 11]);
    let long = vec![1u8; 258];
    let rec = encode_record(&long);
    assert_eq!(&rec[..8], &[2, 1, 0, 0, 0, 0, 0, 0]);
    assert_eq!(&rec[8..], &long[..]);
}

#[test]
fn records_are_read_back_in_order() {
    let mut log = Vec::new();
    log.extend(encode_record(&[1, 2, 3]));
    log.extend(encode_record(&[]));
    log.extend(encode_record(&[4]));
    assert_eq!(read_records(&log), vec![vec![1, 2, 3], vec![], vec![4]]);
    assert_eq!(read_records(&[]), Vec::<Vec<u8>>::new());
}

#[test]
fn torn_tail_is_dropped() {
    let mut log = Vec::new();
    log.extend(encode_record(&[1, 2, 3]));
    log.extend(encode_record(&[4, 5]));
    let whole = encode_record(&[6, 7, 8, 9]);
    for cut in 0..whole.len() {
        let mut torn = log.clone();
        torn.extend(&whole[..cut]);
        assert_eq!(read_records(&torn), vec![vec![1, 2, 3], vec![4, 5]]);
    }
    let mut huge = log.clone();
    huge.extend([0xff; 8]);
    huge.extend([1, 2, 3]);
    assert_eq!(read_records(&huge), vec![vec![1, 2, 3], vec![4, 5]]);
}

#[test]
fn entry_record_has_the_fixed_width_layout() {
    let e = entry("ab", &[1.0], &[("k", "v")]);
    let mut expected: Vec<u8> = Vec::new();
    expected.extend(52u64.to_le_bytes());
    expected.extend(0u32.to_le_bytes());
    expected.extend(2u64.to_le_bytes());
    expected.extend(b"ab");
    expected.extend(1u64.to_le_bytes());
    expected.extend(1.0f32.to_le_bytes());
    expected.extend(1u64.to_le_bytes());
    expected.extend(1u64.to_le_bytes());
    expected.extend(b"k");
    expected.extend(1u64.to_le_bytes());
    expected.extend(b"v");
    assert_eq!(record(&e), expected);
}

#[test]
fn log_replays_what_was_appended() {
    let entries = vec![
        entry("a", &[1.0, 0.0], &[("title", "one")]),
        entry("b", &[0.0, 1.0], &[]),
        entry("a", &[0.5, 0.5], &[("title", "two"), ("lang", "en")]),
    ];
    let mut log = Vec::new();
    for e in &entries {
        log.extend(record(e));
    }
    let read = read_all(&log);
    assert_eq!(read.len(), 3);
    for (r, e) in read.iter().zip(entries.iter()) {
        assert_eq!(parts(r), parts(e));
    }

    let mut direct = VectorStore::new(2);
    for e in &entries {
        let (id, v, m) = parts(e);
        let n = norm(&v.iter().map(|b| f32::from_bits(*b)).collect::<Vec<f32>>());
        direct.insert(id, v, n, m).unwrap();
    }
    let mut replayed = VectorStore::new(2);
    let requests: Vec<_> = read
        .into_iter()
        .map(|e| {
            let n = norm(&parts(&e).1.iter().map(|b| f32::from_bits(*b)).collect::<Vec<f32>>());
            e.into_request(n)
        })
        .collect();
    let response = replayed.bulk_insert(&requests);
    assert_eq!(response.inserted, 3);
    assert_eq!(replayed.vectors, direct.vectors);
    assert_eq!(replayed.norms, direct.norms);
    assert_eq!(replayed.docs.len(), direct.docs.len());
    for (a, b) in replayed.docs.iter().zip(direct.docs.iter()) {
        assert_eq!(a.id, b.id);
        assert_eq!(a.metadata, b.metadata);
    }
}

#[test]
fn log_with_short_payload_replays_the_complete_records() {
    let first = entry("a", &[1.0], &[]);
    let second = entry("b", &[2.0], &[("k", "v")]);
    let mut log = record(&first);
    let whole = record(&second);
    log.extend(&whole[..whole.len() - 1]);
    let read = read_all(&log);
    assert_eq!(read.len(), 1);
    assert_eq!(parts(&read[0]), parts(&first));
    let mut only_prefix = record(&first);
    only_prefix.extend(&whole[..8]);
    assert_eq!(read_all(&only_prefix).len(), 1);
}

#[test]
fn undecodable_payload_ends_the_replay() {
    let first = entry("a", &[1.0], &[]);
    let mut log = record(&first);
    log.extend(encode_record(&[1, 2]));
    log.extend(record(&first));
    assert_eq!(read_all(&log).len(), 1);
    assert!(decode_entry(&[1, 2]).is_none());
    let mut unknown_tag = record(&first)[8..].to_vec();
    unknown_tag[0] = 1;
    assert!(decode_entry(&unknown_tag).is_none());
    assert!(decode_entry(&record(&first)[8..]).is_some());
    assert!(entry_from_fields(1, "a".to_string(), vec![], HashMap::new()).is_none());
    assert!(entry_from_fields(0, "a".to_string(), vec![], HashMap::new()).is_some());
}

#[test]
fn snapshot_round_trip_reproduces_the_store() {
    let mut store = VectorStore::new(2);
    let mut metadata = HashMap::new();
    metadata.insert("title".to_string(), "test".to_string());
    store.insert("a".to_string(), bits(&[3.0, 4.0]), norm(&[3.0, 4.0]), metadata.clone()).unwrap();
    store.insert("b".to_string(), bits(&[0.0, 1.0]), norm(&[0.0, 1.0]), HashMap::new()).unwrap();
    let blob = match save_snapshot(&store) {
        Ok(b) => b,
        Err(_) => panic!("snapshot did not encode"),
    };
    let loaded = match load_snapshot(&blob) {
        Ok(s) => s,
        Err(_) => panic!("snapshot did not load"),
    };
    assert_eq!(loaded.vectors, store.vectors);
    assert_eq!(loaded.norms, store.norms);
    assert_eq!(loaded.dim, store.dim);
    assert_eq!(loaded.docs.len(), 2);
    assert_eq!(loaded.docs[0].id, "a");
    assert_eq!(loaded.docs[0].metadata, metadata);
    assert_eq!(loaded.docs[1].id, "b");
    assert_eq!(loaded.get("b").unwrap().id, "b");
    assert_eq!(loaded.get_vector("a").unwrap(), bits(&[3.0, 4.0]));
    assert_eq!(loaded.get_vector("b").unwrap(), bits(&[0.0, 1.0]));
    assert!(loaded.get("c").is_none());
}

#[test]
fn snapshot_has_the_fixed_width_layout() {
    let mut store = VectorStore::new(1);
    store.insert("x".to_string(), bits(&[2.0]), norm(&[2.0]), HashMap::new()).unwrap();
    let mut expected: Vec<u8> = Vec::new();
    expected.extend(1u64.to_le_bytes());
    expected.extend(2.0f32.to_le_bytes());
    expected.extend(1u64.to_le_bytes());
    expected.extend(2.0f32.to_le_bytes());
    expected.extend(1u64.to_le_bytes());
    expected.extend(1u64.to_le_bytes());
    expected.extend(b"x");
    expected.extend(0u64.to_le_bytes());
    expected.extend(1u64.to_le_bytes());
    assert!(matches!(save_snapshot(&store), Ok(b) if b == expected));
}

#[test]
fn corrupt_snapshot_is_a_decoding_error() {
    let mut store = VectorStore::new(2);
    store.insert("a".to_string(), bits(&[3.0, 4.0]), norm(&[3.0, 4.0]), HashMap::new()).unwrap();
    let blob = match save_snapshot(&store) {
        Ok(b) => b,
        Err(_) => panic!("snapshot did not encode"),
    };
    assert!(matches!(load_snapshot(&blob[..blob.len() - 1]), Err(SnapshotError::Decode(_))));
    assert!(matches!(load_snapshot(&[]), Err(SnapshotError::Decode(_))));
    let mut wrong_dim = blob.clone();
    let n = wrong_dim.len();
    wrong_dim[n - 8] = 3;
    assert!(matches!(load_snapshot(&wrong_dim), Err(SnapshotError::Decode(_))));
}

#[test]
fn parts_that_do_not_fit_are_refused() {
    let doc = |id: &str| Document { id: id.to_string(), metadata: HashMap::new() };
    assert!(matches!(restore(vec![1, 2], vec![0], vec![doc("a")], 2), Ok(_)));
    assert!(matches!(restore(vec![1, 2, 3], vec![0], vec![doc("a")], 2), Err(SnapshotError::Decode(_))));
    assert!(matches!(restore(vec![1, 2], vec![], vec![doc("a")], 2), Err(SnapshotError::Decode(_))));
    assert!(matches!(
        restore(vec![1, 2], vec![0, 0], vec![doc("a"), doc("a")], 1),
        Err(SnapshotError::Decode(_))
    ));
    assert!(matches!(restore(vec![], vec![0, 0], vec![doc("a"), doc("b")], 0), Ok(_)));
    assert!(matches!(restore(vec![], vec![0, 0], vec![doc("a"), doc("b")], u64::MAX), Err(SnapshotError::Decode(_))));
    assert!(VectorStore::from_parts(vec![1], vec![0], vec![doc("a")], 1).is_some());
    assert!(VectorStore::from_parts(vec![1], vec![0], vec![], 1).is_none());
    assert!(matches!(restore(vec![], vec![], vec![], 7), Ok(s) if s.dim == 7 && s.len() == 0));
}

#[test]
fn decoding_error_carries_the_decoder_message() {
    let expected = match bincode::deserialize::<(Vec<u32>, Vec<u32>, Vec<(String, HashMap<String, String>)>, u64)>(&[1, 2, 3]) {
        Ok(_) => panic!("three bytes decoded"),
        Err(e) => e.to_string(),
    };
    assert!(!expected.is_empty());
    assert!(matches!(load_snapshot(&[1, 2, 3]), Err(SnapshotError::Decode(t)) if t == expected));
}

#[test]
fn refused_write_gets_no_record() {
    let store = VectorStore::new(2);
    let good = entry("a", &[1.0, 0.0], &[]);
    let record = match vectordb::wal::record_for_insert(&store, &good) {
        Ok(r) => r,
        Err(_) => panic!("no record for a good write"),
    };
    assert_eq!(record, self::record(&good));
    let bad = entry("a", &[1.0], &[]);
    assert!(matches!(
        vectordb::wal::record_for_insert(&store, &bad),
        Err(vectordb::wal::LogError::Store(vectordb::types::StoreError::DimensionMismatch {
            expected: 2,
            actual: 1
        }))
    ));
}

#[test]
fn every_entry_and_every_store_encodes() {
    let big = entry("", &[], &[]);
    assert!(encode_entry(&big).is_ok());
    let mut pairs: Vec<(String, String)> = Vec::new();
    for i in 0..200 {
        pairs.push((format!("key{}", i), "v".repeat(i)));
    }
    let refs: Vec<(&str, &str)> = pairs.iter().map(|(k, v)| (k.as_str(), v.as_str())).collect();
    let wide = entry("id", &[f32::NAN, f32::INFINITY, -0.0], &refs);
    assert!(encode_entry(&wide).is_ok());
    assert_eq!(read_all(&record(&wide)).len(), 1);
    assert!(save_snapshot(&VectorStore::new(0)).is_ok());
    assert!(save_snapshot(&VectorStore::new(usize::MAX)).is_ok());
    let store = VectorStore::new(3);
    assert!(vectordb::wal::record_for_insert(&store, &wide).is_ok());
}
