use std::collections::HashMap;
use vectordb::collection::{Collection, CollectionError, CollectionManager, InsertError};
use vectordb::config::{parse_number, Config, ConfigError, ConfigValues, RawSettings};
use vectordb::embeddings::{default_model, EmbedAndInsertResponse, GenerateEmbeddingRequest};
use vectordb::engine::{
    collection_name_of_file, bulk_insert, get_stats, get_vector, insert_vector, list_collections, load_collection,
    resolve, save_collections, search_vectors, snapshot_file_name, LookupError,
};
use vectordb::models::{BulkInsertRequest, CollectionQuery, InsertRequest, SearchRequest};
use vectordb::types::{Metric, StoreError};

fn bits(v: &[f32]) -> Vec<u32> {
    v.iter().map(|x| x.to_bits()).collect()
}

fn norm(v: &[f32]) -> u32 {
    v.iter().map(|x| x * x).sum::<f32>().sqrt().to_bits()
}

fn request(id: &str, v: &[f32]) -> InsertRequest {
    InsertRequest { id: id.to_string(), vector: bits(v), norm: norm(v), metadata: None }
}

fn named(name: &str) -> CollectionQuery {
    CollectionQuery { collection: Some(name.to_string()) }
}

#[test]
fn create_refuses_a_taken_name() {
    let mut manager = CollectionManager::new();
    assert!(manager.create_collection("default".to_string(), 3, 10).is_ok());
    let err = manager.create_collection("default".to_string(), 5, 11).unwrap_err();
    assert!(matches!(&err, CollectionError::AlreadyExists(n) if n == "default"));
    assert_eq!(err.message(), "Collection 'default' already exists");
    let c = manager.get_collection("default").unwrap();
    assert_eq!(c.dimension, 3);
    assert_eq!(c.created_at, 10);
    assert_eq!(c.store.dim, 3);
    assert_eq!(manager.list_collections().len(), 1);
}

#[test]
fn delete_refuses_an_unknown_name() {
    let mut manager = CollectionManager::new();
    manager.create_collection("a".to_string(), 2, 0).unwrap();
    manager.create_collection("b".to_string(), 2, 0).unwrap();
    let err = manager.delete_collection("c").unwrap_err();
    assert!(matches!(&err, CollectionError::NotFound(n) if n == "c"));
    assert_eq!(err.message(), "Collection 'c' not found");
    assert!(manager.delete_collection("a").is_ok());
    assert!(!manager.collection_exists("a"));
    assert!(manager.collection_exists("b"));
    assert!(manager.get_collection("a").is_none());
    assert!(manager.delete_collection("a").is_err());
    let names: Vec<String> = manager.list_collections().iter().map(|c| c.name.clone()).collect();
    assert_eq!(names, vec!["b".to_string()]);
}

#[test]
fn collections_are_isolated() {
    let mut manager = CollectionManager::new();
    manager.create_collection("A".to_string(), 2, 0).unwrap();
    manager.create_collection("B".to_string(), 2, 0).unwrap();
    manager.insert("B", "x".to_string(), bits(&[0.0, 1.0]), norm(&[0.0, 1.0]), HashMap::new()).unwrap();
    manager.insert("A", "x".to_string(), bits(&[1.0, 0.0]), norm(&[1.0, 0.0]), HashMap::new()).unwrap();
    manager.insert("A", "y".to_string(), bits(&[2.0, 0.0]), norm(&[2.0, 0.0]), HashMap::new()).unwrap();
    let b = manager.get_collection("B").unwrap();
    assert_eq!(b.store.len(), 1);
    assert_eq!(b.store.get_vector("x").unwrap(), bits(&[0.0, 1.0]));
    assert!(b.store.get("y").is_none());
    let hits = b.store.search(&bits(&[1.0, 0.0]), &bits(&[0.0]), 5, Metric::Cosine);
    assert_eq!(hits, vec![("x".to_string(), 0.0f32.to_bits())]);
    let a = manager.get_collection("A").unwrap();
    assert_eq!(a.store.len(), 2);
    assert_eq!(a.store.get_vector("x").unwrap(), bits(&[1.0, 0.0]));
}

#[test]
fn insert_into_a_collection_reports_each_error() {
    let mut manager = CollectionManager::new();
    manager.create_collection("A".to_string(), 2, 0).unwrap();
    let missing = manager.insert("nope", "x".to_string(), bits(&[1.0, 0.0]), 0, HashMap::new()).unwrap_err();
    assert!(matches!(&missing, InsertError::Collection(CollectionError::NotFound(n)) if n == "nope"));
    assert_eq!(missing.message(), "Collection 'nope' not found");
    let wrong = manager.insert("A", "x".to_string(), bits(&[1.0]), 0, HashMap::new()).unwrap_err();
    assert!(matches!(
        &wrong,
        InsertError::Store(StoreError::DimensionMismatch { expected: 2, actual: 1 })
    ));
    assert_eq!(wrong.message(), "Vector dimension mismatch: expected 2, got 1");
    assert_eq!(manager.get_collection("A").unwrap().store.len(), 0);
}

#[test]
fn get_collection_mut_hands_out_the_collection() {
    let mut manager = CollectionManager::new();
    manager.create_collection("A".to_string(), 1, 0).unwrap();
    assert!(manager.get_collection_mut("B").is_none());
    {
        let c = manager.get_collection_mut("A").unwrap();
        c.store.insert("x".to_string(), bits(&[1.0]), norm(&[1.0]), HashMap::new()).unwrap();
    }
    assert_eq!(manager.get_collection("A").unwrap().store.len(), 1);
}

#[test]
fn new_collection_is_empty() {
    let c = Collection::new("docs".to_string(), 4, 1700000000);
    assert_eq!(c.name, "docs");
    assert_eq!(c.dimension, 4);
    assert_eq!(c.created_at, 1700000000);
    assert_eq!(c.store.len(), 0);
    let info = c.info();
    assert_eq!(info.name, "docs");
    assert_eq!(info.dimension, 4);
    assert_eq!(info.num_vectors, 0);
    assert_eq!(info.created_at, 1700000000);
}

#[test]
fn operations_go_to_the_default_collection() {
    let mut manager = CollectionManager::new();
    manager.create_collection("default".to_string(), 2, 1).unwrap();
    manager.create_collection("other".to_string(), 2, 2).unwrap();
    let none = CollectionQuery { collection: None };
    assert_eq!(resolve(&none), "default");
    assert_eq!(resolve(&named("other")), "other");

    let response = match insert_vector(&mut manager, &none, request("a", &[1.0, 0.0])) {
        Ok(r) => r,
        Err(_) => panic!("insert failed"),
    };
    assert_eq!(response.status, "ok");
    assert_eq!(response.id, "a");
    assert!(matches!(
        insert_vector(&mut manager, &named("gone"), request("a", &[1.0, 0.0])),
        Err(InsertError::Collection(CollectionError::NotFound(_)))
    ));
    assert!(matches!(
        insert_vector(&mut manager, &none, request("a", &[1.0])),
        Err(InsertError::Store(StoreError::DimensionMismatch { expected: 2, actual: 1 }))
    ));

    let bulk = BulkInsertRequest {
        items: vec![request("b", &[0.0, 1.0]), request("bad", &[1.0]), request("c", &[1.0, 1.0])],
    };
    let outcome = match bulk_insert(&mut manager, &none, &bulk) {
        Ok(r) => r,
        Err(_) => panic!("bulk insert failed"),
    };
    assert_eq!(outcome.inserted, 2);
    assert_eq!(outcome.errors.len(), 1);
    assert_eq!(outcome.errors[0].id, "bad");
    assert!(bulk_insert(&mut manager, &named("gone"), &bulk).is_err());

    let stats = match get_stats(&manager, &none) {
        Ok(s) => s,
        Err(_) => panic!("stats failed"),
    };
    assert_eq!(stats.num_vectors, 3);
    assert_eq!(stats.dim, 2);
    assert_eq!(stats.mem_bytes_approx, 24);
    assert!(matches!(get_stats(&manager, &named("other")), Ok(s) if s.num_vectors == 0));
    assert!(get_stats(&manager, &named("gone")).is_err());

    assert!(matches!(get_vector(&manager, &none, "a"), Ok(d) if d.id == "a" && d.metadata.is_empty()));
    assert!(matches!(get_vector(&manager, &none, "zzz"), Err(LookupError::VectorNotFound)));
    assert!(matches!(get_vector(&manager, &named("other"), "a"), Err(LookupError::VectorNotFound)));
    assert!(matches!(get_vector(&manager, &named("gone"), "a"), Err(LookupError::Collection(_))));

    let search = SearchRequest { vector: bits(&[1.0, 0.0]), top_k: 2, metric: Metric::Dot, filter: None };
    let scores = bits(&[1.0, 0.0, 1.0]);
    let results = match search_vectors(&manager, &none, &search, &scores) {
        Ok(r) => r,
        Err(_) => panic!("search failed"),
    };
    assert_eq!(results.len(), 2);
    assert_eq!(results[0].id, "a");
    assert_eq!(results[1].id, "c");
    assert_eq!(results[1].vector, bits(&[1.0, 1.0]));
    assert!(search_vectors(&manager, &named("gone"), &search, &scores).is_err());

    let listed = list_collections(&manager);
    assert_eq!(listed.collections.len(), 2);
    assert_eq!(listed.collections[0].name, "default");
    assert_eq!(listed.collections[0].num_vectors, 3);
    assert_eq!(listed.collections[0].created_at, 1);
    assert_eq!(listed.collections[1].name, "other");
    assert_eq!(listed.collections[1].dimension, 2);
}

#[test]
fn collections_are_saved_one_file_each_and_loaded_back() {
    let mut manager = CollectionManager::new();
    manager.create_collection("default".to_string(), 2, 1).unwrap();
    manager.create_collection("texts".to_string(), 1, 2).unwrap();
    manager.insert("texts", "t".to_string(), bits(&[9.0]), norm(&[9.0]), HashMap::new()).unwrap();
    assert_eq!(snapshot_file_name("texts"), "texts.bin");
    let files = save_collections(&manager);
    assert_eq!(files.len(), 2);
    assert_eq!(files[0].name, "default");
    assert_eq!(files[0].file_name, "default.bin");
    assert_eq!(files[1].name, "texts");
    assert_eq!(files[1].file_name, "texts.bin");

    let mut fresh = CollectionManager::new();
    fresh.create_collection("texts".to_string(), 7, 0).unwrap();
    for file in &files {
        let name = collection_name_of_file(&file.file_name).unwrap();
        assert_eq!(name, file.name);
        let blob = match &file.blob {
            Ok(b) => b,
            Err(_) => panic!("snapshot did not encode"),
        };
        assert!(load_collection(&mut fresh, name, blob, 99).is_ok());
    }
    assert_eq!(fresh.list_collections().len(), 2);
    let texts = fresh.get_collection("texts").unwrap();
    assert_eq!(texts.dimension, 1);
    assert_eq!(texts.created_at, 99);
    assert_eq!(texts.store.get_vector("t").unwrap(), bits(&[9.0]));
    assert_eq!(fresh.get_collection("default").unwrap().store.len(), 0);
    assert!(load_collection(&mut fresh, "broken".to_string(), &[1, 2, 3], 0).is_err());
    assert!(!fresh.collection_exists("broken"));
}

#[test]
fn config_takes_defaults_where_nothing_is_given() {
    let config = Config::from_values(ConfigValues {
        host: None,
        port: None,
        dimension: None,
        max_vectors: None,
        snapshot_path: None,
        wal_path: None,
        snapshot_interval_sec: None,
        wal_flush_interval_sec: None,
    });
    assert_eq!(config.host, "0.0.0.0");
    assert_eq!(config.port, 8080);
    assert_eq!(config.dimension, 768);
    assert_eq!(config.max_vectors, 100000);
    assert_eq!(config.snapshot_path, "snapshot.bin");
    assert_eq!(config.wal_path, "wal.bin");
    assert_eq!(config.snapshot_interval_sec, 3600);
    assert_eq!(config.wal_flush_interval_sec, 1);
    let config = Config::from_values(ConfigValues {
        host: Some("127.0.0.1".to_string()),
        port: Some(9000),
        dimension: Some(3),
        max_vectors: Some(10),
        snapshot_path: Some("s".to_string()),
        wal_path: Some("w".to_string()),
        snapshot_interval_sec: Some(5),
        wal_flush_interval_sec: Some(6),
    });
    assert_eq!(config.host, "127.0.0.1");
    assert_eq!(config.port, 9000);
    assert_eq!(config.dimension, 3);
    assert_eq!(config.max_vectors, 10);
    assert_eq!(config.snapshot_path, "s");
    assert_eq!(config.wal_path, "w");
    assert_eq!(config.snapshot_interval_sec, 5);
    assert_eq!(config.wal_flush_interval_sec, 6);
}

#[test]
fn embedding_requests_default_their_model() {
    assert_eq!(default_model(), "text-embedding-3-small");
    let r = GenerateEmbeddingRequest::new("hello".to_string(), None);
    assert_eq!(r.text, "hello");
    assert_eq!(r.model, "text-embedding-3-small");
    let r = GenerateEmbeddingRequest::new("hello".to_string(), Some("m".to_string()));
    assert_eq!(r.model, "m");
    let stored = EmbedAndInsertResponse::stored("id".to_string(), 768);
    assert_eq!(stored.status, "ok");
    assert_eq!(stored.id, "id");
    assert_eq!(stored.dimension, 768);
}

#[test]
fn create_collection_from_a_request() {
    let mut manager = CollectionManager::new();
    let request = vectordb::models::CreateCollectionRequest { name: "docs".to_string(), dimension: 8 };
    assert!(vectordb::engine::create_collection(&mut manager, request, 42).is_ok());
    let again = vectordb::models::CreateCollectionRequest { name: "docs".to_string(), dimension: 9 };
    assert!(matches!(
        vectordb::engine::create_collection(&mut manager, again, 43),
        Err(CollectionError::AlreadyExists(n)) if n == "docs"
    ));
    let c = manager.get_collection("docs").unwrap();
    assert_eq!(c.dimension, 8);
    assert_eq!(c.created_at, 42);
}

#[test]
fn file_names_give_collection_names() {
    assert_eq!(collection_name_of_file("default.bin"), Some("default".to_string()));
    assert_eq!(collection_name_of_file("a.b.bin"), Some("a.b".to_string()));
    assert_eq!(collection_name_of_file("h\u{e9}llo.bin"), Some("h\u{e9}llo".to_string()));
    assert_eq!(collection_name_of_file(".bin"), None);
    assert_eq!(collection_name_of_file("bin"), None);
    assert_eq!(collection_name_of_file(""), None);
    assert_eq!(collection_name_of_file("default.bin.tmp"), None);
    assert_eq!(collection_name_of_file("default.BIN"), None);
    assert_eq!(collection_name_of_file("defaultbin"), None);
}

fn settings(port: Option<&str>, dimension: Option<&str>, interval: Option<&str>) -> RawSettings {
    RawSettings {
        host: None,
        port: port.map(|s| s.to_string()),
        dimension: dimension.map(|s| s.to_string()),
        max_vectors: None,
        snapshot_path: Some("snap".to_string()),
        wal_path: None,
        snapshot_interval_sec: interval.map(|s| s.to_string()),
        wal_flush_interval_sec: None,
    }
}

#[test]
fn numbers_are_read_as_the_standard_library_reads_them() {
    let texts = [
        "", "+", "0", "7", "+7", "007", "8080", "65535", "65536", "99999", "-1", "- 1", " 1", "1 ",
        "1_000", "0x10", "12a", "a12", "++1", "1+", "18446744073709551615", "18446744073709551616",
        "184467440737095516150", "00000000000000000000000000001", "\u{661}",
    ];
    for t in texts {
        assert_eq!(parse_number(t, u16::MAX as u64), t.parse::<u16>().ok().map(|v| v as u64));
        assert_eq!(parse_number(t, u64::MAX), t.parse::<u64>().ok());
        assert_eq!(parse_number(t, usize::MAX as u64), t.parse::<usize>().ok().map(|v| v as u64));
    }
    assert_eq!(parse_number("8080", 65535), Some(8080));
    assert_eq!(parse_number("10", 9), None);
    assert_eq!(parse_number("9", 9), Some(9));
    assert_eq!(parse_number("0", 0), Some(0));
}

#[test]
fn settings_that_are_no_numbers_are_named() {
    let config = match Config::from_settings(settings(Some("9000"), Some("3"), None)) {
        Ok(c) => c,
        Err(_) => panic!("settings were refused"),
    };
    assert_eq!(config.host, "0.0.0.0");
    assert_eq!(config.port, 9000);
    assert_eq!(config.dimension, 3);
    assert_eq!(config.max_vectors, 100000);
    assert_eq!(config.snapshot_path, "snap");
    assert_eq!(config.wal_path, "wal.bin");
    assert_eq!(config.snapshot_interval_sec, 3600);
    assert_eq!(config.wal_flush_interval_sec, 1);
    assert!(matches!(Config::from_settings(settings(None, None, None)), Ok(c) if c.port == 8080 && c.dimension == 768));

    let e = Config::from_settings(settings(Some("65536"), Some("x"), None)).unwrap_err();
    assert_eq!(e, ConfigError::Port);
    assert_eq!(e.message(), "PORT must be a number");
    let e = Config::from_settings(settings(None, Some("x"), Some("y"))).unwrap_err();
    assert_eq!(e, ConfigError::Dimension);
    assert_eq!(e.message(), "DIMENSION must be a number");
    let e = Config::from_settings(settings(None, None, Some("1.5"))).unwrap_err();
    assert_eq!(e, ConfigError::SnapshotIntervalSec);
    assert_eq!(e.message(), "SNAPSHOT_INTERVAL_SEC must be a number");
    let mut raw = settings(None, None, None);
    raw.max_vectors = Some("many".to_string());
    assert_eq!(Config::from_settings(raw).unwrap_err().message(), "MAX_VECTORS must be a number");
    let mut raw = settings(None, None, None);
    raw.wal_flush_interval_sec = Some("".to_string());
    assert_eq!(
        Config::from_settings(raw).unwrap_err().message(),
        "WAL_FLUSH_INTERVAL_SEC must be a number"
    );
}
