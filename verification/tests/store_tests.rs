use std::collections::HashMap;
use vectordb::memory::VectorStore;
use vectordb::models::InsertRequest;
use vectordb::rank::{rank_scores, rank_top};
use vectordb::score::{score_is_nan, score_order_key, score_precedes};
use vectordb::types::{Metric, StoreError};

fn bits(v: &[f32]) -> Vec<u32> {
    v.iter().map(|x| x.to_bits()).collect()
}

fn norm(v: &[f32]) -> u32 {
    v.iter().map(|x| x * x).sum::<f32>().sqrt().to_bits()
}

fn dot(a: &[f32], b: &[f32]) -> f32 {
    a.iter().zip(b.iter()).map(|(x, y)| x * y).sum()
}

fn euclid(a: &[f32], b: &[f32]) -> f32 {
    a.iter().zip(b.iter()).map(|(x, y)| (x - y) * (x - y)).sum::<f32>().sqrt()
}

fn scores(store: &VectorStore, query: &[f32], metric: Metric) -> Vec<u32> {
    let qn = query.iter().map(|x| x * x).sum::<f32>().sqrt();
    let mut out = Vec::new();
    for i in 0..store.docs.len() {
        let chunk: Vec<f32> = store.vectors[i * store.dim..(i + 1) * store.dim]
            .iter()
            .map(|b| f32::from_bits(*b))
            .collect();
        let n = f32::from_bits(store.norms[i]);
        let s = match metric {
            Metric::Cosine => {
                if qn == 0.0 || n == 0.0 {
                    0.0
                } else {
                    dot(query, &chunk) / (qn * n)
                }
            }
            Metric::Euclidean => euclid(query, &chunk),
            Metric::Dot => dot(query, &chunk),
        };
        out.push(s.to_bits());
    }
    out
}

fn put(store: &mut VectorStore, id: &str, v: &[f32], metadata: HashMap<String, String>) -> Result<(), StoreError> {
    store.insert(id.to_string(), bits(v), norm(v), metadata)
}

fn search(store: &VectorStore, query: &[f32], k: usize, metric: Metric) -> Vec<(String, f32)> {
    let s = if query.len() == store.dim { scores(store, query, metric) } else { Vec::new() };
    store
        .search(&bits(query), &s, k, metric)
        .into_iter()
        .map(|(id, b)| (id, f32::from_bits(b)))
        .collect()
}

#[test]
fn test_insert_and_search() {
    let mut store = VectorStore::new(2);
    let mut metadata = HashMap::new();
    metadata.insert("title".to_string(), "test".to_string());

    put(&mut store, "1", &[1.0, 0.0], metadata.clone()).unwrap();
    put(&mut store, "2", &[0.0, 1.0], metadata.clone()).unwrap();

    let results = search(&store, &[1.0, 0.0], 1, Metric::Cosine);
    assert_eq!(results.len(), 1);
    assert_eq!(results[0].0, "1");
    assert!((results[0].1 - 1.0).abs() < 1e-6);

    let results = search(&store, &[0.0, 1.0], 1, Metric::Cosine);
    assert_eq!(results.len(), 1);
    assert_eq!(results[0].0, "2");
    assert!((results[0].1 - 1.0).abs() < 1e-6);
}

#[test]
fn upsert_twice_is_upsert_once() {
    let mut store = VectorStore::new(3);
    let mut metadata = HashMap::new();
    metadata.insert("k".to_string(), "v".to_string());
    put(&mut store, "a", &[1.0, 2.0, 2.0], metadata.clone()).unwrap();
    put(&mut store, "b", &[0.0, 0.0, 1.0], HashMap::new()).unwrap();
    let vectors = store.vectors.clone();
    let norms = store.norms.clone();
    put(&mut store, "a", &[1.0, 2.0, 2.0], metadata.clone()).unwrap();
    assert_eq!(store.vectors, vectors);
    assert_eq!(store.norms, norms);
    assert_eq!(store.docs.len(), 2);
    assert_eq!(store.len(), 2);
    assert_eq!(f32::from_bits(store.norms[0]), 3.0);
    assert_eq!(store.get("a").unwrap().metadata, metadata);
}

#[test]
fn upsert_overwrites_in_place() {
    let mut store = VectorStore::new(2);
    let mut first = HashMap::new();
    first.insert("old".to_string(), "1".to_string());
    put(&mut store, "a", &[1.0, 0.0], first).unwrap();
    put(&mut store, "b", &[0.0, 1.0], HashMap::new()).unwrap();
    let mut second = HashMap::new();
    second.insert("new".to_string(), "2".to_string());
    put(&mut store, "a", &[3.0, 4.0], second.clone()).unwrap();
    assert_eq!(store.docs.len(), 2);
    assert_eq!(store.vectors, bits(&[3.0, 4.0, 0.0, 1.0]));
    assert_eq!(f32::from_bits(store.norms[0]), 5.0);
    assert_eq!(store.docs[0].id, "a");
    assert_eq!(store.get("a").unwrap().metadata, second);
    assert_eq!(store.get_vector("a").unwrap(), bits(&[3.0, 4.0]));
    assert_eq!(store.get_vector("b").unwrap(), bits(&[0.0, 1.0]));
    assert!(store.get("c").is_none());
    assert!(store.get_vector("c").is_none());
}

#[test]
fn dimension_invariant_holds_after_writes() {
    let mut store = VectorStore::new(4);
    assert_eq!(store.dim(), 4);
    for i in 0..10 {
        let v = [i as f32, 1.0, 2.0, 3.0];
        put(&mut store, &format!("id{}", i % 7), &v, HashMap::new()).unwrap();
        assert_eq!(store.vectors.len(), store.docs.len() * store.dim);
        assert_eq!(store.norms.len(), store.docs.len());
    }
    assert_eq!(store.docs.len(), 7);
    assert!(put(&mut store, "bad", &[1.0], HashMap::new()).is_err());
    assert_eq!(store.vectors.len(), store.docs.len() * store.dim);
    assert_eq!(store.docs.len(), 7);
}

#[test]
fn wrong_dimension_is_refused_with_both_lengths() {
    let mut store = VectorStore::new(2);
    let err = put(&mut store, "a", &[1.0, 2.0, 3.0], HashMap::new()).unwrap_err();
    assert_eq!(err, StoreError::DimensionMismatch { expected: 2, actual: 3 });
    assert_eq!(err.message(), "Vector dimension mismatch: expected 2, got 3");
    assert_eq!(store.len(), 0);
    assert!(store.vectors.is_empty());
    assert!(store.get("a").is_none());
    assert_eq!(store.check_dimension(2), Ok(()));
    assert_eq!(
        store.check_dimension(0),
        Err(StoreError::DimensionMismatch { expected: 2, actual: 0 })
    );
}

#[test]
fn search_with_wrong_query_length_is_empty() {
    let mut store = VectorStore::new(2);
    put(&mut store, "a", &[1.0, 0.0], HashMap::new()).unwrap();
    assert!(search(&store, &[1.0, 0.0, 0.0], 5, Metric::Cosine).is_empty());
    assert!(store.search(&bits(&[1.0, 0.0]), &[], 5, Metric::Dot).is_empty());
    assert!(store.search(&bits(&[1.0]), &[0], 5, Metric::Dot).is_empty());
}

#[test]
fn self_similarity_is_one() {
    let mut store = VectorStore::new(3);
    put(&mut store, "other", &[-1.0, 0.5, 0.0], HashMap::new()).unwrap();
    put(&mut store, "X", &[0.3, -2.0, 7.5], HashMap::new()).unwrap();
    let results = search(&store, &[0.3, -2.0, 7.5], 1, Metric::Cosine);
    assert_eq!(results.len(), 1);
    assert_eq!(results[0].0, "X");
    assert!((results[0].1 - 1.0).abs() < 1e-6);
}

#[test]
fn cosine_orders_descending() {
    let mut store = VectorStore::new(2);
    put(&mut store, "A", &[1.0, 0.0], HashMap::new()).unwrap();
    put(&mut store, "B", &[0.0, 1.0], HashMap::new()).unwrap();
    let results = search(&store, &[1.0, 0.0], 2, Metric::Cosine);
    assert_eq!(results, vec![("A".to_string(), 1.0), ("B".to_string(), 0.0)]);
}

#[test]
fn euclidean_orders_ascending() {
    let mut store = VectorStore::new(2);
    put(&mut store, "B", &[3.0, 4.0], HashMap::new()).unwrap();
    put(&mut store, "A", &[0.0, 0.0], HashMap::new()).unwrap();
    let results = search(&store, &[0.0, 0.0], 2, Metric::Euclidean);
    assert_eq!(results, vec![("A".to_string(), 0.0), ("B".to_string(), 5.0)]);
}

#[test]
fn dot_orders_descending_and_truncates() {
    let mut store = VectorStore::new(1);
    for (id, x) in [("a", 1.0f32), ("b", -2.0), ("c", 5.0), ("d", 3.0)] {
        put(&mut store, id, &[x], HashMap::new()).unwrap();
    }
    let results = search(&store, &[2.0], 3, Metric::Dot);
    assert_eq!(
        results,
        vec![("c".to_string(), 10.0), ("d".to_string(), 6.0), ("a".to_string(), 2.0)]
    );
    assert_eq!(search(&store, &[2.0], 0, Metric::Dot).len(), 0);
    assert_eq!(search(&store, &[2.0], 9, Metric::Dot).len(), 4);
}

#[test]
fn zero_norm_scores_zero_under_cosine() {
    let mut store = VectorStore::new(2);
    put(&mut store, "zero", &[0.0, 0.0], HashMap::new()).unwrap();
    put(&mut store, "neg", &[-1.0, 0.0], HashMap::new()).unwrap();
    let results = search(&store, &[1.0, 0.0], 2, Metric::Cosine);
    assert_eq!(results, vec![("zero".to_string(), 0.0), ("neg".to_string(), -1.0)]);
}

#[test]
fn equal_scores_keep_insertion_order() {
    let s = bits(&[1.0, 2.0, 1.0, 2.0, 0.0, -0.0]);
    assert_eq!(rank_scores(&s, Metric::Dot), vec![1, 3, 0, 2, 4, 5]);
    assert_eq!(rank_scores(&s, Metric::Cosine), vec![1, 3, 0, 2, 4, 5]);
    assert_eq!(rank_scores(&s, Metric::Euclidean), vec![4, 5, 0, 2, 1, 3]);
    assert_eq!(rank_scores(&[], Metric::Dot), Vec::<usize>::new());
}

#[test]
fn nan_ranks_as_equal_and_never_fails() {
    let s = bits(&[1.0, f32::NAN, 0.0]);
    assert_eq!(rank_scores(&s, Metric::Euclidean), vec![0, 1, 2]);
    let s = bits(&[f32::NAN, 1.0, 2.0]);
    assert_eq!(rank_scores(&s, Metric::Dot), vec![0, 2, 1]);
    let s = bits(&[f32::NAN, f32::NAN]);
    assert_eq!(rank_scores(&s, Metric::Cosine), vec![0, 1]);
}

#[test]
fn score_order_is_the_numeric_order() {
    let values = [
        f32::NEG_INFINITY,
        -3.5,
        -1.0e-40,
        -0.0,
        0.0,
        1.0e-40,
        f32::MIN_POSITIVE,
        1.0,
        1.0000001,
        f32::MAX,
        f32::INFINITY,
        f32::NAN,
        -f32::NAN,
    ];
    for a in values {
        assert_eq!(score_is_nan(a.to_bits()), a.is_nan());
        for b in values {
            let less = a < b;
            let greater = a > b;
            assert_eq!(score_precedes(Metric::Euclidean, a.to_bits(), b.to_bits()), less);
            assert_eq!(score_precedes(Metric::Cosine, a.to_bits(), b.to_bits()), greater);
            assert_eq!(score_precedes(Metric::Dot, a.to_bits(), b.to_bits()), greater);
            if !a.is_nan() && !b.is_nan() {
                assert_eq!(score_order_key(a.to_bits()) < score_order_key(b.to_bits()), less);
                assert_eq!(score_order_key(a.to_bits()) == score_order_key(b.to_bits()), a == b);
            }
        }
    }
    assert_eq!(score_order_key(1.0f32.to_bits()), 0x3f80_0000);
    assert_eq!(score_order_key((-1.0f32).to_bits()), -0x3f80_0000);
    assert!(Metric::Cosine.higher_is_better());
    assert!(Metric::Dot.higher_is_better());
    assert!(!Metric::Euclidean.higher_is_better());
}

#[test]
fn bulk_insert_reports_the_one_bad_item() {
    let mut store = VectorStore::new(2);
    let items = vec![
        InsertRequest { id: "a".to_string(), vector: bits(&[1.0, 0.0]), norm: norm(&[1.0, 0.0]), metadata: None },
        InsertRequest { id: "bad".to_string(), vector: bits(&[1.0, 0.0, 2.0]), norm: 0, metadata: None },
        InsertRequest { id: "c".to_string(), vector: bits(&[0.0, 1.0]), norm: norm(&[0.0, 1.0]), metadata: None },
        InsertRequest { id: "a".to_string(), vector: bits(&[2.0, 0.0]), norm: norm(&[2.0, 0.0]), metadata: None },
    ];
    let response = store.bulk_insert(&items);
    assert_eq!(response.status, "ok");
    assert_eq!(response.inserted, 3);
    assert_eq!(response.errors.len(), 1);
    assert_eq!(response.errors[0].id, "bad");
    assert_eq!(response.errors[0].error, "Vector dimension mismatch: expected 2, got 3");
    assert_eq!(store.len(), 2);
    assert_eq!(store.vectors, bits(&[2.0, 0.0, 0.0, 1.0]));
    assert!(store.get("a").unwrap().metadata.is_empty());
    let empty = store.bulk_insert(&Vec::new());
    assert_eq!(empty.inserted, 0);
    assert!(empty.errors.is_empty());
}

#[test]
fn search_documents_attaches_vector_and_metadata() {
    let mut store = VectorStore::new(2);
    let mut metadata = HashMap::new();
    metadata.insert("title".to_string(), "first".to_string());
    put(&mut store, "a", &[1.0, 0.0], metadata.clone()).unwrap();
    put(&mut store, "b", &[0.0, 2.0], HashMap::new()).unwrap();
    let s = scores(&store, &[0.0, 1.0], Metric::Dot);
    let results = store.search_documents(&bits(&[0.0, 1.0]), &s, 2, Metric::Dot);
    assert_eq!(results.len(), 2);
    assert_eq!(results[0].id, "b");
    assert_eq!(f32::from_bits(results[0].score), 2.0);
    assert_eq!(results[0].vector, bits(&[0.0, 2.0]));
    assert!(results[0].metadata.is_empty());
    assert_eq!(results[1].id, "a");
    assert_eq!(results[1].metadata, metadata);
    assert!(store.search_documents(&bits(&[0.0]), &s, 2, Metric::Dot).is_empty());
}

#[test]
fn stats_count_four_bytes_per_scalar() {
    let mut store = VectorStore::new(3);
    put(&mut store, "a", &[1.0, 0.0, 0.0], HashMap::new()).unwrap();
    put(&mut store, "b", &[1.0, 0.0, 0.0], HashMap::new()).unwrap();
    let stats = store.stats();
    assert_eq!(stats.num_vectors, 2);
    assert_eq!(stats.dim, 3);
    assert_eq!(stats.mem_bytes_approx, 24);
    assert_eq!(VectorStore::new(5).stats().mem_bytes_approx, 0);
}

#[test]
fn numbers_are_written_in_decimal() {
    assert_eq!(vectordb::types::decimal(0), "0");
    assert_eq!(vectordb::types::decimal(7), "7");
    assert_eq!(vectordb::types::decimal(10), "10");
    assert_eq!(vectordb::types::decimal(768), "768");
    assert_eq!(vectordb::types::decimal(1234567890), "1234567890");
    assert_eq!(vectordb::types::decimal(usize::MAX), usize::MAX.to_string());
    let e = StoreError::DimensionMismatch { expected: 768, actual: 0 };
    assert_eq!(e.message(), "Vector dimension mismatch: expected 768, got 0");
}

#[test]
fn ranking_agrees_with_a_stable_sort() {
    let mut state: u32 = 12345;
    let mut values: Vec<f32> = Vec::new();
    for _ in 0..1000 {
        state = state.wrapping_mul(1664525).wrapping_add(1013904223);
        values.push(((state >> 16) % 41) as f32 - 20.0);
    }
    values.push(-0.0);
    values.push(0.0);
    values.push(f32::INFINITY);
    values.push(f32::NEG_INFINITY);
    let s = bits(&values);
    let mut ascending: Vec<usize> = (0..values.len()).collect();
    ascending.sort_by(|a, b| values[*a].partial_cmp(&values[*b]).unwrap());
    let mut descending: Vec<usize> = (0..values.len()).collect();
    descending.sort_by(|a, b| values[*b].partial_cmp(&values[*a]).unwrap());
    assert_eq!(rank_scores(&s, Metric::Euclidean), ascending);
    assert_eq!(rank_scores(&s, Metric::Cosine), descending);
    assert_eq!(rank_scores(&s, Metric::Dot), descending);
}

#[test]
fn ranking_with_nans_holds_every_position_once() {
    let mut state: u32 = 7;
    let mut values: Vec<f32> = Vec::new();
    for i in 0..500 {
        state = state.wrapping_mul(1664525).wrapping_add(1013904223);
        values.push(if i % 3 == 0 { f32::NAN } else { (state >> 20) as f32 });
    }
    let mut order = rank_scores(&bits(&values), Metric::Dot);
    assert_eq!(order.len(), 500);
    order.sort();
    assert_eq!(order, (0..500).collect::<Vec<usize>>());
}

#[test]
fn rank_top_keeps_the_first_positions() {
    let s = bits(&[1.0, 5.0, 3.0, 5.0, -2.0]);
    assert_eq!(rank_top(&s, Metric::Dot, 0), Vec::<usize>::new());
    assert_eq!(rank_top(&s, Metric::Dot, 1), vec![1]);
    assert_eq!(rank_top(&s, Metric::Dot, 3), vec![1, 3, 2]);
    assert_eq!(rank_top(&s, Metric::Dot, 5), vec![1, 3, 2, 0, 4]);
    assert_eq!(rank_top(&s, Metric::Dot, 9), vec![1, 3, 2, 0, 4]);
    assert_eq!(rank_top(&s, Metric::Euclidean, 2), vec![4, 0]);
    assert_eq!(rank_top(&[], Metric::Cosine, 3), Vec::<usize>::new());
}

#[test]
fn best_score_comes_first_and_ties_go_to_the_earlier() {
    let mut store = VectorStore::new(2);
    put(&mut store, "far", &[0.0, 1.0], HashMap::new()).unwrap();
    put(&mut store, "X", &[2.0, 0.0], HashMap::new()).unwrap();
    put(&mut store, "same-direction", &[4.0, 0.0], HashMap::new()).unwrap();
    let results = search(&store, &[2.0, 0.0], 1, Metric::Cosine);
    assert_eq!(results.len(), 1);
    assert_eq!(results[0].0, "X");
    assert!((results[0].1 - 1.0).abs() <= 1e-6);
}
