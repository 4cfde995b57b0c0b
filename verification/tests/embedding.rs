use mem_cli::embedding_worker::{
    cached_model_snapshot, embed_query_if_cached, embedding_model_files, model_cache_dir,
    model_is_cached, query_vector, validate_query, CacheChoice, EmbeddingRunOptions, RunPlan,
    EMBEDDING_MODEL_ID,
};
use mem_cli::error::Error;
use mem_cli::memory::{Memory, NewMemory};
use mem_cli::order::float_key;
use mem_cli::recall::{recall_hits, recall_with_query_vector, SEMANTIC_CONTEXT_MIN_SCORE};
use mem_cli::search::Match;
use mem_cli::storage::{routed_run_index, routed_semantic_search, JobRunStats};
use mem_cli::store::Store;
use mem_cli::vector::{decode_vector, encode_vector, validate_vector};

fn message<T>(result: Result<T, Error>) -> String {
    match result {
        Ok(_) => panic!("expected an error"),
        Err(error) => error.message(),
    }
}

fn fact(text: &str) -> NewMemory {
    NewMemory {
        text: text.to_owned(),
        kind: "fact".to_owned(),
        actor: "agent".to_owned(),
        source_type: "test".to_owned(),
        source_ref: None,
    }
}

fn remember(store: &mut Store, text: &str) -> Memory {
    store.remember(fact(text)).expect("remember")
}

fn bits(vector: &[f32]) -> Vec<u32> {
    vector.iter().map(|value| value.to_bits()).collect()
}

fn normalize(vector: &[f32]) -> Vec<f32> {
    let norm = vector
        .iter()
        .map(|value| f64::from(*value) * f64::from(*value))
        .sum::<f64>()
        .sqrt();
    vector.iter().map(|value| (f64::from(*value) / norm) as f32).collect()
}

fn normalized(vector: &[f32]) -> Result<Vec<u32>, Error> {
    Ok(bits(&normalize(vector)))
}

fn score_against(query: Vec<f32>) -> impl Fn(&Vec<u32>) -> i64 {
    move |stored: &Vec<u32>| {
        let score: f64 = query
            .iter()
            .zip(stored.iter())
            .map(|(left, right)| f64::from(*left) * f64::from(f32::from_bits(*right)))
            .sum();
        float_key(score.to_bits())
    }
}

#[test]
fn stale_source_versions_cannot_overwrite_embeddings() {
    let mut store = Store::new();
    let memory = remember(&mut store, "first text");
    assert!(store
        .upsert_embedding_if_current(
            &memory.id,
            memory.updated_at,
            "model",
            normalized(&[3.0, 4.0])
        )
        .expect("commit"));
    assert!(store
        .refresh_memory(&memory.id, "second text", memory.updated_at + 1)
        .expect("refresh"));
    assert!(!store
        .upsert_embedding_if_current(
            &memory.id,
            memory.updated_at,
            "model",
            normalized(&[1.0, 0.0])
        )
        .expect("reject stale"));
    assert_eq!(store.embeddings.len(), 0);
}

#[test]
fn exact_scan_ranks_all_current_active_vectors() {
    let mut store = Store::new();
    let first = remember(&mut store, "first");
    let best = remember(&mut store, "best");
    store
        .upsert_embedding_if_current(&first.id, first.updated_at, "test", normalized(&[0.8, 0.2]))
        .expect("seed first");
    store
        .upsert_embedding_if_current(&best.id, best.updated_at, "test", normalized(&[1.0, 0.0]))
        .expect("seed best");
    let query = normalize(&[2.0, 0.0]);
    let hits = store
        .semantic_search_by_vector(Ok(2), score_against(query), "test", 10)
        .expect("search");
    assert_eq!(hits.len(), 2);
    assert_eq!(hits[0].memory.id, best.id);
    assert!(store.has_complete_coverage("test").expect("coverage"));
}

fn seed(store: &mut Store, text: &str) -> Memory {
    let memory = remember(store, text);
    store
        .upsert_embedding_if_current(
            &memory.id,
            memory.updated_at,
            EMBEDDING_MODEL_ID,
            normalized(&[1.0, 0.0]),
        )
        .expect("seed");
    memory
}

#[test]
fn fresh_memory_during_query_embedding_forces_lexical_fallback() {
    let mut store = Store::new();
    seed(&mut store, "old knowledge");
    assert!(store.has_complete_coverage(EMBEDDING_MODEL_ID).expect("coverage"));
    let fresh = remember(&mut store, "fresh knowledge");
    let matches = vec![Match { id: fresh.id.clone(), rank: float_key((-1.0_f64).to_bits()) }];
    let hits =
        recall_hits(&store, "fresh", 10, Some(Ok(2)), score_against(vec![1.0, 0.0]), &matches)
            .expect("recall");
    assert_eq!(hits.len(), 1);
    assert_eq!(hits[0].memory.text, "fresh knowledge");
    let hits = recall_with_query_vector(
        &store,
        "fresh",
        10,
        || Ok(Some(Ok(2))),
        score_against(vec![1.0, 0.0]),
        &matches,
    )
    .expect("recall");
    assert_eq!(hits.len(), 1);
    assert_eq!(hits[0].memory.text, "fresh knowledge");
    assert!(store
        .semantic_search_by_vector(Ok(2), score_against(vec![1.0, 0.0]), EMBEDDING_MODEL_ID, 10)
        .is_err());
}

#[test]
fn malformed_derived_vectors_do_not_disable_context() {
    let mut store = Store::new();
    let memory = seed(&mut store, "lexical fallback");
    let matches = vec![Match { id: memory.id.clone(), rank: 0 }];
    for bytes in [
        vec![0_u8],
        [f32::NAN.to_le_bytes(), 0.0_f32.to_le_bytes()].concat(),
    ] {
        store.embeddings[0].vector = bytes;
        let hits = recall_with_query_vector(
            &store,
            "lexical",
            10,
            || Ok(Some(Ok(2))),
            score_against(vec![1.0, 0.0]),
            &matches,
        )
        .expect("recall");
        assert_eq!(hits[0].memory.id, memory.id);
        assert!(store
            .semantic_search_by_vector(
                Ok(2),
                score_against(vec![1.0, 0.0]),
                EMBEDDING_MODEL_ID,
                10
            )
            .is_err());
    }
}

#[test]
fn recall_drops_semantic_hits_of_low_score() {
    assert_eq!(SEMANTIC_CONTEXT_MIN_SCORE, float_key(0.55_f64.to_bits()));
    let mut store = Store::new();
    let near = seed(&mut store, "near");
    let far = remember(&mut store, "far");
    store
        .upsert_embedding_if_current(
            &far.id,
            far.updated_at,
            EMBEDDING_MODEL_ID,
            normalized(&[0.0, 1.0]),
        )
        .expect("seed");
    let hits =
        recall_hits(&store, "anything", 10, Some(Ok(2)), score_against(vec![1.0, 0.0]), &vec![])
            .expect("recall");
    assert_eq!(hits.len(), 1);
    assert_eq!(hits[0].memory.id, near.id);
    assert_eq!(hits[0].rank, float_key(1.0_f64.to_bits()));
    let none =
        recall_hits(&store, "anything", 10, None, score_against(vec![1.0, 0.0]), &vec![])
            .expect("lexical");
    assert!(none.is_empty());
}

#[test]
fn the_vector_of_a_query_is_made_only_for_a_complete_index() {
    let mut store = Store::new();
    let near = seed(&mut store, "near");
    let score = || score_against(vec![1.0, 0.0]);
    let hits = recall_with_query_vector(&store, "words", 10, || Ok(Some(Ok(2))), score(), &vec![])
        .expect("semantic");
    assert_eq!(hits.len(), 1);
    assert_eq!(hits[0].memory.id, near.id);
    assert_eq!(
        message(recall_with_query_vector(
            &store,
            "words",
            10,
            || Err(Error::new("no vector")),
            score(),
            &vec![]
        )),
        "no vector"
    );
    let matches = vec![Match { id: near.id.clone(), rank: 3 }];
    for vector in [None, Some(Ok(3)), Some(Err(Error::new("query embedding has zero norm")))] {
        let hits =
            recall_with_query_vector(&store, "words", 10, || Ok(vector), score(), &matches)
                .expect("lexical");
        assert_eq!(hits.len(), 1);
        assert_eq!(hits[0].rank, 3);
    }
    let fresh = remember(&mut store, "fresh");
    let matches = vec![Match { id: fresh.id.clone(), rank: 4 }];
    let hits = recall_with_query_vector(
        &store,
        "fresh",
        10,
        || panic!("an incomplete index needs no vector"),
        score(),
        &matches,
    )
    .expect("lexical");
    assert_eq!(hits.len(), 1);
    assert_eq!(hits[0].memory.id, fresh.id);
    assert_eq!(
        message(recall_with_query_vector(&store, " ", 10, || Ok(None), score(), &matches)),
        "query cannot be empty"
    );
}

#[test]
fn semantic_hits_are_the_best_of_the_covered_memories() {
    let mut store = Store::new();
    let vectors: [(&str, i64, [f32; 2]); 5] = [
        ("m-1", 10, [0.0, 1.0]),
        ("m-2", 20, [1.0, 0.0]),
        ("m-3", 30, [1.0, 0.0]),
        ("m-4", 30, [1.0, 0.0]),
        ("m-5", 40, [0.6, 0.8]),
    ];
    for (id, now, vector) in vectors {
        store.remember_with(&fact(id), id, now).expect("remember");
        store
            .upsert_embedding_at(id, now, EMBEDDING_MODEL_ID, normalized(&vector), 50)
            .expect("vector");
    }
    let ids = |limit: usize| -> Vec<String> {
        store
            .semantic_search_by_vector(
                Ok(2),
                score_against(vec![1.0, 0.0]),
                EMBEDDING_MODEL_ID,
                limit,
            )
            .expect("search")
            .into_iter()
            .map(|hit| hit.memory.id)
            .collect()
    };
    assert_eq!(ids(9), vec!["m-3", "m-4", "m-2", "m-5", "m-1"]);
    assert_eq!(ids(2), vec!["m-3", "m-4"]);
    let recalled: Vec<String> =
        recall_hits(&store, "x", 9, Some(Ok(2)), score_against(vec![1.0, 0.0]), &vec![])
            .expect("recall")
            .into_iter()
            .map(|hit| hit.memory.id)
            .collect();
    assert_eq!(recalled, vec!["m-3", "m-4", "m-2", "m-5"]);
}

#[test]
fn semantic_search_reports_its_errors() {
    let mut store = Store::new();
    store.remember_with(&fact("one"), "m-1", 5).expect("remember");
    let search = |store: &Store, query: Result<usize, Error>, model: &str, limit: usize| {
        store.semantic_search_by_vector(query, score_against(vec![1.0, 0.0]), model, limit)
    };
    assert_eq!(message(search(&store, Ok(2), " ", 1)), "embedding model cannot be empty");
    assert_eq!(
        message(search(&store, Ok(2), "test", 0)),
        "semantic search limit must be greater than zero"
    );
    assert_eq!(
        message(search(&store, Ok(2), "test", 1)),
        "semantic index is incomplete; run `mem index` first"
    );
    store
        .upsert_embedding_at("m-1", 5, "test", normalized(&[1.0, 0.0]), 6)
        .expect("seed");
    assert_eq!(
        message(search(&store, Err(Error::new("no magnitude")), "test", 1)),
        "no magnitude"
    );
    assert_eq!(
        message(search(&store, Ok(3), "test", 1)),
        "embedding dimension mismatch for m-1: stored 2, query 3"
    );
    store.embeddings[0].vector.pop();
    assert_eq!(
        message(search(&store, Ok(2), "test", 1)),
        "invalid embedding byte length for m-1: expected 8, got 7"
    );
    store.embeddings[0].dimensions = -1;
    assert_eq!(
        message(search(&store, Ok(2), "test", 1)),
        "out of range integral type conversion attempted"
    );
    let none = routed_semantic_search(None, Ok(2), score_against(vec![1.0]), 1).expect("no store");
    assert!(none.is_empty());
}

#[test]
fn semantic_ties_prefer_recent_changes_then_identifiers() {
    let mut store = Store::new();
    for (id, at) in [("m-1", 1), ("m-3", 2), ("m-2", 2)] {
        store.remember_with(&fact("text"), id, at).expect("remember");
        store
            .upsert_embedding_at(id, at, "test", normalized(&[1.0, 1.0]), 9)
            .expect("seed");
    }
    let ids: Vec<String> = store
        .semantic_search_by_vector(Ok(2), score_against(vec![1.0, 0.0]), "test", 2)
        .expect("search")
        .into_iter()
        .map(|hit| hit.memory.id)
        .collect();
    assert_eq!(ids, vec!["m-2", "m-3"]);
}

#[test]
fn vectors_replace_earlier_ones_of_the_same_model() {
    let mut store = Store::new();
    store.remember_with(&fact("one"), "m-1", 5).expect("remember");
    for (model, vector) in [("a", [1.0, 0.0]), ("b", [1.0, 0.0]), ("a", [0.0, 1.0])] {
        assert!(store
            .upsert_embedding_at("m-1", 5, model, normalized(&vector), 6)
            .expect("store"));
    }
    assert_eq!(store.embeddings.len(), 2);
    assert_eq!(store.embeddings[0].vector, [0.0_f32.to_le_bytes(), 1.0_f32.to_le_bytes()].concat());
    assert_eq!(store.embeddings[0].dimensions, 2);
    assert_eq!(store.embeddings[0].source_updated_at, 5);
    assert_eq!(store.embeddings[0].updated_at, 6);
    assert!(!store.upsert_embedding_at("m-2", 5, "a", normalized(&[1.0]), 6).expect("absent"));
    assert_eq!(
        message(store.upsert_embedding_at(" ", 5, "a", normalized(&[1.0]), 6)),
        "memory ID cannot be empty"
    );
    assert_eq!(
        message(store.upsert_embedding_at("m-1", 5, " ", normalized(&[1.0]), 6)),
        "embedding model cannot be empty"
    );
    assert_eq!(
        message(store.upsert_embedding_at("m-1", 5, "a", Err(Error::new("bad vector")), 6)),
        "bad vector"
    );
}

#[test]
fn coverage_counts_current_vectors_only() {
    let mut store = Store::new();
    for (id, at) in [("m-1", 1), ("m-2", 3), ("m-3", 2)] {
        store.remember_with(&fact(id), id, at).expect("remember");
    }
    store.upsert_embedding_at("m-1", 1, "test", normalized(&[1.0]), 9).expect("seed");
    let coverage = store.embedding_coverage("test").expect("coverage");
    assert_eq!((coverage.indexed, coverage.unindexed), (1, 2));
    let pending: Vec<String> = store
        .pending_embedding_sources("test", 10)
        .expect("pending")
        .into_iter()
        .map(|source| source.text)
        .collect();
    assert_eq!(pending, vec!["m-2", "m-3"]);
    assert_eq!(store.pending_embedding_sources("test", 1).expect("pending").len(), 1);
    assert_eq!(
        message(store.pending_embedding_sources("test", 0)),
        "embedding limit must be greater than zero"
    );
    assert_eq!(message(store.embedding_coverage(" ")), "embedding model cannot be empty");
    store.embeddings[0].source_updated_at = 0;
    assert!(!store.has_complete_coverage("test").expect("coverage"));
}

#[test]
fn vectors_are_stored_as_little_endian_floats() {
    let values = [0.0_f32, -0.0, 1.5, -3.25e-12, f32::MAX, f32::MIN_POSITIVE];
    let mut expected = Vec::new();
    for value in values {
        expected.extend_from_slice(&value.to_le_bytes());
    }
    let encoded = encode_vector(&bits(&values));
    assert_eq!(encoded, expected);
    assert_eq!(decode_vector(&encoded, values.len(), "m").expect("decode"), bits(&values));
    for value in [f32::NAN, f32::INFINITY, f32::NEG_INFINITY] {
        assert_eq!(
            message(decode_vector(&value.to_le_bytes().to_vec(), 1, "m")),
            "stored embedding contains non-finite values for m"
        );
        assert_eq!(
            message(validate_vector(&bits(&[value]), "embedding vector")),
            "embedding vector must contain only finite values"
        );
    }
    assert_eq!(
        message(decode_vector(&vec![], usize::MAX, "m")),
        "embedding dimensions overflow for m"
    );
    assert_eq!(
        message(validate_vector(&vec![], "semantic query vector")),
        "semantic query vector cannot be empty"
    );
    assert_eq!(
        message(validate_vector(&vec![0; 65_537], "embedding vector")),
        "embedding vector is unreasonably large"
    );
    assert!(validate_vector(&vec![0; 65_536], "embedding vector").is_ok());
}

fn options(limit: usize, cached_only: bool) -> EmbeddingRunOptions {
    EmbeddingRunOptions {
        limit,
        cache_dir: "/cache".to_owned(),
        show_download_progress: false,
        cached_only,
    }
}

#[test]
fn cached_only_index_is_a_noop_when_model_is_absent() {
    let mut store = Store::new();
    remember(&mut store, "pending semantic memory");
    let stats = store
        .run_embedding_index(options(16, true), false, |_| panic!("nothing is embedded"))
        .expect("index");
    assert_eq!(stats.indexed, 0);
    assert_eq!(stats.remaining, 1);
}

#[test]
fn index_runs_embed_the_latest_memories_first() {
    let mut store = Store::new();
    for (id, at) in [("m-1", 1), ("m-2", 2), ("m-3", 3)] {
        store.remember_with(&fact(id), id, at).expect("remember");
    }
    let stats = store
        .run_embedding_index(options(2, false), false, |sources| {
            let ids: Vec<&str> = sources.iter().map(|source| source.id.as_str()).collect();
            assert_eq!(ids, vec!["m-3", "m-2"]);
            Ok(sources.iter().map(|_| normalized(&[1.0, 0.0])).collect())
        })
        .expect("index");
    assert_eq!(stats.model, EMBEDDING_MODEL_ID);
    assert_eq!(stats.cache_dir, "/cache");
    assert_eq!((stats.indexed, stats.stale, stats.remaining), (2, 0, 1));
    assert_eq!(
        message(store.run_embedding_index(options(0, false), true, |_| Ok(vec![]))),
        "embedding limit must be greater than zero"
    );
    assert_eq!(
        message(store.run_embedding_index(options(2, false), true, |_| Ok(vec![]))),
        "embedding inference returned 0 vectors for 1 memories"
    );
    assert_eq!(
        message(store.run_embedding_index(options(2, false), true, |_| {
            Err(Error::new("embed pending memories"))
        })),
        "embed pending memories"
    );
}

#[test]
fn changed_memories_are_counted_as_stale() {
    let mut store = Store::new();
    for (id, at) in [("m-1", 1), ("m-2", 2)] {
        store.remember_with(&fact(id), id, at).expect("remember");
    }
    let RunPlan::Embed(sources) = store.plan_embedding_run(&options(9, false), true).expect("plan")
    else {
        panic!("expected work");
    };
    store.refresh_memory("m-2", "changed", 7).expect("refresh");
    let stats = store
        .commit_embeddings(
            &options(9, false),
            &sources,
            &vec![normalized(&[1.0]), normalized(&[1.0])],
        )
        .expect("commit");
    assert_eq!((stats.indexed, stats.stale, stats.remaining), (1, 1, 1));
    let failed = store.commit_embeddings(
        &options(9, false),
        &sources,
        &vec![normalized(&[1.0]), Err(Error::new("no magnitude"))],
    );
    assert_eq!(message(failed), "no magnitude");
}

#[test]
fn cache_presence_uses_hf_hub_layout() {
    let reference = Some("abc123\n".to_owned());
    assert_eq!(
        cached_model_snapshot(&reference).expect("snapshot"),
        vec!["models--Qdrant--bge-small-en-v1.5-onnx-Q", "snapshots", "abc123"]
    );
    assert!(!model_is_cached(&reference, &vec![]));
    let mut present = embedding_model_files();
    assert_eq!(present.len(), 5);
    present.push("README.md".to_owned());
    assert!(model_is_cached(&reference, &present));
    assert!(!model_is_cached(&None, &present));
    assert!(!model_is_cached(&Some(" \n".to_owned()), &present));
    present.remove(0);
    assert!(!model_is_cached(&reference, &present));
}

#[test]
fn the_model_cache_is_chosen_by_the_environment() {
    assert_eq!(model_cache_dir(Some(false), Some(true), false).expect("dir"), CacheChoice::ModelCache);
    assert_eq!(model_cache_dir(None, Some(false), true).expect("dir"), CacheChoice::HfHome);
    assert_eq!(model_cache_dir(None, None, true).expect("dir"), CacheChoice::LocalCache);
    assert_eq!(
        message(model_cache_dir(Some(true), None, true)),
        "MEM_MODEL_CACHE cannot be empty"
    );
    assert_eq!(message(model_cache_dir(None, Some(true), true)), "HF_HOME cannot be empty");
    assert_eq!(
        message(model_cache_dir(None, None, false)),
        "could not determine the local cache directory"
    );
}

#[test]
fn queries_are_checked_before_they_are_embedded() {
    assert_eq!(message(validate_query(" ")), "semantic search query cannot be empty");
    assert!(validate_query("words").is_ok());
    assert_eq!(
        message(embed_query_if_cached("", true)),
        "semantic recall query cannot be empty"
    );
    assert!(embed_query_if_cached("words", true).expect("embed"));
    assert!(!embed_query_if_cached("words", false).expect("skip"));
    assert_eq!(query_vector(vec![vec![1, 2]]).expect("one"), vec![1, 2]);
    assert_eq!(
        message(query_vector(vec![])),
        "embedding inference returned 0 vectors for one search query"
    );
}

#[test]
fn routed_runs_report_the_run_of_their_store() {
    let absent = routed_run_index(&options(1, false), None);
    assert_eq!((absent.stores, absent.claimed, absent.retried), (1, 0, 0));
    let run = JobRunStats { claimed: 5, eligible: 4, committed: 3, stale: 2, retried: 1 };
    let stats = routed_run_index(&options(1, false), Some(run));
    assert_eq!(stats.model, EMBEDDING_MODEL_ID);
    assert_eq!(stats.cache_dir, "/cache");
    assert_eq!(
        (stats.claimed, stats.eligible, stats.committed, stats.stale, stats.retried),
        (5, 4, 3, 2, 1)
    );
}
