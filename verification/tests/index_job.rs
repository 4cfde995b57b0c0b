use mem_cli::error::Error;
use mem_cli::memory::NewMemory;
use mem_cli::storage::routed_index_stats;
use mem_cli::store::Store;

fn fact(text: &str) -> NewMemory {
    NewMemory {
        text: text.to_owned(),
        kind: "fact".to_owned(),
        actor: "agent".to_owned(),
        source_type: "test".to_owned(),
        source_ref: None,
    }
}

fn message<T>(result: Result<T, Error>) -> String {
    match result {
        Ok(_) => panic!("expected an error"),
        Err(error) => error.message(),
    }
}

#[test]
fn canonical_writes_enqueue_and_completion_removes_jobs() {
    let mut store = Store::new();
    let memory = store.remember(fact("derived index queue")).expect("store memory");

    let stats = store.index_job_stats();
    assert_eq!(stats.pending, 1);
    assert_eq!(stats.running, 0);

    let claimed = store.claim_index_jobs("worker-a", 10, 30_000).expect("claim jobs");
    assert_eq!(claimed.len(), 1);
    assert_eq!(claimed[0].entity_type, "memory");
    assert_eq!(claimed[0].entity_id, memory.id);
    assert_eq!(claimed[0].generation, 1);
    assert_eq!(claimed[0].attempts, 1);

    assert!(store
        .complete_index_job(
            &claimed[0].id,
            claimed[0].generation,
            &claimed[0].lease_token,
        )
        .expect("complete job"));
    let stats = store.index_job_stats();
    assert_eq!(stats.pending, 0);
    assert_eq!(stats.running, 0);
}

#[test]
fn requeue_fences_a_stale_worker_generation() {
    let mut store = Store::new();
    let memory = store.remember(fact("first indexed text")).expect("store memory");

    let first = store
        .claim_index_jobs("worker-a", 1, 30_000)
        .expect("claim first generation")
        .pop()
        .expect("first job");
    assert_eq!(first.generation, 1);

    assert!(store
        .refresh_memory(&memory.id, "updated indexed text", memory.updated_at)
        .expect("refresh memory"));

    assert!(!store
        .complete_index_job(&first.id, first.generation, &first.lease_token)
        .expect("reject stale completion"));
    let second = store
        .claim_index_jobs("worker-b", 1, 30_000)
        .expect("claim refreshed generation")
        .pop()
        .expect("refreshed job");
    assert_eq!(second.id, first.id);
    assert_eq!(second.generation, 2);
    assert_ne!(second.lease_token, first.lease_token);
}

#[test]
fn expired_running_job_can_be_reclaimed() {
    let mut store = Store::new();
    store.remember(fact("lease recovery")).expect("store memory");
    let first = store
        .claim_index_jobs("worker-a", 1, 30_000)
        .expect("claim job")
        .pop()
        .expect("claimed job");
    store.jobs[0].lease_until = Some(0);

    let second = store
        .claim_index_jobs("worker-b", 1, 30_000)
        .expect("reclaim expired job")
        .pop()
        .expect("reclaimed job");
    assert_eq!(second.id, first.id);
    assert_eq!(second.generation, first.generation);
    assert_eq!(second.attempts, 2);
    assert_ne!(second.lease_token, first.lease_token);
    assert!(!store
        .complete_index_job(&first.id, first.generation, &first.lease_token)
        .expect("old lease cannot complete"));
}

#[test]
fn retry_releases_lease_and_defers_reclaim() {
    let mut store = Store::new();
    store.remember(fact("retry indexing")).expect("store memory");
    let claimed = store
        .claim_index_jobs("worker-a", 1, 30_000)
        .expect("claim job")
        .pop()
        .expect("claimed job");
    assert!(store
        .retry_index_job(
            &claimed.id,
            claimed.generation,
            &claimed.lease_token,
            "temporary failure",
            60_000,
        )
        .expect("retry job"));
    assert!(store
        .claim_index_jobs("worker-b", 1, 30_000)
        .expect("respect retry delay")
        .is_empty());
    let job = store.jobs.iter().find(|job| job.id == claimed.id).expect("read retried job");
    assert_eq!(job.state, "pending");
    assert!(job.lease_owner.is_none());
    assert!(job.lease_token.is_none());
    assert!(job.lease_until.is_none());
    assert_eq!(job.last_error.as_deref(), Some("temporary failure"));
}

#[test]
fn claims_take_waiting_jobs_first_and_keep_their_limit() {
    let mut store = Store::new();
    for (id, at) in [("m-1", 30), ("m-2", 10), ("m-3", 20)] {
        store.remember_with(&fact("text"), id, at).expect("remember");
    }
    let ids = |jobs: &[mem_cli::index_job::ClaimedIndexJob]| -> Vec<String> {
        jobs.iter().map(|job| job.id.clone()).collect()
    };
    let first = store.claim_index_jobs_at(" worker ", 1, 5, 100).expect("claim");
    assert_eq!(ids(&first), vec!["m-2"]);
    assert_eq!(first[0].lease_owner, "worker");
    assert_eq!(first[0].lease_until, 105);
    assert_eq!(first[0].index_kind, "embedding");
    let rest = store.claim_index_jobs_at("worker", 10, 5, 106).expect("claim");
    assert_eq!(ids(&rest), vec!["m-3", "m-1", "m-2"], "waiting jobs come before expired ones");
    assert!(store.claim_index_jobs_at("worker", 10, 5, 110).expect("claim").is_empty());
    let stats = routed_index_stats(Some(&store));
    assert_eq!((stats.pending, stats.running), (0, 3));
    let none = routed_index_stats(None);
    assert_eq!((none.pending, none.running), (0, 0));
}

#[test]
fn claims_are_validated() {
    let mut store = Store::new();
    assert_eq!(
        message(store.claim_index_jobs(" ", 1, 1)),
        "index worker identifier cannot be empty"
    );
    assert_eq!(
        message(store.claim_index_jobs("w", 0, 1)),
        "index job claim limit must be greater than zero"
    );
    assert_eq!(
        message(store.claim_index_jobs("w", 1, 0)),
        "index job lease duration must be greater than zero"
    );
    assert_eq!(
        message(store.claim_index_jobs("w", 1, u128::MAX)),
        "out of range integral type conversion attempted"
    );
    assert_eq!(
        message(store.claim_index_jobs_at("w", 1, i64::MAX as u128, 1)),
        "index job lease timestamp overflow"
    );
}

#[test]
fn completions_and_retries_are_validated() {
    let mut store = Store::new();
    assert_eq!(
        message(store.complete_index_job(" ", 1, "t")),
        "index job identifier cannot be empty"
    );
    assert_eq!(
        message(store.complete_index_job("j", 0, "t")),
        "index job generation must be greater than zero"
    );
    assert_eq!(
        message(store.complete_index_job("j", 1, " ")),
        "index job lease token cannot be empty"
    );
    assert!(!store.complete_index_job("j", 1, "t").expect("absent"));
    assert_eq!(
        message(store.retry_index_job("j", 1, "t", "e", u128::MAX)),
        "out of range integral type conversion attempted"
    );
    assert_eq!(
        message(store.retry_index_job_at("j", 1, "t", "e", i64::MAX as u128, 1)),
        "index job retry timestamp overflow"
    );
    assert!(!store.retry_index_job_at("j", 1, "t", "e", 1, 1).expect("absent"));
}
