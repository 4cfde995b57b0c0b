use mem_cli::episode::{check_episode, check_episode_entry, NewEpisode, NewEpisodeEntry};
use mem_cli::error::Error;
use mem_cli::order::float_key;
use mem_cli::search::Match;
use mem_cli::store::Store;
use rusqlite::Connection;

fn message<T>(result: Result<T, Error>) -> String {
    match result {
        Ok(_) => panic!("expected an error"),
        Err(error) => error.message(),
    }
}

fn episode(source_ref: &str) -> NewEpisode {
    NewEpisode {
        project_id: Some("github.com/nijaru/mem".to_owned()),
        workspace_id: Some("branch:main".to_owned()),
        source_type: "pi".to_owned(),
        source_ref: source_ref.to_owned(),
        started_at: Some(10),
        metadata_json: None,
    }
}

fn entry(source_ref: &str, text: &str) -> NewEpisodeEntry {
    NewEpisodeEntry {
        source_ref: source_ref.to_owned(),
        ordinal: None,
        kind: "message".to_owned(),
        role: Some("assistant".to_owned()),
        text: text.to_owned(),
        occurred_at: Some(20),
        metadata_json: None,
    }
}

fn full_text_matches(store: &Store, query: &str) -> Vec<Match> {
    let expression = mem_cli::query::history_query(query).expect("query");
    let connection = Connection::open_in_memory().expect("open");
    connection
        .execute_batch("CREATE VIRTUAL TABLE fts USING fts5(id UNINDEXED, text);")
        .expect("create");
    for entry in &store.entries {
        connection
            .execute("INSERT INTO fts (id, text) VALUES (?1, ?2)", [&entry.id, &entry.text])
            .expect("insert");
    }
    let mut statement = connection
        .prepare("SELECT id, bm25(fts) FROM fts WHERE fts MATCH ?1")
        .expect("prepare");
    let rows = statement
        .query_map([expression], |row| {
            let rank: f64 = row.get(1)?;
            Ok(Match { id: row.get(0)?, rank: float_key(rank.to_bits()) })
        })
        .expect("query");
    rows.map(|row| row.expect("row")).collect()
}

#[test]
fn history_preserves_exact_source_backreferences() {
    let mut store = Store::new();
    let project = "github.com/nijaru/mem";

    let episode = store
        .ensure_episode(NewEpisode {
            project_id: Some(project.to_owned()),
            workspace_id: Some("branch:main".to_owned()),
            source_type: "pi".to_owned(),
            source_ref: "session-1".to_owned(),
            started_at: Some(10),
            metadata_json: None,
        })
        .expect("create episode");
    let duplicate = store
        .ensure_episode(NewEpisode {
            project_id: Some(project.to_owned()),
            workspace_id: Some("branch:main".to_owned()),
            source_type: "pi".to_owned(),
            source_ref: "session-1".to_owned(),
            started_at: Some(10),
            metadata_json: None,
        })
        .expect("ensure episode idempotently");
    assert_eq!(duplicate.id, episode.id);

    store
        .record_episode_entry(
            &episode.id,
            NewEpisodeEntry {
                source_ref: "entry-7".to_owned(),
                ordinal: Some(7),
                kind: "message".to_owned(),
                role: Some("assistant".to_owned()),
                text: "publication handoff succeeded".to_owned(),
                occurred_at: Some(20),
                metadata_json: None,
            },
        )
        .expect("record episode entry");

    let matches = full_text_matches(&store, "publication handoff");
    let hits = store
        .history_search("publication handoff", &Some(project.to_owned()), 10, &matches)
        .expect("search history");
    assert_eq!(hits.len(), 1);
    assert_eq!(hits[0].episode_source_ref, "session-1");
    assert_eq!(hits[0].entry_source_ref, "entry-7");

    let record = store.get_episode(&episode.id).expect("read episode");
    assert_eq!(record.entries.len(), 1);
    assert_eq!(record.entries[0].source_ref, "entry-7");
    assert_eq!(store.stats().schema_version, 7);
}

#[test]
fn recording_entries_never_queues_embedding_work() {
    let mut store = Store::new();
    let episode = store
        .ensure_episode(NewEpisode {
            project_id: None,
            workspace_id: None,
            source_type: "pi-session".to_owned(),
            source_ref: "session-1".to_owned(),
            started_at: Some(10),
            metadata_json: None,
        })
        .expect("create episode");
    store
        .record_episode_entry(
            &episode.id,
            NewEpisodeEntry {
                source_ref: "message-1".to_owned(),
                ordinal: Some(0),
                kind: "message".to_owned(),
                role: None,
                text: "recorded without embedding work".to_owned(),
                occurred_at: Some(20),
                metadata_json: None,
            },
        )
        .expect("record entry");
    let stats = store.index_job_stats();
    assert_eq!(stats.pending + stats.running, 0);
    assert_eq!(store.embeddings.len(), 0);
}

#[test]
fn episodes_are_bound_to_their_first_project() {
    let mut store = Store::new();
    let first = store.ensure_episode_with(&episode("s"), "e-1", 99).expect("create");
    assert_eq!(first.id, "e-1");
    assert_eq!(first.started_at, Some(10));
    let mut other = episode("s");
    other.workspace_id = Some("branch:other".to_owned());
    assert_eq!(
        message(store.ensure_episode(other)),
        "episode source pi:s is already bound to a different project/workspace"
    );
    let mut open = episode("t");
    open.started_at = None;
    assert_eq!(
        store.ensure_episode_with(&open, "e-2", 99).expect("create").started_at,
        Some(99)
    );
    assert_eq!(
        message(store.ensure_episode_with(&episode("u"), "e-2", 99)),
        "UNIQUE constraint failed: episodes.id"
    );
    assert_eq!(store.episodes.len(), 2);
}

#[test]
fn metadata_must_be_json() {
    let mut store = Store::new();
    let mut input = episode("s");
    input.metadata_json = Some("{\"a\": [1, 2.5, null]}".to_owned());
    store.ensure_episode_with(&input, "e-1", 1).expect("valid metadata");
    let mut input = episode("t");
    input.metadata_json = Some("{a: 1}".to_owned());
    assert_eq!(
        message(store.ensure_episode(input)),
        "episode metadata must be valid JSON: key must be a string at line 1 column 2"
    );
    let mut input = entry("e", "text");
    input.metadata_json = Some("[1,".to_owned());
    assert_eq!(
        message(store.record_episode_entry("e-1", input)),
        "episode entry metadata must be valid JSON: EOF while parsing a value at line 1 column 3"
    );
    let mut input = entry("e", "text");
    input.metadata_json = Some("\"text\"".to_owned());
    store.record_episode_entry("e-1", input).expect("valid metadata");
    let cause = Some("cause".to_owned());
    assert_eq!(
        message(check_episode(&episode("x"), &cause)),
        "episode metadata must be valid JSON: cause"
    );
    assert!(check_episode(&episode("x"), &None).is_ok());
    assert_eq!(
        message(check_episode_entry(&entry("x", "y"), &cause)),
        "episode entry metadata must be valid JSON: cause"
    );
    assert!(check_episode_entry(&entry("x", "y"), &None).is_ok());
}

#[test]
fn episodes_and_entries_are_validated() {
    let mut store = Store::new();
    let mut input = episode("s");
    input.source_type = " ".to_owned();
    assert_eq!(message(store.ensure_episode(input)), "episode source type cannot be empty");
    assert_eq!(
        message(store.ensure_episode(episode(" "))),
        "episode source reference cannot be empty"
    );
    let mut input = episode("s");
    input.project_id = None;
    assert_eq!(message(store.ensure_episode(input)), "episode workspace requires a project");
    let mut input = episode("s");
    input.project_id = Some(" ".to_owned());
    assert_eq!(message(store.ensure_episode(input)), "project identifier cannot be empty");
    let mut input = episode("s");
    input.workspace_id = Some(" ".to_owned());
    assert_eq!(message(store.ensure_episode(input)), "workspace identifier cannot be empty");

    store.ensure_episode_with(&episode("s"), "e-1", 1).expect("create");
    assert_eq!(
        message(store.record_episode_entry("e-1", entry(" ", "x"))),
        "episode entry source reference cannot be empty"
    );
    let mut input = entry("e", "x");
    input.kind = String::new();
    assert_eq!(
        message(store.record_episode_entry("e-1", input)),
        "episode entry kind cannot be empty"
    );
    assert_eq!(
        message(store.record_episode_entry("e-1", entry("e", " "))),
        "episode entry text cannot be empty"
    );
    let mut input = entry("e", "x");
    input.ordinal = Some(-1);
    assert_eq!(
        message(store.record_episode_entry("e-1", input)),
        "episode entry ordinal cannot be negative"
    );
    let mut input = entry("e", "x");
    input.role = Some(" ".to_owned());
    assert_eq!(
        message(store.record_episode_entry("e-1", input)),
        "episode entry role cannot be empty"
    );
}

#[test]
fn entries_are_numbered_and_rewritten_in_place() {
    let mut store = Store::new();
    store.ensure_episode_with(&episode("s"), "e-1", 1).expect("create");
    let first = store.record_episode_entry_with("e-1", &entry("a", "one"), "x-1").expect("first");
    assert_eq!(first.ordinal, 0);
    let mut placed = entry("b", "two");
    placed.ordinal = Some(7);
    store.record_episode_entry_with("e-1", &placed, "x-2").expect("second");
    let third = store.record_episode_entry_with("e-1", &entry("c", "three"), "x-3").expect("third");
    assert_eq!(third.ordinal, 8);
    let again = store
        .record_episode_entry_with("e-1", &entry("b", "two, revised"), "x-9")
        .expect("rewrite");
    assert_eq!(again.id, "x-2");
    assert_eq!(again.ordinal, 7);
    assert_eq!(again.text, "two, revised");
    assert_eq!(
        message(store.record_episode_entry_with("e-1", &entry("d", "x"), "x-1")),
        "UNIQUE constraint failed: episode_entries.id"
    );
    let order: Vec<String> = store
        .get_episode("e")
        .expect("by prefix")
        .entries
        .into_iter()
        .map(|entry| entry.id)
        .collect();
    assert_eq!(order, vec!["x-1", "x-2", "x-3"]);
    let mut last = entry("z", "last");
    last.ordinal = Some(i64::MAX);
    store.record_episode_entry_with("e-1", &last, "x-4").expect("last ordinal");
    assert_eq!(
        message(store.record_episode_entry_with("e-1", &entry("y", "x"), "x-5")),
        "episode entry ordinal overflow"
    );
}

#[test]
fn episode_identifiers_resolve_exactly_or_by_a_unique_match() {
    let mut store = Store::new();
    for (index, id) in ["abc", "abcd", "xyz"].iter().enumerate() {
        store
            .ensure_episode_with(&episode(&format!("s{index}")), id, 1)
            .expect("create");
    }
    assert_eq!(store.resolve_episode_id("abc").expect("exact"), "abc");
    assert_eq!(store.resolve_episode_id("x").expect("prefix"), "xyz");
    assert_eq!(store.resolve_episode_id("X").expect("prefix in capitals"), "xyz");
    for wildcard in ["_y", "%", "x%", "_yz"] {
        assert_eq!(
            message(store.resolve_episode_id(wildcard)),
            format!("episode not found: {wildcard}")
        );
        assert!(store.episode_id_candidates(wildcard).is_empty());
    }
    assert_eq!(message(store.resolve_episode_id("ab")), "ambiguous episode ID prefix: ab");
    assert_eq!(message(store.resolve_episode_id("q")), "episode not found: q");
    assert_eq!(message(store.resolve_episode_id(" ")), "episode ID cannot be empty");
    assert_eq!(store.episode_id_candidates("abc"), vec!["abc", "abcd"]);
    assert_eq!(store.episode_id_candidates(""), vec!["abc", "abcd", "xyz"]);
}

#[test]
fn candidates_are_the_first_identifiers_that_begin_with_the_text() {
    let mut store = Store::new();
    for (index, id) in ["abd", "ABC", "abe", "b", "ab", "a%c"].iter().enumerate() {
        store
            .ensure_episode_with(&episode(&format!("s{index}")), id, 1)
            .expect("create");
    }
    assert_eq!(store.episode_id_candidates("ab"), vec!["ab", "ABC", "abd"]);
    assert_eq!(store.episode_id_candidates(" AB "), vec!["ABC", "ab", "abd"]);
    assert_eq!(store.episode_id_candidates("a%"), vec!["a%c"]);
    assert_eq!(store.episode_id_candidates("abe"), vec!["abe"]);
    assert!(store.episode_id_candidates("c").is_empty());
}

#[test]
fn an_entry_that_is_recorded_again_keeps_its_identifier() {
    let mut store = Store::new();
    store.ensure_episode_with(&episode("s"), "e-1", 1).expect("create");
    let first = store.record_episode_entry("e-1", entry("a", "one")).expect("record");
    assert_eq!(first.id.len(), 36);
    let again = store.record_episode_entry("e-1", entry("a", "one, revised")).expect("rewrite");
    assert_eq!(again.id, first.id);
    assert_eq!(again.ordinal, first.ordinal);
    assert_eq!(again.text, "one, revised");
    assert_eq!(store.entries.len(), 1);
    let other = store.record_episode_entry("e-1", entry("b", "two")).expect("record");
    assert_ne!(other.id, first.id);
    assert_eq!(other.ordinal, first.ordinal + 1);
    assert_eq!(
        message(store.record_episode_entry("e-1", entry("c", " "))),
        "episode entry text cannot be empty"
    );
    assert_eq!(
        message(store.record_episode_entry("q", entry("c", "x"))),
        "episode not found: q"
    );
}

#[test]
fn episodes_end_once_resolved() {
    let mut store = Store::new();
    store.ensure_episode_with(&episode("s"), "e-1", 1).expect("create");
    assert_eq!(store.end_episode_with("e-1", None, 77).expect("end").ended_at, Some(77));
    assert_eq!(store.end_episode("e-1", Some(5)).expect("end").ended_at, Some(5));
    assert_eq!(store.episodes[0].ended_at, Some(5));
    assert!(store.end_episode("e-1", None).expect("end").ended_at.expect("time") > 5);
    assert_eq!(message(store.end_episode("q", None)), "episode not found: q");
}

#[test]
fn history_is_searched_within_one_project() {
    let mut store = Store::new();
    store.ensure_episode_with(&episode("s"), "e-1", 1).expect("create");
    let mut later = episode("t");
    later.started_at = Some(50);
    store.ensure_episode_with(&later, "e-2", 1).expect("create");
    let mut loose = episode("u");
    loose.project_id = None;
    loose.workspace_id = None;
    store.ensure_episode_with(&loose, "e-3", 1).expect("create");
    for (target, id) in [("e-1", "x-1"), ("e-2", "x-2"), ("e-3", "x-3")] {
        store.record_episode_entry_with(target, &entry("a", "same words"), id).expect("entry");
    }
    let matches = full_text_matches(&store, "words same");
    let ids = |project: Option<&str>, limit: usize| -> Vec<String> {
        store
            .history_search("same words", &project.map(str::to_owned), limit, &matches)
            .expect("search")
            .into_iter()
            .map(|hit| hit.entry_id)
            .collect()
    };
    assert_eq!(ids(Some("github.com/nijaru/mem"), 10), vec!["x-2", "x-1"]);
    assert_eq!(ids(Some("github.com/nijaru/mem"), 1), vec!["x-2"]);
    assert_eq!(ids(None, 10), vec!["x-3"]);
    assert!(ids(Some("elsewhere"), 10).is_empty());
    assert!(ids(None, 0).is_empty());
    assert_eq!(
        message(store.history_search("", &None, 10, &matches)),
        "history query cannot be empty"
    );
}
