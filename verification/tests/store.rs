use mem_cli::clock::{timestamp, to_i64, unix_millis};
use mem_cli::memory::{is_known_kind, Memory, NewCorrection, NewMemory};
use mem_cli::order::float_key;
use mem_cli::search::Match;
use mem_cli::state::{is_known_field, WorkspaceStateUpdate};
use mem_cli::store::Store;
use rusqlite::Connection;

fn fact(text: &str) -> NewMemory {
    NewMemory {
        text: text.to_owned(),
        kind: "fact".to_owned(),
        actor: "agent".to_owned(),
        source_type: "test".to_owned(),
        source_ref: None,
    }
}

fn remember(store: &mut Store, text: &str) -> Memory {
    store.remember(fact(text)).expect("remember")
}

fn correction(text: &str) -> NewCorrection {
    NewCorrection {
        text: text.to_owned(),
        kind: None,
        actor: "agent".to_owned(),
        source_type: "test".to_owned(),
        source_ref: None,
    }
}

fn full_text_matches(store: &Store, query: &str) -> Vec<Match> {
    let expression = mem_cli::query::fts_query(query).expect("query");
    let connection = Connection::open_in_memory().expect("open");
    connection
        .execute_batch("CREATE VIRTUAL TABLE fts USING fts5(id UNINDEXED, text);")
        .expect("create");
    for memory in &store.memories {
        connection
            .execute("INSERT INTO fts (id, text) VALUES (?1, ?2)", [&memory.id, &memory.text])
            .expect("insert");
    }
    let mut statement = connection
        .prepare("SELECT id, bm25(fts) FROM fts WHERE fts MATCH ?1")
        .expect("prepare");
    let rows = statement
        .query_map([expression], |row| {
            let rank: f64 = row.get(1)?;
            Ok(Match { id: row.get(0)?, rank: float_key(rank.to_bits()) })
        })
        .expect("query");
    rows.map(|row| row.expect("row")).collect()
}

fn message<T>(result: Result<T, mem_cli::error::Error>) -> String {
    match result {
        Ok(_) => panic!("expected an error"),
        Err(error) => error.message(),
    }
}

#[test]
fn correction_preserves_history_and_provenance() {
    let mut store = Store::new();
    let first = remember(&mut store, "old statement");
    let result = store
        .correct(
            &first.id,
            NewCorrection {
                text: "new statement".to_owned(),
                kind: None,
                actor: "agent".to_owned(),
                source_type: "test".to_owned(),
                source_ref: Some("correction".to_owned()),
            },
        )
        .expect("correct");
    assert_eq!(result.previous.status, "superseded");
    assert_eq!(
        result.previous.superseded_by.as_deref(),
        Some(result.replacement.id.as_str())
    );
    assert_eq!(result.replacement.source_ref.as_deref(), Some("correction"));
    let matches = full_text_matches(&store, "statement");
    assert_eq!(matches.len(), 2);
    let hits = store.search("statement", 10, &matches).expect("search");
    assert_eq!(hits.len(), 1);
    assert_eq!(hits[0].memory.id, result.replacement.id);
}

#[test]
fn workspace_state_set_is_partial_and_clear_is_explicit() {
    let mut store = Store::new();
    store
        .update_workspace_state(WorkspaceStateUpdate {
            workspace: "branch:main".to_owned(),
            goal: Some("ship".to_owned()),
            checkpoint: Some("tests green".to_owned()),
            ..Default::default()
        })
        .expect("set state");
    let state = store
        .update_workspace_state(WorkspaceStateUpdate {
            workspace: "branch:main".to_owned(),
            session: Some("s2".to_owned()),
            clear_fields: vec!["checkpoint".to_owned()],
            ..Default::default()
        })
        .expect("patch state");
    assert_eq!(state.goal.as_deref(), Some("ship"));
    assert_eq!(state.session.as_deref(), Some("s2"));
    assert!(state.checkpoint.is_none());
}

#[test]
fn state_clear_cannot_race_set_into_resurrecting_a_row() {
    let mut store = Store::new();
    store
        .update_workspace_state(WorkspaceStateUpdate {
            workspace: "branch:main".to_owned(),
            goal: Some("ship".to_owned()),
            ..Default::default()
        })
        .expect("seed");
    assert!(store.clear_workspace_state("branch:main").expect("clear"));
    let result = store.update_workspace_state(WorkspaceStateUpdate {
        workspace: "branch:main".to_owned(),
        clear_fields: vec!["goal".to_owned()],
        ..Default::default()
    });
    assert!(result.is_err());
    assert!(store.workspace_state("branch:main").expect("read").is_none());
}

#[test]
fn wildcard_characters_are_literal_in_prefixes() {
    let mut store = Store::new();
    let memory = remember(&mut store, "literal wildcard memory");
    for wildcard in ["_", "%", "\\"] {
        assert!(store.get(wildcard).is_err());
    }
    assert_eq!(
        store.get(&memory.id[..8]).expect("resolve prefix").id,
        memory.id
    );
}

#[test]
fn remembered_memories_read_back_with_their_fields() {
    let mut store = Store::new();
    let stored = store
        .remember_with(
            &NewMemory {
                text: "use release ordering".to_owned(),
                kind: "decision".to_owned(),
                actor: "user".to_owned(),
                source_type: "git".to_owned(),
                source_ref: Some("abc123".to_owned()),
            },
            "m-1",
            42,
        )
        .expect("remember");
    let read = store.get("m-1").expect("get");
    for memory in [&stored, &read] {
        assert_eq!(memory.id, "m-1");
        assert_eq!(memory.text, "use release ordering");
        assert_eq!(memory.kind, "decision");
        assert_eq!(memory.actor, "user");
        assert_eq!(memory.source_type, "git");
        assert_eq!(memory.source_ref.as_deref(), Some("abc123"));
        assert_eq!(memory.status, "active");
        assert_eq!(memory.superseded_by, None);
        assert_eq!(memory.created_at, 42);
        assert_eq!(memory.updated_at, 42);
        assert_eq!(memory.deleted_at, None);
    }
    assert_eq!(
        message(store.remember_with(&fact("again"), "m-1", 43)),
        "UNIQUE constraint failed: memories.id"
    );
}

#[test]
fn fresh_identifiers_are_version_seven_and_distinct() {
    let mut store = Store::new();
    let first = remember(&mut store, "first");
    let second = remember(&mut store, "second");
    assert_ne!(first.id, second.id);
    let parsed = uuid::Uuid::parse_str(&first.id).expect("uuid");
    assert_eq!(parsed.get_version_num(), 7);
    assert_eq!(parsed.to_string(), first.id);
    let now = unix_millis().expect("clock");
    assert!(first.created_at <= now && now - first.created_at < 60_000);
}

#[test]
fn memories_are_validated_field_by_field() {
    let mut store = Store::new();
    assert_eq!(message(store.remember(fact(" \n"))), "memory text cannot be empty");
    let mut input = fact("text");
    input.kind = "rumor".to_owned();
    assert_eq!(
        message(store.remember(input)),
        "unknown memory kind 'rumor'; expected one of: fact, finding, decision, constraint, preference, procedure"
    );
    let mut input = fact("text");
    input.actor = "\t".to_owned();
    assert_eq!(message(store.remember(input)), "memory actor cannot be empty");
    let mut input = fact("text");
    input.source_type = String::new();
    assert_eq!(message(store.remember(input)), "memory source type cannot be empty");
    let mut input = fact("text");
    input.source_ref = Some(" ".to_owned());
    assert_eq!(message(store.remember(input)), "source reference cannot be empty");
    assert!(store.memories.is_empty());
    assert!(store.jobs.is_empty());
    for kind in ["fact", "finding", "decision", "constraint", "preference", "procedure"] {
        assert!(is_known_kind(kind));
    }
    assert!(!is_known_kind("Fact"));
}

#[test]
fn identifiers_resolve_exactly_or_by_a_unique_prefix() {
    let mut store = Store::new();
    for id in ["abc", "abcd", "xyz"] {
        store.remember_with(&fact("text"), id, 1).expect("remember");
    }
    assert_eq!(store.get(" abc ").expect("exact").id, "abc");
    assert_eq!(store.get("X").expect("prefix in other case").id, "xyz");
    assert_eq!(message(store.get("ab")), "ambiguous memory ID prefix: ab");
    assert_eq!(message(store.get("q")), "memory not found: q");
    assert_eq!(message(store.get("  ")), "memory ID cannot be empty");
}

#[test]
fn only_active_memories_are_corrected_and_forgotten() {
    let mut store = Store::new();
    store.remember_with(&fact("one"), "m-1", 1).expect("remember");
    let result = store
        .correct_with("m-1", &correction("two"), "m-2", 2)
        .expect("correct");
    assert_eq!(result.previous.text, "one");
    assert_eq!(result.previous.updated_at, 2);
    assert_eq!(result.previous.created_at, 1);
    assert_eq!(result.replacement.kind, "fact");
    assert_eq!(
        message(store.correct_with("m-1", &correction("three"), "m-3", 3)),
        "memory m-1 is superseded; only active memory can be corrected"
    );
    assert_eq!(message(store.forget("m-1")), "memory m-1 is already superseded");
    assert_eq!(store.forget_with("m-2", 9).expect("forget"), "m-2");
    let gone = store.get("m-2").expect("still readable");
    assert_eq!(gone.status, "deleted");
    assert_eq!(gone.deleted_at, Some(9));
    assert_eq!(gone.text, "two");
    assert_eq!(message(store.forget("m-2")), "memory m-2 is already deleted");
    assert_eq!(
        message(store.correct("m-2", correction("x"))),
        "memory m-2 is deleted; only active memory can be corrected"
    );
    let stats = store.stats();
    assert_eq!(
        (stats.schema_version, stats.total, stats.active, stats.superseded, stats.deleted),
        (7, 2, 0, 1, 1)
    );
    assert!(store.jobs.is_empty(), "retired memories leave the queue");
}

#[test]
fn a_memory_is_corrected_once_and_forgotten_once() {
    let mut store = Store::new();
    store.remember_with(&fact("one"), "abc-1", 5).expect("remember");
    store.remember_with(&fact("two"), "xyz-1", 5).expect("remember");
    store.correct_with("abc", &correction("one, corrected"), "def-1", 6).expect("correct");
    for target in ["abc-1", "abc", " ABC "] {
        assert_eq!(
            message(store.correct_with(target, &correction("again"), "ghi-1", 7)),
            "memory abc-1 is superseded; only active memory can be corrected"
        );
    }
    store.correct_with("def-1", &correction("again"), "ghi-1", 7).expect("correct the replacement");
    store.forget_with("xyz", 8).expect("forget");
    for target in ["xyz-1", "xyz", " X "] {
        assert_eq!(
            message(store.forget_with(target, 9)),
            "memory xyz-1 is already deleted"
        );
        assert_eq!(
            message(store.correct_with(target, &correction("again"), "jkl-1", 9)),
            "memory xyz-1 is deleted; only active memory can be corrected"
        );
    }
}

#[test]
fn corrections_are_validated_and_keep_identifiers_unique() {
    let mut store = Store::new();
    store.remember_with(&fact("one"), "m-1", 1).expect("remember");
    store.remember_with(&fact("other"), "m-2", 1).expect("remember");
    assert_eq!(
        message(store.correct_with("m-1", &correction(" "), "m-3", 2)),
        "memory text cannot be empty"
    );
    assert_eq!(
        message(store.correct_with("m-1", &correction("two"), "m-2", 2)),
        "UNIQUE constraint failed: memories.id"
    );
    assert_eq!(store.get("m-1").expect("get").status, "active");
    let mut changed = correction("two");
    changed.kind = Some("decision".to_owned());
    let result = store.correct_with("m-1", &changed, "m-3", 2).expect("correct");
    assert_eq!(result.replacement.kind, "decision");
}

#[test]
fn memories_with_one_identifier_are_not_changed_silently() {
    let mut store = Store::new();
    store.remember_with(&fact("one"), "m-1", 1).expect("remember");
    let twin = store.get("m-1").expect("get");
    store.memories.push(twin);
    assert_eq!(
        message(store.correct_with("m-1", &correction("two"), "m-2", 2)),
        "memory changed while correction was being applied"
    );
    assert_eq!(
        message(store.forget_with("m-1", 2)),
        "memory changed while it was being forgotten"
    );
    assert_eq!(store.memories.len(), 2);
}

#[test]
fn search_orders_by_rank_and_recency_and_keeps_its_limit() {
    let mut store = Store::new();
    store.remember_with(&fact("a"), "m-1", 1).expect("remember");
    store.remember_with(&fact("b"), "m-2", 2).expect("remember");
    store.remember_with(&fact("c"), "m-3", 3).expect("remember");
    let ranked = |id: &str, rank: f64| Match {
        id: id.to_owned(),
        rank: float_key(rank.to_bits()),
    };
    let matches = vec![
        ranked("m-1", -1.5),
        ranked("m-2", -1.5),
        ranked("m-3", -0.5),
        ranked("absent", -9.0),
    ];
    let ids = |limit: usize| -> Vec<String> {
        store
            .search("words", limit, &matches)
            .expect("search")
            .into_iter()
            .map(|hit| hit.memory.id)
            .collect()
    };
    assert_eq!(ids(10), vec!["m-2", "m-1", "m-3"]);
    assert_eq!(ids(1), vec!["m-2"]);
    assert_eq!(message(store.search(" ", 10, &matches)), "query cannot be empty");
    assert_eq!(
        message(store.search("words", 0, &matches)),
        "search limit must be greater than zero"
    );
}

#[test]
fn state_updates_are_validated() {
    let mut store = Store::new();
    let update = |workspace: &str| WorkspaceStateUpdate {
        workspace: workspace.to_owned(),
        ..Default::default()
    };
    assert_eq!(
        message(store.update_workspace_state(update(" "))),
        "workspace cannot be empty"
    );
    assert_eq!(
        message(store.update_workspace_state(update("w"))),
        "state set requires at least one field to set or clear"
    );
    for (name, input) in [
        ("session", WorkspaceStateUpdate { session: Some(" ".to_owned()), ..update("w") }),
        ("goal", WorkspaceStateUpdate { goal: Some(" ".to_owned()), ..update("w") }),
        ("task", WorkspaceStateUpdate { task: Some(" ".to_owned()), ..update("w") }),
        ("checkpoint", WorkspaceStateUpdate { checkpoint: Some(" ".to_owned()), ..update("w") }),
    ] {
        assert_eq!(
            message(store.update_workspace_state(input)),
            format!("{name} cannot be empty")
        );
    }
    assert_eq!(
        message(store.update_workspace_state(WorkspaceStateUpdate {
            clear_fields: vec!["goal".to_owned(), "mood".to_owned()],
            ..update("w")
        })),
        "unknown state field: mood"
    );
    assert_eq!(
        message(store.update_workspace_state(WorkspaceStateUpdate {
            task: Some("t".to_owned()),
            clear_fields: vec!["task".to_owned()],
            ..update("w")
        })),
        "state field task cannot be set and cleared together"
    );
    assert_eq!(
        message(store.update_workspace_state(WorkspaceStateUpdate {
            clear_fields: vec!["task".to_owned()],
            ..update("w")
        })),
        "no state for w"
    );
    assert_eq!(message(store.workspace_state("")), "workspace cannot be empty");
    assert_eq!(message(store.clear_workspace_state("")), "workspace cannot be empty");
    assert!(!store.clear_workspace_state("w").expect("clear"));
    assert!(is_known_field("checkpoint") && !is_known_field("workspace"));
}

#[test]
fn states_of_other_workspaces_are_untouched() {
    let mut store = Store::new();
    for workspace in ["a", "b"] {
        store
            .update_workspace_state_at(
                &WorkspaceStateUpdate {
                    workspace: workspace.to_owned(),
                    goal: Some(format!("goal {workspace}")),
                    ..Default::default()
                },
                5,
            )
            .expect("set");
    }
    assert!(store.clear_workspace_state("a").expect("clear"));
    let other = store.workspace_state("b").expect("read").expect("state");
    assert_eq!(other.goal.as_deref(), Some("goal b"));
    assert_eq!(other.updated_at, 5);
    assert!(store.workspace_state("a").expect("read").is_none());
}

#[test]
fn changed_texts_are_queued_again() {
    let mut store = Store::new();
    store.remember_with(&fact("one"), "m-1", 1).expect("remember");
    assert!(store.refresh_memory("m-1", "two", 2).expect("refresh"));
    assert!(!store.refresh_memory("m-2", "two", 2).expect("absent"));
    assert_eq!(store.memories[0].text, "two");
    assert_eq!(store.memories[0].updated_at, 2);
    assert_eq!(store.jobs.len(), 1);
    assert_eq!(store.jobs[0].generation, 2);
    assert_eq!(message(store.refresh_memory("m-1", " ", 3)), "memory text cannot be empty");
    store.jobs[0].generation = i64::MAX;
    assert_eq!(
        message(store.refresh_memory("m-1", "three", 3)),
        "index job generation overflow"
    );
}

#[test]
fn timestamps_reject_unusable_clocks() {
    assert_eq!(timestamp(Ok(1_700_000_000_000)).expect("time"), 1_700_000_000_000);
    assert_eq!(
        message(timestamp(Err("second time provided was later than self".to_owned()))),
        "system clock is before the Unix epoch: second time provided was later than self"
    );
    assert_eq!(
        message(timestamp(Ok(u128::from(u64::MAX)))),
        "out of range integral type conversion attempted"
    );
    assert_eq!(to_i64(i64::MAX as u128).expect("fits"), i64::MAX);
    assert!(to_i64(i64::MAX as u128 + 1).is_err());
}
