use mem_cli::args::{parse_cli, Command, Request};
use mem_cli::cli::{database_path, needs_ignore_file, DatabaseChoice};
use mem_cli::embedding_worker::EMBEDDING_MODEL_ID;
use mem_cli::error::Error;
use mem_cli::memory::NewMemory;
use mem_cli::order::float_key;
use mem_cli::project::ProjectContext;
use mem_cli::run::{
    lexical_query, render_output, run, workspace_override, Output, Place, Supplies,
};
use mem_cli::search::Match;
use mem_cli::store::Store;

fn command(words: &[&str]) -> Command {
    let words: Vec<String> = words.iter().map(|word| (*word).to_owned()).collect();
    match parse_cli(&words) {
        Ok(Request::Run(cli)) => cli.command,
        other => panic!("expected a command, got {other:?}"),
    }
}

fn place() -> Place {
    Place {
        database: "/repo/.mem/mem.db".to_owned(),
        build_commit: "abc".to_owned(),
        project: ProjectContext {
            workspace_id: "branch:main".to_owned(),
            root: Some("/repo".to_owned()),
        },
    }
}

fn supplies() -> Supplies {
    Supplies {
        matches: vec![],
        asked: false,
        vector: None,
        cache_dir: "/cache".to_owned(),
        cached: false,
        show_download_progress: false,
    }
}

fn start(store: Option<Store>, words: &[&str]) -> (Option<Store>, Result<Output, Error>) {
    run(store, place(), command(words), supplies(), |_| 0)
}

fn lines(output: Result<Output, Error>) -> Vec<String> {
    render_output(&output.expect("output"), &vec![])
}

fn seeded() -> Store {
    let mut store = Store::new();
    store
        .remember_with(
            &NewMemory {
                text: "one".to_owned(),
                kind: "fact".to_owned(),
                actor: "agent".to_owned(),
                source_type: "test".to_owned(),
                source_ref: None,
            },
            "m-1",
            1,
        )
        .expect("remember");
    store
}

fn indexed() -> Store {
    let mut store = seeded();
    store
        .upsert_embedding_at("m-1", 1, EMBEDDING_MODEL_ID, Ok(vec![1.0_f32.to_bits()]), 2)
        .expect("vector");
    store
}

#[test]
fn only_writes_create_a_store() {
    for words in [
        vec!["init"],
        vec!["remember", "x"],
        vec!["state", "set", "--goal", "g"],
    ] {
        let (store, output) = start(None, &words);
        assert!(store.is_some());
        assert!(output.is_ok());
    }
    for words in [
        vec!["status"],
        vec!["state", "show"],
        vec!["state", "clear"],
        vec!["context", "q"],
        vec!["search", "q"],
        vec!["search", "q", "--semantic"],
        vec!["index"],
        vec!["export"],
    ] {
        let (store, output) = start(None, &words);
        assert!(store.is_none());
        assert!(output.is_ok());
    }
    for words in [vec!["correct", "a", "b"], vec!["get", "a"], vec!["forget", "a"]] {
        let (store, output) = start(None, &words);
        assert!(store.is_none());
        assert_eq!(
            output.expect_err("no store").message(),
            "memory store not found: /repo/.mem/mem.db"
        );
    }
}

#[test]
fn refused_commands_change_nothing() {
    for words in [
        vec!["remember", " "],
        vec!["correct", "m-1", " "],
        vec!["forget", "m-9"],
        vec!["state", "set", "--clear", "goal"],
    ] {
        let (store, output) = start(Some(seeded()), &words);
        assert!(output.is_err());
        let store = store.expect("store");
        assert_eq!(store.memories.len(), 1);
        assert_eq!(store.memories[0].status, "active");
        assert!(store.states.is_empty());
    }
}

#[test]
fn memories_are_remembered_corrected_read_and_forgotten() {
    let (store, output) = start(Some(seeded()), &["remember", "two", "--kind", "decision"]);
    let Ok(Output::Remembered(memory)) = output else {
        panic!("expected a memory");
    };
    assert_eq!((memory.kind.as_str(), memory.source_type.as_str()), ("decision", "cli"));
    let (store, output) = start(store, &["correct", &memory.id, "three"]);
    let Ok(Output::Corrected(result)) = output else {
        panic!("expected a correction");
    };
    assert_eq!(result.replacement.kind, "decision");
    let (store, output) = start(store, &["get", &result.replacement.id]);
    assert_eq!(lines(output).last().map(String::as_str), Some("text: three"));
    let (store, output) = start(store, &["forget", &result.replacement.id]);
    assert_eq!(lines(output), vec![format!("forgot {}", result.replacement.id)]);
    let (_, output) = start(store, &["export", "--include-superseded"]);
    let Ok(Output::Exported(memories)) = output else {
        panic!("expected records");
    };
    assert_eq!(memories.len(), 2);
}

#[test]
fn workspace_state_is_shown_set_and_cleared() {
    let (store, output) = start(None, &["state", "show"]);
    assert_eq!(lines(output), vec!["no state for branch:main"]);
    let (store, output) = start(store, &["state", "set", "--goal", "ship"]);
    assert_eq!(lines(output)[..2], ["workspace: branch:main", "goal: ship"]);
    let (store, output) = start(store, &["state", "show"]);
    assert_eq!(lines(output)[1], "goal: ship");
    let (store, output) = start(store, &["state", "clear"]);
    assert_eq!(lines(output), vec!["cleared state for branch:main"]);
    let (_, output) = start(store, &["state", "clear"]);
    assert_eq!(lines(output), vec!["no state for branch:main"]);
    assert_eq!(
        workspace_override(&command(&["state", "set", "--workspace", "w", "--goal", "g"])),
        Some("w")
    );
    assert_eq!(workspace_override(&command(&["context", "q", "--workspace", "w"])), Some("w"));
    assert_eq!(workspace_override(&command(&["status"])), None);
}

#[test]
fn lexical_searches_and_contexts_use_the_matches() {
    let matched = || Supplies {
        matches: vec![Match { id: "m-1".to_owned(), rank: 0 }],
        ..supplies()
    };
    let (_, output) = run(Some(seeded()), place(), command(&["search", "one"]), matched(), |_| 0);
    assert_eq!(lines(output), vec!["m-1\tfact\tone"]);
    let (_, output) = run(Some(seeded()), place(), command(&["context", "one"]), matched(), |_| 0);
    assert_eq!(lines(output)[3], "  m-1\tfact\tone");
    assert_eq!(lexical_query(&command(&["search", "q"])), Some("q"));
    assert_eq!(lexical_query(&command(&["search", "q", "--semantic"])), None);
    assert_eq!(lexical_query(&command(&["context", "q"])), Some("q"));
    assert_eq!(lexical_query(&command(&["get", "q"])), None);
}

#[test]
fn complete_indexes_ask_for_the_vector_of_a_query() {
    let (_, output) = start(Some(seeded()), &["search", "one", "--semantic"]);
    assert_eq!(
        output.expect_err("incomplete").message(),
        "semantic index is incomplete; run `mem index` first"
    );
    let (store, output) = start(Some(indexed()), &["search", "one", "--semantic"]);
    assert!(matches!(
        output,
        Ok(Output::WantsVector { query, cached_only: false }) if query == "one"
    ));
    let given = || Supplies { asked: true, vector: Some(Ok(1)), ..supplies() };
    let score = |_: &Vec<u32>| float_key(0.75_f64.to_bits());
    let (store, output) =
        run(store, place(), command(&["search", "one", "--semantic"]), given(), score);
    let output = output.expect("hits");
    assert_eq!(
        render_output(&output, &vec!["0.750000".to_owned()]),
        vec!["m-1\tfact\t0.750000\tone"]
    );
    let (store, output) = start(store, &["context", "one"]);
    assert!(matches!(output, Ok(Output::WantsVector { cached_only: true, .. })));
    let (store, output) = run(store, place(), command(&["context", "one"]), given(), score);
    let Ok(Output::Context(context)) = output else {
        panic!("expected a context");
    };
    assert_eq!(context.memories.len(), 1);
    let lexical = Supplies { asked: true, ..supplies() };
    let (_, output) = run(store, place(), command(&["context", "one"]), lexical, score);
    let Ok(Output::Context(context)) = output else {
        panic!("expected a context");
    };
    assert!(context.memories.is_empty());
}

#[test]
fn index_runs_ask_for_vectors_unless_the_model_must_be_cached() {
    let (_, output) = start(Some(seeded()), &["index", "-n", "5000"]);
    let Ok(Output::Embed { options, sources }) = output else {
        panic!("expected work");
    };
    assert_eq!((options.limit, options.cache_dir.as_str()), (1000, "/cache"));
    assert_eq!(sources.len(), 1);
    let (_, output) = start(Some(seeded()), &["index", "--cached-only"]);
    let Ok(Output::Ran(stats)) = output else {
        panic!("expected nothing to do");
    };
    assert_eq!((stats.indexed, stats.remaining), (0, 1));
    let (_, output) = start(Some(indexed()), &["index"]);
    assert_eq!(lines(output)[3], "remaining: 0");
}

#[test]
fn statuses_tell_whether_there_is_a_store() {
    let (_, output) = start(None, &["status"]);
    assert_eq!(
        lines(output),
        vec![
            "database: /repo/.mem/mem.db",
            "root: /repo",
            "workspace: branch:main",
            "store: not initialized",
        ]
    );
    let (store, output) = start(None, &["init"]);
    assert_eq!(lines(output)[3], "schema: 7");
    assert_eq!(store.expect("store").schema_version, 7);
}

#[test]
fn init_creates_repo_local_store_and_ignore_file() {
    let has_store = vec![false, false];
    assert_eq!(
        database_path(false, false, false, false, None, &has_store),
        DatabaseChoice::Current
    );
    assert!(needs_ignore_file(false, false, &command(&["init"])));
    let (store, output) = start(None, &["init"]);
    assert!(store.is_some());
    let Ok(Output::Status(status)) = output else {
        panic!("expected a status");
    };
    assert_eq!(status.database, "/repo/.mem/mem.db");
}

#[test]
fn write_initializes_repo_local_storage_without_init() {
    let words = ["remember", "repo-local memory", "--source-type", "test"];
    assert!(needs_ignore_file(false, false, &command(&words)));
    let (store, output) = start(None, &words);
    let Ok(Output::Remembered(memory)) = output else {
        panic!("expected a memory");
    };
    assert_eq!(memory.text, "repo-local memory");
    assert_eq!(store.expect("store").memories.len(), 1);
}

#[test]
fn db_override_keeps_exact_file_operation() {
    let words = ["remember", "exact fact"];
    assert_eq!(
        database_path(true, false, true, true, Some(0), &vec![true]),
        DatabaseChoice::Given
    );
    assert!(!needs_ignore_file(true, false, &command(&words)));
    let at = || Place { database: "/tmp/exact.db".to_owned(), ..place() };
    let (store, output) = run(None, at(), command(&words), supplies(), |_| 0);
    assert!(output.is_ok());
    let (_, output) = run(store, at(), command(&["status"]), supplies(), |_| 0);
    let Ok(Output::Status(status)) = output else {
        panic!("expected a status");
    };
    assert_eq!(status.database, "/tmp/exact.db");
    assert_eq!(status.total, 1);
}
