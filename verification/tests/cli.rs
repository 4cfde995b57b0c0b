use mem_cli::args::{parse_cli, Command, MemCli, Request, StateCommand};
use mem_cli::cli::{
    build_context, build_identity, command_creates_store, database_path, index_limit,
    index_without_store, missing_store, needs_ignore_file, new_correction, new_memory,
    result_limit, state_update, store_status, DatabaseChoice, RECALL_DEFAULT_MAX_BYTES,
};
use mem_cli::embedding_worker::EMBEDDING_MODEL_ID;
use mem_cli::memory::{Memory, NewCorrection, NewMemory};
use mem_cli::order::float_key;
use mem_cli::render::{
    render_cleared, render_context, render_correction, render_memory, render_memory_line,
    render_run, render_scored_line, render_status, render_version, render_workspace_state,
};
use mem_cli::search::{Match, SearchHit};
use mem_cli::state::{WorkspaceState, WorkspaceStateUpdate};
use mem_cli::storage::{
    routed_history_search, routed_lexical_search, routed_recall_hits, routed_resolve_episode, routed_resolve_memory,
    routed_workspace_state, StorageRouter,
};
use mem_cli::store::Store;
use mem_cli::workspace::GitOutput;

fn words(args: &str) -> Vec<String> {
    args.split_whitespace().map(str::to_owned).collect()
}

fn parse(args: &str) -> MemCli {
    match parse_cli(&words(args)) {
        Ok(Request::Run(cli)) => cli,
        other => panic!("expected a command, got {other:?}"),
    }
}

fn refusal(args: &str) -> String {
    match parse_cli(&words(args)) {
        Ok(other) => panic!("expected an error, got {other:?}"),
        Err(error) => error.message(),
    }
}

fn fact(text: &str) -> NewMemory {
    NewMemory {
        text: text.to_owned(),
        kind: "fact".to_owned(),
        actor: "agent".to_owned(),
        source_type: "test".to_owned(),
        source_ref: None,
    }
}

fn hit(store: &mut Store, id: &str, text: &str) -> SearchHit {
    SearchHit { memory: store.remember_with(&fact(text), id, 1).expect("remember"), rank: 0 }
}

#[test]
fn remember_metadata_is_explicit() {
    let cli = parse(
        "remember text-here --kind finding --actor agent --source-type cli --source-ref r",
    );
    let Command::Remember(command) = &cli.command else {
        panic!("expected remember");
    };
    assert_eq!(command.kind.as_deref(), Some("finding"));
    assert_eq!(command.source_ref.as_deref(), Some("r"));
}

#[test]
fn state_set_is_partial_and_supports_clear() {
    let cli = parse("state set --goal g --session s --clear checkpoint");
    let Command::State(state) = &cli.command else {
        panic!("expected state");
    };
    let StateCommand::Update(set) = state else {
        panic!("expected set");
    };
    assert_eq!(set.goal.as_deref(), Some("g"));
    assert_eq!(set.clear, vec!["checkpoint".to_owned()]);
}

#[test]
fn index_is_one_command_not_a_worker_protocol() {
    let cli = parse("index --cached-only -n 4");
    let Command::Index(index) = &cli.command else {
        panic!("expected index");
    };
    assert!(index.cached_only);
    assert_eq!(index.limit, Some(4));
}

#[test]
fn global_options_stand_anywhere() {
    for line in [
        "--json --db /tmp/x.db get abc",
        "get --json abc --db=/tmp/x.db",
        "get abc --db /tmp/first.db --db /tmp/x.db --json",
    ] {
        let cli = parse(line);
        assert!(cli.json);
        assert_eq!(cli.db.as_deref(), Some("/tmp/x.db"));
        let Command::Get(get) = &cli.command else {
            panic!("expected get");
        };
        assert_eq!(get.id, "abc");
    }
    assert!(!parse("status").json);
}

#[test]
fn every_command_is_read() {
    assert!(matches!(parse("init").command, Command::Init));
    assert!(matches!(parse("status").command, Command::Status));
    assert!(matches!(
        parse("state show --workspace w").command,
        Command::State(StateCommand::Show(c)) if c.workspace.as_deref() == Some("w")
    ));
    assert!(matches!(
        parse("state clear").command,
        Command::State(StateCommand::Clear(c)) if c.workspace.is_none()
    ));
    assert!(matches!(
        parse("context q --limit 3 --max-bytes 0 --workspace w").command,
        Command::Context(c) if c.query == "q" && c.limit == Some(3) && c.max_bytes == Some(0)
            && c.workspace.as_deref() == Some("w")
    ));
    assert!(matches!(
        parse("correct id text --kind fact").command,
        Command::Correct(c) if c.id == "id" && c.text == "text" && c.kind.as_deref() == Some("fact")
    ));
    assert!(matches!(
        parse("search q --semantic").command,
        Command::Search(c) if c.query == "q" && c.semantic && c.limit.is_none()
    ));
    assert!(matches!(parse("forget id").command, Command::Forget(c) if c.id == "id"));
    assert!(matches!(
        parse("export --include-superseded").command,
        Command::Export(c) if c.include_superseded
    ));
    assert!(matches!(
        parse("remember -- --kind").command,
        Command::Remember(c) if c.text == "--kind"
    ));
    assert!(matches!(parse_cli(&vec![]), Ok(Request::Help)));
    assert!(matches!(parse_cli(&words("search --help")), Ok(Request::Help)));
    assert!(matches!(parse_cli(&words("--version")), Ok(Request::Version)));
}

#[test]
fn misuse_is_refused() {
    assert_eq!(refusal("status --bogus"), "unexpected argument '--bogus'");
    assert_eq!(refusal("status --semantic"), "unexpected argument '--semantic'");
    assert_eq!(refusal("get id --limit 3"), "unexpected argument '--limit'");
    assert_eq!(refusal("get"), "missing argument for get");
    assert_eq!(refusal("get a b"), "unexpected argument 'b'");
    assert_eq!(refusal("search q -n"), "missing value for -n");
    assert_eq!(refusal("search q -n few"), "invalid value 'few' for --limit");
    assert_eq!(refusal("context q --max-bytes -1"), "invalid value '-1' for --max-bytes");
    assert_eq!(refusal("state"), "missing command for state");
    assert_eq!(refusal("state erase"), "unknown command 'erase'");
    assert_eq!(refusal("storage migrate"), "unknown command 'storage'");
}

#[test]
fn writes_initialize_the_store_and_reads_do_not() {
    for line in ["init", "remember x", "state set --goal g"] {
        let command = parse(line).command;
        assert!(command_creates_store(&command));
        assert!(needs_ignore_file(false, false, &command));
        assert!(!needs_ignore_file(true, false, &command));
        assert!(!needs_ignore_file(false, true, &command));
    }
    for line in [
        "status", "state show", "state clear", "context q", "correct a b", "search q", "get a",
        "forget a", "index", "export",
    ] {
        let command = parse(line).command;
        assert!(!command_creates_store(&command));
        assert!(!needs_ignore_file(false, false, &command));
    }
}

#[test]
fn commands_have_defaults() {
    let Command::Remember(command) = parse("remember x").command else {
        panic!("expected remember");
    };
    let memory = new_memory(command);
    assert_eq!(
        (memory.text.as_str(), memory.kind.as_str(), memory.actor.as_str(), memory.source_type.as_str()),
        ("x", "fact", "agent", "cli")
    );
    assert_eq!(memory.source_ref, None);
    let Command::Correct(command) = parse("correct a b --actor user").command else {
        panic!("expected correct");
    };
    let correction = new_correction(command);
    assert_eq!(
        (correction.text.as_str(), correction.actor.as_str(), correction.source_type.as_str()),
        ("b", "user", "cli")
    );
    assert_eq!(correction.kind, None);
    let Command::State(StateCommand::Update(command)) = parse("state set --task t --clear goal").command
    else {
        panic!("expected state set");
    };
    let update = state_update("w".to_owned(), command);
    assert_eq!(update.workspace, "w");
    assert_eq!(update.task.as_deref(), Some("t"));
    assert_eq!(update.clear_fields, vec!["goal"]);
    assert_eq!((result_limit(None), result_limit(Some(0)), result_limit(Some(500))), (10, 1, 100));
    assert_eq!((index_limit(None), index_limit(Some(0)), index_limit(Some(5000))), (64, 1, 1000));
    assert_eq!(RECALL_DEFAULT_MAX_BYTES, 32 * 1024);
}

#[test]
fn context_max_bytes_is_a_hard_bound() {
    let mut store = Store::new();
    let hits = vec![hit(&mut store, "m-1", "oversized memory payload")];
    let output = build_context(None, "w".to_owned(), None, &hits, Some(4));
    assert_eq!(output.memories.len(), 0);
}

#[test]
fn recall_respects_byte_budget() {
    let texts = [
        "budget fact one with a reasonably sized body",
        "budget fact two with a reasonably sized body",
        "budget fact three with a reasonably sized body",
    ];
    let mut store = Store::new();
    let hits: Vec<SearchHit> = texts
        .iter()
        .enumerate()
        .map(|(index, text)| hit(&mut store, &format!("m-{index}"), text))
        .collect();
    let size = |memories: &[Memory]| -> usize { memories.iter().map(|m| m.text.len()).sum() };
    let tight = build_context(None, "w".to_owned(), None, &hits, Some(64)).memories;
    assert!(!tight.is_empty(), "the first hit must be included even when the budget is tight");
    let total = size(&tight);
    assert!(total <= 64, "total {total} far exceeds the 64-byte budget");
    assert!(tight.len() < 3);
    let all = build_context(None, "w".to_owned(), None, &hits, Some(100_000)).memories;
    assert_eq!(all.len(), 3);
    assert_eq!(build_context(None, "w".to_owned(), None, &hits, Some(0)).memories.len(), 3);
    assert_eq!(build_context(None, "w".to_owned(), None, &hits, None).memories.len(), 3);
    let exact = size(&all[..2]);
    assert_eq!(build_context(None, "w".to_owned(), None, &hits, Some(exact)).memories.len(), 2);
    assert_eq!(build_context(None, "w".to_owned(), None, &hits, Some(exact - 1)).memories.len(), 1);
}

#[test]
fn absent_store_reads_do_not_initialize_storage() {
    let status = store_status(
        "/repo/.mem/mem.db".to_owned(),
        None,
        None,
        "default".to_owned(),
        "abc".to_owned(),
    )
    .expect("status");
    assert!(!status.initialized);
    assert_eq!(status.schema_version, 0);
    assert_eq!(status.total, 0);
    assert_eq!(routed_lexical_search(None, "nothing", 10, &vec![]).expect("search").len(), 0);
    assert_eq!(
        build_context(None, "default".to_owned(), None, &vec![], None).memories.len(),
        0
    );
    assert!(routed_workspace_state(None, "default").expect("state").is_none());
    assert!(routed_history_search(None, &None, "nothing", 10, &vec![]).expect("history").is_empty());
    assert!(routed_resolve_memory(None, "m").is_err());
    assert!(routed_resolve_episode(None, "e").is_err());
    assert_eq!(missing_store("/x").message(), "memory store not found: /x");
    assert_eq!(index_without_store("/cache".to_owned()).remaining, 0);
}

#[test]
fn routed_reads_reach_their_store() {
    let mut store = Store::new();
    store.remember_with(&fact("routed words"), "m-1", 1).expect("remember");
    store
        .update_workspace_state_at(
            &WorkspaceStateUpdate {
                workspace: "w".to_owned(),
                goal: Some("g".to_owned()),
                ..Default::default()
            },
            2,
        )
        .expect("state");
    assert_eq!(routed_resolve_memory(Some(&store), "m").expect("resolve"), "m-1");
    let matches = vec![Match { id: "m-1".to_owned(), rank: float_key((-1.0_f64).to_bits()) }];
    let hits = routed_lexical_search(Some(&store), "routed", 10, &matches).expect("search");
    assert_eq!(hits[0].memory.id, "m-1");
    for force_lexical in [false, true] {
        let recalled =
            routed_recall_hits(Some(&store), "routed", 10, force_lexical, None, |_| 0, &matches)
                .expect("recall");
        assert_eq!(recalled[0].memory.id, "m-1");
        assert!(routed_recall_hits(None, "routed", 10, force_lexical, None, |_| 0, &matches)
            .expect("recall")
            .is_empty());
    }
    let state = routed_workspace_state(Some(&store), "w").expect("state").expect("there");
    assert_eq!(state.goal.as_deref(), Some("g"));
    let router = StorageRouter::exact("/x/mem.db".to_owned());
    assert_eq!(router.path(), "/x/mem.db");
}

#[test]
fn explicit_database_bypasses_repo_local_storage() {
    let none = vec![true, true];
    assert_eq!(database_path(true, true, true, true, Some(1), &none), DatabaseChoice::Given);
    assert_eq!(
        database_path(false, true, true, true, Some(1), &none),
        DatabaseChoice::Environment
    );
}

#[test]
fn nested_commands_reuse_nearest_existing_mem_directory() {
    let has_store = vec![false, false, false, true, true];
    assert_eq!(
        database_path(false, false, false, false, None, &has_store),
        DatabaseChoice::Ancestor(3)
    );
    assert_eq!(
        database_path(false, false, false, false, None, &vec![false, false]),
        DatabaseChoice::Current
    );
}

#[test]
fn git_repo_root_is_default_project_boundary() {
    let has_store = vec![false, false, false, true];
    assert_eq!(
        database_path(false, false, true, false, Some(2), &has_store),
        DatabaseChoice::Root
    );
}

#[test]
fn nested_mem_directory_does_not_shadow_git_root_store() {
    let has_store = vec![true, false, true];
    assert_eq!(
        database_path(false, false, true, true, Some(2), &has_store),
        DatabaseChoice::Root
    );
    assert_eq!(
        database_path(false, false, true, false, Some(2), &vec![true, false, false]),
        DatabaseChoice::Ancestor(0)
    );
}

#[test]
fn version_and_status_report_build_identity() {
    let head = Some(GitOutput { success: true, stdout: Some("abc123\n".to_owned()) });
    let build = build_identity(&head, Some("other"));
    assert_eq!(build, "abc123");
    let store = Store::new();
    let status = store_status(
        "/repo/.mem/mem.db".to_owned(),
        Some(&store),
        Some("/repo".to_owned()),
        "branch:main".to_owned(),
        build.clone(),
    )
    .expect("status");
    assert_eq!(status.build_commit, build);
    assert!(render_version("0.0.1", &build).contains(&build));
    assert_eq!(render_version("0.0.1", "abc123"), "mem 0.0.1 (built from abc123)");
    assert_eq!(build_identity(&None, Some(" def ")), "def");
    assert_eq!(build_identity(&None, Some(" ")), "unknown");
    assert_eq!(build_identity(&None, None), "unknown");
}

#[test]
fn export_emits_ndjson_active_by_default_and_preserves_lineage() {
    let mut store = Store::new();
    let first = store.remember(fact("first memory")).expect("remember");
    let second = store.remember(fact("second memory")).expect("remember");
    store
        .correct(
            &second.id,
            NewCorrection {
                text: "second memory, corrected".to_owned(),
                kind: None,
                actor: "agent".to_owned(),
                source_type: "cli".to_owned(),
                source_ref: None,
            },
        )
        .expect("correct");
    store.forget(&first.id).expect("forget");
    let records = store.export(false);
    assert_eq!(records.len(), 1);
    assert_eq!(records[0].text, "second memory, corrected");
    assert_eq!(records[0].status, "active");
    assert!(records[0].superseded_by.is_none());
    let lineage = store.export(true);
    assert_eq!(lineage.len(), 2);
    assert_eq!(lineage[0].status, "superseded");
    assert_eq!(lineage[0].superseded_by.as_deref(), Some(lineage[1].id.as_str()));
    assert_eq!(lineage[1].status, "active");
    assert!(Store::new().export(true).is_empty());
}

#[test]
fn export_records_are_stable_across_runs_and_composable_with_jq() {
    let mut store = Store::new();
    for (id, at) in [("m-2", 2), ("m-1", 2), ("m-3", 1)] {
        store.remember_with(&fact("stable memory"), id, at).expect("remember");
    }
    let ids = |store: &Store| -> Vec<String> {
        store.export(false).into_iter().map(|memory| memory.id).collect()
    };
    assert_eq!(ids(&store), ids(&store), "repeated exports must be diffable");
    assert_eq!(ids(&store), vec!["m-3", "m-1", "m-2"]);
}

fn sample() -> Memory {
    Memory {
        id: "m-1".to_owned(),
        kind: "fact".to_owned(),
        text: "text".to_owned(),
        actor: "agent".to_owned(),
        source_type: "cli".to_owned(),
        source_ref: Some("ref".to_owned()),
        status: "superseded".to_owned(),
        superseded_by: Some("m-2".to_owned()),
        created_at: 1,
        updated_at: 2,
        deleted_at: None,
    }
}

fn sample_state() -> WorkspaceState {
    WorkspaceState {
        workspace: "w".to_owned(),
        session: Some("s".to_owned()),
        goal: None,
        task: Some("t".to_owned()),
        checkpoint: None,
        updated_at: -12,
    }
}

#[test]
fn memories_and_states_are_rendered() {
    assert_eq!(render_memory_line(&sample()), "m-1\tfact\ttext");
    assert_eq!(render_scored_line(&sample(), "0.500000"), "m-1\tfact\t0.500000\ttext");
    assert_eq!(
        render_memory(&sample()),
        vec![
            "id: m-1", "kind: fact", "status: superseded", "actor: agent", "source: cli",
            "source_ref: ref", "superseded_by: m-2", "text: text",
        ]
    );
    assert_eq!(
        render_workspace_state(&sample_state()),
        vec!["workspace: w", "session: s", "task: t", "updated_at: -12"]
    );
    assert_eq!(render_cleared("w", true), "cleared state for w");
    assert_eq!(render_cleared("w", false), "no state for w");
    let mut store = Store::new();
    store.remember_with(&fact("one"), "m-1", 1).expect("remember");
    let result = store
        .correct_with(
            "m-1",
            &NewCorrection {
                text: "two".to_owned(),
                kind: None,
                actor: "agent".to_owned(),
                source_type: "cli".to_owned(),
                source_ref: None,
            },
            "m-2",
            2,
        )
        .expect("correct");
    assert_eq!(render_correction(&result), vec!["corrected m-1 -> m-2", "m-2\tfact\ttwo"]);
}

#[test]
fn runs_statuses_and_contexts_are_rendered() {
    let mut store = Store::new();
    let hits = vec![hit(&mut store, "m-1", "text")];
    let run = index_without_store("/cache".to_owned());
    assert_eq!(
        render_run(&run),
        vec![
            format!("model: {EMBEDDING_MODEL_ID}"),
            "indexed: 0".to_owned(),
            "stale: 0".to_owned(),
            "remaining: 0".to_owned(),
        ]
    );
    let status = store_status(
        "/x/mem.db".to_owned(),
        Some(&store),
        Some("/x".to_owned()),
        "w".to_owned(),
        "abc".to_owned(),
    )
    .expect("status");
    assert_eq!(
        render_status(&status),
        vec![
            "database: /x/mem.db",
            "root: /x",
            "workspace: w",
            "schema: 7",
            "memories: 1 active / 0 superseded / 0 deleted / 1 total",
            "embeddings: 0 indexed / 1 unindexed",
        ]
    );
    let absent = store_status("/x".to_owned(), None, None, "w".to_owned(), "abc".to_owned())
        .expect("status");
    assert_eq!(
        render_status(&absent),
        vec!["database: /x", "workspace: w", "store: not initialized"]
    );
    let context = build_context(None, "w".to_owned(), Some(sample_state()), &hits, None);
    assert_eq!(
        render_context(&context),
        vec![
            "workspace: w",
            "state:",
            "  session: s",
            "  task: t",
            "memories:",
            "  m-1\tfact\ttext",
            "    provenance: actor=agent source=test ref=-",
        ]
    );
}
