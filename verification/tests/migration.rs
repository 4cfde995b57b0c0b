use mem_cli::embedding_worker::EMBEDDING_MODEL_ID;
use mem_cli::error::Error;
use mem_cli::layout::{encode_project, is_staging_name, staging_dir, staging_store_path, ManagedLayout};
use mem_cli::legacy::{
    read_legacy_snapshot, EntryRow, EpisodeRow, LegacyEmbedding, LegacySnapshot, MemoryRow,
    RelationRow, SourceRow, StateRow, VectorRow,
};
use mem_cli::schema::{check_migrated, next_wal_step, plan_migration, Migration, WalStep, WAL_ATTEMPTS};
use mem_cli::staging::{
    check_staging, staging_paths, verify_staging, write_share, StagedCounts,
};
use mem_cli::storage_migration::{
    check_user_store, first_step, is_beneath, migrate_layout, purge_project_db, purged_files,
    route_snapshot, CopyPlan, MigrationFinding, MigrationState, MigrationStep, PurgeFacts, Share,
};

fn message<T>(result: Result<T, Error>) -> String {
    match result {
        Ok(_) => panic!("expected an error"),
        Err(error) => error.message(),
    }
}

fn memory(id: &str, project: Option<&str>, status: &str) -> MemoryRow {
    MemoryRow {
        id: id.to_owned(),
        project_id: project.map(str::to_owned),
        kind: "fact".to_owned(),
        text: format!("text of {id}"),
        actor: "agent".to_owned(),
        status: status.to_owned(),
        created_at: 1,
        updated_at: 2,
        deleted_at: None,
    }
}

fn source(id: &str, memory_id: &str) -> SourceRow {
    SourceRow {
        id: id.to_owned(),
        memory_id: memory_id.to_owned(),
        source_type: "cli".to_owned(),
        locator: None,
        excerpt: None,
        created_at: 1,
    }
}

fn relation(from: &str, to: &str) -> RelationRow {
    RelationRow {
        from: from.to_owned(),
        to: to.to_owned(),
        relation_type: "superseded_by".to_owned(),
        created_at: 1,
    }
}

fn episode(id: &str, project: Option<&str>) -> EpisodeRow {
    EpisodeRow {
        id: id.to_owned(),
        project_id: project.map(str::to_owned),
        source_type: "transcript".to_owned(),
        source_ref: "sess-1".to_owned(),
        started_at: Some(1000),
        ended_at: None,
        summary: None,
        metadata_json: None,
        workspace_id: None,
    }
}

fn entry(id: &str, episode_id: &str) -> EntryRow {
    EntryRow {
        id: id.to_owned(),
        episode_id: episode_id.to_owned(),
        source_ref: "e-1".to_owned(),
        ordinal: 0,
        kind: "message".to_owned(),
        role: Some("user".to_owned()),
        text: "episode entry one".to_owned(),
        occurred_at: Some(1001),
        metadata_json: None,
    }
}

fn state(project: &str) -> StateRow {
    StateRow {
        project_id: project.to_owned(),
        workspace_id: "main".to_owned(),
        last_session_id: Some("sess-1".to_owned()),
        active_goal: Some("finish storage".to_owned()),
        active_task_ref: None,
        checkpoint: None,
        updated_at: 3,
    }
}

fn embedding(entity_type: &str, id: &str, model: &str) -> LegacyEmbedding {
    LegacyEmbedding {
        entity_type: entity_type.to_owned(),
        entity_id: id.to_owned(),
        model: model.to_owned(),
        dimensions: 1,
        vector: vec![0, 0, 128, 63],
        source_generation: 4,
        updated_at: 5,
    }
}

/// Global and project memories, a correction, an episode with an entry, and the state of
/// a workspace.
fn legacy_fixture(embeddings: Vec<LegacyEmbedding>) -> LegacySnapshot {
    let project = Some("github.com/x/a");
    read_legacy_snapshot(
        vec![
            memory("g-1", None, "active"),
            memory("g-2", None, "active"),
            memory("p-1", project, "superseded"),
            memory("p-2", project, "active"),
        ],
        vec![source("s-1", "g-1"), source("s-2", "p-1")],
        vec![relation("p-1", "p-2")],
        vec![episode("e-1", project)],
        vec![entry("x-1", "e-1")],
        vec![state("github.com/x/a")],
        &embeddings,
    )
}

fn counts(share: &Share) -> StagedCounts {
    let staged = write_share(share);
    StagedCounts {
        memories: staged.memories.len() as i64,
        sources: staged.sources.len() as i64,
        relations: staged.relations.len() as i64,
        episodes: staged.episodes.len() as i64,
        entries: staged.entries.len() as i64,
        states: staged.states.len() as i64,
        vectors: staged.vectors.len() as i64,
        violations: 0,
    }
}

fn built(plan: CopyPlan) -> MigrationFinding {
    let found = plan.shares.iter().map(counts).collect();
    MigrationFinding::Built(plan, found)
}

#[test]
fn migrate_splits_legacy_store_and_preserves_rows() {
    let layout = ManagedLayout::at("/home".to_owned());
    assert_eq!(first_step(false, true), MigrationStep::Build);
    let plan = route_snapshot(&legacy_fixture(vec![])).expect("route");
    assert_eq!(plan.shares.len(), 2);
    for share in &plan.shares {
        verify_staging(share, &counts(share)).expect("verify");
    }

    let user = write_share(&plan.shares[0]);
    assert_eq!(plan.shares[0].project_id, None);
    assert_eq!(user.memories.len(), 2);
    assert_eq!(user.memories[0].row.id, "g-1");
    assert_eq!(user.memories[0].row.text, "text of g-1");
    assert_eq!(user.memories[0].scope, "global");
    assert_eq!(user.sources.len(), 1);
    assert_eq!(user.jobs, vec!["g-1", "g-2"]);

    let project = write_share(&plan.shares[1]);
    assert_eq!(plan.shares[1].project_id.as_deref(), Some("github.com/x/a"));
    assert_eq!(project.memories.len(), 2, "original + corrected replacement");
    assert_eq!(project.memories[1].scope, "project");
    assert_eq!(project.relations.len(), 1, "superseded_by relation preserved");
    assert_eq!(project.states.len(), 1, "continuation state routed to the project store");
    assert_eq!(project.episodes.len(), 1);
    assert_eq!(project.entries.len(), 1);
    assert_eq!(
        project.jobs,
        vec!["p-2"],
        "jobs exist exactly for active memories: the corrected original is superseded"
    );

    let report = migrate_layout(&layout, built(plan)).expect("migrate");
    assert_eq!(report.state, MigrationState::Migrated);
    assert_eq!(report.memories, 4, "2 global + 2 project (correction pair)");
    assert_eq!(report.episodes, 1);
    assert_eq!(report.workspaces, 1);
    assert_eq!(report.stores.len(), 2, "user + one project store");
    assert_eq!(report.legacy_db, "/home/memory.db");
    assert_eq!(report.layout_dir, "/home/layout-v1");
    assert_eq!(report.stores[0], layout.user_db());
    assert_eq!(report.stores[1], layout.project_db("github.com/x/a").expect("project db").path);
}

#[test]
fn migrate_is_idempotent_and_reports_active_layout() {
    let layout = ManagedLayout::at("/home".to_owned());
    let plan = route_snapshot(&legacy_fixture(vec![])).expect("route");
    migrate_layout(&layout, built(plan)).expect("first migrate");
    assert_eq!(first_step(true, true), MigrationStep::CheckActive);
    let second = migrate_layout(&layout, MigrationFinding::Active(check_user_store(&layout, true)))
        .expect("second migrate");
    assert_eq!(second.state, MigrationState::AlreadyActive);
    assert_eq!((second.memories, second.episodes, second.workspaces), (0, 0, 0));
    assert!(second.stores.is_empty());
}

#[test]
fn migrate_without_legacy_store_reports_nothing_to_do() {
    let layout = ManagedLayout::at("/home".to_owned());
    assert_eq!(first_step(false, false), MigrationStep::Nothing);
    let report = migrate_layout(&layout, MigrationFinding::NoLegacy).expect("migrate");
    assert_eq!(report.state, MigrationState::NoLegacyStore);
    assert!(report.stores.is_empty(), "no layout created");
}

#[test]
fn migrate_refuses_conflicting_active_layout() {
    let layout = ManagedLayout::at("/home".to_owned());
    let checked: Result<(), Error> = Err(Error::new("open user store"));
    let error = message(migrate_layout(&layout, MigrationFinding::Active(checked)));
    assert!(error.contains("failed validation"), "unexpected error: {error}");
    assert_eq!(
        error,
        "layout /home/layout-v1 exists but failed validation; refusing to migrate over it: \
         open user store"
    );
    assert_eq!(
        message(check_user_store(&layout, false)),
        "active layout has no user store at /home/layout-v1/user.db"
    );
}

#[test]
fn migrate_rejects_cross_project_relations() {
    let snapshot = read_legacy_snapshot(
        vec![
            memory("a", Some("github.com/x/a"), "active"),
            memory("b", Some("github.com/x/b"), "active"),
        ],
        vec![],
        vec![relation("a", "b")],
        vec![],
        vec![],
        vec![],
        &vec![],
    );
    let layout = ManagedLayout::at("/home".to_owned());
    let refusal = match route_snapshot(&snapshot) {
        Ok(_) => panic!("cross-project relation must fail"),
        Err(refusal) => refusal,
    };
    let error = message(migrate_layout(&layout, MigrationFinding::Unrouted(refusal)));
    assert!(error.contains("crosses a project boundary"), "unexpected error: {error}");
    assert_eq!(first_step(false, true), MigrationStep::Build, "failed migration must not activate");
}

#[test]
fn a_layout_takes_effect_only_if_every_staged_store_passes() {
    let layout = ManagedLayout::at("/home".to_owned());
    let plan = || route_snapshot(&legacy_fixture(vec![])).expect("route");
    let counted = || -> Vec<StagedCounts> { plan().shares.iter().map(counts).collect() };
    check_staging(&plan(), &counted()).expect("as written");

    let mut found = counted();
    found[1].memories = 1;
    found[1].states = 7;
    let expected = "store github.com/x/a: expected 2 memories, found 1";
    assert_eq!(message(check_staging(&plan(), &found)), expected);
    assert_eq!(
        message(migrate_layout(&layout, MigrationFinding::Built(plan(), found))),
        expected
    );

    let mut found = counted();
    found[0].violations = 1;
    found[1].memories = 1;
    assert_eq!(
        message(check_staging(&plan(), &found)),
        "store user store: foreign key check reported 1 violations"
    );
}

#[test]
fn dangling_and_unnamed_rows_are_refused() {
    let route = |change: &dyn Fn(&mut LegacySnapshot)| {
        let mut snapshot = legacy_fixture(vec![]);
        change(&mut snapshot);
        message(route_snapshot(&snapshot))
    };
    assert_eq!(
        route(&|s| s.memories.push(memory("m", Some(" "), "active"))),
        "legacy row references an empty project identifier"
    );
    assert_eq!(
        route(&|s| s.sources.push(source("s", "gone"))),
        "source references unknown memory gone"
    );
    assert_eq!(
        route(&|s| s.relations.push(relation("gone", "g-1"))),
        "relation references unknown memory gone"
    );
    assert_eq!(
        route(&|s| s.relations.push(relation("g-1", "gone"))),
        "relation references unknown memory gone"
    );
    assert_eq!(
        route(&|s| s.episodes.push(episode("e", Some("")))),
        "legacy row references an empty project identifier"
    );
    assert_eq!(
        route(&|s| s.entries.push(entry("x", "gone"))),
        "entry references unknown episode gone"
    );
    assert_eq!(
        route(&|s| s.states.push(state(""))),
        "legacy row references an empty project identifier"
    );
    assert_eq!(
        route(&|s| s.vectors.push(VectorRow {
            entity_id: "gone".to_owned(),
            dimensions: 1,
            vector: vec![],
            source_generation: 1,
            updated_at: 1,
        })),
        "vector references unknown memory gone"
    );
}

#[test]
fn shares_are_ordered_with_the_user_store_first() {
    let snapshot = read_legacy_snapshot(
        vec![
            memory("1", Some("b"), "active"),
            memory("2", Some("a"), "active"),
            memory("3", None, "active"),
            memory("4", Some("a"), "active"),
        ],
        vec![],
        vec![],
        vec![],
        vec![],
        vec![],
        &vec![],
    );
    let plan = route_snapshot(&snapshot).expect("route");
    let projects: Vec<Option<&str>> =
        plan.shares.iter().map(|share| share.project_id.as_deref()).collect();
    assert_eq!(projects, vec![None, Some("a"), Some("b")]);
    assert_eq!(plan.shares[1].memories.len(), 2);
    assert_eq!((plan.memories(), plan.episodes()), (4, 0));
}

#[test]
fn every_layout_is_staged_with_a_user_store() {
    let project_rows = vec![memory("1", Some("a"), "active")];
    let snapshot =
        read_legacy_snapshot(project_rows, vec![], vec![], vec![], vec![], vec![], &vec![]);
    let plan = route_snapshot(&snapshot).expect("route");
    assert_eq!(
        staging_paths(&plan, "/s").expect("paths"),
        vec!["/s/projects/a/mem.db", "/s/user.db"]
    );
    let plan = route_snapshot(&legacy_fixture(vec![])).expect("route");
    assert_eq!(
        staging_paths(&plan, "/s").expect("paths"),
        vec!["/s/user.db", "/s/projects/github_00002ecom_00002fx_00002fa/mem.db"]
    );
}

#[test]
fn only_current_vectors_of_active_memories_are_carried_over() {
    let snapshot = legacy_fixture(vec![
        embedding("memory", "g-1", EMBEDDING_MODEL_ID),
        embedding("memory", "g-2", "another model"),
        embedding("memory", "p-1", EMBEDDING_MODEL_ID),
        embedding("episode_entry", "p-2", EMBEDDING_MODEL_ID),
    ]);
    assert_eq!(snapshot.vectors.len(), 1);
    assert_eq!(snapshot.vectors[0].entity_id, "g-1");
    let plan = route_snapshot(&snapshot).expect("route");
    let user = write_share(&plan.shares[0]);
    assert_eq!(user.vectors.len(), 1);
    assert_eq!(user.vectors[0].model, EMBEDDING_MODEL_ID);
    assert_eq!(user.vectors[0].row.source_generation, 4);
    assert_eq!(user.jobs, vec!["g-2"], "a memory with a vector is not queued");
}

#[test]
fn staged_stores_are_checked_count_by_count() {
    let plan = route_snapshot(&legacy_fixture(vec![])).expect("route");
    let (user, project) = (&plan.shares[0], &plan.shares[1]);
    let check = |share: &Share, change: &dyn Fn(&mut StagedCounts)| {
        let mut found = counts(share);
        change(&mut found);
        message(verify_staging(share, &found))
    };
    assert_eq!(
        check(user, &|c| c.memories = 3),
        "store user store: expected 2 memories, found 3"
    );
    assert_eq!(
        check(project, &|c| c.sources = 0),
        "store github.com/x/a: expected 1 sources, found 0"
    );
    assert_eq!(
        check(project, &|c| c.relations = -2),
        "store github.com/x/a: expected 1 relations, found 2"
    );
    assert_eq!(
        check(project, &|c| c.episodes = i64::MIN),
        "store github.com/x/a: expected 1 episodes, found 9223372036854775808"
    );
    assert_eq!(
        check(project, &|c| c.entries = 9),
        "store github.com/x/a: expected 1 entries, found 9"
    );
    assert_eq!(
        check(project, &|c| c.states = 0),
        "store github.com/x/a: expected 1 workspaces, found 0"
    );
    assert_eq!(
        check(user, &|c| c.vectors = 1),
        "store user store: expected 0 vectors, found 1"
    );
    assert_eq!(
        check(user, &|c| c.violations = 2),
        "store user store: foreign key check reported 2 violations"
    );
}

fn parts(path: &str) -> Vec<String> {
    path.split('/').map(str::to_owned).collect()
}

fn found(resolved: &str, is_regular: bool) -> PurgeFacts {
    PurgeFacts {
        is_file: true,
        resolved: parts(resolved),
        projects: parts("/home/layout-v1/projects"),
        is_regular,
    }
}

#[test]
fn purge_removes_only_the_project_store() {
    let layout = ManagedLayout::at("/home".to_owned());
    let path = layout.project_db("github.com/x/purge").expect("path").path;
    let report = purge_project_db(&layout, "github.com/x/purge", &found(&path, true)).expect("purge");
    assert!(report.removed);
    assert_eq!(report.path, path);
    assert_eq!(report.project_id, "github.com/x/purge");
    assert_ne!(path, layout.project_db("github.com/x/keep").expect("path").path);
    assert_ne!(path, layout.user_db());
    assert!(!is_beneath(&parts(&layout.user_db()), &parts(&layout.projects_dir())));
    assert_eq!(
        purged_files(&report),
        vec![path.clone(), format!("{path}-wal"), format!("{path}-shm")]
    );

    let gone = PurgeFacts {
        is_file: false,
        resolved: vec![],
        projects: vec![],
        is_regular: false,
    };
    let again = purge_project_db(&layout, "github.com/x/purge", &gone).expect("re-purge");
    assert!(!again.removed);
    assert_eq!(again.path, path);
    assert!(purged_files(&again).is_empty());
}

#[test]
fn purge_rejects_project_ids_that_escape_containment() {
    let layout = ManagedLayout::at("/home".to_owned());
    let error = message(layout.project_db(""));
    assert!(error.contains("empty"), "unexpected error: {error}");
    let path = layout.project_db("p").expect("path").path;
    assert_eq!(
        message(purge_project_db(&layout, "p", &found("/etc/mem.db", true))),
        format!("refusing to purge {path}: resolved path escapes the managed projects directory")
    );
    assert_eq!(
        message(purge_project_db(&layout, "p", &found(&path, false))),
        format!("refusing to purge {path}: not a regular file")
    );
    assert_eq!(
        message(purge_project_db(&layout, " ", &found(&path, true))),
        "project identifier cannot be empty"
    );
}

#[test]
fn projects_have_directories_of_their_own() {
    assert_eq!(encode_project("a-Z0"), "a-Z0");
    assert_eq!(encode_project("../x"), "_00002e_00002e_00002fx");
    assert_eq!(encode_project("_"), "_00005f");
    assert_eq!(encode_project("\u{10ffff}"), "_10ffff");
    let layout = ManagedLayout::at("/home".to_owned());
    assert_eq!(
        layout.project_db("a/b").expect("path").path,
        "/home/layout-v1/projects/a_00002fb/mem.db"
    );
    assert_eq!(layout.root(), "/home");
    let staging = staging_dir(&layout, "id");
    assert_eq!(staging, "/home/.layout-v1.tmp-id");
    assert_eq!(
        staging_store_path(&staging, &Some("a".to_owned())).expect("path"),
        "/home/.layout-v1.tmp-id/projects/a/mem.db"
    );
    assert_eq!(
        staging_store_path(&staging, &None).expect("path"),
        "/home/.layout-v1.tmp-id/user.db"
    );
    assert!(staging_store_path(&staging, &Some(" ".to_owned())).is_err());
    assert!(is_staging_name(".layout-v1.tmp-id"));
    assert!(!is_staging_name("layout-v1"));
    assert!(!is_staging_name(".layout-v1"));
}

#[test]
fn schemas_are_created_upgraded_or_refused() {
    assert_eq!(plan_migration(0).expect("new"), Migration::Create);
    assert_eq!(plan_migration(6).expect("previous"), Migration::Upgrade);
    assert_eq!(plan_migration(7).expect("current"), Migration::Nothing);
    for version in 1..=5 {
        assert_eq!(
            message(plan_migration(version)),
            format!(
                "database schema version {version} is from an unsupported pre-1.0 build; upgrade it to v6 with the previous mem build first"
            )
        );
    }
    assert_eq!(
        message(plan_migration(8)),
        "database schema version 8 is newer than supported version 7"
    );
    assert!(check_migrated(7).is_ok());
    assert_eq!(
        message(check_migrated(6)),
        "failed to migrate database to schema version 7; got 6"
    );
}

#[test]
fn the_journal_mode_is_asked_for_a_bounded_number_of_times() {
    assert_eq!(next_wal_step("wal", 0, false), WalStep::Ready);
    let mut asked: u32 = 0;
    while next_wal_step("delete", asked, false) == WalStep::Ask {
        asked += 1;
    }
    assert_eq!(asked, WAL_ATTEMPTS);
    assert_eq!(next_wal_step("delete", asked, false), WalStep::GiveUp);
    assert_eq!(next_wal_step("delete", 1, true), WalStep::Ready);
    assert_eq!(next_wal_step("wal", asked, false), WalStep::Ready);
}
