//! Running a command on the store of a project.
//!
//! A command runs on the store that was loaded, if there is one, and gives the store
//! back. Where it needs a vector for its query, or vectors for memories, it asks for
//! them instead; it is then run again, or finished, with what came of that.

use crate::args::{
    Command, CommandView, ContextCommand, ContextView, Correct, CorrectView, IndexCommand,
    IndexView, Remember, RememberView, Search, SearchView, StateCommand, StateSet, StateSetView,
};
use crate::cli;
use crate::cli::{
    build_context, index_limit, index_without_store, missing_store, new_correction, new_memory,
    result_limit, state_update, store_status, ContextOutput, StatusOutput,
};
use crate::clock;
use crate::embedding;
use crate::embedding::EmbeddingSource;
use crate::embedding_worker;
use crate::embedding_worker::{
    EmbeddingRunOptions, EmbeddingRunStats, RunPlan, EMBEDDING_MODEL_ID,
};
use crate::error::Error;
use crate::memory;
use crate::memory::{CorrectionResult, Memory, MemoryView, NewCorrectionView, NewMemoryView};
use crate::model;
use crate::project::ProjectContext;
use crate::recall;
use crate::render;
use crate::render::{
    render_cleared, render_context, render_correction, render_memory, render_memory_line,
    render_run, render_scored_line, render_status, render_workspace_state,
};
use crate::search;
use crate::search::{HitView, Match, SearchHit};
use crate::state;
use crate::state::{UpdateView, WorkspaceState};
use crate::store;
use crate::store::{Store, StoreView};
use crate::text;
use crate::text::concat2;
use crate::vector_search;
use crate::vector_search::{SemanticSearchHit, SemanticView};
use crate::workspace;
use vstd::prelude::*;
use vstd::string::*;

verus! {

/// Where a command runs: the path of the database, the build of the program, and the
/// project.
#[derive(Debug)]
pub struct Place {
    pub database: String,
    pub build_commit: String,
    pub project: ProjectContext,
}

/// What a command is given besides its arguments: the matches of the full-text index;
/// whether the vector of the query was asked for, and what normalising it came to, if
/// there is one; where models are cached, whether the current one is, and whether a
/// download shows its progress.
#[derive(Debug)]
pub struct Supplies {
    pub matches: Vec<Match>,
    pub asked: bool,
    pub vector: Option<Result<usize, Error>>,
    pub cache_dir: String,
    pub cached: bool,
    pub show_download_progress: bool,
}

/// What a command comes to. `WantsVector` asks for the vector of a query, and `Embed`
/// for those of memories.
#[derive(Debug)]
pub enum Output {
    Status(StatusOutput),
    State { workspace: String, state: Option<WorkspaceState> },
    Cleared { workspace: String, cleared: bool },
    Context(ContextOutput),
    Remembered(Memory),
    Corrected(CorrectionResult),
    Hits(Vec<SearchHit>),
    Scored(Vec<SemanticSearchHit>),
    Got(Memory),
    Forgot(String),
    Ran(EmbeddingRunStats),
    Exported(Vec<Memory>),
    WantsVector { query: String, cached_only: bool },
    Embed { options: EmbeddingRunOptions, sources: Vec<EmbeddingSource> },
}

/// The workspace that a command names in place of the detected one.
pub open spec fn named_workspace(command: CommandView) -> Option<Seq<char>> {
    match command {
        CommandView::StateShow(c) => c.workspace,
        CommandView::StateSet(c) => c.workspace,
        CommandView::StateClear(c) => c.workspace,
        CommandView::Context(c) => c.workspace,
        _ => None,
    }
}

/// A slice of an optional string.
fn as_slice(o: &Option<String>) -> (r: Option<&str>)
    ensures
        workspace::str_of(r) == model::text_of(*o),
{
    match o {
        Some(s) => Some(s.as_str()),
        None => None,
    }
}

/// The workspace that a command names in place of the detected one.
pub fn workspace_override(command: &Command) -> (r: Option<&str>)
    ensures
        workspace::str_of(r) == named_workspace(command@),
{
    match command {
        Command::State(StateCommand::Show(c)) => as_slice(&c.workspace),
        Command::State(StateCommand::Update(c)) => as_slice(&c.workspace),
        Command::State(StateCommand::Clear(c)) => as_slice(&c.workspace),
        Command::Context(c) => as_slice(&c.workspace),
        _ => None,
    }
}

/// The text that the full-text index is searched for, for a command that searches it.
pub fn lexical_query(command: &Command) -> (r: Option<&str>)
    ensures
        workspace::str_of(r) == (match command@ {
            CommandView::Context(c) => Some(c.query),
            CommandView::Search(c) => if c.semantic {
                None
            } else {
                Some(c.query)
            },
            _ => None,
        }),
{
    match command {
        Command::Context(c) => Some(c.query.as_str()),
        Command::Search(c) => if c.semantic {
            None
        } else {
            Some(c.query.as_str())
        },
        _ => None,
    }
}

/// The store that a command starts from where it creates one: an absent one is empty.
pub open spec fn opened(store: Option<StoreView>) -> StoreView {
    match store {
        Some(s) => s,
        None => store::empty_store(),
    }
}

/// Opens the store, creating it if there is none.
fn open(store: Option<Store>) -> (r: Store)
    ensures
        r@ == opened(view_of(store)),
        (store matches Some(s) ==> s@.wf()) ==> r@.wf(),
{
    match store {
        Some(s) => s,
        None => Store::new(),
    }
}

/// The model of a store, if there is one.
pub open spec fn view_of(store: Option<Store>) -> Option<StoreView> {
    match store {
        Some(s) => Some(s@),
        None => None,
    }
}

/// The error of a command that needs a store where there is none.
pub open spec fn no_store(place: Place) -> Seq<char> {
    "memory store not found: "@ + place.database@
}

/// Holds when the status of a store is shown.
pub open spec fn shows_status(
    store: Option<StoreView>,
    place: Place,
    r: Result<Output, Error>,
) -> bool {
    r matches Ok(Output::Status(o)) && cli::is_status(
        o,
        place.database@,
        store,
        place.project@.root,
        place.project@.workspace_id,
        place.build_commit@,
    )
}

fn run_status(store: Option<&Store>, place: Place) -> (r: Result<Output, Error>)
    ensures
        shows_status(cli::store_of(store), place, r),
{
    let status: StatusOutput = store_status(
        place.database,
        store,
        place.project.root,
        place.project.workspace_id,
        place.build_commit,
    )?;
    Ok(Output::Status(status))
}

/// Holds when the state of the workspace is shown; without a store there is none.
pub open spec fn shows_state(
    store: Option<StoreView>,
    workspace: Seq<char>,
    r: Result<Output, Error>,
) -> bool {
    match store {
        None => r matches Ok(Output::State { workspace: w, state }) && w@ == workspace
            && state is None,
        Some(s) => match memory::identity_refusal(workspace, "workspace"@) {
            Some(message) => r matches Err(e) && e@ == message,
            None => r matches Ok(Output::State { workspace: w, state }) && w@ == workspace
                && model::row_of(state) == model::first_row(
                s.states,
                state::of_workspace(workspace),
            ),
        },
    }
}

fn run_state_show(store: Option<&Store>, workspace: String) -> (r: Result<Output, Error>)
    ensures
        shows_state(cli::store_of(store), workspace@, r),
{
    let state: Option<WorkspaceState> = match store {
        None => None,
        Some(s) => s.workspace_state(workspace.as_str())?,
    };
    Ok(Output::State { workspace, state })
}

/// The update that a command makes.
pub open spec fn update_of(workspace: Seq<char>, c: StateSetView) -> UpdateView {
    UpdateView {
        workspace,
        session: c.session,
        goal: c.goal,
        task: c.task,
        checkpoint: c.checkpoint,
        clear_fields: c.clear,
    }
}

/// Holds when the state of the workspace is updated, at a time the clock gave.
pub open spec fn updates_state(
    before: StoreView,
    after: StoreView,
    input: UpdateView,
    r: Result<Output, Error>,
) -> bool {
    match state::update_refusal(before.states, input) {
        Some(message) => (r matches Err(e) && e@ == message) && after == before,
        None => match r {
            Err(e) => clock::clock_refusal(e@) && after == before,
            Ok(Output::State { workspace, state: Some(state) }) => {
                let now = state@.updated_at;
                &&& clock::clock_time(now)
                &&& workspace@ == input.workspace
                &&& state@ == state::updated_state(before.states, input, now)
                &&& after == (StoreView {
                    states: state::updated(before.states, input, now),
                    ..before
                })
            },
            Ok(_) => false,
        },
    }
}

fn run_state_set(store: Store, workspace: String, c: StateSet) -> (r: (
    Store,
    Result<Output, Error>,
))
    ensures
        updates_state(store@, r.0@, update_of(workspace@, c@), r.1),
        store@.wf() ==> r.0@.wf(),
{
    let mut store: Store = store;
    match store.update_workspace_state(state_update(workspace.clone(), c)) {
        Ok(state) => (store, Ok(Output::State { workspace, state: Some(state) })),
        Err(e) => (store, Err(e)),
    }
}

/// Holds when the state of the workspace is removed; without a store there is none.
pub open spec fn clears_state(
    before: Option<StoreView>,
    after: Option<StoreView>,
    workspace: Seq<char>,
    r: Result<Output, Error>,
) -> bool {
    match before {
        None => (r matches Ok(Output::Cleared { workspace: w, cleared }) && w@ == workspace
            && !cleared) && after is None,
        Some(s) => match memory::identity_refusal(workspace, "workspace"@) {
            Some(message) => (r matches Err(e) && e@ == message) && after == before,
            None => {
                &&& r matches Ok(Output::Cleared { workspace: w, cleared }) && w@ == workspace
                    && cleared == model::any_row(s.states, state::of_workspace(workspace))
                &&& after == Some(
                    StoreView { states: state::cleared(s.states, workspace), ..s },
                )
            },
        },
    }
}

fn run_state_clear(store: Option<Store>, workspace: String) -> (r: (
    Option<Store>,
    Result<Output, Error>,
))
    ensures
        clears_state(view_of(store), view_of(r.0), workspace@, r.1),
        (store matches Some(s) ==> s@.wf()) ==> (r.0 matches Some(s) ==> s@.wf()),
{
    match store {
        None => (None, Ok(Output::Cleared { workspace, cleared: false })),
        Some(s) => {
            let mut s: Store = s;
            match s.clear_workspace_state(workspace.as_str()) {
                Ok(cleared) => (Some(s), Ok(Output::Cleared { workspace, cleared })),
                Err(e) => (Some(s), Err(e)),
            }
        },
    }
}

/// Holds when `hits` are the memories that a store recalls with what a command is given.
pub open spec fn recalls<F: Fn(&Vec<u32>) -> i64>(
    s: StoreView,
    limit: int,
    supplies: Supplies,
    score: F,
    hits: Seq<HitView>,
) -> bool {
    recall::recalls(
        s,
        limit,
        recall::vector_outcome(supplies.vector),
        score,
        model::views(supplies.matches@),
        hits,
    )
}

/// Holds when a context is built. Without a store it has no state and no memories. With
/// a complete index the vector of the query is asked for first.
pub open spec fn gives_context<F: Fn(&Vec<u32>) -> i64>(
    store: Option<StoreView>,
    place: Place,
    c: ContextView,
    supplies: Supplies,
    score: F,
    r: Result<Output, Error>,
) -> bool {
    let limit = cli::clamped(c.limit, 10, 100);
    let workspace = place.project@.workspace_id;
    match store {
        None => r matches Ok(Output::Context(o)) && cli::is_context(
            o,
            place.project@.root,
            workspace,
            None,
            Seq::empty(),
            c.max_bytes,
        ),
        Some(s) => match memory::identity_refusal(workspace, "workspace"@) {
            Some(message) => r matches Err(e) && e@ == message,
            None => if embedding::waiting(s, EMBEDDING_MODEL_ID@).len() == 0 && !supplies.asked {
                r matches Ok(Output::WantsVector { query, cached_only }) && query@ == c.query
                    && cached_only
            } else {
                match recall::recall_refusal(
                    s,
                    c.query,
                    limit,
                    recall::vector_outcome(supplies.vector),
                ) {
                    Some(message) => r matches Err(e) && e@ == message,
                    None => r matches Ok(Output::Context(o)) && exists|hits: Seq<HitView>|
                        recalls(s, limit, supplies, score, hits) && #[trigger] cli::is_context(
                            o,
                            place.project@.root,
                            workspace,
                            model::first_row(s.states, state::of_workspace(workspace)),
                            hits,
                            c.max_bytes,
                        ),
                }
            },
        },
    }
}

fn run_context<F: Fn(&Vec<u32>) -> i64>(
    store: Option<&Store>,
    place: Place,
    c: ContextCommand,
    supplies: Supplies,
    score: F,
) -> (r: Result<Output, Error>)
    requires
        forall|v: &Vec<u32>| #[trigger] call_requires(score, (v,)),
    ensures
        gives_context(cli::store_of(store), place, c@, supplies, score, r),
{
    let limit: usize = result_limit(c.limit);
    let root: Option<String> = place.project.root;
    let workspace: String = place.project.workspace_id;
    match store {
        None => {
            let none: Vec<SearchHit> = Vec::new();
            assert(model::views(none@) =~= Seq::<HitView>::empty());
            Ok(Output::Context(build_context(root, workspace, None, &none, c.max_bytes)))
        },
        Some(s) => {
            proof {
                recall::lemma_model_id_is_not_blank();
            }
            let state: Option<WorkspaceState> = s.workspace_state(workspace.as_str())?;
            let complete: bool = s.has_complete_coverage(EMBEDDING_MODEL_ID)?;
            if complete && !supplies.asked {
                return Ok(Output::WantsVector { query: c.query, cached_only: true });
            }
            let hits: Vec<SearchHit> = recall::recall_hits(
                s,
                c.query.as_str(),
                limit,
                supplies.vector,
                score,
                &supplies.matches,
            )?;
            assert(recalls(s@, limit as int, supplies, score, model::views(hits@)));
            let out: ContextOutput = build_context(root, workspace, state, &hits, c.max_bytes);
            Ok(Output::Context(out))
        },
    }
}

/// The memory that a command stores.
pub open spec fn memory_of(c: RememberView) -> NewMemoryView {
    NewMemoryView {
        text: c.text,
        kind: cli::text_or(c.kind, "fact"@),
        actor: cli::text_or(c.actor, "agent"@),
        source_type: cli::text_or(c.source_type, "cli"@),
        source_ref: c.source_ref,
    }
}

/// Holds when a memory is stored, under a fresh identifier and at a time the clock gave.
pub open spec fn remembers(
    before: StoreView,
    after: StoreView,
    input: NewMemoryView,
    r: Result<Output, Error>,
) -> bool {
    match memory::new_memory_refusal(input) {
        Some(message) => (r matches Err(e) && e@ == message) && after == before,
        None => match r {
            Err(e) => (clock::clock_refusal(e@) || e@ == store::duplicate_id()
                && store::draws_taken(before.memories)) && after == before,
            Ok(Output::Remembered(m)) => {
                &&& clock::drawn(m@.id)
                &&& clock::hyphenated(m@.id)
                &&& clock::clock_time(m@.created_at)
                &&& !model::any_row(before.memories, memory::with_id(m@.id))
                &&& m@ == memory::fresh_memory(input, m@.id, m@.created_at)
                &&& after == store::inserted(before, input, m@.id, m@.created_at)
            },
            Ok(_) => false,
        },
    }
}

fn run_remember(store: Store, c: Remember) -> (r: (Store, Result<Output, Error>))
    ensures
        remembers(store@, r.0@, memory_of(c@), r.1),
        store@.wf() ==> r.0@.wf(),
{
    let mut store: Store = store;
    match store.remember(new_memory(c)) {
        Ok(m) => (store, Ok(Output::Remembered(m))),
        Err(e) => (store, Err(e)),
    }
}

/// The correction that a command makes.
pub open spec fn correction_of(c: CorrectView) -> NewCorrectionView {
    NewCorrectionView {
        text: c.text,
        kind: c.kind,
        actor: cli::text_or(c.actor, "agent"@),
        source_type: cli::text_or(c.source_type, "cli"@),
        source_ref: c.source_ref,
    }
}

/// Holds when an active memory is replaced, by one under a fresh identifier and at a
/// time the clock gave.
pub open spec fn corrects(
    before: StoreView,
    after: StoreView,
    target: Seq<char>,
    input: NewCorrectionView,
    r: Result<Output, Error>,
) -> bool {
    match store::correction_refusal(before, target, input) {
        Some(message) => (r matches Err(e) && e@ == message) && after == before,
        None => {
            let previous = store::found(before.memories, target)->Ok_0;
            match r {
                Err(e) => (clock::clock_refusal(e@) || exists|id: Seq<char>|
                    clock::drawn(id) && #[trigger] store::correction_conflict(
                        before,
                        previous.id,
                        id,
                    ) == Some(e@)) && after == before,
                Ok(Output::Corrected(c)) => {
                    let id = c@.replacement.id;
                    let now = c@.replacement.created_at;
                    &&& clock::drawn(id)
                    &&& clock::hyphenated(id)
                    &&& clock::clock_time(now)
                    &&& store::correction_conflict(before, previous.id, id) is None
                    &&& c@.previous == memory::supersede(previous.id, id, now)(previous)
                    &&& c@.replacement == memory::fresh_memory(
                        store::replacement_input(previous, input),
                        id,
                        now,
                    )
                    &&& after == store::corrected(before, previous, input, id, now)
                },
                Ok(_) => false,
            }
        },
    }
}

fn run_correct(store: Store, c: Correct) -> (r: (Store, Result<Output, Error>))
    ensures
        corrects(store@, r.0@, c@.id, correction_of(c@), r.1),
        store@.wf() ==> r.0@.wf(),
{
    let mut store: Store = store;
    let id: String = c.id.clone();
    match store.correct(id.as_str(), new_correction(c)) {
        Ok(correction) => (store, Ok(Output::Corrected(correction))),
        Err(e) => (store, Err(e)),
    }
}

/// Holds when an active memory is forgotten, at a time the clock gave.
pub open spec fn forgets(
    before: StoreView,
    after: StoreView,
    target: Seq<char>,
    r: Result<Output, Error>,
) -> bool {
    match store::forget_refusal(before, target) {
        Some(message) => (r matches Err(e) && e@ == message) && after == before,
        None => {
            let id = store::found(before.memories, target)->Ok_0.id;
            match r {
                Err(e) => (clock::clock_refusal(e@) || store::forget_conflict(before, id) == Some(
                    e@,
                )) && after == before,
                Ok(Output::Forgot(given)) => given@ == id && exists|now: int|
                    clock::clock_time(now) && after == #[trigger] store::forgotten(before, id, now),
                Ok(_) => false,
            }
        },
    }
}

fn run_forget(store: Store, target: &str) -> (r: (Store, Result<Output, Error>))
    ensures
        forgets(store@, r.0@, target@, r.1),
        store@.wf() ==> r.0@.wf(),
{
    let mut store: Store = store;
    match store.forget(target) {
        Ok(id) => (store, Ok(Output::Forgot(id))),
        Err(e) => (store, Err(e)),
    }
}

/// Holds when a memory is read.
pub open spec fn gets(s: StoreView, target: Seq<char>, r: Result<Output, Error>) -> bool {
    match store::found(s.memories, target) {
        Err(message) => r matches Err(e) && e@ == message,
        Ok(m) => r matches Ok(Output::Got(given)) && given@ == m,
    }
}

fn run_get(store: &Store, target: &str) -> (r: Result<Output, Error>)
    ensures
        gets(store@, target@, r),
{
    Ok(Output::Got(store.get(target)?))
}

/// Holds when memories are searched for. Without a store none are found. A semantic
/// search needs a complete index, and then asks for the vector of the query.
pub open spec fn searches<F: Fn(&Vec<u32>) -> i64>(
    store: Option<StoreView>,
    c: SearchView,
    supplies: Supplies,
    score: F,
    r: Result<Output, Error>,
) -> bool {
    let limit = cli::clamped(c.limit, 10, 100);
    match store {
        None => r matches Ok(Output::Hits(hits)) && hits@.len() == 0,
        Some(s) => if !c.semantic {
            match search::search_refusal(c.query, limit) {
                Some(message) => r matches Err(e) && e@ == message,
                None => r matches Ok(Output::Hits(hits)) && model::ranked(
                    model::views(hits@),
                    model::joined(model::views(supplies.matches@), search::hit_of(s.memories)),
                    search::by_rank(),
                    limit,
                ),
            }
        } else if embedding::waiting(s, EMBEDDING_MODEL_ID@).len() != 0 {
            r matches Err(e) && e@ == "semantic index is incomplete; run `mem index` first"@
        } else {
            match supplies.vector {
                None => r matches Ok(Output::WantsVector { query, cached_only }) && query@
                    == c.query && !cached_only,
                Some(vector) => match vector_search::semantic_refusal(
                    s,
                    EMBEDDING_MODEL_ID@,
                    limit,
                    vector_search::query_outcome(vector),
                ) {
                    Some(message) => r matches Err(e) && e@ == message,
                    None => r matches Ok(Output::Scored(hits)) && exists|scores: Seq<i64>|
                        #[trigger]
                        vector_search::is_best_by_score(
                            model::views(hits@),
                            vector_search::scanned(s, EMBEDDING_MODEL_ID@),
                            score,
                            scores,
                            limit,
                        ),
                },
            }
        },
    }
}

fn run_search<F: Fn(&Vec<u32>) -> i64>(
    store: Option<&Store>,
    c: Search,
    supplies: Supplies,
    score: F,
) -> (r: Result<Output, Error>)
    requires
        forall|v: &Vec<u32>| #[trigger] call_requires(score, (v,)),
    ensures
        searches(cli::store_of(store), c@, supplies, score, r),
{
    let limit: usize = result_limit(c.limit);
    match store {
        None => Ok(Output::Hits(Vec::new())),
        Some(s) => {
            if !c.semantic {
                let hits: Vec<SearchHit> = s.search(c.query.as_str(), limit, &supplies.matches)?;
                return Ok(Output::Hits(hits));
            }
            proof {
                recall::lemma_model_id_is_not_blank();
            }
            if !s.has_complete_coverage(EMBEDDING_MODEL_ID)? {
                return Err(Error::new("semantic index is incomplete; run `mem index` first"));
            }
            match supplies.vector {
                None => Ok(Output::WantsVector { query: c.query, cached_only: false }),
                Some(vector) => {
                    let hits: Vec<SemanticSearchHit> = s.semantic_search_by_vector(
                        vector,
                        score,
                        EMBEDDING_MODEL_ID,
                        limit,
                    )?;
                    let ghost best = choose|scores: Seq<i64>| #[trigger]
                        vector_search::is_best_by_score(
                            model::views(hits@),
                            vector_search::scanned(s@, EMBEDDING_MODEL_ID@),
                            score,
                            scores,
                            limit as int,
                        );
                    let r: Result<Output, Error> = Ok(Output::Scored(hits));
                    assert(vector_search::is_best_by_score(
                        model::views(r->Ok_0->Scored_0@),
                        vector_search::scanned(s@, EMBEDDING_MODEL_ID@),
                        score,
                        best,
                        limit as int,
                    ));
                    r
                },
            }
        },
    }
}

/// Holds when vectors are made: without a store or without work nothing is done, and
/// otherwise the vectors of a batch of memories are asked for.
pub open spec fn indexes(
    store: Option<StoreView>,
    c: IndexView,
    supplies: Supplies,
    r: Result<Output, Error>,
) -> bool {
    let limit = cli::clamped(c.limit, 64, 1000);
    match store {
        None => r matches Ok(Output::Ran(stats)) && {
            &&& stats.model@ == EMBEDDING_MODEL_ID@
            &&& stats.cache_dir@ == supplies.cache_dir@
            &&& stats.indexed == 0
            &&& stats.stale == 0
            &&& stats.remaining == 0
        },
        Some(s) => if embedding_worker::has_work(s, c.cached_only, supplies.cached) {
            r matches Ok(Output::Embed { options, sources }) && {
                &&& options.limit == limit
                &&& options.cache_dir@ == supplies.cache_dir@
                &&& options.show_download_progress == supplies.show_download_progress
                &&& options.cached_only == c.cached_only
                &&& embedding_worker::is_batch(s, model::views(sources@), limit)
            }
        } else {
            r matches Ok(Output::Ran(stats)) && {
                &&& stats.model@ == EMBEDDING_MODEL_ID@
                &&& stats.cache_dir@ == supplies.cache_dir@
                &&& stats.indexed == 0
                &&& stats.stale == 0
                &&& stats.remaining == embedding::waiting(s, EMBEDDING_MODEL_ID@).len()
            }
        },
    }
}

fn run_index(store: Option<&Store>, c: IndexCommand, supplies: Supplies) -> (r: Result<
    Output,
    Error,
>)
    ensures
        indexes(cli::store_of(store), c@, supplies, r),
{
    match store {
        None => Ok(Output::Ran(index_without_store(supplies.cache_dir))),
        Some(s) => {
            let options: EmbeddingRunOptions = EmbeddingRunOptions {
                limit: index_limit(c.limit),
                cache_dir: supplies.cache_dir,
                show_download_progress: supplies.show_download_progress,
                cached_only: c.cached_only,
            };
            match s.plan_embedding_run(&options, supplies.cached)? {
                RunPlan::Done(stats) => Ok(Output::Ran(stats)),
                RunPlan::Embed(sources) => Ok(Output::Embed { options, sources }),
            }
        },
    }
}

/// Holds when memories are exported; without a store there are none.
pub open spec fn exports(
    store: Option<StoreView>,
    include_superseded: bool,
    r: Result<Output, Error>,
) -> bool {
    r matches Ok(Output::Exported(memories)) && match store {
        None => memories@.len() == 0,
        Some(s) => model::ranked(
            model::views(memories@),
            s.memories.filter(search::exported(include_superseded)),
            search::by_creation(),
            s.memories.filter(search::exported(include_superseded)).len() as int,
        ),
    }
}

/// Holds when running a command turns the store from `before` into `after` and comes to
/// `r`. Commands that create the store start from an empty one where there is none;
/// those that change or read a single memory fail there; the others do not create it.
pub open spec fn is_run<F: Fn(&Vec<u32>) -> i64>(
    before: Option<StoreView>,
    after: Option<StoreView>,
    place: Place,
    command: CommandView,
    supplies: Supplies,
    score: F,
    r: Result<Output, Error>,
) -> bool {
    let workspace = place.project@.workspace_id;
    match command {
        CommandView::Init => after == Some(opened(before)) && shows_status(after, place, r),
        CommandView::Status => after == before && shows_status(before, place, r),
        CommandView::StateShow(_) => after == before && shows_state(before, workspace, r),
        CommandView::StateSet(c) => after is Some && updates_state(
            opened(before),
            after->0,
            update_of(workspace, c),
            r,
        ),
        CommandView::StateClear(_) => clears_state(before, after, workspace, r),
        CommandView::Context(c) => after == before && gives_context(
            before,
            place,
            c,
            supplies,
            score,
            r,
        ),
        CommandView::Remember(c) => after is Some && remembers(
            opened(before),
            after->0,
            memory_of(c),
            r,
        ),
        CommandView::Correct(c) => match before {
            None => (r matches Err(e) && e@ == no_store(place)) && after is None,
            Some(s) => after is Some && corrects(s, after->0, c.id, correction_of(c), r),
        },
        CommandView::Search(c) => after == before && searches(before, c, supplies, score, r),
        CommandView::Get(c) => after == before && match before {
            None => r matches Err(e) && e@ == no_store(place),
            Some(s) => gets(s, c.id, r),
        },
        CommandView::Forget(c) => match before {
            None => (r matches Err(e) && e@ == no_store(place)) && after is None,
            Some(s) => after is Some && forgets(s, after->0, c.id, r),
        },
        CommandView::Index(c) => after == before && indexes(before, c, supplies, r),
        CommandView::Export(c) => after == before && exports(before, c.include_superseded, r),
    }
}

/// Runs a command on the store, if there is one, and gives the store back.
pub fn run<F: Fn(&Vec<u32>) -> i64>(
    store: Option<Store>,
    place: Place,
    command: Command,
    supplies: Supplies,
    score: F,
) -> (r: (Option<Store>, Result<Output, Error>))
    requires
        forall|v: &Vec<u32>| #[trigger] call_requires(score, (v,)),
    ensures
        is_run(view_of(store), view_of(r.0), place, command@, supplies, score, r.1),
        (store matches Some(s) ==> s@.wf()) ==> (r.0 matches Some(s) ==> s@.wf()),
{
    match command {
        Command::Init => {
            let s: Store = open(store);
            let out: Result<Output, Error> = run_status(Some(&s), place);
            (Some(s), out)
        },
        Command::Status => {
            let out: Result<Output, Error> = run_status(store.as_ref(), place);
            (store, out)
        },
        Command::State(StateCommand::Show(_)) => {
            let out: Result<Output, Error> = run_state_show(
                store.as_ref(),
                place.project.workspace_id,
            );
            (store, out)
        },
        Command::State(StateCommand::Update(c)) => {
            let (s, out): (Store, Result<Output, Error>) = run_state_set(
                open(store),
                place.project.workspace_id,
                c,
            );
            (Some(s), out)
        },
        Command::State(StateCommand::Clear(_)) => run_state_clear(
            store,
            place.project.workspace_id,
        ),
        Command::Context(c) => {
            let out: Result<Output, Error> = run_context(store.as_ref(), place, c, supplies, score);
            (store, out)
        },
        Command::Remember(c) => {
            let (s, out): (Store, Result<Output, Error>) = run_remember(open(store), c);
            (Some(s), out)
        },
        Command::Correct(c) => match store {
            None => (None, Err(missing_store(place.database.as_str()))),
            Some(s) => {
                let (s, out): (Store, Result<Output, Error>) = run_correct(s, c);
                (Some(s), out)
            },
        },
        Command::Search(c) => {
            let out: Result<Output, Error> = run_search(store.as_ref(), c, supplies, score);
            (store, out)
        },
        Command::Get(c) => match store {
            None => (None, Err(missing_store(place.database.as_str()))),
            Some(s) => {
                let out: Result<Output, Error> = run_get(&s, c.id.as_str());
                (Some(s), out)
            },
        },
        Command::Forget(c) => match store {
            None => (None, Err(missing_store(place.database.as_str()))),
            Some(s) => {
                let (s, out): (Store, Result<Output, Error>) = run_forget(s, c.id.as_str());
                (Some(s), out)
            },
        },
        Command::Index(c) => {
            let out: Result<Output, Error> = run_index(store.as_ref(), c, supplies);
            (store, out)
        },
        Command::Export(c) => {
            let memories: Vec<Memory> = match &store {
                None => Vec::new(),
                Some(s) => s.export(c.include_superseded),
            };
            (store, Ok(Output::Exported(memories)))
        },
    }
}

/// The lines that a command prints. Exported memories, and what is asked for, are not
/// printed as lines.
pub open spec fn output_lines(o: Output, scores: Seq<Seq<char>>) -> Seq<Seq<char>> {
    match o {
        Output::Status(status) => render::status_lines(status),
        Output::State { workspace, state } => match state {
            Some(state) => render::state_lines(state@),
            None => seq!["no state for "@ + workspace@],
        },
        Output::Cleared { workspace, cleared } => seq![
            render::cleared_line(workspace@, cleared),
        ],
        Output::Context(context) => render::context_lines(context),
        Output::Remembered(m) => seq![render::memory_line(m@)],
        Output::Corrected(c) => render::correction_lines(c@),
        Output::Hits(hits) => Seq::new(
            hits@.len(),
            |i: int| render::memory_line(hits@[i].memory@),
        ),
        Output::Scored(hits) => Seq::new(
            hits@.len(),
            |i: int| render::scored_line(hits@[i].memory@, scores[i]),
        ),
        Output::Got(m) => render::memory_lines(m@),
        Output::Forgot(id) => seq!["forgot "@ + id@],
        Output::Ran(stats) => render::run_lines(stats),
        _ => Seq::empty(),
    }
}

/// A list of one line.
fn single(line: String) -> (r: Vec<String>)
    ensures
        model::views(r@) == seq![line@],
{
    let mut out: Vec<String> = Vec::new();
    out.push(line);
    assert(model::views(out@) =~= seq![line@]);
    out
}

fn render_hits(hits: &Vec<SearchHit>) -> (r: Vec<String>)
    ensures
        r@.len() == hits@.len(),
        forall|k: int|
            0 <= k < hits@.len() ==> (#[trigger] r@[k])@ == render::memory_line(hits@[k].memory@),
{
    let mut out: Vec<String> = Vec::new();
    let mut i: usize = 0;
    while i < hits.len()
        invariant
            i <= hits@.len(),
            out@.len() == i,
            forall|k: int|
                0 <= k < i ==> (#[trigger] out@[k])@ == render::memory_line(hits@[k].memory@),
        decreases hits@.len() - i,
    {
        out.push(render_memory_line(&hits[i].memory));
        i = i + 1;
    }
    out
}

fn render_scored(hits: &Vec<SemanticSearchHit>, scores: &Vec<String>) -> (r: Vec<String>)
    requires
        scores@.len() == hits@.len(),
    ensures
        r@.len() == hits@.len(),
        forall|k: int|
            0 <= k < hits@.len() ==> (#[trigger] r@[k])@ == render::scored_line(
                hits@[k].memory@,
                scores@[k]@,
            ),
{
    let mut out: Vec<String> = Vec::new();
    let mut i: usize = 0;
    while i < hits.len()
        invariant
            i <= hits@.len(),
            scores@.len() == hits@.len(),
            out@.len() == i,
            forall|k: int|
                0 <= k < i ==> (#[trigger] out@[k])@ == render::scored_line(
                    hits@[k].memory@,
                    scores@[k]@,
                ),
        decreases hits@.len() - i,
    {
        out.push(render_scored_line(&hits[i].memory, scores[i].as_str()));
        i = i + 1;
    }
    out
}

/// The lines that a command prints. `scores` are the scores of a semantic search as
/// texts.
pub fn render_output(o: &Output, scores: &Vec<String>) -> (r: Vec<String>)
    requires
        o matches Output::Scored(hits) ==> scores@.len() == hits@.len(),
    ensures
        model::views(r@) == output_lines(*o, model::views(scores@)),
{
    match o {
        Output::Status(status) => render_status(status),
        Output::State { workspace, state } => match state {
            Some(state) => render_workspace_state(state),
            None => single(concat2("no state for ", workspace.as_str())),
        },
        Output::Cleared { workspace, cleared } => single(
            render_cleared(workspace.as_str(), *cleared),
        ),
        Output::Context(context) => render_context(context),
        Output::Remembered(m) => single(render_memory_line(m)),
        Output::Corrected(c) => render_correction(c),
        Output::Hits(hits) => {
            let out: Vec<String> = render_hits(hits);
            assert(model::views(out@) =~= output_lines(*o, model::views(scores@)));
            out
        },
        Output::Scored(hits) => {
            let out: Vec<String> = render_scored(hits, scores);
            assert(model::views(out@) =~= output_lines(*o, model::views(scores@)));
            out
        },
        Output::Got(m) => render_memory(m),
        Output::Forgot(id) => single(concat2("forgot ", id.as_str())),
        Output::Ran(stats) => render_run(stats),
        _ => {
            let out: Vec<String> = Vec::new();
            assert(model::views(out@) =~= Seq::<Seq<char>>::empty());
            out
        },
    }
}

/// Reading never creates a store: where there is none, only the commands that store
/// something leave one.
pub proof fn law_reads_do_not_create_a_store<F: Fn(&Vec<u32>) -> i64>(
    after: Option<StoreView>,
    place: Place,
    command: CommandView,
    supplies: Supplies,
    score: F,
    r: Result<Output, Error>,
)
    requires
        is_run(None, after, place, command, supplies, score, r),
    ensures
        after is Some <==> command is Init || command is Remember || command is StateSet,
{
}

/// A refused command leaves the store as it was, but that a command which creates a
/// store may leave an empty one.
pub proof fn law_refused_commands_change_nothing<F: Fn(&Vec<u32>) -> i64>(
    before: Option<StoreView>,
    after: Option<StoreView>,
    place: Place,
    command: CommandView,
    supplies: Supplies,
    score: F,
    r: Result<Output, Error>,
)
    requires
        is_run(before, after, place, command, supplies, score, r),
        r is Err,
    ensures
        after == before || before is None && after == Some(store::empty_store()),
{
}

/// Where models must be cached already and the current one is not, no vector of a memory
/// is asked for, so that none is downloaded.
pub proof fn law_cached_only_runs_ask_for_nothing(
    store: Option<StoreView>,
    c: IndexView,
    supplies: Supplies,
    r: Result<Output, Error>,
)
    requires
        indexes(store, c, supplies, r),
        c.cached_only,
        !supplies.cached,
    ensures
        r matches Ok(Output::Ran(stats)) && stats.indexed == 0 && stats.stale == 0,
{
}

/// Number of bytes of the texts of memories.
pub open spec fn text_bytes(memories: Seq<MemoryView>) -> nat
    decreases memories.len(),
{
    if memories.len() == 0 {
        0
    } else {
        text_bytes(memories.drop_last()) + text::byte_len(memories.last().text)
    }
}

proof fn lemma_text_bytes(hits: Seq<HitView>, n: int)
    requires
        0 <= n <= hits.len(),
    ensures
        text_bytes(cli::memories_of(hits).take(n)) == cli::total_bytes(hits.take(n)),
    decreases n,
{
    let memories = cli::memories_of(hits);
    if n > 0 {
        lemma_text_bytes(hits, n - 1);
        assert(memories.take(n).drop_last() =~= memories.take(n - 1));
        assert(hits.take(n).drop_last() =~= hits.take(n - 1));
        assert(memories.take(n).last() == hits.take(n).last().memory);
    }
}

/// A context is bounded by its number of memories and by the bytes of their texts: a
/// budget of zero does not bound the bytes.
pub proof fn law_context_is_bounded<F: Fn(&Vec<u32>) -> i64>(
    store: Option<StoreView>,
    place: Place,
    c: ContextView,
    supplies: Supplies,
    score: F,
    r: Result<Output, Error>,
)
    requires
        gives_context(store, place, c, supplies, score, r),
    ensures
        r matches Ok(Output::Context(o)) ==> {
            &&& o.memories@.len() <= cli::clamped(c.limit, 10, 100)
            &&& match c.max_bytes {
                Some(n) => n > 0 ==> text_bytes(model::views(o.memories@)) <= n,
                None => text_bytes(model::views(o.memories@)) <= cli::RECALL_DEFAULT_MAX_BYTES,
            }
        },
{
    let limit = cli::clamped(c.limit, 10, 100);
    if let Ok(Output::Context(o)) = r {
        let root = place.project@.root;
        let workspace = place.project@.workspace_id;
        let hits = match store {
            None => Seq::empty(),
            Some(s) => choose|hits: Seq<HitView>|
                recalls(s, limit, supplies, score, hits) && #[trigger] cli::is_context(
                    o,
                    root,
                    workspace,
                    model::first_row(s.states, state::of_workspace(workspace)),
                    hits,
                    c.max_bytes,
                ),
        };
        if let Some(s) = store {
            lemma_recalled_number(s, limit, supplies, score, hits);
        }
        lemma_text_bytes(hits, o.memories@.len() as int);
    }
}

proof fn lemma_recalled_number<F: Fn(&Vec<u32>) -> i64>(
    s: StoreView,
    limit: int,
    supplies: Supplies,
    score: F,
    hits: Seq<HitView>,
)
    requires
        recalls(s, limit, supplies, score, hits),
        limit >= 0,
    ensures
        hits.len() <= limit,
{
    if recall::answers(s, limit, recall::vector_outcome(supplies.vector)) {
        let rows = vector_search::scanned(s, EMBEDDING_MODEL_ID@);
        let (found, scores) = choose|found: Seq<SemanticView>, scores: Seq<i64>| #[trigger]
            vector_search::is_best_by_score(found, rows, score, scores, limit) && hits
                == model::joined(found, recall::recalled());
        model::law_ranked_rows(
            found,
            vector_search::scored(rows, scores),
            vector_search::by_score(),
            limit,
        );
        model::lemma_filter_contains(found, model::gives(recall::recalled()));
    } else {
        model::law_ranked_rows(
            hits,
            model::joined(model::views(supplies.matches@), search::hit_of(s.memories)),
            search::by_rank(),
            limit,
        );
    }
}

} // verus!
