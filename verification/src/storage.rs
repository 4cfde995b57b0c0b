//! Routing of requests to the store of a project, which may not exist yet.

use crate::embedding_worker::{EmbeddingRunOptions, EMBEDDING_MODEL_ID};
use crate::episode;
use crate::episode::HistoryHit;
use crate::error;
use crate::error::Error;
use crate::index_job;
use crate::index_job::IndexJobStats;
use crate::memory;
use crate::model;
use crate::recall;
use crate::search;
use crate::search::{Match, SearchHit};
use crate::state;
use crate::state::WorkspaceState;
use crate::store;
use crate::store::Store;
use crate::text;
use crate::text::{is_blank, trim};
use crate::vector_search;
use crate::vector_search::SemanticSearchHit;
use vstd::prelude::*;
use vstd::string::*;

verus! {

/// Where the store of a project lies.
#[derive(Debug, Clone)]
pub struct StorageRouter {
    pub path: String,
}

impl StorageRouter {
    /// A router to the store at an exact path.
    pub fn exact(path: String) -> (r: StorageRouter)
        ensures
            r.path@ == path@,
    {
        StorageRouter { path }
    }

    /// The path of the store.
    pub fn path(&self) -> (r: &str)
        ensures
            r@ == self.path@,
    {
        self.path.as_str()
    }
}

/// What an identifier stands for where there is no store.
pub open spec fn unresolved(kind: Seq<char>, target: Seq<char>) -> Seq<char> {
    if text::blank(target) {
        kind + " ID cannot be empty"@
    } else {
        kind + " not found: "@ + text::trimmed(target)
    }
}

/// The error of an identifier where there is no store.
fn missing(kind: &str, target: &str) -> (r: Error)
    ensures
        r@ == unresolved(kind@, target@),
{
    if is_blank(target) {
        return Error::of2(kind, " ID cannot be empty");
    }
    let candidate: String = trim(target);
    Error::of3(kind, " not found: ", candidate.as_str())
}

/// The identifier of the memory that an identifier or a prefix stands for.
pub fn routed_resolve_memory(store: Option<&Store>, id_or_prefix: &str) -> (r: Result<
    String,
    Error,
>)
    ensures
        error::outcome(r) == (match store {
            None => Err::<Seq<char>, Seq<char>>(unresolved("memory"@, id_or_prefix@)),
            Some(s) => store::resolved(s@.memories, id_or_prefix@),
        }),
{
    match store {
        None => Err(missing("memory", id_or_prefix)),
        Some(s) => s.resolve_memory_id(id_or_prefix),
    }
}

/// The identifier of the episode that an identifier or a prefix stands for.
pub fn routed_resolve_episode(store: Option<&Store>, id_or_prefix: &str) -> (r: Result<
    String,
    Error,
>)
    ensures
        error::outcome(r) == (match store {
            None => Err::<Seq<char>, Seq<char>>(unresolved("episode"@, id_or_prefix@)),
            Some(s) => episode::resolved(s@.episodes, id_or_prefix@),
        }),
{
    match store {
        None => Err(missing("episode", id_or_prefix)),
        Some(s) => s.resolve_episode_id(id_or_prefix),
    }
}

/// Recall; without a store nothing is recalled, and where lexical recall is forced the
/// vector of the query is passed over.
pub fn routed_recall_hits<F: Fn(&Vec<u32>) -> i64>(
    store: Option<&Store>,
    query: &str,
    limit: usize,
    force_lexical: bool,
    vector: Option<Result<usize, Error>>,
    score: F,
    matches: &Vec<Match>,
) -> (r: Result<Vec<SearchHit>, Error>)
    requires
        forall|v: &Vec<u32>| #[trigger] call_requires(score, (v,)),
    ensures
        match store {
            None => r is Ok && r->Ok_0@.len() == 0,
            Some(s) => recall::is_recall(
                r,
                s@,
                query@,
                limit as int,
                if force_lexical {
                    None
                } else {
                    recall::vector_outcome(vector)
                },
                score,
                model::views(matches@),
            ),
        },
{
    match store {
        None => Ok(Vec::new()),
        Some(s) => if force_lexical {
            s.search(query, limit, matches)
        } else {
            recall::recall_hits(s, query, limit, vector, score, matches)
        },
    }
}

/// Lexical search; without a store nothing is found.
pub fn routed_lexical_search(
    store: Option<&Store>,
    query: &str,
    limit: usize,
    matches: &Vec<Match>,
) -> (r: Result<Vec<SearchHit>, Error>)
    ensures
        match store {
            None => r is Ok && r->Ok_0@.len() == 0,
            Some(s) => match search::search_refusal(query@, limit as int) {
                Some(message) => r is Err && r->Err_0@ == message,
                None => r is Ok && model::ranked(
                    model::views(r->Ok_0@),
                    model::joined(model::views(matches@), search::hit_of(s@.memories)),
                    search::by_rank(),
                    limit as int,
                ),
            },
        },
{
    match store {
        None => Ok(Vec::new()),
        Some(s) => s.search(query, limit, matches),
    }
}

/// Semantic search; without a store nothing is found.
pub fn routed_semantic_search<F: Fn(&Vec<u32>) -> i64>(
    store: Option<&Store>,
    query: Result<usize, Error>,
    score: F,
    limit: usize,
) -> (r: Result<Vec<SemanticSearchHit>, Error>)
    requires
        forall|v: &Vec<u32>| #[trigger] call_requires(score, (v,)),
    ensures
        store is None ==> r is Ok && r->Ok_0@.len() == 0,
        store is Some ==> (vector_search::semantic_refusal(
            (store->0)@,
            EMBEDDING_MODEL_ID@,
            limit as int,
            vector_search::query_outcome(query),
        ) matches Some(message) ==> r is Err && r->Err_0@ == message),
        store is Some && vector_search::semantic_refusal(
            (store->0)@,
            EMBEDDING_MODEL_ID@,
            limit as int,
            vector_search::query_outcome(query),
        ) is None ==> r is Ok && exists|scores: Seq<i64>| #[trigger]
            vector_search::is_best_by_score(
                model::views(r->Ok_0@),
                vector_search::scanned((store->0)@, EMBEDDING_MODEL_ID@),
                score,
                scores,
                limit as int,
            ),
{
    match store {
        None => Ok(Vec::new()),
        Some(s) => s.semantic_search_by_vector(query, score, EMBEDDING_MODEL_ID, limit),
    }
}

/// Search of the history; without a store nothing is found.
pub fn routed_history_search(
    store: Option<&Store>,
    project_id: &Option<String>,
    query: &str,
    limit: usize,
    matches: &Vec<Match>,
) -> (r: Result<Vec<HistoryHit>, Error>)
    ensures
        match store {
            None => r is Ok && r->Ok_0@.len() == 0,
            Some(s) => match episode::history_refusal(query@, limit as int) {
                Some(message) => r is Err && r->Err_0@ == message,
                None => r is Ok && episode::is_history(
                    model::views(r->Ok_0@),
                    s@,
                    model::text_of(*project_id),
                    model::views(matches@),
                    limit as int,
                ),
            },
        },
{
    match store {
        None => Ok(Vec::new()),
        Some(s) => s.history_search(query, project_id, limit, matches),
    }
}

/// The state of a workspace; without a store there is none.
pub fn routed_workspace_state(store: Option<&Store>, workspace_id: &str) -> (r: Result<
    Option<WorkspaceState>,
    Error,
>)
    ensures
        match store {
            None => r is Ok && r->Ok_0 is None,
            Some(s) => match memory::identity_refusal(workspace_id@, "workspace"@) {
                Some(message) => r is Err && r->Err_0@ == message,
                None => r is Ok && model::row_of(r->Ok_0) == model::first_row(
                    s@.states,
                    state::of_workspace(workspace_id@),
                ),
            },
        },
{
    match store {
        None => Ok(None),
        Some(s) => s.workspace_state(workspace_id),
    }
}

/// What a run over the queue of a store came to.
#[derive(Debug)]
pub struct JobRunStats {
    pub claimed: usize,
    pub eligible: usize,
    pub committed: usize,
    pub stale: usize,
    pub retried: usize,
}

/// What a routed run came to.
#[derive(Debug)]
pub struct RoutedRunStats {
    pub model: String,
    pub cache_dir: String,
    pub stores: usize,
    pub claimed: usize,
    pub eligible: usize,
    pub committed: usize,
    pub stale: usize,
    pub retried: usize,
}

/// What a routed run came to, given what the run over the queue of the store came
/// to, if there is a store.
pub fn routed_run_index(options: &EmbeddingRunOptions, run: Option<JobRunStats>) -> (r:
    RoutedRunStats)
    ensures
        r.model@ == EMBEDDING_MODEL_ID@,
        r.cache_dir@ == options.cache_dir@,
        r.stores == 1,
        match run {
            Some(run) => {
                &&& r.claimed == run.claimed
                &&& r.eligible == run.eligible
                &&& r.committed == run.committed
                &&& r.stale == run.stale
                &&& r.retried == run.retried
            },
            None => {
                &&& r.claimed == 0
                &&& r.eligible == 0
                &&& r.committed == 0
                &&& r.stale == 0
                &&& r.retried == 0
            },
        },
{
    let mut stats: RoutedRunStats = RoutedRunStats {
        model: EMBEDDING_MODEL_ID.to_owned(),
        cache_dir: options.cache_dir.clone(),
        stores: 1,
        claimed: 0,
        eligible: 0,
        committed: 0,
        stale: 0,
        retried: 0,
    };
    if let Some(run) = run {
        stats.claimed = run.claimed;
        stats.eligible = run.eligible;
        stats.committed = run.committed;
        stats.stale = run.stale;
        stats.retried = run.retried;
    }
    stats
}

/// Counts of the queued jobs; without a store there are none.
pub fn routed_index_stats(store: Option<&Store>) -> (r: IndexJobStats)
    ensures
        match store {
            None => r.pending == 0 && r.running == 0,
            Some(s) => {
                &&& r.pending == s@.jobs.filter(index_job::in_state("pending"@)).len()
                &&& r.running == s@.jobs.filter(index_job::in_state("running"@)).len()
            },
        },
{
    match store {
        None => IndexJobStats { pending: 0, running: 0 },
        Some(s) => s.index_job_stats(),
    }
}

} // verus!
