//! What commands do with the store, and what they print.

use crate::args;
use crate::args::{Command, Correct, Remember, StateCommand, StateSet};
use crate::embedding;
use crate::embedding::EmbeddingCoverage;
use crate::embedding_worker::{EmbeddingRunStats, EMBEDDING_MODEL_ID};
use crate::error::Error;
use crate::memory::{Memory, MemoryView, NewCorrection, NewCorrectionView, NewMemory, NewMemoryView};
use crate::model;
use crate::model::Row;
use crate::recall;
use crate::search::{HitView, SearchHit};
use crate::state::{StateView, UpdateView, WorkspaceState, WorkspaceStateUpdate};
use crate::store;
use crate::store::{Store, StoreStats, StoreView};
use crate::text;
use crate::text::{byte_length, is_blank, trim};
use crate::workspace;
use crate::workspace::{git_output, GitOutput};
use vstd::prelude::*;
use vstd::string::*;

verus! {

/// The budget of recalled text in bytes, unless another is given.
pub const RECALL_DEFAULT_MAX_BYTES: usize = 32_768;

/// Tells whether a command creates the store where there is none: reading does not.
pub fn command_creates_store(command: &Command) -> (r: bool)
    ensures
        r == (command@ is Init || command@ is Remember || command@ is StateSet),
{
    match command {
        Command::Init => true,
        Command::Remember(_) => true,
        Command::State(StateCommand::Update(_)) => true,
        _ => false,
    }
}

/// A number of results within bounds, or the default where none is given.
pub open spec fn clamped(given: Option<int>, default: int, most: int) -> int {
    match given {
        Some(n) => if n < 1 {
            1
        } else if n > most {
            most
        } else {
            n
        },
        None => default,
    }
}

/// A number within bounds.
fn clamp(given: Option<usize>, default: usize, most: usize) -> (r: usize)
    ensures
        r == clamped(args::size_of(given), default as int, most as int),
{
    match given {
        Some(n) => if n < 1 {
            1
        } else if n > most {
            most
        } else {
            n
        },
        None => default,
    }
}

/// How many results a search or a context has at most.
pub fn result_limit(given: Option<usize>) -> (r: usize)
    ensures
        r == clamped(args::size_of(given), 10, 100),
{
    clamp(given, 10, 100)
}

/// How many memories are embedded at most.
pub fn index_limit(given: Option<usize>) -> (r: usize)
    ensures
        r == clamped(args::size_of(given), 64, 1000),
{
    clamp(given, 64, 1000)
}

/// The text that is given, or a default.
pub open spec fn text_or(given: Option<Seq<char>>, default: Seq<char>) -> Seq<char> {
    match given {
        Some(value) => value,
        None => default,
    }
}

fn or_default(given: Option<String>, default: &str) -> (r: String)
    ensures
        r@ == text_or(model::text_of(given), default@),
{
    match given {
        Some(value) => value,
        None => default.to_owned(),
    }
}

/// The memory that a command stores: a fact established by the agent on the command
/// line, unless the command says otherwise.
pub fn new_memory(command: Remember) -> (r: NewMemory)
    ensures
        r@ == (NewMemoryView {
            text: command@.text,
            kind: text_or(command@.kind, "fact"@),
            actor: text_or(command@.actor, "agent"@),
            source_type: text_or(command@.source_type, "cli"@),
            source_ref: command@.source_ref,
        }),
{
    NewMemory {
        text: command.text,
        kind: or_default(command.kind, "fact"),
        actor: or_default(command.actor, "agent"),
        source_type: or_default(command.source_type, "cli"),
        source_ref: command.source_ref,
    }
}

/// The correction that a command makes.
pub fn new_correction(command: Correct) -> (r: NewCorrection)
    ensures
        r@ == (NewCorrectionView {
            text: command@.text,
            kind: command@.kind,
            actor: text_or(command@.actor, "agent"@),
            source_type: text_or(command@.source_type, "cli"@),
            source_ref: command@.source_ref,
        }),
{
    NewCorrection {
        text: command.text,
        kind: command.kind,
        actor: or_default(command.actor, "agent"),
        source_type: or_default(command.source_type, "cli"),
        source_ref: command.source_ref,
    }
}

/// The update of the state of a workspace that a command makes.
pub fn state_update(workspace: String, command: StateSet) -> (r: WorkspaceStateUpdate)
    ensures
        r@ == (UpdateView {
            workspace: workspace@,
            session: command@.session,
            goal: command@.goal,
            task: command@.task,
            checkpoint: command@.checkpoint,
            clear_fields: command@.clear,
        }),
{
    WorkspaceStateUpdate {
        workspace,
        session: command.session,
        goal: command.goal,
        task: command.task,
        checkpoint: command.checkpoint,
        clear_fields: command.clear,
    }
}

/// Number of bytes of the texts of found memories.
pub open spec fn total_bytes(hits: Seq<HitView>) -> nat
    decreases hits.len(),
{
    if hits.len() == 0 {
        0
    } else {
        total_bytes(hits.drop_last()) + text::byte_len(hits.last().memory.text)
    }
}

/// Holds when the first `n` found memories are those that a budget allows: a budget
/// of zero allows all, and any other as many of the first as fit into it.
pub open spec fn within_budget(hits: Seq<HitView>, max_bytes: int, n: int) -> bool {
    &&& 0 <= n <= hits.len()
    &&& max_bytes == 0 ==> n == hits.len()
    &&& max_bytes > 0 ==> total_bytes(hits.take(n)) <= max_bytes && (n < hits.len()
        ==> total_bytes(hits.take(n + 1)) > max_bytes)
}

/// The memories of found memories.
pub open spec fn memories_of(hits: Seq<HitView>) -> Seq<MemoryView> {
    Seq::new(hits.len(), |i: int| hits[i].memory)
}

/// The found memories that a budget in bytes allows.
pub fn pack_context(hits: &Vec<SearchHit>, max_bytes: usize) -> (r: Vec<Memory>)
    ensures
        within_budget(model::views(hits@), max_bytes as int, r@.len() as int),
        model::views(r@) == memories_of(model::views(hits@)).take(r@.len() as int),
{
    let ghost all = model::views(hits@);
    let mut memories: Vec<Memory> = Vec::new();
    let mut total: usize = 0;
    let mut i: usize = 0;
    assert(all.take(0) =~= Seq::<HitView>::empty());
    while i < hits.len()
        invariant
            i <= hits@.len(),
            all == model::views(hits@),
            memories@.len() == i,
            forall|k: int| 0 <= k < i ==> (#[trigger] memories@[k])@ == all[k].memory,
            max_bytes > 0 ==> total == total_bytes(all.take(i as int)) && total <= max_bytes,
        decreases hits@.len() - i,
    {
        let bytes: usize = byte_length(hits[i].memory.text.as_str());
        assert(all.take(i + 1).drop_last() =~= all.take(i as int));
        assert(all[i as int] == hits@[i as int]@);
        if max_bytes > 0 {
            if bytes > max_bytes - total {
                assert(model::views(memories@) =~= memories_of(all).take(i as int));
                return memories;
            }
            total = total + bytes;
        }
        memories.push(hits[i].memory.duplicate());
        i = i + 1;
    }
    assert(model::views(memories@) =~= memories_of(all).take(i as int));
    memories
}

/// Recalled text never exceeds its budget.
pub proof fn law_context_keeps_its_budget(hits: Seq<HitView>, max_bytes: int, n: int)
    requires
        within_budget(hits, max_bytes, n),
        max_bytes > 0,
    ensures
        total_bytes(hits.take(n)) <= max_bytes,
        hits.len() > 0 && text::byte_len(hits[0].memory.text) > max_bytes ==> n == 0,
{
    if hits.len() > 0 && text::byte_len(hits[0].memory.text) > max_bytes && n > 0 {
        lemma_total_bytes_grows(hits, 1, n);
        assert(hits.take(1).drop_last() =~= Seq::<HitView>::empty());
        assert(total_bytes(hits.take(1).drop_last()) == 0);
        assert(hits.take(1).last() == hits[0]);
    }
}

proof fn lemma_total_bytes_grows(hits: Seq<HitView>, i: int, j: int)
    requires
        0 <= i <= j <= hits.len(),
    ensures
        total_bytes(hits.take(i)) <= total_bytes(hits.take(j)),
    decreases j - i,
{
    if i < j {
        lemma_total_bytes_grows(hits, i, j - 1);
        assert(hits.take(j).drop_last() =~= hits.take(j - 1));
    }
}

/// What a context holds: the root of the repository, the workspace, its state, and the
/// recalled memories.
#[derive(Debug)]
pub struct ContextOutput {
    pub root: Option<String>,
    pub workspace: String,
    pub state: Option<WorkspaceState>,
    pub memories: Vec<Memory>,
}

/// Holds when `o` is the context of the given found memories: as many of the first of
/// them as the budget allows, which is the default unless another is given.
pub open spec fn is_context(
    o: ContextOutput,
    root: Option<Seq<char>>,
    workspace: Seq<char>,
    state: Option<StateView>,
    hits: Seq<HitView>,
    max_bytes: Option<int>,
) -> bool {
    let budget = match max_bytes {
        Some(n) => n,
        None => RECALL_DEFAULT_MAX_BYTES as int,
    };
    &&& model::text_of(o.root) == root
    &&& o.workspace@ == workspace
    &&& model::row_of(o.state) == state
    &&& within_budget(hits, budget, o.memories@.len() as int)
    &&& model::views(o.memories@) == memories_of(hits).take(o.memories@.len() as int)
}

/// Builds a context from the state of a workspace and the memories that were recalled,
/// if there is a store.
pub fn build_context(
    root: Option<String>,
    workspace: String,
    state: Option<WorkspaceState>,
    hits: &Vec<SearchHit>,
    max_bytes: Option<usize>,
) -> (r: ContextOutput)
    ensures
        is_context(
            r,
            model::text_of(root),
            workspace@,
            model::row_of(state),
            model::views(hits@),
            args::size_of(max_bytes),
        ),
{
    let budget: usize = match max_bytes {
        Some(n) => n,
        None => RECALL_DEFAULT_MAX_BYTES,
    };
    ContextOutput { root, workspace, state, memories: pack_context(hits, budget) }
}

/// The statistics of a run without a store: nothing is indexed and nothing remains.
pub fn index_without_store(cache_dir: String) -> (r: EmbeddingRunStats)
    ensures
        r.model@ == EMBEDDING_MODEL_ID@,
        r.cache_dir@ == cache_dir@,
        r.indexed == 0,
        r.stale == 0,
        r.remaining == 0,
{
    EmbeddingRunStats {
        model: EMBEDDING_MODEL_ID.to_owned(),
        cache_dir,
        indexed: 0,
        stale: 0,
        remaining: 0,
    }
}

/// The status of a store, its workspace, and its vectors.
#[derive(Debug)]
pub struct StatusOutput {
    pub database: String,
    pub initialized: bool,
    pub build_commit: String,
    pub schema_version: i64,
    pub root: Option<String>,
    pub workspace: String,
    pub total: u64,
    pub active: u64,
    pub superseded: u64,
    pub deleted: u64,
    pub indexed: u64,
    pub unindexed: u64,
}

/// Holds when `o` is the status of a store; without one all counts are zero.
pub open spec fn is_status(
    o: StatusOutput,
    database: Seq<char>,
    store: Option<StoreView>,
    root: Option<Seq<char>>,
    workspace: Seq<char>,
    build_commit: Seq<char>,
) -> bool {
    &&& o.database@ == database
    &&& o.initialized == (store is Some)
    &&& o.build_commit@ == build_commit
    &&& model::text_of(o.root) == root
    &&& o.workspace@ == workspace
    &&& match store {
        Some(s) => {
            &&& o.schema_version == s.schema_version
            &&& o.total == s.memories.len()
            &&& o.active == store::number_in(s, "active"@)
            &&& o.superseded == store::number_in(s, "superseded"@)
            &&& o.deleted == store::number_in(s, "deleted"@)
            &&& o.indexed == s.memories.filter(
                embedding::covered(s.embeddings, EMBEDDING_MODEL_ID@),
            ).len()
            &&& o.unindexed == embedding::waiting(s, EMBEDDING_MODEL_ID@).len()
        },
        None => {
            &&& o.schema_version == 0
            &&& o.total == 0
            &&& o.active == 0
            &&& o.superseded == 0
            &&& o.deleted == 0
            &&& o.indexed == 0
            &&& o.unindexed == 0
        },
    }
}

/// The model of a store, if there is one.
pub open spec fn store_of(store: Option<&Store>) -> Option<StoreView> {
    match store {
        Some(s) => Some(s@),
        None => None,
    }
}

/// The status of a store; without one all counts are zero.
pub fn store_status(
    database: String,
    store: Option<&Store>,
    root: Option<String>,
    workspace: String,
    build_commit: String,
) -> (r: Result<StatusOutput, Error>)
    ensures
        r is Ok,
        is_status(
            r->Ok_0,
            database@,
            store_of(store),
            model::text_of(root),
            workspace@,
            build_commit@,
        ),
{
    let mut out: StatusOutput = StatusOutput {
        database,
        initialized: false,
        build_commit,
        schema_version: 0,
        root,
        workspace,
        total: 0,
        active: 0,
        superseded: 0,
        deleted: 0,
        indexed: 0,
        unindexed: 0,
    };
    if let Some(s) = store {
        proof {
            recall::lemma_model_id_is_not_blank();
        }
        let stats: StoreStats = s.stats();
        let coverage: EmbeddingCoverage = s.embedding_coverage(EMBEDDING_MODEL_ID)?;
        out.initialized = true;
        out.schema_version = stats.schema_version;
        out.total = stats.total;
        out.active = stats.active;
        out.superseded = stats.superseded;
        out.deleted = stats.deleted;
        out.indexed = coverage.indexed;
        out.unindexed = coverage.unindexed;
    }
    Ok(out)
}

/// The error of a command that needs a store where there is none.
pub fn missing_store(path: &str) -> (r: Error)
    ensures
        r@ == "memory store not found: "@ + path@,
{
    Error::of2("memory store not found: ", path)
}

/// What a program was built from: the commit that git reports, else the one that the
/// environment names, else unknown.
pub fn build_identity(head: &Option<GitOutput>, named: Option<&str>) -> (r: String)
    ensures
        r@ == (match workspace::git_value(*head) {
            Some(commit) => commit,
            None => match workspace::str_of(named) {
                Some(commit) => if text::blank(commit) {
                    "unknown"@
                } else {
                    text::trimmed(commit)
                },
                None => "unknown"@,
            },
        }),
{
    if let Some(commit) = git_output(head) {
        return commit;
    }
    if let Some(commit) = named {
        if !is_blank(commit) {
            return trim(commit);
        }
    }
    "unknown".to_owned()
}

/// Where the database is: at the given path, at the one the environment names, below the
/// root of the repository, below an ancestor of the current directory, or below the
/// current directory itself.
#[derive(Debug, Clone, Copy, PartialEq, Eq, Structural)]
pub enum DatabaseChoice {
    Given,
    Environment,
    Root,
    Ancestor(usize),
    Current,
}

/// The first of the first `n` directories that has a store.
pub open spec fn nearest(has_store: Seq<bool>, n: int) -> Option<int>
    decreases n,
{
    if n <= 0 {
        None
    } else {
        match nearest(has_store, n - 1) {
            Some(i) => Some(i),
            None => if n <= has_store.len() && has_store[n - 1] {
                Some(n - 1)
            } else {
                None
            },
        }
    }
}

/// Number of ancestors that belong to the repository: up to its root, or all of them if
/// its root is not among them.
pub open spec fn reach(has_store: Seq<bool>, root: Option<int>) -> int {
    match root {
        Some(i) => i + 1,
        None => has_store.len() as int,
    }
}

/// Where the database is. `has_store` tells for each ancestor of the current directory,
/// beginning with itself, whether it has a store; in a repository, `root_has_store`
/// tells it of the root, and `root` is its place among the ancestors.
pub open spec fn database_choice(
    given: bool,
    named: bool,
    in_repository: bool,
    root_has_store: bool,
    root: Option<int>,
    has_store: Seq<bool>,
) -> DatabaseChoice {
    if given {
        DatabaseChoice::Given
    } else if named {
        DatabaseChoice::Environment
    } else if in_repository {
        if root_has_store {
            DatabaseChoice::Root
        } else {
            match nearest(has_store, reach(has_store, root)) {
                Some(i) => DatabaseChoice::Ancestor(i as usize),
                None => DatabaseChoice::Root,
            }
        }
    } else {
        match nearest(has_store, has_store.len() as int) {
            Some(i) => DatabaseChoice::Ancestor(i as usize),
            None => DatabaseChoice::Current,
        }
    }
}

fn find_nearest(has_store: &Vec<bool>, n: usize) -> (r: Option<usize>)
    ensures
        match r {
            Some(i) => nearest(has_store@, n as int) == Some(i as int) && i < has_store@.len(),
            None => nearest(has_store@, n as int) is None,
        },
    decreases n,
{
    if n == 0 {
        return None;
    }
    match find_nearest(has_store, n - 1) {
        Some(i) => Some(i),
        None => if n <= has_store.len() && has_store[n - 1] {
            Some(n - 1)
        } else {
            None
        },
    }
}

/// Decides where the database is.
pub fn database_path(
    given: bool,
    named: bool,
    in_repository: bool,
    root_has_store: bool,
    root: Option<usize>,
    has_store: &Vec<bool>,
) -> (r: DatabaseChoice)
    requires
        root matches Some(i) ==> i < has_store@.len(),
    ensures
        r == database_choice(
            given,
            named,
            in_repository,
            root_has_store,
            args::size_of(root),
            has_store@,
        ),
{
    if given {
        return DatabaseChoice::Given;
    }
    if named {
        return DatabaseChoice::Environment;
    }
    if in_repository {
        if root_has_store {
            return DatabaseChoice::Root;
        }
        let all: usize = has_store.len();
        let n: usize = match root {
            Some(i) => i + 1,
            None => all,
        };
        return match find_nearest(has_store, n) {
            Some(i) => DatabaseChoice::Ancestor(i),
            None => DatabaseChoice::Root,
        };
    }
    match find_nearest(has_store, has_store.len()) {
        Some(i) => DatabaseChoice::Ancestor(i),
        None => DatabaseChoice::Current,
    }
}

/// Tells whether a command has to make sure that the directory of the store is ignored
/// by git: where it creates the store in a place of its own choosing.
pub fn needs_ignore_file(given: bool, named: bool, command: &Command) -> (r: bool)
    ensures
        r == (!given && !named && (command@ is Init || command@ is Remember
            || command@ is StateSet)),
{
    !given && !named && command_creates_store(command)
}

} // verus!
