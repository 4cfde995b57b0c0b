//! The store: all tables of one database, and the operations on memories.

use crate::clock;
use crate::clock::{draw_id, unix_millis};
use crate::embedding;
use crate::embedding::{Embedding, EmbeddingView};
use crate::episode;
use crate::episode::{Episode, EpisodeEntry, EpisodeView, EntryView};
use crate::error;
use crate::error::Error;
use crate::index_job;
use crate::index_job::{queue, IndexJob, JobView};
use crate::like;
use crate::like::matches_prefix;
use crate::memory;
use crate::memory::{
    make_memory, validate_new_memory, CorrectionResult, Memory, MemoryView, NewCorrection,
    NewCorrectionView, NewMemory, NewMemoryView,
};
use crate::model;
use crate::model::{copy_text, count, has, pick, rewrite, select};
use crate::state;
use crate::state::{StateView, WorkspaceState};
use crate::text;
use crate::text::{is_blank, same, trim};
use vstd::prelude::*;
use vstd::string::*;

verus! {

/// The version of the schema that the store works with.
pub const SCHEMA_VERSION: i64 = 7;

/// All rows of one database.
#[derive(Debug)]
pub struct Store {
    pub schema_version: i64,
    pub memories: Vec<Memory>,
    pub states: Vec<WorkspaceState>,
    pub embeddings: Vec<Embedding>,
    pub episodes: Vec<Episode>,
    pub entries: Vec<EpisodeEntry>,
    pub jobs: Vec<IndexJob>,
}

/// Model of the store.
#[verifier::ext_equal]
pub struct StoreView {
    pub schema_version: int,
    pub memories: Seq<MemoryView>,
    pub states: Seq<StateView>,
    pub embeddings: Seq<EmbeddingView>,
    pub episodes: Seq<EpisodeView>,
    pub entries: Seq<EntryView>,
    pub jobs: Seq<JobView>,
}

impl View for Store {
    type V = StoreView;

    open spec fn view(&self) -> StoreView {
        StoreView {
            schema_version: self.schema_version as int,
            memories: model::views(self.memories@),
            states: model::views(self.states@),
            embeddings: model::views(self.embeddings@),
            episodes: model::views(self.episodes@),
            entries: model::views(self.entries@),
            jobs: model::views(self.jobs@),
        }
    }
}

/// Counts of the memories of a store.
#[derive(Debug)]
pub struct StoreStats {
    pub schema_version: i64,
    pub total: u64,
    pub active: u64,
    pub superseded: u64,
    pub deleted: u64,
}

impl StoreView {
    /// The memories have distinct identifiers and consistent statuses.
    pub open spec fn memories_wf(self) -> bool {
        &&& model::distinct(self.memories, memory::id_key())
        &&& model::all_rows(self.memories, memory::consistent())
    }

    /// Each workspace has at most one state.
    pub open spec fn states_wf(self) -> bool {
        model::distinct(self.states, state::workspace_key())
    }

    /// Each memory has at most one vector per model, and only active memories
    /// have vectors.
    pub open spec fn embeddings_wf(self) -> bool {
        &&& model::distinct(self.embeddings, embedding::pair_key())
        &&& model::all_rows(
            self.embeddings,
            |e: EmbeddingView| model::any_row(self.memories, memory::active_with(e.memory_id)),
        )
    }

    /// Episodes are distinct by identifier and by source, entries by identifier
    /// and by place, and each entry belongs to an episode.
    pub open spec fn episodes_wf(self) -> bool {
        &&& model::distinct(self.episodes, episode::id_key())
        &&& model::distinct(self.episodes, episode::source_key())
        &&& model::distinct(self.entries, episode::entry_id_key())
        &&& model::distinct(self.entries, episode::place_key())
        &&& model::all_rows(
            self.entries,
            |e: EntryView| model::any_row(self.episodes, episode::with_id(e.episode_id)),
        )
    }

    /// Each active memory has at most one job, and no other memory has one.
    pub open spec fn jobs_wf(self) -> bool {
        &&& model::distinct(self.jobs, index_job::id_key())
        &&& model::all_rows(self.jobs, index_job::consistent())
        &&& model::all_rows(
            self.jobs,
            |j: JobView| model::any_row(self.memories, memory::active_with(j.entity_id)),
        )
    }

    /// The constraints that hold of the tables together.
    pub open spec fn wf(self) -> bool {
        &&& self.memories_wf()
        &&& self.states_wf()
        &&& self.embeddings_wf()
        &&& self.episodes_wf()
        &&& self.jobs_wf()
    }
}

/// A store without rows.
pub open spec fn empty_store() -> StoreView {
    StoreView {
        schema_version: SCHEMA_VERSION as int,
        memories: Seq::empty(),
        states: Seq::empty(),
        embeddings: Seq::empty(),
        episodes: Seq::empty(),
        entries: Seq::empty(),
        jobs: Seq::empty(),
    }
}

/// The message of a memory whose identifier is taken.
pub open spec fn duplicate_id() -> Seq<char> {
    "UNIQUE constraint failed: memories.id"@
}

/// Holds when an identifier that is drawn can be that of a memory already.
pub open spec fn draws_taken(memories: Seq<MemoryView>) -> bool {
    exists|id: Seq<char>| #[trigger]
        clock::drawn(id) && model::any_row(memories, memory::with_id(id))
}

/// The store with one more memory and the job that it queues.
pub open spec fn inserted(
    s: StoreView,
    input: NewMemoryView,
    id: Seq<char>,
    now: int,
) -> StoreView {
    StoreView {
        memories: s.memories.push(memory::fresh_memory(input, id, now)),
        jobs: s.jobs.push(index_job::queued(id, now)),
        ..s
    }
}

/// Selects the memories whose identifier begins with a text.
pub open spec fn id_begins(prefix: Seq<char>) -> spec_fn(MemoryView) -> bool {
    |m: MemoryView| like::starts_folded(prefix, m.id)
}

/// The identifier that an identifier or a prefix of one stands for: itself if it
/// is an identifier, and otherwise the only one that begins with it.
pub open spec fn resolved(memories: Seq<MemoryView>, target: Seq<char>) -> Result<
    Seq<char>,
    Seq<char>,
> {
    let candidate = text::trimmed(target);
    let matches = memories.filter(id_begins(candidate));
    if text::blank(target) {
        Err("memory ID cannot be empty"@)
    } else if model::any_row(memories, memory::with_id(candidate)) {
        Ok(candidate)
    } else if matches.len() == 0 {
        Err("memory not found: "@ + candidate)
    } else if matches.len() == 1 {
        Ok(matches[0].id)
    } else {
        Err("ambiguous memory ID prefix: "@ + candidate)
    }
}

/// The memory that an identifier or a prefix stands for.
pub open spec fn found(memories: Seq<MemoryView>, target: Seq<char>) -> Result<
    MemoryView,
    Seq<char>,
> {
    match resolved(memories, target) {
        Ok(id) => Ok(model::first_row(memories, memory::with_id(id))->0),
        Err(message) => Err(message),
    }
}

/// What a correction stores: its own fields, and the kind of the memory it
/// corrects unless it has one.
pub open spec fn replacement_input(
    previous: MemoryView,
    input: NewCorrectionView,
) -> NewMemoryView {
    NewMemoryView {
        text: input.text,
        kind: match input.kind {
            Some(kind) => kind,
            None => previous.kind,
        },
        actor: input.actor,
        source_type: input.source_type,
        source_ref: input.source_ref,
    }
}

/// Why a correction is refused, whatever identifier the replacement gets.
pub open spec fn correction_refusal(
    s: StoreView,
    target: Seq<char>,
    input: NewCorrectionView,
) -> Option<Seq<char>> {
    match found(s.memories, target) {
        Err(message) => Some(message),
        Ok(previous) => if previous.status != "active"@ {
            Some(
                "memory "@ + previous.id + " is "@ + previous.status
                    + "; only active memory can be corrected"@,
            )
        } else {
            memory::new_memory_refusal(replacement_input(previous, input))
        },
    }
}

/// Why a correction is refused for the identifier of its replacement or for
/// another memory with the identifier of the corrected one.
pub open spec fn correction_conflict(s: StoreView, previous: Seq<char>, id: Seq<char>) -> Option<
    Seq<char>,
> {
    if model::any_row(s.memories, memory::with_id(id)) {
        Some(duplicate_id())
    } else if s.memories.filter(memory::active_with(previous)).len() != 1 {
        Some("memory changed while correction was being applied"@)
    } else {
        None
    }
}

/// The store without what is derived from a memory.
pub open spec fn underived(s: StoreView, id: Seq<char>) -> StoreView {
    StoreView {
        embeddings: s.embeddings.filter(embedding::not_of_memory(id)),
        jobs: s.jobs.filter(index_job::not_of_memory(id)),
        ..s
    }
}

/// The store after a correction: the replacement is there, and the corrected
/// memory stays, superseded by it.
pub open spec fn corrected(
    s: StoreView,
    previous: MemoryView,
    input: NewCorrectionView,
    id: Seq<char>,
    now: int,
) -> StoreView {
    let with_replacement = inserted(s, replacement_input(previous, input), id, now);
    underived(
        StoreView {
            memories: with_replacement.memories.map_values(memory::supersede(previous.id, id, now)),
            ..with_replacement
        },
        previous.id,
    )
}

/// Why a memory cannot be forgotten.
pub open spec fn forget_refusal(s: StoreView, target: Seq<char>) -> Option<Seq<char>> {
    match found(s.memories, target) {
        Err(message) => Some(message),
        Ok(m) => if m.status != "active"@ {
            Some("memory "@ + m.id + " is already "@ + m.status)
        } else {
            None
        },
    }
}

/// Why a memory is not forgotten: another has its identifier.
pub open spec fn forget_conflict(s: StoreView, id: Seq<char>) -> Option<Seq<char>> {
    if s.memories.filter(memory::active_with(id)).len() != 1 {
        Some("memory changed while it was being forgotten"@)
    } else {
        None
    }
}

/// The store after a memory was forgotten: it stays, marked as deleted.
pub open spec fn forgotten(s: StoreView, id: Seq<char>, now: int) -> StoreView {
    underived(
        StoreView { memories: s.memories.map_values(memory::delete(id, now)), ..s },
        id,
    )
}

/// Number of memories in a status.
pub open spec fn number_in(s: StoreView, status: Seq<char>) -> nat {
    s.memories.filter(memory::in_status(status)).len()
}

impl Store {
    /// A store without rows.
    pub fn new() -> (r: Store)
        ensures
            r@ == empty_store(),
            r@.wf(),
    {
        Store {
            schema_version: SCHEMA_VERSION,
            memories: Vec::new(),
            states: Vec::new(),
            embeddings: Vec::new(),
            episodes: Vec::new(),
            entries: Vec::new(),
            jobs: Vec::new(),
        }
    }

    /// Number of memories in a status.
    fn count_in(&self, status: &str) -> (r: usize)
        ensures
            r == number_in(self@, status@),
    {
        let test = |m: &Memory| -> (r: bool)
            ensures
                r == memory::in_status(status@)(m@),
            { same(m.status.as_str(), status) };
        count(&self.memories, test, Ghost(memory::in_status(status@)))
    }

    /// Counts the memories.
    pub fn stats(&self) -> (r: StoreStats)
        ensures
            r.schema_version == self@.schema_version,
            r.total == self@.memories.len(),
            r.active == number_in(self@, "active"@),
            r.superseded == number_in(self@, "superseded"@),
            r.deleted == number_in(self@, "deleted"@),
    {
        StoreStats {
            schema_version: self.schema_version,
            total: self.memories.len() as u64,
            active: self.count_in("active") as u64,
            superseded: self.count_in("superseded") as u64,
            deleted: self.count_in("deleted") as u64,
        }
    }

    /// The memory with an identifier.
    pub(crate) fn memory_by_id(&self, id: &str) -> (r: Option<Memory>)
        ensures
            model::row_of(r) == model::first_row(self@.memories, memory::with_id(id@)),
    {
        let test = |m: &Memory| -> (r: bool)
            ensures
                r == memory::with_id(id@)(m@),
            { same(m.id.as_str(), id) };
        pick(&self.memories, test, Ghost(memory::with_id(id@)))
    }

    /// Tells whether an identifier is that of a memory.
    fn has_memory(&self, id: &str) -> (r: bool)
        ensures
            r == model::any_row(self@.memories, memory::with_id(id@)),
    {
        let test = |m: &Memory| -> (r: bool)
            ensures
                r == memory::with_id(id@)(m@),
            { same(m.id.as_str(), id) };
        has(&self.memories, test, Ghost(memory::with_id(id@)))
    }

    /// The identifier that an identifier or an unambiguous prefix stands for.
    pub fn resolve_memory_id(&self, id_or_prefix: &str) -> (r: Result<String, Error>)
        ensures
            error::outcome(r) == resolved(self@.memories, id_or_prefix@),
    {
        let candidate: String = trim(id_or_prefix);
        if is_blank(id_or_prefix) {
            return Err(Error::new("memory ID cannot be empty"));
        }
        if self.has_memory(candidate.as_str()) {
            return Ok(candidate);
        }
        let test = |m: &Memory| -> (r: bool)
            ensures
                r == id_begins(candidate@)(m@),
            { matches_prefix(candidate.as_str(), m.id.as_str()) };
        let matches: Vec<Memory> = select(&self.memories, test, Ghost(id_begins(candidate@)));
        assert(model::views(matches@).len() == matches@.len());
        if matches.len() == 0 {
            Err(Error::of2("memory not found: ", candidate.as_str()))
        } else if matches.len() == 1 {
            assert(model::views(matches@)[0] == matches@[0]@);
            Ok(matches[0].id.clone())
        } else {
            Err(Error::of2("ambiguous memory ID prefix: ", candidate.as_str()))
        }
    }

    /// The memory that an identifier or an unambiguous prefix stands for.
    pub fn get(&self, id_or_prefix: &str) -> (r: Result<Memory, Error>)
        ensures
            error::outcome(r) == found(self@.memories, id_or_prefix@),
    {
        let id: String = self.resolve_memory_id(id_or_prefix)?;
        proof {
            lemma_resolved_is_there(self@.memories, id_or_prefix@);
            model::lemma_first_row(self@.memories, memory::with_id(id@));
        }
        match self.memory_by_id(id.as_str()) {
            Some(m) => Ok(m),
            None => Err(Error::of2("memory not found: ", id.as_str())),
        }
    }
}

impl Store {
    /// Stores a memory under a given identifier at a given time.
    pub fn remember_with(&mut self, input: &NewMemory, id: &str, now: i64) -> (r: Result<
        Memory,
        Error,
    >)
        ensures
            match error::either(
                memory::new_memory_refusal(input@),
                if model::any_row(old(self)@.memories, memory::with_id(id@)) {
                    Some(duplicate_id())
                } else {
                    None
                },
            ) {
                Some(message) => {
                    &&& error::outcome(r) == Err::<MemoryView, Seq<char>>(message)
                    &&& *final(self) == *old(self)
                },
                None => {
                    &&& error::outcome(r) == Ok::<MemoryView, Seq<char>>(
                        memory::fresh_memory(input@, id@, now as int),
                    )
                    &&& final(self)@ == inserted(old(self)@, input@, id@, now as int)
                },
            },
            old(self)@.wf() ==> final(self)@.wf(),
    {
        validate_new_memory(input)?;
        if self.has_memory(id) {
            return Err(Error::new("UNIQUE constraint failed: memories.id"));
        }
        let ghost before = self@;
        self.insert(input, id, now);
        proof {
            if before.wf() {
                lemma_inserted_wf(before, input@, id@, now as int);
            }
        }
        Ok(make_memory(input, id, now))
    }

    /// Adds a memory and the job that it queues.
    fn insert(&mut self, input: &NewMemory, id: &str, now: i64)
        ensures
            final(self)@ == inserted(old(self)@, input@, id@, now as int),
    {
        let ghost before = self@;
        self.memories.push(make_memory(input, id, now));
        self.jobs.push(queue(id, now));
        assert(self@.memories =~= inserted(before, input@, id@, now as int).memories);
        assert(self@.jobs =~= inserted(before, input@, id@, now as int).jobs);
    }

    /// Removes what is derived from a memory.
    pub(crate) fn drop_derived(&mut self, id: &str)
        ensures
            final(self)@ == underived(old(self)@, id@),
    {
        let other_vector = |e: &Embedding| -> (r: bool)
            ensures
                r == embedding::not_of_memory(id@)(e@),
            { embedding::is_not_of_memory(e, id) };
        let other_job = |j: &IndexJob| -> (r: bool)
            ensures
                r == index_job::not_of_memory(id@)(j@),
            { index_job::is_not_of_memory(j, id) };
        self.embeddings =
        select(&self.embeddings, other_vector, Ghost(embedding::not_of_memory(id@)));
        self.jobs = select(&self.jobs, other_job, Ghost(index_job::not_of_memory(id@)));
    }

    /// Number of active memories with an identifier.
    fn count_active(&self, id: &str) -> (r: usize)
        ensures
            r == self@.memories.filter(memory::active_with(id@)).len(),
    {
        let test = |m: &Memory| -> (r: bool)
            ensures
                r == memory::active_with(id@)(m@),
            { memory::is_active_with(m, id) };
        count(&self.memories, test, Ghost(memory::active_with(id@)))
    }

    /// The memory that a correction is for, and what is to replace it.
    fn correctable(&self, id_or_prefix: &str, input: &NewCorrection) -> (r: Result<
        (Memory, NewMemory),
        Error,
    >)
        ensures
            match correction_refusal(self@, id_or_prefix@, input@) {
                Some(message) => r matches Err(e) && e@ == message,
                None => r matches Ok(pair) && found(self@.memories, id_or_prefix@) == Ok::<
                    MemoryView,
                    Seq<char>,
                >(pair.0@) && pair.1@ == replacement_input(pair.0@, input@),
            },
    {
        let previous: Memory = self.get(id_or_prefix)?;
        if !same(previous.status.as_str(), "active") {
            return Err(
                Error::of5(
                    "memory ",
                    previous.id.as_str(),
                    " is ",
                    previous.status.as_str(),
                    "; only active memory can be corrected",
                ),
            );
        }
        let replacement: NewMemory = NewMemory {
            text: input.text.clone(),
            kind: match &input.kind {
                Some(kind) => kind.clone(),
                None => previous.kind.clone(),
            },
            actor: input.actor.clone(),
            source_type: input.source_type.clone(),
            source_ref: copy_text(&input.source_ref),
        };
        assert(replacement@ == replacement_input(previous@, input@));
        validate_new_memory(&replacement)?;
        Ok((previous, replacement))
    }

    /// Replaces an active memory by one with a given identifier at a given time.
    pub fn correct_with(
        &mut self,
        id_or_prefix: &str,
        input: &NewCorrection,
        id: &str,
        now: i64,
    ) -> (r: Result<CorrectionResult, Error>)
        ensures
            match correction_refusal(old(self)@, id_or_prefix@, input@) {
                Some(message) => {
                    &&& error::outcome(r) == Err::<memory::CorrectionView, Seq<char>>(message)
                    &&& *final(self) == *old(self)
                },
                None => {
                    let previous = found(old(self)@.memories, id_or_prefix@)->Ok_0;
                    match correction_conflict(old(self)@, previous.id, id@) {
                        Some(message) => {
                            &&& error::outcome(r) == Err::<memory::CorrectionView, Seq<char>>(
                                message,
                            )
                            &&& *final(self) == *old(self)
                        },
                        None => {
                            &&& r is Ok
                            &&& r->Ok_0.previous@ == memory::supersede(
                                previous.id,
                                id@,
                                now as int,
                            )(previous)
                            &&& r->Ok_0.replacement@ == memory::fresh_memory(
                                replacement_input(previous, input@),
                                id@,
                                now as int,
                            )
                            &&& final(self)@ == corrected(
                                old(self)@,
                                previous,
                                input@,
                                id@,
                                now as int,
                            )
                        },
                    }
                },
            },
            old(self)@.wf() ==> final(self)@.wf(),
    {
        let ghost before = self@;
        let (previous, replacement): (Memory, NewMemory) = self.correctable(id_or_prefix, input)?;
        if self.has_memory(id) {
            return Err(Error::new("UNIQUE constraint failed: memories.id"));
        }
        let target: &str = previous.id.as_str();
        if self.count_active(target) != 1 {
            return Err(Error::new("memory changed while correction was being applied"));
        }
        self.insert(&replacement, id, now);
        let ghost middle = self@;
        let change = |m: &Memory| -> (r: Memory)
            ensures
                r@ == memory::supersede(target@, id@, now as int)(m@),
            { memory::superseded(m, target, id, now) };
        self.memories =
        rewrite(&self.memories, change, Ghost(memory::supersede(target@, id@, now as int)));
        self.drop_derived(target);
        proof {
            if before.wf() {
                lemma_inserted_wf(before, replacement@, id@, now as int);
                memory::lemma_statuses();
                lemma_retired_wf(
                    middle,
                    target@,
                    memory::supersede(target@, id@, now as int),
                );
            }
        }
        Ok(
            CorrectionResult {
                previous: memory::superseded(&previous, target, id, now),
                replacement: make_memory(&replacement, id, now),
            },
        )
    }

    /// The identifier of the memory to forget.
    fn forgettable(&self, id_or_prefix: &str) -> (r: Result<String, Error>)
        ensures
            match forget_refusal(self@, id_or_prefix@) {
                Some(message) => r matches Err(e) && e@ == message,
                None => r matches Ok(id) && id@ == found(self@.memories, id_or_prefix@)->Ok_0.id,
            },
    {
        let target: Memory = self.get(id_or_prefix)?;
        if !same(target.status.as_str(), "active") {
            return Err(
                Error::of4("memory ", target.id.as_str(), " is already ", target.status.as_str()),
            );
        }
        Ok(target.id)
    }

    /// Marks an active memory as deleted at a given time.
    pub fn forget_with(&mut self, id_or_prefix: &str, now: i64) -> (r: Result<String, Error>)
        ensures
            match forget_refusal(old(self)@, id_or_prefix@) {
                Some(message) => {
                    &&& error::outcome(r) == Err::<Seq<char>, Seq<char>>(message)
                    &&& *final(self) == *old(self)
                },
                None => {
                    let id = found(old(self)@.memories, id_or_prefix@)->Ok_0.id;
                    match forget_conflict(old(self)@, id) {
                        Some(message) => {
                            &&& error::outcome(r) == Err::<Seq<char>, Seq<char>>(message)
                            &&& *final(self) == *old(self)
                        },
                        None => {
                            &&& error::outcome(r) == Ok::<Seq<char>, Seq<char>>(id)
                            &&& final(self)@ == forgotten(old(self)@, id, now as int)
                        },
                    }
                },
            },
            old(self)@.wf() ==> final(self)@.wf(),
    {
        let ghost before = self@;
        let target: String = self.forgettable(id_or_prefix)?;
        let id: &str = target.as_str();
        if self.count_active(id) != 1 {
            return Err(Error::new("memory changed while it was being forgotten"));
        }
        let change = |m: &Memory| -> (r: Memory)
            ensures
                r@ == memory::delete(id@, now as int)(m@),
            { memory::deleted(m, id, now) };
        self.memories = rewrite(&self.memories, change, Ghost(memory::delete(id@, now as int)));
        self.drop_derived(id);
        proof {
            if before.wf() {
                memory::lemma_statuses();
                lemma_retired_wf(before, id@, memory::delete(id@, now as int));
            }
        }
        Ok(target.clone())
    }
}

impl Store {
    /// Stores a memory under a fresh identifier at the current time.
    pub fn remember(&mut self, input: NewMemory) -> (r: Result<Memory, Error>)
        ensures
            match memory::new_memory_refusal(input@) {
                Some(message) => {
                    &&& error::outcome(r) == Err::<MemoryView, Seq<char>>(message)
                    &&& *final(self) == *old(self)
                },
                None => match r {
                    Ok(m) => {
                        &&& clock::drawn(m@.id)
                        &&& clock::hyphenated(m@.id)
                        &&& clock::clock_time(m@.created_at)
                        &&& !model::any_row(old(self)@.memories, memory::with_id(m@.id))
                        &&& m@ == memory::fresh_memory(input@, m@.id, m@.created_at)
                        &&& final(self)@ == inserted(old(self)@, input@, m@.id, m@.created_at)
                    },
                    Err(e) => {
                        &&& clock::clock_refusal(e@) || e@ == duplicate_id()
                            && draws_taken(old(self)@.memories)
                        &&& *final(self) == *old(self)
                    },
                },
            },
            old(self)@.wf() ==> final(self)@.wf(),
    {
        validate_new_memory(&input)?;
        let now: i64 = unix_millis()?;
        let id: String = draw_id();
        self.remember_with(&input, id.as_str(), now)
    }

    /// Replaces an active memory, keeping it as superseded. The replacement gets
    /// a fresh identifier and the current time.
    pub fn correct(&mut self, id_or_prefix: &str, input: NewCorrection) -> (r: Result<
        CorrectionResult,
        Error,
    >)
        ensures
            match correction_refusal(old(self)@, id_or_prefix@, input@) {
                Some(message) => {
                    &&& error::outcome(r) == Err::<memory::CorrectionView, Seq<char>>(message)
                    &&& *final(self) == *old(self)
                },
                None => {
                    let previous = found(old(self)@.memories, id_or_prefix@)->Ok_0;
                    match r {
                        Ok(c) => {
                            let id = c.replacement@.id;
                            let now = c.replacement@.created_at;
                            &&& clock::drawn(id)
                            &&& clock::hyphenated(id)
                            &&& clock::clock_time(now)
                            &&& correction_conflict(old(self)@, previous.id, id) is None
                            &&& c.previous@ == memory::supersede(previous.id, id, now)(previous)
                            &&& c.replacement@ == memory::fresh_memory(
                                replacement_input(previous, input@),
                                id,
                                now,
                            )
                            &&& final(self)@ == corrected(
                                old(self)@,
                                previous,
                                input@,
                                id,
                                now,
                            )
                        },
                        Err(e) => {
                            &&& clock::clock_refusal(e@) || exists|id: Seq<char>|
                                clock::drawn(id) && #[trigger] correction_conflict(
                                    old(self)@,
                                    previous.id,
                                    id,
                                ) == Some(e@)
                            &&& *final(self) == *old(self)
                        },
                    }
                },
            },
            old(self)@.wf() ==> final(self)@.wf(),
    {
        self.correctable(id_or_prefix, &input)?;
        let now: i64 = unix_millis()?;
        let id: String = draw_id();
        self.correct_with(id_or_prefix, &input, id.as_str(), now)
    }

    /// Marks an active memory as deleted, at the current time.
    pub fn forget(&mut self, id_or_prefix: &str) -> (r: Result<String, Error>)
        ensures
            match forget_refusal(old(self)@, id_or_prefix@) {
                Some(message) => {
                    &&& error::outcome(r) == Err::<Seq<char>, Seq<char>>(message)
                    &&& *final(self) == *old(self)
                },
                None => {
                    let id = found(old(self)@.memories, id_or_prefix@)->Ok_0.id;
                    match r {
                        Ok(given) => {
                            &&& given@ == id
                            &&& exists|now: int|
                                clock::clock_time(now) && final(self)@ == #[trigger] forgotten(
                                    old(self)@,
                                    id,
                                    now,
                                )
                        },
                        Err(e) => {
                            &&& clock::clock_refusal(e@) || forget_conflict(old(self)@, id)
                                == Some(e@)
                            &&& *final(self) == *old(self)
                        },
                    }
                },
            },
            old(self)@.wf() ==> final(self)@.wf(),
    {
        self.forgettable(id_or_prefix)?;
        let now: i64 = unix_millis()?;
        self.forget_with(id_or_prefix, now)
    }
}

/// Why the text of a memory cannot be changed.
pub open spec fn refresh_refusal(s: StoreView, id: Seq<char>, new_text: Seq<char>) -> Option<
    Seq<char>,
> {
    if text::blank(new_text) {
        Some("memory text cannot be empty"@)
    } else if model::any_row(s.jobs, index_job::spent(id)) {
        Some("index job generation overflow"@)
    } else {
        None
    }
}

/// The store after the text of a memory changed: vectors of the earlier text are
/// dropped, and the memory is queued for a new one.
pub open spec fn refreshed(
    s: StoreView,
    id: Seq<char>,
    new_text: Seq<char>,
    updated_at: int,
) -> StoreView {
    if model::any_row(s.memories, memory::active_with(id)) {
        StoreView {
            memories: s.memories.map_values(memory::refresh(id, new_text, updated_at)),
            embeddings: s.embeddings.filter(embedding::not_of_memory(id)),
            jobs: index_job::requeued(s.jobs, id, updated_at),
            ..s
        }
    } else {
        s
    }
}

impl Store {
    /// Changes the text of an active memory and tells whether there is one with
    /// the identifier.
    pub fn refresh_memory(&mut self, id: &str, new_text: &str, updated_at: i64) -> (r: Result<
        bool,
        Error,
    >)
        ensures
            match refresh_refusal(old(self)@, id@, new_text@) {
                Some(message) => (r matches Err(e) && e@ == message) && *final(self) == *old(self),
                None => {
                    &&& r matches Ok(changed) && changed == model::any_row(
                        old(self)@.memories,
                        memory::active_with(id@),
                    )
                    &&& final(self)@ == refreshed(old(self)@, id@, new_text@, updated_at as int)
                },
            },
            old(self)@.wf() ==> final(self)@.wf(),
    {
        let ghost before = self@;
        if is_blank(new_text) {
            return Err(Error::new("memory text cannot be empty"));
        }
        let spent = |j: &IndexJob| -> (r: bool)
            ensures
                r == index_job::spent(id@)(j@),
            { !index_job::is_not_of_memory(j, id) && j.generation == 0x7fff_ffff_ffff_ffff };
        if has(&self.jobs, spent, Ghost(index_job::spent(id@))) {
            return Err(Error::new("index job generation overflow"));
        }
        proof {
            model::lemma_first_row(before.memories, memory::active_with(id@));
        }
        if self.count_active(id) == 0 {
            return Ok(false);
        }
        let change = |m: &Memory| -> (r: Memory)
            ensures
                r@ == memory::refresh(id@, new_text@, updated_at as int)(m@),
            { memory::refreshed(m, id, new_text, updated_at) };
        self.memories =
        rewrite(&self.memories, change, Ghost(memory::refresh(id@, new_text@, updated_at as int)));
        let other_vector = |e: &Embedding| -> (r: bool)
            ensures
                r == embedding::not_of_memory(id@)(e@),
            { embedding::is_not_of_memory(e, id) };
        self.embeddings =
        select(&self.embeddings, other_vector, Ghost(embedding::not_of_memory(id@)));
        self.requeue_job(id, updated_at);
        proof {
            if before.wf() {
                lemma_refreshed_wf(before, id@, new_text@, updated_at as int);
            }
        }
        Ok(true)
    }
}

/// Changing the text of a memory keeps the constraints.
proof fn lemma_refreshed_wf(s: StoreView, id: Seq<char>, new_text: Seq<char>, updated_at: int)
    requires
        s.wf(),
        model::any_row(s.memories, memory::active_with(id)),
    ensures
        refreshed(s, id, new_text, updated_at).wf(),
{
    let t = refreshed(s, id, new_text, updated_at);
    let g = memory::refresh(id, new_text, updated_at);
    model::lemma_distinct_map(s.memories, g, memory::id_key());
    assert forall|k: int| 0 <= k < t.memories.len() implies memory::consistent()(
        #[trigger] t.memories[k],
    ) by {
        assert(t.memories[k] == g(s.memories[k]));
        assert(memory::consistent()(s.memories[k]));
    }
    assert forall|other: Seq<char>|
        model::any_row(
            s.memories,
            #[trigger] memory::active_with(other),
        ) implies model::any_row(t.memories, memory::active_with(other)) by {
        let i = choose|i: int|
            0 <= i < s.memories.len() && memory::active_with(other)(#[trigger] s.memories[i]);
        assert(t.memories[i] == g(s.memories[i]));
    }
    let pe = embedding::not_of_memory(id);
    model::lemma_distinct_filter(s.embeddings, pe, embedding::pair_key());
    model::lemma_filter_contains(s.embeddings, pe);
    assert forall|i: int| 0 <= i < t.embeddings.len() implies model::any_row(
        t.memories,
        memory::active_with((#[trigger] t.embeddings[i]).memory_id),
    ) by {
        assert(pe(t.embeddings[i]));
        let k = choose|k: int| 0 <= k < s.embeddings.len() && s.embeddings[k] == t.embeddings[i];
        assert(model::any_row(s.memories, memory::active_with(s.embeddings[k].memory_id)));
    }
    let h = index_job::requeue(id, updated_at);
    let q = index_job::queued(id, updated_at);
    if model::any_row(s.jobs, index_job::of_memory(id)) {
        model::lemma_distinct_map(s.jobs, h, index_job::id_key());
        assert forall|i: int| 0 <= i < t.jobs.len() implies {
            &&& index_job::consistent()(#[trigger] t.jobs[i])
            &&& model::any_row(t.memories, memory::active_with(t.jobs[i].entity_id))
        } by {
            assert(t.jobs[i] == h(s.jobs[i]));
            assert(index_job::consistent()(s.jobs[i]));
            assert(model::any_row(s.memories, memory::active_with(s.jobs[i].entity_id)));
        }
    } else {
        assert forall|i: int| 0 <= i < s.jobs.len() implies index_job::id_key()(
            #[trigger] s.jobs[i],
        ) != index_job::id_key()(q) by {
            assert(index_job::consistent()(s.jobs[i]));
            assert(!index_job::of_memory(id)(s.jobs[i]));
        }
        model::lemma_distinct_push(s.jobs, q, index_job::id_key());
        assert forall|i: int| 0 <= i < t.jobs.len() implies {
            &&& index_job::consistent()(#[trigger] t.jobs[i])
            &&& model::any_row(t.memories, memory::active_with(t.jobs[i].entity_id))
        } by {
            if i < s.jobs.len() {
                assert(t.jobs[i] == s.jobs[i]);
                assert(index_job::consistent()(s.jobs[i]));
                assert(model::any_row(s.memories, memory::active_with(s.jobs[i].entity_id)));
            }
        }
    }
}

/// Adding a memory with a new identifier keeps the constraints.
pub proof fn lemma_inserted_wf(s: StoreView, input: NewMemoryView, id: Seq<char>, now: int)
    requires
        s.wf(),
        !model::any_row(s.memories, memory::with_id(id)),
    ensures
        inserted(s, input, id, now).wf(),
{
    let t = inserted(s, input, id, now);
    let m = memory::fresh_memory(input, id, now);
    let j = index_job::queued(id, now);
    assert forall|i: int| 0 <= i < s.memories.len() implies memory::id_key()(
        #[trigger] s.memories[i],
    ) != memory::id_key()(m) by {
        assert(!memory::with_id(id)(s.memories[i]));
    }
    model::lemma_distinct_push(s.memories, m, memory::id_key());
    assert forall|k: int| 0 <= k < t.memories.len() implies memory::consistent()(
        #[trigger] t.memories[k],
    ) by {
        if k < s.memories.len() {
            assert(t.memories[k] == s.memories[k]);
        }
    }
    assert forall|p: spec_fn(MemoryView) -> bool| #[trigger]
        model::any_row(s.memories, p) implies model::any_row(t.memories, p) by {
        let i = choose|i: int| 0 <= i < s.memories.len() && p(#[trigger] s.memories[i]);
        assert(t.memories[i] == s.memories[i]);
    }
    assert forall|i: int| 0 <= i < s.jobs.len() implies index_job::id_key()(#[trigger] s.jobs[i])
        != index_job::id_key()(j) by {
        assert(index_job::consistent()(s.jobs[i]));
        if s.jobs[i].id == id {
            assert(model::any_row(s.memories, memory::active_with(s.jobs[i].entity_id)));
            let k = choose|k: int|
                0 <= k < s.memories.len() && memory::active_with(s.jobs[i].entity_id)(
                    #[trigger] s.memories[k],
                );
            assert(memory::with_id(id)(s.memories[k]));
        }
    }
    model::lemma_distinct_push(s.jobs, j, index_job::id_key());
    assert forall|i: int| 0 <= i < t.jobs.len() implies {
        &&& index_job::consistent()(#[trigger] t.jobs[i])
        &&& model::any_row(t.memories, memory::active_with(t.jobs[i].entity_id))
    } by {
        if i < s.jobs.len() {
            assert(t.jobs[i] == s.jobs[i]);
            assert(model::any_row(s.memories, memory::active_with(s.jobs[i].entity_id)));
        } else {
            assert(memory::active_with(id)(t.memories[s.memories.len() as int]));
        }
    }
    assert forall|i: int| 0 <= i < t.embeddings.len() implies model::any_row(
        t.memories,
        memory::active_with((#[trigger] t.embeddings[i]).memory_id),
    ) by {
        assert(model::any_row(s.memories, memory::active_with(s.embeddings[i].memory_id)));
    }
}

/// Taking a memory out of the active ones together with what is derived from it
/// keeps the constraints.
pub proof fn lemma_retired_wf(s: StoreView, id: Seq<char>, g: spec_fn(MemoryView) -> MemoryView)
    requires
        s.wf(),
        forall|m: MemoryView| (#[trigger] g(m)).id == m.id,
        forall|m: MemoryView| !memory::active_with(id)(m) ==> #[trigger] g(m) == m,
        forall|m: MemoryView|
            memory::consistent()(m) ==> memory::consistent()(#[trigger] g(m)),
    ensures
        underived(StoreView { memories: s.memories.map_values(g), ..s }, id).wf(),
{
    let t = underived(StoreView { memories: s.memories.map_values(g), ..s }, id);
    model::lemma_distinct_map(s.memories, g, memory::id_key());
    assert forall|k: int| 0 <= k < t.memories.len() implies memory::consistent()(
        #[trigger] t.memories[k],
    ) by {
        assert(t.memories[k] == g(s.memories[k]));
        assert(memory::consistent()(s.memories[k]));
    }
    assert forall|other: Seq<char>|
        other != id && model::any_row(
            s.memories,
            #[trigger] memory::active_with(other),
        ) implies model::any_row(t.memories, memory::active_with(other)) by {
        let i = choose|i: int|
            0 <= i < s.memories.len() && memory::active_with(other)(#[trigger] s.memories[i]);
        assert(t.memories[i] == g(s.memories[i]));
        assert(!memory::active_with(id)(s.memories[i]));
    }
    let pe = embedding::not_of_memory(id);
    model::lemma_distinct_filter(s.embeddings, pe, embedding::pair_key());
    model::lemma_filter_contains(s.embeddings, pe);
    assert forall|i: int| 0 <= i < t.embeddings.len() implies model::any_row(
        t.memories,
        memory::active_with((#[trigger] t.embeddings[i]).memory_id),
    ) by {
        assert(pe(t.embeddings[i]));
        let k = choose|k: int| 0 <= k < s.embeddings.len() && s.embeddings[k] == t.embeddings[i];
        assert(model::any_row(s.memories, memory::active_with(s.embeddings[k].memory_id)));
    }
    let pj = index_job::not_of_memory(id);
    model::lemma_distinct_filter(s.jobs, pj, index_job::id_key());
    model::lemma_filter_contains(s.jobs, pj);
    assert forall|i: int| 0 <= i < t.jobs.len() implies {
        &&& index_job::consistent()(#[trigger] t.jobs[i])
        &&& model::any_row(t.memories, memory::active_with(t.jobs[i].entity_id))
    } by {
        assert(pj(t.jobs[i]));
        let k = choose|k: int| 0 <= k < s.jobs.len() && s.jobs[k] == t.jobs[i];
        assert(index_job::consistent()(s.jobs[k]));
        assert(model::any_row(s.memories, memory::active_with(s.jobs[k].entity_id)));
    }
}

/// What an identifier or a prefix stands for is the identifier of a memory.
pub proof fn lemma_resolved_is_there(memories: Seq<MemoryView>, target: Seq<char>)
    ensures
        resolved(memories, target) matches Ok(id) ==> model::any_row(memories, memory::with_id(id)),
{
    let candidate = text::trimmed(target);
    let p = id_begins(candidate);
    let matches = memories.filter(p);
    model::lemma_filter_contains(memories, p);
    if matches.len() == 1 {
        assert(memories.contains(matches[0]));
        let i = choose|i: int| 0 <= i < memories.len() && memories[i] == matches[0];
        assert(memory::with_id(matches[0].id)(memories[i]));
    }
}

/// An identifier of a memory resolves to itself, even where other identifiers
/// begin with it, and reads that memory.
pub proof fn law_exact_identifier_resolves(memories: Seq<MemoryView>, id: Seq<char>)
    requires
        text::trimmed(id) == id,
        !text::blank(id),
        model::any_row(memories, memory::with_id(id)),
    ensures
        resolved(memories, id) == Ok::<Seq<char>, Seq<char>>(id),
        found(memories, id) matches Ok(m) && m.id == id && memories.contains(m),
{
    model::lemma_first_row(memories, memory::with_id(id));
}

/// A stored memory is read back under its identifier exactly as it was stored,
/// and every other memory reads as before.
pub proof fn law_remembered_memory_is_read_back(
    s: StoreView,
    input: NewMemoryView,
    id: Seq<char>,
    now: int,
    other: Seq<char>,
)
    requires
        clock::hyphenated(id),
        !model::any_row(s.memories, memory::with_id(id)),
        other != id,
    ensures
        found(inserted(s, input, id, now).memories, id) == Ok::<MemoryView, Seq<char>>(
            memory::fresh_memory(input, id, now),
        ),
        model::first_row(inserted(s, input, id, now).memories, memory::with_id(other))
            == model::first_row(s.memories, memory::with_id(other)),
{
    let m = memory::fresh_memory(input, id, now);
    let t = inserted(s, input, id, now);
    clock::lemma_hyphenated_is_trimmed(id);
    model::lemma_first_row(s.memories, memory::with_id(id));
    model::lemma_filter_push(s.memories, m, memory::with_id(id));
    model::lemma_filter_push(s.memories, m, memory::with_id(other));
    assert(memory::with_id(id)(t.memories[s.memories.len() as int]));
}

/// A correction preserves history: the corrected memory stays with its text,
/// kind and provenance, marked as superseded by the replacement; the
/// replacement reads as it was given; and every other memory reads as before.
pub proof fn law_correction_preserves_history(
    s: StoreView,
    target: Seq<char>,
    input: NewCorrectionView,
    id: Seq<char>,
    now: int,
    other: Seq<char>,
)
    requires
        correction_refusal(s, target, input) is None,
        correction_conflict(s, (found(s.memories, target)->Ok_0).id, id) is None,
        other != id,
        other != (found(s.memories, target)->Ok_0).id,
    ensures
        ({
            let previous = found(s.memories, target)->Ok_0;
            let t = corrected(s, previous, input, id, now);
            &&& model::first_row(t.memories, memory::with_id(previous.id)) == Some(
                MemoryView {
                    status: "superseded"@,
                    superseded_by: Some(id),
                    updated_at: now,
                    ..previous
                },
            )
            &&& model::first_row(t.memories, memory::with_id(id)) == Some(
                memory::fresh_memory(replacement_input(previous, input), id, now),
            )
            &&& model::first_row(t.memories, memory::with_id(other)) == model::first_row(
                s.memories,
                memory::with_id(other),
            )
        }),
{
    let previous = found(s.memories, target)->Ok_0;
    let m = memory::fresh_memory(replacement_input(previous, input), id, now);
    let g = memory::supersede(previous.id, id, now);
    let pushed = s.memories.push(m);
    lemma_resolved_is_there(s.memories, target);
    let found_id = resolved(s.memories, target)->Ok_0;
    model::lemma_first_row(s.memories, memory::with_id(found_id));
    assert(previous.id == found_id);
    assert(model::any_row(s.memories, memory::with_id(previous.id)));
    assert(previous.id != id);
    model::lemma_first_row(s.memories, memory::with_id(id));
    model::lemma_filter_push(s.memories, m, memory::with_id(id));
    model::lemma_filter_push(s.memories, m, memory::with_id(previous.id));
    model::lemma_filter_push(s.memories, m, memory::with_id(other));
    model::lemma_filter_map(pushed, g, memory::with_id(id));
    model::lemma_filter_map(pushed, g, memory::with_id(previous.id));
    model::lemma_filter_map(pushed, g, memory::with_id(other));
    let others = s.memories.filter(memory::with_id(other));
    model::lemma_filter_contains(s.memories, memory::with_id(other));
    if others.len() > 0 {
        assert(memory::with_id(other)(others[0]));
    }
}

/// A forgotten memory is not lost: it stays with its text and provenance, marked
/// as deleted, and every other memory reads as before. Under whatever identifier
/// or prefix it was found, it cannot be forgotten or corrected again.
pub proof fn law_forgotten_memory_is_kept(
    s: StoreView,
    target: Seq<char>,
    now: int,
    other: Seq<char>,
    again: Seq<char>,
    input: NewCorrectionView,
)
    requires
        forget_refusal(s, target) is None,
        found(s.memories, again) == found(s.memories, target),
        other != (found(s.memories, target)->Ok_0).id,
    ensures
        ({
            let m = found(s.memories, target)->Ok_0;
            let t = forgotten(s, m.id, now);
            &&& model::first_row(t.memories, memory::with_id(m.id)) == Some(
                MemoryView {
                    status: "deleted"@,
                    deleted_at: Some(now),
                    updated_at: now,
                    ..m
                },
            )
            &&& model::first_row(t.memories, memory::with_id(other)) == model::first_row(
                s.memories,
                memory::with_id(other),
            )
            &&& forget_refusal(t, again) == Some("memory "@ + m.id + " is already "@ + "deleted"@)
            &&& correction_refusal(t, again, input) == Some(
                "memory "@ + m.id + " is "@ + "deleted"@
                    + "; only active memory can be corrected"@,
            )
        }),
{
    let m = found(s.memories, target)->Ok_0;
    let t = forgotten(s, m.id, now);
    let g = memory::delete(m.id, now);
    memory::lemma_statuses();
    lemma_resolved_is_there(s.memories, target);
    model::lemma_first_row(s.memories, memory::with_id(resolved(s.memories, target)->Ok_0));
    model::lemma_filter_map(s.memories, g, memory::with_id(m.id));
    model::lemma_filter_map(s.memories, g, memory::with_id(other));
    model::lemma_first_row(t.memories, memory::with_id(m.id));
    lemma_resolved_is_there(s.memories, again);
    model::lemma_first_row(s.memories, memory::with_id(resolved(s.memories, again)->Ok_0));
    lemma_resolution_is_kept(s.memories, g, again);
    let others = s.memories.filter(memory::with_id(other));
    model::lemma_filter_contains(s.memories, memory::with_id(other));
    if others.len() > 0 {
        assert(memory::with_id(other)(others[0]));
    }
}

/// Changing memories without their identifiers changes no resolution.
proof fn lemma_resolution_is_kept(
    memories: Seq<MemoryView>,
    g: spec_fn(MemoryView) -> MemoryView,
    target: Seq<char>,
)
    requires
        forall|m: MemoryView| (#[trigger] g(m)).id == m.id,
    ensures
        resolved(memories.map_values(g), target) == resolved(memories, target),
{
    let candidate = text::trimmed(target);
    let t = memories.map_values(g);
    let p = id_begins(candidate);
    model::lemma_filter_map(memories, g, p);
    let q = memory::with_id(candidate);
    if model::any_row(memories, q) {
        let i = choose|i: int| 0 <= i < memories.len() && q(#[trigger] memories[i]);
        assert(q(t[i]));
    }
    if model::any_row(t, q) {
        let i = choose|i: int| 0 <= i < t.len() && q(#[trigger] t[i]);
        assert(q(memories[i]));
    }
}

/// A corrected memory is not found as an active one again, unless by the very identifier
/// of its replacement.
proof fn lemma_corrected_memory_stays_corrected(
    s: StoreView,
    target: Seq<char>,
    input: NewCorrectionView,
    id: Seq<char>,
    now: int,
    again: Seq<char>,
    next: NewCorrectionView,
)
    requires
        correction_refusal(s, target, input) is None,
        correction_conflict(s, (found(s.memories, target)->Ok_0).id, id) is None,
        found(s.memories, again) == found(s.memories, target),
        text::trimmed(again) != id,
    ensures
        ({
            let previous = found(s.memories, target)->Ok_0;
            let t = corrected(s, previous, input, id, now);
            &&& correction_refusal(t, again, next) is Some
            &&& text::trimmed(again) == previous.id ==> correction_refusal(t, again, next) == Some(
                "memory "@ + previous.id + " is "@ + "superseded"@
                    + "; only active memory can be corrected"@,
            )
        }),
{
    let previous = found(s.memories, target)->Ok_0;
    let t = corrected(s, previous, input, id, now);
    let m = memory::fresh_memory(replacement_input(previous, input), id, now);
    let g = memory::supersede(previous.id, id, now);
    let pushed = s.memories.push(m);
    let candidate = text::trimmed(again);
    memory::lemma_statuses();
    lemma_resolved_is_there(s.memories, target);
    lemma_resolved_is_there(s.memories, again);
    model::lemma_first_row(s.memories, memory::with_id(resolved(s.memories, target)->Ok_0));
    model::lemma_first_row(s.memories, memory::with_id(resolved(s.memories, again)->Ok_0));
    assert(resolved(s.memories, again) == Ok::<Seq<char>, Seq<char>>(previous.id));
    assert(model::any_row(s.memories, memory::with_id(previous.id)));
    assert(previous.id != id);
    let p = id_begins(candidate);
    let q = memory::with_id(candidate);
    model::lemma_filter_push(s.memories, m, p);
    model::lemma_filter_push(s.memories, m, memory::with_id(previous.id));
    model::lemma_filter_map(pushed, g, memory::with_id(previous.id));
    lemma_resolution_is_kept(pushed, g, again);
    assert(model::any_row(pushed, q) == model::any_row(s.memories, q)) by {
        if model::any_row(s.memories, q) {
            let i = choose|i: int| 0 <= i < s.memories.len() && q(#[trigger] s.memories[i]);
            assert(q(pushed[i]));
        }
        if model::any_row(pushed, q) {
            let i = choose|i: int| 0 <= i < pushed.len() && q(#[trigger] pushed[i]);
            assert(i < s.memories.len());
            assert(q(s.memories[i]));
        }
    }
}

/// A memory cannot be corrected twice: under its identifier, or under whatever text it
/// was found by, correcting it again is refused. Only the very identifier of the
/// replacement stands for the replacement instead.
pub proof fn law_second_correction_is_refused(
    s: StoreView,
    target: Seq<char>,
    input: NewCorrectionView,
    id: Seq<char>,
    now: int,
    again: Seq<char>,
    next: NewCorrectionView,
)
    requires
        correction_refusal(s, target, input) is None,
        correction_conflict(s, (found(s.memories, target)->Ok_0).id, id) is None,
    ensures
        ({
            let previous = found(s.memories, target)->Ok_0;
            let t = corrected(s, previous, input, id, now);
            &&& text::trimmed(previous.id) == previous.id && !text::blank(previous.id)
                ==> correction_refusal(t, previous.id, next) == Some(
                "memory "@ + previous.id + " is "@ + "superseded"@
                    + "; only active memory can be corrected"@,
            )
            &&& found(s.memories, again) == found(s.memories, target) && text::trimmed(again) != id
                ==> correction_refusal(t, again, next) is Some
        }),
{
    let previous = found(s.memories, target)->Ok_0;
    lemma_resolved_is_there(s.memories, target);
    model::lemma_first_row(s.memories, memory::with_id(resolved(s.memories, target)->Ok_0));
    assert(model::any_row(s.memories, memory::with_id(previous.id)));
    if text::trimmed(previous.id) == previous.id && !text::blank(previous.id) {
        law_exact_identifier_resolves(s.memories, previous.id);
        lemma_corrected_memory_stays_corrected(s, target, input, id, now, previous.id, next);
    }
    if found(s.memories, again) == found(s.memories, target) && text::trimmed(again) != id {
        lemma_corrected_memory_stays_corrected(s, target, input, id, now, again, next);
    }
}

/// Where the constraints hold, the only conflict of a correction is a taken
/// identifier, and forgetting has none.
pub proof fn law_no_conflict_between_distinct_memories(
    s: StoreView,
    target: Seq<char>,
    id: Seq<char>,
)
    requires
        s.wf(),
        found(s.memories, target) matches Ok(m) && m.status == "active"@,
    ensures
        forget_conflict(s, (found(s.memories, target)->Ok_0).id) is None,
        !model::any_row(s.memories, memory::with_id(id)) ==> correction_conflict(
            s,
            (found(s.memories, target)->Ok_0).id,
            id,
        ) is None,
{
    let m = found(s.memories, target)->Ok_0;
    lemma_resolved_is_there(s.memories, target);
    model::lemma_first_row(s.memories, memory::with_id(resolved(s.memories, target)->Ok_0));
    let p = memory::active_with(m.id);
    let i = choose|i: int| 0 <= i < s.memories.len() && s.memories[i] == m;
    assert(p(s.memories[i]));
    model::lemma_first_row(s.memories, p);
    model::lemma_distinct_filter_len(s.memories, p, memory::id_key());
}

/// Every memory is counted in exactly one status.
pub proof fn law_statuses_partition_memories(s: StoreView)
    requires
        s.wf(),
    ensures
        s.memories.len() == number_in(s, "active"@) + number_in(s, "superseded"@) + number_in(
            s,
            "deleted"@,
        ),
{
    lemma_partition(s.memories);
}

proof fn lemma_partition(memories: Seq<MemoryView>)
    requires
        model::all_rows(memories, memory::consistent()),
    ensures
        memories.len() == memories.filter(memory::in_status("active"@)).len() + memories.filter(
            memory::in_status("superseded"@),
        ).len() + memories.filter(memory::in_status("deleted"@)).len(),
    decreases memories.len(),
{
    reveal(Seq::filter);
    memory::lemma_statuses();
    if memories.len() > 0 {
        let front = memories.drop_last();
        assert forall|i: int| 0 <= i < front.len() implies memory::consistent()(
            #[trigger] front[i],
        ) by {
            assert(front[i] == memories[i]);
        }
        lemma_partition(front);
        assert(memory::consistent()(memories.last()));
    }
}

} // verus!
