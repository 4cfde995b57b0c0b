//! Splitting a legacy database, which holds the rows of all projects, into one
//! store per project and one for rows without a project.

use crate::error;
use crate::error::Error;
use crate::layout;
use crate::layout::{ManagedLayout, ProjectDb};
use crate::legacy::{
    EntryRow, EntryRowView, EpisodeRow, EpisodeRowView, LegacySnapshot, MemoryRow, MemoryRowView,
    RelationRow, RelationRowView, SnapshotView, SourceRow, SourceRowView, StateRow, StateRowView,
    VectorRow, VectorRowView,
};
use crate::model;
use crate::model::{has, pick, pick_last, select};
use crate::order;
use crate::order::is_text_le;
use crate::staging;
use crate::staging::{check_staging, StagedCounts};
use crate::text;
use crate::text::{is_blank, same};
use vstd::prelude::*;
use vstd::string::*;

verus! {

/// Key of the share that holds the rows without a project.
pub const GLOBAL: &'static str = "\0global";

/// The rows of a snapshot that go to one store: that of a project or, without one,
/// the user store.
#[derive(Debug)]
pub struct Share {
    pub project_id: Option<String>,
    pub memories: Vec<MemoryRow>,
    pub sources: Vec<SourceRow>,
    pub relations: Vec<RelationRow>,
    pub episodes: Vec<EpisodeRow>,
    pub entries: Vec<EntryRow>,
    pub states: Vec<StateRow>,
    pub vectors: Vec<VectorRow>,
}

/// Model of a share.
#[verifier::ext_equal]
pub struct ShareView {
    pub project_id: Option<Seq<char>>,
    pub memories: Seq<MemoryRowView>,
    pub sources: Seq<SourceRowView>,
    pub relations: Seq<RelationRowView>,
    pub episodes: Seq<EpisodeRowView>,
    pub entries: Seq<EntryRowView>,
    pub states: Seq<StateRowView>,
    pub vectors: Seq<VectorRowView>,
}

impl View for Share {
    type V = ShareView;

    open spec fn view(&self) -> ShareView {
        ShareView {
            project_id: model::text_of(self.project_id),
            memories: model::views(self.memories@),
            sources: model::views(self.sources@),
            relations: model::views(self.relations@),
            episodes: model::views(self.episodes@),
            entries: model::views(self.entries@),
            states: model::views(self.states@),
            vectors: model::views(self.vectors@),
        }
    }
}

/// The shares of a snapshot, in the order of their keys.
#[derive(Debug)]
pub struct CopyPlan {
    pub shares: Vec<Share>,
    pub total_states: usize,
}

/// Model of a plan.
#[verifier::ext_equal]
pub struct PlanView {
    pub shares: Seq<ShareView>,
    pub total_states: int,
}

impl View for CopyPlan {
    type V = PlanView;

    open spec fn view(&self) -> PlanView {
        PlanView { shares: model::views(self.shares@), total_states: self.total_states as int }
    }
}

/// The key of the share that the rows of a project go to.
pub open spec fn share_key(project: Option<Seq<char>>) -> Seq<char> {
    match project {
        Some(project) => project,
        None => GLOBAL@,
    }
}

/// The project of the share with a key.
pub open spec fn share_project(key: Seq<char>) -> Option<Seq<char>> {
    if key == GLOBAL@ {
        None
    } else {
        Some(key)
    }
}

/// Keys that no share can have.
pub open spec fn bad_key(key: Seq<char>) -> bool {
    key != GLOBAL@ && text::blank(key)
}

/// Selects the memory with an identifier.
pub open spec fn memory_with(id: Seq<char>) -> spec_fn(MemoryRowView) -> bool {
    |m: MemoryRowView| m.id == id
}

/// Selects the episode with an identifier.
pub open spec fn episode_with(id: Seq<char>) -> spec_fn(EpisodeRowView) -> bool {
    |e: EpisodeRowView| e.id == id
}

/// The key of the share of a memory, if there is such a memory.
pub open spec fn memory_owner(s: SnapshotView, id: Seq<char>) -> Option<Option<Seq<char>>> {
    match model::last_row(s.memories, memory_with(id)) {
        Some(m) => Some(m.project_id),
        None => None,
    }
}

/// The key of the share of an episode, if there is such an episode.
pub open spec fn episode_owner(s: SnapshotView, id: Seq<char>) -> Option<Option<Seq<char>>> {
    match model::last_row(s.episodes, episode_with(id)) {
        Some(e) => Some(e.project_id),
        None => None,
    }
}

/// Holds when the owner is known and has a key.
pub open spec fn owned(owner: Option<Option<Seq<char>>>, key: Seq<char>) -> bool {
    owner matches Some(project) && share_key(project) == key
}

/// Selects the memories of a share.
pub open spec fn memory_in(key: Seq<char>) -> spec_fn(MemoryRowView) -> bool {
    |m: MemoryRowView| share_key(m.project_id) == key
}

/// Selects the sources of a share: those of its memories.
pub open spec fn source_in(s: SnapshotView, key: Seq<char>) -> spec_fn(SourceRowView) -> bool {
    |x: SourceRowView| owned(memory_owner(s, x.memory_id), key)
}

/// Selects the relations of a share: those of its memories.
pub open spec fn relation_in(s: SnapshotView, key: Seq<char>) -> spec_fn(RelationRowView) -> bool {
    |x: RelationRowView| owned(memory_owner(s, x.from), key)
}

/// Selects the episodes of a share.
pub open spec fn episode_in(key: Seq<char>) -> spec_fn(EpisodeRowView) -> bool {
    |e: EpisodeRowView| share_key(e.project_id) == key
}

/// Selects the entries of a share: those of its episodes.
pub open spec fn entry_in(s: SnapshotView, key: Seq<char>) -> spec_fn(EntryRowView) -> bool {
    |x: EntryRowView| owned(episode_owner(s, x.episode_id), key)
}

/// Selects the states of a share.
pub open spec fn state_in(key: Seq<char>) -> spec_fn(StateRowView) -> bool {
    |x: StateRowView| x.project_id == key
}

/// Selects the vectors of a share: those of its memories.
pub open spec fn vector_in(s: SnapshotView, key: Seq<char>) -> spec_fn(VectorRowView) -> bool {
    |x: VectorRowView| owned(memory_owner(s, x.entity_id), key)
}

/// The share of a snapshot with a key.
pub open spec fn share_of(s: SnapshotView, key: Seq<char>) -> ShareView {
    ShareView {
        project_id: share_project(key),
        memories: s.memories.filter(memory_in(key)),
        sources: s.sources.filter(source_in(s, key)),
        relations: s.relations.filter(relation_in(s, key)),
        episodes: s.episodes.filter(episode_in(key)),
        entries: s.entries.filter(entry_in(s, key)),
        states: s.states.filter(state_in(key)),
        vectors: s.vectors.filter(vector_in(s, key)),
    }
}

/// Holds when a key is that of a project, or of no project, with rows of its own.
pub open spec fn owns_rows(s: SnapshotView, key: Seq<char>) -> bool {
    ||| model::any_row(s.memories, memory_in(key))
    ||| model::any_row(s.episodes, episode_in(key))
    ||| model::any_row(s.states, state_in(key))
}

/// Holds when keys are in strictly ascending order.
pub open spec fn ascending(keys: Seq<Seq<char>>) -> bool {
    forall|i: int, j: int|
        0 <= i < j < keys.len() ==> order::text_le(#[trigger] keys[i], #[trigger] keys[j])
            && keys[i] != keys[j]
}

/// The keys of shares.
pub open spec fn keys_of(shares: Seq<ShareView>) -> Seq<Seq<char>> {
    Seq::new(shares.len(), |i: int| share_key(shares[i].project_id))
}

/// Holds when a plan routes a snapshot: there is one share for each key with rows, in
/// the order of the keys, and it holds the rows of that key.
pub open spec fn is_plan(plan: PlanView, s: SnapshotView) -> bool {
    &&& plan.total_states == s.states.len()
    &&& ascending(keys_of(plan.shares))
    &&& forall|i: int|
        0 <= i < plan.shares.len() ==> #[trigger] plan.shares[i] == share_of(
            s,
            share_key(plan.shares[i].project_id),
        )
    &&& forall|key: Seq<char>|
        #[trigger] keys_of(plan.shares).contains(key) <==> owns_rows(s, key)
}

/// The message of a row whose project has no name.
pub open spec fn empty_project() -> Seq<char> {
    "legacy row references an empty project identifier"@
}

/// Selects the memories whose project has no name.
pub open spec fn stray_memory() -> spec_fn(MemoryRowView) -> bool {
    |m: MemoryRowView| bad_key(share_key(m.project_id))
}

/// Selects the episodes whose project has no name.
pub open spec fn stray_episode() -> spec_fn(EpisodeRowView) -> bool {
    |e: EpisodeRowView| bad_key(share_key(e.project_id))
}

/// Selects the states whose project has no name.
pub open spec fn stray_state() -> spec_fn(StateRowView) -> bool {
    |x: StateRowView| bad_key(x.project_id)
}

/// Selects the sources of unknown memories.
pub open spec fn stray_source(s: SnapshotView) -> spec_fn(SourceRowView) -> bool {
    |x: SourceRowView| memory_owner(s, x.memory_id) is None
}

/// Selects the entries of unknown episodes.
pub open spec fn stray_entry(s: SnapshotView) -> spec_fn(EntryRowView) -> bool {
    |x: EntryRowView| episode_owner(s, x.episode_id) is None
}

/// Selects the vectors of unknown memories.
pub open spec fn stray_vector(s: SnapshotView) -> spec_fn(VectorRowView) -> bool {
    |x: VectorRowView| memory_owner(s, x.entity_id) is None
}

/// Why a relation cannot be routed.
pub open spec fn relation_refusal(s: SnapshotView, x: RelationRowView) -> Option<Seq<char>> {
    match (memory_owner(s, x.from), memory_owner(s, x.to)) {
        (None, _) => Some("relation references unknown memory "@ + x.from),
        (Some(_), None) => Some("relation references unknown memory "@ + x.to),
        (Some(from), Some(to)) => if from != to {
            Some(
                "relation "@ + x.from + " -> "@ + x.to
                    + " crosses a project boundary and cannot be split across stores"@,
            )
        } else {
            None
        },
    }
}

/// Selects the relations that cannot be routed.
pub open spec fn stray_relation(s: SnapshotView) -> spec_fn(RelationRowView) -> bool {
    |x: RelationRowView| relation_refusal(s, x) is Some
}

/// Why the memories, sources and relations of a snapshot cannot be routed.
pub open spec fn memory_refusal(s: SnapshotView) -> Option<Seq<char>> {
    if model::any_row(s.memories, stray_memory()) {
        Some(empty_project())
    } else {
        match model::first_row(s.sources, stray_source(s)) {
            Some(x) => Some("source references unknown memory "@ + x.memory_id),
            None => match model::first_row(s.relations, stray_relation(s)) {
                Some(x) => relation_refusal(s, x),
                None => None,
            },
        }
    }
}

/// Why the episodes and entries of a snapshot cannot be routed.
pub open spec fn history_refusal(s: SnapshotView) -> Option<Seq<char>> {
    if model::any_row(s.episodes, stray_episode()) {
        Some(empty_project())
    } else {
        match model::first_row(s.entries, stray_entry(s)) {
            Some(x) => Some("entry references unknown episode "@ + x.episode_id),
            None => None,
        }
    }
}

/// Why the states and vectors of a snapshot cannot be routed.
pub open spec fn derived_refusal(s: SnapshotView) -> Option<Seq<char>> {
    if model::any_row(s.states, stray_state()) {
        Some(empty_project())
    } else {
        match model::first_row(s.vectors, stray_vector(s)) {
            Some(x) => Some("vector references unknown memory "@ + x.entity_id),
            None => None,
        }
    }
}

/// Why a snapshot cannot be routed: the first row that has no place.
pub open spec fn route_refusal(s: SnapshotView) -> Option<Seq<char>> {
    error::either(
        memory_refusal(s),
        error::either(history_refusal(s), derived_refusal(s)),
    )
}

/// The key of the share that the rows of a project go to.
fn key_for(project: &Option<String>) -> (r: String)
    ensures
        r@ == share_key(model::text_of(*project)),
{
    match project {
        Some(project) => project.clone(),
        None => GLOBAL.to_owned(),
    }
}

/// Tells whether no share can have a key.
fn is_bad_key(key: &str) -> (r: bool)
    ensures
        r == bad_key(key@),
{
    !same(key, GLOBAL) && is_blank(key)
}

/// The project of a memory, if there is such a memory.
fn owner_of_memory(s: &LegacySnapshot, id: &str) -> (r: Option<Option<String>>)
    ensures
        owner_view(r) == memory_owner(s@, id@),
{
    let test = |m: &MemoryRow| -> (r: bool)
        ensures
            r == memory_with(id@)(m@),
        { same(m.id.as_str(), id) };
    match pick_last(&s.memories, test, Ghost(memory_with(id@))) {
        Some(m) => Some(m.project_id),
        None => None,
    }
}

/// The project of an episode, if there is such an episode.
fn owner_of_episode(s: &LegacySnapshot, id: &str) -> (r: Option<Option<String>>)
    ensures
        owner_view(r) == episode_owner(s@, id@),
{
    let test = |e: &EpisodeRow| -> (r: bool)
        ensures
            r == episode_with(id@)(e@),
        { same(e.id.as_str(), id) };
    match pick_last(&s.episodes, test, Ghost(episode_with(id@))) {
        Some(e) => Some(e.project_id),
        None => None,
    }
}

/// The model of an owner.
pub open spec fn owner_view(o: Option<Option<String>>) -> Option<Option<Seq<char>>> {
    match o {
        Some(project) => Some(model::text_of(project)),
        None => None,
    }
}

/// Tells whether the owner is known and has a key.
fn is_owned(owner: &Option<Option<String>>, key: &str) -> (r: bool)
    ensures
        r == owned(owner_view(*owner), key@),
{
    match owner {
        Some(project) => same(key_for(project).as_str(), key),
        None => false,
    }
}

/// Tells whether two projects are the same.
fn same_project(a: &Option<String>, b: &Option<String>) -> (r: bool)
    ensures
        r == (model::text_of(*a) == model::text_of(*b)),
{
    match (a, b) {
        (Some(a), Some(b)) => same(a.as_str(), b.as_str()),
        (None, None) => true,
        _ => false,
    }
}

/// Checks that a relation can be routed.
fn check_relation(s: &LegacySnapshot, x: &RelationRow) -> (r: Result<(), Error>)
    ensures
        error::refusal(r) == relation_refusal(s@, x@),
{
    let from: Option<String> = match owner_of_memory(s, x.from.as_str()) {
        Some(project) => project,
        None => {
            return Err(Error::of2("relation references unknown memory ", x.from.as_str()));
        },
    };
    let to: Option<String> = match owner_of_memory(s, x.to.as_str()) {
        Some(project) => project,
        None => {
            return Err(Error::of2("relation references unknown memory ", x.to.as_str()));
        },
    };
    if !same_project(&from, &to) {
        return Err(
            Error::of5(
                "relation ",
                x.from.as_str(),
                " -> ",
                x.to.as_str(),
                " crosses a project boundary and cannot be split across stores",
            ),
        );
    }
    Ok(())
}

/// Checks that the memories, sources and relations of a snapshot can be routed.
fn check_memories(s: &LegacySnapshot) -> (r: Result<(), Error>)
    ensures
        error::refusal(r) == memory_refusal(s@),
{
    let stray_m = |m: &MemoryRow| -> (r: bool)
        ensures
            r == stray_memory()(m@),
        { is_bad_key(key_for(&m.project_id).as_str()) };
    if has(&s.memories, stray_m, Ghost(stray_memory())) {
        return Err(Error::new("legacy row references an empty project identifier"));
    }
    let stray_s = |x: &SourceRow| -> (r: bool)
        ensures
            r == stray_source(s@)(x@),
        { owner_of_memory(s, x.memory_id.as_str()).is_none() };
    if let Some(x) = pick(&s.sources, stray_s, Ghost(stray_source(s@))) {
        return Err(Error::of2("source references unknown memory ", x.memory_id.as_str()));
    }
    let stray_r = |x: &RelationRow| -> (r: bool)
        ensures
            r == stray_relation(s@)(x@),
        { check_relation(s, x).is_err() };
    if let Some(x) = pick(&s.relations, stray_r, Ghost(stray_relation(s@))) {
        return check_relation(s, &x);
    }
    Ok(())
}

/// Checks that the episodes and entries of a snapshot can be routed.
fn check_history(s: &LegacySnapshot) -> (r: Result<(), Error>)
    ensures
        error::refusal(r) == history_refusal(s@),
{
    let stray_e = |e: &EpisodeRow| -> (r: bool)
        ensures
            r == stray_episode()(e@),
        { is_bad_key(key_for(&e.project_id).as_str()) };
    if has(&s.episodes, stray_e, Ghost(stray_episode())) {
        return Err(Error::new("legacy row references an empty project identifier"));
    }
    let stray_x = |x: &EntryRow| -> (r: bool)
        ensures
            r == stray_entry(s@)(x@),
        { owner_of_episode(s, x.episode_id.as_str()).is_none() };
    if let Some(x) = pick(&s.entries, stray_x, Ghost(stray_entry(s@))) {
        return Err(Error::of2("entry references unknown episode ", x.episode_id.as_str()));
    }
    Ok(())
}

/// Checks that the states and vectors of a snapshot can be routed.
fn check_derived(s: &LegacySnapshot) -> (r: Result<(), Error>)
    ensures
        error::refusal(r) == derived_refusal(s@),
{
    let stray_x = |x: &StateRow| -> (r: bool)
        ensures
            r == stray_state()(x@),
        { is_bad_key(x.project_id.as_str()) };
    if has(&s.states, stray_x, Ghost(stray_state())) {
        return Err(Error::new("legacy row references an empty project identifier"));
    }
    let stray_v = |x: &VectorRow| -> (r: bool)
        ensures
            r == stray_vector(s@)(x@),
        { owner_of_memory(s, x.entity_id.as_str()).is_none() };
    if let Some(x) = pick(&s.vectors, stray_v, Ghost(stray_vector(s@))) {
        return Err(Error::of2("vector references unknown memory ", x.entity_id.as_str()));
    }
    Ok(())
}

/// The share of a snapshot with a key.
fn make_share(s: &LegacySnapshot, key: &str) -> (r: Share)
    ensures
        r@ == share_of(s@, key@),
{
    let in_memories = |m: &MemoryRow| -> (r: bool)
        ensures
            r == memory_in(key@)(m@),
        { same(key_for(&m.project_id).as_str(), key) };
    let in_sources = |x: &SourceRow| -> (r: bool)
        ensures
            r == source_in(s@, key@)(x@),
        { is_owned(&owner_of_memory(s, x.memory_id.as_str()), key) };
    let in_relations = |x: &RelationRow| -> (r: bool)
        ensures
            r == relation_in(s@, key@)(x@),
        { is_owned(&owner_of_memory(s, x.from.as_str()), key) };
    let in_episodes = |e: &EpisodeRow| -> (r: bool)
        ensures
            r == episode_in(key@)(e@),
        { same(key_for(&e.project_id).as_str(), key) };
    let in_entries = |x: &EntryRow| -> (r: bool)
        ensures
            r == entry_in(s@, key@)(x@),
        { is_owned(&owner_of_episode(s, x.episode_id.as_str()), key) };
    let in_states = |x: &StateRow| -> (r: bool)
        ensures
            r == state_in(key@)(x@),
        { same(x.project_id.as_str(), key) };
    let in_vectors = |x: &VectorRow| -> (r: bool)
        ensures
            r == vector_in(s@, key@)(x@),
        { is_owned(&owner_of_memory(s, x.entity_id.as_str()), key) };
    let project_id: Option<String> = if same(key, GLOBAL) {
        None
    } else {
        Some(key.to_owned())
    };
    Share {
        project_id,
        memories: select(&s.memories, in_memories, Ghost(memory_in(key@))),
        sources: select(&s.sources, in_sources, Ghost(source_in(s@, key@))),
        relations: select(&s.relations, in_relations, Ghost(relation_in(s@, key@))),
        episodes: select(&s.episodes, in_episodes, Ghost(episode_in(key@))),
        entries: select(&s.entries, in_entries, Ghost(entry_in(s@, key@))),
        states: select(&s.states, in_states, Ghost(state_in(key@))),
        vectors: select(&s.vectors, in_vectors, Ghost(vector_in(s@, key@))),
    }
}

/// Adds a key to keys in ascending order, unless it is there.
fn add_key(keys: &mut Vec<String>, key: &str)
    requires
        ascending(model::views(old(keys)@)),
    ensures
        ascending(model::views(final(keys)@)),
        forall|k: Seq<char>|
            #[trigger] model::views(final(keys)@).contains(k) <==> model::views(
                old(keys)@,
            ).contains(k) || k == key@,
{
    let ghost before = model::views(keys@);
    let mut i: usize = 0;
    while i < keys.len() && is_text_le(keys[i].as_str(), key)
        invariant
            i <= keys@.len(),
            before == model::views(keys@),
            ascending(before),
            forall|k: int| 0 <= k < i ==> order::text_le(#[trigger] before[k], key@),
            forall|k: int| 0 <= k < i ==> #[trigger] before[k] != key@,
        decreases keys@.len() - i,
    {
        assert(before[i as int] == keys@[i as int]@);
        if same(keys[i].as_str(), key) {
            assert(before.contains(key@));
            return;
        }
        i = i + 1;
    }
    let ghost at = i as int;
    proof {
        assert forall|k: int| at <= k < before.len() implies order::text_le(
            key@,
            #[trigger] before[k],
        ) && before[k] != key@ by {
            assert(before[at] == keys@[at]@);
            order::lemma_text_le_total(before[at], key@);
            if k > at {
                assert(order::text_le(before[at], before[k]));
                order::lemma_text_le_trans(key@, before[at], before[k]);
                order::lemma_text_le_total(before[at], before[k]);
            }
        }
    }
    keys.insert(i, key.to_owned());
    proof {
        let after = model::views(keys@);
        assert(after =~= before.insert(at, key@));
        assert forall|a: int, b: int| 0 <= a < b < after.len() implies order::text_le(
            #[trigger] after[a],
            #[trigger] after[b],
        ) && after[a] != after[b] by {
            let x = if a < at {
                a
            } else {
                a - 1
            };
            let y = if b < at {
                b
            } else {
                b - 1
            };
            if a == at {
                assert(after[b] == before[y]);
            } else if b == at {
                assert(after[a] == before[x]);
            } else {
                assert(after[a] == before[x] && after[b] == before[y]);
            }
        }
        assert forall|k: Seq<char>| #[trigger] after.contains(k) <==> before.contains(k) || k
            == key@ by {
            if before.contains(k) {
                let j = choose|j: int| 0 <= j < before.len() && before[j] == k;
                if j < at {
                    assert(after[j] == k);
                } else {
                    assert(after[j + 1] == k);
                }
            }
            if k == key@ {
                assert(after[at] == k);
            }
            if after.contains(k) && k != key@ {
                let j = choose|j: int| 0 <= j < after.len() && after[j] == k;
                if j < at {
                    assert(before[j] == k);
                } else {
                    assert(before[j - 1] == k);
                }
            }
        }
    }
}

/// The keys of all shares, in ascending order.
fn collect_keys(s: &LegacySnapshot) -> (r: Vec<String>)
    ensures
        ascending(model::views(r@)),
        forall|key: Seq<char>|
            #[trigger] model::views(r@).contains(key) <==> owns_rows(s@, key),
{
    let mut keys: Vec<String> = Vec::new();
    let mut i: usize = 0;
    while i < s.memories.len()
        invariant
            i <= s.memories@.len(),
            ascending(model::views(keys@)),
            forall|key: Seq<char>|
                #[trigger] model::views(keys@).contains(key) <==> some_before(
                    s@.memories,
                    memory_in(key),
                    i as int,
                ),
        decreases s.memories@.len() - i,
    {
        let ghost before = model::views(keys@);
        add_key(&mut keys, key_for(&s.memories[i].project_id).as_str());
        proof {
            assert(s@.memories[i as int] == s.memories@[i as int]@);
            assert forall|key: Seq<char>|
                #[trigger] model::views(keys@).contains(key) <==> some_before(
                    s@.memories,
                    memory_in(key),
                    i + 1,
                ) by {
                assert(before.contains(key) <==> some_before(
                    s@.memories,
                    memory_in(key),
                    i as int,
                ));
                lemma_some_before_step(s@.memories, memory_in(key), i as int);
            }
        }
        i = i + 1;
    }
    let ghost first = model::views(keys@);
    i = 0;
    while i < s.episodes.len()
        invariant
            i <= s.episodes@.len(),
            ascending(model::views(keys@)),
            forall|key: Seq<char>|
                #[trigger] model::views(keys@).contains(key) <==> first.contains(key)
                    || some_before(s@.episodes, episode_in(key), i as int),
        decreases s.episodes@.len() - i,
    {
        let ghost before = model::views(keys@);
        add_key(&mut keys, key_for(&s.episodes[i].project_id).as_str());
        proof {
            assert(s@.episodes[i as int] == s.episodes@[i as int]@);
            assert forall|key: Seq<char>|
                #[trigger] model::views(keys@).contains(key) <==> first.contains(key)
                    || some_before(s@.episodes, episode_in(key), i + 1) by {
                assert(before.contains(key) <==> first.contains(key) || some_before(
                    s@.episodes,
                    episode_in(key),
                    i as int,
                ));
                lemma_some_before_step(s@.episodes, episode_in(key), i as int);
            }
        }
        i = i + 1;
    }
    let ghost second = model::views(keys@);
    i = 0;
    while i < s.states.len()
        invariant
            i <= s.states@.len(),
            ascending(model::views(keys@)),
            forall|key: Seq<char>|
                #[trigger] model::views(keys@).contains(key) <==> second.contains(key)
                    || some_before(s@.states, state_in(key), i as int),
        decreases s.states@.len() - i,
    {
        let ghost before = model::views(keys@);
        add_key(&mut keys, s.states[i].project_id.as_str());
        proof {
            assert(s@.states[i as int] == s.states@[i as int]@);
            assert forall|key: Seq<char>|
                #[trigger] model::views(keys@).contains(key) <==> second.contains(key)
                    || some_before(s@.states, state_in(key), i + 1) by {
                assert(before.contains(key) <==> second.contains(key) || some_before(
                    s@.states,
                    state_in(key),
                    i as int,
                ));
                lemma_some_before_step(s@.states, state_in(key), i as int);
            }
        }
        i = i + 1;
    }
    proof {
        let n = model::views(keys@);
        assert forall|key: Seq<char>| #[trigger] n.contains(key) <==> owns_rows(s@, key) by {
            assert(second.contains(key) <==> first.contains(key) || some_before(
                s@.episodes,
                episode_in(key),
                s@.episodes.len() as int,
            ));
            assert(first.contains(key) <==> some_before(
                s@.memories,
                memory_in(key),
                s@.memories.len() as int,
            ));
        }
    }
    keys
}

/// Holds when one of the first `n` rows meets a condition.
spec fn some_before<V>(s: Seq<V>, p: spec_fn(V) -> bool, n: int) -> bool {
    exists|i: int| 0 <= i < n && i < s.len() && p(#[trigger] s[i])
}

proof fn lemma_some_before_step<V>(s: Seq<V>, p: spec_fn(V) -> bool, n: int)
    requires
        0 <= n < s.len(),
    ensures
        some_before(s, p, n + 1) <==> some_before(s, p, n) || p(s[n]),
{
    if some_before(s, p, n + 1) {
        let i = choose|i: int| 0 <= i < n + 1 && i < s.len() && p(#[trigger] s[i]);
        if i < n {
            assert(p(s[i]));
        }
    }
    if p(s[n]) {
        assert(0 <= n < n + 1 && n < s.len() && p(s[n]));
    }
}

/// Splits a snapshot into shares. Every row goes to the share of its project, and
/// nothing is routed if some row has no place.
pub fn route_snapshot(s: &LegacySnapshot) -> (r: Result<CopyPlan, Error>)
    ensures
        match route_refusal(s@) {
            Some(message) => r matches Err(e) && e@ == message,
            None => r matches Ok(plan) && is_plan(plan@, s@),
        },
{
    check_memories(s)?;
    check_history(s)?;
    check_derived(s)?;
    let keys: Vec<String> = collect_keys(s);
    let ghost wanted = model::views(keys@);
    let mut shares: Vec<Share> = Vec::new();
    let mut i: usize = 0;
    while i < keys.len()
        invariant
            i <= keys@.len(),
            wanted == model::views(keys@),
            shares@.len() == i,
            forall|k: int| 0 <= k < i ==> (#[trigger] shares@[k])@ == share_of(s@, wanted[k]),
        decreases keys@.len() - i,
    {
        shares.push(make_share(s, keys[i].as_str()));
        i = i + 1;
    }
    let plan: CopyPlan = CopyPlan { shares, total_states: s.states.len() };
    proof {
        assert forall|k: int| 0 <= k < plan@.shares.len() implies keys_of(plan@.shares)[k]
            == wanted[k] && #[trigger] plan@.shares[k] == share_of(
            s@,
            share_key(plan@.shares[k].project_id),
        ) by {
            assert(plan@.shares[k] == share_of(s@, wanted[k]));
        }
        assert(keys_of(plan@.shares) =~= wanted);
    }
    Ok(plan)
}

/// Number of memories in shares.
pub open spec fn memories_in(shares: Seq<ShareView>) -> nat
    decreases shares.len(),
{
    if shares.len() == 0 {
        0
    } else {
        memories_in(shares.drop_last()) + shares.last().memories.len()
    }
}

/// Number of episodes in shares.
pub open spec fn episodes_in(shares: Seq<ShareView>) -> nat
    decreases shares.len(),
{
    if shares.len() == 0 {
        0
    } else {
        episodes_in(shares.drop_last()) + shares.last().episodes.len()
    }
}

proof fn lemma_memories_in_step(shares: Seq<ShareView>, i: int)
    requires
        0 <= i < shares.len(),
    ensures
        memories_in(shares.take(i + 1)) == memories_in(shares.take(i)) + shares[i].memories.len(),
        episodes_in(shares.take(i + 1)) == episodes_in(shares.take(i)) + shares[i].episodes.len(),
{
    assert(shares.take(i + 1).drop_last() =~= shares.take(i));
}

proof fn lemma_memories_in_monotone(shares: Seq<ShareView>, i: int)
    requires
        0 <= i <= shares.len(),
    ensures
        memories_in(shares.take(i)) <= memories_in(shares),
        episodes_in(shares.take(i)) <= episodes_in(shares),
    decreases shares.len() - i,
{
    if i < shares.len() {
        lemma_memories_in_step(shares, i);
        lemma_memories_in_monotone(shares, i + 1);
    } else {
        assert(shares.take(i) =~= shares);
    }
}

impl CopyPlan {
    /// Number of memories in all shares.
    pub fn memories(&self) -> (r: u64)
        requires
            memories_in(self@.shares) <= u64::MAX,
        ensures
            r == memories_in(self@.shares),
    {
        let ghost all = self@.shares;
        let mut total: u64 = 0;
        let mut i: usize = 0;
        while i < self.shares.len()
            invariant
                i <= self.shares@.len(),
                all == self@.shares,
                memories_in(all) <= u64::MAX,
                total == memories_in(all.take(i as int)),
            decreases self.shares@.len() - i,
        {
            proof {
                lemma_memories_in_step(all, i as int);
                lemma_memories_in_monotone(all, i + 1);
                assert(all[i as int] == self.shares@[i as int]@);
            }
            total = total + self.shares[i].memories.len() as u64;
            i = i + 1;
        }
        assert(all.take(i as int) =~= all);
        total
    }

    /// Number of episodes in all shares.
    pub fn episodes(&self) -> (r: u64)
        requires
            episodes_in(self@.shares) <= u64::MAX,
        ensures
            r == episodes_in(self@.shares),
    {
        let ghost all = self@.shares;
        let mut total: u64 = 0;
        let mut i: usize = 0;
        while i < self.shares.len()
            invariant
                i <= self.shares@.len(),
                all == self@.shares,
                episodes_in(all) <= u64::MAX,
                total == episodes_in(all.take(i as int)),
            decreases self.shares@.len() - i,
        {
            proof {
                lemma_memories_in_step(all, i as int);
                lemma_memories_in_monotone(all, i + 1);
                assert(all[i as int] == self.shares@[i as int]@);
            }
            total = total + self.shares[i].episodes.len() as u64;
            i = i + 1;
        }
        assert(all.take(i as int) =~= all);
        total
    }
}

/// Holds when exactly one share has a key.
pub open spec fn in_one_share(shares: Seq<ShareView>, key: Seq<char>) -> bool {
    exists|j: int|
        0 <= j < shares.len() && #[trigger] keys_of(shares)[j] == key && forall|k: int|
            0 <= k < shares.len() && #[trigger] keys_of(shares)[k] == key ==> k == j
}

/// A key with rows has exactly one share.
proof fn lemma_in_one_share(plan: PlanView, s: SnapshotView, key: Seq<char>)
    requires
        is_plan(plan, s),
        owns_rows(s, key),
    ensures
        in_one_share(plan.shares, key),
{
    let keys = keys_of(plan.shares);
    assert(keys.contains(key));
    let j = choose|j: int| 0 <= j < keys.len() && keys[j] == key;
    assert forall|k: int| 0 <= k < plan.shares.len() && #[trigger] keys[k] == key implies k == j by {
        if k < j {
            assert(keys[k] != keys[j]);
        } else if j < k {
            assert(keys[j] != keys[k]);
        }
    }
}

/// The key of the owner of a memory has rows.
proof fn lemma_memory_owner_owns(s: SnapshotView, id: Seq<char>)
    ensures
        memory_owner(s, id) matches Some(project) ==> owns_rows(s, share_key(project)),
{
    let p = memory_with(id);
    model::lemma_filter_contains(s.memories, p);
    let rows = s.memories.filter(p);
    if rows.len() > 0 {
        let m = rows[rows.len() - 1];
        assert(s.memories.contains(m));
        let i = choose|i: int| 0 <= i < s.memories.len() && s.memories[i] == m;
        assert(memory_in(share_key(m.project_id))(s.memories[i]));
    }
}

/// The key of the owner of an episode has rows.
proof fn lemma_episode_owner_owns(s: SnapshotView, id: Seq<char>)
    ensures
        episode_owner(s, id) matches Some(project) ==> owns_rows(s, share_key(project)),
{
    let p = episode_with(id);
    model::lemma_filter_contains(s.episodes, p);
    let rows = s.episodes.filter(p);
    if rows.len() > 0 {
        let e = rows[rows.len() - 1];
        assert(s.episodes.contains(e));
        let i = choose|i: int| 0 <= i < s.episodes.len() && s.episodes[i] == e;
        assert(episode_in(share_key(e.project_id))(s.episodes[i]));
    }
}

/// Every row of a routed snapshot lands in exactly one share: a memory, an episode and
/// a state in that of its project, and any other row in that of the memory or
/// episode it belongs to. Both ends of a relation are in the same share.
pub proof fn law_every_row_lands_in_one_share(plan: PlanView, s: SnapshotView)
    requires
        route_refusal(s) is None,
        is_plan(plan, s),
    ensures
        forall|i: int|
            0 <= i < s.memories.len() ==> in_one_share(
                plan.shares,
                share_key((#[trigger] s.memories[i]).project_id),
            ),
        forall|i: int|
            0 <= i < s.episodes.len() ==> in_one_share(
                plan.shares,
                share_key((#[trigger] s.episodes[i]).project_id),
            ),
        forall|i: int|
            0 <= i < s.states.len() ==> in_one_share(
                plan.shares,
                (#[trigger] s.states[i]).project_id,
            ),
        forall|i: int|
            0 <= i < s.sources.len() ==> {
                let owner = memory_owner(s, (#[trigger] s.sources[i]).memory_id);
                owner is Some && in_one_share(plan.shares, share_key(owner->0))
            },
        forall|i: int|
            0 <= i < s.relations.len() ==> {
                let owner = memory_owner(s, (#[trigger] s.relations[i]).from);
                owner is Some && owner == memory_owner(s, s.relations[i].to) && in_one_share(
                    plan.shares,
                    share_key(owner->0),
                )
            },
        forall|i: int|
            0 <= i < s.entries.len() ==> {
                let owner = episode_owner(s, (#[trigger] s.entries[i]).episode_id);
                owner is Some && in_one_share(plan.shares, share_key(owner->0))
            },
        forall|i: int|
            0 <= i < s.vectors.len() ==> {
                let owner = memory_owner(s, (#[trigger] s.vectors[i]).entity_id);
                owner is Some && in_one_share(plan.shares, share_key(owner->0))
            },
{
    model::lemma_first_row(s.sources, stray_source(s));
    model::lemma_first_row(s.relations, stray_relation(s));
    model::lemma_first_row(s.entries, stray_entry(s));
    model::lemma_first_row(s.vectors, stray_vector(s));
    assert forall|i: int| 0 <= i < s.memories.len() implies in_one_share(
        plan.shares,
        share_key((#[trigger] s.memories[i]).project_id),
    ) by {
        let key = share_key(s.memories[i].project_id);
        assert(memory_in(key)(s.memories[i]));
        lemma_in_one_share(plan, s, key);
    }
    assert forall|i: int| 0 <= i < s.episodes.len() implies in_one_share(
        plan.shares,
        share_key((#[trigger] s.episodes[i]).project_id),
    ) by {
        let key = share_key(s.episodes[i].project_id);
        assert(episode_in(key)(s.episodes[i]));
        lemma_in_one_share(plan, s, key);
    }
    assert forall|i: int| 0 <= i < s.states.len() implies in_one_share(
        plan.shares,
        (#[trigger] s.states[i]).project_id,
    ) by {
        let key = s.states[i].project_id;
        assert(state_in(key)(s.states[i]));
        lemma_in_one_share(plan, s, key);
    }
    assert forall|i: int| 0 <= i < s.sources.len() implies {
        let owner = memory_owner(s, (#[trigger] s.sources[i]).memory_id);
        owner is Some && in_one_share(plan.shares, share_key(owner->0))
    } by {
        assert(!stray_source(s)(s.sources[i]));
        lemma_memory_owner_owns(s, s.sources[i].memory_id);
        lemma_in_one_share(plan, s, share_key(memory_owner(s, s.sources[i].memory_id)->0));
    }
    assert forall|i: int| 0 <= i < s.relations.len() implies {
        let owner = memory_owner(s, (#[trigger] s.relations[i]).from);
        owner is Some && owner == memory_owner(s, s.relations[i].to) && in_one_share(
            plan.shares,
            share_key(owner->0),
        )
    } by {
        assert(!stray_relation(s)(s.relations[i]));
        lemma_memory_owner_owns(s, s.relations[i].from);
        lemma_in_one_share(plan, s, share_key(memory_owner(s, s.relations[i].from)->0));
    }
    assert forall|i: int| 0 <= i < s.entries.len() implies {
        let owner = episode_owner(s, (#[trigger] s.entries[i]).episode_id);
        owner is Some && in_one_share(plan.shares, share_key(owner->0))
    } by {
        assert(!stray_entry(s)(s.entries[i]));
        lemma_episode_owner_owns(s, s.entries[i].episode_id);
        lemma_in_one_share(plan, s, share_key(episode_owner(s, s.entries[i].episode_id)->0));
    }
    assert forall|i: int| 0 <= i < s.vectors.len() implies {
        let owner = memory_owner(s, (#[trigger] s.vectors[i]).entity_id);
        owner is Some && in_one_share(plan.shares, share_key(owner->0))
    } by {
        assert(!stray_vector(s)(s.vectors[i]));
        lemma_memory_owner_owns(s, s.vectors[i].entity_id);
        lemma_in_one_share(plan, s, share_key(memory_owner(s, s.vectors[i].entity_id)->0));
    }
}

/// Selects the rows with a key.
spec fn has_key<V>(key_of: spec_fn(V) -> Seq<char>, key: Seq<char>) -> spec_fn(V) -> bool {
    |v: V| key_of(v) == key
}

/// Number of rows with one of the keys.
spec fn total_of<V>(keys: Seq<Seq<char>>, s: Seq<V>, key_of: spec_fn(V) -> Seq<char>) -> nat
    decreases keys.len(),
{
    if keys.len() == 0 {
        0
    } else {
        total_of(keys.drop_last(), s, key_of) + s.filter(has_key(key_of, keys.last())).len()
    }
}

proof fn lemma_total_step<V>(
    keys: Seq<Seq<char>>,
    s: Seq<V>,
    x: V,
    key_of: spec_fn(V) -> Seq<char>,
)
    requires
        ascending(keys),
    ensures
        total_of(keys, s.push(x), key_of) == total_of(keys, s, key_of) + (if keys.contains(
            key_of(x),
        ) {
            1nat
        } else {
            0nat
        }),
    decreases keys.len(),
{
    if keys.len() > 0 {
        let front = keys.drop_last();
        let last = keys.last();
        assert forall|i: int, j: int| 0 <= i < j < front.len() implies order::text_le(
            #[trigger] front[i],
            #[trigger] front[j],
        ) && front[i] != front[j] by {
            assert(front[i] == keys[i] && front[j] == keys[j]);
        }
        lemma_total_step(front, s, x, key_of);
        model::lemma_filter_push(s, x, has_key(key_of, last));
        if key_of(x) == last {
            assert(keys[keys.len() - 1] == key_of(x));
            assert(keys.contains(key_of(x)));
            if front.contains(key_of(x)) {
                let i = choose|i: int| 0 <= i < front.len() && front[i] == key_of(x);
                assert(keys[i] != keys[keys.len() - 1]);
            }
        } else {
            if keys.contains(key_of(x)) {
                let i = choose|i: int| 0 <= i < keys.len() && keys[i] == key_of(x);
                assert(front[i] == key_of(x));
            }
            if front.contains(key_of(x)) {
                let i = choose|i: int| 0 <= i < front.len() && front[i] == key_of(x);
                assert(keys[i] == key_of(x));
            }
        }
    }
}

proof fn lemma_total<V>(keys: Seq<Seq<char>>, s: Seq<V>, key_of: spec_fn(V) -> Seq<char>)
    requires
        ascending(keys),
        forall|i: int| 0 <= i < s.len() ==> keys.contains(key_of(#[trigger] s[i])),
    ensures
        total_of(keys, s, key_of) == s.len(),
    decreases s.len(),
{
    if s.len() > 0 {
        let front = s.drop_last();
        assert forall|i: int| 0 <= i < front.len() implies keys.contains(
            key_of(#[trigger] front[i]),
        ) by {
            assert(front[i] == s[i]);
        }
        lemma_total(keys, front, key_of);
        assert(keys.contains(key_of(s[s.len() - 1])));
        lemma_total_step(keys, front, s.last(), key_of);
        assert(front.push(s.last()) =~= s);
    } else {
        lemma_total_empty(keys, s, key_of);
    }
}

proof fn lemma_total_empty<V>(keys: Seq<Seq<char>>, s: Seq<V>, key_of: spec_fn(V) -> Seq<char>)
    requires
        s.len() == 0,
    ensures
        total_of(keys, s, key_of) == 0,
    decreases keys.len(),
{
    if keys.len() > 0 {
        lemma_total_empty(keys.drop_last(), s, key_of);
        s.lemma_filter_len(has_key(key_of, keys.last()));
    }
}

/// Routing loses and duplicates no memory and no episode.
pub proof fn law_routing_keeps_every_row(plan: PlanView, s: SnapshotView)
    requires
        is_plan(plan, s),
    ensures
        memories_in(plan.shares) == s.memories.len(),
        episodes_in(plan.shares) == s.episodes.len(),
{
    let keys = keys_of(plan.shares);
    let of_memory = |m: MemoryRowView| share_key(m.project_id);
    let of_episode = |e: EpisodeRowView| share_key(e.project_id);
    assert forall|i: int| 0 <= i < s.memories.len() implies keys.contains(
        of_memory(#[trigger] s.memories[i]),
    ) by {
        assert(memory_in(of_memory(s.memories[i]))(s.memories[i]));
    }
    assert forall|i: int| 0 <= i < s.episodes.len() implies keys.contains(
        of_episode(#[trigger] s.episodes[i]),
    ) by {
        assert(episode_in(of_episode(s.episodes[i]))(s.episodes[i]));
    }
    lemma_total(keys, s.memories, of_memory);
    lemma_total(keys, s.episodes, of_episode);
    lemma_sums(plan.shares, s, of_memory, of_episode);
}

proof fn lemma_sums(
    shares: Seq<ShareView>,
    s: SnapshotView,
    of_memory: spec_fn(MemoryRowView) -> Seq<char>,
    of_episode: spec_fn(EpisodeRowView) -> Seq<char>,
)
    requires
        forall|m: MemoryRowView| #[trigger] of_memory(m) == share_key(m.project_id),
        forall|e: EpisodeRowView| #[trigger] of_episode(e) == share_key(e.project_id),
        forall|i: int|
            0 <= i < shares.len() ==> #[trigger] shares[i] == share_of(
                s,
                share_key(shares[i].project_id),
            ),
    ensures
        memories_in(shares) == total_of(keys_of(shares), s.memories, of_memory),
        episodes_in(shares) == total_of(keys_of(shares), s.episodes, of_episode),
    decreases shares.len(),
{
    if shares.len() > 0 {
        let front = shares.drop_last();
        assert forall|i: int| 0 <= i < front.len() implies #[trigger] front[i] == share_of(
            s,
            share_key(front[i].project_id),
        ) by {
            assert(front[i] == shares[i]);
        }
        lemma_sums(front, s, of_memory, of_episode);
        let key = share_key(shares.last().project_id);
        assert(shares[shares.len() - 1] == share_of(s, key));
        assert(keys_of(shares).drop_last() =~= keys_of(front));
        assert(keys_of(shares).last() == key);
        assert(memory_in(key) =~= has_key(of_memory, key));
        assert(episode_in(key) =~= has_key(of_episode, key));
    }
}

/// What a migration came to.
#[derive(Debug, Clone, Copy, PartialEq, Eq, Structural)]
pub enum MigrationState {
    /// The layout is already there and valid.
    AlreadyActive,
    /// There is no legacy database.
    NoLegacyStore,
    /// The layout was built, checked and put into effect.
    Migrated,
}

/// Outcome of a migration.
#[derive(Debug)]
pub struct MigrationReport {
    pub state: MigrationState,
    pub legacy_db: String,
    pub layout_dir: String,
    pub memories: u64,
    pub episodes: u64,
    pub workspaces: u64,
    pub stores: Vec<String>,
}

/// What a migration has to do first.
#[derive(Debug, Clone, Copy, PartialEq, Eq, Structural)]
pub enum MigrationStep {
    CheckActive,
    Nothing,
    Build,
}

/// What a migration has to do first: a layout that is there is checked and never
/// overwritten, and without a legacy database there is nothing to do.
pub open spec fn step_for(layout_is_there: bool, legacy_is_there: bool) -> MigrationStep {
    if layout_is_there {
        MigrationStep::CheckActive
    } else if !legacy_is_there {
        MigrationStep::Nothing
    } else {
        MigrationStep::Build
    }
}

/// Decides what a migration has to do first.
pub fn first_step(layout_is_there: bool, legacy_is_there: bool) -> (r: MigrationStep)
    ensures
        r == step_for(layout_is_there, legacy_is_there),
{
    if layout_is_there {
        MigrationStep::CheckActive
    } else if !legacy_is_there {
        MigrationStep::Nothing
    } else {
        MigrationStep::Build
    }
}

/// What the step of a migration found: what checking the layout came to, no legacy
/// database, rows that cannot be routed, or the plan by which stores were staged and what
/// was counted in each of them.
#[derive(Debug)]
pub enum MigrationFinding {
    Active(Result<(), Error>),
    NoLegacy,
    Unrouted(Error),
    Built(CopyPlan, Vec<StagedCounts>),
}

/// Holds of the findings that a step can come to.
pub open spec fn follows(step: MigrationStep, finding: MigrationFinding) -> bool {
    match step {
        MigrationStep::CheckActive => finding is Active,
        MigrationStep::Nothing => finding is NoLegacy,
        MigrationStep::Build => finding is Unrouted || finding is Built,
    }
}

/// The stores of a layout with the given shares: the user store, then those of the
/// projects.
pub open spec fn store_paths(layout_dir: Seq<char>, shares: Seq<ShareView>) -> Seq<Seq<char>>
    decreases shares.len(),
{
    if shares.len() == 0 {
        seq![layout::below(layout_dir, layout::relative_path(None))]
    } else {
        let before = store_paths(layout_dir, shares.drop_last());
        match shares.last().project_id {
            Some(project) => before.push(
                layout::below(layout_dir, layout::relative_path(Some(project))),
            ),
            None => before,
        }
    }
}

/// Holds when every share with a project names it.
pub open spec fn named_projects(shares: Seq<ShareView>) -> bool {
    forall|i: int|
        0 <= i < shares.len() ==> ((#[trigger] shares[i]).project_id matches Some(project)
            ==> !text::blank(project))
}

/// Why a migration is refused, given what its step found: the layout that is there fails
/// its check, the rows cannot be routed, or a staged store fails its check.
pub open spec fn migration_refusal(root: Seq<char>, finding: MigrationFinding) -> Option<
    Seq<char>,
> {
    match finding {
        MigrationFinding::Active(Err(cause)) => Some(
            "layout "@ + layout::below(root, layout::LAYOUT_VERSION_DIR@)
                + " exists but failed validation; refusing to migrate over it: "@ + cause@,
        ),
        MigrationFinding::Unrouted(e) => Some(e@),
        MigrationFinding::Built(plan, found) => staging::layout_refusal(plan@.shares, found@),
        _ => None,
    }
}

/// Holds when a report, or the refusal in its place, is that of a finding.
pub open spec fn reports(
    root: Seq<char>,
    finding: MigrationFinding,
    r: Result<MigrationReport, Error>,
) -> bool {
    let layout_dir = layout::below(root, layout::LAYOUT_VERSION_DIR@);
    match migration_refusal(root, finding) {
        Some(message) => r is Err && r->Err_0@ == message,
        None => r is Ok && {
            let report = r->Ok_0;
            &&& report.legacy_db@ == layout::below(root, "memory.db"@)
            &&& report.layout_dir@ == layout_dir
            &&& match finding {
                MigrationFinding::Built(plan, _) => {
                    &&& report.state == MigrationState::Migrated
                    &&& report.memories == memories_in(plan@.shares)
                    &&& report.episodes == episodes_in(plan@.shares)
                    &&& report.workspaces == plan@.total_states
                    &&& model::views(report.stores@) == store_paths(layout_dir, plan@.shares)
                },
                _ => {
                    &&& report.state == (if finding is NoLegacy {
                        MigrationState::NoLegacyStore
                    } else {
                        MigrationState::AlreadyActive
                    })
                    &&& moved_nothing(report)
                },
            }
        },
    }
}

/// Holds when a report counts nothing and names no store.
pub open spec fn moved_nothing(report: MigrationReport) -> bool {
    &&& report.memories == 0
    &&& report.episodes == 0
    &&& report.workspaces == 0
    &&& report.stores@.len() == 0
}

/// Whether the layout is there after a run: it was before, or the run put it there.
pub open spec fn layout_after(layout_is_there: bool, r: Result<MigrationReport, Error>) -> bool {
    layout_is_there || (r is Ok && r->Ok_0.state == MigrationState::Migrated)
}

/// Reports what a migration came to.
pub fn migrate_layout(layout: &ManagedLayout, finding: MigrationFinding) -> (r: Result<
    MigrationReport,
    Error,
>)
    requires
        finding matches MigrationFinding::Built(plan, found) ==> {
            &&& found@.len() == plan@.shares.len()
            &&& named_projects(plan@.shares)
            &&& memories_in(plan@.shares) <= u64::MAX
            &&& episodes_in(plan@.shares) <= u64::MAX
        },
    ensures
        reports(layout.root@, finding, r),
{
    let legacy_db: String = layout.legacy_db();
    let layout_dir: String = layout.layout_dir();
    match finding {
        MigrationFinding::Active(checked) => {
            if let Err(cause) = checked {
                return Err(
                    Error::of4(
                        "layout ",
                        layout_dir.as_str(),
                        " exists but failed validation; refusing to migrate over it: ",
                        cause.message.as_str(),
                    ),
                );
            }
            Ok(
                MigrationReport {
                    state: MigrationState::AlreadyActive,
                    legacy_db,
                    layout_dir,
                    memories: 0,
                    episodes: 0,
                    workspaces: 0,
                    stores: Vec::new(),
                },
            )
        },
        MigrationFinding::NoLegacy => Ok(
            MigrationReport {
                state: MigrationState::NoLegacyStore,
                legacy_db,
                layout_dir,
                memories: 0,
                episodes: 0,
                workspaces: 0,
                stores: Vec::new(),
            },
        ),
        MigrationFinding::Unrouted(e) => Err(e),
        MigrationFinding::Built(plan, found) => {
            check_staging(&plan, &found)?;
            let stores: Vec<String> = list_stores(layout, &plan)?;
            Ok(
                MigrationReport {
                    state: MigrationState::Migrated,
                    legacy_db,
                    layout_dir,
                    memories: plan.memories(),
                    episodes: plan.episodes(),
                    workspaces: plan.total_states as u64,
                    stores,
                },
            )
        },
    }
}

/// A migration reports what was there: a valid layout, no legacy database, or one that
/// it moved. It counts rows and names stores only where it moved them, and it is refused
/// exactly when rows cannot be routed, or the layout that is there or a staged store fails
/// its check.
pub proof fn law_migration_reports_what_was_there(
    root: Seq<char>,
    layout_is_there: bool,
    legacy_is_there: bool,
    finding: MigrationFinding,
    r: Result<MigrationReport, Error>,
)
    requires
        follows(step_for(layout_is_there, legacy_is_there), finding),
        reports(root, finding, r),
    ensures
        r is Err <==> match finding {
            MigrationFinding::Active(checked) => checked is Err,
            MigrationFinding::NoLegacy => false,
            MigrationFinding::Unrouted(_) => true,
            MigrationFinding::Built(plan, found) => !staging::all_pass(plan@.shares, found@),
        },
        r matches Ok(report) ==> {
            &&& report.state == MigrationState::AlreadyActive <==> layout_is_there
            &&& report.state == MigrationState::NoLegacyStore <==> !layout_is_there
                && !legacy_is_there
            &&& report.state == MigrationState::Migrated <==> !layout_is_there && legacy_is_there
            &&& report.state != MigrationState::Migrated ==> moved_nothing(report)
            &&& report.state == MigrationState::Migrated ==> report.stores@.len() > 0
        },
{
    if let MigrationFinding::Built(plan, found) = finding {
        staging::law_every_staged_store_is_checked(plan@.shares, found@);
        lemma_user_store_is_listed(
            layout::below(root, layout::LAYOUT_VERSION_DIR@),
            plan@.shares,
        );
        if r is Ok {
            assert(model::views(r->Ok_0.stores@).len() == r->Ok_0.stores@.len());
        }
    }
}

/// The user store is always among the stores, as the first.
proof fn lemma_user_store_is_listed(layout_dir: Seq<char>, shares: Seq<ShareView>)
    ensures
        store_paths(layout_dir, shares).len() > 0,
        store_paths(layout_dir, shares)[0] == layout::below(
            layout_dir,
            layout::relative_path(None),
        ),
    decreases shares.len(),
{
    if shares.len() > 0 {
        lemma_user_store_is_listed(layout_dir, shares.drop_last());
    }
}

/// A layout is put into effect only after every row was routed and every staged store
/// passed its check: another run leaves no layout, and is refused with what refused the
/// routing or with the message of the first store that did not pass.
pub proof fn law_only_checked_layouts_take_effect(
    root: Seq<char>,
    legacy_is_there: bool,
    finding: MigrationFinding,
    r: Result<MigrationReport, Error>,
)
    requires
        follows(step_for(false, legacy_is_there), finding),
        reports(root, finding, r),
    ensures
        layout_after(false, r) <==> (finding matches MigrationFinding::Built(plan, found)
            && staging::all_pass(plan@.shares, found@)),
        r matches Err(e) ==> match finding {
            MigrationFinding::Unrouted(cause) => e@ == cause@,
            MigrationFinding::Built(plan, found) => exists|n: int| #[trigger]
                staging::first_refused(plan@.shares, found@, n, e@),
            _ => false,
        },
{
    if let MigrationFinding::Built(plan, found) = finding {
        staging::law_every_staged_store_is_checked(plan@.shares, found@);
    }
}

/// Migrating again moves nothing: once a run found or made a layout, a later one reports
/// that it is active, or is refused if it fails its check, whatever became of the legacy
/// database.
pub proof fn law_migrating_again_moves_nothing(
    root: Seq<char>,
    layout_is_there: bool,
    legacy_is_there: bool,
    finding: MigrationFinding,
    r: Result<MigrationReport, Error>,
    legacy_is_there_again: bool,
    finding_again: MigrationFinding,
    again: Result<MigrationReport, Error>,
)
    requires
        follows(step_for(layout_is_there, legacy_is_there), finding),
        reports(root, finding, r),
        layout_after(layout_is_there, r),
        follows(
            step_for(layout_after(layout_is_there, r), legacy_is_there_again),
            finding_again,
        ),
        reports(root, finding_again, again),
    ensures
        finding_again is Active,
        match again {
            Ok(report) => report.state == MigrationState::AlreadyActive && moved_nothing(report),
            Err(_) => finding_again matches MigrationFinding::Active(Err(_)),
        },
{
    law_migration_reports_what_was_there(root, layout_is_there, legacy_is_there, finding, r);
    law_migration_reports_what_was_there(
        root,
        layout_after(layout_is_there, r),
        legacy_is_there_again,
        finding_again,
        again,
    );
}

/// The paths of the stores of a plan.
fn list_stores(layout: &ManagedLayout, plan: &CopyPlan) -> (r: Result<Vec<String>, Error>)
    requires
        named_projects(plan@.shares),
    ensures
        r is Ok,
        model::views(r->Ok_0@) == store_paths(
            layout::below(layout.root@, layout::LAYOUT_VERSION_DIR@),
            plan@.shares,
        ),
{
    let ghost dir = layout::below(layout.root@, layout::LAYOUT_VERSION_DIR@);
    let ghost all = plan@.shares;
    let mut stores: Vec<String> = Vec::new();
    stores.push(layout.user_db());
    let mut i: usize = 0;
    proof {
        assert(all.take(0) =~= Seq::<ShareView>::empty());
        assert(model::views(stores@) =~= store_paths(dir, all.take(0)));
    }
    while i < plan.shares.len()
        invariant
            i <= plan.shares@.len(),
            all == plan@.shares,
            named_projects(all),
            dir == layout::below(layout.root@, layout::LAYOUT_VERSION_DIR@),
            model::views(stores@) == store_paths(dir, all.take(i as int)),
        decreases plan.shares@.len() - i,
    {
        let share: &Share = &plan.shares[i];
        assert(all[i as int] == share@);
        assert(all.take(i + 1).drop_last() =~= all.take(i as int));
        let ghost before = model::views(stores@);
        if let Some(project) = &share.project_id {
            let db: ProjectDb = layout.project_db(project.as_str())?;
            stores.push(db.path);
            assert(model::views(stores@) =~= before.push(stores@.last()@));
        }
        i = i + 1;
    }
    assert(all.take(i as int) =~= all);
    Ok(stores)
}

/// A routed plan names the project of every share that has one, so that each has a
/// store.
pub proof fn law_routed_shares_have_stores(plan: PlanView, s: SnapshotView)
    requires
        route_refusal(s) is None,
        is_plan(plan, s),
    ensures
        named_projects(plan.shares),
{
    assert forall|i: int| 0 <= i < plan.shares.len() implies ((
    #[trigger] plan.shares[i]).project_id matches Some(project) ==> !text::blank(project)) by {
        let key = share_key(plan.shares[i].project_id);
        assert(plan.shares[i] == share_of(s, key));
        assert(keys_of(plan.shares)[i] == key);
        assert(keys_of(plan.shares).contains(key));
        assert(owns_rows(s, key));
        if model::any_row(s.memories, memory_in(key)) {
            let k = choose|k: int|
                0 <= k < s.memories.len() && memory_in(key)(#[trigger] s.memories[k]);
            assert(!stray_memory()(s.memories[k]));
        } else if model::any_row(s.episodes, episode_in(key)) {
            let k = choose|k: int|
                0 <= k < s.episodes.len() && episode_in(key)(#[trigger] s.episodes[k]);
            assert(!stray_episode()(s.episodes[k]));
        } else {
            let k = choose|k: int| 0 <= k < s.states.len() && state_in(key)(#[trigger] s.states[k]);
            assert(!stray_state()(s.states[k]));
        }
    }
}

/// Outcome of purging the store of a project.
#[derive(Debug)]
pub struct PurgeReport {
    pub project_id: String,
    pub path: String,
    pub removed: bool,
}

/// What was found where the store of a project should be: whether there is a file,
/// the components of its resolved path and of that of the directory of the stores of
/// projects, and whether it is a regular file.
#[derive(Debug)]
pub struct PurgeFacts {
    pub is_file: bool,
    pub resolved: Vec<String>,
    pub projects: Vec<String>,
    pub is_regular: bool,
}

/// Tells whether a path begins with the components of another.
pub fn is_beneath(path: &Vec<String>, directory: &Vec<String>) -> (r: bool)
    ensures
        r == model::views(directory@).is_prefix_of(model::views(path@)),
{
    let ghost d = model::views(directory@);
    let ghost p = model::views(path@);
    let mut i: usize = 0;
    while i < directory.len()
        invariant
            i <= directory@.len(),
            i <= path@.len(),
            d == model::views(directory@),
            p == model::views(path@),
            forall|k: int| 0 <= k < i ==> d[k] == p[k],
        decreases directory@.len() - i,
    {
        if i >= path.len() {
            assert(d.len() > p.len());
            return false;
        }
        if !same(directory[i].as_str(), path[i].as_str()) {
            assert(d[i as int] != p[i as int]);
            return false;
        }
        i = i + 1;
    }
    assert(d =~= p.subrange(0, d.len() as int));
    true
}

/// Why a purge is refused.
pub open spec fn purge_refusal(path: Seq<char>, facts: PurgeFacts) -> Option<Seq<char>> {
    if !facts.is_file {
        None
    } else if !model::views(facts.projects@).is_prefix_of(model::views(facts.resolved@)) {
        Some(
            "refusing to purge "@ + path
                + ": resolved path escapes the managed projects directory"@,
        )
    } else if !facts.is_regular {
        Some("refusing to purge "@ + path + ": not a regular file"@)
    } else {
        None
    }
}

/// Where the store of a project lies below the root of a layout.
pub open spec fn store_at(root: Seq<char>, project: Option<Seq<char>>) -> Seq<char> {
    layout::below(
        layout::below(root, layout::LAYOUT_VERSION_DIR@),
        layout::relative_path(project),
    )
}

/// Holds when a report, or the refusal in its place, is that of purging a project.
pub open spec fn purges(
    root: Seq<char>,
    project: Seq<char>,
    facts: PurgeFacts,
    r: Result<PurgeReport, Error>,
) -> bool {
    match layout::project_refusal(project) {
        Some(message) => r is Err && r->Err_0@ == message,
        None => {
            let path = store_at(root, Some(project));
            match purge_refusal(path, facts) {
                Some(message) => r is Err && r->Err_0@ == message,
                None => r is Ok && r->Ok_0.project_id@ == project && r->Ok_0.path@ == path
                    && r->Ok_0.removed == facts.is_file,
            }
        },
    }
}

/// Decides whether the store of a project is removed, from what was found at its
/// path: only a regular file beneath the directory of the stores of projects is.
pub fn purge_project_db(layout: &ManagedLayout, project_id: &str, facts: &PurgeFacts) -> (r: Result<
    PurgeReport,
    Error,
>)
    ensures
        purges(layout.root@, project_id@, *facts, r),
{
    let db: ProjectDb = layout.project_db(project_id)?;
    if !facts.is_file {
        return Ok(PurgeReport { project_id: db.project_id, path: db.path, removed: false });
    }
    if !is_beneath(&facts.resolved, &facts.projects) {
        return Err(
            Error::of3(
                "refusing to purge ",
                db.path.as_str(),
                ": resolved path escapes the managed projects directory",
            ),
        );
    }
    if !facts.is_regular {
        return Err(Error::of3("refusing to purge ", db.path.as_str(), ": not a regular file"));
    }
    Ok(PurgeReport { project_id: db.project_id, path: db.path, removed: true })
}

/// The files of a store: the database, then the two that SQLite keeps beside it.
pub open spec fn files_of(path: Seq<char>) -> Seq<Seq<char>> {
    seq![path, path + "-wal"@, path + "-shm"@]
}

/// The files that a purge removes, as far as they are there.
pub fn purged_files(report: &PurgeReport) -> (r: Vec<String>)
    ensures
        model::views(r@) == (if report.removed {
            files_of(report.path@)
        } else {
            Seq::empty()
        }),
{
    let mut files: Vec<String> = Vec::new();
    if report.removed {
        files.push(report.path.clone());
        files.push(text::concat2(report.path.as_str(), "-wal"));
        files.push(text::concat2(report.path.as_str(), "-shm"));
        assert(model::views(files@) =~= files_of(report.path@));
    } else {
        assert(model::views(files@) =~= Seq::<Seq<char>>::empty());
    }
    files
}

/// A purge that is not refused reports that it removed the store exactly when its file
/// was there; once it is removed, purging the project again removes nothing and is no
/// error.
pub proof fn law_purge_removes_once(
    root: Seq<char>,
    project: Seq<char>,
    facts: PurgeFacts,
    r: Result<PurgeReport, Error>,
    facts_again: PurgeFacts,
    again: Result<PurgeReport, Error>,
)
    requires
        purges(root, project, facts, r),
        r is Ok,
        facts_again.is_file == (facts.is_file && !r->Ok_0.removed),
        purges(root, project, facts_again, again),
    ensures
        r->Ok_0.removed == facts.is_file,
        again is Ok,
        !again->Ok_0.removed,
        again->Ok_0.path@ == r->Ok_0.path@,
{
}

/// Purging a project reaches the files of no other project and none of the user store.
pub proof fn law_purge_stays_within_the_project(
    root: Seq<char>,
    project: Seq<char>,
    other: Option<Seq<char>>,
    i: int,
    j: int,
)
    requires
        other != Some(project),
        0 <= i < 3,
        0 <= j < 3,
    ensures
        files_of(store_at(root, Some(project)))[i] != files_of(store_at(root, other))[j],
{
    reveal_strlit("/");
    reveal_strlit("projects/");
    reveal_strlit("/mem.db");
    reveal_strlit("user.db");
    let a = files_of(store_at(root, Some(project)))[i];
    let b = files_of(store_at(root, other))[j];
    let dir = layout::below(root, layout::LAYOUT_VERSION_DIR@);
    let n = dir.len() as int + 1;
    if a == b {
        assert(a[n] == 'p');
        match other {
            None => {
                assert(b[n] == 'u');
            },
            Some(other) => {
                let x = layout::encoded(project);
                let y = layout::encoded(other);
                let m = n + 9;
                layout::law_encoded_names_are_contained(project);
                layout::law_encoded_names_are_contained(other);
                assert forall|k: int| 0 <= k < x.len() implies a[m + k] == #[trigger] x[k] by {}
                assert forall|k: int| 0 <= k < y.len() implies b[m + k] == #[trigger] y[k] by {}
                assert(a[m + x.len()] == '/');
                assert(b[m + y.len()] == '/');
                if x.len() < y.len() {
                    assert(y[x.len() as int] == '/');
                }
                if y.len() < x.len() {
                    assert(x[y.len() as int] == '/');
                }
                assert forall|k: int| 0 <= k < x.len() implies #[trigger] x[k] == y[k] by {}
                assert(x =~= y);
                layout::law_projects_have_distinct_names(project, other);
            },
        }
    }
}

/// Checks that a layout that is there has its user store.
pub fn check_user_store(layout: &ManagedLayout, is_file: bool) -> (r: Result<(), Error>)
    ensures
        error::refusal(r) == (if is_file {
            None
        } else {
            Some("active layout has no user store at "@ + store_at(layout.root@, None))
        }),
{
    if !is_file {
        let path: String = layout.user_db();
        return Err(Error::of2("active layout has no user store at ", path.as_str()));
    }
    Ok(())
}

} // verus!
