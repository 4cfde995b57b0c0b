//! Lexical search: which of the matches that the full-text index reports are
//! returned, and in what order.

use crate::clock;
use crate::clock::to_i64;
use crate::error::Error;
use crate::memory;
use crate::memory::{Memory, MemoryView, NewCorrectionView};
use crate::model;
use crate::model::{join, pick, select, top_by, Row};
use crate::order::{Key, KeyView};
use crate::query;
use crate::query::fts_query;
use crate::store;
use crate::store::{Store, StoreView};
use crate::text::same;
use vstd::prelude::*;
use vstd::string::*;

verus! {

/// A match of the full-text index: the row that matches, and its rank as a place
/// in the total order of floating-point numbers, the best rank first.
#[derive(Debug)]
pub struct Match {
    pub id: String,
    pub rank: i64,
}

/// Model of a match.
#[verifier::ext_equal]
pub struct MatchView {
    pub id: Seq<char>,
    pub rank: int,
}

/// A memory that a search found.
#[derive(Debug)]
pub struct SearchHit {
    pub memory: Memory,
    pub rank: i64,
}

/// Model of a found memory.
#[verifier::ext_equal]
pub struct HitView {
    pub memory: MemoryView,
    pub rank: int,
}

impl View for Match {
    type V = MatchView;

    open spec fn view(&self) -> MatchView {
        MatchView { id: self.id@, rank: self.rank as int }
    }
}

impl View for SearchHit {
    type V = HitView;

    open spec fn view(&self) -> HitView {
        HitView { memory: self.memory@, rank: self.rank as int }
    }
}

impl Row for Match {
    fn duplicate(&self) -> (r: Match) {
        Match { id: self.id.clone(), rank: self.rank }
    }
}

impl Row for SearchHit {
    fn duplicate(&self) -> (r: SearchHit) {
        SearchHit { memory: self.memory.duplicate(), rank: self.rank }
    }
}

impl Clone for SearchHit {
    fn clone(&self) -> (r: SearchHit)
        ensures
            r@ == self@,
    {
        self.duplicate()
    }
}

/// The active memory that a match is about.
pub open spec fn hit_of(memories: Seq<MemoryView>) -> spec_fn(MatchView) -> Option<HitView> {
    |m: MatchView|
        match model::first_row(memories, memory::active_with(m.id)) {
            Some(found) => Some(HitView { memory: found, rank: m.rank }),
            None => None,
        }
}

/// The order of found memories: by rank, then the latest change first.
pub open spec fn by_rank() -> spec_fn(HitView) -> KeyView {
    |h: HitView|
        KeyView { first: h.rank, second: -h.memory.updated_at, third: 0, text: Seq::empty() }
}

/// Why a search is refused.
pub open spec fn search_refusal(query: Seq<char>, limit: int) -> Option<Seq<char>> {
    if query::words(query).len() == 0 {
        Some("query cannot be empty"@)
    } else if limit == 0 {
        Some("search limit must be greater than zero"@)
    } else if limit > i64::MAX {
        Some(clock::out_of_range())
    } else {
        None
    }
}

impl Store {
    /// The active memory with an identifier.
    fn active_memory(&self, id: &str) -> (r: Option<Memory>)
        ensures
            model::row_of(r) == model::first_row(self@.memories, memory::active_with(id@)),
    {
        let test = |m: &Memory| -> (r: bool)
            ensures
                r == memory::active_with(id@)(m@),
            { memory::is_active_with(m, id) };
        pick(&self.memories, test, Ghost(memory::active_with(id@)))
    }

    /// The active memories among the matches of the full-text index for a query,
    /// the best first.
    pub fn search(&self, query: &str, limit: usize, matches: &Vec<Match>) -> (r: Result<
        Vec<SearchHit>,
        Error,
    >)
        ensures
            match search_refusal(query@, limit as int) {
                Some(message) => r matches Err(e) && e@ == message,
                None => r matches Ok(hits) && model::ranked(
                    model::views(hits@),
                    model::joined(model::views(matches@), hit_of(self@.memories)),
                    by_rank(),
                    limit as int,
                ),
            },
    {
        fts_query(query)?;
        if limit == 0 {
            return Err(Error::new("search limit must be greater than zero"));
        }
        to_i64(limit as u128)?;
        let hit = |m: &Match| -> (r: Option<SearchHit>)
            ensures
                model::row_of(r) == hit_of(self@.memories)(m@),
            {
                match self.active_memory(m.id.as_str()) {
                    Some(memory) => Some(SearchHit { memory, rank: m.rank }),
                    None => None,
                }
            };
        let hits: Vec<SearchHit> = join(matches, hit, Ghost(hit_of(self@.memories)));
        let key_of = |h: &SearchHit| -> (r: Key)
            ensures
                r@ == by_rank()(h@),
            {
                let key: Key = Key {
                    first: h.rank as i128,
                    second: -(h.memory.updated_at as i128),
                    third: 0,
                    text: String::new(),
                };
                assert(key.text@ =~= Seq::<char>::empty());
                key
            };
        Ok(top_by(&hits, key_of, Ghost(by_rank()), limit))
    }
}

/// Selects the memories that are exported: the active ones, and on request those that
/// were superseded. Deleted memories never are.
pub open spec fn exported(include_superseded: bool) -> spec_fn(MemoryView) -> bool {
    |m: MemoryView| m.status == "active"@ || (include_superseded && m.status == "superseded"@)
}

/// The order of exported memories: by when they were created, then by identifier.
pub open spec fn by_creation() -> spec_fn(MemoryView) -> KeyView {
    |m: MemoryView| KeyView { first: m.created_at, second: 0, third: 0, text: m.id }
}

impl Store {
    /// All exported memories, in the order in which they were created.
    pub fn export(&self, include_superseded: bool) -> (r: Vec<Memory>)
        ensures
            model::ranked(
                model::views(r@),
                self@.memories.filter(exported(include_superseded)),
                by_creation(),
                self@.memories.filter(exported(include_superseded)).len() as int,
            ),
    {
        let test = |m: &Memory| -> (r: bool)
            ensures
                r == exported(include_superseded)(m@),
            {
                same(m.status.as_str(), "active") || (include_superseded && same(
                    m.status.as_str(),
                    "superseded",
                ))
            };
        let rows: Vec<Memory> = select(&self.memories, test, Ghost(exported(include_superseded)));
        let key_of = |m: &Memory| -> (r: Key)
            ensures
                r@ == by_creation()(m@),
            { Key { first: m.created_at as i128, second: 0, third: 0, text: m.id.clone() } };
        assert(model::views(rows@).len() == rows@.len());
        top_by(&rows, key_of, Ghost(by_creation()), rows.len())
    }
}

/// Deleted memories are never exported, and superseded ones only on request; every other
/// memory is.
pub proof fn law_deleted_memories_are_never_exported(
    s: StoreView,
    include_superseded: bool,
    records: Seq<MemoryView>,
)
    requires
        model::ranked(
            records,
            s.memories.filter(exported(include_superseded)),
            by_creation(),
            s.memories.filter(exported(include_superseded)).len() as int,
        ),
    ensures
        forall|i: int|
            0 <= i < records.len() ==> (#[trigger] records[i]).status != "deleted"@ && (
            records[i].status == "superseded"@ ==> include_superseded),
        forall|k: int|
            0 <= k < s.memories.len() && (#[trigger] s.memories[k]).status == "active"@
                ==> records.contains(s.memories[k]),
        include_superseded ==> forall|k: int|
            0 <= k < s.memories.len() && (#[trigger] s.memories[k]).status == "superseded"@
                ==> records.contains(s.memories[k]),
{
    let p = exported(include_superseded);
    let rows = s.memories.filter(p);
    memory::lemma_statuses();
    model::lemma_filter_contains(s.memories, p);
    model::law_ranked_rows(records, rows, by_creation(), rows.len() as int);
    assert forall|i: int| 0 <= i < records.len() implies p(#[trigger] records[i]) by {
        let k = choose|k: int| 0 <= k < rows.len() && rows[k] == records[i];
        assert(p(rows[k]));
    }
    assert forall|k: int| 0 <= k < s.memories.len() && p(#[trigger] s.memories[k]) implies
        records.contains(s.memories[k]) by {
        assert(rows.contains(s.memories[k]));
        let j = choose|j: int| 0 <= j < rows.len() && rows[j] == s.memories[k];
        model::lemma_ranked_all(records, rows, by_creation(), rows.len() as int, j);
    }
}

/// Exporting the same memories twice gives the same records.
pub proof fn law_exports_are_stable(
    s: StoreView,
    include_superseded: bool,
    first: Seq<MemoryView>,
    second: Seq<MemoryView>,
)
    requires
        s.wf(),
        model::ranked(
            first,
            s.memories.filter(exported(include_superseded)),
            by_creation(),
            s.memories.filter(exported(include_superseded)).len() as int,
        ),
        model::ranked(
            second,
            s.memories.filter(exported(include_superseded)),
            by_creation(),
            s.memories.filter(exported(include_superseded)).len() as int,
        ),
    ensures
        first == second,
{
    let rows = s.memories.filter(exported(include_superseded));
    model::lemma_distinct_filter(s.memories, exported(include_superseded), memory::id_key());
    assert(model::distinct(rows, by_creation())) by {
        assert forall|i: int, j: int| 0 <= i < j < rows.len() implies by_creation()(
            #[trigger] rows[i],
        ) != by_creation()(#[trigger] rows[j]) by {
            assert(memory::id_key()(rows[i]) != memory::id_key()(rows[j]));
        }
    }
    model::law_ranked_result_is_unique(first, second, rows, by_creation(), rows.len() as int);
}

/// Every found memory is an active memory of the store.
pub proof fn law_search_finds_only_active_memories(
    s: StoreView,
    hits: Seq<HitView>,
    matches: Seq<MatchView>,
    limit: int,
)
    requires
        limit >= 0,
        model::ranked(hits, model::joined(matches, hit_of(s.memories)), by_rank(), limit),
    ensures
        forall|i: int|
            0 <= i < hits.len() ==> (#[trigger] hits[i]).memory.status == "active"@
                && s.memories.contains(hits[i].memory),
{
    let g = hit_of(s.memories);
    let source = model::joined(matches, g);
    model::law_ranked_rows(hits, source, by_rank(), limit);
    model::lemma_filter_contains(matches, model::gives(g));
    assert forall|i: int| 0 <= i < hits.len() implies (#[trigger] hits[i]).memory.status
        == "active"@ && s.memories.contains(hits[i].memory) by {
        let k = choose|k: int| 0 <= k < source.len() && source[k] == hits[i];
        let m = matches.filter(model::gives(g))[k];
        assert(model::gives(g)(m));
        model::lemma_first_row(s.memories, memory::active_with(m.id));
    }
}

proof fn lemma_retired_memories_are_not_found(
    s: StoreView,
    id: Seq<char>,
    g: spec_fn(MemoryView) -> MemoryView,
    hits: Seq<HitView>,
    matches: Seq<MatchView>,
    limit: int,
)
    requires
        limit >= 0,
        forall|m: MemoryView| (#[trigger] g(m)).id == m.id,
        forall|m: MemoryView| memory::active_with(id)(m) ==> (#[trigger] g(m)).status != "active"@,
        forall|m: MemoryView| !memory::active_with(id)(m) ==> #[trigger] g(m) == m,
        model::ranked(
            hits,
            model::joined(matches, hit_of(s.memories.map_values(g))),
            by_rank(),
            limit,
        ),
    ensures
        forall|i: int| 0 <= i < hits.len() ==> (#[trigger] hits[i]).memory.id != id,
{
    let t = StoreView { memories: s.memories.map_values(g), ..s };
    law_search_finds_only_active_memories(t, hits, matches, limit);
    assert forall|i: int| 0 <= i < hits.len() implies (#[trigger] hits[i]).memory.id != id by {
        let k = choose|k: int| 0 <= k < t.memories.len() && t.memories[k] == hits[i].memory;
        assert(t.memories[k] == g(s.memories[k]));
        if hits[i].memory.id == id {
            assert(s.memories[k].id == id);
            if memory::active_with(id)(s.memories[k]) {
                assert(g(s.memories[k]).status != "active"@);
            } else {
                assert(g(s.memories[k]) == s.memories[k]);
            }
        }
    }
}

/// A forgotten memory is found by no search.
pub proof fn law_forgotten_memory_is_not_found(
    s: StoreView,
    id: Seq<char>,
    now: int,
    hits: Seq<HitView>,
    matches: Seq<MatchView>,
    limit: int,
)
    requires
        limit >= 0,
        model::ranked(
            hits,
            model::joined(matches, hit_of(store::forgotten(s, id, now).memories)),
            by_rank(),
            limit,
        ),
    ensures
        forall|i: int| 0 <= i < hits.len() ==> (#[trigger] hits[i]).memory.id != id,
{
    memory::lemma_statuses();
    lemma_retired_memories_are_not_found(s, id, memory::delete(id, now), hits, matches, limit);
}

/// A corrected memory is found by no search: only its replacement can be.
pub proof fn law_corrected_memory_is_not_found(
    s: StoreView,
    previous: MemoryView,
    input: NewCorrectionView,
    id: Seq<char>,
    now: int,
    hits: Seq<HitView>,
    matches: Seq<MatchView>,
    limit: int,
)
    requires
        limit >= 0,
        model::ranked(
            hits,
            model::joined(
                matches,
                hit_of(store::corrected(s, previous, input, id, now).memories),
            ),
            by_rank(),
            limit,
        ),
    ensures
        forall|i: int| 0 <= i < hits.len() ==> (#[trigger] hits[i]).memory.id != previous.id,
{
    memory::lemma_statuses();
    lemma_retired_memories_are_not_found(
        store::inserted(s, store::replacement_input(previous, input), id, now),
        previous.id,
        memory::supersede(previous.id, id, now),
        hits,
        matches,
        limit,
    );
}

} // verus!
