//! What searching, exporting and recalling memories is for.

use crate::laws::memory::one_each;
use crate::laws::text::{
    all_space, law_keys_are_ordered_part_by_part, law_only_blank_queries_have_no_words,
};
use crate::memory;
use crate::memory::MemoryView;
use crate::model;
use crate::order;
use crate::search;
use crate::search::{HitView, MatchView};
use crate::store::StoreView;
use vstd::prelude::*;

verus! {

/// Holds when one hit may stand in front of another: by rank, and at the same rank the
/// latest change first.
pub open spec fn no_later(a: HitView, b: HitView) -> bool {
    a.rank < b.rank || (a.rank == b.rank && a.memory.updated_at >= b.memory.updated_at)
}

proof fn lemma_by_rank(a: HitView, b: HitView)
    ensures
        order::key_le(search::by_rank()(a), search::by_rank()(b)) == no_later(a, b),
{
    law_keys_are_ordered_part_by_part(search::by_rank()(a), search::by_rank()(b));
    law_keys_are_ordered_part_by_part(search::by_rank()(b), search::by_rank()(a));
}

/// The hit of a match is the active memory with its identifier, under its rank.
proof fn lemma_hit(memories: Seq<MemoryView>, m: MatchView, i: int)
    requires
        0 <= i < memories.len(),
        one_each(memories),
        memories[i].id == m.id,
        memories[i].status == "active"@,
    ensures
        search::hit_of(memories)(m) == Some(HitView { memory: memories[i], rank: m.rank }),
{
    let p = memory::active_with(m.id);
    assert forall|k: int| 0 <= k < i implies !p(#[trigger] memories[k]) by {
        assert(memories[k].id != memories[i].id);
    }
    model::lemma_first_row_at(memories, p, i);
}

/// Every match of an active memory is found, whatever its kind, its text or its source: it
/// is among the hits with the rank of the match, or there are as many hits as the limit
/// allows and each of them may stand in front of it.
pub proof fn law_every_active_match_is_found(
    s: StoreView,
    matches: Seq<MatchView>,
    limit: int,
    hits: Seq<HitView>,
    k: int,
    i: int,
)
    requires
        one_each(s.memories),
        limit >= 0,
        model::ranked(
            hits,
            model::joined(matches, search::hit_of(s.memories)),
            search::by_rank(),
            limit,
        ),
        0 <= k < matches.len(),
        0 <= i < s.memories.len(),
        s.memories[i].id == matches[k].id,
        s.memories[i].status == "active"@,
    ensures
        ({
            let h = HitView { memory: s.memories[i], rank: matches[k].rank };
            ||| hits.contains(h)
            ||| hits.len() == limit && forall|j: int|
                0 <= j < hits.len() ==> no_later(#[trigger] hits[j], h)
        }),
{
    let g = search::hit_of(s.memories);
    let h = HitView { memory: s.memories[i], rank: matches[k].rank };
    let source = model::joined(matches, g);
    lemma_hit(s.memories, matches[k], i);
    model::law_ranked_rows(hits, source, search::by_rank(), limit);
    assert(model::gives(g)(matches[k]));
    model::lemma_filter_contains(matches, model::gives(g));
    let kept = matches.filter(model::gives(g));
    assert(kept.contains(matches[k]));
    let at = choose|at: int| 0 <= at < kept.len() && kept[at] == matches[k];
    assert(source[at] == h);
    if !hits.contains(h) {
        if limit >= source.len() {
            model::lemma_ranked_all(hits, source, search::by_rank(), limit, at);
        }
        assert forall|j: int| 0 <= j < hits.len() implies no_later(#[trigger] hits[j], h) by {
            assert(hits.contains(source[at]) || order::key_le(
                search::by_rank()(hits[j]),
                search::by_rank()(source[at]),
            ));
            lemma_by_rank(hits[j], h);
        }
    }
}

/// What is found is an active memory of the store, as it is stored, for a match with its
/// identifier and under the rank of that match; the hits are in order, and no more than the
/// limit allows.
pub proof fn law_hits_come_from_matches(
    s: StoreView,
    matches: Seq<MatchView>,
    limit: int,
    hits: Seq<HitView>,
)
    requires
        limit >= 0,
        model::ranked(
            hits,
            model::joined(matches, search::hit_of(s.memories)),
            search::by_rank(),
            limit,
        ),
    ensures
        hits.len() <= limit,
        hits.len() <= matches.len(),
        forall|i: int|
            0 <= i < hits.len() ==> {
                &&& s.memories.contains((#[trigger] hits[i]).memory)
                &&& hits[i].memory.status == "active"@
                &&& matches.contains(MatchView { id: hits[i].memory.id, rank: hits[i].rank })
            },
        forall|i: int, j: int|
            0 <= i < j < hits.len() ==> no_later(#[trigger] hits[i], #[trigger] hits[j]),
{
    let g = search::hit_of(s.memories);
    let source = model::joined(matches, g);
    let kept = matches.filter(model::gives(g));
    model::law_ranked_rows(hits, source, search::by_rank(), limit);
    model::lemma_filter_contains(matches, model::gives(g));
    assert forall|i: int| 0 <= i < hits.len() implies {
        &&& s.memories.contains((#[trigger] hits[i]).memory)
        &&& hits[i].memory.status == "active"@
        &&& matches.contains(MatchView { id: hits[i].memory.id, rank: hits[i].rank })
    } by {
        let k = choose|k: int| 0 <= k < source.len() && source[k] == hits[i];
        let m = kept[k];
        assert(model::gives(g)(m));
        model::lemma_first_row(s.memories, memory::active_with(m.id));
        assert(m == (MatchView { id: hits[i].memory.id, rank: hits[i].rank }));
        assert(matches.contains(m));
    }
    assert forall|i: int, j: int| 0 <= i < j < hits.len() implies no_later(
        #[trigger] hits[i],
        #[trigger] hits[j],
    ) by {
        lemma_by_rank(hits[i], hits[j]);
    }
}

/// A search is refused only without words or for a limit that is no positive number the
/// database can hold.
pub proof fn law_searches_need_words_and_a_limit(query: Seq<char>, limit: int)
    requires
        limit >= 0,
    ensures
        search::search_refusal(query, limit) is None <==> !all_space(query) && 0 < limit
            <= i64::MAX,
        all_space(query) ==> search::search_refusal(query, limit) == Some(
            "query cannot be empty"@,
        ),
        !all_space(query) && limit == 0 ==> search::search_refusal(query, limit) == Some(
            "search limit must be greater than zero"@,
        ),
{
    law_only_blank_queries_have_no_words(query);
}

/// An export holds every active memory, and the superseded ones where they are asked for,
/// each as it is stored and as often, and no other: the earliest first, and those of one
/// time by identifier.
pub proof fn law_exports_hold_each_record_once(
    s: StoreView,
    include_superseded: bool,
    records: Seq<MemoryView>,
)
    requires
        one_each(s.memories),
        model::ranked(
            records,
            s.memories.filter(search::exported(include_superseded)),
            search::by_creation(),
            s.memories.filter(search::exported(include_superseded)).len() as int,
        ),
    ensures
        forall|m: MemoryView| #[trigger]
            records.contains(m) <==> s.memories.contains(m) && (m.status == "active"@ || (
            include_superseded && m.status == "superseded"@)),
        one_each(records),
        forall|i: int, j: int|
            0 <= i < j < records.len() ==> {
                ||| (#[trigger] records[i]).created_at < (#[trigger] records[j]).created_at
                ||| records[i].created_at == records[j].created_at && order::text_le(
                    records[i].id,
                    records[j].id,
                )
            },
{
    let p = search::exported(include_superseded);
    let rows = s.memories.filter(p);
    let key = search::by_creation();
    let id = |m: MemoryView| m.id;
    model::law_ranked_rows(records, rows, key, rows.len() as int);
    model::lemma_filter_contains(s.memories, p);
    assert(model::distinct(s.memories, id));
    model::lemma_distinct_filter(s.memories, p, id);
    model::lemma_ranked_distinct(records, rows, key, rows.len() as int, id);
    assert forall|i: int, j: int| 0 <= i < j < records.len() implies (#[trigger] records[i]).id
        != (#[trigger] records[j]).id by {
        assert(id(records[i]) != id(records[j]));
    }
    assert forall|m: MemoryView| #[trigger] records.contains(m) implies s.memories.contains(m) && (
    m.status == "active"@ || (include_superseded && m.status == "superseded"@)) by {
        let i = choose|i: int| 0 <= i < records.len() && records[i] == m;
        assert(rows.contains(records[i]));
        let k = choose|k: int| 0 <= k < rows.len() && rows[k] == m;
        assert(p(rows[k]));
    }
    assert forall|m: MemoryView|
        s.memories.contains(m) && (m.status == "active"@ || (include_superseded && m.status
            == "superseded"@)) implies #[trigger] records.contains(m) by {
        let i = choose|i: int| 0 <= i < s.memories.len() && s.memories[i] == m;
        assert(p(s.memories[i]));
        assert(rows.contains(m));
        let k = choose|k: int| 0 <= k < rows.len() && rows[k] == m;
        model::lemma_ranked_all(records, rows, key, rows.len() as int, k);
    }
    assert forall|i: int, j: int| 0 <= i < j < records.len() implies {
        ||| (#[trigger] records[i]).created_at < (#[trigger] records[j]).created_at
        ||| records[i].created_at == records[j].created_at && order::text_le(
            records[i].id,
            records[j].id,
        )
    } by {
        law_keys_are_ordered_part_by_part(key(records[i]), key(records[j]));
        law_keys_are_ordered_part_by_part(key(records[j]), key(records[i]));
    }
}

} // verus!
