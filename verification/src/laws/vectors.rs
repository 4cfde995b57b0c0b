//! What making, storing and comparing vectors is for.

use crate::clock;
use crate::embedding;
use crate::embedding::{EmbeddingView, SourceView};
use crate::embedding_worker;
use crate::embedding_worker::{CacheChoice, EmbeddingRunStats, EMBEDDING_MODEL_ID};
use crate::error::Error;
use crate::laws::memory::one_each;
use crate::laws::text::{
    all_space, law_blank_texts_are_white_space, law_keys_are_ordered_part_by_part,
};
use crate::memory::MemoryView;
use crate::model;
use crate::order;
use crate::store::StoreView;
use crate::text;
use crate::vector;
use crate::vector_search;
use crate::vector_search::{CandidateView, SemanticView};
use vstd::prelude::*;

verus! {

/// Every component of a vector is stored, in turn, as the four bytes of its bits, the lowest
/// first; and what is stored reads back whole.
pub proof fn law_vectors_are_stored_whole(v: Seq<u32>)
    ensures
        vector::encoded(v).len() == 4 * v.len(),
        forall|i: int|
            0 <= i < v.len() ==> #[trigger] v[i] == vector::encoded(v)[4 * i] + 0x100
                * vector::encoded(v)[4 * i + 1] + 0x1_0000 * vector::encoded(v)[4 * i + 2]
                + 0x100_0000 * vector::encoded(v)[4 * i + 3],
        vector::decoded(vector::encoded(v)).len() == v.len(),
        forall|i: int|
            0 <= i < v.len() ==> vector::decoded(vector::encoded(v))[i] == #[trigger] v[i],
{
    let b = vector::encoded(v);
    assert forall|i: int| 0 <= i < v.len() implies #[trigger] v[i] == b[4 * i] + 0x100 * b[4 * i
        + 1] + 0x1_0000 * b[4 * i + 2] + 0x100_0000 * b[4 * i + 3] && vector::decoded(b)[i]
        == v[i] by {
        lemma_bytes(v[i]);
        assert((4 * i) / 4 == i && (4 * i) % 4 == 0);
        assert((4 * i + 1) / 4 == i && (4 * i + 1) % 4 == 1);
        assert((4 * i + 2) / 4 == i && (4 * i + 2) % 4 == 2);
        assert((4 * i + 3) / 4 == i && (4 * i + 3) % 4 == 3);
    }
}

proof fn lemma_bytes(n: u32)
    ensures
        n == vector::byte_of(n, 0) + 0x100 * vector::byte_of(n, 1) + 0x1_0000 * vector::byte_of(
            n,
            2,
        ) + 0x100_0000 * vector::byte_of(n, 3),
{
    assert(n == n % 256 + 0x100 * (n / 0x100 % 256) + 0x1_0000 * (n / 0x1_0000 % 256)
        + 0x100_0000 * (n / 0x100_0000)) by (bit_vector);
    assert(n % 256 < 256 && n / 0x100 % 256 < 256 && n / 0x1_0000 % 256 < 256 && n / 0x100_0000
        < 256) by (bit_vector);
}

/// A component is finite exactly when the bits of its exponent are not all set.
pub proof fn law_infinite_components_have_a_full_exponent(bits: u32)
    ensures
        vector::finite(bits) <==> bits & 0x7f80_0000 != 0x7f80_0000,
{
    assert((bits / 0x80_0000) % 256 != 255 <==> bits & 0x7f80_0000 != 0x7f80_0000) by (bit_vector);
}

/// A vector is accepted exactly when it has components, not too many of them, and all of
/// them are finite.
pub proof fn law_usable_vectors_are_accepted(v: Seq<u32>, name: Seq<char>)
    ensures
        vector::vector_refusal(v, name) is None <==> {
            &&& 0 < v.len() <= 65536
            &&& forall|i: int| 0 <= i < v.len() ==> (#[trigger] v[i]) & 0x7f80_0000 != 0x7f80_0000
        },
{
    assert forall|i: int| 0 <= i < v.len() implies vector::finite(v[i]) == ((#[trigger] v[i])
        & 0x7f80_0000 != 0x7f80_0000) by {
        law_infinite_components_have_a_full_exponent(v[i]);
    }
    if vector::vector_refusal(v, name) is None {
        assert forall|i: int| 0 <= i < v.len() implies (#[trigger] v[i]) & 0x7f80_0000
            != 0x7f80_0000 by {
            assert(vector::finite(v[i]));
        }
    }
}

/// Holds of the vector of a memory in one version.
pub open spec fn is_vector_of(
    e: EmbeddingView,
    id: Seq<char>,
    model: Seq<char>,
    source_updated_at: int,
) -> bool {
    e.memory_id == id && e.model == model && e.source_updated_at == source_updated_at
}

/// A vector that was made from the current version of an active memory is stored whole, with
/// its number of components and the version and time it was made from and at. Vectors of
/// other memories or models stay, and so do all other tables.
pub proof fn law_a_current_vector_is_stored(
    s: StoreView,
    p: int,
    model: Seq<char>,
    v: Seq<u32>,
    now: int,
)
    requires
        0 <= p < s.memories.len(),
        s.memories[p].status == "active"@,
    ensures
        ({
            let m = s.memories[p];
            let t = embedding::with_vector(s, m.id, m.updated_at, model, v, now);
            &&& exists|e: EmbeddingView|
                t.embeddings.contains(e) && #[trigger] is_vector_of(e, m.id, model, m.updated_at)
                    && e.dimensions == v.len() && vector::decoded(e.vector) == v && e.updated_at
                    == now
            &&& forall|e: EmbeddingView| #[trigger]
                t.embeddings.contains(e) && e.memory_id == m.id && e.model == model ==> {
                    &&& e.source_updated_at == m.updated_at
                    &&& e.dimensions == v.len()
                    &&& vector::decoded(e.vector) == v
                    &&& e.updated_at == now
                }
            &&& forall|e: EmbeddingView|
                e.memory_id != m.id || e.model != model ==> (#[trigger] t.embeddings.contains(e)
                    <==> s.embeddings.contains(e))
            &&& t.memories == s.memories
            &&& t.states == s.states
            &&& t.episodes == s.episodes
            &&& t.entries == s.entries
            &&& t.jobs == s.jobs
            &&& t.schema_version == s.schema_version
        }),
{
    let m = s.memories[p];
    let t = embedding::with_vector(s, m.id, m.updated_at, model, v, now);
    let new = embedding::row_for(m.id, m.updated_at, model, v, now);
    assert(embedding::in_version(m.id, m.updated_at)(s.memories[p]));
    law_vectors_are_stored_whole(v);
    assert(vector::decoded(new.vector) =~= v);
    let pair = embedding::of_pair(m.id, model);
    let old = s.embeddings;
    if model::any_row(old, pair) {
        let k = choose|k: int| 0 <= k < old.len() && pair(#[trigger] old[k]);
        assert(t.embeddings[k] == new);
        assert forall|e: EmbeddingView| #[trigger] t.embeddings.contains(e) && e.memory_id == m.id
            && e.model == model implies e == new by {
            let i = choose|i: int| 0 <= i < t.embeddings.len() && t.embeddings[i] == e;
            assert(t.embeddings[i] == embedding::replace_by(new)(old[i]));
        }
        assert forall|e: EmbeddingView| e.memory_id != m.id || e.model != model implies (
        #[trigger] t.embeddings.contains(e) <==> old.contains(e)) by {
            if t.embeddings.contains(e) {
                let i = choose|i: int| 0 <= i < t.embeddings.len() && t.embeddings[i] == e;
                assert(t.embeddings[i] == embedding::replace_by(new)(old[i]));
                assert(old[i] == e);
            }
            if old.contains(e) {
                let i = choose|i: int| 0 <= i < old.len() && old[i] == e;
                assert(t.embeddings[i] == e);
            }
        }
    } else {
        assert(t.embeddings[old.len() as int] == new);
        assert forall|e: EmbeddingView| #[trigger] t.embeddings.contains(e) && e.memory_id == m.id
            && e.model == model implies e == new by {
            let i = choose|i: int| 0 <= i < t.embeddings.len() && t.embeddings[i] == e;
            if i < old.len() {
                assert(pair(old[i]));
            }
        }
        assert forall|e: EmbeddingView| e.memory_id != m.id || e.model != model implies (
        #[trigger] t.embeddings.contains(e) <==> old.contains(e)) by {
            if t.embeddings.contains(e) {
                let i = choose|i: int| 0 <= i < t.embeddings.len() && t.embeddings[i] == e;
                assert(old[i] == e);
            }
            if old.contains(e) {
                let i = choose|i: int| 0 <= i < old.len() && old[i] == e;
                assert(t.embeddings[i] == e);
            }
        }
    }
    assert(t.embeddings.contains(new));
    assert(is_vector_of(new, m.id, model, m.updated_at));
}

/// A vector that was made from another version of a memory, or for one that is not active,
/// is not stored, and nothing changes.
pub proof fn law_other_vectors_change_nothing(
    s: StoreView,
    id: Seq<char>,
    source_updated_at: int,
    model: Seq<char>,
    v: Seq<u32>,
    now: int,
)
    requires
        forall|i: int|
            0 <= i < s.memories.len() ==> !((#[trigger] s.memories[i]).id == id
                && s.memories[i].status == "active"@ && s.memories[i].updated_at
                == source_updated_at),
    ensures
        embedding::with_vector(s, id, source_updated_at, model, v, now) == s,
{
}

/// Each found memory comes with a score that the comparison gives for the whole of a vector
/// stored for its current version, every component of it.
pub proof fn law_scores_are_of_whole_vectors<F: Fn(&Vec<u32>) -> i64>(
    s: StoreView,
    model: Seq<char>,
    score: F,
    scores: Seq<i64>,
    limit: int,
    hits: Seq<SemanticView>,
    i: int,
) -> (r: (EmbeddingView, Vec<u32>))
    requires
        limit >= 0,
        vector_search::is_best_by_score(
            hits,
            vector_search::scanned(s, model),
            score,
            scores,
            limit,
        ),
        0 <= i < hits.len(),
    ensures
        s.embeddings.contains(r.0),
        is_vector_of(r.0, hits[i].memory.id, model, hits[i].memory.updated_at),
        s.memories.contains(hits[i].memory),
        hits[i].memory.status == "active"@,
        r.1@ == vector::decoded(r.0.vector),
        i64::MIN <= hits[i].score <= i64::MAX,
        call_ensures(score, (&r.1,), hits[i].score as i64),
{
    let rows = vector_search::scanned(s, model);
    let source = vector_search::scored(rows, scores);
    let g = vector_search::candidate_of(s.memories, model);
    let kept = s.embeddings.filter(model::gives(g));
    model::law_ranked_rows(hits, source, vector_search::by_score(), limit);
    model::lemma_filter_contains(s.embeddings, model::gives(g));
    let k = choose|k: int| 0 <= k < source.len() && source[k] == hits[i];
    let e = kept[k];
    assert(model::gives(g)(e));
    model::lemma_first_row(s.memories, embedding::in_version(e.memory_id, e.source_updated_at));
    assert(rows[k] == g(e)->0);
    assert(vector_search::is_score_of(score, rows[k].vector, scores[k]));
    let w = choose|w: Vec<u32>|
        w@ == vector::decoded(rows[k].vector) && #[trigger] call_ensures(
            score,
            (&w,),
            scores[k],
        );
    (e, w)
}

/// The score of a memory whose vector was just stored is one that the comparison gives for
/// that very vector, with all of its components.
pub proof fn law_a_stored_vector_is_compared_whole<F: Fn(&Vec<u32>) -> i64>(
    s: StoreView,
    p: int,
    model: Seq<char>,
    v: Seq<u32>,
    now: int,
    score: F,
    scores: Seq<i64>,
    limit: int,
    hits: Seq<SemanticView>,
    i: int,
) -> (w: Vec<u32>)
    requires
        0 <= p < s.memories.len(),
        one_each(s.memories),
        s.memories[p].status == "active"@,
        limit >= 0,
        vector_search::is_best_by_score(
            hits,
            vector_search::scanned(
                embedding::with_vector(
                    s,
                    s.memories[p].id,
                    s.memories[p].updated_at,
                    model,
                    v,
                    now,
                ),
                model,
            ),
            score,
            scores,
            limit,
        ),
        0 <= i < hits.len(),
        hits[i].memory.id == s.memories[p].id,
    ensures
        w@.len() == v.len(),
        forall|k: int| 0 <= k < v.len() ==> #[trigger] w@[k] == v[k],
        i64::MIN <= hits[i].score <= i64::MAX,
        call_ensures(score, (&w,), hits[i].score as i64),
{
    let m = s.memories[p];
    let t = embedding::with_vector(s, m.id, m.updated_at, model, v, now);
    law_a_current_vector_is_stored(s, p, model, v, now);
    let r = law_scores_are_of_whole_vectors(t, model, score, scores, limit, hits, i);
    assert(t.embeddings.contains(r.0));
    assert(vector::decoded(r.0.vector) == v);
    r.1
}

/// Holds when one found memory may stand in front of another: the better score first, then
/// the latest change, then by identifier.
pub open spec fn no_worse(a: SemanticView, b: SemanticView) -> bool {
    ||| a.score > b.score
    ||| a.score == b.score && a.memory.updated_at > b.memory.updated_at
    ||| a.score == b.score && a.memory.updated_at == b.memory.updated_at && order::text_le(
        a.memory.id,
        b.memory.id,
    )
}

/// Found memories are in order: the best score first, then the latest change, then by
/// identifier; and no more than the limit allows.
pub proof fn law_found_memories_are_in_order<F: Fn(&Vec<u32>) -> i64>(
    rows: Seq<CandidateView>,
    score: F,
    scores: Seq<i64>,
    limit: int,
    hits: Seq<SemanticView>,
)
    requires
        limit >= 0,
        vector_search::is_best_by_score(hits, rows, score, scores, limit),
    ensures
        hits.len() == (if limit < rows.len() {
            limit
        } else {
            rows.len() as int
        }),
        forall|i: int, j: int|
            0 <= i < j < hits.len() ==> no_worse(#[trigger] hits[i], #[trigger] hits[j]),
        forall|k: int, i: int|
            0 <= k < rows.len() && 0 <= i < hits.len() ==> {
                let h = SemanticView {
                    memory: (#[trigger] rows[k]).memory,
                    score: scores[k] as int,
                };
                hits.contains(h) || no_worse(#[trigger] hits[i], h)
            },
{
    let key = vector_search::by_score();
    let source = vector_search::scored(rows, scores);
    model::law_ranked_rows(hits, source, key, limit);
    assert forall|a: SemanticView, b: SemanticView| order::key_le(key(a), key(b))
        == #[trigger] no_worse(a, b) by {
        law_keys_are_ordered_part_by_part(key(a), key(b));
        law_keys_are_ordered_part_by_part(key(b), key(a));
    }
    assert forall|i: int, j: int| 0 <= i < j < hits.len() implies no_worse(
        #[trigger] hits[i],
        #[trigger] hits[j],
    ) by {
        assert(order::key_le(key(hits[i]), key(hits[j])));
    }
    assert forall|k: int, i: int| 0 <= k < rows.len() && 0 <= i < hits.len() implies {
        let h = SemanticView { memory: (#[trigger] rows[k]).memory, score: scores[k] as int };
        hits.contains(h) || no_worse(#[trigger] hits[i], h)
    } by {
        let h = SemanticView { memory: rows[k].memory, score: scores[k] as int };
        assert(source[k] == h);
        assert(hits.contains(source[k]) || order::key_le(key(hits[i]), key(source[k])));
        assert(hits.contains(h) || no_worse(hits[i], h));
    }
}

/// Holds when a memory is active and has no vector of its current version.
pub open spec fn lacks_a_vector(s: StoreView, m: MemoryView, model: Seq<char>) -> bool {
    &&& m.status == "active"@
    &&& forall|k: int|
        0 <= k < s.embeddings.len() ==> !is_vector_of(
            #[trigger] s.embeddings[k],
            m.id,
            model,
            m.updated_at,
        )
}

proof fn lemma_uncovered(s: StoreView, m: MemoryView, model: Seq<char>)
    ensures
        embedding::uncovered(s.embeddings, model)(m) == lacks_a_vector(s, m, model),
        embedding::covered(s.embeddings, model)(m) == (m.status == "active"@ && !lacks_a_vector(
            s,
            m,
            model,
        )),
{
    let c = embedding::current_for(m, model);
    if model::any_row(s.embeddings, c) {
        let k = choose|k: int| 0 <= k < s.embeddings.len() && c(#[trigger] s.embeddings[k]);
        assert(is_vector_of(s.embeddings[k], m.id, model, m.updated_at));
    }
    if m.status == "active"@ && !lacks_a_vector(s, m, model) {
        let k = choose|k: int|
            0 <= k < s.embeddings.len() && is_vector_of(
                #[trigger] s.embeddings[k],
                m.id,
                model,
                m.updated_at,
            );
        assert(c(s.embeddings[k]));
    }
}

/// Holds when a waiting memory is one of the store that lacks a vector, with its identifier,
/// its whole text and its version.
pub open spec fn is_read_from(x: SourceView, s: StoreView, model: Seq<char>) -> bool {
    exists|i: int|
        0 <= i < s.memories.len() && (#[trigger] s.memories[i]).id == x.id && s.memories[i].text
            == x.text && s.memories[i].updated_at == x.updated_at && lacks_a_vector(
            s,
            s.memories[i],
            model,
        )
}

/// Exactly the active memories without a vector of their current version wait for one, each
/// with its identifier, its whole text and its version.
pub proof fn law_what_waits_lacks_a_vector(s: StoreView, model: Seq<char>)
    ensures
        forall|x: SourceView| #[trigger]
            embedding::waiting(s, model).contains(x) <==> is_read_from(x, s, model),
        embedding::waiting(s, model).len() == 0 <==> forall|i: int|
            0 <= i < s.memories.len() ==> !lacks_a_vector(s, #[trigger] s.memories[i], model),
{
    let p = embedding::uncovered(s.embeddings, model);
    let kept = s.memories.filter(p);
    let all = embedding::waiting(s, model);
    model::lemma_filter_contains(s.memories, p);
    model::lemma_first_row(s.memories, p);
    assert forall|m: MemoryView| #[trigger] p(m) == lacks_a_vector(s, m, model) by {
        lemma_uncovered(s, m, model);
    }
    assert forall|x: SourceView| #[trigger] all.contains(x) implies is_read_from(x, s, model) by {
        let k = choose|k: int| 0 <= k < all.len() && all[k] == x;
        assert(p(kept[k]));
        let i = choose|i: int| 0 <= i < s.memories.len() && s.memories[i] == kept[k];
        assert(s.memories[i].id == x.id);
    }
    assert forall|x: SourceView|
        (is_read_from(x, s, model)) implies #[trigger] all.contains(x) by {
        let i = choose|i: int|
            0 <= i < s.memories.len() && (#[trigger] s.memories[i]).id == x.id
                && s.memories[i].text == x.text && s.memories[i].updated_at == x.updated_at
                && lacks_a_vector(s, s.memories[i], model);
        assert(p(s.memories[i]));
        let k = choose|k: int| 0 <= k < kept.len() && kept[k] == s.memories[i];
        assert(all[k] == x);
    }
    if all.len() == 0 {
        assert forall|i: int| 0 <= i < s.memories.len() implies !lacks_a_vector(
            s,
            #[trigger] s.memories[i],
            model,
        ) by {
            assert(!p(s.memories[i]));
        }
    } else {
        assert(p(kept[0]));
        let i = choose|i: int| 0 <= i < s.memories.len() && s.memories[i] == kept[0];
        assert(lacks_a_vector(s, s.memories[i], model));
    }
}

/// Holds when one waiting memory may stand in front of another: the latest change first,
/// then by identifier.
pub open spec fn no_older(a: SourceView, b: SourceView) -> bool {
    a.updated_at > b.updated_at || (a.updated_at == b.updated_at && order::text_le(a.id, b.id))
}

/// What is handed out to be embedded is, for each, an active memory of the store without a
/// vector of its current version, with its identifier, its whole text and that version: the
/// latest change first, no more than the limit allows, and none left out that comes before
/// one handed out.
pub proof fn law_batches_hold_whole_texts(
    s: StoreView,
    model: Seq<char>,
    sources: Seq<SourceView>,
    limit: int,
)
    requires
        limit >= 0,
        model::ranked(sources, embedding::waiting(s, model), embedding::by_recency(), limit),
    ensures
        sources.len() <= limit,
        forall|k: int|
            0 <= k < sources.len() ==> is_read_from(#[trigger] sources[k], s, model),
        forall|k: int, l: int|
            0 <= k < l < sources.len() ==> no_older(#[trigger] sources[k], #[trigger] sources[l]),
        forall|i: int|
            0 <= i < s.memories.len() && lacks_a_vector(s, #[trigger] s.memories[i], model) ==> {
                let x = SourceView {
                    id: s.memories[i].id,
                    text: s.memories[i].text,
                    updated_at: s.memories[i].updated_at,
                };
                ||| sources.contains(x)
                ||| sources.len() == limit && forall|k: int|
                    0 <= k < sources.len() ==> no_older(#[trigger] sources[k], x)
            },
{
    let all = embedding::waiting(s, model);
    let key = embedding::by_recency();
    model::law_ranked_rows(sources, all, key, limit);
    law_what_waits_lacks_a_vector(s, model);
    assert forall|a: SourceView, b: SourceView| order::key_le(key(a), key(b))
        == #[trigger] no_older(a, b) by {
        law_keys_are_ordered_part_by_part(key(a), key(b));
        law_keys_are_ordered_part_by_part(key(b), key(a));
    }
    assert forall|k: int| 0 <= k < sources.len() implies is_read_from(
        #[trigger] sources[k],
        s,
        model,
    ) by {
        assert(all.contains(sources[k]));
    }
    assert forall|k: int, l: int| 0 <= k < l < sources.len() implies no_older(
        #[trigger] sources[k],
        #[trigger] sources[l],
    ) by {
        assert(order::key_le(key(sources[k]), key(sources[l])));
    }
    assert forall|i: int|
        0 <= i < s.memories.len() && lacks_a_vector(s, #[trigger] s.memories[i], model) implies {
        let x = SourceView {
            id: s.memories[i].id,
            text: s.memories[i].text,
            updated_at: s.memories[i].updated_at,
        };
        ||| sources.contains(x)
        ||| sources.len() == limit && forall|k: int|
            0 <= k < sources.len() ==> no_older(#[trigger] sources[k], x)
    } by {
        let x = SourceView {
            id: s.memories[i].id,
            text: s.memories[i].text,
            updated_at: s.memories[i].updated_at,
        };
        assert(all.contains(x));
        let at = choose|at: int| 0 <= at < all.len() && all[at] == x;
        if !sources.contains(x) {
            if limit >= all.len() {
                model::lemma_ranked_all(sources, all, key, limit, at);
            }
            assert forall|k: int| 0 <= k < sources.len() implies no_older(
                #[trigger] sources[k],
                x,
            ) by {
                assert(sources.contains(all[at]) || order::key_le(key(sources[k]), key(all[at])));
            }
        }
    }
}

/// What an index run embeds is, for each, an active memory of the store without a vector of
/// its current version, with its identifier, its whole text and that version.
pub proof fn law_runs_embed_whole_texts(s: StoreView, sources: Seq<SourceView>, limit: int)
    requires
        limit >= 0,
        embedding_worker::is_batch(s, sources, limit),
    ensures
        sources.len() > 0,
        sources.len() <= limit,
        forall|k: int|
            0 <= k < sources.len() ==> is_read_from(#[trigger] sources[k], s, EMBEDDING_MODEL_ID@),
{
    law_batches_hold_whole_texts(s, EMBEDDING_MODEL_ID@, sources, limit);
}

/// Holds when an active memory is still in the version that was read.
pub open spec fn is_current(x: SourceView, s: StoreView) -> bool {
    exists|i: int|
        0 <= i < s.memories.len() && (#[trigger] s.memories[i]).id == x.id && s.memories[i].status
            == "active"@ && s.memories[i].updated_at == x.updated_at
}

/// Each vector that comes in for a waiting memory is stored for it, whole, and the memories
/// stay.
proof fn lemma_committed_vectors(
    s: StoreView,
    sources: Seq<SourceView>,
    vectors: Seq<Seq<u32>>,
    times: Seq<int>,
)
    requires
        forall|k: int, l: int|
            0 <= k < l < sources.len() ==> (#[trigger] sources[k]).id != (#[trigger] sources[l]).id,
        forall|k: int|
            0 <= k < sources.len() ==> is_current(#[trigger] sources[k], s),
    ensures
        ({
            let t = embedding_worker::committed(s, sources, vectors, times);
            &&& t.memories == s.memories
            &&& t.states == s.states
            &&& t.episodes == s.episodes
            &&& t.entries == s.entries
            &&& t.jobs == s.jobs
            &&& forall|k: int|
                0 <= k < sources.len() ==> has_vector(t, #[trigger] sources[k], vectors[k])
            &&& forall|e: EmbeddingView|
                (e.model != EMBEDDING_MODEL_ID@ || forall|k: int|
                    0 <= k < sources.len() ==> (#[trigger] sources[k]).id != e.memory_id) ==> (
                #[trigger] t.embeddings.contains(e) <==> s.embeddings.contains(e))
        }),
    decreases sources.len(),
{
    if sources.len() > 0 {
        let n = sources.len() - 1;
        let front = sources.drop_last();
        assert forall|k: int, l: int| 0 <= k < l < front.len() implies (#[trigger] front[k]).id
            != (#[trigger] front[l]).id by {
            assert(front[k] == sources[k] && front[l] == sources[l]);
        }
        assert forall|k: int| 0 <= k < front.len() implies is_current(#[trigger] front[k], s) by {
            assert(front[k] == sources[k]);
        }
        lemma_committed_vectors(s, front, vectors, times);
        let middle = embedding_worker::committed(s, front, vectors, times);
        let x = sources[n];
        let i = choose|i: int|
            0 <= i < s.memories.len() && (#[trigger] s.memories[i]).id == x.id
                && s.memories[i].status == "active"@ && s.memories[i].updated_at == x.updated_at;
        law_a_current_vector_is_stored(middle, i, EMBEDDING_MODEL_ID@, vectors[n], times[n]);
        let t = embedding_worker::committed(s, sources, vectors, times);
        assert(has_vector(t, x, vectors[n]));
        assert forall|k: int| 0 <= k < sources.len() implies has_vector(
            t,
            #[trigger] sources[k],
            vectors[k],
        ) by {
            if k < n {
                assert(front[k] == sources[k]);
                let e = choose|e: EmbeddingView| #[trigger]
                    middle.embeddings.contains(e) && is_vector_of(
                        e,
                        front[k].id,
                        EMBEDDING_MODEL_ID@,
                        front[k].updated_at,
                    ) && vector::decoded(e.vector) == vectors[k] && e.dimensions
                        == vectors[k].len();
                assert(e.memory_id != x.id);
                assert(t.embeddings.contains(e));
            }
        }
        assert forall|e: EmbeddingView|
            (e.model != EMBEDDING_MODEL_ID@ || forall|k: int|
                0 <= k < sources.len() ==> (#[trigger] sources[k]).id
                    != e.memory_id) implies (#[trigger] t.embeddings.contains(e)
            <==> s.embeddings.contains(e)) by {
            if e.model == EMBEDDING_MODEL_ID@ {
                assert(sources[n].id != e.memory_id);
                assert forall|k: int| 0 <= k < front.len() implies (#[trigger] front[k]).id
                    != e.memory_id by {
                    assert(front[k] == sources[k]);
                }
            }
            assert(middle.embeddings.contains(e) <==> s.embeddings.contains(e));
        }
    }
}

/// Holds when a memory has the given vector, made from the given version.
pub open spec fn has_vector(t: StoreView, x: SourceView, v: Seq<u32>) -> bool {
    exists|e: EmbeddingView| #[trigger]
        t.embeddings.contains(e) && is_vector_of(e, x.id, EMBEDDING_MODEL_ID@, x.updated_at)
            && vector::decoded(e.vector) == v && e.dimensions == v.len()
}

proof fn lemma_sources_differ(before: StoreView, sources: Seq<SourceView>, limit: int)
    requires
        one_each(before.memories),
        limit >= 0,
        embedding_worker::is_batch(before, sources, limit),
    ensures
        forall|k: int, l: int|
            0 <= k < l < sources.len() ==> (#[trigger] sources[k]).id != (#[trigger] sources[l]).id,
        forall|k: int| 0 <= k < sources.len() ==> is_current(#[trigger] sources[k], before),
{
    let all = embedding::waiting(before, EMBEDDING_MODEL_ID@);
    let p = embedding::uncovered(before.embeddings, EMBEDDING_MODEL_ID@);
    let kept = before.memories.filter(p);
    let id = |m: MemoryView| m.id;
    let key = |x: SourceView| x.id;
    law_runs_embed_whole_texts(before, sources, limit);
    assert(model::distinct(before.memories, id));
    model::lemma_distinct_filter(before.memories, p, id);
    assert(model::distinct(all, key)) by {
        assert forall|i: int, j: int| 0 <= i < j < all.len() implies key(#[trigger] all[i])
            != key(#[trigger] all[j]) by {
            assert(id(kept[i]) != id(kept[j]));
        }
    }
    model::lemma_ranked_distinct(sources, all, embedding::by_recency(), limit, key);
    assert forall|k: int, l: int| 0 <= k < l < sources.len() implies (#[trigger] sources[k]).id
        != (#[trigger] sources[l]).id by {
        assert(key(sources[k]) != key(sources[l]));
    }
    assert forall|k: int| 0 <= k < sources.len() implies is_current(
        #[trigger] sources[k],
        before,
    ) by {
        assert(is_read_from(sources[k], before, EMBEDDING_MODEL_ID@));
        let i = choose|i: int|
            0 <= i < before.memories.len() && (#[trigger] before.memories[i]).id == sources[k].id
                && before.memories[i].text == sources[k].text && before.memories[i].updated_at
                == sources[k].updated_at && lacks_a_vector(
                before,
                before.memories[i],
                EMBEDDING_MODEL_ID@,
            );
        assert(before.memories[i].updated_at == sources[k].updated_at);
    }
}

/// A run that succeeds leaves each memory that it embedded with the vector made for it,
/// whole and for the version that was embedded; every memory stays as it is.
pub proof fn law_runs_store_each_vector(
    before: StoreView,
    after: StoreView,
    cache_dir: Seq<char>,
    sources: Seq<SourceView>,
    vectors: Seq<Result<Vec<u32>, Error>>,
    limit: int,
    r: Result<EmbeddingRunStats, Error>,
)
    requires
        one_each(before.memories),
        limit >= 0,
        embedding_worker::is_batch(before, sources, limit),
        embedding_worker::is_commit(before, after, cache_dir, sources, vectors, r),
        r is Ok,
    ensures
        vectors.len() == sources.len(),
        r->Ok_0.model@ == EMBEDDING_MODEL_ID@,
        r->Ok_0.cache_dir@ == cache_dir,
        r->Ok_0.indexed + r->Ok_0.stale == sources.len(),
        r->Ok_0.remaining == embedding::waiting(after, EMBEDDING_MODEL_ID@).len(),
        forall|k: int|
            0 <= k < sources.len() ==> (#[trigger] vectors[k]) is Ok && has_vector(
                after,
                sources[k],
                vectors[k]->Ok_0@,
            ),
        after.memories == before.memories,
        after.states == before.states,
        after.episodes == before.episodes,
        after.entries == before.entries,
        after.jobs == before.jobs,
{
    lemma_sources_differ(before, sources, limit);
    let values = embedding_worker::normalized(vectors);
    let times = choose|times: Seq<int>|
        embedding_worker::clock_times(times, sources.len()) && after
            == #[trigger] embedding_worker::committed(before, sources, values, times);
    lemma_committed_vectors(before, sources, values, times);
    assert forall|k: int| 0 <= k < sources.len() implies (#[trigger] vectors[k]) is Ok
        && has_vector(after, sources[k], vectors[k]->Ok_0@) by {
        assert(embedding_worker::vector_refusal(sources[k], vectors[k]) is None);
        assert(has_vector(after, sources[k], values[k]));
    }
}

/// A memory more that has a current vector counts as indexed, one that lacks it as waiting,
/// and one that is not active as neither.
pub proof fn law_coverage_is_counted_one_by_one(s: StoreView, m: MemoryView, model: Seq<char>)
    ensures
        ({
            let t = StoreView { memories: s.memories.push(m), ..s };
            &&& embedding::waiting(t, model).len() == embedding::waiting(s, model).len() + (
            if lacks_a_vector(s, m, model) {
                1int
            } else {
                0int
            })
            &&& t.memories.filter(embedding::covered(t.embeddings, model)).len()
                == s.memories.filter(embedding::covered(s.embeddings, model)).len() + (
            if m.status == "active"@ && !lacks_a_vector(s, m, model) {
                1int
            } else {
                0int
            })
        }),
{
    lemma_uncovered(s, m, model);
    model::lemma_filter_push(s.memories, m, embedding::uncovered(s.embeddings, model));
    model::lemma_filter_push(s.memories, m, embedding::covered(s.embeddings, model));
}

/// Every vector of the model that was made from the text that an active memory has now is
/// compared, with all of its bytes, whatever the memory is.
pub proof fn law_every_current_vector_is_compared(s: StoreView, model: Seq<char>, k: int, i: int)
    requires
        0 <= k < s.embeddings.len(),
        0 <= i < s.memories.len(),
        one_each(s.memories),
        s.memories[i].status == "active"@,
        is_vector_of(s.embeddings[k], s.memories[i].id, model, s.memories[i].updated_at),
    ensures
        vector_search::scanned(s, model).contains(
            CandidateView {
                memory: s.memories[i],
                dimensions: s.embeddings[k].dimensions,
                vector: s.embeddings[k].vector,
            },
        ),
{
    let g = vector_search::candidate_of(s.memories, model);
    let e = s.embeddings[k];
    let p = embedding::in_version(e.memory_id, e.source_updated_at);
    assert forall|l: int| 0 <= l < i implies !p(#[trigger] s.memories[l]) by {
        assert(s.memories[l].id != s.memories[i].id);
    }
    model::lemma_first_row_at(s.memories, p, i);
    let kept = s.embeddings.filter(model::gives(g));
    model::lemma_filter_contains(s.embeddings, model::gives(g));
    assert(model::gives(g)(s.embeddings[k]));
    assert(kept.contains(e));
    let at = choose|at: int| 0 <= at < kept.len() && kept[at] == e;
    assert(vector_search::scanned(s, model)[at] == g(e)->0);
}

/// A semantic search is refused exactly when its limit is zero, an active memory lacks a
/// vector, the query has no vector, or a stored vector cannot be compared with it: the number
/// of its components differs, its bytes are too few or too many, or one is not finite.
pub proof fn law_comparable_vectors_are_accepted(
    s: StoreView,
    model: Seq<char>,
    limit: int,
    query: Result<int, Seq<char>>,
)
    requires
        limit >= 0,
        query is Ok ==> 0 <= query->Ok_0 && 4 * query->Ok_0 <= usize::MAX,
    ensures
        vector_search::semantic_refusal(s, model, limit, query) is None <==> {
            &&& !all_space(model)
            &&& limit > 0
            &&& forall|i: int|
                0 <= i < s.memories.len() ==> !lacks_a_vector(s, #[trigger] s.memories[i], model)
            &&& query is Ok
            &&& forall|k: int|
                0 <= k < vector_search::scanned(s, model).len() ==> is_comparable(
                    #[trigger] vector_search::scanned(s, model)[k],
                    query->Ok_0,
                )
        },
        !all_space(model) && limit == 0 ==> vector_search::semantic_refusal(s, model, limit, query)
            == Some("semantic search limit must be greater than zero"@),
{
    law_what_waits_lacks_a_vector(s, model);
    law_blank_texts_are_white_space(model);
    if query is Ok {
        let rows = vector_search::scanned(s, model);
        let p = vector_search::refused(query->Ok_0);
        model::lemma_first_row(rows, p);
        assert forall|k: int| 0 <= k < rows.len() implies p(#[trigger] rows[k]) == !is_comparable(
            rows[k],
            query->Ok_0,
        ) by {
            lemma_comparable(rows[k], query->Ok_0);
        }
        if forall|k: int| 0 <= k < rows.len() ==> is_comparable(#[trigger] rows[k], query->Ok_0) {
            assert(!model::any_row(rows, p));
        } else {
            let k = choose|k: int|
                0 <= k < rows.len() && !is_comparable(#[trigger] rows[k], query->Ok_0);
            assert(p(rows[k]));
        }
    }
}

/// Holds of a stored vector that can be compared with one of a number of components.
pub open spec fn is_comparable(c: CandidateView, dimensions: int) -> bool {
    &&& c.dimensions == dimensions
    &&& c.vector.len() == 4 * dimensions
    &&& forall|i: int|
        0 <= i < vector::decoded(c.vector).len() ==> (#[trigger] vector::decoded(c.vector)[i])
            & 0x7f80_0000 != 0x7f80_0000
}

proof fn lemma_comparable(c: CandidateView, dimensions: int)
    requires
        0 <= dimensions,
        4 * dimensions <= usize::MAX,
    ensures
        vector_search::candidate_refusal(c, dimensions) is None == is_comparable(c, dimensions),
{
    let v = vector::decoded(c.vector);
    assert forall|i: int| 0 <= i < v.len() implies vector::finite(#[trigger] v[i]) == (v[i]
        & 0x7f80_0000 != 0x7f80_0000) by {
        law_infinite_components_have_a_full_exponent(v[i]);
    }
    if vector::all_finite(v) {
        assert forall|i: int| 0 <= i < v.len() implies (#[trigger] v[i]) & 0x7f80_0000
            != 0x7f80_0000 by {
            assert(vector::finite(v[i]));
        }
    } else {
        let i = choose|i: int| 0 <= i < v.len() && !vector::finite(#[trigger] v[i]);
        assert(v[i] & 0x7f80_0000 == 0x7f80_0000);
    }
}

/// A vector is stored unless its memory or its model has no name, or it could not be made.
/// Texts without a vector are listed unless the model has no name or the limit is zero, or too
/// large for the database.
pub proof fn law_made_vectors_are_stored(
    id: Seq<char>,
    model: Seq<char>,
    made: Result<Seq<u32>, Seq<char>>,
    limit: int,
)
    requires
        limit >= 0,
    ensures
        embedding::upsert_refusal(id, model, made) is None <==> {
            &&& !all_space(id)
            &&& !all_space(model)
            &&& made is Ok
            &&& made->Ok_0.len() <= i64::MAX
        },
        !all_space(id) && !all_space(model) && made is Err ==> embedding::upsert_refusal(
            id,
            model,
            made,
        ) == Some(made->Err_0),
        embedding::pending_refusal(model, limit) is None <==> !all_space(model) && 0 < limit
            <= i64::MAX,
        !all_space(model) && limit == 0 ==> embedding::pending_refusal(model, limit) == Some(
            "embedding limit must be greater than zero"@,
        ),
{
    law_blank_texts_are_white_space(id);
    law_blank_texts_are_white_space(model);
}

/// A run has something to do exactly when an active memory lacks a vector and the model is at
/// hand or may be fetched; it is refused for a limit of zero.
pub proof fn law_runs_need_a_limit(s: StoreView, limit: int, cached_only: bool, cached: bool)
    requires
        0 <= limit <= i64::MAX,
    ensures
        embedding_worker::has_work(s, cached_only, cached) <==> (cached || !cached_only) && exists|
            i: int,
        |
            0 <= i < s.memories.len() && lacks_a_vector(
                s,
                #[trigger] s.memories[i],
                EMBEDDING_MODEL_ID@,
            ),
        embedding_worker::run_refusal(s, limit, cached_only, cached) is Some <==> limit == 0,
        limit == 0 ==> embedding_worker::run_refusal(s, limit, cached_only, cached) == Some(
            "embedding limit must be greater than zero"@,
        ),
{
    law_what_waits_lacks_a_vector(s, EMBEDDING_MODEL_ID@);
}

/// A run that did not get one vector for each text stores nothing, and says how many it got.
pub proof fn law_runs_need_every_vector(
    before: StoreView,
    after: StoreView,
    cache_dir: Seq<char>,
    sources: Seq<SourceView>,
    vectors: Seq<Result<Vec<u32>, Error>>,
    r: Result<EmbeddingRunStats, Error>,
)
    requires
        embedding_worker::is_commit(before, after, cache_dir, sources, vectors, r),
        vectors.len() != sources.len(),
    ensures
        after == before,
        r is Err,
        r->Err_0@ == "embedding inference returned "@ + text::decimal(vectors.len() as int)
            + " vectors for "@ + text::decimal(sources.len() as int) + " memories"@,
{
}

/// A model is at hand where its snapshot is named and each of its five files is there.
pub proof fn law_a_cached_model_has_all_of_its_files(
    reference: Option<Seq<char>>,
    present: Seq<Seq<char>>,
)
    ensures
        embedding_worker::is_complete(present) <==> {
            &&& present.contains("model_optimized.onnx"@)
            &&& present.contains("tokenizer.json"@)
            &&& present.contains("config.json"@)
            &&& present.contains("special_tokens_map.json"@)
            &&& present.contains("tokenizer_config.json"@)
        },
        embedding_worker::snapshot_path(reference) is Some <==> reference is Some && !all_space(
            reference->0,
        ),
        embedding_worker::snapshot_path(reference) is Some ==> embedding_worker::snapshot_path(
            reference,
        ) == Some(
            seq![
                "models--Qdrant--bge-small-en-v1.5-onnx-Q"@,
                "snapshots"@,
                text::trimmed(reference->0),
            ],
        ),
{
    if reference is Some {
        law_blank_texts_are_white_space(reference->0);
    }
    let files = embedding_worker::model_files();
    assert forall|i: int| 0 <= i < files.len() implies model::any_row(
        present,
        embedding_worker::named(#[trigger] files[i]),
    ) == present.contains(files[i]) by {
        let p = embedding_worker::named(files[i]);
        if present.contains(files[i]) {
            let k = choose|k: int| 0 <= k < present.len() && present[k] == files[i];
            assert(p(present[k]));
        }
    }
    assert(files[0] == "model_optimized.onnx"@);
    assert(files[1] == "tokenizer.json"@);
    assert(files[2] == "config.json"@);
    assert(files[3] == "special_tokens_map.json"@);
    assert(files[4] == "tokenizer_config.json"@);
    assert(files.len() == 5);
}

/// Models are cached where the environment says, or else with those of the hub, or else in
/// the local cache; a name that is empty is refused.
pub proof fn law_named_caches_come_first(a: bool, b: Option<bool>, local: bool)
    ensures
        embedding_worker::cache_choice(Some(a), b, local) == (if a {
            Err::<CacheChoice, Seq<char>>("MEM_MODEL_CACHE cannot be empty"@)
        } else {
            Ok(CacheChoice::ModelCache)
        }),
        embedding_worker::cache_choice(None, Some(a), local) == (if a {
            Err::<CacheChoice, Seq<char>>("HF_HOME cannot be empty"@)
        } else {
            Ok(CacheChoice::HfHome)
        }),
        embedding_worker::cache_choice(None, None, true) == Ok::<CacheChoice, Seq<char>>(
            CacheChoice::LocalCache,
        ),
        embedding_worker::cache_choice(None, None, false) == Err::<CacheChoice, Seq<char>>(
            "could not determine the local cache directory"@,
        ),
{
}

/// A run that fails keeps the vectors that came before the one that failed, and stores none
/// from there on: that one is refused for what it is, or the clock was.
pub proof fn law_failed_runs_keep_what_came_before(
    before: StoreView,
    after: StoreView,
    cache_dir: Seq<char>,
    sources: Seq<SourceView>,
    vectors: Seq<Result<Vec<u32>, Error>>,
    limit: int,
    r: Result<EmbeddingRunStats, Error>,
) -> (n: int)
    requires
        one_each(before.memories),
        limit >= 0,
        embedding_worker::is_batch(before, sources, limit),
        embedding_worker::is_commit(before, after, cache_dir, sources, vectors, r),
        vectors.len() == sources.len(),
        r is Err,
    ensures
        0 <= n < sources.len(),
        vectors[n] is Err || clock::clock_refusal(r->Err_0@) || embedding::upsert_refusal(
            sources[n].id,
            EMBEDDING_MODEL_ID@,
            Ok(vectors[n]->Ok_0@),
        ) == Some(r->Err_0@),
        vectors[n] is Err && !all_space(sources[n].id) && !all_space(EMBEDDING_MODEL_ID@)
            ==> r->Err_0@ == vectors[n]->Err_0@,
        forall|k: int|
            0 <= k < n ==> (#[trigger] vectors[k]) is Ok && has_vector(
                after,
                sources[k],
                vectors[k]->Ok_0@,
            ),
        forall|k: int, e: EmbeddingView|
            n <= k < sources.len() && e.memory_id == (#[trigger] sources[k]).id ==> (
            #[trigger] after.embeddings.contains(e) <==> before.embeddings.contains(e)),
        after.memories == before.memories,
        after.states == before.states,
        after.episodes == before.episodes,
        after.entries == before.entries,
        after.jobs == before.jobs,
{
    lemma_sources_differ(before, sources, limit);
    let values = embedding_worker::normalized(vectors);
    let e = r->Err_0;
    let (n, times) = choose|n: int, times: Seq<int>|
        {
            &&& 0 <= n < sources.len()
            &&& match embedding_worker::vector_refusal(sources[n], vectors[n]) {
                Some(message) => e@ == message,
                None => clock::clock_refusal(e@),
            }
            &&& forall|i: int|
                0 <= i < n ==> embedding_worker::vector_refusal(
                    sources[i],
                    #[trigger] vectors[i],
                ) is None
            &&& embedding_worker::clock_times(times, n as nat)
            &&& after == #[trigger] embedding_worker::committed(
                before,
                sources.take(n),
                values,
                times,
            )
        };
    let front = sources.take(n);
    assert forall|k: int| 0 <= k < front.len() implies is_current(#[trigger] front[k], before) by {
        assert(is_current(sources[k], before));
    }
    assert forall|k: int, l: int| 0 <= k < l < front.len() implies (#[trigger] front[k]).id != (
    #[trigger] front[l]).id by {
        assert(sources[k].id != sources[l].id);
    }
    lemma_committed_vectors(before, front, values, times);
    assert forall|k: int| 0 <= k < n implies (#[trigger] vectors[k]) is Ok && has_vector(
        after,
        sources[k],
        vectors[k]->Ok_0@,
    ) by {
        assert(embedding_worker::vector_refusal(sources[k], vectors[k]) is None);
        assert(has_vector(after, front[k], values[k]));
    }
    assert forall|k: int, x: EmbeddingView|
        n <= k < sources.len() && x.memory_id == (#[trigger] sources[k]).id implies (
    #[trigger] after.embeddings.contains(x) <==> before.embeddings.contains(x)) by {
        assert forall|l: int| 0 <= l < front.len() implies (#[trigger] front[l]).id
            != x.memory_id by {
            assert(sources[l].id != sources[k].id);
        }
    }
    law_blank_texts_are_white_space(sources[n].id);
    law_blank_texts_are_white_space(EMBEDDING_MODEL_ID@);
    n
}

/// A text counts as current exactly when an active memory still has the version that it was
/// read from.
pub proof fn law_current_texts_are_counted(s: StoreView, x: SourceView)
    requires
        one_each(s.memories),
    ensures
        embedding_worker::still_current(s)(x) == is_current(x, s),
{
    let p = embedding::in_version(x.id, x.updated_at);
    model::lemma_first_row(s.memories, p);
    if is_current(x, s) {
        let i = choose|i: int|
            0 <= i < s.memories.len() && (#[trigger] s.memories[i]).id == x.id
                && s.memories[i].status == "active"@ && s.memories[i].updated_at == x.updated_at;
        assert(p(s.memories[i]));
        let none = |m: MemoryView| false;
        assert forall|k: int| 0 <= k < s.memories.len() && k != i implies p(
            #[trigger] s.memories[k],
        ) == none(s.memories[k]) by {
            assert(s.memories[k].id != s.memories[i].id);
        }
        model::lemma_filter_without(s.memories, p, none, i);
        model::lemma_first_row(s.memories, none);
    } else if s.memories.filter(p).len() > 0 {
        let i = choose|i: int| 0 <= i < s.memories.len() && p(#[trigger] s.memories[i]);
        assert(s.memories[i].id == x.id);
    }
}

/// The model that vectors are made with.
pub proof fn law_the_model_has_its_name()
    ensures
        EMBEDDING_MODEL_ID@
            == "fastembed-5.3.0:Qdrant/bge-small-en-v1.5-onnx-Q/model_optimized.onnx"@,
{
}

} // verus!
