//! Recall: semantic hits where the index can answer, and lexical ones otherwise.

use crate::embedding;
use crate::embedding_worker::EMBEDDING_MODEL_ID;
use crate::error::Error;
use crate::memory;
use crate::memory::NewMemoryView;
use crate::model;
use crate::model::Row;
use crate::order;
use crate::search;
use crate::search::{HitView, Match, MatchView, SearchHit};
use crate::store;
use crate::store::{Store, StoreView};
use crate::vector_search;
use crate::vector_search::{SemanticSearchHit, SemanticView};
use vstd::prelude::*;
use vstd::string::*;

verus! {

/// The lowest score of a semantic hit that is recalled: 0.55, as a place in the
/// total order of floating-point numbers.
pub const SEMANTIC_CONTEXT_MIN_SCORE: i64 = 0x3fe1_9999_9999_999a;

/// The recalled form of a semantic hit, if its score is high enough.
pub open spec fn recalled() -> spec_fn(SemanticView) -> Option<HitView> {
    |h: SemanticView|
        if h.score >= SEMANTIC_CONTEXT_MIN_SCORE {
            Some(HitView { memory: h.memory, rank: h.score })
        } else {
            None
        }
}

/// The semantic hits that are recalled.
pub fn relevant(hits: &Vec<SemanticSearchHit>) -> (r: Vec<SearchHit>)
    ensures
        model::views(r@) == model::joined(model::views(hits@), recalled()),
{
    let hit = |h: &SemanticSearchHit| -> (r: Option<SearchHit>)
        ensures
            model::row_of(r) == recalled()(h@),
        {
            if h.score >= SEMANTIC_CONTEXT_MIN_SCORE {
                Some(SearchHit { memory: h.memory.duplicate(), rank: h.score })
            } else {
                None
            }
        };
    model::join(hits, hit, Ghost(recalled()))
}

/// Holds when the index can answer a query: every active memory has a current
/// vector, the query has one too, and no stored vector is malformed.
pub open spec fn answers(
    s: StoreView,
    limit: int,
    vector: Option<Result<int, Seq<char>>>,
) -> bool {
    &&& embedding::waiting(s, EMBEDDING_MODEL_ID@).len() == 0
    &&& vector matches Some(query) && vector_search::semantic_refusal(
        s,
        EMBEDDING_MODEL_ID@,
        limit,
        query,
    ) is None
}

/// The outcome of making the vector of a query.
pub open spec fn vector_outcome(vector: Option<Result<usize, Error>>) -> Option<
    Result<int, Seq<char>>,
> {
    match vector {
        Some(query) => Some(vector_search::query_outcome(query)),
        None => None,
    }
}

/// Why recall is refused: only lexical recall can be.
pub open spec fn recall_refusal(
    s: StoreView,
    query: Seq<char>,
    limit: int,
    vector: Option<Result<int, Seq<char>>>,
) -> Option<Seq<char>> {
    if answers(s, limit, vector) {
        None
    } else {
        search::search_refusal(query, limit)
    }
}

/// Holds when `hits` are the memories that a store recalls: those that the index finds
/// if it answers, and the lexical matches otherwise.
pub open spec fn recalls<F: Fn(&Vec<u32>) -> i64>(
    s: StoreView,
    limit: int,
    vector: Option<Result<int, Seq<char>>>,
    score: F,
    matches: Seq<MatchView>,
    hits: Seq<HitView>,
) -> bool {
    if answers(s, limit, vector) {
        exists|found: Seq<SemanticView>, scores: Seq<i64>| #[trigger]
            vector_search::is_best_by_score(
                found,
                vector_search::scanned(s, EMBEDDING_MODEL_ID@),
                score,
                scores,
                limit,
            ) && hits == model::joined(found, recalled())
    } else {
        model::ranked(
            hits,
            model::joined(matches, search::hit_of(s.memories)),
            search::by_rank(),
            limit,
        )
    }
}

/// Holds when `r` is what recall comes to.
pub open spec fn is_recall<F: Fn(&Vec<u32>) -> i64>(
    r: Result<Vec<SearchHit>, Error>,
    s: StoreView,
    query: Seq<char>,
    limit: int,
    vector: Option<Result<int, Seq<char>>>,
    score: F,
    matches: Seq<MatchView>,
) -> bool {
    match recall_refusal(s, query, limit, vector) {
        Some(message) => r is Err && r->Err_0@ == message,
        None => r is Ok && recalls(s, limit, vector, score, matches, model::views(r->Ok_0@)),
    }
}

/// The memories that are relevant to a query. `vector` is there if the query has a
/// vector, and then tells what normalising it came to; `score` compares a stored vector
/// with it; `matches` are those of the full-text index. Derived data that is missing or
/// malformed does not disable recall: the lexical matches answer then.
pub fn recall_hits<F: Fn(&Vec<u32>) -> i64>(
    store: &Store,
    query: &str,
    limit: usize,
    vector: Option<Result<usize, Error>>,
    score: F,
    matches: &Vec<Match>,
) -> (r: Result<Vec<SearchHit>, Error>)
    requires
        forall|v: &Vec<u32>| #[trigger] call_requires(score, (v,)),
    ensures
        is_recall(
            r,
            store@,
            query@,
            limit as int,
            vector_outcome(vector),
            score,
            model::views(matches@),
        ),
{
    proof {
        lemma_model_id_is_not_blank();
    }
    let complete: bool = store.has_complete_coverage(EMBEDDING_MODEL_ID)?;
    if complete {
        if let Some(normalized) = vector {
            let found: Result<Vec<SemanticSearchHit>, Error> = store.semantic_search_by_vector(
                normalized,
                score,
                EMBEDDING_MODEL_ID,
                limit,
            );
            if let Ok(hits) = found {
                return Ok(relevant(&hits));
            }
        }
    }
    store.search(query, limit, matches)
}

/// Recall with a vector of the query that is made only where it is of use: while a
/// memory waits for its own, `query_vector` is not called. What refuses the vector
/// refuses recall.
pub fn recall_with_query_vector<
    Q: FnOnce() -> Result<Option<Result<usize, Error>>, Error>,
    F: Fn(&Vec<u32>) -> i64,
>(store: &Store, query: &str, limit: usize, query_vector: Q, score: F, matches: &Vec<Match>) -> (r:
    Result<Vec<SearchHit>, Error>)
    requires
        embedding::waiting(store@, EMBEDDING_MODEL_ID@).len() == 0 ==> call_requires(
            query_vector,
            (),
        ),
        forall|v: &Vec<u32>| #[trigger] call_requires(score, (v,)),
    ensures
        embedding::waiting(store@, EMBEDDING_MODEL_ID@).len() == 0 ==> exists|
            made: Result<Option<Result<usize, Error>>, Error>,
        | #[trigger]
            call_ensures(query_vector, (), made) && match made {
                Err(e) => r is Err && r->Err_0@ == e@,
                Ok(vector) => is_recall(
                    r,
                    store@,
                    query@,
                    limit as int,
                    vector_outcome(vector),
                    score,
                    model::views(matches@),
                ),
            },
        embedding::waiting(store@, EMBEDDING_MODEL_ID@).len() != 0 ==> is_recall(
            r,
            store@,
            query@,
            limit as int,
            None,
            score,
            model::views(matches@),
        ),
{
    proof {
        lemma_model_id_is_not_blank();
    }
    let complete: bool = store.has_complete_coverage(EMBEDDING_MODEL_ID)?;
    if !complete {
        return recall_hits(store, query, limit, None, score, matches);
    }
    match query_vector() {
        Err(e) => Err(e),
        Ok(vector) => recall_hits(store, query, limit, vector, score, matches),
    }
}

/// The name of the model is not blank.
pub proof fn lemma_model_id_is_not_blank()
    ensures
        memory::identity_refusal(EMBEDDING_MODEL_ID@, "embedding model"@) is None,
{
    reveal_strlit("fastembed-5.3.0:Qdrant/bge-small-en-v1.5-onnx-Q/model_optimized.onnx");
    let s = EMBEDDING_MODEL_ID@;
    assert(s[0] == 'f');
    assert(s.last() == 'x');
}

/// The semantic form of a recalled memory.
pub open spec fn semantic_of(h: HitView) -> SemanticView {
    SemanticView { memory: h.memory, score: h.rank }
}

/// Holds when every recalled memory comes before a found one.
pub open spec fn comes_after(h: SemanticView, hits: Seq<HitView>) -> bool {
    forall|i: int|
        0 <= i < hits.len() ==> order::key_le(
            vector_search::by_score()(semantic_of(#[trigger] hits[i])),
            vector_search::by_score()(h),
        )
}

/// Holds when the recalled memories are among the scored ones, and each of those that
/// scores high enough is recalled, or comes after all of as many as the limit allows.
pub open spec fn accounts_for(
    hits: Seq<HitView>,
    source: Seq<SemanticView>,
    limit: int,
) -> bool {
    &&& forall|i: int| 0 <= i < hits.len() ==> source.contains(semantic_of(#[trigger] hits[i]))
    &&& forall|k: int|
        0 <= k < source.len() && (#[trigger] source[k]).score >= SEMANTIC_CONTEXT_MIN_SCORE ==> {
            ||| hits.contains((HitView { memory: source[k].memory, rank: source[k].score }))
            ||| hits.len() == limit && comes_after(source[k], hits)
        }
}

/// Where the index answers, recall gives the memories that score high enough, the best
/// first, none of them twice and no more than the limit. One that scores high enough is
/// left out only if the limit is reached by others that come before it.
pub proof fn law_recall_gives_what_scores_high_enough<F: Fn(&Vec<u32>) -> i64>(
    s: StoreView,
    limit: int,
    vector: Option<Result<int, Seq<char>>>,
    score: F,
    matches: Seq<MatchView>,
    hits: Seq<HitView>,
)
    requires
        s.wf(),
        limit >= 0,
        answers(s, limit, vector),
        recalls(s, limit, vector, score, matches, hits),
    ensures
        hits.len() <= limit,
        forall|i: int|
            0 <= i < hits.len() ==> {
                &&& (#[trigger] hits[i]).rank >= SEMANTIC_CONTEXT_MIN_SCORE
                &&& hits[i].memory.status == "active"@
                &&& s.memories.contains(hits[i].memory)
            },
        forall|i: int, j: int|
            0 <= i < j < hits.len() ==> (#[trigger] hits[i]).memory.id != (
            #[trigger] hits[j]).memory.id,
        forall|i: int, j: int|
            0 <= i < j < hits.len() ==> order::key_le(
                vector_search::by_score()(semantic_of(#[trigger] hits[i])),
                vector_search::by_score()(semantic_of(#[trigger] hits[j])),
            ),
        exists|scores: Seq<i64>| #[trigger]
            vector_search::scores_of(
                score,
                vector_search::scanned(s, EMBEDDING_MODEL_ID@),
                scores,
            ) && accounts_for(
                hits,
                vector_search::scored(vector_search::scanned(s, EMBEDDING_MODEL_ID@), scores),
                limit,
            ),
{
    let rows = vector_search::scanned(s, EMBEDDING_MODEL_ID@);
    let (found, scores) = choose|found: Seq<SemanticView>, scores: Seq<i64>| #[trigger]
        vector_search::is_best_by_score(found, rows, score, scores, limit) && hits
            == model::joined(found, recalled());
    vector_search::law_semantic_hits_are_the_best(
        s,
        EMBEDDING_MODEL_ID@,
        score,
        scores,
        limit,
        found,
    );
    let p = model::gives(recalled());
    let kept = found.filter(p);
    let id = |h: SemanticView| h.memory.id;
    let source = vector_search::scored(rows, scores);
    model::lemma_filter_contains(found, p);
    assert(model::distinct(found, id));
    model::lemma_distinct_filter(found, p, id);
    model::lemma_ordered_filter(found, p, vector_search::by_score());
    assert forall|i: int| 0 <= i < hits.len() implies semantic_of(#[trigger] hits[i]) == kept[i]
        && found.contains(kept[i]) && hits[i].rank >= SEMANTIC_CONTEXT_MIN_SCORE by {
        assert(p(kept[i]));
    }
    assert forall|i: int| 0 <= i < hits.len() implies {
        &&& (#[trigger] hits[i]).memory.status == "active"@
        &&& s.memories.contains(hits[i].memory)
        &&& source.contains(semantic_of(hits[i]))
    } by {
        let k = choose|k: int| 0 <= k < found.len() && found[k] == kept[i];
        assert(found[k].memory == hits[i].memory);
    }
    assert forall|i: int, j: int| 0 <= i < j < hits.len() implies (#[trigger] hits[i]).memory.id
        != (#[trigger] hits[j]).memory.id && order::key_le(
        vector_search::by_score()(semantic_of(hits[i])),
        vector_search::by_score()(semantic_of(hits[j])),
    ) by {
        assert(semantic_of(hits[i]) == kept[i] && semantic_of(hits[j]) == kept[j]);
        assert(id(kept[i]) != id(kept[j]));
    }
    assert forall|k: int| 0 <= k < source.len() && (#[trigger] source[k]).score
        >= SEMANTIC_CONTEXT_MIN_SCORE implies {
        ||| hits.contains((HitView { memory: source[k].memory, rank: source[k].score }))
        ||| hits.len() == limit && comes_after(source[k], hits)
    } by {
        if found.contains(source[k]) {
            let i = choose|i: int| 0 <= i < found.len() && found[i] == source[k];
            assert(p(found[i]));
            assert(kept.contains(found[i]));
            let j = choose|j: int| 0 <= j < kept.len() && kept[j] == found[i];
            assert(hits[j] == HitView { memory: source[k].memory, rank: source[k].score });
        } else {
            assert forall|i: int| 0 <= i < found.len() implies p(#[trigger] found[i]) by {
                assert(order::key_le(
                    vector_search::by_score()(found[i]),
                    vector_search::by_score()(source[k]),
                ));
            }
            model::lemma_filter_all(found, p);
            if found.len() == source.len() {
                model::lemma_ranked_all(found, source, vector_search::by_score(), limit, k);
            }
            assert forall|i: int| 0 <= i < hits.len() implies order::key_le(
                vector_search::by_score()(semantic_of(#[trigger] hits[i])),
                vector_search::by_score()(source[k]),
            ) by {
                assert(semantic_of(hits[i]) == found[i]);
            }
        }
    }
    assert(accounts_for(hits, source, limit));
    assert(vector_search::scores_of(score, rows, scores));
}

/// Where the index cannot answer, recall is the lexical search: it is refused and ordered
/// alike, whatever the vector and the scores would be.
pub proof fn law_recall_is_lexical_otherwise<F: Fn(&Vec<u32>) -> i64>(
    r: Result<Vec<SearchHit>, Error>,
    s: StoreView,
    query: Seq<char>,
    limit: int,
    vector: Option<Result<int, Seq<char>>>,
    score: F,
    matches: Seq<MatchView>,
)
    requires
        !answers(s, limit, vector),
        is_recall(r, s, query, limit, vector, score, matches),
    ensures
        match search::search_refusal(query, limit) {
            Some(message) => r is Err && r->Err_0@ == message,
            None => r is Ok && model::ranked(
                model::views(r->Ok_0@),
                model::joined(matches, search::hit_of(s.memories)),
                search::by_rank(),
                limit,
            ),
        },
        is_recall(r, s, query, limit, None, score, matches),
{
}

/// A memory that waits for its vector, or a query without one, leaves recall to the
/// lexical matches: derived data that is incomplete never hides a memory.
pub proof fn law_incomplete_index_leaves_recall_lexical(
    s: StoreView,
    limit: int,
    vector: Option<Result<int, Seq<char>>>,
)
    requires
        vector is None || model::any_row(
            s.memories,
            embedding::uncovered(s.embeddings, EMBEDDING_MODEL_ID@),
        ),
    ensures
        !answers(s, limit, vector),
{
    let p = embedding::uncovered(s.embeddings, EMBEDDING_MODEL_ID@);
    if vector is Some {
        let i = choose|i: int| 0 <= i < s.memories.len() && p(#[trigger] s.memories[i]);
        model::lemma_filter_contains(s.memories, p);
        assert(s.memories.filter(p).contains(s.memories[i]));
        assert(embedding::waiting(s, EMBEDDING_MODEL_ID@).len() == s.memories.filter(p).len());
    }
}

/// A memory that is stored while the vector of a query is made leaves recall to the
/// lexical matches.
pub proof fn law_fresh_memory_leaves_recall_lexical(
    s: StoreView,
    input: NewMemoryView,
    id: Seq<char>,
    now: int,
    limit: int,
    vector: Option<Result<int, Seq<char>>>,
)
    requires
        s.wf(),
        !model::any_row(s.memories, memory::with_id(id)),
    ensures
        !answers(store::inserted(s, input, id, now), limit, vector),
{
    let after = store::inserted(s, input, id, now);
    let m = memory::fresh_memory(input, id, now);
    let p = embedding::uncovered(after.embeddings, EMBEDDING_MODEL_ID@);
    assert(after.memories[s.memories.len() as int] == m);
    assert(!model::any_row(s.embeddings, embedding::current_for(m, EMBEDDING_MODEL_ID@))) by {
        let q = embedding::current_for(m, EMBEDDING_MODEL_ID@);
        if model::any_row(s.embeddings, q) {
            let k = choose|k: int| 0 <= k < s.embeddings.len() && q(#[trigger] s.embeddings[k]);
            assert(model::any_row(s.memories, memory::active_with(s.embeddings[k].memory_id)));
            let i = choose|i: int|
                0 <= i < s.memories.len() && memory::active_with(id)(#[trigger] s.memories[i]);
            assert(memory::with_id(id)(s.memories[i]));
        }
    }
    assert(p(after.memories[s.memories.len() as int]));
    law_incomplete_index_leaves_recall_lexical(after, limit, vector);
}

} // verus!
