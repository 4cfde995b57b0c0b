//! Semantic search: an exact scan over the current vectors of active memories.

use crate::clock;
use crate::embedding;
use crate::embedding::{Embedding, EmbeddingView};
use crate::error;
use crate::error::Error;
use crate::memory;
use crate::memory::{validate_identity, Memory, MemoryView};
use crate::model;
use crate::model::{copy_bytes, join, pick, top_by, Row};
use crate::order;
use crate::order::{Key, KeyView};
use crate::store::{Store, StoreView};
use crate::text;
use crate::text::{decimal_u64, same};
use crate::vector;
use crate::vector::decode_vector;
use vstd::prelude::*;
use vstd::string::*;

verus! {

/// A memory that a semantic search found, with its score as a place in the total
/// order of floating-point numbers.
#[derive(Debug)]
pub struct SemanticSearchHit {
    pub memory: Memory,
    pub score: i64,
}

/// Model of a found memory.
#[verifier::ext_equal]
pub struct SemanticView {
    pub memory: MemoryView,
    pub score: int,
}

/// An active memory with its stored vector.
#[derive(Debug)]
pub struct VectorCandidate {
    pub memory: Memory,
    pub dimensions: i64,
    pub vector: Vec<u8>,
}

/// Model of a memory with its stored vector.
#[verifier::ext_equal]
pub struct CandidateView {
    pub memory: MemoryView,
    pub dimensions: int,
    pub vector: Seq<u8>,
}

impl View for SemanticSearchHit {
    type V = SemanticView;

    open spec fn view(&self) -> SemanticView {
        SemanticView { memory: self.memory@, score: self.score as int }
    }
}

impl View for VectorCandidate {
    type V = CandidateView;

    open spec fn view(&self) -> CandidateView {
        CandidateView {
            memory: self.memory@,
            dimensions: self.dimensions as int,
            vector: self.vector@,
        }
    }
}

impl Row for SemanticSearchHit {
    fn duplicate(&self) -> (r: SemanticSearchHit) {
        SemanticSearchHit { memory: self.memory.duplicate(), score: self.score }
    }
}

impl Row for VectorCandidate {
    fn duplicate(&self) -> (r: VectorCandidate) {
        VectorCandidate {
            memory: self.memory.duplicate(),
            dimensions: self.dimensions,
            vector: copy_bytes(&self.vector),
        }
    }
}

impl Clone for SemanticSearchHit {
    fn clone(&self) -> (r: SemanticSearchHit)
        ensures
            r@ == self@,
    {
        self.duplicate()
    }
}

/// The active memory that a vector was made from, if it is still in that version.
pub open spec fn candidate_of(memories: Seq<MemoryView>, model: Seq<char>) -> spec_fn(
    EmbeddingView,
) -> Option<CandidateView> {
    |e: EmbeddingView|
        if e.model == model {
            match model::first_row(
                memories,
                embedding::in_version(e.memory_id, e.source_updated_at),
            ) {
                Some(m) => Some(
                    CandidateView { memory: m, dimensions: e.dimensions, vector: e.vector },
                ),
                None => None,
            }
        } else {
            None
        }
}

/// The memories that a semantic search scans.
pub open spec fn scanned(s: StoreView, model: Seq<char>) -> Seq<CandidateView> {
    model::joined(s.embeddings, candidate_of(s.memories, model))
}

/// Why a stored vector cannot be compared with a query of `dimensions` numbers.
pub open spec fn candidate_refusal(c: CandidateView, dimensions: int) -> Option<Seq<char>> {
    if c.dimensions < 0 || c.dimensions > usize::MAX {
        Some(clock::out_of_range())
    } else if c.dimensions != dimensions {
        Some(
            "embedding dimension mismatch for "@ + c.memory.id + ": stored "@ + text::decimal(
                c.dimensions,
            ) + ", query "@ + text::decimal(dimensions),
        )
    } else {
        vector::decode_refusal(c.vector, c.dimensions, c.memory.id)
    }
}

/// Selects the memories whose vector cannot be compared.
pub open spec fn refused(dimensions: int) -> spec_fn(CandidateView) -> bool {
    |c: CandidateView| candidate_refusal(c, dimensions) is Some
}

/// Why a scan is refused: the first stored vector that cannot be compared.
pub open spec fn scan_refusal(rows: Seq<CandidateView>, dimensions: int) -> Option<Seq<char>> {
    match model::first_row(rows, refused(dimensions)) {
        Some(c) => candidate_refusal(c, dimensions),
        None => None,
    }
}

/// Why a semantic search is refused, given what normalising the query came to: its
/// number of dimensions or an error.
pub open spec fn semantic_refusal(
    s: StoreView,
    model: Seq<char>,
    limit: int,
    query: Result<int, Seq<char>>,
) -> Option<Seq<char>> {
    error::either(
        memory::identity_refusal(model, "embedding model"@),
        if limit == 0 {
            Some("semantic search limit must be greater than zero"@)
        } else if embedding::waiting(s, model).len() != 0 {
            Some("semantic index is incomplete; run `mem index` first"@)
        } else {
            match query {
                Err(message) => Some(message),
                Ok(dimensions) => scan_refusal(scanned(s, model), dimensions),
            }
        },
    )
}

/// The outcome of normalising a query.
pub open spec fn query_outcome(query: Result<usize, Error>) -> Result<int, Seq<char>> {
    match query {
        Ok(dimensions) => Ok(dimensions as int),
        Err(e) => Err(e@),
    }
}

/// The order of found memories: the best score first, then the latest change, then
/// by identifier.
pub open spec fn by_score() -> spec_fn(SemanticView) -> KeyView {
    |h: SemanticView|
        KeyView { first: -h.score, second: -h.memory.updated_at, third: 0, text: h.memory.id }
}

/// The scanned memories with their scores.
pub open spec fn scored(rows: Seq<CandidateView>, scores: Seq<i64>) -> Seq<SemanticView> {
    Seq::new(
        rows.len(),
        |i: int| SemanticView { memory: rows[i].memory, score: scores[i] as int },
    )
}

/// Holds when `scores` are scores that `score` gives for the stored vectors.
pub open spec fn scores_of<F: Fn(&Vec<u32>) -> i64>(
    score: F,
    rows: Seq<CandidateView>,
    scores: Seq<i64>,
) -> bool {
    &&& scores.len() == rows.len()
    &&& forall|i: int|
        0 <= i < rows.len() ==> is_score_of(score, rows[i].vector, #[trigger] scores[i])
}

/// Holds when `n` is a score that `score` gives for a stored vector.
pub open spec fn is_score_of<F: Fn(&Vec<u32>) -> i64>(score: F, bytes: Seq<u8>, n: i64) -> bool {
    exists|v: Vec<u32>| v@ == vector::decoded(bytes) && #[trigger] call_ensures(score, (&v,), n)
}

/// Holds when `hits` are the first of the scanned memories by the given scores,
/// and `score` gives those for their vectors.
pub open spec fn is_best_by_score<F: Fn(&Vec<u32>) -> i64>(
    hits: Seq<SemanticView>,
    rows: Seq<CandidateView>,
    score: F,
    scores: Seq<i64>,
    limit: int,
) -> bool {
    &&& scores_of(score, rows, scores)
    &&& model::ranked(hits, scored(rows, scores), by_score(), limit)
}

/// The first memories by score.
pub fn rank_by_score(rows: &Vec<VectorCandidate>, scores: &Vec<i64>, limit: usize) -> (r: Vec<
    SemanticSearchHit,
>)
    requires
        scores@.len() == rows@.len(),
    ensures
        model::ranked(
            model::views(r@),
            scored(model::views(rows@), scores@),
            by_score(),
            limit as int,
        ),
{
    let mut hits: Vec<SemanticSearchHit> = Vec::new();
    let ghost wanted = scored(model::views(rows@), scores@);
    let mut i: usize = 0;
    while i < rows.len()
        invariant
            i <= rows@.len(),
            scores@.len() == rows@.len(),
            wanted == scored(model::views(rows@), scores@),
            hits@.len() == i,
            forall|k: int| 0 <= k < i ==> (#[trigger] hits@[k])@ == wanted[k],
        decreases rows@.len() - i,
    {
        hits.push(SemanticSearchHit { memory: rows[i].memory.duplicate(), score: scores[i] });
        i = i + 1;
    }
    assert(model::views(hits@) =~= wanted);
    let key_of = |h: &SemanticSearchHit| -> (r: Key)
        ensures
            r@ == by_score()(h@),
        {
            Key {
                first: -(h.score as i128),
                second: -(h.memory.updated_at as i128),
                third: 0,
                text: h.memory.id.clone(),
            }
        };
    top_by(&hits, key_of, Ghost(by_score()), limit)
}

/// Reads the stored vector of a memory, to be compared with a query of
/// `dimensions` numbers.
fn comparable(c: &VectorCandidate, dimensions: usize) -> (r: Result<Vec<u32>, Error>)
    ensures
        error::outcome(r) == (match candidate_refusal(c@, dimensions as int) {
            Some(message) => Err::<Seq<u32>, Seq<char>>(message),
            None => Ok(vector::decoded(c@.vector)),
        }),
{
    if c.dimensions < 0 || c.dimensions as i128 > usize::MAX as i128 {
        return Err(Error::new("out of range integral type conversion attempted"));
    }
    let stored: usize = c.dimensions as usize;
    if stored != dimensions {
        let has: String = decimal_u64(stored as u64);
        let wants: String = decimal_u64(dimensions as u64);
        return Err(
            Error::of6(
                "embedding dimension mismatch for ",
                c.memory.id.as_str(),
                ": stored ",
                has.as_str(),
                ", query ",
                wants.as_str(),
            ),
        );
    }
    decode_vector(&c.vector, stored, c.memory.id.as_str())
}

/// The scores of stored vectors against a query of `dimensions` numbers.
fn score_rows<F: Fn(&Vec<u32>) -> i64>(
    rows: &Vec<VectorCandidate>,
    dimensions: usize,
    score: F,
) -> (r: Result<Vec<i64>, Error>)
    requires
        forall|v: &Vec<u32>| #[trigger] call_requires(score, (v,)),
    ensures
        match scan_refusal(model::views(rows@), dimensions as int) {
            Some(message) => r matches Err(e) && e@ == message,
            None => r matches Ok(scores) && scores_of(score, model::views(rows@), scores@),
        },
{
    let ghost all = model::views(rows@);
    let ghost p = refused(dimensions as int);
    let mut scores: Vec<i64> = Vec::new();
    let mut i: usize = 0;
    while i < rows.len()
        invariant
            i <= rows@.len(),
            all == model::views(rows@),
            p == refused(dimensions as int),
            forall|v: &Vec<u32>| #[trigger] call_requires(score, (v,)),
            scores@.len() == i,
            forall|k: int| 0 <= k < i ==> !p(#[trigger] all[k]),
            forall|k: int|
                0 <= k < i ==> is_score_of(score, all[k].vector, #[trigger] scores@[k]),
        decreases rows@.len() - i,
    {
        assert(all[i as int] == rows@[i as int]@);
        match comparable(&rows[i], dimensions) {
            Err(e) => {
                proof {
                    assert(p(all[i as int]));
                    model::lemma_first_row_at(all, p, i as int);
                }
                return Err(e);
            },
            Ok(v) => {
                let n: i64 = score(&v);
                assert(is_score_of(score, all[i as int].vector, n));
                scores.push(n);
            },
        }
        i = i + 1;
    }
    proof {
        model::lemma_first_row(all, p);
    }
    Ok(scores)
}

impl Store {
    /// The memories that a semantic search scans.
    pub fn scan(&self, model: &str) -> (r: Vec<VectorCandidate>)
        ensures
            model::views(r@) == scanned(self@, model@),
    {
        let candidate = |e: &Embedding| -> (r: Option<VectorCandidate>)
            ensures
                model::row_of(r) == candidate_of(self@.memories, model@)(e@),
            {
                if same(e.model.as_str(), model) {
                    match self.memory_in_version(e.memory_id.as_str(), e.source_updated_at) {
                        Some(memory) => Some(
                            VectorCandidate {
                                memory,
                                dimensions: e.dimensions,
                                vector: copy_bytes(&e.vector),
                            },
                        ),
                        None => None,
                    }
                } else {
                    None
                }
            };
        join(&self.embeddings, candidate, Ghost(candidate_of(self@.memories, model@)))
    }

    /// The active memory with an identifier in a version.
    fn memory_in_version(&self, id: &str, updated_at: i64) -> (r: Option<Memory>)
        ensures
            model::row_of(r) == model::first_row(
                self@.memories,
                embedding::in_version(id@, updated_at as int),
            ),
    {
        let test = |m: &Memory| -> (r: bool)
            ensures
                r == embedding::in_version(id@, updated_at as int)(m@),
            {
                same(m.id.as_str(), id) && same(m.status.as_str(), "active") && m.updated_at
                    == updated_at
            };
        pick(&self.memories, test, Ghost(embedding::in_version(id@, updated_at as int)))
    }

    /// The memories whose vectors score best against a query. `query` is what
    /// normalising the query came to, and `score` compares a stored vector with
    /// it.
    pub fn semantic_search_by_vector<F: Fn(&Vec<u32>) -> i64>(
        &self,
        query: Result<usize, Error>,
        score: F,
        model: &str,
        limit: usize,
    ) -> (r: Result<Vec<SemanticSearchHit>, Error>)
        requires
            forall|v: &Vec<u32>| #[trigger] call_requires(score, (v,)),
        ensures
            semantic_refusal(self@, model@, limit as int, query_outcome(query)) matches Some(
                message,
            ) ==> r is Err && r->Err_0@ == message,
            semantic_refusal(self@, model@, limit as int, query_outcome(query)) is None ==> r is Ok
                && exists|scores: Seq<i64>| #[trigger]
                is_best_by_score(
                    model::views(r->Ok_0@),
                    scanned(self@, model@),
                    score,
                    scores,
                    limit as int,
                ),
    {
        validate_identity(model, "embedding model")?;
        if limit == 0 {
            return Err(Error::new("semantic search limit must be greater than zero"));
        }
        if !self.has_complete_coverage(model)? {
            return Err(Error::new("semantic index is incomplete; run `mem index` first"));
        }
        let dimensions: usize = query?;
        let rows: Vec<VectorCandidate> = self.scan(model);
        let scores: Vec<i64> = score_rows(&rows, dimensions, score)?;
        let hits: Vec<SemanticSearchHit> = rank_by_score(&rows, &scores, limit);
        let r: Result<Vec<SemanticSearchHit>, Error> = Ok(hits);
        assert(is_best_by_score(
            model::views(r->Ok_0@),
            scanned(self@, model@),
            score,
            scores@,
            limit as int,
        ));
        r
    }
}

/// A semantic search finds only active memories of the store, each through a vector
/// of its current version.
pub proof fn law_scan_reads_only_current_vectors(s: StoreView, model: Seq<char>)
    ensures
        forall|i: int|
            0 <= i < scanned(s, model).len() ==> {
                let m = (#[trigger] scanned(s, model)[i]).memory;
                &&& m.status == "active"@
                &&& s.memories.contains(m)
                &&& model::any_row(s.embeddings, embedding::current_for(m, model))
            },
{
    let g = candidate_of(s.memories, model);
    model::lemma_filter_contains(s.embeddings, model::gives(g));
    assert forall|i: int| 0 <= i < scanned(s, model).len() implies {
        let m = (#[trigger] scanned(s, model)[i]).memory;
        &&& m.status == "active"@
        &&& s.memories.contains(m)
        &&& model::any_row(s.embeddings, embedding::current_for(m, model))
    } by {
        let e = s.embeddings.filter(model::gives(g))[i];
        assert(model::gives(g)(e));
        model::lemma_first_row(
            s.memories,
            embedding::in_version(e.memory_id, e.source_updated_at),
        );
        let m = scanned(s, model)[i].memory;
        let k = choose|k: int| 0 <= k < s.embeddings.len() && s.embeddings[k] == e;
        assert(embedding::current_for(m, model)(s.embeddings[k]));
    }
}

/// A semantic search finds as many as the limit allows of the active memories with a vector
/// of their current version, none of them twice: the best score first, then the latest
/// change, then by identifier. None that was left out comes before one that was found.
pub proof fn law_semantic_hits_are_the_best<F: Fn(&Vec<u32>) -> i64>(
    s: StoreView,
    model: Seq<char>,
    score: F,
    scores: Seq<i64>,
    limit: int,
    hits: Seq<SemanticView>,
)
    requires
        s.wf(),
        limit >= 0,
        is_best_by_score(hits, scanned(s, model), score, scores, limit),
    ensures
        ({
            let covered = s.memories.filter(embedding::covered(s.embeddings, model)).len();
            hits.len() == (if limit < covered {
                limit
            } else {
                covered as int
            })
        }),
        forall|i: int|
            0 <= i < hits.len() ==> {
                let m = (#[trigger] hits[i]).memory;
                &&& m.status == "active"@
                &&& s.memories.contains(m)
                &&& model::any_row(s.embeddings, embedding::current_for(m, model))
                &&& scored(scanned(s, model), scores).contains(hits[i])
            },
        forall|i: int, j: int|
            0 <= i < j < hits.len() ==> (#[trigger] hits[i]).memory.id != (
            #[trigger] hits[j]).memory.id,
        forall|i: int, j: int|
            0 <= i < j < hits.len() ==> order::key_le(
                by_score()(#[trigger] hits[i]),
                by_score()(#[trigger] hits[j]),
            ),
        forall|i: int, j: int|
            0 <= i < j < hits.len() ==> (#[trigger] hits[i]).score >= (#[trigger] hits[j]).score,
        forall|k: int, i: int|
            0 <= k < scanned(s, model).len() && 0 <= i < hits.len() ==> hits.contains(
                #[trigger] scored(scanned(s, model), scores)[k],
            ) || order::key_le(
                by_score()(#[trigger] hits[i]),
                by_score()(scored(scanned(s, model), scores)[k]),
            ),
{
    let rows = scanned(s, model);
    let source = scored(rows, scores);
    let id = |h: SemanticView| h.memory.id;
    model::law_ranked_rows(hits, source, by_score(), limit);
    law_scan_reads_only_current_vectors(s, model);
    law_scan_is_of_the_covered_memories(s, model);
    lemma_scanned_once(s, model);
    assert(model::distinct(source, id)) by {
        assert forall|i: int, j: int| 0 <= i < j < source.len() implies id(#[trigger] source[i])
            != id(#[trigger] source[j]) by {
            assert(rows[i].memory.id != rows[j].memory.id);
        }
    }
    model::lemma_ranked_distinct(hits, source, by_score(), limit, id);
    assert forall|i: int, j: int| 0 <= i < j < hits.len() implies (#[trigger] hits[i]).memory.id
        != (#[trigger] hits[j]).memory.id by {
        assert(id(hits[i]) != id(hits[j]));
    }
    assert forall|i: int| 0 <= i < hits.len() implies {
        let m = (#[trigger] hits[i]).memory;
        &&& m.status == "active"@
        &&& s.memories.contains(m)
        &&& model::any_row(s.embeddings, embedding::current_for(m, model))
        &&& source.contains(hits[i])
    } by {
        let k = choose|k: int| 0 <= k < source.len() && source[k] == hits[i];
        assert(rows[k].memory == hits[i].memory);
    }
}

/// A semantic search compares exactly the active memories with a vector of their current
/// version, each once.
pub proof fn law_scan_is_of_the_covered_memories(s: StoreView, model: Seq<char>)
    requires
        s.wf(),
    ensures
        scanned(s, model).len() == s.memories.filter(
            embedding::covered(s.embeddings, model),
        ).len(),
        forall|m: MemoryView|
            s.memories.contains(m) && embedding::covered(s.embeddings, model)(m)
                ==> #[trigger] is_scanned(s, model, m),
{
    let rows = scanned(s, model);
    let q = embedding::covered(s.embeddings, model);
    let wanted = s.memories.filter(q);
    let read = Seq::new(rows.len(), |i: int| rows[i].memory);
    law_scan_reads_only_current_vectors(s, model);
    lemma_scanned_once(s, model);
    model::lemma_filter_contains(s.memories, q);
    model::lemma_distinct_filter(s.memories, q, memory::id_key());
    assert forall|m: MemoryView| s.memories.contains(m) && q(m) implies #[trigger] is_scanned(
        s,
        model,
        m,
    ) by {
        lemma_covered_is_scanned(s, model, m);
    }
    assert(read.no_duplicates()) by {
        assert forall|i: int, j: int| 0 <= i < read.len() && 0 <= j < read.len() && i
            != j implies read[i] != read[j] by {
            if i < j {
                assert(rows[i].memory.id != rows[j].memory.id);
            } else {
                assert(rows[j].memory.id != rows[i].memory.id);
            }
        }
    }
    assert(wanted.no_duplicates()) by {
        assert forall|i: int, j: int| 0 <= i < wanted.len() && 0 <= j < wanted.len() && i
            != j implies wanted[i] != wanted[j] by {
            if i < j {
                assert(memory::id_key()(wanted[i]) != memory::id_key()(wanted[j]));
            } else {
                assert(memory::id_key()(wanted[j]) != memory::id_key()(wanted[i]));
            }
        }
    }
    assert(read.to_set() =~= wanted.to_set()) by {
        assert forall|m: MemoryView| read.to_set().contains(m) implies wanted.to_set().contains(
            m,
        ) by {
            let i = choose|i: int| 0 <= i < read.len() && read[i] == m;
            assert(rows[i].memory == m);
            let k = choose|k: int| 0 <= k < s.memories.len() && s.memories[k] == m;
            assert(q(s.memories[k]));
        }
        assert forall|m: MemoryView| wanted.to_set().contains(m) implies read.to_set().contains(
            m,
        ) by {
            let k = choose|k: int| 0 <= k < wanted.len() && wanted[k] == m;
            assert(q(wanted[k]) && s.memories.contains(wanted[k]));
            assert(is_scanned(s, model, m));
            let i = choose|i: int| 0 <= i < rows.len() && (#[trigger] rows[i]).memory == m;
            assert(read[i] == m);
        }
    }
    read.unique_seq_to_set();
    wanted.unique_seq_to_set();
}

/// Holds when a memory is among those that are scanned.
pub open spec fn is_scanned(s: StoreView, model: Seq<char>, m: MemoryView) -> bool {
    exists|i: int|
        0 <= i < scanned(s, model).len() && (#[trigger] scanned(s, model)[i]).memory == m
}

/// No memory is scanned twice.
proof fn lemma_scanned_once(s: StoreView, model: Seq<char>)
    requires
        s.wf(),
    ensures
        forall|i: int, j: int|
            0 <= i < j < scanned(s, model).len() ==> (#[trigger] scanned(s, model)[i]).memory.id
                != (#[trigger] scanned(s, model)[j]).memory.id,
{
    let rows = scanned(s, model);
    let g = candidate_of(s.memories, model);
    let kept = s.embeddings.filter(model::gives(g));
    model::lemma_filter_contains(s.embeddings, model::gives(g));
    model::lemma_distinct_filter(s.embeddings, model::gives(g), embedding::pair_key());
    assert forall|i: int| 0 <= i < kept.len() implies (#[trigger] kept[i]).model == model
        && rows[i].memory.id == kept[i].memory_id by {
        assert(model::gives(g)(kept[i]));
        model::lemma_first_row(
            s.memories,
            embedding::in_version(kept[i].memory_id, kept[i].source_updated_at),
        );
    }
    assert forall|i: int, j: int| 0 <= i < j < rows.len() implies (#[trigger] rows[i]).memory.id
        != (#[trigger] rows[j]).memory.id by {
        assert(embedding::pair_key()(kept[i]) != embedding::pair_key()(kept[j]));
    }
}

/// A memory with a vector of its current version is scanned.
proof fn lemma_covered_is_scanned(s: StoreView, model: Seq<char>, m: MemoryView)
    requires
        s.wf(),
        s.memories.contains(m),
        embedding::covered(s.embeddings, model)(m),
    ensures
        is_scanned(s, model, m),
{
    let at = choose|at: int| 0 <= at < s.memories.len() && s.memories[at] == m;
    let c = embedding::current_for(m, model);
    let k = choose|k: int| 0 <= k < s.embeddings.len() && c(#[trigger] s.embeddings[k]);
    let e = s.embeddings[k];
    let v = embedding::in_version(e.memory_id, e.source_updated_at);
    assert(v(s.memories[at]));
    model::lemma_first_row(s.memories, v);
    let first = model::first_row(s.memories, v)->0;
    let j = choose|j: int| 0 <= j < s.memories.len() && s.memories[j] == first;
    if j < at {
        assert(memory::id_key()(s.memories[j]) != memory::id_key()(s.memories[at]));
    } else if at < j {
        assert(memory::id_key()(s.memories[at]) != memory::id_key()(s.memories[j]));
    }
    let g = candidate_of(s.memories, model);
    assert(model::gives(g)(s.embeddings[k]));
    model::lemma_filter_contains(s.embeddings, model::gives(g));
    let kept = s.embeddings.filter(model::gives(g));
    let i = choose|i: int| 0 <= i < kept.len() && kept[i] == e;
    assert(scanned(s, model)[i].memory == m);
}

/// An index without gaps is scanned completely: every active memory is compared.
pub proof fn law_complete_index_is_scanned_completely(
    s: StoreView,
    model: Seq<char>,
    m: MemoryView,
)
    requires
        s.wf(),
        embedding::waiting(s, model).len() == 0,
        s.memories.contains(m),
        m.status == "active"@,
    ensures
        is_scanned(s, model, m),
{
    let q = embedding::uncovered(s.embeddings, model);
    let at = choose|at: int| 0 <= at < s.memories.len() && s.memories[at] == m;
    model::lemma_first_row(s.memories, q);
    assert(!q(s.memories[at]));
    lemma_covered_is_scanned(s, model, m);
}

} // verus!
