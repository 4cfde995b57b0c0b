//! Building missing vectors, and where the embedding model is kept.

use crate::clock;
use crate::embedding;
use crate::embedding::{EmbeddingSource, SourceView};
use crate::error;
use crate::error::Error;
use crate::memory;
use crate::memory::MemoryView;
use crate::model;
use crate::recall;
use crate::store::{Store, StoreView};
use crate::text;
use crate::text::{decimal_u64, is_blank, same, trim};
use vstd::prelude::*;
use vstd::string::*;

verus! {

/// The embedding model that vectors are made with.
pub const EMBEDDING_MODEL_ID: &'static str =
    "fastembed-5.3.0:Qdrant/bge-small-en-v1.5-onnx-Q/model_optimized.onnx";

/// How vectors are to be made.
#[derive(Debug)]
pub struct EmbeddingRunOptions {
    pub limit: usize,
    pub cache_dir: String,
    pub show_download_progress: bool,
    pub cached_only: bool,
}

/// What a run came to.
#[derive(Debug)]
pub struct EmbeddingRunStats {
    pub model: String,
    pub cache_dir: String,
    pub indexed: usize,
    pub stale: usize,
    pub remaining: u64,
}

/// What is to be done in a run: nothing, or to embed the given memories.
#[derive(Debug)]
pub enum RunPlan {
    Done(EmbeddingRunStats),
    Embed(Vec<EmbeddingSource>),
}

/// Why a run is refused.
pub open spec fn run_refusal(s: StoreView, limit: int, cached_only: bool, cached: bool) -> Option<
    Seq<char>,
> {
    if limit == 0 {
        Some("embedding limit must be greater than zero"@)
    } else if limit > i64::MAX && has_work(s, cached_only, cached) {
        Some(clock::out_of_range())
    } else {
        None
    }
}

/// Holds when a run has something to embed and may do so.
pub open spec fn has_work(s: StoreView, cached_only: bool, cached: bool) -> bool {
    embedding::waiting(s, EMBEDDING_MODEL_ID@).len() != 0 && (cached || !cached_only)
}

/// Statistics of a run that found `remaining` memories without a vector.
fn run_stats(options: &EmbeddingRunOptions, indexed: usize, stale: usize, remaining: u64) -> (r:
    EmbeddingRunStats)
    ensures
        r.model@ == EMBEDDING_MODEL_ID@,
        r.cache_dir@ == options.cache_dir@,
        r.indexed == indexed,
        r.stale == stale,
        r.remaining == remaining,
{
    EmbeddingRunStats {
        model: EMBEDDING_MODEL_ID.to_owned(),
        cache_dir: options.cache_dir.clone(),
        indexed,
        stale,
        remaining,
    }
}

/// Selects the memories that are still in the version they were read in.
pub open spec fn still_current(s: StoreView) -> spec_fn(SourceView) -> bool {
    |source: SourceView|
        s.memories.filter(embedding::in_version(source.id, source.updated_at)).len() == 1
}

/// The store after the vectors of the given memories came in, each at its time.
pub open spec fn committed(
    s: StoreView,
    sources: Seq<SourceView>,
    vectors: Seq<Seq<u32>>,
    times: Seq<int>,
) -> StoreView
    decreases sources.len(),
{
    if sources.len() == 0 {
        s
    } else {
        let n = sources.len() - 1;
        embedding::with_vector(
            committed(s, sources.drop_last(), vectors, times),
            sources[n].id,
            sources[n].updated_at,
            EMBEDDING_MODEL_ID@,
            vectors[n],
            times[n],
        )
    }
}

/// The vectors that normalising gave.
pub open spec fn normalized(vectors: Seq<Result<Vec<u32>, Error>>) -> Seq<Seq<u32>> {
    Seq::new(vectors.len(), |i: int| vectors[i]->Ok_0@)
}

/// Why the vector of a memory is refused.
pub open spec fn vector_refusal(source: SourceView, vector: Result<Vec<u32>, Error>) -> Option<
    Seq<char>,
> {
    embedding::upsert_refusal(source.id, EMBEDDING_MODEL_ID@, error::outcome(vector))
}

/// The message of an inference with a wrong number of vectors.
pub open spec fn wrong_number(vectors: int, sources: int) -> Seq<char> {
    "embedding inference returned "@ + text::decimal(vectors) + " vectors for "@ + text::decimal(
        sources,
    ) + " memories"@
}

/// Holds when `times` are `n` times that the system clock gave.
pub open spec fn clock_times(times: Seq<int>, n: nat) -> bool {
    &&& times.len() == n
    &&& forall|i: int| 0 <= i < times.len() ==> clock::clock_time(#[trigger] times[i])
}

/// Holds when committing vectors for the given memories turns `before` into `after`
/// and comes to `r`: with a wrong number of vectors nothing is stored; otherwise
/// the vectors are stored in turn up to the first that is refused.
pub open spec fn is_commit(
    before: StoreView,
    after: StoreView,
    cache_dir: Seq<char>,
    sources: Seq<SourceView>,
    vectors: Seq<Result<Vec<u32>, Error>>,
    r: Result<EmbeddingRunStats, Error>,
) -> bool {
    if vectors.len() != sources.len() {
        &&& r is Err
        &&& r->Err_0@ == wrong_number(vectors.len() as int, sources.len() as int)
        &&& after == before
    } else {
        match r {
            Ok(stats) => {
                &&& forall|i: int|
                    0 <= i < sources.len() ==> vector_refusal(
                        sources[i],
                        #[trigger] vectors[i],
                    ) is None
                &&& stats.model@ == EMBEDDING_MODEL_ID@
                &&& stats.cache_dir@ == cache_dir
                &&& stats.indexed == sources.filter(still_current(before)).len()
                &&& stats.indexed + stats.stale == sources.len()
                &&& stats.remaining == embedding::waiting(after, EMBEDDING_MODEL_ID@).len()
                &&& exists|times: Seq<int>|
                    clock_times(times, sources.len()) && after == #[trigger] committed(
                        before,
                        sources,
                        normalized(vectors),
                        times,
                    )
            },
            Err(e) => exists|n: int, times: Seq<int>|
                {
                    &&& 0 <= n < sources.len()
                    &&& match vector_refusal(sources[n], vectors[n]) {
                        Some(message) => e@ == message,
                        None => clock::clock_refusal(e@),
                    }
                    &&& forall|i: int|
                        0 <= i < n ==> vector_refusal(sources[i], #[trigger] vectors[i]) is None
                    &&& clock_times(times, n as nat)
                    &&& after == #[trigger] committed(
                        before,
                        sources.take(n),
                        normalized(vectors),
                        times,
                    )
                },
        }
    }
}

/// Holds when `sources` are the memories that a run embeds.
pub open spec fn is_batch(s: StoreView, sources: Seq<SourceView>, limit: int) -> bool {
    &&& sources.len() > 0
    &&& model::ranked(
        sources,
        embedding::waiting(s, EMBEDDING_MODEL_ID@),
        embedding::by_recency(),
        limit,
    )
}

impl Store {
    /// Decides what a run has to do. `cached` tells whether the model is cached.
    pub fn plan_embedding_run(&self, options: &EmbeddingRunOptions, cached: bool) -> (r: Result<
        RunPlan,
        Error,
    >)
        ensures
            match run_refusal(self@, options.limit as int, options.cached_only, cached) {
                Some(message) => r matches Err(e) && e@ == message,
                None => r is Ok && match r->Ok_0 {
                    RunPlan::Done(stats) => {
                        &&& !has_work(self@, options.cached_only, cached)
                        &&& stats.model@ == EMBEDDING_MODEL_ID@
                        &&& stats.cache_dir@ == options.cache_dir@
                        &&& stats.indexed == 0
                        &&& stats.stale == 0
                        &&& stats.remaining == embedding::waiting(self@, EMBEDDING_MODEL_ID@).len()
                    },
                    RunPlan::Embed(sources) => {
                        &&& has_work(self@, options.cached_only, cached)
                        &&& is_batch(self@, model::views(sources@), options.limit as int)
                    },
                },
            },
    {
        proof {
            recall::lemma_model_id_is_not_blank();
        }
        if options.limit == 0 {
            return Err(Error::new("embedding limit must be greater than zero"));
        }
        let remaining: u64 = self.embedding_coverage(EMBEDDING_MODEL_ID)?.unindexed;
        if remaining == 0 {
            return Ok(RunPlan::Done(run_stats(options, 0, 0, remaining)));
        }
        if options.cached_only && !cached {
            return Ok(RunPlan::Done(run_stats(options, 0, 0, remaining)));
        }
        let sources: Vec<EmbeddingSource> = self.pending_embedding_sources(
            EMBEDDING_MODEL_ID,
            options.limit,
        )?;
        proof {
            model::law_ranked_rows(
                model::views(sources@),
                embedding::waiting(self@, EMBEDDING_MODEL_ID@),
                embedding::by_recency(),
                options.limit as int,
            );
            assert(model::views(sources@).len() == sources@.len());
        }
        Ok(RunPlan::Embed(sources))
    }

    /// Stores the vectors that were made for the given memories, each unless its
    /// memory changed meanwhile. `vectors` tells for each of them what normalising
    /// it came to. Vectors in front of a refused one stay stored.
    pub fn commit_embeddings(
        &mut self,
        options: &EmbeddingRunOptions,
        sources: &Vec<EmbeddingSource>,
        vectors: &Vec<Result<Vec<u32>, Error>>,
    ) -> (r: Result<EmbeddingRunStats, Error>)
        ensures
            is_commit(
                old(self)@,
                final(self)@,
                options.cache_dir@,
                model::views(sources@),
                vectors@,
                r,
            ),
            vectors@.len() != sources@.len() ==> *final(self) == *old(self),
            old(self)@.wf() ==> final(self)@.wf(),
    {
        proof {
            recall::lemma_model_id_is_not_blank();
        }
        if vectors.len() != sources.len() {
            let given: String = decimal_u64(vectors.len() as u64);
            let wanted: String = decimal_u64(sources.len() as u64);
            return Err(
                Error::of5(
                    "embedding inference returned ",
                    given.as_str(),
                    " vectors for ",
                    wanted.as_str(),
                    " memories",
                ),
            );
        }
        let ghost before = self@;
        let ghost all = model::views(sources@);
        let ghost values = normalized(vectors@);
        let ghost p = still_current(before);
        let ghost mut times: Seq<int> = Seq::empty();
        let mut indexed: usize = 0;
        let mut stale: usize = 0;
        let mut i: usize = 0;
        assert(all.take(0).filter(p) =~= Seq::empty()) by {
            reveal(Seq::filter);
        }
        assert(all.take(0) =~= Seq::<SourceView>::empty());
        while i < sources.len()
            invariant
                i <= sources@.len(),
                vectors@.len() == sources@.len(),
                all == model::views(sources@),
                values == normalized(vectors@),
                p == still_current(before),
                clock_times(times, i as nat),
                indexed + stale == i,
                indexed == all.take(i as int).filter(p).len(),
                self@.memories == before.memories,
                self@ == committed(before, all.take(i as int), values, times),
                before.wf() ==> self@.wf(),
                before == old(self)@,
                forall|k: int|
                    0 <= k < i ==> vector_refusal(sources@[k]@, #[trigger] vectors@[k]) is None,
            decreases sources@.len() - i,
        {
            let source: &EmbeddingSource = &sources[i];
            let given: Result<Vec<u32>, Error> = copy_vector(&vectors[i]);
            let ghost middle = self@;
            assert(error::outcome(given) == error::outcome(vectors@[i as int]));
            let stored: Result<bool, Error> = self.upsert_embedding_if_current(
                source.id.as_str(),
                source.updated_at,
                EMBEDDING_MODEL_ID,
                given,
            );
            match stored {
                Err(e) => {
                    assert(self@ == committed(before, all.take(i as int), values, times));
                    return Err(e);
                },
                Ok(one) => {
                    proof {
                        let now = choose|now: int|
                            clock::clock_time(now) && self@ == #[trigger] embedding::with_vector(
                                middle,
                                source.id@,
                                source.updated_at as int,
                                EMBEDDING_MODEL_ID@,
                                values[i as int],
                                now,
                            );
                        let more = times.push(now);
                        lemma_committed_prefix(before, all.take(i as int), values, times, more);
                        times = more;
                        assert(all.take(i + 1).drop_last() =~= all.take(i as int));
                        assert(all[i as int] == source@);
                        model::lemma_filter_step(all, i as int, p);
                    }
                    if one {
                        indexed = indexed + 1;
                    } else {
                        stale = stale + 1;
                    }
                },
            }
            i = i + 1;
        }
        assert(all.take(i as int) =~= all);
        let remaining: u64 = self.embedding_coverage(EMBEDDING_MODEL_ID)?.unindexed;
        Ok(run_stats(options, indexed, stale, remaining))
    }
}

impl Store {
    /// Makes missing vectors. `cached` tells whether the model is cached, and `embed`
    /// makes the vectors of the given memories.
    pub fn run_embedding_index<
        F: Fn(&Vec<EmbeddingSource>) -> Result<Vec<Result<Vec<u32>, Error>>, Error>,
    >(&mut self, options: EmbeddingRunOptions, cached: bool, embed: F) -> (r: Result<
        EmbeddingRunStats,
        Error,
    >)
        requires
            forall|sources: &Vec<EmbeddingSource>| #[trigger] call_requires(embed, (sources,)),
        ensures
            run_refusal(old(self)@, options.limit as int, options.cached_only, cached) matches Some(
                message,
            ) ==> r is Err && r->Err_0@ == message && *final(self) == *old(self),
            run_refusal(old(self)@, options.limit as int, options.cached_only, cached) is None
                && !has_work(old(self)@, options.cached_only, cached) ==> {
                &&& r is Ok
                &&& r->Ok_0.model@ == EMBEDDING_MODEL_ID@
                &&& r->Ok_0.cache_dir@ == options.cache_dir@
                &&& r->Ok_0.indexed == 0
                &&& r->Ok_0.stale == 0
                &&& r->Ok_0.remaining == embedding::waiting(
                    old(self)@,
                    EMBEDDING_MODEL_ID@,
                ).len()
                &&& *final(self) == *old(self)
            },
            run_refusal(old(self)@, options.limit as int, options.cached_only, cached) is None
                && has_work(old(self)@, options.cached_only, cached) ==> exists|
                sources: Vec<EmbeddingSource>,
                out: Result<Vec<Result<Vec<u32>, Error>>, Error>,
            |
                is_batch(old(self)@, model::views(sources@), options.limit as int)
                    && #[trigger] call_ensures(embed, (&sources,), out) && match out {
                    Err(e) => r is Err && r->Err_0@ == e@ && *final(self) == *old(self),
                    Ok(vectors) => is_commit(
                        old(self)@,
                        final(self)@,
                        options.cache_dir@,
                        model::views(sources@),
                        vectors@,
                        r,
                    ),
                },
            old(self)@.wf() ==> final(self)@.wf(),
    {
        match self.plan_embedding_run(&options, cached)? {
            RunPlan::Done(stats) => Ok(stats),
            RunPlan::Embed(sources) => {
                let out: Result<Vec<Result<Vec<u32>, Error>>, Error> = embed(&sources);
                assert(call_ensures(embed, (&sources,), out));
                match out {
                    Err(e) => Err(e),
                    Ok(vectors) => self.commit_embeddings(&options, &sources, &vectors),
                }
            },
        }
    }
}

/// Copies the outcome of normalising a vector.
fn copy_vector(v: &Result<Vec<u32>, Error>) -> (r: Result<Vec<u32>, Error>)
    ensures
        error::outcome(r) == error::outcome(*v),
{
    match v {
        Err(e) => Err(Error::new(e.message.as_str())),
        Ok(bits) => {
            let mut out: Vec<u32> = Vec::new();
            let mut i: usize = 0;
            while i < bits.len()
                invariant
                    i <= bits@.len(),
                    out@ == bits@.take(i as int),
                decreases bits@.len() - i,
            {
                out.push(bits[i]);
                assert(out@ =~= bits@.take(i + 1));
                i = i + 1;
            }
            assert(bits@.take(i as int) =~= bits@);
            Ok(out)
        },
    }
}

/// Times behind the vectors that came in do not matter.
proof fn lemma_committed_prefix(
    s: StoreView,
    sources: Seq<SourceView>,
    vectors: Seq<Seq<u32>>,
    times: Seq<int>,
    more: Seq<int>,
)
    requires
        times.len() >= sources.len(),
        more.len() >= sources.len(),
        forall|i: int| 0 <= i < sources.len() ==> times[i] == #[trigger] more[i],
    ensures
        committed(s, sources, vectors, times) == committed(s, sources, vectors, more),
    decreases sources.len(),
{
    if sources.len() > 0 {
        lemma_committed_prefix(s, sources.drop_last(), vectors, times, more);
        assert(times[sources.len() - 1] == more[sources.len() - 1]);
    }
}

/// Holds when each of the given memories is one that waits for a vector, none twice.
pub open spec fn waits(s: StoreView, sources: Seq<SourceView>) -> bool {
    &&& model::distinct(sources, |source: SourceView| source.id)
    &&& forall|i: int|
        0 <= i < sources.len() ==> embedding::waiting(s, EMBEDDING_MODEL_ID@).contains(
            #[trigger] sources[i],
        )
}

/// The memory that a waiting one was read from.
proof fn lemma_waiting_memory(s: StoreView, source: SourceView) -> (m: MemoryView)
    requires
        embedding::waiting(s, EMBEDDING_MODEL_ID@).contains(source),
    ensures
        s.memories.contains(m),
        embedding::uncovered(s.embeddings, EMBEDDING_MODEL_ID@)(m),
        m.id == source.id,
        m.updated_at == source.updated_at,
{
    let p = embedding::uncovered(s.embeddings, EMBEDDING_MODEL_ID@);
    let all = embedding::waiting(s, EMBEDDING_MODEL_ID@);
    let i = choose|i: int| 0 <= i < all.len() && all[i] == source;
    model::lemma_filter_contains(s.memories, p);
    let m = s.memories.filter(p)[i];
    assert(p(m));
    m
}

/// Each vector of a waiting memory leaves one memory less waiting.
proof fn lemma_committed_waiting(
    s: StoreView,
    sources: Seq<SourceView>,
    vectors: Seq<Seq<u32>>,
    times: Seq<int>,
)
    requires
        model::distinct(s.memories, memory::id_key()),
        waits(s, sources),
    ensures
        ({
            let t = committed(s, sources, vectors, times);
            &&& t.memories == s.memories
            &&& embedding::waiting(t, EMBEDDING_MODEL_ID@).len() + sources.len()
                == embedding::waiting(s, EMBEDDING_MODEL_ID@).len()
            &&& forall|m: MemoryView|
                (forall|i: int| 0 <= i < sources.len() ==> (#[trigger] sources[i]).id != m.id)
                    ==> (#[trigger] embedding::uncovered(t.embeddings, EMBEDDING_MODEL_ID@)(m)
                    == embedding::uncovered(s.embeddings, EMBEDDING_MODEL_ID@)(m))
        }),
    decreases sources.len(),
{
    if sources.len() > 0 {
        let n = sources.len() - 1;
        let front = sources.drop_last();
        let key = |source: SourceView| source.id;
        assert forall|i: int, j: int| 0 <= i < j < front.len() implies key(#[trigger] front[i])
            != key(#[trigger] front[j]) by {
            assert(front[i] == sources[i] && front[j] == sources[j]);
        }
        assert forall|i: int| 0 <= i < front.len() implies embedding::waiting(
            s,
            EMBEDDING_MODEL_ID@,
        ).contains(#[trigger] front[i]) by {
            assert(front[i] == sources[i]);
        }
        lemma_committed_waiting(s, front, vectors, times);
        let middle = committed(s, front, vectors, times);
        let m = lemma_waiting_memory(s, sources[n]);
        assert forall|i: int| 0 <= i < front.len() implies (#[trigger] front[i]).id != m.id by {
            assert(front[i] == sources[i]);
            assert(key(sources[i]) != key(sources[n]));
        }
        assert(embedding::uncovered(middle.embeddings, EMBEDDING_MODEL_ID@)(m));
        embedding::law_vector_leaves_one_less_waiting(
            middle,
            m,
            EMBEDDING_MODEL_ID@,
            vectors[n],
            times[n],
        );
        let t = committed(s, sources, vectors, times);
        assert forall|other: MemoryView|
            (forall|i: int| 0 <= i < sources.len() ==> (#[trigger] sources[i]).id
                != other.id) implies (#[trigger] embedding::uncovered(
            t.embeddings,
            EMBEDDING_MODEL_ID@,
        )(other) == embedding::uncovered(s.embeddings, EMBEDDING_MODEL_ID@)(other)) by {
            assert(sources[n].id != other.id);
            assert forall|i: int| 0 <= i < front.len() implies (#[trigger] front[i]).id
                != other.id by {
                assert(front[i] == sources[i]);
            }
            assert(embedding::uncovered(middle.embeddings, EMBEDDING_MODEL_ID@)(other)
                == embedding::uncovered(s.embeddings, EMBEDDING_MODEL_ID@)(other));
            embedding::lemma_vector_of_another(
                middle,
                sources[n].id,
                sources[n].updated_at,
                EMBEDDING_MODEL_ID@,
                vectors[n],
                times[n],
                other,
            );
        }
    }
}

/// What a run reports adds up: it indexes as many of the waiting memories as its limit
/// allows, none of them is stale, and the others remain. A refused run leaves the vectors
/// that came in before, so that no memory waits again.
pub proof fn law_run_counts_add_up(
    before: StoreView,
    after: StoreView,
    cache_dir: Seq<char>,
    sources: Seq<SourceView>,
    vectors: Seq<Result<Vec<u32>, Error>>,
    limit: int,
    r: Result<EmbeddingRunStats, Error>,
)
    requires
        before.wf(),
        limit > 0,
        is_batch(before, sources, limit),
        is_commit(before, after, cache_dir, sources, vectors, r),
    ensures
        ({
            let waiting = embedding::waiting(before, EMBEDDING_MODEL_ID@).len();
            let remaining = embedding::waiting(after, EMBEDDING_MODEL_ID@).len();
            match r {
                Ok(stats) => {
                    &&& stats.indexed == (if limit < waiting {
                        limit
                    } else {
                        waiting as int
                    })
                    &&& stats.stale == 0
                    &&& stats.remaining == remaining
                    &&& stats.remaining + stats.indexed == waiting
                },
                Err(_) => waiting - sources.len() < remaining <= waiting,
            }
        }),
{
    let all = embedding::waiting(before, EMBEDDING_MODEL_ID@);
    let p = embedding::uncovered(before.embeddings, EMBEDDING_MODEL_ID@);
    let kept = before.memories.filter(p);
    let key = |source: SourceView| source.id;
    model::law_ranked_rows(sources, all, embedding::by_recency(), limit);
    model::lemma_distinct_filter(before.memories, p, memory::id_key());
    assert(model::distinct(all, key)) by {
        assert forall|i: int, j: int| 0 <= i < j < all.len() implies key(#[trigger] all[i]) != key(
            #[trigger] all[j],
        ) by {
            assert(memory::id_key()(kept[i]) != memory::id_key()(kept[j]));
        }
    }
    model::lemma_ranked_distinct(sources, all, embedding::by_recency(), limit, key);
    assert(waits(before, sources));
    if vectors.len() == sources.len() {
        match r {
            Ok(stats) => {
                let current = still_current(before);
                assert forall|i: int| 0 <= i < sources.len() implies current(
                    #[trigger] sources[i],
                ) by {
                    let m = lemma_waiting_memory(before, sources[i]);
                    let q = embedding::in_version(sources[i].id, sources[i].updated_at);
                    let k = choose|k: int|
                        0 <= k < before.memories.len() && before.memories[k] == m;
                    assert(q(before.memories[k]));
                    model::lemma_filter_contains(before.memories, q);
                    model::lemma_distinct_filter_len(before.memories, q, memory::id_key());
                }
                model::lemma_filter_all(sources, current);
                let times = choose|times: Seq<int>|
                    clock_times(times, sources.len()) && after == #[trigger] committed(
                        before,
                        sources,
                        normalized(vectors),
                        times,
                    );
                lemma_committed_waiting(before, sources, normalized(vectors), times);
            },
            Err(e) => {
                let (n, times) = choose|n: int, times: Seq<int>|
                    {
                        &&& 0 <= n < sources.len()
                        &&& match vector_refusal(sources[n], vectors[n]) {
                            Some(message) => e@ == message,
                            None => clock::clock_refusal(e@),
                        }
                        &&& forall|i: int|
                            0 <= i < n ==> vector_refusal(
                                sources[i],
                                #[trigger] vectors[i],
                            ) is None
                        &&& clock_times(times, n as nat)
                        &&& after == #[trigger] committed(
                            before,
                            sources.take(n),
                            normalized(vectors),
                            times,
                        )
                    };
                let front = sources.take(n);
                assert forall|i: int, j: int| 0 <= i < j < front.len() implies key(
                    #[trigger] front[i],
                ) != key(#[trigger] front[j]) by {
                    assert(front[i] == sources[i] && front[j] == sources[j]);
                }
                assert(waits(before, front));
                lemma_committed_waiting(before, front, normalized(vectors), times);
            },
        }
    }
}

/// The directory of the model in the cache.
pub const EMBEDDING_MODEL_DIR: &'static str = "models--Qdrant--bge-small-en-v1.5-onnx-Q";

/// The files that make up the model.
pub open spec fn model_files() -> Seq<Seq<char>> {
    seq![
        "model_optimized.onnx"@,
        "tokenizer.json"@,
        "config.json"@,
        "special_tokens_map.json"@,
        "tokenizer_config.json"@,
    ]
}

/// The names of the files that make up the model.
pub fn embedding_model_files() -> (r: Vec<String>)
    ensures
        model::views(r@) == model_files(),
{
    let mut out: Vec<String> = Vec::new();
    out.push("model_optimized.onnx".to_owned());
    out.push("tokenizer.json".to_owned());
    out.push("config.json".to_owned());
    out.push("special_tokens_map.json".to_owned());
    out.push("tokenizer_config.json".to_owned());
    assert(model::views(out@) =~= model_files());
    out
}

/// Where the snapshot of the model lies below the cache directory, given what the
/// main reference of the model says, if there is one.
pub open spec fn snapshot_path(reference: Option<Seq<char>>) -> Option<Seq<Seq<char>>> {
    match reference {
        Some(commit) => if text::blank(commit) {
            None
        } else {
            Some(seq![EMBEDDING_MODEL_DIR@, "snapshots"@, text::trimmed(commit)])
        },
        None => None,
    }
}

/// The path of the snapshot of the model below the cache directory.
pub fn cached_model_snapshot(reference: &Option<String>) -> (r: Option<Vec<String>>)
    ensures
        match r {
            Some(path) => snapshot_path(model::text_of(*reference)) == Some(model::views(path@)),
            None => snapshot_path(model::text_of(*reference)) is None,
        },
{
    match reference {
        None => None,
        Some(commit) => {
            if is_blank(commit.as_str()) {
                return None;
            }
            let mut path: Vec<String> = Vec::new();
            path.push(EMBEDDING_MODEL_DIR.to_owned());
            path.push("snapshots".to_owned());
            path.push(trim(commit.as_str()));
            assert(model::views(path@) =~= seq![
                EMBEDDING_MODEL_DIR@,
                "snapshots"@,
                text::trimmed(commit@),
            ]);
            Some(path)
        },
    }
}

/// Selects one name.
pub open spec fn named(name: Seq<char>) -> spec_fn(Seq<char>) -> bool {
    |file: Seq<char>| file == name
}

/// Holds when all files of the model are among those present.
pub open spec fn is_complete(present: Seq<Seq<char>>) -> bool {
    forall|i: int|
        0 <= i < model_files().len() ==> model::any_row(
            present,
            named(#[trigger] model_files()[i]),
        )
}

/// Tells whether the model is cached, given what its main reference says, if there
/// is one, and the files that are present in the snapshot it names.
pub fn model_is_cached(reference: &Option<String>, present: &Vec<String>) -> (r: bool)
    ensures
        r == (snapshot_path(model::text_of(*reference)) is Some && is_complete(
            model::views(present@),
        )),
{
    if cached_model_snapshot(reference).is_none() {
        return false;
    }
    let files: Vec<String> = embedding_model_files();
    let mut i: usize = 0;
    while i < files.len()
        invariant
            i <= files@.len(),
            model::views(files@) == model_files(),
            snapshot_path(model::text_of(*reference)) is Some,
            forall|k: int|
                0 <= k < i ==> model::any_row(
                    model::views(present@),
                    named(#[trigger] model_files()[k]),
                ),
        decreases files@.len() - i,
    {
        let wanted: &str = files[i].as_str();
        assert(model_files()[i as int] == model::views(files@)[i as int]);
        let test = |file: &String| -> (r: bool)
            ensures
                r == named(wanted@)(file@),
            { same(file.as_str(), wanted) };
        if !model::has(present, test, Ghost(named(wanted@))) {
            return false;
        }
        i = i + 1;
    }
    assert(model::views(files@).len() == files@.len());
    true
}

/// Which directory the model is cached in: the one that `MEM_MODEL_CACHE` names, the
/// one that `HF_HOME` names, or one below the local cache directory.
#[derive(Debug, Clone, Copy, PartialEq, Eq, Structural)]
pub enum CacheChoice {
    ModelCache,
    HfHome,
    LocalCache,
}

/// The outcome of choosing the directory: for each variable whether it is set and,
/// if so, whether it is empty, and whether there is a local cache directory.
pub open spec fn cache_choice(
    model_cache_empty: Option<bool>,
    hf_home_empty: Option<bool>,
    has_local_cache: bool,
) -> Result<CacheChoice, Seq<char>> {
    match (model_cache_empty, hf_home_empty) {
        (Some(empty), _) => if empty {
            Err("MEM_MODEL_CACHE cannot be empty"@)
        } else {
            Ok(CacheChoice::ModelCache)
        },
        (None, Some(empty)) => if empty {
            Err("HF_HOME cannot be empty"@)
        } else {
            Ok(CacheChoice::HfHome)
        },
        (None, None) => if has_local_cache {
            Ok(CacheChoice::LocalCache)
        } else {
            Err("could not determine the local cache directory"@)
        },
    }
}

/// Chooses the directory that the model is cached in.
pub fn model_cache_dir(
    model_cache_empty: Option<bool>,
    hf_home_empty: Option<bool>,
    has_local_cache: bool,
) -> (r: Result<CacheChoice, Error>)
    ensures
        match cache_choice(model_cache_empty, hf_home_empty, has_local_cache) {
            Ok(choice) => r matches Ok(given) && given == choice,
            Err(message) => r matches Err(e) && e@ == message,
        },
{
    if let Some(empty) = model_cache_empty {
        if empty {
            return Err(Error::new("MEM_MODEL_CACHE cannot be empty"));
        }
        return Ok(CacheChoice::ModelCache);
    }
    if let Some(empty) = hf_home_empty {
        if empty {
            return Err(Error::new("HF_HOME cannot be empty"));
        }
        return Ok(CacheChoice::HfHome);
    }
    if !has_local_cache {
        return Err(Error::new("could not determine the local cache directory"));
    }
    Ok(CacheChoice::LocalCache)
}

/// What is to be done to get the vector of a recall query: nothing without a cached
/// model, and otherwise to embed it.
pub fn embed_query_if_cached(query: &str, cached: bool) -> (r: Result<bool, Error>)
    ensures
        text::blank(query@) ==> r is Err && r->Err_0@ == "semantic recall query cannot be empty"@,
        !text::blank(query@) ==> r is Ok && r->Ok_0 == cached,
{
    if is_blank(query) {
        return Err(Error::new("semantic recall query cannot be empty"));
    }
    Ok(cached)
}

/// Checks a query before it is embedded.
pub fn validate_query(query: &str) -> (r: Result<(), Error>)
    ensures
        error::refusal(r) == (if text::blank(query@) {
            Some("semantic search query cannot be empty"@)
        } else {
            None
        }),
{
    if is_blank(query) {
        return Err(Error::new("semantic search query cannot be empty"));
    }
    Ok(())
}

/// The vector of a query among those that inference returned for it.
pub fn query_vector(vectors: Vec<Vec<u32>>) -> (r: Result<Vec<u32>, Error>)
    ensures
        if vectors@.len() == 1 {
            r matches Ok(v) && v@ == vectors@[0]@
        } else {
            r matches Err(e) && e@ == "embedding inference returned "@ + text::decimal(
                vectors@.len() as int,
            ) + " vectors for one search query"@
        },
{
    if vectors.len() != 1 {
        let given: String = decimal_u64(vectors.len() as u64);
        return Err(
            Error::of3(
                "embedding inference returned ",
                given.as_str(),
                " vectors for one search query",
            ),
        );
    }
    let mut rest: Vec<Vec<u32>> = vectors;
    Ok(rest.remove(0))
}

} // verus!
