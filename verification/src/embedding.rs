//! Stored vectors of memories.

use crate::clock;
use crate::clock::{to_i64, unix_millis};
use crate::error;
use crate::error::Error;
use crate::memory;
use crate::memory::{validate_identity, Memory, MemoryView};
use crate::model;
use crate::model::{copy_bytes, count, has, rewrite, select, top_by, Row};
use crate::order::{Key, KeyView};
use crate::store;
use crate::store::{Store, StoreView};
use crate::text::same;
use crate::vector;
use crate::vector::encode_vector;
use vstd::prelude::*;
use vstd::string::*;

verus! {

/// The vector of a memory under a model, with the version of the memory it was made from.
#[derive(Debug)]
pub struct Embedding {
    pub memory_id: String,
    pub model: String,
    pub dimensions: i64,
    pub vector: Vec<u8>,
    pub source_updated_at: i64,
    pub updated_at: i64,
}

/// Model of a stored vector.
#[verifier::ext_equal]
pub struct EmbeddingView {
    pub memory_id: Seq<char>,
    pub model: Seq<char>,
    pub dimensions: int,
    pub vector: Seq<u8>,
    pub source_updated_at: int,
    pub updated_at: int,
}

impl View for Embedding {
    type V = EmbeddingView;

    open spec fn view(&self) -> EmbeddingView {
        EmbeddingView {
            memory_id: self.memory_id@,
            model: self.model@,
            dimensions: self.dimensions as int,
            vector: self.vector@,
            source_updated_at: self.source_updated_at as int,
            updated_at: self.updated_at as int,
        }
    }
}

impl Row for Embedding {
    fn duplicate(&self) -> (r: Embedding) {
        Embedding {
            memory_id: self.memory_id.clone(),
            model: self.model.clone(),
            dimensions: self.dimensions,
            vector: copy_bytes(&self.vector),
            source_updated_at: self.source_updated_at,
            updated_at: self.updated_at,
        }
    }
}

/// Selects the vectors of other memories.
pub open spec fn not_of_memory(id: Seq<char>) -> spec_fn(EmbeddingView) -> bool {
    |e: EmbeddingView| e.memory_id != id
}

/// The memory and the model of a vector.
pub open spec fn pair_key() -> spec_fn(EmbeddingView) -> (Seq<char>, Seq<char>) {
    |e: EmbeddingView| (e.memory_id, e.model)
}

/// Tells whether a vector is not one of the memory.
pub fn is_not_of_memory(e: &Embedding, id: &str) -> (r: bool)
    ensures
        r == not_of_memory(id@)(e@),
{
    !same(e.memory_id.as_str(), id)
}

/// How far the active memories have current vectors.
#[derive(Debug, Clone, Copy)]
pub struct EmbeddingCoverage {
    pub indexed: u64,
    pub unindexed: u64,
}

/// A memory that waits for a vector.
#[derive(Debug)]
pub struct EmbeddingSource {
    pub id: String,
    pub text: String,
    pub updated_at: i64,
}

/// Model of a memory that waits for a vector.
#[verifier::ext_equal]
pub struct SourceView {
    pub id: Seq<char>,
    pub text: Seq<char>,
    pub updated_at: int,
}

impl View for EmbeddingSource {
    type V = SourceView;

    open spec fn view(&self) -> SourceView {
        SourceView { id: self.id@, text: self.text@, updated_at: self.updated_at as int }
    }
}

impl Row for EmbeddingSource {
    fn duplicate(&self) -> (r: EmbeddingSource) {
        EmbeddingSource {
            id: self.id.clone(),
            text: self.text.clone(),
            updated_at: self.updated_at,
        }
    }
}

/// Selects the vector of a memory in its current version.
pub open spec fn current_for(m: MemoryView, model: Seq<char>) -> spec_fn(EmbeddingView) -> bool {
    |e: EmbeddingView| e.memory_id == m.id && e.model == model && e.source_updated_at
        == m.updated_at
}

/// Selects the active memories with a current vector.
pub open spec fn covered(embeddings: Seq<EmbeddingView>, model: Seq<char>) -> spec_fn(
    MemoryView,
) -> bool {
    |m: MemoryView| m.status == "active"@ && model::any_row(embeddings, current_for(m, model))
}

/// Selects the active memories without a current vector.
pub open spec fn uncovered(embeddings: Seq<EmbeddingView>, model: Seq<char>) -> spec_fn(
    MemoryView,
) -> bool {
    |m: MemoryView| m.status == "active"@ && !model::any_row(embeddings, current_for(m, model))
}

/// What of a memory is needed to make its vector.
pub open spec fn source_of() -> spec_fn(MemoryView) -> SourceView {
    |m: MemoryView| SourceView { id: m.id, text: m.text, updated_at: m.updated_at }
}

/// The order in which vectors are made: the latest change first.
pub open spec fn by_recency() -> spec_fn(SourceView) -> KeyView {
    |s: SourceView| KeyView { first: -s.updated_at, second: 0, third: 0, text: s.id }
}

/// The memories that wait for a vector.
pub open spec fn waiting(s: StoreView, model: Seq<char>) -> Seq<SourceView> {
    s.memories.filter(uncovered(s.embeddings, model)).map_values(source_of())
}

/// Why a request for memories that wait for a vector is refused.
pub open spec fn pending_refusal(model: Seq<char>, limit: int) -> Option<Seq<char>> {
    error::either(
        memory::identity_refusal(model, "embedding model"@),
        if limit == 0 {
            Some("embedding limit must be greater than zero"@)
        } else if limit > i64::MAX {
            Some(clock::out_of_range())
        } else {
            None
        },
    )
}

impl Store {
    /// Tells whether a memory has a current vector.
    fn has_current(&self, m: &Memory, model: &str) -> (r: bool)
        ensures
            r == model::any_row(self@.embeddings, current_for(m@, model@)),
    {
        let test = |e: &Embedding| -> (r: bool)
            ensures
                r == current_for(m@, model@)(e@),
            {
                same(e.memory_id.as_str(), m.id.as_str()) && same(e.model.as_str(), model)
                    && e.source_updated_at == m.updated_at
            };
        has(&self.embeddings, test, Ghost(current_for(m@, model@)))
    }

    /// Counts the active memories with and without a current vector.
    pub fn embedding_coverage(&self, model: &str) -> (r: Result<EmbeddingCoverage, Error>)
        ensures
            match memory::identity_refusal(model@, "embedding model"@) {
                Some(message) => r matches Err(e) && e@ == message,
                None => r matches Ok(c) && {
                    &&& c.indexed == self@.memories.filter(covered(self@.embeddings, model@)).len()
                    &&& c.unindexed == waiting(self@, model@).len()
                },
            },
    {
        validate_identity(model, "embedding model")?;
        let with = |m: &Memory| -> (r: bool)
            ensures
                r == covered(self@.embeddings, model@)(m@),
            { same(m.status.as_str(), "active") && self.has_current(m, model) };
        let without = |m: &Memory| -> (r: bool)
            ensures
                r == uncovered(self@.embeddings, model@)(m@),
            { same(m.status.as_str(), "active") && !self.has_current(m, model) };
        let indexed: usize = count(
            &self.memories,
            with,
            Ghost(covered(self@.embeddings, model@)),
        );
        let unindexed: usize = count(
            &self.memories,
            without,
            Ghost(uncovered(self@.embeddings, model@)),
        );
        Ok(EmbeddingCoverage { indexed: indexed as u64, unindexed: unindexed as u64 })
    }

    /// Tells whether every active memory has a current vector.
    pub fn has_complete_coverage(&self, model: &str) -> (r: Result<bool, Error>)
        ensures
            match memory::identity_refusal(model@, "embedding model"@) {
                Some(message) => r matches Err(e) && e@ == message,
                None => r matches Ok(complete) && complete == (waiting(self@, model@).len() == 0),
            },
    {
        Ok(self.embedding_coverage(model)?.unindexed == 0)
    }

    /// The memories that wait for a vector, the latest change first.
    pub fn pending_embedding_sources(&self, model: &str, limit: usize) -> (r: Result<
        Vec<EmbeddingSource>,
        Error,
    >)
        ensures
            match pending_refusal(model@, limit as int) {
                Some(message) => r matches Err(e) && e@ == message,
                None => r matches Ok(sources) && model::ranked(
                    model::views(sources@),
                    waiting(self@, model@),
                    by_recency(),
                    limit as int,
                ),
            },
    {
        validate_identity(model, "embedding model")?;
        if limit == 0 {
            return Err(Error::new("embedding limit must be greater than zero"));
        }
        to_i64(limit as u128)?;
        let without = |m: &Memory| -> (r: bool)
            ensures
                r == uncovered(self@.embeddings, model@)(m@),
            { same(m.status.as_str(), "active") && !self.has_current(m, model) };
        let rows: Vec<Memory> = select(
            &self.memories,
            without,
            Ghost(uncovered(self@.embeddings, model@)),
        );
        let ghost wanted = waiting(self@, model@);
        let mut sources: Vec<EmbeddingSource> = Vec::new();
        let mut i: usize = 0;
        while i < rows.len()
            invariant
                i <= rows@.len(),
                sources@.len() == i,
                wanted == model::views(rows@).map_values(source_of()),
                forall|k: int| 0 <= k < i ==> (#[trigger] sources@[k])@ == wanted[k],
            decreases rows@.len() - i,
        {
            let m: &Memory = &rows[i];
            assert(model::views(rows@)[i as int] == m@);
            sources.push(
                EmbeddingSource {
                    id: m.id.clone(),
                    text: m.text.clone(),
                    updated_at: m.updated_at,
                },
            );
            i = i + 1;
        }
        assert(model::views(sources@) =~= wanted);
        let key_of = |s: &EmbeddingSource| -> (r: Key)
            ensures
                r@ == by_recency()(s@),
            { Key { first: -(s.updated_at as i128), second: 0, third: 0, text: s.id.clone() } };
        Ok(top_by(&sources, key_of, Ghost(by_recency()), limit))
    }
}

/// Selects the active memory with an identifier in a version.
pub open spec fn in_version(id: Seq<char>, updated_at: int) -> spec_fn(MemoryView) -> bool {
    |m: MemoryView| m.id == id && m.status == "active"@ && m.updated_at == updated_at
}

/// Selects the vector of a memory under a model.
pub open spec fn of_pair(id: Seq<char>, model: Seq<char>) -> spec_fn(EmbeddingView) -> bool {
    |e: EmbeddingView| e.memory_id == id && e.model == model
}

/// A vector, replaced by a new one if that is for the same memory and model.
pub open spec fn replace_by(new: EmbeddingView) -> spec_fn(EmbeddingView) -> EmbeddingView {
    |e: EmbeddingView|
        if of_pair(new.memory_id, new.model)(e) {
            new
        } else {
            e
        }
}

/// The vectors with a new one in place of that for the same memory and model.
pub open spec fn upserted(embeddings: Seq<EmbeddingView>, new: EmbeddingView) -> Seq<
    EmbeddingView,
> {
    if model::any_row(embeddings, of_pair(new.memory_id, new.model)) {
        embeddings.map_values(replace_by(new))
    } else {
        embeddings.push(new)
    }
}

/// Why a vector is refused, given what normalising it came to.
pub open spec fn upsert_refusal(
    memory_id: Seq<char>,
    model: Seq<char>,
    normalized: Result<Seq<u32>, Seq<char>>,
) -> Option<Seq<char>> {
    error::either(
        memory::identity_refusal(memory_id, "memory ID"@),
        error::either(
            memory::identity_refusal(model, "embedding model"@),
            match normalized {
                Err(message) => Some(message),
                Ok(v) => if v.len() > i64::MAX {
                    Some(clock::out_of_range())
                } else {
                    None
                },
            },
        ),
    )
}

/// The row of a vector made from a version of a memory.
pub open spec fn row_for(
    memory_id: Seq<char>,
    source_updated_at: int,
    model: Seq<char>,
    v: Seq<u32>,
    now: int,
) -> EmbeddingView {
    EmbeddingView {
        memory_id,
        model,
        dimensions: v.len() as int,
        vector: vector::encoded(v),
        source_updated_at,
        updated_at: now,
    }
}

/// The store after a vector made from a version of a memory came in: unless that
/// is the current version of an active memory, nothing changes.
pub open spec fn with_vector(
    s: StoreView,
    memory_id: Seq<char>,
    source_updated_at: int,
    model: Seq<char>,
    v: Seq<u32>,
    now: int,
) -> StoreView {
    if model::any_row(s.memories, in_version(memory_id, source_updated_at)) {
        StoreView {
            embeddings: upserted(
                s.embeddings,
                row_for(memory_id, source_updated_at, model, v, now),
            ),
            ..s
        }
    } else {
        s
    }
}

impl Store {
    /// Stores the vector of a memory, made from a version of it, unless that
    /// version is no longer current. `normalized` is what normalising the vector
    /// came to. Tells whether one memory is in that version.
    pub fn upsert_embedding_at(
        &mut self,
        memory_id: &str,
        source_updated_at: i64,
        model: &str,
        normalized: Result<Vec<u32>, Error>,
        now: i64,
    ) -> (r: Result<bool, Error>)
        ensures
            match upsert_refusal(memory_id@, model@, error::outcome(normalized)) {
                Some(message) => (r matches Err(e) && e@ == message) && *final(self) == *old(self),
                None => {
                    &&& r matches Ok(stored) && stored == (old(self)@.memories.filter(
                        in_version(memory_id@, source_updated_at as int),
                    ).len() == 1)
                    &&& final(self)@ == with_vector(
                        old(self)@,
                        memory_id@,
                        source_updated_at as int,
                        model@,
                        normalized->Ok_0@,
                        now as int,
                    )
                },
            },
            old(self)@.wf() ==> final(self)@.wf(),
    {
        let ghost before = self@;
        let v: Vec<u32> = storable(memory_id, model, normalized)?;
        let test = |m: &Memory| -> (r: bool)
            ensures
                r == in_version(memory_id@, source_updated_at as int)(m@),
            {
                same(m.id.as_str(), memory_id) && same(m.status.as_str(), "active")
                    && m.updated_at == source_updated_at
            };
        let ghost p = in_version(memory_id@, source_updated_at as int);
        let current: usize = count(&self.memories, test, Ghost(p));
        proof {
            model::lemma_first_row(before.memories, p);
        }
        if current == 0 {
            return Ok(false);
        }
        let new: Embedding = Embedding {
            memory_id: memory_id.to_owned(),
            model: model.to_owned(),
            dimensions: v.len() as i64,
            vector: encode_vector(&v),
            source_updated_at,
            updated_at: now,
        };
        let pair = |e: &Embedding| -> (r: bool)
            ensures
                r == of_pair(memory_id@, model@)(e@),
            { same(e.memory_id.as_str(), memory_id) && same(e.model.as_str(), model) };
        if has(&self.embeddings, pair, Ghost(of_pair(memory_id@, model@))) {
            let change = |e: &Embedding| -> (r: Embedding)
                ensures
                    r@ == replace_by(new@)(e@),
                {
                    if same(e.memory_id.as_str(), memory_id) && same(e.model.as_str(), model) {
                        new.duplicate()
                    } else {
                        e.duplicate()
                    }
                };
            self.embeddings = rewrite(&self.embeddings, change, Ghost(replace_by(new@)));
        } else {
            let ghost rows = self@.embeddings;
            let ghost added = new@;
            self.embeddings.push(new);
            assert(self@.embeddings =~= rows.push(added));
        }
        proof {
            if before.wf() {
                lemma_with_vector_wf(
                    before,
                    memory_id@,
                    source_updated_at as int,
                    model@,
                    v@,
                    now as int,
                );
            }
        }
        Ok(current == 1)
    }

    /// Stores the vector of a memory, made from a version of it, at the current
    /// time, unless that version is no longer current.
    pub fn upsert_embedding_if_current(
        &mut self,
        memory_id: &str,
        source_updated_at: i64,
        model: &str,
        normalized: Result<Vec<u32>, Error>,
    ) -> (r: Result<bool, Error>)
        ensures
            match upsert_refusal(memory_id@, model@, error::outcome(normalized)) {
                Some(message) => (r matches Err(e) && e@ == message) && *final(self) == *old(self),
                None => match r {
                    Ok(stored) => {
                        &&& stored == (old(self)@.memories.filter(
                            in_version(memory_id@, source_updated_at as int),
                        ).len() == 1)
                        &&& exists|now: int|
                            clock::clock_time(now) && final(self)@ == #[trigger] with_vector(
                                old(self)@,
                                memory_id@,
                                source_updated_at as int,
                                model@,
                                normalized->Ok_0@,
                                now,
                            )
                    },
                    Err(e) => clock::clock_refusal(e@) && *final(self) == *old(self),
                },
            },
            old(self)@.wf() ==> final(self)@.wf(),
    {
        let v: Vec<u32> = storable(memory_id, model, normalized)?;
        let now: i64 = unix_millis()?;
        self.upsert_embedding_at(memory_id, source_updated_at, model, Ok(v), now)
    }
}

/// The vector to store, after the request was checked.
fn storable(memory_id: &str, model: &str, normalized: Result<Vec<u32>, Error>) -> (r: Result<
    Vec<u32>,
    Error,
>)
    ensures
        match upsert_refusal(memory_id@, model@, error::outcome(normalized)) {
            Some(message) => r matches Err(e) && e@ == message,
            None => r matches Ok(v) && v@ == normalized->Ok_0@ && v@.len() <= i64::MAX,
        },
{
    validate_identity(memory_id, "memory ID")?;
    validate_identity(model, "embedding model")?;
    let v: Vec<u32> = normalized?;
    to_i64(v.len() as u128)?;
    Ok(v)
}

/// A new vector keeps the constraints.
proof fn lemma_with_vector_wf(
    s: StoreView,
    memory_id: Seq<char>,
    source_updated_at: int,
    model: Seq<char>,
    v: Seq<u32>,
    now: int,
)
    requires
        s.wf(),
    ensures
        with_vector(s, memory_id, source_updated_at, model, v, now).wf(),
{
    let p = in_version(memory_id, source_updated_at);
    if model::any_row(s.memories, p) {
        let t = with_vector(s, memory_id, source_updated_at, model, v, now);
        let new = row_for(memory_id, source_updated_at, model, v, now);
        let i = choose|i: int| 0 <= i < s.memories.len() && p(#[trigger] s.memories[i]);
        assert(memory::active_with(memory_id)(s.memories[i]));
        if model::any_row(s.embeddings, of_pair(memory_id, model)) {
            model::lemma_distinct_map(s.embeddings, replace_by(new), pair_key());
            assert forall|k: int| 0 <= k < t.embeddings.len() implies model::any_row(
                t.memories,
                memory::active_with((#[trigger] t.embeddings[k]).memory_id),
            ) by {
                assert(t.embeddings[k] == replace_by(new)(s.embeddings[k]));
                assert(model::any_row(s.memories, memory::active_with(s.embeddings[k].memory_id)));
            }
        } else {
            assert forall|k: int| 0 <= k < s.embeddings.len() implies pair_key()(
                #[trigger] s.embeddings[k],
            ) != pair_key()(new) by {
                assert(!of_pair(memory_id, model)(s.embeddings[k]));
            }
            model::lemma_distinct_push(s.embeddings, new, pair_key());
            assert forall|k: int| 0 <= k < t.embeddings.len() implies model::any_row(
                t.memories,
                memory::active_with((#[trigger] t.embeddings[k]).memory_id),
            ) by {
                if k < s.embeddings.len() {
                    assert(t.embeddings[k] == s.embeddings[k]);
                    assert(model::any_row(
                        s.memories,
                        memory::active_with(s.embeddings[k].memory_id),
                    ));
                }
            }
        }
    }
}

/// A vector made from an earlier version of a memory changes nothing.
pub proof fn law_stale_vectors_change_nothing(
    s: StoreView,
    m: MemoryView,
    source_updated_at: int,
    model: Seq<char>,
    v: Seq<u32>,
    now: int,
)
    requires
        s.wf(),
        s.memories.contains(m),
        m.updated_at != source_updated_at,
    ensures
        with_vector(s, m.id, source_updated_at, model, v, now) == s,
{
    let p = in_version(m.id, source_updated_at);
    if model::any_row(s.memories, p) {
        let i = choose|i: int| 0 <= i < s.memories.len() && p(#[trigger] s.memories[i]);
        let j = choose|j: int| 0 <= j < s.memories.len() && s.memories[j] == m;
        assert(memory::id_key()(s.memories[i]) == memory::id_key()(s.memories[j]));
    }
}

/// A vector made from the current version of an active memory covers it.
pub proof fn law_current_vector_covers_its_memory(
    s: StoreView,
    m: MemoryView,
    model: Seq<char>,
    v: Seq<u32>,
    now: int,
)
    requires
        s.memories.contains(m),
        m.status == "active"@,
    ensures
        covered(with_vector(s, m.id, m.updated_at, model, v, now).embeddings, model)(m),
{
    let t = with_vector(s, m.id, m.updated_at, model, v, now);
    let new = row_for(m.id, m.updated_at, model, v, now);
    let i = choose|i: int| 0 <= i < s.memories.len() && s.memories[i] == m;
    assert(in_version(m.id, m.updated_at)(s.memories[i]));
    if model::any_row(s.embeddings, of_pair(m.id, model)) {
        let k = choose|k: int|
            0 <= k < s.embeddings.len() && of_pair(m.id, model)(#[trigger] s.embeddings[k]);
        assert(t.embeddings[k] == new);
        assert(current_for(m, model)(t.embeddings[k]));
    } else {
        assert(t.embeddings[s.embeddings.len() as int] == new);
        assert(current_for(m, model)(t.embeddings[s.embeddings.len() as int]));
    }
}

/// A new vector changes nothing for the other memories.
pub proof fn lemma_vector_of_another(
    s: StoreView,
    id: Seq<char>,
    source_updated_at: int,
    model: Seq<char>,
    v: Seq<u32>,
    now: int,
    m: MemoryView,
)
    requires
        m.id != id,
    ensures
        ({
            let t = with_vector(s, id, source_updated_at, model, v, now);
            model::any_row(t.embeddings, current_for(m, model)) == model::any_row(
                s.embeddings,
                current_for(m, model),
            )
        }),
{
    let t = with_vector(s, id, source_updated_at, model, v, now);
    let new = row_for(id, source_updated_at, model, v, now);
    let p = current_for(m, model);
    if model::any_row(s.memories, in_version(id, source_updated_at)) {
        if model::any_row(s.embeddings, p) {
            let k = choose|k: int| 0 <= k < s.embeddings.len() && p(#[trigger] s.embeddings[k]);
            assert(t.embeddings[k] == s.embeddings[k]);
            assert(p(t.embeddings[k]));
        }
        if model::any_row(t.embeddings, p) {
            let k = choose|k: int| 0 <= k < t.embeddings.len() && p(#[trigger] t.embeddings[k]);
            assert(t.embeddings[k] != new);
            assert(t.embeddings[k] == s.embeddings[k]);
            assert(p(s.embeddings[k]));
        }
    }
}

/// A vector made from the current version of a memory that waits for one leaves one
/// memory less waiting.
pub proof fn law_vector_leaves_one_less_waiting(
    s: StoreView,
    m: MemoryView,
    model: Seq<char>,
    v: Seq<u32>,
    now: int,
)
    requires
        model::distinct(s.memories, memory::id_key()),
        s.memories.contains(m),
        uncovered(s.embeddings, model)(m),
    ensures
        waiting(with_vector(s, m.id, m.updated_at, model, v, now), model).len() + 1 == waiting(
            s,
            model,
        ).len(),
{
    let t = with_vector(s, m.id, m.updated_at, model, v, now);
    let p = uncovered(s.embeddings, model);
    let q = uncovered(t.embeddings, model);
    let k = choose|k: int| 0 <= k < s.memories.len() && s.memories[k] == m;
    law_current_vector_covers_its_memory(s, m, model, v, now);
    assert forall|i: int| 0 <= i < s.memories.len() && i != k implies p(
        #[trigger] s.memories[i],
    ) == q(s.memories[i]) by {
        if i < k {
            assert(memory::id_key()(s.memories[i]) != memory::id_key()(s.memories[k]));
        } else {
            assert(memory::id_key()(s.memories[k]) != memory::id_key()(s.memories[i]));
        }
        lemma_vector_of_another(s, m.id, m.updated_at, model, v, now, s.memories[i]);
    }
    model::lemma_filter_without(s.memories, p, q, k);
}

/// Every active memory either has a current vector or waits for one.
pub proof fn law_coverage_partitions_active_memories(s: StoreView, model: Seq<char>)
    ensures
        s.memories.filter(covered(s.embeddings, model)).len() + waiting(s, model).len()
            == store::number_in(s, "active"@),
{
    lemma_coverage(s.memories, s.embeddings, model);
}

proof fn lemma_coverage(
    memories: Seq<MemoryView>,
    embeddings: Seq<EmbeddingView>,
    model: Seq<char>,
)
    ensures
        memories.filter(covered(embeddings, model)).len() + memories.filter(
            uncovered(embeddings, model),
        ).len() == memories.filter(memory::in_status("active"@)).len(),
    decreases memories.len(),
{
    reveal(Seq::filter);
    if memories.len() > 0 {
        lemma_coverage(memories.drop_last(), embeddings, model);
    }
}

} // verus!
