//! What storing, finding, correcting and forgetting a memory is for.

use crate::clock;
use crate::embedding::EmbeddingView;
use crate::index_job::JobView;
use crate::laws::text::{
    all_space, begins, law_blank_texts_are_white_space, law_prefixes_are_literal,
};
use crate::memory;
use crate::memory::{MemoryView, NewCorrectionView, NewMemoryView};
use crate::model;
use crate::store;
use crate::store::StoreView;
use crate::text;
use vstd::prelude::*;

verus! {

/// Holds when a memory has the given fields, is active, and was made at the given time.
pub open spec fn is_new(
    m: MemoryView,
    id: Seq<char>,
    kind: Seq<char>,
    text: Seq<char>,
    actor: Seq<char>,
    source_type: Seq<char>,
    source_ref: Option<Seq<char>>,
    now: int,
) -> bool {
    &&& m.id == id
    &&& m.kind == kind
    &&& m.text == text
    &&& m.actor == actor
    &&& m.source_type == source_type
    &&& m.source_ref == source_ref
    &&& m.status == "active"@
    &&& m.superseded_by is None
    &&& m.created_at == now
    &&& m.updated_at == now
    &&& m.deleted_at is None
}

/// Holds of a job that waits for a worker to embed a memory.
pub open spec fn is_waiting_job(j: JobView, id: Seq<char>, now: int) -> bool {
    &&& j.id == id
    &&& j.entity_type == "memory"@
    &&& j.entity_id == id
    &&& j.index_kind == "embedding"@
    &&& j.generation == 1
    &&& j.state == "pending"@
    &&& j.attempts == 0
    &&& j.available_at == now
    &&& j.lease_owner is None
    &&& j.lease_token is None
    &&& j.lease_until is None
    &&& j.last_error is None
    &&& j.updated_at == now
}

/// Holds when the tables that no operation on memories touches are the same.
pub open spec fn keeps_the_rest(s: StoreView, t: StoreView) -> bool {
    &&& t.schema_version == s.schema_version
    &&& t.states == s.states
    &&& t.episodes == s.episodes
    &&& t.entries == s.entries
}

/// Holds when no two memories have one identifier.
pub open spec fn one_each(memories: Seq<MemoryView>) -> bool {
    forall|i: int, j: int|
        0 <= i < j < memories.len() ==> (#[trigger] memories[i]).id != (#[trigger] memories[j]).id
}

/// Holds of the six kinds.
pub open spec fn is_kind(kind: Seq<char>) -> bool {
    kind == "fact"@ || kind == "finding"@ || kind == "decision"@ || kind == "constraint"@ || kind
        == "preference"@ || kind == "procedure"@
}

/// Holds of the fields that a memory can have.
pub open spec fn are_valid(
    kind: Seq<char>,
    text: Seq<char>,
    actor: Seq<char>,
    source_type: Seq<char>,
    source_ref: Option<Seq<char>>,
) -> bool {
    &&& !all_space(text)
    &&& is_kind(kind)
    &&& !all_space(actor)
    &&& !all_space(source_type)
    &&& source_ref matches Some(r) ==> !all_space(r)
}

/// A memory is accepted exactly when its text, actor and source type hold more than white
/// space, its kind is one of the six, and its source reference, if it has one, holds more
/// than white space. The first field that is not acceptable is named.
pub proof fn law_valid_memories_are_accepted(input: NewMemoryView)
    ensures
        memory::new_memory_refusal(input) is None <==> are_valid(
            input.kind,
            input.text,
            input.actor,
            input.source_type,
            input.source_ref,
        ),
        all_space(input.text) ==> memory::new_memory_refusal(input) == Some(
            "memory text cannot be empty"@,
        ),
        !all_space(input.text) && !is_kind(input.kind) ==> memory::new_memory_refusal(input)
            == Some(
            "unknown memory kind '"@ + input.kind
                + "'; expected one of: fact, finding, decision, constraint, preference, procedure"@,
        ),
        !all_space(input.text) && is_kind(input.kind) && all_space(input.actor)
            ==> memory::new_memory_refusal(input) == Some("memory actor"@ + " cannot be empty"@),
        !all_space(input.text) && is_kind(input.kind) && !all_space(input.actor) && all_space(
            input.source_type,
        ) ==> memory::new_memory_refusal(input) == Some(
            "memory source type"@ + " cannot be empty"@,
        ),
{
    law_blank_texts_are_white_space(input.text);
    law_blank_texts_are_white_space(input.actor);
    law_blank_texts_are_white_space(input.source_type);
    if let Some(r) = input.source_ref {
        law_blank_texts_are_white_space(r);
    }
}

/// A stored memory has every field that it was given, whole and as given; it is active, new,
/// and behind all others, which stay. It waits for a worker to embed it, and nothing else
/// changes.
pub proof fn law_remembering_keeps_every_field(
    s: StoreView,
    input: NewMemoryView,
    id: Seq<char>,
    now: int,
)
    ensures
        ({
            let t = store::inserted(s, input, id, now);
            &&& t.memories.len() == s.memories.len() + 1
            &&& forall|i: int|
                0 <= i < s.memories.len() ==> #[trigger] t.memories[i] == s.memories[i]
            &&& is_new(
                t.memories[s.memories.len() as int],
                id,
                input.kind,
                input.text,
                input.actor,
                input.source_type,
                input.source_ref,
                now,
            )
            &&& t.jobs.len() == s.jobs.len() + 1
            &&& forall|i: int| 0 <= i < s.jobs.len() ==> #[trigger] t.jobs[i] == s.jobs[i]
            &&& is_waiting_job(t.jobs[s.jobs.len() as int], id, now)
            &&& t.embeddings == s.embeddings
            &&& keeps_the_rest(s, t)
        }),
{
}

/// A stored memory is read back under its identifier with every field that it was given.
pub proof fn law_remembered_memory_reads_back_field_by_field(
    s: StoreView,
    input: NewMemoryView,
    id: Seq<char>,
    now: int,
)
    requires
        clock::hyphenated(id),
        forall|i: int| 0 <= i < s.memories.len() ==> (#[trigger] s.memories[i]).id != id,
    ensures
        store::found(store::inserted(s, input, id, now).memories, id) matches Ok(m) && is_new(
            m,
            id,
            input.kind,
            input.text,
            input.actor,
            input.source_type,
            input.source_ref,
            now,
        ),
{
    assert(!model::any_row(s.memories, memory::with_id(id)));
    store::law_remembered_memory_is_read_back(s, input, id, now, Seq::empty());
}

/// What an identifier or a prefix stands for: the memory whose identifier it is; else the
/// one memory whose identifier begins with it, ASCII case aside; and nothing where none
/// does or several do.
pub proof fn law_identifiers_resolve_exactly_or_by_one_prefix(
    memories: Seq<MemoryView>,
    target: Seq<char>,
    k: int,
    l: int,
)
    ensures
        ({
            let c = text::trimmed(target);
            let exact = exists|i: int| 0 <= i < memories.len() && (#[trigger] memories[i]).id == c;
            let r = store::resolved(memories, target);
            &&& all_space(target) ==> r == Err::<Seq<char>, Seq<char>>(
                "memory ID cannot be empty"@,
            )
            &&& !all_space(target) && exact ==> r == Ok::<Seq<char>, Seq<char>>(c)
            &&& !all_space(target) && !exact && 0 <= k < memories.len() && begins(
                c,
                memories[k].id,
            ) && (forall|i: int|
                0 <= i < memories.len() && i != k ==> !begins(c, (#[trigger] memories[i]).id))
                ==> r == Ok::<Seq<char>, Seq<char>>(memories[k].id)
            &&& !all_space(target) && !exact && 0 <= k < l < memories.len() && begins(
                c,
                memories[k].id,
            ) && begins(c, memories[l].id) ==> r == Err::<Seq<char>, Seq<char>>(
                "ambiguous memory ID prefix: "@ + c,
            )
            &&& !all_space(target) && (forall|i: int|
                0 <= i < memories.len() ==> !begins(c, (#[trigger] memories[i]).id)) ==> r == Err::<
                Seq<char>,
                Seq<char>,
            >("memory not found: "@ + c)
        }),
{
    let c = text::trimmed(target);
    let p = store::id_begins(c);
    let q = memory::with_id(c);
    law_blank_texts_are_white_space(target);
    let exact = exists|i: int| 0 <= i < memories.len() && (#[trigger] memories[i]).id == c;
    assert(exact == model::any_row(memories, q)) by {
        if exact {
            let i = choose|i: int| 0 <= i < memories.len() && (#[trigger] memories[i]).id == c;
            assert(q(memories[i]));
        }
    }
    assert forall|i: int| 0 <= i < memories.len() implies p(#[trigger] memories[i]) == begins(
        c,
        memories[i].id,
    ) by {
        law_prefixes_are_literal(c, memories[i].id);
    }
    model::lemma_first_row(memories, p);
    if 0 <= k < memories.len() && begins(c, memories[k].id) && (forall|i: int|
        0 <= i < memories.len() && i != k ==> !begins(c, (#[trigger] memories[i]).id)) {
        let none = |m: MemoryView| false;
        assert(p(memories[k]) && !none(memories[k]));
        model::lemma_filter_without(memories, p, none, k);
        model::lemma_first_row(memories, none);
        model::lemma_filter_contains(memories, p);
        assert(memories.filter(p).contains(memories[k]));
    }
    if 0 <= k < l < memories.len() && begins(c, memories[k].id) && begins(c, memories[l].id) {
        lemma_two_selected(memories, p, k, l);
    }
    if exact {
        let i = choose|i: int| 0 <= i < memories.len() && (#[trigger] memories[i]).id == c;
        law_prefixes_are_literal(c, c);
        assert(begins(c, memories[i].id));
    }
    if forall|i: int| 0 <= i < memories.len() ==> !begins(c, (#[trigger] memories[i]).id) {
        assert(!model::any_row(memories, p));
    }
}

/// Two rows that meet a condition are both selected.
pub proof fn lemma_two_selected<V>(s: Seq<V>, p: spec_fn(V) -> bool, k: int, l: int)
    requires
        0 <= k < l < s.len(),
        p(s[k]),
        p(s[l]),
    ensures
        s.filter(p).len() >= 2,
    decreases s.len(),
{
    reveal(Seq::filter);
    let front = s.drop_last();
    if l < front.len() {
        assert(front[k] == s[k] && front[l] == s[l]);
        lemma_two_selected(front, p, k, l);
    } else {
        assert(front[k] == s[k]);
        model::lemma_filter_contains(front, p);
        assert(front.filter(p).contains(front[k]));
    }
}

/// What is read is a memory of the store, whole and as it is stored.
pub proof fn law_what_is_read_is_stored(memories: Seq<MemoryView>, target: Seq<char>)
    ensures
        store::found(memories, target) matches Ok(m) ==> memories.contains(m)
            && store::resolved(memories, target) == Ok::<Seq<char>, Seq<char>>(m.id),
        store::found(memories, target) matches Err(e) ==> store::resolved(memories, target)
            == Err::<Seq<char>, Seq<char>>(e),
{
    store::lemma_resolved_is_there(memories, target);
    if let Ok(id) = store::resolved(memories, target) {
        model::lemma_first_row(memories, memory::with_id(id));
    }
}

/// A correction is accepted exactly when its target is found and active, and its own fields
/// are valid, with the kind of the target where it has none of its own.
pub proof fn law_valid_corrections_of_active_memories_are_accepted(
    s: StoreView,
    target: Seq<char>,
    input: NewCorrectionView,
)
    ensures
        store::correction_refusal(s, target, input) is None <==> {
            &&& store::found(s.memories, target) is Ok
            &&& store::found(s.memories, target)->Ok_0.status == "active"@
            &&& are_valid(
                match input.kind {
                    Some(kind) => kind,
                    None => store::found(s.memories, target)->Ok_0.kind,
                },
                input.text,
                input.actor,
                input.source_type,
                input.source_ref,
            )
        },
        store::found(s.memories, target) matches Err(e) ==> store::correction_refusal(
            s,
            target,
            input,
        ) == Some(e),
        store::found(s.memories, target) matches Ok(m) ==> (m.status != "active"@
            ==> store::correction_refusal(s, target, input) == Some(
            "memory "@ + m.id + " is "@ + m.status + "; only active memory can be corrected"@,
        )),
{
    if let Ok(m) = store::found(s.memories, target) {
        law_valid_memories_are_accepted(store::replacement_input(m, input));
    }
}

/// Holds when `m` is `before` after it was replaced.
pub open spec fn is_superseded(
    m: MemoryView,
    before: MemoryView,
    by: Seq<char>,
    now: int,
) -> bool {
    &&& m.id == before.id
    &&& m.kind == before.kind
    &&& m.text == before.text
    &&& m.actor == before.actor
    &&& m.source_type == before.source_type
    &&& m.source_ref == before.source_ref
    &&& m.status == "superseded"@
    &&& m.superseded_by == Some(by)
    &&& m.created_at == before.created_at
    &&& m.updated_at == now
    &&& m.deleted_at == before.deleted_at
}

/// Holds when `m` is `before` after it was forgotten.
pub open spec fn is_forgotten(m: MemoryView, before: MemoryView, now: int) -> bool {
    &&& m.id == before.id
    &&& m.kind == before.kind
    &&& m.text == before.text
    &&& m.actor == before.actor
    &&& m.source_type == before.source_type
    &&& m.source_ref == before.source_ref
    &&& m.status == "deleted"@
    &&& m.superseded_by == before.superseded_by
    &&& m.created_at == before.created_at
    &&& m.updated_at == now
    &&& m.deleted_at == Some(now)
}

/// Holds when the vectors and jobs of a memory are gone, and all others are there.
pub open spec fn drops_derived(s: StoreView, t: StoreView, id: Seq<char>) -> bool {
    &&& forall|e: EmbeddingView| #[trigger]
        t.embeddings.contains(e) <==> s.embeddings.contains(e) && e.memory_id != id
    &&& forall|j: JobView| #[trigger]
        t.jobs.contains(j) <==> s.jobs.contains(j) && !(j.entity_type == "memory"@ && j.entity_id
            == id)
}

pub proof fn lemma_filter_membership<V>(s: Seq<V>, p: spec_fn(V) -> bool)
    ensures
        forall|v: V| #[trigger] s.filter(p).contains(v) <==> s.contains(v) && p(v),
{
    model::lemma_filter_contains(s, p);
    assert forall|v: V| #[trigger] s.filter(p).contains(v) implies s.contains(v) && p(v) by {
        let i = choose|i: int| 0 <= i < s.filter(p).len() && s.filter(p)[i] == v;
        assert(p(s.filter(p)[i]));
    }
    assert forall|v: V| s.contains(v) && p(v) implies #[trigger] s.filter(p).contains(v) by {
        let i = choose|i: int| 0 <= i < s.len() && s[i] == v;
        assert(p(s[i]));
    }
}

/// Correcting a memory keeps it, marked as superseded by its replacement and otherwise as it
/// was. The replacement is behind all others and has every field of the correction, and the
/// kind of the corrected memory where the correction has none. Every other memory stays.
/// What was derived from the corrected memory goes, and the replacement waits to be
/// embedded.
pub proof fn law_correcting_keeps_both_memories(
    s: StoreView,
    p: int,
    input: NewCorrectionView,
    id: Seq<char>,
    now: int,
)
    requires
        0 <= p < s.memories.len(),
        one_each(s.memories),
        s.memories[p].status == "active"@,
        forall|i: int| 0 <= i < s.memories.len() ==> (#[trigger] s.memories[i]).id != id,
    ensures
        ({
            let previous = s.memories[p];
            let t = store::corrected(s, previous, input, id, now);
            &&& t.memories.len() == s.memories.len() + 1
            &&& forall|i: int|
                0 <= i < s.memories.len() && i != p ==> #[trigger] t.memories[i] == s.memories[i]
            &&& is_superseded(t.memories[p], previous, id, now)
            &&& is_new(
                t.memories[s.memories.len() as int],
                id,
                match input.kind {
                    Some(kind) => kind,
                    None => previous.kind,
                },
                input.text,
                input.actor,
                input.source_type,
                input.source_ref,
                now,
            )
            &&& keeps_the_rest(s, t)
            &&& forall|e: EmbeddingView| #[trigger]
                t.embeddings.contains(e) <==> s.embeddings.contains(e) && e.memory_id
                    != previous.id
            &&& forall|j: JobView| #[trigger]
                t.jobs.contains(j) <==> (s.jobs.contains(j) || is_waiting_job(j, id, now)) && !(
                j.entity_type == "memory"@ && j.entity_id == previous.id)
        }),
{
    let previous = s.memories[p];
    let u = store::inserted(s, store::replacement_input(previous, input), id, now);
    let t = store::corrected(s, previous, input, id, now);
    law_remembering_keeps_every_field(s, store::replacement_input(previous, input), id, now);
    assert forall|i: int| 0 <= i < s.memories.len() && i != p implies #[trigger] t.memories[i]
        == s.memories[i] by {
        assert(u.memories[i] == s.memories[i]);
        if i < p {
            assert(s.memories[i].id != s.memories[p].id);
        } else {
            assert(s.memories[p].id != s.memories[i].id);
        }
    }
    assert(u.memories[p] == previous);
    assert(u.memories[s.memories.len() as int].id != previous.id);
    lemma_filter_membership(s.embeddings, crate::embedding::not_of_memory(previous.id));
    lemma_filter_membership(u.jobs, crate::index_job::not_of_memory(previous.id));
    let fresh = u.jobs[s.jobs.len() as int];
    assert forall|j: JobView| u.jobs.contains(j) <==> s.jobs.contains(j) || is_waiting_job(
        j,
        id,
        now,
    ) by {
        if u.jobs.contains(j) {
            let k = choose|k: int| 0 <= k < u.jobs.len() && u.jobs[k] == j;
            if k < s.jobs.len() {
                assert(s.jobs[k] == j);
            }
        }
        if s.jobs.contains(j) {
            let k = choose|k: int| 0 <= k < s.jobs.len() && s.jobs[k] == j;
            assert(u.jobs[k] == j);
        }
        if is_waiting_job(j, id, now) {
            assert(j == fresh);
        }
    }
}

/// Forgetting a memory keeps it, marked as deleted and otherwise as it was; every other
/// memory stays. What was derived from the memory goes.
pub proof fn law_forgetting_keeps_the_memory(s: StoreView, p: int, now: int)
    requires
        0 <= p < s.memories.len(),
        one_each(s.memories),
        s.memories[p].status == "active"@,
    ensures
        ({
            let t = store::forgotten(s, s.memories[p].id, now);
            &&& t.memories.len() == s.memories.len()
            &&& forall|i: int|
                0 <= i < s.memories.len() && i != p ==> #[trigger] t.memories[i] == s.memories[i]
            &&& is_forgotten(t.memories[p], s.memories[p], now)
            &&& keeps_the_rest(s, t)
            &&& drops_derived(s, t, s.memories[p].id)
        }),
{
    let id = s.memories[p].id;
    let t = store::forgotten(s, id, now);
    assert forall|i: int| 0 <= i < s.memories.len() && i != p implies #[trigger] t.memories[i]
        == s.memories[i] by {
        if i < p {
            assert(s.memories[i].id != s.memories[p].id);
        } else {
            assert(s.memories[p].id != s.memories[i].id);
        }
    }
    lemma_filter_membership(s.embeddings, crate::embedding::not_of_memory(id));
    lemma_filter_membership(s.jobs, crate::index_job::not_of_memory(id));
}

/// A memory that is found and active can be forgotten, and no other.
pub proof fn law_active_memories_can_be_forgotten(s: StoreView, target: Seq<char>)
    ensures
        store::forget_refusal(s, target) is None <==> (store::found(s.memories, target) is Ok
            && store::found(s.memories, target)->Ok_0.status == "active"@),
        store::found(s.memories, target) matches Err(e) ==> store::forget_refusal(s, target)
            == Some(e),
        store::found(s.memories, target) matches Ok(m) ==> (m.status != "active"@
            ==> store::forget_refusal(s, target) == Some(
            "memory "@ + m.id + " is already "@ + m.status,
        )),
{
}

/// With one memory per identifier, nothing but a taken identifier stands in the way of a
/// correction, and nothing in that of forgetting.
pub proof fn law_only_taken_identifiers_conflict(s: StoreView, p: int, id: Seq<char>)
    requires
        0 <= p < s.memories.len(),
        one_each(s.memories),
        s.memories[p].status == "active"@,
    ensures
        store::forget_conflict(s, s.memories[p].id) is None,
        store::correction_conflict(s, s.memories[p].id, id) is Some <==> exists|i: int|
            0 <= i < s.memories.len() && (#[trigger] s.memories[i]).id == id,
        store::correction_conflict(s, s.memories[p].id, id) matches Some(e) ==> e
            == "UNIQUE constraint failed: memories.id"@,
{
    let q = memory::active_with(s.memories[p].id);
    let none = |m: MemoryView| false;
    assert forall|i: int| 0 <= i < s.memories.len() && i != p implies q(#[trigger] s.memories[i])
        == none(s.memories[i]) by {
        if i < p {
            assert(s.memories[i].id != s.memories[p].id);
        } else {
            assert(s.memories[p].id != s.memories[i].id);
        }
    }
    model::lemma_filter_without(s.memories, q, none, p);
    model::lemma_first_row(s.memories, none);
    let w = memory::with_id(id);
    if exists|i: int| 0 <= i < s.memories.len() && (#[trigger] s.memories[i]).id == id {
        let i = choose|i: int| 0 <= i < s.memories.len() && (#[trigger] s.memories[i]).id == id;
        assert(w(s.memories[i]));
    }
    if model::any_row(s.memories, w) {
        let i = choose|i: int| 0 <= i < s.memories.len() && w(#[trigger] s.memories[i]);
        assert(s.memories[i].id == id);
    }
}

/// A memory more in a status counts as one more, and in no other status.
pub proof fn law_statuses_are_counted_one_by_one(s: StoreView, m: MemoryView, status: Seq<char>)
    ensures
        store::number_in(StoreView { memories: s.memories.push(m), ..s }, status)
            == store::number_in(s, status) + (if m.status == status {
            1int
        } else {
            0int
        }),
        store::number_in(StoreView { memories: Seq::empty(), ..s }, status) == 0,
{
    model::lemma_filter_push(s.memories, m, memory::in_status(status));
    reveal(Seq::filter);
    assert(Seq::<MemoryView>::empty().filter(memory::in_status(status)).len() == 0);
}

/// A memory whose text changes keeps its other fields, and every other memory stays. Its
/// vectors go.
pub proof fn law_a_changed_text_replaces_the_old_one(
    s: StoreView,
    p: int,
    new_text: Seq<char>,
    updated_at: int,
)
    requires
        0 <= p < s.memories.len(),
        one_each(s.memories),
        s.memories[p].status == "active"@,
    ensures
        ({
            let m = s.memories[p];
            let t = store::refreshed(s, m.id, new_text, updated_at);
            &&& t.memories.len() == s.memories.len()
            &&& forall|i: int|
                0 <= i < s.memories.len() && i != p ==> #[trigger] t.memories[i] == s.memories[i]
            &&& t.memories[p].text == new_text && t.memories[p].updated_at == updated_at
            &&& t.memories[p].id == m.id && t.memories[p].kind == m.kind && t.memories[p].actor
                == m.actor && t.memories[p].source_type == m.source_type
                && t.memories[p].source_ref == m.source_ref && t.memories[p].status == m.status
                && t.memories[p].superseded_by == m.superseded_by && t.memories[p].created_at
                == m.created_at && t.memories[p].deleted_at == m.deleted_at
            &&& keeps_the_rest(s, t)
            &&& forall|e: EmbeddingView| #[trigger]
                t.embeddings.contains(e) <==> s.embeddings.contains(e) && e.memory_id != m.id
        }),
{
    let m = s.memories[p];
    let t = store::refreshed(s, m.id, new_text, updated_at);
    assert(memory::active_with(m.id)(s.memories[p]));
    assert forall|i: int| 0 <= i < s.memories.len() && i != p implies #[trigger] t.memories[i]
        == s.memories[i] by {
        if i < p {
            assert(s.memories[i].id != s.memories[p].id);
        } else {
            assert(s.memories[p].id != s.memories[i].id);
        }
    }
    lemma_filter_membership(s.embeddings, crate::embedding::not_of_memory(m.id));
}

/// A fresh store has no rows and is of the current version.
pub proof fn law_a_fresh_store_is_empty()
    ensures
        ({
            let s = store::empty_store();
            &&& s.schema_version == 7
            &&& s.memories.len() == 0
            &&& s.states.len() == 0
            &&& s.embeddings.len() == 0
            &&& s.episodes.len() == 0
            &&& s.entries.len() == 0
            &&& s.jobs.len() == 0
        }),
{
}

/// A name is accepted exactly when it is more than white space, and said to be empty else.
pub proof fn law_names_are_more_than_white_space(value: Seq<char>, kind: Seq<char>)
    ensures
        memory::identity_refusal(value, kind) == (if all_space(value) {
            Some(kind + " cannot be empty"@)
        } else {
            None
        }),
        memory::optional_refusal(Some(value), kind) == memory::identity_refusal(value, kind),
        memory::optional_refusal(None, kind) is None,
{
    law_blank_texts_are_white_space(value);
}

/// A new text is accepted exactly when it is more than white space, but for a job that has had
/// its last generation.
pub proof fn law_new_texts_are_accepted(s: StoreView, id: Seq<char>, new_text: Seq<char>)
    ensures
        all_space(new_text) ==> store::refresh_refusal(s, id, new_text) == Some(
            "memory text cannot be empty"@,
        ),
        !all_space(new_text) && store::refresh_refusal(s, id, new_text) is Some ==> exists|j: int|
            0 <= j < s.jobs.len() && (#[trigger] s.jobs[j]).entity_id == id && s.jobs[j].generation
                == i64::MAX,
        (forall|j: int|
            0 <= j < s.jobs.len() ==> (#[trigger] s.jobs[j]).generation < i64::MAX) && !all_space(
            new_text,
        ) ==> store::refresh_refusal(s, id, new_text) is None,
{
    law_blank_texts_are_white_space(new_text);
    let p = crate::index_job::spent(id);
    if model::any_row(s.jobs, p) {
        let j = choose|j: int| 0 <= j < s.jobs.len() && p(#[trigger] s.jobs[j]);
        assert(s.jobs[j].entity_id == id);
    }
}

/// A memory that is not active keeps its text, and nothing else changes.
pub proof fn law_only_active_texts_change(
    s: StoreView,
    id: Seq<char>,
    new_text: Seq<char>,
    updated_at: int,
)
    requires
        forall|i: int|
            0 <= i < s.memories.len() ==> !((#[trigger] s.memories[i]).id == id
                && s.memories[i].status == "active"@),
    ensures
        store::refreshed(s, id, new_text, updated_at) == s,
{
    assert(!model::any_row(s.memories, memory::active_with(id)));
}

/// Holds when an identifier that can be drawn is taken.
pub open spec fn is_taken_by_chance(memories: Seq<MemoryView>) -> bool {
    exists|i: int| 0 <= i < memories.len() && clock::drawn((#[trigger] memories[i]).id)
}

/// An identifier conflicts only by chance.
pub proof fn law_draws_are_taken_by_chance(memories: Seq<MemoryView>)
    ensures
        store::draws_taken(memories) == is_taken_by_chance(memories),
        store::duplicate_id() == "UNIQUE constraint failed: memories.id"@,
{
    if store::draws_taken(memories) {
        let id = choose|id: Seq<char>| #[trigger]
            clock::drawn(id) && model::any_row(memories, memory::with_id(id));
        let i = choose|i: int|
            0 <= i < memories.len() && memory::with_id(id)(#[trigger] memories[i]);
        assert(memories[i].id == id);
    }
    if is_taken_by_chance(memories) {
        let i = choose|i: int| 0 <= i < memories.len() && clock::drawn((#[trigger] memories[i]).id);
        assert(memory::with_id(memories[i].id)(memories[i]));
        assert(model::any_row(memories, memory::with_id(memories[i].id)));
    }
}

} // verus!
