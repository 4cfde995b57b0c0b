//! What the commands are for.

use crate::args::{
    CommandView, CorrectView, ExportView, ForgetView, GetView, IndexView, RememberView, SearchView,
    StateClearView, StateSetView, StateShowView,
};
use crate::cli;
use crate::clock;
use crate::embedding;
use crate::embedding::EmbeddingView;
use crate::embedding_worker::EMBEDDING_MODEL_ID;
use crate::error::Error;
use crate::laws::memory::{
    are_valid, is_forgotten, is_new, is_superseded, is_taken_by_chance, is_waiting_job,
    keeps_the_rest, law_a_fresh_store_is_empty, law_active_memories_can_be_forgotten,
    law_correcting_keeps_both_memories, law_draws_are_taken_by_chance,
    law_forgetting_keeps_the_memory, law_only_taken_identifiers_conflict,
    law_remembering_keeps_every_field,
    law_valid_corrections_of_active_memories_are_accepted, law_valid_memories_are_accepted,
    law_what_is_read_is_stored, one_each,
};
use crate::laws::search::{
    law_every_active_match_is_found, law_exports_hold_each_record_once,
    law_hits_come_from_matches, law_searches_need_words_and_a_limit, no_later,
};
use crate::laws::text::{all_space, law_blank_texts_are_white_space};
use crate::laws::vectors::{
    is_comparable, is_read_from, is_vector_of, lacks_a_vector,
    law_comparable_vectors_are_accepted, law_found_memories_are_in_order,
    law_runs_embed_whole_texts, law_scores_are_of_whole_vectors, law_what_waits_lacks_a_vector,
    no_worse,
};
use crate::laws::workspace::{
    is_patched, law_clearing_removes_one_state, law_states_are_read_as_stored,
    law_the_first_update_makes_the_state, law_updates_touch_only_what_they_name, one_state_each,
};
use crate::memory;
use crate::memory::{MemoryView, NewMemoryView};
use crate::model;
use crate::recall;
use crate::run;
use crate::run::{Output, Place, Supplies};
use crate::search::HitView;
use crate::state;
use crate::state::{StateView, UpdateView};
use crate::store;
use crate::store::StoreView;
use crate::vector;
use crate::vector_search;
use vstd::prelude::*;

verus! {

/// The memories of a store, none where there is no store.
pub open spec fn memories_in(store: Option<StoreView>) -> Seq<MemoryView> {
    match store {
        Some(s) => s.memories,
        None => Seq::empty(),
    }
}

/// The states of a store, none where there is no store.
pub open spec fn states_in(store: Option<StoreView>) -> Seq<StateView> {
    match store {
        Some(s) => s.states,
        None => Seq::empty(),
    }
}

/// A value, or what stands in for it where it is not given.
pub open spec fn or_else(given: Option<Seq<char>>, other: Seq<char>) -> Seq<char> {
    if given is Some {
        given->0
    } else {
        other
    }
}

/// A number, or what stands in for it, at least one and at most a bound.
pub open spec fn bounded(given: Option<int>, other: int, most: int) -> int {
    if given is None {
        other
    } else if given->0 <= 1 {
        1
    } else if given->0 >= most {
        most
    } else {
        given->0
    }
}

/// Holds when nothing in a store changed but its memories, vectors and jobs, a store that was
/// not there counting as empty.
pub open spec fn keeps_states_and_history(before: Option<StoreView>, after: StoreView) -> bool {
    &&& after.states == states_in(before)
    &&& before is Some ==> keeps_the_rest(before->0, after)
    &&& before is None ==> after.episodes.len() == 0 && after.entries.len() == 0
}

/// Remembering stores the memory that was given, every field of it whole: a fact of an agent
/// from the command line unless it says otherwise. It comes behind those that were there,
/// which stay, and waits for its vector; states and history stay. What is not acceptable is
/// refused, and nothing is stored.
pub proof fn law_remember_stores_what_was_given<F: Fn(&Vec<u32>) -> i64>(
    before: Option<StoreView>,
    after: Option<StoreView>,
    place: Place,
    c: RememberView,
    supplies: Supplies,
    score: F,
    r: Result<Output, Error>,
)
    requires
        run::is_run(before, after, place, CommandView::Remember(c), supplies, score, r),
    ensures
        after is Some,
        keeps_states_and_history(before, after->0),
        r is Ok ==> r->Ok_0 is Remembered,
        r is Ok ==> are_valid(
            or_else(c.kind, "fact"@),
            c.text,
            or_else(c.actor, "agent"@),
            or_else(c.source_type, "cli"@),
            c.source_ref,
        ),
        r matches Ok(Output::Remembered(m)) ==> {
            &&& after->0.memories == memories_in(before).push(m@)
            &&& is_new(
                m@,
                m@.id,
                or_else(c.kind, "fact"@),
                c.text,
                or_else(c.actor, "agent"@),
                or_else(c.source_type, "cli"@),
                c.source_ref,
                m@.created_at,
            )
            &&& clock::drawn(m@.id)
            &&& clock::hyphenated(m@.id)
            &&& clock::clock_time(m@.created_at)
            &&& forall|i: int|
                0 <= i < memories_in(before).len() ==> (#[trigger] memories_in(before)[i]).id
                    != m@.id
            &&& after->0.jobs.len() > 0 && is_waiting_job(
                after->0.jobs.last(),
                m@.id,
                m@.created_at,
            )
        },
        r is Err ==> after->0.memories == memories_in(before),
        r is Err && are_valid(
            or_else(c.kind, "fact"@),
            c.text,
            or_else(c.actor, "agent"@),
            or_else(c.source_type, "cli"@),
            c.source_ref,
        ) ==> clock::clock_refusal(r->Err_0@) || is_taken_by_chance(memories_in(before)),
        ({
            let input = NewMemoryView {
                text: c.text,
                kind: or_else(c.kind, "fact"@),
                actor: or_else(c.actor, "agent"@),
                source_type: or_else(c.source_type, "cli"@),
                source_ref: c.source_ref,
            };
            memory::new_memory_refusal(input) is Some ==> r is Err && Some(r->Err_0@)
                == memory::new_memory_refusal(input)
        }),
{
    let input = run::memory_of(c);
    let s = run::opened(before);
    law_draws_are_taken_by_chance(s.memories);
    law_a_fresh_store_is_empty();
    law_valid_memories_are_accepted(input);
    assert(s.memories =~= memories_in(before));
    assert(s.states =~= states_in(before));
    if let Ok(Output::Remembered(m)) = r {
        law_remembering_keeps_every_field(s, input, m@.id, m@.created_at);
        let t = after->0;
        assert(t.memories =~= memories_in(before).push(m@));
        assert forall|i: int| 0 <= i < memories_in(before).len() implies (
        #[trigger] memories_in(before)[i]).id != m@.id by {
            assert(!memory::with_id(m@.id)(s.memories[i]));
        }
    }
}

/// Correcting an active memory keeps it, superseded by the one that replaces it, which has
/// every field that was given, whole, and the kind of the old one unless it says otherwise.
/// Other memories stay, and states and history.
pub proof fn law_correct_keeps_both<F: Fn(&Vec<u32>) -> i64>(
    s: StoreView,
    after: Option<StoreView>,
    place: Place,
    c: CorrectView,
    supplies: Supplies,
    score: F,
    r: Result<Output, Error>,
) -> (p: int)
    requires
        run::is_run(Some(s), after, place, CommandView::Correct(c), supplies, score, r),
        one_each(s.memories),
        r is Ok,
    ensures
        r->Ok_0 is Corrected,
        after is Some,
        0 <= p < s.memories.len(),
        s.memories[p].status == "active"@,
        store::resolved(s.memories, c.id) == Ok::<Seq<char>, Seq<char>>(s.memories[p].id),
        r matches Ok(Output::Corrected(o)) ==> {
            let t = after->0;
            &&& is_superseded(o@.previous, s.memories[p], o@.replacement.id, o@.previous.updated_at)
            &&& is_new(
                o@.replacement,
                o@.replacement.id,
                or_else(c.kind, s.memories[p].kind),
                c.text,
                or_else(c.actor, "agent"@),
                or_else(c.source_type, "cli"@),
                c.source_ref,
                o@.replacement.created_at,
            )
            &&& o@.previous.updated_at == o@.replacement.created_at
            &&& clock::drawn(o@.replacement.id)
            &&& clock::clock_time(o@.replacement.created_at)
            &&& t.memories.len() == s.memories.len() + 1
            &&& forall|i: int|
                0 <= i < s.memories.len() && i != p ==> #[trigger] t.memories[i] == s.memories[i]
            &&& t.memories[p] == o@.previous
            &&& t.memories[s.memories.len() as int] == o@.replacement
            &&& keeps_the_rest(s, t)
        },
{
    let input = run::correction_of(c);
    law_valid_corrections_of_active_memories_are_accepted(s, c.id, input);
    law_what_is_read_is_stored(s.memories, c.id);
    let previous = store::found(s.memories, c.id)->Ok_0;
    assert(s.memories.contains(previous));
    let p = choose|p: int| 0 <= p < s.memories.len() && s.memories[p] == previous;
    if let Ok(Output::Corrected(o)) = r {
        let id = o@.replacement.id;
        let now = o@.replacement.created_at;
        law_only_taken_identifiers_conflict(s, p, id);
        law_correcting_keeps_both_memories(s, p, input, id, now);
    }
    p
}

/// Forgetting an active memory marks it as deleted and keeps it as it was otherwise; other
/// memories stay, and states and history.
pub proof fn law_forget_keeps_the_memory<F: Fn(&Vec<u32>) -> i64>(
    s: StoreView,
    after: Option<StoreView>,
    place: Place,
    c: ForgetView,
    supplies: Supplies,
    score: F,
    r: Result<Output, Error>,
) -> (p: int)
    requires
        run::is_run(Some(s), after, place, CommandView::Forget(c), supplies, score, r),
        one_each(s.memories),
        r is Ok,
    ensures
        after is Some,
        0 <= p < s.memories.len(),
        s.memories[p].status == "active"@,
        store::resolved(s.memories, c.id) == Ok::<Seq<char>, Seq<char>>(s.memories[p].id),
        r matches Ok(Output::Forgot(id)) && id@ == s.memories[p].id,
        after->0.memories.len() == s.memories.len(),
        forall|i: int|
            0 <= i < s.memories.len() && i != p ==> #[trigger] after->0.memories[i]
                == s.memories[i],
        is_forgotten(after->0.memories[p], s.memories[p], after->0.memories[p].updated_at),
        keeps_the_rest(s, after->0),
{
    law_active_memories_can_be_forgotten(s, c.id);
    law_what_is_read_is_stored(s.memories, c.id);
    let m = store::found(s.memories, c.id)->Ok_0;
    assert(s.memories.contains(m));
    let p = choose|p: int| 0 <= p < s.memories.len() && s.memories[p] == m;
    let now = choose|now: int|
        clock::clock_time(now) && after->0 == #[trigger] store::forgotten(s, m.id, now);
    law_forgetting_keeps_the_memory(s, p, now);
    p
}

/// A correction is refused, and nothing changes, where the memory is not found or not active,
/// or the correction is not acceptable; and else only for a fault of the clock, or where an
/// identifier that can be drawn is taken.
pub proof fn law_corrections_are_refused_for_a_reason<F: Fn(&Vec<u32>) -> i64>(
    s: StoreView,
    after: Option<StoreView>,
    place: Place,
    c: CorrectView,
    supplies: Supplies,
    score: F,
    r: Result<Output, Error>,
    p: int,
)
    requires
        run::is_run(Some(s), after, place, CommandView::Correct(c), supplies, score, r),
        one_each(s.memories),
        r is Err,
    ensures
        after == Some(s),
        0 <= p < s.memories.len() && store::resolved(s.memories, c.id) == Ok::<
            Seq<char>,
            Seq<char>,
        >(s.memories[p].id) && s.memories[p].status == "active"@ && are_valid(
            or_else(c.kind, s.memories[p].kind),
            c.text,
            or_else(c.actor, "agent"@),
            or_else(c.source_type, "cli"@),
            c.source_ref,
        ) ==> clock::clock_refusal(r->Err_0@) || is_taken_by_chance(s.memories),
        store::resolved(s.memories, c.id) matches Err(e) ==> r->Err_0@ == e,
        0 <= p < s.memories.len() && store::resolved(s.memories, c.id) == Ok::<
            Seq<char>,
            Seq<char>,
        >(s.memories[p].id) && s.memories[p].status != "active"@ ==> r->Err_0@ == "memory "@
            + s.memories[p].id + " is "@ + s.memories[p].status
            + "; only active memory can be corrected"@,
{
    if 0 <= p < s.memories.len() && store::resolved(s.memories, c.id) == Ok::<
        Seq<char>,
        Seq<char>,
    >(s.memories[p].id) {
        lemma_found(s.memories, c.id, p);
    }
    let input = run::correction_of(c);
    law_valid_corrections_of_active_memories_are_accepted(s, c.id, input);
    law_what_is_read_is_stored(s.memories, c.id);
    if 0 <= p < s.memories.len() && store::resolved(s.memories, c.id) == Ok::<
        Seq<char>,
        Seq<char>,
    >(s.memories[p].id) && s.memories[p].status == "active"@ && are_valid(
        or_else(c.kind, s.memories[p].kind),
        c.text,
        or_else(c.actor, "agent"@),
        or_else(c.source_type, "cli"@),
        c.source_ref,
    ) {
        lemma_found(s.memories, c.id, p);
        let e = r->Err_0@;
        if !clock::clock_refusal(e) {
            let id = choose|id: Seq<char>|
                clock::drawn(id) && #[trigger] store::correction_conflict(
                    s,
                    s.memories[p].id,
                    id,
                ) == Some(e);
            law_only_taken_identifiers_conflict(s, p, id);
            let i = choose|i: int|
                0 <= i < s.memories.len() && (#[trigger] s.memories[i]).id == id;
            assert(clock::drawn(s.memories[i].id));
        }
    }
}

proof fn lemma_found(memories: Seq<MemoryView>, target: Seq<char>, p: int)
    requires
        0 <= p < memories.len(),
        one_each(memories),
        store::resolved(memories, target) == Ok::<Seq<char>, Seq<char>>(memories[p].id),
    ensures
        store::found(memories, target) == Ok::<MemoryView, Seq<char>>(memories[p]),
{
    let q = memory::with_id(memories[p].id);
    assert forall|k: int| 0 <= k < p implies !q(#[trigger] memories[k]) by {
        assert(memories[k].id != memories[p].id);
    }
    model::lemma_first_row_at(memories, q, p);
}

/// Forgetting is refused, and nothing changes, where the memory is not found or not active;
/// and else only for a fault of the clock.
pub proof fn law_forgetting_is_refused_for_a_reason<F: Fn(&Vec<u32>) -> i64>(
    s: StoreView,
    after: Option<StoreView>,
    place: Place,
    c: ForgetView,
    supplies: Supplies,
    score: F,
    r: Result<Output, Error>,
    p: int,
)
    requires
        run::is_run(Some(s), after, place, CommandView::Forget(c), supplies, score, r),
        one_each(s.memories),
        r is Err,
    ensures
        after == Some(s),
        0 <= p < s.memories.len() && store::resolved(s.memories, c.id) == Ok::<
            Seq<char>,
            Seq<char>,
        >(s.memories[p].id) && s.memories[p].status == "active"@ ==> clock::clock_refusal(
            r->Err_0@,
        ),
        store::resolved(s.memories, c.id) matches Err(e) ==> r->Err_0@ == e,
        0 <= p < s.memories.len() && store::resolved(s.memories, c.id) == Ok::<
            Seq<char>,
            Seq<char>,
        >(s.memories[p].id) && s.memories[p].status != "active"@ ==> r->Err_0@ == "memory "@
            + s.memories[p].id + " is already "@ + s.memories[p].status,
{
    law_active_memories_can_be_forgotten(s, c.id);
    if 0 <= p < s.memories.len() && store::resolved(s.memories, c.id) == Ok::<
        Seq<char>,
        Seq<char>,
    >(s.memories[p].id) {
        lemma_found(s.memories, c.id, p);
    }
    if 0 <= p < s.memories.len() && store::resolved(s.memories, c.id) == Ok::<
        Seq<char>,
        Seq<char>,
    >(s.memories[p].id) && s.memories[p].status == "active"@ {
        lemma_found(s.memories, c.id, p);
        law_only_taken_identifiers_conflict(s, p, s.memories[p].id);
    }
}

/// Setting a state is refused, and no state changes, where the update is not acceptable; and
/// else only for a fault of the clock.
pub proof fn law_setting_is_refused_for_a_reason<F: Fn(&Vec<u32>) -> i64>(
    before: Option<StoreView>,
    after: Option<StoreView>,
    place: Place,
    c: StateSetView,
    supplies: Supplies,
    score: F,
    r: Result<Output, Error>,
)
    requires
        run::is_run(before, after, place, CommandView::StateSet(c), supplies, score, r),
        r is Err,
    ensures
        after is Some,
        after->0.states == states_in(before),
        after->0.memories == memories_in(before),
        ({
            let input = UpdateView {
                workspace: place.project.workspace_id@,
                session: c.session,
                goal: c.goal,
                task: c.task,
                checkpoint: c.checkpoint,
                clear_fields: c.clear,
            };
            match state::update_refusal(states_in(before), input) {
                Some(message) => r->Err_0@ == message,
                None => clock::clock_refusal(r->Err_0@),
            }
        }),
{
    law_a_fresh_store_is_empty();
    let s = run::opened(before);
    assert(s.memories =~= memories_in(before));
    assert(s.states =~= states_in(before));
}

/// A command runs in the workspace that it names, if it names one.
pub proof fn law_a_command_names_its_workspace(command: CommandView)
    ensures
        command matches CommandView::StateShow(c) ==> run::named_workspace(command) == c.workspace,
        command matches CommandView::StateSet(c) ==> run::named_workspace(command) == c.workspace,
        command matches CommandView::StateClear(c) ==> run::named_workspace(command) == c.workspace,
        command matches CommandView::Context(c) ==> run::named_workspace(command) == c.workspace,
        !(command is StateShow || command is StateSet || command is StateClear || command
            is Context) ==> run::named_workspace(command) is None,
{
}

/// Without a store there is nothing to correct, forget or get.
pub proof fn law_a_missing_store_is_reported<F: Fn(&Vec<u32>) -> i64>(
    after: Option<StoreView>,
    place: Place,
    command: CommandView,
    supplies: Supplies,
    score: F,
    r: Result<Output, Error>,
)
    requires
        run::is_run(None, after, place, command, supplies, score, r),
        command is Correct || command is Forget || command is Get,
    ensures
        after is None,
        r is Err,
        r->Err_0@ == "memory store not found: "@ + place.database@,
{
}

/// What is got is the stored memory that the identifier or prefix stands for, as it is.
pub proof fn law_get_gives_the_stored_memory<F: Fn(&Vec<u32>) -> i64>(
    s: StoreView,
    after: Option<StoreView>,
    place: Place,
    c: GetView,
    supplies: Supplies,
    score: F,
    r: Result<Output, Error>,
)
    requires
        run::is_run(Some(s), after, place, CommandView::Get(c), supplies, score, r),
    ensures
        after == Some(s),
        r is Ok <==> store::resolved(s.memories, c.id) is Ok && exists|i: int|
            0 <= i < s.memories.len() && (#[trigger] s.memories[i]).id == store::resolved(
                s.memories,
                c.id,
            )->Ok_0,
        r is Ok ==> r->Ok_0 is Got,
        r matches Ok(Output::Got(m)) ==> s.memories.contains(m@) && store::resolved(
            s.memories,
            c.id,
        ) == Ok::<Seq<char>, Seq<char>>(m@.id),
        r matches Err(e) ==> store::resolved(s.memories, c.id) == Err::<Seq<char>, Seq<char>>(e@),
{
    law_what_is_read_is_stored(s.memories, c.id);
    if let Ok(id) = store::resolved(s.memories, c.id) {
        model::lemma_first_row(s.memories, memory::with_id(id));
        if exists|i: int| 0 <= i < s.memories.len() && (#[trigger] s.memories[i]).id == id {
            let i = choose|i: int| 0 <= i < s.memories.len() && (#[trigger] s.memories[i]).id == id;
            assert(memory::with_id(id)(s.memories[i]));
        }
    }
    if let Ok(Output::Got(m)) = r {
        let i = choose|i: int| 0 <= i < s.memories.len() && s.memories[i] == m@;
        assert(s.memories[i].id == m@.id);
    }
}

/// A search by words finds every active memory that the index matches, whatever it is, or as
/// many as the limit allows that come no later: ten unless it says otherwise, and never more
/// than a hundred. It finds nothing else.
pub proof fn law_search_finds_every_active_match<F: Fn(&Vec<u32>) -> i64>(
    s: StoreView,
    after: Option<StoreView>,
    place: Place,
    c: SearchView,
    supplies: Supplies,
    score: F,
    r: Result<Output, Error>,
    k: int,
    i: int,
)
    requires
        run::is_run(Some(s), after, place, CommandView::Search(c), supplies, score, r),
        one_each(s.memories),
        !c.semantic,
    ensures
        after == Some(s),
        all_space(c.query) ==> r is Err && r->Err_0@ == "query cannot be empty"@,
        !all_space(c.query) ==> r is Ok && r->Ok_0 is Hits,
        r matches Ok(Output::Hits(hits)) ==> {
            let limit = bounded(c.limit, 10, 100);
            &&& hits@.len() <= limit
            &&& forall|j: int|
                0 <= j < hits@.len() ==> s.memories.contains((#[trigger] hits@[j]).memory@)
                    && hits@[j].memory@.status == "active"@
            &&& 0 <= k < supplies.matches@.len() && 0 <= i < s.memories.len() && s.memories[i].id
                == supplies.matches@[k].id@ && s.memories[i].status == "active"@ ==> {
                let h = HitView { memory: s.memories[i], rank: supplies.matches@[k].rank as int };
                ||| exists|j: int| 0 <= j < hits@.len() && (#[trigger] hits@[j])@ == h
                ||| hits@.len() == limit && forall|j: int|
                    0 <= j < hits@.len() ==> no_later((#[trigger] hits@[j])@, h)
            }
        },
{
    let limit = bounded(c.limit, 10, 100);
    assert(limit == cli::clamped(c.limit, 10, 100));
    law_searches_need_words_and_a_limit(c.query, limit);
    if let Ok(Output::Hits(hits)) = r {
        let found = model::views(hits@);
        let matches = model::views(supplies.matches@);
        law_hits_come_from_matches(s, matches, limit, found);
        assert forall|j: int| 0 <= j < hits@.len() implies s.memories.contains(
            (#[trigger] hits@[j]).memory@,
        ) && hits@[j].memory@.status == "active"@ by {
            assert(found[j] == hits@[j]@);
        }
        if 0 <= k < supplies.matches@.len() && 0 <= i < s.memories.len() && s.memories[i].id
            == supplies.matches@[k].id@ && s.memories[i].status == "active"@ {
            assert(matches[k] == supplies.matches@[k]@);
            law_every_active_match_is_found(s, matches, limit, found, k, i);
            let h = HitView { memory: s.memories[i], rank: supplies.matches@[k].rank as int };
            if found.contains(h) {
                let j = choose|j: int| 0 <= j < found.len() && found[j] == h;
                assert(hits@[j]@ == h);
            } else {
                assert forall|j: int| 0 <= j < hits@.len() implies no_later(
                    (#[trigger] hits@[j])@,
                    h,
                ) by {
                    assert(found[j] == hits@[j]@);
                }
            }
        }
    }
}

/// A semantic search asks for the vector of its query, the query as it is, where no active
/// memory lacks a vector, and is refused where one does.
pub proof fn law_semantic_search_needs_a_complete_index<F: Fn(&Vec<u32>) -> i64>(
    s: StoreView,
    after: Option<StoreView>,
    place: Place,
    c: SearchView,
    supplies: Supplies,
    score: F,
    r: Result<Output, Error>,
    i: int,
)
    requires
        run::is_run(Some(s), after, place, CommandView::Search(c), supplies, score, r),
        c.semantic,
    ensures
        after == Some(s),
        0 <= i < s.memories.len() && lacks_a_vector(s, s.memories[i], EMBEDDING_MODEL_ID@) ==> r
            is Err && r->Err_0@ == "semantic index is incomplete; run `mem index` first"@,
        (forall|j: int|
            0 <= j < s.memories.len() ==> !lacks_a_vector(
                s,
                #[trigger] s.memories[j],
                EMBEDDING_MODEL_ID@,
            )) && supplies.vector is None ==> r is Ok && r->Ok_0 is WantsVector,
        r matches Ok(Output::WantsVector { query, cached_only }) ==> query@ == c.query
            && !cached_only,
{
    law_what_waits_lacks_a_vector(s, EMBEDDING_MODEL_ID@);
}

/// Without a store, searching, exporting and reading a state find nothing, and indexing has
/// nothing to do.
pub proof fn law_reads_without_a_store_find_nothing<F: Fn(&Vec<u32>) -> i64>(
    after: Option<StoreView>,
    place: Place,
    command: CommandView,
    supplies: Supplies,
    score: F,
    r: Result<Output, Error>,
)
    requires
        run::is_run(None, after, place, command, supplies, score, r),
    ensures
        command is Search ==> after is None && r is Ok && r->Ok_0 is Hits,
        command is Search ==> (r matches Ok(Output::Hits(hits)) ==> hits@.len() == 0),
        command is Export ==> after is None && r is Ok && r->Ok_0 is Exported,
        command is Export ==> (r matches Ok(Output::Exported(ms)) ==> ms@.len() == 0),
        command is StateShow ==> after is None && r is Ok && r->Ok_0 is State,
        command is StateShow ==> (r matches Ok(Output::State { workspace, state }) ==> state is None
            && workspace@ == place.project.workspace_id@),
        command is StateClear ==> after is None && r is Ok && r->Ok_0 is Cleared,
        command is StateClear ==> (r matches Ok(Output::Cleared { workspace, cleared })
            ==> !cleared && workspace@ == place.project.workspace_id@),
        command is Index ==> after is None && r is Ok && r->Ok_0 is Ran,
        command is Index ==> (r matches Ok(Output::Ran(stats)) ==> stats.indexed == 0
            && stats.stale == 0 && stats.remaining == 0 && stats.model@ == EMBEDDING_MODEL_ID@
            && stats.cache_dir@ == supplies.cache_dir@),
        command is Context ==> after is None && r is Ok && r->Ok_0 is Context,
        command is Context ==> (r matches Ok(Output::Context(o)) ==> o.memories@.len() == 0
            && o.state is None && o.workspace@ == place.project.workspace_id@),
{
}

/// An export holds every active memory once, as it is, and every superseded one too where
/// they are asked for; never a deleted one.
pub proof fn law_export_gives_every_record<F: Fn(&Vec<u32>) -> i64>(
    s: StoreView,
    after: Option<StoreView>,
    place: Place,
    c: ExportView,
    supplies: Supplies,
    score: F,
    r: Result<Output, Error>,
)
    requires
        run::is_run(Some(s), after, place, CommandView::Export(c), supplies, score, r),
        one_each(s.memories),
    ensures
        after == Some(s),
        r is Ok && r->Ok_0 is Exported,
        r matches Ok(Output::Exported(ms)) ==> forall|m: MemoryView| #[trigger]
            model::views(ms@).contains(m) <==> s.memories.contains(m) && (m.status == "active"@ || (
            c.include_superseded && m.status == "superseded"@)),
{
    if let Ok(Output::Exported(ms)) = r {
        law_exports_hold_each_record_once(s, c.include_superseded, model::views(ms@));
    }
}

/// The state of the workspace is shown as it is stored; there is none where none is stored.
pub proof fn law_the_state_is_shown_as_stored<F: Fn(&Vec<u32>) -> i64>(
    s: StoreView,
    after: Option<StoreView>,
    place: Place,
    c: StateShowView,
    supplies: Supplies,
    score: F,
    r: Result<Output, Error>,
)
    requires
        run::is_run(Some(s), after, place, CommandView::StateShow(c), supplies, score, r),
        !all_space(place.project.workspace_id@),
    ensures
        after == Some(s),
        r is Ok && r->Ok_0 is State,
        r matches Ok(Output::State { workspace, state }) ==> {
            &&& workspace@ == place.project.workspace_id@
            &&& match state {
                Some(found) => s.states.contains(found@) && found@.workspace
                    == place.project.workspace_id@,
                None => forall|i: int|
                    0 <= i < s.states.len() ==> (#[trigger] s.states[i]).workspace
                        != place.project.workspace_id@,
            }
        },
{
    law_blank_texts_are_white_space(place.project.workspace_id@);
    law_states_are_read_as_stored(s.states, place.project.workspace_id@);
}

/// Clearing removes the state of the workspace and no other, and says whether there was one.
pub proof fn law_clear_removes_one_state<F: Fn(&Vec<u32>) -> i64>(
    s: StoreView,
    after: Option<StoreView>,
    place: Place,
    c: StateClearView,
    supplies: Supplies,
    score: F,
    r: Result<Output, Error>,
)
    requires
        run::is_run(Some(s), after, place, CommandView::StateClear(c), supplies, score, r),
        !all_space(place.project.workspace_id@),
    ensures
        after is Some,
        r is Ok && r->Ok_0 is Cleared,
        r matches Ok(Output::Cleared { workspace, cleared }) ==> workspace@
            == place.project.workspace_id@ && (cleared <==> exists|i: int|
            0 <= i < s.states.len() && (#[trigger] s.states[i]).workspace
                == place.project.workspace_id@),
        forall|x: StateView| #[trigger]
            after->0.states.contains(x) <==> s.states.contains(x) && x.workspace
                != place.project.workspace_id@,
        after->0.memories == s.memories,
        after->0.embeddings == s.embeddings,
        after->0.episodes == s.episodes,
        after->0.entries == s.entries,
        after->0.jobs == s.jobs,
{
    let w = place.project.workspace_id@;
    law_blank_texts_are_white_space(w);
    law_clearing_removes_one_state(s.states, w);
    let p = state::of_workspace(w);
    if exists|i: int| 0 <= i < s.states.len() && (#[trigger] s.states[i]).workspace == w {
        let i = choose|i: int| 0 <= i < s.states.len() && (#[trigger] s.states[i]).workspace == w;
        assert(p(s.states[i]));
    }
}

/// Setting a state changes what the command names and nothing else: a value that it gives is
/// taken, a field that it clears is emptied, and every other field stays. The first one makes
/// the state. Other states stay, and so does every other record.
pub proof fn law_set_changes_what_it_names<F: Fn(&Vec<u32>) -> i64>(
    before: Option<StoreView>,
    after: Option<StoreView>,
    place: Place,
    c: StateSetView,
    supplies: Supplies,
    score: F,
    r: Result<Output, Error>,
    p: int,
)
    requires
        run::is_run(before, after, place, CommandView::StateSet(c), supplies, score, r),
        one_state_each(states_in(before)),
        r is Ok,
    ensures
        after is Some,
        after->0.memories == memories_in(before),
        before is Some ==> after->0.embeddings == before->0.embeddings && after->0.episodes
            == before->0.episodes && after->0.entries == before->0.entries && after->0.jobs
            == before->0.jobs,
        r->Ok_0 is State,
        r matches Ok(Output::State { workspace, state }) ==> workspace@
            == place.project.workspace_id@ && state is Some,
        0 <= p < states_in(before).len() && states_in(before)[p].workspace
            == place.project.workspace_id@ ==> {
            let old_states = states_in(before);
            let new_states = after->0.states;
            &&& new_states.len() == old_states.len()
            &&& forall|i: int|
                0 <= i < old_states.len() && i != p ==> #[trigger] new_states[i] == old_states[i]
            &&& new_states[p].workspace == old_states[p].workspace
            &&& is_patched(
                new_states[p].session,
                old_states[p].session,
                c.session,
                c.clear.contains("session"@),
            )
            &&& is_patched(
                new_states[p].goal,
                old_states[p].goal,
                c.goal,
                c.clear.contains("goal"@),
            )
            &&& is_patched(
                new_states[p].task,
                old_states[p].task,
                c.task,
                c.clear.contains("task"@),
            )
            &&& is_patched(
                new_states[p].checkpoint,
                old_states[p].checkpoint,
                c.checkpoint,
                c.clear.contains("checkpoint"@),
            )
            &&& r matches Ok(Output::State { workspace, state: Some(shown) }) && shown@
                == new_states[p]
        },
        (forall|i: int|
            0 <= i < states_in(before).len() ==> (#[trigger] states_in(before)[i]).workspace
                != place.project.workspace_id@) ==> {
            let old_states = states_in(before);
            let new_states = after->0.states;
            let made = new_states[old_states.len() as int];
            &&& new_states.len() == old_states.len() + 1
            &&& forall|i: int|
                0 <= i < old_states.len() ==> #[trigger] new_states[i] == old_states[i]
            &&& made.workspace == place.project.workspace_id@
            &&& made.session == c.session
            &&& made.goal == c.goal
            &&& made.task == c.task
            &&& made.checkpoint == c.checkpoint
            &&& r matches Ok(Output::State { workspace, state: Some(shown) }) && shown@ == made
        },
{
    law_a_fresh_store_is_empty();
    let s = run::opened(before);
    assert(s.memories =~= memories_in(before));
    assert(s.states =~= states_in(before));
    let input = run::update_of(place.project@.workspace_id, c);
    if let Ok(Output::State { workspace, state: Some(shown) }) = r {
        let now = shown@.updated_at;
        if 0 <= p < s.states.len() && s.states[p].workspace == input.workspace {
            law_updates_touch_only_what_they_name(s.states, p, input, now);
        }
        if forall|i: int|
            0 <= i < states_in(before).len() ==> (#[trigger] states_in(before)[i]).workspace
                != place.project.workspace_id@ {
            law_the_first_update_makes_the_state(s.states, input, now);
        }
    }
}

/// Indexing asks for the vectors of whole texts of active memories that lack one, as many as
/// its limit allows: sixty-four unless it says otherwise, and never more than a thousand.
pub proof fn law_index_embeds_whole_texts<F: Fn(&Vec<u32>) -> i64>(
    s: StoreView,
    after: Option<StoreView>,
    place: Place,
    c: IndexView,
    supplies: Supplies,
    score: F,
    r: Result<Output, Error>,
    k: int,
)
    requires
        run::is_run(Some(s), after, place, CommandView::Index(c), supplies, score, r),
    ensures
        after == Some(s),
        r is Ok && (r->Ok_0 is Ran || r->Ok_0 is Embed),
        r->Ok_0 is Embed <==> (supplies.cached || !c.cached_only) && exists|i: int|
            0 <= i < s.memories.len() && lacks_a_vector(
                s,
                #[trigger] s.memories[i],
                EMBEDDING_MODEL_ID@,
            ),
        r matches Ok(Output::Embed { options, sources }) ==> {
            &&& options.limit == bounded(c.limit, 64, 1000)
            &&& options.cache_dir@ == supplies.cache_dir@
            &&& options.cached_only == c.cached_only
            &&& options.show_download_progress == supplies.show_download_progress
            &&& 0 < sources@.len() <= bounded(c.limit, 64, 1000)
            &&& 0 <= k < sources@.len() ==> is_read_from(sources@[k]@, s, EMBEDDING_MODEL_ID@)
        },
        r matches Ok(Output::Ran(stats)) ==> {
            &&& stats.model@ == EMBEDDING_MODEL_ID@
            &&& stats.cache_dir@ == supplies.cache_dir@
            &&& stats.indexed == 0
            &&& stats.stale == 0
            &&& stats.remaining == embedding::waiting(s, EMBEDDING_MODEL_ID@).len()
        },
{
    law_what_waits_lacks_a_vector(s, EMBEDDING_MODEL_ID@);
    if let Ok(Output::Embed { options, sources }) = r {
        let found = model::views(sources@);
        law_runs_embed_whole_texts(s, found, bounded(c.limit, 64, 1000));
        if 0 <= k < sources@.len() {
            assert(found[k] == sources@[k]@);
        }
    }
}

/// Initialising makes an empty store where there is none, and leaves one that is there as it
/// is; asking for the status changes nothing.
pub proof fn law_init_keeps_what_is_there<F: Fn(&Vec<u32>) -> i64>(
    before: Option<StoreView>,
    after: Option<StoreView>,
    place: Place,
    command: CommandView,
    supplies: Supplies,
    score: F,
    r: Result<Output, Error>,
)
    requires
        run::is_run(before, after, place, command, supplies, score, r),
        command is Init || command is Status,
    ensures
        before is Some || command is Status ==> after == before,
        before is None && command is Init ==> after is Some && after->0.memories.len() == 0
            && after->0.states.len() == 0 && after->0.episodes.len() == 0
            && after->0.entries.len() == 0 && after->0.embeddings.len() == 0
            && after->0.jobs.len() == 0,
        r is Ok && r->Ok_0 is Status,
        r matches Ok(Output::Status(o)) ==> {
            &&& o.database@ == place.database@
            &&& o.workspace@ == place.project.workspace_id@
            &&& o.build_commit@ == place.build_commit@
            &&& o.initialized == (after is Some)
            &&& o.total == memories_in(after).len()
            &&& after is Some ==> {
                &&& o.schema_version == after->0.schema_version
                &&& o.active == store::number_in(after->0, "active"@)
                &&& o.superseded == store::number_in(after->0, "superseded"@)
                &&& o.deleted == store::number_in(after->0, "deleted"@)
                &&& o.indexed == after->0.memories.filter(
                    embedding::covered(after->0.embeddings, EMBEDDING_MODEL_ID@),
                ).len()
                &&& o.unindexed == embedding::waiting(after->0, EMBEDDING_MODEL_ID@).len()
                &&& o.indexed + o.unindexed == o.active
            }
            &&& after is None ==> o.schema_version == 0 && o.active == 0 && o.superseded == 0
                && o.deleted == 0 && o.indexed == 0 && o.unindexed == 0
        },
{
    law_a_fresh_store_is_empty();
    if after is Some {
        embedding::law_coverage_partitions_active_memories(after->0, EMBEDDING_MODEL_ID@);
    }
}

/// A semantic search that has the vector of its query compares it with whole vectors: each hit
/// is an active memory with the score of its whole current vector, best first, and every
/// current vector is compared. It is answered where every stored vector can be compared.
pub proof fn law_semantic_search_compares_whole_vectors<F: Fn(&Vec<u32>) -> i64>(
    s: StoreView,
    after: Option<StoreView>,
    place: Place,
    c: SearchView,
    supplies: Supplies,
    score: F,
    r: Result<Output, Error>,
    j: int,
) -> (w: (EmbeddingView, Vec<u32>))
    requires
        run::is_run(Some(s), after, place, CommandView::Search(c), supplies, score, r),
        c.semantic,
        r matches Ok(Output::Scored(hits)) && 0 <= j < hits@.len(),
    ensures
        r matches Ok(Output::Scored(hits)) ==> {
            let h = hits@[j];
            &&& hits@.len() <= bounded(c.limit, 10, 100)
            &&& s.memories.contains(h.memory@)
            &&& h.memory@.status == "active"@
            &&& s.embeddings.contains(w.0)
            &&& is_vector_of(w.0, h.memory@.id, EMBEDDING_MODEL_ID@, h.memory@.updated_at)
            &&& w.1@ == vector::decoded(w.0.vector)
            &&& call_ensures(score, (&w.1,), h.score)
            &&& forall|i: int| 0 <= i < j ==> no_worse((#[trigger] hits@[i])@, h@)
        },
{
    let limit = bounded(c.limit, 10, 100);
    assert(limit == cli::clamped(c.limit, 10, 100));
    let hits = r->Ok_0->Scored_0;
    let found = model::views(hits@);
    let rows = vector_search::scanned(s, EMBEDDING_MODEL_ID@);
    let scores = choose|scores: Seq<i64>| #[trigger]
        vector_search::is_best_by_score(found, rows, score, scores, limit);
    assert(found[j] == hits@[j]@);
    law_found_memories_are_in_order(rows, score, scores, limit, found);
    assert forall|i: int| 0 <= i < j implies no_worse((#[trigger] hits@[i])@, hits@[j]@) by {
        assert(found[i] == hits@[i]@);
    }
    law_scores_are_of_whole_vectors(s, EMBEDDING_MODEL_ID@, score, scores, limit, found, j)
}

/// A semantic search is answered where no active memory lacks a vector and each stored one can
/// be compared with that of the query.
pub proof fn law_semantic_search_is_answered<F: Fn(&Vec<u32>) -> i64>(
    s: StoreView,
    after: Option<StoreView>,
    place: Place,
    c: SearchView,
    supplies: Supplies,
    score: F,
    r: Result<Output, Error>,
    dimensions: usize,
)
    requires
        run::is_run(Some(s), after, place, CommandView::Search(c), supplies, score, r),
        c.semantic,
        supplies.vector == Some(Ok::<usize, Error>(dimensions)),
        4 * dimensions <= usize::MAX,
        forall|i: int|
            0 <= i < s.memories.len() ==> !lacks_a_vector(
                s,
                #[trigger] s.memories[i],
                EMBEDDING_MODEL_ID@,
            ),
        forall|k: int|
            0 <= k < vector_search::scanned(s, EMBEDDING_MODEL_ID@).len() ==> is_comparable(
                #[trigger] vector_search::scanned(s, EMBEDDING_MODEL_ID@)[k],
                dimensions as int,
            ),
    ensures
        r is Ok,
        r->Ok_0 is Scored,
{
    let limit = bounded(c.limit, 10, 100);
    assert(limit == cli::clamped(c.limit, 10, 100));
    recall::lemma_model_id_is_not_blank();
    law_blank_texts_are_white_space(EMBEDDING_MODEL_ID@);
    law_what_waits_lacks_a_vector(s, EMBEDDING_MODEL_ID@);
    law_comparable_vectors_are_accepted(s, EMBEDDING_MODEL_ID@, limit, Ok(dimensions as int));
}

/// A workspace without a name is refused, and nothing changes.
pub proof fn law_workspaces_have_names<F: Fn(&Vec<u32>) -> i64>(
    s: StoreView,
    after: Option<StoreView>,
    place: Place,
    command: CommandView,
    supplies: Supplies,
    score: F,
    r: Result<Output, Error>,
)
    requires
        run::is_run(Some(s), after, place, command, supplies, score, r),
        command is StateShow || command is StateSet || command is StateClear || command is Context,
        all_space(place.project.workspace_id@),
    ensures
        after == Some(s),
        r is Err,
        r->Err_0@ == "workspace"@ + " cannot be empty"@,
{
    law_blank_texts_are_white_space(place.project.workspace_id@);
}

} // verus!
