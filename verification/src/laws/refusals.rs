//! What is said where something is refused.

use crate::args;
use crate::args::{Kind, WordsView};
use crate::clock;
use crate::embedding;
use crate::episode;
use crate::episode::{EntryView, EpisodeView, NewEntryView, NewEpisodeView};
use crate::index_job;
use crate::laws::arguments::law_the_last_value_counts;
use crate::laws::storage::{is_episode, is_memory, is_sound, size};
use crate::laws::text::{all_space, law_blank_texts_are_white_space};
use crate::legacy::{RelationRowView, SnapshotView};
use crate::memory;
use crate::memory::NewMemoryView;
use crate::model;
use crate::staging;
use crate::staging::StagedCounts;
use crate::state;
use crate::state::{StateView, UpdateView};
use crate::storage_migration;
use crate::storage_migration::{PurgeFacts, ShareView};
use crate::store;
use crate::store::StoreView;
use crate::text;
use crate::vector;
use crate::vector_search;
use crate::vector_search::CandidateView;
use vstd::prelude::*;

verus! {

/// What is said of a name that is empty.
pub open spec fn empty(name: Seq<char>) -> Option<Seq<char>> {
    Some(name + " cannot be empty"@)
}

/// Holds of a value that is given and nothing but white space.
pub open spec fn is_blank(value: Option<Seq<char>>) -> bool {
    value is Some && all_space(value->0)
}

proof fn lemma_name(value: Seq<char>, name: Seq<char>)
    ensures
        memory::identity_refusal(value, name) == (if all_space(value) {
            empty(name)
        } else {
            None
        }),
{
    law_blank_texts_are_white_space(value);
}

proof fn lemma_optional(value: Option<Seq<char>>, name: Seq<char>)
    ensures
        memory::optional_refusal(value, name) == (if is_blank(value) {
            empty(name)
        } else {
            None
        }),
{
    if value is Some {
        law_blank_texts_are_white_space(value->0);
    }
}

/// A memory is refused for the first of these that holds: an empty text, an unknown kind, an
/// empty actor, an empty source type, an empty source reference.
pub proof fn law_refused_memories_say_why(input: NewMemoryView)
    requires
        !all_space(input.text),
        memory::known_kind(input.kind),
    ensures
        memory::new_memory_refusal(input) == (if all_space(input.actor) {
            empty("memory actor"@)
        } else if all_space(input.source_type) {
            empty("memory source type"@)
        } else if is_blank(input.source_ref) {
            empty("source reference"@)
        } else {
            None
        }),
{
    law_blank_texts_are_white_space(input.text);
    law_blank_texts_are_white_space(input.actor);
    law_blank_texts_are_white_space(input.source_type);
    lemma_optional(input.source_ref, "source reference"@);
}

/// An episode is refused for the first of these that holds.
pub proof fn law_refused_episodes_say_why(input: NewEpisodeView, unreadable: Option<Seq<char>>)
    ensures
        episode::episode_refusal(input, unreadable) == (if all_space(input.source_type) {
            empty("episode source type"@)
        } else if all_space(input.source_ref) {
            empty("episode source reference"@)
        } else if input.project_id is None && input.workspace_id is Some {
            Some("episode workspace requires a project"@)
        } else if is_blank(input.project_id) {
            empty("project identifier"@)
        } else if is_blank(input.workspace_id) {
            empty("workspace identifier"@)
        } else if unreadable is Some {
            Some("episode metadata must be valid JSON: "@ + unreadable->0)
        } else {
            None
        }),
{
    lemma_name(input.source_type, "episode source type"@);
    lemma_name(input.source_ref, "episode source reference"@);
    lemma_optional(input.project_id, "project identifier"@);
    lemma_optional(input.workspace_id, "workspace identifier"@);
}

/// An entry is refused for the first of these that holds.
pub proof fn law_refused_entries_say_why(input: NewEntryView, unreadable: Option<Seq<char>>)
    ensures
        episode::entry_refusal(input, unreadable) == (if all_space(input.source_ref) {
            empty("episode entry source reference"@)
        } else if all_space(input.kind) {
            empty("episode entry kind"@)
        } else if all_space(input.text) {
            empty("episode entry text"@)
        } else if input.ordinal is Some && input.ordinal->0 < 0 {
            Some("episode entry ordinal cannot be negative"@)
        } else if is_blank(input.role) {
            empty("episode entry role"@)
        } else if unreadable is Some {
            Some("episode entry metadata must be valid JSON: "@ + unreadable->0)
        } else {
            None
        }),
{
    lemma_name(input.source_ref, "episode entry source reference"@);
    lemma_name(input.kind, "episode entry kind"@);
    lemma_name(input.text, "episode entry text"@);
    lemma_optional(input.role, "episode entry role"@);
}

/// A source that is recorded for another project or workspace, an identifier that is taken,
/// and a place that is too large are refused by name.
pub proof fn law_refused_records_say_why(
    episodes: Seq<EpisodeView>,
    input: NewEpisodeView,
    entries: Seq<EntryView>,
    episode_id: Seq<char>,
    entry: NewEntryView,
    id: Seq<char>,
    now: int,
    p: int,
)
    ensures
        0 <= p < episodes.len() && episodes[p].source_type == input.source_type
            && episodes[p].source_ref == input.source_ref && (forall|i: int|
            0 <= i < p ==> !((#[trigger] episodes[i]).source_type == input.source_type
                && episodes[i].source_ref == input.source_ref)) && (episodes[p].project_id
            != input.project_id || episodes[p].workspace_id != input.workspace_id)
            ==> episode::ensured(episodes, input, id, now) == Err::<EpisodeView, Seq<char>>(
            "episode source "@ + input.source_type + ":"@ + input.source_ref
                + " is already bound to a different project/workspace"@,
        ),
        0 <= p < episodes.len() && episodes[p].id == id && (forall|i: int|
            0 <= i < episodes.len() ==> !((#[trigger] episodes[i]).source_type == input.source_type
                && episodes[i].source_ref == input.source_ref)) ==> episode::ensured(
            episodes,
            input,
            id,
            now,
        ) == Err::<EpisodeView, Seq<char>>("UNIQUE constraint failed: episodes.id"@),
        0 <= p < entries.len() && entries[p].id == id && entry.ordinal is Some && entry.ordinal->0
            <= i64::MAX && (forall|i: int|
            0 <= i < entries.len() ==> !((#[trigger] entries[i]).episode_id == episode_id
                && entries[i].source_ref == entry.source_ref)) ==> episode::recorded(
            entries,
            episode_id,
            entry,
            id,
        ) == Err::<EntryView, Seq<char>>("UNIQUE constraint failed: episode_entries.id"@),
        entry.ordinal is Some && entry.ordinal->0 > i64::MAX && (forall|i: int|
            0 <= i < entries.len() ==> !((#[trigger] entries[i]).episode_id == episode_id
                && entries[i].source_ref == entry.source_ref)) ==> episode::recorded(
            entries,
            episode_id,
            entry,
            id,
        ) == Err::<EntryView, Seq<char>>("episode entry ordinal overflow"@),
{
    let q = episode::with_source(input.source_type, input.source_ref);
    model::lemma_first_row(episodes, q);
    let e = episode::at_place(episode_id, entry.source_ref);
    model::lemma_first_row(entries, e);
    if 0 <= p < episodes.len() {
        if q(episodes[p]) && (forall|i: int|
            0 <= i < p ==> !((#[trigger] episodes[i]).source_type == input.source_type
                && episodes[i].source_ref == input.source_ref)) {
            model::lemma_first_row_at(episodes, q, p);
        }
        if episodes[p].id == id {
            assert(episode::with_id(id)(episodes[p]));
        }
    }
    if 0 <= p < entries.len() && entries[p].id == id {
        assert(episode::entry_with_id(id)(entries[p]));
    }
}

/// Times that the database cannot hold are refused by name.
pub proof fn law_late_times_are_refused(limit: int, millis: int, now: int)
    requires
        0 < limit <= i64::MAX,
        0 < millis <= i64::MAX,
        0 <= now <= i64::MAX,
        now + millis > i64::MAX,
    ensures
        index_job::claim_refusal_at(limit, millis, now) == Some(
            "index job lease timestamp overflow"@,
        ),
        index_job::delay_refusal(millis, now) == Some("index job retry timestamp overflow"@),
{
}

/// Numbers that the database cannot hold are refused by name.
pub proof fn law_large_numbers_are_refused(worker: Seq<char>, n: int)
    requires
        n > i64::MAX,
        !all_space(worker),
    ensures
        ({
            let message = Some("out of range integral type conversion attempted"@);
            &&& index_job::claim_refusal(worker, 1, n) == message
            &&& index_job::claim_refusal_at(n, 1, 0) == message
            &&& index_job::delay_refusal(n, 0) == message
            &&& clock::out_of_range() == message->0
        }),
{
    law_blank_texts_are_white_space(worker);
}

/// An update of a state is refused for the first of these that holds.
pub proof fn law_blank_fields_are_refused(states: Seq<StateView>, input: UpdateView)
    requires
        !all_space(input.workspace),
    ensures
        is_blank(input.session) ==> state::update_refusal(states, input) == empty("session"@),
        !is_blank(input.session) && is_blank(input.goal) ==> state::update_refusal(states, input)
            == empty("goal"@),
        !is_blank(input.session) && !is_blank(input.goal) && is_blank(input.task)
            ==> state::update_refusal(states, input) == empty("task"@),
        !is_blank(input.session) && !is_blank(input.goal) && !is_blank(input.task) && is_blank(
            input.checkpoint,
        ) ==> state::update_refusal(states, input) == empty("checkpoint"@),
{
    lemma_name(input.workspace, "workspace"@);
    lemma_optional(input.session, "session"@);
    lemma_optional(input.goal, "goal"@);
    lemma_optional(input.task, "task"@);
    lemma_optional(input.checkpoint, "checkpoint"@);
}

/// A memory that changed meanwhile, and a job that has had its last generation, are refused by
/// name.
pub proof fn law_changed_memories_are_refused(s: StoreView, id: Seq<char>, other: Seq<char>)
    requires
        forall|i: int|
            0 <= i < s.memories.len() ==> (#[trigger] s.memories[i]).id != id && s.memories[i].id
                != other,
    ensures
        store::forget_conflict(s, id) == Some("memory changed while it was being forgotten"@),
        store::correction_conflict(s, id, other) == Some(
            "memory changed while correction was being applied"@,
        ),
{
    model::lemma_first_row(s.memories, memory::active_with(id));
    assert(!model::any_row(s.memories, memory::active_with(id)));
    assert(!model::any_row(s.memories, memory::with_id(other)));
}

/// A text whose job has had its last generation is refused by name.
pub proof fn law_spent_jobs_are_refused(s: StoreView, id: Seq<char>, new_text: Seq<char>, j: int)
    requires
        !all_space(new_text),
        0 <= j < s.jobs.len(),
        s.jobs[j].entity_type == "memory"@,
        s.jobs[j].entity_id == id,
        s.jobs[j].generation == i64::MAX,
    ensures
        store::refresh_refusal(s, id, new_text) == Some("index job generation overflow"@),
{
    law_blank_texts_are_white_space(new_text);
    assert(index_job::spent(id)(s.jobs[j]));
}

/// A vector is refused for the first of these that holds.
pub proof fn law_refused_vectors_say_why(v: Seq<u32>, name: Seq<char>)
    ensures
        v.len() == 0 ==> vector::vector_refusal(v, name) == empty(name),
        v.len() > 65536 ==> vector::vector_refusal(v, name) == Some(
            name + " is unreasonably large"@,
        ),
        0 < v.len() <= 65536 && !vector::all_finite(v) ==> vector::vector_refusal(v, name) == Some(
            name + " must contain only finite values"@,
        ),
{
}

/// A stored vector that cannot be compared is refused for the first of these that holds.
pub proof fn law_refused_stored_vectors_say_why(c: CandidateView, dimensions: int)
    requires
        0 <= dimensions,
        4 * dimensions <= usize::MAX,
        0 <= c.dimensions <= usize::MAX,
    ensures
        c.dimensions != dimensions ==> vector_search::candidate_refusal(c, dimensions) == Some(
            "embedding dimension mismatch for "@ + c.memory.id + ": stored "@ + text::decimal(
                c.dimensions,
            ) + ", query "@ + text::decimal(dimensions),
        ),
        c.dimensions == dimensions && c.vector.len() != 4 * dimensions
            ==> vector_search::candidate_refusal(c, dimensions) == Some(
            "invalid embedding byte length for "@ + c.memory.id + ": expected "@ + text::decimal(
                4 * dimensions,
            ) + ", got "@ + text::decimal(c.vector.len() as int),
        ),
        c.dimensions == dimensions && c.vector.len() == 4 * dimensions && !vector::all_finite(
            vector::decoded(c.vector),
        ) ==> vector_search::candidate_refusal(c, dimensions) == Some(
            "stored embedding contains non-finite values for "@ + c.memory.id,
        ),
{
}

/// The first stored vector that cannot be compared is named.
pub proof fn law_the_first_refused_vector_is_named(
    rows: Seq<CandidateView>,
    dimensions: int,
    k: int,
)
    requires
        0 <= k < rows.len(),
        vector_search::candidate_refusal(rows[k], dimensions) is Some,
        forall|i: int|
            0 <= i < k ==> vector_search::candidate_refusal(#[trigger] rows[i], dimensions) is None,
    ensures
        vector_search::scan_refusal(rows, dimensions) == vector_search::candidate_refusal(
            rows[k],
            dimensions,
        ),
{
    model::lemma_first_row_at(rows, vector_search::refused(dimensions), k);
}

/// A written share that lacks rows is refused for the first table that does, by name.
pub proof fn law_incomplete_shares_say_why(share: ShareView, found: StagedCounts)
    ensures
        ({
            let name = if share.project_id is Some {
                share.project_id->0
            } else {
                "user store"@
            };
            let r = staging::staging_refusal(share, found);
            let memories = size(found.memories) == share.memories.len();
            let sources = memories && size(found.sources) == share.sources.len();
            let relations = sources && size(found.relations) == share.relations.len();
            let episodes = relations && size(found.episodes) == share.episodes.len();
            let entries = episodes && size(found.entries) == share.entries.len();
            let states = entries && size(found.states) == share.states.len();
            let vectors = states && size(found.vectors) == share.vectors.len();
            &&& memories && !sources ==> r == Some(
                "store "@ + name + ": expected "@ + text::decimal(share.sources.len() as int)
                    + " sources, found "@ + text::decimal(size(found.sources)),
            )
            &&& sources && !relations ==> r == Some(
                "store "@ + name + ": expected "@ + text::decimal(share.relations.len() as int)
                    + " relations, found "@ + text::decimal(size(found.relations)),
            )
            &&& relations && !episodes ==> r == Some(
                "store "@ + name + ": expected "@ + text::decimal(share.episodes.len() as int)
                    + " episodes, found "@ + text::decimal(size(found.episodes)),
            )
            &&& episodes && !entries ==> r == Some(
                "store "@ + name + ": expected "@ + text::decimal(share.entries.len() as int)
                    + " entries, found "@ + text::decimal(size(found.entries)),
            )
            &&& entries && !states ==> r == Some(
                "store "@ + name + ": expected "@ + text::decimal(share.states.len() as int)
                    + " workspaces, found "@ + text::decimal(size(found.states)),
            )
            &&& states && !vectors ==> r == Some(
                "store "@ + name + ": expected "@ + text::decimal(share.vectors.len() as int)
                    + " vectors, found "@ + text::decimal(size(found.vectors)),
            )
            &&& vectors && found.violations > 0 ==> r == Some(
                "store "@ + name + ": foreign key check reported "@ + text::decimal(
                    found.violations as int,
                ) + " violations"@,
            )
        }),
{
}

/// What belongs to no memory or episode is refused by name, and so are relations that leave
/// their project, and projects without a name.
pub proof fn law_stray_rows_are_refused_by_name(s: SnapshotView, x: RelationRowView, i: int, j: int)
    requires
        is_sound(s),
    ensures
        !is_memory(s, x.from) ==> storage_migration::relation_refusal(s, x) == Some(
            "relation references unknown memory "@ + x.from,
        ),
        is_memory(s, x.from) && !is_memory(s, x.to) ==> storage_migration::relation_refusal(s, x)
            == Some("relation references unknown memory "@ + x.to),
        0 <= i < s.memories.len() && 0 <= j < s.memories.len() && s.memories[i].id == x.from
            && s.memories[j].id == x.to && s.memories[i].project_id != s.memories[j].project_id
            ==> storage_migration::relation_refusal(s, x) == Some(
            "relation "@ + x.from + " -> "@ + x.to
                + " crosses a project boundary and cannot be split across stores"@,
        ),
        0 <= i < s.memories.len() && s.memories[i].project_id is Some && all_space(
            s.memories[i].project_id->0,
        ) ==> storage_migration::route_refusal(s) == Some(
            "legacy row references an empty project identifier"@,
        ),
{
    crate::laws::storage::lemma_memory_owner(s, x.from);
    crate::laws::storage::lemma_memory_owner(s, x.to);
    if 0 <= i < s.memories.len() {
        crate::laws::storage::lemma_owner_of_memory(s, i);
        if s.memories[i].project_id is Some {
            law_blank_texts_are_white_space(s.memories[i].project_id->0);
            if all_space(s.memories[i].project_id->0) {
                assert(storage_migration::stray_memory()(s.memories[i]));
            }
        }
    }
    if 0 <= j < s.memories.len() {
        crate::laws::storage::lemma_owner_of_memory(s, j);
    }
}

/// The first source, entry or vector that belongs to nothing is named.
pub proof fn law_the_first_stray_row_is_named(s: SnapshotView, k: int)
    ensures
        0 <= k < s.sources.len() && !is_memory(s, s.sources[k].memory_id) && (forall|i: int|
            0 <= i < k ==> is_memory(s, (#[trigger] s.sources[i]).memory_id)) && !model::any_row(
            s.memories,
            storage_migration::stray_memory(),
        ) ==> storage_migration::memory_refusal(s) == Some(
            "source references unknown memory "@ + s.sources[k].memory_id,
        ),
        0 <= k < s.entries.len() && !is_episode(s, s.entries[k].episode_id) && (forall|i: int|
            0 <= i < k ==> is_episode(s, (#[trigger] s.entries[i]).episode_id)) && !model::any_row(
            s.episodes,
            storage_migration::stray_episode(),
        ) ==> storage_migration::history_refusal(s) == Some(
            "entry references unknown episode "@ + s.entries[k].episode_id,
        ),
        0 <= k < s.vectors.len() && !is_memory(s, s.vectors[k].entity_id) && (forall|i: int|
            0 <= i < k ==> is_memory(s, (#[trigger] s.vectors[i]).entity_id)) && !model::any_row(
            s.states,
            storage_migration::stray_state(),
        ) ==> storage_migration::derived_refusal(s) == Some(
            "vector references unknown memory "@ + s.vectors[k].entity_id,
        ),
{
    let px = storage_migration::stray_source(s);
    let pn = storage_migration::stray_entry(s);
    let pv = storage_migration::stray_vector(s);
    assert forall|i: int| 0 <= i < s.sources.len() implies px(#[trigger] s.sources[i])
        == !is_memory(s, s.sources[i].memory_id) by {
        crate::laws::storage::lemma_memory_owner(s, s.sources[i].memory_id);
    }
    assert forall|i: int| 0 <= i < s.entries.len() implies pn(#[trigger] s.entries[i])
        == !is_episode(s, s.entries[i].episode_id) by {
        crate::laws::storage::lemma_episode_owner(s, s.entries[i].episode_id);
    }
    assert forall|i: int| 0 <= i < s.vectors.len() implies pv(#[trigger] s.vectors[i])
        == !is_memory(s, s.vectors[i].entity_id) by {
        crate::laws::storage::lemma_memory_owner(s, s.vectors[i].entity_id);
    }
    if 0 <= k < s.sources.len() && px(s.sources[k]) && (forall|i: int|
        0 <= i < k ==> is_memory(s, (#[trigger] s.sources[i]).memory_id)) {
        model::lemma_first_row_at(s.sources, px, k);
    }
    if 0 <= k < s.entries.len() && pn(s.entries[k]) && (forall|i: int|
        0 <= i < k ==> is_episode(s, (#[trigger] s.entries[i]).episode_id)) {
        model::lemma_first_row_at(s.entries, pn, k);
    }
    if 0 <= k < s.vectors.len() && pv(s.vectors[k]) && (forall|i: int|
        0 <= i < k ==> is_memory(s, (#[trigger] s.vectors[i]).entity_id)) {
        model::lemma_first_row_at(s.vectors, pv, k);
    }
}

/// What is not purged is named, with the reason.
pub proof fn law_refused_purges_say_why(path: Seq<char>, facts: PurgeFacts)
    requires
        facts.is_file,
    ensures
        ({
            let beneath = model::views(facts.projects@).is_prefix_of(model::views(facts.resolved@));
            &&& !beneath ==> storage_migration::purge_refusal(path, facts) == Some(
                "refusing to purge "@ + path
                    + ": resolved path escapes the managed projects directory"@,
            )
            &&& beneath && !facts.is_regular ==> storage_migration::purge_refusal(path, facts)
                == Some("refusing to purge "@ + path + ": not a regular file"@)
        }),
{
}

/// Words that a command does not take are named.
pub proof fn law_refused_words_say_why(words: WordsView, kind: Kind, k: int)
    ensures
        0 <= k < words.flags.len() && !args::takes(kind, words.flags[k]) && (forall|i: int|
            0 <= i < k ==> args::takes(kind, #[trigger] words.flags[i])) ==> args::words_refusal(
            words,
            kind,
        ) == Some("unexpected argument '--"@ + words.flags[k] + "'"@),
        words.flags.len() == 0 && 0 <= k < words.settings.len() && !args::takes(
            kind,
            words.settings[k].name,
        ) && (forall|i: int|
            0 <= i < k ==> args::takes(kind, (#[trigger] words.settings[i]).name))
            ==> args::words_refusal(words, kind) == Some(
            "unexpected argument '--"@ + words.settings[k].name + "'"@,
        ),
        words.flags.len() == 0 && words.settings.len() == 0 && words.args.len() < args::arity(kind)
            ==> args::words_refusal(words, kind) == Some("missing argument for "@ + words.args[0]),
        words.flags.len() == 0 && words.settings.len() == 0 && words.args.len() > args::arity(kind)
            ==> args::words_refusal(words, kind) == Some(
            "unexpected argument '"@ + words.args[args::arity(kind)] + "'"@,
        ),
{
    model::lemma_first_row(words.flags, args::stray_flag(kind));
    model::lemma_first_row(words.settings, args::stray_setting(kind));
    if 0 <= k < words.flags.len() && !args::takes(kind, words.flags[k]) && (forall|i: int|
        0 <= i < k ==> args::takes(kind, #[trigger] words.flags[i])) {
        model::lemma_first_row_at(words.flags, args::stray_flag(kind), k);
    }
    if 0 <= k < words.settings.len() && !args::takes(kind, words.settings[k].name) && (forall|
        i: int,
    |
        0 <= i < k ==> args::takes(kind, (#[trigger] words.settings[i]).name)) {
        model::lemma_first_row_at(words.settings, args::stray_setting(kind), k);
    }
}

/// A size that is no number is named, with its option.
pub proof fn law_refused_sizes_say_why(words: WordsView, name: Seq<char>, i: int)
    requires
        0 <= i < words.settings.len(),
        words.settings[i].name == name,
        forall|j: int| i < j < words.settings.len() ==> (#[trigger] words.settings[j]).name != name,
        text::size_value(words.settings[i].value) is None,
    ensures
        args::size_refusal(words, name) == Some(
            "invalid value '"@ + words.settings[i].value + "' for --"@ + name,
        ),
{
    law_the_last_value_counts(words, name, i);
}

/// A command that is not known is named.
pub proof fn law_unknown_commands_are_named(name: Seq<char>)
    ensures
        args::kind_of(seq!["state"@]) == Err::<Kind, Seq<char>>("missing command for state"@),
        args::kind_of(seq!["state"@, name]) is Err ==> args::kind_of(seq!["state"@, name]) == Err::<
            Kind,
            Seq<char>,
        >("unknown command '"@ + name + "'"@),
        name != "state"@ && args::kind_of(seq![name]) is Err ==> args::kind_of(seq![name]) == Err::<
            Kind,
            Seq<char>,
        >("unknown command '"@ + name + "'"@),
{
    reveal_strlit("state");
    reveal_strlit("init");
    reveal_strlit("status");
    assert("state"@.len() == 5 && "init"@.len() == 4 && "status"@.len() == 6);
}

/// A vector without a memory or a model is refused by name, and so is whatever needs a model
/// and has none.
pub proof fn law_nameless_vectors_are_refused(
    s: StoreView,
    id: Seq<char>,
    model: Seq<char>,
    made: Result<Seq<u32>, Seq<char>>,
    limit: int,
    query: Result<int, Seq<char>>,
)
    ensures
        all_space(id) ==> embedding::upsert_refusal(id, model, made) == empty("memory ID"@),
        !all_space(id) && all_space(model) ==> embedding::upsert_refusal(id, model, made) == empty(
            "embedding model"@,
        ),
        all_space(model) ==> embedding::pending_refusal(model, limit) == empty("embedding model"@),
        all_space(model) ==> vector_search::semantic_refusal(s, model, limit, query) == empty(
            "embedding model"@,
        ),
{
    lemma_name(id, "memory ID"@);
    lemma_name(model, "embedding model"@);
}

/// A stored vector whose size cannot be counted is refused by name.
pub proof fn law_vectors_beyond_counting_are_refused(
    bytes: Seq<u8>,
    dimensions: int,
    id: Seq<char>,
)
    requires
        4 * dimensions > usize::MAX,
    ensures
        vector::decode_refusal(bytes, dimensions, id) == Some(
            "embedding dimensions overflow for "@ + id,
        ),
{
}

} // verus!
