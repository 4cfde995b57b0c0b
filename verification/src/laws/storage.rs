//! What laying out the stores, and moving records into them, is for.

use crate::clock;
use crate::embedding_worker::EMBEDDING_MODEL_ID;
use crate::error::Error;
use crate::laws::memory::lemma_filter_membership;
use crate::laws::text::{all_space, law_blank_texts_are_white_space};
use crate::layout;
use crate::legacy;
use crate::legacy::{
    EntryRowView, EpisodeRowView, LegacyEmbeddingView, MemoryRowView, RelationRowView,
    SnapshotView, SourceRowView, StateRowView, VectorRowView,
};
use crate::model;
use crate::order;
use crate::schema;
use crate::schema::{Migration, WalStep};
use crate::staging;
use crate::staging::StagedCounts;
use crate::storage;
use crate::storage_migration;
use crate::storage_migration::{
    MigrationFinding, MigrationReport, MigrationState, MigrationStep, PlanView, PurgeFacts,
    PurgeReport, ShareView,
};
use crate::text;
use vstd::prelude::*;

verus! {

/// Holds of the characters that stand for themselves in the name of a store.
pub open spec fn is_plain(c: char) -> bool {
    let n = c as int;
    48 <= n <= 57 || 65 <= n <= 90 || 97 <= n <= 122 || n == 45
}

/// The number that a hexadecimal digit stands for.
pub open spec fn hex_value(c: char) -> int {
    let n = c as int;
    if 48 <= n <= 57 {
        n - 48
    } else if 97 <= n <= 102 {
        n - 87
    } else {
        -1
    }
}

/// The name of a store is made character by character: letters, digits and hyphens stand for
/// themselves, and any other character is an underscore and its number in six hexadecimal
/// digits.
pub proof fn law_names_are_made_character_by_character(a: Seq<char>, c: char)
    ensures
        layout::encoded(Seq::<char>::empty()).len() == 0,
        layout::encoded(a.push(c)) == layout::encoded(a) + layout::encoded(seq![c]),
        is_plain(c) ==> layout::encoded(seq![c]) == seq![c],
        !is_plain(c) ==> {
            let e = layout::encoded(seq![c]);
            &&& e.len() == 7
            &&& e[0] == '_'
            &&& forall|i: int| 1 <= i < 7 ==> 0 <= hex_value(#[trigger] e[i]) < 16
            &&& c as int == 0x10_0000 * hex_value(e[1]) + 0x1_0000 * hex_value(e[2]) + 0x1000
                * hex_value(e[3]) + 0x100 * hex_value(e[4]) + 0x10 * hex_value(e[5]) + hex_value(
                e[6],
            )
        },
{
    assert(a.push(c).drop_last() =~= a);
    let one = seq![c];
    assert(one.drop_last() =~= Seq::<char>::empty());
    assert(layout::encoded(one) =~= layout::encoded_char(c)) by {
        reveal_with_fuel(layout::encoded, 2);
        assert(one.last() == c);
    }
    lemma_plain(c);
    if !is_plain(c) {
        let n = c as u32;
        lemma_hex(n / 0x10_0000 % 16);
        lemma_hex(n / 0x1_0000 % 16);
        lemma_hex(n / 0x1000 % 16);
        lemma_hex(n / 0x100 % 16);
        lemma_hex(n / 0x10 % 16);
        lemma_hex(n % 16);
        lemma_digits(n);
        let e = layout::encoded(one);
        assert(e[1] == layout::hex((n / 0x10_0000 % 16) as int));
        assert(e[2] == layout::hex((n / 0x1_0000 % 16) as int));
        assert(e[3] == layout::hex((n / 0x1000 % 16) as int));
        assert(e[4] == layout::hex((n / 0x100 % 16) as int));
        assert(e[5] == layout::hex((n / 0x10 % 16) as int));
        assert(e[6] == layout::hex((n % 16) as int));
        assert forall|i: int| 1 <= i < 7 implies 0 <= hex_value(#[trigger] e[i]) < 16 by {
            assert(i == 1 || i == 2 || i == 3 || i == 4 || i == 5 || i == 6);
        }
    }
}

proof fn lemma_plain(c: char)
    ensures
        layout::plain(c) == is_plain(c),
{
}

proof fn lemma_hex(n: u32)
    requires
        n < 16,
    ensures
        hex_value(layout::hex(n as int)) == n,
{
}

proof fn lemma_digits(n: u32)
    requires
        n < 0x11_0000,
    ensures
        n == 0x10_0000 * (n / 0x10_0000 % 16) + 0x1_0000 * (n / 0x1_0000 % 16) + 0x1000 * (n
            / 0x1000 % 16) + 0x100 * (n / 0x100 % 16) + 0x10 * (n / 0x10 % 16) + n % 16,
{
    assert(n < 0x11_0000 ==> n == 0x10_0000 * (n / 0x10_0000 % 16) + 0x1_0000 * (n / 0x1_0000
        % 16) + 0x1000 * (n / 0x1000 % 16) + 0x100 * (n / 0x100 % 16) + 0x10 * (n / 0x10 % 16) + n
        % 16) by (bit_vector);
}

/// Each store has its path below the root: the one of the user, and one for each project.
pub proof fn law_stores_have_their_paths(root: Seq<char>, project: Seq<char>)
    ensures
        storage_migration::store_at(root, None) == root + "/"@ + "layout-v1"@ + "/"@ + "user.db"@,
        storage_migration::store_at(root, Some(project)) == root + "/"@ + "layout-v1"@ + "/"@ + (
        "projects/"@ + layout::encoded(project) + "/mem.db"@),
        layout::project_refusal(project) is None <==> !all_space(project),
        all_space(project) ==> layout::project_refusal(project) == Some(
            "project identifier cannot be empty"@,
        ),
{
    law_blank_texts_are_white_space(project);
}

/// A fresh database is made, one of the sixth version is brought to the seventh, and one of
/// the seventh is left alone; any other is refused.
pub proof fn law_only_known_versions_are_opened(version: int)
    requires
        version >= 0,
    ensures
        version == 0 ==> schema::migration_for(version) == Ok::<Migration, Seq<char>>(
            Migration::Create,
        ),
        version == 6 ==> schema::migration_for(version) == Ok::<Migration, Seq<char>>(
            Migration::Upgrade,
        ),
        version == 7 ==> schema::migration_for(version) == Ok::<Migration, Seq<char>>(
            Migration::Nothing,
        ),
        0 < version < 6 ==> schema::migration_for(version) == Err::<Migration, Seq<char>>(
            "database schema version "@ + text::decimal(version)
                + " is from an unsupported pre-1.0 build; upgrade it to v6 with the previous mem build first"@,
        ),
        version > 7 ==> schema::migration_for(version) == Err::<Migration, Seq<char>>(
            "database schema version "@ + text::decimal(version)
                + " is newer than supported version 7"@,
        ),
{
}

/// The database is ready once it logs ahead of its writes, or says that it will; it is asked
/// at most twenty times.
pub proof fn law_the_database_is_asked_to_log_ahead(mode: Seq<char>, asked: int, granted: bool)
    requires
        asked >= 0,
    ensures
        schema::wal_step(mode, asked, granted) == WalStep::Ready <==> mode == "wal"@ || (asked > 0
            && granted),
        schema::wal_step(mode, asked, granted) == WalStep::Ask <==> mode != "wal"@ && !(asked > 0
            && granted) && asked < 20,
{
}

/// A time is what the clock reads, in milliseconds, where the database can hold it.
pub proof fn law_times_are_what_the_clock_reads(reading: Result<u128, Seq<char>>)
    ensures
        clock::timestamp_outcome(reading) is Ok <==> reading is Ok && reading->Ok_0 <= i64::MAX,
        clock::timestamp_outcome(reading) matches Ok(now) ==> now == reading->Ok_0,
        reading matches Err(cause) ==> clock::timestamp_outcome(reading) == Err::<int, Seq<char>>(
            "system clock is before the Unix epoch: "@ + cause,
        ),
{
}

/// Without a store nothing can be resolved.
pub proof fn law_nothing_is_resolved_without_a_store(kind: Seq<char>, target: Seq<char>)
    ensures
        storage::unresolved(kind, target) == (if all_space(target) {
            kind + " ID cannot be empty"@
        } else {
            kind + " not found: "@ + text::trimmed(target)
        }),
{
    law_blank_texts_are_white_space(target);
}

/// Of the old vectors, exactly those of active memories that the current model made are kept,
/// each whole.
pub proof fn law_current_vectors_are_kept_whole(
    memories: Seq<MemoryRowView>,
    embeddings: Seq<LegacyEmbeddingView>,
    k: int,
    i: int,
)
    ensures
        ({
            let kept = model::joined(embeddings, legacy::current_vector(memories));
            &&& kept.len() <= embeddings.len()
            &&& 0 <= k < embeddings.len() && 0 <= i < memories.len() && embeddings[k].entity_type
                == "memory"@ && embeddings[k].model == EMBEDDING_MODEL_ID@
                && embeddings[k].entity_id == memories[i].id && memories[i].status == "active"@
                ==> kept.contains(
                VectorRowView {
                    entity_id: embeddings[k].entity_id,
                    dimensions: embeddings[k].dimensions,
                    vector: embeddings[k].vector,
                    source_generation: embeddings[k].source_generation,
                    updated_at: embeddings[k].updated_at,
                },
            )
            &&& forall|x: VectorRowView| #[trigger]
                kept.contains(x) ==> is_kept_from(x, memories, embeddings)
        }),
{
    let g = legacy::current_vector(memories);
    let p = model::gives(g);
    let from = embeddings.filter(p);
    let kept = model::joined(embeddings, g);
    model::lemma_filter_contains(embeddings, p);
    if 0 <= k < embeddings.len() && 0 <= i < memories.len() && embeddings[k].entity_type
        == "memory"@ && embeddings[k].model == EMBEDDING_MODEL_ID@ && embeddings[k].entity_id
        == memories[i].id && memories[i].status == "active"@ {
        assert(legacy::active_with(embeddings[k].entity_id)(memories[i]));
        assert(p(embeddings[k]));
        assert(from.contains(embeddings[k]));
        let at = choose|at: int| 0 <= at < from.len() && from[at] == embeddings[k];
        assert(kept[at] == g(embeddings[k])->0);
    }
    assert forall|x: VectorRowView| #[trigger] kept.contains(x) implies is_kept_from(
        x,
        memories,
        embeddings,
    ) by {
        let at = choose|at: int| 0 <= at < kept.len() && kept[at] == x;
        let e = from[at];
        assert(p(e) && embeddings.contains(e));
        let l = choose|l: int| 0 <= l < embeddings.len() && embeddings[l] == e;
        let m = choose|m: int|
            0 <= m < memories.len() && legacy::active_with(e.entity_id)(#[trigger] memories[m]);
        assert(is_vector_from(x, embeddings[l], memories[m]));
    }
}

/// Holds when a vector is that of an active memory, made by the current model.
pub open spec fn is_vector_from(
    x: VectorRowView,
    e: LegacyEmbeddingView,
    m: MemoryRowView,
) -> bool {
    &&& e.entity_type == "memory"@
    &&& e.model == EMBEDDING_MODEL_ID@
    &&& x.entity_id == e.entity_id
    &&& x.dimensions == e.dimensions
    &&& x.vector == e.vector
    &&& x.source_generation == e.source_generation
    &&& x.updated_at == e.updated_at
    &&& m.id == e.entity_id
    &&& m.status == "active"@
}

/// Holds when a vector is one of those of the memories.
pub open spec fn is_kept_from(
    x: VectorRowView,
    memories: Seq<MemoryRowView>,
    embeddings: Seq<LegacyEmbeddingView>,
) -> bool {
    exists|l: int, m: int|
        0 <= l < embeddings.len() && 0 <= m < memories.len() && is_vector_from(
            x,
            #[trigger] embeddings[l],
            #[trigger] memories[m],
        )
}

/// A share is written whole: every memory, as it is, with the scope that its project gives it,
/// every vector with the model that made it, and all else as it is; and the active memories
/// without a vector are queued.
pub proof fn law_shares_are_written_whole(share: ShareView, i: int, id: Seq<char>)
    ensures
        ({
            let t = staging::staged(share);
            &&& t.memories.len() == share.memories.len()
            &&& 0 <= i < share.memories.len() ==> t.memories[i].row == share.memories[i]
                && t.memories[i].scope == (if share.memories[i].project_id is Some {
                "project"@
            } else {
                "global"@
            })
            &&& t.vectors.len() == share.vectors.len()
            &&& 0 <= i < share.vectors.len() ==> t.vectors[i].row == share.vectors[i]
                && t.vectors[i].model == EMBEDDING_MODEL_ID@
            &&& t.sources == share.sources
            &&& t.relations == share.relations
            &&& t.episodes == share.episodes
            &&& t.entries == share.entries
            &&& t.states == share.states
            &&& t.jobs.contains(id) <==> exists|k: int|
                0 <= k < share.memories.len() && lacks_a_vector(
                    #[trigger] share.memories[k],
                    share.vectors,
                ) && share.memories[k].id == id
        }),
{
    let t = staging::staged(share);
    model::lemma_filter_all(share.memories, model::gives(staging::scoped()));
    model::lemma_filter_all(share.vectors, model::gives(staging::modelled()));
    staging::law_queue_holds_exactly_what_lacks_a_vector(share, id);
    let p = staging::lacks_vector(share.vectors, id);
    assert forall|k: int| 0 <= k < share.memories.len() implies p(#[trigger] share.memories[k]) == (
    lacks_a_vector(share.memories[k], share.vectors) && share.memories[k].id == id) by {
        let m = share.memories[k];
        let q = staging::vector_of(m.id);
        if model::any_row(share.vectors, q) {
            let l = choose|l: int| 0 <= l < share.vectors.len() && q(#[trigger] share.vectors[l]);
            assert(share.vectors[l].entity_id == m.id);
        } else {
            assert forall|l: int| 0 <= l < share.vectors.len() implies (
            #[trigger] share.vectors[l]).entity_id != m.id by {
                assert(!q(share.vectors[l]));
            }
        }
    }
    if t.jobs.contains(id) {
        let k = choose|k: int| 0 <= k < share.memories.len() && p(#[trigger] share.memories[k]);
        assert(lacks_a_vector(share.memories[k], share.vectors));
    }
    if exists|k: int|
        0 <= k < share.memories.len() && lacks_a_vector(
            #[trigger] share.memories[k],
            share.vectors,
        ) && share.memories[k].id == id {
        let k = choose|k: int|
            0 <= k < share.memories.len() && lacks_a_vector(
                #[trigger] share.memories[k],
                share.vectors,
            ) && share.memories[k].id == id;
        assert(p(share.memories[k]));
    }
}

/// Holds of an active memory without a vector.
pub open spec fn lacks_a_vector(m: MemoryRowView, vectors: Seq<VectorRowView>) -> bool {
    m.status == "active"@ && forall|l: int|
        0 <= l < vectors.len() ==> (#[trigger] vectors[l]).entity_id != m.id
}

/// A number of rows without its sign.
pub open spec fn size(n: i64) -> int {
    if n < 0 {
        -(n as int)
    } else {
        n as int
    }
}

/// A written share passes exactly when every table has as many rows as it should have, and no
/// reference is broken.
pub proof fn law_complete_shares_pass(share: ShareView, found: StagedCounts)
    ensures
        staging::staging_refusal(share, found) is None <==> {
            &&& size(found.memories) == share.memories.len()
            &&& size(found.sources) == share.sources.len()
            &&& size(found.relations) == share.relations.len()
            &&& size(found.episodes) == share.episodes.len()
            &&& size(found.entries) == share.entries.len()
            &&& size(found.states) == share.states.len()
            &&& size(found.vectors) == share.vectors.len()
            &&& found.violations <= 0
        },
        size(found.memories) != share.memories.len() ==> staging::staging_refusal(share, found)
            == Some(
            "store "@ + (if share.project_id is Some {
                share.project_id->0
            } else {
                "user store"@
            }) + ": expected "@ + text::decimal(share.memories.len() as int)
                + " memories, found "@ + text::decimal(size(found.memories)),
        ),
{
}

/// Holds when no two memories, and no two episodes, have one identifier, and no project has
/// the name that stands for none.
pub open spec fn is_sound(s: SnapshotView) -> bool {
    &&& forall|i: int, j: int|
        0 <= i < j < s.memories.len() ==> (#[trigger] s.memories[i]).id != (
        #[trigger] s.memories[j]).id
    &&& forall|i: int, j: int|
        0 <= i < j < s.episodes.len() ==> (#[trigger] s.episodes[i]).id != (
        #[trigger] s.episodes[j]).id
    &&& forall|i: int|
        0 <= i < s.memories.len() ==> (#[trigger] s.memories[i]).project_id != Some(
            "\0global"@,
        )
    &&& forall|i: int|
        0 <= i < s.episodes.len() ==> (#[trigger] s.episodes[i]).project_id != Some(
            "\0global"@,
        )
}

proof fn lemma_only<V>(s: Seq<V>, p: spec_fn(V) -> bool, i: int)
    requires
        0 <= i < s.len(),
        p(s[i]),
        forall|j: int| 0 <= j < s.len() && j != i ==> !p(#[trigger] s[j]),
    ensures
        model::last_row(s, p) == Some(s[i]),
{
    model::lemma_first_row_at(s, p, i);
    let none = |v: V| false;
    model::lemma_filter_without(s, p, none, i);
    model::lemma_first_row(s, none);
}

pub proof fn lemma_owner_of_memory(s: SnapshotView, i: int)
    requires
        is_sound(s),
        0 <= i < s.memories.len(),
    ensures
        storage_migration::memory_owner(s, s.memories[i].id) == Some(s.memories[i].project_id),
{
    let p = storage_migration::memory_with(s.memories[i].id);
    assert forall|j: int| 0 <= j < s.memories.len() && j != i implies !p(
        #[trigger] s.memories[j],
    ) by {
        assert(s.memories[j].id != s.memories[i].id);
    }
    lemma_only(s.memories, p, i);
}

proof fn lemma_owner_of_episode(s: SnapshotView, i: int)
    requires
        is_sound(s),
        0 <= i < s.episodes.len(),
    ensures
        storage_migration::episode_owner(s, s.episodes[i].id) == Some(s.episodes[i].project_id),
{
    let p = storage_migration::episode_with(s.episodes[i].id);
    assert forall|j: int| 0 <= j < s.episodes.len() && j != i implies !p(
        #[trigger] s.episodes[j],
    ) by {
        assert(s.episodes[j].id != s.episodes[i].id);
    }
    lemma_only(s.episodes, p, i);
}

/// A share holds exactly the memories, episodes and states of its project, each as it is.
pub proof fn law_shares_hold_the_rows_of_their_project(plan: PlanView, s: SnapshotView, k: int)
    requires
        storage_migration::is_plan(plan, s),
        is_sound(s),
        0 <= k < plan.shares.len(),
    ensures
        plan.shares[k].project_id != Some("\0global"@),
        forall|m: MemoryRowView| #[trigger]
            plan.shares[k].memories.contains(m) <==> s.memories.contains(m) && m.project_id
                == plan.shares[k].project_id,
        forall|e: EpisodeRowView| #[trigger]
            plan.shares[k].episodes.contains(e) <==> s.episodes.contains(e) && e.project_id
                == plan.shares[k].project_id,
        forall|x: StateRowView| #[trigger]
            plan.shares[k].states.contains(x) && plan.shares[k].project_id is Some
                ==> s.states.contains(x) && Some(x.project_id) == plan.shares[k].project_id,
        forall|x: StateRowView|
            s.states.contains(x) && Some(x.project_id) == plan.shares[k].project_id
                ==> #[trigger] plan.shares[k].states.contains(x),
{
    let share = plan.shares[k];
    let key = storage_migration::share_key(share.project_id);
    lemma_filter_membership(s.memories, storage_migration::memory_in(key));
    lemma_filter_membership(s.episodes, storage_migration::episode_in(key));
    lemma_filter_membership(s.states, storage_migration::state_in(key));
    assert forall|m: MemoryRowView| #[trigger] share.memories.contains(m) <==> s.memories.contains(
        m,
    ) && m.project_id == share.project_id by {
        if s.memories.contains(m) {
            let i = choose|i: int| 0 <= i < s.memories.len() && s.memories[i] == m;
            assert(s.memories[i].project_id != Some("\0global"@));
        }
    }
    assert forall|e: EpisodeRowView| #[trigger] share.episodes.contains(e) <==> s.episodes.contains(
        e,
    ) && e.project_id == share.project_id by {
        if s.episodes.contains(e) {
            let i = choose|i: int| 0 <= i < s.episodes.len() && s.episodes[i] == e;
            assert(s.episodes[i].project_id != Some("\0global"@));
        }
    }
}

/// What belongs to a memory goes where the memory goes: its sources, its relations to others,
/// and its vectors.
pub proof fn law_what_belongs_to_a_memory_goes_with_it(
    plan: PlanView,
    s: SnapshotView,
    k: int,
    i: int,
    x: SourceRowView,
    r: RelationRowView,
    v: VectorRowView,
)
    requires
        storage_migration::is_plan(plan, s),
        is_sound(s),
        0 <= k < plan.shares.len(),
        0 <= i < s.memories.len(),
    ensures
        x.memory_id == s.memories[i].id ==> (plan.shares[k].sources.contains(x)
            <==> s.sources.contains(x) && s.memories[i].project_id == plan.shares[k].project_id),
        r.from == s.memories[i].id ==> (plan.shares[k].relations.contains(r)
            <==> s.relations.contains(r) && s.memories[i].project_id == plan.shares[k].project_id),
        v.entity_id == s.memories[i].id ==> (plan.shares[k].vectors.contains(v)
            <==> s.vectors.contains(v) && s.memories[i].project_id == plan.shares[k].project_id),
{
    let share = plan.shares[k];
    let key = storage_migration::share_key(share.project_id);
    law_shares_hold_the_rows_of_their_project(plan, s, k);
    lemma_owner_of_memory(s, i);
    lemma_filter_membership(s.sources, storage_migration::source_in(s, key));
    lemma_filter_membership(s.relations, storage_migration::relation_in(s, key));
    lemma_filter_membership(s.vectors, storage_migration::vector_in(s, key));
    assert(s.memories[i].project_id != Some("\0global"@));
}

/// The entries of an episode go where the episode goes.
pub proof fn law_entries_go_with_their_episode(
    plan: PlanView,
    s: SnapshotView,
    k: int,
    i: int,
    x: EntryRowView,
)
    requires
        storage_migration::is_plan(plan, s),
        is_sound(s),
        0 <= k < plan.shares.len(),
        0 <= i < s.episodes.len(),
        x.episode_id == s.episodes[i].id,
    ensures
        plan.shares[k].entries.contains(x) <==> s.entries.contains(x) && s.episodes[i].project_id
            == plan.shares[k].project_id,
{
    let share = plan.shares[k];
    let key = storage_migration::share_key(share.project_id);
    law_shares_hold_the_rows_of_their_project(plan, s, k);
    lemma_owner_of_episode(s, i);
    lemma_filter_membership(s.entries, storage_migration::entry_in(s, key));
    assert(s.episodes[i].project_id != Some("\0global"@));
}

/// Every project with a memory, an episode or a state has a share, and what belongs to none
/// has one too.
pub proof fn law_every_project_has_a_share(plan: PlanView, s: SnapshotView, i: int)
    requires
        storage_migration::is_plan(plan, s),
        is_sound(s),
    ensures
        plan.total_states == s.states.len(),
        0 <= i < s.memories.len() ==> exists|k: int|
            0 <= k < plan.shares.len() && (#[trigger] plan.shares[k]).project_id
                == s.memories[i].project_id && plan.shares[k].memories.contains(s.memories[i]),
        0 <= i < s.episodes.len() ==> exists|k: int|
            0 <= k < plan.shares.len() && (#[trigger] plan.shares[k]).project_id
                == s.episodes[i].project_id && plan.shares[k].episodes.contains(s.episodes[i]),
        0 <= i < s.states.len() && s.states[i].project_id != "\0global"@
            ==> exists|k: int|
            0 <= k < plan.shares.len() && (#[trigger] plan.shares[k]).project_id == Some(
                s.states[i].project_id,
            ) && plan.shares[k].states.contains(s.states[i]),
{
    let keys = storage_migration::keys_of(plan.shares);
    if 0 <= i < s.memories.len() {
        let key = storage_migration::share_key(s.memories[i].project_id);
        assert(storage_migration::memory_in(key)(s.memories[i]));
        assert(keys.contains(key));
        let k = choose|k: int| 0 <= k < keys.len() && keys[k] == key;
        law_shares_hold_the_rows_of_their_project(plan, s, k);
        assert(s.memories[i].project_id != Some("\0global"@));
        assert(plan.shares[k].project_id == s.memories[i].project_id);
        assert(s.memories.contains(s.memories[i]));
        assert(plan.shares[k].memories.contains(s.memories[i]));
    }
    if 0 <= i < s.episodes.len() {
        let key = storage_migration::share_key(s.episodes[i].project_id);
        assert(storage_migration::episode_in(key)(s.episodes[i]));
        assert(keys.contains(key));
        let k = choose|k: int| 0 <= k < keys.len() && keys[k] == key;
        law_shares_hold_the_rows_of_their_project(plan, s, k);
        assert(s.episodes[i].project_id != Some("\0global"@));
        assert(plan.shares[k].project_id == s.episodes[i].project_id);
        assert(s.episodes.contains(s.episodes[i]));
        assert(plan.shares[k].episodes.contains(s.episodes[i]));
    }
    if 0 <= i < s.states.len() && s.states[i].project_id != "\0global"@ {
        let key = s.states[i].project_id;
        assert(storage_migration::state_in(key)(s.states[i]));
        assert(keys.contains(key));
        let k = choose|k: int| 0 <= k < keys.len() && keys[k] == key;
        law_shares_hold_the_rows_of_their_project(plan, s, k);
        assert(plan.shares[k].project_id == Some(key));
        assert(s.states.contains(s.states[i]));
        assert(plan.shares[k].states.contains(s.states[i]));
    }
}

/// Holds when a memory has an identifier.
pub open spec fn is_memory(s: SnapshotView, id: Seq<char>) -> bool {
    exists|i: int| 0 <= i < s.memories.len() && (#[trigger] s.memories[i]).id == id
}

/// Holds when an episode has an identifier.
pub open spec fn is_episode(s: SnapshotView, id: Seq<char>) -> bool {
    exists|i: int| 0 <= i < s.episodes.len() && (#[trigger] s.episodes[i]).id == id
}

/// Holds when two memories are of one project.
pub open spec fn are_of_one_project(s: SnapshotView, a: Seq<char>, b: Seq<char>) -> bool {
    exists|i: int, j: int|
        0 <= i < s.memories.len() && 0 <= j < s.memories.len() && (#[trigger] s.memories[i]).id == a
            && (#[trigger] s.memories[j]).id == b && s.memories[i].project_id
            == s.memories[j].project_id
}

pub proof fn lemma_memory_owner(s: SnapshotView, id: Seq<char>)
    ensures
        storage_migration::memory_owner(s, id) is Some <==> is_memory(s, id),
{
    let p = storage_migration::memory_with(id);
    model::lemma_first_row(s.memories, p);
    if is_memory(s, id) {
        let i = choose|i: int| 0 <= i < s.memories.len() && (#[trigger] s.memories[i]).id == id;
        assert(p(s.memories[i]));
    }
}

pub proof fn lemma_episode_owner(s: SnapshotView, id: Seq<char>)
    ensures
        storage_migration::episode_owner(s, id) is Some <==> is_episode(s, id),
{
    let p = storage_migration::episode_with(id);
    model::lemma_first_row(s.episodes, p);
    if is_episode(s, id) {
        let i = choose|i: int| 0 <= i < s.episodes.len() && (#[trigger] s.episodes[i]).id == id;
        assert(p(s.episodes[i]));
    }
}

proof fn lemma_relation(s: SnapshotView, x: RelationRowView)
    requires
        is_sound(s),
    ensures
        storage_migration::relation_refusal(s, x) is None <==> are_of_one_project(s, x.from, x.to),
{
    lemma_memory_owner(s, x.from);
    lemma_memory_owner(s, x.to);
    if is_memory(s, x.from) && is_memory(s, x.to) {
        let i = choose|i: int| 0 <= i < s.memories.len() && (#[trigger] s.memories[i]).id == x.from;
        let j = choose|j: int| 0 <= j < s.memories.len() && (#[trigger] s.memories[j]).id == x.to;
        lemma_owner_of_memory(s, i);
        lemma_owner_of_memory(s, j);
        if are_of_one_project(s, x.from, x.to) {
            let (a, b) = choose|a: int, b: int|
                0 <= a < s.memories.len() && 0 <= b < s.memories.len() && (
                #[trigger] s.memories[a]).id == x.from && (#[trigger] s.memories[b]).id == x.to
                    && s.memories[a].project_id == s.memories[b].project_id;
            lemma_owner_of_memory(s, a);
            lemma_owner_of_memory(s, b);
        }
    }
}

/// Holds of the name of a project: absent, or more than white space.
pub open spec fn is_project(project: Option<Seq<char>>) -> bool {
    project is Some ==> !all_space(project->0)
}

/// A snapshot is moved exactly when every project in it has a name, and everything in it that
/// belongs to a memory or an episode belongs to one that is there, relations within one
/// project.
pub proof fn law_sound_snapshots_are_moved(s: SnapshotView)
    requires
        is_sound(s),
        forall|i: int|
            0 <= i < s.states.len() ==> (#[trigger] s.states[i]).project_id
                != "\0global"@,
    ensures
        storage_migration::route_refusal(s) is None <==> {
            &&& forall|i: int|
                0 <= i < s.memories.len() ==> is_project((#[trigger] s.memories[i]).project_id)
            &&& forall|i: int|
                0 <= i < s.episodes.len() ==> is_project((#[trigger] s.episodes[i]).project_id)
            &&& forall|i: int|
                0 <= i < s.states.len() ==> !all_space((#[trigger] s.states[i]).project_id)
            &&& forall|i: int|
                0 <= i < s.sources.len() ==> is_memory(s, (#[trigger] s.sources[i]).memory_id)
            &&& forall|i: int|
                0 <= i < s.relations.len() ==> are_of_one_project(
                    s,
                    (#[trigger] s.relations[i]).from,
                    s.relations[i].to,
                )
            &&& forall|i: int|
                0 <= i < s.entries.len() ==> is_episode(s, (#[trigger] s.entries[i]).episode_id)
            &&& forall|i: int|
                0 <= i < s.vectors.len() ==> is_memory(s, (#[trigger] s.vectors[i]).entity_id)
        },
{
    let pm = storage_migration::stray_memory();
    let pe = storage_migration::stray_episode();
    let ps = storage_migration::stray_state();
    let px = storage_migration::stray_source(s);
    let pr = storage_migration::stray_relation(s);
    let pn = storage_migration::stray_entry(s);
    let pv = storage_migration::stray_vector(s);
    assert forall|i: int| 0 <= i < s.memories.len() implies pm(#[trigger] s.memories[i])
        == !is_project(s.memories[i].project_id) by {
        lemma_bad_key(s.memories[i].project_id);
    }
    assert forall|i: int| 0 <= i < s.episodes.len() implies pe(#[trigger] s.episodes[i])
        == !is_project(s.episodes[i].project_id) by {
        lemma_bad_key(s.episodes[i].project_id);
    }
    assert forall|i: int| 0 <= i < s.states.len() implies ps(#[trigger] s.states[i]) == all_space(
        s.states[i].project_id,
    ) by {
        law_blank_texts_are_white_space(s.states[i].project_id);
    }
    assert forall|i: int| 0 <= i < s.sources.len() implies px(#[trigger] s.sources[i])
        == !is_memory(s, s.sources[i].memory_id) by {
        lemma_memory_owner(s, s.sources[i].memory_id);
    }
    assert forall|i: int| 0 <= i < s.relations.len() implies pr(#[trigger] s.relations[i])
        == !are_of_one_project(s, s.relations[i].from, s.relations[i].to) by {
        lemma_relation(s, s.relations[i]);
    }
    assert forall|i: int| 0 <= i < s.entries.len() implies pn(#[trigger] s.entries[i])
        == !is_episode(s, s.entries[i].episode_id) by {
        lemma_episode_owner(s, s.entries[i].episode_id);
    }
    assert forall|i: int| 0 <= i < s.vectors.len() implies pv(#[trigger] s.vectors[i])
        == !is_memory(s, s.vectors[i].entity_id) by {
        lemma_memory_owner(s, s.vectors[i].entity_id);
    }
    model::lemma_first_row(s.memories, pm);
    model::lemma_first_row(s.episodes, pe);
    model::lemma_first_row(s.states, ps);
    model::lemma_first_row(s.sources, px);
    model::lemma_first_row(s.relations, pr);
    model::lemma_first_row(s.entries, pn);
    model::lemma_first_row(s.vectors, pv);
    if storage_migration::route_refusal(s) is None {
        assert(!model::any_row(s.memories, pm));
        assert(!model::any_row(s.episodes, pe));
        assert(!model::any_row(s.states, ps));
        assert(!model::any_row(s.sources, px));
        assert(!model::any_row(s.relations, pr));
        assert(!model::any_row(s.entries, pn));
        assert(!model::any_row(s.vectors, pv));
    }
}

proof fn lemma_bad_key(project: Option<Seq<char>>)
    requires
        project != Some("\0global"@),
    ensures
        storage_migration::bad_key(storage_migration::share_key(project)) == !is_project(project),
{
    if project is Some {
        law_blank_texts_are_white_space(project->0);
    }
}

/// The stores of a layout are that of the user and one for each project that has a share, in
/// the order of the shares.
pub proof fn law_each_share_has_its_store(dir: Seq<char>, shares: Seq<ShareView>, share: ShareView)
    ensures
        storage_migration::store_paths(dir, Seq::empty()) == seq![dir + "/"@ + "user.db"@],
        share.project_id is None ==> storage_migration::store_paths(dir, shares.push(share))
            == storage_migration::store_paths(dir, shares),
        share.project_id is Some ==> storage_migration::store_paths(dir, shares.push(share))
            == storage_migration::store_paths(dir, shares).push(
            dir + "/"@ + ("projects/"@ + layout::encoded(share.project_id->0) + "/mem.db"@),
        ),
{
    assert(shares.push(share).drop_last() =~= shares);
}

/// Each share is staged at the path that its store will have, and there is always a store of
/// the user.
pub proof fn law_each_share_is_staged_at_its_path(dir: Seq<char>, shares: Seq<ShareView>, i: int)
    ensures
        ({
            let paths = staging::staged_paths(dir, shares);
            &&& 0 <= i < shares.len() ==> paths.len() > i && paths[i] == dir + "/"@ + (
            if shares[i].project_id is Some {
                "projects/"@ + layout::encoded(shares[i].project_id->0) + "/mem.db"@
            } else {
                "user.db"@
            })
            &&& paths.contains(dir + "/"@ + "user.db"@)
            &&& shares.len() <= paths.len() <= shares.len() + 1
        }),
{
    let p = staging::of_user();
    let paths = staging::staged_paths(dir, shares);
    if model::any_row(shares, p) {
        let k = choose|k: int| 0 <= k < shares.len() && p(#[trigger] shares[k]);
        assert(paths[k] == dir + "/"@ + "user.db"@);
    } else {
        assert(paths[shares.len() as int] == dir + "/"@ + "user.db"@);
    }
}

/// What a migration does first: it checks a layout that is there, does nothing without an old
/// database, and else builds a layout.
pub proof fn law_a_layout_is_built_once(layout_is_there: bool, legacy_is_there: bool)
    ensures
        layout_is_there ==> storage_migration::step_for(layout_is_there, legacy_is_there)
            == MigrationStep::CheckActive,
        !layout_is_there && !legacy_is_there ==> storage_migration::step_for(
            layout_is_there,
            legacy_is_there,
        ) == MigrationStep::Nothing,
        !layout_is_there && legacy_is_there ==> storage_migration::step_for(
            layout_is_there,
            legacy_is_there,
        ) == MigrationStep::Build,
{
}

/// Memories and episodes are counted share by share.
pub proof fn law_rows_are_counted_share_by_share(shares: Seq<ShareView>, share: ShareView)
    ensures
        storage_migration::memories_in(Seq::empty()) == 0,
        storage_migration::episodes_in(Seq::empty()) == 0,
        storage_migration::memories_in(shares.push(share)) == storage_migration::memories_in(shares)
            + share.memories.len(),
        storage_migration::episodes_in(shares.push(share)) == storage_migration::episodes_in(shares)
            + share.episodes.len(),
{
    assert(shares.push(share).drop_last() =~= shares);
}

/// A layout that was built reports what it moved, and takes effect only where every share
/// passed; one that was there already, or could not be made, moves nothing.
pub proof fn law_a_migration_reports_what_it_moved(
    root: Seq<char>,
    finding: MigrationFinding,
    r: Result<MigrationReport, Error>,
)
    requires
        storage_migration::reports(root, finding, r),
    ensures
        finding is Unrouted ==> r is Err && r->Err_0@ == finding->Unrouted_0@,
        finding matches MigrationFinding::Active(Err(cause)) ==> r is Err && r->Err_0@ == "layout "@
            + (root + "/"@ + "layout-v1"@)
            + " exists but failed validation; refusing to migrate over it: "@ + cause@,
        r matches Ok(report) ==> {
            &&& report.legacy_db@ == root + "/"@ + "memory.db"@
            &&& report.layout_dir@ == root + "/"@ + "layout-v1"@
            &&& finding is NoLegacy <==> report.state == MigrationState::NoLegacyStore
            &&& finding is Active <==> report.state == MigrationState::AlreadyActive
            &&& finding matches MigrationFinding::Built(plan, found) ==> {
                &&& report.state == MigrationState::Migrated
                &&& report.memories == storage_migration::memories_in(plan@.shares)
                &&& report.episodes == storage_migration::episodes_in(plan@.shares)
                &&& report.workspaces == plan@.total_states
                &&& model::views(report.stores@) == storage_migration::store_paths(
                    root + "/"@ + "layout-v1"@,
                    plan@.shares,
                )
                &&& forall|i: int|
                    0 <= i < plan@.shares.len() ==> staging::staging_refusal(
                        #[trigger] plan@.shares[i],
                        found@[i],
                    ) is None
            }
            &&& !(finding is Built) ==> report.memories == 0 && report.episodes == 0
                && report.workspaces == 0 && report.stores@.len() == 0
        },
{
    if let MigrationFinding::Built(plan, found) = finding {
        staging::law_every_staged_store_is_checked(plan@.shares, found@);
    }
}

/// Purging removes the store of the project where there is one, with the files that go with
/// it; it refuses what lies outside the projects and what is no regular file.
pub proof fn law_only_the_store_of_the_project_is_purged(
    root: Seq<char>,
    project: Seq<char>,
    facts: PurgeFacts,
    r: Result<PurgeReport, Error>,
)
    requires
        storage_migration::purges(root, project, facts, r),
    ensures
        r is Ok <==> !all_space(project) && (facts.is_file ==> facts.is_regular && model::views(
            facts.projects@,
        ).is_prefix_of(model::views(facts.resolved@))),
        all_space(project) ==> r is Err && r->Err_0@ == "project identifier cannot be empty"@,
        !all_space(project) && r is Err ==> Some(r->Err_0@) == storage_migration::purge_refusal(
            storage_migration::store_at(root, Some(project)),
            facts,
        ),
        r matches Ok(report) ==> {
            let path = root + "/"@ + "layout-v1"@ + "/"@ + ("projects/"@ + layout::encoded(project)
                + "/mem.db"@);
            &&& report.project_id@ == project
            &&& report.path@ == path
            &&& report.removed == facts.is_file
            &&& storage_migration::files_of(report.path@) == seq![
                path,
                path + "-wal"@,
                path + "-shm"@,
            ]
        },
{
    law_stores_have_their_paths(root, project);
}

/// The clock gives a time where it reads one that the database can hold, and is refused only
/// where it cannot be read or reads one that is too late.
pub proof fn law_the_clock_is_refused_for_a_reason(now: int, message: Seq<char>)
    ensures
        clock::clock_time(now) ==> exists|reading: Result<u128, Seq<char>>| #[trigger]
            clock::clock_gives(reading) && reading is Ok && reading->Ok_0 == now && now
                <= i64::MAX,
        clock::clock_refusal(message) ==> exists|reading: Result<u128, Seq<char>>| #[trigger]
            clock::clock_gives(reading) && (if reading is Ok {
                reading->Ok_0 > i64::MAX && message
                    == "out of range integral type conversion attempted"@
            } else {
                message == "system clock is before the Unix epoch: "@ + reading->Err_0
            }),
{
    if clock::clock_time(now) {
        let reading = choose|reading: Result<u128, Seq<char>>| #[trigger]
            clock::clock_gives(reading) && clock::timestamp_outcome(reading) == Ok::<
                int,
                Seq<char>,
            >(now);
        law_times_are_what_the_clock_reads(reading);
        assert(clock::clock_gives(reading) && reading->Ok_0 == now);
    }
    if clock::clock_refusal(message) {
        let reading = choose|reading: Result<u128, Seq<char>>| #[trigger]
            clock::clock_gives(reading) && clock::timestamp_outcome(reading)
                == Err::<int, Seq<char>>(message);
        law_times_are_what_the_clock_reads(reading);
        assert(clock::clock_gives(reading));
    }
}

/// A drawn identifier has thirty-six characters: hexadecimal digits in groups of eight, four,
/// four, four and twelve, with hyphens between.
pub proof fn law_identifiers_have_their_form(id: Seq<char>)
    requires
        clock::drawn(id),
    ensures
        clock::hyphenated(id),
        id.len() == 36,
        id[8] == '-' && id[13] == '-' && id[18] == '-' && id[23] == '-',
        forall|i: int|
            0 <= i < 36 && i != 8 && i != 13 && i != 18 && i != 23 ==> 0 <= hex_value(
                #[trigger] id[i],
            ) < 16,
{
    clock::law_drawn_identifiers_are_hyphenated(id);
    assert(id[8] == '-' && id[13] == '-' && id[18] == '-' && id[23] == '-');
    assert forall|i: int| 0 <= i < 36 && i != 8 && i != 13 && i != 18 && i != 23 implies 0
        <= hex_value(#[trigger] id[i]) < 16 by {
        assert(clock::hex_digit(id[i]));
        lemma_hex_digit(id[i]);
    }
}

proof fn lemma_hex_digit(c: char)
    requires
        clock::hex_digit(c),
    ensures
        0 <= hex_value(c) < 16,
{
}

/// Shares are in the order of their projects, one for each, and one for no project.
pub proof fn law_shares_are_in_order(plan: PlanView, s: SnapshotView, i: int, j: int)
    requires
        storage_migration::is_plan(plan, s),
        0 <= i < j < plan.shares.len(),
    ensures
        plan.shares[i].project_id != plan.shares[j].project_id,
        plan.shares[i].project_id is Some && plan.shares[j].project_id is Some ==> order::text_le(
            plan.shares[i].project_id->0,
            plan.shares[j].project_id->0,
        ),
{
    let keys = storage_migration::keys_of(plan.shares);
    assert(order::text_le(keys[i], keys[j]) && keys[i] != keys[j]);
}

} // verus!
