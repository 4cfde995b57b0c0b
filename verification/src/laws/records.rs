//! What the records show of themselves.
//!
//! Contracts speak of a record through its model; these say that the model holds every field
//! of the record, as it is.

use crate::args::{
    StateShow, StateSet, StateClear, ContextCommand, Remember, Correct, Search, Get, Forget,
    IndexCommand, Export, Setting, Words,
};
use crate::embedding::{Embedding, EmbeddingSource};
use crate::episode::{NewEpisode, NewEpisodeEntry, Episode, EpisodeEntry, HistoryHit};
use crate::index_job::{IndexJob, ClaimedIndexJob};
use crate::legacy::{
    MemoryRow, SourceRow, RelationRow, EpisodeRow, EntryRow, StateRow, VectorRow,
    LegacyEmbedding, LegacySnapshot,
};
use crate::memory::{NewMemory, NewCorrection, Memory, CorrectionResult};
use crate::project::ProjectContext;
use crate::search::{Match, SearchHit};
use crate::staging::{StagedMemory, StagedVector, StagedStore};
use crate::state::{WorkspaceStateUpdate, WorkspaceState};
use crate::storage_migration::{Share, CopyPlan};
use crate::store::Store;
use crate::vector_search::{SemanticSearchHit, VectorCandidate};
use crate::cli;
use crate::clock;
use crate::error;
use crate::error::Error;
use crate::recall;
use crate::run;
use crate::vector_search;
use crate::workspace;
use crate::model;
use vstd::prelude::*;

verus! {

/// Holds when a text is absent in both, or the same in both.
pub open spec fn is_text(seen: Option<Seq<char>>, text: Option<String>) -> bool {
    &&& seen is Some <==> text is Some
    &&& seen is Some ==> seen->0 == text->0@
}

/// Holds when a number is absent in both, or the same in both.
pub open spec fn is_number(seen: Option<int>, number: Option<i64>) -> bool {
    &&& seen is Some <==> number is Some
    &&& seen is Some ==> seen->0 == number->0
}

/// Holds when a size is absent in both, or the same in both.
pub open spec fn is_size(seen: Option<int>, size: Option<usize>) -> bool {
    &&& seen is Some <==> size is Some
    &&& seen is Some ==> seen->0 == size->0
}

/// Holds when there are as many rows in both, and each is seen at its place.
pub open spec fn are_rows<T: View>(seen: Seq<T::V>, rows: Seq<T>) -> bool {
    &&& seen.len() == rows.len()
    &&& forall|i: int| 0 <= i < rows.len() ==> #[trigger] seen[i] == rows[i]@
}

/// An optional row is seen where there is one, as it is.
pub proof fn law_optional_rows_are_seen_whole<T: View>(row: Option<T>)
    ensures
        model::row_of(row) is Some <==> row is Some,
        row is Some ==> model::row_of(row)->0 == row->0@,
{
}

/// A list of rows is seen row by row.
pub proof fn law_lists_of_rows_are_seen_whole<T: View>(rows: Seq<T>)
    ensures
        are_rows(model::views(rows), rows),
{
}

/// An optional text is seen as it is.
pub proof fn law_optional_texts_are_seen_whole(text: Option<String>)
    ensures
        is_text(model::text_of(text), text),
{
}

/// An error is seen by its message, whole.
pub proof fn law_error_is_seen_whole(x: Error)
    ensures
        x@ == x.message@,
{
}

/// Every field of a new memory counts, whole.
pub proof fn law_new_memory_is_seen_whole(x: NewMemory)
    ensures
        x@.text == x.text@,
        x@.kind == x.kind@,
        x@.actor == x.actor@,
        x@.source_type == x.source_type@,
        is_text(x@.source_ref, x.source_ref),
{
}

/// Every field of a new correction counts, whole.
pub proof fn law_new_correction_is_seen_whole(x: NewCorrection)
    ensures
        x@.text == x.text@,
        is_text(x@.kind, x.kind),
        x@.actor == x.actor@,
        x@.source_type == x.source_type@,
        is_text(x@.source_ref, x.source_ref),
{
}

/// Every field of a memory counts, whole.
pub proof fn law_memory_is_seen_whole(x: Memory)
    ensures
        x@.id == x.id@,
        x@.kind == x.kind@,
        x@.text == x.text@,
        x@.actor == x.actor@,
        x@.source_type == x.source_type@,
        is_text(x@.source_ref, x.source_ref),
        x@.status == x.status@,
        is_text(x@.superseded_by, x.superseded_by),
        x@.created_at == x.created_at,
        x@.updated_at == x.updated_at,
        is_number(x@.deleted_at, x.deleted_at),
{
}

/// Every field of a correction result counts, whole.
pub proof fn law_correction_result_is_seen_whole(x: CorrectionResult)
    ensures
        x@.previous == x.previous@,
        x@.replacement == x.replacement@,
{
}

/// Every field of a workspace state update counts, whole.
pub proof fn law_workspace_state_update_is_seen_whole(x: WorkspaceStateUpdate)
    ensures
        x@.workspace == x.workspace@,
        is_text(x@.session, x.session),
        is_text(x@.goal, x.goal),
        is_text(x@.task, x.task),
        is_text(x@.checkpoint, x.checkpoint),
        are_rows(x@.clear_fields, x.clear_fields@),
{
}

/// Every field of a workspace state counts, whole.
pub proof fn law_workspace_state_is_seen_whole(x: WorkspaceState)
    ensures
        x@.workspace == x.workspace@,
        is_text(x@.session, x.session),
        is_text(x@.goal, x.goal),
        is_text(x@.task, x.task),
        is_text(x@.checkpoint, x.checkpoint),
        x@.updated_at == x.updated_at,
{
}

/// Every field of an embedding counts, whole.
pub proof fn law_embedding_is_seen_whole(x: Embedding)
    ensures
        x@.memory_id == x.memory_id@,
        x@.model == x.model@,
        x@.dimensions == x.dimensions,
        x@.vector == x.vector@,
        x@.source_updated_at == x.source_updated_at,
        x@.updated_at == x.updated_at,
{
}

/// Every field of an embedding source counts, whole.
pub proof fn law_embedding_source_is_seen_whole(x: EmbeddingSource)
    ensures
        x@.id == x.id@,
        x@.text == x.text@,
        x@.updated_at == x.updated_at,
{
}

/// Every field of a new episode counts, whole.
pub proof fn law_new_episode_is_seen_whole(x: NewEpisode)
    ensures
        is_text(x@.project_id, x.project_id),
        is_text(x@.workspace_id, x.workspace_id),
        x@.source_type == x.source_type@,
        x@.source_ref == x.source_ref@,
        is_number(x@.started_at, x.started_at),
        is_text(x@.metadata_json, x.metadata_json),
{
}

/// Every field of a new episode entry counts, whole.
pub proof fn law_new_episode_entry_is_seen_whole(x: NewEpisodeEntry)
    ensures
        x@.source_ref == x.source_ref@,
        is_number(x@.ordinal, x.ordinal),
        x@.kind == x.kind@,
        is_text(x@.role, x.role),
        x@.text == x.text@,
        is_number(x@.occurred_at, x.occurred_at),
        is_text(x@.metadata_json, x.metadata_json),
{
}

/// Every field of an episode counts, whole.
pub proof fn law_episode_is_seen_whole(x: Episode)
    ensures
        x@.id == x.id@,
        is_text(x@.project_id, x.project_id),
        is_text(x@.workspace_id, x.workspace_id),
        x@.source_type == x.source_type@,
        x@.source_ref == x.source_ref@,
        is_number(x@.started_at, x.started_at),
        is_number(x@.ended_at, x.ended_at),
        is_text(x@.summary, x.summary),
        is_text(x@.metadata_json, x.metadata_json),
{
}

/// Every field of an episode entry counts, whole.
pub proof fn law_episode_entry_is_seen_whole(x: EpisodeEntry)
    ensures
        x@.id == x.id@,
        x@.episode_id == x.episode_id@,
        x@.source_ref == x.source_ref@,
        x@.ordinal == x.ordinal,
        x@.kind == x.kind@,
        is_text(x@.role, x.role),
        x@.text == x.text@,
        is_number(x@.occurred_at, x.occurred_at),
        is_text(x@.metadata_json, x.metadata_json),
{
}

/// Every field of a history hit counts, whole.
pub proof fn law_history_hit_is_seen_whole(x: HistoryHit)
    ensures
        x@.episode_id == x.episode_id@,
        is_text(x@.project_id, x.project_id),
        is_text(x@.workspace_id, x.workspace_id),
        x@.source_type == x.source_type@,
        x@.episode_source_ref == x.episode_source_ref@,
        x@.entry_id == x.entry_id@,
        x@.entry_source_ref == x.entry_source_ref@,
        x@.ordinal == x.ordinal,
        x@.kind == x.kind@,
        is_text(x@.role, x.role),
        x@.text == x.text@,
        is_number(x@.occurred_at, x.occurred_at),
        x@.rank == x.rank,
{
}

/// Every field of an index job counts, whole.
pub proof fn law_index_job_is_seen_whole(x: IndexJob)
    ensures
        x@.id == x.id@,
        x@.entity_type == x.entity_type@,
        x@.entity_id == x.entity_id@,
        x@.index_kind == x.index_kind@,
        x@.generation == x.generation,
        x@.state == x.state@,
        x@.attempts == x.attempts,
        x@.available_at == x.available_at,
        is_text(x@.lease_owner, x.lease_owner),
        is_text(x@.lease_token, x.lease_token),
        is_number(x@.lease_until, x.lease_until),
        is_text(x@.last_error, x.last_error),
        x@.updated_at == x.updated_at,
{
}

/// Every field of a claimed index job counts, whole.
pub proof fn law_claimed_index_job_is_seen_whole(x: ClaimedIndexJob)
    ensures
        x@.id == x.id@,
        x@.entity_type == x.entity_type@,
        x@.entity_id == x.entity_id@,
        x@.index_kind == x.index_kind@,
        x@.generation == x.generation,
        x@.attempts == x.attempts,
        x@.lease_owner == x.lease_owner@,
        x@.lease_token == x.lease_token@,
        x@.lease_until == x.lease_until,
{
}

/// Every field of a match counts, whole.
pub proof fn law_match_is_seen_whole(x: Match)
    ensures
        x@.id == x.id@,
        x@.rank == x.rank,
{
}

/// Every field of a search hit counts, whole.
pub proof fn law_search_hit_is_seen_whole(x: SearchHit)
    ensures
        x@.memory == x.memory@,
        x@.rank == x.rank,
{
}

/// Every field of a semantic search hit counts, whole.
pub proof fn law_semantic_search_hit_is_seen_whole(x: SemanticSearchHit)
    ensures
        x@.memory == x.memory@,
        x@.score == x.score,
{
}

/// Every field of a vector candidate counts, whole.
pub proof fn law_vector_candidate_is_seen_whole(x: VectorCandidate)
    ensures
        x@.memory == x.memory@,
        x@.dimensions == x.dimensions,
        x@.vector == x.vector@,
{
}

/// Every field of a project context counts, whole.
pub proof fn law_project_context_is_seen_whole(x: ProjectContext)
    ensures
        x@.workspace_id == x.workspace_id@,
        is_text(x@.root, x.root),
{
}

/// Every field of a store counts, whole.
pub proof fn law_store_is_seen_whole(x: Store)
    ensures
        x@.schema_version == x.schema_version,
        are_rows(x@.memories, x.memories@),
        are_rows(x@.states, x.states@),
        are_rows(x@.embeddings, x.embeddings@),
        are_rows(x@.episodes, x.episodes@),
        are_rows(x@.entries, x.entries@),
        are_rows(x@.jobs, x.jobs@),
{
}

/// Every field of a state show counts, whole.
pub proof fn law_state_show_is_seen_whole(x: StateShow)
    ensures
        is_text(x@.workspace, x.workspace),
{
}

/// Every field of a state set counts, whole.
pub proof fn law_state_set_is_seen_whole(x: StateSet)
    ensures
        is_text(x@.workspace, x.workspace),
        is_text(x@.session, x.session),
        is_text(x@.goal, x.goal),
        is_text(x@.task, x.task),
        is_text(x@.checkpoint, x.checkpoint),
        are_rows(x@.clear, x.clear@),
{
}

/// Every field of a state clear counts, whole.
pub proof fn law_state_clear_is_seen_whole(x: StateClear)
    ensures
        is_text(x@.workspace, x.workspace),
{
}

/// Every field of a context command counts, whole.
pub proof fn law_context_command_is_seen_whole(x: ContextCommand)
    ensures
        x@.query == x.query@,
        is_text(x@.workspace, x.workspace),
        is_size(x@.limit, x.limit),
        is_size(x@.max_bytes, x.max_bytes),
{
}

/// Every field of a remember counts, whole.
pub proof fn law_remember_is_seen_whole(x: Remember)
    ensures
        x@.text == x.text@,
        is_text(x@.kind, x.kind),
        is_text(x@.actor, x.actor),
        is_text(x@.source_type, x.source_type),
        is_text(x@.source_ref, x.source_ref),
{
}

/// Every field of a correct counts, whole.
pub proof fn law_correct_is_seen_whole(x: Correct)
    ensures
        x@.id == x.id@,
        x@.text == x.text@,
        is_text(x@.kind, x.kind),
        is_text(x@.actor, x.actor),
        is_text(x@.source_type, x.source_type),
        is_text(x@.source_ref, x.source_ref),
{
}

/// Every field of a search counts, whole.
pub proof fn law_search_is_seen_whole(x: Search)
    ensures
        x@.query == x.query@,
        x@.semantic == x.semantic,
        is_size(x@.limit, x.limit),
{
}

/// Every field of a get counts, whole.
pub proof fn law_get_is_seen_whole(x: Get)
    ensures
        x@.id == x.id@,
{
}

/// Every field of a forget counts, whole.
pub proof fn law_forget_is_seen_whole(x: Forget)
    ensures
        x@.id == x.id@,
{
}

/// Every field of an index command counts, whole.
pub proof fn law_index_command_is_seen_whole(x: IndexCommand)
    ensures
        is_size(x@.limit, x.limit),
        x@.cached_only == x.cached_only,
{
}

/// Every field of an export counts, whole.
pub proof fn law_export_is_seen_whole(x: Export)
    ensures
        x@.include_superseded == x.include_superseded,
{
}

/// Every field of a setting counts, whole.
pub proof fn law_setting_is_seen_whole(x: Setting)
    ensures
        x@.name == x.name@,
        x@.value == x.value@,
{
}

/// Every field of a words counts, whole.
pub proof fn law_words_is_seen_whole(x: Words)
    ensures
        are_rows(x@.flags, x.flags@),
        are_rows(x@.settings, x.settings@),
        are_rows(x@.args, x.args@),
{
}

/// Every field of a memory row counts, whole.
pub proof fn law_memory_row_is_seen_whole(x: MemoryRow)
    ensures
        x@.id == x.id@,
        is_text(x@.project_id, x.project_id),
        x@.kind == x.kind@,
        x@.text == x.text@,
        x@.actor == x.actor@,
        x@.status == x.status@,
        x@.created_at == x.created_at,
        x@.updated_at == x.updated_at,
        is_number(x@.deleted_at, x.deleted_at),
{
}

/// Every field of a source row counts, whole.
pub proof fn law_source_row_is_seen_whole(x: SourceRow)
    ensures
        x@.id == x.id@,
        x@.memory_id == x.memory_id@,
        x@.source_type == x.source_type@,
        is_text(x@.locator, x.locator),
        is_text(x@.excerpt, x.excerpt),
        x@.created_at == x.created_at,
{
}

/// Every field of a relation row counts, whole.
pub proof fn law_relation_row_is_seen_whole(x: RelationRow)
    ensures
        x@.from == x.from@,
        x@.to == x.to@,
        x@.relation_type == x.relation_type@,
        x@.created_at == x.created_at,
{
}

/// Every field of an episode row counts, whole.
pub proof fn law_episode_row_is_seen_whole(x: EpisodeRow)
    ensures
        x@.id == x.id@,
        is_text(x@.project_id, x.project_id),
        x@.source_type == x.source_type@,
        x@.source_ref == x.source_ref@,
        is_number(x@.started_at, x.started_at),
        is_number(x@.ended_at, x.ended_at),
        is_text(x@.summary, x.summary),
        is_text(x@.metadata_json, x.metadata_json),
        is_text(x@.workspace_id, x.workspace_id),
{
}

/// Every field of an entry row counts, whole.
pub proof fn law_entry_row_is_seen_whole(x: EntryRow)
    ensures
        x@.id == x.id@,
        x@.episode_id == x.episode_id@,
        x@.source_ref == x.source_ref@,
        x@.ordinal == x.ordinal,
        x@.kind == x.kind@,
        is_text(x@.role, x.role),
        x@.text == x.text@,
        is_number(x@.occurred_at, x.occurred_at),
        is_text(x@.metadata_json, x.metadata_json),
{
}

/// Every field of a state row counts, whole.
pub proof fn law_state_row_is_seen_whole(x: StateRow)
    ensures
        x@.project_id == x.project_id@,
        x@.workspace_id == x.workspace_id@,
        is_text(x@.last_session_id, x.last_session_id),
        is_text(x@.active_goal, x.active_goal),
        is_text(x@.active_task_ref, x.active_task_ref),
        is_text(x@.checkpoint, x.checkpoint),
        x@.updated_at == x.updated_at,
{
}

/// Every field of a vector row counts, whole.
pub proof fn law_vector_row_is_seen_whole(x: VectorRow)
    ensures
        x@.entity_id == x.entity_id@,
        x@.dimensions == x.dimensions,
        x@.vector == x.vector@,
        x@.source_generation == x.source_generation,
        x@.updated_at == x.updated_at,
{
}

/// Every field of a legacy embedding counts, whole.
pub proof fn law_legacy_embedding_is_seen_whole(x: LegacyEmbedding)
    ensures
        x@.entity_type == x.entity_type@,
        x@.entity_id == x.entity_id@,
        x@.model == x.model@,
        x@.dimensions == x.dimensions,
        x@.vector == x.vector@,
        x@.source_generation == x.source_generation,
        x@.updated_at == x.updated_at,
{
}

/// Every field of a legacy snapshot counts, whole.
pub proof fn law_legacy_snapshot_is_seen_whole(x: LegacySnapshot)
    ensures
        are_rows(x@.memories, x.memories@),
        are_rows(x@.sources, x.sources@),
        are_rows(x@.relations, x.relations@),
        are_rows(x@.episodes, x.episodes@),
        are_rows(x@.entries, x.entries@),
        are_rows(x@.states, x.states@),
        are_rows(x@.vectors, x.vectors@),
{
}

/// Every field of a share counts, whole.
pub proof fn law_share_is_seen_whole(x: Share)
    ensures
        is_text(x@.project_id, x.project_id),
        are_rows(x@.memories, x.memories@),
        are_rows(x@.sources, x.sources@),
        are_rows(x@.relations, x.relations@),
        are_rows(x@.episodes, x.episodes@),
        are_rows(x@.entries, x.entries@),
        are_rows(x@.states, x.states@),
        are_rows(x@.vectors, x.vectors@),
{
}

/// Every field of a copy plan counts, whole.
pub proof fn law_copy_plan_is_seen_whole(x: CopyPlan)
    ensures
        are_rows(x@.shares, x.shares@),
        x@.total_states == x.total_states,
{
}

/// Every field of a staged memory counts, whole.
pub proof fn law_staged_memory_is_seen_whole(x: StagedMemory)
    ensures
        x@.scope == x.scope@,
        x@.row == x.row@,
{
}

/// Every field of a staged vector counts, whole.
pub proof fn law_staged_vector_is_seen_whole(x: StagedVector)
    ensures
        x@.model == x.model@,
        x@.row == x.row@,
{
}

/// Every field of a staged store counts, whole.
pub proof fn law_staged_store_is_seen_whole(x: StagedStore)
    ensures
        are_rows(x@.memories, x.memories@),
        are_rows(x@.sources, x.sources@),
        are_rows(x@.relations, x.relations@),
        are_rows(x@.episodes, x.episodes@),
        are_rows(x@.entries, x.entries@),
        are_rows(x@.states, x.states@),
        are_rows(x@.vectors, x.vectors@),
        are_rows(x@.jobs, x.jobs@),
{
}

/// A result is seen as the record or the message that it holds.
pub proof fn law_results_are_seen_whole<T: View>(r: Result<T, Error>, done: Result<(), Error>)
    ensures
        error::outcome(r) is Ok <==> r is Ok,
        r is Ok ==> error::outcome(r)->Ok_0 == r->Ok_0@,
        r is Err ==> error::outcome(r)->Err_0 == r->Err_0.message@,
        error::refusal(done) is None <==> done is Ok,
        done is Err ==> error::refusal(done)->0 == done->Err_0.message@,
{
}

/// The first of two reasons to refuse something counts.
pub proof fn law_the_first_reason_counts(a: Option<Seq<char>>, b: Option<Seq<char>>)
    ensures
        error::either(a, b) is None <==> a is None && b is None,
        a is Some ==> error::either(a, b) == a,
        a is None ==> error::either(a, b) == b,
{
}

/// Numbers, optional stores and what becomes of a query are seen as they are.
pub proof fn law_other_results_are_seen_whole(
    n: Result<i64, Error>,
    store: Option<Store>,
    borrowed: Option<&Store>,
    query: Result<usize, Error>,
    name: Option<&str>,
    reading: Result<u128, String>,
)
    ensures
        clock::number_outcome(n) is Ok <==> n is Ok,
        n is Ok ==> clock::number_outcome(n)->Ok_0 == n->Ok_0,
        n is Err ==> clock::number_outcome(n)->Err_0 == n->Err_0.message@,
        run::view_of(store) is Some <==> store is Some,
        store is Some ==> run::view_of(store)->0 == store->0@,
        cli::store_of(borrowed) is Some <==> borrowed is Some,
        borrowed is Some ==> cli::store_of(borrowed)->0 == borrowed->0@,
        vector_search::query_outcome(query) is Ok <==> query is Ok,
        query is Ok ==> vector_search::query_outcome(query)->Ok_0 == query->Ok_0,
        query is Err ==> vector_search::query_outcome(query)->Err_0 == query->Err_0.message@,
        recall::vector_outcome(Some(query)) == Some(vector_search::query_outcome(query)),
        recall::vector_outcome(None) is None,
        workspace::str_of(name) is Some <==> name is Some,
        name is Some ==> workspace::str_of(name)->0 == name->0@,
        clock::read(reading) is Ok <==> reading is Ok,
        reading is Ok ==> clock::read(reading)->Ok_0 == reading->Ok_0,
        reading is Err ==> clock::read(reading)->Err_0 == reading->Err_0@,
{
}

} // verus!
