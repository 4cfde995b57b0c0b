//! Rows of a legacy database, which holds the rows of all projects.

use crate::model;
use crate::model::{copy_bytes, copy_text, join, Row};
use crate::embedding_worker::EMBEDDING_MODEL_ID;
use crate::text::same;
use vstd::prelude::*;
use vstd::string::*;

verus! {

/// A memory of a legacy database.
#[derive(Debug)]
pub struct MemoryRow {
    pub id: String,
    pub project_id: Option<String>,
    pub kind: String,
    pub text: String,
    pub actor: String,
    pub status: String,
    pub created_at: i64,
    pub updated_at: i64,
    pub deleted_at: Option<i64>,
}

/// A source of a memory of a legacy database.
#[derive(Debug)]
pub struct SourceRow {
    pub id: String,
    pub memory_id: String,
    pub source_type: String,
    pub locator: Option<String>,
    pub excerpt: Option<String>,
    pub created_at: i64,
}

/// A relation between memories of a legacy database.
#[derive(Debug)]
pub struct RelationRow {
    pub from: String,
    pub to: String,
    pub relation_type: String,
    pub created_at: i64,
}

/// An episode of a legacy database.
#[derive(Debug)]
pub struct EpisodeRow {
    pub id: String,
    pub project_id: Option<String>,
    pub source_type: String,
    pub source_ref: String,
    pub started_at: Option<i64>,
    pub ended_at: Option<i64>,
    pub summary: Option<String>,
    pub metadata_json: Option<String>,
    pub workspace_id: Option<String>,
}

/// An entry of an episode of a legacy database.
#[derive(Debug)]
pub struct EntryRow {
    pub id: String,
    pub episode_id: String,
    pub source_ref: String,
    pub ordinal: i64,
    pub kind: String,
    pub role: Option<String>,
    pub text: String,
    pub occurred_at: Option<i64>,
    pub metadata_json: Option<String>,
}

/// The state of a workspace in a legacy database.
#[derive(Debug)]
pub struct StateRow {
    pub project_id: String,
    pub workspace_id: String,
    pub last_session_id: Option<String>,
    pub active_goal: Option<String>,
    pub active_task_ref: Option<String>,
    pub checkpoint: Option<String>,
    pub updated_at: i64,
}

/// The vector of a memory of a legacy database under the current model.
#[derive(Debug)]
pub struct VectorRow {
    pub entity_id: String,
    pub dimensions: i64,
    pub vector: Vec<u8>,
    pub source_generation: i64,
    pub updated_at: i64,
}

/// Any stored vector of a legacy database.
#[derive(Debug)]
pub struct LegacyEmbedding {
    pub entity_type: String,
    pub entity_id: String,
    pub model: String,
    pub dimensions: i64,
    pub vector: Vec<u8>,
    pub source_generation: i64,
    pub updated_at: i64,
}

/// Model of a legacy memory.
#[verifier::ext_equal]
pub struct MemoryRowView {
    pub id: Seq<char>,
    pub project_id: Option<Seq<char>>,
    pub kind: Seq<char>,
    pub text: Seq<char>,
    pub actor: Seq<char>,
    pub status: Seq<char>,
    pub created_at: int,
    pub updated_at: int,
    pub deleted_at: Option<int>,
}

/// Model of a legacy source.
#[verifier::ext_equal]
pub struct SourceRowView {
    pub id: Seq<char>,
    pub memory_id: Seq<char>,
    pub source_type: Seq<char>,
    pub locator: Option<Seq<char>>,
    pub excerpt: Option<Seq<char>>,
    pub created_at: int,
}

/// Model of a legacy relation.
#[verifier::ext_equal]
pub struct RelationRowView {
    pub from: Seq<char>,
    pub to: Seq<char>,
    pub relation_type: Seq<char>,
    pub created_at: int,
}

/// Model of a legacy episode.
#[verifier::ext_equal]
pub struct EpisodeRowView {
    pub id: Seq<char>,
    pub project_id: Option<Seq<char>>,
    pub source_type: Seq<char>,
    pub source_ref: Seq<char>,
    pub started_at: Option<int>,
    pub ended_at: Option<int>,
    pub summary: Option<Seq<char>>,
    pub metadata_json: Option<Seq<char>>,
    pub workspace_id: Option<Seq<char>>,
}

/// Model of a legacy entry.
#[verifier::ext_equal]
pub struct EntryRowView {
    pub id: Seq<char>,
    pub episode_id: Seq<char>,
    pub source_ref: Seq<char>,
    pub ordinal: int,
    pub kind: Seq<char>,
    pub role: Option<Seq<char>>,
    pub text: Seq<char>,
    pub occurred_at: Option<int>,
    pub metadata_json: Option<Seq<char>>,
}

/// Model of a legacy state.
#[verifier::ext_equal]
pub struct StateRowView {
    pub project_id: Seq<char>,
    pub workspace_id: Seq<char>,
    pub last_session_id: Option<Seq<char>>,
    pub active_goal: Option<Seq<char>>,
    pub active_task_ref: Option<Seq<char>>,
    pub checkpoint: Option<Seq<char>>,
    pub updated_at: int,
}

/// Model of a legacy vector.
#[verifier::ext_equal]
pub struct VectorRowView {
    pub entity_id: Seq<char>,
    pub dimensions: int,
    pub vector: Seq<u8>,
    pub source_generation: int,
    pub updated_at: int,
}

/// Model of any stored vector of a legacy database.
#[verifier::ext_equal]
pub struct LegacyEmbeddingView {
    pub entity_type: Seq<char>,
    pub entity_id: Seq<char>,
    pub model: Seq<char>,
    pub dimensions: int,
    pub vector: Seq<u8>,
    pub source_generation: int,
    pub updated_at: int,
}

impl View for MemoryRow {
    type V = MemoryRowView;

    open spec fn view(&self) -> MemoryRowView {
        MemoryRowView {
            id: self.id@,
            project_id: model::text_of(self.project_id),
            kind: self.kind@,
            text: self.text@,
            actor: self.actor@,
            status: self.status@,
            created_at: self.created_at as int,
            updated_at: self.updated_at as int,
            deleted_at: model::number_of(self.deleted_at),
        }
    }
}

impl View for SourceRow {
    type V = SourceRowView;

    open spec fn view(&self) -> SourceRowView {
        SourceRowView {
            id: self.id@,
            memory_id: self.memory_id@,
            source_type: self.source_type@,
            locator: model::text_of(self.locator),
            excerpt: model::text_of(self.excerpt),
            created_at: self.created_at as int,
        }
    }
}

impl View for RelationRow {
    type V = RelationRowView;

    open spec fn view(&self) -> RelationRowView {
        RelationRowView {
            from: self.from@,
            to: self.to@,
            relation_type: self.relation_type@,
            created_at: self.created_at as int,
        }
    }
}

impl View for EpisodeRow {
    type V = EpisodeRowView;

    open spec fn view(&self) -> EpisodeRowView {
        EpisodeRowView {
            id: self.id@,
            project_id: model::text_of(self.project_id),
            source_type: self.source_type@,
            source_ref: self.source_ref@,
            started_at: model::number_of(self.started_at),
            ended_at: model::number_of(self.ended_at),
            summary: model::text_of(self.summary),
            metadata_json: model::text_of(self.metadata_json),
            workspace_id: model::text_of(self.workspace_id),
        }
    }
}

impl View for EntryRow {
    type V = EntryRowView;

    open spec fn view(&self) -> EntryRowView {
        EntryRowView {
            id: self.id@,
            episode_id: self.episode_id@,
            source_ref: self.source_ref@,
            ordinal: self.ordinal as int,
            kind: self.kind@,
            role: model::text_of(self.role),
            text: self.text@,
            occurred_at: model::number_of(self.occurred_at),
            metadata_json: model::text_of(self.metadata_json),
        }
    }
}

impl View for StateRow {
    type V = StateRowView;

    open spec fn view(&self) -> StateRowView {
        StateRowView {
            project_id: self.project_id@,
            workspace_id: self.workspace_id@,
            last_session_id: model::text_of(self.last_session_id),
            active_goal: model::text_of(self.active_goal),
            active_task_ref: model::text_of(self.active_task_ref),
            checkpoint: model::text_of(self.checkpoint),
            updated_at: self.updated_at as int,
        }
    }
}

impl View for VectorRow {
    type V = VectorRowView;

    open spec fn view(&self) -> VectorRowView {
        VectorRowView {
            entity_id: self.entity_id@,
            dimensions: self.dimensions as int,
            vector: self.vector@,
            source_generation: self.source_generation as int,
            updated_at: self.updated_at as int,
        }
    }
}

impl View for LegacyEmbedding {
    type V = LegacyEmbeddingView;

    open spec fn view(&self) -> LegacyEmbeddingView {
        LegacyEmbeddingView {
            entity_type: self.entity_type@,
            entity_id: self.entity_id@,
            model: self.model@,
            dimensions: self.dimensions as int,
            vector: self.vector@,
            source_generation: self.source_generation as int,
            updated_at: self.updated_at as int,
        }
    }
}

impl Row for MemoryRow {
    fn duplicate(&self) -> (r: MemoryRow) {
        MemoryRow {
            id: self.id.clone(),
            project_id: copy_text(&self.project_id),
            kind: self.kind.clone(),
            text: self.text.clone(),
            actor: self.actor.clone(),
            status: self.status.clone(),
            created_at: self.created_at,
            updated_at: self.updated_at,
            deleted_at: self.deleted_at,
        }
    }
}

impl Row for SourceRow {
    fn duplicate(&self) -> (r: SourceRow) {
        SourceRow {
            id: self.id.clone(),
            memory_id: self.memory_id.clone(),
            source_type: self.source_type.clone(),
            locator: copy_text(&self.locator),
            excerpt: copy_text(&self.excerpt),
            created_at: self.created_at,
        }
    }
}

impl Row for RelationRow {
    fn duplicate(&self) -> (r: RelationRow) {
        RelationRow {
            from: self.from.clone(),
            to: self.to.clone(),
            relation_type: self.relation_type.clone(),
            created_at: self.created_at,
        }
    }
}

impl Row for EpisodeRow {
    fn duplicate(&self) -> (r: EpisodeRow) {
        EpisodeRow {
            id: self.id.clone(),
            project_id: copy_text(&self.project_id),
            source_type: self.source_type.clone(),
            source_ref: self.source_ref.clone(),
            started_at: self.started_at,
            ended_at: self.ended_at,
            summary: copy_text(&self.summary),
            metadata_json: copy_text(&self.metadata_json),
            workspace_id: copy_text(&self.workspace_id),
        }
    }
}

impl Row for EntryRow {
    fn duplicate(&self) -> (r: EntryRow) {
        EntryRow {
            id: self.id.clone(),
            episode_id: self.episode_id.clone(),
            source_ref: self.source_ref.clone(),
            ordinal: self.ordinal,
            kind: self.kind.clone(),
            role: copy_text(&self.role),
            text: self.text.clone(),
            occurred_at: self.occurred_at,
            metadata_json: copy_text(&self.metadata_json),
        }
    }
}

impl Row for StateRow {
    fn duplicate(&self) -> (r: StateRow) {
        StateRow {
            project_id: self.project_id.clone(),
            workspace_id: self.workspace_id.clone(),
            last_session_id: copy_text(&self.last_session_id),
            active_goal: copy_text(&self.active_goal),
            active_task_ref: copy_text(&self.active_task_ref),
            checkpoint: copy_text(&self.checkpoint),
            updated_at: self.updated_at,
        }
    }
}

impl Row for VectorRow {
    fn duplicate(&self) -> (r: VectorRow) {
        VectorRow {
            entity_id: self.entity_id.clone(),
            dimensions: self.dimensions,
            vector: copy_bytes(&self.vector),
            source_generation: self.source_generation,
            updated_at: self.updated_at,
        }
    }
}

impl Row for LegacyEmbedding {
    fn duplicate(&self) -> (r: LegacyEmbedding) {
        LegacyEmbedding {
            entity_type: self.entity_type.clone(),
            entity_id: self.entity_id.clone(),
            model: self.model.clone(),
            dimensions: self.dimensions,
            vector: copy_bytes(&self.vector),
            source_generation: self.source_generation,
            updated_at: self.updated_at,
        }
    }
}

/// One consistent read of every row that a migration copies.
#[derive(Debug)]
pub struct LegacySnapshot {
    pub memories: Vec<MemoryRow>,
    pub sources: Vec<SourceRow>,
    pub relations: Vec<RelationRow>,
    pub episodes: Vec<EpisodeRow>,
    pub entries: Vec<EntryRow>,
    pub states: Vec<StateRow>,
    pub vectors: Vec<VectorRow>,
}

/// Model of a snapshot.
#[verifier::ext_equal]
pub struct SnapshotView {
    pub memories: Seq<MemoryRowView>,
    pub sources: Seq<SourceRowView>,
    pub relations: Seq<RelationRowView>,
    pub episodes: Seq<EpisodeRowView>,
    pub entries: Seq<EntryRowView>,
    pub states: Seq<StateRowView>,
    pub vectors: Seq<VectorRowView>,
}

impl View for LegacySnapshot {
    type V = SnapshotView;

    open spec fn view(&self) -> SnapshotView {
        SnapshotView {
            memories: model::views(self.memories@),
            sources: model::views(self.sources@),
            relations: model::views(self.relations@),
            episodes: model::views(self.episodes@),
            entries: model::views(self.entries@),
            states: model::views(self.states@),
            vectors: model::views(self.vectors@),
        }
    }
}

/// Selects the active memory with an identifier.
pub open spec fn active_with(id: Seq<char>) -> spec_fn(MemoryRowView) -> bool {
    |m: MemoryRowView| m.id == id && m.status == "active"@
}

/// The row of a stored vector, if it is that of an active memory under the current
/// model.
pub open spec fn current_vector(memories: Seq<MemoryRowView>) -> spec_fn(
    LegacyEmbeddingView,
) -> Option<VectorRowView> {
    |e: LegacyEmbeddingView|
        if e.entity_type == "memory"@ && e.model == EMBEDDING_MODEL_ID@ && model::any_row(
            memories,
            active_with(e.entity_id),
        ) {
            Some(
                VectorRowView {
                    entity_id: e.entity_id,
                    dimensions: e.dimensions,
                    vector: e.vector,
                    source_generation: e.source_generation,
                    updated_at: e.updated_at,
                },
            )
        } else {
            None
        }
}

/// The vectors that are worth carrying over: those of active memories under the
/// current model. Everything else is made anew where it is needed.
pub fn current_vectors(memories: &Vec<MemoryRow>, embeddings: &Vec<LegacyEmbedding>) -> (r: Vec<
    VectorRow,
>)
    ensures
        model::views(r@) == model::joined(
            model::views(embeddings@),
            current_vector(model::views(memories@)),
        ),
{
    let ghost all = model::views(memories@);
    let row = |e: &LegacyEmbedding| -> (r: Option<VectorRow>)
        ensures
            model::row_of(r) == current_vector(model::views(memories@))(e@),
        {
            if same(e.entity_type.as_str(), "memory") && same(e.model.as_str(), EMBEDDING_MODEL_ID)
                && is_active(memories, e.entity_id.as_str()) {
                Some(
                    VectorRow {
                        entity_id: e.entity_id.clone(),
                        dimensions: e.dimensions,
                        vector: copy_bytes(&e.vector),
                        source_generation: e.source_generation,
                        updated_at: e.updated_at,
                    },
                )
            } else {
                None
            }
        };
    join(embeddings, row, Ghost(current_vector(all)))
}

/// Tells whether an active memory has an identifier.
pub fn is_active(memories: &Vec<MemoryRow>, id: &str) -> (r: bool)
    ensures
        r == model::any_row(model::views(memories@), active_with(id@)),
{
    let test = |m: &MemoryRow| -> (r: bool)
        ensures
            r == active_with(id@)(m@),
        { same(m.id.as_str(), id) && same(m.status.as_str(), "active") };
    model::has(memories, test, Ghost(active_with(id@)))
}

/// The snapshot that the rows of a legacy database make.
pub fn read_legacy_snapshot(
    memories: Vec<MemoryRow>,
    sources: Vec<SourceRow>,
    relations: Vec<RelationRow>,
    episodes: Vec<EpisodeRow>,
    entries: Vec<EntryRow>,
    states: Vec<StateRow>,
    embeddings: &Vec<LegacyEmbedding>,
) -> (r: LegacySnapshot)
    ensures
        r@ == (SnapshotView {
            memories: model::views(memories@),
            sources: model::views(sources@),
            relations: model::views(relations@),
            episodes: model::views(episodes@),
            entries: model::views(entries@),
            states: model::views(states@),
            vectors: model::joined(
                model::views(embeddings@),
                current_vector(model::views(memories@)),
            ),
        }),
{
    let vectors: Vec<VectorRow> = current_vectors(&memories, embeddings);
    LegacySnapshot { memories, sources, relations, episodes, entries, states, vectors }
}

} // verus!
