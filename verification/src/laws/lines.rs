//! What commands print.

use crate::cli::{ContextOutput, StatusOutput};
use crate::embedding_worker::EmbeddingRunStats;
use crate::memory::{CorrectionResult, Memory, MemoryView};
use crate::model;
use crate::render;
use crate::run;
use crate::run::Output;
use crate::search::SearchHit;
use crate::state::WorkspaceState;
use crate::text;
use crate::vector_search::SemanticSearchHit;
use vstd::prelude::*;

verus! {

/// A memory that was stored is printed on one line: its identifier, its kind and its whole
/// text, with tabs between.
pub proof fn law_a_stored_memory_is_one_line(m: Memory, scores: Seq<Seq<char>>)
    ensures
        run::output_lines(Output::Remembered(m), scores) == seq![
            m.id@ + "\t"@ + m.kind@ + "\t"@ + m.text@,
        ],
{
}

/// Hits are printed one to a line, all of them in their order, each like a memory; where they
/// have a score, it stands in front of the text.
pub proof fn law_each_hit_is_one_line(
    hits: Vec<SearchHit>,
    scored: Vec<SemanticSearchHit>,
    scores: Seq<Seq<char>>,
    i: int,
)
    ensures
        run::output_lines(Output::Hits(hits), scores).len() == hits@.len(),
        0 <= i < hits@.len() ==> run::output_lines(Output::Hits(hits), scores)[i]
            == hits@[i].memory.id@ + "\t"@ + hits@[i].memory.kind@ + "\t"@ + hits@[i].memory.text@,
        run::output_lines(Output::Scored(scored), scores).len() == scored@.len(),
        0 <= i < scored@.len() ==> run::output_lines(Output::Scored(scored), scores)[i]
            == scored@[i].memory.id@ + "\t"@ + scored@[i].memory.kind@ + "\t"@ + scores[i] + "\t"@
            + scored@[i].memory.text@,
{
}

/// Holds of a label with its value.
pub open spec fn is_line(line: Seq<char>, label: Seq<char>, value: Seq<char>) -> bool {
    line == label + value
}

/// A memory that was got is printed field by field, its text last; a source reference and
/// what superseded it have a line where there are such.
pub proof fn law_a_memory_is_printed_field_by_field(m: Memory, scores: Seq<Seq<char>>)
    ensures
        ({
            let lines = run::output_lines(Output::Got(m), scores);
            let n = lines.len() as int;
            let a = if m.source_ref is Some {
                1int
            } else {
                0int
            };
            let b = if m.superseded_by is Some {
                1int
            } else {
                0int
            };
            &&& n == 6 + a + b
            &&& is_line(lines[0], "id: "@, m.id@)
            &&& is_line(lines[1], "kind: "@, m.kind@)
            &&& is_line(lines[2], "status: "@, m.status@)
            &&& is_line(lines[3], "actor: "@, m.actor@)
            &&& is_line(lines[4], "source: "@, m.source_type@)
            &&& m.source_ref is Some ==> is_line(lines[5], "source_ref: "@, m.source_ref->0@)
            &&& m.superseded_by is Some ==> is_line(
                lines[5 + a],
                "superseded_by: "@,
                m.superseded_by->0@,
            )
            &&& is_line(lines[n - 1], "text: "@, m.text@)
        }),
{
}

/// A correction is printed with both identifiers, and then the memory that replaces the other.
pub proof fn law_a_correction_is_two_lines(c: CorrectionResult, scores: Seq<Seq<char>>)
    ensures
        run::output_lines(Output::Corrected(c), scores) == seq![
            "corrected "@ + c.previous.id@ + " -> "@ + c.replacement.id@,
            c.replacement.id@ + "\t"@ + c.replacement.kind@ + "\t"@ + c.replacement.text@,
        ],
{
}

/// What was forgotten or cleared is named.
pub proof fn law_what_is_gone_is_named(
    id: String,
    workspace: String,
    cleared: bool,
    scores: Seq<Seq<char>>,
)
    ensures
        run::output_lines(Output::Forgot(id), scores) == seq!["forgot "@ + id@],
        run::output_lines(Output::Cleared { workspace, cleared: true }, scores) == seq![
            "cleared state for "@ + workspace@,
        ],
        run::output_lines(Output::Cleared { workspace, cleared: false }, scores) == seq![
            "no state for "@ + workspace@,
        ],
        run::output_lines(Output::State { workspace, state: None }, scores) == seq![
            "no state for "@ + workspace@,
        ],
{
}

/// One if there is a value, and else zero.
pub open spec fn one_if(value: Option<String>) -> int {
    if value is Some {
        1
    } else {
        0
    }
}

/// Holds when the lines from a place on give what there is of a state, in the order session,
/// goal, task, checkpoint, each behind an indent.
pub open spec fn are_fields(
    lines: Seq<Seq<char>>,
    at: int,
    indent: Seq<char>,
    s: WorkspaceState,
) -> bool {
    let a = at + one_if(s.session);
    let b = a + one_if(s.goal);
    let c = b + one_if(s.task);
    &&& s.session is Some ==> lines[at] == indent + "session: "@ + s.session->0@
    &&& s.goal is Some ==> lines[a] == indent + "goal: "@ + s.goal->0@
    &&& s.task is Some ==> lines[b] == indent + "task: "@ + s.task->0@
    &&& s.checkpoint is Some ==> lines[c] == indent + "checkpoint: "@ + s.checkpoint->0@
}

/// The number of values that a state has.
pub open spec fn fields_in(s: WorkspaceState) -> int {
    one_if(s.session) + one_if(s.goal) + one_if(s.task) + one_if(s.checkpoint)
}

/// A state is printed with its workspace, each value that it has, and when it was changed.
pub proof fn law_a_state_is_printed_field_by_field(
    workspace: String,
    s: WorkspaceState,
    scores: Seq<Seq<char>>,
)
    ensures
        ({
            let lines = run::output_lines(Output::State { workspace, state: Some(s) }, scores);
            &&& lines.len() == 2 + fields_in(s)
            &&& lines[0] == "workspace: "@ + s.workspace@
            &&& are_fields(lines, 1, ""@, s)
            &&& lines[lines.len() - 1] == "updated_at: "@ + text::decimal(s.updated_at as int)
        }),
{
}

/// A run is printed with its model and its three counts.
pub proof fn law_a_run_is_printed_with_its_counts(stats: EmbeddingRunStats, scores: Seq<Seq<char>>)
    ensures
        run::output_lines(Output::Ran(stats), scores) == seq![
            "model: "@ + stats.model@,
            "indexed: "@ + text::decimal(stats.indexed as int),
            "stale: "@ + text::decimal(stats.stale as int),
            "remaining: "@ + text::decimal(stats.remaining as int),
        ],
{
}

/// A status is printed with the database, the root where there is one, the workspace, and the
/// counts of the store, or that there is no store.
pub proof fn law_a_status_is_printed_with_its_counts(o: StatusOutput, scores: Seq<Seq<char>>)
    ensures
        ({
            let lines = run::output_lines(Output::Status(o), scores);
            let r = one_if(o.root);
            &&& lines[0] == "database: "@ + o.database@
            &&& o.root is Some ==> lines[1] == "root: "@ + o.root->0@
            &&& lines[1 + r] == "workspace: "@ + o.workspace@
            &&& !o.initialized ==> lines.len() == 3 + r && lines[2 + r]
                == "store: not initialized"@
            &&& o.initialized ==> {
                &&& lines.len() == 5 + r
                &&& lines[2 + r] == "schema: "@ + text::decimal(o.schema_version as int)
                &&& lines[3 + r] == "memories: "@ + text::decimal(o.active as int) + " active / "@
                    + text::decimal(o.superseded as int) + " superseded / "@ + text::decimal(
                    o.deleted as int,
                ) + " deleted / "@ + text::decimal(o.total as int) + " total"@
                &&& lines[4 + r] == "embeddings: "@ + text::decimal(o.indexed as int)
                    + " indexed / "@ + text::decimal(o.unindexed as int) + " unindexed"@
            }
        }),
{
}

proof fn lemma_context_memories(memories: Seq<MemoryView>, i: int)
    ensures
        render::context_memories(memories).len() == 2 * memories.len(),
        0 <= i < memories.len() ==> {
            let m = memories[i];
            &&& render::context_memories(memories)[2 * i] == "  "@ + (m.id + "\t"@ + m.kind + "\t"@
                + m.text)
            &&& render::context_memories(memories)[2 * i + 1] == "    provenance: actor="@
                + m.actor + " source="@ + m.source_type + " ref="@ + (if m.source_ref is Some {
                m.source_ref->0
            } else {
                "-"@
            })
        },
    decreases memories.len(),
{
    if memories.len() > 0 {
        lemma_context_memories(memories.drop_last(), i);
    }
}

/// A context is printed with its root where there is one, its workspace, what there is of its
/// state, and two lines for each memory: the memory as in a list, whole, and where it is from.
pub proof fn law_a_context_is_printed_whole(o: ContextOutput, scores: Seq<Seq<char>>, i: int)
    ensures
        ({
            let lines = run::output_lines(Output::Context(o), scores);
            let r = one_if(o.root);
            let f = if o.state is Some {
                1 + fields_in(o.state->0)
            } else {
                0int
            };
            &&& lines.len() == 2 + r + f + 2 * o.memories@.len()
            &&& o.root is Some ==> lines[0] == "root: "@ + o.root->0@
            &&& lines[r] == "workspace: "@ + o.workspace@
            &&& o.state is Some ==> lines[r + 1] == "state:"@ && are_fields(
                lines,
                r + 2,
                "  "@,
                o.state->0,
            )
            &&& lines[1 + r + f] == "memories:"@
            &&& 0 <= i < o.memories@.len() ==> {
                let m = o.memories@[i];
                &&& lines[2 + r + f + 2 * i] == "  "@ + (m.id@ + "\t"@ + m.kind@ + "\t"@ + m.text@)
                &&& lines[3 + r + f + 2 * i] == "    provenance: actor="@ + m.actor@ + " source="@
                    + m.source_type@ + " ref="@ + (if m.source_ref is Some {
                    m.source_ref->0@
                } else {
                    "-"@
                })
            }
        }),
{
    let memories = model::views(o.memories@);
    lemma_context_memories(memories, i);
    let lines = run::output_lines(Output::Context(o), scores);
    let n = lines.len() - 2 * memories.len();
    assert(lines.skip(n) =~= render::context_memories(memories));
    if 0 <= i < o.memories@.len() {
        assert(memories[i] == o.memories@[i]@);
        assert(lines[n + 2 * i] == render::context_memories(memories)[2 * i]);
        assert(lines[n + 2 * i + 1] == render::context_memories(memories)[2 * i + 1]);
    }
}

/// What is only handed on is not printed.
pub proof fn law_what_is_handed_on_is_not_printed(o: Output, scores: Seq<Seq<char>>)
    requires
        o is Exported || o is WantsVector || o is Embed,
    ensures
        run::output_lines(o, scores).len() == 0,
{
}

} // verus!
