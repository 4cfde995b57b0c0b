//! What commands print, line by line.

use crate::cli::{ContextOutput, StatusOutput};
use crate::embedding_worker::EmbeddingRunStats;
use crate::memory::{CorrectionResult, CorrectionView, Memory, MemoryView};
use crate::model;
use crate::state::{StateView, WorkspaceState};
use crate::text;
use crate::text::{concat2, concat3, decimal_i64, decimal_u64};
use vstd::prelude::*;
use vstd::string::*;

verus! {

/// A line for an optional value: none without one.
pub open spec fn optional_line(label: Seq<char>, value: Option<Seq<char>>) -> Seq<Seq<char>> {
    match value {
        Some(value) => seq![label + value],
        None => Seq::empty(),
    }
}

/// Adds a line with a label and a value.
fn push_line(out: &mut Vec<String>, label: &str, value: &str)
    ensures
        model::views(final(out)@) == model::views(old(out)@).push(label@ + value@),
{
    let ghost before = model::views(out@);
    out.push(concat2(label, value));
    assert(model::views(out@) =~= before.push(label@ + value@));
}

/// Adds a line for an optional value.
fn push_optional(out: &mut Vec<String>, label: &str, value: &Option<String>)
    ensures
        model::views(final(out)@) == model::views(old(out)@) + optional_line(
            label@,
            model::text_of(*value),
        ),
{
    let ghost before = model::views(out@);
    if let Some(value) = value {
        push_line(out, label, value.as_str());
    }
    assert(model::views(out@) =~= before + optional_line(label@, model::text_of(*value)));
}

/// The line of a memory in a list.
pub open spec fn memory_line(m: MemoryView) -> Seq<char> {
    m.id + "\t"@ + m.kind + "\t"@ + m.text
}

/// The line of a memory in a list.
pub fn render_memory_line(m: &Memory) -> (r: String)
    ensures
        r@ == memory_line(m@),
{
    let start: String = concat3(m.id.as_str(), "\t", m.kind.as_str());
    concat3(start.as_str(), "\t", m.text.as_str())
}

/// The line of a memory that a semantic search found, with its score as text.
pub open spec fn scored_line(m: MemoryView, score: Seq<char>) -> Seq<char> {
    m.id + "\t"@ + m.kind + "\t"@ + score + "\t"@ + m.text
}

/// The line of a memory that a semantic search found, with its score as text.
pub fn render_scored_line(m: &Memory, score: &str) -> (r: String)
    ensures
        r@ == scored_line(m@, score@),
{
    let start: String = concat3(m.id.as_str(), "\t", m.kind.as_str());
    let middle: String = concat3(start.as_str(), "\t", score);
    concat3(middle.as_str(), "\t", m.text.as_str())
}

/// The lines of a memory with its provenance.
pub open spec fn memory_lines(m: MemoryView) -> Seq<Seq<char>> {
    (seq![
        "id: "@ + m.id,
        "kind: "@ + m.kind,
        "status: "@ + m.status,
        "actor: "@ + m.actor,
        "source: "@ + m.source_type,
    ] + optional_line("source_ref: "@, m.source_ref) + optional_line(
        "superseded_by: "@,
        m.superseded_by,
    )).push("text: "@ + m.text)
}

/// The lines of a memory with its provenance.
pub fn render_memory(m: &Memory) -> (r: Vec<String>)
    ensures
        model::views(r@) == memory_lines(m@),
{
    let mut out: Vec<String> = Vec::new();
    push_line(&mut out, "id: ", m.id.as_str());
    push_line(&mut out, "kind: ", m.kind.as_str());
    push_line(&mut out, "status: ", m.status.as_str());
    push_line(&mut out, "actor: ", m.actor.as_str());
    push_line(&mut out, "source: ", m.source_type.as_str());
    assert(model::views(out@) =~= seq![
        "id: "@ + m@.id,
        "kind: "@ + m@.kind,
        "status: "@ + m@.status,
        "actor: "@ + m@.actor,
        "source: "@ + m@.source_type,
    ]);
    push_optional(&mut out, "source_ref: ", &m.source_ref);
    push_optional(&mut out, "superseded_by: ", &m.superseded_by);
    push_line(&mut out, "text: ", m.text.as_str());
    out
}

/// The lines of the fields of a state, each behind an indentation.
pub open spec fn state_fields(s: StateView, indent: Seq<char>) -> Seq<Seq<char>> {
    optional_line(indent + "session: "@, s.session) + optional_line(indent + "goal: "@, s.goal)
        + optional_line(indent + "task: "@, s.task) + optional_line(
        indent + "checkpoint: "@,
        s.checkpoint,
    )
}

/// Adds the lines of the fields of a state.
fn push_state_fields(out: &mut Vec<String>, s: &WorkspaceState, indent: &str)
    ensures
        model::views(final(out)@) == model::views(old(out)@) + state_fields(s@, indent@),
{
    let ghost before = model::views(out@);
    push_optional(out, concat2(indent, "session: ").as_str(), &s.session);
    push_optional(out, concat2(indent, "goal: ").as_str(), &s.goal);
    push_optional(out, concat2(indent, "task: ").as_str(), &s.task);
    push_optional(out, concat2(indent, "checkpoint: ").as_str(), &s.checkpoint);
    assert(model::views(out@) =~= before + state_fields(s@, indent@));
}

/// The lines of the state of a workspace.
pub open spec fn state_lines(s: StateView) -> Seq<Seq<char>> {
    (seq!["workspace: "@ + s.workspace] + state_fields(s, ""@)).push(
        "updated_at: "@ + text::decimal(s.updated_at),
    )
}

/// The lines of the state of a workspace.
pub fn render_workspace_state(s: &WorkspaceState) -> (r: Vec<String>)
    ensures
        model::views(r@) == state_lines(s@),
{
    let mut out: Vec<String> = Vec::new();
    push_line(&mut out, "workspace: ", s.workspace.as_str());
    assert(model::views(out@) =~= seq!["workspace: "@ + s@.workspace]);
    push_state_fields(&mut out, s, "");
    let at: String = decimal_i64(s.updated_at);
    push_line(&mut out, "updated_at: ", at.as_str());
    out
}

/// The line that tells whether the state of a workspace was removed.
pub open spec fn cleared_line(workspace: Seq<char>, cleared: bool) -> Seq<char> {
    (if cleared {
        "cleared state for "@
    } else {
        "no state for "@
    }) + workspace
}

/// The line that tells whether the state of a workspace was removed.
pub fn render_cleared(workspace: &str, cleared: bool) -> (r: String)
    ensures
        r@ == cleared_line(workspace@, cleared),
{
    if cleared {
        concat2("cleared state for ", workspace)
    } else {
        concat2("no state for ", workspace)
    }
}

/// The lines of a correction.
pub open spec fn correction_lines(c: CorrectionView) -> Seq<Seq<char>> {
    seq![
        "corrected "@ + c.previous.id + " -> "@ + c.replacement.id,
        memory_line(c.replacement),
    ]
}

/// The lines of a correction.
pub fn render_correction(c: &CorrectionResult) -> (r: Vec<String>)
    ensures
        model::views(r@) == correction_lines(c@),
{
    let mut out: Vec<String> = Vec::new();
    let start: String = concat3("corrected ", c.previous.id.as_str(), " -> ");
    out.push(concat2(start.as_str(), c.replacement.id.as_str()));
    out.push(render_memory_line(&c.replacement));
    assert(model::views(out@) =~= correction_lines(c@));
    out
}

/// The lines of a run that made vectors.
pub open spec fn run_lines(stats: EmbeddingRunStats) -> Seq<Seq<char>> {
    seq![
        "model: "@ + stats.model@,
        "indexed: "@ + text::decimal(stats.indexed as int),
        "stale: "@ + text::decimal(stats.stale as int),
        "remaining: "@ + text::decimal(stats.remaining as int),
    ]
}

/// The lines of a run that made vectors.
pub fn render_run(stats: &EmbeddingRunStats) -> (r: Vec<String>)
    ensures
        model::views(r@) == run_lines(*stats),
{
    let mut out: Vec<String> = Vec::new();
    push_line(&mut out, "model: ", stats.model.as_str());
    push_line(&mut out, "indexed: ", decimal_u64(stats.indexed as u64).as_str());
    push_line(&mut out, "stale: ", decimal_u64(stats.stale as u64).as_str());
    push_line(&mut out, "remaining: ", decimal_u64(stats.remaining).as_str());
    assert(model::views(out@) =~= run_lines(*stats));
    out
}

/// The lines of a status.
pub open spec fn status_lines(o: StatusOutput) -> Seq<Seq<char>> {
    let place = (seq!["database: "@ + o.database@] + optional_line(
        "root: "@,
        model::text_of(o.root),
    )).push("workspace: "@ + o.workspace@);
    if !o.initialized {
        place.push("store: not initialized"@)
    } else {
        place.push("schema: "@ + text::decimal(o.schema_version as int)).push(
            "memories: "@ + text::decimal(o.active as int) + " active / "@ + text::decimal(
                o.superseded as int,
            ) + " superseded / "@ + text::decimal(o.deleted as int) + " deleted / "@
                + text::decimal(o.total as int) + " total"@,
        ).push(
            "embeddings: "@ + text::decimal(o.indexed as int) + " indexed / "@ + text::decimal(
                o.unindexed as int,
            ) + " unindexed"@,
        )
    }
}

/// The lines of a status.
pub fn render_status(o: &StatusOutput) -> (r: Vec<String>)
    ensures
        model::views(r@) == status_lines(*o),
{
    let mut out: Vec<String> = Vec::new();
    push_line(&mut out, "database: ", o.database.as_str());
    assert(model::views(out@) =~= seq!["database: "@ + o.database@]);
    push_optional(&mut out, "root: ", &o.root);
    push_line(&mut out, "workspace: ", o.workspace.as_str());
    if !o.initialized {
        let ghost before = model::views(out@);
        out.push("store: not initialized".to_owned());
        assert(model::views(out@) =~= before.push("store: not initialized"@));
        return out;
    }
    let version: String = decimal_i64(o.schema_version);
    push_line(&mut out, "schema: ", version.as_str());
    let active: String = decimal_u64(o.active);
    let superseded: String = decimal_u64(o.superseded);
    let deleted: String = decimal_u64(o.deleted);
    let total: String = decimal_u64(o.total);
    let mut line: String = concat3("memories: ", active.as_str(), " active / ");
    line = concat3(line.as_str(), superseded.as_str(), " superseded / ");
    line = concat3(line.as_str(), deleted.as_str(), " deleted / ");
    line = concat3(line.as_str(), total.as_str(), " total");
    let ghost before = model::views(out@);
    let ghost first = line@;
    out.push(line);
    assert(model::views(out@) =~= before.push(first));
    let indexed: String = decimal_u64(o.indexed);
    let unindexed: String = decimal_u64(o.unindexed);
    let mut last: String = concat3("embeddings: ", indexed.as_str(), " indexed / ");
    last = concat3(last.as_str(), unindexed.as_str(), " unindexed");
    let ghost middle = model::views(out@);
    let ghost second = last@;
    out.push(last);
    assert(model::views(out@) =~= middle.push(second));
    out
}

/// The lines of a memory in a context.
pub open spec fn context_memory_lines(m: MemoryView) -> Seq<Seq<char>> {
    seq![
        "  "@ + memory_line(m),
        "    provenance: actor="@ + m.actor + " source="@ + m.source_type + " ref="@ + (
        match m.source_ref {
            Some(source_ref) => source_ref,
            None => "-"@,
        }),
    ]
}

/// The lines of the memories of a context.
pub open spec fn context_memories(memories: Seq<MemoryView>) -> Seq<Seq<char>>
    decreases memories.len(),
{
    if memories.len() == 0 {
        Seq::empty()
    } else {
        context_memories(memories.drop_last()) + context_memory_lines(memories.last())
    }
}

/// The lines of a context.
pub open spec fn context_lines(o: ContextOutput) -> Seq<Seq<char>> {
    (optional_line("root: "@, model::text_of(o.root)).push("workspace: "@ + o.workspace@) + (
    match o.state {
        Some(state) => seq!["state:"@] + state_fields(state@, "  "@),
        None => Seq::empty(),
    })).push("memories:"@) + context_memories(model::views(o.memories@))
}

/// Adds the lines of a memory in a context.
fn push_context_memory(out: &mut Vec<String>, m: &Memory)
    ensures
        model::views(final(out)@) == model::views(old(out)@) + context_memory_lines(m@),
{
    let ghost before = model::views(out@);
    push_line(out, "  ", render_memory_line(m).as_str());
    let mut line: String = concat3("    provenance: actor=", m.actor.as_str(), " source=");
    line = concat3(line.as_str(), m.source_type.as_str(), " ref=");
    match &m.source_ref {
        Some(source_ref) => push_line(out, line.as_str(), source_ref.as_str()),
        None => push_line(out, line.as_str(), "-"),
    }
    assert(model::views(out@) =~= before + context_memory_lines(m@));
}

/// The lines of a context.
pub fn render_context(o: &ContextOutput) -> (r: Vec<String>)
    ensures
        model::views(r@) == context_lines(*o),
{
    let mut out: Vec<String> = Vec::new();
    push_optional(&mut out, "root: ", &o.root);
    assert(model::views(out@) =~= optional_line("root: "@, model::text_of(o.root)));
    push_line(&mut out, "workspace: ", o.workspace.as_str());
    let ghost place = model::views(out@);
    if let Some(state) = &o.state {
        out.push("state:".to_owned());
        assert(model::views(out@) =~= place.push("state:"@));
        push_state_fields(&mut out, state, "  ");
        assert(model::views(out@) =~= place + (seq!["state:"@] + state_fields(state@, "  "@)));
    } else {
        assert(model::views(out@) =~= place + Seq::<Seq<char>>::empty());
    }
    let ghost middle = model::views(out@);
    out.push("memories:".to_owned());
    assert(model::views(out@) =~= middle.push("memories:"@));
    let ghost start = model::views(out@);
    let ghost all = model::views(o.memories@);
    let mut i: usize = 0;
    assert(all.take(0) =~= Seq::<MemoryView>::empty());
    assert(start + context_memories(all.take(0)) =~= start);
    while i < o.memories.len()
        invariant
            i <= o.memories@.len(),
            all == model::views(o.memories@),
            model::views(out@) == start + context_memories(all.take(i as int)),
        decreases o.memories@.len() - i,
    {
        assert(all.take(i + 1).drop_last() =~= all.take(i as int));
        assert(all[i as int] == o.memories@[i as int]@);
        push_context_memory(&mut out, &o.memories[i]);
        assert(model::views(out@) =~= start + context_memories(all.take(i + 1)));
        i = i + 1;
    }
    assert(all.take(i as int) =~= all);
    out
}

/// The line of the version of the program.
pub fn render_version(version: &str, build_commit: &str) -> (r: String)
    ensures
        r@ == "mem "@ + version@ + " (built from "@ + build_commit@ + ")"@,
{
    let start: String = concat3("mem ", version, " (built from ");
    concat3(start.as_str(), build_commit, ")")
}

} // verus!
