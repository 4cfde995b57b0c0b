//! Memories: durable facts with lightweight provenance.

use crate::error;
use crate::error::Error;
use crate::model;
use crate::model::{copy_text, Row};
use crate::text;
use crate::text::{is_blank, same};
use vstd::prelude::*;
use vstd::string::*;

verus! {

/// A memory to store.
#[derive(Debug)]
pub struct NewMemory {
    pub text: String,
    pub kind: String,
    pub actor: String,
    pub source_type: String,
    pub source_ref: Option<String>,
}

/// A replacement for an active memory. Without a kind, the kind is kept.
#[derive(Debug)]
pub struct NewCorrection {
    pub text: String,
    pub kind: Option<String>,
    pub actor: String,
    pub source_type: String,
    pub source_ref: Option<String>,
}

/// A stored memory.
#[derive(Debug)]
pub struct Memory {
    pub id: String,
    pub kind: String,
    pub text: String,
    pub actor: String,
    pub source_type: String,
    pub source_ref: Option<String>,
    pub status: String,
    pub superseded_by: Option<String>,
    pub created_at: i64,
    pub updated_at: i64,
    pub deleted_at: Option<i64>,
}

/// Both sides of a correction.
#[derive(Debug)]
pub struct CorrectionResult {
    pub previous: Memory,
    pub replacement: Memory,
}

/// Model of a memory to store.
#[verifier::ext_equal]
pub struct NewMemoryView {
    pub text: Seq<char>,
    pub kind: Seq<char>,
    pub actor: Seq<char>,
    pub source_type: Seq<char>,
    pub source_ref: Option<Seq<char>>,
}

/// Model of a correction.
#[verifier::ext_equal]
pub struct NewCorrectionView {
    pub text: Seq<char>,
    pub kind: Option<Seq<char>>,
    pub actor: Seq<char>,
    pub source_type: Seq<char>,
    pub source_ref: Option<Seq<char>>,
}

/// Model of a stored memory.
#[verifier::ext_equal]
pub struct MemoryView {
    pub id: Seq<char>,
    pub kind: Seq<char>,
    pub text: Seq<char>,
    pub actor: Seq<char>,
    pub source_type: Seq<char>,
    pub source_ref: Option<Seq<char>>,
    pub status: Seq<char>,
    pub superseded_by: Option<Seq<char>>,
    pub created_at: int,
    pub updated_at: int,
    pub deleted_at: Option<int>,
}

/// Model of both sides of a correction.
pub struct CorrectionView {
    pub previous: MemoryView,
    pub replacement: MemoryView,
}

impl View for NewMemory {
    type V = NewMemoryView;

    open spec fn view(&self) -> NewMemoryView {
        NewMemoryView {
            text: self.text@,
            kind: self.kind@,
            actor: self.actor@,
            source_type: self.source_type@,
            source_ref: model::text_of(self.source_ref),
        }
    }
}

impl View for NewCorrection {
    type V = NewCorrectionView;

    open spec fn view(&self) -> NewCorrectionView {
        NewCorrectionView {
            text: self.text@,
            kind: model::text_of(self.kind),
            actor: self.actor@,
            source_type: self.source_type@,
            source_ref: model::text_of(self.source_ref),
        }
    }
}

impl View for Memory {
    type V = MemoryView;

    open spec fn view(&self) -> MemoryView {
        MemoryView {
            id: self.id@,
            kind: self.kind@,
            text: self.text@,
            actor: self.actor@,
            source_type: self.source_type@,
            source_ref: model::text_of(self.source_ref),
            status: self.status@,
            superseded_by: model::text_of(self.superseded_by),
            created_at: self.created_at as int,
            updated_at: self.updated_at as int,
            deleted_at: model::number_of(self.deleted_at),
        }
    }
}

impl View for CorrectionResult {
    type V = CorrectionView;

    open spec fn view(&self) -> CorrectionView {
        CorrectionView { previous: self.previous@, replacement: self.replacement@ }
    }
}

impl Row for Memory {
    fn duplicate(&self) -> (r: Memory) {
        Memory {
            id: self.id.clone(),
            kind: self.kind.clone(),
            text: self.text.clone(),
            actor: self.actor.clone(),
            source_type: self.source_type.clone(),
            source_ref: copy_text(&self.source_ref),
            status: self.status.clone(),
            superseded_by: copy_text(&self.superseded_by),
            created_at: self.created_at,
            updated_at: self.updated_at,
            deleted_at: self.deleted_at,
        }
    }
}

impl Clone for Memory {
    fn clone(&self) -> (r: Memory)
        ensures
            r@ == self@,
    {
        self.duplicate()
    }
}

/// The kinds of memory.
pub open spec fn known_kind(kind: Seq<char>) -> bool {
    ||| kind == "fact"@
    ||| kind == "finding"@
    ||| kind == "decision"@
    ||| kind == "constraint"@
    ||| kind == "preference"@
    ||| kind == "procedure"@
}

/// Tells whether `kind` is a kind of memory.
pub fn is_known_kind(kind: &str) -> (r: bool)
    ensures
        r == known_kind(kind@),
{
    same(kind, "fact") || same(kind, "finding") || same(kind, "decision") || same(
        kind,
        "constraint",
    ) || same(kind, "preference") || same(kind, "procedure")
}

/// Selects the memory with an identifier.
pub open spec fn with_id(id: Seq<char>) -> spec_fn(MemoryView) -> bool {
    |m: MemoryView| m.id == id
}

/// Selects the memories in a status.
pub open spec fn in_status(status: Seq<char>) -> spec_fn(MemoryView) -> bool {
    |m: MemoryView| m.status == status
}

/// Selects the active memory with an identifier.
pub open spec fn active_with(id: Seq<char>) -> spec_fn(MemoryView) -> bool {
    |m: MemoryView| m.id == id && m.status == "active"@
}

/// The identifier of a memory.
pub open spec fn id_key() -> spec_fn(MemoryView) -> Seq<char> {
    |m: MemoryView| m.id
}

/// Selects the memories whose status agrees with their other fields: a
/// superseded memory names its replacement, a deleted one when it was deleted,
/// and an active one neither.
pub open spec fn consistent() -> spec_fn(MemoryView) -> bool {
    |m: MemoryView|
        {
            ||| m.status == "active"@ && m.superseded_by is None && m.deleted_at is None
            ||| m.status == "superseded"@ && m.superseded_by is Some && m.deleted_at is None
            ||| m.status == "deleted"@ && m.superseded_by is None && m.deleted_at is Some
        }
}

/// A memory after it was replaced, if it is the one to replace.
pub open spec fn supersede(id: Seq<char>, by: Seq<char>, now: int) -> spec_fn(
    MemoryView,
) -> MemoryView {
    |m: MemoryView|
        if active_with(id)(m) {
            MemoryView {
                status: "superseded"@,
                superseded_by: Some(by),
                updated_at: now,
                ..m
            }
        } else {
            m
        }
}

/// A memory after it was deleted, if it is the one to delete.
pub open spec fn delete(id: Seq<char>, now: int) -> spec_fn(MemoryView) -> MemoryView {
    |m: MemoryView|
        if active_with(id)(m) {
            MemoryView { status: "deleted"@, deleted_at: Some(now), updated_at: now, ..m }
        } else {
            m
        }
}

/// A memory after its text changed, if it is the one to change.
pub open spec fn refresh(id: Seq<char>, text: Seq<char>, updated_at: int) -> spec_fn(
    MemoryView,
) -> MemoryView {
    |m: MemoryView|
        if active_with(id)(m) {
            MemoryView { text, updated_at, ..m }
        } else {
            m
        }
}

/// The memory after its text changed, if it is the one to change.
pub fn refreshed(m: &Memory, id: &str, text: &str, updated_at: i64) -> (r: Memory)
    ensures
        r@ == refresh(id@, text@, updated_at as int)(m@),
{
    let mut out: Memory = m.duplicate();
    if is_active_with(m, id) {
        out.text = text.to_owned();
        out.updated_at = updated_at;
    }
    out
}

/// The statuses are different words.
pub proof fn lemma_statuses()
    ensures
        "active"@ != "superseded"@,
        "active"@ != "deleted"@,
        "superseded"@ != "deleted"@,
{
    reveal_strlit("active");
    reveal_strlit("superseded");
    reveal_strlit("deleted");
    assert("active"@.len() == 6);
    assert("superseded"@.len() == 10);
    assert("deleted"@.len() == 7);
}

/// Tells whether a memory is the active one with an identifier.
pub fn is_active_with(m: &Memory, id: &str) -> (r: bool)
    ensures
        r == active_with(id@)(m@),
{
    same(m.id.as_str(), id) && same(m.status.as_str(), "active")
}

/// The memory after it was replaced, if it is the one to replace.
pub fn superseded(m: &Memory, id: &str, by: &str, now: i64) -> (r: Memory)
    ensures
        r@ == supersede(id@, by@, now as int)(m@),
{
    let mut out: Memory = m.duplicate();
    if is_active_with(m, id) {
        out.status = "superseded".to_owned();
        out.superseded_by = Some(by.to_owned());
        out.updated_at = now;
    }
    out
}

/// The memory after it was deleted, if it is the one to delete.
pub fn deleted(m: &Memory, id: &str, now: i64) -> (r: Memory)
    ensures
        r@ == delete(id@, now as int)(m@),
{
    let mut out: Memory = m.duplicate();
    if is_active_with(m, id) {
        out.status = "deleted".to_owned();
        out.deleted_at = Some(now);
        out.updated_at = now;
    }
    out
}

/// Why a required value is refused: it is blank.
pub open spec fn identity_refusal(value: Seq<char>, kind: Seq<char>) -> Option<Seq<char>> {
    if text::blank(value) {
        Some(kind + " cannot be empty"@)
    } else {
        None
    }
}

/// Why an optional value is refused: it is there and blank.
pub open spec fn optional_refusal(value: Option<Seq<char>>, kind: Seq<char>) -> Option<Seq<char>> {
    match value {
        Some(value) => identity_refusal(value, kind),
        None => None,
    }
}

/// Checks that a required value is not blank.
pub fn validate_identity(value: &str, kind: &str) -> (r: Result<(), Error>)
    ensures
        error::refusal(r) == identity_refusal(value@, kind@),
{
    if is_blank(value) {
        return Err(Error::of2(kind, " cannot be empty"));
    }
    Ok(())
}

/// Checks that an optional value is not blank.
pub fn validate_optional(value: &Option<String>, kind: &str) -> (r: Result<(), Error>)
    ensures
        error::refusal(r) == optional_refusal(model::text_of(*value), kind@),
{
    match value {
        Some(value) => validate_identity(value.as_str(), kind),
        None => Ok(()),
    }
}

/// Why a memory is refused: the first of its fields that is not acceptable.
pub open spec fn new_memory_refusal(input: NewMemoryView) -> Option<Seq<char>> {
    if text::blank(input.text) {
        Some("memory text cannot be empty"@)
    } else if !known_kind(input.kind) {
        Some(
            "unknown memory kind '"@ + input.kind
                + "'; expected one of: fact, finding, decision, constraint, preference, procedure"@,
        )
    } else if text::blank(input.actor) {
        Some("memory actor"@ + " cannot be empty"@)
    } else if text::blank(input.source_type) {
        Some("memory source type"@ + " cannot be empty"@)
    } else {
        optional_refusal(input.source_ref, "source reference"@)
    }
}

/// Checks a memory before it is stored.
pub fn validate_new_memory(input: &NewMemory) -> (r: Result<(), Error>)
    ensures
        error::refusal(r) == new_memory_refusal(input@),
{
    if is_blank(input.text.as_str()) {
        return Err(Error::new("memory text cannot be empty"));
    }
    if !is_known_kind(input.kind.as_str()) {
        return Err(
            Error::of3(
                "unknown memory kind '",
                input.kind.as_str(),
                "'; expected one of: fact, finding, decision, constraint, preference, procedure",
            ),
        );
    }
    validate_identity(input.actor.as_str(), "memory actor")?;
    validate_identity(input.source_type.as_str(), "memory source type")?;
    validate_optional(&input.source_ref, "source reference")
}

/// The memory that storing `input` creates.
pub open spec fn fresh_memory(input: NewMemoryView, id: Seq<char>, now: int) -> MemoryView {
    MemoryView {
        id,
        kind: input.kind,
        text: input.text,
        actor: input.actor,
        source_type: input.source_type,
        source_ref: input.source_ref,
        status: "active"@,
        superseded_by: None,
        created_at: now,
        updated_at: now,
        deleted_at: None,
    }
}

/// Makes the memory that storing `input` creates.
pub fn make_memory(input: &NewMemory, id: &str, now: i64) -> (r: Memory)
    ensures
        r@ == fresh_memory(input@, id@, now as int),
        r.id@ == id@,
        r.kind@ == input.kind@,
        r.text@ == input.text@,
        r.actor@ == input.actor@,
        r.source_type@ == input.source_type@,
        model::text_of(r.source_ref) == model::text_of(input.source_ref),
        r.status@ == "active"@,
        r.superseded_by is None,
        r.created_at == now,
        r.updated_at == now,
        r.deleted_at is None,
{
    Memory {
        id: id.to_owned(),
        kind: input.kind.clone(),
        text: input.text.clone(),
        actor: input.actor.clone(),
        source_type: input.source_type.clone(),
        source_ref: copy_text(&input.source_ref),
        status: "active".to_owned(),
        superseded_by: None,
        created_at: now,
        updated_at: now,
        deleted_at: None,
    }
}

} // verus!
