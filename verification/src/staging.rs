//! Staged stores: what is written for a share, and how it is checked before the
//! staged layout takes effect.

use crate::embedding_worker::EMBEDDING_MODEL_ID;
use crate::error;
use crate::error::Error;
use crate::layout;
use crate::layout::staging_store_path;
use crate::legacy::{
    EntryRow, EntryRowView, EpisodeRow, EpisodeRowView, MemoryRow, MemoryRowView, RelationRow,
    RelationRowView, SourceRow, SourceRowView, StateRow, StateRowView, VectorRow, VectorRowView,
};
use crate::model;
use crate::model::{has, join, Row};
use crate::storage_migration;
use crate::storage_migration::{CopyPlan, Share, ShareView};
use crate::text;
use crate::text::{decimal_i64, decimal_u64, same};
use vstd::prelude::*;
use vstd::string::*;

verus! {

/// A memory with its scope: that of a project, or global.
#[derive(Debug)]
pub struct StagedMemory {
    pub scope: String,
    pub row: MemoryRow,
}

/// Model of a memory with its scope.
#[verifier::ext_equal]
pub struct StagedMemoryView {
    pub scope: Seq<char>,
    pub row: MemoryRowView,
}

/// A vector with the model it was made with.
#[derive(Debug)]
pub struct StagedVector {
    pub model: String,
    pub row: VectorRow,
}

/// Model of a vector with the model it was made with.
#[verifier::ext_equal]
pub struct StagedVectorView {
    pub model: Seq<char>,
    pub row: VectorRowView,
}

impl View for StagedMemory {
    type V = StagedMemoryView;

    open spec fn view(&self) -> StagedMemoryView {
        StagedMemoryView { scope: self.scope@, row: self.row@ }
    }
}

impl View for StagedVector {
    type V = StagedVectorView;

    open spec fn view(&self) -> StagedVectorView {
        StagedVectorView { model: self.model@, row: self.row@ }
    }
}

impl Row for StagedMemory {
    fn duplicate(&self) -> (r: StagedMemory) {
        StagedMemory { scope: self.scope.clone(), row: self.row.duplicate() }
    }
}

impl Row for StagedVector {
    fn duplicate(&self) -> (r: StagedVector) {
        StagedVector { model: self.model.clone(), row: self.row.duplicate() }
    }
}

/// The rows of a staged store. `jobs` are the memories that are queued for a vector.
#[derive(Debug)]
pub struct StagedStore {
    pub memories: Vec<StagedMemory>,
    pub sources: Vec<SourceRow>,
    pub relations: Vec<RelationRow>,
    pub episodes: Vec<EpisodeRow>,
    pub entries: Vec<EntryRow>,
    pub states: Vec<StateRow>,
    pub vectors: Vec<StagedVector>,
    pub jobs: Vec<String>,
}

/// Model of a staged store.
#[verifier::ext_equal]
pub struct StagedView {
    pub memories: Seq<StagedMemoryView>,
    pub sources: Seq<SourceRowView>,
    pub relations: Seq<RelationRowView>,
    pub episodes: Seq<EpisodeRowView>,
    pub entries: Seq<EntryRowView>,
    pub states: Seq<StateRowView>,
    pub vectors: Seq<StagedVectorView>,
    pub jobs: Seq<Seq<char>>,
}

impl View for StagedStore {
    type V = StagedView;

    open spec fn view(&self) -> StagedView {
        StagedView {
            memories: model::views(self.memories@),
            sources: model::views(self.sources@),
            relations: model::views(self.relations@),
            episodes: model::views(self.episodes@),
            entries: model::views(self.entries@),
            states: model::views(self.states@),
            vectors: model::views(self.vectors@),
            jobs: model::views(self.jobs@),
        }
    }
}

/// A memory with its scope.
pub open spec fn scoped() -> spec_fn(MemoryRowView) -> Option<StagedMemoryView> {
    |m: MemoryRowView|
        Some(
            StagedMemoryView {
                scope: if m.project_id is Some {
                    "project"@
                } else {
                    "global"@
                },
                row: m,
            },
        )
}

/// A vector with the current model.
pub open spec fn modelled() -> spec_fn(VectorRowView) -> Option<StagedVectorView> {
    |x: VectorRowView| Some(StagedVectorView { model: EMBEDDING_MODEL_ID@, row: x })
}

/// Selects the vector of a memory.
pub open spec fn vector_of(id: Seq<char>) -> spec_fn(VectorRowView) -> bool {
    |x: VectorRowView| x.entity_id == id
}

/// The job of a memory: active memories without a vector have one.
pub open spec fn job_for(vectors: Seq<VectorRowView>) -> spec_fn(MemoryRowView) -> Option<
    Seq<char>,
> {
    |m: MemoryRowView|
        if m.status == "active"@ && !model::any_row(vectors, vector_of(m.id)) {
            Some(m.id)
        } else {
            None
        }
}

/// What is written for a share.
pub open spec fn staged(share: ShareView) -> StagedView {
    StagedView {
        memories: model::joined(share.memories, scoped()),
        sources: share.sources,
        relations: share.relations,
        episodes: share.episodes,
        entries: share.entries,
        states: share.states,
        vectors: model::joined(share.vectors, modelled()),
        jobs: model::joined(share.memories, job_for(share.vectors)),
    }
}

/// Copies rows.
fn copy_rows<T: Row>(rows: &Vec<T>) -> (r: Vec<T>)
    ensures
        model::views(r@) == model::views(rows@),
{
    let mut out: Vec<T> = Vec::new();
    let mut i: usize = 0;
    while i < rows.len()
        invariant
            i <= rows@.len(),
            out@.len() == i,
            forall|k: int| 0 <= k < i ==> (#[trigger] out@[k])@ == rows@[k]@,
        decreases rows@.len() - i,
    {
        out.push(rows[i].duplicate());
        i = i + 1;
    }
    assert(model::views(out@) =~= model::views(rows@));
    out
}

/// Tells whether a memory has a vector.
fn has_vector(vectors: &Vec<VectorRow>, id: &str) -> (r: bool)
    ensures
        r == model::any_row(model::views(vectors@), vector_of(id@)),
{
    let test = |x: &VectorRow| -> (r: bool)
        ensures
            r == vector_of(id@)(x@),
        { same(x.entity_id.as_str(), id) };
    has(vectors, test, Ghost(vector_of(id@)))
}

/// The rows that are written for a share. Active memories are queued for a vector
/// unless they bring one along.
pub fn write_share(share: &Share) -> (r: StagedStore)
    ensures
        r@ == staged(share@),
{
    let scope = |m: &MemoryRow| -> (r: Option<StagedMemory>)
        ensures
            model::row_of(r) == scoped()(m@),
        {
            let scope: String = if m.project_id.is_some() {
                "project".to_owned()
            } else {
                "global".to_owned()
            };
            Some(StagedMemory { scope, row: m.duplicate() })
        };
    let under_model = |x: &VectorRow| -> (r: Option<StagedVector>)
        ensures
            model::row_of(r) == modelled()(x@),
        { Some(StagedVector { model: EMBEDDING_MODEL_ID.to_owned(), row: x.duplicate() }) };
    let vectors: &Vec<VectorRow> = &share.vectors;
    let job = |m: &MemoryRow| -> (r: Option<String>)
        ensures
            model::row_of(r) == job_for(model::views(vectors@))(m@),
        {
            if same(m.status.as_str(), "active") && !has_vector(vectors, m.id.as_str()) {
                Some(m.id.clone())
            } else {
                None
            }
        };
    StagedStore {
        memories: join(&share.memories, scope, Ghost(scoped())),
        sources: copy_rows(&share.sources),
        relations: copy_rows(&share.relations),
        episodes: copy_rows(&share.episodes),
        entries: copy_rows(&share.entries),
        states: copy_rows(&share.states),
        vectors: join(&share.vectors, under_model, Ghost(modelled())),
        jobs: join(&share.memories, job, Ghost(job_for(model::views(vectors@)))),
    }
}

/// The paths of the stores of the given shares below a staging directory.
pub open spec fn share_paths(staging: Seq<char>, shares: Seq<ShareView>) -> Seq<Seq<char>> {
    Seq::new(
        shares.len(),
        |i: int| layout::below(staging, layout::relative_path(shares[i].project_id)),
    )
}

/// Selects the share of the user store.
pub open spec fn of_user() -> spec_fn(ShareView) -> bool {
    |share: ShareView| share.project_id is None
}

/// The paths of the stores that are staged for a plan: one for each share, and the user
/// store, which every layout has, also where no share belongs to it.
pub open spec fn staged_paths(staging: Seq<char>, shares: Seq<ShareView>) -> Seq<Seq<char>> {
    if model::any_row(shares, of_user()) {
        share_paths(staging, shares)
    } else {
        share_paths(staging, shares).push(layout::below(staging, layout::relative_path(None)))
    }
}

/// The paths of the stores that are staged for a plan, those of its shares first.
pub fn staging_paths(plan: &CopyPlan, staging: &str) -> (r: Result<Vec<String>, Error>)
    requires
        storage_migration::named_projects(plan@.shares),
    ensures
        r is Ok,
        model::views(r->Ok_0@) == staged_paths(staging@, plan@.shares),
{
    let ghost shares = plan@.shares;
    let mut out: Vec<String> = Vec::new();
    let mut has_user: bool = false;
    let mut i: usize = 0;
    while i < plan.shares.len()
        invariant
            i <= plan.shares@.len(),
            shares == plan@.shares,
            storage_migration::named_projects(shares),
            out@.len() == i,
            forall|k: int|
                0 <= k < i ==> (#[trigger] out@[k])@ == share_paths(staging@, shares)[k],
            has_user == exists|k: int| 0 <= k < i && of_user()(#[trigger] shares[k]),
        decreases plan.shares@.len() - i,
    {
        let share: &Share = &plan.shares[i];
        assert(shares[i as int] == share@);
        if share.project_id.is_none() {
            assert(of_user()(shares[i as int]));
            has_user = true;
        }
        out.push(staging_store_path(staging, &share.project_id)?);
        i = i + 1;
    }
    assert(model::views(out@) =~= share_paths(staging@, shares));
    if !has_user {
        assert(!model::any_row(shares, of_user()));
        out.push(staging_store_path(staging, &None)?);
        assert(model::views(out@) =~= staged_paths(staging@, shares));
    }
    Ok(out)
}

/// Numbers of rows in a staged store, and of violated references.
#[derive(Debug)]
pub struct StagedCounts {
    pub memories: i64,
    pub sources: i64,
    pub relations: i64,
    pub episodes: i64,
    pub entries: i64,
    pub states: i64,
    pub vectors: i64,
    pub violations: i64,
}

/// The size of a number without its sign.
pub open spec fn magnitude(n: int) -> int {
    if n < 0 {
        -n
    } else {
        n
    }
}

/// What a share is called in messages.
pub open spec fn share_name(project: Option<Seq<char>>) -> Seq<char> {
    match project {
        Some(project) => project,
        None => "user store"@,
    }
}

/// Why a number of rows is refused: it is not the expected one.
pub open spec fn count_refusal(
    name: Seq<char>,
    expected: int,
    what: Seq<char>,
    found: int,
) -> Option<Seq<char>> {
    if magnitude(found) != expected {
        Some(
            "store "@ + name + ": expected "@ + text::decimal(expected) + what + text::decimal(
                magnitude(found),
            ),
        )
    } else {
        None
    }
}

/// Why a staged store is refused: the first number of rows that is not the expected
/// one, or violated references.
pub open spec fn staging_refusal(share: ShareView, found: StagedCounts) -> Option<Seq<char>> {
    let name = share_name(share.project_id);
    error::either(
        count_refusal(
            name,
            share.memories.len() as int,
            " memories, found "@,
            found.memories as int,
        ),
        error::either(
            count_refusal(
                name,
                share.sources.len() as int,
                " sources, found "@,
                found.sources as int,
            ),
            error::either(
                count_refusal(
                    name,
                    share.relations.len() as int,
                    " relations, found "@,
                    found.relations as int,
                ),
                error::either(
                    count_refusal(
                        name,
                        share.episodes.len() as int,
                        " episodes, found "@,
                        found.episodes as int,
                    ),
                    error::either(
                        count_refusal(
                            name,
                            share.entries.len() as int,
                            " entries, found "@,
                            found.entries as int,
                        ),
                        error::either(
                            count_refusal(
                                name,
                                share.states.len() as int,
                                " workspaces, found "@,
                                found.states as int,
                            ),
                            error::either(
                                count_refusal(
                                    name,
                                    share.vectors.len() as int,
                                    " vectors, found "@,
                                    found.vectors as int,
                                ),
                                if found.violations > 0 {
                                    Some(
                                        "store "@ + name + ": foreign key check reported "@
                                            + text::decimal(found.violations as int)
                                            + " violations"@,
                                    )
                                } else {
                                    None
                                },
                            ),
                        ),
                    ),
                ),
            ),
        ),
    )
}

/// Checks a number of rows.
fn check_count(name: &str, expected: usize, what: &str, found: i64) -> (r: Result<(), Error>)
    ensures
        error::refusal(r) == count_refusal(name@, expected as int, what@, found as int),
{
    let size: u64 = if found < 0 {
        (-(found as i128)) as u64
    } else {
        found as u64
    };
    if size != expected as u64 {
        let wanted: String = decimal_u64(expected as u64);
        let given: String = decimal_u64(size);
        return Err(
            Error::of6("store ", name, ": expected ", wanted.as_str(), what, given.as_str()),
        );
    }
    Ok(())
}

/// Checks a staged store: it holds exactly the rows of its share, and every reference
/// in it holds.
pub fn verify_staging(share: &Share, found: &StagedCounts) -> (r: Result<(), Error>)
    ensures
        error::refusal(r) == staging_refusal(share@, *found),
{
    let name: String = match &share.project_id {
        Some(project) => project.clone(),
        None => "user store".to_owned(),
    };
    let key: &str = name.as_str();
    check_count(key, share.memories.len(), " memories, found ", found.memories)?;
    check_count(key, share.sources.len(), " sources, found ", found.sources)?;
    check_count(key, share.relations.len(), " relations, found ", found.relations)?;
    check_count(key, share.episodes.len(), " episodes, found ", found.episodes)?;
    check_count(key, share.entries.len(), " entries, found ", found.entries)?;
    check_count(key, share.states.len(), " workspaces, found ", found.states)?;
    check_count(key, share.vectors.len(), " vectors, found ", found.vectors)?;
    if found.violations > 0 {
        let number: String = decimal_i64(found.violations);
        return Err(
            Error::of5(
                "store ",
                key,
                ": foreign key check reported ",
                number.as_str(),
                " violations",
            ),
        );
    }
    Ok(())
}

/// Why staged stores are refused: what refuses the first of them that is.
pub open spec fn layout_refusal(shares: Seq<ShareView>, found: Seq<StagedCounts>) -> Option<
    Seq<char>,
>
    decreases shares.len(),
{
    if shares.len() == 0 {
        None
    } else {
        error::either(
            layout_refusal(shares.drop_last(), found),
            staging_refusal(shares.last(), found[shares.len() - 1]),
        )
    }
}

/// Holds when every staged store passes its check.
pub open spec fn all_pass(shares: Seq<ShareView>, found: Seq<StagedCounts>) -> bool {
    forall|i: int|
        0 <= i < shares.len() ==> staging_refusal(#[trigger] shares[i], found[i]) is None
}

/// Holds when a staged store is refused and none before it is.
pub open spec fn first_refused(
    shares: Seq<ShareView>,
    found: Seq<StagedCounts>,
    n: int,
    message: Seq<char>,
) -> bool {
    &&& 0 <= n < shares.len()
    &&& staging_refusal(shares[n], found[n]) == Some(message)
    &&& forall|i: int| 0 <= i < n ==> staging_refusal(#[trigger] shares[i], found[i]) is None
}

/// Staged stores are refused exactly when one of them is, and with the message of the
/// first.
pub proof fn law_every_staged_store_is_checked(shares: Seq<ShareView>, found: Seq<StagedCounts>)
    ensures
        layout_refusal(shares, found) is None <==> all_pass(shares, found),
        layout_refusal(shares, found) matches Some(message) ==> exists|n: int| #[trigger]
            first_refused(shares, found, n, message),
    decreases shares.len(),
{
    if shares.len() > 0 {
        let front = shares.drop_last();
        let last = shares.len() - 1;
        law_every_staged_store_is_checked(front, found);
        assert forall|i: int| 0 <= i < front.len() implies front[i] == shares[i] by {}
        assert(shares[last] == shares.last());
        if let Some(message) = layout_refusal(front, found) {
            let n = choose|n: int| #[trigger] first_refused(front, found, n, message);
            assert(front[n] == shares[n]);
            assert forall|i: int| 0 <= i < n implies staging_refusal(
                #[trigger] shares[i],
                found[i],
            ) is None by {
                assert(front[i] == shares[i]);
            }
            assert(first_refused(shares, found, n, message));
        } else {
            assert forall|i: int| 0 <= i < last implies staging_refusal(
                #[trigger] shares[i],
                found[i],
            ) is None by {
                assert(front[i] == shares[i]);
            }
            if let Some(message) = layout_refusal(shares, found) {
                assert(first_refused(shares, found, last, message));
            }
        }
    }
}

/// Checks every staged store of a plan, given what was counted in each. Only a layout that
/// passes may be put into effect.
pub fn check_staging(plan: &CopyPlan, found: &Vec<StagedCounts>) -> (r: Result<(), Error>)
    requires
        found@.len() == plan@.shares.len(),
    ensures
        error::refusal(r) == layout_refusal(plan@.shares, found@),
        r is Ok <==> all_pass(plan@.shares, found@),
        r matches Err(e) ==> exists|n: int| #[trigger]
            first_refused(plan@.shares, found@, n, e@),
{
    let ghost all = plan@.shares;
    let mut i: usize = 0;
    assert(all.take(0) =~= Seq::<ShareView>::empty());
    while i < plan.shares.len()
        invariant
            i <= plan.shares@.len(),
            found@.len() == plan.shares@.len(),
            all == plan@.shares,
            layout_refusal(all.take(i as int), found@) is None,
        decreases plan.shares@.len() - i,
    {
        assert(all.take(i + 1).drop_last() =~= all.take(i as int));
        assert(all.take(i + 1).last() == plan.shares@[i as int]@);
        if let Err(e) = verify_staging(&plan.shares[i], &found[i]) {
            proof {
                lemma_refused_prefix(all, found@, i + 1);
                law_every_staged_store_is_checked(all, found@);
            }
            return Err(e);
        }
        i = i + 1;
    }
    proof {
        assert(all.take(i as int) =~= all);
        law_every_staged_store_is_checked(all, found@);
    }
    Ok(())
}

/// What refuses the first stores refuses all.
proof fn lemma_refused_prefix(shares: Seq<ShareView>, found: Seq<StagedCounts>, n: int)
    requires
        0 <= n <= shares.len(),
        layout_refusal(shares.take(n), found) is Some,
    ensures
        layout_refusal(shares, found) == layout_refusal(shares.take(n), found),
    decreases shares.len() - n,
{
    if n < shares.len() {
        assert(shares.take(n + 1).drop_last() =~= shares.take(n));
        lemma_refused_prefix(shares, found, n + 1);
    } else {
        assert(shares.take(n) =~= shares);
    }
}

/// The numbers of rows of a staged store without violated references.
pub open spec fn counts_of(s: StagedView, found: StagedCounts) -> bool {
    &&& found.memories == s.memories.len()
    &&& found.sources == s.sources.len()
    &&& found.relations == s.relations.len()
    &&& found.episodes == s.episodes.len()
    &&& found.entries == s.entries.len()
    &&& found.states == s.states.len()
    &&& found.vectors == s.vectors.len()
    &&& found.violations == 0
}

proof fn lemma_joined_all<V, W>(s: Seq<V>, g: spec_fn(V) -> Option<W>)
    requires
        forall|v: V| #[trigger] g(v) is Some,
    ensures
        model::joined(s, g).len() == s.len(),
        forall|i: int| 0 <= i < s.len() ==> #[trigger] model::joined(s, g)[i] == g(s[i])->0,
{
    assert(model::all_rows(s, model::gives(g)));
    model::lemma_filter_all(s, model::gives(g));
}

/// What is written for a share passes the check of that share, and every memory keeps
/// its fields.
pub proof fn law_written_shares_pass_the_check(share: ShareView, found: StagedCounts)
    requires
        counts_of(staged(share), found),
    ensures
        staging_refusal(share, found) is None,
        forall|i: int|
            0 <= i < share.memories.len() ==> (#[trigger] staged(share).memories[i]).row
                == share.memories[i],
{
    lemma_joined_all(share.memories, scoped());
    lemma_joined_all(share.vectors, modelled());
}

/// In a staged store a memory is queued exactly when it is active and has no vector.
pub proof fn law_queue_holds_exactly_what_lacks_a_vector(share: ShareView, id: Seq<char>)
    ensures
        staged(share).jobs.contains(id) <==> model::any_row(
            share.memories,
            lacks_vector(share.vectors, id),
        ),
{
    let g = job_for(share.vectors);
    let p = lacks_vector(share.vectors, id);
    let kept = share.memories.filter(model::gives(g));
    model::lemma_filter_contains(share.memories, model::gives(g));
    if staged(share).jobs.contains(id) {
        let k = choose|k: int| 0 <= k < staged(share).jobs.len() && staged(share).jobs[k] == id;
        assert(model::gives(g)(kept[k]));
        let i = choose|i: int| 0 <= i < share.memories.len() && share.memories[i] == kept[k];
        assert(p(share.memories[i]));
    }
    if model::any_row(share.memories, p) {
        let i = choose|i: int| 0 <= i < share.memories.len() && p(#[trigger] share.memories[i]);
        assert(model::gives(g)(share.memories[i]));
        assert(kept.contains(share.memories[i]));
        let k = choose|k: int| 0 <= k < kept.len() && kept[k] == share.memories[i];
        assert(staged(share).jobs[k] == id);
    }
}

/// Selects the active memory with an identifier, if it has no vector.
pub open spec fn lacks_vector(vectors: Seq<VectorRowView>, id: Seq<char>) -> spec_fn(
    MemoryRowView,
) -> bool {
    |m: MemoryRowView| m.id == id && m.status == "active"@ && !model::any_row(
        vectors,
        vector_of(id),
    )
}

} // verus!
