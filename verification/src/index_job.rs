//! The queue of derived work.

use crate::clock;
use crate::clock::{draw_id, to_i64, unix_millis};
use crate::error;
use crate::error::Error;
use crate::memory;
use crate::model;
use crate::model::{copy_text, count, rewrite, select, top_by, Row};
use crate::order::{Key, KeyView};
use crate::store::{Store, StoreView};
use crate::text;
use crate::text::{is_blank, same, trim};
use vstd::prelude::*;
use vstd::string::*;

verus! {

/// A queued piece of derived work: the vector of a memory is to be made.
#[derive(Debug)]
pub struct IndexJob {
    pub id: String,
    pub entity_type: String,
    pub entity_id: String,
    pub index_kind: String,
    pub generation: i64,
    pub state: String,
    pub attempts: i64,
    pub available_at: i64,
    pub lease_owner: Option<String>,
    pub lease_token: Option<String>,
    pub lease_until: Option<i64>,
    pub last_error: Option<String>,
    pub updated_at: i64,
}

/// A job as handed to the worker that claimed it.
#[derive(Debug)]
pub struct ClaimedIndexJob {
    pub id: String,
    pub entity_type: String,
    pub entity_id: String,
    pub index_kind: String,
    pub generation: i64,
    pub attempts: i64,
    pub lease_owner: String,
    pub lease_token: String,
    pub lease_until: i64,
}

/// Model of a queued job.
#[verifier::ext_equal]
pub struct JobView {
    pub id: Seq<char>,
    pub entity_type: Seq<char>,
    pub entity_id: Seq<char>,
    pub index_kind: Seq<char>,
    pub generation: int,
    pub state: Seq<char>,
    pub attempts: int,
    pub available_at: int,
    pub lease_owner: Option<Seq<char>>,
    pub lease_token: Option<Seq<char>>,
    pub lease_until: Option<int>,
    pub last_error: Option<Seq<char>>,
    pub updated_at: int,
}

/// Model of a claimed job.
#[verifier::ext_equal]
pub struct ClaimedView {
    pub id: Seq<char>,
    pub entity_type: Seq<char>,
    pub entity_id: Seq<char>,
    pub index_kind: Seq<char>,
    pub generation: int,
    pub attempts: int,
    pub lease_owner: Seq<char>,
    pub lease_token: Seq<char>,
    pub lease_until: int,
}

impl View for IndexJob {
    type V = JobView;

    open spec fn view(&self) -> JobView {
        JobView {
            id: self.id@,
            entity_type: self.entity_type@,
            entity_id: self.entity_id@,
            index_kind: self.index_kind@,
            generation: self.generation as int,
            state: self.state@,
            attempts: self.attempts as int,
            available_at: self.available_at as int,
            lease_owner: model::text_of(self.lease_owner),
            lease_token: model::text_of(self.lease_token),
            lease_until: model::number_of(self.lease_until),
            last_error: model::text_of(self.last_error),
            updated_at: self.updated_at as int,
        }
    }
}

impl View for ClaimedIndexJob {
    type V = ClaimedView;

    open spec fn view(&self) -> ClaimedView {
        ClaimedView {
            id: self.id@,
            entity_type: self.entity_type@,
            entity_id: self.entity_id@,
            index_kind: self.index_kind@,
            generation: self.generation as int,
            attempts: self.attempts as int,
            lease_owner: self.lease_owner@,
            lease_token: self.lease_token@,
            lease_until: self.lease_until as int,
        }
    }
}

impl Row for IndexJob {
    fn duplicate(&self) -> (r: IndexJob) {
        IndexJob {
            id: self.id.clone(),
            entity_type: self.entity_type.clone(),
            entity_id: self.entity_id.clone(),
            index_kind: self.index_kind.clone(),
            generation: self.generation,
            state: self.state.clone(),
            attempts: self.attempts,
            available_at: self.available_at,
            lease_owner: copy_text(&self.lease_owner),
            lease_token: copy_text(&self.lease_token),
            lease_until: self.lease_until,
            last_error: copy_text(&self.last_error),
            updated_at: self.updated_at,
        }
    }
}

/// Selects the jobs of a memory.
pub open spec fn of_memory(id: Seq<char>) -> spec_fn(JobView) -> bool {
    |j: JobView| j.entity_type == "memory"@ && j.entity_id == id
}

/// Selects the jobs of other memories.
pub open spec fn not_of_memory(id: Seq<char>) -> spec_fn(JobView) -> bool {
    |j: JobView| !of_memory(id)(j)
}

/// The identifier of a job.
pub open spec fn id_key() -> spec_fn(JobView) -> Seq<char> {
    |j: JobView| j.id
}

/// Selects the jobs whose fields agree: a job is for a memory, under the
/// identifier of that memory, and it has a lease exactly while it is running.
pub open spec fn consistent() -> spec_fn(JobView) -> bool {
    |j: JobView|
        {
            &&& j.entity_type == "memory"@
            &&& j.id == j.entity_id
            &&& j.index_kind == "embedding"@
            &&& j.generation > 0
            &&& j.attempts >= 0
            &&& {
                ||| j.state == "pending"@ && j.lease_owner is None && j.lease_token is None
                    && j.lease_until is None
                ||| j.state == "running"@ && j.lease_owner is Some && j.lease_token is Some
                    && j.lease_until is Some
            }
        }
}

/// The job that a new memory queues.
pub open spec fn queued(id: Seq<char>, now: int) -> JobView {
    JobView {
        id,
        entity_type: "memory"@,
        entity_id: id,
        index_kind: "embedding"@,
        generation: 1,
        state: "pending"@,
        attempts: 0,
        available_at: now,
        lease_owner: None,
        lease_token: None,
        lease_until: None,
        last_error: None,
        updated_at: now,
    }
}

/// The job that a new memory queues.
pub fn queue(id: &str, now: i64) -> (r: IndexJob)
    ensures
        r@ == queued(id@, now as int),
{
    IndexJob {
        id: id.to_owned(),
        entity_type: "memory".to_owned(),
        entity_id: id.to_owned(),
        index_kind: "embedding".to_owned(),
        generation: 1,
        state: "pending".to_owned(),
        attempts: 0,
        available_at: now,
        lease_owner: None,
        lease_token: None,
        lease_until: None,
        last_error: None,
        updated_at: now,
    }
}

/// Tells whether a job is not one of the memory.
pub fn is_not_of_memory(j: &IndexJob, id: &str) -> (r: bool)
    ensures
        r == not_of_memory(id@)(j@),
{
    !(same(j.entity_type.as_str(), "memory") && same(j.entity_id.as_str(), id))
}

/// Counts of the queued jobs.
#[derive(Debug)]
pub struct IndexJobStats {
    pub pending: u64,
    pub running: u64,
}

/// Selects the jobs in a state.
pub open spec fn in_state(state: Seq<char>) -> spec_fn(JobView) -> bool {
    |j: JobView| j.state == state
}

/// Selects the jobs that can be claimed: those that wait and are due, and those
/// whose lease is over.
pub open spec fn claimable(now: int) -> spec_fn(JobView) -> bool {
    |j: JobView|
        {
            ||| j.state == "pending"@ && j.available_at <= now
            ||| j.state == "running"@ && (j.lease_until matches Some(until) && until <= now)
        }
}

/// The order in which jobs are claimed: waiting jobs first, then by when they
/// are due, when they last changed, and their identifiers.
pub open spec fn claim_key() -> spec_fn(JobView) -> KeyView {
    |j: JobView|
        KeyView {
            first: if j.state == "pending"@ {
                0
            } else {
                1
            },
            second: j.available_at,
            third: j.updated_at,
            text: j.id,
        }
}

/// The terms of a lease.
pub struct LeaseView {
    pub owner: Seq<char>,
    pub token: Seq<char>,
    pub until: int,
    pub now: int,
}

/// Selects the job that a claim is for, while it can be claimed.
pub open spec fn still_claimable(c: JobView, now: int) -> spec_fn(JobView) -> bool {
    |j: JobView| j.id == c.id && j.generation == c.generation && claimable(now)(j)
}

/// A job after it was claimed.
pub open spec fn leased(j: JobView, lease: LeaseView) -> JobView {
    JobView {
        state: "running"@,
        attempts: j.attempts + 1,
        lease_owner: Some(lease.owner),
        lease_token: Some(lease.token),
        lease_until: Some(lease.until),
        updated_at: lease.now,
        ..j
    }
}

/// A job after a claim, claimed if the claim is for it.
pub open spec fn lease_to(c: JobView, lease: LeaseView) -> spec_fn(JobView) -> JobView {
    |j: JobView|
        if still_claimable(c, lease.now)(j) {
            leased(j, lease)
        } else {
            j
        }
}

/// What is handed to the worker that claimed a job.
pub open spec fn handed(c: JobView, lease: LeaseView) -> ClaimedView {
    ClaimedView {
        id: c.id,
        entity_type: c.entity_type,
        entity_id: c.entity_id,
        index_kind: c.index_kind,
        generation: c.generation,
        attempts: c.attempts + 1,
        lease_owner: lease.owner,
        lease_token: lease.token,
        lease_until: lease.until,
    }
}

/// The queue and the claimed jobs after claims.
pub struct ClaimView {
    pub jobs: Seq<JobView>,
    pub claimed: Seq<ClaimedView>,
}

/// The outcome of claiming jobs one after another under the given tokens.
pub open spec fn claim_all(
    jobs: Seq<JobView>,
    candidates: Seq<JobView>,
    owner: Seq<char>,
    tokens: Seq<Seq<char>>,
    until: int,
    now: int,
) -> ClaimView
    decreases candidates.len(),
{
    if candidates.len() == 0 {
        ClaimView { jobs, claimed: Seq::empty() }
    } else {
        let before = claim_all(jobs, candidates.drop_last(), owner, tokens, until, now);
        let c = candidates.last();
        let lease = LeaseView { owner, token: tokens[candidates.len() - 1], until, now };
        ClaimView {
            jobs: before.jobs.map_values(lease_to(c, lease)),
            claimed: if before.jobs.filter(still_claimable(c, now)).len() == 1 {
                before.claimed.push(handed(c, lease))
            } else {
                before.claimed
            },
        }
    }
}

/// Why a claim is refused, at any time.
pub open spec fn claim_refusal(worker_id: Seq<char>, limit: int, lease_millis: int) -> Option<
    Seq<char>,
> {
    if text::blank(worker_id) {
        Some("index worker identifier cannot be empty"@)
    } else if limit == 0 {
        Some("index job claim limit must be greater than zero"@)
    } else if lease_millis > i64::MAX {
        Some(clock::out_of_range())
    } else if lease_millis <= 0 {
        Some("index job lease duration must be greater than zero"@)
    } else {
        None
    }
}

/// Why a claim is refused at a given time.
pub open spec fn claim_refusal_at(limit: int, lease_millis: int, now: int) -> Option<Seq<char>> {
    if now + lease_millis > i64::MAX {
        Some("index job lease timestamp overflow"@)
    } else if limit > i64::MAX {
        Some(clock::out_of_range())
    } else {
        None
    }
}

/// Selects the jobs whose attempts can be counted further.
pub open spec fn countable() -> spec_fn(JobView) -> bool {
    |j: JobView| j.attempts < i64::MAX
}

/// Holds when a claim at a given time turns the queue `before` into `after` and
/// hands out `claimed`: the first jobs that can be claimed, in claim order, each
/// under a token of its own.
pub open spec fn claims(
    before: Seq<JobView>,
    after: Seq<JobView>,
    claimed: Seq<ClaimedView>,
    worker_id: Seq<char>,
    limit: int,
    lease_millis: int,
    now: int,
) -> bool {
    exists|candidates: Seq<JobView>, tokens: Seq<Seq<char>>|
        {
            &&& model::ranked(candidates, before.filter(claimable(now)), claim_key(), limit)
            &&& tokens.len() == candidates.len()
            &&& forall|i: int| 0 <= i < tokens.len() ==> clock::drawn(#[trigger] tokens[i])
            &&& #[trigger] claim_all(
                before,
                candidates,
                text::trimmed(worker_id),
                tokens,
                now + lease_millis,
                now,
            ) == (ClaimView { jobs: after, claimed })
        }
}

/// Tells whether a job can be claimed.
fn is_claimable(j: &IndexJob, now: i64) -> (r: bool)
    ensures
        r == claimable(now as int)(j@),
{
    let over: bool = match j.lease_until {
        Some(until) => until <= now,
        None => false,
    };
    (same(j.state.as_str(), "pending") && j.available_at <= now) || (same(
        j.state.as_str(),
        "running",
    ) && over)
}

/// The job after a claim.
fn lease(j: &IndexJob, c: &IndexJob, owner: &str, token: &str, until: i64, now: i64) -> (r:
    IndexJob)
    requires
        claimable(now as int)(j@) ==> j@.attempts < i64::MAX,
    ensures
        r@ == lease_to(
            c@,
            LeaseView { owner: owner@, token: token@, until: until as int, now: now as int },
        )(j@),
{
    let mut out: IndexJob = j.duplicate();
    if same(j.id.as_str(), c.id.as_str()) && j.generation == c.generation && is_claimable(
        j,
        now,
    ) {
        out.state = "running".to_owned();
        out.attempts = j.attempts + 1;
        out.lease_owner = Some(owner.to_owned());
        out.lease_token = Some(token.to_owned());
        out.lease_until = Some(until);
        out.updated_at = now;
    }
    out
}

impl Store {
    /// Number of jobs in a state.
    fn count_jobs(&self, state: &str) -> (r: usize)
        ensures
            r == self@.jobs.filter(in_state(state@)).len(),
    {
        let test = |j: &IndexJob| -> (r: bool)
            ensures
                r == in_state(state@)(j@),
            { same(j.state.as_str(), state) };
        count(&self.jobs, test, Ghost(in_state(state@)))
    }

    /// Counts the queued jobs.
    pub fn index_job_stats(&self) -> (r: IndexJobStats)
        ensures
            r.pending == self@.jobs.filter(in_state("pending"@)).len(),
            r.running == self@.jobs.filter(in_state("running"@)).len(),
    {
        IndexJobStats {
            pending: self.count_jobs("pending") as u64,
            running: self.count_jobs("running") as u64,
        }
    }

    /// The first jobs that can be claimed, in claim order.
    pub fn claim_candidates(&self, limit: usize, now: i64) -> (r: Vec<IndexJob>)
        ensures
            model::ranked(
                model::views(r@),
                self@.jobs.filter(claimable(now as int)),
                claim_key(),
                limit as int,
            ),
    {
        let test = |j: &IndexJob| -> (r: bool)
            ensures
                r == claimable(now as int)(j@),
            { is_claimable(j, now) };
        let due: Vec<IndexJob> = select(&self.jobs, test, Ghost(claimable(now as int)));
        let key_of = |j: &IndexJob| -> (r: Key)
            ensures
                r@ == claim_key()(j@),
            {
                let first: i128 = if same(j.state.as_str(), "pending") {
                    0
                } else {
                    1
                };
                Key {
                    first,
                    second: j.available_at as i128,
                    third: j.updated_at as i128,
                    text: j.id.clone(),
                }
            };
        top_by(&due, key_of, Ghost(claim_key()), limit)
    }

    /// Claims one job, if it can still be claimed, under a given token. Tells
    /// whether exactly one job was claimed.
    fn lease_job(&mut self, c: &IndexJob, owner: &str, token: &str, until: i64, now: i64) -> (r:
        bool)
        requires
            until > now,
            forall|i: int|
                0 <= i < old(self)@.jobs.len() && claimable(now as int)(
                    #[trigger] old(self)@.jobs[i],
                ) ==> old(self)@.jobs[i].attempts < i64::MAX,
        ensures
            r == (old(self)@.jobs.filter(still_claimable(c@, now as int)).len() == 1),
            final(self)@ == (StoreView {
                jobs: old(self)@.jobs.map_values(
                    lease_to(
                        c@,
                        LeaseView {
                            owner: owner@,
                            token: token@,
                            until: until as int,
                            now: now as int,
                        },
                    ),
                ),
                ..old(self)@
            }),
            forall|i: int|
                0 <= i < final(self)@.jobs.len() && claimable(now as int)(
                    #[trigger] final(self)@.jobs[i],
                ) ==> final(self)@.jobs[i].attempts < i64::MAX,
    {
        let ghost before = self@;
        let ghost terms = LeaseView {
            owner: owner@,
            token: token@,
            until: until as int,
            now: now as int,
        };
        let test = |j: &IndexJob| -> (r: bool)
            ensures
                r == still_claimable(c@, now as int)(j@),
            {
                same(j.id.as_str(), c.id.as_str()) && j.generation == c.generation
                    && is_claimable(j, now)
            };
        let matching: usize = count(&self.jobs, test, Ghost(still_claimable(c@, now as int)));
        let mut out: Vec<IndexJob> = Vec::new();
        let mut i: usize = 0;
        while i < self.jobs.len()
            invariant
                i <= self.jobs@.len(),
                out@.len() == i,
                self@ == before,
                terms == (LeaseView {
                    owner: owner@,
                    token: token@,
                    until: until as int,
                    now: now as int,
                }),
                forall|k: int|
                    0 <= k < before.jobs.len() && claimable(now as int)(
                        #[trigger] before.jobs[k],
                    ) ==> before.jobs[k].attempts < i64::MAX,
                forall|k: int|
                    0 <= k < i ==> (#[trigger] out@[k])@ == lease_to(c@, terms)(before.jobs[k]),
            decreases self.jobs@.len() - i,
        {
            assert(before.jobs[i as int] == self.jobs@[i as int]@);
            out.push(lease(&self.jobs[i], c, owner, token, until, now));
            i = i + 1;
        }
        self.jobs = out;
        proof {
            assert(self@.jobs =~= before.jobs.map_values(lease_to(c@, terms)));
            lemma_states();
            assert forall|k: int|
                0 <= k < self@.jobs.len() && claimable(now as int)(
                    #[trigger] self@.jobs[k],
                ) implies self@.jobs[k].attempts < i64::MAX by {
                assert(self@.jobs[k] == lease_to(c@, terms)(before.jobs[k]));
            }
        }
        matching == 1
    }

    /// Claims due jobs for a worker at a given time.
    pub fn claim_index_jobs_at(
        &mut self,
        worker_id: &str,
        limit: usize,
        lease_millis: u128,
        now: i64,
    ) -> (r: Result<Vec<ClaimedIndexJob>, Error>)
        requires
            model::all_rows(old(self)@.jobs, countable()),
        ensures
            match error::either(
                claim_refusal(worker_id@, limit as int, lease_millis as int),
                claim_refusal_at(limit as int, lease_millis as int, now as int),
            ) {
                Some(message) => (r matches Err(e) && e@ == message) && *final(self) == *old(self),
                None => {
                    &&& r matches Ok(claimed) && claims(
                        old(self)@.jobs,
                        final(self)@.jobs,
                        model::views(claimed@),
                        worker_id@,
                        limit as int,
                        lease_millis as int,
                        now as int,
                    )
                    &&& final(self)@ == (StoreView { jobs: final(self)@.jobs, ..old(self)@ })
                },
            },
            old(self)@.wf() ==> final(self)@.wf(),
    {
        let ghost before = self@;
        validate_claim(worker_id, limit, lease_millis)?;
        let owner: String = trim(worker_id);
        if now as i128 + lease_millis as i128 > 0x7fff_ffff_ffff_ffff {
            return Err(Error::new("index job lease timestamp overflow"));
        }
        let until: i64 = (now as i128 + lease_millis as i128) as i64;
        to_i64(limit as u128)?;
        let candidates: Vec<IndexJob> = self.claim_candidates(limit, now);
        let mut claimed: Vec<ClaimedIndexJob> = Vec::new();
        let ghost mut tokens: Seq<Seq<char>> = Seq::empty();
        let ghost cands = model::views(candidates@);
        proof {
            lemma_candidates(before.jobs, cands, limit as int, now as int);
            assert(cands.take(0) =~= Seq::<JobView>::empty());
            assert(model::views(claimed@) =~= Seq::<ClaimedView>::empty());
        }
        let mut i: usize = 0;
        while i < candidates.len()
            invariant
                i <= candidates@.len(),
                until > now,
                cands == model::views(candidates@),
                tokens.len() == i,
                forall|k: int| 0 <= k < tokens.len() ==> clock::drawn(#[trigger] tokens[k]),
                forall|k: int| 0 <= k < cands.len() ==> (#[trigger] cands[k]).attempts < i64::MAX,
                self@ == (StoreView { jobs: self@.jobs, ..before }),
                claim_all(
                    before.jobs,
                    cands.take(i as int),
                    owner@,
                    tokens,
                    until as int,
                    now as int,
                ) == (ClaimView { jobs: self@.jobs, claimed: model::views(claimed@) }),
                forall|k: int|
                    0 <= k < self@.jobs.len() && claimable(now as int)(
                        #[trigger] self@.jobs[k],
                    ) ==> self@.jobs[k].attempts < i64::MAX,
                before.wf() ==> self@.jobs_wf(),
            decreases candidates@.len() - i,
        {
            let c: &IndexJob = &candidates[i];
            let token: String = draw_id();
            let ghost jobs_before = self@;
            let ghost old_tokens = tokens;
            let ghost old_claimed = claimed@;
            assert(cands[i as int] == c@);
            let one: bool = self.lease_job(c, owner.as_str(), token.as_str(), until, now);
            proof {
                tokens = tokens.push(token@);
                lemma_claim_all_prefix(
                    before.jobs,
                    cands.take(i as int),
                    owner@,
                    old_tokens,
                    tokens,
                    until as int,
                    now as int,
                );
                assert(cands.take(i + 1).drop_last() =~= cands.take(i as int));
                if before.wf() {
                    lemma_leased_wf(
                        jobs_before,
                        c@,
                        LeaseView {
                            owner: owner@,
                            token: token@,
                            until: until as int,
                            now: now as int,
                        },
                    );
                }
            }
            if one {
                claimed.push(
                    ClaimedIndexJob {
                        id: c.id.clone(),
                        entity_type: c.entity_type.clone(),
                        entity_id: c.entity_id.clone(),
                        index_kind: c.index_kind.clone(),
                        generation: c.generation,
                        attempts: c.attempts + 1,
                        lease_owner: owner.clone(),
                        lease_token: token,
                        lease_until: until,
                    },
                );
                assert(model::views(claimed@) =~= model::views(old_claimed).push(
                    claimed@.last()@,
                ));
            }
            i = i + 1;
        }
        proof {
            assert(cands.take(i as int) =~= cands);
            assert(claims(
                before.jobs,
                self@.jobs,
                model::views(claimed@),
                worker_id@,
                limit as int,
                lease_millis as int,
                now as int,
            ));
        }
        Ok(claimed)
    }

    /// Claims due jobs for a worker, under a lease of the given length.
    pub fn claim_index_jobs(&mut self, worker_id: &str, limit: usize, lease_millis: u128) -> (r:
        Result<Vec<ClaimedIndexJob>, Error>)
        requires
            model::all_rows(old(self)@.jobs, countable()),
        ensures
            match claim_refusal(worker_id@, limit as int, lease_millis as int) {
                Some(message) => (r matches Err(e) && e@ == message) && *final(self) == *old(self),
                None => match r {
                    Ok(claimed) => {
                        &&& exists|now: int|
                            clock::clock_time(now) && claim_refusal_at(
                                limit as int,
                                lease_millis as int,
                                now,
                            ) is None && #[trigger] claims(
                                old(self)@.jobs,
                                final(self)@.jobs,
                                model::views(claimed@),
                                worker_id@,
                                limit as int,
                                lease_millis as int,
                                now,
                            )
                        &&& final(self)@ == (StoreView { jobs: final(self)@.jobs, ..old(self)@ })
                    },
                    Err(e) => {
                        &&& clock::clock_refusal(e@) || exists|now: int|
                            clock::clock_time(now) && #[trigger] claim_refusal_at(
                                limit as int,
                                lease_millis as int,
                                now,
                            ) == Some(e@)
                        &&& *final(self) == *old(self)
                    },
                },
            },
            old(self)@.wf() ==> final(self)@.wf(),
    {
        validate_claim(worker_id, limit, lease_millis)?;
        let now: i64 = unix_millis()?;
        let ghost refused = claim_refusal_at(limit as int, lease_millis as int, now as int);
        self.claim_index_jobs_at(worker_id, limit, lease_millis, now)
    }
}

/// Why the end of a job is refused.
pub open spec fn completion_refusal(
    job_id: Seq<char>,
    generation: int,
    lease_token: Seq<char>,
) -> Option<Seq<char>> {
    if text::blank(job_id) {
        Some("index job identifier cannot be empty"@)
    } else if generation <= 0 {
        Some("index job generation must be greater than zero"@)
    } else if text::blank(lease_token) {
        Some("index job lease token cannot be empty"@)
    } else {
        None
    }
}

/// Checks the end of a job.
fn validate_completion(job_id: &str, generation: i64, lease_token: &str) -> (r: Result<(), Error>)
    ensures
        error::refusal(r) == completion_refusal(job_id@, generation as int, lease_token@),
{
    if is_blank(job_id) {
        return Err(Error::new("index job identifier cannot be empty"));
    }
    if generation <= 0 {
        return Err(Error::new("index job generation must be greater than zero"));
    }
    if is_blank(lease_token) {
        return Err(Error::new("index job lease token cannot be empty"));
    }
    Ok(())
}

/// Selects the running job under a lease.
pub open spec fn under_lease(id: Seq<char>, generation: int, token: Seq<char>) -> spec_fn(
    JobView,
) -> bool {
    |j: JobView| j.id == id && j.generation == generation && j.state == "running"@ && j.lease_token
        == Some(token)
}

/// Selects the jobs that are not under a lease.
pub open spec fn not_under_lease(id: Seq<char>, generation: int, token: Seq<char>) -> spec_fn(
    JobView,
) -> bool {
    |j: JobView| !under_lease(id, generation, token)(j)
}

/// A job after its worker gave it back, if it is under the lease of the worker.
pub open spec fn release(
    id: Seq<char>,
    generation: int,
    token: Seq<char>,
    message: Seq<char>,
    available_at: int,
    now: int,
) -> spec_fn(JobView) -> JobView {
    |j: JobView|
        if under_lease(id, generation, token)(j) {
            JobView {
                state: "pending"@,
                available_at,
                lease_owner: None,
                lease_token: None,
                lease_until: None,
                last_error: Some(message),
                updated_at: now,
                ..j
            }
        } else {
            j
        }
}

/// Why giving a job back is refused for the delay.
pub open spec fn delay_refusal(delay_millis: int, now: int) -> Option<Seq<char>> {
    if delay_millis > i64::MAX {
        Some(clock::out_of_range())
    } else if now + delay_millis > i64::MAX {
        Some("index job retry timestamp overflow"@)
    } else {
        None
    }
}

/// Tells whether a job is under a lease.
fn is_under_lease(j: &IndexJob, id: &str, generation: i64, token: &str) -> (r: bool)
    ensures
        r == under_lease(id@, generation as int, token@)(j@),
{
    let held: bool = match &j.lease_token {
        Some(given) => same(given.as_str(), token),
        None => false,
    };
    same(j.id.as_str(), id) && j.generation == generation && same(j.state.as_str(), "running")
        && held
}

impl Store {
    /// Number of jobs under a lease.
    fn count_under_lease(&self, job_id: &str, generation: i64, lease_token: &str) -> (r: usize)
        ensures
            r == self@.jobs.filter(
                under_lease(job_id@, generation as int, lease_token@),
            ).len(),
    {
        let ghost p = under_lease(job_id@, generation as int, lease_token@);
        let test = |j: &IndexJob| -> (r: bool)
            ensures
                r == under_lease(job_id@, generation as int, lease_token@)(j@),
            { is_under_lease(j, job_id, generation, lease_token) };
        count(&self.jobs, test, Ghost(p))
    }

    /// Removes a job that its worker finished. Tells whether exactly one job was
    /// under the lease of the worker.
    pub fn complete_index_job(&mut self, job_id: &str, generation: i64, lease_token: &str) -> (r:
        Result<bool, Error>)
        ensures
            match completion_refusal(job_id@, generation as int, lease_token@) {
                Some(message) => (r matches Err(e) && e@ == message) && *final(self) == *old(self),
                None => {
                    &&& r matches Ok(done) && done == (old(self)@.jobs.filter(
                        under_lease(job_id@, generation as int, lease_token@),
                    ).len() == 1)
                    &&& final(self)@ == (StoreView {
                        jobs: old(self)@.jobs.filter(
                            not_under_lease(job_id@, generation as int, lease_token@),
                        ),
                        ..old(self)@
                    })
                },
            },
            old(self)@.wf() ==> final(self)@.wf(),
    {
        let ghost before = self@;
        validate_completion(job_id, generation, lease_token)?;
        let matching: usize = self.count_under_lease(job_id, generation, lease_token);
        let ghost p = not_under_lease(job_id@, generation as int, lease_token@);
        let test = |j: &IndexJob| -> (r: bool)
            ensures
                r == not_under_lease(job_id@, generation as int, lease_token@)(j@),
            { !is_under_lease(j, job_id, generation, lease_token) };
        self.jobs = select(&self.jobs, test, Ghost(p));
        proof {
            if before.wf() {
                lemma_filtered_jobs_wf(before, p);
            }
        }
        Ok(matching == 1)
    }

    /// Gives a job back at a given time, to be claimed again after a delay. Tells
    /// whether exactly one job was under the lease of the worker.
    pub fn retry_index_job_at(
        &mut self,
        job_id: &str,
        generation: i64,
        lease_token: &str,
        error: &str,
        delay_millis: u128,
        now: i64,
    ) -> (r: Result<bool, Error>)
        ensures
            match error::either(
                completion_refusal(job_id@, generation as int, lease_token@),
                delay_refusal(delay_millis as int, now as int),
            ) {
                Some(message) => (r matches Err(e) && e@ == message) && *final(self) == *old(self),
                None => {
                    &&& r matches Ok(done) && done == (old(self)@.jobs.filter(
                        under_lease(job_id@, generation as int, lease_token@),
                    ).len() == 1)
                    &&& final(self)@ == (StoreView {
                        jobs: old(self)@.jobs.map_values(
                            release(
                                job_id@,
                                generation as int,
                                lease_token@,
                                error@,
                                now + delay_millis,
                                now as int,
                            ),
                        ),
                        ..old(self)@
                    })
                },
            },
            old(self)@.wf() ==> final(self)@.wf(),
    {
        let ghost before = self@;
        validate_completion(job_id, generation, lease_token)?;
        let delay: i64 = to_i64(delay_millis)?;
        if now as i128 + delay as i128 > 0x7fff_ffff_ffff_ffff {
            return Err(Error::new("index job retry timestamp overflow"));
        }
        let available_at: i64 = (now as i128 + delay as i128) as i64;
        let matching: usize = self.count_under_lease(job_id, generation, lease_token);
        let ghost g = release(
            job_id@,
            generation as int,
            lease_token@,
            error@,
            now + delay_millis,
            now as int,
        );
        let change = |j: &IndexJob| -> (r: IndexJob)
            ensures
                r@ == release(
                    job_id@,
                    generation as int,
                    lease_token@,
                    error@,
                    available_at as int,
                    now as int,
                )(j@),
            {
                let mut out: IndexJob = j.duplicate();
                if is_under_lease(j, job_id, generation, lease_token) {
                    out.state = "pending".to_owned();
                    out.available_at = available_at;
                    out.lease_owner = None;
                    out.lease_token = None;
                    out.lease_until = None;
                    out.last_error = Some(error.to_owned());
                    out.updated_at = now;
                }
                out
            };
        self.jobs = rewrite(&self.jobs, change, Ghost(g));
        proof {
            if before.wf() {
                lemma_changed_jobs_wf(before, g);
            }
        }
        Ok(matching == 1)
    }

    /// Gives a job back, to be claimed again after a delay.
    pub fn retry_index_job(
        &mut self,
        job_id: &str,
        generation: i64,
        lease_token: &str,
        error: &str,
        delay_millis: u128,
    ) -> (r: Result<bool, Error>)
        ensures
            match completion_refusal(job_id@, generation as int, lease_token@) {
                Some(message) => (r matches Err(e) && e@ == message) && *final(self) == *old(self),
                None => match r {
                    Ok(done) => {
                        &&& done == (old(self)@.jobs.filter(
                            under_lease(job_id@, generation as int, lease_token@),
                        ).len() == 1)
                        &&& exists|now: int|
                            clock::clock_time(now) && delay_refusal(delay_millis as int, now) is None
                                && final(self)@ == (StoreView {
                                jobs: old(self)@.jobs.map_values(
                                    #[trigger] release(
                                        job_id@,
                                        generation as int,
                                        lease_token@,
                                        error@,
                                        now + delay_millis,
                                        now,
                                    ),
                                ),
                                ..old(self)@
                            })
                    },
                    Err(e) => {
                        &&& clock::clock_refusal(e@) || exists|now: int|
                            clock::clock_time(now) && #[trigger] delay_refusal(delay_millis as int, now) == Some(
                                e@,
                            )
                        &&& *final(self) == *old(self)
                    },
                },
            },
            old(self)@.wf() ==> final(self)@.wf(),
    {
        validate_completion(job_id, generation, lease_token)?;
        let now: i64 = unix_millis()?;
        let ghost refused = delay_refusal(delay_millis as int, now as int);
        self.retry_index_job_at(job_id, generation, lease_token, error, delay_millis, now)
    }
}

/// Removing jobs keeps the constraints.
pub proof fn lemma_filtered_jobs_wf(s: StoreView, p: spec_fn(JobView) -> bool)
    requires
        s.wf(),
    ensures
        (StoreView { jobs: s.jobs.filter(p), ..s }).wf(),
{
    let t = StoreView { jobs: s.jobs.filter(p), ..s };
    model::lemma_distinct_filter(s.jobs, p, id_key());
    model::lemma_filter_contains(s.jobs, p);
    assert forall|i: int| 0 <= i < t.jobs.len() implies {
        &&& consistent()(#[trigger] t.jobs[i])
        &&& model::any_row(t.memories, memory::active_with(t.jobs[i].entity_id))
    } by {
        assert(p(t.jobs[i]));
        let k = choose|k: int| 0 <= k < s.jobs.len() && s.jobs[k] == t.jobs[i];
        assert(consistent()(s.jobs[k]));
        assert(model::any_row(s.memories, memory::active_with(s.jobs[k].entity_id)));
    }
    assert(t.embeddings_wf());
}

/// Changing jobs without giving them to other memories keeps the constraints.
pub proof fn lemma_changed_jobs_wf(s: StoreView, g: spec_fn(JobView) -> JobView)
    requires
        s.wf(),
        forall|j: JobView|
            (#[trigger] g(j)).id == j.id && g(j).entity_id == j.entity_id && (consistent()(j)
                ==> consistent()(g(j))),
    ensures
        (StoreView { jobs: s.jobs.map_values(g), ..s }).wf(),
{
    let t = StoreView { jobs: s.jobs.map_values(g), ..s };
    model::lemma_distinct_map(s.jobs, g, id_key());
    assert forall|i: int| 0 <= i < t.jobs.len() implies {
        &&& consistent()(#[trigger] t.jobs[i])
        &&& model::any_row(t.memories, memory::active_with(t.jobs[i].entity_id))
    } by {
        assert(t.jobs[i] == g(s.jobs[i]));
        assert(consistent()(s.jobs[i]));
        assert(model::any_row(s.memories, memory::active_with(s.jobs[i].entity_id)));
    }
    assert(t.embeddings_wf());
}

/// Checks a claim, at any time.
fn validate_claim(worker_id: &str, limit: usize, lease_millis: u128) -> (r: Result<(), Error>)
    ensures
        error::refusal(r) == claim_refusal(worker_id@, limit as int, lease_millis as int),
{
    if is_blank(worker_id) {
        return Err(Error::new("index worker identifier cannot be empty"));
    }
    if limit == 0 {
        return Err(Error::new("index job claim limit must be greater than zero"));
    }
    if to_i64(lease_millis)? <= 0 {
        return Err(Error::new("index job lease duration must be greater than zero"));
    }
    Ok(())
}

/// The states are different words.
pub proof fn lemma_states()
    ensures
        "pending"@ != "running"@,
{
    reveal_strlit("pending");
    reveal_strlit("running");
    assert("pending"@[0] == 'p');
    assert("running"@[0] == 'r');
}

/// The first jobs that can be claimed are jobs that can be claimed.
pub proof fn lemma_candidates(jobs: Seq<JobView>, candidates: Seq<JobView>, limit: int, now: int)
    requires
        limit >= 0,
        model::ranked(candidates, jobs.filter(claimable(now)), claim_key(), limit),
    ensures
        forall|i: int|
            0 <= i < candidates.len() ==> claimable(now)(#[trigger] candidates[i])
                && jobs.contains(candidates[i]),
{
    model::law_ranked_rows(candidates, jobs.filter(claimable(now)), claim_key(), limit);
    model::lemma_filter_contains(jobs, claimable(now));
    assert forall|i: int| 0 <= i < candidates.len() implies claimable(now)(
        #[trigger] candidates[i],
    ) && jobs.contains(candidates[i]) by {
        let due = jobs.filter(claimable(now));
        let k = choose|k: int| 0 <= k < due.len() && due[k] == candidates[i];
        assert(claimable(now)(due[k]));
    }
}

/// Tokens behind the candidates do not matter.
proof fn lemma_claim_all_prefix(
    jobs: Seq<JobView>,
    candidates: Seq<JobView>,
    owner: Seq<char>,
    tokens: Seq<Seq<char>>,
    more: Seq<Seq<char>>,
    until: int,
    now: int,
)
    requires
        tokens.len() >= candidates.len(),
        more.len() >= candidates.len(),
        forall|i: int| 0 <= i < candidates.len() ==> tokens[i] == #[trigger] more[i],
    ensures
        claim_all(jobs, candidates, owner, tokens, until, now) == claim_all(
            jobs,
            candidates,
            owner,
            more,
            until,
            now,
        ),
    decreases candidates.len(),
{
    if candidates.len() > 0 {
        lemma_claim_all_prefix(jobs, candidates.drop_last(), owner, tokens, more, until, now);
        assert(tokens[candidates.len() - 1] == more[candidates.len() - 1]);
    }
}

/// Claiming a job keeps the constraints on jobs.
proof fn lemma_leased_wf(s: StoreView, c: JobView, lease: LeaseView)
    requires
        s.jobs_wf(),
    ensures
        (StoreView { jobs: s.jobs.map_values(lease_to(c, lease)), ..s }).jobs_wf(),
{
    let g = lease_to(c, lease);
    let t = StoreView { jobs: s.jobs.map_values(g), ..s };
    model::lemma_distinct_map(s.jobs, g, id_key());
    assert forall|i: int| 0 <= i < t.jobs.len() implies {
        &&& consistent()(#[trigger] t.jobs[i])
        &&& model::any_row(t.memories, memory::active_with(t.jobs[i].entity_id))
    } by {
        assert(t.jobs[i] == g(s.jobs[i]));
        assert(consistent()(s.jobs[i]));
        assert(model::any_row(s.memories, memory::active_with(s.jobs[i].entity_id)));
    }
}

/// The jobs of a queue after the memory of one changed: the job starts anew under
/// the next generation, or is queued if there was none.
pub open spec fn requeue(id: Seq<char>, now: int) -> spec_fn(JobView) -> JobView {
    |j: JobView|
        if of_memory(id)(j) {
            JobView {
                generation: j.generation + 1,
                state: "pending"@,
                attempts: 0,
                available_at: now,
                lease_owner: None,
                lease_token: None,
                lease_until: None,
                last_error: None,
                updated_at: now,
                ..j
            }
        } else {
            j
        }
}

/// The queue after a memory changed.
pub open spec fn requeued(jobs: Seq<JobView>, id: Seq<char>, now: int) -> Seq<JobView> {
    if model::any_row(jobs, of_memory(id)) {
        jobs.map_values(requeue(id, now))
    } else {
        jobs.push(queued(id, now))
    }
}

/// Selects the jobs of a memory whose generation cannot be counted further.
pub open spec fn spent(id: Seq<char>) -> spec_fn(JobView) -> bool {
    |j: JobView| of_memory(id)(j) && j.generation == i64::MAX
}

impl Store {
    /// Queues the job of a memory anew.
    pub(crate) fn requeue_job(&mut self, id: &str, now: i64)
        requires
            !model::any_row(old(self)@.jobs, spent(id@)),
        ensures
            final(self)@ == (StoreView {
                jobs: requeued(old(self)@.jobs, id@, now as int),
                ..old(self)@
            }),
    {
        let ghost before = self@;
        let mut out: Vec<IndexJob> = Vec::new();
        let mut there: bool = false;
        let mut i: usize = 0;
        while i < self.jobs.len()
            invariant
                i <= self.jobs@.len(),
                self@ == before,
                out@.len() == i,
                !model::any_row(before.jobs, spent(id@)),
                there == exists|k: int| 0 <= k < i && of_memory(id@)(#[trigger] before.jobs[k]),
                forall|k: int|
                    0 <= k < i ==> (#[trigger] out@[k])@ == requeue(id@, now as int)(
                        before.jobs[k],
                    ),
            decreases self.jobs@.len() - i,
        {
            let j: &IndexJob = &self.jobs[i];
            assert(before.jobs[i as int] == j@);
            let mut next: IndexJob = j.duplicate();
            if !is_not_of_memory(j, id) {
                assert(!spent(id@)(before.jobs[i as int]));
                there = true;
                next.generation = j.generation + 1;
                next.state = "pending".to_owned();
                next.attempts = 0;
                next.available_at = now;
                next.lease_owner = None;
                next.lease_token = None;
                next.lease_until = None;
                next.last_error = None;
                next.updated_at = now;
            }
            out.push(next);
            i = i + 1;
        }
        if there {
            self.jobs = out;
            assert(self@.jobs =~= before.jobs.map_values(requeue(id@, now as int)));
        } else {
            self.jobs.push(queue(id, now));
            assert(self@.jobs =~= before.jobs.push(queued(id@, now as int)));
        }
    }
}

/// Outcome of claiming the given jobs of a queue with distinct jobs: each of them
/// is handed out and leased, and the others are as they were.
pub proof fn lemma_claim_all(
    jobs: Seq<JobView>,
    candidates: Seq<JobView>,
    owner: Seq<char>,
    tokens: Seq<Seq<char>>,
    until: int,
    now: int,
)
    requires
        model::distinct(jobs, id_key()),
        model::distinct(candidates, id_key()),
        forall|i: int|
            0 <= i < candidates.len() ==> claimable(now)(#[trigger] candidates[i])
                && jobs.contains(candidates[i]),
        tokens.len() >= candidates.len(),
    ensures
        ({
            let out = claim_all(jobs, candidates, owner, tokens, until, now);
            &&& out.claimed.len() == candidates.len()
            &&& forall|i: int|
                0 <= i < candidates.len() ==> #[trigger] out.claimed[i] == handed(
                    candidates[i],
                    LeaseView { owner, token: tokens[i], until, now },
                )
            &&& out.jobs.len() == jobs.len()
            &&& forall|k: int|
                0 <= k < jobs.len() ==> (#[trigger] out.jobs[k]).id == jobs[k].id
            &&& forall|k: int|
                0 <= k < jobs.len() && (forall|i: int|
                    0 <= i < candidates.len() ==> (#[trigger] candidates[i]).id != jobs[k].id)
                    ==> #[trigger] out.jobs[k] == jobs[k]
            &&& forall|k: int, i: int|
                0 <= k < jobs.len() && 0 <= i < candidates.len() && (
                #[trigger] candidates[i]).id == jobs[k].id ==> #[trigger] out.jobs[k] == leased(
                    jobs[k],
                    LeaseView { owner, token: tokens[i], until, now },
                )
        }),
    decreases candidates.len(),
{
    if candidates.len() > 0 {
        let front = candidates.drop_last();
        let n = candidates.len() - 1;
        let c = candidates.last();
        assert forall|i: int| 0 <= i < front.len() implies claimable(now)(#[trigger] front[i])
            && jobs.contains(front[i]) by {
            assert(front[i] == candidates[i]);
        }
        assert forall|i: int, j: int| 0 <= i < j < front.len() implies id_key()(
            #[trigger] front[i],
        ) != id_key()(#[trigger] front[j]) by {
            assert(front[i] == candidates[i] && front[j] == candidates[j]);
        }
        lemma_claim_all(jobs, front, owner, tokens, until, now);
        let mid = claim_all(jobs, front, owner, tokens, until, now);
        let lease = LeaseView { owner, token: tokens[n], until, now };
        let p = still_claimable(c, now);
        assert(candidates[n] == c);
        let k0 = choose|k: int| 0 <= k < jobs.len() && jobs[k] == c;
        assert forall|i: int| 0 <= i < front.len() implies (#[trigger] front[i]).id
            != jobs[k0].id by {
            assert(id_key()(candidates[i]) != id_key()(candidates[n]));
        }
        assert(mid.jobs[k0] == c);
        assert(p(mid.jobs[k0]));
        assert forall|i: int, j: int| 0 <= i < j < mid.jobs.len() implies id_key()(
            #[trigger] mid.jobs[i],
        ) != id_key()(#[trigger] mid.jobs[j]) by {
            assert(id_key()(jobs[i]) != id_key()(jobs[j]));
        }
        model::lemma_first_row(mid.jobs, p);
        model::lemma_distinct_filter_len(mid.jobs, p, id_key());
        let out = claim_all(jobs, candidates, owner, tokens, until, now);
        assert(out.jobs == mid.jobs.map_values(lease_to(c, lease)));
        assert forall|k: int| 0 <= k < jobs.len() && k != k0 implies #[trigger] out.jobs[k]
            == mid.jobs[k] by {
            assert(out.jobs[k] == lease_to(c, lease)(mid.jobs[k]));
            if k < k0 {
                assert(id_key()(jobs[k]) != id_key()(jobs[k0]));
            } else {
                assert(id_key()(jobs[k0]) != id_key()(jobs[k]));
            }
        }
        assert(out.jobs[k0] == leased(c, lease));
        assert forall|k: int|
            0 <= k < jobs.len() && (forall|i: int|
                0 <= i < candidates.len() ==> (#[trigger] candidates[i]).id
                    != jobs[k].id) implies #[trigger] out.jobs[k] == jobs[k] by {
            assert(candidates[n].id != jobs[k].id);
            assert forall|i: int| 0 <= i < front.len() implies (#[trigger] front[i]).id
                != jobs[k].id by {
                assert(candidates[i].id != jobs[k].id);
            }
        }
        assert forall|k: int, i: int|
            0 <= k < jobs.len() && 0 <= i < candidates.len() && (
            #[trigger] candidates[i]).id == jobs[k].id implies #[trigger] out.jobs[k] == leased(
            jobs[k],
            LeaseView { owner, token: tokens[i], until, now },
        ) by {
            if i == n {
                if k < k0 {
                    assert(id_key()(jobs[k]) != id_key()(jobs[k0]));
                } else if k > k0 {
                    assert(id_key()(jobs[k0]) != id_key()(jobs[k]));
                }
            } else {
                assert(front[i] == candidates[i]);
                assert(id_key()(candidates[i]) != id_key()(candidates[n]));
            }
        }
        assert forall|i: int| 0 <= i < candidates.len() implies #[trigger] out.claimed[i]
            == handed(candidates[i], LeaseView { owner, token: tokens[i], until, now }) by {
            if i < n {
                assert(mid.claimed[i] == out.claimed[i]);
                assert(front[i] == candidates[i]);
            }
        }
    }
}

/// A claim hands out as many due jobs as its limit allows, no job twice. A job
/// that is handed out runs under the token of the claim and cannot be claimed
/// again before its lease is over; every other job is as it was.
pub proof fn law_claimed_jobs_are_leased(
    s: StoreView,
    after: Seq<JobView>,
    claimed: Seq<ClaimedView>,
    worker_id: Seq<char>,
    limit: int,
    lease_millis: int,
    now: int,
)
    requires
        s.wf(),
        limit >= 0,
        lease_millis > 0,
        claims(s.jobs, after, claimed, worker_id, limit, lease_millis, now),
    ensures
        claimed.len() == (if limit < s.jobs.filter(claimable(now)).len() {
            limit
        } else {
            s.jobs.filter(claimable(now)).len() as int
        }),
        forall|i: int, j: int|
            0 <= i < j < claimed.len() ==> (#[trigger] claimed[i]).id != (#[trigger] claimed[j]).id,
        after.len() == s.jobs.len(),
        forall|k: int|
            0 <= k < after.len() ==> {
                ||| #[trigger] after[k] == s.jobs[k] && forall|i: int|
                    0 <= i < claimed.len() ==> (#[trigger] claimed[i]).id != s.jobs[k].id
                ||| claimable(now)(s.jobs[k]) && !claimable(now)(after[k]) && exists|i: int|
                    0 <= i < claimed.len() && is_claim_of(
                        #[trigger] claimed[i],
                        s.jobs[k],
                        after[k],
                        text::trimmed(worker_id),
                        now + lease_millis,
                        now,
                    )
            },
{
    let (candidates, tokens) = choose|candidates: Seq<JobView>, tokens: Seq<Seq<char>>|
        {
            &&& model::ranked(candidates, s.jobs.filter(claimable(now)), claim_key(), limit)
            &&& tokens.len() == candidates.len()
            &&& forall|i: int| 0 <= i < tokens.len() ==> clock::drawn(#[trigger] tokens[i])
            &&& #[trigger] claim_all(
                s.jobs,
                candidates,
                text::trimmed(worker_id),
                tokens,
                now + lease_millis,
                now,
            ) == (ClaimView { jobs: after, claimed })
        };
    let due = s.jobs.filter(claimable(now));
    let owner = text::trimmed(worker_id);
    let until = now + lease_millis;
    lemma_states();
    lemma_candidates(s.jobs, candidates, limit, now);
    model::lemma_distinct_filter(s.jobs, claimable(now), id_key());
    model::lemma_ranked_distinct(candidates, due, claim_key(), limit, id_key());
    model::law_ranked_rows(candidates, due, claim_key(), limit);
    lemma_claim_all(s.jobs, candidates, owner, tokens, until, now);
    assert forall|i: int, j: int| 0 <= i < j < claimed.len() implies (#[trigger] claimed[i]).id != (
    #[trigger] claimed[j]).id by {
        assert(id_key()(candidates[i]) != id_key()(candidates[j]));
    }
    assert forall|k: int| 0 <= k < after.len() implies {
        ||| #[trigger] after[k] == s.jobs[k] && forall|i: int|
            0 <= i < claimed.len() ==> (#[trigger] claimed[i]).id != s.jobs[k].id
        ||| claimable(now)(s.jobs[k]) && !claimable(now)(after[k]) && exists|i: int|
            0 <= i < claimed.len() && is_claim_of(
                #[trigger] claimed[i],
                s.jobs[k],
                after[k],
                owner,
                until,
                now,
            )
    } by {
        if exists|i: int| 0 <= i < candidates.len() && (#[trigger] candidates[i]).id
            == s.jobs[k].id {
            let i = choose|i: int|
                0 <= i < candidates.len() && (#[trigger] candidates[i]).id == s.jobs[k].id;
            let at = choose|at: int| 0 <= at < s.jobs.len() && s.jobs[at] == candidates[i];
            if at < k {
                assert(id_key()(s.jobs[at]) != id_key()(s.jobs[k]));
            } else if k < at {
                assert(id_key()(s.jobs[k]) != id_key()(s.jobs[at]));
            }
            assert(candidates[i] == s.jobs[k]);
            assert(is_claim_of(claimed[i], s.jobs[k], after[k], owner, until, now));
        } else {
            assert forall|i: int| 0 <= i < claimed.len() implies (#[trigger] claimed[i]).id
                != s.jobs[k].id by {
                assert(candidates[i].id != s.jobs[k].id);
            }
        }
    }
}

/// Holds when a claim handed out a job and left it leased under the same token.
pub open spec fn is_claim_of(
    claimed: ClaimedView,
    before: JobView,
    after: JobView,
    owner: Seq<char>,
    until: int,
    now: int,
) -> bool {
    let lease = LeaseView { owner, token: claimed.lease_token, until, now };
    claimed == handed(before, lease) && after == leased(before, lease)
}

/// The end of a job under a lease that is not the current one, or for an earlier
/// generation, does nothing.
pub proof fn law_stale_leases_are_fenced(
    s: StoreView,
    j: JobView,
    generation: int,
    token: Seq<char>,
)
    requires
        s.wf(),
        s.jobs.contains(j),
        j.generation != generation || j.lease_token != Some(token),
    ensures
        s.jobs.filter(under_lease(j.id, generation, token)).len() == 0,
        s.jobs.filter(not_under_lease(j.id, generation, token)) == s.jobs,
{
    let p = under_lease(j.id, generation, token);
    let at = choose|at: int| 0 <= at < s.jobs.len() && s.jobs[at] == j;
    assert forall|i: int| 0 <= i < s.jobs.len() implies !p(#[trigger] s.jobs[i]) by {
        if i < at {
            assert(id_key()(s.jobs[i]) != id_key()(s.jobs[at]));
        } else if at < i {
            assert(id_key()(s.jobs[at]) != id_key()(s.jobs[i]));
        }
    }
    model::lemma_first_row(s.jobs, p);
    model::lemma_filter_all(s.jobs, not_under_lease(j.id, generation, token));
}

/// The job of a changed memory is queued under a new generation without a lease,
/// so that no earlier lease can end it.
pub proof fn law_requeue_fences_earlier_leases(
    jobs: Seq<JobView>,
    j: JobView,
    id: Seq<char>,
    now: int,
    token: Seq<char>,
)
    requires
        jobs.contains(j),
        of_memory(id)(j),
    ensures
        requeued(jobs, id, now).contains(requeue(id, now)(j)),
        requeue(id, now)(j).generation == j.generation + 1,
        claimable(now)(requeue(id, now)(j)),
        !under_lease(j.id, j.generation, token)(requeue(id, now)(j)),
{
    let at = choose|at: int| 0 <= at < jobs.len() && jobs[at] == j;
    assert(of_memory(id)(jobs[at]));
    assert(requeued(jobs, id, now)[at] == requeue(id, now)(j));
    lemma_states();
}

/// A job that was given back has no lease, keeps the reason, and cannot be
/// claimed before the delay is over.
pub proof fn law_retry_defers_the_next_claim(
    j: JobView,
    token: Seq<char>,
    message: Seq<char>,
    available_at: int,
    now: int,
    later: int,
)
    requires
        under_lease(j.id, j.generation, token)(j),
    ensures
        ({
            let after = release(j.id, j.generation, token, message, available_at, now)(j);
            &&& after.lease_owner is None && after.lease_token is None && after.lease_until is None
            &&& after.last_error == Some(message)
            &&& claimable(later)(after) <==> available_at <= later
        }),
{
    lemma_states();
}

/// A leased job can be claimed again exactly when its lease is over.
pub proof fn law_expired_leases_can_be_reclaimed(j: JobView, lease: LeaseView, later: int)
    ensures
        claimable(later)(leased(j, lease)) <==> lease.until <= later,
{
    lemma_states();
}

} // verus!
