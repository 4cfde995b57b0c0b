//! What the queue of jobs is for.

use crate::clock;
use crate::index_job;
use crate::index_job::{ClaimView, ClaimedView, JobView, LeaseView};
use crate::laws::text::{
    all_space, law_blank_texts_are_white_space, law_keys_are_ordered_part_by_part,
};
use crate::model;
use crate::order;
use crate::text;
use vstd::prelude::*;

verus! {

/// Holds when no two jobs have one identifier.
pub open spec fn one_each(jobs: Seq<JobView>) -> bool {
    forall|i: int, j: int|
        0 <= i < j < jobs.len() ==> (#[trigger] jobs[i]).id != (#[trigger] jobs[j]).id
}

/// Holds of a job that a worker can take: one that waits and is due, or one whose lease is
/// over.
pub open spec fn is_due(j: JobView, now: int) -> bool {
    ||| j.state == "pending"@ && j.available_at <= now
    ||| j.state == "running"@ && j.lease_until is Some && j.lease_until->0 <= now
}

/// Holds when one job is taken no later than another: those that wait in front of those that
/// run, then what is due first, then what was changed first, then by identifier.
pub open spec fn no_later(a: JobView, b: JobView) -> bool {
    let x = a.state == "pending"@;
    let y = b.state == "pending"@;
    ||| x && !y
    ||| x == y && a.available_at < b.available_at
    ||| x == y && a.available_at == b.available_at && a.updated_at < b.updated_at
    ||| x == y && a.available_at == b.available_at && a.updated_at == b.updated_at
        && order::text_le(a.id, b.id)
}

/// Holds when the parts of two jobs that no lease touches are the same.
pub open spec fn is_same_work(a: JobView, b: JobView) -> bool {
    &&& a.id == b.id
    &&& a.entity_type == b.entity_type
    &&& a.entity_id == b.entity_id
    &&& a.index_kind == b.index_kind
}

/// Holds when a claim hands out a job for a lease.
pub open spec fn is_handed_out(
    c: ClaimedView,
    j: JobView,
    owner: Seq<char>,
    token: Seq<char>,
    until: int,
) -> bool {
    &&& c.id == j.id
    &&& c.entity_type == j.entity_type
    &&& c.entity_id == j.entity_id
    &&& c.index_kind == j.index_kind
    &&& c.generation == j.generation
    &&& c.attempts == j.attempts + 1
    &&& c.lease_owner == owner
    &&& c.lease_token == token
    &&& c.lease_until == until
}

/// Holds when a job runs for a lease that was given out at the given time.
pub open spec fn is_running(
    after: JobView,
    before: JobView,
    owner: Seq<char>,
    token: Seq<char>,
    until: int,
    now: int,
) -> bool {
    &&& is_same_work(after, before)
    &&& after.generation == before.generation
    &&& after.state == "running"@
    &&& after.attempts == before.attempts + 1
    &&& after.available_at == before.available_at
    &&& after.lease_owner == Some(owner)
    &&& after.lease_token == Some(token)
    &&& after.lease_until == Some(until)
    &&& after.last_error == before.last_error
    &&& after.updated_at == now
}

/// Holds when a claim hands out the job at a place and leaves it running under that claim.
pub open spec fn is_taken(
    c: ClaimedView,
    before: Seq<JobView>,
    after: Seq<JobView>,
    k: int,
    worker_id: Seq<char>,
    until: int,
    now: int,
) -> bool {
    let owner = text::trimmed(worker_id);
    &&& 0 <= k < before.len()
    &&& is_due(before[k], now)
    &&& is_handed_out(c, before[k], owner, c.lease_token, until)
    &&& is_running(after[k], before[k], owner, c.lease_token, until, now)
    &&& clock::drawn(c.lease_token)
}

/// Holds when a claim hands out one of the jobs.
pub open spec fn is_claim(
    c: ClaimedView,
    before: Seq<JobView>,
    after: Seq<JobView>,
    worker_id: Seq<char>,
    until: int,
    now: int,
) -> bool {
    exists|k: int| is_taken(c, before, after, k, worker_id, until, now)
}

proof fn lemma_claims(
    before: Seq<JobView>,
    after: Seq<JobView>,
    claimed: Seq<ClaimedView>,
    worker_id: Seq<char>,
    limit: int,
    lease_millis: int,
    now: int,
) -> (candidates: Seq<JobView>)
    requires
        one_each(before),
        limit >= 0,
        index_job::claims(before, after, claimed, worker_id, limit, lease_millis, now),
    ensures
        model::ranked(
            candidates,
            before.filter(index_job::claimable(now)),
            index_job::claim_key(),
            limit,
        ),
        candidates.len() == claimed.len(),
        claimed.len() <= limit,
        before.len() == after.len(),
        forall|i: int|
            0 <= i < claimed.len() ==> exists|k: int|
                is_taken(
                    claimed[i],
                    before,
                    after,
                    k,
                    worker_id,
                    now + lease_millis,
                    now,
                ) && #[trigger] before[k] == #[trigger] candidates[i],
        forall|k: int|
            0 <= k < before.len() && (forall|i: int|
                0 <= i < claimed.len() ==> (#[trigger] claimed[i]).id != before[k].id)
                ==> #[trigger] after[k] == before[k],
{
    let key = index_job::id_key();
    let (candidates, tokens) = choose|candidates: Seq<JobView>, tokens: Seq<Seq<char>>|
        {
            &&& model::ranked(
                candidates,
                before.filter(index_job::claimable(now)),
                index_job::claim_key(),
                limit,
            )
            &&& tokens.len() == candidates.len()
            &&& forall|i: int| 0 <= i < tokens.len() ==> clock::drawn(#[trigger] tokens[i])
            &&& #[trigger] index_job::claim_all(
                before,
                candidates,
                text::trimmed(worker_id),
                tokens,
                now + lease_millis,
                now,
            ) == (ClaimView { jobs: after, claimed })
        };
    let due = before.filter(index_job::claimable(now));
    let owner = text::trimmed(worker_id);
    let until = now + lease_millis;
    assert(model::distinct(before, key));
    index_job::lemma_candidates(before, candidates, limit, now);
    model::lemma_distinct_filter(before, index_job::claimable(now), key);
    model::lemma_ranked_distinct(candidates, due, index_job::claim_key(), limit, key);
    model::law_ranked_rows(candidates, due, index_job::claim_key(), limit);
    index_job::lemma_claim_all(before, candidates, owner, tokens, until, now);
    assert forall|i: int| 0 <= i < claimed.len() implies exists|k: int|
        is_taken(claimed[i], before, after, k, worker_id, until, now) && #[trigger] before[k]
            == #[trigger] candidates[i] by {
        assert(before.contains(candidates[i]));
        let k = choose|k: int| 0 <= k < before.len() && before[k] == candidates[i];
        let lease = LeaseView { owner, token: tokens[i], until, now };
        assert(claimed[i] == index_job::handed(candidates[i], lease));
        assert(candidates[i].id == before[k].id);
        assert(after[k] == index_job::leased(before[k], lease));
        assert(is_taken(claimed[i], before, after, k, worker_id, until, now));
    }
    assert forall|k: int|
        0 <= k < before.len() && (forall|i: int|
            0 <= i < claimed.len() ==> (#[trigger] claimed[i]).id
                != before[k].id) implies #[trigger] after[k] == before[k] by {
        assert forall|i: int| 0 <= i < candidates.len() implies (#[trigger] candidates[i]).id
            != before[k].id by {
            assert(claimed[i].id == candidates[i].id);
        }
    }
    candidates
}

/// A claim gives no more jobs than its limit allows. Each was due, and runs now under the
/// name of the worker and the token of the claim, until the lease is over; a job that was
/// not claimed is as it was.
pub proof fn law_claimed_jobs_were_due(
    before: Seq<JobView>,
    after: Seq<JobView>,
    claimed: Seq<ClaimedView>,
    worker_id: Seq<char>,
    limit: int,
    lease_millis: int,
    now: int,
)
    requires
        one_each(before),
        limit >= 0,
        index_job::claims(before, after, claimed, worker_id, limit, lease_millis, now),
    ensures
        claimed.len() <= limit,
        after.len() == before.len(),
        forall|i: int|
            0 <= i < claimed.len() ==> is_claim(
                #[trigger] claimed[i],
                before,
                after,
                worker_id,
                now + lease_millis,
                now,
            ),
        forall|k: int|
            0 <= k < before.len() && (forall|i: int|
                0 <= i < claimed.len() ==> (#[trigger] claimed[i]).id != before[k].id)
                ==> #[trigger] after[k] == before[k],
{
    let candidates = lemma_claims(before, after, claimed, worker_id, limit, lease_millis, now);
    assert forall|i: int| 0 <= i < claimed.len() implies is_claim(
        #[trigger] claimed[i],
        before,
        after,
        worker_id,
        now + lease_millis,
        now,
    ) by {
        let c = candidates[i];
        let k = choose|k: int|
            is_taken(claimed[i], before, after, k, worker_id, now + lease_millis, now)
                && #[trigger] before[k] == #[trigger] candidates[i];
        assert(is_taken(claimed[i], before, after, k, worker_id, now + lease_millis, now));
    }
}

/// Every job that is due is claimed, or as many as the limit allows are, none of which comes
/// later than it.
pub proof fn law_due_jobs_are_claimed(
    before: Seq<JobView>,
    after: Seq<JobView>,
    claimed: Seq<ClaimedView>,
    worker_id: Seq<char>,
    limit: int,
    lease_millis: int,
    now: int,
    k: int,
)
    requires
        one_each(before),
        limit >= 0,
        index_job::claims(before, after, claimed, worker_id, limit, lease_millis, now),
        0 <= k < before.len(),
        is_due(before[k], now),
    ensures
        ({
            ||| exists|i: int| 0 <= i < claimed.len() && (#[trigger] claimed[i]).id == before[k].id
            ||| claimed.len() == limit && forall|i: int, l: int|
                0 <= i < claimed.len() && 0 <= l < before.len() && (#[trigger] claimed[i]).id == (
                #[trigger] before[l]).id ==> no_later(before[l], before[k])
        }),
{
    let candidates = lemma_claims(before, after, claimed, worker_id, limit, lease_millis, now);
    let p = index_job::claimable(now);
    let key = index_job::claim_key();
    let due = before.filter(p);
    model::law_ranked_rows(candidates, due, key, limit);
    model::lemma_filter_contains(before, p);
    assert(p(before[k]));
    assert(due.contains(before[k]));
    let at = choose|at: int| 0 <= at < due.len() && due[at] == before[k];
    if candidates.contains(before[k]) {
        let i = choose|i: int| 0 <= i < candidates.len() && candidates[i] == before[k];
        let c = candidates[i];
        let l = choose|l: int|
            is_taken(claimed[i], before, after, l, worker_id, now + lease_millis, now)
                && #[trigger] before[l] == #[trigger] candidates[i];
        assert(claimed[i].id == before[k].id);
    } else {
        if claimed.len() != limit {
            model::lemma_ranked_all(candidates, due, key, limit, at);
        }
        assert forall|i: int, l: int|
            0 <= i < claimed.len() && 0 <= l < before.len() && (#[trigger] claimed[i]).id == (
            #[trigger] before[l]).id implies no_later(before[l], before[k]) by {
            let c = candidates[i];
            let m = choose|m: int|
                is_taken(claimed[i], before, after, m, worker_id, now + lease_millis, now)
                    && #[trigger] before[m] == #[trigger] candidates[i];
            assert(m == l);
            assert(order::key_le(key(candidates[i]), key(due[at])));
            law_keys_are_ordered_part_by_part(key(before[l]), key(before[k]));
        }
    }
}

/// Claimed jobs come in order: those that waited first, then what was due first.
pub proof fn law_claimed_jobs_are_in_order(
    before: Seq<JobView>,
    after: Seq<JobView>,
    claimed: Seq<ClaimedView>,
    worker_id: Seq<char>,
    limit: int,
    lease_millis: int,
    now: int,
    i: int,
    j: int,
    k: int,
    l: int,
)
    requires
        one_each(before),
        limit >= 0,
        index_job::claims(before, after, claimed, worker_id, limit, lease_millis, now),
        0 <= i < j < claimed.len(),
        0 <= k < before.len(),
        0 <= l < before.len(),
        claimed[i].id == before[k].id,
        claimed[j].id == before[l].id,
    ensures
        k != l,
        no_later(before[k], before[l]),
{
    let candidates = lemma_claims(before, after, claimed, worker_id, limit, lease_millis, now);
    let p = index_job::claimable(now);
    let key = index_job::claim_key();
    let due = before.filter(p);
    model::law_ranked_rows(candidates, due, key, limit);
    let m = choose|m: int|
        is_taken(claimed[i], before, after, m, worker_id, now + lease_millis, now)
            && #[trigger] before[m] == #[trigger] candidates[i];
    let n = choose|n: int|
        is_taken(claimed[j], before, after, n, worker_id, now + lease_millis, now)
            && #[trigger] before[n] == #[trigger] candidates[j];
    assert(m == k && n == l);
    model::lemma_distinct_filter(before, p, index_job::id_key());
    model::lemma_ranked_distinct(candidates, due, key, limit, index_job::id_key());
    assert(index_job::id_key()(candidates[i]) != index_job::id_key()(candidates[j]));
    law_keys_are_ordered_part_by_part(key(before[k]), key(before[l]));
}

/// Holds of the job that a worker holds: it runs, in that generation, under that token.
pub open spec fn is_held(j: JobView, id: Seq<char>, generation: int, token: Seq<char>) -> bool {
    j.id == id && j.generation == generation && j.state == "running"@ && j.lease_token == Some(
        token,
    )
}

/// Completing removes the job that is held, and only that: a job that is not held, or not in
/// that generation or under that token, stays.
pub proof fn law_completing_removes_the_held_job(
    jobs: Seq<JobView>,
    id: Seq<char>,
    generation: int,
    token: Seq<char>,
    k: int,
)
    requires
        one_each(jobs),
    ensures
        ({
            let after = jobs.filter(index_job::not_under_lease(id, generation, token));
            let found = jobs.filter(index_job::under_lease(id, generation, token)).len();
            &&& forall|j: JobView| #[trigger]
                after.contains(j) <==> jobs.contains(j) && !is_held(j, id, generation, token)
            &&& 0 <= k < jobs.len() && is_held(jobs[k], id, generation, token) ==> found == 1
                && after.len() == jobs.len() - 1
            &&& (forall|i: int|
                0 <= i < jobs.len() ==> !is_held(#[trigger] jobs[i], id, generation, token))
                ==> found == 0 && after == jobs
        }),
{
    let p = index_job::under_lease(id, generation, token);
    let q = index_job::not_under_lease(id, generation, token);
    let after = jobs.filter(q);
    model::lemma_filter_contains(jobs, p);
    model::lemma_filter_contains(jobs, q);
    assert forall|j: JobView| #[trigger] after.contains(j) <==> jobs.contains(j) && !is_held(
        j,
        id,
        generation,
        token,
    ) by {
        if after.contains(j) {
            let i = choose|i: int| 0 <= i < after.len() && after[i] == j;
            assert(q(after[i]));
        }
        if jobs.contains(j) && !is_held(j, id, generation, token) {
            let i = choose|i: int| 0 <= i < jobs.len() && jobs[i] == j;
            assert(q(jobs[i]));
        }
    }
    if 0 <= k < jobs.len() && is_held(jobs[k], id, generation, token) {
        let none = |j: JobView| false;
        let all = |j: JobView| true;
        assert forall|i: int| 0 <= i < jobs.len() && i != k implies p(#[trigger] jobs[i]) == none(
            jobs[i],
        ) by {
            assert(jobs[i].id != jobs[k].id);
        }
        model::lemma_filter_without(jobs, p, none, k);
        model::lemma_first_row(jobs, none);
        model::lemma_filter_without(jobs, all, q, k);
        model::lemma_filter_all(jobs, all);
    }
    if forall|i: int| 0 <= i < jobs.len() ==> !is_held(#[trigger] jobs[i], id, generation, token) {
        model::lemma_filter_all(jobs, q);
        model::lemma_first_row(jobs, p);
    }
}

/// A job that is given back waits again until its time, without a lease, and says what went
/// wrong; what it is, its generation and its attempts stay. Other jobs stay as they are.
pub proof fn law_retried_jobs_wait(
    jobs: Seq<JobView>,
    id: Seq<char>,
    generation: int,
    token: Seq<char>,
    message: Seq<char>,
    available_at: int,
    now: int,
    k: int,
)
    requires
        0 <= k < jobs.len(),
    ensures
        ({
            let g = index_job::release(id, generation, token, message, available_at, now);
            let after = jobs.map_values(g);
            let j = after[k];
            &&& after.len() == jobs.len()
            &&& !is_held(jobs[k], id, generation, token) ==> j == jobs[k]
            &&& is_held(jobs[k], id, generation, token) ==> {
                &&& is_same_work(j, jobs[k])
                &&& j.generation == jobs[k].generation
                &&& j.state == "pending"@
                &&& j.attempts == jobs[k].attempts
                &&& j.available_at == available_at
                &&& j.lease_owner is None
                &&& j.lease_token is None
                &&& j.lease_until is None
                &&& j.last_error == Some(message)
                &&& j.updated_at == now
            }
        }),
{
}

/// A changed memory has its job made anew: the next generation of it waits, due at once,
/// with no attempt, lease or error. Other jobs stay. A memory without a job gets one.
pub proof fn law_requeued_jobs_begin_anew(jobs: Seq<JobView>, id: Seq<char>, now: int, k: int)
    ensures
        ({
            let after = index_job::requeued(jobs, id, now);
            let some = exists|i: int|
                0 <= i < jobs.len() && (#[trigger] jobs[i]).entity_type == "memory"@
                    && jobs[i].entity_id == id;
            &&& some ==> after.len() == jobs.len()
            &&& some && 0 <= k < jobs.len() && !(jobs[k].entity_type == "memory"@
                && jobs[k].entity_id == id) ==> after[k] == jobs[k]
            &&& some && 0 <= k < jobs.len() && jobs[k].entity_type == "memory"@
                && jobs[k].entity_id == id ==> {
                let j = after[k];
                &&& is_same_work(j, jobs[k])
                &&& j.generation == jobs[k].generation + 1
                &&& j.state == "pending"@
                &&& j.attempts == 0
                &&& j.available_at == now
                &&& j.lease_owner is None
                &&& j.lease_token is None
                &&& j.lease_until is None
                &&& j.last_error is None
                &&& j.updated_at == now
            }
            &&& !some ==> after.len() == jobs.len() + 1 && (forall|i: int|
                0 <= i < jobs.len() ==> #[trigger] after[i] == jobs[i])
            &&& !some ==> crate::laws::memory::is_waiting_job(after[jobs.len() as int], id, now)
        }),
{
    let p = index_job::of_memory(id);
    let some = exists|i: int|
        0 <= i < jobs.len() && (#[trigger] jobs[i]).entity_type == "memory"@ && jobs[i].entity_id
            == id;
    if some {
        let i = choose|i: int|
            0 <= i < jobs.len() && (#[trigger] jobs[i]).entity_type == "memory"@
                && jobs[i].entity_id == id;
        assert(p(jobs[i]));
    }
    assert(some == model::any_row(jobs, p));
}

/// A claim is refused exactly when the worker has no name, the limit is zero, the lease does
/// not last, or a number is too large for the database.
pub proof fn law_sound_claims_are_accepted(
    worker_id: Seq<char>,
    limit: int,
    lease_millis: int,
    now: int,
)
    requires
        limit >= 0,
        lease_millis >= 0,
        now >= 0,
    ensures
        index_job::claim_refusal(worker_id, limit, lease_millis) is None
            && index_job::claim_refusal_at(limit, lease_millis, now) is None <==> {
            &&& !all_space(worker_id)
            &&& 0 < limit <= i64::MAX
            &&& 0 < lease_millis
            &&& now + lease_millis <= i64::MAX
        },
        all_space(worker_id) ==> index_job::claim_refusal(worker_id, limit, lease_millis) == Some(
            "index worker identifier cannot be empty"@,
        ),
        !all_space(worker_id) && limit == 0 ==> index_job::claim_refusal(
            worker_id,
            limit,
            lease_millis,
        ) == Some("index job claim limit must be greater than zero"@),
        !all_space(worker_id) && limit > 0 && lease_millis == 0 ==> index_job::claim_refusal(
            worker_id,
            limit,
            lease_millis,
        ) == Some("index job lease duration must be greater than zero"@),
{
    law_blank_texts_are_white_space(worker_id);
}

/// The end of a job is refused exactly when its identifier or its token holds nothing but
/// white space, or its generation is not positive; a retry also when its time is too late
/// for the database.
pub proof fn law_sound_ends_are_accepted(
    job_id: Seq<char>,
    generation: int,
    token: Seq<char>,
    delay_millis: int,
    now: int,
)
    requires
        delay_millis >= 0,
        now >= 0,
    ensures
        index_job::completion_refusal(job_id, generation, token) is None <==> !all_space(job_id)
            && generation > 0 && !all_space(token),
        index_job::delay_refusal(delay_millis, now) is None <==> now + delay_millis <= i64::MAX,
        all_space(job_id) ==> index_job::completion_refusal(job_id, generation, token) == Some(
            "index job identifier cannot be empty"@,
        ),
        !all_space(job_id) && generation <= 0 ==> index_job::completion_refusal(
            job_id,
            generation,
            token,
        ) == Some("index job generation must be greater than zero"@),
        !all_space(job_id) && generation > 0 && all_space(token) ==> index_job::completion_refusal(
            job_id,
            generation,
            token,
        ) == Some("index job lease token cannot be empty"@),
{
    law_blank_texts_are_white_space(job_id);
    law_blank_texts_are_white_space(token);
}

/// Jobs are counted by what they do: every job that waits is counted once as waiting, and
/// one that runs as running.
pub proof fn law_jobs_are_counted_one_by_one(jobs: Seq<JobView>, j: JobView)
    ensures
        ({
            let waiting = index_job::in_state("pending"@);
            let running = index_job::in_state("running"@);
            &&& Seq::<JobView>::empty().filter(waiting).len() == 0
            &&& Seq::<JobView>::empty().filter(running).len() == 0
            &&& jobs.push(j).filter(waiting).len() == jobs.filter(waiting).len() + (if j.state
                == "pending"@ {
                1int
            } else {
                0int
            })
            &&& jobs.push(j).filter(running).len() == jobs.filter(running).len() + (if j.state
                == "running"@ {
                1int
            } else {
                0int
            })
        }),
{
    reveal(Seq::filter);
    model::lemma_filter_push(jobs, j, index_job::in_state("pending"@));
    model::lemma_filter_push(jobs, j, index_job::in_state("running"@));
}

} // verus!
