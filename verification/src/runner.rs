//! Batch planning for unattended runs.
//!
//! An unattended pass loads the job list, reads stored credentials, and —
//! when a password is present — executes every due job sequentially, one
//! job's failure never touching the others. When the password is missing
//! the pass must not run anything: it reports exactly the due subset and
//! leaves the job list as it stood, so the surrounding surface can prompt
//! for credentials instead of silently running with stale or absent ones.

use vstd::prelude::*;

use vstd::pervasive::VecAdditionalExecFns;

use crate::dates::ts_in_range;
use crate::model::{due_at_spec, Job, JobV};
use crate::store::{has_job, job_views, jobs_wf, save_job};

verus! {

/// What an unattended pass may do, decided from the stored credentials.
pub enum UnattendedPlan {
    /// No stored client id: the pass fails outright.
    MissingClientId,
    /// No stored password: nothing runs, nothing is rewritten; `pending`
    /// reports exactly the jobs that were due at that instant.
    MissingPassword { pending: Vec<Job> },
    /// Credentials are present: execute the jobs at these indices, in this
    /// order.
    Run { due: Vec<usize> },
}

/// A job value after a successful run at `now_ts`: only the last run moves.
pub open spec fn job_rerun(j: JobV, now_ts: i64) -> JobV {
    JobV { last_run: now_ts, ..j }
}

/// Decides an unattended pass from the job list, the clock, and which
/// credentials the store held.
pub fn plan_unattended(
    jobs: &Vec<Job>,
    now_ts: i64,
    have_client_id: bool,
    have_password: bool,
) -> (r: UnattendedPlan)
    requires
        ts_in_range(now_ts),
        jobs_wf(jobs@),
    ensures
        !have_client_id ==> r is MissingClientId,
        (have_client_id && !have_password) ==> (r matches UnattendedPlan::MissingPassword { pending }
            && job_views(pending@) == job_views(jobs@).filter(
            |jv: JobV| due_at_spec(jv, now_ts),
        )),
        (have_client_id && have_password) ==> (r matches UnattendedPlan::Run { due } && (forall|
            p: int,
            q: int,
        |
            0 <= p < q < due@.len() ==> due@[p] < due@[q]) && (forall|p: int|
            0 <= p < due@.len() ==> #[trigger] due@[p] < jobs@.len() && due_at_spec(
                jobs@[due@[p] as int]@,
                now_ts,
            )) && (forall|i: int|
            0 <= i < jobs@.len() && due_at_spec(#[trigger] jobs@[i]@, now_ts) ==> due@.contains(
                i as usize,
            ))),
{
    if !have_client_id {
        return UnattendedPlan::MissingClientId;
    }
    let n = jobs.len();
    if !have_password {
        let mut pending: Vec<Job> = Vec::new();
        let mut i: usize = 0;
        proof {
            reveal(Seq::filter);
            assert(job_views(pending@) =~= job_views(jobs@.take(0)).filter(
                |jv: JobV| due_at_spec(jv, now_ts),
            ));
        }
        while i < n
            invariant
                n == jobs@.len(),
                i <= n,
                ts_in_range(now_ts),
                jobs_wf(jobs@),
                job_views(pending@) == job_views(jobs@.take(i as int)).filter(
                    |jv: JobV| due_at_spec(jv, now_ts),
                ),
            decreases n - i,
        {
            let ghost prefix = job_views(jobs@.take(i as int));
            let is_due = jobs[i].should_run_now(now_ts);
            if is_due {
                pending.push(jobs[i].duplicate());
            }
            i = i + 1;
            proof {
                reveal(Seq::filter);
                let step = job_views(jobs@.take(i as int));
                assert(step.drop_last() =~= prefix);
                assert(step.last() == jobs@[i - 1]@);
                assert(job_views(pending@) =~= step.filter(|jv: JobV| due_at_spec(jv, now_ts)));
            }
        }
        proof {
            assert(jobs@.take(n as int) =~= jobs@);
        }
        return UnattendedPlan::MissingPassword { pending };
    }
    let mut due: Vec<usize> = Vec::new();
    let mut i: usize = 0;
    while i < n
        invariant
            n == jobs@.len(),
            i <= n,
            ts_in_range(now_ts),
            jobs_wf(jobs@),
            forall|p: int, q: int| 0 <= p < q < due@.len() ==> due@[p] < due@[q],
            forall|p: int| 0 <= p < due@.len() ==> #[trigger] due@[p] < i,
            forall|p: int|
                0 <= p < due@.len() ==> due_at_spec(jobs@[#[trigger] due@[p] as int]@, now_ts),
            forall|k: int|
                0 <= k < i && due_at_spec(#[trigger] jobs@[k]@, now_ts) ==> due@.contains(
                    k as usize,
                ),
        decreases n - i,
    {
        let is_due = jobs[i].should_run_now(now_ts);
        if is_due {
            let ghost before = due@;
            due.push(i);
            proof {
                assert(due@[due@.len() - 1] == i);
                assert forall|k: int|
                    0 <= k < i + 1 && due_at_spec(#[trigger] jobs@[k]@, now_ts) implies due@.contains(
                    k as usize,
                ) by {
                    if k < i {
                        let p = choose|p: int| 0 <= p < before.len() && before[p] == k as usize;
                        assert(due@[p] == k as usize);
                    } else {
                        assert(due@[due@.len() - 1] == k as usize);
                    }
                }
            }
        }
        i = i + 1;
    }
    UnattendedPlan::Run { due }
}

/// Applies a finished batch pass to the job list: each due job that
/// succeeded has its last run advanced to `now_ts`; a failed or untouched
/// job keeps its entry exactly as it was. One job's failure never reaches
/// any other entry.
pub fn apply_batch_outcomes(jobs: &mut Vec<Job>, due: &Vec<usize>, succeeded: &Vec<bool>, now_ts: i64)
    requires
        due@.len() == succeeded@.len(),
        forall|p: int| 0 <= p < due@.len() ==> #[trigger] due@[p] < old(jobs)@.len(),
        forall|p: int, q: int| 0 <= p < q < due@.len() ==> due@[p] < due@[q],
        ts_in_range(now_ts),
        forall|p: int|
            0 <= p < due@.len() ==> now_ts >= old(jobs)@[#[trigger] due@[p] as int].last_run,
    ensures
        final(jobs)@.len() == old(jobs)@.len(),
        forall|i: int|
            0 <= i < final(jobs)@.len() ==> #[trigger] final(jobs)@[i]@ == if (exists|p: int|
                0 <= p < due@.len() && due@[p] == i && succeeded@[p]) {
                job_rerun(old(jobs)@[i]@, now_ts)
            } else {
                old(jobs)@[i]@
            },
{
    let m = due.len();
    let mut p: usize = 0;
    while p < m
        invariant
            m == due@.len(),
            m == succeeded@.len(),
            p <= m,
            ts_in_range(now_ts),
            forall|q: int| 0 <= q < due@.len() ==> #[trigger] due@[q] < old(jobs)@.len(),
            forall|q: int, r: int| 0 <= q < r < due@.len() ==> due@[q] < due@[r],
            forall|q: int|
                0 <= q < due@.len() ==> now_ts >= old(jobs)@[#[trigger] due@[q] as int].last_run,
            jobs@.len() == old(jobs)@.len(),
            forall|i: int|
                0 <= i < jobs@.len() ==> #[trigger] jobs@[i]@ == if (exists|q: int|
                    0 <= q < p && due@[q] == i && succeeded@[q]) {
                    job_rerun(old(jobs)@[i]@, now_ts)
                } else {
                    old(jobs)@[i]@
                },
        decreases m - p,
    {
        if succeeded[p] {
            let idx = due[p];
            proof {
                assert forall|q: int| 0 <= q < p implies due@[q] != idx by {
                    assert(due@[q] < due@[p as int]);
                }
                assert(jobs@[idx as int]@ == old(jobs)@[idx as int]@);
            }
            let mut updated = jobs[idx].duplicate();
            updated.mark_ran(now_ts);
            let ghost before = jobs@;
            jobs.set(idx, updated);
            proof {
                assert forall|i: int| 0 <= i < jobs@.len() implies #[trigger] jobs@[i]@ == if (
                exists|q: int| 0 <= q < p + 1 && due@[q] == i && succeeded@[q]) {
                    job_rerun(old(jobs)@[i]@, now_ts)
                } else {
                    old(jobs)@[i]@
                } by {
                    if i == idx {
                        assert(due@[p as int] == i && succeeded@[p as int]);
                        assert(jobs@[i]@ == job_rerun(old(jobs)@[i]@, now_ts));
                    } else {
                        assert(jobs@[i]@ == before[i]@);
                        assert forall|q: int|
                            0 <= q < p + 1 && due@[q] == i implies 0 <= q < p by {}
                    }
                }
            }
        } else {
            proof {
                assert forall|i: int| 0 <= i < jobs@.len() implies #[trigger] jobs@[i]@ == if (
                exists|q: int| 0 <= q < p + 1 && due@[q] == i && succeeded@[q]) {
                    job_rerun(old(jobs)@[i]@, now_ts)
                } else {
                    old(jobs)@[i]@
                } by {
                    assert forall|q: int|
                        0 <= q < p + 1 && due@[q] == i && succeeded@[q] implies 0 <= q < p by {
                        assert(q != p);
                    }
                }
            }
        }
        p = p + 1;
    }
}

/// One caller-selected job ran successfully against a live session: its
/// last run advances to `now_ts` and the job is upserted into the list, so
/// persisting the list records the new value. Nothing else in the list
/// moves except the one entry this job replaces.
pub fn record_manual_success(jobs: &mut Vec<Job>, job: Job, now_ts: i64)
    requires
        ts_in_range(now_ts),
        now_ts >= job.last_run,
    ensures
        has_job(final(jobs)@, job.id@),
        ({
            let updated = job_rerun(job@, now_ts);
            if has_job(old(jobs)@, job.id@) {
                exists|i: int|
                    0 <= i < old(jobs)@.len() && (#[trigger] old(jobs)@[i]).id@ == job.id@ && (
                    forall|k: int| 0 <= k < i ==> old(jobs)@[k].id@ != job.id@) && job_views(
                        final(jobs)@,
                    ) == job_views(old(jobs)@).update(i, updated)
            } else {
                job_views(final(jobs)@) == job_views(old(jobs)@).push(updated)
            }
        }),
{
    let mut job = job;
    let ghost before = jobs@;
    let ghost target = job@;
    job.mark_ran(now_ts);
    save_job(jobs, job);
    proof {
        if has_job(before, target.id) {
            let i = choose|i: int|
                0 <= i < before.len() && (#[trigger] before[i]).id@ == target.id && (forall|k: int|
                    0 <= k < i ==> before[k].id@ != target.id) && jobs@ == before.update(
                    i,
                    jobs@[i],
                );
            assert(job_views(jobs@) =~= job_views(before).update(i, job_rerun(target, now_ts)));
        } else {
            assert(job_views(jobs@) =~= job_views(before).push(job_rerun(target, now_ts)));
        }
    }
}

} // verus!
