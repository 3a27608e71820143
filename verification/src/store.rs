//! List semantics of the job store: upsert and delete, keyed by job id.
//!
//! The store's durable form is one whole file; reading and writing that file
//! is the caller's business. Here the store is the list itself, and every
//! operation says exactly which list comes out.

use vstd::prelude::*;
use vstd::pervasive::VecAdditionalExecFns;

use crate::model::{Job, JobV};

verus! {

/// The mathematical values behind a list of jobs.
pub open spec fn job_views(s: Seq<Job>) -> Seq<JobV> {
    s.map_values(|j: Job| j@)
}

/// No two entries share an id.
pub open spec fn ids_unique(s: Seq<Job>) -> bool {
    forall|i: int, j: int| 0 <= i < j < s.len() ==> s[i].id@ != s[j].id@
}

/// Some entry carries this id.
pub open spec fn has_job(s: Seq<Job>, id: Seq<char>) -> bool {
    exists|i: int| 0 <= i < s.len() && s[i].id@ == id
}

/// All entries have an in-range last run.
pub open spec fn jobs_wf(s: Seq<Job>) -> bool {
    forall|i: int| 0 <= i < s.len() ==> (#[trigger] s[i]).wf()
}

/// Replaces the first entry whose id matches `job.id` in place, else
/// appends: the upsert of the job store. Never leaves two entries with the
/// same id where there were none.
pub fn save_job(jobs: &mut Vec<Job>, job: Job)
    ensures
        has_job(old(jobs)@, job.id@) ==> exists|i: int|
            0 <= i < old(jobs)@.len() && (#[trigger] old(jobs)@[i]).id@ == job.id@ && (forall|k: int|
                0 <= k < i ==> old(jobs)@[k].id@ != job.id@) && final(jobs)@ == old(jobs)@.update(
                i,
                job,
            ),
        !has_job(old(jobs)@, job.id@) ==> final(jobs)@ == old(jobs)@.push(job),
        final(jobs)@.len() == if has_job(old(jobs)@, job.id@) {
            old(jobs)@.len()
        } else {
            old(jobs)@.len() + 1
        },
        ids_unique(old(jobs)@) ==> ids_unique(final(jobs)@),
        has_job(final(jobs)@, job.id@),
{
    let n = jobs.len();
    let mut i: usize = 0;
    while i < n
        invariant
            n == jobs@.len(),
            i <= n,
            jobs@ == old(jobs)@,
            forall|k: int| 0 <= k < i ==> old(jobs)@[k].id@ != job.id@,
        decreases n - i,
    {
        if jobs[i].id == job.id {
            let ghost prev = jobs@;
            let ghost fi = i as int;
            jobs.set(i, job);
            proof {
                assert(has_job(prev, job.id@));
                assert(jobs@[fi].id@ == job.id@);
                assert(has_job(jobs@, job.id@));
                if ids_unique(prev) {
                    assert forall|p: int, q: int| 0 <= p < q < jobs@.len() implies jobs@[p].id@
                        != jobs@[q].id@ by {
                        if p != fi && q != fi {
                            assert(prev[p].id@ != prev[q].id@);
                        } else if p == fi {
                            assert(prev[fi].id@ != prev[q].id@);
                        } else {
                            assert(prev[p].id@ != prev[fi].id@);
                        }
                    }
                }
            }
            return;
        }
        i = i + 1;
    }
    let ghost prev = jobs@;
    jobs.push(job);
    proof {
        assert(!has_job(prev, job.id@));
        assert(jobs@[prev.len() as int].id@ == job.id@);
        if ids_unique(prev) {
            assert forall|p: int, q: int| 0 <= p < q < jobs@.len() implies jobs@[p].id@
                != jobs@[q].id@ by {
                if q < prev.len() {
                    assert(prev[p].id@ != prev[q].id@);
                } else {
                    assert(!(prev[p].id@ == job.id@));
                }
            }
        }
    }
}

/// Removes every entry whose id equals `job_id`; an absent id is a no-op,
/// not an error.
pub fn delete_job(jobs: &mut Vec<Job>, job_id: &str)
    ensures
        final(jobs)@ == old(jobs)@.filter(|j: Job| j.id@ != job_id@),
        ids_unique(old(jobs)@) ==> ids_unique(final(jobs)@),
        !has_job(final(jobs)@, job_id@),
{
    let ghost orig = jobs@;
    let mut i: usize = 0;
    let ghost mut k: int = 0;
    proof {
        reveal(Seq::filter);
        assert(orig.take(0).filter(|j: Job| j.id@ != job_id@) =~= Seq::<Job>::empty());
        assert(jobs@ =~= orig.take(0).filter(|j: Job| j.id@ != job_id@) + orig.skip(0));
    }
    while i < jobs.len()
        invariant
            0 <= k <= orig.len(),
            jobs@ == orig.take(k).filter(|j: Job| j.id@ != job_id@) + orig.skip(k),
            i == orig.take(k).filter(|j: Job| j.id@ != job_id@).len(),
        decreases orig.len() - k,
    {
        proof {
            assert(jobs@[i as int] == orig.skip(k)[0]);
            assert(orig.skip(k)[0] == orig[k]);
            assert(orig.take(k + 1).drop_last() =~= orig.take(k));
            assert(orig.take(k + 1).last() == orig[k]);
        }
        let matches_id = crate::text::str_eq(jobs[i].id.as_str(), job_id);
        proof {
            assert(matches_id == (jobs@[i as int].id@ == job_id@));
            assert(jobs@[i as int] == orig[k]);
            assert((|j: Job| j.id@ != job_id@)(orig[k]) == (orig[k].id@ != job_id@));
            assert((|j: Job| j.id@ != job_id@)(orig[k]) <==> !matches_id);
        }
        if matches_id {
            let ghost before = jobs@;
            let _ = jobs.remove(i);
            proof {
                reveal(Seq::filter);
                assert(orig.take(k + 1).filter(|j: Job| j.id@ != job_id@) =~= orig.take(k).filter(|j: Job| j.id@ != job_id@));
                assert(before.remove(i as int) =~= orig.take(k + 1).filter(|j: Job| j.id@ != job_id@) + orig.skip(
                    k + 1,
                ));
                k = k + 1;
            }
        } else {
            proof {
                reveal(Seq::filter);
                assert(orig.take(k + 1).filter(|j: Job| j.id@ != job_id@) =~= orig.take(k).filter(|j: Job| j.id@ != job_id@).push(orig[k]));
                assert(jobs@ =~= orig.take(k + 1).filter(|j: Job| j.id@ != job_id@) + orig.skip(k + 1));
                k = k + 1;
            }
            i = i + 1;
        }
    }
    proof {
        assert(k == orig.len());
        assert(orig.take(orig.len() as int) =~= orig);
        assert(orig.skip(orig.len() as int) =~= Seq::<Job>::empty());
        assert(jobs@ =~= orig.filter(|j: Job| j.id@ != job_id@));
        let fin = orig.filter(|j: Job| j.id@ != job_id@);
        assert forall|p: int| 0 <= p < fin.len() implies fin[p].id@ != job_id@ by {
            orig.lemma_filter_pred(|j: Job| j.id@ != job_id@, p);
        }
        if ids_unique(orig) {
            lemma_filter_unique(orig, |j: Job| j.id@ != job_id@);
        }
    }
}

/// Every id among the kept entries was an id of the original list.
proof fn lemma_filter_ids(s: Seq<Job>, pred: spec_fn(Job) -> bool)
    ensures
        forall|i: int|
            0 <= i < s.filter(pred).len() ==> has_job(s, #[trigger] s.filter(pred)[i].id@),
    decreases s.len(),
{
    reveal(Seq::filter);
    if s.len() > 0 {
        lemma_filter_ids(s.drop_last(), pred);
        let f = s.filter(pred);
        let fp = s.drop_last().filter(pred);
        assert forall|i: int| 0 <= i < f.len() implies has_job(s, #[trigger] f[i].id@) by {
            if i < fp.len() {
                assert(has_job(s.drop_last(), fp[i].id@));
                let w = choose|w: int|
                    0 <= w < s.drop_last().len() && s.drop_last()[w].id@ == fp[i].id@;
                assert(s[w].id@ == f[i].id@);
            } else {
                assert(f[i] == s.last());
                assert(s[s.len() - 1].id@ == f[i].id@);
            }
        }
    }
}

/// Filtering keeps ids unique: the kept entries come from distinct entries
/// of a list whose ids were unique.
proof fn lemma_filter_unique(s: Seq<Job>, pred: spec_fn(Job) -> bool)
    requires
        ids_unique(s),
    ensures
        ids_unique(s.filter(pred)),
    decreases s.len(),
{
    reveal(Seq::filter);
    if s.len() > 0 {
        assert(ids_unique(s.drop_last()));
        lemma_filter_unique(s.drop_last(), pred);
        lemma_filter_ids(s.drop_last(), pred);
        let f = s.filter(pred);
        let fp = s.drop_last().filter(pred);
        if pred(s.last()) {
            assert(f == fp.push(s.last()));
            assert forall|p: int, q: int| 0 <= p < q < f.len() implies f[p].id@ != f[q].id@ by {
                if q < fp.len() {
                    assert(fp[p].id@ != fp[q].id@);
                } else {
                    assert(f[q] == s.last());
                    assert(has_job(s.drop_last(), fp[p].id@));
                    let w = choose|w: int|
                        0 <= w < s.drop_last().len() && s.drop_last()[w].id@ == fp[p].id@;
                    assert(s[w].id@ != s[s.len() - 1].id@);
                }
            }
        }
    }
}

} // verus!
