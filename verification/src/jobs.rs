//! The jobs that are running, and how to reach them.

use vstd::prelude::*;

use crate::job::{CancellationToken, JobId};
use crate::text::owned;

verus! {

/// A job that has been started and not yet been cleared away.
pub struct JobHandle {
    pub id: JobId,
    pub cancel: CancellationToken,
    pub label: String,
}

/// Keeps track of the jobs that have been started.
pub struct JobManager {
    pub next_id: JobId,
    pub jobs: Vec<JobHandle>,
}

/// The position of the first job with this id, or -1.
pub open spec fn first_job(jobs: Seq<JobHandle>, id: JobId, from: int) -> int
    decreases jobs.len() - from,
{
    if from < 0 || from >= jobs.len() {
        -1
    } else if jobs[from].id == id {
        from
    } else {
        first_job(jobs, id, from + 1)
    }
}

/// The jobs without the first that has this id.
pub open spec fn without_job(jobs: Seq<JobHandle>, id: JobId) -> Seq<JobHandle> {
    let at = first_job(jobs, id, 0);
    if at >= 0 {
        jobs.remove(at)
    } else {
        jobs
    }
}

/// The id after another; after the largest comes zero.
pub open spec fn id_after(id: JobId) -> JobId {
    if id == u64::MAX {
        0
    } else {
        (id + 1) as u64
    }
}

/// Whether `after` is what registering a job of that label makes of `jobs`,
/// with `next_id` for the id.
pub open spec fn is_spawned_onto(
    next_id: JobId,
    jobs: Seq<JobHandle>,
    after: JobManager,
    label: Seq<char>,
) -> bool {
    &&& after.next_id == id_after(next_id)
    &&& after.jobs@.len() == without_job(jobs, next_id).len() + 1
    &&& after.jobs@.drop_last() == without_job(jobs, next_id)
    &&& after.jobs@.last().id == next_id
    &&& after.jobs@.last().label@ == label
    &&& after.jobs@.last().cancel.starts()
}

/// Whether `after` is `before` with one more job of that label.
pub open spec fn is_spawned(before: JobManager, after: JobManager, label: Seq<char>) -> bool {
    is_spawned_onto(before.next_id, before.jobs@, after, label)
}

impl JobManager {
    /// No jobs yet.
    pub fn new() -> (r: Self)
        ensures
            r.next_id == 0,
            r.jobs@.len() == 0,
            job_ids_differ(r.jobs@),
    {
        JobManager { next_id: 0, jobs: Vec::new() }
    }

    fn position(&self, id: JobId) -> (r: Option<usize>)
        ensures
            r matches Some(i) ==> i < self.jobs@.len() && first_job(self.jobs@, id, 0) == i,
            r is None ==> first_job(self.jobs@, id, 0) < 0,
    {
        let mut i: usize = 0;
        while i < self.jobs.len()
            invariant
                i <= self.jobs@.len(),
                first_job(self.jobs@, id, 0) == first_job(self.jobs@, id, i as int),
            decreases self.jobs.len() - i,
        {
            if self.jobs[i].id == id {
                return Some(i);
            }
            i += 1;
        }
        None
    }

    /// Registers a new job; the result is its id. Its cancellation token has
    /// not been cancelled.
    pub fn spawn(&mut self, label: &str) -> (r: JobId)
        ensures
            r == old(self).next_id,
            is_spawned(*old(self), *final(self), label@),
            job_ids_differ(old(self).jobs@) ==> job_ids_differ(final(self).jobs@),
    {
        let id: JobId = self.next_id;
        self.next_id = if id == u64::MAX {
            0
        } else {
            id + 1
        };
        self.reap(id);
        let ghost before = self.jobs@;
        self.jobs.push(JobHandle { id, cancel: CancellationToken::new(), label: owned(label) });
        proof {
            assert(self.jobs@.drop_last() =~= before);
            assert(is_spawned(*old(self), *self, label@));
            if job_ids_differ(old(self).jobs@) {
                law_spawn(*old(self), *self);
            }
        }
        id
    }

    /// The job with this id.
    pub open spec fn job(self, id: JobId) -> Option<JobHandle> {
        let at = first_job(self.jobs@, id, 0);
        if at >= 0 {
            Some(self.jobs@[at])
        } else {
            None
        }
    }

    /// The token of a job, to hand to it.
    pub fn token(&self, id: JobId) -> (r: Option<CancellationToken>)
        ensures
            r is Some <==> self.job(id) is Some,
            r matches Some(token) ==> token == self.job(id)->0.cancel,
            match first_job(self.jobs@, id, 0) {
                at => if at >= 0 {
                    r == Some(self.jobs@[at].cancel)
                } else {
                    r is None
                },
            },
    {
        match self.position(id) {
            Some(i) => Some(self.jobs[i].cancel.clone()),
            None => None,
        }
    }

    /// Asks a job to stop; the result says whether there is such a job.
    pub fn cancel(&self, id: JobId) -> (r: bool)
        ensures
            r == (self.job(id) is Some),
            self.job(id) matches Some(handle) ==> handle.cancel.sets(),
            r == (first_job(self.jobs@, id, 0) >= 0),
            r ==> self.jobs@[first_job(self.jobs@, id, 0)].cancel.sets(),
    {
        match self.position(id) {
            Some(i) => {
                self.jobs[i].cancel.cancel();
                true
            },
            None => false,
        }
    }

    /// The label of a job.
    pub fn label(&self, id: JobId) -> (r: Option<&String>)
        ensures
            r is Some <==> self.job(id) is Some,
            r matches Some(label) ==> *label == self.job(id)->0.label,
            match first_job(self.jobs@, id, 0) {
                at => if at >= 0 {
                    r == Some(&self.jobs@[at].label)
                } else {
                    r is None
                },
            },
    {
        match self.position(id) {
            Some(i) => Some(&self.jobs[i].label),
            None => None,
        }
    }

    /// Clears away a job that has finished.
    pub fn reap(&mut self, id: JobId)
        ensures
            final(self).next_id == old(self).next_id,
            final(self).jobs@ == without_job(old(self).jobs@, id),
            job_ids_differ(old(self).jobs@) ==> job_ids_differ(final(self).jobs@),
    {
        proof {
            if job_ids_differ(self.jobs@) {
                law_reap(self.jobs@, id);
            }
        }
        match self.position(id) {
            Some(i) => {
                let _ = self.jobs.remove(i);
            },
            None => {},
        }
    }
}

/// Whether no two jobs have the same id.
pub open spec fn job_ids_differ(jobs: Seq<JobHandle>) -> bool {
    forall|i: int, j: int|
        0 <= i < j < jobs.len() ==> (#[trigger] jobs[i]).id != (#[trigger] jobs[j]).id
}

pub proof fn lemma_first_job(jobs: Seq<JobHandle>, id: JobId, from: int)
    requires
        0 <= from <= jobs.len(),
    ensures
        first_job(jobs, id, from) >= 0 ==> from <= first_job(jobs, id, from) < jobs.len()
            && jobs[first_job(jobs, id, from)].id == id,
        first_job(jobs, id, from) < 0 ==> forall|k: int|
            from <= k < jobs.len() ==> (#[trigger] jobs[k]).id != id,
    decreases jobs.len() - from,
{
    if from < jobs.len() && jobs[from].id != id {
        lemma_first_job(jobs, id, from + 1);
    }
}

/// A new job has an id of its own, and its token is one that nobody has
/// cancelled.
pub proof fn law_spawn(before: JobManager, after: JobManager)
    requires
        job_ids_differ(before.jobs@),
        exists|label: Seq<char>| #[trigger] is_spawned(before, after, label),
    ensures
        job_ids_differ(after.jobs@),
        after.jobs@.last().cancel.starts(),
{
    let label = choose|label: Seq<char>| #[trigger] is_spawned(before, after, label);
    let kept = without_job(before.jobs@, before.next_id);
    law_reap(before.jobs@, before.next_id);
    assert(after.jobs@.drop_last() == kept);
    assert forall|i: int, j: int| 0 <= i < j < after.jobs@.len() implies (
    #[trigger] after.jobs@[i]).id != (#[trigger] after.jobs@[j]).id by {
        assert(after.jobs@.drop_last()[i] == after.jobs@[i]);
        assert(kept[i] == after.jobs@[i]);
        if j < kept.len() {
            assert(after.jobs@.drop_last()[j] == after.jobs@[j]);
            assert(kept[j] == after.jobs@[j]);
        } else {
            assert(after.jobs@[j] == after.jobs@.last());
        }
    }
}

/// Jobs keep ids of their own, a job that was cleared away is gone, and the
/// others stay.
pub proof fn law_reap(jobs: Seq<JobHandle>, id: JobId)
    requires
        job_ids_differ(jobs),
    ensures
        job_ids_differ(without_job(jobs, id)),
        forall|i: int|
            0 <= i < without_job(jobs, id).len() ==> (#[trigger] without_job(jobs, id)[i]).id != id,
        forall|i: int|
            0 <= i < jobs.len() && (#[trigger] jobs[i]).id != id ==> without_job(
                jobs,
                id,
            ).contains(jobs[i]),
{
    lemma_first_job(jobs, id, 0);
    let at = first_job(jobs, id, 0);
    let after = without_job(jobs, id);
    if at >= 0 {
        assert forall|i: int, j: int| 0 <= i < j < after.len() implies (#[trigger] after[i]).id != (
        #[trigger] after[j]).id by {
            let i0 = if i < at {
                i
            } else {
                i + 1
            };
            let j0 = if j < at {
                j
            } else {
                j + 1
            };
            assert(jobs[i0].id != jobs[j0].id);
        }
        assert forall|i: int| 0 <= i < after.len() implies (#[trigger] after[i]).id != id by {
            let i0 = if i < at {
                i
            } else {
                i + 1
            };
            if i0 < at {
                assert(jobs[i0].id != jobs[at].id);
            } else {
                assert(jobs[at].id != jobs[i0].id);
            }
        }
        assert forall|i: int| 0 <= i < jobs.len() && (#[trigger] jobs[i]).id != id implies
            after.contains(jobs[i]) by {
            if i < at {
                assert(after[i] == jobs[i]);
            } else {
                assert(after[i - 1] == jobs[i]);
            }
        }
    } else {
        assert forall|i: int| 0 <= i < jobs.len() implies after.contains(#[trigger] jobs[i]) by {
            assert(after[i] == jobs[i]);
        }
    }
}

/// A job is found by its id, and by no other.
pub proof fn law_job_is_found(jobs: Seq<JobHandle>, id: JobId, i: int)
    requires
        job_ids_differ(jobs),
        0 <= i < jobs.len(),
    ensures
        first_job(jobs, id, 0) == i <==> jobs[i].id == id,
        (forall|k: int| 0 <= k < jobs.len() ==> (#[trigger] jobs[k]).id != id) ==> first_job(
            jobs,
            id,
            0,
        ) < 0,
{
    lemma_first_job(jobs, id, 0);
    let at = first_job(jobs, id, 0);
    if at >= 0 && at != i && jobs[i].id == id {
        assert(jobs[at].id == jobs[i].id);
        if at < i {
            assert(jobs[at].id != jobs[i].id);
        } else {
            assert(jobs[i].id != jobs[at].id);
        }
    }
}

/// A new job is on the list under the id that was next, with its label, beside all
/// that were there under other ids, and the next id is another one.
pub proof fn law_spawned_job_is_listed(
    before: JobManager,
    after: JobManager,
    label: Seq<char>,
    i: int,
)
    requires
        job_ids_differ(before.jobs@),
        is_spawned(before, after, label),
    ensures
        after.jobs@.len() > 0,
        after.jobs@.last().id == before.next_id,
        after.jobs@.last().label@ == label,
        after.next_id != before.next_id,
        before.next_id < u64::MAX ==> after.next_id == before.next_id + 1,
        0 <= i < before.jobs@.len() && before.jobs@[i].id != before.next_id
            ==> after.jobs@.contains(before.jobs@[i]),
{
    law_reap(before.jobs@, before.next_id);
    let kept = without_job(before.jobs@, before.next_id);
    if 0 <= i < before.jobs@.len() && before.jobs@[i].id != before.next_id {
        assert(kept.contains(before.jobs@[i]));
        let k = choose|k: int| 0 <= k < kept.len() && kept[k] == before.jobs@[i];
        assert(after.jobs@.drop_last()[k] == kept[k]);
        assert(after.jobs@[k] == before.jobs@[i]);
    }
}

/// A job that is on the list is reached by its id, and only it; one that is not on
/// the list is not reached. A job that was just started is reached by the id that
/// was given out for it.
pub proof fn law_job_is_reached(
    manager: JobManager,
    i: int,
    id: JobId,
    after: JobManager,
    label: Seq<char>,
)
    requires
        job_ids_differ(manager.jobs@),
    ensures
        0 <= i < manager.jobs@.len() ==> manager.job(manager.jobs@[i].id) == Some(manager.jobs@[i]),
        manager.job(id) matches Some(handle) ==> handle.id == id && manager.jobs@.contains(handle),
        is_spawned(manager, after, label) ==> after.job(manager.next_id) == Some(after.jobs@.last()),
{
    if 0 <= i < manager.jobs@.len() {
        law_job_is_found(manager.jobs@, manager.jobs@[i].id, i);
    }
    lemma_first_job(manager.jobs@, id, 0);
    if is_spawned(manager, after, label) {
        law_spawned_job_is_listed(manager, after, label, 0);
        law_spawn(manager, after);
        law_job_is_found(after.jobs@, manager.next_id, after.jobs@.len() - 1);
    }
}

} // verus!
