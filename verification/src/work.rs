//! Whole jobs: scanning, then running what the scan came to, and for a move
//! between backends deleting the originals afterwards.

use vstd::prelude::*;

use crate::job;
use crate::job::{JobError, JobOp, JobProgress, JobRun, OpResult, SyncPlan};
use crate::path::VfsPath;
use crate::scan;
use crate::scan::{Scan, ScanRequest, Side};
use crate::scan_laws;
use crate::vfs::{EntryMeta, VfsResult};

verus! {

/// What a job is for.
pub enum WorkKind {
    Copy,
    Delete,
    /// A move within one backend.
    Rename,
    /// A move between two backends: a copy, and then the deletion of `items`
    /// where they came from.
    MoveAcross { items: Vec<VfsPath> },
    /// The second half of a move between two backends.
    DeleteSource,
    /// Finding out what a sync would do.
    ScanSync,
    /// Applying an approved sync plan.
    ExecuteSync,
}

impl WorkKind {
    /// Where a job deletes: on its only side, or where its items came from.
    pub open spec fn deletes_on(self) -> Side {
        if self is DeleteSource {
            Side::Src
        } else {
            Side::Dst
        }
    }
}

/// How far a job has got.
pub enum Stage {
    /// Nothing is done if the job has been cancelled before it began.
    Precheck(Scan),
    Scan(Scan),
    Run(JobRun),
    Ended(Result<(), JobError>),
}

/// What a job needs next.
pub enum WorkStep {
    /// An answer to a question.
    Ask(ScanRequest),
    /// An operation.
    Do(JobOp),
    /// Nothing from outside: it can go on by itself.
    GoOn,
    /// Nothing any more.
    End,
}

/// A job under way.
pub struct Work {
    pub kind: WorkKind,
    pub stage: Stage,
    /// What a finished sync scan came to.
    pub plan: Option<SyncPlan>,
}

impl Work {
    /// Whether a run that is under way is in order: that of a move between
    /// backends is strict, so that it ends well only with everything copied.
    pub open spec fn is_valid(self) -> bool {
        self.stage matches Stage::Run(run) ==> run.is_valid() && (self.kind is MoveAcross
            ==> run.strict)
    }

    /// Whether the job can go on by itself.
    pub open spec fn can_go_on(self) -> bool {
        match self.stage {
            Stage::Scan(s) => s@.pending() is None,
            Stage::Run(run) => run.ended is Some,
            _ => false,
        }
    }

    /// Whether the job needs this next.
    pub open spec fn needs(self, step: WorkStep) -> bool {
        match self.stage {
            Stage::Precheck(_) => step matches WorkStep::Do(op) && op is CheckCancel,
            Stage::Scan(s) => match s@.pending() {
                Some(ask) => step matches WorkStep::Ask(request) && request.ask() == ask,
                None => step is GoOn,
            },
            Stage::Run(run) => match run.due() {
                Some(op) => step == WorkStep::Do(op),
                None => step is GoOn,
            },
            Stage::Ended(_) => step is End,
        }
    }

    /// What the job needs next.
    pub fn next(&self) -> (r: WorkStep)
        requires
            self.is_valid(),
        ensures
            self.needs(r),
            match self.stage {
                Stage::Precheck(_) => r == WorkStep::Do(JobOp::CheckCancel),
                Stage::Scan(s) => match s@.pending() {
                    Some(ask) => r matches WorkStep::Ask(request) && request.ask() == ask,
                    None => r is GoOn,
                },
                Stage::Run(run) => if run.ended is None {
                    r == WorkStep::Do(run.ops@[run.at as int])
                } else {
                    r is GoOn
                },
                Stage::Ended(_) => r is End,
            },
    {
        match &self.stage {
            Stage::Precheck(_) => WorkStep::Do(JobOp::CheckCancel),
            Stage::Scan(s) => match s.pending() {
                Some(request) => WorkStep::Ask(request),
                None => WorkStep::GoOn,
            },
            Stage::Run(run) => match run.next() {
                Some(op) => WorkStep::Do(op),
                None => WorkStep::GoOn,
            },
            Stage::Ended(_) => WorkStep::End,
        }
    }

    /// Hands an answer about one path to the scan.
    pub fn on_stat(&mut self, answer: VfsResult<EntryMeta>)
        requires
            old(self).stage matches Stage::Scan(s) && (s@.pending() matches Some(
                scan::Ask::Stat(_, _),
            )),
        ensures
            final(self).is_valid(),
            final(self).kind == old(self).kind,
            final(self).plan == old(self).plan,
            final(self).stage matches Stage::Scan(t) && t@ == scan::after_stat(
                (old(self).stage->Scan_0)@,
                answer,
            ),
    {
        match &mut self.stage {
            Stage::Scan(s) => {
                s.on_stat(answer);
            },
            _ => {},
        }
    }

    /// Hands a listing to the scan.
    pub fn on_list(&mut self, answer: VfsResult<Vec<EntryMeta>>)
        requires
            old(self).stage matches Stage::Scan(s) && (s@.pending() matches Some(
                scan::Ask::List(_, _),
            )),
        ensures
            final(self).is_valid(),
            final(self).kind == old(self).kind,
            final(self).plan == old(self).plan,
            final(self).stage matches Stage::Scan(t) && t@ == scan::after_list(
                (old(self).stage->Scan_0)@,
                scan::listing(answer),
            ),
    {
        match &mut self.stage {
            Stage::Scan(s) => {
                s.on_list(answer);
            },
            _ => {},
        }
    }

    /// Hands a file's hash to the scan.
    pub fn on_hash(&mut self, answer: VfsResult<Option<u64>>)
        requires
            old(self).stage matches Stage::Scan(s) && (s@.pending() matches Some(
                scan::Ask::Hash(_, _),
            )),
        ensures
            final(self).is_valid(),
            final(self).kind == old(self).kind,
            final(self).plan == old(self).plan,
            final(self).stage matches Stage::Scan(t) && t@ == scan::after_hash(
                (old(self).stage->Scan_0)@,
                answer,
            ),
    {
        match &mut self.stage {
            Stage::Scan(s) => {
                s.on_hash(answer);
            },
            _ => {},
        }
    }

    /// The progress of a run that is under way.
    pub fn progress(&self) -> (r: JobProgress)
        ensures
            r == (if let Stage::Run(run) = self.stage {
                run.progress
            } else {
                job::no_progress()
            }),
    {
        match &self.stage {
            Stage::Run(run) => run.progress.clone(),
            _ => JobProgress::default(),
        }
    }

    /// Takes over the progress that a transfer has made.
    pub fn set_progress(&mut self, progress: JobProgress)
        requires
            old(self).is_valid(),
            old(self).stage is Run,
        ensures
            final(self).is_valid(),
            *final(self) == (Work {
                stage: Stage::Run(JobRun { progress, ..old(self).stage->Run_0 }),
                ..*old(self)
            }),
    {
        match &mut self.stage {
            Stage::Run(run) => {
                run.progress = progress;
            },
            _ => {},
        }
    }

    /// Goes on after the operation that the job was waiting for.
    pub fn on_result(&mut self, result: OpResult)
        requires
            old(self).is_valid(),
            match old(self).stage {
                Stage::Precheck(_) => result is Done || result is Cancelled,
                Stage::Run(run) => run.ended is None,
                _ => false,
            },
        ensures
            final(self).is_valid(),
            old(self).goes_on_by(result, *final(self)),
            final(self).kind == old(self).kind,
            final(self).plan == old(self).plan,
            match old(self).stage {
                Stage::Precheck(s) => if result is Cancelled {
                    final(self).stage == Stage::Ended(Err(JobError::Cancelled))
                } else {
                    final(self).stage == Stage::Scan(s)
                },
                Stage::Run(run) => final(self).stage matches Stage::Run(after) && run.goes_to(
                    result,
                    after,
                ),
                _ => true,
            },
    {
        let mut stage = Stage::Ended(Ok(()));
        std::mem::swap(&mut self.stage, &mut stage);
        match stage {
            Stage::Precheck(s) => {
                self.stage = match result {
                    OpResult::Cancelled => Stage::Ended(Err(JobError::Cancelled)),
                    _ => Stage::Scan(s),
                };
            },
            Stage::Run(run) => {
                let mut run = run;
                run.on_result(result);
                self.stage = Stage::Run(run);
            },
            other => {
                self.stage = other;
            },
        }
    }

    /// Where a job goes by what came of the operation it was waiting for.
    pub open spec fn goes_on_by(self, result: OpResult, after: Work) -> bool {
        &&& after.kind == self.kind
        &&& after.plan == self.plan
        &&& match self.stage {
            Stage::Precheck(s) => after.stage == (if result is Cancelled {
                Stage::Ended(Err(JobError::Cancelled))
            } else {
                Stage::Scan(s)
            }),
            Stage::Run(run) => after.stage is Run && run.goes_to(result, after.stage->Run_0),
            _ => true,
        }
    }

    /// Where a job goes from a scan that has found everything.
    pub open spec fn starts_run(self, before: Work, s: Scan) -> bool {
        &&& self.kind == before.kind
        &&& match before.kind {
            WorkKind::Copy | WorkKind::MoveAcross { .. } => {
                &&& self.plan == before.plan
                &&& self.stage matches Stage::Run(run)
                &&& run.strict == (before.kind is MoveAcross)
                &&& run.stands_at(
                    job::copy_program(s.copies_found()),
                    0,
                    JobProgress {
                        files_total: job::files_among(s.copies_found()) as usize,
                        bytes_total: job::wrapped(job::bytes_among(s.copies_found())),
                        ..job::no_progress()
                    },
                )
            },
            WorkKind::ScanSync | WorkKind::ExecuteSync | WorkKind::Rename => {
                &&& self.plan matches Some(plan)
                &&& plan.copy@ == s.copies_found()
                &&& plan.delete@ == s.deletes_found()
                &&& plan.is_consistent()
                &&& self.stage matches Stage::Run(run)
                &&& !run.strict
                &&& run.stands_at(
                    seq![JobOp::Report],
                    0,
                    JobProgress {
                        files_total: plan.files_to_copy,
                        bytes_total: plan.bytes_total,
                        ..job::no_progress()
                    },
                )
            },
            WorkKind::Delete | WorkKind::DeleteSource => {
                &&& self.plan == before.plan
                &&& self.stage matches Stage::Run(run)
                &&& !run.strict
                &&& run.stands_at(
                    job::delete_program(before.kind.deletes_on(), s.deletes_found()),
                    0,
                    JobProgress {
                        files_total: s.deletes_found().len() as usize,
                        ..job::no_progress()
                    },
                )
            },
        }
    }

    /// Where a job goes from a run that has done everything: a move between
    /// backends turns to the originals, any other job is over.
    pub open spec fn follows_run(self, before: Work) -> bool {
        &&& self.plan == before.plan
        &&& match before.kind {
            WorkKind::MoveAcross { items } => {
                &&& self.kind is DeleteSource
                &&& self.stage matches Stage::Scan(s)
                &&& s@ == scan::settled(scan::delete_start(scan::path_texts(items@), Side::Src))
            },
            _ => self.kind == before.kind && self.stage == Stage::Ended(Ok(())),
        }
    }

    /// Where a job that can go on by itself goes: from a finished scan to its
    /// run, from an ended run to its next half or its end, and on any failure
    /// to its end.
    pub open spec fn advances_to(self, after: Work) -> bool {
        match self.stage {
            Stage::Scan(s) => match s@.failed {
                Some(e) => after == (Work { stage: Stage::Ended(Err(JobError::Vfs(e))), ..self }),
                None => after.starts_run(self, s),
            },
            Stage::Run(run) => match run.ended {
                Some(Err(e)) => after == (Work { stage: Stage::Ended(Err(e)), ..self }),
                _ => after.follows_run(self),
            },
            _ => after == self,
        }
    }

    /// Takes a job from a finished scan to its run, and from an ended run to
    /// its next half or its end. Any failure ends it.
    pub fn advance(&mut self)
        requires
            old(self).is_valid(),
            old(self).can_go_on(),
        ensures
            final(self).is_valid(),
            old(self).advances_to(*final(self)),
    {
        let mut stage = Stage::Ended(Ok(()));
        std::mem::swap(&mut self.stage, &mut stage);
        match stage {
            Stage::Scan(s) => match s.finish() {
                Err(e) => {
                    self.stage = Stage::Ended(Err(JobError::Vfs(e)));
                },
                Ok((copy, delete)) => match &self.kind {
                    WorkKind::Copy => {
                        self.stage = Stage::Run(job::start_copy(&copy, false));
                    },
                    WorkKind::MoveAcross { .. } => {
                        self.stage = Stage::Run(job::start_copy(&copy, true));
                    },
                    WorkKind::Delete => {
                        self.stage = Stage::Run(job::start_delete(Side::Dst, &delete));
                    },
                    WorkKind::DeleteSource => {
                        self.stage = Stage::Run(job::start_delete(Side::Src, &delete));
                    },
                    _ => {
                        let plan = SyncPlan::of(copy, delete);
                        let mut progress = JobProgress::default();
                        progress.files_total = plan.files_to_copy;
                        progress.bytes_total = plan.bytes_total;
                        let mut ops: Vec<JobOp> = Vec::new();
                        ops.push(JobOp::Report);
                        proof {
                            assert(ops@ =~= seq![JobOp::Report]);
                        }
                        self.stage = Stage::Run(JobRun::start(ops, progress, false));
                        self.plan = Some(plan);
                    },
                },
            },
            Stage::Run(run) => match run.ended {
                Some(Err(e)) => {
                    self.stage = Stage::Ended(Err(e));
                },
                _ => {
                    let next: Option<Scan> = match &self.kind {
                        WorkKind::MoveAcross { items } => Some(Scan::for_delete(items, Side::Src)),
                        _ => None,
                    };
                    match next {
                        Some(s) => {
                            self.kind = WorkKind::DeleteSource;
                            self.stage = Stage::Scan(s);
                        },
                        None => {},
                    }
                },
            },
            other => {
                self.stage = other;
            },
        }
    }

    /// How an ended job ended.
    pub fn outcome(self) -> (r: Result<(), JobError>)
        requires
            self.stage is Ended,
        ensures
            self.stage == Stage::Ended(r),
    {
        match self.stage {
            Stage::Ended(result) => result,
            _ => Ok(()),
        }
    }
}

/// A copy of `items` into the directory `dest_dir` of another backend (or
/// the same).
pub fn copy_job(items: &Vec<VfsPath>, dest_dir: &VfsPath) -> (r: Work)
    ensures
        r.is_valid(),
        r.kind is Copy,
        r.plan is None,
        r.stage matches Stage::Scan(s) && s@ == scan::settled(
            scan::copy_start(scan::path_texts(items@), dest_dir@),
        ),
{
    Work { kind: WorkKind::Copy, stage: Stage::Scan(Scan::for_copy(items, dest_dir)), plan: None }
}

/// A deletion of `items`. Its only backend counts as the destination.
pub fn delete_job(items: &Vec<VfsPath>) -> (r: Work)
    ensures
        r.is_valid(),
        r.kind is Delete,
        r.plan is None,
        r.stage matches Stage::Scan(s) && s@ == scan::settled(
            scan::delete_start(scan::path_texts(items@), Side::Dst),
        ),
{
    Work { kind: WorkKind::Delete, stage: Stage::Scan(Scan::for_delete(items, Side::Dst)), plan: None }
}

/// A move of `items` into the directory `dest_dir` of another backend: a copy
/// and then, only once that has fully succeeded, the deletion of the originals.
pub fn move_cross_backend(items: Vec<VfsPath>, dest_dir: &VfsPath) -> (r: Work)
    ensures
        r.is_valid(),
        r.kind == (WorkKind::MoveAcross { items }),
        r.plan is None,
        r.stage matches Stage::Scan(s) && s@ == scan::settled(
            scan::copy_start(scan::path_texts(items@), dest_dir@),
        ),
{
    let first = Scan::for_copy(&items, dest_dir);
    Work { kind: WorkKind::MoveAcross { items }, stage: Stage::Scan(first), plan: None }
}

/// Renamings within one backend.
pub fn move_job(pairs: &Vec<(VfsPath, VfsPath)>) -> (r: Work)
    ensures
        is_renaming(r, pairs@),
        r.is_valid(),
        r.kind is Rename,
        r.plan is None,
        r.stage matches Stage::Run(run) && !run.strict && run.stands_at(
            job::rename_program(pairs@),
            0,
            JobProgress { files_total: pairs@.len() as usize, ..job::no_progress() },
        ),
{
    Work { kind: WorkKind::Rename, stage: Stage::Run(job::start_rename(pairs)), plan: None }
}

/// A scan of what a sync would do.
pub fn build_sync_plan(src_root: &VfsPath, dst_root: &VfsPath, delete_extraneous: bool) -> (r: Work)
    ensures
        r.is_valid(),
        r.kind is ScanSync,
        r.plan is None,
        r.stage matches Stage::Precheck(s) && s@ == scan::sync_start(
            src_root@,
            dst_root@,
            delete_extraneous,
        ),
{
    let first = Scan::for_sync(src_root, dst_root, delete_extraneous);
    Work { kind: WorkKind::ScanSync, stage: Stage::Precheck(first), plan: None }
}

/// The application of an approved plan.
pub fn execute_sync_plan(plan: &SyncPlan) -> (r: Work)
    ensures
        is_application(r, *plan),
        r.is_valid(),
        r.kind is ExecuteSync,
        r.plan is None,
        r.stage matches Stage::Run(run) && !run.strict && run.stands_at(
            job::sync_program(*plan),
            0,
            JobProgress {
                files_total: plan.files_to_copy,
                bytes_total: plan.bytes_total,
                ..job::no_progress()
            },
        ),
{
    Work { kind: WorkKind::ExecuteSync, stage: Stage::Run(job::start_sync(plan)), plan: None }
}

/// The plan of a sync holds exactly what its scan has found.
pub proof fn law_plan_is_what_was_found(before: Work, after: Work)
    requires
        before.kind is ScanSync,
        before.stage is Scan,
        (before.stage->Scan_0)@.failed is None,
        before.advances_to(after),
    ensures
        after.plan is Some,
        scan::copies_planned(after.plan->0.copy@) == (before.stage->Scan_0)@.found.copy,
        scan::deletes_planned(after.plan->0.delete@) == (before.stage->Scan_0)@.found.delete,
        after.plan->0.is_consistent(),
{
    before.stage->Scan_0.law_found();
}

/// A sync scan that cannot find deletions comes to a plan without any.
pub proof fn law_plan_without_deletions(before: Work, after: Work)
    requires
        before.kind is ScanSync,
        before.stage is Scan,
        scan_laws::copies_only((before.stage->Scan_0)@),
        (before.stage->Scan_0)@.failed is None,
        before.advances_to(after),
    ensures
        after.plan is Some,
        after.plan->0.delete@.len() == 0,
        after.plan->0.items_to_delete == 0,
{
    before.stage->Scan_0.law_found();
}

/// Whether a job whose run is under way goes on from the `i`th state to the
/// next; a transfer may have changed the progress meanwhile.
pub open spec fn is_work_step(states: Seq<Work>, results: Seq<OpResult>, i: int) -> bool {
    &&& states[i].stage is Run
    &&& states[i + 1].stage is Run
    &&& states[i + 1].kind == states[i].kind
    &&& (states[i].stage->Run_0).ended is None
    &&& exists|progress: JobProgress|
        (#[trigger] (states[i].stage->Run_0).progressed(progress)).goes_to(
            results[i],
            states[i + 1].stage->Run_0,
        )
}

/// The originals of a move between backends are only ever deleted after the
/// whole copy has been made: then every operation of the copy was done, none
/// failed, links included, and none was cancelled. `states` are the job's states
/// during the copy, and `results` what came of the operations between them.
pub proof fn law_source_kept_until_copied(states: Seq<Work>, results: Seq<OpResult>, after: Work)
    requires
        states.len() == results.len() + 1,
        states[0].is_valid(),
        states[0].stage is Run,
        forall|i: int| 0 <= i < results.len() ==> #[trigger] is_work_step(states, results, i),
        states.last().can_go_on(),
        states.last().advances_to(after),
        !(states.last().kind is DeleteSource),
        after.kind is DeleteSource,
    ensures
        states.last().kind is MoveAcross,
        forall|i: int| 0 <= i < results.len() ==> #[trigger] results[i] is Done,
{
    lemma_kind_stays(states, results, states.len() - 1);
    let runs = Seq::new(states.len(), |i: int| states[i].stage->Run_0);
    assert forall|i: int| 0 <= i < results.len() implies #[trigger] job::is_run_step(
        runs,
        results,
        i,
    ) by {
        assert(is_work_step(states, results, i));
        let progress = choose|progress: JobProgress|
            (#[trigger] (states[i].stage->Run_0).progressed(progress)).goes_to(
                results[i],
                states[i + 1].stage->Run_0,
            );
        assert(runs[i].progressed(progress).goes_to(results[i], runs[i + 1]));
    }
    assert(runs.last() == states.last().stage->Run_0);
    job::law_strict_run_ends_well(runs, results);
}

proof fn lemma_kind_stays(states: Seq<Work>, results: Seq<OpResult>, n: int)
    requires
        states.len() == results.len() + 1,
        states[0].stage is Run,
        forall|i: int| 0 <= i < results.len() ==> #[trigger] is_work_step(states, results, i),
        0 <= n < states.len(),
    ensures
        states[n].kind == states[0].kind,
        states[n].stage is Run,
    decreases n,
{
    if n > 0 {
        lemma_kind_stays(states, results, n - 1);
        assert(is_work_step(states, results, n - 1));
    }
}

/// The second half of a move between backends looks at and removes nothing but
/// what is where the items came from.
pub proof fn law_originals_are_deleted_at_the_source(before: Work, after: Work)
    requires
        before.can_go_on(),
        before.advances_to(after),
    ensures
        before.kind is MoveAcross && after.kind is DeleteSource ==> {
            &&& after.stage matches Stage::Scan(s)
            &&& s@.pending() matches Some(ask) ==> ask == scan::Ask::Stat(
                Side::Src,
                before.kind->items@[0]@,
            )
        },
        before.kind is DeleteSource && before.stage is Scan && after.stage is Run ==> {
            let ops = (after.stage->Run_0).ops@;
            forall|i: int, path: VfsPath|
                0 <= i < ops.len() ==> !(#[trigger] job::is_removal_of(ops[i], Side::Dst, path))
        },
{
    if before.kind is MoveAcross && after.kind is DeleteSource {
        let items = scan::path_texts(before.kind->items@);
        let start = scan::delete_start(items, Side::Src);
        if items.len() > 0 {
            assert(start.todo.last() == scan::Todo::DeleteVisit { side: Side::Src, at: items[0] });
            assert(start.is_settled());
        }
    }
    if before.kind is DeleteSource && before.stage is Scan && after.stage is Run {
        let items = (before.stage->Scan_0).deletes_found();
        let ops = (after.stage->Run_0).ops@;
        assert forall|i: int, path: VfsPath| 0 <= i < ops.len() implies !(
        #[trigger] job::is_removal_of(ops[i], Side::Dst, path)) by {
            job::law_delete_only_removes(Side::Src, items, i, Side::Dst, path);
        }
    }
}

/// A sync scan that was cancelled before it began asks nothing and ends as
/// cancelled; any other begins by listing the source.
pub proof fn law_scan_can_be_cancelled(before: Work, result: OpResult, after: Work)
    requires
        before.stage is Precheck,
        before.goes_on_by(result, after),
    ensures
        result is Cancelled ==> after.stage == Stage::Ended(
            Err::<(), JobError>(JobError::Cancelled),
        ),
        !(result is Cancelled) ==> after.stage is Scan && after.stage->Scan_0
            == before.stage->Precheck_0,
        after.kind == before.kind,
{
}

/// A cancelled job does nothing more: its run is over, and the next step is its end.
pub proof fn law_cancelled_job_ends(before: Work, mid: Work, after: Work)
    requires
        before.stage is Run,
        before.goes_on_by(OpResult::Cancelled, mid),
        mid.advances_to(after),
    ensures
        mid.can_go_on(),
        after.stage == Stage::Ended(Err::<(), JobError>(JobError::Cancelled)),
        after.kind == before.kind,
{
}

/// Whether a job is one that has not begun and makes these renamings.
pub open spec fn is_renaming(work: Work, pairs: Seq<(VfsPath, VfsPath)>) -> bool {
    &&& work.kind is Rename
    &&& work.stage matches Stage::Run(run)
    &&& run.stands_at(
        job::rename_program(pairs),
        0,
        JobProgress { files_total: pairs.len() as usize, ..job::no_progress() },
    )
}

/// Whether a job is one that has not begun and applies this plan.
pub open spec fn is_application(work: Work, plan: SyncPlan) -> bool {
    &&& work.kind is ExecuteSync
    &&& work.stage matches Stage::Run(run)
    &&& run.stands_at(
        job::sync_program(plan),
        0,
        JobProgress {
            files_total: plan.files_to_copy,
            bytes_total: plan.bytes_total,
            ..job::no_progress()
        },
    )
}

/// What a job announces at its start is what it will have counted at its end: a
/// deletion and a renaming all their items, a copy all files that its scan found.
/// The application of a plan announces the plan's own figures.
pub proof fn law_totals_are_announced(
    before: Work,
    after: Work,
    renaming: Work,
    pairs: Seq<(VfsPath, VfsPath)>,
    applying: Work,
    plan: SyncPlan,
)
    ensures
        (before.kind is Delete || before.kind is DeleteSource) && before.stage is Scan && (
        before.stage->Scan_0)@.failed is None && before.advances_to(after) && (
        before.stage->Scan_0)@.found.delete.len() <= usize::MAX ==> {
            let run = after.stage->Run_0;
            &&& run.progress.files_total == job::counts_among(run.ops@)
            &&& run.progress.files_total == (before.stage->Scan_0)@.found.delete.len()
            &&& run.progress.files_done == 0
        },
        is_renaming(renaming, pairs) && pairs.len() <= usize::MAX ==> {
            let run = renaming.stage->Run_0;
            &&& run.progress.files_total == job::counts_among(run.ops@)
            &&& run.progress.files_total == pairs.len()
        },
        is_application(applying, plan) ==> {
            let run = applying.stage->Run_0;
            &&& run.progress.files_total == plan.files_to_copy
            &&& run.progress.bytes_total == plan.bytes_total
            &&& run.progress.bytes_done == 0
        },
{
    job::law_every_item_counts(Side::Dst, Seq::empty(), pairs);
    if (before.kind is Delete || before.kind is DeleteSource) && before.stage is Scan && (
    before.stage->Scan_0)@.failed is None && before.advances_to(after) {
        let s = before.stage->Scan_0;
        s.law_found();
        job::law_every_item_counts(before.kind.deletes_on(), s.deletes_found(), pairs);
        assert(s@.found.delete.len() == s.deletes_found().len());
    }
}

/// A job is asked for by exactly what it waits for: while it scans, for the answer
/// that its scan waits for, and while it runs, for the operation that its run has
/// come to.
pub proof fn law_job_needs_what_it_waits_for(work: Work, step: WorkStep)
    requires
        work.is_valid(),
        work.needs(step),
    ensures
        step is End <==> work.stage is Ended,
        step is GoOn <==> work.can_go_on(),
        step is Ask ==> work.stage is Scan,
        work.stage is Run ==> (step matches WorkStep::Do(op) ==> op == (
        work.stage->Run_0).ops@[(work.stage->Run_0).at as int]),
        work.stage is Precheck ==> (step matches WorkStep::Do(op) && op is CheckCancel),
{
}

} // verus!
