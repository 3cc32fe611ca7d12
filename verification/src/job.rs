//! Background jobs: what they are told, what they report, and which
//! operations they perform in which order.

use std::sync::atomic::{AtomicBool, Ordering};
use std::sync::Arc;

use vstd::prelude::*;

use crate::path::VfsPath;
use crate::scan::{Side, SyncCopyItem};
use crate::text::owned;
use crate::transfer;
use crate::vfs::{EntryKind, EntryMeta, VfsError};

verus! {

pub type JobId = u64;

/// A cheap flag a job checks periodically so its cancellation can be
/// requested from the UI thread. Clones share the flag.
pub struct CancellationToken(Arc<AtomicBool>);

impl CancellationToken {
    /// Whether the flag was made unset.
    pub closed spec fn starts(&self) -> bool {
        call_ensures(AtomicBool::new, (false,), *self.0)
    }

    /// Whether the flag has been set.
    pub closed spec fn sets(&self) -> bool {
        call_ensures(AtomicBool::store, (&*self.0, true, Ordering::SeqCst), ())
    }

    /// Whether a look at the flag has found `r`.
    pub closed spec fn finds(&self, r: bool) -> bool {
        call_ensures(AtomicBool::load, (&*self.0, Ordering::SeqCst), r)
    }

    /// A token that nobody has cancelled yet. What a later look at the shared
    /// flag finds depends on every thread that holds a clone.
    pub fn new() -> (r: Self)
        ensures
            r.starts(),
    {
        CancellationToken(Arc::new(AtomicBool::new(false)))
    }

    /// Asks the job to stop.
    pub fn cancel(&self)
        ensures
            self.sets(),
    {
        self.0.store(true, Ordering::SeqCst);
    }

    /// Whether the job has been asked to stop, by any thread that holds a clone.
    pub fn is_cancelled(&self) -> (r: bool)
        ensures
            self.finds(r),
    {
        self.0.load(Ordering::SeqCst)
    }
}

impl Clone for CancellationToken {
    fn clone(&self) -> (r: Self)
        ensures
            r == *self,
    {
        CancellationToken(self.0.clone())
    }
}

/// How far a job has got.
#[derive(Debug)]
pub struct JobProgress {
    pub bytes_done: u64,
    pub bytes_total: u64,
    pub files_done: usize,
    pub files_total: usize,
    pub current_file: Option<VfsPath>,
}

/// The progress of a job that has done nothing yet.
pub open spec fn no_progress() -> JobProgress {
    JobProgress { bytes_done: 0, bytes_total: 0, files_done: 0, files_total: 0, current_file: None }
}

impl Default for JobProgress {
    fn default() -> (r: Self)
        ensures
            r == no_progress(),
    {
        JobProgress {
            bytes_done: 0,
            bytes_total: 0,
            files_done: 0,
            files_total: 0,
            current_file: None,
        }
    }
}

impl Clone for JobProgress {
    fn clone(&self) -> (r: Self)
        ensures
            r == *self,
    {
        JobProgress {
            bytes_done: self.bytes_done,
            bytes_total: self.bytes_total,
            files_done: self.files_done,
            files_total: self.files_total,
            current_file: match &self.current_file {
                Some(p) => Some(p.clone()),
                None => None,
            },
        }
    }
}

/// How a job ended, for the UI.
#[derive(Debug)]
pub enum JobOutcome {
    Completed,
    Cancelled,
    Failed(String),
}

/// What a job tells the main loop.
#[derive(Debug)]
pub enum JobEvent {
    Progress { job_id: JobId, progress: JobProgress },
    Finished { job_id: JobId, outcome: JobOutcome },
}

/// Why a job did not complete.
#[derive(Debug)]
pub enum JobError {
    Cancelled,
    Vfs(VfsError),
}

impl JobError {
    /// The error in words.
    pub open spec fn text(self) -> Seq<char> {
        match self {
            JobError::Cancelled => "cancelled"@,
            JobError::Vfs(e) => e.text(),
        }
    }

    /// The error in words.
    pub fn message(&self) -> (r: String)
        ensures
            r@ == self.text(),
    {
        match self {
            JobError::Cancelled => owned("cancelled"),
            JobError::Vfs(e) => e.message(),
        }
    }
}

impl JobOutcome {
    /// How a job that returned `result` ended.
    pub fn from_result(result: &Result<(), JobError>) -> (r: Self)
        ensures
            is_outcome_of(r, *result),
            match *result {
                Ok(_) => r is Completed,
                Err(JobError::Cancelled) => r is Cancelled,
                Err(e) => r matches JobOutcome::Failed(why) && why@ == e.text(),
            },
    {
        match result {
            Ok(_) => JobOutcome::Completed,
            Err(JobError::Cancelled) => JobOutcome::Cancelled,
            Err(e) => JobOutcome::Failed(e.message()),
        }
    }

    /// How a job ended that panicked.
    pub fn panicked() -> (r: Self)
        ensures
            r matches JobOutcome::Failed(why) && why@ == "job panicked"@,
    {
        JobOutcome::Failed(owned("job panicked"))
    }
}

/// The result of comparing two directory trees: what to copy and what to
/// remove from the destination (contents before their directory).
#[derive(Debug)]
pub struct SyncPlan {
    pub copy: Vec<SyncCopyItem>,
    pub delete: Vec<(VfsPath, EntryMeta)>,
    pub bytes_total: u64,
    pub files_to_copy: usize,
    pub items_to_delete: usize,
}

/// How many of the items are not directories.
pub open spec fn files_among(items: Seq<SyncCopyItem>) -> nat
    decreases items.len(),
{
    if items.len() == 0 {
        0
    } else {
        files_among(items.drop_last()) + (if items.last().meta.kind is Dir {
            0nat
        } else {
            1nat
        })
    }
}

/// How many bytes the items that are not directories have together.
pub open spec fn bytes_among(items: Seq<SyncCopyItem>) -> nat
    decreases items.len(),
{
    if items.len() == 0 {
        0
    } else {
        bytes_among(items.drop_last()) + (if items.last().meta.kind is Dir {
            0nat
        } else {
            items.last().meta.size as nat
        })
    }
}

/// A count in the range of `u64`; larger ones wrap around.
pub open spec fn wrapped(n: nat) -> u64 {
    (n % 0x1_0000_0000_0000_0000) as u64
}

fn count_files(items: &Vec<SyncCopyItem>) -> (r: usize)
    ensures
        r == files_among(items@),
{
    let mut n: usize = 0;
    let mut i: usize = 0;
    while i < items.len()
        invariant
            i <= items@.len(),
            n <= i,
            n == files_among(items@.take(i as int)),
        decreases items.len() - i,
    {
        proof {
            assert(items@.take(i + 1).drop_last() == items@.take(i as int));
        }
        if !items[i].meta.kind.is_dir() {
            n += 1;
        }
        i += 1;
    }
    proof {
        assert(items@.take(i as int) == items@);
    }
    n
}

fn count_bytes(items: &Vec<SyncCopyItem>) -> (r: u64)
    ensures
        r == wrapped(bytes_among(items@)),
{
    let mut n: u64 = 0;
    let mut i: usize = 0;
    while i < items.len()
        invariant
            i <= items@.len(),
            n == wrapped(bytes_among(items@.take(i as int))),
        decreases items.len() - i,
    {
        proof {
            assert(items@.take(i + 1).drop_last() == items@.take(i as int));
        }
        if !items[i].meta.kind.is_dir() {
            n = n.wrapping_add(items[i].meta.size);
        }
        i += 1;
    }
    proof {
        assert(items@.take(i as int) == items@);
    }
    n
}

impl SyncPlan {
    /// Whether the plan's figures are those of its lists.
    pub open spec fn is_consistent(self) -> bool {
        &&& self.files_to_copy == files_among(self.copy@)
        &&& self.bytes_total == wrapped(bytes_among(self.copy@))
        &&& self.items_to_delete == self.delete@.len()
    }

    /// The plan that consists of what a scan has found.
    pub fn of(copy: Vec<SyncCopyItem>, delete: Vec<(VfsPath, EntryMeta)>) -> (r: Self)
        ensures
            r.copy == copy,
            r.delete == delete,
            r.is_consistent(),
    {
        let bytes_total: u64 = count_bytes(&copy);
        let files_to_copy: usize = count_files(&copy);
        let items_to_delete: usize = delete.len();
        SyncPlan { copy, delete, bytes_total, files_to_copy, items_to_delete }
    }

    /// Nothing to do: no confirmation dialog is needed for a no-op sync.
    pub fn is_empty(&self) -> (r: bool)
        ensures
            r == (self.copy@.len() == 0 && self.delete@.len() == 0),
    {
        self.copy.len() == 0 && self.delete.len() == 0
    }
}

/// One thing that a running job does.
#[derive(Debug)]
pub enum JobOp {
    /// Tell the main loop how far the job has got.
    Report,
    /// Stop here if the job has been cancelled.
    CheckCancel,
    /// From here on the job works on this path.
    Start { path: VfsPath },
    /// One more item is done.
    Count,
    /// Everything that removes says on which side. Whatever creates does so on
    /// the destination.
    RemoveFile { side: Side, path: VfsPath },
    RemoveDir { side: Side, path: VfsPath, recursive: bool },
    Mkdir { path: VfsPath, mode: Option<u32> },
    /// Make a link; unless the run is strict, one that cannot be made is left
    /// out.
    Symlink { target: VfsPath, link: VfsPath },
    /// Move the content of one file.
    Transfer { src: VfsPath, dst: VfsPath, mode: Option<u32> },
    Rename { from: VfsPath, to: VfsPath },
}

impl Clone for JobOp {
    fn clone(&self) -> (r: Self)
        ensures
            r == *self,
    {
        match self {
            JobOp::Report => JobOp::Report,
            JobOp::CheckCancel => JobOp::CheckCancel,
            JobOp::Start { path } => JobOp::Start { path: path.clone() },
            JobOp::Count => JobOp::Count,
            JobOp::RemoveFile { side, path } => JobOp::RemoveFile { side: *side, path: path.clone() },
            JobOp::RemoveDir { side, path, recursive } => JobOp::RemoveDir {
                side: *side,
                path: path.clone(),
                recursive: *recursive,
            },
            JobOp::Mkdir { path, mode } => JobOp::Mkdir { path: path.clone(), mode: *mode },
            JobOp::Symlink { target, link } => JobOp::Symlink {
                target: target.clone(),
                link: link.clone(),
            },
            JobOp::Transfer { src, dst, mode } => JobOp::Transfer {
                src: src.clone(),
                dst: dst.clone(),
                mode: *mode,
            },
            JobOp::Rename { from, to } => JobOp::Rename { from: from.clone(), to: to.clone() },
        }
    }
}

/// How what is in the way of a copy is removed.
pub open spec fn clear_ops(item: SyncCopyItem) -> Seq<JobOp> {
    match item.replace_existing {
        None => Seq::empty(),
        Some(old) => if old.kind is Dir {
            seq![JobOp::RemoveDir { side: Side::Dst, path: item.dst_path, recursive: true }]
        } else {
            seq![JobOp::RemoveFile { side: Side::Dst, path: item.dst_path }]
        },
    }
}

/// How a planned copy is made: directories are created, links with a known
/// target are made again, and everything else has its content moved.
pub open spec fn create_ops(item: SyncCopyItem) -> Seq<JobOp> {
    match item.meta.kind {
        EntryKind::Dir => seq![
            JobOp::Mkdir { path: item.dst_path, mode: item.meta.permissions },
        ],
        EntryKind::Symlink { target: Some(target) } => seq![
            JobOp::Symlink { target, link: item.dst_path },
        ],
        _ => seq![
            JobOp::Transfer {
                src: item.src_path,
                dst: item.dst_path,
                mode: item.meta.permissions,
            },
            JobOp::Count,
            JobOp::Report,
        ],
    }
}

/// Everything that is done for one planned copy.
pub open spec fn copy_ops(item: SyncCopyItem) -> Seq<JobOp> {
    seq![JobOp::CheckCancel] + clear_ops(item) + seq![JobOp::Start { path: item.dst_path }]
        + create_ops(item)
}

/// Everything that is done for one planned deletion.
pub open spec fn delete_ops(side: Side, item: (VfsPath, EntryMeta)) -> Seq<JobOp> {
    seq![
        JobOp::CheckCancel,
        JobOp::Start { path: item.0 },
        if item.1.kind is Dir {
            JobOp::RemoveDir { side, path: item.0, recursive: false }
        } else {
            JobOp::RemoveFile { side, path: item.0 }
        },
        JobOp::Count,
        JobOp::Report,
    ]
}

/// Everything that is done for one renaming.
pub open spec fn rename_ops(pair: (VfsPath, VfsPath)) -> Seq<JobOp> {
    seq![
        JobOp::CheckCancel,
        JobOp::Start { path: pair.1 },
        JobOp::Rename { from: pair.0, to: pair.1 },
        JobOp::Count,
        JobOp::Report,
    ]
}

/// Everything that is done for a list of planned copies, in order.
pub open spec fn all_copy_ops(items: Seq<SyncCopyItem>) -> Seq<JobOp>
    decreases items.len(),
{
    if items.len() == 0 {
        Seq::empty()
    } else {
        all_copy_ops(items.drop_last()) + copy_ops(items.last())
    }
}

/// Everything that is done for a list of planned deletions, in order.
pub open spec fn all_delete_ops(side: Side, items: Seq<(VfsPath, EntryMeta)>) -> Seq<JobOp>
    decreases items.len(),
{
    if items.len() == 0 {
        Seq::empty()
    } else {
        all_delete_ops(side, items.drop_last()) + delete_ops(side, items.last())
    }
}

/// Everything that is done for a list of renamings, in order.
pub open spec fn all_rename_ops(pairs: Seq<(VfsPath, VfsPath)>) -> Seq<JobOp>
    decreases pairs.len(),
{
    if pairs.len() == 0 {
        Seq::empty()
    } else {
        all_rename_ops(pairs.drop_last()) + rename_ops(pairs.last())
    }
}

fn push_copy_ops(out: &mut Vec<JobOp>, item: &SyncCopyItem)
    ensures
        final(out)@ == old(out)@ + copy_ops(*item),
{
    out.push(JobOp::CheckCancel);
    match &item.replace_existing {
        None => {},
        Some(old_entry) => if old_entry.kind.is_dir() {
            out.push(JobOp::RemoveDir { side: Side::Dst, path: item.dst_path.clone(), recursive: true });
        } else {
            out.push(JobOp::RemoveFile { side: Side::Dst, path: item.dst_path.clone() });
        },
    }
    out.push(JobOp::Start { path: item.dst_path.clone() });
    match &item.meta.kind {
        EntryKind::Dir => {
            out.push(
                JobOp::Mkdir { path: item.dst_path.clone(), mode: item.meta.permissions },
            );
        },
        EntryKind::Symlink { target: Some(target) } => {
            out.push(JobOp::Symlink { target: target.clone(), link: item.dst_path.clone() });
        },
        _ => {
            out.push(
                JobOp::Transfer {
                    src: item.src_path.clone(),
                    dst: item.dst_path.clone(),
                    mode: item.meta.permissions,
                },
            );
            out.push(JobOp::Count);
            out.push(JobOp::Report);
        },
    }
    proof {
        assert(out@ =~= old(out)@ + copy_ops(*item));
    }
}

fn push_delete_ops(out: &mut Vec<JobOp>, side: Side, item: &(VfsPath, EntryMeta))
    ensures
        final(out)@ == old(out)@ + delete_ops(side, *item),
{
    out.push(JobOp::CheckCancel);
    out.push(JobOp::Start { path: item.0.clone() });
    if item.1.kind.is_dir() {
        out.push(JobOp::RemoveDir { side, path: item.0.clone(), recursive: false });
    } else {
        out.push(JobOp::RemoveFile { side, path: item.0.clone() });
    }
    out.push(JobOp::Count);
    out.push(JobOp::Report);
    proof {
        assert(out@ =~= old(out)@ + delete_ops(side, *item));
    }
}

fn push_all_copy_ops(out: &mut Vec<JobOp>, items: &Vec<SyncCopyItem>)
    ensures
        final(out)@ == old(out)@ + all_copy_ops(items@),
{
    let mut i: usize = 0;
    proof {
        assert(items@.take(0) == Seq::<SyncCopyItem>::empty());
        assert(out@ + Seq::<JobOp>::empty() == out@);
    }
    while i < items.len()
        invariant
            i <= items@.len(),
            out@ == old(out)@ + all_copy_ops(items@.take(i as int)),
        decreases items.len() - i,
    {
        push_copy_ops(out, &items[i]);
        proof {
            let t = items@.take(i + 1);
            assert(t.drop_last() == items@.take(i as int));
            assert(out@ =~= old(out)@ + all_copy_ops(t));
        }
        i += 1;
    }
    proof {
        assert(items@.take(i as int) == items@);
    }
}

fn push_all_delete_ops(out: &mut Vec<JobOp>, side: Side, items: &Vec<(VfsPath, EntryMeta)>)
    ensures
        final(out)@ == old(out)@ + all_delete_ops(side, items@),
{
    let mut i: usize = 0;
    proof {
        assert(items@.take(0) == Seq::<(VfsPath, EntryMeta)>::empty());
        assert(out@ + Seq::<JobOp>::empty() == out@);
    }
    while i < items.len()
        invariant
            i <= items@.len(),
            out@ == old(out)@ + all_delete_ops(side, items@.take(i as int)),
        decreases items.len() - i,
    {
        push_delete_ops(out, side, &items[i]);
        proof {
            let t = items@.take(i + 1);
            assert(t.drop_last() == items@.take(i as int));
            assert(out@ =~= old(out)@ + all_delete_ops(side, t));
        }
        i += 1;
    }
    proof {
        assert(items@.take(i as int) == items@);
    }
}

/// Everything a copy does once its items are known.
pub open spec fn copy_program(items: Seq<SyncCopyItem>) -> Seq<JobOp> {
    seq![JobOp::Report] + all_copy_ops(items)
}

/// Everything a delete does once its items are known.
pub open spec fn delete_program(side: Side, items: Seq<(VfsPath, EntryMeta)>) -> Seq<JobOp> {
    seq![JobOp::Report] + all_delete_ops(side, items)
}

/// Everything a move within one backend does.
pub open spec fn rename_program(pairs: Seq<(VfsPath, VfsPath)>) -> Seq<JobOp> {
    seq![JobOp::Report] + all_rename_ops(pairs)
}

/// Everything an approved sync does: first all copies, then all deletions.
pub open spec fn sync_program(plan: SyncPlan) -> Seq<JobOp> {
    seq![JobOp::Report] + all_copy_ops(plan.copy@) + all_delete_ops(Side::Dst, plan.delete@)
}

/// A program under way.
pub struct JobRun {
    pub ops: Vec<JobOp>,
    pub at: usize,
    pub progress: JobProgress,
    /// Whether a link that cannot be made ends the run like any other failure.
    pub strict: bool,
    pub ended: Option<Result<(), JobError>>,
}

/// The progress after an operation that needs nothing from outside.
pub open spec fn counted(progress: JobProgress, op: JobOp) -> JobProgress {
    match op {
        JobOp::Start { path } => JobProgress { current_file: Some(path), ..progress },
        JobOp::Count => JobProgress {
            files_done: if progress.files_done == usize::MAX {
                0
            } else {
                (progress.files_done + 1) as usize
            },
            ..progress
        },
        _ => progress,
    }
}

/// Whether an operation needs nothing from outside.
pub open spec fn is_internal(op: JobOp) -> bool {
    op is Start || op is Count
}

/// Where a run that has done everything before `at` next needs something from
/// outside (`0`), and its progress there (`1`).
pub open spec fn skipped(ops: Seq<JobOp>, at: int, progress: JobProgress) -> (int, JobProgress)
    decreases ops.len() - at,
{
    if 0 <= at < ops.len() && is_internal(ops[at]) {
        skipped(ops, at + 1, counted(progress, ops[at]))
    } else {
        (at, progress)
    }
}

/// What came of the operation a run was waiting for.
#[derive(Debug)]
pub enum OpResult {
    Done,
    Cancelled,
    Failed(VfsError),
}

impl JobRun {
    /// Whether the run waits for an operation or has ended.
    pub open spec fn is_valid(self) -> bool {
        &&& self.at <= self.ops@.len()
        &&& self.ended is None ==> self.at < self.ops@.len() && !is_internal(
            self.ops@[self.at as int],
        )
    }

    /// Whether the run is that of `ops` with `progress`, having done everything
    /// before `at`, and ended if nothing is left.
    pub open spec fn stands_at(self, ops: Seq<JobOp>, at: int, progress: JobProgress) -> bool {
        &&& self.ops@ == ops
        &&& self.at == skipped(ops, at, progress).0
        &&& self.progress == skipped(ops, at, progress).1
        &&& self.ended == (if self.at < ops.len() {
            None
        } else {
            Some(Ok::<(), JobError>(()))
        })
    }

    /// The run with another progress.
    pub open spec fn progressed(self, progress: JobProgress) -> JobRun {
        JobRun { progress, ..self }
    }

    /// Where a run that waits for an operation goes when that has been tried. A
    /// failure or a cancellation ends it there, except that a run that is not
    /// strict leaves out a link that could not be made.
    pub open spec fn goes_to(self, result: OpResult, after: JobRun) -> bool {
        &&& after.strict == self.strict
        &&& match result {
            OpResult::Cancelled => after == (JobRun {
                ended: Some(Err(JobError::Cancelled)),
                ..self
            }),
            OpResult::Failed(e) => if self.ops@[self.at as int] is Symlink && !self.strict {
                after.stands_at(self.ops@, self.at + 1, self.progress)
            } else {
                after == (JobRun { ended: Some(Err(JobError::Vfs(e))), ..self })
            },
            OpResult::Done => after.stands_at(self.ops@, self.at + 1, self.progress),
        }
    }

    /// A run of `ops` that has done nothing yet.
    pub fn start(ops: Vec<JobOp>, progress: JobProgress, strict: bool) -> (r: Self)
        ensures
            r.is_valid(),
            r.strict == strict,
            r.stands_at(ops@, 0, progress),
    {
        let mut run = JobRun { ops, at: 0, progress, strict, ended: None };
        run.skip();
        run
    }

    fn skip(&mut self)
        requires
            old(self).at <= old(self).ops@.len(),
            old(self).ended is None,
        ensures
            final(self).is_valid(),
            final(self).strict == old(self).strict,
            final(self).stands_at(old(self).ops@, old(self).at as int, old(self).progress),
    {
        while self.at < self.ops.len() && (matches!(self.ops[self.at], JobOp::Start { .. })
            || matches!(self.ops[self.at], JobOp::Count))
            invariant
                self.ops == old(self).ops,
                self.at <= self.ops@.len(),
                self.strict == old(self).strict,
                self.ended is None,
                skipped(self.ops@, self.at as int, self.progress) == skipped(
                    old(self).ops@,
                    old(self).at as int,
                    old(self).progress,
                ),
            decreases self.ops@.len() - self.at,
        {
            match &self.ops[self.at] {
                JobOp::Start { path } => {
                    let path: VfsPath = path.clone();
                    self.progress.current_file = Some(path);
                },
                JobOp::Count => {
                    self.progress.files_done = if self.progress.files_done == usize::MAX {
                        0
                    } else {
                        self.progress.files_done + 1
                    };
                },
                _ => {},
            }
            self.at += 1;
        }
        if self.at >= self.ops.len() {
            self.ended = Some(Ok(()));
        }
    }

    /// The operation the run waits for, unless it has ended.
    pub open spec fn due(self) -> Option<JobOp> {
        if self.ended is None {
            Some(self.ops@[self.at as int])
        } else {
            None
        }
    }

    /// The operation the run waits for, unless it has ended.
    pub fn next(&self) -> (r: Option<JobOp>)
        requires
            self.is_valid(),
        ensures
            r == self.due(),
            r == (if self.ended is None {
                Some(self.ops@[self.at as int])
            } else {
                None
            }),
    {
        match &self.ended {
            None => Some(self.ops[self.at].clone()),
            Some(_) => None,
        }
    }

    /// Goes on after the awaited operation.
    pub fn on_result(&mut self, result: OpResult)
        requires
            old(self).is_valid(),
            old(self).ended is None,
        ensures
            final(self).is_valid(),
            old(self).goes_to(result, *final(self)),
    {
        let len: usize = self.ops.len();
        proof {
            assert(self.at < len);
        }
        match result {
            OpResult::Cancelled => {
                self.ended = Some(Err(JobError::Cancelled));
            },
            OpResult::Failed(e) => {
                if !self.strict && matches!(self.ops[self.at], JobOp::Symlink { .. }) {
                    self.at += 1;
                    self.skip();
                } else {
                    self.ended = Some(Err(JobError::Vfs(e)));
                }
            },
            OpResult::Done => {
                self.at += 1;
                self.skip();
            },
        }
    }
}

/// Starts the copying of items that a scan has found.
pub fn start_copy(items: &Vec<SyncCopyItem>, strict: bool) -> (r: JobRun)
    ensures
        r.is_valid(),
        r.strict == strict,
        r.stands_at(
            copy_program(items@),
            0,
            JobProgress {
                files_total: files_among(items@) as usize,
                bytes_total: wrapped(bytes_among(items@)),
                ..no_progress()
            },
        ),
{
    let mut ops: Vec<JobOp> = Vec::new();
    ops.push(JobOp::Report);
    push_all_copy_ops(&mut ops, items);
    let mut progress = JobProgress::default();
    progress.files_total = count_files(items);
    progress.bytes_total = count_bytes(items);
    proof {
        assert(ops@ =~= copy_program(items@));
    }
    JobRun::start(ops, progress, strict)
}

/// Starts the deletion of items that a scan has found.
pub fn start_delete(side: Side, items: &Vec<(VfsPath, EntryMeta)>) -> (r: JobRun)
    ensures
        r.is_valid(),
        !r.strict,
        r.stands_at(
            delete_program(side, items@),
            0,
            JobProgress { files_total: items@.len() as usize, ..no_progress() },
        ),
{
    let mut ops: Vec<JobOp> = Vec::new();
    ops.push(JobOp::Report);
    push_all_delete_ops(&mut ops, side, items);
    let mut progress = JobProgress::default();
    progress.files_total = items.len();
    proof {
        assert(ops@ =~= delete_program(side, items@));
    }
    JobRun::start(ops, progress, false)
}

/// Starts a move within one backend.
pub fn start_rename(pairs: &Vec<(VfsPath, VfsPath)>) -> (r: JobRun)
    ensures
        r.is_valid(),
        !r.strict,
        r.stands_at(
            rename_program(pairs@),
            0,
            JobProgress { files_total: pairs@.len() as usize, ..no_progress() },
        ),
{
    let mut ops: Vec<JobOp> = Vec::new();
    ops.push(JobOp::Report);
    let mut i: usize = 0;
    proof {
        assert(pairs@.take(0) == Seq::<(VfsPath, VfsPath)>::empty());
    }
    while i < pairs.len()
        invariant
            i <= pairs@.len(),
            ops@ == rename_program(pairs@.take(i as int)),
        decreases pairs.len() - i,
    {
        let ghost before = ops@;
        ops.push(JobOp::CheckCancel);
        ops.push(JobOp::Start { path: pairs[i].1.clone() });
        ops.push(JobOp::Rename { from: pairs[i].0.clone(), to: pairs[i].1.clone() });
        ops.push(JobOp::Count);
        ops.push(JobOp::Report);
        proof {
            let t = pairs@.take(i + 1);
            assert(t.drop_last() == pairs@.take(i as int));
            assert(ops@ =~= before + rename_ops(pairs@[i as int]));
            assert(ops@ =~= rename_program(t));
        }
        i += 1;
    }
    proof {
        assert(pairs@.take(i as int) == pairs@);
    }
    let mut progress = JobProgress::default();
    progress.files_total = pairs.len();
    JobRun::start(ops, progress, false)
}

/// Starts an approved sync.
pub fn start_sync(plan: &SyncPlan) -> (r: JobRun)
    ensures
        r.is_valid(),
        !r.strict,
        r.stands_at(
            sync_program(*plan),
            0,
            JobProgress {
                files_total: plan.files_to_copy,
                bytes_total: plan.bytes_total,
                ..no_progress()
            },
        ),
{
    let mut ops: Vec<JobOp> = Vec::new();
    ops.push(JobOp::Report);
    push_all_copy_ops(&mut ops, &plan.copy);
    push_all_delete_ops(&mut ops, Side::Dst, &plan.delete);
    let mut progress = JobProgress::default();
    progress.files_total = plan.files_to_copy;
    progress.bytes_total = plan.bytes_total;
    proof {
        assert(ops@ =~= sync_program(*plan));
    }
    JobRun::start(ops, progress, false)
}

/// What is in the way of a copy is removed right before the copy is made, and
/// nothing is removed for a copy that has nothing in its way.
pub proof fn law_replaced_right_before(item: SyncCopyItem)
    ensures
        item.replace_existing is Some ==> {
            &&& copy_ops(item)[1] == (JobOp::RemoveDir {
                side: Side::Dst,
                path: item.dst_path,
                recursive: true,
            }) || copy_ops(item)[1] == (JobOp::RemoveFile { side: Side::Dst, path: item.dst_path })
            &&& copy_ops(item)[3] == create_ops(item)[0]
        },
        item.replace_existing is None ==> forall|i: int|
            0 <= i < copy_ops(item).len() ==> !(#[trigger] copy_ops(item)[i] is RemoveDir)
                && !(copy_ops(item)[i] is RemoveFile),
{
}

/// Whether an operation puts something at the destination.
pub open spec fn is_creation(op: JobOp) -> bool {
    op is Mkdir || op is Symlink || op is Transfer || op is Rename
}

/// Whether an operation removes a directory that is expected to be empty.
pub open spec fn is_plain_removal(op: JobOp) -> bool {
    op matches JobOp::RemoveDir { recursive, .. } && !recursive
}

proof fn lemma_copy_ops(items: Seq<SyncCopyItem>)
    ensures
        forall|i: int|
            0 <= i < all_copy_ops(items).len() ==> !is_plain_removal(
                #[trigger] all_copy_ops(items)[i],
            ),
    decreases items.len(),
{
    if items.len() > 0 {
        lemma_copy_ops(items.drop_last());
        let before = all_copy_ops(items.drop_last());
        let last = copy_ops(items.last());
        assert forall|i: int| 0 <= i < all_copy_ops(items).len() implies !is_plain_removal(
            #[trigger] all_copy_ops(items)[i],
        ) by {
            if i < before.len() {
                assert(all_copy_ops(items)[i] == before[i]);
            } else {
                assert(all_copy_ops(items)[i] == last[i - before.len()]);
            }
        }
    }
}

proof fn lemma_delete_ops(side: Side, items: Seq<(VfsPath, EntryMeta)>)
    ensures
        forall|i: int|
            0 <= i < all_delete_ops(side, items).len() ==> !is_creation(
                #[trigger] all_delete_ops(side, items)[i],
            ),
    decreases items.len(),
{
    if items.len() > 0 {
        lemma_delete_ops(side, items.drop_last());
        let before = all_delete_ops(side, items.drop_last());
        let last = delete_ops(side, items.last());
        assert forall|i: int| 0 <= i < all_delete_ops(side, items).len() implies !is_creation(
            #[trigger] all_delete_ops(side, items)[i],
        ) by {
            if i < before.len() {
                assert(all_delete_ops(side, items)[i] == before[i]);
            } else {
                assert(all_delete_ops(side, items)[i] == last[i - before.len()]);
            }
        }
    }
}

/// A sync first makes all its copies and only then deletes what is extraneous:
/// nothing is created after the first deletion of the plan, and without planned
/// deletions no directory is removed but to make way for a copy.
pub proof fn law_sync_copies_first(plan: SyncPlan, i: int)
    requires
        0 <= i < sync_program(plan).len(),
    ensures
        i >= 1 + all_copy_ops(plan.copy@).len() ==> !is_creation(sync_program(plan)[i]),
        i < 1 + all_copy_ops(plan.copy@).len() ==> !is_plain_removal(sync_program(plan)[i]),
        plan.delete@.len() == 0 ==> !is_plain_removal(sync_program(plan)[i]),
{
    lemma_copy_ops(plan.copy@);
    lemma_delete_ops(Side::Dst, plan.delete@);
    let n = all_copy_ops(plan.copy@).len();
    if i >= 1 + n {
        assert(sync_program(plan)[i] == all_delete_ops(Side::Dst, plan.delete@)[i - 1 - n]);
    } else if i >= 1 {
        assert(sync_program(plan)[i] == all_copy_ops(plan.copy@)[i - 1]);
    }
}

/// Whether an operation removes what is at `path` of one of the sides.
pub open spec fn is_removal_of(op: JobOp, side: Side, path: VfsPath) -> bool {
    match op {
        JobOp::RemoveFile { side: s, path: p } => s == side && p == path,
        JobOp::RemoveDir { side: s, path: p, .. } => s == side && p == path,
        _ => false,
    }
}

/// Whether one of the copies takes the place of something at `path`.
pub open spec fn is_replaced(items: Seq<SyncCopyItem>, path: VfsPath) -> bool {
    exists|k: int|
        0 <= k < items.len() && (#[trigger] items[k]).dst_path == path
            && items[k].replace_existing is Some
}

/// Whether `path` is one of the planned deletions.
pub open spec fn is_deleted(items: Seq<(VfsPath, EntryMeta)>, path: VfsPath) -> bool {
    exists|k: int| 0 <= k < items.len() && (#[trigger] items[k]).0 == path
}

proof fn lemma_copies_remove_replaced(items: Seq<SyncCopyItem>, i: int, side: Side, path: VfsPath)
    requires
        0 <= i < all_copy_ops(items).len(),
        is_removal_of(all_copy_ops(items)[i], side, path),
    ensures
        side == Side::Dst,
        is_replaced(items, path),
    decreases items.len(),
{
    let before = all_copy_ops(items.drop_last());
    if i < before.len() {
        lemma_copies_remove_replaced(items.drop_last(), i, side, path);
        let k = choose|k: int|
            0 <= k < items.drop_last().len() && (#[trigger] items.drop_last()[k]).dst_path == path
                && items.drop_last()[k].replace_existing is Some;
        assert(items[k] == items.drop_last()[k]);
    } else {
        assert(all_copy_ops(items)[i] == copy_ops(items.last())[i - before.len()]);
        assert(items[items.len() - 1] == items.last());
    }
}

proof fn lemma_deletes_remove_deleted(place: Side, items: Seq<(VfsPath, EntryMeta)>, i: int, side: Side, path: VfsPath)
    requires
        0 <= i < all_delete_ops(place, items).len(),
        is_removal_of(all_delete_ops(place, items)[i], side, path),
    ensures
        side == place,
        is_deleted(items, path),
    decreases items.len(),
{
    let before = all_delete_ops(place, items.drop_last());
    if i < before.len() {
        lemma_deletes_remove_deleted(place, items.drop_last(), i, side, path);
        let k = choose|k: int|
            0 <= k < items.drop_last().len() && (#[trigger] items.drop_last()[k]).0 == path;
        assert(items[k] == items.drop_last()[k]);
    } else {
        assert(all_delete_ops(place, items)[i] == delete_ops(place, items.last())[i - before.len()]);
        assert(items[items.len() - 1] == items.last());
    }
}

/// A sync removes only what its plan says, and only on the destination: what
/// one of its copies takes the place of, and its planned deletions.
pub proof fn law_sync_removes_only_planned(plan: SyncPlan, i: int, side: Side, path: VfsPath)
    requires
        0 <= i < sync_program(plan).len(),
        is_removal_of(sync_program(plan)[i], side, path),
    ensures
        side == Side::Dst,
        is_replaced(plan.copy@, path) || is_deleted(plan.delete@, path),
{
    let n = all_copy_ops(plan.copy@).len();
    if i >= 1 + n {
        assert(sync_program(plan)[i] == all_delete_ops(Side::Dst, plan.delete@)[i - 1 - n]);
        lemma_deletes_remove_deleted(Side::Dst, plan.delete@, i - 1 - n, side, path);
    } else if i >= 1 {
        assert(sync_program(plan)[i] == all_copy_ops(plan.copy@)[i - 1]);
        lemma_copies_remove_replaced(plan.copy@, i - 1, side, path);
    }
}

/// A delete creates nothing, and removes nothing but its items, on its own side.
pub proof fn law_delete_only_removes(
    side: Side,
    items: Seq<(VfsPath, EntryMeta)>,
    i: int,
    place: Side,
    path: VfsPath,
)
    requires
        0 <= i < delete_program(side, items).len(),
    ensures
        !is_creation(delete_program(side, items)[i]),
        is_removal_of(delete_program(side, items)[i], place, path) ==> place == side && is_deleted(
            items,
            path,
        ),
{
    lemma_delete_ops(side, items);
    if i >= 1 {
        assert(delete_program(side, items)[i] == all_delete_ops(side, items)[i - 1]);
        if is_removal_of(delete_program(side, items)[i], place, path) {
            lemma_deletes_remove_deleted(side, items, i - 1, place, path);
        }
    }
}

/// How often a list of operations counts a finished item.
pub open spec fn counts_among(ops: Seq<JobOp>) -> nat
    decreases ops.len(),
{
    if ops.len() == 0 {
        0
    } else {
        counts_among(ops.drop_last()) + (if ops.last() is Count {
            1nat
        } else {
            0nat
        })
    }
}

/// A file counts exactly once, after its content has been moved; directories
/// and links that are made again do not count.
pub proof fn law_file_counts_once(item: SyncCopyItem)
    ensures
        counts_among(create_ops(item)) == (if create_ops(item)[0] is Transfer {
            1nat
        } else {
            0nat
        }),
        create_ops(item)[0] is Transfer ==> create_ops(item)[1] is Count,
{
    reveal_with_fuel(counts_among, 4);
}

/// A strict run ends well only if every operation that it waited for was done.
/// `runs` are its states, and between one and the next `results` says what came
/// of the operation; a transfer may have changed the progress meanwhile.
pub proof fn law_strict_run_ends_well(runs: Seq<JobRun>, results: Seq<OpResult>)
    requires
        runs.len() == results.len() + 1,
        runs[0].strict,
        forall|i: int| 0 <= i < results.len() ==> #[trigger] is_run_step(runs, results, i),
        runs.last().ended matches Some(Ok(_)),
    ensures
        forall|i: int| 0 <= i < results.len() ==> #[trigger] results[i] is Done,
{
    assert forall|i: int| 0 <= i < results.len() implies #[trigger] results[i] is Done by {
        lemma_stays_strict(runs, results, i);
        assert(is_run_step(runs, results, i));
        if i + 1 < results.len() {
            assert(is_run_step(runs, results, i + 1));
        } else {
            assert(runs[i + 1] == runs.last());
        }
    }
}

/// Whether a run under way goes on from the `i`th state to the next.
pub open spec fn is_run_step(runs: Seq<JobRun>, results: Seq<OpResult>, i: int) -> bool {
    &&& runs[i].ended is None
    &&& exists|progress: JobProgress|
        (#[trigger] runs[i].progressed(progress)).goes_to(results[i], runs[i + 1])
}

proof fn lemma_stays_strict(runs: Seq<JobRun>, results: Seq<OpResult>, n: int)
    requires
        runs.len() == results.len() + 1,
        runs[0].strict,
        forall|i: int| 0 <= i < results.len() ==> #[trigger] is_run_step(runs, results, i),
        0 <= n < runs.len(),
    ensures
        runs[n].strict,
    decreases n,
{
    if n > 0 {
        lemma_stays_strict(runs, results, n - 1);
        assert(is_run_step(runs, results, n - 1));
    }
}

/// The sum of numbers.
pub open spec fn total(sizes: Seq<nat>) -> nat
    decreases sizes.len(),
{
    if sizes.len() == 0 {
        0
    } else {
        total(sizes.drop_last()) + sizes.last()
    }
}

/// How many bytes each of the operations for a planned copy moves.
pub open spec fn copy_sizes(item: SyncCopyItem) -> Seq<nat> {
    Seq::new(
        copy_ops(item).len(),
        |i: int|
            if copy_ops(item)[i] is Transfer {
                item.meta.size as nat
            } else {
                0
            },
    )
}

/// How many bytes each of the operations for a list of planned copies moves.
pub open spec fn all_copy_sizes(items: Seq<SyncCopyItem>) -> Seq<nat>
    decreases items.len(),
{
    if items.len() == 0 {
        Seq::empty()
    } else {
        all_copy_sizes(items.drop_last()) + copy_sizes(items.last())
    }
}

/// How many bytes each of the operations of a copy moves.
pub open spec fn program_sizes(items: Seq<SyncCopyItem>) -> Seq<nat> {
    seq![0nat] + all_copy_sizes(items)
}

/// Whether every operation has its number of bytes, and only transfers move any.
pub open spec fn sizes_fit(ops: Seq<JobOp>, sizes: Seq<nat>) -> bool {
    &&& sizes.len() == ops.len()
    &&& forall|i: int| 0 <= i < ops.len() && !(#[trigger] ops[i] is Transfer) ==> sizes[i] == 0
}

/// Whether a run under way goes on from the `i`th state to the next, each transfer
/// that succeeds having moved as many bytes as `sizes` says.
pub open spec fn is_moving_step(
    sizes: Seq<nat>,
    runs: Seq<JobRun>,
    results: Seq<OpResult>,
    i: int,
) -> bool {
    let run = runs[i];
    let moved = if run.ops@[run.at as int] is Transfer && results[i] is Done {
        transfer::with_bytes(run.progress, sizes[run.at as int])
    } else {
        run.progress
    };
    &&& run.is_valid()
    &&& run.ended is None
    &&& run.progressed(moved).goes_to(results[i], runs[i + 1])
}

/// Whether a run's progress is what the operations before `at` come to.
pub open spec fn adds_up(ops: Seq<JobOp>, sizes: Seq<nat>, at: int, progress: JobProgress) -> bool {
    &&& progress.files_done == counts_among(ops.take(at))
    &&& progress.bytes_done == total(sizes.take(at))
}

proof fn lemma_counts_grow(ops: Seq<JobOp>, a: int, b: int)
    requires
        0 <= a <= b <= ops.len(),
    ensures
        counts_among(ops.take(a)) <= counts_among(ops.take(b)),
    decreases b - a,
{
    if a < b {
        lemma_counts_grow(ops, a, b - 1);
        assert(ops.take(b).drop_last() =~= ops.take(b - 1));
    }
}

proof fn lemma_total_grows(sizes: Seq<nat>, a: int, b: int)
    requires
        0 <= a <= b <= sizes.len(),
    ensures
        total(sizes.take(a)) <= total(sizes.take(b)),
    decreases b - a,
{
    if a < b {
        lemma_total_grows(sizes, a, b - 1);
        assert(sizes.take(b).drop_last() =~= sizes.take(b - 1));
    }
}

proof fn lemma_skip_adds_up(ops: Seq<JobOp>, sizes: Seq<nat>, at: int, progress: JobProgress)
    requires
        sizes_fit(ops, sizes),
        0 <= at <= ops.len(),
        counts_among(ops) <= usize::MAX,
        adds_up(ops, sizes, at, progress),
    ensures
        ({
            let (to, after) = skipped(ops, at, progress);
            &&& at <= to <= ops.len()
            &&& adds_up(ops, sizes, to, after)
            &&& forall|k: int| at <= k < to ==> is_internal(#[trigger] ops[k])
        }),
    decreases ops.len() - at,
{
    if at < ops.len() && is_internal(ops[at]) {
        let next = ops.take(at + 1);
        assert(next.drop_last() =~= ops.take(at));
        assert(sizes.take(at + 1).drop_last() =~= sizes.take(at));
        lemma_counts_grow(ops, at + 1, ops.len() as int);
        assert(ops.take(ops.len() as int) =~= ops);
        lemma_skip_adds_up(ops, sizes, at + 1, counted(progress, ops[at]));
    }
}

proof fn lemma_run_adds_up(
    ops: Seq<JobOp>,
    sizes: Seq<nat>,
    start: JobProgress,
    runs: Seq<JobRun>,
    results: Seq<OpResult>,
    n: int,
)
    requires
        sizes_fit(ops, sizes),
        counts_among(ops) <= usize::MAX,
        total(sizes) <= u64::MAX,
        start.files_done == 0 && start.bytes_done == 0,
        runs.len() == results.len() + 1,
        runs[0].stands_at(ops, 0, start),
        forall|i: int| 0 <= i < results.len() ==> #[trigger] is_moving_step(sizes, runs, results, i),
        0 <= n < runs.len(),
    ensures
        runs[n].ops@ == ops,
        runs[n].ended matches Some(Err(_)) || {
            &&& adds_up(ops, sizes, runs[n].at as int, runs[n].progress)
            &&& runs[n].at <= ops.len()
            &&& runs[n].ended is Some ==> runs[n].at == ops.len()
        },
        n > 0 ==> runs[n].at >= runs[n - 1].at,
        n > 0 && !(runs[n].ended matches Some(Err(_))) ==> runs[n].at > runs[n - 1].at && forall|
            k: int,
        |
            runs[n - 1].at < k < runs[n].at ==> is_internal(#[trigger] ops[k]),
        n == 0 ==> forall|k: int| 0 <= k < runs[0].at ==> is_internal(#[trigger] ops[k]),
    decreases n,
{
    if n == 0 {
        assert(ops.take(0) =~= Seq::<JobOp>::empty());
        assert(sizes.take(0) =~= Seq::<nat>::empty());
        lemma_skip_adds_up(ops, sizes, 0, start);
    } else {
        lemma_run_adds_up(ops, sizes, start, runs, results, n - 1);
        assert(is_moving_step(sizes, runs, results, n - 1));
        let run = runs[n - 1];
        let at = run.at as int;
        let op = ops[at];
        let moved = if op is Transfer && results[n - 1] is Done {
            transfer::with_bytes(run.progress, sizes[at])
        } else {
            run.progress
        };
        assert(ops.take(at + 1).drop_last() =~= ops.take(at));
        assert(sizes.take(at + 1).drop_last() =~= sizes.take(at));
        lemma_total_grows(sizes, at + 1, sizes.len() as int);
        assert(sizes.take(sizes.len() as int) =~= sizes);
        if !(runs[n].ended matches Some(Err(_))) {
            assert(adds_up(ops, sizes, at + 1, moved));
            lemma_skip_adds_up(ops, sizes, at + 1, moved);
        }
    }
}

proof fn lemma_run_visits(
    ops: Seq<JobOp>,
    sizes: Seq<nat>,
    start: JobProgress,
    runs: Seq<JobRun>,
    results: Seq<OpResult>,
    k: int,
    n: int,
) -> (m: int)
    requires
        sizes_fit(ops, sizes),
        counts_among(ops) <= usize::MAX,
        total(sizes) <= u64::MAX,
        start.files_done == 0 && start.bytes_done == 0,
        runs.len() == results.len() + 1,
        runs[0].stands_at(ops, 0, start),
        forall|i: int| 0 <= i < results.len() ==> #[trigger] is_moving_step(sizes, runs, results, i),
        0 <= n < runs.len(),
        !(runs[n].ended matches Some(Err(_))),
        0 <= k < ops.len(),
        k < runs[n].at,
        !is_internal(ops[k]),
    ensures
        0 <= m < n,
        runs[m].at == k,
    decreases n,
{
    lemma_run_adds_up(ops, sizes, start, runs, results, n);
    if n == 0 {
        assert(is_internal(ops[k]));
        0
    } else {
        assert(is_moving_step(sizes, runs, results, n - 1));
        if k == runs[n - 1].at {
            n - 1
        } else {
            if k > runs[n - 1].at {
                assert(is_internal(ops[k]));
            }
            lemma_run_visits(ops, sizes, start, runs, results, k, n - 1)
        }
    }
}

/// Whether a planned copy has its content moved.
pub open spec fn is_moved(item: SyncCopyItem) -> bool {
    create_ops(item)[0] is Transfer
}

/// How many of the planned copies have their content moved.
pub open spec fn moved_among(items: Seq<SyncCopyItem>) -> nat
    decreases items.len(),
{
    if items.len() == 0 {
        0
    } else {
        moved_among(items.drop_last()) + (if is_moved(items.last()) {
            1nat
        } else {
            0nat
        })
    }
}

/// How many bytes the planned copies whose content is moved have together.
pub open spec fn moved_bytes(items: Seq<SyncCopyItem>) -> nat
    decreases items.len(),
{
    if items.len() == 0 {
        0
    } else {
        moved_bytes(items.drop_last()) + (if is_moved(items.last()) {
            items.last().meta.size as nat
        } else {
            0nat
        })
    }
}

proof fn lemma_counts_concat(a: Seq<JobOp>, b: Seq<JobOp>)
    ensures
        counts_among(a + b) == counts_among(a) + counts_among(b),
    decreases b.len(),
{
    if b.len() == 0 {
        assert(a + b =~= a);
    } else {
        assert((a + b).drop_last() =~= a + b.drop_last());
        lemma_counts_concat(a, b.drop_last());
    }
}

proof fn lemma_total_concat(a: Seq<nat>, b: Seq<nat>)
    ensures
        total(a + b) == total(a) + total(b),
    decreases b.len(),
{
    if b.len() == 0 {
        assert(a + b =~= a);
    } else {
        assert((a + b).drop_last() =~= a + b.drop_last());
        lemma_total_concat(a, b.drop_last());
    }
}

proof fn lemma_no_counts(ops: Seq<JobOp>)
    requires
        forall|i: int| 0 <= i < ops.len() ==> !(#[trigger] ops[i] is Count),
    ensures
        counts_among(ops) == 0,
    decreases ops.len(),
{
    if ops.len() > 0 {
        lemma_no_counts(ops.drop_last());
    }
}

proof fn lemma_all_zero(sizes: Seq<nat>)
    requires
        forall|i: int| 0 <= i < sizes.len() ==> #[trigger] sizes[i] == 0,
    ensures
        total(sizes) == 0,
    decreases sizes.len(),
{
    if sizes.len() > 0 {
        lemma_all_zero(sizes.drop_last());
    }
}

proof fn lemma_copy_figures(item: SyncCopyItem)
    ensures
        counts_among(copy_ops(item)) == (if is_moved(item) {
            1nat
        } else {
            0nat
        }),
        total(copy_sizes(item)) == (if is_moved(item) {
            item.meta.size as nat
        } else {
            0nat
        }),
{
    let head = seq![JobOp::CheckCancel] + clear_ops(item) + seq![
        JobOp::Start { path: item.dst_path },
    ];
    let create = create_ops(item);
    assert(copy_ops(item) =~= head + create);
    lemma_counts_concat(head, create);
    lemma_no_counts(head);
    law_file_counts_once(item);
    let n = head.len() as int;
    let sizes = copy_sizes(item);
    let before = sizes.take(n);
    let after = sizes.skip(n);
    assert(sizes =~= before + after);
    lemma_total_concat(before, after);
    assert forall|i: int| 0 <= i < before.len() implies #[trigger] before[i] == 0 by {
        assert(copy_ops(item)[i] == head[i]);
    }
    lemma_all_zero(before);
    assert forall|i: int| 0 <= i < after.len() implies #[trigger] after[i] == (if create[i]
        is Transfer {
        item.meta.size as nat
    } else {
        0
    }) by {
        assert(copy_ops(item)[n + i] == create[i]);
    }
    if is_moved(item) {
        assert(after =~= seq![item.meta.size as nat] + seq![0nat, 0nat]);
        lemma_total_concat(seq![item.meta.size as nat], seq![0nat, 0nat]);
        lemma_all_zero(seq![0nat, 0nat]);
        assert(seq![item.meta.size as nat].drop_last() =~= Seq::<nat>::empty());
        reveal_with_fuel(total, 2);
    } else {
        lemma_all_zero(after);
    }
}

/// The operation behind which nothing is counted or moved any more.
spec fn is_last_report(ops: Seq<JobOp>, k: int) -> bool {
    &&& 0 <= k < ops.len()
    &&& ops[k] is Report
    &&& forall|i: int| k < i < ops.len() ==> !(#[trigger] ops[i] is Count) && !(ops[i] is Transfer)
}

proof fn lemma_copy_program(items: Seq<SyncCopyItem>) -> (k: int)
    ensures
        sizes_fit(copy_program(items), program_sizes(items)),
        counts_among(copy_program(items)) == moved_among(items),
        total(program_sizes(items)) == moved_bytes(items),
        is_last_report(copy_program(items), k),
    decreases items.len(),
{
    let ops = copy_program(items);
    let sizes = program_sizes(items);
    if items.len() == 0 {
        assert(ops =~= seq![JobOp::Report]);
        assert(sizes =~= seq![0nat]);
        lemma_no_counts(ops);
        lemma_all_zero(sizes);
        0
    } else {
        let before = items.drop_last();
        let item = items.last();
        let last = copy_ops(item);
        let k = lemma_copy_program(before);
        let b = copy_program(before);
        assert(ops =~= b + last);
        assert(sizes =~= program_sizes(before) + copy_sizes(item));
        lemma_counts_concat(b, last);
        lemma_total_concat(program_sizes(before), copy_sizes(item));
        lemma_copy_figures(item);
        assert forall|i: int| 0 <= i < ops.len() && !(#[trigger] ops[i] is Transfer) implies sizes[i]
            == 0 by {
            if i < b.len() {
                assert(b[i] == ops[i]);
            } else {
                assert(last[i - b.len()] == ops[i]);
            }
        }
        if is_moved(item) {
            let m = ops.len() - 1;
            assert(create_ops(item)[2] is Report);
            assert(last.last() is Report);
            assert(ops[m] == last.last());
            m
        } else {
            assert forall|i: int| k < i < ops.len() implies !(#[trigger] ops[i] is Count) && !(
            ops[i] is Transfer) by {
                if i < b.len() {
                    assert(b[i] == ops[i]);
                } else {
                    assert(last[i - b.len()] == ops[i]);
                }
            }
            assert(ops[k] == b[k]);
            k
        }
    }
}

proof fn lemma_no_links(items: Seq<SyncCopyItem>)
    requires
        forall|i: int|
            0 <= i < items.len() ==> !(#[trigger] items[i].meta.kind matches EntryKind::Symlink {
                target: Some(_),
            }),
    ensures
        moved_among(items) == files_among(items),
        moved_bytes(items) == bytes_among(items),
    decreases items.len(),
{
    if items.len() > 0 {
        assert forall|i: int| 0 <= i < items.drop_last().len() implies !(
        #[trigger] items.drop_last()[i].meta.kind matches EntryKind::Symlink { target: Some(_) }) by {
            assert(items[i] == items.drop_last()[i]);
        }
        lemma_no_links(items.drop_last());
        assert(items[items.len() - 1] == items.last());
    }
}

proof fn lemma_tail_adds_nothing(ops: Seq<JobOp>, sizes: Seq<nat>, k: int, n: int)
    requires
        sizes_fit(ops, sizes),
        is_last_report(ops, k),
        k <= n <= ops.len(),
    ensures
        counts_among(ops.take(n)) == counts_among(ops.take(k)),
        total(sizes.take(n)) == total(sizes.take(k)),
    decreases n - k,
{
    if n > k {
        lemma_tail_adds_nothing(ops, sizes, k, n - 1);
        assert(ops.take(n).drop_last() =~= ops.take(n - 1));
        assert(sizes.take(n).drop_last() =~= sizes.take(n - 1));
        assert(n - 1 == k || !(ops[n - 1] is Count));
    }
}

/// The figures of a copy only ever grow, and a copy that ends well has reported
/// everything. `runs` are its states and `results` what came of the operations
/// between them; every transfer that succeeded has moved as many bytes as its
/// file was listed with. At the end, and in one of its reports, every file that
/// has its content moved is counted, and all their bytes; without links that are
/// made again, that is all that was announced at the start.
pub proof fn law_copy_reports_everything(
    items: Seq<SyncCopyItem>,
    start: JobProgress,
    runs: Seq<JobRun>,
    results: Seq<OpResult>,
)
    requires
        files_among(items) <= usize::MAX,
        bytes_among(items) <= u64::MAX,
        start == (JobProgress {
            files_total: files_among(items) as usize,
            bytes_total: wrapped(bytes_among(items)),
            ..no_progress()
        }),
        runs.len() == results.len() + 1,
        runs[0].stands_at(copy_program(items), 0, start),
        forall|i: int|
            0 <= i < results.len() ==> #[trigger] is_moving_step(
                program_sizes(items),
                runs,
                results,
                i,
            ),
        runs.last().ended matches Some(Ok(_)),
    ensures
        forall|i: int, j: int|
            0 <= i <= j < runs.len() ==> (#[trigger] runs[i]).progress.files_done <= (
            #[trigger] runs[j]).progress.files_done && runs[i].progress.bytes_done
                <= runs[j].progress.bytes_done,
        runs.last().progress.files_done == moved_among(items),
        runs.last().progress.bytes_done == moved_bytes(items),
        exists|m: int|
            {
                &&& 0 <= m < runs.len() - 1
                &&& copy_program(items)[(#[trigger] runs[m]).at as int] is Report
                &&& runs[m].progress.files_done == moved_among(items)
                &&& runs[m].progress.bytes_done == moved_bytes(items)
            },
        (forall|i: int|
            0 <= i < items.len() ==> !(#[trigger] items[i].meta.kind matches EntryKind::Symlink {
                target: Some(_),
            })) ==> moved_among(items) == start.files_total && moved_bytes(items)
            == start.bytes_total,
{
    let ops = copy_program(items);
    let sizes = program_sizes(items);
    let k = lemma_copy_program(items);
    let n = runs.len() - 1;
    lemma_moved_at_most(items);
    lemma_run_adds_up(ops, sizes, start, runs, results, n);
    assert(ops.take(ops.len() as int) =~= ops);
    assert(sizes.take(sizes.len() as int) =~= sizes);
    assert(runs[n] == runs.last());
    assert forall|i: int, j: int| 0 <= i <= j < runs.len() implies (
    #[trigger] runs[i]).progress.files_done <= (#[trigger] runs[j]).progress.files_done
        && runs[i].progress.bytes_done <= runs[j].progress.bytes_done by {
        lemma_run_grows(ops, sizes, start, runs, results, i, j);
    }
    let m = lemma_run_visits(ops, sizes, start, runs, results, k, n);
    lemma_run_adds_up(ops, sizes, start, runs, results, m);
    assert(is_moving_step(sizes, runs, results, m));
    lemma_tail_adds_nothing(ops, sizes, k, ops.len() as int);
    assert(ops[runs[m].at as int] is Report);
    if forall|i: int|
        0 <= i < items.len() ==> !(#[trigger] items[i].meta.kind matches EntryKind::Symlink {
            target: Some(_),
        }) {
        lemma_no_links(items);
    }
}

proof fn lemma_moved_at_most(items: Seq<SyncCopyItem>)
    ensures
        moved_among(items) <= files_among(items),
        moved_bytes(items) <= bytes_among(items),
    decreases items.len(),
{
    if items.len() > 0 {
        lemma_moved_at_most(items.drop_last());
    }
}

proof fn lemma_run_grows(
    ops: Seq<JobOp>,
    sizes: Seq<nat>,
    start: JobProgress,
    runs: Seq<JobRun>,
    results: Seq<OpResult>,
    i: int,
    j: int,
)
    requires
        sizes_fit(ops, sizes),
        counts_among(ops) <= usize::MAX,
        total(sizes) <= u64::MAX,
        start.files_done == 0 && start.bytes_done == 0,
        runs.len() == results.len() + 1,
        runs[0].stands_at(ops, 0, start),
        forall|i: int| 0 <= i < results.len() ==> #[trigger] is_moving_step(sizes, runs, results, i),
        runs.last().ended matches Some(Ok(_)),
        0 <= i <= j < runs.len(),
    ensures
        runs[i].progress.files_done <= runs[j].progress.files_done,
        runs[i].progress.bytes_done <= runs[j].progress.bytes_done,
    decreases j - i,
{
    if i < j {
        lemma_run_grows(ops, sizes, start, runs, results, i, j - 1);
        lemma_run_adds_up(ops, sizes, start, runs, results, j - 1);
        lemma_run_adds_up(ops, sizes, start, runs, results, j);
        assert(is_moving_step(sizes, runs, results, j - 1));
        if j < runs.len() - 1 {
            assert(is_moving_step(sizes, runs, results, j));
        } else {
            assert(runs[j] == runs.last());
        }
        lemma_counts_grow(ops, runs[j - 1].at as int, runs[j].at as int);
        lemma_total_grows(sizes, runs[j - 1].at as int, runs[j].at as int);
    }
}

/// The figures of a plan are those of its list: as many files as there are items
/// that are no directories, and the bytes of those together. A directory adds to
/// neither, wherever it stands.
pub proof fn law_figures(a: Seq<SyncCopyItem>, item: SyncCopyItem, b: Seq<SyncCopyItem>)
    ensures
        files_among(a + seq![item] + b) == files_among(a + b) + (if item.meta.kind is Dir {
            0nat
        } else {
            1nat
        }),
        bytes_among(a + seq![item] + b) == bytes_among(a + b) + (if item.meta.kind is Dir {
            0nat
        } else {
            item.meta.size as nat
        }),
        files_among(Seq::empty()) == 0,
        bytes_among(Seq::empty()) == 0,
    decreases b.len(),
{
    if b.len() == 0 {
        let all = a + seq![item] + b;
        assert(all.drop_last() =~= a);
        assert(a + b =~= a);
    } else {
        law_figures(a, item, b.drop_last());
        assert((a + seq![item] + b).drop_last() =~= a + seq![item] + b.drop_last());
        assert((a + b).drop_last() =~= a + b.drop_last());
    }
}

/// A count that fits is kept as it is.
pub proof fn law_wrapped(n: nat)
    ensures
        n <= u64::MAX ==> wrapped(n) == n,
        wrapped(n + 0x1_0000_0000_0000_0000) == wrapped(n),
{
    assert((n + 0x1_0000_0000_0000_0000) % 0x1_0000_0000_0000_0000 == n % 0x1_0000_0000_0000_0000)
        by (nonlinear_arith);
}

/// Whatever a planned copy makes is made where the plan says, of what the plan
/// says, with the permissions that the source has.
pub proof fn law_copies_are_made_as_planned(item: SyncCopyItem, i: int)
    requires
        0 <= i < copy_ops(item).len(),
    ensures
        copy_ops(item)[i] matches JobOp::Transfer { src, dst, mode } ==> src == item.src_path && dst
            == item.dst_path && mode == item.meta.permissions && !(item.meta.kind is Dir),
        copy_ops(item)[i] matches JobOp::Mkdir { path, mode } ==> path == item.dst_path && mode
            == item.meta.permissions && item.meta.kind is Dir,
        copy_ops(item)[i] matches JobOp::Symlink { target, link } ==> link == item.dst_path
            && item.meta.kind == (EntryKind::Symlink { target: Some(target) }),
        copy_ops(item)[i] matches JobOp::RemoveFile { side, path } ==> side == Side::Dst && path
            == item.dst_path && item.replace_existing is Some,
        copy_ops(item)[i] matches JobOp::RemoveDir { side, path, recursive } ==> side == Side::Dst
            && path == item.dst_path && recursive && item.replace_existing is Some,
        exists|k: int|
            0 <= k < copy_ops(item).len() && (#[trigger] copy_ops(item)[k] is Transfer
                || copy_ops(item)[k] is Mkdir || copy_ops(item)[k] is Symlink),
{
    let ops = copy_ops(item);
    let create = create_ops(item);
    let k = ops.len() - create.len();
    assert(ops[k] == create[0]);
}

/// What a job says it works on is the path of the item that it has come to, and each
/// count is one more; neither changes the totals or the bytes.
pub proof fn law_progress_tells(progress: JobProgress, op: JobOp)
    requires
        progress.files_done < usize::MAX,
    ensures
        op matches JobOp::Start { path } ==> counted(progress, op).current_file == Some(path)
            && counted(progress, op).files_done == progress.files_done,
        op is Count ==> counted(progress, op).files_done == progress.files_done + 1 && counted(
            progress,
            op,
        ).current_file == progress.current_file,
        counted(progress, op).bytes_done == progress.bytes_done,
        counted(progress, op).bytes_total == progress.bytes_total,
        counted(progress, op).files_total == progress.files_total,
{
}

/// Whatever an item of a job does to the file system comes after the job has said
/// that it works on that item; what is in the way of a copy is the exception.
pub proof fn law_start_comes_first(
    item: SyncCopyItem,
    side: Side,
    deleted: (VfsPath, EntryMeta),
    pair: (VfsPath, VfsPath),
)
    ensures
        exists|k: int|
            0 < k < copy_ops(item).len() && #[trigger] copy_ops(item)[k - 1] == (JobOp::Start {
                path: item.dst_path,
            }) && copy_ops(item)[k] == create_ops(item)[0],
        delete_ops(side, deleted)[1] == (JobOp::Start { path: deleted.0 }),
        rename_ops(pair)[1] == (JobOp::Start { path: pair.1 }),
{
    let ops = copy_ops(item);
    let create = create_ops(item);
    let k = ops.len() - create.len();
    assert(ops[k] == create[0]);
    assert(ops[k - 1] == (JobOp::Start { path: item.dst_path }));
}

/// Whether an outcome is that of a job that returned `result`.
pub open spec fn is_outcome_of(outcome: JobOutcome, result: Result<(), JobError>) -> bool {
    match result {
        Ok(_) => outcome is Completed,
        Err(JobError::Cancelled) => outcome is Cancelled,
        Err(e) => outcome matches JobOutcome::Failed(why) && why@ == e.text(),
    }
}

/// A job is told to have completed exactly if it did, to have been cancelled exactly
/// if it was, and to have failed in the words of what went wrong.
pub proof fn law_outcomes(outcome: JobOutcome, result: Result<(), JobError>)
    requires
        is_outcome_of(outcome, result),
    ensures
        outcome is Completed <==> result is Ok,
        outcome is Cancelled <==> result matches Err(JobError::Cancelled),
        result matches Err(JobError::Vfs(e)) ==> (outcome matches JobOutcome::Failed(why) && why@
            == e.text()),
{
}

/// Those of the first `n` operations that are done outside, in order.
pub open spec fn outside_ops(ops: Seq<JobOp>, n: int) -> Seq<JobOp>
    decreases n,
{
    if n <= 0 {
        Seq::empty()
    } else if ops[n - 1] is Start || ops[n - 1] is Count {
        outside_ops(ops, n - 1)
    } else {
        outside_ops(ops, n - 1).push(ops[n - 1])
    }
}

proof fn lemma_skipped_is_inside(ops: Seq<JobOp>, at: int, progress: JobProgress)
    requires
        0 <= at <= ops.len(),
    ensures
        at <= skipped(ops, at, progress).0 <= ops.len(),
        skipped(ops, at, progress).0 < ops.len() ==> !(ops[skipped(ops, at, progress).0] is Start)
            && !(ops[skipped(ops, at, progress).0] is Count),
        outside_ops(ops, skipped(ops, at, progress).0) == outside_ops(ops, at),
    decreases ops.len() - at,
{
    if at < ops.len() && is_internal(ops[at]) {
        lemma_skipped_is_inside(ops, at + 1, counted(progress, ops[at]));
    }
}

proof fn lemma_run_so_far(
    runs: Seq<JobRun>,
    results: Seq<OpResult>,
    ops: Seq<JobOp>,
    start: JobProgress,
    n: int,
)
    requires
        runs.len() == results.len() + 1,
        runs[0].stands_at(ops, 0, start),
        forall|i: int| 0 <= i < results.len() ==> #[trigger] is_run_step(runs, results, i),
        forall|i: int| 0 <= i < results.len() ==> #[trigger] results[i] is Done,
        0 <= n <= results.len(),
    ensures
        runs[n].ops@ == ops,
        runs[n].at <= ops.len(),
        runs[n].ended is None ==> runs[n].at < ops.len() && !(ops[runs[n].at as int] is Start) && !(
        ops[runs[n].at as int] is Count),
        runs[n].ended is Some ==> runs[n].at == ops.len(),
        outside_ops(ops, runs[n].at as int).len() == n,
        forall|i: int|
            0 <= i < n ==> (#[trigger] runs[i]).due() == Some(
                outside_ops(ops, runs[n].at as int)[i],
            ),
    decreases n,
{
    if n == 0 {
        lemma_skipped_is_inside(ops, 0, start);
    } else {
        lemma_run_so_far(runs, results, ops, start, n - 1);
        assert(is_run_step(runs, results, n - 1));
        assert(results[n - 1] is Done);
        let progress = choose|progress: JobProgress|
            (#[trigger] runs[n - 1].progressed(progress)).goes_to(results[n - 1], runs[n - 1 + 1]);
        let at = runs[n - 1].at as int;
        lemma_skipped_is_inside(ops, at + 1, progress);
        let before = outside_ops(ops, at);
        let now = outside_ops(ops, at + 1);
        assert(now == before.push(ops[at]));
        assert forall|i: int| 0 <= i < n implies (#[trigger] runs[i]).due() == Some(now[i]) by {
            if i < n - 1 {
                assert(runs[i].due() == Some(before[i]));
            }
        }
    }
}

/// A run in which everything succeeds does all the operations of its program, each
/// once and in order, and ends when it has done the last.
pub proof fn law_run_does_its_program(
    runs: Seq<JobRun>,
    results: Seq<OpResult>,
    ops: Seq<JobOp>,
    start: JobProgress,
    i: int,
)
    requires
        runs.len() == results.len() + 1,
        runs[0].stands_at(ops, 0, start),
        forall|k: int| 0 <= k < results.len() ==> #[trigger] is_run_step(runs, results, k),
        forall|k: int| 0 <= k < results.len() ==> #[trigger] results[k] is Done,
    ensures
        runs.last().ended is Some ==> {
            &&& runs.last().ended matches Some(Ok(_))
            &&& results.len() == outside_ops(ops, ops.len() as int).len()
            &&& 0 <= i < results.len() ==> runs[i].due() == Some(
                outside_ops(ops, ops.len() as int)[i],
            )
        },
        runs.last().ended is None ==> results.len() < outside_ops(ops, ops.len() as int).len(),
{
    let n = results.len() as int;
    lemma_run_so_far(runs, results, ops, start, n);
    assert(runs[n] == runs.last());
    if runs.last().ended is Some {
        if n > 0 {
            assert(is_run_step(runs, results, n - 1));
            assert(results[n - 1] is Done);
        }
        if 0 <= i < n {
            assert(runs[i].due() == Some(outside_ops(ops, ops.len() as int)[i]));
        }
    } else {
        let at = runs[n].at as int;
        lemma_outside_grows(ops, at + 1, ops.len() as int);
        assert(outside_ops(ops, at + 1).len() == n + 1);
    }
}

proof fn lemma_outside_grows(ops: Seq<JobOp>, a: int, b: int)
    requires
        0 <= a <= b <= ops.len(),
    ensures
        outside_ops(ops, a).len() <= outside_ops(ops, b).len(),
    decreases b - a,
{
    if a < b {
        lemma_outside_grows(ops, a, b - 1);
    }
}

/// A deletion and a renaming count each of their items once, so that all that was
/// announced is counted in the end.
pub proof fn law_every_item_counts(
    side: Side,
    items: Seq<(VfsPath, EntryMeta)>,
    pairs: Seq<(VfsPath, VfsPath)>,
)
    ensures
        counts_among(delete_program(side, items)) == items.len(),
        counts_among(rename_program(pairs)) == pairs.len(),
{
    reveal_with_fuel(counts_among, 2);
    assert(seq![JobOp::Report].drop_last() =~= Seq::<JobOp>::empty());
    lemma_counts_concat(seq![JobOp::Report], all_delete_ops(side, items));
    lemma_counts_concat(seq![JobOp::Report], all_rename_ops(pairs));
    lemma_deletes_count(side, items);
    lemma_renames_count(pairs);
}

proof fn lemma_deletes_count(side: Side, items: Seq<(VfsPath, EntryMeta)>)
    ensures
        counts_among(all_delete_ops(side, items)) == items.len(),
    decreases items.len(),
{
    if items.len() > 0 {
        let before = items.drop_last();
        lemma_deletes_count(side, before);
        lemma_counts_concat(all_delete_ops(side, before), delete_ops(side, items.last()));
        reveal_with_fuel(counts_among, 6);
    }
}

proof fn lemma_renames_count(pairs: Seq<(VfsPath, VfsPath)>)
    ensures
        counts_among(all_rename_ops(pairs)) == pairs.len(),
    decreases pairs.len(),
{
    if pairs.len() > 0 {
        let before = pairs.drop_last();
        lemma_renames_count(before);
        lemma_counts_concat(all_rename_ops(before), rename_ops(pairs.last()));
        reveal_with_fuel(counts_among, 6);
    }
}

} // verus!
