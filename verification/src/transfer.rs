//! How the bytes of one file move between two backends.

use vstd::prelude::*;

use crate::job;
use crate::job::{JobError, JobProgress};
use crate::scan::Side;
use crate::text::owned;
use crate::vfs::{Location, VfsError};

verus! {

/// How many bytes a plain copy moves at a time.
pub const COPY_CHUNK_SIZE: usize = 262144;

/// The way a file's content takes.
#[derive(Clone, Copy, Debug, PartialEq, Eq, Structural)]
pub enum TransferRoute {
    /// Through the read and write streams of both backends.
    Stream,
    /// The remote source is read through its own fast channel.
    FastRead,
    /// The remote destination is written through its own fast channel.
    FastWrite,
}

/// A plain chunked copy through each backend's streams. Correct for any pair
/// of backends.
#[derive(Clone, Copy, Debug)]
pub struct VfsStreamTransport;

/// The side whose fast channel is worth asking for: the remote one of a pair
/// of one local and one remote side, if the fast path is enabled.
pub open spec fn fast_candidate(src: Location, dst: Location, enabled: bool) -> Option<Side> {
    match (src, dst) {
        (Location::Local, Location::Remote { .. }) if enabled => Some(Side::Dst),
        (Location::Remote { .. }, Location::Local) if enabled => Some(Side::Src),
        _ => None,
    }
}

/// The side whose fast channel is worth asking for.
pub fn fast_side(src: &Location, dst: &Location, enabled: bool) -> (r: Option<Side>)
    ensures
        r == fast_candidate(*src, *dst, enabled),
{
    if !enabled {
        return None;
    }
    match (src, dst) {
        (Location::Local, Location::Remote { .. }) => Some(Side::Dst),
        (Location::Remote { .. }, Location::Local) => Some(Side::Src),
        _ => None,
    }
}

/// Picks the way for the files of one job. `src_fast` and `dst_fast` say
/// whether the two sides have a fast channel of their own; it is used only
/// where [`fast_candidate`] asks for it.
pub fn negotiate_transport(
    src_location: &Location,
    dst_location: &Location,
    src_fast: bool,
    dst_fast: bool,
    enable_quic_fast_path: bool,
) -> (r: TransferRoute)
    ensures
        r == route(*src_location, *dst_location, src_fast, dst_fast, enable_quic_fast_path),
        r == (match fast_candidate(*src_location, *dst_location, enable_quic_fast_path) {
            Some(Side::Dst) if dst_fast => TransferRoute::FastWrite,
            Some(Side::Src) if src_fast => TransferRoute::FastRead,
            _ => TransferRoute::Stream,
        }),
{
    match fast_side(src_location, dst_location, enable_quic_fast_path) {
        Some(Side::Dst) => if dst_fast {
            TransferRoute::FastWrite
        } else {
            TransferRoute::Stream
        },
        Some(Side::Src) => if src_fast {
            TransferRoute::FastRead
        } else {
            TransferRoute::Stream
        },
        None => TransferRoute::Stream,
    }
}

/// The way for the files of one job.
pub open spec fn route(
    src: Location,
    dst: Location,
    src_fast: bool,
    dst_fast: bool,
    enabled: bool,
) -> TransferRoute {
    match fast_candidate(src, dst, enabled) {
        Some(Side::Dst) if dst_fast => TransferRoute::FastWrite,
        Some(Side::Src) if src_fast => TransferRoute::FastRead,
        _ => TransferRoute::Stream,
    }
}

/// A fast channel is used exactly where the switch is on, the files go between a
/// local and a remote side, and the remote one has such a channel: to write with
/// if the files go there, to read with if they come from there.
pub proof fn law_route(
    src: Location,
    dst: Location,
    src_fast: bool,
    dst_fast: bool,
    enabled: bool,
)
    ensures
        route(src, dst, src_fast, dst_fast, enabled) == TransferRoute::FastWrite <==> enabled
            && src is Local && dst is Remote && dst_fast,
        route(src, dst, src_fast, dst_fast, enabled) == TransferRoute::FastRead <==> enabled
            && src is Remote && dst is Local && src_fast,
{
}

/// Without the switch, and for any pair that is not one local and one remote
/// side, no fast channel is used, whatever the sides offer.
pub proof fn law_fast_path_is_opt_in(src: Location, dst: Location, enabled: bool)
    ensures
        fast_candidate(src, dst, enabled) is Some <==> enabled && ((src is Local && dst is Remote)
            || (src is Remote && dst is Local)),
        fast_candidate(src, dst, enabled) == Some(Side::Src) ==> src is Remote,
        fast_candidate(src, dst, enabled) == Some(Side::Dst) ==> dst is Remote,
{
}

/// The progress after `n` more bytes.
pub open spec fn with_bytes(progress: JobProgress, n: nat) -> JobProgress {
    JobProgress { bytes_done: job::wrapped(progress.bytes_done as nat + n), ..progress }
}

fn add_bytes(progress: &mut JobProgress, n: usize)
    ensures
        *final(progress) == with_bytes(*old(progress), n as nat),
{
    progress.bytes_done = progress.bytes_done.wrapping_add(n as u64);
}

/// Bytes add up in whatever portions they come, and while they fit the figure
/// only grows; nothing else of the progress changes.
pub proof fn law_bytes_add_up(progress: JobProgress, a: nat, b: nat)
    ensures
        with_bytes(with_bytes(progress, a), b) == with_bytes(progress, a + b),
        progress.bytes_done + a <= u64::MAX ==> with_bytes(progress, a).bytes_done
            == progress.bytes_done + a,
        with_bytes(progress, a) == (JobProgress {
            bytes_done: with_bytes(progress, a).bytes_done,
            ..progress
        }),
{
    let n = 0x1_0000_0000_0000_0000int;
    let x = progress.bytes_done as int + a;
    assert((x % n + b) % n == (x + b) % n) by (nonlinear_arith)
        requires
            n == 0x1_0000_0000_0000_0000int,
            x >= 0,
            b >= 0,
    ;
}

/// Where a plain copy stands; also what it needs next.
#[derive(Debug)]
pub enum StreamStage {
    OpenRead,
    CreateWrite,
    CheckCancel,
    /// Read up to [`COPY_CHUNK_SIZE`] bytes.
    Read,
    /// Write the `len` bytes that were just read.
    Write { len: usize },
    Report,
    Flush,
    Ended(Result<(), JobError>),
}

/// What came of the step a transfer was waiting for.
#[derive(Debug)]
pub enum StreamEvent {
    Done,
    /// That many bytes were read; none at the end of the file.
    ReadBytes { len: usize },
    Cancelled,
    Failed(VfsError),
}

/// Where a plain copy goes from `stage`: it opens both ends, then moves one
/// chunk after the other, asking before each whether it should stop, and
/// flushes once the source has no more. The first failure ends it.
pub open spec fn next_stage(stage: StreamStage, event: StreamEvent) -> StreamStage {
    match event {
        StreamEvent::Failed(e) => StreamStage::Ended(Err(JobError::Vfs(e))),
        StreamEvent::Cancelled => StreamStage::Ended(Err(JobError::Cancelled)),
        StreamEvent::ReadBytes { len } => if len == 0 {
            StreamStage::Flush
        } else {
            StreamStage::Write { len }
        },
        StreamEvent::Done => match stage {
            StreamStage::OpenRead => StreamStage::CreateWrite,
            StreamStage::CreateWrite => StreamStage::CheckCancel,
            StreamStage::CheckCancel => StreamStage::Read,
            StreamStage::Read => StreamStage::Flush,
            StreamStage::Write { .. } => StreamStage::Report,
            StreamStage::Report => StreamStage::CheckCancel,
            StreamStage::Flush => StreamStage::Ended(Ok(())),
            StreamStage::Ended(r) => StreamStage::Ended(r),
        },
    }
}

/// A plain copy under way.
#[derive(Debug)]
pub struct StreamCopy {
    pub stage: StreamStage,
}

impl VfsStreamTransport {
    /// Starts a plain copy.
    pub fn transfer(&self) -> (r: StreamCopy)
        ensures
            r.stage is OpenRead,
    {
        StreamCopy { stage: StreamStage::OpenRead }
    }
}

impl StreamCopy {
    /// Goes on after the awaited step; bytes count as soon as they are written.
    pub fn on_event(&mut self, event: StreamEvent, progress: &mut JobProgress)
        requires
            !(old(self).stage is Ended),
            event is ReadBytes <==> old(self).stage is Read && !(event is Failed),
            event is Cancelled ==> old(self).stage is CheckCancel,
        ensures
            final(self).stage == next_stage(old(self).stage, event),
            *final(progress) == (match (old(self).stage, event) {
                (StreamStage::Write { len }, StreamEvent::Done) => with_bytes(
                    *old(progress),
                    len as nat,
                ),
                _ => *old(progress),
            }),
    {
        let mut stage = StreamStage::Flush;
        std::mem::swap(&mut self.stage, &mut stage);
        self.stage = match event {
            StreamEvent::Failed(e) => StreamStage::Ended(Err(JobError::Vfs(e))),
            StreamEvent::Cancelled => StreamStage::Ended(Err(JobError::Cancelled)),
            StreamEvent::ReadBytes { len } => if len == 0 {
                StreamStage::Flush
            } else {
                StreamStage::Write { len }
            },
            StreamEvent::Done => match stage {
                StreamStage::OpenRead => StreamStage::CreateWrite,
                StreamStage::CreateWrite => StreamStage::CheckCancel,
                StreamStage::CheckCancel => StreamStage::Read,
                StreamStage::Read => StreamStage::Flush,
                StreamStage::Write { len } => {
                    add_bytes(progress, len);
                    StreamStage::Report
                },
                StreamStage::Report => StreamStage::CheckCancel,
                StreamStage::Flush => StreamStage::Ended(Ok(())),
                StreamStage::Ended(r) => StreamStage::Ended(r),
            },
        };
    }
}

/// What a plain copy has read and written, in bytes.
pub ghost struct Moved {
    pub read: nat,
    pub written: nat,
}

/// What has moved after `event` at `stage`.
pub open spec fn moved_after(m: Moved, stage: StreamStage, event: StreamEvent) -> Moved {
    match (stage, event) {
        (StreamStage::Read, StreamEvent::ReadBytes { len }) => Moved { read: m.read + len as nat, ..m },
        (StreamStage::Write { len }, StreamEvent::Done) => Moved { written: m.written + len as nat, ..m },
        _ => m,
    }
}

/// What a plain copy keeps true about the bytes it has moved.
pub open spec fn all_written(m: Moved, stage: StreamStage) -> bool {
    match stage {
        StreamStage::Write { len } => m.read == m.written + len,
        StreamStage::Ended(Err(_)) => m.written <= m.read,
        _ => m.read == m.written,
    }
}

/// A plain copy writes every byte it reads before it reads on, and when it
/// ends well it has written all of them.
pub proof fn law_stream_writes_what_it_reads(m: Moved, stage: StreamStage, event: StreamEvent)
    requires
        all_written(m, stage),
        !(stage is Ended),
        event is ReadBytes ==> stage is Read,
        stage is Read ==> !(event is Done),
    ensures
        all_written(moved_after(m, stage, event), next_stage(stage, event)),
{
}

/// The error that a cancelled transfer's read or write ends in.
pub fn cancelled_io_error() -> (r: VfsError)
    ensures
        r matches VfsError::Io(why) && why@ == "cancelled"@,
{
    VfsError::Io(owned("cancelled"))
}

/// What happens before each read or write of a transfer over a fast channel:
/// it goes on unless the job has been cancelled.
pub fn before_io(cancelled: bool) -> (r: Result<(), VfsError>)
    ensures
        r is Err <==> cancelled,
        r matches Err(e) ==> (e matches VfsError::Io(why) && why@ == "cancelled"@),
{
    if cancelled {
        Err(cancelled_io_error())
    } else {
        Ok(())
    }
}

/// What happens after each read or write of `n` bytes over a fast channel: the
/// bytes count, and the result says whether that is reported.
pub fn after_io(n: usize, progress: &mut JobProgress) -> (r: bool)
    ensures
        r == (n > 0),
        *final(progress) == with_bytes(*old(progress), n as nat),
{
    if n > 0 {
        add_bytes(progress, n);
    }
    n > 0
}

/// How a transfer over a fast channel ends: whatever went wrong in a cancelled
/// job is a cancellation. A finished file counts as after any other transfer, by
/// the job.
pub fn finish_fast(result: Result<(), JobError>, cancelled: bool) -> (r: Result<(), JobError>)
    ensures
        r == fast_end(result, cancelled),
        match result {
            Ok(_) => r is Ok,
            Err(e) => r == Err::<(), JobError>(
                if cancelled {
                    JobError::Cancelled
                } else {
                    e
                },
            ),
        },
{
    match result {
        Ok(_) => Ok(()),
        Err(e) => if cancelled {
            Err(JobError::Cancelled)
        } else {
            Err(e)
        },
    }
}

/// How a transfer over a fast channel ends.
pub open spec fn fast_end(result: Result<(), JobError>, cancelled: bool) -> Result<(), JobError> {
    match result {
        Ok(_) => Ok(()),
        Err(e) => if cancelled {
            Err(JobError::Cancelled)
        } else {
            Err(e)
        },
    }
}

/// A transfer over a fast channel ends well exactly if it did so itself; whatever
/// went wrong is told as it is, except that in a cancelled job it is told as the
/// cancellation.
pub proof fn law_fast_end(result: Result<(), JobError>, cancelled: bool)
    ensures
        fast_end(result, cancelled) is Ok <==> result is Ok,
        result is Err && cancelled ==> fast_end(result, cancelled)->Err_0 is Cancelled,
        result is Err && !cancelled ==> fast_end(result, cancelled)->Err_0 == result->Err_0,
{
}

/// How many chunks may wait between the local file and the fast channel.
pub const PIPELINE_DEPTH: usize = 4;

/// After how many chunks each time the connection's figures are logged.
pub const STATS_LOG_INTERVAL_CHUNKS: u64 = 40;

/// Counts the chunks of one transfer over a fast channel.
#[derive(Debug)]
pub struct ChunkMeter {
    pub chunks: u64,
    pub bytes: u64,
}

impl ChunkMeter {
    /// A meter that has seen nothing.
    pub fn new() -> (r: Self)
        ensures
            r.chunks == 0,
            r.bytes == 0,
    {
        ChunkMeter { chunks: 0, bytes: 0 }
    }

    /// Counts one chunk. At every [`STATS_LOG_INTERVAL_CHUNKS`]th the result is
    /// how many bytes there were so far.
    pub fn on_chunk(&mut self, len: usize) -> (r: Option<u64>)
        ensures
            final(self).chunks == job::wrapped(old(self).chunks as nat + 1),
            final(self).bytes == job::wrapped(old(self).bytes as nat + len as nat),
            r == (if final(self).chunks % STATS_LOG_INTERVAL_CHUNKS == 0 {
                Some(final(self).bytes)
            } else {
                None
            }),
    {
        self.chunks = self.chunks.wrapping_add(1);
        self.bytes = self.bytes.wrapping_add(len as u64);
        if self.chunks % STATS_LOG_INTERVAL_CHUNKS == 0 {
            Some(self.bytes)
        } else {
            None
        }
    }
}

/// The local end of a download over a fast channel.
#[derive(Debug)]
pub struct Download {
    pub total: u64,
    pub error: Option<String>,
}

impl Download {
    /// A download of which nothing has arrived yet.
    pub fn new() -> (r: Self)
        ensures
            r.total == 0,
            r.error is None,
    {
        Download { total: 0, error: None }
    }

    /// Takes note of a chunk of `len` bytes and of what came of writing it; the
    /// result says whether to go on.
    pub fn on_chunk(&mut self, len: usize, written: Result<(), String>) -> (r: bool)
        requires
            old(self).error is None,
        ensures
            chunk_arrived(*old(self), len as nat, written is Ok, *final(self)),
            match written {
                Ok(_) => r && final(self).error is None && final(self).total == job::wrapped(
                    old(self).total as nat + len as nat,
                ),
                Err(e) => !r && final(self).error == Some(e) && final(self).total
                    == old(self).total,
            },
    {
        match written {
            Ok(_) => {
                self.total = self.total.wrapping_add(len as u64);
                true
            },
            Err(e) => {
                self.error = Some(e);
                false
            },
        }
    }

    /// How the download ends, given how the network's end of it did: a failure
    /// there comes first, then one of the local file.
    pub fn finish(self, network: Result<u64, String>) -> (r: Result<u64, JobError>)
        ensures
            download_end(self, network, r),
            match (network, self.error) {
                (Err(e), _) => r == Err::<u64, JobError>(JobError::Vfs(VfsError::Io(e))),
                (Ok(_), Some(e)) => r == Err::<u64, JobError>(JobError::Vfs(VfsError::Io(e))),
                (Ok(_), None) => r == Ok::<u64, JobError>(self.total),
            },
    {
        match (network, self.error) {
            (Err(e), _) => Err(JobError::Vfs(VfsError::Io(e))),
            (Ok(_), Some(e)) => Err(JobError::Vfs(VfsError::Io(e))),
            (Ok(_), None) => Ok(self.total),
        }
    }
}

/// What the local end of an upload does with what it has just read.
#[derive(Debug)]
pub enum UploadStep {
    /// The file is at its end.
    Stop,
    /// Hand on the bytes that were read, and read on if they are taken.
    Send { len: usize },
    /// Hand on the error, and stop.
    SendError(String),
}

/// The next step of the local end of an upload.
pub fn upload_step(read: Result<usize, String>) -> (r: UploadStep)
    ensures
        r == step_for(read),
        match read {
            Ok(len) => if len == 0 {
                r is Stop
            } else {
                r == (UploadStep::Send { len })
            },
            Err(e) => r == UploadStep::SendError(e),
        },
{
    match read {
        Ok(len) => if len == 0 {
            UploadStep::Stop
        } else {
            UploadStep::Send { len }
        },
        Err(e) => UploadStep::SendError(e),
    }
}

/// How an upload ends, given how the network's end of it did.
pub fn finish_upload(network: Result<(), String>) -> (r: Result<(), JobError>)
    ensures
        match network {
            Ok(_) => r is Ok,
            Err(e) => r == Err::<(), JobError>(JobError::Vfs(VfsError::Io(e))),
        },
{
    match network {
        Ok(_) => Ok(()),
        Err(e) => Err(JobError::Vfs(VfsError::Io(e))),
    }
}

/// Whether `stages` are the stages of a plain copy from its beginning, and
/// `events` what came of the steps between them.
pub open spec fn is_stream_run(stages: Seq<StreamStage>, events: Seq<StreamEvent>) -> bool {
    &&& stages.len() == events.len() + 1
    &&& stages[0] is OpenRead
    &&& forall|i: int| 0 <= i < events.len() ==> #[trigger] is_stream_step(stages, events, i)
}

/// Whether a plain copy goes on from one stage to the next.
pub open spec fn is_stream_step(stages: Seq<StreamStage>, events: Seq<StreamEvent>, i: int) -> bool {
    &&& !(stages[i] is Ended)
    &&& events[i] is ReadBytes <==> stages[i] is Read && !(events[i] is Failed)
    &&& events[i] is Cancelled ==> stages[i] is CheckCancel
    &&& stages[i + 1] == next_stage(stages[i], events[i])
}

/// How many bytes have been read after the first `n` steps.
pub open spec fn bytes_read(events: Seq<StreamEvent>, n: int) -> nat
    decreases n,
{
    if n <= 0 {
        0
    } else {
        bytes_read(events, n - 1) + (match events[n - 1] {
            StreamEvent::ReadBytes { len } => len as nat,
            _ => 0nat,
        })
    }
}

/// How many bytes have been written after the first `n` steps.
pub open spec fn bytes_written(
    stages: Seq<StreamStage>,
    events: Seq<StreamEvent>,
    n: int,
) -> nat
    decreases n,
{
    if n <= 0 {
        0
    } else {
        bytes_written(stages, events, n - 1) + (match (stages[n - 1], events[n - 1]) {
            (StreamStage::Write { len }, StreamEvent::Done) => len as nat,
            _ => 0nat,
        })
    }
}

/// Whether the last read of the first `n` steps gave no bytes.
pub open spec fn source_exhausted(events: Seq<StreamEvent>, n: int) -> bool
    decreases n,
{
    if n <= 0 {
        false
    } else if events[n - 1] is ReadBytes {
        events[n - 1] == (StreamEvent::ReadBytes { len: 0 })
    } else {
        source_exhausted(events, n - 1)
    }
}

/// What a plain copy keeps true, whatever comes of its steps: what it has read it
/// has written or writes next, it flushes only once a read has given nothing, and
/// it ends well only by flushing.
proof fn lemma_stream_run(stages: Seq<StreamStage>, events: Seq<StreamEvent>, n: int)
    requires
        is_stream_run(stages, events),
        0 <= n <= events.len(),
    ensures
        stages[n] matches StreamStage::Write { len } ==> len > 0 && bytes_read(events, n)
            == bytes_written(stages, events, n) + len,
        !(stages[n] is Write) && !(stages[n] is Ended) ==> bytes_read(events, n) == bytes_written(
            stages,
            events,
            n,
        ),
        stages[n] is Flush ==> source_exhausted(events, n),
        stages[n] is Read ==> n > 0 && stages[n - 1] is CheckCancel && events[n - 1] is Done,
        stages[n] matches StreamStage::Ended(Ok(_)) ==> {
            &&& n > 0
            &&& stages[n - 1] is Flush
            &&& events[n - 1] is Done
            &&& source_exhausted(events, n)
            &&& bytes_read(events, n) == bytes_written(stages, events, n)
        },
    decreases n,
{
    if n > 0 {
        lemma_stream_run(stages, events, n - 1);
        assert(is_stream_step(stages, events, n - 1));
    }
}

/// A plain copy that ends well has copied the whole file. `content` is the
/// source's content, and reads give what follows what was read before, and no
/// bytes only at its end. Then all of it has been written, in order, and after
/// the last read that gave nothing the destination was flushed.
pub proof fn law_stream_copies_everything(
    content: Seq<u8>,
    stages: Seq<StreamStage>,
    events: Seq<StreamEvent>,
)
    requires
        is_stream_run(stages, events),
        forall|i: int|
            0 <= i < events.len() ==> (#[trigger] events[i] matches StreamEvent::ReadBytes { len }
                ==> bytes_read(events, i) + len <= content.len() && (len == 0 ==> bytes_read(
                events,
                i,
            ) == content.len())),
        stages.last() matches StreamStage::Ended(Ok(_)),
    ensures
        bytes_written(stages, events, events.len() as int) == content.len(),
        source_exhausted(events, events.len() as int),
        events.len() > 0 && stages[events.len() - 1] is Flush,
        forall|i: int|
            0 <= i < events.len() ==> (#[trigger] stages[i] matches StreamStage::Write { len }
                ==> bytes_written(stages, events, i) + len == bytes_read(events, i)),
{
    let n = events.len() as int;
    lemma_stream_run(stages, events, n);
    lemma_exhausted_at_end(content, events, n);
    assert forall|i: int| 0 <= i < events.len() implies (#[trigger] stages[i] matches
        StreamStage::Write { len } ==> bytes_written(stages, events, i) + len == bytes_read(
        events,
        i,
    )) by {
        lemma_stream_run(stages, events, i);
    }
}

proof fn lemma_exhausted_at_end(content: Seq<u8>, events: Seq<StreamEvent>, n: int)
    requires
        0 <= n <= events.len(),
        source_exhausted(events, n),
        forall|i: int|
            0 <= i < events.len() ==> (#[trigger] events[i] matches StreamEvent::ReadBytes { len }
                ==> bytes_read(events, i) + len <= content.len() && (len == 0 ==> bytes_read(
                events,
                i,
            ) == content.len())),
    ensures
        bytes_read(events, n) == content.len(),
    decreases n,
{
    if n > 0 {
        if events[n - 1] is ReadBytes {
            assert(events[n - 1] matches StreamEvent::ReadBytes { len } && len == 0);
        } else {
            lemma_exhausted_at_end(content, events, n - 1);
        }
    }
}

/// Before every read a plain copy asks whether it should stop; asked to, it ends
/// as cancelled, and any failure ends it with that failure.
pub proof fn law_stream_can_be_stopped(
    stages: Seq<StreamStage>,
    events: Seq<StreamEvent>,
    i: int,
)
    requires
        is_stream_run(stages, events),
        0 <= i < events.len(),
    ensures
        stages[i] is Read ==> i > 0 && stages[i - 1] is CheckCancel && !(events[i - 1]
            is Cancelled),
        events[i] is Cancelled ==> stages[i + 1] == StreamStage::Ended(Err(JobError::Cancelled)),
        events[i] matches StreamEvent::Failed(e) ==> stages[i + 1] == StreamStage::Ended(
            Err(JobError::Vfs(e)),
        ),
        stages[i] is Write && events[i] is Done ==> stages[i + 1] is Report,
{
    lemma_stream_run(stages, events, i);
    assert(is_stream_step(stages, events, i));
}

/// Whether a download goes from one state to the next by a chunk.
pub open spec fn chunk_arrived(
    before: Download,
    len: nat,
    written: bool,
    after: Download,
) -> bool {
    if written {
        after.error is None && after.total == job::wrapped(before.total as nat + len)
    } else {
        after.error is Some && after.total == before.total
    }
}

/// Whether `states` are those of a download from its beginning whose chunks had
/// these lengths and were all written.
pub open spec fn is_download_run(states: Seq<Download>, lens: Seq<nat>) -> bool {
    &&& states.len() == lens.len() + 1
    &&& states[0].total == 0
    &&& forall|i: int|
        0 <= i < lens.len() ==> chunk_arrived(#[trigger] states[i], lens[i], true, states[i + 1])
}

/// A download has as many bytes as its chunks have together.
pub proof fn law_download_adds_up(states: Seq<Download>, lens: Seq<nat>)
    requires
        is_download_run(states, lens),
        job::total(lens) <= u64::MAX,
    ensures
        states.last().total == job::total(lens),
        lens.len() > 0 ==> states.last().error is None,
    decreases lens.len(),
{
    if lens.len() > 0 {
        let n = lens.len() - 1;
        let before = states.drop_last();
        let shorter = lens.drop_last();
        assert forall|i: int| 0 <= i < shorter.len() implies chunk_arrived(
            #[trigger] before[i],
            shorter[i],
            true,
            before[i + 1],
        ) by {
            assert(chunk_arrived(states[i], lens[i], true, states[i + 1]));
        }
        law_download_adds_up(before, shorter);
        assert(chunk_arrived(states[n], lens[n], true, states[n + 1]));
        assert(before.last() == states[n]);
        job::law_wrapped((states[n].total + lens[n]) as nat);
    }
}

/// How a download ends, given how the network's end of it did.
pub open spec fn download_end(
    d: Download,
    network: Result<u64, String>,
    r: Result<u64, JobError>,
) -> bool {
    match (network, d.error) {
        (Err(e), _) => r == Err::<u64, JobError>(JobError::Vfs(VfsError::Io(e))),
        (Ok(_), Some(e)) => r == Err::<u64, JobError>(JobError::Vfs(VfsError::Io(e))),
        (Ok(_), None) => r == Ok::<u64, JobError>(d.total),
    }
}

/// A download succeeds exactly if nothing failed at either end, and then tells how
/// many bytes were written; whatever failed is the error, and never a cancellation.
pub proof fn law_download_end(d: Download, network: Result<u64, String>, r: Result<u64, JobError>)
    requires
        download_end(d, network, r),
    ensures
        r is Ok <==> network is Ok && d.error is None,
        r matches Ok(n) ==> n == d.total,
        r matches Err(e) ==> (e matches JobError::Vfs(VfsError::Io(why)) && (network == Err::<
            u64,
            String,
        >(why) || d.error == Some(why))),
{
}

/// What the local end of an upload does with what it has just read.
pub open spec fn step_for(read: Result<usize, String>) -> UploadStep {
    match read {
        Ok(len) => if len == 0 {
            UploadStep::Stop
        } else {
            UploadStep::Send { len }
        },
        Err(e) => UploadStep::SendError(e),
    }
}

/// How many bytes the steps of an upload send.
pub open spec fn bytes_sent(reads: Seq<Result<usize, String>>) -> nat
    decreases reads.len(),
{
    if reads.len() == 0 {
        0
    } else {
        bytes_sent(reads.drop_last()) + (match step_for(reads.last()) {
            UploadStep::Send { len } => len as nat,
            _ => 0nat,
        })
    }
}

/// An upload sends every byte that is read, goes on while there are any, stops at
/// the end of the file and there only, and hands an error on.
pub proof fn law_upload_sends_everything(
    reads: Seq<Result<usize, String>>,
    lens: Seq<nat>,
    read: Result<usize, String>,
)
    requires
        reads.len() == lens.len(),
        forall|i: int|
            0 <= i < reads.len() ==> (#[trigger] reads[i]) is Ok && reads[i]->Ok_0 == lens[i],
    ensures
        bytes_sent(reads) == job::total(lens),
        step_for(read) is Stop <==> read == Ok::<usize, String>(0),
        step_for(read) is SendError <==> read is Err,
    decreases reads.len(),
{
    if reads.len() > 0 {
        let before = reads.drop_last();
        let shorter = lens.drop_last();
        assert forall|i: int| 0 <= i < before.len() implies (#[trigger] before[i]) is Ok
            && before[i]->Ok_0 == shorter[i] by {
            assert(before[i] == reads[i]);
        }
        law_upload_sends_everything(before, shorter, read);
        assert(reads[reads.len() - 1] is Ok);
    }
}

} // verus!
