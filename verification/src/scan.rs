//! Finding out what a copy, delete or sync has to do, one question at a time.
//!
//! A [`Scan`] never touches a backend itself. It says what it wants to know
//! next ([`Scan::pending`]), is told the answer, and in the end hands over what
//! it found: what to copy and what to delete. Scanning changes nothing.

use vstd::prelude::*;

use crate::path;
use crate::path::VfsPath;
use crate::vfs;
use crate::vfs::{EntryKind, EntryMeta, FileTime, VfsError, VfsResult};

verus! {

/// Which of the two backends of a job a question or an operation is for. A job
/// that only deletes has one backend, which counts as the destination.
#[derive(Clone, Copy, Debug, PartialEq, Eq, Structural)]
pub enum Side {
    Src,
    Dst,
}

/// A question about one path of a backend.
#[derive(Debug)]
pub enum ScanRequest {
    Stat { side: Side, path: VfsPath },
    List { side: Side, path: VfsPath },
    Hash { side: Side, path: VfsPath },
}

/// A question about one path, with the path as plain text.
pub ghost enum Ask {
    Stat(Side, Seq<char>),
    List(Side, Seq<char>),
    Hash(Side, Seq<char>),
}

impl ScanRequest {
    /// The question itself.
    pub open spec fn ask(self) -> Ask {
        match self {
            ScanRequest::Stat { side, path } => Ask::Stat(side, path@),
            ScanRequest::List { side, path } => Ask::List(side, path@),
            ScanRequest::Hash { side, path } => Ask::Hash(side, path@),
        }
    }
}

/// One thing to create or overwrite: `dst_path` from `src_path`.
/// `replace_existing`, when there is one, is the entry now at `dst_path` that
/// must be removed first because it is of another shape.
#[derive(Debug)]
pub struct SyncCopyItem {
    pub src_path: VfsPath,
    pub dst_path: VfsPath,
    pub meta: EntryMeta,
    pub replace_existing: Option<EntryMeta>,
}

/// A planned copy, with its paths as plain text.
pub ghost struct CopyPlanned {
    pub src: Seq<char>,
    pub dst: Seq<char>,
    pub meta: EntryMeta,
    pub replaces: Option<EntryMeta>,
}

impl SyncCopyItem {
    /// What the item plans.
    pub open spec fn planned(self) -> CopyPlanned {
        CopyPlanned {
            src: self.src_path@,
            dst: self.dst_path@,
            meta: self.meta,
            replaces: self.replace_existing,
        }
    }
}

impl Clone for SyncCopyItem {
    fn clone(&self) -> (r: Self)
        ensures
            r == *self,
    {
        SyncCopyItem {
            src_path: self.src_path.clone(),
            dst_path: self.dst_path.clone(),
            meta: self.meta.clone(),
            replace_existing: match &self.replace_existing {
                Some(m) => Some(m.clone()),
                None => None,
            },
        }
    }
}

/// What a list of copy items plans.
pub open spec fn copies_planned(items: Seq<SyncCopyItem>) -> Seq<CopyPlanned> {
    Seq::new(items.len(), |i: int| items[i].planned())
}

/// What a list of deletions plans.
pub open spec fn deletes_planned(items: Seq<(VfsPath, EntryMeta)>) -> Seq<(Seq<char>, EntryMeta)> {
    Seq::new(items.len(), |i: int| (items[i].0@, items[i].1))
}

/// What a scan has found so far.
#[verifier::ext_equal]
pub ghost struct Found {
    pub copy: Seq<CopyPlanned>,
    pub delete: Seq<(Seq<char>, EntryMeta)>,
}

/// A whole scan: what is asked, in order, and what comes of it.
#[verifier::ext_equal]
pub ghost struct Run {
    pub asks: Seq<Ask>,
    pub result: Result<Found, VfsError>,
}

/// The two backends as they stand while a scan looks at them. `rank` bounds
/// how deep a directory goes.
pub ghost struct World {
    pub stat: spec_fn(Side, Seq<char>) -> VfsResult<EntryMeta>,
    pub list: spec_fn(Side, Seq<char>) -> VfsResult<Seq<EntryMeta>>,
    pub hash: spec_fn(Side, Seq<char>) -> VfsResult<Option<u64>>,
    pub rank: spec_fn(Side, Seq<char>) -> nat,
}

impl World {
    /// Directories are not nested in each other forever: what a directory
    /// lists ranks below it.
    pub open spec fn is_finite(self) -> bool {
        forall|side: Side, dir: Seq<char>, i: int|
            (self.list)(side, dir) is Ok && 0 <= i < (self.list)(side, dir)->Ok_0.len() ==> (
            self.rank)(side, (#[trigger] (self.list)(side, dir)->Ok_0[i]).path@) < (self.rank)(
                side,
                dir,
            )
    }
}

/// Nothing asked, nothing found.
pub open spec fn nothing() -> Run {
    Run { asks: Seq::empty(), result: Ok(Found { copy: Seq::empty(), delete: Seq::empty() }) }
}

/// The scan ends in an error.
pub open spec fn fails(e: VfsError) -> Run {
    Run { asks: Seq::empty(), result: Err(e) }
}

/// One copy found.
pub open spec fn copies(c: CopyPlanned) -> Run {
    Run { asks: Seq::empty(), result: Ok(Found { copy: seq![c], delete: Seq::empty() }) }
}

/// One deletion found.
pub open spec fn deletes(at: Seq<char>, meta: EntryMeta) -> Run {
    Run { asks: Seq::empty(), result: Ok(Found { copy: Seq::empty(), delete: seq![(at, meta)] }) }
}

/// `a` is asked first, and the rest is `r`.
pub open spec fn asked(a: Ask, r: Run) -> Run {
    Run { asks: seq![a] + r.asks, result: r.result }
}

/// First `a`, and then `b` unless `a` failed.
pub open spec fn in_order(a: Run, b: Run) -> Run {
    match a.result {
        Err(_) => a,
        Ok(x) => Run {
            asks: a.asks + b.asks,
            result: match b.result {
                Err(e) => Err(e),
                Ok(y) => Ok(Found { copy: x.copy + y.copy, delete: x.delete + y.delete }),
            },
        },
    }
}

/// The copy scan of one path: the path itself and then, if it is a directory,
/// everything in it.
pub open spec fn copy_visit(w: World, src: Seq<char>, dst: Seq<char>) -> Run
    decreases (w.rank)(Side::Src, src), 2nat, 0nat,
{
    asked(
        Ask::Stat(Side::Src, src),
        match (w.stat)(Side::Src, src) {
            Err(e) => fails(e),
            Ok(meta) => in_order(
                copies(CopyPlanned { src, dst, meta, replaces: None }),
                if meta.kind is Dir {
                    copy_expand(w, src, dst)
                } else {
                    nothing()
                },
            ),
        },
    )
}

/// The copy scan of everything in a directory.
pub open spec fn copy_expand(w: World, src: Seq<char>, dst: Seq<char>) -> Run
    decreases (w.rank)(Side::Src, src), 1nat, 0nat,
{
    asked(
        Ask::List(Side::Src, src),
        match (w.list)(Side::Src, src) {
            Err(e) => fails(e),
            Ok(entries) => copy_all(w, entries, dst, (w.rank)(Side::Src, src)),
        },
    )
}

/// The copy scan of listed entries, one after the other.
pub open spec fn copy_all(w: World, entries: Seq<EntryMeta>, dst: Seq<char>, below: nat) -> Run
    decreases below, 0nat, entries.len(),
{
    if entries.len() == 0 {
        nothing()
    } else if (w.rank)(Side::Src, entries[0].path@) < below {
        in_order(
            copy_visit(w, entries[0].path@, path::joined(dst, entries[0].name@)),
            copy_all(w, entries.skip(1), dst, below),
        )
    } else {
        nothing()
    }
}

/// The error for something to copy that has no name of its own.
pub open spec fn no_name() -> VfsError {
    VfsError::Unsupported("item has no file name")
}

/// The copy scan of the chosen items into the directory `dest`.
pub open spec fn copy_items(w: World, items: Seq<Seq<char>>, dest: Seq<char>) -> Run
    decreases items.len(),
{
    if items.len() == 0 {
        nothing()
    } else {
        in_order(copy_item(w, items[0], dest), copy_items(w, items.skip(1), dest))
    }
}

/// The copy scan of one chosen item, which keeps its name in `dest`.
pub open spec fn copy_item(w: World, item: Seq<char>, dest: Seq<char>) -> Run {
    match path::last_name(item) {
        None => fails(no_name()),
        Some(name) => copy_visit(w, item, path::joined(dest, name)),
    }
}

/// The delete scan of one path: everything in it, if it is a directory, and
/// then the path itself.
pub open spec fn delete_visit(w: World, side: Side, at: Seq<char>) -> Run
    decreases (w.rank)(side, at), 2nat, 0nat,
{
    asked(
        Ask::Stat(side, at),
        match (w.stat)(side, at) {
            Err(e) => fails(e),
            Ok(meta) => in_order(
                if meta.kind is Dir {
                    delete_expand(w, side, at)
                } else {
                    nothing()
                },
                deletes(at, meta),
            ),
        },
    )
}

/// The delete scan of everything in a directory.
pub open spec fn delete_expand(w: World, side: Side, at: Seq<char>) -> Run
    decreases (w.rank)(side, at), 1nat, 0nat,
{
    asked(
        Ask::List(side, at),
        match (w.list)(side, at) {
            Err(e) => fails(e),
            Ok(entries) => delete_all(w, side, entries, (w.rank)(side, at)),
        },
    )
}

/// The delete scan of listed entries, one after the other.
pub open spec fn delete_all(w: World, side: Side, entries: Seq<EntryMeta>, below: nat) -> Run
    decreases below, 0nat, entries.len(),
{
    if entries.len() == 0 {
        nothing()
    } else if (w.rank)(side, entries[0].path@) < below {
        in_order(
            delete_visit(w, side, entries[0].path@),
            delete_all(w, side, entries.skip(1), below),
        )
    } else {
        nothing()
    }
}

/// The delete scan of the chosen items.
pub open spec fn delete_items(w: World, side: Side, items: Seq<Seq<char>>) -> Run
    decreases items.len(),
{
    if items.len() == 0 {
        nothing()
    } else {
        in_order(delete_visit(w, side, items[0]), delete_items(w, side, items.skip(1)))
    }
}

/// A whole new copy of an entry that was listed as `meta`, in place of
/// `replaces`, with everything in it.
pub open spec fn full_copy(
    w: World,
    meta: EntryMeta,
    dst: Seq<char>,
    replaces: Option<EntryMeta>,
) -> Run
    decreases (w.rank)(Side::Src, meta.path@), 2nat, 0nat,
{
    in_order(
        copies(CopyPlanned { src: meta.path@, dst, meta, replaces }),
        if meta.kind is Dir {
            full_expand(w, meta.path@, dst)
        } else {
            nothing()
        },
    )
}

/// Whole new copies of everything in a directory.
pub open spec fn full_expand(w: World, src: Seq<char>, dst: Seq<char>) -> Run
    decreases (w.rank)(Side::Src, src), 1nat, 0nat,
{
    asked(
        Ask::List(Side::Src, src),
        match (w.list)(Side::Src, src) {
            Err(e) => fails(e),
            Ok(entries) => full_all(w, entries, dst, (w.rank)(Side::Src, src)),
        },
    )
}

/// Whole new copies of listed entries, one after the other.
pub open spec fn full_all(w: World, entries: Seq<EntryMeta>, dst: Seq<char>, below: nat) -> Run
    decreases below, 0nat, entries.len(),
{
    if entries.len() == 0 {
        nothing()
    } else if (w.rank)(Side::Src, entries[0].path@) < below {
        in_order(
            full_copy(w, entries[0], path::joined(dst, entries[0].name@), None),
            full_all(w, entries.skip(1), dst, below),
        )
    } else {
        nothing()
    }
}

/// SFTP times have whole seconds only while local ones are finer, and a copy
/// does not keep its source's time: this many seconds of difference mean
/// nothing.
pub const MTIME_TOLERANCE: u32 = 2;

/// Whether the times alone suggest that the source has changed: it is newer by
/// more than the tolerance, or one of the times is not known.
pub open spec fn time_suggests_change(src: Option<FileTime>, dst: Option<FileTime>) -> bool {
    match (src, dst) {
        (Some(s), Some(d)) => s.in_nanos() - d.in_nanos() > MTIME_TOLERANCE * 1_000_000_000,
        _ => true,
    }
}

/// Whether a file of equal size has changed: by its two hashes if both are
/// known, else by its two times.
pub open spec fn hash_or_time_changed(
    src_hash: Option<u64>,
    dst_hash: Option<u64>,
    src: Option<FileTime>,
    dst: Option<FileTime>,
) -> bool {
    match (src_hash, dst_hash) {
        (Some(s), Some(d)) => s != d,
        _ => time_suggests_change(src, dst),
    }
}

/// What the listings say of two entries of the same name, once both hashes are
/// known.
pub open spec fn file_after_hashes(
    src: EntryMeta,
    dst: EntryMeta,
    dst_path: Seq<char>,
    src_hash: Option<u64>,
    dst_hash: Option<u64>,
) -> Run {
    if hash_or_time_changed(src_hash, dst_hash, src.modified, dst.modified) {
        copies(CopyPlanned { src: src.path@, dst: dst_path, meta: src, replaces: None })
    } else {
        nothing()
    }
}

/// The comparison of two files of equal size once the source's hash is known.
pub open spec fn file_after_src_hash(
    w: World,
    src: EntryMeta,
    dst: EntryMeta,
    dst_path: Seq<char>,
    src_hash: Option<u64>,
) -> Run {
    asked(
        Ask::Hash(Side::Dst, dst.path@),
        match (w.hash)(Side::Dst, dst.path@) {
            Err(e) => fails(e),
            Ok(dst_hash) => file_after_hashes(src, dst, dst_path, src_hash, dst_hash),
        },
    )
}

/// The comparison of two files of equal size.
pub open spec fn file_by_hash(w: World, src: EntryMeta, dst: EntryMeta, dst_path: Seq<char>) -> Run {
    asked(
        Ask::Hash(Side::Src, src.path@),
        match (w.hash)(Side::Src, src.path@) {
            Err(e) => fails(e),
            Ok(src_hash) => file_after_src_hash(w, src, dst, dst_path, src_hash),
        },
    )
}

/// The sync scan of a name that both sides have: another shape is removed and
/// copied anew, directories are compared entry by entry, links by their
/// target, files by size and then by content.
pub open spec fn diff_entry(
    w: World,
    src: EntryMeta,
    dst: EntryMeta,
    dst_path: Seq<char>,
    delete_extraneous: bool,
) -> Run
    decreases (w.rank)(Side::Src, src.path@), 4nat, 0nat,
{
    if !vfs::same_shape(src.kind, dst.kind) {
        full_copy(w, src, dst_path, Some(dst))
    } else {
        match src.kind {
            EntryKind::Dir => diff_dir(w, src.path@, dst_path, delete_extraneous),
            EntryKind::Symlink { .. } => if !vfs::same_kind(src.kind, dst.kind) {
                copies(CopyPlanned { src: src.path@, dst: dst_path, meta: src, replaces: Some(dst) })
            } else {
                nothing()
            },
            EntryKind::File => if src.size != dst.size {
                copies(CopyPlanned { src: src.path@, dst: dst_path, meta: src, replaces: None })
            } else {
                file_by_hash(w, src, dst, dst_path)
            },
            EntryKind::Other => nothing(),
        }
    }
}

/// The sync scan of one listed source entry, with its counterpart if it has
/// one.
pub open spec fn diff_one(
    w: World,
    src: EntryMeta,
    dst: Option<EntryMeta>,
    dst_path: Seq<char>,
    delete_extraneous: bool,
) -> Run
    decreases (w.rank)(Side::Src, src.path@), 5nat, 0nat,
{
    match dst {
        None => full_copy(w, src, dst_path, None),
        Some(d) => diff_entry(w, src, d, dst_path, delete_extraneous),
    }
}

/// The position of the last entry with this name, or -1.
pub open spec fn last_named(entries: Seq<EntryMeta>, name: Seq<char>) -> int
    decreases entries.len(),
{
    if entries.len() == 0 {
        -1
    } else if entries.last().name@ == name {
        entries.len() - 1
    } else {
        last_named(entries.drop_last(), name)
    }
}

/// The destination's counterpart of the source entry at `i`: the entry of that
/// name (the last, should there be several), unless an earlier source entry of
/// the same name has taken it.
pub open spec fn counterpart(src: Seq<EntryMeta>, dst: Seq<EntryMeta>, i: int) -> Option<EntryMeta> {
    if last_named(src.take(i), src[i].name@) < 0 && last_named(dst, src[i].name@) >= 0 {
        Some(dst[last_named(dst, src[i].name@)])
    } else {
        None
    }
}

/// Whether the destination entry at `i` has no source entry of its name (and
/// is the last of its own name).
pub open spec fn is_leftover(src: Seq<EntryMeta>, dst: Seq<EntryMeta>, i: int) -> bool {
    last_named(src, dst[i].name@) < 0 && last_named(dst, dst[i].name@) == i
}

/// The first `n` destination entries that have no counterpart.
pub open spec fn leftovers(src: Seq<EntryMeta>, dst: Seq<EntryMeta>, n: int) -> Seq<EntryMeta>
    decreases n,
{
    if n <= 0 {
        Seq::empty()
    } else if is_leftover(src, dst, n - 1) {
        leftovers(src, dst, n - 1).push(dst[n - 1])
    } else {
        leftovers(src, dst, n - 1)
    }
}

/// The sync scan of the listed source entries from `i` on.
pub open spec fn diff_all(
    w: World,
    src: Seq<EntryMeta>,
    dst: Seq<EntryMeta>,
    dst_dir: Seq<char>,
    delete_extraneous: bool,
    i: int,
    below: nat,
) -> Run
    decreases below, 0nat, src.len() - i,
{
    if i < 0 || i >= src.len() {
        nothing()
    } else if (w.rank)(Side::Src, src[i].path@) < below {
        in_order(
            diff_one(
                w,
                src[i],
                counterpart(src, dst, i),
                path::joined(dst_dir, src[i].name@),
                delete_extraneous,
            ),
            diff_all(w, src, dst, dst_dir, delete_extraneous, i + 1, below),
        )
    } else {
        nothing()
    }
}

/// The sync scan of a directory whose source side is listed.
pub open spec fn diff_after_src(
    w: World,
    src_dir: Seq<char>,
    src: Seq<EntryMeta>,
    dst_dir: Seq<char>,
    delete_extraneous: bool,
) -> Run
    decreases (w.rank)(Side::Src, src_dir), 1nat, 0nat,
{
    asked(
        Ask::List(Side::Dst, dst_dir),
        match (w.list)(Side::Dst, dst_dir) {
            Err(e) => fails(e),
            Ok(dst) => in_order(
                diff_all(
                    w,
                    src,
                    dst,
                    dst_dir,
                    delete_extraneous,
                    0,
                    (w.rank)(Side::Src, src_dir),
                ),
                if delete_extraneous {
                    delete_all(
                        w,
                        Side::Dst,
                        leftovers(src, dst, dst.len() as int),
                        (w.rank)(Side::Dst, dst_dir),
                    )
                } else {
                    nothing()
                },
            ),
        },
    )
}

/// The sync scan of a directory: both sides are listed, every source entry is
/// compared with its counterpart, and what only the destination has is to be
/// deleted if `delete_extraneous` says so.
pub open spec fn diff_dir(
    w: World,
    src_dir: Seq<char>,
    dst_dir: Seq<char>,
    delete_extraneous: bool,
) -> Run
    decreases (w.rank)(Side::Src, src_dir), 3nat, 0nat,
{
    asked(
        Ask::List(Side::Src, src_dir),
        match (w.list)(Side::Src, src_dir) {
            Err(e) => fails(e),
            Ok(src) => diff_after_src(w, src_dir, src, dst_dir, delete_extraneous),
        },
    )
}

/// Something a scan still has to do.
#[allow(inconsistent_fields)]
enum Task {
    CopyTop { item: VfsPath },
    CopyVisit { src: VfsPath, dst: VfsPath },
    CopyExpand { src: VfsPath, dst: VfsPath },
    DeleteVisit { side: Side, at: VfsPath },
    DeleteExpand { side: Side, at: VfsPath },
    DeleteEmit { at: VfsPath, meta: EntryMeta },
    FullExpand { src: VfsPath, dst: VfsPath },
    DiffDir { src: VfsPath, dst: VfsPath },
    DiffDst { src: VfsPath, entries: Vec<EntryMeta>, dst: VfsPath },
    Entry { src: EntryMeta, dst: Option<EntryMeta>, dst_path: VfsPath },
    HashSrc { src: EntryMeta, dst: EntryMeta, dst_path: VfsPath },
    HashDst { src: EntryMeta, dst: EntryMeta, dst_path: VfsPath, src_hash: Option<u64> },
}

/// Something a scan still has to do, with its paths as plain text.
#[allow(inconsistent_fields)]
pub ghost enum Todo {
    CopyTop { item: Seq<char> },
    CopyVisit { src: Seq<char>, dst: Seq<char> },
    CopyExpand { src: Seq<char>, dst: Seq<char> },
    DeleteVisit { side: Side, at: Seq<char> },
    DeleteExpand { side: Side, at: Seq<char> },
    DeleteEmit { at: Seq<char>, meta: EntryMeta },
    FullExpand { src: Seq<char>, dst: Seq<char> },
    DiffDir { src: Seq<char>, dst: Seq<char> },
    DiffDst { src: Seq<char>, entries: Seq<EntryMeta>, dst: Seq<char> },
    Entry { src: EntryMeta, dst: Option<EntryMeta>, dst_path: Seq<char> },
    HashSrc { src: EntryMeta, dst: EntryMeta, dst_path: Seq<char> },
    HashDst { src: EntryMeta, dst: EntryMeta, dst_path: Seq<char>, src_hash: Option<u64> },
}

impl Task {
    spec fn todo(self) -> Todo {
        match self {
            Task::CopyTop { item } => Todo::CopyTop { item: item@ },
            Task::CopyVisit { src, dst } => Todo::CopyVisit { src: src@, dst: dst@ },
            Task::CopyExpand { src, dst } => Todo::CopyExpand { src: src@, dst: dst@ },
            Task::DeleteVisit { side, at } => Todo::DeleteVisit { side, at: at@ },
            Task::DeleteExpand { side, at } => Todo::DeleteExpand { side, at: at@ },
            Task::DeleteEmit { at, meta } => Todo::DeleteEmit { at: at@, meta },
            Task::FullExpand { src, dst } => Todo::FullExpand { src: src@, dst: dst@ },
            Task::DiffDir { src, dst } => Todo::DiffDir { src: src@, dst: dst@ },
            Task::DiffDst { src, entries, dst } => Todo::DiffDst {
                src: src@,
                entries: entries@,
                dst: dst@,
            },
            Task::Entry { src, dst, dst_path } => Todo::Entry { src, dst, dst_path: dst_path@ },
            Task::HashSrc { src, dst, dst_path } => Todo::HashSrc { src, dst, dst_path: dst_path@ },
            Task::HashDst { src, dst, dst_path, src_hash } => Todo::HashDst {
                src,
                dst,
                dst_path: dst_path@,
                src_hash,
            },
        }
    }
}

spec fn todos(tasks: Seq<Task>) -> Seq<Todo> {
    Seq::new(tasks.len(), |i: int| tasks[i].todo())
}

/// The state of a scan. What is at the end of `todo` comes next.
#[verifier::ext_equal]
pub ghost struct ScanView {
    pub todo: Seq<Todo>,
    pub found: Found,
    pub failed: Option<VfsError>,
    pub dest: Seq<char>,
    pub delete_extraneous: bool,
}

impl Todo {
    /// What has to be asked for this.
    pub open spec fn ask(self) -> Option<Ask> {
        match self {
            Todo::CopyVisit { src, .. } => Some(Ask::Stat(Side::Src, src)),
            Todo::CopyExpand { src, .. } => Some(Ask::List(Side::Src, src)),
            Todo::DeleteVisit { side, at } => Some(Ask::Stat(side, at)),
            Todo::DeleteExpand { side, at } => Some(Ask::List(side, at)),
            Todo::FullExpand { src, .. } => Some(Ask::List(Side::Src, src)),
            Todo::DiffDir { src, .. } => Some(Ask::List(Side::Src, src)),
            Todo::DiffDst { dst, .. } => Some(Ask::List(Side::Dst, dst)),
            Todo::HashSrc { src, .. } => Some(Ask::Hash(Side::Src, src.path@)),
            Todo::HashDst { dst, .. } => Some(Ask::Hash(Side::Dst, dst.path@)),
            Todo::CopyTop { .. } => None,
            Todo::DeleteEmit { .. } => None,
            Todo::Entry { .. } => None,
        }
    }

    /// The part of the scan that this stands for.
    pub open spec fn run(self, w: World, dest: Seq<char>, delete_extraneous: bool) -> Run {
        match self {
            Todo::CopyTop { item } => copy_item(w, item, dest),
            Todo::CopyVisit { src, dst } => copy_visit(w, src, dst),
            Todo::CopyExpand { src, dst } => copy_expand(w, src, dst),
            Todo::DeleteVisit { side, at } => delete_visit(w, side, at),
            Todo::DeleteExpand { side, at } => delete_expand(w, side, at),
            Todo::DeleteEmit { at, meta } => deletes(at, meta),
            Todo::FullExpand { src, dst } => full_expand(w, src, dst),
            Todo::DiffDir { src, dst } => diff_dir(w, src, dst, delete_extraneous),
            Todo::DiffDst { src, entries, dst } => diff_after_src(
                w,
                src,
                entries,
                dst,
                delete_extraneous,
            ),
            Todo::Entry { src, dst, dst_path } => diff_one(
                w,
                src,
                dst,
                dst_path,
                delete_extraneous,
            ),
            Todo::HashSrc { src, dst, dst_path } => file_by_hash(w, src, dst, dst_path),
            Todo::HashDst { src, dst, dst_path, src_hash } => file_after_src_hash(
                w,
                src,
                dst,
                dst_path,
                src_hash,
            ),
        }
    }
}

/// Everything that is still to be done, the end of the list first.
pub open spec fn run_todo(
    w: World,
    todo: Seq<Todo>,
    dest: Seq<char>,
    delete_extraneous: bool,
) -> Run
    decreases todo.len(),
{
    if todo.len() == 0 {
        nothing()
    } else {
        in_order(
            todo.last().run(w, dest, delete_extraneous),
            run_todo(w, todo.drop_last(), dest, delete_extraneous),
        )
    }
}

impl ScanView {
    /// What is asked next.
    pub open spec fn pending(self) -> Option<Ask> {
        if self.failed is Some || self.todo.len() == 0 {
            None
        } else {
            self.todo.last().ask()
        }
    }

    /// What the whole scan comes to from here, given that the backends stand
    /// as in `w`.
    pub open spec fn run(self, w: World) -> Run {
        match self.failed {
            Some(e) => fails(e),
            None => in_order(
                Run { asks: Seq::empty(), result: Ok(self.found) },
                run_todo(w, self.todo, self.dest, self.delete_extraneous),
            ),
        }
    }

    /// Whether what the scan has been told about the source so far is how it
    /// stands in `w`.
    pub open spec fn agrees_with(self, w: World) -> bool {
        forall|i: int|
            0 <= i < self.todo.len() ==> (#[trigger] self.todo[i] matches Todo::DiffDst {
                src,
                entries,
                ..
            } ==> (w.list)(Side::Src, src) == Ok::<Seq<EntryMeta>, VfsError>(entries))
    }

    /// Whether a question is pending, or there is nothing left to do.
    pub open spec fn is_settled(self) -> bool {
        self.failed is Some || self.todo.len() == 0 || self.pending() is Some
    }

    /// The state without the task that comes next.
    pub open spec fn popped(self) -> ScanView {
        ScanView { todo: self.todo.drop_last(), ..self }
    }

    /// The state with `t` in place of the task that comes next.
    pub open spec fn replaced(self, t: Todo) -> ScanView {
        ScanView { todo: self.todo.drop_last().push(t), ..self }
    }

    /// The state after an error.
    pub open spec fn failing(self, e: VfsError) -> ScanView {
        ScanView { failed: Some(e), ..self }
    }

    /// The state with one more copy found.
    pub open spec fn with_copy(self, c: CopyPlanned) -> ScanView {
        ScanView { found: Found { copy: self.found.copy.push(c), ..self.found }, ..self }
    }

    /// The state with one more deletion found.
    pub open spec fn with_delete(self, at: Seq<char>, meta: EntryMeta) -> ScanView {
        ScanView { found: Found { delete: self.found.delete.push((at, meta)), ..self.found }, ..self }
    }
}

/// The copy of a listed entry.
pub open spec fn copy_of(meta: EntryMeta, dst: Seq<char>, replaces: Option<EntryMeta>) -> CopyPlanned {
    CopyPlanned { src: meta.path@, dst, meta, replaces }
}

/// A whole new copy of the entry that comes next: its directory's contents
/// are still to be listed.
pub open spec fn settle_full(
    v: ScanView,
    meta: EntryMeta,
    dst: Seq<char>,
    replaces: Option<EntryMeta>,
) -> ScanView {
    let copied = v.with_copy(copy_of(meta, dst, replaces));
    if meta.kind is Dir {
        copied.replaced(Todo::FullExpand { src: meta.path@, dst })
    } else {
        copied.popped()
    }
}

/// Deals with the entry that comes next, as far as its listing goes.
pub open spec fn settle_entry(
    v: ScanView,
    src: EntryMeta,
    dst: Option<EntryMeta>,
    dst_path: Seq<char>,
) -> ScanView {
    match dst {
        None => settle_full(v, src, dst_path, None),
        Some(d) => if !vfs::same_shape(src.kind, d.kind) {
            settle_full(v, src, dst_path, Some(d))
        } else {
            match src.kind {
                EntryKind::Dir => v.replaced(Todo::DiffDir { src: src.path@, dst: dst_path }),
                EntryKind::Symlink { .. } => if !vfs::same_kind(src.kind, d.kind) {
                    v.with_copy(copy_of(src, dst_path, Some(d))).popped()
                } else {
                    v.popped()
                },
                EntryKind::File => if src.size != d.size {
                    v.with_copy(copy_of(src, dst_path, None)).popped()
                } else {
                    v.replaced(Todo::HashSrc { src, dst: d, dst_path })
                },
                EntryKind::Other => v.popped(),
            }
        },
    }
}

/// One step that needs no answer.
pub open spec fn settle_step(v: ScanView) -> ScanView {
    match v.todo.last() {
        Todo::CopyTop { item } => match path::last_name(item) {
            None => v.failing(no_name()),
            Some(name) => v.replaced(Todo::CopyVisit { src: item, dst: path::joined(v.dest, name) }),
        },
        Todo::DeleteEmit { at, meta } => v.with_delete(at, meta).popped(),
        Todo::Entry { src, dst, dst_path } => settle_entry(v, src, dst, dst_path),
        _ => v,
    }
}

/// Everything that can be done without a further answer.
pub open spec fn settled(v: ScanView) -> ScanView
    decreases v.todo.len(),
{
    if v.is_settled() {
        v
    } else {
        let next = settle_step(v);
        if next.todo.len() < v.todo.len() {
            settled(next)
        } else {
            next
        }
    }
}

/// The state after a question about one path was answered.
pub open spec fn after_stat(v: ScanView, answer: VfsResult<EntryMeta>) -> ScanView {
    match answer {
        Err(e) => v.failing(e),
        Ok(meta) => match v.todo.last() {
            Todo::CopyVisit { src, dst } => {
                let copied = v.with_copy(CopyPlanned { src, dst, meta, replaces: None });
                settled(
                    if meta.kind is Dir {
                        copied.replaced(Todo::CopyExpand { src, dst })
                    } else {
                        copied.popped()
                    },
                )
            },
            Todo::DeleteVisit { side, at } => settled(
                if meta.kind is Dir {
                    ScanView {
                        todo: v.todo.drop_last().push(Todo::DeleteEmit { at, meta }).push(
                            Todo::DeleteExpand { side, at },
                        ),
                        ..v
                    }
                } else {
                    v.with_delete(at, meta).popped()
                },
            ),
            _ => v,
        },
    }
}

/// The tasks for listed entries, the first at the end.
pub open spec fn copy_tasks(entries: Seq<EntryMeta>, dst: Seq<char>) -> Seq<Todo> {
    Seq::new(
        entries.len(),
        |k: int|
            {
                let e = entries[entries.len() - 1 - k];
                Todo::CopyVisit { src: e.path@, dst: path::joined(dst, e.name@) }
            },
    )
}

/// The tasks for listed entries, the first at the end.
pub open spec fn full_tasks(entries: Seq<EntryMeta>, dst: Seq<char>) -> Seq<Todo> {
    Seq::new(
        entries.len(),
        |k: int|
            {
                let e = entries[entries.len() - 1 - k];
                Todo::Entry { src: e, dst: None, dst_path: path::joined(dst, e.name@) }
            },
    )
}

/// The tasks for listed entries, the first at the end.
pub open spec fn delete_tasks(entries: Seq<EntryMeta>, side: Side) -> Seq<Todo> {
    Seq::new(
        entries.len(),
        |k: int| Todo::DeleteVisit { side, at: entries[entries.len() - 1 - k].path@ },
    )
}

/// The tasks for the source entries of two listings, the first at the end.
pub open spec fn diff_tasks(
    src: Seq<EntryMeta>,
    dst: Seq<EntryMeta>,
    dst_dir: Seq<char>,
) -> Seq<Todo> {
    Seq::new(
        src.len(),
        |k: int|
            {
                let i = src.len() - 1 - k;
                Todo::Entry {
                    src: src[i],
                    dst: counterpart(src, dst, i),
                    dst_path: path::joined(dst_dir, src[i].name@),
                }
            },
    )
}

/// The state after a directory was listed.
pub open spec fn after_list(v: ScanView, answer: VfsResult<Seq<EntryMeta>>) -> ScanView {
    match answer {
        Err(e) => v.failing(e),
        Ok(entries) => {
            let rest = v.todo.drop_last();
            match v.todo.last() {
                Todo::CopyExpand { dst, .. } => settled(
                    ScanView { todo: rest + copy_tasks(entries, dst), ..v },
                ),
                Todo::DeleteExpand { side, .. } => settled(
                    ScanView { todo: rest + delete_tasks(entries, side), ..v },
                ),
                Todo::FullExpand { dst, .. } => settled(
                    ScanView { todo: rest + full_tasks(entries, dst), ..v },
                ),
                Todo::DiffDir { src, dst } => v.replaced(Todo::DiffDst { src, entries, dst }),
                Todo::DiffDst { entries: src_entries, dst, .. } => {
                    let only_dst = if v.delete_extraneous {
                        delete_tasks(
                            leftovers(src_entries, entries, entries.len() as int),
                            Side::Dst,
                        )
                    } else {
                        Seq::empty()
                    };
                    settled(
                        ScanView {
                            todo: rest + only_dst + diff_tasks(src_entries, entries, dst),
                            ..v
                        },
                    )
                },
                _ => v,
            }
        },
    }
}

/// The state after a file was hashed.
pub open spec fn after_hash(v: ScanView, answer: VfsResult<Option<u64>>) -> ScanView {
    match answer {
        Err(e) => v.failing(e),
        Ok(hash) => match v.todo.last() {
            Todo::HashSrc { src, dst, dst_path } => v.replaced(
                Todo::HashDst { src, dst, dst_path, src_hash: hash },
            ),
            Todo::HashDst { src, dst, dst_path, src_hash } => settled(
                if hash_or_time_changed(src_hash, hash, src.modified, dst.modified) {
                    v.with_copy(copy_of(src, dst_path, None)).popped()
                } else {
                    v.popped()
                },
            ),
            _ => v,
        },
    }
}

/// A listing as an answer to a question.
pub open spec fn listing(answer: VfsResult<Vec<EntryMeta>>) -> VfsResult<Seq<EntryMeta>> {
    match answer {
        Ok(entries) => Ok(entries@),
        Err(e) => Err(e),
    }
}

/// The texts of a list of paths.
pub open spec fn path_texts(paths: Seq<VfsPath>) -> Seq<Seq<char>> {
    Seq::new(paths.len(), |i: int| paths[i]@)
}

/// A scan that has still everything to do.
pub open spec fn fresh(todo: Seq<Todo>, dest: Seq<char>, delete_extraneous: bool) -> ScanView {
    ScanView {
        todo,
        found: Found { copy: Seq::empty(), delete: Seq::empty() },
        failed: None,
        dest,
        delete_extraneous,
    }
}

/// The first state of a copy scan.
pub open spec fn copy_start(items: Seq<Seq<char>>, dest: Seq<char>) -> ScanView {
    fresh(
        Seq::new(items.len(), |k: int| Todo::CopyTop { item: items[items.len() - 1 - k] }),
        dest,
        false,
    )
}

/// The first state of a delete scan.
pub open spec fn delete_start(items: Seq<Seq<char>>, side: Side) -> ScanView {
    fresh(
        Seq::new(items.len(), |k: int| Todo::DeleteVisit { side, at: items[items.len() - 1 - k] }),
        Seq::empty(),
        false,
    )
}

/// The first state of a sync scan.
pub open spec fn sync_start(
    src_root: Seq<char>,
    dst_root: Seq<char>,
    delete_extraneous: bool,
) -> ScanView {
    fresh(
        seq![Todo::DiffDir { src: src_root, dst: dst_root }],
        Seq::empty(),
        delete_extraneous,
    )
}

/// Whether the times alone suggest that the source has changed.
pub fn mtime_looks_changed(
    src_modified: Option<FileTime>,
    dst_modified: Option<FileTime>,
) -> (r: bool)
    ensures
        r == time_suggests_change(src_modified, dst_modified),
{
    match (src_modified, dst_modified) {
        (Some(src), Some(dst)) => src.is_after_by_more_than(&dst, MTIME_TOLERANCE),
        _ => true,
    }
}

/// Whether a file of equal size has changed.
pub fn content_changed(
    src_hash: Option<u64>,
    dst_hash: Option<u64>,
    src_modified: Option<FileTime>,
    dst_modified: Option<FileTime>,
) -> (r: bool)
    ensures
        r == hash_or_time_changed(src_hash, dst_hash, src_modified, dst_modified),
{
    match (src_hash, dst_hash) {
        (Some(s), Some(d)) => s != d,
        _ => mtime_looks_changed(src_modified, dst_modified),
    }
}

/// A scan in progress.
pub struct Scan {
    todo: Vec<Task>,
    copy: Vec<SyncCopyItem>,
    delete: Vec<(VfsPath, EntryMeta)>,
    failed: Option<VfsError>,
    dest: VfsPath,
    delete_extraneous: bool,
}

impl View for Scan {
    type V = ScanView;

    closed spec fn view(&self) -> ScanView {
        ScanView {
            todo: todos(self.todo@),
            found: Found {
                copy: copies_planned(self.copy@),
                delete: deletes_planned(self.delete@),
            },
            failed: self.failed,
            dest: self.dest@,
            delete_extraneous: self.delete_extraneous,
        }
    }
}

fn last_with_name(entries: &Vec<EntryMeta>, n: usize, name: &String) -> (r: Option<usize>)
    requires
        n <= entries@.len(),
    ensures
        r matches Some(i) ==> i < n && last_named(entries@.take(n as int), name@) == i,
        r is None ==> last_named(entries@.take(n as int), name@) < 0,
{
    let mut i: usize = n;
    while i > 0
        invariant
            i <= n <= entries@.len(),
            last_named(entries@.take(n as int), name@) == last_named(
                entries@.take(i as int),
                name@,
            ),
        decreases i,
    {
        proof {
            let t = entries@.take(i as int);
            assert(t.drop_last() == entries@.take(i - 1));
            assert(t.last() == entries@[i - 1]);
        }
        if entries[i - 1].name == *name {
            return Some(i - 1);
        }
        i -= 1;
    }
    None
}

fn find_counterpart(src: &Vec<EntryMeta>, dst: &Vec<EntryMeta>, i: usize) -> (r: Option<EntryMeta>)
    requires
        i < src@.len(),
    ensures
        r == counterpart(src@, dst@, i as int),
{
    proof {
        assert(dst@.take(dst@.len() as int) == dst@);
    }
    match last_with_name(src, i, &src[i].name) {
        Some(_) => None,
        None => match last_with_name(dst, dst.len(), &src[i].name) {
            Some(k) => Some(dst[k].clone()),
            None => None,
        },
    }
}

fn find_leftovers(src: &Vec<EntryMeta>, dst: &Vec<EntryMeta>) -> (r: Vec<EntryMeta>)
    ensures
        r@ == leftovers(src@, dst@, dst@.len() as int),
{
    let mut out: Vec<EntryMeta> = Vec::new();
    let mut i: usize = 0;
    while i < dst.len()
        invariant
            i <= dst@.len(),
            out@ == leftovers(src@, dst@, i as int),
        decreases dst.len() - i,
    {
        proof {
            assert(src@.take(src@.len() as int) == src@);
            assert(dst@.take(dst@.len() as int) == dst@);
        }
        let in_src: Option<usize> = last_with_name(src, src.len(), &dst[i].name);
        let last: Option<usize> = last_with_name(dst, dst.len(), &dst[i].name);
        if in_src.is_none() && last == Some(i) {
            out.push(dst[i].clone());
        }
        i += 1;
    }
    out
}

impl Scan {
    /// The copies found so far.
    pub closed spec fn copies_found(&self) -> Seq<SyncCopyItem> {
        self.copy@
    }

    /// The deletions found so far.
    pub closed spec fn deletes_found(&self) -> Seq<(VfsPath, EntryMeta)> {
        self.delete@
    }

    /// What has been found is what the scan's state says.
    pub proof fn law_found(&self)
        ensures
            copies_planned(self.copies_found()) == self@.found.copy,
            deletes_planned(self.deletes_found()) == self@.found.delete,
    {
    }

    fn begin(dest: VfsPath, delete_extraneous: bool) -> (r: Self)
        ensures
            r@ == fresh(Seq::empty(), dest@, delete_extraneous),
    {
        let r = Scan {
            todo: Vec::new(),
            copy: Vec::new(),
            delete: Vec::new(),
            failed: None,
            dest,
            delete_extraneous,
        };
        proof {
            assert(r@ =~= fresh(Seq::empty(), dest@, delete_extraneous));
        }
        r
    }

    fn push(&mut self, task: Task)
        ensures
            final(self)@ == (ScanView { todo: old(self)@.todo.push(task.todo()), ..old(self)@ }),
    {
        self.todo.push(task);
        proof {
            assert(todos(self.todo@) =~= todos(old(self).todo@).push(task.todo()));
        }
    }

    fn pop(&mut self)
        requires
            old(self)@.todo.len() > 0,
        ensures
            final(self)@ == old(self)@.popped(),
    {
        let _ = self.todo.pop();
        proof {
            assert(todos(self.todo@) =~= todos(old(self).todo@).drop_last());
        }
    }

    fn replace(&mut self, task: Task)
        requires
            old(self)@.todo.len() > 0,
        ensures
            final(self)@ == old(self)@.replaced(task.todo()),
    {
        self.pop();
        self.push(task);
    }

    fn found_copy(&mut self, item: SyncCopyItem)
        ensures
            final(self)@ == old(self)@.with_copy(item.planned()),
    {
        self.copy.push(item);
        proof {
            assert(copies_planned(self.copy@) =~= copies_planned(old(self).copy@).push(
                item.planned(),
            ));
        }
    }

    fn found_delete(&mut self, at: VfsPath, meta: EntryMeta)
        ensures
            final(self)@ == old(self)@.with_delete(at@, meta),
    {
        self.delete.push((at, meta));
        proof {
            assert(deletes_planned(self.delete@) =~= deletes_planned(old(self).delete@).push(
                (at@, meta),
            ));
        }
    }

    /// A scan of what copying `items` into the directory `dest_dir` takes.
    pub fn for_copy(items: &Vec<VfsPath>, dest_dir: &VfsPath) -> (r: Self)
        ensures
            r@ == settled(copy_start(path_texts(items@), dest_dir@)),
    {
        let mut scan = Scan::begin(dest_dir.clone(), false);
        let ghost start = copy_start(path_texts(items@), dest_dir@);
        let mut i: usize = items.len();
        while i > 0
            invariant
                i <= items@.len(),
                start == copy_start(path_texts(items@), dest_dir@),
                scan@ == (ScanView { todo: start.todo.take(items@.len() - i), ..start }),
            decreases i,
        {
            i -= 1;
            scan.push(Task::CopyTop { item: items[i].clone() });
            proof {
                let n = items@.len() - i;
                assert(start.todo.take(n) =~= start.todo.take(n - 1).push(start.todo[n - 1]));
            }
        }
        proof {
            assert(start.todo.take(items@.len() as int) == start.todo);
        }
        scan.settle();
        scan
    }

    /// A scan of what deleting `items` from one of the sides takes.
    pub fn for_delete(items: &Vec<VfsPath>, side: Side) -> (r: Self)
        ensures
            r@ == settled(delete_start(path_texts(items@), side)),
    {
        let mut scan = Scan::begin(VfsPath::from_text(String::new()), false);
        let ghost start = delete_start(path_texts(items@), side);
        let mut i: usize = items.len();
        while i > 0
            invariant
                i <= items@.len(),
                start == delete_start(path_texts(items@), side),
                scan@ == (ScanView { todo: start.todo.take(items@.len() - i), ..start }),
            decreases i,
        {
            i -= 1;
            scan.push(Task::DeleteVisit { side, at: items[i].clone() });
            proof {
                let n = items@.len() - i;
                assert(start.todo.take(n) =~= start.todo.take(n - 1).push(start.todo[n - 1]));
            }
        }
        proof {
            assert(start.todo.take(items@.len() as int) == start.todo);
        }
        scan.settle();
        scan
    }

    /// A scan of what making `dst_root` like `src_root` takes.
    pub fn for_sync(src_root: &VfsPath, dst_root: &VfsPath, delete_extraneous: bool) -> (r: Self)
        ensures
            r@ == sync_start(src_root@, dst_root@, delete_extraneous),
    {
        let mut scan = Scan::begin(VfsPath::from_text(String::new()), delete_extraneous);
        scan.push(Task::DiffDir { src: src_root.clone(), dst: dst_root.clone() });
        proof {
            assert(scan@ =~= sync_start(src_root@, dst_root@, delete_extraneous));
        }
        scan
    }

    /// What the scan wants to know next; nothing once it is over.
    pub fn pending(&self) -> (r: Option<ScanRequest>)
        ensures
            r is Some <==> self@.pending() is Some,
            r matches Some(request) ==> self@.pending() == Some(request.ask()),
    {
        if self.failed.is_some() || self.todo.len() == 0 {
            return None;
        }
        let n: usize = self.todo.len();
        proof {
            assert(self@.todo.last() == self.todo@[n - 1].todo());
        }
        match &self.todo[n - 1] {
            Task::CopyVisit { src, .. } => Some(
                ScanRequest::Stat { side: Side::Src, path: src.clone() },
            ),
            Task::CopyExpand { src, .. } => Some(
                ScanRequest::List { side: Side::Src, path: src.clone() },
            ),
            Task::DeleteVisit { side, at } => Some(
                ScanRequest::Stat { side: *side, path: at.clone() },
            ),
            Task::DeleteExpand { side, at } => Some(
                ScanRequest::List { side: *side, path: at.clone() },
            ),
            Task::FullExpand { src, .. } => Some(
                ScanRequest::List { side: Side::Src, path: src.clone() },
            ),
            Task::DiffDir { src, .. } => Some(
                ScanRequest::List { side: Side::Src, path: src.clone() },
            ),
            Task::DiffDst { dst, .. } => Some(
                ScanRequest::List { side: Side::Dst, path: dst.clone() },
            ),
            Task::HashSrc { src, .. } => Some(
                ScanRequest::Hash { side: Side::Src, path: src.path.clone() },
            ),
            Task::HashDst { dst, .. } => Some(
                ScanRequest::Hash { side: Side::Dst, path: dst.path.clone() },
            ),
            _ => None,
        }
    }

    fn settle_full(&mut self, meta: EntryMeta, dst: VfsPath, replaces: Option<EntryMeta>)
        requires
            old(self)@.todo.len() > 0,
        ensures
            final(self)@ == settle_full(old(self)@, meta, dst@, replaces),
    {
        let src: VfsPath = meta.path.clone();
        let is_dir: bool = meta.kind.is_dir();
        self.found_copy(
            SyncCopyItem {
                src_path: src.clone(),
                dst_path: dst.clone(),
                meta,
                replace_existing: replaces,
            },
        );
        if is_dir {
            self.replace(Task::FullExpand { src, dst });
        } else {
            self.pop();
        }
    }

    fn settle_entry(&mut self, src: EntryMeta, dst: Option<EntryMeta>, dst_path: VfsPath)
        requires
            old(self)@.todo.len() > 0,
        ensures
            final(self)@ == settle_entry(old(self)@, src, dst, dst_path@),
    {
        match dst {
            None => {
                self.settle_full(src, dst_path, None);
            },
            Some(d) => {
                if !src.kind.has_shape_of(&d.kind) {
                    self.settle_full(src, dst_path, Some(d));
                    return;
                }
                match &src.kind {
                    EntryKind::Dir => {
                        self.replace(Task::DiffDir { src: src.path.clone(), dst: dst_path });
                    },
                    EntryKind::Symlink { .. } => {
                        if src.kind != d.kind {
                            let src_path: VfsPath = src.path.clone();
                            self.found_copy(
                                SyncCopyItem {
                                    src_path,
                                    dst_path,
                                    meta: src,
                                    replace_existing: Some(d),
                                },
                            );
                        }
                        self.pop();
                    },
                    EntryKind::File => {
                        if src.size != d.size {
                            let src_path: VfsPath = src.path.clone();
                            self.found_copy(
                                SyncCopyItem {
                                    src_path,
                                    dst_path,
                                    meta: src,
                                    replace_existing: None,
                                },
                            );
                            self.pop();
                        } else {
                            self.replace(Task::HashSrc { src, dst: d, dst_path });
                        }
                    },
                    EntryKind::Other => {
                        self.pop();
                    },
                }
            },
        }
    }

    fn settle_step(&mut self)
        requires
            !old(self)@.is_settled(),
        ensures
            final(self)@ == settle_step(old(self)@),
    {
        let n: usize = self.todo.len();
        proof {
            assert(self@.todo.last() == self.todo@[n - 1].todo());
        }
        match &self.todo[n - 1] {
            Task::CopyTop { item } => {
                let item: VfsPath = item.clone();
                match item.file_name() {
                    None => {
                        self.failed = Some(VfsError::Unsupported("item has no file name"));
                    },
                    Some(name) => {
                        let dst: VfsPath = self.dest.join(name.as_str());
                        self.replace(Task::CopyVisit { src: item, dst });
                    },
                }
            },
            Task::DeleteEmit { at, meta } => {
                let at: VfsPath = at.clone();
                let meta: EntryMeta = meta.clone();
                self.found_delete(at, meta);
                self.pop();
            },
            Task::Entry { src, dst, dst_path } => {
                let src: EntryMeta = src.clone();
                let dst: Option<EntryMeta> = match dst {
                    Some(d) => Some(d.clone()),
                    None => None,
                };
                let dst_path: VfsPath = dst_path.clone();
                self.settle_entry(src, dst, dst_path);
            },
            _ => {},
        }
    }

    fn is_settled(&self) -> (r: bool)
        ensures
            r == self@.is_settled(),
    {
        if self.failed.is_some() || self.todo.len() == 0 {
            return true;
        }
        let n: usize = self.todo.len();
        proof {
            assert(self@.todo.last() == self.todo@[n - 1].todo());
        }
        match &self.todo[n - 1] {
            Task::CopyTop { .. } => false,
            Task::DeleteEmit { .. } => false,
            Task::Entry { .. } => false,
            _ => true,
        }
    }

    fn settle(&mut self)
        ensures
            final(self)@ == settled(old(self)@),
    {
        let mut go: bool = true;
        while go && !self.is_settled()
            invariant
                go ==> settled(self@) == settled(old(self)@),
                !go ==> self@ == settled(old(self)@),
            decreases self@.todo.len(), (if go { 1int } else { 0int }),
        {
            let n: usize = self.todo.len();
            self.settle_step();
            go = self.todo.len() < n;
        }
    }

    /// Answers a question about one path.
    pub fn on_stat(&mut self, answer: VfsResult<EntryMeta>)
        requires
            old(self)@.pending() matches Some(Ask::Stat(_, _)),
        ensures
            final(self)@ == after_stat(old(self)@, answer),
    {
        let n: usize = self.todo.len();
        proof {
            assert(self@.todo.last() == self.todo@[n - 1].todo());
        }
        match answer {
            Err(e) => {
                self.failed = Some(e);
            },
            Ok(meta) => match &self.todo[n - 1] {
                Task::CopyVisit { src, dst } => {
                    let src: VfsPath = src.clone();
                    let dst: VfsPath = dst.clone();
                    let is_dir: bool = meta.kind.is_dir();
                    self.found_copy(
                        SyncCopyItem {
                            src_path: src.clone(),
                            dst_path: dst.clone(),
                            meta,
                            replace_existing: None,
                        },
                    );
                    if is_dir {
                        self.replace(Task::CopyExpand { src, dst });
                    } else {
                        self.pop();
                    }
                    self.settle();
                },
                Task::DeleteVisit { side, at } => {
                    let side: Side = *side;
                    let at: VfsPath = at.clone();
                    if meta.kind.is_dir() {
                        self.replace(Task::DeleteEmit { at: at.clone(), meta });
                        self.push(Task::DeleteExpand { side, at });
                    } else {
                        self.found_delete(at, meta);
                        self.pop();
                    }
                    self.settle();
                },
                _ => {},
            },
        }
    }

    fn push_copies(&mut self, entries: &Vec<EntryMeta>, dst: &VfsPath)
        ensures
            final(self)@ == (ScanView {
                todo: old(self)@.todo + copy_tasks(entries@, dst@),
                ..old(self)@
            }),
    {
        let ghost tasks = copy_tasks(entries@, dst@);
        let mut i: usize = entries.len();
        proof {
            assert(self@.todo + tasks.take(0) =~= self@.todo);
        }
        while i > 0
            invariant
                i <= entries@.len(),
                tasks == copy_tasks(entries@, dst@),
                self@ == (ScanView {
                    todo: old(self)@.todo + tasks.take(entries@.len() - i),
                    ..old(self)@
                }),
            decreases i,
        {
            i -= 1;
            let child: VfsPath = dst.join(entries[i].name.as_str());
            self.push(Task::CopyVisit { src: entries[i].path.clone(), dst: child });
            proof {
                let n = entries@.len() - i;
                assert(old(self)@.todo + tasks.take(n) =~= (old(self)@.todo + tasks.take(
                    n - 1,
                )).push(tasks[n - 1]));
            }
        }
        proof {
            assert(tasks.take(entries@.len() as int) == tasks);
        }
    }

    fn push_full(&mut self, entries: &Vec<EntryMeta>, dst: &VfsPath)
        ensures
            final(self)@ == (ScanView {
                todo: old(self)@.todo + full_tasks(entries@, dst@),
                ..old(self)@
            }),
    {
        let ghost tasks = full_tasks(entries@, dst@);
        let mut i: usize = entries.len();
        proof {
            assert(self@.todo + tasks.take(0) =~= self@.todo);
        }
        while i > 0
            invariant
                i <= entries@.len(),
                tasks == full_tasks(entries@, dst@),
                self@ == (ScanView {
                    todo: old(self)@.todo + tasks.take(entries@.len() - i),
                    ..old(self)@
                }),
            decreases i,
        {
            i -= 1;
            let child: VfsPath = dst.join(entries[i].name.as_str());
            self.push(Task::Entry { src: entries[i].clone(), dst: None, dst_path: child });
            proof {
                let n = entries@.len() - i;
                assert(old(self)@.todo + tasks.take(n) =~= (old(self)@.todo + tasks.take(
                    n - 1,
                )).push(tasks[n - 1]));
            }
        }
        proof {
            assert(tasks.take(entries@.len() as int) == tasks);
        }
    }

    fn push_deletes(&mut self, entries: &Vec<EntryMeta>, side: Side)
        ensures
            final(self)@ == (ScanView {
                todo: old(self)@.todo + delete_tasks(entries@, side),
                ..old(self)@
            }),
    {
        let ghost tasks = delete_tasks(entries@, side);
        let mut i: usize = entries.len();
        proof {
            assert(self@.todo + tasks.take(0) =~= self@.todo);
        }
        while i > 0
            invariant
                i <= entries@.len(),
                tasks == delete_tasks(entries@, side),
                self@ == (ScanView {
                    todo: old(self)@.todo + tasks.take(entries@.len() - i),
                    ..old(self)@
                }),
            decreases i,
        {
            i -= 1;
            self.push(Task::DeleteVisit { side, at: entries[i].path.clone() });
            proof {
                let n = entries@.len() - i;
                assert(old(self)@.todo + tasks.take(n) =~= (old(self)@.todo + tasks.take(
                    n - 1,
                )).push(tasks[n - 1]));
            }
        }
        proof {
            assert(tasks.take(entries@.len() as int) == tasks);
        }
    }

    fn push_diffs(&mut self, src: &Vec<EntryMeta>, dst: &Vec<EntryMeta>, dst_dir: &VfsPath)
        ensures
            final(self)@ == (ScanView {
                todo: old(self)@.todo + diff_tasks(src@, dst@, dst_dir@),
                ..old(self)@
            }),
    {
        let ghost tasks = diff_tasks(src@, dst@, dst_dir@);
        let mut i: usize = src.len();
        proof {
            assert(self@.todo + tasks.take(0) =~= self@.todo);
        }
        while i > 0
            invariant
                i <= src@.len(),
                tasks == diff_tasks(src@, dst@, dst_dir@),
                self@ == (ScanView {
                    todo: old(self)@.todo + tasks.take(src@.len() - i),
                    ..old(self)@
                }),
            decreases i,
        {
            i -= 1;
            let child: VfsPath = dst_dir.join(src[i].name.as_str());
            let other: Option<EntryMeta> = find_counterpart(src, dst, i);
            self.push(Task::Entry { src: src[i].clone(), dst: other, dst_path: child });
            proof {
                let n = src@.len() - i;
                assert(old(self)@.todo + tasks.take(n) =~= (old(self)@.todo + tasks.take(
                    n - 1,
                )).push(tasks[n - 1]));
            }
        }
        proof {
            assert(tasks.take(src@.len() as int) == tasks);
        }
    }

    /// Answers a question about what a directory holds.
    pub fn on_list(&mut self, answer: VfsResult<Vec<EntryMeta>>)
        requires
            old(self)@.pending() matches Some(Ask::List(_, _)),
        ensures
            final(self)@ == after_list(old(self)@, listing(answer)),
    {
        let n: usize = self.todo.len();
        proof {
            assert(self@.todo.last() == self.todo@[n - 1].todo());
        }
        match answer {
            Err(e) => {
                self.failed = Some(e);
            },
            Ok(entries) => match &self.todo[n - 1] {
                Task::CopyExpand { dst, .. } => {
                    let dst: VfsPath = dst.clone();
                    self.pop();
                    self.push_copies(&entries, &dst);
                    self.settle();
                },
                Task::DeleteExpand { side, .. } => {
                    let side: Side = *side;
                    self.pop();
                    self.push_deletes(&entries, side);
                    self.settle();
                },
                Task::FullExpand { dst, .. } => {
                    let dst: VfsPath = dst.clone();
                    self.pop();
                    self.push_full(&entries, &dst);
                    self.settle();
                },
                Task::DiffDir { src, dst } => {
                    let src: VfsPath = src.clone();
                    let dst: VfsPath = dst.clone();
                    self.replace(Task::DiffDst { src, entries, dst });
                },
                Task::DiffDst { entries: src_entries, dst, .. } => {
                    let src_entries: Vec<EntryMeta> = vfs::clone_entries(src_entries);
                    let dst: VfsPath = dst.clone();
                    self.pop();
                    let ghost rest = self@.todo;
                    if self.delete_extraneous {
                        let left: Vec<EntryMeta> = find_leftovers(&src_entries, &entries);
                        self.push_deletes(&left, Side::Dst);
                    } else {
                        proof {
                            assert(rest + Seq::<Todo>::empty() =~= rest);
                        }
                    }
                    self.push_diffs(&src_entries, &entries, &dst);
                    self.settle();
                },
                _ => {},
            },
        }
    }

    /// Answers a question about a file's hash.
    pub fn on_hash(&mut self, answer: VfsResult<Option<u64>>)
        requires
            old(self)@.pending() matches Some(Ask::Hash(_, _)),
        ensures
            final(self)@ == after_hash(old(self)@, answer),
    {
        let n: usize = self.todo.len();
        proof {
            assert(self@.todo.last() == self.todo@[n - 1].todo());
        }
        match answer {
            Err(e) => {
                self.failed = Some(e);
            },
            Ok(hash) => match &self.todo[n - 1] {
                Task::HashSrc { src, dst, dst_path } => {
                    let src: EntryMeta = src.clone();
                    let dst: EntryMeta = dst.clone();
                    let dst_path: VfsPath = dst_path.clone();
                    self.replace(Task::HashDst { src, dst, dst_path, src_hash: hash });
                },
                Task::HashDst { src, dst, dst_path, src_hash } => {
                    if content_changed(*src_hash, hash, src.modified, dst.modified) {
                        let item = SyncCopyItem {
                            src_path: src.path.clone(),
                            dst_path: dst_path.clone(),
                            meta: src.clone(),
                            replace_existing: None,
                        };
                        self.found_copy(item);
                    }
                    self.pop();
                    self.settle();
                },
                _ => {},
            },
        }
    }

    /// What a finished scan has found, or why it failed.
    pub fn finish(self) -> (r: VfsResult<(Vec<SyncCopyItem>, Vec<(VfsPath, EntryMeta)>)>)
        requires
            self@.pending() is None,
        ensures
            match r {
                Ok((copy, delete)) => {
                    &&& self@.failed is None
                    &&& copy@ == self.copies_found()
                    &&& delete@ == self.deletes_found()
                    &&& copies_planned(copy@) == self@.found.copy
                    &&& deletes_planned(delete@) == self@.found.delete
                },
                Err(e) => self@.failed == Some(e),
            },
    {
        match self.failed {
            Some(e) => Err(e),
            None => Ok((self.copy, self.delete)),
        }
    }
}

} // verus!
