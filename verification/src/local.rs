//! `LocalFs`: the local filesystem as a backend.

use vstd::prelude::*;

use crate::path;
use crate::path::VfsPath;
use crate::text::owned;
use crate::vfs;
use crate::vfs::{
    sort_entries, EntryKind, EntryMeta, FileTime, IoFailure, VfsCapabilities, VfsError,
};

verus! {

/// The local filesystem. Operates directly on absolute paths.
#[derive(Clone, Copy, Debug, PartialEq, Eq, Structural)]
pub struct LocalFs;

/// What the system says of a file.
#[derive(Debug)]
pub struct LocalStat {
    pub is_symlink: bool,
    pub is_dir: bool,
    pub is_file: bool,
    /// Where a link points, if that can be read and is UTF-8.
    pub target: Option<VfsPath>,
    pub size: u64,
    pub modified: Option<FileTime>,
    pub mode: u32,
}

/// One entry of a directory as the system lists it.
#[derive(Debug)]
pub struct LocalEntry {
    /// Its name, if that is UTF-8.
    pub name: Option<String>,
    /// What the system says of it, if it says anything.
    pub stat: Option<LocalStat>,
}

/// The kind of a file by what the system says of it.
pub open spec fn local_kind(stat: LocalStat) -> EntryKind {
    if stat.is_symlink {
        EntryKind::Symlink { target: stat.target }
    } else if stat.is_dir {
        EntryKind::Dir
    } else if stat.is_file {
        EntryKind::File
    } else {
        EntryKind::Other
    }
}

/// The permission bits of a mode.
pub open spec fn permission_bits(mode: u32) -> u32 {
    (mode % 4096) as u32
}

/// The permission bits of a mode.
pub fn permissions_of(mode: u32) -> (r: u32)
    ensures
        r == permission_bits(mode),
{
    mode % 4096
}

/// Whether `meta` is the entry for a local file.
pub open spec fn is_local_meta(
    meta: EntryMeta,
    at: Seq<char>,
    name: Seq<char>,
    stat: LocalStat,
) -> bool {
    &&& meta.name@ == name
    &&& meta.path@ == at
    &&& meta.kind == local_kind(stat)
    &&& meta.size == stat.size
    &&& meta.modified == stat.modified
    &&& meta.permissions == Some(permission_bits(stat.mode))
    &&& meta.owner is None
    &&& meta.group is None
}

fn entry_meta(at: VfsPath, name: String, stat: &LocalStat) -> (r: EntryMeta)
    ensures
        is_local_meta(r, at@, name@, *stat),
        r.path == at,
        r.name == name,
{
    let kind: EntryKind = if stat.is_symlink {
        EntryKind::Symlink {
            target: match &stat.target {
                Some(t) => Some(t.clone()),
                None => None,
            },
        }
    } else if stat.is_dir {
        EntryKind::Dir
    } else if stat.is_file {
        EntryKind::File
    } else {
        EntryKind::Other
    };
    EntryMeta {
        name,
        path: at,
        kind,
        size: stat.size,
        modified: stat.modified,
        permissions: Some(permissions_of(stat.mode)),
        owner: None,
        group: None,
    }
}

/// The error for a failed operation on a path.
pub open spec fn local_error(failure: IoFailure, why: String, at: VfsPath) -> VfsError {
    match failure {
        IoFailure::NotFound => VfsError::NotFound(at),
        IoFailure::PermissionDenied => VfsError::PermissionDenied(at),
        IoFailure::AlreadyExists => VfsError::AlreadyExists(at),
        IoFailure::Other => VfsError::Io(why),
    }
}

/// The error for a failed operation on a path.
pub fn map_io_err(failure: IoFailure, why: String, at: &VfsPath) -> (r: VfsError)
    ensures
        r == local_error(failure, why, *at),
{
    match failure {
        IoFailure::NotFound => VfsError::NotFound(at.clone()),
        IoFailure::PermissionDenied => VfsError::PermissionDenied(at.clone()),
        IoFailure::AlreadyExists => VfsError::AlreadyExists(at.clone()),
        IoFailure::Other => VfsError::Io(why),
    }
}

/// Whether a listed entry is shown: its name is UTF-8 and the system says what
/// it is.
pub open spec fn is_shown(e: LocalEntry) -> bool {
    e.name is Some && e.stat is Some
}

/// The first `n` listed entries that are shown.
pub open spec fn shown(entries: Seq<LocalEntry>, n: int) -> Seq<LocalEntry>
    decreases n,
{
    if n <= 0 {
        Seq::empty()
    } else if is_shown(entries[n - 1]) {
        shown(entries, n - 1).push(entries[n - 1])
    } else {
        shown(entries, n - 1)
    }
}

/// Whether `metas` are the entries for listed ones of the directory `dir`.
pub open spec fn are_local_metas(
    metas: Seq<EntryMeta>,
    entries: Seq<LocalEntry>,
    dir: Seq<char>,
) -> bool {
    &&& metas.len() == entries.len()
    &&& forall|i: int|
        0 <= i < metas.len() ==> is_local_meta(
            #[trigger] metas[i],
            path::joined(dir, entries[i].name->0@),
            entries[i].name->0@,
            entries[i].stat->0,
        )
}

/// Whether `listed` is the listing of what the system listed of the directory
/// `dir`, in display order.
pub open spec fn is_local_listing(
    listed: Seq<EntryMeta>,
    entries: Seq<LocalEntry>,
    dir: Seq<char>,
) -> bool {
    exists|metas: Seq<EntryMeta>|
        {
            &&& #[trigger] are_local_metas(metas, shown(entries, entries.len() as int), dir)
            &&& vfs::is_sorted(listed)
            &&& listed.to_multiset() == metas.to_multiset()
        }
}

/// The name of the hash of a content: `xxh64` of `xxhash_rust` with seed zero.
pub uninterp spec fn xxh64_of(content: Seq<u8>) -> u64;

/// `xxhash_rust::xxh64::xxh64` with seed zero, named [`xxh64_of`].
#[verifier::external_body]
fn xxh64(content: &Vec<u8>) -> (r: u64)
    ensures
        r == xxh64_of(content@),
{
    xxhash_rust::xxh64::xxh64(content.as_slice(), 0)
}

impl LocalFs {
    /// The local filesystem.
    pub fn new() -> (r: Self)
        ensures
            r == LocalFs,
    {
        LocalFs
    }

    /// What a directory holds, in display order. Entries that cannot be shown
    /// are left out.
    pub fn list_dir(&self, dir: &VfsPath, entries: &Vec<LocalEntry>) -> (r: Vec<EntryMeta>)
        ensures
            is_local_listing(r@, entries@, dir@),
            exists|metas: Seq<EntryMeta>|
                {
                    &&& #[trigger] are_local_metas(
                        metas,
                        shown(entries@, entries@.len() as int),
                        dir@,
                    )
                    &&& vfs::is_sorted(r@)
                    &&& r@.to_multiset() == metas.to_multiset()
                    &&& forall|is_dir: bool, name: Seq<char>|
                        #![trigger vfs::entries_like(r@, is_dir, name)]
                        vfs::entries_like(r@, is_dir, name) == vfs::entries_like(
                            metas,
                            is_dir,
                            name,
                        )
                },
    {
        let mut metas: Vec<EntryMeta> = Vec::new();
        let mut i: usize = 0;
        while i < entries.len()
            invariant
                i <= entries@.len(),
                are_local_metas(metas@, shown(entries@, i as int), dir@),
            decreases entries.len() - i,
        {
            match (&entries[i].name, &entries[i].stat) {
                (Some(name), Some(stat)) => {
                    let ghost before = metas@;
                    let full: VfsPath = dir.join(name.as_str());
                    metas.push(entry_meta(full, name.clone(), stat));
                    proof {
                        let now = shown(entries@, i + 1);
                        assert forall|k: int| 0 <= k < metas@.len() implies is_local_meta(
                            #[trigger] metas@[k],
                            path::joined(dir@, now[k].name->0@),
                            now[k].name->0@,
                            now[k].stat->0,
                        ) by {
                            if k < before.len() {
                                assert(metas@[k] == before[k]);
                            }
                        }
                    }
                },
                _ => {},
            }
            i += 1;
        }
        let ghost unsorted = metas@;
        let r: Vec<EntryMeta> = sort_entries(metas);
        proof {
            assert(are_local_metas(unsorted, shown(entries@, entries@.len() as int), dir@));
        }
        r
    }

    /// The entry for one path.
    pub fn stat(&self, at: &VfsPath, stat: &LocalStat) -> (r: EntryMeta)
        ensures
            is_local_meta(
                r,
                at@,
                match path::last_name(at@) {
                    Some(name) => name,
                    None => "/"@,
                },
                *stat,
            ),
            r.path == *at,
    {
        let name: String = match at.file_name() {
            Some(name) => name,
            None => owned("/"),
        };
        entry_meta(at.clone(), name, stat)
    }

    /// A content hash for a file that has been read.
    pub fn quick_hash(&self, content: &Vec<u8>) -> (r: Option<u64>)
        ensures
            r == Some(xxh64_of(content@)),
    {
        Some(xxh64(content))
    }

    /// What can be done with local files: everything.
    pub fn capabilities(&self) -> (r: VfsCapabilities)
        ensures
            r == (VfsCapabilities {
                can_write: true,
                can_set_permissions: true,
                can_symlink: true,
                can_rename: true,
            }),
    {
        VfsCapabilities {
            can_write: true,
            can_set_permissions: true,
            can_symlink: true,
            can_rename: true,
        }
    }

    /// The root of the filesystem.
    pub fn root(&self) -> (r: VfsPath)
        ensures
            r@ == "/"@,
    {
        VfsPath::new("/")
    }
}

impl Default for LocalFs {
    fn default() -> (r: Self)
        ensures
            r == LocalFs,
    {
        LocalFs
    }
}

/// An error says what is wrong in the way it was told apart, and with which path,
/// or else in the system's own words.
pub proof fn law_errors(failure: IoFailure, why: String, at: VfsPath)
    ensures
        local_error(failure, why, at) is NotFound <==> failure == IoFailure::NotFound,
        local_error(failure, why, at) is PermissionDenied <==> failure
            == IoFailure::PermissionDenied,
        local_error(failure, why, at) is AlreadyExists <==> failure == IoFailure::AlreadyExists,
        failure == IoFailure::Other ==> local_error(failure, why, at).text() == why@,
        failure != IoFailure::Other ==> ({
            let t = local_error(failure, why, at).text();
            t.len() >= at@.len() && t.skip(t.len() - at@.len()) == at@
        }),
{
    let t = local_error(failure, why, at).text();
    if failure != IoFailure::Other {
        assert(t.skip(t.len() - at@.len()) =~= at@);
    }
}

} // verus!
