//! `.tar`, `.tar.zst` and `.zip` files as read-only directory trees.

use std::io::Read;

use tar::Archive;
use zstd::Decoder;
use vstd::prelude::*;

use crate::index;
use crate::index::{build_index, sanitize_path, ArchiveEntry, RawEntry};
use crate::path;
use crate::path::VfsPath;
use crate::sparse;
use crate::sparse::sparse_may_overflow;
use crate::text;
use crate::text::{ends_with, lower_chars, owned, same_text, to_chars};
use crate::vfs;
use crate::vfs::{
    sort_entries, EntryKind, EntryMeta, FileTime, VfsCapabilities, VfsError, VfsResult,
};

verus! {

/// The archive formats that can be browsed.
#[derive(Clone, Copy, Debug, PartialEq, Eq, Structural)]
pub enum ArchiveFormat {
    Tar,
    TarZst,
    Zip,
}

/// The format that a file name in lower case suggests.
pub open spec fn format_of_name(name: Seq<char>) -> Option<ArchiveFormat> {
    if text::has_suffix(name, ".tar.zst"@) || text::has_suffix(name, ".tzst"@) {
        Some(ArchiveFormat::TarZst)
    } else if text::has_suffix(name, ".tar"@) {
        Some(ArchiveFormat::Tar)
    } else if text::has_suffix(name, ".zip"@) {
        Some(ArchiveFormat::Zip)
    } else {
        None
    }
}

/// The format that a path's file name suggests, upper and lower case alike.
pub open spec fn format_of(p: Seq<char>) -> Option<ArchiveFormat> {
    match path::last_name(p) {
        None => None,
        Some(name) => format_of_name(text::ascii_lower(name)),
    }
}

/// Detects a recognized archive format from a filename.
pub fn detect_format(path: &VfsPath) -> (r: Option<ArchiveFormat>)
    ensures
        r == format_of(path@),
{
    match path.file_name() {
        None => None,
        Some(name) => {
            let lower: Vec<char> = lower_chars(&to_chars(name.as_str()));
            if ends_with(&lower, &to_chars(".tar.zst")) || ends_with(&lower, &to_chars(".tzst")) {
                Some(ArchiveFormat::TarZst)
            } else if ends_with(&lower, &to_chars(".tar")) {
                Some(ArchiveFormat::Tar)
            } else if ends_with(&lower, &to_chars(".zip")) {
                Some(ArchiveFormat::Zip)
            } else {
                None
            }
        },
    }
}

/// What the header of a tar member says; parts that cannot be read are missing.
#[derive(Debug)]
pub struct TarMember {
    pub path: Option<String>,
    /// The type byte.
    pub kind: u8,
    pub link: Option<String>,
    pub size: Option<u64>,
    pub mtime: Option<u64>,
    pub mode: Option<u32>,
}

/// A tar member's header, with its texts as plain sequences.
pub ghost struct TarFacts {
    pub path: Option<Seq<char>>,
    pub kind: u8,
    pub link: Option<Seq<char>>,
    pub size: Option<u64>,
    pub mtime: Option<u64>,
    pub mode: Option<u32>,
}

/// An optional text as a plain sequence.
pub open spec fn text_of(s: Option<String>) -> Option<Seq<char>> {
    match s {
        Some(t) => Some(t@),
        None => None,
    }
}

/// The type byte of a directory in a tar header.
pub const TAR_DIRECTORY: u8 = 53;

/// The type byte of a symbolic link in a tar header.
pub const TAR_SYMLINK: u8 = 50;

impl TarMember {
    /// A member by what its header says.
    pub fn new(
        path: Option<String>,
        kind: u8,
        link: Option<String>,
        size: Option<u64>,
        mtime: Option<u64>,
        mode: Option<u32>,
    ) -> (r: Self)
        ensures
            r == (TarMember { path, kind, link, size, mtime, mode }),
    {
        TarMember { path, kind, link, size, mtime, mode }
    }

    /// What the header says.
    pub open spec fn facts(self) -> TarFacts {
        TarFacts {
            path: text_of(self.path),
            kind: self.kind,
            link: text_of(self.link),
            size: self.size,
            mtime: self.mtime,
            mode: self.mode,
        }
    }
}

/// A listing of tar members, with its texts as plain sequences.
pub open spec fn tar_facts(members: Seq<Result<TarMember, String>>) -> Seq<
    Result<TarFacts, Seq<char>>,
> {
    Seq::new(
        members.len(),
        |i: int|
            match members[i] {
                Ok(m) => Ok(m.facts()),
                Err(e) => Err(e@),
            },
    )
}

/// The members that the `tar` crate finds in these bytes, in order, each with
/// what its header says or why it cannot be read; or why there are none.
pub uninterp spec fn tar_listing(bytes: Seq<u8>) -> Result<Seq<Result<TarFacts, Seq<char>>>, Seq<char>>;

/// The members that the `tar` crate finds in these bytes once the `zstd` crate
/// has unpacked them.
pub uninterp spec fn tar_zst_listing(bytes: Seq<u8>) -> Result<
    Seq<Result<TarFacts, Seq<char>>>,
    Seq<char>,
>;

/// What the `zstd` crate unpacks from these bytes, up to the end or to where they
/// are damaged.
pub uninterp spec fn zstd_unpacked(bytes: Seq<u8>) -> Seq<u8>;

/// The content of the member at a position, as the `tar` crate reads it; none
/// if there is no such member.
pub uninterp spec fn tar_member_bytes(bytes: Seq<u8>, position: nat) -> Result<
    Option<Seq<u8>>,
    Seq<char>,
>;

/// The content of the member at a position, as the `tar` crate reads it from
/// what the `zstd` crate has unpacked; none if there is no such member.
pub uninterp spec fn tar_zst_member_bytes(bytes: Seq<u8>, position: nat) -> Result<
    Option<Seq<u8>>,
    Seq<char>,
>;

/// Whether a listing is the one that is named.
pub open spec fn is_tar_listing(
    r: Result<Vec<Result<TarMember, String>>, String>,
    named: Result<Seq<Result<TarFacts, Seq<char>>>, Seq<char>>,
) -> bool {
    match (r, named) {
        (Ok(members), Ok(facts)) => tar_facts(members@) == facts,
        (Err(e), Err(why)) => e@ == why,
        _ => false,
    }
}

/// Whether some content is the one that is named.
pub open spec fn is_content(
    r: Result<Vec<u8>, String>,
    named: Result<Seq<u8>, Seq<char>>,
) -> bool {
    match (r, named) {
        (Ok(content), Ok(bytes)) => content@ == bytes,
        (Err(e), Err(why)) => e@ == why,
        _ => false,
    }
}

/// Whether the content of a member, if there is one, is the one that is named.
pub open spec fn is_member_content(
    r: Result<Option<Vec<u8>>, String>,
    named: Result<Option<Seq<u8>>, Seq<char>>,
) -> bool {
    match (r, named) {
        (Ok(Some(content)), Ok(Some(bytes))) => content@ == bytes,
        (Ok(None), Ok(None)) => true,
        (Err(e), Err(why)) => e@ == why,
        _ => false,
    }
}

/// `zstd::Decoder` over bytes in memory, read byte by byte up to its end or its
/// first error, so that it yields everything that a reader in larger steps can
/// see: a function of the bytes, named [`zstd_unpacked`].
#[verifier::external_body]
fn zstd_unpack(bytes: &Vec<u8>) -> (r: Vec<u8>)
    ensures
        r@ == zstd_unpacked(bytes@),
{
    match Decoder::new(bytes.as_slice()) {
        Ok(decoder) => decoder.bytes().map_while(|byte| byte.ok()).collect(),
        Err(_) => Vec::new(),
    }
}

/// `tar::Archive::entries` over bytes in memory, and of each entry `path`, the
/// type byte, `link_name`, `size`, `mtime` and `mode` of its header: what they
/// return is a function of the bytes, named [`tar_listing`].
///
/// Sparse members of 2^63 bytes or more are left out: the position behind them
/// may overflow inside `tar`.
#[verifier::external_body]
fn tar_members(bytes: &Vec<u8>) -> (r: Result<Vec<Result<TarMember, String>>, String>)
    requires
        !sparse::may_overflow(bytes@),
    ensures
        is_tar_listing(r, tar_listing(bytes@)),
{
    let mut archive = Archive::new(bytes.as_slice());
    let entries = archive.entries().map_err(|e| e.to_string())?;
    Ok(entries.map(|entry| entry.map_err(|e| e.to_string()).map(|e| {
        let h = e.header();
        TarMember::new(
            e.path().ok().map(|p| p.to_string_lossy().into_owned()),
            h.entry_type().as_byte(),
            h.link_name().unwrap_or(None).map(|p| p.to_string_lossy().into_owned()),
            h.size().ok(),
            h.mtime().ok(),
            h.mode().ok(),
        )
    })).collect())
}

/// `tar::Archive::entries` over what `zstd::Decoder` unpacks from bytes in
/// memory, read as in [`tar_members`] and named [`tar_zst_listing`].
///
/// Sparse members of 2^63 bytes or more are left out: the position behind them
/// may overflow inside `tar`.
#[verifier::external_body]
fn tar_zst_members(bytes: &Vec<u8>) -> (r: Result<Vec<Result<TarMember, String>>, String>)
    requires
        !sparse::may_overflow(zstd_unpacked(bytes@)),
    ensures
        is_tar_listing(r, tar_zst_listing(bytes@)),
{
    let mut archive = Archive::new(Decoder::new(bytes.as_slice()).map_err(|e| e.to_string())?);
    let entries = archive.entries().map_err(|e| e.to_string())?;
    Ok(entries.map(|entry| entry.map_err(|e| e.to_string()).map(|e| {
        let h = e.header();
        TarMember::new(
            e.path().ok().map(|p| p.to_string_lossy().into_owned()),
            h.entry_type().as_byte(),
            h.link_name().unwrap_or(None).map(|p| p.to_string_lossy().into_owned()),
            h.size().ok(),
            h.mtime().ok(),
            h.mode().ok(),
        )
    })).collect())
}

/// The content that `tar::Archive::entries` gives for the entry at a position
/// of bytes in memory, named [`tar_member_bytes`].
///
/// Sparse members of 2^63 bytes or more are left out: the position behind them
/// may overflow inside `tar`.
#[verifier::external_body]
fn tar_content(bytes: &Vec<u8>, position: usize) -> (r: Result<Option<Vec<u8>>, String>)
    requires
        !sparse::may_overflow(bytes@),
    ensures
        is_member_content(r, tar_member_bytes(bytes@, position as nat)),
{
    let mut archive = Archive::new(bytes.as_slice());
    let mut entries = archive.entries().map_err(|e| e.to_string())?;
    entries.nth(position).map(|entry| {
        let mut content = Vec::new();
        entry.and_then(|mut e| e.read_to_end(&mut content)).map_err(|e| e.to_string())?;
        Ok(content)
    }).transpose()
}

/// The content that `tar::Archive::entries` gives for the entry at a position
/// of what `zstd::Decoder` unpacks, named [`tar_zst_member_bytes`].
///
/// Sparse members of 2^63 bytes or more are left out: the position behind them
/// may overflow inside `tar`.
#[verifier::external_body]
fn tar_zst_content(bytes: &Vec<u8>, position: usize) -> (r: Result<Option<Vec<u8>>, String>)
    requires
        !sparse::may_overflow(zstd_unpacked(bytes@)),
    ensures
        is_member_content(r, tar_zst_member_bytes(bytes@, position as nat)),
{
    let mut archive = Archive::new(Decoder::new(bytes.as_slice()).map_err(|e| e.to_string())?);
    let mut entries = archive.entries().map_err(|e| e.to_string())?;
    entries.nth(position).map(|entry| {
        let mut content = Vec::new();
        entry.and_then(|mut e| e.read_to_end(&mut content)).map_err(|e| e.to_string())?;
        Ok(content)
    }).transpose()
}

/// What the directory of a zip file says of a member.
#[derive(Debug)]
pub struct ZipMember {
    pub name: String,
    pub is_dir: bool,
    pub size: u64,
    pub mode: Option<u32>,
}

/// A zip member's data, with its name as a plain sequence.
pub ghost struct ZipFacts {
    pub name: Seq<char>,
    pub is_dir: bool,
    pub size: u64,
    pub mode: Option<u32>,
}

impl ZipMember {
    /// What the zip file says.
    pub open spec fn facts(self) -> ZipFacts {
        ZipFacts { name: self.name@, is_dir: self.is_dir, size: self.size, mode: self.mode }
    }
}

/// A listing of zip members, with its texts as plain sequences.
pub open spec fn zip_facts(members: Seq<Result<ZipMember, String>>) -> Seq<
    Result<ZipFacts, Seq<char>>,
> {
    Seq::new(
        members.len(),
        |i: int|
            match members[i] {
                Ok(m) => Ok(m.facts()),
                Err(e) => Err(e@),
            },
    )
}

/// The members that the `zip` crate finds in these bytes, in order; or why
/// there are none.
pub uninterp spec fn zip_listing(bytes: Seq<u8>) -> Result<Seq<Result<ZipFacts, Seq<char>>>, Seq<char>>;

/// The content of the member at a position, as the `zip` crate reads it.
pub uninterp spec fn zip_member_bytes(bytes: Seq<u8>, position: nat) -> Result<Seq<u8>, Seq<char>>;

/// Whether a listing is the one that is named.
pub open spec fn is_zip_listing(
    r: Result<Vec<Result<ZipMember, String>>, String>,
    named: Result<Seq<Result<ZipFacts, Seq<char>>>, Seq<char>>,
) -> bool {
    match (r, named) {
        (Ok(members), Ok(facts)) => zip_facts(members@) == facts,
        (Err(e), Err(why)) => e@ == why,
        _ => false,
    }
}

/// `zip::ZipArchive::new` over bytes in memory, and `by_index` for every
/// position with `name`, `is_dir`, `size` and `unix_mode` of what it gives: a
/// function of the bytes, named [`zip_listing`].
#[verifier::external_body]
fn zip_members(bytes: &Vec<u8>) -> (r: Result<Vec<Result<ZipMember, String>>, String>)
    ensures
        is_zip_listing(r, zip_listing(bytes@)),
{
    let cursor = std::io::Cursor::new(bytes.as_slice());
    let mut archive = zip::ZipArchive::new(cursor).map_err(|e| e.to_string())?;
    let count = archive.len();
    Ok((0..count).map(|i| archive.by_index(i).map_err(|e| e.to_string()).map(|f| ZipMember {
        name: f.name().to_string(),
        is_dir: f.is_dir(),
        size: f.size(),
        mode: f.unix_mode(),
    })).collect())
}

/// The content that `zip::ZipArchive::by_index` gives for a position of bytes
/// in memory, named [`zip_member_bytes`].
#[verifier::external_body]
fn zip_content(bytes: &Vec<u8>, position: usize) -> (r: Result<Vec<u8>, String>)
    ensures
        is_content(r, zip_member_bytes(bytes@, position as nat)),
{
    let cursor = std::io::Cursor::new(bytes.as_slice());
    let mut archive = zip::ZipArchive::new(cursor).map_err(|e| e.to_string())?;
    let mut file = archive.by_index(position).map_err(|e| e.to_string())?;
    let mut content = Vec::new();
    file.read_to_end(&mut content).map_err(|e| e.to_string())?;
    Ok(content)
}

/// A time in whole seconds since the Unix epoch; one that does not fit is left
/// out.
pub open spec fn time_of_seconds(t: Option<u64>) -> Option<FileTime> {
    match t {
        Some(s) if s <= i64::MAX => Some(FileTime { seconds: s as i64, nanos: 0 }),
        _ => None,
    }
}

/// A time in whole seconds since the Unix epoch.
pub fn time_from_seconds(t: Option<u64>) -> (r: Option<FileTime>)
    ensures
        r == time_of_seconds(t),
{
    match t {
        Some(s) => if s <= 0x7fff_ffff_ffff_ffff {
            Some(FileTime { seconds: s as i64, nanos: 0 })
        } else {
            None
        },
        None => None,
    }
}

/// The raw entry that a tar member stands for; a member without a readable
/// path stands for none, and only links have a target.
pub open spec fn raw_of_tar(m: TarFacts) -> Option<index::RawFacts> {
    match m.path {
        None => None,
        Some(p) => Some(
            index::RawFacts {
                path: p,
                is_dir: m.kind == TAR_DIRECTORY,
                is_symlink: m.kind == TAR_SYMLINK,
                symlink_target: if m.kind == TAR_SYMLINK {
                    m.link
                } else {
                    None
                },
                size: match m.size {
                    Some(n) => n,
                    None => 0,
                },
                modified: time_of_seconds(m.mtime),
                permissions: m.mode,
            },
        ),
    }
}

/// The raw entries of a tar listing, up to the first member that cannot be
/// read, which makes the whole listing fail.
pub open spec fn raws_of_tar(members: Seq<Result<TarFacts, Seq<char>>>) -> Result<
    Seq<index::RawFacts>,
    Seq<char>,
>
    decreases members.len(),
{
    if members.len() == 0 {
        Ok(Seq::empty())
    } else {
        match raws_of_tar(members.drop_last()) {
            Err(e) => Err(e),
            Ok(before) => match members.last() {
                Err(e) => Err(e),
                Ok(m) => match raw_of_tar(m) {
                    None => Ok(before),
                    Some(raw) => Ok(before.push(raw)),
                },
            },
        }
    }
}

/// What the index of an archive says, or why there is none.
pub type IndexFacts = Result<Map<Seq<Seq<char>>, index::EntryFacts>, Seq<char>>;

/// The index of a tar listing.
pub open spec fn tar_index(
    listing: Result<Seq<Result<TarFacts, Seq<char>>>, Seq<char>>,
) -> IndexFacts {
    match listing {
        Err(e) => Err(e),
        Ok(members) => match raws_of_tar(members) {
            Err(e) => Err(e),
            Ok(raw) => Ok(index::with_parents(index::explicit_entries(raw))),
        },
    }
}

/// Whether an index (or the failure to make one) is what it should be.
pub open spec fn is_index_of(r: VfsResult<Vec<ArchiveEntry>>, want: IndexFacts) -> bool {
    match (r, want) {
        (Ok(entries), Ok(m)) => index::is_index(entries@) && index::index_contents(entries@) == m,
        (Err(VfsError::Io(e)), Err(why)) => e@ == why,
        _ => false,
    }
}

/// A listing with its texts as plain sequences.
pub open spec fn tar_listing_facts(
    listing: Result<Vec<Result<TarMember, String>>, String>,
) -> Result<Seq<Result<TarFacts, Seq<char>>>, Seq<char>> {
    match listing {
        Ok(members) => Ok(tar_facts(members@)),
        Err(e) => Err(e@),
    }
}

fn raw_from_tar(m: &TarMember) -> (r: Option<RawEntry>)
    ensures
        r is Some <==> raw_of_tar(m.facts()) is Some,
        r matches Some(raw) ==> raw_of_tar(m.facts()) == Some(raw.facts()),
{
    match &m.path {
        None => None,
        Some(p) => {
            let symlink_target: Option<String> = if m.kind == TAR_SYMLINK {
                vfs::clone_text(&m.link)
            } else {
                None
            };
            Some(
                RawEntry {
                    raw_path: p.clone(),
                    is_dir: m.kind == TAR_DIRECTORY,
                    is_symlink: m.kind == TAR_SYMLINK,
                    symlink_target,
                    size: match m.size {
                        Some(n) => n,
                        None => 0,
                    },
                    modified: time_from_seconds(m.mtime),
                    permissions: m.mode,
                },
            )
        },
    }
}

/// Indexes what was found in a tar file.
pub fn index_tar(listing: &Result<Vec<Result<TarMember, String>>, String>) -> (r: VfsResult<
    Vec<ArchiveEntry>,
>)
    ensures
        is_index_of(r, tar_index(tar_listing_facts(*listing))),
{
    match listing {
        Err(e) => Err(VfsError::Io(e.clone())),
        Ok(members) => {
            let mut raw: Vec<RawEntry> = Vec::new();
            let ghost facts = tar_facts(members@);
            let mut i: usize = 0;
            proof {
                assert(facts.take(0) == Seq::<Result<TarFacts, Seq<char>>>::empty());
                assert(index::all_facts(raw@) =~= Seq::<index::RawFacts>::empty());
            }
            while i < members.len()
                invariant
                    i <= members@.len(),
                    facts == tar_facts(members@),
                    tar_listing_facts(*listing) == Ok::<
                        Seq<Result<TarFacts, Seq<char>>>,
                        Seq<char>,
                    >(facts),
                    raws_of_tar(facts.take(i as int)) == Ok::<Seq<index::RawFacts>, Seq<char>>(
                        index::all_facts(raw@),
                    ),
                decreases members.len() - i,
            {
                proof {
                    let t = facts.take(i + 1);
                    assert(t.drop_last() == facts.take(i as int));
                    assert(t.last() == facts[i as int]);
                }
                match &members[i] {
                    Err(e) => {
                        proof {
                            lemma_tar_error_stays(facts, i + 1);
                        }
                        return Err(VfsError::Io(e.clone()));
                    },
                    Ok(m) => match raw_from_tar(m) {
                        None => {},
                        Some(entry) => {
                            let ghost before = index::all_facts(raw@);
                            let ghost one = entry.facts();
                            raw.push(entry);
                            proof {
                                assert(index::all_facts(raw@) =~= before.push(one));
                            }
                        },
                    },
                }
                i += 1;
            }
            proof {
                assert(facts.take(i as int) == facts);
            }
            Ok(build_index(&raw))
        },
    }
}

proof fn lemma_tar_error_stays(members: Seq<Result<TarFacts, Seq<char>>>, n: int)
    requires
        0 <= n <= members.len(),
        raws_of_tar(members.take(n)) is Err,
    ensures
        raws_of_tar(members) == raws_of_tar(members.take(n)),
    decreases members.len() - n,
{
    if n == members.len() {
        assert(members.take(n) == members);
    } else {
        assert(members.take(n + 1).drop_last() == members.take(n));
        lemma_tar_error_stays(members, n + 1);
    }
}

/// The raw entry that a zip member stands for; zip files have no links or
/// times that matter here.
pub open spec fn raw_of_zip(m: ZipFacts) -> index::RawFacts {
    index::RawFacts {
        path: m.name,
        is_dir: m.is_dir,
        is_symlink: false,
        symlink_target: None,
        size: m.size,
        modified: None,
        permissions: m.mode,
    }
}

/// The raw entries of a zip listing, up to the first member that cannot be
/// read, which makes the whole listing fail.
pub open spec fn raws_of_zip(members: Seq<Result<ZipFacts, Seq<char>>>) -> Result<
    Seq<index::RawFacts>,
    Seq<char>,
>
    decreases members.len(),
{
    if members.len() == 0 {
        Ok(Seq::empty())
    } else {
        match raws_of_zip(members.drop_last()) {
            Err(e) => Err(e),
            Ok(before) => match members.last() {
                Err(e) => Err(e),
                Ok(m) => Ok(before.push(raw_of_zip(m))),
            },
        }
    }
}

/// The index of a zip listing.
pub open spec fn zip_index(
    listing: Result<Seq<Result<ZipFacts, Seq<char>>>, Seq<char>>,
) -> IndexFacts {
    match listing {
        Err(e) => Err(e),
        Ok(members) => match raws_of_zip(members) {
            Err(e) => Err(e),
            Ok(raw) => Ok(index::with_parents(index::explicit_entries(raw))),
        },
    }
}

/// A listing with its texts as plain sequences.
pub open spec fn zip_listing_facts(
    listing: Result<Vec<Result<ZipMember, String>>, String>,
) -> Result<Seq<Result<ZipFacts, Seq<char>>>, Seq<char>> {
    match listing {
        Ok(members) => Ok(zip_facts(members@)),
        Err(e) => Err(e@),
    }
}

/// Indexes what was found in a zip file.
pub fn index_zip(listing: &Result<Vec<Result<ZipMember, String>>, String>) -> (r: VfsResult<
    Vec<ArchiveEntry>,
>)
    ensures
        is_index_of(r, zip_index(zip_listing_facts(*listing))),
{
    match listing {
        Err(e) => Err(VfsError::Io(e.clone())),
        Ok(members) => {
            let mut raw: Vec<RawEntry> = Vec::new();
            let ghost facts = zip_facts(members@);
            let mut i: usize = 0;
            proof {
                assert(facts.take(0) == Seq::<Result<ZipFacts, Seq<char>>>::empty());
                assert(index::all_facts(raw@) =~= Seq::<index::RawFacts>::empty());
            }
            while i < members.len()
                invariant
                    i <= members@.len(),
                    facts == zip_facts(members@),
                    zip_listing_facts(*listing) == Ok::<
                        Seq<Result<ZipFacts, Seq<char>>>,
                        Seq<char>,
                    >(facts),
                    raws_of_zip(facts.take(i as int)) == Ok::<Seq<index::RawFacts>, Seq<char>>(
                        index::all_facts(raw@),
                    ),
                decreases members.len() - i,
            {
                proof {
                    let t = facts.take(i + 1);
                    assert(t.drop_last() == facts.take(i as int));
                    assert(t.last() == facts[i as int]);
                }
                match &members[i] {
                    Err(e) => {
                        proof {
                            lemma_zip_error_stays(facts, i + 1);
                        }
                        return Err(VfsError::Io(e.clone()));
                    },
                    Ok(m) => {
                        let entry = RawEntry {
                            raw_path: m.name.clone(),
                            is_dir: m.is_dir,
                            is_symlink: false,
                            symlink_target: None,
                            size: m.size,
                            modified: None,
                            permissions: m.mode,
                        };
                        let ghost before = index::all_facts(raw@);
                        let ghost one = entry.facts();
                        raw.push(entry);
                        proof {
                            assert(index::all_facts(raw@) =~= before.push(one));
                        }
                    },
                }
                i += 1;
            }
            proof {
                assert(facts.take(i as int) == facts);
            }
            Ok(build_index(&raw))
        },
    }
}

proof fn lemma_zip_error_stays(members: Seq<Result<ZipFacts, Seq<char>>>, n: int)
    requires
        0 <= n <= members.len(),
        raws_of_zip(members.take(n)) is Err,
    ensures
        raws_of_zip(members) == raws_of_zip(members.take(n)),
    decreases members.len() - n,
{
    if n == members.len() {
        assert(members.take(n) == members);
    } else {
        assert(members.take(n + 1).drop_last() == members.take(n));
        lemma_zip_error_stays(members, n + 1);
    }
}

/// Which member a file's content comes from.
#[derive(Debug)]
pub enum Pick {
    /// A member before it cannot be read.
    Failed(String),
    At(usize),
    Missing,
}

/// Which member a file's content comes from, with the error as plain text.
pub ghost enum Picked {
    Failed(Seq<char>),
    At(nat),
    Missing,
}

impl Pick {
    /// The choice itself.
    pub open spec fn picked(self) -> Picked {
        match self {
            Pick::Failed(e) => Picked::Failed(e@),
            Pick::At(i) => Picked::At(i as nat),
            Pick::Missing => Picked::Missing,
        }
    }
}

/// Whether a member that is no directory has the path `target`.
pub open spec fn is_file_at(raw_path: Seq<char>, is_dir: bool, target: Seq<char>) -> bool {
    &&& !is_dir
    &&& index::sanitized(raw_path) is Some
    &&& path::same_path(index::sanitized(raw_path)->0, target)
}

fn file_at(raw_path: &str, is_dir: bool, target: &VfsPath) -> (r: bool)
    ensures
        r == is_file_at(raw_path@, is_dir, target@),
{
    if is_dir {
        return false;
    }
    match sanitize_path(raw_path) {
        Some(p) => p == *target,
        None => false,
    }
}

/// The first member of a tar file, from `i` on, that is the file `target`,
/// unless one that cannot be read comes before it.
pub open spec fn tar_pick(
    members: Seq<Result<TarFacts, Seq<char>>>,
    target: Seq<char>,
    i: int,
) -> Picked
    decreases members.len() - i,
{
    if i < 0 || i >= members.len() {
        Picked::Missing
    } else {
        match members[i] {
            Err(e) => Picked::Failed(e),
            Ok(m) => if m.path is Some && is_file_at(
                m.path->0,
                m.kind == TAR_DIRECTORY,
                target,
            ) {
                Picked::At(i as nat)
            } else {
                tar_pick(members, target, i + 1)
            },
        }
    }
}

/// Picks the member of a tar file that is the file `target`.
pub fn pick_tar(members: &Vec<Result<TarMember, String>>, target: &VfsPath) -> (r: Pick)
    ensures
        r.picked() == tar_pick(tar_facts(members@), target@, 0),
{
    let ghost facts = tar_facts(members@);
    let mut i: usize = 0;
    while i < members.len()
        invariant
            i <= members@.len(),
            facts == tar_facts(members@),
            tar_pick(facts, target@, 0) == tar_pick(facts, target@, i as int),
        decreases members.len() - i,
    {
        match &members[i] {
            Err(e) => {
                return Pick::Failed(e.clone());
            },
            Ok(m) => {
                match &m.path {
                    Some(p) => {
                        if file_at(p.as_str(), m.kind == TAR_DIRECTORY, target) {
                            return Pick::At(i);
                        }
                    },
                    None => {},
                }
            },
        }
        i += 1;
    }
    Pick::Missing
}

/// The first member of a zip file, from `i` on, that is the file `target`,
/// unless one that cannot be read comes before it.
pub open spec fn zip_pick(
    members: Seq<Result<ZipFacts, Seq<char>>>,
    target: Seq<char>,
    i: int,
) -> Picked
    decreases members.len() - i,
{
    if i < 0 || i >= members.len() {
        Picked::Missing
    } else {
        match members[i] {
            Err(e) => Picked::Failed(e),
            Ok(m) => if is_file_at(m.name, m.is_dir, target) {
                Picked::At(i as nat)
            } else {
                zip_pick(members, target, i + 1)
            },
        }
    }
}

/// Picks the member of a zip file that is the file `target`.
pub fn pick_zip(members: &Vec<Result<ZipMember, String>>, target: &VfsPath) -> (r: Pick)
    ensures
        r.picked() == zip_pick(zip_facts(members@), target@, 0),
{
    let ghost facts = zip_facts(members@);
    let mut i: usize = 0;
    while i < members.len()
        invariant
            i <= members@.len(),
            facts == zip_facts(members@),
            zip_pick(facts, target@, 0) == zip_pick(facts, target@, i as int),
        decreases members.len() - i,
    {
        match &members[i] {
            Err(e) => {
                return Pick::Failed(e.clone());
            },
            Ok(m) => {
                if file_at(m.name.as_str(), m.is_dir, target) {
                    return Pick::At(i);
                }
            },
        }
        i += 1;
    }
    Pick::Missing
}

/// A browsable archive: its bytes and their index.
#[derive(Debug)]
pub struct ArchiveFs {
    bytes: Vec<u8>,
    format: ArchiveFormat,
    entries: Vec<ArchiveEntry>,
}

/// Whether an archive with these bytes may hold a sparse member that is too large
/// to be passed over.
pub open spec fn is_oversized(bytes: Seq<u8>, format: ArchiveFormat) -> bool {
    match format {
        ArchiveFormat::Tar => sparse::may_overflow(bytes),
        ArchiveFormat::TarZst => sparse::may_overflow(zstd_unpacked(bytes)),
        ArchiveFormat::Zip => false,
    }
}

fn oversized(bytes: &Vec<u8>, format: ArchiveFormat) -> (r: bool)
    ensures
        r == is_oversized(bytes@, format),
{
    match format {
        ArchiveFormat::Tar => sparse_may_overflow(bytes),
        ArchiveFormat::TarZst => sparse_may_overflow(&zstd_unpack(bytes)),
        ArchiveFormat::Zip => false,
    }
}

/// What the index of an archive with these bytes says. There is none of an
/// oversized archive.
pub open spec fn archive_index(bytes: Seq<u8>, format: ArchiveFormat) -> IndexFacts {
    if is_oversized(bytes, format) {
        Err("size overflow"@)
    } else {
        match format {
            ArchiveFormat::Tar => tar_index(tar_listing(bytes)),
            ArchiveFormat::TarZst => tar_index(tar_zst_listing(bytes)),
            ArchiveFormat::Zip => zip_index(zip_listing(bytes)),
        }
    }
}

/// Which member of an archive with these bytes is the file `target`.
pub open spec fn archive_pick(bytes: Seq<u8>, format: ArchiveFormat, target: Seq<char>) -> Picked {
    match format {
        ArchiveFormat::Tar => match tar_listing(bytes) {
            Ok(members) => tar_pick(members, target, 0),
            Err(e) => Picked::Failed(e),
        },
        ArchiveFormat::TarZst => match tar_zst_listing(bytes) {
            Ok(members) => tar_pick(members, target, 0),
            Err(e) => Picked::Failed(e),
        },
        ArchiveFormat::Zip => match zip_listing(bytes) {
            Ok(members) => zip_pick(members, target, 0),
            Err(e) => Picked::Failed(e),
        },
    }
}

/// The content of a member of an archive with these bytes, if there is such a
/// member.
pub open spec fn archive_content(
    bytes: Seq<u8>,
    format: ArchiveFormat,
    position: nat,
) -> Result<Option<Seq<u8>>, Seq<char>> {
    match format {
        ArchiveFormat::Tar => tar_member_bytes(bytes, position),
        ArchiveFormat::TarZst => tar_zst_member_bytes(bytes, position),
        ArchiveFormat::Zip => match zip_member_bytes(bytes, position) {
            Ok(content) => Ok(Some(content)),
            Err(e) => Err(e),
        },
    }
}

/// The directory entry that stands for an index entry.
pub open spec fn is_meta_of(meta: EntryMeta, e: ArchiveEntry) -> bool {
    &&& meta.name@ == (match path::last_name(e.path@) {
        Some(name) => name,
        None => Seq::empty(),
    })
    &&& meta.path == e.path
    &&& meta.kind == e.kind
    &&& meta.size == e.size
    &&& meta.modified == e.modified
    &&& meta.permissions == e.permissions
    &&& meta.owner is None
    &&& meta.group is None
}

/// Whether an index entry lies directly in the directory written as `dir`.
pub open spec fn is_child(e: ArchiveEntry, dir: Seq<char>) -> bool {
    index::parent_text(index::key_of(e)) == dir
}

/// The first `n` index entries that lie directly in a directory.
pub open spec fn children(entries: Seq<ArchiveEntry>, dir: Seq<char>, n: int) -> Seq<ArchiveEntry>
    decreases n,
{
    if n <= 0 {
        Seq::empty()
    } else if is_child(entries[n - 1], dir) {
        children(entries, dir, n - 1).push(entries[n - 1])
    } else {
        children(entries, dir, n - 1)
    }
}

/// Whether `metas` are the directory entries for `entries`, one by one.
pub open spec fn are_metas_of(metas: Seq<EntryMeta>, entries: Seq<ArchiveEntry>) -> bool {
    &&& metas.len() == entries.len()
    &&& forall|i: int| 0 <= i < metas.len() ==> is_meta_of(#[trigger] metas[i], entries[i])
}

/// Whether `listed` is `metas` in display order.
pub open spec fn is_sorted_form(listed: Seq<EntryMeta>, metas: Seq<EntryMeta>) -> bool {
    &&& vfs::is_sorted(listed)
    &&& listed.to_multiset() == metas.to_multiset()
    &&& forall|dir: bool, name: Seq<char>|
        #![trigger vfs::entries_like(listed, dir, name)]
        vfs::entries_like(listed, dir, name) == vfs::entries_like(metas, dir, name)
}

/// Whether the index has an entry at `target`.
pub open spec fn has_entry(entries: Seq<ArchiveEntry>, target: Seq<char>) -> bool {
    exists|i: int|
        0 <= i < entries.len() && path::same_path((#[trigger] entries[i]).path@, target)
}

/// Whether `r` is what listing a directory of an archive gives.
pub open spec fn is_archive_listing(
    r: VfsResult<Vec<EntryMeta>>,
    entries: Seq<ArchiveEntry>,
    dir: VfsPath,
) -> bool {
    match r {
        Ok(listed) => exists|metas: Seq<EntryMeta>|
            {
                &&& #[trigger] are_metas_of(metas, children(entries, dir@, entries.len() as int))
                &&& is_sorted_form(listed@, metas)
            },
        Err(e) => e == VfsError::NotFound(dir) && !path::same_path(dir@, seq!['/']) && !has_entry(
            entries,
            dir@,
        ),
    }
}

/// Whether `r` is what reading a file of an archive with these bytes gives.
pub open spec fn is_read(
    r: VfsResult<Vec<u8>>,
    bytes: Seq<u8>,
    format: ArchiveFormat,
    target: VfsPath,
) -> bool {
    match archive_pick(bytes, format, target@) {
        Picked::Failed(why) => r matches Err(VfsError::Io(e)) && e@ == why,
        Picked::Missing => r == Err::<Vec<u8>, VfsError>(VfsError::NotFound(target)),
        Picked::At(i) => match archive_content(bytes, format, i) {
            Ok(Some(content)) => r matches Ok(read) && read@ == content,
            Ok(None) => r == Err::<Vec<u8>, VfsError>(VfsError::NotFound(target)),
            Err(why) => r matches Err(VfsError::Io(e)) && e@ == why,
        },
    }
}

/// The entry of the archive's own root.
pub open spec fn is_root_meta(meta: EntryMeta, at: VfsPath) -> bool {
    &&& meta.name@ == seq!['/']
    &&& meta.path == at
    &&& meta.kind is Dir
    &&& meta.size == 0
    &&& meta.modified is None
    &&& meta.permissions is None
    &&& meta.owner is None
    &&& meta.group is None
}

impl ArchiveFs {
    /// Only archives that are not oversized are ever opened.
    #[verifier::type_invariant]
    spec fn is_sized(&self) -> bool {
        !is_oversized(self.bytes@, self.format)
    }

    /// The archive's bytes.
    pub closed spec fn spec_bytes(&self) -> Seq<u8> {
        self.bytes@
    }

    /// The archive's format.
    pub closed spec fn spec_format(&self) -> ArchiveFormat {
        self.format
    }

    /// The archive's index.
    pub closed spec fn spec_entries(&self) -> Seq<ArchiveEntry> {
        self.entries@
    }

    /// Whether the index is in order.
    pub open spec fn is_valid(&self) -> bool {
        index::is_index(self.spec_entries())
    }

    /// Indexes an archive that has been read as a whole.
    pub fn open(bytes: Vec<u8>, format: ArchiveFormat) -> (r: VfsResult<Self>)
        ensures
            match (r, archive_index(bytes@, format)) {
                (Ok(fs), Ok(m)) => {
                    &&& fs.is_valid()
                    &&& fs.spec_bytes() == bytes@
                    &&& fs.spec_format() == format
                    &&& index::index_contents(fs.spec_entries()) == m
                },
                (Err(VfsError::Io(e)), Err(why)) => e@ == why,
                _ => false,
            },
    {
        if oversized(&bytes, format) {
            return Err(VfsError::Io(owned("size overflow")));
        }
        let found: VfsResult<Vec<ArchiveEntry>> = match format {
            ArchiveFormat::Tar => index_tar(&tar_members(&bytes)),
            ArchiveFormat::TarZst => index_tar(&tar_zst_members(&bytes)),
            ArchiveFormat::Zip => index_zip(&zip_members(&bytes)),
        };
        match found {
            Ok(entries) => Ok(ArchiveFs { bytes, format, entries }),
            Err(e) => Err(e),
        }
    }

    fn find(&self, target: &VfsPath) -> (r: VfsResult<usize>)
        ensures
            match r {
                Ok(i) => i < self.spec_entries().len() && path::same_path(
                    self.spec_entries()[i as int].path@,
                    target@,
                ),
                Err(e) => e == VfsError::NotFound(*target) && !has_entry(
                    self.spec_entries(),
                    target@,
                ),
            },
    {
        let mut i: usize = 0;
        while i < self.entries.len()
            invariant
                i <= self.entries@.len(),
                forall|k: int|
                    0 <= k < i ==> !path::same_path((#[trigger] self.entries@[k]).path@, target@),
            decreases self.entries.len() - i,
        {
            if self.entries[i].path == *target {
                return Ok(i);
            }
            i += 1;
        }
        Err(VfsError::NotFound(target.clone()))
    }

    fn meta(&self, i: usize) -> (r: EntryMeta)
        requires
            i < self.spec_entries().len(),
        ensures
            is_meta_of(r, self.spec_entries()[i as int]),
    {
        let e: &ArchiveEntry = &self.entries[i];
        let name: String = match e.path.file_name() {
            Some(name) => name,
            None => String::new(),
        };
        EntryMeta {
            name,
            path: e.path.clone(),
            kind: e.kind.clone(),
            size: e.size,
            modified: e.modified,
            permissions: e.permissions,
            owner: None,
            group: None,
        }
    }

    /// What a directory of the archive holds, in display order.
    pub fn list_dir(&self, dir: &VfsPath) -> (r: VfsResult<Vec<EntryMeta>>)
        requires
            self.is_valid(),
        ensures
            is_archive_listing(r, self.spec_entries(), *dir),
            match r {
                Ok(listed) => {
                    &&& path::same_path(dir@, seq!['/']) || has_entry(self.spec_entries(), dir@)
                    &&& exists|metas: Seq<EntryMeta>|
                        {
                            &&& #[trigger] are_metas_of(
                                metas,
                                children(
                                    self.spec_entries(),
                                    dir@,
                                    self.spec_entries().len() as int,
                                ),
                            )
                            &&& is_sorted_form(listed@, metas)
                        }
                },
                Err(e) => {
                    &&& !path::same_path(dir@, seq!['/'])
                    &&& !has_entry(self.spec_entries(), dir@)
                    &&& e == VfsError::NotFound(*dir)
                },
            },
    {
        let root: VfsPath = VfsPath::new("/");
        proof {
            reveal_strlit("/");
            assert("/"@ =~= seq!['/']);
        }
        if *dir != root {
            match self.find(dir) {
                Err(e) => {
                    return Err(e);
                },
                Ok(_) => {},
            }
        }
        let mut metas: Vec<EntryMeta> = Vec::new();
        let ghost entries = self.spec_entries();
        let mut i: usize = 0;
        while i < self.entries.len()
            invariant
                i <= self.entries@.len(),
                entries == self.spec_entries(),
                self.is_valid(),
                are_metas_of(metas@, children(entries, dir@, i as int)),
            decreases self.entries.len() - i,
        {
            let up: String = self.parent_of(i);
            if same_text(up.as_str(), dir.as_str()) {
                let ghost before = metas@;
                metas.push(self.meta(i));
                proof {
                    let kids = children(entries, dir@, i + 1);
                    assert forall|k: int| 0 <= k < metas@.len() implies is_meta_of(
                        #[trigger] metas@[k],
                        kids[k],
                    ) by {
                        if k < before.len() {
                            assert(metas@[k] == before[k]);
                        }
                    }
                }
            }
            i += 1;
        }
        let ghost unsorted = metas@;
        let listed: Vec<EntryMeta> = sort_entries(metas);
        proof {
            assert(is_sorted_form(listed@, unsorted));
        }
        Ok(listed)
    }

    fn parent_of(&self, i: usize) -> (r: String)
        requires
            self.is_valid(),
            i < self.spec_entries().len(),
        ensures
            r@ == index::parent_text(index::key_of(self.spec_entries()[i as int])),
    {
        let ghost key = index::key_of(self.entries@[i as int]);
        proof {
            assert(self.spec_entries()[i as int] == self.entries@[i as int]);
            let base = index::rooted(key.drop_last());
            assert(index::rooted(key) == base.push('/') + key.last());
            assert(path::is_plain_name(key[key.len() - 1]));
            if key.len() > 1 {
                let shorter = key.drop_last();
                assert forall|k: int| 0 <= k < shorter.len() implies path::is_plain_name(
                    #[trigger] shorter[k],
                ) by {
                    assert(shorter[k] == key[k]);
                }
                index::law_rooted_is_clean(shorter);
            } else {
                assert(key.drop_last() == Seq::<Seq<char>>::empty());
                assert(base == Seq::<char>::empty());
            }
        }
        match self.entries[i].path.parent() {
            Some(up) => {
                proof {
                    path::law_parent_of_child(index::rooted(key.drop_last()), key.last(), up@);
                }
                owned(up.as_str())
            },
            None => owned("/"),
        }
    }

    /// What the archive knows of one path.
    pub fn stat(&self, target: &VfsPath) -> (r: VfsResult<EntryMeta>)
        ensures
            match r {
                Ok(meta) => if path::same_path(target@, seq!['/']) {
                    is_root_meta(meta, *target)
                } else {
                    exists|i: int|
                        0 <= i < self.spec_entries().len() && path::same_path(
                            self.spec_entries()[i].path@,
                            target@,
                        ) && #[trigger] is_meta_of(meta, self.spec_entries()[i])
                },
                Err(e) => {
                    &&& !path::same_path(target@, seq!['/'])
                    &&& !has_entry(self.spec_entries(), target@)
                    &&& e == VfsError::NotFound(*target)
                },
            },
    {
        let root: VfsPath = VfsPath::new("/");
        proof {
            reveal_strlit("/");
            assert("/"@ =~= seq!['/']);
        }
        if *target == root {
            return Ok(
                EntryMeta {
                    name: owned("/"),
                    path: target.clone(),
                    kind: EntryKind::Dir,
                    size: 0,
                    modified: None,
                    permissions: None,
                    owner: None,
                    group: None,
                },
            );
        }
        match self.find(target) {
            Ok(i) => Ok(self.meta(i)),
            Err(e) => Err(e),
        }
    }

    /// The content of a file of the archive.
    pub fn open_read(&self, target: &VfsPath) -> (r: VfsResult<Vec<u8>>)
        ensures
            is_read(r, self.spec_bytes(), self.spec_format(), *target),
            match archive_pick(self.spec_bytes(), self.spec_format(), target@) {
                Picked::Failed(why) => r matches Err(VfsError::Io(e)) && e@ == why,
                Picked::Missing => r == Err::<Vec<u8>, VfsError>(VfsError::NotFound(*target)),
                Picked::At(i) => match archive_content(
                    self.spec_bytes(),
                    self.spec_format(),
                    i,
                ) {
                    Ok(Some(content)) => r matches Ok(bytes) && bytes@ == content,
                    Ok(None) => r == Err::<Vec<u8>, VfsError>(VfsError::NotFound(*target)),
                    Err(why) => r matches Err(VfsError::Io(e)) && e@ == why,
                },
            },
    {
        proof {
            use_type_invariant(self);
        }
        let pick: Pick = match self.format {
            ArchiveFormat::Tar => match tar_members(&self.bytes) {
                Ok(members) => pick_tar(&members, target),
                Err(e) => Pick::Failed(e),
            },
            ArchiveFormat::TarZst => match tar_zst_members(&self.bytes) {
                Ok(members) => pick_tar(&members, target),
                Err(e) => Pick::Failed(e),
            },
            ArchiveFormat::Zip => match zip_members(&self.bytes) {
                Ok(members) => pick_zip(&members, target),
                Err(e) => Pick::Failed(e),
            },
        };
        match pick {
            Pick::Failed(e) => Err(VfsError::Io(e)),
            Pick::Missing => Err(VfsError::NotFound(target.clone())),
            Pick::At(i) => {
                let content: Result<Option<Vec<u8>>, String> = match self.format {
                    ArchiveFormat::Tar => tar_content(&self.bytes, i),
                    ArchiveFormat::TarZst => tar_zst_content(&self.bytes, i),
                    ArchiveFormat::Zip => match zip_content(&self.bytes, i) {
                        Ok(bytes) => Ok(Some(bytes)),
                        Err(e) => Err(e),
                    },
                };
                match content {
                    Ok(Some(bytes)) => Ok(bytes),
                    Ok(None) => Err(VfsError::NotFound(target.clone())),
                    Err(e) => Err(VfsError::Io(e)),
                }
            },
        }
    }

    /// Refuses every operation that would change the archive.
    pub fn write_operation(&self) -> (r: VfsResult<()>)
        ensures
            r matches Err(VfsError::Unsupported(why)) && why@ == "archives are read-only"@,
    {
        Err(VfsError::Unsupported("archives are read-only"))
    }

    /// Refuses to create a directory.
    pub fn mkdir(&self, _path: &VfsPath, _mode: Option<u32>) -> (r: VfsResult<()>)
        ensures
            r matches Err(VfsError::Unsupported(why)) && why@ == "archives are read-only"@,
    {
        self.write_operation()
    }

    /// What can be done in an archive: nothing but looking.
    pub fn capabilities(&self) -> (r: VfsCapabilities)
        ensures
            r == (VfsCapabilities {
                can_write: false,
                can_set_permissions: false,
                can_symlink: false,
                can_rename: false,
            }),
    {
        VfsCapabilities {
            can_write: false,
            can_set_permissions: false,
            can_symlink: false,
            can_rename: false,
        }
    }

    /// The archive's own root.
    pub fn root(&self) -> (r: VfsPath)
        ensures
            r@ == "/"@,
    {
        VfsPath::new("/")
    }
}

/// What is read from a tar file for a path is the content of the first member
/// with exactly that path that is no directory: its components are those of the
/// path. There is none exactly if no member is such, and a member before it that
/// cannot be read is the error.
pub proof fn law_tar_reads_by_path(
    members: Seq<Result<TarFacts, Seq<char>>>,
    target: Seq<char>,
    from: int,
)
    requires
        0 <= from <= members.len(),
    ensures
        match tar_pick(members, target, from) {
            Picked::At(n) => {
                &&& from <= n < members.len()
                &&& is_tar_file_with(members[n as int], target)
                &&& forall|k: int|
                    from <= k < n ==> (#[trigger] members[k]) is Ok && !is_tar_file_with(
                        members[k],
                        target,
                    )
            },
            Picked::Missing => forall|k: int|
                from <= k < members.len() ==> (#[trigger] members[k]) is Ok && !is_tar_file_with(
                    members[k],
                    target,
                ),
            Picked::Failed(why) => exists|n: int|
                {
                    &&& from <= n < members.len()
                    &&& #[trigger] members[n] == Err::<TarFacts, Seq<char>>(why)
                    &&& forall|k: int|
                        from <= k < n ==> !is_tar_file_with(#[trigger] members[k], target)
                },
        },
    decreases members.len() - from,
{
    if from < members.len() {
        law_tar_reads_by_path(members, target, from + 1);
        if let Picked::Failed(why) = tar_pick(members, target, from + 1) {
            if members[from] is Ok && !is_tar_file_with(members[from], target) {
                let n = choose|n: int|
                    {
                        &&& from + 1 <= n < members.len()
                        &&& #[trigger] members[n] == Err::<TarFacts, Seq<char>>(why)
                        &&& forall|k: int|
                            from + 1 <= k < n ==> !is_tar_file_with(#[trigger] members[k], target)
                    };
                assert(members[n] == Err::<TarFacts, Seq<char>>(why));
            }
        }
        if members[from] is Err {
            assert(members[from] == Err::<TarFacts, Seq<char>>(members[from]->Err_0));
        }
    }
}

/// Whether a member of a tar file is no directory and has a path with exactly the
/// components of `target`.
pub open spec fn is_tar_file_with(member: Result<TarFacts, Seq<char>>, target: Seq<char>) -> bool {
    &&& member is Ok
    &&& member->Ok_0.kind != 53
    &&& member->Ok_0.path is Some
    &&& index::sanitized(member->Ok_0.path->0) is Some
    &&& path::is_absolute(target) == path::is_absolute(
        index::sanitized(member->Ok_0.path->0)->0,
    )
    &&& path::components(index::sanitized(member->Ok_0.path->0)->0) == path::components(target)
}

/// Whether a member of a zip file is no directory and has a path with exactly the
/// components of `target`.
pub open spec fn is_zip_file_with(member: Result<ZipFacts, Seq<char>>, target: Seq<char>) -> bool {
    &&& member is Ok
    &&& !member->Ok_0.is_dir
    &&& index::sanitized(member->Ok_0.name) is Some
    &&& path::is_absolute(target) == path::is_absolute(index::sanitized(member->Ok_0.name)->0)
    &&& path::components(index::sanitized(member->Ok_0.name)->0) == path::components(target)
}

/// What is read from a zip file for a path is the content of the first member
/// with exactly that path that is no directory.
pub proof fn law_zip_reads_by_path(
    members: Seq<Result<ZipFacts, Seq<char>>>,
    target: Seq<char>,
    from: int,
)
    requires
        0 <= from <= members.len(),
    ensures
        match zip_pick(members, target, from) {
            Picked::At(n) => {
                &&& from <= n < members.len()
                &&& is_zip_file_with(members[n as int], target)
                &&& forall|k: int|
                    from <= k < n ==> (#[trigger] members[k]) is Ok && !is_zip_file_with(
                        members[k],
                        target,
                    )
            },
            Picked::Missing => forall|k: int|
                from <= k < members.len() ==> (#[trigger] members[k]) is Ok && !is_zip_file_with(
                    members[k],
                    target,
                ),
            Picked::Failed(why) => exists|n: int|
                {
                    &&& from <= n < members.len()
                    &&& #[trigger] members[n] == Err::<ZipFacts, Seq<char>>(why)
                    &&& forall|k: int|
                        from <= k < n ==> !is_zip_file_with(#[trigger] members[k], target)
                },
        },
    decreases members.len() - from,
{
    if from < members.len() {
        law_zip_reads_by_path(members, target, from + 1);
        if let Picked::Failed(why) = zip_pick(members, target, from + 1) {
            if members[from] is Ok && !is_zip_file_with(members[from], target) {
                let n = choose|n: int|
                    {
                        &&& from + 1 <= n < members.len()
                        &&& #[trigger] members[n] == Err::<ZipFacts, Seq<char>>(why)
                        &&& forall|k: int|
                            from + 1 <= k < n ==> !is_zip_file_with(#[trigger] members[k], target)
                    };
                assert(members[n] == Err::<ZipFacts, Seq<char>>(why));
            }
        }
        if members[from] is Err {
            assert(members[from] == Err::<ZipFacts, Seq<char>>(members[from]->Err_0));
        }
    }
}

proof fn lemma_raws_of_zip(members: Seq<Result<ZipFacts, Seq<char>>>)
    requires
        forall|k: int| 0 <= k < members.len() ==> (#[trigger] members[k]) is Ok,
    ensures
        raws_of_zip(members) is Ok,
        raws_of_zip(members)->Ok_0.len() == members.len(),
        forall|k: int|
            0 <= k < members.len() ==> #[trigger] raws_of_zip(members)->Ok_0[k] == raw_of_zip(
                members[k]->Ok_0,
            ),
    decreases members.len(),
{
    if members.len() > 0 {
        let before = members.drop_last();
        assert forall|k: int| 0 <= k < before.len() implies (#[trigger] before[k]) is Ok by {
            assert(before[k] == members[k]);
        }
        lemma_raws_of_zip(before);
        assert(members[members.len() - 1] is Ok);
        let all = raws_of_zip(members)->Ok_0;
        assert forall|k: int| 0 <= k < members.len() implies #[trigger] all[k] == raw_of_zip(
            members[k]->Ok_0,
        ) by {
            if k < before.len() {
                assert(all[k] == raws_of_zip(before)->Ok_0[k]);
                assert(before[k] == members[k]);
            }
        }
    }
}

/// In a zip file whose members have different paths, every file is listed in the
/// index under its path, with its size and permissions, and reading that path
/// gives the content of that very member.
pub proof fn law_zip_files_read_back(members: Seq<Result<ZipFacts, Seq<char>>>, i: int)
    requires
        forall|k: int| 0 <= k < members.len() ==> (#[trigger] members[k]) is Ok,
        0 <= i < members.len(),
        !(members[i]->Ok_0.is_dir),
        index::sanitized(members[i]->Ok_0.name) is Some,
        forall|j: int|
            0 <= j < members.len() && j != i && index::sanitized(
                (#[trigger] members[j])->Ok_0.name,
            ) is Some ==> path::components(index::sanitized(members[j]->Ok_0.name)->0)
                != path::components(index::sanitized(members[i]->Ok_0.name)->0),
    ensures
        ({
            let at = index::sanitized(members[i]->Ok_0.name)->0;
            let k = path::components(at);
            let listed = zip_index(Ok::<Seq<Result<ZipFacts, Seq<char>>>, Seq<char>>(members));
            &&& zip_pick(members, at, 0) == Picked::At(i as nat)
            &&& listed is Ok
            &&& listed->Ok_0.contains_key(k)
            &&& listed->Ok_0[k].kind is File
            &&& listed->Ok_0[k].size == members[i]->Ok_0.size
            &&& listed->Ok_0[k].permissions == members[i]->Ok_0.mode
        }),
{
    let at = index::sanitized(members[i]->Ok_0.name)->0;
    law_zip_reads_by_path(members, at, 0);
    assert(is_zip_file_with(members[i], at));
    match zip_pick(members, at, 0) {
        Picked::At(n) => {
            if n < i {
                assert(is_zip_file_with(members[n as int], at));
            } else if n > i {
                assert(!is_zip_file_with(members[i], at));
            }
        },
        Picked::Missing => {
            assert(!is_zip_file_with(members[i], at));
        },
        Picked::Failed(why) => {},
    }
    lemma_raws_of_zip(members);
    let raw = raws_of_zip(members)->Ok_0;
    assert(raw[i] == raw_of_zip(members[i]->Ok_0));
    assert forall|j: int|
        0 <= j < raw.len() && j != i && index::sanitized((#[trigger] raw[j]).path) is Some
        implies path::components(index::sanitized(raw[j].path)->0) != path::components(
        index::sanitized(raw[i].path)->0,
    ) by {
        assert(raw[j] == raw_of_zip(members[j]->Ok_0));
    }
    index::law_entry_is_indexed(raw, i);
}

proof fn lemma_raws_of_tar(members: Seq<Result<TarFacts, Seq<char>>>)
    requires
        forall|k: int|
            0 <= k < members.len() ==> (#[trigger] members[k]) is Ok && members[k]->Ok_0.path
                is Some,
    ensures
        raws_of_tar(members) is Ok,
        raws_of_tar(members)->Ok_0.len() == members.len(),
        forall|k: int|
            0 <= k < members.len() ==> Some(#[trigger] raws_of_tar(members)->Ok_0[k])
                == raw_of_tar(members[k]->Ok_0),
    decreases members.len(),
{
    if members.len() > 0 {
        let before = members.drop_last();
        assert forall|k: int| 0 <= k < before.len() implies (#[trigger] before[k]) is Ok
            && before[k]->Ok_0.path is Some by {
            assert(before[k] == members[k]);
        }
        lemma_raws_of_tar(before);
        assert(members[members.len() - 1] is Ok);
        let all = raws_of_tar(members)->Ok_0;
        assert forall|k: int| 0 <= k < members.len() implies Some(#[trigger] all[k]) == raw_of_tar(
            members[k]->Ok_0,
        ) by {
            if k < before.len() {
                assert(all[k] == raws_of_tar(before)->Ok_0[k]);
                assert(before[k] == members[k]);
            }
        }
    }
}

/// In a tar file whose members have different paths, every member is listed in
/// the index under its path, with its size, time and permissions and as what its
/// header says; and reading the path of one that is no directory gives the content
/// of that very member.
pub proof fn law_tar_files_read_back(members: Seq<Result<TarFacts, Seq<char>>>, i: int)
    requires
        forall|k: int|
            0 <= k < members.len() ==> (#[trigger] members[k]) is Ok && members[k]->Ok_0.path
                is Some,
        0 <= i < members.len(),
        index::sanitized(members[i]->Ok_0.path->0) is Some,
        forall|j: int|
            0 <= j < members.len() && j != i && index::sanitized(
                (#[trigger] members[j])->Ok_0.path->0,
            ) is Some ==> path::components(index::sanitized(members[j]->Ok_0.path->0)->0)
                != path::components(index::sanitized(members[i]->Ok_0.path->0)->0),
    ensures
        ({
            let m = members[i]->Ok_0;
            let at = index::sanitized(m.path->0)->0;
            let k = path::components(at);
            let listed = tar_index(Ok::<Seq<Result<TarFacts, Seq<char>>>, Seq<char>>(members));
            &&& m.kind != 53 ==> tar_pick(members, at, 0) == Picked::At(i as nat)
            &&& m.kind == 53 ==> tar_pick(members, at, 0) is Missing
            &&& listed is Ok
            &&& listed->Ok_0.contains_key(k)
            &&& listed->Ok_0[k].kind is Dir <==> m.kind == 53
            &&& listed->Ok_0[k].kind is Symlink <==> m.kind == 50
            &&& listed->Ok_0[k].kind is File <==> m.kind != 53 && m.kind != 50
            &&& m.size is Some ==> listed->Ok_0[k].size == m.size->0
            &&& listed->Ok_0[k].permissions == m.mode
            &&& m.mtime is Some && m.mtime->0 <= i64::MAX ==> listed->Ok_0[k].modified is Some
                && listed->Ok_0[k].modified->0.seconds == m.mtime->0
                && listed->Ok_0[k].modified->0.nanos == 0
        }),
{
    let m = members[i]->Ok_0;
    let at = index::sanitized(m.path->0)->0;
    law_tar_reads_by_path(members, at, 0);
    assert(is_tar_file_with(members[i], at) == (m.kind != 53));
    match tar_pick(members, at, 0) {
        Picked::At(n) => {
            assert(is_tar_file_with(members[n as int], at));
            if n > i {
                assert(!is_tar_file_with(members[i], at));
            }
        },
        Picked::Missing => {
            assert(!is_tar_file_with(members[i], at));
        },
        Picked::Failed(why) => {},
    }
    lemma_raws_of_tar(members);
    let raw = raws_of_tar(members)->Ok_0;
    assert(Some(raw[i]) == raw_of_tar(m));
    assert forall|j: int|
        0 <= j < raw.len() && j != i && index::sanitized((#[trigger] raw[j]).path) is Some
        implies path::components(index::sanitized(raw[j].path)->0) != path::components(
        index::sanitized(raw[i].path)->0,
    ) by {
        assert(Some(raw[j]) == raw_of_tar(members[j]->Ok_0));
    }
    index::law_entry_is_indexed(raw, i);
}

/// In a tar file a link leads to the path that its header names; nothing else has a
/// target.
pub proof fn law_tar_links_keep_their_targets(
    members: Seq<Result<TarFacts, Seq<char>>>,
    i: int,
)
    requires
        forall|k: int|
            0 <= k < members.len() ==> (#[trigger] members[k]) is Ok && members[k]->Ok_0.path
                is Some,
        0 <= i < members.len(),
        members[i]->Ok_0.kind == 50,
        index::sanitized(members[i]->Ok_0.path->0) is Some,
        forall|j: int|
            i < j < members.len() && index::sanitized((#[trigger] members[j])->Ok_0.path->0)
                is Some ==> path::components(index::sanitized(members[j]->Ok_0.path->0)->0)
                != path::components(index::sanitized(members[i]->Ok_0.path->0)->0),
    ensures
        ({
            let m = members[i]->Ok_0;
            let k = path::components(index::sanitized(m.path->0)->0);
            let listed = tar_index(Ok::<Seq<Result<TarFacts, Seq<char>>>, Seq<char>>(members));
            &&& listed is Ok
            &&& listed->Ok_0.contains_key(k)
            &&& m.link matches Some(t) ==> (index::sanitized(t) matches Some(to)
                ==> listed->Ok_0[k].kind == index::KindFacts::Symlink(Some(to)))
        }),
{
    lemma_raws_of_tar(members);
    let raw = raws_of_tar(members)->Ok_0;
    assert(Some(raw[i]) == raw_of_tar(members[i]->Ok_0));
    assert forall|j: int|
        i < j < raw.len() && index::sanitized((#[trigger] raw[j]).path) is Some
        implies path::components(index::sanitized(raw[j].path)->0) != path::components(
        index::sanitized(raw[i].path)->0,
    ) by {
        assert(Some(raw[j]) == raw_of_tar(members[j]->Ok_0));
    }
    index::law_last_entry_counts(raw, i);
}

/// A member that cannot be read makes the whole listing fail, with what went wrong.
pub proof fn law_unreadable_member(
    tar: Seq<Result<TarFacts, Seq<char>>>,
    zip: Seq<Result<ZipFacts, Seq<char>>>,
    i: int,
)
    ensures
        0 <= i < tar.len() && tar[i] is Err ==> raws_of_tar(tar) is Err,
        0 <= i < zip.len() && zip[i] is Err ==> raws_of_zip(zip) is Err,
    decreases tar.len() + zip.len(),
{
    if 0 <= i < tar.len() - 1 {
        assert(tar.drop_last()[i] == tar[i]);
        law_unreadable_member(tar.drop_last(), Seq::empty(), i);
    }
    if 0 <= i < zip.len() - 1 {
        assert(zip.drop_last()[i] == zip[i]);
        law_unreadable_member(Seq::empty(), zip.drop_last(), i);
    }
}

/// What is read for a path is the content of the very member that has the path: of
/// the first file with exactly that path, and of no other member.
pub proof fn law_reading_gives_the_members_content(
    r: VfsResult<Vec<u8>>,
    bytes: Seq<u8>,
    target: VfsPath,
    tar: Seq<Result<TarFacts, Seq<char>>>,
    zip: Seq<Result<ZipFacts, Seq<char>>>,
    i: int,
)
    requires
        i >= 0,
    ensures
        is_read(r, bytes, ArchiveFormat::Zip, target) && zip_listing(bytes) == Ok::<
            Seq<Result<ZipFacts, Seq<char>>>,
            Seq<char>,
        >(zip) && i < zip.len() && is_zip_file_with(zip[i], target@) && (forall|k: int|
            0 <= k < i ==> (#[trigger] zip[k]) is Ok && !is_zip_file_with(zip[k], target@)) ==> (
        match zip_member_bytes(bytes, i as nat) {
            Ok(content) => r matches Ok(read) && read@ == content,
            Err(why) => r is Err,
        }),
        is_read(r, bytes, ArchiveFormat::Tar, target) && tar_listing(bytes) == Ok::<
            Seq<Result<TarFacts, Seq<char>>>,
            Seq<char>,
        >(tar) && i < tar.len() && is_tar_file_with(tar[i], target@) && (forall|k: int|
            0 <= k < i ==> (#[trigger] tar[k]) is Ok && !is_tar_file_with(tar[k], target@)) ==> (
        match tar_member_bytes(bytes, i as nat) {
            Ok(Some(content)) => r matches Ok(read) && read@ == content,
            _ => r is Err,
        }),
        is_read(r, bytes, ArchiveFormat::TarZst, target) && tar_zst_listing(bytes) == Ok::<
            Seq<Result<TarFacts, Seq<char>>>,
            Seq<char>,
        >(tar) && i < tar.len() && is_tar_file_with(tar[i], target@) && (forall|k: int|
            0 <= k < i ==> (#[trigger] tar[k]) is Ok && !is_tar_file_with(tar[k], target@)) ==> (
        match tar_zst_member_bytes(bytes, i as nat) {
            Ok(Some(content)) => r matches Ok(read) && read@ == content,
            _ => r is Err,
        }),
{
    if i < zip.len() && is_zip_file_with(zip[i], target@) && (forall|k: int|
        0 <= k < i ==> (#[trigger] zip[k]) is Ok && !is_zip_file_with(zip[k], target@)) {
        law_zip_reads_by_path(zip, target@, 0);
        match zip_pick(zip, target@, 0) {
            Picked::At(n) => {
                if n < i {
                    assert(zip[n as int] is Ok);
                } else if n > i {
                    assert(zip[i] is Ok && !is_zip_file_with(zip[i], target@));
                }
            },
            Picked::Missing => {
                assert(zip[i] is Ok && !is_zip_file_with(zip[i], target@));
            },
            Picked::Failed(why) => {
                let n = choose|n: int|
                    {
                        &&& 0 <= n < zip.len()
                        &&& #[trigger] zip[n] == Err::<ZipFacts, Seq<char>>(why)
                        &&& forall|k: int|
                            0 <= k < n ==> !is_zip_file_with(#[trigger] zip[k], target@)
                    };
                if n > i {
                    assert(!is_zip_file_with(zip[i], target@));
                } else if n < i {
                    assert(zip[n] is Ok);
                }
            },
        }
        assert(zip_pick(zip, target@, 0) == Picked::At(i as nat));
    }
    if i < tar.len() && is_tar_file_with(tar[i], target@) && (forall|k: int|
        0 <= k < i ==> (#[trigger] tar[k]) is Ok && !is_tar_file_with(tar[k], target@)) {
        law_tar_reads_by_path(tar, target@, 0);
        match tar_pick(tar, target@, 0) {
            Picked::At(n) => {
                if n < i {
                    assert(tar[n as int] is Ok);
                } else if n > i {
                    assert(tar[i] is Ok && !is_tar_file_with(tar[i], target@));
                }
            },
            Picked::Missing => {
                assert(tar[i] is Ok && !is_tar_file_with(tar[i], target@));
            },
            Picked::Failed(why) => {
                let n = choose|n: int|
                    {
                        &&& 0 <= n < tar.len()
                        &&& #[trigger] tar[n] == Err::<TarFacts, Seq<char>>(why)
                        &&& forall|k: int|
                            0 <= k < n ==> !is_tar_file_with(#[trigger] tar[k], target@)
                    };
                if n > i {
                    assert(!is_tar_file_with(tar[i], target@));
                } else if n < i {
                    assert(tar[n] is Ok);
                }
            },
        }
        assert(tar_pick(tar, target@, 0) == Picked::At(i as nat));
    }
}

} // verus!
