//! What panels and jobs know about files, wherever the files live.

use vstd::prelude::*;

use crate::path;
use crate::path::VfsPath;
use crate::text;
use crate::text::{joined_text, text_before, to_chars};

verus! {

/// Identifies a saved or ad-hoc SSH connection.
pub type ProfileId = String;

/// Identifies *where* a path lives.
#[derive(Debug)]
pub enum Location {
    Local,
    Remote { profile_id: ProfileId },
    Archive { base: Box<Location>, archive_path: VfsPath },
}

/// Two locations that stand for the same backend.
pub open spec fn same_location(a: Location, b: Location) -> bool
    decreases a,
{
    match (a, b) {
        (Location::Local, Location::Local) => true,
        (Location::Remote { profile_id: x }, Location::Remote { profile_id: y }) => x@ == y@,
        (
            Location::Archive { base: x, archive_path: p },
            Location::Archive { base: y, archive_path: q },
        ) => same_location(*x, *y) && path::same_path(p@, q@),
        _ => false,
    }
}

impl Location {
    fn same(&self, other: &Self) -> (r: bool)
        ensures
            r == same_location(*self, *other),
        decreases self,
    {
        match (self, other) {
            (Location::Local, Location::Local) => true,
            (Location::Remote { profile_id: x }, Location::Remote { profile_id: y }) => *x == *y,
            (
                Location::Archive { base: x, archive_path: p },
                Location::Archive { base: y, archive_path: q },
            ) => (**x).same(&**y) && *p == *q,
            _ => false,
        }
    }

    fn copy(&self) -> (r: Self)
        ensures
            r == *self,
        decreases self,
    {
        match self {
            Location::Local => Location::Local,
            Location::Remote { profile_id } => Location::Remote { profile_id: profile_id.clone() },
            Location::Archive { base, archive_path } => Location::Archive {
                base: Box::new((**base).copy()),
                archive_path: archive_path.clone(),
            },
        }
    }
}

impl Clone for Location {
    fn clone(&self) -> (r: Self)
        ensures
            r == *self,
    {
        self.copy()
    }
}

impl PartialEq for Location {
    fn eq(&self, other: &Self) -> (r: bool) {
        self.same(other)
    }
}

impl vstd::std_specs::cmp::PartialEqSpecImpl for Location {
    open spec fn obeys_eq_spec() -> bool {
        true
    }

    open spec fn eq_spec(&self, other: &Self) -> bool {
        same_location(*self, *other)
    }
}

/// What an entry of a directory is.
#[derive(Debug)]
pub enum EntryKind {
    File,
    Dir,
    Symlink { target: Option<VfsPath> },
    Other,
}

/// Two kinds that are equal; links are so if they point to the same path.
pub open spec fn same_kind(a: EntryKind, b: EntryKind) -> bool {
    match (a, b) {
        (EntryKind::File, EntryKind::File) => true,
        (EntryKind::Dir, EntryKind::Dir) => true,
        (EntryKind::Other, EntryKind::Other) => true,
        (EntryKind::Symlink { target: x }, EntryKind::Symlink { target: y }) => match (x, y) {
            (None, None) => true,
            (Some(x), Some(y)) => path::same_path(x@, y@),
            _ => false,
        },
        _ => false,
    }
}

/// Two kinds of the same shape: both files, both directories, both links
/// (wherever they point) or both something else.
pub open spec fn same_shape(a: EntryKind, b: EntryKind) -> bool {
    match (a, b) {
        (EntryKind::File, EntryKind::File) => true,
        (EntryKind::Dir, EntryKind::Dir) => true,
        (EntryKind::Other, EntryKind::Other) => true,
        (EntryKind::Symlink { .. }, EntryKind::Symlink { .. }) => true,
        _ => false,
    }
}

impl EntryKind {
    /// Whether this is a directory.
    pub fn is_dir(&self) -> (r: bool)
        ensures
            r == (*self is Dir),
    {
        matches!(self, EntryKind::Dir)
    }

    /// Whether the two kinds have the same shape.
    pub fn has_shape_of(&self, other: &Self) -> (r: bool)
        ensures
            r == same_shape(*self, *other),
    {
        match (self, other) {
            (EntryKind::File, EntryKind::File) => true,
            (EntryKind::Dir, EntryKind::Dir) => true,
            (EntryKind::Other, EntryKind::Other) => true,
            (EntryKind::Symlink { .. }, EntryKind::Symlink { .. }) => true,
            _ => false,
        }
    }
}

impl Clone for EntryKind {
    fn clone(&self) -> (r: Self)
        ensures
            r == *self,
    {
        match self {
            EntryKind::File => EntryKind::File,
            EntryKind::Dir => EntryKind::Dir,
            EntryKind::Other => EntryKind::Other,
            EntryKind::Symlink { target: None } => EntryKind::Symlink { target: None },
            EntryKind::Symlink { target: Some(t) } => EntryKind::Symlink { target: Some(t.clone()) },
        }
    }
}

impl PartialEq for EntryKind {
    fn eq(&self, other: &Self) -> (r: bool) {
        match (self, other) {
            (EntryKind::File, EntryKind::File) => true,
            (EntryKind::Dir, EntryKind::Dir) => true,
            (EntryKind::Other, EntryKind::Other) => true,
            (EntryKind::Symlink { target: x }, EntryKind::Symlink { target: y }) => match (x, y) {
                (None, None) => true,
                (Some(x), Some(y)) => *x == *y,
                _ => false,
            },
            _ => false,
        }
    }
}

impl vstd::std_specs::cmp::PartialEqSpecImpl for EntryKind {
    open spec fn obeys_eq_spec() -> bool {
        true
    }

    open spec fn eq_spec(&self, other: &Self) -> bool {
        same_kind(*self, *other)
    }
}

/// A point in time, as a file's modification time: whole seconds since the
/// Unix epoch and the nanoseconds after them.
#[derive(Clone, Copy, Debug, PartialEq, Eq, Structural)]
pub struct FileTime {
    pub seconds: i64,
    pub nanos: u32,
}

impl FileTime {
    /// The time in nanoseconds since the Unix epoch.
    pub open spec fn in_nanos(self) -> int {
        self.seconds * 1_000_000_000 + self.nanos
    }

    /// Whether this time is more than `tolerance` seconds after `other`.
    pub fn is_after_by_more_than(&self, other: &FileTime, tolerance: u32) -> (r: bool)
        ensures
            r == (self.in_nanos() - other.in_nanos() > tolerance * 1_000_000_000),
    {
        let a: i128 = (self.seconds as i128) * 1_000_000_000 + (self.nanos as i128);
        let b: i128 = (other.seconds as i128) * 1_000_000_000 + (other.nanos as i128);
        a - b > (tolerance as i128) * 1_000_000_000
    }
}

/// One entry of a directory listing.
#[derive(Debug)]
pub struct EntryMeta {
    pub name: String,
    pub path: VfsPath,
    pub kind: EntryKind,
    pub size: u64,
    pub modified: Option<FileTime>,
    /// Unix permission bits (e.g. `0o755`), when the backend has a concept
    /// of them.
    pub permissions: Option<u32>,
    pub owner: Option<String>,
    pub group: Option<String>,
}

/// A copy of an optional text.
pub fn clone_text(s: &Option<String>) -> (r: Option<String>)
    ensures
        r == *s,
{
    match s {
        Some(t) => Some(t.clone()),
        None => None,
    }
}

impl Clone for EntryMeta {
    fn clone(&self) -> (r: Self)
        ensures
            r == *self,
    {
        EntryMeta {
            name: self.name.clone(),
            path: self.path.clone(),
            kind: self.kind.clone(),
            size: self.size,
            modified: self.modified,
            permissions: self.permissions,
            owner: clone_text(&self.owner),
            group: clone_text(&self.group),
        }
    }
}

/// A copy of a list of entries.
pub fn clone_entries(entries: &Vec<EntryMeta>) -> (r: Vec<EntryMeta>)
    ensures
        r@ == entries@,
{
    let mut out: Vec<EntryMeta> = Vec::new();
    let mut i: usize = 0;
    while i < entries.len()
        invariant
            i <= entries@.len(),
            out@ == entries@.take(i as int),
        decreases entries.len() - i,
    {
        out.push(entries[i].clone());
        proof {
            assert(entries@.take(i + 1) == entries@.take(i as int).push(entries@[i as int]));
        }
        i += 1;
    }
    proof {
        assert(entries@.take(i as int) == entries@);
    }
    out
}

/// A copy of a list of paths.
pub fn clone_paths(paths: &Vec<VfsPath>) -> (r: Vec<VfsPath>)
    ensures
        r@ == paths@,
{
    let mut out: Vec<VfsPath> = Vec::new();
    let mut i: usize = 0;
    while i < paths.len()
        invariant
            i <= paths@.len(),
            out@ == paths@.take(i as int),
        decreases paths.len() - i,
    {
        out.push(paths[i].clone());
        proof {
            assert(paths@.take(i + 1) == paths@.take(i as int).push(paths@[i as int]));
        }
        i += 1;
    }
    proof {
        assert(paths@.take(i as int) == paths@);
    }
    out
}

/// Why an operation of a backend failed.
#[derive(Debug)]
pub enum VfsError {
    NotFound(VfsPath),
    PermissionDenied(VfsPath),
    AlreadyExists(VfsPath),
    ConnectionLost(String),
    Unsupported(&'static str),
    Io(String),
}

pub type VfsResult<T> = Result<T, VfsError>;

impl VfsError {
    /// The error in words.
    pub open spec fn text(self) -> Seq<char> {
        match self {
            VfsError::NotFound(p) => "not found: "@ + p@,
            VfsError::PermissionDenied(p) => "permission denied: "@ + p@,
            VfsError::AlreadyExists(p) => "already exists: "@ + p@,
            VfsError::ConnectionLost(why) => "connection lost: "@ + why@,
            VfsError::Unsupported(what) => "unsupported operation: "@ + what@,
            VfsError::Io(why) => why@,
        }
    }

    /// The error in words.
    pub fn message(&self) -> (r: String)
        ensures
            r@ == self.text(),
    {
        match self {
            VfsError::NotFound(p) => joined_text("not found: ", p.as_str()),
            VfsError::PermissionDenied(p) => joined_text("permission denied: ", p.as_str()),
            VfsError::AlreadyExists(p) => joined_text("already exists: ", p.as_str()),
            VfsError::ConnectionLost(why) => joined_text("connection lost: ", why.as_str()),
            VfsError::Unsupported(what) => joined_text("unsupported operation: ", what),
            VfsError::Io(why) => why.clone(),
        }
    }
}

/// The kinds of input/output failure that backends tell apart.
#[derive(Clone, Copy, Debug, PartialEq, Eq, Structural)]
pub enum IoFailure {
    NotFound,
    PermissionDenied,
    AlreadyExists,
    Other,
}

/// Flags so the UI can grey out actions a given backend can't perform.
#[derive(Clone, Copy, Debug, PartialEq, Eq, Structural)]
pub struct VfsCapabilities {
    pub can_write: bool,
    pub can_set_permissions: bool,
    pub can_symlink: bool,
    pub can_rename: bool,
}

/// Diagnostic info about a connection, for display purposes only.
#[derive(Debug)]
pub struct ConnectionInfo {
    /// The protocol actually moving directory listings and most file
    /// operations for this connection, e.g. `"SFTP"`.
    pub protocol: &'static str,
    /// The remote host's OS, if it is known.
    pub remote_os: Option<String>,
    /// Present only when a QUIC fast-path agent is actually connected.
    pub quic: Option<QuicConnectionInfo>,
}

/// Details about an active QUIC fast-path connection, for display only.
#[derive(Clone, Copy, Debug, PartialEq, Eq, Structural)]
pub struct QuicConnectionInfo {
    /// This process's own local UDP port for the connection, when known.
    pub local_port: Option<u16>,
    /// The port the remote agent is listening on.
    pub remote_port: u16,
    /// PID of the agent process listening on `remote_port`.
    pub agent_pid: u32,
}

impl Clone for ConnectionInfo {
    fn clone(&self) -> (r: Self)
        ensures
            r == *self,
    {
        ConnectionInfo {
            protocol: self.protocol,
            remote_os: clone_text(&self.remote_os),
            quic: self.quic,
        }
    }
}

/// Whether a listing may show `a` right before `b`: directories come before
/// everything else, and within each group names are in dictionary order.
pub open spec fn listed_before(a: EntryMeta, b: EntryMeta) -> bool {
    if (a.kind is Dir) != (b.kind is Dir) {
        a.kind is Dir
    } else {
        !text::comes_before(b.name@, a.name@)
    }
}

/// A listing in display order.
pub open spec fn is_sorted(entries: Seq<EntryMeta>) -> bool {
    forall|i: int, j: int|
        0 <= i < j < entries.len() ==> #[trigger] listed_before(entries[i], entries[j])
}

/// Whether an entry is a directory (or not) and has the given name.
pub open spec fn is_like(dir: bool, name: Seq<char>) -> spec_fn(EntryMeta) -> bool {
    |e: EntryMeta| (e.kind is Dir) == dir && e.name@ == name
}

/// The entries that are directories (or not) and have the given name, in order.
pub open spec fn entries_like(entries: Seq<EntryMeta>, dir: bool, name: Seq<char>) -> Seq<EntryMeta> {
    entries.filter(is_like(dir, name))
}

proof fn lemma_listed_transitive(a: EntryMeta, b: EntryMeta, c: EntryMeta)
    requires
        listed_before(a, b),
        listed_before(b, c),
    ensures
        listed_before(a, c),
{
    if (a.kind is Dir) == (c.kind is Dir) {
        text::lemma_before_total(a.name@, b.name@);
        text::lemma_before_total(b.name@, c.name@);
        text::lemma_before_total(a.name@, c.name@);
        if text::comes_before(c.name@, a.name@) {
            if b.name@ == c.name@ {
                assert(false);
            } else {
                text::lemma_before_transitive(b.name@, c.name@, a.name@);
            }
        }
    }
}

fn goes_before(a: &EntryMeta, b: &EntryMeta) -> (r: bool)
    ensures
        r == listed_before(*a, *b),
{
    if a.kind.is_dir() != b.kind.is_dir() {
        a.kind.is_dir()
    } else {
        !text_before(&to_chars(b.name.as_str()), &to_chars(a.name.as_str()))
    }
}

proof fn lemma_insert_keeps_groups(s: Seq<EntryMeta>, at: int, e: EntryMeta, dir: bool, name: Seq<char>)
    requires
        0 <= at <= s.len(),
        forall|i: int| at <= i < s.len() ==> !listed_before(#[trigger] s[i], e),
    ensures
        entries_like(s.insert(at, e), dir, name) == entries_like(s.push(e), dir, name),
{
    let pred = is_like(dir, name);
    let head = s.take(at);
    let tail = s.skip(at);
    let one = seq![e];
    assert(s == head + tail);
    assert(s.insert(at, e) == (head + one) + tail);
    assert(s.push(e) == (head + tail) + one);
    Seq::filter_distributes_over_add(head + one, tail, pred);
    Seq::filter_distributes_over_add(head, one, pred);
    Seq::filter_distributes_over_add(head + tail, one, pred);
    Seq::filter_distributes_over_add(head, tail, pred);
    if pred(e) {
        assert forall|i: int| 0 <= i < tail.len() implies !pred(#[trigger] tail[i]) by {
            assert(!listed_before(s[at + i], e));
            text::lemma_before_total(e.name@, s[at + i].name@);
        }
        lemma_filter_none(tail, pred);
    } else {
        assert forall|i: int| 0 <= i < one.len() implies !pred(#[trigger] one[i]) by {}
        lemma_filter_none(one, pred);
    }
    assert((head.filter(pred) + one.filter(pred)) + tail.filter(pred) == (head.filter(pred)
        + tail.filter(pred)) + one.filter(pred));
    assert(s.insert(at, e).filter(pred) == s.push(e).filter(pred));
}

proof fn lemma_filter_none<A>(s: Seq<A>, pred: spec_fn(A) -> bool)
    requires
        forall|i: int| 0 <= i < s.len() ==> !pred(#[trigger] s[i]),
    ensures
        s.filter(pred) == Seq::<A>::empty(),
    decreases s.len(),
{
    reveal(Seq::filter);
    if s.len() > 0 {
        assert forall|i: int| 0 <= i < s.drop_last().len() implies !pred(
            #[trigger] s.drop_last()[i],
        ) by {
            assert(s.drop_last()[i] == s[i]);
        }
        lemma_filter_none(s.drop_last(), pred);
        assert(!pred(s[s.len() - 1]));
    }
}

proof fn lemma_filter_push<A>(a: Seq<A>, b: Seq<A>, e: A, pred: spec_fn(A) -> bool)
    requires
        a.filter(pred) == b.filter(pred),
    ensures
        a.push(e).filter(pred) == b.push(e).filter(pred),
{
    assert(a.push(e) == a + seq![e]);
    assert(b.push(e) == b + seq![e]);
    Seq::filter_distributes_over_add(a, seq![e], pred);
    Seq::filter_distributes_over_add(b, seq![e], pred);
}

/// Puts a listing into display order: directories first, each group by name.
/// Entries that order alike keep the order they had.
pub fn sort_entries(entries: Vec<EntryMeta>) -> (r: Vec<EntryMeta>)
    ensures
        is_sorted(r@),
        r@.to_multiset() == entries@.to_multiset(),
        forall|dir: bool, name: Seq<char>|
            #![trigger entries_like(r@, dir, name)]
            entries_like(r@, dir, name) == entries_like(entries@, dir, name),
{
    broadcast use vstd::seq_lib::group_to_multiset_ensures;

    let mut out: Vec<EntryMeta> = Vec::new();
    let mut i: usize = 0;
    proof {
        assert(entries@.take(0) == Seq::<EntryMeta>::empty());
    }
    while i < entries.len()
        invariant
            i <= entries@.len(),
            out@.len() == i,
            is_sorted(out@),
            out@.to_multiset() == entries@.take(i as int).to_multiset(),
            forall|dir: bool, name: Seq<char>|
                #![trigger entries_like(out@, dir, name)]
                entries_like(out@, dir, name) == entries_like(entries@.take(i as int), dir, name),
        decreases entries.len() - i,
    {
        let e: EntryMeta = entries[i].clone();
        let mut at: usize = out.len();
        while at > 0 && !goes_before(&out[at - 1], &e)
            invariant
                at <= out@.len(),
                is_sorted(out@),
                forall|k: int| at <= k < out@.len() ==> !listed_before(#[trigger] out@[k], e),
            decreases at,
        {
            at -= 1;
        }
        let ghost before = out@;
        let ghost prefix = entries@.take(i as int);
        out.insert(at, e);
        proof {
            let next = entries@.take(i + 1);
            assert(next == prefix.push(e));
            vstd::seq_lib::to_multiset_insert(before, at as int, e);
            vstd::seq_lib::to_multiset_build(prefix, e);
            assert forall|dir: bool, name: Seq<char>|
                #![trigger entries_like(out@, dir, name)]
                entries_like(out@, dir, name) == entries_like(next, dir, name) by {
                let pred = is_like(dir, name);
                lemma_insert_keeps_groups(before, at as int, e, dir, name);
                assert(entries_like(before, dir, name) == entries_like(prefix, dir, name));
                lemma_filter_push(before, prefix, e, pred);
            }
            assert forall|a: int, b: int| 0 <= a < b < out@.len() implies #[trigger] listed_before(
                out@[a],
                out@[b],
            ) by {
                let a0 = if a < at {
                    a
                } else {
                    a - 1
                };
                let b0 = if b < at {
                    b
                } else {
                    b - 1
                };
                if a != at && b != at {
                    assert(listed_before(before[a0], before[b0]));
                } else if a == at {
                    assert(!listed_before(before[b0], e));
                    text::lemma_before_total(e.name@, before[b0].name@);
                } else {
                    if a0 < at - 1 {
                        assert(listed_before(before[a0], before[at - 1]));
                        lemma_listed_transitive(before[a0], before[at - 1], e);
                    }
                }
            }
        }
        i += 1;
    }
    proof {
        assert(entries@.take(i as int) == entries@);
    }
    out
}

/// Kinds are the same only if they are of the same shape, and links only if they
/// have the same target; every kind is the same as itself.
pub proof fn law_kinds(a: EntryKind, b: EntryKind)
    ensures
        same_kind(a, a),
        same_shape(a, a),
        same_kind(a, b) == same_kind(b, a),
        same_shape(a, b) == same_shape(b, a),
        same_kind(a, b) ==> same_shape(a, b),
        same_shape(a, b) ==> (a is Dir <==> b is Dir) && (a is File <==> b is File) && (
        a is Symlink <==> b is Symlink) && (a is Other <==> b is Other),
        a is Symlink && b is Symlink ==> same_shape(a, b),
        a is Symlink && same_kind(a, b) ==> (match (a->target, b->target) {
            (Some(x), Some(y)) => path::components(x@) == path::components(y@),
            (None, None) => true,
            _ => false,
        }),
        !(a is Symlink) && same_shape(a, b) ==> same_kind(a, b),
{
}

/// A second has a thousand million nanoseconds, and times are compared as points in
/// time, however they are split up.
pub proof fn law_times(a: FileTime, b: FileTime)
    requires
        a.nanos < 1_000_000_000,
        b.nanos < 1_000_000_000,
    ensures
        a.in_nanos() == b.in_nanos() <==> a == b,
        a.seconds < b.seconds ==> a.in_nanos() < b.in_nanos(),
        a.seconds == b.seconds ==> a.in_nanos() - b.in_nanos() == a.nanos - b.nanos,
        a.nanos == b.nanos ==> a.in_nanos() - b.in_nanos() == (a.seconds - b.seconds) * 1_000_000_000,
{
}

/// What went wrong can be told from the words: of one path, that it is missing, that
/// it may not be touched and that it is in the way read differently, and each ends
/// with the path.
pub proof fn law_error_words(p: VfsPath)
    ensures
        VfsError::NotFound(p).text() != VfsError::PermissionDenied(p).text(),
        VfsError::NotFound(p).text() != VfsError::AlreadyExists(p).text(),
        VfsError::PermissionDenied(p).text() != VfsError::AlreadyExists(p).text(),
        text::has_suffix(VfsError::NotFound(p).text(), p@),
        text::has_suffix(VfsError::PermissionDenied(p).text(), p@),
        text::has_suffix(VfsError::AlreadyExists(p).text(), p@),
{
    reveal_strlit("not found: ");
    reveal_strlit("permission denied: ");
    reveal_strlit("already exists: ");
    text::law_ends(p@, p@, "not found: "@);
    text::law_ends(p@, p@, "permission denied: "@);
    text::law_ends(p@, p@, "already exists: "@);
    assert(VfsError::NotFound(p).text()[0] == 'n');
    assert(VfsError::PermissionDenied(p).text()[0] == 'p');
    assert(VfsError::AlreadyExists(p).text()[0] == 'a');
}

} // verus!
