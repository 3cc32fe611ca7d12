//! What an SFTP backend decides: how remote files are described and hashed,
//! how a remote directory tree is removed, and what is told about a
//! connection.

use vstd::prelude::*;

use crate::archive;
use crate::local;
use crate::numbers;
use crate::path;
use crate::path::VfsPath;
use crate::text;
use crate::text::{slice_chars, to_chars, trim_chars, white_space};
use crate::vfs;
use crate::vfs::{
    clone_text, sort_entries, ConnectionInfo, EntryKind, EntryMeta, IoFailure,
    QuicConnectionInfo, VfsCapabilities, VfsError, VfsResult,
};

verus! {

/// What a server says of a file.
#[derive(Debug)]
pub struct RemoteStat {
    pub is_dir: bool,
    pub is_symlink: bool,
    pub is_file: bool,
    pub size: Option<u64>,
    /// Seconds since the Unix epoch.
    pub mtime: Option<u64>,
    pub perm: Option<u32>,
}

/// One entry of a remote directory.
#[derive(Debug)]
pub struct RemoteEntry {
    /// Its path, if that is UTF-8.
    pub path: Option<VfsPath>,
    pub stat: RemoteStat,
    /// Where a link points, if the server says so and it is UTF-8.
    pub target: Option<VfsPath>,
}

/// The kind of a file by what the server says of it.
pub open spec fn remote_kind(stat: RemoteStat, target: Option<VfsPath>) -> EntryKind {
    if stat.is_dir {
        EntryKind::Dir
    } else if stat.is_symlink {
        EntryKind::Symlink { target }
    } else if stat.is_file {
        EntryKind::File
    } else {
        EntryKind::Other
    }
}

/// Whether `meta` is the entry for a remote file.
pub open spec fn is_remote_meta(
    meta: EntryMeta,
    at: VfsPath,
    name: Seq<char>,
    stat: RemoteStat,
    target: Option<VfsPath>,
) -> bool {
    &&& meta.name@ == name
    &&& meta.path == at
    &&& meta.kind == remote_kind(stat, target)
    &&& meta.size == (match stat.size {
        Some(n) => n,
        None => 0,
    })
    &&& meta.modified == archive::time_of_seconds(stat.mtime)
    &&& meta.permissions == (match stat.perm {
        Some(p) => Some(local::permission_bits(p)),
        None => None,
    })
    &&& meta.owner is None
    &&& meta.group is None
}

/// The entry for a remote file.
pub fn entry_meta_from_stat(
    at: VfsPath,
    name: String,
    stat: &RemoteStat,
    target: &Option<VfsPath>,
) -> (r: EntryMeta)
    ensures
        is_remote_meta(r, at, name@, *stat, *target),
        r.name == name,
{
    let kind: EntryKind = if stat.is_dir {
        EntryKind::Dir
    } else if stat.is_symlink {
        EntryKind::Symlink {
            target: match target {
                Some(t) => Some(t.clone()),
                None => None,
            },
        }
    } else if stat.is_file {
        EntryKind::File
    } else {
        EntryKind::Other
    };
    EntryMeta {
        name,
        path: at,
        kind,
        size: match stat.size {
            Some(n) => n,
            None => 0,
        },
        modified: archive::time_from_seconds(stat.mtime),
        permissions: match stat.perm {
            Some(p) => Some(local::permissions_of(p)),
            None => None,
        },
        owner: None,
        group: None,
    }
}

/// The error for a failed operation on a remote path.
pub open spec fn remote_error(failure: IoFailure, why: String, at: VfsPath) -> VfsError {
    match failure {
        IoFailure::NotFound => VfsError::NotFound(at),
        IoFailure::AlreadyExists => VfsError::AlreadyExists(at),
        _ => VfsError::Io(why),
    }
}

/// A remote path that is missing or in the way is told apart and named; anything else
/// is told in the server's own words.
pub proof fn law_remote_errors(failure: IoFailure, why: String, at: VfsPath)
    ensures
        remote_error(failure, why, at) is NotFound <==> failure == IoFailure::NotFound,
        remote_error(failure, why, at) is AlreadyExists <==> failure == IoFailure::AlreadyExists,
        failure != IoFailure::NotFound && failure != IoFailure::AlreadyExists ==> remote_error(
            failure,
            why,
            at,
        ).text() == why@,
        failure == IoFailure::NotFound || failure == IoFailure::AlreadyExists ==> ({
            let t = remote_error(failure, why, at).text();
            t.len() >= at@.len() && t.skip(t.len() - at@.len()) == at@
        }),
{
    let t = remote_error(failure, why, at).text();
    if failure == IoFailure::NotFound || failure == IoFailure::AlreadyExists {
        assert(t.skip(t.len() - at@.len()) =~= at@);
    }
}

/// The error for a failed operation on a remote path.
pub fn map_ssh_err(failure: IoFailure, why: String, at: &VfsPath) -> (r: VfsError)
    ensures
        r == remote_error(failure, why, *at),
        r == (match failure {
            IoFailure::NotFound => VfsError::NotFound(*at),
            IoFailure::AlreadyExists => VfsError::AlreadyExists(*at),
            _ => VfsError::Io(why),
        }),
{
    match failure {
        IoFailure::NotFound => VfsError::NotFound(at.clone()),
        IoFailure::AlreadyExists => VfsError::AlreadyExists(at.clone()),
        _ => VfsError::Io(why),
    }
}

/// The first `n` entries whose path is UTF-8.
pub open spec fn with_path(entries: Seq<RemoteEntry>, n: int) -> Seq<RemoteEntry>
    decreases n,
{
    if n <= 0 {
        Seq::empty()
    } else if entries[n - 1].path is Some {
        with_path(entries, n - 1).push(entries[n - 1])
    } else {
        with_path(entries, n - 1)
    }
}

/// The name of a remote path, which may be empty.
pub open spec fn name_or_empty(p: Seq<char>) -> Seq<char> {
    match path::last_name(p) {
        Some(name) => name,
        None => Seq::empty(),
    }
}

/// Whether `metas` are the entries for listed remote ones.
pub open spec fn are_remote_metas(metas: Seq<EntryMeta>, entries: Seq<RemoteEntry>) -> bool {
    &&& metas.len() == entries.len()
    &&& forall|i: int|
        0 <= i < metas.len() ==> is_remote_meta(
            #[trigger] metas[i],
            entries[i].path->0,
            name_or_empty(entries[i].path->0@),
            entries[i].stat,
            entries[i].target,
        )
}

/// Whether `listed` is the listing of what a server listed, in display order.
pub open spec fn is_remote_listing(listed: Seq<EntryMeta>, entries: Seq<RemoteEntry>) -> bool {
    exists|metas: Seq<EntryMeta>|
        {
            &&& #[trigger] are_remote_metas(metas, with_path(entries, entries.len() as int))
            &&& vfs::is_sorted(listed)
            &&& listed.to_multiset() == metas.to_multiset()
        }
}

/// What a remote directory holds, in display order. Entries whose path is not
/// UTF-8 are left out.
pub fn remote_listing(entries: &Vec<RemoteEntry>) -> (r: Vec<EntryMeta>)
    ensures
        is_remote_listing(r@, entries@),
        exists|metas: Seq<EntryMeta>|
            {
                &&& #[trigger] are_remote_metas(metas, with_path(entries@, entries@.len() as int))
                &&& vfs::is_sorted(r@)
                &&& r@.to_multiset() == metas.to_multiset()
                &&& forall|is_dir: bool, name: Seq<char>|
                    #![trigger vfs::entries_like(r@, is_dir, name)]
                    vfs::entries_like(r@, is_dir, name) == vfs::entries_like(metas, is_dir, name)
            },
{
    let mut metas: Vec<EntryMeta> = Vec::new();
    let mut i: usize = 0;
    while i < entries.len()
        invariant
            i <= entries@.len(),
            are_remote_metas(metas@, with_path(entries@, i as int)),
        decreases entries.len() - i,
    {
        match &entries[i].path {
            Some(p) => {
                let ghost before = metas@;
                let name: String = match p.file_name() {
                    Some(name) => name,
                    None => String::new(),
                };
                metas.push(
                    entry_meta_from_stat(p.clone(), name, &entries[i].stat, &entries[i].target),
                );
                proof {
                    let now = with_path(entries@, i + 1);
                    assert forall|k: int| 0 <= k < metas@.len() implies is_remote_meta(
                        #[trigger] metas@[k],
                        now[k].path->0,
                        name_or_empty(now[k].path->0@),
                        now[k].stat,
                        now[k].target,
                    ) by {
                        if k < before.len() {
                            assert(metas@[k] == before[k]);
                        }
                    }
                }
            },
            None => {},
        }
        i += 1;
    }
    let ghost unsorted = metas@;
    let r: Vec<EntryMeta> = sort_entries(metas);
    proof {
        assert(are_remote_metas(unsorted, with_path(entries@, entries@.len() as int)));
    }
    r
}

/// `s` up to its first white space.
pub open spec fn word_at_front(s: Seq<char>) -> Seq<char>
    decreases s.len(),
{
    if s.len() == 0 || text::is_white_space(s[0]) {
        Seq::empty()
    } else {
        seq![s[0]] + word_at_front(s.skip(1))
    }
}

/// The hash in the output of the remote hash command: its first word in base
/// 16, if the command succeeded and the word is a number.
pub open spec fn hash_in_output(status: i32, stdout: Seq<char>) -> Option<nat> {
    if status != 0 {
        None
    } else {
        numbers::parsed(word_at_front(text::trim_start(stdout)), 16, 0xffff_ffff_ffff_ffff)
    }
}

proof fn lemma_word_front(s: Seq<char>, n: int)
    requires
        0 <= n <= s.len(),
        forall|i: int| 0 <= i < n ==> !text::is_white_space(#[trigger] s[i]),
        n == s.len() || text::is_white_space(s[n]),
    ensures
        word_at_front(s) == s.take(n),
    decreases s.len(),
{
    if n == 0 {
        assert(s.take(0) =~= Seq::<char>::empty());
    } else {
        let rest = s.skip(1);
        assert(!text::is_white_space(s[0]));
        assert forall|i: int| 0 <= i < n - 1 implies !text::is_white_space(#[trigger] rest[i]) by {
            assert(rest[i] == s[i + 1]);
        }
        lemma_word_front(rest, n - 1);
        assert(s.take(n) =~= seq![s[0]] + rest.take(n - 1));
    }
}

/// Reads the output of the remote hash command.
pub fn parse_hash_output(status: i32, stdout: &str) -> (r: Option<u64>)
    ensures
        r is Some <==> hash_in_output(status, stdout@) is Some,
        r matches Some(h) ==> hash_in_output(status, stdout@) == Some(h as nat),
{
    if status != 0 {
        return None;
    }
    let chars: Vec<char> = to_chars(stdout);
    let mut from: usize = 0;
    proof {
        assert(chars@.skip(0) == chars@);
    }
    while from < chars.len() && white_space(chars[from])
        invariant
            from <= chars@.len(),
            text::trim_start(chars@.skip(from as int)) == text::trim_start(chars@),
        decreases chars.len() - from,
    {
        proof {
            let rest = chars@.skip(from as int);
            assert(rest.skip(1) == chars@.skip(from + 1));
            assert(text::is_white_space(rest[0]));
        }
        from += 1;
    }
    let ghost front = chars@.skip(from as int);
    proof {
        if from < chars@.len() {
            assert(front[0] == chars@[from as int]);
        }
        assert(text::trim_start(front) == front);
    }
    let mut to: usize = from;
    while to < chars.len() && !white_space(chars[to])
        invariant
            from <= to <= chars@.len(),
            front == chars@.skip(from as int),
            forall|i: int| 0 <= i < to - from ==> !text::is_white_space(#[trigger] front[i]),
        decreases chars.len() - to,
    {
        proof {
            assert(front[to - from] == chars@[to as int]);
        }
        to += 1;
    }
    proof {
        if to < chars@.len() {
            assert(front[to - from] == chars@[to as int]);
        }
        lemma_word_front(front, to - from);
        assert(chars@.subrange(from as int, to as int) =~= front.take(to - from));
    }
    let word: Vec<char> = slice_chars(&chars, from, to);
    numbers::parse_number(&word, 16, 0xffff_ffff_ffff_ffff)
}

/// Whether the remote host has the hash command, as far as is known: the first
/// attempt decides for good.
#[derive(Clone, Copy, Debug, PartialEq, Eq, Structural)]
pub struct HashProbe {
    pub available: Option<bool>,
}

impl HashProbe {
    /// Whether the host may have the hash command.
    pub open spec fn may_have_hashes(self) -> bool {
        self.available != Some(false)
    }

    /// What is known after an answer.
    pub open spec fn after(self, hash: Option<u64>) -> HashProbe {
        match self.available {
            None => HashProbe { available: Some(hash is Some) },
            Some(_) => self,
        }
    }

    /// Nothing is known yet.
    pub fn new() -> (r: Self)
        ensures
            r.available is None,
    {
        HashProbe { available: None }
    }

    /// Whether asking for a hash is worth a round trip.
    pub fn worth_asking(&self) -> (r: bool)
        ensures
            r == self.may_have_hashes(),
            r == (self.available != Some(false)),
    {
        match self.available {
            Some(false) => false,
            _ => true,
        }
    }

    /// Takes note of an answer and hands it on.
    pub fn on_answer(&mut self, hash: Option<u64>) -> (r: Option<u64>)
        ensures
            *final(self) == old(self).after(hash),
            r == hash,
            final(self).available == (if old(self).available is None {
                Some(hash is Some)
            } else {
                old(self).available
            }),
    {
        if self.available.is_none() {
            self.available = Some(hash.is_some());
        }
        hash
    }
}

/// Whether the output of `uname -s` is that of a host the agent can run on.
pub fn os_supports_quic_agent(uname_output: &str) -> (r: bool)
    ensures
        r == (text::trimmed(uname_output@) == "Linux"@),
{
    crate::text::same_chars(&trim_chars(&to_chars(uname_output)), &to_chars("Linux"))
}

/// What is told about an SFTP connection: only what is already known.
pub fn connection_info(
    remote_os: &Option<String>,
    quic: Option<QuicConnectionInfo>,
) -> (r: ConnectionInfo)
    ensures
        r.protocol@ == "SFTP"@,
        r.remote_os == *remote_os,
        r.quic == quic,
{
    ConnectionInfo { protocol: "SFTP", remote_os: clone_text(remote_os), quic }
}

/// What can be done with remote files: everything.
pub fn remote_capabilities() -> (r: VfsCapabilities)
    ensures
        r == (VfsCapabilities {
            can_write: true,
            can_set_permissions: true,
            can_symlink: true,
            can_rename: true,
        }),
{
    VfsCapabilities {
        can_write: true,
        can_set_permissions: true,
        can_symlink: true,
        can_rename: true,
    }
}

/// The mode of a remote file that is created: the one asked for or `0o644`.
pub fn file_mode(mode: Option<u32>) -> (r: u32)
    ensures
        r == (match mode {
            Some(m) => m,
            None => 0o644,
        }),
{
    match mode {
        Some(m) => m,
        None => 0o644,
    }
}

/// The mode of a remote directory that is created: the one asked for or
/// `0o755`.
pub fn dir_mode(mode: Option<u32>) -> (r: u32)
    ensures
        r == (match mode {
            Some(m) => m,
            None => 0o755,
        }),
{
    match mode {
        Some(m) => m,
        None => 0o755,
    }
}

/// One step in the removal of a remote directory tree. The protocol cannot
/// remove a tree at once.
#[derive(Debug)]
pub enum RemovalStep {
    /// List the directory, and then remove what it holds.
    List(VfsPath),
    RemoveFile(VfsPath),
    /// Remove the directory, which is empty by then.
    RemoveDir(VfsPath),
}

impl Clone for RemovalStep {
    fn clone(&self) -> (r: Self)
        ensures
            r == *self,
    {
        match self {
            RemovalStep::List(p) => RemovalStep::List(p.clone()),
            RemovalStep::RemoveFile(p) => RemovalStep::RemoveFile(p.clone()),
            RemovalStep::RemoveDir(p) => RemovalStep::RemoveDir(p.clone()),
        }
    }
}

/// The removal of a remote directory: what is left to do, the next at the end.
#[derive(Debug)]
pub struct Removal {
    pub steps: Vec<RemovalStep>,
    pub failed: Option<VfsError>,
}

/// The steps for one listed entry, the next at the end.
pub open spec fn removal_of(e: EntryMeta) -> Seq<RemovalStep> {
    if e.kind is Dir {
        seq![RemovalStep::RemoveDir(e.path), RemovalStep::List(e.path)]
    } else {
        seq![RemovalStep::RemoveFile(e.path)]
    }
}

/// The steps for listed entries from `i` on, the next at the end.
pub open spec fn removal_of_all(entries: Seq<EntryMeta>, i: int) -> Seq<RemovalStep>
    decreases entries.len() - i,
{
    if i < 0 || i >= entries.len() {
        Seq::empty()
    } else {
        removal_of_all(entries, i + 1) + removal_of(entries[i])
    }
}

impl Removal {
    /// The removal of `at`, with everything in it if `recursive`.
    pub fn start(at: &VfsPath, recursive: bool) -> (r: Self)
        ensures
            r.failed is None,
            r.steps@ == (if recursive {
                seq![RemovalStep::RemoveDir(*at), RemovalStep::List(*at)]
            } else {
                seq![RemovalStep::RemoveDir(*at)]
            }),
    {
        let mut steps: Vec<RemovalStep> = Vec::new();
        steps.push(RemovalStep::RemoveDir(at.clone()));
        if recursive {
            steps.push(RemovalStep::List(at.clone()));
        }
        proof {
            assert(recursive ==> steps@ =~= seq![
                RemovalStep::RemoveDir(*at),
                RemovalStep::List(*at),
            ]);
            assert(!recursive ==> steps@ =~= seq![RemovalStep::RemoveDir(*at)]);
        }
        Removal { steps, failed: None }
    }

    /// What is to be done next.
    pub open spec fn pending(self) -> Option<RemovalStep> {
        if self.failed is Some || self.steps@.len() == 0 {
            None
        } else {
            Some(self.steps@.last())
        }
    }

    /// What is to be done next.
    pub fn next(&self) -> (r: Option<RemovalStep>)
        ensures
            r == self.pending(),
    {
        if self.failed.is_some() || self.steps.len() == 0 {
            None
        } else {
            Some(self.steps[self.steps.len() - 1].clone())
        }
    }

    /// Goes on after a removal.
    pub fn on_removed(&mut self, result: VfsResult<()>)
        requires
            old(self).pending() is Some,
            !(old(self).pending()->0 is List),
        ensures
            removal_went_on(*old(self), RemovalEvent::Removed(result), *final(self)),
            match result {
                Ok(_) => {
                    &&& final(self).failed is None
                    &&& final(self).steps@ == old(self).steps@.drop_last()
                },
                Err(e) => *final(self) == (Removal { failed: Some(e), ..*old(self) }),
            },
    {
        match result {
            Ok(_) => {
                let _ = self.steps.pop();
            },
            Err(e) => {
                self.failed = Some(e);
            },
        }
    }

    /// Goes on after a listing.
    pub fn on_listed(&mut self, result: VfsResult<Vec<EntryMeta>>)
        requires
            old(self).pending() is Some,
            old(self).pending()->0 is List,
        ensures
            removal_went_on(*old(self), RemovalEvent::Listed(result), *final(self)),
            match result {
                Ok(entries) => {
                    &&& final(self).failed is None
                    &&& final(self).steps@ == old(self).steps@.drop_last() + removal_of_all(
                        entries@,
                        0,
                    )
                },
                Err(e) => *final(self) == (Removal { failed: Some(e), ..*old(self) }),
            },
    {
        match result {
            Ok(entries) => {
                let _ = self.steps.pop();
                let ghost base = self.steps@;
                let mut i: usize = entries.len();
                proof {
                    assert(base + removal_of_all(entries@, i as int) =~= base);
                }
                while i > 0
                    invariant
                        i <= entries@.len(),
                        self.failed is None,
                        self.steps@ == base + removal_of_all(entries@, i as int),
                    decreases i,
                {
                    i -= 1;
                    let ghost before = self.steps@;
                    if entries[i].kind.is_dir() {
                        self.steps.push(RemovalStep::RemoveDir(entries[i].path.clone()));
                        self.steps.push(RemovalStep::List(entries[i].path.clone()));
                    } else {
                        self.steps.push(RemovalStep::RemoveFile(entries[i].path.clone()));
                    }
                    proof {
                        assert(self.steps@ =~= before + removal_of(entries@[i as int]));
                        assert(self.steps@ =~= base + removal_of_all(entries@, i as int));
                    }
                }
            },
            Err(e) => {
                self.failed = Some(e);
            },
        }
    }

    /// How a removal with nothing left to do ended.
    pub fn finish(self) -> (r: VfsResult<()>)
        requires
            self.pending() is None,
        ensures
            match self.failed {
                Some(e) => r == Err::<(), VfsError>(e),
                None => r is Ok,
            },
    {
        match self.failed {
            Some(e) => Err(e),
            None => Ok(()),
        }
    }
}

/// What came of a step in the removal of a tree.
pub enum RemovalEvent {
    Removed(VfsResult<()>),
    Listed(VfsResult<Vec<EntryMeta>>),
}

/// Whether a removal goes from one state to the next by what came of its step.
pub open spec fn removal_went_on(before: Removal, event: RemovalEvent, after: Removal) -> bool {
    &&& before.pending() is Some
    &&& match event {
        RemovalEvent::Removed(Ok(_)) => {
            &&& !(before.steps@.last() is List)
            &&& after.failed is None
            &&& after.steps@ == before.steps@.drop_last()
        },
        RemovalEvent::Listed(Ok(entries)) => {
            &&& before.steps@.last() is List
            &&& after.failed is None
            &&& after.steps@ == before.steps@.drop_last() + removal_of_all(entries@, 0)
        },
        _ => after.failed is Some,
    }
}

/// Whether `states` are those of the removal of a tree whose steps came to these
/// ends, all of them good ones, until nothing was left to do.
pub open spec fn is_removal_run(
    at: VfsPath,
    states: Seq<Removal>,
    events: Seq<RemovalEvent>,
) -> bool {
    &&& states.len() == events.len() + 1
    &&& states[0].failed is None
    &&& states[0].steps@ == seq![RemovalStep::RemoveDir(at), RemovalStep::List(at)]
    &&& forall|i: int|
        0 <= i < events.len() ==> removal_went_on(#[trigger] states[i], events[i], states[i + 1])
    &&& states.last().failed is None
    &&& states.last().steps@.len() == 0
}

/// Whether the `j`th event is the good end of a step.
pub open spec fn is_done_at(
    states: Seq<Removal>,
    events: Seq<RemovalEvent>,
    j: int,
    step: RemovalStep,
) -> bool {
    &&& 0 <= j < events.len()
    &&& states[j].steps@.len() > 0
    &&& states[j].steps@.last() == step
    &&& events[j] matches RemovalEvent::Removed(Ok(_))
}

proof fn lemma_no_failure(at: VfsPath, states: Seq<Removal>, events: Seq<RemovalEvent>, i: int)
    requires
        is_removal_run(at, states, events),
        0 <= i < events.len(),
    ensures
        states[i].failed is None,
        states[i].steps@.len() > 0,
        states[i + 1].failed is None,
{
    assert(removal_went_on(states[i], events[i], states[i + 1]));
    if i + 1 < events.len() {
        assert(removal_went_on(states[i + 1], events[i + 1], states[i + 1 + 1]));
    } else {
        assert(states[i + 1] == states.last());
    }
}

proof fn lemma_stack_is_worked_off(
    at: VfsPath,
    states: Seq<Removal>,
    events: Seq<RemovalEvent>,
    m: int,
    k: int,
) -> (j: int)
    requires
        is_removal_run(at, states, events),
        0 <= m < states.len(),
        0 <= k < states[m].steps@.len(),
    ensures
        m <= j < events.len(),
        states[j].steps@ == states[m].steps@.take(k + 1),
    decreases states.len() - m,
{
    let steps = states[m].steps@;
    if m == events.len() {
        assert(states[m] == states.last());
    }
    if steps.len() == k + 1 {
        assert(steps.take(k + 1) =~= steps);
        m
    } else {
        assert(removal_went_on(states[m], events[m], states[m + 1]));
        lemma_no_failure(at, states, events, m);
        let next = states[m + 1].steps@;
        assert(next.take(k + 1) =~= steps.take(k + 1));
        lemma_stack_is_worked_off(at, states, events, m + 1, k)
    }
}

proof fn lemma_steps_of_entry(entries: Seq<EntryMeta>, i: int, e: int) -> (k: int)
    requires
        0 <= i <= e < entries.len(),
    ensures
        0 <= k < removal_of_all(entries, i).len(),
        removal_of_all(entries, i)[k] == (if entries[e].kind is Dir {
            RemovalStep::RemoveDir(entries[e].path)
        } else {
            RemovalStep::RemoveFile(entries[e].path)
        }),
        entries[e].kind is Dir ==> k + 1 < removal_of_all(entries, i).len() && removal_of_all(
            entries,
            i,
        )[k + 1] == RemovalStep::List(entries[e].path),
    decreases entries.len() - i,
{
    let rest = removal_of_all(entries, i + 1);
    if i == e {
        rest.len() as int
    } else {
        lemma_steps_of_entry(entries, i + 1, e)
    }
}

/// Whether every directory that is to be listed is to be removed right after.
pub open spec fn lists_before_removing(steps: Seq<RemovalStep>) -> bool {
    forall|q: int|
        0 <= q < steps.len() ==> (#[trigger] steps[q] matches RemovalStep::List(p) ==> q > 0
            && steps[q - 1] == RemovalStep::RemoveDir(p))
}

proof fn lemma_entries_list_before_removing(entries: Seq<EntryMeta>, i: int)
    requires
        0 <= i <= entries.len(),
    ensures
        lists_before_removing(removal_of_all(entries, i)),
    decreases entries.len() - i,
{
    if i < entries.len() {
        lemma_entries_list_before_removing(entries, i + 1);
        let rest = removal_of_all(entries, i + 1);
        let all = removal_of_all(entries, i);
        assert forall|q: int| 0 <= q < all.len() implies (#[trigger] all[q] matches
            RemovalStep::List(p) ==> q > 0 && all[q - 1] == RemovalStep::RemoveDir(p)) by {
            if q < rest.len() {
                assert(all[q] == rest[q]);
                if q > 0 {
                    assert(all[q - 1] == rest[q - 1]);
                }
            }
        }
    }
}

proof fn lemma_run_lists_before_removing(
    at: VfsPath,
    states: Seq<Removal>,
    events: Seq<RemovalEvent>,
    m: int,
)
    requires
        is_removal_run(at, states, events),
        0 <= m < states.len(),
    ensures
        lists_before_removing(states[m].steps@),
    decreases m,
{
    if m > 0 {
        lemma_run_lists_before_removing(at, states, events, m - 1);
        lemma_no_failure(at, states, events, m - 1);
        assert(removal_went_on(states[m - 1], events[m - 1], states[m - 1 + 1]));
        let before = states[m - 1].steps@;
        let base = before.drop_last();
        let after = states[m].steps@;
        let new = match events[m - 1] {
            RemovalEvent::Listed(Ok(entries)) => {
                lemma_entries_list_before_removing(entries@, 0);
                removal_of_all(entries@, 0)
            },
            _ => Seq::empty(),
        };
        assert(after =~= base + new);
        assert forall|q: int| 0 <= q < after.len() implies (#[trigger] after[q] matches
            RemovalStep::List(p) ==> q > 0 && after[q - 1] == RemovalStep::RemoveDir(p)) by {
            if q < base.len() {
                assert(after[q] == before[q]);
                if q > 0 {
                    assert(after[q - 1] == before[q - 1]);
                }
            } else {
                assert(after[q] == new[q - base.len()]);
                if q > base.len() {
                    assert(after[q - 1] == new[q - base.len() - 1]);
                }
            }
        }
    }
}

/// A tree that is removed without a failure is gone as a whole: whatever a listing
/// of one of its directories showed is removed, and only then the directory
/// itself. Nothing that is a directory is removed as a file, or the other way
/// round.
pub proof fn law_whole_tree_is_removed(
    at: VfsPath,
    states: Seq<Removal>,
    events: Seq<RemovalEvent>,
    i: int,
    dir: VfsPath,
    entries: Vec<EntryMeta>,
    e: int,
) -> (r: (int, int))
    requires
        is_removal_run(at, states, events),
        0 <= i < events.len(),
        events[i] == RemovalEvent::Listed(Ok(entries)),
        states[i].pending() == Some(RemovalStep::List(dir)),
        0 <= e < entries@.len(),
    ensures
        i < r.0 < r.1,
        is_done_at(
            states,
            events,
            r.0,
            if entries@[e].kind is Dir {
                RemovalStep::RemoveDir(entries@[e].path)
            } else {
                RemovalStep::RemoveFile(entries@[e].path)
            },
        ),
        is_done_at(states, events, r.1, RemovalStep::RemoveDir(dir)),
{
    lemma_no_failure(at, states, events, i);
    assert(removal_went_on(states[i], events[i], states[i + 1]));
    let before = states[i].steps@;
    let base = before.drop_last();
    let after = states[i + 1].steps@;
    lemma_run_lists_before_removing(at, states, events, i);
    let top = before.len() - 1;
    assert(before[top] == RemovalStep::List(dir));
    assert(before[top - 1] == RemovalStep::RemoveDir(dir));
    let k = lemma_steps_of_entry(entries@, 0, e);
    let place = base.len() + k;
    assert(after[place] == removal_of_all(entries@, 0)[k]);
    let j = lemma_stack_is_worked_off(at, states, events, i + 1, place);
    assert(states[j].steps@.last() == after[place]);
    assert(removal_went_on(states[j], events[j], states[j + 1]));
    lemma_no_failure(at, states, events, j);
    let later = states[j + 1].steps@;
    assert(later =~= states[j].steps@.drop_last());
    assert(later[top - 1] == after[top - 1]);
    assert(after[top - 1] == before[top - 1]);
    let j2 = lemma_stack_is_worked_off(at, states, events, j + 1, top - 1);
    assert(states[j2].steps@.last() == later[top - 1]);
    assert(removal_went_on(states[j2], events[j2], states[j2 + 1]));
    lemma_no_failure(at, states, events, j2);
    (j, j2)
}

/// The directory that was to be removed is removed last of all, and it was listed
/// before anything else.
pub proof fn law_top_is_removed_last(
    at: VfsPath,
    states: Seq<Removal>,
    events: Seq<RemovalEvent>,
)
    requires
        is_removal_run(at, states, events),
    ensures
        events.len() >= 2,
        states[0].pending() == Some(RemovalStep::List(at)),
        is_done_at(states, events, events.len() - 1, RemovalStep::RemoveDir(at)),
{
    let j = lemma_stack_is_worked_off(at, states, events, 0, 0);
    assert(states[j].steps@ =~= seq![RemovalStep::RemoveDir(at)]);
    assert(removal_went_on(states[j], events[j], states[j + 1]));
    lemma_no_failure(at, states, events, j);
    assert(states[j + 1].steps@.len() == 0);
    if j + 1 < events.len() {
        assert(removal_went_on(states[j + 1], events[j + 1], states[j + 1 + 1]));
    }
    assert(states[0].steps@.len() == 2);
}

/// A hash command that prints the hash in hexadecimal, and whatever else behind a
/// space, is understood; one that fails is not.
pub proof fn law_hash_is_read(word: Seq<char>, rest: Seq<char>, status: i32)
    requires
        word.len() > 0,
        numbers::all_digits(word, 16),
        numbers::digits_value(word, 16) <= 0xffff_ffff_ffff_ffff,
    ensures
        hash_in_output(0, word) == Some(numbers::digits_value(word, 16)),
        hash_in_output(0, word + seq![' '] + rest) == Some(numbers::digits_value(word, 16)),
        hash_in_output(0, word + seq!['\n'] + rest) == Some(numbers::digits_value(word, 16)),
        status != 0 ==> hash_in_output(status, word) is None,
{
    assert forall|i: int| 0 <= i < word.len() implies !text::is_white_space(#[trigger] word[i]) by {
        assert(numbers::is_digit(word[i], 16));
    }
    assert(numbers::is_digit(word[0], 16));
    let n = word.len() as int;
    let a = word + seq![' '] + rest;
    let b = word + seq!['\n'] + rest;
    assert forall|i: int| 0 <= i < n implies !text::is_white_space(#[trigger] a[i]) by {
        assert(a[i] == word[i]);
    }
    assert forall|i: int| 0 <= i < n implies !text::is_white_space(#[trigger] b[i]) by {
        assert(b[i] == word[i]);
    }
    lemma_word_front(word, n);
    lemma_word_front(a, n);
    lemma_word_front(b, n);
    assert(word.take(n) =~= word);
    assert(a.take(n) =~= word);
    assert(b.take(n) =~= word);
    assert(a[0] == word[0] && b[0] == word[0]);
    assert(numbers::without_plus(word) == word);
}

/// A host that could not hash the first file is never asked again, and one that
/// could is asked for every file, whatever comes of later ones.
pub proof fn law_first_hash_decides(
    fresh: HashProbe,
    first: Option<u64>,
    second: Option<u64>,
)
    requires
        fresh.available is None,
    ensures
        fresh.may_have_hashes(),
        fresh.after(first).may_have_hashes() <==> first is Some,
        fresh.after(first).after(second).may_have_hashes() <==> first is Some,
{
}

} // verus!
