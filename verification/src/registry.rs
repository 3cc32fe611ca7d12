//! Which backends are at hand for which locations.

use vstd::prelude::*;

use crate::archive;
use crate::archive::{detect_format, ArchiveFormat};
use crate::path;
use crate::text::{joined_text, owned};
use crate::vfs;
use crate::vfs::{ConnectionInfo, Location, ProfileId, VfsError, VfsResult};

verus! {

/// A connection that has been made.
#[derive(Debug)]
pub struct RemoteBackend {
    pub profile_id: ProfileId,
    /// Whether it has a fast channel, as far as is known.
    pub fast: bool,
    /// What can be told about it.
    pub info: ConnectionInfo,
}

/// Where a backend is kept: there is one local one, and the connections and
/// the opened archives are numbered.
#[derive(Clone, Copy, Debug, PartialEq, Eq, Structural)]
pub enum Backend {
    Local,
    Remote(usize),
    Archive(usize),
}

/// The backends that are at hand.
#[derive(Debug)]
pub struct VfsRegistry {
    pub remotes: Vec<RemoteBackend>,
    pub archives: Vec<Location>,
}

/// The number of the connection for a profile, or -1.
pub open spec fn remote_number(remotes: Seq<RemoteBackend>, id: Seq<char>, from: int) -> int
    decreases remotes.len() - from,
{
    if from < 0 || from >= remotes.len() {
        -1
    } else if remotes[from].profile_id@ == id {
        from
    } else {
        remote_number(remotes, id, from + 1)
    }
}

/// The number of an opened archive, or -1.
pub open spec fn archive_number(archives: Seq<Location>, location: Location, from: int) -> int
    decreases archives.len() - from,
{
    if from < 0 || from >= archives.len() {
        -1
    } else if vfs::same_location(archives[from], location) {
        from
    } else {
        archive_number(archives, location, from + 1)
    }
}

/// Whether a location could not be resolved because its connection is gone.
pub open spec fn is_lost(r: VfsResult<Backend>, why: Seq<char>) -> bool {
    r matches Err(VfsError::ConnectionLost(text)) && text@ == why
}

impl VfsRegistry {
    /// Only the local backend.
    pub fn new() -> (r: Self)
        ensures
            r.remotes@.len() == 0,
            r.archives@.len() == 0,
    {
        VfsRegistry { remotes: Vec::new(), archives: Vec::new() }
    }

    /// Whether a location can be used right away.
    pub open spec fn has(self, location: Location) -> bool {
        match location {
            Location::Local => true,
            Location::Remote { profile_id } => remote_number(self.remotes@, profile_id@, 0) >= 0,
            Location::Archive { .. } => archive_number(self.archives@, location, 0) >= 0,
        }
    }

    /// What resolving a location gives.
    pub open spec fn resolves(self, location: Location, r: VfsResult<Backend>) -> bool {
        match location {
            Location::Local => r == Ok::<Backend, VfsError>(Backend::Local),
            Location::Remote { profile_id } => {
                let n = remote_number(self.remotes@, profile_id@, 0);
                if n >= 0 {
                    r == Ok::<Backend, VfsError>(Backend::Remote(n as usize))
                } else {
                    is_lost(r, "no active connection for profile "@ + profile_id@)
                }
            },
            Location::Archive { .. } => {
                let n = archive_number(self.archives@, location, 0);
                if n >= 0 {
                    r == Ok::<Backend, VfsError>(Backend::Archive(n as usize))
                } else {
                    is_lost(r, "archive not yet opened"@)
                }
            },
        }
    }

    /// Why a location cannot be resolved, in words.
    pub open spec fn failure(self, location: Location) -> Option<Seq<char>> {
        if self.has(location) {
            None
        } else {
            match location {
                Location::Remote { profile_id } => Some(
                    "connection lost: "@ + ("no active connection for profile "@ + profile_id@),
                ),
                _ => Some("connection lost: "@ + "archive not yet opened"@),
            }
        }
    }

    fn find_remote(&self, id: &String) -> (r: Option<usize>)
        ensures
            r matches Some(i) ==> i < self.remotes@.len() && remote_number(
                self.remotes@,
                id@,
                0,
            ) == i,
            r is None ==> remote_number(self.remotes@, id@, 0) < 0,
    {
        let mut i: usize = 0;
        while i < self.remotes.len()
            invariant
                i <= self.remotes@.len(),
                remote_number(self.remotes@, id@, 0) == remote_number(
                    self.remotes@,
                    id@,
                    i as int,
                ),
            decreases self.remotes.len() - i,
        {
            if self.remotes[i].profile_id == *id {
                return Some(i);
            }
            i += 1;
        }
        None
    }

    fn find_archive(&self, location: &Location) -> (r: Option<usize>)
        ensures
            r matches Some(i) ==> i < self.archives@.len() && archive_number(
                self.archives@,
                *location,
                0,
            ) == i,
            r is None ==> archive_number(self.archives@, *location, 0) < 0,
    {
        let mut i: usize = 0;
        while i < self.archives.len()
            invariant
                i <= self.archives@.len(),
                archive_number(self.archives@, *location, 0) == archive_number(
                    self.archives@,
                    *location,
                    i as int,
                ),
            decreases self.archives.len() - i,
        {
            if self.archives[i] == *location {
                return Some(i);
            }
            i += 1;
        }
        None
    }

    /// Resolves a location that has been connected or opened before. Never
    /// connects or opens anything itself.
    pub fn resolve(&self, location: &Location) -> (r: VfsResult<Backend>)
        ensures
            self.resolves(*location, r),
            r is Ok <==> self.has(*location),
            r matches Err(e) ==> self.failure(*location) == Some(e.text()),
    {
        match location {
            Location::Local => Ok(Backend::Local),
            Location::Remote { profile_id } => match self.find_remote(profile_id) {
                Some(i) => Ok(Backend::Remote(i)),
                None => Err(
                    VfsError::ConnectionLost(
                        joined_text("no active connection for profile ", profile_id.as_str()),
                    ),
                ),
            },
            Location::Archive { .. } => match self.find_archive(location) {
                Some(i) => Ok(Backend::Archive(i)),
                None => Err(VfsError::ConnectionLost(owned("archive not yet opened"))),
            },
        }
    }

    /// Takes note of a connection that has been made, in place of an earlier
    /// one of the same profile; the result is its number.
    pub fn connect_and_cache(&mut self, remote: RemoteBackend) -> (r: usize)
        ensures
            final(self).archives == old(self).archives,
            match remote_number(old(self).remotes@, remote.profile_id@, 0) {
                n => if n >= 0 {
                    r == n && final(self).remotes@ == old(self).remotes@.update(n, remote)
                } else {
                    r == old(self).remotes@.len() && final(self).remotes@ == old(
                        self,
                    ).remotes@.push(remote)
                },
            },
            final(self).remotes@[r as int] == remote,
            final(self).resolves(
                Location::Remote { profile_id: remote.profile_id },
                Ok::<Backend, VfsError>(Backend::Remote(r)),
            ),
    {
        proof {
            lemma_connected(self.remotes@, remote);
        }
        match self.find_remote(&remote.profile_id) {
            Some(i) => {
                self.remotes.set(i, remote);
                i
            },
            None => {
                self.remotes.push(remote);
                self.remotes.len() - 1
            },
        }
    }

    /// What opening an archive takes: its format, and the backend that its file
    /// is on.
    pub fn archive_to_open(&self, location: &Location) -> (r: VfsResult<(ArchiveFormat, Backend)>)
        ensures
            match *location {
                Location::Archive { base, archive_path } => match archive::format_of(
                    archive_path@,
                ) {
                    None => r matches Err(VfsError::Unsupported(why)) && why@
                        == "not a recognized archive format"@,
                    Some(format) => match r {
                        Ok((f, backend)) => f == format && self.resolves(
                            *base,
                            Ok::<Backend, VfsError>(backend),
                        ),
                        Err(e) => self.resolves(*base, Err::<Backend, VfsError>(e)),
                    },
                },
                _ => r matches Err(VfsError::Unsupported(why)) && why@
                    == "open_archive_and_cache called with a non-archive location"@,
            },
    {
        match location {
            Location::Archive { base, archive_path } => match detect_format(archive_path) {
                None => Err(VfsError::Unsupported("not a recognized archive format")),
                Some(format) => match self.resolve(&**base) {
                    Ok(backend) => Ok((format, backend)),
                    Err(e) => Err(e),
                },
            },
            _ => Err(
                VfsError::Unsupported("open_archive_and_cache called with a non-archive location"),
            ),
        }
    }

    /// Takes note of an archive that has been opened; the result is its number.
    pub fn open_archive_and_cache(&mut self, location: Location) -> (r: usize)
        ensures
            final(self).remotes == old(self).remotes,
            match archive_number(old(self).archives@, location, 0) {
                n => if n >= 0 {
                    r == n && final(self).archives@ == old(self).archives@
                } else {
                    r == old(self).archives@.len() && final(self).archives@ == old(
                        self,
                    ).archives@.push(location)
                },
            },
            location is Archive ==> final(self).resolves(
                location,
                Ok::<Backend, VfsError>(Backend::Archive(r)),
            ),
    {
        proof {
            law_same_location(location, location, location);
            lemma_opened(self.archives@, location, 0);
        }
        match self.find_archive(&location) {
            Some(i) => i,
            None => {
                self.archives.push(location);
                self.archives.len() - 1
            },
        }
    }

    /// Takes note of what has been found out about a connection: whether it has
    /// a fast channel and what can be told about it. There may be no such
    /// connection any more.
    pub fn update_remote(&mut self, profile_id: &String, fast: bool, info: ConnectionInfo)
        ensures
            is_updated(*old(self), profile_id@, fast, info, *final(self)),
            final(self).archives == old(self).archives,
            match remote_number(old(self).remotes@, profile_id@, 0) {
                n => if n >= 0 {
                    final(self).remotes@ == old(self).remotes@.update(
                        n,
                        RemoteBackend { fast, info, ..old(self).remotes@[n] },
                    )
                } else {
                    final(self).remotes@ == old(self).remotes@
                },
            },
    {
        match self.find_remote(profile_id) {
            Some(i) => {
                let id: ProfileId = self.remotes[i].profile_id.clone();
                self.remotes.set(i, RemoteBackend { profile_id: id, fast, info });
            },
            None => {},
        }
    }
}

/// The connection that a location is on: its own, or for an archive the one of
/// the location that the archive is in.
pub open spec fn connection_of(location: Location) -> Option<Seq<char>>
    decreases location,
{
    match location {
        Location::Local => None,
        Location::Remote { profile_id } => Some(profile_id@),
        Location::Archive { base, .. } => connection_of(*base),
    }
}

/// Whether a location has a fast channel.
pub open spec fn has_fast_channel(registry: VfsRegistry, location: Location) -> bool {
    match connection_of(location) {
        None => false,
        Some(id) => {
            let n = remote_number(registry.remotes@, id, 0);
            n >= 0 && registry.remotes@[n].fast
        },
    }
}

/// Whether a location (or, for an archive, whatever it is layered over) has a
/// fast channel.
pub fn quic_available_for(registry: &VfsRegistry, location: &Location) -> (r: bool)
    ensures
        r == has_fast_channel(*registry, *location),
    decreases location,
{
    match location {
        Location::Local => false,
        Location::Remote { profile_id } => match registry.find_remote(profile_id) {
            Some(i) => registry.remotes[i].fast,
            None => false,
        },
        Location::Archive { base, .. } => quic_available_for(registry, &**base),
    }
}

/// Whether a location is (or, for an archive, is layered over) exactly the
/// connection of a profile.
pub fn location_uses_profile(location: &Location, profile_id: &ProfileId) -> (r: bool)
    ensures
        r == (connection_of(*location) == Some(profile_id@)),
    decreases location,
{
    match location {
        Location::Local => false,
        Location::Remote { profile_id: id } => *id == *profile_id,
        Location::Archive { base, .. } => location_uses_profile(&**base, profile_id),
    }
}

/// What can be told about the connection that a location is on; nothing for
/// the local one.
pub fn connection_info_for(registry: &VfsRegistry, location: &Location) -> (r: Option<
    ConnectionInfo,
>)
    ensures
        r == info_of(*registry, *location),
        match connection_of(*location) {
            None => r is None,
            Some(id) => {
                let n = remote_number(registry.remotes@, id, 0);
                if n >= 0 {
                    r == Some(registry.remotes@[n].info)
                } else {
                    r is None
                }
            },
        },
    decreases location,
{
    match location {
        Location::Local => None,
        Location::Remote { profile_id } => match registry.find_remote(profile_id) {
            Some(i) => Some(registry.remotes[i].info.clone()),
            None => None,
        },
        Location::Archive { base, .. } => connection_info_for(registry, &**base),
    }
}

proof fn lemma_same_remotes(a: Seq<RemoteBackend>, b: Seq<RemoteBackend>, id: Seq<char>, from: int)
    requires
        a.len() <= b.len(),
        0 <= from <= a.len(),
        forall|i: int|
            0 <= i < a.len() ==> (#[trigger] b[i]).profile_id@ == (#[trigger] a[i]).profile_id@,
        b.len() == a.len() || (b.len() == a.len() + 1 && b.last().profile_id@ == id),
    ensures
        remote_number(a, id, from) >= 0 ==> remote_number(b, id, from) == remote_number(
            a,
            id,
            from,
        ),
        remote_number(a, id, from) < 0 && b.len() > a.len() ==> remote_number(b, id, from)
            == a.len(),
    decreases a.len() - from,
{
    if from < a.len() {
        assert(b[from].profile_id@ == a[from].profile_id@);
        lemma_same_remotes(a, b, id, from + 1);
    } else if b.len() > a.len() {
        assert(b[from] == b.last());
    }
}

proof fn lemma_connected(remotes: Seq<RemoteBackend>, remote: RemoteBackend)
    ensures
        ({
            let id = remote.profile_id@;
            let n = remote_number(remotes, id, 0);
            if n >= 0 {
                n < remotes.len() && remote_number(remotes.update(n, remote), id, 0) == n
            } else {
                remote_number(remotes.push(remote), id, 0) == remotes.len()
            }
        }),
{
    let id = remote.profile_id@;
    let n = remote_number(remotes, id, 0);
    lemma_remote_number(remotes, id, 0);
    if n >= 0 {
        lemma_same_remotes(remotes, remotes.update(n, remote), id, 0);
    } else {
        lemma_same_remotes(remotes, remotes.push(remote), id, 0);
    }
}

proof fn lemma_opened(archives: Seq<Location>, location: Location, from: int)
    requires
        0 <= from <= archives.len(),
        vfs::same_location(location, location),
    ensures
        archive_number(archives, location, from) < 0 ==> archive_number(
            archives.push(location),
            location,
            from,
        ) == archives.len(),
    decreases archives.len() - from,
{
    if from < archives.len() {
        lemma_opened(archives, location, from + 1);
    }
}

proof fn lemma_remote_number(remotes: Seq<RemoteBackend>, id: Seq<char>, from: int)
    requires
        0 <= from <= remotes.len(),
    ensures
        remote_number(remotes, id, from) >= 0 ==> from <= remote_number(remotes, id, from)
            < remotes.len() && remotes[remote_number(remotes, id, from)].profile_id@ == id,
        remote_number(remotes, id, from) < 0 ==> forall|i: int|
            from <= i < remotes.len() ==> (#[trigger] remotes[i]).profile_id@ != id,
    decreases remotes.len() - from,
{
    if from < remotes.len() && remotes[from].profile_id@ != id {
        lemma_remote_number(remotes, id, from + 1);
    }
}

proof fn lemma_archive_number(archives: Seq<Location>, location: Location, from: int)
    requires
        0 <= from <= archives.len(),
    ensures
        archive_number(archives, location, from) >= 0 ==> from <= archive_number(
            archives,
            location,
            from,
        ) < archives.len() && vfs::same_location(
            archives[archive_number(archives, location, from)],
            location,
        ),
        archive_number(archives, location, from) < 0 ==> forall|i: int|
            from <= i < archives.len() ==> !vfs::same_location(#[trigger] archives[i], location),
    decreases archives.len() - from,
{
    if from < archives.len() && !vfs::same_location(archives[from], location) {
        lemma_archive_number(archives, location, from + 1);
    }
}

proof fn lemma_same_archive_number(archives: Seq<Location>, a: Location, b: Location, from: int)
    requires
        vfs::same_location(a, b),
        0 <= from <= archives.len(),
    ensures
        archive_number(archives, a, from) == archive_number(archives, b, from),
    decreases archives.len() - from,
{
    if from < archives.len() {
        let c = archives[from];
        law_same_location(c, a, b);
        law_same_location(c, b, a);
        law_same_location(a, b, b);
        lemma_same_archive_number(archives, a, b, from + 1);
    }
}

/// Locations are the same only if they are of one kind: all local ones, remote
/// ones of one and the same profile, and archives at the same path of the same
/// location. Every location is the same as itself, and sameness goes both ways
/// and is passed on.
pub proof fn law_same_location(a: Location, b: Location, c: Location)
    ensures
        vfs::same_location(a, a),
        vfs::same_location(a, b) == vfs::same_location(b, a),
        vfs::same_location(a, b) && vfs::same_location(b, c) ==> vfs::same_location(a, c),
        vfs::same_location(a, b) ==> (a is Local) == (b is Local) && (a is Remote) == (b is Remote),
        a is Remote && b is Remote ==> vfs::same_location(a, b) == (a->profile_id@
            == b->profile_id@),
        a is Archive && b is Archive && vfs::same_location(a, b) ==> vfs::same_location(
            *a->base,
            *b->base,
        ) && path::components(a->archive_path@) == path::components(b->archive_path@),
    decreases a,
{
    if a is Archive {
        let inner = *a->base;
        let b_inner = if b is Archive {
            *b->base
        } else {
            inner
        };
        let c_inner = if c is Archive {
            *c->base
        } else {
            inner
        };
        law_same_location(inner, b_inner, c_inner);
    }
}

/// What a location resolves to is its own backend: the local one for local
/// locations, for a remote one a connection of that very profile, and for an
/// archive an opened archive that is the same.
pub proof fn law_resolves_to_its_own(r: VfsRegistry, location: Location, backend: Backend)
    requires
        r.remotes@.len() <= usize::MAX,
        r.archives@.len() <= usize::MAX,
        r.resolves(location, Ok::<Backend, VfsError>(backend)),
    ensures
        backend is Local <==> location is Local,
        backend matches Backend::Remote(i) ==> location is Remote && i < r.remotes@.len()
            && r.remotes@[i as int].profile_id@ == location->profile_id@,
        backend matches Backend::Archive(i) ==> location is Archive && i < r.archives@.len()
            && vfs::same_location(r.archives@[i as int], location),
{
    match location {
        Location::Remote { profile_id } => {
            lemma_remote_number(r.remotes@, profile_id@, 0);
        },
        Location::Archive { .. } => {
            lemma_archive_number(r.archives@, location, 0);
        },
        _ => {},
    }
}

/// Whatever has been connected or opened can be resolved, and the local location
/// always can.
pub proof fn law_has(r: VfsRegistry, location: Location, i: int)
    ensures
        location is Local ==> r.has(location),
        location is Remote && 0 <= i < r.remotes@.len() && r.remotes@[i].profile_id@
            == location->profile_id@ ==> r.has(location),
        location is Archive && 0 <= i < r.archives@.len() && vfs::same_location(
            r.archives@[i],
            location,
        ) ==> r.has(location),
        location is Remote && r.has(location) ==> exists|k: int|
            0 <= k < r.remotes@.len() && (#[trigger] r.remotes@[k]).profile_id@
                == location->profile_id@,
{
    match location {
        Location::Remote { profile_id } => {
            lemma_remote_number(r.remotes@, profile_id@, 0);
        },
        Location::Archive { .. } => {
            lemma_archive_number(r.archives@, location, 0);
        },
        _ => {},
    }
}

/// Two locations are the same exactly if every registry that has them gives them
/// the same backend.
pub proof fn law_same_location_same_backend(
    r: VfsRegistry,
    a: Location,
    b: Location,
    x: Backend,
    y: Backend,
)
    requires
        r.remotes@.len() <= usize::MAX,
        r.archives@.len() <= usize::MAX,
        r.resolves(a, Ok::<Backend, VfsError>(x)),
        r.resolves(b, Ok::<Backend, VfsError>(y)),
    ensures
        vfs::same_location(a, b) <==> x == y,
{
    law_resolves_to_its_own(r, a, x);
    law_resolves_to_its_own(r, b, y);
    if vfs::same_location(a, b) {
        law_same_location(a, b, b);
        if a is Archive {
            lemma_same_archive_number(r.archives@, a, b, 0);
        }
    } else if x == y {
        if a is Archive {
            let c = r.archives@[x->Archive_0 as int];
            law_same_location(c, a, a);
            law_same_location(a, c, b);
        }
    }
}

/// The first connection with an id is the one that the id stands for.
pub proof fn lemma_remote_number_is(remotes: Seq<RemoteBackend>, id: Seq<char>, from: int, n: int)
    requires
        0 <= from <= n < remotes.len(),
        remotes[n].profile_id@ == id,
        forall|k: int| from <= k < n ==> (#[trigger] remotes[k]).profile_id@ != id,
    ensures
        remote_number(remotes, id, from) == n,
    decreases n - from,
{
    if from < n {
        lemma_remote_number_is(remotes, id, from + 1, n);
    }
}

/// A location is on the connection of its own profile; an archive is on the one of
/// the place that it is in, however deep; and nothing local is on any.
pub proof fn law_connection(location: Location, registry: VfsRegistry, n: int)
    ensures
        location is Local ==> connection_of(location) is None && !has_fast_channel(
            registry,
            location,
        ),
        location matches Location::Remote { profile_id } ==> connection_of(location) == Some(
            profile_id@,
        ),
        location matches Location::Archive { base, archive_path } ==> connection_of(location)
            == connection_of(*base) && has_fast_channel(registry, location) == has_fast_channel(
            registry,
            *base,
        ),
        connection_of(location) matches Some(id) ==> (0 <= n < registry.remotes@.len()
            && registry.remotes@[n].profile_id@ == id && (forall|k: int|
            0 <= k < n ==> (#[trigger] registry.remotes@[k]).profile_id@ != id)
            ==> has_fast_channel(registry, location) == registry.remotes@[n].fast),
        connection_of(location) matches Some(id) ==> ((forall|k: int|
            0 <= k < registry.remotes@.len() ==> (#[trigger] registry.remotes@[k]).profile_id@
                != id) ==> !has_fast_channel(registry, location)),
{
    if let Some(id) = connection_of(location) {
        lemma_remote_number(registry.remotes@, id, 0);
        if 0 <= n < registry.remotes@.len() && registry.remotes@[n].profile_id@ == id && (forall|
            k: int,
        |
            0 <= k < n ==> (#[trigger] registry.remotes@[k]).profile_id@ != id) {
            lemma_remote_number_is(registry.remotes@, id, 0, n);
        }
    }
}

/// Whether `after` is `before` with what was found out about a connection.
pub open spec fn is_updated(
    before: VfsRegistry,
    id: Seq<char>,
    fast: bool,
    info: ConnectionInfo,
    after: VfsRegistry,
) -> bool {
    let n = remote_number(before.remotes@, id, 0);
    &&& after.archives == before.archives
    &&& if n >= 0 {
        after.remotes@ == before.remotes@.update(
            n,
            RemoteBackend { fast, info, ..before.remotes@[n] },
        )
    } else {
        after.remotes@ == before.remotes@
    }
}

/// What can be told about the connection that a location is on.
pub open spec fn info_of(registry: VfsRegistry, location: Location) -> Option<ConnectionInfo> {
    match connection_of(location) {
        None => None,
        Some(id) => {
            let n = remote_number(registry.remotes@, id, 0);
            if n >= 0 {
                Some(registry.remotes@[n].info)
            } else {
                None
            }
        },
    }
}

/// What was found out about a connection is told of every location on it, and
/// changes nothing of what is told of locations on other connections.
pub proof fn law_update_is_told(
    before: VfsRegistry,
    id: Seq<char>,
    fast: bool,
    info: ConnectionInfo,
    after: VfsRegistry,
    location: Location,
)
    requires
        is_updated(before, id, fast, info, after),
    ensures
        connection_of(location) == Some(id) && remote_number(before.remotes@, id, 0) >= 0
            ==> has_fast_channel(after, location) == fast && info_of(after, location) == Some(info),
        connection_of(location) != Some(id) ==> has_fast_channel(after, location)
            == has_fast_channel(before, location) && info_of(after, location) == info_of(
            before,
            location,
        ),
        location is Local ==> info_of(after, location) is None,
        after.has(location) == before.has(location),
{
    let n = remote_number(before.remotes@, id, 0);
    lemma_remote_number(before.remotes@, id, 0);
    let a = before.remotes@;
    let b = after.remotes@;
    assert forall|i: int| 0 <= i < a.len() implies (#[trigger] b[i]).profile_id@ == (
    #[trigger] a[i]).profile_id@ by {}
    if let Some(other) = connection_of(location) {
        lemma_same_ids(a, b, other, 0);
        lemma_remote_number(a, other, 0);
        let m = remote_number(a, other, 0);
        if m >= 0 && other != id {
            assert(m != n);
            assert(b[m] == a[m]);
        }
    }
    if let Location::Remote { profile_id } = location {
        lemma_same_ids(a, b, profile_id@, 0);
    }
}

proof fn lemma_same_ids(a: Seq<RemoteBackend>, b: Seq<RemoteBackend>, id: Seq<char>, from: int)
    requires
        a.len() == b.len(),
        0 <= from <= a.len(),
        forall|i: int|
            0 <= i < a.len() ==> (#[trigger] b[i]).profile_id@ == (#[trigger] a[i]).profile_id@,
    ensures
        remote_number(b, id, from) == remote_number(a, id, from),
    decreases a.len() - from,
{
    if from < a.len() {
        assert(b[from].profile_id@ == a[from].profile_id@);
        lemma_same_ids(a, b, id, from + 1);
    }
}

} // verus!
