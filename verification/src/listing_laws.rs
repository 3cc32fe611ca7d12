//! What listings tell: every entry once, as what it is, with the size, time and
//! permissions that the backend gave for it, and in order.

use vstd::prelude::*;

use crate::archive;
use crate::index;
use crate::index::ArchiveEntry;
use crate::local;
use crate::local::{LocalEntry, LocalStat};
use crate::path;
use crate::path::VfsPath;
use crate::remote;
use crate::remote::{RemoteEntry, RemoteStat};
use crate::scan;
use crate::scan::Side;
use crate::sync_laws;
use crate::sync_laws::{Key, Node, Tree};
use crate::text;
use crate::vfs;
use crate::vfs::{EntryKind, EntryMeta, VfsError};

verus! {

/// An entry of a remote directory has the path and name it was listed under and
/// the size that the server told. It is a directory, a link with its target, or a
/// file exactly if the server says so, the first that applies; its time is the
/// server's, in whole seconds, and its permissions are the last four octal digits
/// of the server's mode.
pub proof fn law_remote_entry(
    meta: EntryMeta,
    at: VfsPath,
    name: Seq<char>,
    stat: RemoteStat,
    target: Option<VfsPath>,
)
    requires
        remote::is_remote_meta(meta, at, name, stat, target),
    ensures
        meta.name@ == name,
        meta.path@ == at@,
        stat.size matches Some(n) ==> meta.size == n,
        meta.kind is Dir <==> stat.is_dir,
        meta.kind is Symlink <==> stat.is_symlink && !stat.is_dir,
        meta.kind matches EntryKind::Symlink { target: t } ==> t == target,
        meta.kind is File <==> stat.is_file && !stat.is_symlink && !stat.is_dir,
        stat.mtime matches Some(s) ==> (s <= 0x7fff_ffff_ffff_ffff ==> meta.modified is Some
            && meta.modified->0.seconds == s && meta.modified->0.nanos == 0),
        stat.mtime is None ==> meta.modified is None,
        stat.perm matches Some(p) ==> meta.permissions is Some && meta.permissions->0 < 0o10000
            && exists|high: int| #[trigger] (high * 0o10000) + meta.permissions->0 == p,
        stat.perm is None ==> meta.permissions is None,
{
    if let Some(p) = stat.perm {
        let high = p as int / 4096;
        assert(high * 0o10000 + meta.permissions->0 == p);
    }
}

/// An entry of a local directory has the path and name it was listed under and
/// the size and time that the system told. A link is a link whatever it points
/// to; anything else is a directory or a file exactly if the system says so.
pub proof fn law_local_entry(
    meta: EntryMeta,
    at: Seq<char>,
    name: Seq<char>,
    stat: LocalStat,
)
    requires
        local::is_local_meta(meta, at, name, stat),
    ensures
        meta.name@ == name,
        meta.path@ == at,
        meta.size == stat.size,
        meta.modified == stat.modified,
        meta.kind is Symlink <==> stat.is_symlink,
        meta.kind matches EntryKind::Symlink { target: t } ==> t == stat.target,
        meta.kind is Dir <==> stat.is_dir && !stat.is_symlink,
        meta.kind is File <==> stat.is_file && !stat.is_symlink && !stat.is_dir,
        meta.permissions is Some && meta.permissions->0 < 0o10000,
        exists|high: int| #[trigger] (high * 0o10000) + meta.permissions->0 == stat.mode,
{
    let high = stat.mode as int / 4096;
    assert(high * 0o10000 + meta.permissions->0 == stat.mode);
}

/// Whether `a` and `b` are equal up to some character, and there `a` ends or has
/// the smaller character.
pub open spec fn is_smaller(a: Seq<char>, b: Seq<char>) -> bool {
    exists|n: int|
        {
            &&& 0 <= n <= a.len()
            &&& n < b.len()
            &&& #[trigger] a.take(n) == b.take(n)
            &&& n == a.len() || a[n] < b[n]
        }
}

proof fn lemma_comes_before(a: Seq<char>, b: Seq<char>)
    ensures
        text::comes_before(a, b) ==> is_smaller(a, b),
    decreases a.len(),
{
    if text::comes_before(a, b) {
        if a.len() > 0 && a[0] == b[0] {
            let x = a.skip(1);
            let y = b.skip(1);
            lemma_comes_before(x, y);
            let n = choose|n: int|
                {
                    &&& 0 <= n <= x.len()
                    &&& n < y.len()
                    &&& #[trigger] x.take(n) == y.take(n)
                    &&& n == x.len() || x[n] < y[n]
                };
            assert(a.take(n + 1) =~= seq![a[0]] + x.take(n));
            assert(b.take(n + 1) =~= seq![b[0]] + y.take(n));
            if n < x.len() {
                assert(a[n + 1] == x[n]);
                assert(b[n + 1] == y[n]);
            }
        } else {
            assert(a.take(0) =~= b.take(0));
        }
    }
}

/// A listing shows directories first, and within the directories and within the
/// rest it goes by name, each name equal to the one before or greater.
pub proof fn law_display_order(listed: Seq<EntryMeta>, i: int, j: int)
    requires
        vfs::is_sorted(listed),
        0 <= i < j < listed.len(),
    ensures
        listed[j].kind is Dir ==> listed[i].kind is Dir,
        (listed[i].kind is Dir) == (listed[j].kind is Dir) ==> listed[i].name@ == listed[j].name@
            || is_smaller(listed[i].name@, listed[j].name@),
{
    assert(vfs::listed_before(listed[i], listed[j]));
    let a = listed[i].name@;
    let b = listed[j].name@;
    text::lemma_before_total(a, b);
    lemma_comes_before(a, b);
}

proof fn lemma_with_path(entries: Seq<RemoteEntry>, n: int)
    requires
        0 <= n <= entries.len(),
        forall|i: int| 0 <= i < entries.len() ==> (#[trigger] entries[i]).path is Some,
    ensures
        remote::with_path(entries, n) == entries.take(n),
    decreases n,
{
    if n > 0 {
        lemma_with_path(entries, n - 1);
        assert(entries.take(n) =~= entries.take(n - 1).push(entries[n - 1]));
        assert(entries[n - 1].path is Some);
    } else {
        assert(entries.take(0) =~= Seq::<RemoteEntry>::empty());
    }
}

proof fn lemma_shown(entries: Seq<LocalEntry>, n: int)
    requires
        0 <= n <= entries.len(),
        forall|i: int|
            0 <= i < entries.len() ==> (#[trigger] entries[i]).name is Some && entries[i].stat is Some,
    ensures
        local::shown(entries, n) == entries.take(n),
    decreases n,
{
    if n > 0 {
        lemma_shown(entries, n - 1);
        assert(entries.take(n) =~= entries.take(n - 1).push(entries[n - 1]));
        assert(entries[n - 1].name is Some);
    } else {
        assert(entries.take(0) =~= Seq::<LocalEntry>::empty());
    }
}

proof fn lemma_permuted(a: Seq<EntryMeta>, b: Seq<EntryMeta>)
    requires
        a.to_multiset() == b.to_multiset(),
    ensures
        a.len() == b.len(),
        forall|x: EntryMeta| #[trigger] a.contains(x) <==> b.contains(x),
        sync_laws::names_differ(a) ==> sync_laws::names_differ(b),
{
    broadcast use vstd::seq_lib::group_to_multiset_ensures;

    assert(a.to_multiset().len() == a.len());
    assert(b.to_multiset().len() == b.len());
    assert forall|x: EntryMeta| #[trigger] a.contains(x) <==> b.contains(x) by {
        assert(a.contains(x) <==> a.to_multiset().count(x) > 0);
        assert(b.contains(x) <==> b.to_multiset().count(x) > 0);
    }
    if sync_laws::names_differ(a) {
        assert(a.no_duplicates()) by {
            assert forall|i: int, j: int| 0 <= i < a.len() && 0 <= j < a.len() && i != j implies a[i]
                != a[j] by {
                if i < j {
                    assert(a[i].name@ != a[j].name@);
                } else {
                    assert(a[j].name@ != a[i].name@);
                }
            }
        }
        a.lemma_multiset_has_no_duplicates();
        b.lemma_multiset_has_no_duplicates_conv();
        assert forall|i: int, j: int| 0 <= i < j < b.len() implies (#[trigger] b[i]).name@ != (
        #[trigger] b[j]).name@ by {
            assert(b.contains(b[i]) && b.contains(b[j]));
            assert(a.contains(b[i]) && a.contains(b[j]));
            let x = choose|x: int| 0 <= x < a.len() && a[x] == b[i];
            let y = choose|y: int| 0 <= y < a.len() && a[y] == b[j];
            assert(b[i] != b[j]);
            if x < y {
                assert(a[x].name@ != a[y].name@);
            } else if y < x {
                assert(a[y].name@ != a[x].name@);
            }
        }
    }
}

proof fn lemma_lists_permuted(
    w: scan::World,
    side: Side,
    t: Tree,
    hash: spec_fn(Seq<u8>) -> u64,
    dir: Key,
    a: Seq<EntryMeta>,
    b: Seq<EntryMeta>,
)
    requires
        a.to_multiset() == b.to_multiset(),
        sync_laws::lists(w, side, t, hash, dir, a),
    ensures
        sync_laws::lists(w, side, t, hash, dir, b),
{
    lemma_permuted(a, b);
    assert forall|i: int| 0 <= i < b.len() implies sync_laws::is_child_entry(
        w,
        side,
        t,
        hash,
        dir,
        #[trigger] b[i],
    ) by {
        assert(b.contains(b[i]));
        assert(a.contains(b[i]));
        let x = choose|x: int| 0 <= x < a.len() && a[x] == b[i];
        assert(a[x] == b[i]);
    }
    assert forall|name: Seq<char>| #[trigger] t.contains_key(dir.push(name)) implies
        sync_laws::named_from(b, 0, name) by {
        assert(sync_laws::named_from(a, 0, name));
        let x = choose|x: int| 0 <= x < a.len() && (#[trigger] a[x]).name@ == name;
        assert(a.contains(a[x]));
        assert(b.contains(a[x]));
        let y = choose|y: int| 0 <= y < b.len() && b[y] == a[x];
        assert(b[y].name@ == name);
    }
}

/// Every entry that a server lists with a readable path is shown, and nothing
/// else: the listing is as long as that, and has for each an entry of its path,
/// name, size and kind.
pub proof fn law_remote_listing_is_complete(
    entries: Seq<RemoteEntry>,
    metas: Seq<EntryMeta>,
    listed: Seq<EntryMeta>,
)
    requires
        remote::are_remote_metas(metas, remote::with_path(entries, entries.len() as int)),
        listed.to_multiset() == metas.to_multiset(),
        forall|i: int| 0 <= i < entries.len() ==> (#[trigger] entries[i]).path is Some,
    ensures
        listed.len() == entries.len(),
        forall|i: int|
            0 <= i < entries.len() ==> exists|j: int|
                0 <= j < listed.len() && (#[trigger] listed[j]).path == (
                #[trigger] entries[i]).path->0 && (entries[i].stat.size is Some ==> listed[j].size
                    == entries[i].stat.size->0) && (listed[j].kind is Dir <==> entries[i].stat.is_dir),
{
    lemma_with_path(entries, entries.len() as int);
    assert(entries.take(entries.len() as int) =~= entries);
    lemma_permuted(metas, listed);
    assert forall|i: int| 0 <= i < entries.len() implies exists|j: int|
        0 <= j < listed.len() && (#[trigger] listed[j]).path == (#[trigger] entries[i]).path->0 && (
        entries[i].stat.size is Some ==> listed[j].size == entries[i].stat.size->0) && (
        listed[j].kind is Dir <==> entries[i].stat.is_dir) by {
        let m = metas[i];
        law_remote_entry(
            m,
            entries[i].path->0,
            remote::name_or_empty(entries[i].path->0@),
            entries[i].stat,
            entries[i].target,
        );
        assert(metas.contains(m));
        assert(listed.contains(m));
        let j = choose|j: int| 0 <= j < listed.len() && listed[j] == m;
        assert(listed[j].path == entries[i].path->0);
    }
}

/// Whether a link's target is the one that is given.
pub open spec fn is_target(t: Option<Seq<char>>, given: Option<VfsPath>) -> bool {
    match (t, given) {
        (Some(a), Some(b)) => b@ == a,
        (None, None) => true,
        _ => false,
    }
}

/// Whether a server says truly what something is.
pub open spec fn remote_tells(stat: RemoteStat, target: Option<VfsPath>, n: Node) -> bool {
    match n {
        Node::Dir => stat.is_dir,
        Node::File(content) => !stat.is_dir && !stat.is_symlink && stat.is_file && stat.size is Some
            && stat.size->0 == content.len(),
        Node::Link(t) => !stat.is_dir && stat.is_symlink && is_target(t, target),
        Node::Other => !stat.is_dir && !stat.is_symlink && !stat.is_file,
    }
}

/// Whether the local system says truly what something is.
pub open spec fn local_tells(stat: LocalStat, n: Node) -> bool {
    match n {
        Node::Dir => stat.is_dir && !stat.is_symlink,
        Node::File(content) => !stat.is_dir && !stat.is_symlink && stat.is_file && stat.size
            == content.len(),
        Node::Link(t) => stat.is_symlink && is_target(t, stat.target),
        Node::Other => !stat.is_dir && !stat.is_symlink && !stat.is_file,
    }
}

/// The listing of a remote directory is what syncs rely on: from a server that
/// lists each child of the directory once and says truly what it is, every child
/// is listed once, as what it is and with its size.
pub proof fn law_remote_listing_is_true(
    w: scan::World,
    side: Side,
    t: Tree,
    hash: spec_fn(Seq<u8>) -> u64,
    dir: Key,
    entries: Seq<RemoteEntry>,
    metas: Seq<EntryMeta>,
    listed: Seq<EntryMeta>,
)
    requires
        remote::are_remote_metas(metas, remote::with_path(entries, entries.len() as int)),
        listed.to_multiset() == metas.to_multiset(),
        forall|i: int|
            0 <= i < entries.len() ==> {
                let e = #[trigger] entries[i];
                let k = path::components(e.path->0@);
                &&& e.path is Some
                &&& path::is_absolute(e.path->0@)
                &&& k.len() > 0
                &&& k.drop_last() == dir
                &&& path::is_plain_name(k.last())
                &&& t.contains_key(k)
                &&& remote_tells(e.stat, e.target, t[k])
                &&& t[k] is File ==> (w.hash)(side, e.path->0@) == Ok::<Option<u64>, VfsError>(
                    Some(hash(t[k]->File_0)),
                )
            },
        forall|i: int, j: int|
            0 <= i < j < entries.len() ==> path::components((#[trigger] entries[i]).path->0@)
                != path::components((#[trigger] entries[j]).path->0@),
        forall|name: Seq<char>| #[trigger]
            t.contains_key(dir.push(name)) ==> exists|i: int|
                0 <= i < entries.len() && path::components((#[trigger] entries[i]).path->0@)
                    == dir.push(name),
    ensures
        sync_laws::lists(w, side, t, hash, dir, listed),
{
    assert forall|i: int| 0 <= i < entries.len() implies (#[trigger] entries[i]).path is Some by {
    }
    lemma_with_path(entries, entries.len() as int);
    assert(entries.take(entries.len() as int) =~= entries);
    assert forall|i: int| 0 <= i < metas.len() implies sync_laws::is_child_entry(
        w,
        side,
        t,
        hash,
        dir,
        #[trigger] metas[i],
    ) && metas[i].name@ == path::components(entries[i].path->0@).last() && path::components(
        metas[i].path@,
    ) == path::components(entries[i].path->0@) by {
        let e = entries[i];
        let k = path::components(e.path->0@);
        law_remote_entry(
            metas[i],
            e.path->0,
            remote::name_or_empty(e.path->0@),
            e.stat,
            e.target,
        );
        assert(k =~= dir.push(k.last()));
    }
    assert(sync_laws::names_differ(metas)) by {
        assert forall|i: int, j: int| 0 <= i < j < metas.len() implies (#[trigger] metas[i]).name@
            != (#[trigger] metas[j]).name@ by {
            let a = path::components(entries[i].path->0@);
            let b = path::components(entries[j].path->0@);
            assert(a =~= dir.push(a.last()));
            assert(b =~= dir.push(b.last()));
        }
    }
    assert forall|name: Seq<char>| #[trigger] t.contains_key(dir.push(name)) implies
        sync_laws::named_from(metas, 0, name) by {
        let i = choose|i: int|
            0 <= i < entries.len() && path::components((#[trigger] entries[i]).path->0@)
                == dir.push(name);
        assert(dir.push(name).last() == name);
        assert(metas[i].name@ == name);
    }
    lemma_lists_permuted(w, side, t, hash, dir, metas, listed);
}

/// The listing of a local directory is what syncs rely on, too.
pub proof fn law_local_listing_is_true(
    w: scan::World,
    side: Side,
    t: Tree,
    hash: spec_fn(Seq<u8>) -> u64,
    dir: Seq<char>,
    entries: Seq<LocalEntry>,
    metas: Seq<EntryMeta>,
    listed: Seq<EntryMeta>,
)
    requires
        path::is_absolute(dir),
        local::are_local_metas(metas, local::shown(entries, entries.len() as int), dir),
        listed.to_multiset() == metas.to_multiset(),
        forall|i: int|
            0 <= i < entries.len() ==> {
                let e = #[trigger] entries[i];
                let k = path::components(dir).push(e.name->0@);
                &&& e.name is Some
                &&& e.stat is Some
                &&& path::is_plain_name(e.name->0@)
                &&& t.contains_key(k)
                &&& local_tells(e.stat->0, t[k])
                &&& t[k] is File ==> (w.hash)(side, path::joined(dir, e.name->0@)) == Ok::<
                    Option<u64>,
                    VfsError,
                >(Some(hash(t[k]->File_0)))
            },
        forall|i: int, j: int|
            0 <= i < j < entries.len() ==> (#[trigger] entries[i]).name->0@ != (
            #[trigger] entries[j]).name->0@,
        forall|name: Seq<char>| #[trigger]
            t.contains_key(path::components(dir).push(name)) ==> exists|i: int|
                0 <= i < entries.len() && (#[trigger] entries[i]).name->0@ == name,
    ensures
        sync_laws::lists(w, side, t, hash, path::components(dir), listed),
{
    let d = path::components(dir);
    assert forall|i: int| 0 <= i < entries.len() implies (#[trigger] entries[i]).name is Some
        && entries[i].stat is Some by {
    }
    lemma_shown(entries, entries.len() as int);
    assert(entries.take(entries.len() as int) =~= entries);
    assert forall|i: int| 0 <= i < metas.len() implies sync_laws::is_child_entry(
        w,
        side,
        t,
        hash,
        d,
        #[trigger] metas[i],
    ) && metas[i].name@ == entries[i].name->0@ by {
        let e = entries[i];
        let name = e.name->0@;
        path::lemma_join_adds_component(dir, name);
        law_local_entry(metas[i], path::joined(dir, name), name, e.stat->0);
    }
    assert(sync_laws::names_differ(metas)) by {
        assert forall|i: int, j: int| 0 <= i < j < metas.len() implies (#[trigger] metas[i]).name@
            != (#[trigger] metas[j]).name@ by {
            assert(entries[i].name->0@ != entries[j].name->0@);
        }
    }
    assert forall|name: Seq<char>| #[trigger] t.contains_key(d.push(name)) implies
        sync_laws::named_from(metas, 0, name) by {
        let i = choose|i: int| 0 <= i < entries.len() && (#[trigger] entries[i]).name->0@ == name;
        assert(metas[i].name@ == name);
    }
    lemma_lists_permuted(w, side, t, hash, d, metas, listed);
}

/// An archive lists in a directory exactly the entries whose path is that of the
/// directory and one name more, each once and in the order of the index.
pub proof fn law_archive_children(entries: Seq<ArchiveEntry>, dir: Seq<char>, n: int)
    requires
        index::is_index(entries),
        0 <= n <= entries.len(),
        dir == seq!['/'] || path::is_clean(dir),
    ensures
        forall|i: int|
            0 <= i < n ==> (archive::children(entries, dir, n).contains(#[trigger] entries[i])
                <==> path::components(entries[i].path@).drop_last() == path::components(dir)),
        forall|j: int|
            0 <= j < archive::children(entries, dir, n).len() ==> entries.contains(
                #[trigger] archive::children(entries, dir, n)[j],
            ),
    decreases n,
{
    if n > 0 {
        law_archive_children(entries, dir, n - 1);
        let before = archive::children(entries, dir, n - 1);
        let all = archive::children(entries, dir, n);
        let last = entries[n - 1];
        lemma_is_child(last, dir);
        assert(entries.contains(last));
        assert forall|i: int| 0 <= i < n implies (all.contains(#[trigger] entries[i])
            <==> path::components(entries[i].path@).drop_last() == path::components(dir)) by {
            if i < n - 1 {
                if before.contains(entries[i]) {
                    let k = choose|k: int| 0 <= k < before.len() && before[k] == entries[i];
                    assert(all[k] == entries[i]);
                }
                if all.contains(entries[i]) && !before.contains(entries[i]) {
                    let k = choose|k: int| 0 <= k < all.len() && all[k] == entries[i];
                    if k < before.len() {
                        assert(before[k] == entries[i]);
                    } else {
                        assert(entries[i] == last);
                    }
                }
            } else {
                if archive::is_child(last, dir) {
                    assert(all[before.len() as int] == last);
                } else if all.contains(last) {
                    let k = choose|k: int| 0 <= k < all.len() && all[k] == last;
                    let m = lemma_child_from(entries, dir, n - 1, k);
                    assert(entries[m] == last);
                }
            }
        }
        assert forall|j: int| 0 <= j < all.len() implies entries.contains(#[trigger] all[j]) by {
            if j < before.len() {
                assert(all[j] == before[j]);
            }
        }
    }
}

proof fn lemma_child_from(entries: Seq<ArchiveEntry>, dir: Seq<char>, n: int, k: int) -> (m: int)
    requires
        0 <= n <= entries.len(),
        0 <= k < archive::children(entries, dir, n).len(),
    ensures
        0 <= m < n,
        entries[m] == archive::children(entries, dir, n)[k],
        archive::is_child(entries[m], dir),
    decreases n,
{
    let before = archive::children(entries, dir, n - 1);
    if archive::is_child(entries[n - 1], dir) && k == before.len() {
        n - 1
    } else {
        lemma_child_from(entries, dir, n - 1, k)
    }
}

proof fn lemma_root_has_no_component()
    ensures
        path::components(seq!['/']).len() == 0,
{
    reveal_with_fuel(path::pieces, 3);
    reveal_with_fuel(path::named_pieces, 4);
    assert(seq!['/'].drop_last() =~= Seq::<char>::empty());
    let p = path::pieces(seq!['/']);
    assert(p =~= seq![Seq::<char>::empty(), Seq::<char>::empty()]);
    assert(p.drop_last() =~= seq![Seq::<char>::empty()]);
    assert(p.drop_last().drop_last() =~= Seq::<Seq<char>>::empty());
}

proof fn lemma_is_child(e: ArchiveEntry, dir: Seq<char>)
    requires
        index::key_of(e).len() > 0,
        index::all_plain(index::key_of(e)),
        dir == seq!['/'] || path::is_clean(dir),
    ensures
        archive::is_child(e, dir) <==> path::components(e.path@).drop_last() == path::components(
            dir,
        ),
{
    let k = path::components(e.path@);
    let up = k.drop_last();
    lemma_root_has_no_component();
    if path::is_clean(dir) {
        path::lemma_clean_components_all(dir);
    }
    if k.len() <= 1 {
        assert(up =~= Seq::<Seq<char>>::empty());
        if dir != seq!['/'] {
            assert(path::components(dir).len() > 0);
        } else {
            assert(path::components(dir) =~= up);
        }
    } else {
        assert forall|i: int| 0 <= i < up.len() implies path::is_plain_name(#[trigger] up[i]) by {
            assert(up[i] == k[i]);
        }
        index::law_rooted_is_clean(up);
        if path::components(dir) == up {
            if dir != seq!['/'] {
                lemma_clean_is_absolute(dir);
                path::law_same_clean_path(dir, index::rooted(up));
            }
        }
    }
}

proof fn lemma_clean_is_absolute(s: Seq<char>)
    requires
        path::is_clean(s),
    ensures
        path::is_absolute(s),
{
    let c = path::components(s);
    let p = path::pieces(s);
    path::lemma_clean_components_all(s);
    assert(c =~= p.subrange(1, p.len() as int));
    assert forall|i: int| 0 <= i < c.len() implies path::is_plain_name(#[trigger] c[i]) by {
        assert(path::is_plain_name(p[i + 1]));
    }
    index::law_rooted_is_clean(c);
    assert(p[0] =~= Seq::<char>::empty());
    assert(path::pieces(index::rooted(c)) =~= p);
    path::lemma_same_pieces(s, index::rooted(c));
}

/// What an archive lists of an entry is the entry's own: its path and the name at
/// the end of it, and its kind, size, time and permissions.
pub proof fn law_archive_entry(meta: EntryMeta, e: ArchiveEntry)
    requires
        archive::is_meta_of(meta, e),
        path::components(e.path@).len() > 0,
        path::is_plain_name(path::components(e.path@).last()),
    ensures
        meta.name@ == path::components(e.path@).last(),
        meta.path@ == e.path@,
        meta.kind == e.kind,
        meta.size == e.size,
        meta.modified == e.modified,
        meta.permissions == e.permissions,
{
}

proof fn lemma_with_path_has(entries: Seq<RemoteEntry>, n: int, i: int) -> (k: int)
    requires
        0 <= i < n <= entries.len(),
        entries[i].path is Some,
    ensures
        0 <= k < remote::with_path(entries, n).len(),
        remote::with_path(entries, n)[k] == entries[i],
    decreases n,
{
    let before = remote::with_path(entries, n - 1);
    if i == n - 1 {
        before.len() as int
    } else {
        lemma_with_path_has(entries, n - 1, i)
    }
}

proof fn lemma_with_path_only(entries: Seq<RemoteEntry>, n: int, k: int) -> (i: int)
    requires
        0 <= n <= entries.len(),
        0 <= k < remote::with_path(entries, n).len(),
    ensures
        0 <= i < n,
        remote::with_path(entries, n)[k] == entries[i],
        entries[i].path is Some,
    decreases n,
{
    let before = remote::with_path(entries, n - 1);
    if k == before.len() {
        n - 1
    } else {
        lemma_with_path_only(entries, n - 1, k)
    }
}

/// The listing of a remote directory shows every entry that has a readable path,
/// and nothing that the server did not list.
pub proof fn law_remote_directory(
    listed: Seq<EntryMeta>,
    entries: Seq<RemoteEntry>,
    i: int,
    j: int,
) -> (r: (int, int))
    requires
        remote::is_remote_listing(listed, entries),
    ensures
        vfs::is_sorted(listed),
        0 <= i < entries.len() && entries[i].path is Some ==> {
            &&& 0 <= r.0 < listed.len()
            &&& listed[r.0].path == entries[i].path->0
            &&& entries[i].stat.size is Some ==> listed[r.0].size == entries[i].stat.size->0
            &&& listed[r.0].kind is Dir <==> entries[i].stat.is_dir
        },
        0 <= j < listed.len() ==> {
            &&& 0 <= r.1 < entries.len()
            &&& entries[r.1].path == Some(listed[j].path)
            &&& entries[r.1].stat.size is Some ==> listed[j].size == entries[r.1].stat.size->0
            &&& listed[j].kind is Dir <==> entries[r.1].stat.is_dir
        },
{
    let n = entries.len() as int;
    let with = remote::with_path(entries, n);
    let metas = choose|metas: Seq<EntryMeta>|
        {
            &&& #[trigger] remote::are_remote_metas(metas, with)
            &&& vfs::is_sorted(listed)
            &&& listed.to_multiset() == metas.to_multiset()
        };
    lemma_permuted(metas, listed);
    let a = if 0 <= i < entries.len() && entries[i].path is Some {
        let k = lemma_with_path_has(entries, n, i);
        assert(metas.contains(metas[k]));
        assert(listed.contains(metas[k]));
        choose|a: int| 0 <= a < listed.len() && listed[a] == metas[k]
    } else {
        0
    };
    let b = if 0 <= j < listed.len() {
        assert(listed.contains(listed[j]));
        assert(metas.contains(listed[j]));
        let k = choose|k: int| 0 <= k < metas.len() && metas[k] == listed[j];
        lemma_with_path_only(entries, n, k)
    } else {
        0
    };
    (a, b)
}

proof fn lemma_shown_has(entries: Seq<LocalEntry>, n: int, i: int) -> (k: int)
    requires
        0 <= i < n <= entries.len(),
        entries[i].name is Some,
        entries[i].stat is Some,
    ensures
        0 <= k < local::shown(entries, n).len(),
        local::shown(entries, n)[k] == entries[i],
    decreases n,
{
    let before = local::shown(entries, n - 1);
    if i == n - 1 {
        before.len() as int
    } else {
        lemma_shown_has(entries, n - 1, i)
    }
}

proof fn lemma_shown_only(entries: Seq<LocalEntry>, n: int, k: int) -> (i: int)
    requires
        0 <= n <= entries.len(),
        0 <= k < local::shown(entries, n).len(),
    ensures
        0 <= i < n,
        local::shown(entries, n)[k] == entries[i],
        entries[i].name is Some,
        entries[i].stat is Some,
    decreases n,
{
    let before = local::shown(entries, n - 1);
    if k == before.len() {
        n - 1
    } else {
        lemma_shown_only(entries, n - 1, k)
    }
}

/// The listing of a local directory shows every entry that has a readable name and
/// of which the system says what it is, below the directory, and nothing else.
pub proof fn law_local_directory(
    listed: Seq<EntryMeta>,
    entries: Seq<LocalEntry>,
    dir: Seq<char>,
    i: int,
    j: int,
) -> (r: (int, int))
    requires
        local::is_local_listing(listed, entries, dir),
    ensures
        vfs::is_sorted(listed),
        0 <= i < entries.len() && entries[i].name is Some && entries[i].stat is Some ==> {
            &&& 0 <= r.0 < listed.len()
            &&& listed[r.0].name@ == entries[i].name->0@
            &&& listed[r.0].path@ == path::joined(dir, entries[i].name->0@)
            &&& listed[r.0].size == entries[i].stat->0.size
            &&& listed[r.0].modified == entries[i].stat->0.modified
        },
        0 <= j < listed.len() ==> {
            &&& 0 <= r.1 < entries.len()
            &&& text::says(entries[r.1].name, listed[j].name@)
            &&& entries[r.1].stat is Some
            &&& listed[j].size == entries[r.1].stat->0.size
        },
{
    let n = entries.len() as int;
    let with = local::shown(entries, n);
    let metas = choose|metas: Seq<EntryMeta>|
        {
            &&& #[trigger] local::are_local_metas(metas, with, dir)
            &&& vfs::is_sorted(listed)
            &&& listed.to_multiset() == metas.to_multiset()
        };
    lemma_permuted(metas, listed);
    let a = if 0 <= i < entries.len() && entries[i].name is Some && entries[i].stat is Some {
        let k = lemma_shown_has(entries, n, i);
        assert(metas.contains(metas[k]));
        assert(listed.contains(metas[k]));
        choose|a: int| 0 <= a < listed.len() && listed[a] == metas[k]
    } else {
        0
    };
    let b = if 0 <= j < listed.len() {
        assert(listed.contains(listed[j]));
        assert(metas.contains(listed[j]));
        let k = choose|k: int| 0 <= k < metas.len() && metas[k] == listed[j];
        lemma_shown_only(entries, n, k)
    } else {
        0
    };
    (a, b)
}

/// The listing of a directory of an archive shows every entry that is one name
/// below the directory, and nothing else.
pub proof fn law_archive_directory(
    listed: Vec<EntryMeta>,
    entries: Seq<ArchiveEntry>,
    dir: VfsPath,
    i: int,
    j: int,
) -> (r: (int, int))
    requires
        index::is_index(entries),
        dir@ == seq!['/'] || path::is_clean(dir@),
        archive::is_archive_listing(Ok::<Vec<EntryMeta>, VfsError>(listed), entries, dir),
    ensures
        vfs::is_sorted(listed@),
        0 <= i < entries.len() && path::components(entries[i].path@).drop_last()
            == path::components(dir@) ==> {
            &&& 0 <= r.0 < listed@.len()
            &&& listed@[r.0].path == entries[i].path
            &&& listed@[r.0].kind == entries[i].kind
            &&& listed@[r.0].size == entries[i].size
        },
        0 <= j < listed@.len() ==> {
            &&& 0 <= r.1 < entries.len()
            &&& listed@[j].path == entries[r.1].path
            &&& path::components(entries[r.1].path@).drop_last() == path::components(dir@)
        },
{
    let n = entries.len() as int;
    let kids = archive::children(entries, dir@, n);
    let metas = choose|metas: Seq<EntryMeta>|
        {
            &&& #[trigger] archive::are_metas_of(metas, kids)
            &&& archive::is_sorted_form(listed@, metas)
        };
    lemma_permuted(metas, listed@);
    law_archive_children(entries, dir@, n);
    let a = if 0 <= i < entries.len() && path::components(entries[i].path@).drop_last()
        == path::components(dir@) {
        assert(kids.contains(entries[i]));
        let k = choose|k: int| 0 <= k < kids.len() && kids[k] == entries[i];
        assert(metas.contains(metas[k]));
        assert(listed@.contains(metas[k]));
        choose|a: int| 0 <= a < listed@.len() && listed@[a] == metas[k]
    } else {
        0
    };
    let b = if 0 <= j < listed@.len() {
        assert(listed@.contains(listed@[j]));
        assert(metas.contains(listed@[j]));
        let k = choose|k: int| 0 <= k < metas.len() && metas[k] == listed@[j];
        let m = lemma_child_from(entries, dir@, n, k);
        assert(kids.contains(entries[m]));
        m
    } else {
        0
    };
    (a, b)
}

} // verus!
