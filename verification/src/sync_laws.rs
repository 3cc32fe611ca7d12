//! What a sync comes to as a whole: applied to two directory trees, its plan
//! makes the destination like the source.

use vstd::prelude::*;

use crate::job;
use crate::job::{JobOp, SyncPlan};
use crate::path;
use crate::scan;
use crate::scan::Side;
use crate::scan_laws;
use crate::vfs;
use crate::vfs::{EntryKind, EntryMeta, VfsError};

verus! {

/// The place of something in a tree: the names that lead to it from the root.
pub type Key = Seq<Seq<char>>;

/// Something in a tree.
pub ghost enum Node {
    Dir,
    File(Seq<u8>),
    /// A link with its target, if that can be read.
    Link(Option<Seq<char>>),
    Other,
}

/// What a backend holds.
pub type Tree = Map<Key, Node>;

/// Whether everything in it lies in a directory.
pub open spec fn is_tree(t: Tree) -> bool {
    forall|k: Key| #[trigger]
        t.contains_key(k) && k.len() > 0 ==> t.contains_key(k.drop_last()) && t[k.drop_last()]
            is Dir
}

/// Whether `k` is `top` or below it.
pub open spec fn under(k: Key, top: Key) -> bool {
    k.len() >= top.len() && k.take(top.len() as int) == top
}

/// Whether two trees hold the same at `k`.
pub open spec fn same_at(a: Tree, b: Tree, k: Key) -> bool {
    a.contains_key(k) == b.contains_key(k) && (a.contains_key(k) ==> a[k] == b[k])
}

/// The tree without `top` and everything below it.
pub open spec fn without(t: Tree, top: Key) -> Tree {
    t.remove_keys(Set::new(|k: Key| under(k, top)))
}

/// What an operation of a job does to the tree of the destination, given that of
/// the source. Operations on the source do nothing to it.
pub open spec fn op_effect(src: Tree, t: Tree, op: JobOp) -> Tree {
    match op {
        JobOp::RemoveFile { side: Side::Dst, path: p } => t.remove(path::components(p@)),
        JobOp::RemoveDir { side: Side::Dst, path: p, recursive } => if recursive {
            without(t, path::components(p@))
        } else {
            t.remove(path::components(p@))
        },
        JobOp::Mkdir { path: p, .. } => t.insert(path::components(p@), Node::Dir),
        JobOp::Symlink { target, link } => t.insert(
            path::components(link@),
            Node::Link(Some(target@)),
        ),
        JobOp::Transfer { src: from, dst: to, .. } => t.insert(
            path::components(to@),
            src[path::components(from@)],
        ),
        _ => t,
    }
}

/// What a list of operations does to the tree of the destination, one after the
/// other.
pub open spec fn ops_effect(src: Tree, t: Tree, ops: Seq<JobOp>) -> Tree
    decreases ops.len(),
{
    if ops.len() == 0 {
        t
    } else {
        op_effect(src, ops_effect(src, t, ops.drop_last()), ops.last())
    }
}

/// What a planned copy does to the tree of the destination.
pub open spec fn copy_effect(src: Tree, t: Tree, c: scan::CopyPlanned) -> Tree {
    let k = path::components(c.dst);
    let cleared = match c.replaces {
        None => t,
        Some(old) => if old.kind is Dir {
            without(t, k)
        } else {
            t.remove(k)
        },
    };
    match c.meta.kind {
        EntryKind::Dir => cleared.insert(k, Node::Dir),
        EntryKind::Symlink { target: Some(target) } => cleared.insert(k, Node::Link(Some(target@))),
        _ => cleared.insert(k, src[path::components(c.src)]),
    }
}

/// What planned copies do to the tree of the destination, one after the other.
pub open spec fn copies_effect(src: Tree, t: Tree, copies: Seq<scan::CopyPlanned>) -> Tree
    decreases copies.len(),
{
    if copies.len() == 0 {
        t
    } else {
        copy_effect(src, copies_effect(src, t, copies.drop_last()), copies.last())
    }
}

/// Whether something planned to be deleted is at `k`.
pub open spec fn deletes_key(deletes: Seq<(Seq<char>, EntryMeta)>, k: Key) -> bool {
    exists|i: int| 0 <= i < deletes.len() && path::components((#[trigger] deletes[i]).0) == k
}

/// The tree of the destination once everything planned to be deleted is gone.
pub open spec fn deletes_effect(t: Tree, deletes: Seq<(Seq<char>, EntryMeta)>) -> Tree
    decreases deletes.len(),
{
    if deletes.len() == 0 {
        t
    } else {
        deletes_effect(t, deletes.drop_last()).remove(path::components(deletes.last().0))
    }
}

/// Whether a listing calls a node what it is.
pub open spec fn is_kind_of(kind: EntryKind, n: Node) -> bool {
    match n {
        Node::Dir => kind is Dir,
        Node::File(_) => kind is File,
        Node::Link(target) => match kind {
            EntryKind::Symlink { target: given } => match (target, given) {
                (Some(t), Some(g)) => g@ == t,
                (None, None) => true,
                _ => false,
            },
            _ => false,
        },
        Node::Other => kind is Other,
    }
}

/// Whether `e` is what a directory at `dir` lists for one of its children.
pub open spec fn is_child_entry(
    w: scan::World,
    side: Side,
    t: Tree,
    hash: spec_fn(Seq<u8>) -> u64,
    dir: Key,
    e: EntryMeta,
) -> bool {
    let k = dir.push(e.name@);
    &&& path::is_plain_name(e.name@)
    &&& path::is_absolute(e.path@)
    &&& path::components(e.path@) == k
    &&& t.contains_key(k)
    &&& is_kind_of(e.kind, t[k])
    &&& t[k] matches Node::File(content) ==> {
        &&& e.size == content.len()
        &&& (w.hash)(side, e.path@) == Ok::<Option<u64>, VfsError>(Some(hash(content)))
    }
}

/// Whether an entry from `i` on has this name.
pub open spec fn named_from(entries: Seq<EntryMeta>, i: int, name: Seq<char>) -> bool {
    exists|m: int| i <= m < entries.len() && (#[trigger] entries[m]).name@ == name
}

/// Whether no name is listed twice.
pub open spec fn names_differ(entries: Seq<EntryMeta>) -> bool {
    forall|i: int, j: int|
        0 <= i < j < entries.len() ==> (#[trigger] entries[i]).name@ != (
        #[trigger] entries[j]).name@
}

/// Whether `entries` are all children of the directory at `dir`, each once.
pub open spec fn lists(
    w: scan::World,
    side: Side,
    t: Tree,
    hash: spec_fn(Seq<u8>) -> u64,
    dir: Key,
    entries: Seq<EntryMeta>,
) -> bool {
    &&& forall|i: int|
        0 <= i < entries.len() ==> is_child_entry(w, side, t, hash, dir, #[trigger] entries[i])
    &&& names_differ(entries)
    &&& forall|name: Seq<char>| #[trigger]
        t.contains_key(dir.push(name)) ==> named_from(entries, 0, name)
}

/// Whether a backend answers truly about what is at `p`.
pub open spec fn is_shown_at(
    w: scan::World,
    side: Side,
    t: Tree,
    hash: spec_fn(Seq<u8>) -> u64,
    p: Seq<char>,
) -> bool {
    let k = path::components(p);
    path::is_absolute(p) && t.contains_key(k) ==> {
        &&& (w.stat)(side, p) is Ok
        &&& is_kind_of((w.stat)(side, p)->Ok_0.kind, t[k])
        &&& t[k] is Dir ==> (w.list)(side, p) is Ok && lists(
            w,
            side,
            t,
            hash,
            k,
            (w.list)(side, p)->Ok_0,
        )
    }
}

/// Whether a backend that holds `t` answers truly about all of it. Files are
/// hashed by their content.
pub open spec fn shows(
    w: scan::World,
    side: Side,
    t: Tree,
    hash: spec_fn(Seq<u8>) -> u64,
) -> bool {
    forall|p: Seq<char>| #[trigger] is_shown_at(w, side, t, hash, p)
}

/// Two trees, and the directory of each that is to be synced.
pub ghost struct Pair {
    pub src: Tree,
    pub dst: Tree,
    pub hash: spec_fn(Seq<u8>) -> u64,
    pub from: Key,
    pub to: Key,
}

impl Pair {
    /// The place in the source that stands for a place in the destination.
    pub open spec fn twin(self, k: Key) -> Key {
        self.from + k.skip(self.to.len() as int)
    }

    /// Whether both are directories of proper trees, and all that the source
    /// holds there are directories, files and links with a target that can be
    /// read.
    pub open spec fn is_valid(self) -> bool {
        &&& is_tree(self.src)
        &&& is_tree(self.dst)
        &&& self.src.contains_key(self.from) && self.src[self.from] is Dir
        &&& self.dst.contains_key(self.to) && self.dst[self.to] is Dir
        &&& forall|k: Key| #[trigger]
            self.src.contains_key(k) && under(k, self.from) ==> !(self.src[k] is Other)
                && self.src[k] != Node::Link(None)
    }

    /// Whether what a destination holds counts as what the source holds: the same
    /// kind of thing, files by size and hash and links by their target.
    pub open spec fn counts_as(self, a: Node, b: Node) -> bool {
        match (a, b) {
            (Node::Dir, Node::Dir) => true,
            (Node::File(x), Node::File(y)) => x.len() == y.len() && (self.hash)(x) == (self.hash)(y),
            (Node::Link(Some(x)), Node::Link(Some(y))) => path::same_path(x, y),
            _ => false,
        }
    }

    /// Whether the tree `x` has at `k` what the source has there.
    pub open spec fn has_copy(self, x: Tree, k: Key) -> bool {
        self.src.contains_key(self.twin(k)) ==> x.contains_key(k) && self.counts_as(
            self.src[self.twin(k)],
            x[k],
        )
    }

    /// Whether only the destination has something at `k`, in directories that
    /// both have or only the destination has.
    pub open spec fn is_extra(self, k: Key) -> bool {
        &&& self.dst.contains_key(k)
        &&& !self.src.contains_key(self.twin(k))
        &&& forall|n: int|
            self.to.len() <= n < k.len() && self.src.contains_key(
                #[trigger] self.twin(k.take(n)),
            ) ==> self.src[self.twin(k.take(n))] is Dir
    }

    /// What the copies of a sync leave at `k`: what the source has there, or else
    /// at most what was extra there before.
    pub open spec fn settled_at(self, x: Tree, k: Key) -> bool {
        &&& self.has_copy(x, k)
        &&& x.contains_key(k) && !self.src.contains_key(self.twin(k)) ==> self.is_extra(k)
    }

    /// Whether the tree `x` has at `k` what the source has there and nothing
    /// else.
    pub open spec fn is_copy(self, x: Tree, k: Key) -> bool {
        &&& self.has_copy(x, k)
        &&& x.contains_key(k) ==> self.src.contains_key(self.twin(k))
    }
}

/// Whether `k` is a child of `dir`, or below one, that is among the entries from
/// `i` on.
pub open spec fn in_child(k: Key, dir: Key, entries: Seq<EntryMeta>, i: int) -> bool {
    &&& k.len() > dir.len()
    &&& under(k, dir)
    &&& named_from(entries, i, k[dir.len() as int])
}

/// Being below a child of a place.
pub proof fn lemma_under(k: Key, top: Key, name: Seq<char>)
    ensures
        under(k, top.push(name)) <==> k.len() > top.len() && under(k, top) && k[top.len() as int]
            == name,
        under(top.push(name), top),
        under(top, top),
{
    let n = top.len() as int;
    assert(top.push(name).take(n) =~= top);
    assert(top.take(n) =~= top);
    if under(k, top.push(name)) {
        assert(k.take(n) =~= k.take(n + 1).take(n));
        assert(k[n] == k.take(n + 1)[n]);
    }
    if k.len() > n && under(k, top) && k[n] == name {
        assert(k.take(n + 1) =~= top.push(name));
    }
}

/// Being below is passed on.
pub proof fn lemma_under_trans(a: Key, b: Key, c: Key)
    requires
        under(a, b),
        under(b, c),
    ensures
        under(a, c),
{
    assert(a.take(c.len() as int) =~= b.take(c.len() as int));
}

/// What lies below something in a tree lies in directories only.
pub proof fn lemma_above(t: Tree, k: Key, n: int)
    requires
        is_tree(t),
        t.contains_key(k),
        0 <= n < k.len(),
    ensures
        t.contains_key(k.take(n)),
        t[k.take(n)] is Dir,
    decreases k.len() - n,
{
    if n == k.len() - 1 {
        assert(k.take(n) =~= k.drop_last());
    } else {
        lemma_above(t, k, n + 1);
        assert(k.take(n + 1).drop_last() =~= k.take(n));
    }
}

impl Pair {
    /// Twins of what is below a place are below its twin.
    pub proof fn lemma_twin(self, k: Key, top: Key)
        requires
            under(top, self.to),
            under(k, top),
        ensures
            under(self.twin(k), self.twin(top)),
            under(self.twin(k), self.from),
            self.twin(k).len() == self.twin(top).len() + (k.len() - top.len()),
            k == top ==> self.twin(k) == self.twin(top),
            forall|name: Seq<char>| #[trigger] self.twin(top.push(name)) == self.twin(top).push(name),
            k.len() > top.len() ==> self.twin(k)[self.twin(top).len() as int] == k[top.len() as int],
            forall|n: int|
                top.len() <= n <= k.len() ==> #[trigger] self.twin(k.take(n)) == self.twin(k).take(
                    self.twin(top).len() + (n - top.len()),
                ),
    {
        lemma_under_trans(k, top, self.to);
        let a = self.twin(k);
        let b = self.twin(top);
        let d = self.to.len() as int;
        assert(k.len() >= top.len() >= d);
        assert(a.take(b.len() as int) =~= b) by {
            assert forall|i: int| 0 <= i < b.len() implies a[i] == b[i] by {
                if i >= self.from.len() {
                    let j = i - self.from.len() + d;
                    assert(k.take(top.len() as int)[j] == top[j]);
                }
            }
        }
        assert(a.take(self.from.len() as int) =~= self.from);
        assert forall|name: Seq<char>| #[trigger] self.twin(top.push(name)) == b.push(name) by {
            assert(self.twin(top.push(name)) =~= b.push(name));
        }
        assert forall|n: int| top.len() <= n <= k.len() implies #[trigger] self.twin(k.take(n))
            == a.take(b.len() + (n - top.len())) by {
            assert(self.twin(k.take(n)) =~= a.take(b.len() + (n - top.len())));
        }
    }
}

/// Copies one after the other.
pub proof fn lemma_copies_concat(
    src: Tree,
    t: Tree,
    a: Seq<scan::CopyPlanned>,
    b: Seq<scan::CopyPlanned>,
)
    ensures
        copies_effect(src, t, a + b) == copies_effect(src, copies_effect(src, t, a), b),
    decreases b.len(),
{
    if b.len() == 0 {
        assert(a + b =~= a);
    } else {
        lemma_copies_concat(src, t, a, b.drop_last());
        assert((a + b).drop_last() =~= a + b.drop_last());
    }
}

/// A single copy.
pub proof fn lemma_copies_one(src: Tree, t: Tree, c: scan::CopyPlanned)
    ensures
        copies_effect(src, t, seq![c]) == copy_effect(src, t, c),
{
    assert(seq![c].drop_last() =~= Seq::<scan::CopyPlanned>::empty());
    reveal_with_fuel(copies_effect, 2);
}

/// What is left after deletions.
pub proof fn lemma_deletes_effect(t: Tree, deletes: Seq<(Seq<char>, EntryMeta)>, k: Key)
    ensures
        deletes_key(deletes, k) ==> !deletes_effect(t, deletes).contains_key(k),
        !deletes_key(deletes, k) ==> same_at(deletes_effect(t, deletes), t, k),
    decreases deletes.len(),
{
    if deletes.len() > 0 {
        let before = deletes.drop_last();
        lemma_deletes_effect(t, before, k);
        if deletes_key(deletes, k) && path::components(deletes.last().0) != k {
            let i = choose|i: int|
                0 <= i < deletes.len() && path::components((#[trigger] deletes[i]).0) == k;
            assert(before[i] == deletes[i]);
        }
        if deletes_key(before, k) {
            let i = choose|i: int|
                0 <= i < before.len() && path::components((#[trigger] before[i]).0) == k;
            assert(before[i] == deletes[i]);
        }
        if path::components(deletes.last().0) == k {
            assert(deletes[deletes.len() - 1] == deletes.last());
        }
    }
}

/// Deletions one after the other.
pub proof fn lemma_deletes_concat(
    a: Seq<(Seq<char>, EntryMeta)>,
    b: Seq<(Seq<char>, EntryMeta)>,
    k: Key,
)
    ensures
        deletes_key(a + b, k) <==> deletes_key(a, k) || deletes_key(b, k),
{
    let c = a + b;
    if deletes_key(a, k) {
        let i = choose|i: int| 0 <= i < a.len() && path::components((#[trigger] a[i]).0) == k;
        assert(c[i] == a[i]);
    }
    if deletes_key(b, k) {
        let i = choose|i: int| 0 <= i < b.len() && path::components((#[trigger] b[i]).0) == k;
        assert(c[i + a.len()] == b[i]);
    }
    if deletes_key(c, k) {
        let i = choose|i: int| 0 <= i < c.len() && path::components((#[trigger] c[i]).0) == k;
        if i < a.len() {
            assert(a[i] == c[i]);
        } else {
            assert(b[i - a.len()] == c[i]);
        }
    }
}

/// Whether a tree holds nothing below `top`.
spec fn nothing_below(x: Tree, top: Key) -> bool {
    forall|k: Key| #[trigger] x.contains_key(k) && under(k, top) ==> k == top
}

/// What is no directory has nothing below it.
pub proof fn lemma_leaf(t: Tree, top: Key, k: Key)
    requires
        is_tree(t),
        t.contains_key(k),
        under(k, top),
        k != top,
    ensures
        t.contains_key(top),
        t[top] is Dir,
{
    if k.len() == top.len() {
        assert(k.take(top.len() as int) =~= k);
    }
    lemma_above(t, k, top.len() as int);
}

/// What a directory listing of the source does not name is not in the source.
proof fn lemma_unlisted(
    p: Pair,
    w: scan::World,
    dir: Key,
    entries: Seq<EntryMeta>,
    k: Key,
)
    requires
        p.is_valid(),
        under(dir, p.to),
        lists(w, Side::Src, p.src, p.hash, p.twin(dir), entries),
        under(k, dir),
        k.len() > dir.len(),
        p.src.contains_key(p.twin(k)),
    ensures
        in_child(k, dir, entries, 0),
{
    let name = k[dir.len() as int];
    let child = dir.push(name);
    lemma_under(k, dir, name);
    p.lemma_twin(k, dir);
    let q = p.twin(dir).push(name);
    assert(p.twin(child) == q);
    let n = p.twin(dir).len() as int + 1;
    assert(p.twin(k).take(n) =~= q) by {
        assert(p.twin(k).take(n) =~= p.twin(k).take(n - 1).push(p.twin(k)[n - 1]));
    }
    if n < p.twin(k).len() {
        lemma_above(p.src, p.twin(k), n);
    } else {
        assert(p.twin(k).take(n) =~= p.twin(k));
    }
    assert(p.src.contains_key(p.twin(dir).push(name)));
}

/// Below a place where the destination has nothing, a whole new copy leaves what
/// the source has and nothing else.
proof fn lemma_full_copy(
    p: Pair,
    w: scan::World,
    meta: EntryMeta,
    dst: Seq<char>,
    replaces: Option<EntryMeta>,
    x: Tree,
)
    requires
        p.is_valid(),
        w.is_finite(),
        shows(w, Side::Src, p.src, p.hash),
        path::is_absolute(dst),
        path::is_absolute(meta.path@),
        under(path::components(dst), p.to),
        path::components(meta.path@) == p.twin(path::components(dst)),
        p.src.contains_key(path::components(meta.path@)),
        is_kind_of(meta.kind, p.src[path::components(meta.path@)]),
        (replaces is Some && replaces->0.kind is Dir) || nothing_below(x, path::components(dst)),
        scan::full_copy(w, meta, dst, replaces).result is Ok,
    ensures
        ({
            let y = copies_effect(
                p.src,
                x,
                scan::full_copy(w, meta, dst, replaces).result->Ok_0.copy,
            );
            let k = path::components(dst);
            &&& forall|j: Key| !under(j, k) ==> #[trigger] same_at(y, x, j)
            &&& forall|j: Key| under(j, k) ==> #[trigger] p.is_copy(y, j)
        }),
    decreases (w.rank)(Side::Src, meta.path@), 2nat, 0nat,
{
    let k = path::components(dst);
    let q = path::components(meta.path@);
    let c = scan::CopyPlanned { src: meta.path@, dst, meta, replaces };
    let f = scan::full_copy(w, meta, dst, replaces).result->Ok_0;
    let x1 = copy_effect(p.src, x, c);
    let y = copies_effect(p.src, x, f.copy);
    lemma_under(k, k, Seq::empty());
    p.lemma_twin(k, k);
    lemma_under(p.to, p.to, Seq::empty());
    p.lemma_twin(k, p.to);
    assert(under(q, p.from));
    assert(x1.contains_key(k) && p.counts_as(p.src[q], x1[k]));
    assert(nothing_below(x1, k)) by {
        assert forall|j: Key| #[trigger] x1.contains_key(j) && under(j, k) implies j == k by {
            if j != k {
                assert(x.contains_key(j));
            }
        }
    }
    assert forall|j: Key| !under(j, k) implies #[trigger] same_at(x1, x, j) by {
    }
    lemma_copies_one(p.src, x, c);
    if meta.kind is Dir {
        assert(is_shown_at(w, Side::Src, p.src, p.hash, meta.path@));
        let entries = (w.list)(Side::Src, meta.path@)->Ok_0;
        let below = (w.rank)(Side::Src, meta.path@);
        assert forall|i: int| 0 <= i < entries.len() implies (w.rank)(
            Side::Src,
            (#[trigger] entries[i]).path@,
        ) < below by {
            assert((w.list)(Side::Src, meta.path@)->Ok_0[i] == entries[i]);
        }
        let rest = scan::full_all(w, entries, dst, below);
        assert(f.copy =~= seq![c] + rest.result->Ok_0.copy);
        lemma_copies_concat(p.src, x, seq![c], rest.result->Ok_0.copy);
        assert forall|j: Key| #[trigger] x1.contains_key(j) implies !in_child(j, k, entries, 0) by {
        }
        lemma_full_all(p, w, entries, dst, below, x1);
        assert forall|j: Key| !under(j, k) implies #[trigger] same_at(y, x, j) by {
            assert(same_at(y, x1, j));
            assert(same_at(x1, x, j));
        }
        assert forall|j: Key| under(j, k) implies #[trigger] p.is_copy(y, j) by {
            if in_child(j, k, entries, 0) {
                assert(p.is_copy(y, j));
            } else {
                assert(same_at(y, x1, j));
                if j == k {
                } else {
                    assert(!x1.contains_key(j));
                    if p.src.contains_key(p.twin(j)) {
                        if j.len() == k.len() {
                            assert(j.take(k.len() as int) =~= j);
                        }
                        lemma_unlisted(p, w, k, entries, j);
                    }
                }
            }
        }
    } else {
        assert(f.copy =~= seq![c]);
        assert forall|j: Key| under(j, k) implies #[trigger] p.is_copy(y, j) by {
            if j != k {
                if p.src.contains_key(p.twin(j)) {
                    p.lemma_twin(j, k);
                    if j.len() == k.len() {
                        assert(j.take(k.len() as int) =~= j);
                    }
                    lemma_leaf(p.src, q, p.twin(j));
                }
            }
        }
    }
}

proof fn lemma_full_all(
    p: Pair,
    w: scan::World,
    entries: Seq<EntryMeta>,
    dst: Seq<char>,
    below: nat,
    x: Tree,
)
    requires
        p.is_valid(),
        w.is_finite(),
        shows(w, Side::Src, p.src, p.hash),
        path::is_absolute(dst),
        under(path::components(dst), p.to),
        forall|i: int|
            0 <= i < entries.len() ==> is_child_entry(
                w,
                Side::Src,
                p.src,
                p.hash,
                p.twin(path::components(dst)),
                #[trigger] entries[i],
            ),
        forall|i: int|
            0 <= i < entries.len() ==> (w.rank)(Side::Src, (#[trigger] entries[i]).path@) < below,
        names_differ(entries),
        forall|j: Key| #[trigger]
            x.contains_key(j) ==> !in_child(j, path::components(dst), entries, 0),
        scan::full_all(w, entries, dst, below).result is Ok,
    ensures
        ({
            let y = copies_effect(
                p.src,
                x,
                scan::full_all(w, entries, dst, below).result->Ok_0.copy,
            );
            let k = path::components(dst);
            &&& forall|j: Key| !in_child(j, k, entries, 0) ==> #[trigger] same_at(y, x, j)
            &&& forall|j: Key| in_child(j, k, entries, 0) ==> #[trigger] p.is_copy(y, j)
        }),
    decreases below, 0nat, entries.len(),
{
    let k = path::components(dst);
    let all = scan::full_all(w, entries, dst, below);
    let y = copies_effect(p.src, x, all.result->Ok_0.copy);
    if entries.len() > 0 {
        let e = entries[0];
        let rest = entries.skip(1);
        let at = path::joined(dst, e.name@);
        let child = k.push(e.name@);
        path::lemma_join_adds_component(dst, e.name@);
        lemma_under(k, k, e.name@);
        p.lemma_twin(child, k);
        lemma_under_trans(child, k, p.to);
        let first = scan::full_copy(w, e, at, None);
        let others = scan::full_all(w, rest, dst, below);
        assert(nothing_below(x, child)) by {
            assert forall|j: Key| #[trigger] x.contains_key(j) && under(j, child) implies j == child by {
                lemma_under(j, k, e.name@);
                assert(entries[0].name@ == j[k.len() as int]);
                assert(in_child(j, k, entries, 0));
            }
        }
        lemma_full_copy(p, w, e, at, None, x);
        let x1 = copies_effect(p.src, x, first.result->Ok_0.copy);
        lemma_copies_concat(p.src, x, first.result->Ok_0.copy, others.result->Ok_0.copy);
        assert forall|i: int| 0 <= i < rest.len() implies is_child_entry(
            w,
            Side::Src,
            p.src,
            p.hash,
            p.twin(k),
            #[trigger] rest[i],
        ) && (w.rank)(Side::Src, rest[i].path@) < below by {
            assert(rest[i] == entries[i + 1]);
        }
        assert(names_differ(rest)) by {
            assert forall|i: int, j: int| 0 <= i < j < rest.len() implies (#[trigger] rest[i]).name@
                != (#[trigger] rest[j]).name@ by {
                assert(rest[i] == entries[i + 1] && rest[j] == entries[j + 1]);
            }
        }
        assert forall|j: Key| #[trigger] in_child(j, k, rest, 0) implies in_child(j, k, entries, 0)
            && !under(j, child) by {
            let name = j[k.len() as int];
            let m = choose|m: int| 0 <= m < rest.len() && (#[trigger] rest[m]).name@ == name;
            assert(entries[m + 1].name@ == name);
            assert(entries[0].name@ != entries[m + 1].name@);
            lemma_under(j, k, e.name@);
        }
        assert forall|j: Key| in_child(j, k, entries, 0) && !#[trigger] in_child(
            j,
            k,
            rest,
            0,
        ) implies under(j, child) by {
            let name = j[k.len() as int];
            let m = choose|m: int| 0 <= m < entries.len() && (#[trigger] entries[m]).name@ == name;
            if m > 0 {
                assert(rest[m - 1].name@ == name);
            }
            lemma_under(j, k, e.name@);
        }
        assert forall|j: Key| #[trigger] x1.contains_key(j) implies !in_child(j, k, rest, 0) by {
            if in_child(j, k, rest, 0) {
                assert(same_at(x1, x, j));
            }
        }
        lemma_full_all(p, w, rest, dst, below, x1);
        assert forall|j: Key| !in_child(j, k, entries, 0) implies #[trigger] same_at(y, x, j) by {
            lemma_under(j, k, e.name@);
            if under(j, child) {
                assert(entries[0].name@ == j[k.len() as int]);
            }
            assert(!in_child(j, k, rest, 0));
            assert(same_at(y, x1, j));
            assert(same_at(x1, x, j));
        }
        assert forall|j: Key| in_child(j, k, entries, 0) implies #[trigger] p.is_copy(y, j) by {
            if !in_child(j, k, rest, 0) {
                assert(p.is_copy(x1, j));
                assert(same_at(y, x1, j));
            }
        }
    }
}

proof fn lemma_last_named(entries: Seq<EntryMeta>, name: Seq<char>)
    ensures
        ({
            let at = scan::last_named(entries, name);
            &&& at >= 0 ==> at < entries.len() && entries[at].name@ == name
            &&& at < 0 ==> !named_from(entries, 0, name)
            &&& at < 0 ==> forall|m: int| 0 <= m < entries.len() ==> (#[trigger] entries[m]).name@
                != name
        }),
    decreases entries.len(),
{
    if entries.len() > 0 {
        let before = entries.drop_last();
        lemma_last_named(before, name);
        assert forall|m: int|
            0 <= m < entries.len() && scan::last_named(entries, name) < 0 implies (
        #[trigger] entries[m]).name@ != name by {
            if m < before.len() {
                assert(before[m] == entries[m]);
            }
        }
    }
}

/// With different names, an entry's counterpart is the one of its name.
pub proof fn lemma_counterpart(se: Seq<EntryMeta>, de: Seq<EntryMeta>, i: int)
    requires
        0 <= i < se.len(),
        names_differ(se),
    ensures
        ({
            let r = scan::counterpart(se, de, i);
            &&& r is Some <==> named_from(de, 0, se[i].name@)
            &&& r is Some ==> r->0.name@ == se[i].name@ && exists|m: int|
                0 <= m < de.len() && #[trigger] de[m] == r->0
        }),
{
    let name = se[i].name@;
    lemma_last_named(se.take(i), name);
    lemma_last_named(de, name);
    let before = scan::last_named(se.take(i), name);
    if before >= 0 {
        assert(se.take(i)[before] == se[before]);
        assert(se[before].name@ != se[i].name@);
    }
    let at = scan::last_named(de, name);
    if at >= 0 {
        assert(de[at].name@ == name);
    }
}

/// What is in a directory that both trees have, under a name that the source
/// does not list there, is extra.
proof fn lemma_unlisted_is_extra(
    p: Pair,
    w: scan::World,
    dir: Key,
    entries: Seq<EntryMeta>,
    k: Key,
)
    requires
        p.is_valid(),
        under(dir, p.to),
        p.src.contains_key(p.twin(dir)),
        p.src[p.twin(dir)] is Dir,
        lists(w, Side::Src, p.src, p.hash, p.twin(dir), entries),
        under(k, dir),
        k.len() > dir.len(),
        !in_child(k, dir, entries, 0),
        p.dst.contains_key(k),
    ensures
        p.is_extra(k),
{
    lemma_under(p.to, p.to, Seq::empty());
    if p.src.contains_key(p.twin(k)) {
        lemma_unlisted(p, w, dir, entries, k);
    }
    assert forall|n: int|
        p.to.len() <= n < k.len() && p.src.contains_key(#[trigger] p.twin(k.take(n))) implies p.src[
        p.twin(k.take(n))] is Dir by {
        let up = k.take(n);
        if n > dir.len() {
            assert(up.take(dir.len() as int) =~= k.take(dir.len() as int));
            assert(up[dir.len() as int] == k[dir.len() as int]);
            lemma_unlisted(p, w, dir, entries, up);
        } else {
            assert(up =~= dir.take(n)) by {
                assert(k.take(dir.len() as int).take(n) =~= up);
            }
            p.lemma_twin(dir, p.to);
            let m = p.from.len() + (n - p.to.len());
            assert(p.twin(p.to) =~= p.from);
            assert(p.twin(dir.take(n)) == p.twin(dir).take(m));
            if m < p.twin(dir).len() {
                lemma_above(p.src, p.twin(dir), m);
            } else {
                assert(p.twin(dir).take(m) =~= p.twin(dir));
            }
        }
    }
}

/// The delete scan of a path finds it and everything below it.
pub proof fn lemma_delete_visit(
    w: scan::World,
    side: Side,
    t: Tree,
    hash: spec_fn(Seq<u8>) -> u64,
    at: Seq<char>,
    k: Key,
)
    requires
        is_tree(t),
        w.is_finite(),
        shows(w, side, t, hash),
        path::is_absolute(at),
        t.contains_key(path::components(at)),
        scan::delete_visit(w, side, at).result is Ok,
    ensures
        scan::delete_visit(w, side, at).result->Ok_0.copy.len() == 0,
        deletes_key(scan::delete_visit(w, side, at).result->Ok_0.delete, k) <==> under(
            k,
            path::components(at),
        ) && t.contains_key(k),
    decreases (w.rank)(side, at), 2nat, 0nat,
{
    let top = path::components(at);
    assert(is_shown_at(w, side, t, hash, at));
    let meta = (w.stat)(side, at)->Ok_0;
    let own = seq![(at, meta)];
    let f = scan::delete_visit(w, side, at).result->Ok_0;
    lemma_under(top, top, Seq::empty());
    assert(deletes_key(own, k) <==> k == top) by {
        if k == top {
            assert(own[0].0 == at);
        }
    }
    if meta.kind is Dir {
        let entries = (w.list)(side, at)->Ok_0;
        let below = (w.rank)(side, at);
        assert forall|i: int| 0 <= i < entries.len() implies (w.rank)(
            side,
            (#[trigger] entries[i]).path@,
        ) < below by {
            assert((w.list)(side, at)->Ok_0[i] == entries[i]);
        }
        let inner = scan::delete_all(w, side, entries, below);
        lemma_delete_all(w, side, t, hash, top, entries, below, k);
        assert(f.delete =~= inner.result->Ok_0.delete + own);
        lemma_deletes_concat(inner.result->Ok_0.delete, own, k);
        if under(k, top) && t.contains_key(k) && k != top {
            if k.len() == top.len() {
                assert(k.take(top.len() as int) =~= k);
            }
            let name = k[top.len() as int];
            let n = top.len() as int + 1;
            assert(k.take(n) =~= top.push(name)) by {
                assert(k.take(n) =~= k.take(n - 1).push(name));
            }
            if n < k.len() {
                lemma_above(t, k, n);
            } else {
                assert(k.take(n) =~= k);
            }
            assert(t.contains_key(top.push(name)));
            assert(in_child(k, top, entries, 0));
        }
    } else {
        assert(f.delete =~= own);
        if under(k, top) && t.contains_key(k) && k != top {
            lemma_leaf(t, top, k);
        }
    }
}

proof fn lemma_delete_all(
    w: scan::World,
    side: Side,
    t: Tree,
    hash: spec_fn(Seq<u8>) -> u64,
    dir: Key,
    entries: Seq<EntryMeta>,
    below: nat,
    k: Key,
)
    requires
        is_tree(t),
        w.is_finite(),
        shows(w, side, t, hash),
        forall|i: int|
            0 <= i < entries.len() ==> is_child_entry(
                w,
                side,
                t,
                hash,
                dir,
                #[trigger] entries[i],
            ),
        forall|i: int|
            0 <= i < entries.len() ==> (w.rank)(side, (#[trigger] entries[i]).path@) < below,
        scan::delete_all(w, side, entries, below).result is Ok,
    ensures
        scan::delete_all(w, side, entries, below).result->Ok_0.copy.len() == 0,
        deletes_key(scan::delete_all(w, side, entries, below).result->Ok_0.delete, k)
            <==> in_child(k, dir, entries, 0) && t.contains_key(k),
    decreases below, 0nat, entries.len(),
{
    if entries.len() > 0 {
        let e = entries[0];
        let rest = entries.skip(1);
        assert forall|i: int| 0 <= i < rest.len() implies is_child_entry(
            w,
            side,
            t,
            hash,
            dir,
            #[trigger] rest[i],
        ) && (w.rank)(side, rest[i].path@) < below by {
            assert(rest[i] == entries[i + 1]);
        }
        let first = scan::delete_visit(w, side, e.path@);
        let others = scan::delete_all(w, side, rest, below);
        lemma_delete_visit(w, side, t, hash, e.path@, k);
        lemma_delete_all(w, side, t, hash, dir, rest, below, k);
        lemma_deletes_concat(first.result->Ok_0.delete, others.result->Ok_0.delete, k);
        lemma_under(k, dir, e.name@);
        if in_child(k, dir, entries, 0) {
            let name = k[dir.len() as int];
            let m = choose|m: int| 0 <= m < entries.len() && (#[trigger] entries[m]).name@ == name;
            if m > 0 {
                assert(rest[m - 1].name@ == name);
            }
        }
        if under(k, dir.push(e.name@)) {
            assert(entries[0].name@ == k[dir.len() as int]);
        }
        if in_child(k, dir, rest, 0) {
            let name = k[dir.len() as int];
            let m = choose|m: int| 0 <= m < rest.len() && (#[trigger] rest[m]).name@ == name;
            assert(entries[m + 1].name@ == name);
        }
    }
}

proof fn lemma_leftovers(se: Seq<EntryMeta>, de: Seq<EntryMeta>, n: int, name: Seq<char>)
    requires
        0 <= n <= de.len(),
        names_differ(de),
    ensures
        named_from(scan::leftovers(se, de, n), 0, name) ==> !named_from(se, 0, name),
        forall|m: int|
            0 <= m < n && (#[trigger] de[m]).name@ == name && !named_from(se, 0, name)
                ==> named_from(scan::leftovers(se, de, n), 0, name),
    decreases n,
{
    let all = scan::leftovers(se, de, n);
    if n > 0 {
        let before = scan::leftovers(se, de, n - 1);
        let last = de[n - 1];
        lemma_leftovers(se, de, n - 1, name);
        lemma_last_named(se, last.name@);
        lemma_last_named(de, last.name@);
        let at = scan::last_named(de, last.name@);
        if at < 0 {
            assert(de[n - 1].name@ != last.name@);
        } else if at != n - 1 {
            if at < n - 1 {
                assert(de[at].name@ != de[n - 1].name@);
            } else {
                assert(de[n - 1].name@ != de[at].name@);
            }
        }
        let from_src = scan::last_named(se, last.name@);
        if from_src >= 0 {
            assert(se[from_src].name@ == last.name@);
        }
        if named_from(before, 0, name) {
            let m = choose|m: int| 0 <= m < before.len() && (#[trigger] before[m]).name@ == name;
            assert(all[m] == before[m]);
        }
        if named_from(all, 0, name) {
            let m = choose|m: int| 0 <= m < all.len() && (#[trigger] all[m]).name@ == name;
            if m < before.len() {
                assert(before[m] == all[m]);
            } else {
                assert(all[m] == last);
            }
        }
        assert forall|m: int|
            0 <= m < n && (#[trigger] de[m]).name@ == name && !named_from(se, 0, name) implies named_from(
            all,
            0,
            name,
        ) by {
            if m == n - 1 {
                assert(all[before.len() as int] == last);
            }
        }
    }
}

/// What a listed entry of the source comes to, together with what the
/// destination has under its name.
proof fn lemma_diff_one(
    p: Pair,
    w: scan::World,
    dir: Key,
    e: EntryMeta,
    other: Option<EntryMeta>,
    at: Seq<char>,
    del: bool,
    x: Tree,
)
    requires
        p.is_valid(),
        w.is_finite(),
        shows(w, Side::Src, p.src, p.hash),
        shows(w, Side::Dst, p.dst, p.hash),
        under(dir, p.to),
        is_child_entry(w, Side::Src, p.src, p.hash, p.twin(dir), e),
        path::is_absolute(at),
        path::components(at) == dir.push(e.name@),
        other is None ==> !p.dst.contains_key(dir.push(e.name@)),
        other is Some ==> is_child_entry(w, Side::Dst, p.dst, p.hash, dir, other->0)
            && other->0.name@ == e.name@,
        forall|j: Key| under(j, path::components(at)) ==> #[trigger] same_at(x, p.dst, j),
        scan::diff_one(w, e, other, at, del).result is Ok,
    ensures
        ({
            let f = scan::diff_one(w, e, other, at, del).result->Ok_0;
            let y = copies_effect(p.src, x, f.copy);
            let c = path::components(at);
            &&& forall|j: Key| !under(j, c) ==> #[trigger] same_at(y, x, j)
            &&& forall|j: Key| under(j, c) ==> #[trigger] p.settled_at(y, j)
            &&& del ==> forall|j: Key| #[trigger]
                deletes_key(f.delete, j) <==> under(j, c) && p.is_extra(j)
        }),
    decreases (w.rank)(Side::Src, e.path@), 5nat, 0nat,
{
    let c = path::components(at);
    let q = path::components(e.path@);
    let r = scan::diff_one(w, e, other, at, del);
    let f = r.result->Ok_0;
    let y = copies_effect(p.src, x, f.copy);
    lemma_under(c, dir, e.name@);
    lemma_under(c, c, Seq::empty());
    lemma_under_trans(c, dir, p.to);
    p.lemma_twin(c, dir);
    assert(q == p.twin(c));
    lemma_under(p.to, p.to, Seq::empty());
    p.lemma_twin(c, p.to);
    assert(under(q, p.from));
    assert(p.src.contains_key(q));
    let copied = other is None || !vfs::same_shape(e.kind, other->0.kind);
    if copied {
        assert(r == scan::full_copy(w, e, at, other));
        scan_laws::lemma_full_deletes_nothing(w, e, at, other);
        if !(other is Some && other->0.kind is Dir) {
            assert forall|j: Key| #[trigger] x.contains_key(j) && under(j, c) implies j == c by {
                assert(same_at(x, p.dst, j));
                if j != c {
                    lemma_leaf(p.dst, c, j);
                }
            }
        }
        lemma_full_copy(p, w, e, at, other, x);
        assert forall|j: Key| under(j, c) implies #[trigger] p.settled_at(y, j) by {
            assert(p.is_copy(y, j));
        }
        assert forall|j: Key| under(j, c) implies !p.is_extra(j) by {
            if p.is_extra(j) {
                if j != c {
                    lemma_leaf(p.dst, c, j);
                    if j.len() == c.len() {
                        assert(j.take(c.len() as int) =~= j);
                    }
                    let n = c.len() as int;
                    assert(j.take(n) == c);
                    assert(p.src.contains_key(p.twin(j.take(n))));
                    assert(p.src[p.twin(j.take(n))] is Dir);
                }
            }
        }
    } else if e.kind is Dir {
        lemma_diff_dir(p, w, e.path@, at, del, x);
        assert forall|j: Key| !under(j, c) implies #[trigger] same_at(y, x, j) by {
        }
        assert forall|j: Key| under(j, c) implies #[trigger] p.settled_at(y, j) by {
            if j == c {
                assert(same_at(y, x, j));
                assert(same_at(x, p.dst, j));
            }
        }
    } else {
        let d = other->0;
        // Neither side has anything below a file or a link.
        assert forall|j: Key| under(j, c) && j != c implies !p.dst.contains_key(j)
            && !p.src.contains_key(#[trigger] p.twin(j)) by {
            if p.dst.contains_key(j) {
                lemma_leaf(p.dst, c, j);
            }
            if p.src.contains_key(p.twin(j)) {
                p.lemma_twin(j, c);
                if j.len() == c.len() {
                    assert(j.take(c.len() as int) =~= j);
                }
                lemma_leaf(p.src, q, p.twin(j));
            }
        }
        let replaces = if e.kind is Symlink {
            Some(d)
        } else {
            None
        };
        let planned = scan::CopyPlanned { src: e.path@, dst: at, meta: e, replaces };
        lemma_copies_one(p.src, x, planned);
        assert(same_at(x, p.dst, c));
        assert(f.copy =~= seq![planned] || (f.copy.len() == 0 && p.counts_as(
            p.src[q],
            p.dst[c],
        )));
        assert(f.delete.len() == 0);
        if f.copy.len() > 0 {
            assert(y == copy_effect(p.src, x, planned));
            assert(y.contains_key(c) && p.counts_as(p.src[q], y[c]));
        }
        assert forall|j: Key| !under(j, c) implies #[trigger] same_at(y, x, j) by {
        }
        assert forall|j: Key| under(j, c) implies #[trigger] p.settled_at(y, j) by {
            assert(same_at(x, p.dst, j));
            if j != c {
                assert(!p.src.contains_key(p.twin(j)));
                assert(!y.contains_key(j));
            }
        }
        assert forall|j: Key| under(j, c) implies !p.is_extra(j) by {
            if j != c {
                assert(!p.src.contains_key(p.twin(j)));
            }
        }
    }
}

/// What the listed entries of the source from `i` on come to.
proof fn lemma_diff_all(
    p: Pair,
    w: scan::World,
    se: Seq<EntryMeta>,
    de: Seq<EntryMeta>,
    dst: Seq<char>,
    del: bool,
    i: int,
    below: nat,
    x: Tree,
)
    requires
        p.is_valid(),
        w.is_finite(),
        shows(w, Side::Src, p.src, p.hash),
        shows(w, Side::Dst, p.dst, p.hash),
        path::is_absolute(dst),
        under(path::components(dst), p.to),
        lists(w, Side::Src, p.src, p.hash, p.twin(path::components(dst)), se),
        lists(w, Side::Dst, p.dst, p.hash, path::components(dst), de),
        forall|m: int|
            0 <= m < se.len() ==> (w.rank)(Side::Src, (#[trigger] se[m]).path@) < below,
        0 <= i <= se.len(),
        forall|j: Key|
            in_child(j, path::components(dst), se, i) ==> #[trigger] same_at(x, p.dst, j),
        scan::diff_all(w, se, de, dst, del, i, below).result is Ok,
    ensures
        ({
            let f = scan::diff_all(w, se, de, dst, del, i, below).result->Ok_0;
            let y = copies_effect(p.src, x, f.copy);
            let k = path::components(dst);
            &&& forall|j: Key| !in_child(j, k, se, i) ==> #[trigger] same_at(y, x, j)
            &&& forall|j: Key| in_child(j, k, se, i) ==> #[trigger] p.settled_at(y, j)
            &&& del ==> forall|j: Key| #[trigger]
                deletes_key(f.delete, j) <==> in_child(j, k, se, i) && p.is_extra(j)
        }),
    decreases below, 0nat, se.len() - i,
{
    let k = path::components(dst);
    let f = scan::diff_all(w, se, de, dst, del, i, below).result->Ok_0;
    let y = copies_effect(p.src, x, f.copy);
    if i < se.len() {
        let e = se[i];
        let other = scan::counterpart(se, de, i);
        let at = path::joined(dst, e.name@);
        let c = k.push(e.name@);
        let first = scan::diff_one(w, e, other, at, del);
        let rest = scan::diff_all(w, se, de, dst, del, i + 1, below);
        path::lemma_join_adds_component(dst, e.name@);
        lemma_counterpart(se, de, i);
        if other is None {
            if p.dst.contains_key(c) {
                assert(named_from(de, 0, e.name@));
            }
        }
        assert forall|j: Key| #[trigger] under(j, c) implies in_child(j, k, se, i) && !in_child(
            j,
            k,
            se,
            i + 1,
        ) by {
            lemma_under(j, k, e.name@);
            assert(se[i].name@ == j[k.len() as int]);
            if in_child(j, k, se, i + 1) {
                let m = choose|m: int|
                    i + 1 <= m < se.len() && (#[trigger] se[m]).name@ == j[k.len() as int];
                assert(se[i].name@ != se[m].name@);
            }
        }
        assert forall|j: Key| #[trigger] in_child(j, k, se, i + 1) implies in_child(j, k, se, i) by {
            let m = choose|m: int|
                i + 1 <= m < se.len() && (#[trigger] se[m]).name@ == j[k.len() as int];
            assert(se[m].name@ == j[k.len() as int]);
        }
        assert forall|j: Key| in_child(j, k, se, i) && !#[trigger] in_child(
            j,
            k,
            se,
            i + 1,
        ) implies under(j, c) by {
            let m = choose|m: int|
                i <= m < se.len() && (#[trigger] se[m]).name@ == j[k.len() as int];
            if m > i {
                assert(se[m].name@ == j[k.len() as int]);
            }
            lemma_under(j, k, e.name@);
        }
        assert forall|j: Key| under(j, path::components(at)) implies #[trigger] same_at(
            x,
            p.dst,
            j,
        ) by {
            assert(under(j, c));
        }
        lemma_diff_one(p, w, k, e, other, at, del, x);
        let x1 = copies_effect(p.src, x, first.result->Ok_0.copy);
        lemma_copies_concat(p.src, x, first.result->Ok_0.copy, rest.result->Ok_0.copy);
        assert forall|j: Key| in_child(j, k, se, i + 1) implies #[trigger] same_at(
            x1,
            p.dst,
            j,
        ) by {
            assert(!under(j, c));
            assert(same_at(x1, x, j));
            assert(same_at(x, p.dst, j));
        }
        lemma_diff_all(p, w, se, de, dst, del, i + 1, below, x1);
        assert forall|j: Key| !in_child(j, k, se, i) implies #[trigger] same_at(y, x, j) by {
            assert(!under(j, c));
            assert(!in_child(j, k, se, i + 1));
            assert(same_at(y, x1, j));
            assert(same_at(x1, x, j));
        }
        assert forall|j: Key| in_child(j, k, se, i) implies #[trigger] p.settled_at(y, j) by {
            if !in_child(j, k, se, i + 1) {
                assert(under(j, c));
                assert(p.settled_at(x1, j));
                assert(same_at(y, x1, j));
            }
        }
        if del {
            assert forall|j: Key| #[trigger] deletes_key(f.delete, j) <==> in_child(j, k, se, i)
                && p.is_extra(j) by {
                lemma_deletes_concat(first.result->Ok_0.delete, rest.result->Ok_0.delete, j);
                assert(deletes_key(first.result->Ok_0.delete, j) <==> under(j, c) && p.is_extra(j));
                assert(in_child(j, k, se, i + 1) || !in_child(j, k, se, i + 1));
            }
        }
    }
}

/// What the sync of a directory that both trees have comes to.
proof fn lemma_diff_dir(
    p: Pair,
    w: scan::World,
    src: Seq<char>,
    dst: Seq<char>,
    del: bool,
    x: Tree,
)
    requires
        p.is_valid(),
        w.is_finite(),
        shows(w, Side::Src, p.src, p.hash),
        shows(w, Side::Dst, p.dst, p.hash),
        path::is_absolute(src),
        path::is_absolute(dst),
        under(path::components(dst), p.to),
        path::components(src) == p.twin(path::components(dst)),
        p.src.contains_key(path::components(src)),
        p.src[path::components(src)] is Dir,
        p.dst.contains_key(path::components(dst)),
        p.dst[path::components(dst)] is Dir,
        forall|j: Key|
            under(j, path::components(dst)) && j != path::components(dst) ==> #[trigger] same_at(
                x,
                p.dst,
                j,
            ),
        scan::diff_dir(w, src, dst, del).result is Ok,
    ensures
        ({
            let f = scan::diff_dir(w, src, dst, del).result->Ok_0;
            let y = copies_effect(p.src, x, f.copy);
            let k = path::components(dst);
            &&& forall|j: Key| !(under(j, k) && j != k) ==> #[trigger] same_at(y, x, j)
            &&& forall|j: Key| under(j, k) && j != k ==> #[trigger] p.settled_at(y, j)
            &&& del ==> forall|j: Key| #[trigger]
                deletes_key(f.delete, j) <==> under(j, k) && j != k && p.is_extra(j)
        }),
    decreases (w.rank)(Side::Src, src), 3nat, 0nat,
{
    let k = path::components(dst);
    let f = scan::diff_dir(w, src, dst, del).result->Ok_0;
    let y = copies_effect(p.src, x, f.copy);
    assert(is_shown_at(w, Side::Src, p.src, p.hash, src));
    assert(is_shown_at(w, Side::Dst, p.dst, p.hash, dst));
    let se = (w.list)(Side::Src, src)->Ok_0;
    let de = (w.list)(Side::Dst, dst)->Ok_0;
    let below = (w.rank)(Side::Src, src);
    let low = (w.rank)(Side::Dst, dst);
    assert forall|i: int| 0 <= i < se.len() implies (w.rank)(Side::Src, (#[trigger] se[i]).path@)
        < below by {
        assert((w.list)(Side::Src, src)->Ok_0[i] == se[i]);
    }
    let compared = scan::diff_all(w, se, de, dst, del, 0, below);
    let left = scan::leftovers(se, de, de.len() as int);
    let removed = if del {
        scan::delete_all(w, Side::Dst, left, low)
    } else {
        scan::nothing()
    };
    assert forall|j: Key| #[trigger] in_child(j, k, se, 0) implies under(j, k) && j != k by {
    }
    lemma_diff_all(p, w, se, de, dst, del, 0, below, x);
    assert forall|i: int| 0 <= i < left.len() implies is_child_entry(
        w,
        Side::Dst,
        p.dst,
        p.hash,
        k,
        #[trigger] left[i],
    ) && (w.rank)(Side::Dst, left[i].path@) < low by {
        scan_laws::lemma_leftovers_are_listed(se, de, de.len() as int, i);
        let m = choose|m: int| 0 <= m < de.len() && de[m] == left[i];
        assert((w.list)(Side::Dst, dst)->Ok_0[m] == left[i]);
    }
    if del {
        lemma_delete_all(w, Side::Dst, p.dst, p.hash, k, left, low, k);
    }
    assert(f.copy =~= compared.result->Ok_0.copy);
    assert(f.delete =~= compared.result->Ok_0.delete + removed.result->Ok_0.delete);
    assert forall|j: Key| !(under(j, k) && j != k) implies #[trigger] same_at(y, x, j) by {
        assert(!in_child(j, k, se, 0));
    }
    assert forall|j: Key| under(j, k) && j != k implies #[trigger] p.settled_at(y, j) by {
        if j.len() == k.len() {
            assert(j.take(k.len() as int) =~= j);
        }
        if !in_child(j, k, se, 0) {
            assert(same_at(y, x, j));
            assert(same_at(x, p.dst, j));
            if p.src.contains_key(p.twin(j)) {
                lemma_unlisted(p, w, k, se, j);
            }
            if p.dst.contains_key(j) {
                lemma_unlisted_is_extra(p, w, k, se, j);
            }
        }
    }
    if del {
        assert forall|j: Key| #[trigger] deletes_key(f.delete, j) <==> under(j, k) && j != k
            && p.is_extra(j) by {
            lemma_deletes_concat(compared.result->Ok_0.delete, removed.result->Ok_0.delete, j);
            lemma_delete_all(w, Side::Dst, p.dst, p.hash, k, left, low, j);
            assert(deletes_key(compared.result->Ok_0.delete, j) <==> in_child(j, k, se, 0)
                && p.is_extra(j));
            if under(j, k) && j != k {
                if j.len() == k.len() {
                    assert(j.take(k.len() as int) =~= j);
                }
                let name = j[k.len() as int];
                lemma_leftovers(se, de, de.len() as int, name);
                if p.dst.contains_key(j) && !in_child(j, k, se, 0) {
                    lemma_unlisted_is_extra(p, w, k, se, j);
                    let n = k.len() as int + 1;
                    assert(j.take(n) =~= k.push(name)) by {
                        assert(j.take(n) =~= j.take(n - 1).push(name));
                    }
                    if n < j.len() {
                        lemma_above(p.dst, j, n);
                    } else {
                        assert(j.take(n) =~= j);
                    }
                    assert(p.dst.contains_key(k.push(name)));
                    assert(named_from(de, 0, name));
                    let m = choose|m: int| 0 <= m < de.len() && (#[trigger] de[m]).name@ == name;
                    assert(de[m].name@ == name);
                    assert(in_child(j, k, left, 0));
                }
            }
        }
    }
}

/// Operations one after the other.
pub proof fn lemma_ops_concat(src: Tree, t: Tree, a: Seq<JobOp>, b: Seq<JobOp>)
    ensures
        ops_effect(src, t, a + b) == ops_effect(src, ops_effect(src, t, a), b),
    decreases b.len(),
{
    if b.len() == 0 {
        assert(a + b =~= a);
    } else {
        lemma_ops_concat(src, t, a, b.drop_last());
        assert((a + b).drop_last() =~= a + b.drop_last());
    }
}

/// A single operation.
pub proof fn lemma_ops_one(src: Tree, t: Tree, op: JobOp)
    ensures
        ops_effect(src, t, seq![op]) == op_effect(src, t, op),
{
    assert(seq![op].drop_last() =~= Seq::<JobOp>::empty());
    reveal_with_fuel(ops_effect, 2);
}

proof fn lemma_copy_ops_effect(src: Tree, t: Tree, item: scan::SyncCopyItem)
    ensures
        ops_effect(src, t, job::copy_ops(item)) == copy_effect(src, t, item.planned()),
{
    let check = seq![JobOp::CheckCancel];
    let clear = job::clear_ops(item);
    let start = seq![JobOp::Start { path: item.dst_path }];
    let create = job::create_ops(item);
    lemma_ops_concat(src, t, check + clear + start, create);
    lemma_ops_concat(src, t, check + clear, start);
    lemma_ops_concat(src, t, check, clear);
    lemma_ops_one(src, t, check[0]);
    let t1 = ops_effect(src, t, clear);
    if item.replace_existing is Some {
        assert(clear =~= seq![clear[0]]);
        lemma_ops_one(src, t, clear[0]);
    }
    lemma_ops_one(src, t1, start[0]);
    let made = create[0];
    lemma_ops_one(src, t1, made);
    if made is Transfer {
        let rest = seq![JobOp::Count, JobOp::Report];
        assert(create =~= seq![made] + rest);
        lemma_ops_concat(src, t1, seq![made], rest);
        let t2 = ops_effect(src, t1, seq![made]);
        assert(rest =~= seq![JobOp::Count] + seq![JobOp::Report]);
        lemma_ops_concat(src, t2, seq![JobOp::Count], seq![JobOp::Report]);
        lemma_ops_one(src, t2, JobOp::Count);
        lemma_ops_one(src, t2, JobOp::Report);
    } else {
        assert(create =~= seq![made]);
    }
}

/// What the operations for copies do is what the copies do.
pub proof fn lemma_all_copy_ops_effect(src: Tree, t: Tree, items: Seq<scan::SyncCopyItem>)
    ensures
        ops_effect(src, t, job::all_copy_ops(items)) == copies_effect(
            src,
            t,
            scan::copies_planned(items),
        ),
    decreases items.len(),
{
    if items.len() > 0 {
        let before = items.drop_last();
        lemma_all_copy_ops_effect(src, t, before);
        lemma_ops_concat(src, t, job::all_copy_ops(before), job::copy_ops(items.last()));
        let t1 = ops_effect(src, t, job::all_copy_ops(before));
        lemma_copy_ops_effect(src, t1, items.last());
        let planned = scan::copies_planned(items);
        assert(planned.drop_last() =~= scan::copies_planned(before));
        assert(planned.last() == items.last().planned());
    }
}

proof fn lemma_all_delete_ops_effect(
    src: Tree,
    t: Tree,
    items: Seq<(path::VfsPath, EntryMeta)>,
)
    ensures
        ops_effect(src, t, job::all_delete_ops(Side::Dst, items)) == deletes_effect(
            t,
            scan::deletes_planned(items),
        ),
    decreases items.len(),
{
    if items.len() > 0 {
        let before = items.drop_last();
        let last = job::delete_ops(Side::Dst, items.last());
        lemma_all_delete_ops_effect(src, t, before);
        lemma_ops_concat(src, t, job::all_delete_ops(Side::Dst, before), last);
        let t1 = ops_effect(src, t, job::all_delete_ops(Side::Dst, before));
        reveal_with_fuel(ops_effect, 6);
        let l4 = last.drop_last();
        let l3 = l4.drop_last();
        let l2 = l3.drop_last();
        let l1 = l2.drop_last();
        assert(l1.drop_last().len() == 0);
        assert(l4.last() == last[3] && l3.last() == last[2] && l2.last() == last[1] && l1.last()
            == last[0]);
        assert(ops_effect(src, t1, last) == t1.remove(path::components(items.last().0@)));
        let planned = scan::deletes_planned(items);
        assert(planned.drop_last() =~= scan::deletes_planned(before));
        assert(planned.last() == (items.last().0@, items.last().1));
    }
}

/// What applying a plan does to the tree of the destination.
proof fn lemma_plan_effect(src: Tree, t: Tree, plan: SyncPlan)
    ensures
        ops_effect(src, t, job::sync_program(plan)) == deletes_effect(
            copies_effect(src, t, scan::copies_planned(plan.copy@)),
            scan::deletes_planned(plan.delete@),
        ),
{
    let report = seq![JobOp::Report];
    let copies = job::all_copy_ops(plan.copy@);
    let deletes = job::all_delete_ops(Side::Dst, plan.delete@);
    lemma_ops_concat(src, t, report + copies, deletes);
    lemma_ops_concat(src, t, report, copies);
    lemma_ops_one(src, t, JobOp::Report);
    lemma_all_copy_ops_effect(src, t, plan.copy@);
    lemma_all_delete_ops_effect(src, ops_effect(src, t, copies), plan.delete@);
}

/// Where the destination has everything that the source has, and if it counts
/// nothing else, a scan calls it unchanged.
proof fn lemma_unchanged(
    p: Pair,
    w: scan::World,
    t: Tree,
    src: Seq<char>,
    dst: Seq<char>,
    del: bool,
)
    requires
        p.is_valid(),
        w.is_finite(),
        shows(w, Side::Src, p.src, p.hash),
        shows(w, Side::Dst, t, p.hash),
        path::is_absolute(src),
        path::is_absolute(dst),
        under(path::components(dst), p.to),
        path::components(src) == p.twin(path::components(dst)),
        p.src.contains_key(path::components(src)),
        p.src[path::components(src)] is Dir,
        t.contains_key(path::components(dst)),
        t[path::components(dst)] is Dir,
        forall|j: Key| under(j, p.to) && j != p.to ==> #[trigger] p.has_copy(t, j),
        del ==> forall|j: Key| under(j, p.to) && j != p.to ==> #[trigger] p.is_copy(t, j),
    ensures
        scan_laws::is_unchanged_dir(w, src, dst, del),
    decreases (w.rank)(Side::Src, src),
{
    let k = path::components(dst);
    assert(is_shown_at(w, Side::Src, p.src, p.hash, src));
    assert(is_shown_at(w, Side::Dst, t, p.hash, dst));
    let se = (w.list)(Side::Src, src)->Ok_0;
    let de = (w.list)(Side::Dst, dst)->Ok_0;
    lemma_under(k, k, Seq::empty());
    lemma_under(p.to, p.to, Seq::empty());
    assert forall|i: int| 0 <= i < se.len() implies {
        let e = #[trigger] (w.list)(Side::Src, src)->Ok_0[i];
        let d = scan::counterpart(se, de, i);
        &&& d is Some
        &&& (w.rank)(Side::Src, e.path@) < (w.rank)(Side::Src, src)
        &&& scan_laws::is_unchanged(w, e, d->0, path::joined(dst, e.name@), del)
    } by {
        let e = se[i];
        let c = k.push(e.name@);
        let at = path::joined(dst, e.name@);
        assert(is_child_entry(w, Side::Src, p.src, p.hash, p.twin(k), e));
        path::lemma_join_adds_component(dst, e.name@);
        lemma_under(c, k, e.name@);
        lemma_under_trans(c, k, p.to);
        p.lemma_twin(c, k);
        p.lemma_twin(c, p.to);
        assert(p.has_copy(t, c));
        lemma_counterpart(se, de, i);
        assert(t.contains_key(k.push(e.name@)));
        let d = scan::counterpart(se, de, i)->0;
        assert(is_child_entry(w, Side::Dst, t, p.hash, k, d));
        if e.kind is Dir {
            lemma_unchanged(p, w, t, e.path@, at, del);
        }
    }
    if del {
        let left = scan::leftovers(se, de, de.len() as int);
        if left.len() > 0 {
            let e = left[0];
            scan_laws::lemma_leftovers_are_listed(se, de, de.len() as int, 0);
            let m = choose|m: int| 0 <= m < de.len() && de[m] == e;
            assert(is_child_entry(w, Side::Dst, t, p.hash, k, de[m]));
            let c = k.push(e.name@);
            lemma_under(c, k, e.name@);
            lemma_under_trans(c, k, p.to);
            p.lemma_twin(c, k);
            assert(p.is_copy(t, c));
            assert(p.src.contains_key(p.twin(k).push(e.name@)));
            lemma_leftovers(se, de, de.len() as int, e.name@);
            assert(left[0].name@ == e.name@);
        }
    }
}

/// A sync does what it is for. Two backends hold two trees and answer truly about
/// them; in the directory to be synced, the source has nothing but directories,
/// files and links whose target can be read. Once the plan that a scan came to
/// has been applied, every operation of it with its effect, the destination has
/// everything that the source has there, and if extraneous things were to be
/// deleted, nothing else.
pub proof fn law_sync_makes_alike(
    p: Pair,
    w: scan::World,
    src: Seq<char>,
    dst: Seq<char>,
    del: bool,
    plan: SyncPlan,
)
    requires
        p.is_valid(),
        w.is_finite(),
        shows(w, Side::Src, p.src, p.hash),
        shows(w, Side::Dst, p.dst, p.hash),
        path::is_absolute(src),
        path::is_absolute(dst),
        path::components(src) == p.from,
        path::components(dst) == p.to,
        scan::diff_dir(w, src, dst, del).result == Ok::<scan::Found, VfsError>(
            scan::Found {
                copy: scan::copies_planned(plan.copy@),
                delete: scan::deletes_planned(plan.delete@),
            },
        ),
    ensures
        ({
            let after = ops_effect(p.src, p.dst, job::sync_program(plan));
            &&& forall|k: Key| under(k, p.to) && k != p.to ==> #[trigger] p.has_copy(after, k)
            &&& del ==> forall|k: Key| under(k, p.to) && k != p.to ==> #[trigger] p.is_copy(
                after,
                k,
            )
            &&& forall|k: Key| !(under(k, p.to) && k != p.to) ==> #[trigger] same_at(
                after,
                p.dst,
                k,
            )
        }),
{
    let f = scan::diff_dir(w, src, dst, del).result->Ok_0;
    let copied = copies_effect(p.src, p.dst, f.copy);
    let after = ops_effect(p.src, p.dst, job::sync_program(plan));
    lemma_plan_effect(p.src, p.dst, plan);
    lemma_under(p.to, p.to, Seq::empty());
    assert(p.twin(p.to) =~= p.from);
    lemma_diff_dir(p, w, src, dst, del, p.dst);
    if !del {
        scan_laws::law_sync_deletes_only_on_request(w, src, dst);
        assert(after == copied);
    }
    assert forall|k: Key| under(k, p.to) && k != p.to implies #[trigger] p.has_copy(after, k) by {
        assert(p.settled_at(copied, k));
        if del {
            lemma_deletes_effect(copied, f.delete, k);
            assert(deletes_key(f.delete, k) ==> p.is_extra(k));
        }
    }
    if del {
        assert forall|k: Key| under(k, p.to) && k != p.to implies #[trigger] p.is_copy(after, k) by {
            assert(p.has_copy(after, k));
            assert(p.settled_at(copied, k));
            lemma_deletes_effect(copied, f.delete, k);
            assert(deletes_key(f.delete, k) <==> p.is_extra(k));
        }
    }
    assert forall|k: Key| !(under(k, p.to) && k != p.to) implies #[trigger] same_at(
        after,
        p.dst,
        k,
    ) by {
        assert(same_at(copied, p.dst, k));
        if del {
            lemma_deletes_effect(copied, f.delete, k);
            assert(!deletes_key(f.delete, k));
        }
    }
}

/// After a sync there is nothing left to sync: once the plan that a scan came to
/// has been applied, a new scan of the same directories, of the source as it was
/// and of the destination as it is then, comes to an empty plan.
pub proof fn law_sync_settles(
    p: Pair,
    before: scan::World,
    after: scan::World,
    src: Seq<char>,
    dst: Seq<char>,
    del: bool,
    plan: SyncPlan,
)
    requires
        p.is_valid(),
        before.is_finite(),
        shows(before, Side::Src, p.src, p.hash),
        shows(before, Side::Dst, p.dst, p.hash),
        path::is_absolute(src),
        path::is_absolute(dst),
        path::components(src) == p.from,
        path::components(dst) == p.to,
        scan::diff_dir(before, src, dst, del).result == Ok::<scan::Found, VfsError>(
            scan::Found {
                copy: scan::copies_planned(plan.copy@),
                delete: scan::deletes_planned(plan.delete@),
            },
        ),
        after.is_finite(),
        shows(after, Side::Src, p.src, p.hash),
        shows(
            after,
            Side::Dst,
            ops_effect(p.src, p.dst, job::sync_program(plan)),
            p.hash,
        ),
    ensures
        scan::diff_dir(after, src, dst, del).result == Ok::<scan::Found, VfsError>(
            scan::Found { copy: Seq::empty(), delete: Seq::empty() },
        ),
{
    law_sync_makes_alike(p, before, src, dst, del, plan);
    let t = ops_effect(p.src, p.dst, job::sync_program(plan));
    lemma_under(p.to, p.to, Seq::empty());
    assert(p.twin(p.to) =~= p.from);
    assert(same_at(t, p.dst, p.to));
    lemma_unchanged(p, after, t, src, dst, del);
    scan_laws::law_sync_leaves_unchanged_alone(after, src, dst, del);
}

/// Whether no two of the copies go to the same place.
pub open spec fn places_differ(copies: Seq<scan::CopyPlanned>) -> bool {
    forall|i: int, j: int|
        0 <= i < j < copies.len() ==> path::components((#[trigger] copies[i]).dst)
            != path::components((#[trigger] copies[j]).dst)
}

spec fn all_under(copies: Seq<scan::CopyPlanned>, top: Key) -> bool {
    forall|i: int|
        0 <= i < copies.len() ==> under(path::components((#[trigger] copies[i]).dst), top)
}

spec fn all_in_children(
    copies: Seq<scan::CopyPlanned>,
    dir: Key,
    entries: Seq<EntryMeta>,
    i: int,
) -> bool {
    forall|n: int|
        0 <= n < copies.len() ==> in_child(
            path::components((#[trigger] copies[n]).dst),
            dir,
            entries,
            i,
        )
}

proof fn lemma_places_concat(a: Seq<scan::CopyPlanned>, b: Seq<scan::CopyPlanned>)
    requires
        places_differ(a),
        places_differ(b),
        forall|i: int, j: int|
            0 <= i < a.len() && 0 <= j < b.len() ==> path::components((#[trigger] a[i]).dst)
                != path::components((#[trigger] b[j]).dst),
    ensures
        places_differ(a + b),
{
    let c = a + b;
    assert forall|i: int, j: int| 0 <= i < j < c.len() implies path::components(
        (#[trigger] c[i]).dst,
    ) != path::components((#[trigger] c[j]).dst) by {
        if j < a.len() {
            assert(a[i] == c[i] && a[j] == c[j]);
        } else if i >= a.len() {
            assert(b[i - a.len()] == c[i] && b[j - a.len()] == c[j]);
        } else {
            assert(a[i] == c[i] && b[j - a.len()] == c[j]);
        }
    }
}

/// The copies of one child and those of later ones go to different places.
proof fn lemma_child_places(
    a: Seq<scan::CopyPlanned>,
    b: Seq<scan::CopyPlanned>,
    dir: Key,
    entries: Seq<EntryMeta>,
    i: int,
)
    requires
        0 <= i < entries.len(),
        names_differ(entries),
        places_differ(a),
        places_differ(b),
        all_under(a, dir.push(entries[i].name@)),
        all_in_children(b, dir, entries, i + 1),
    ensures
        places_differ(a + b),
        all_in_children(a + b, dir, entries, i),
{
    let name = entries[i].name@;
    let c = a + b;
    assert forall|m: int, n: int| 0 <= m < a.len() && 0 <= n < b.len() implies path::components(
        (#[trigger] a[m]).dst,
    ) != path::components((#[trigger] b[n]).dst) by {
        let k = path::components(b[n].dst);
        lemma_under(path::components(a[m].dst), dir, name);
        let at = choose|at: int|
            i + 1 <= at < entries.len() && (#[trigger] entries[at]).name@ == k[dir.len() as int];
        assert(entries[i].name@ != entries[at].name@);
    }
    lemma_places_concat(a, b);
    assert forall|n: int| 0 <= n < c.len() implies in_child(
        path::components((#[trigger] c[n]).dst),
        dir,
        entries,
        i,
    ) by {
        let k = path::components(c[n].dst);
        if n < a.len() {
            assert(a[n] == c[n]);
            lemma_under(k, dir, name);
            assert(entries[i].name@ == k[dir.len() as int]);
        } else {
            assert(b[n - a.len()] == c[n]);
            let at = choose|at: int|
                i + 1 <= at < entries.len() && (#[trigger] entries[at]).name@ == k[dir.len() as int];
            assert(entries[at].name@ == k[dir.len() as int]);
        }
    }
}

proof fn lemma_full_places(
    w: scan::World,
    t: Tree,
    hash: spec_fn(Seq<u8>) -> u64,
    meta: EntryMeta,
    dst: Seq<char>,
    replaces: Option<EntryMeta>,
)
    requires
        shows(w, Side::Src, t, hash),
        path::is_absolute(meta.path@),
        t.contains_key(path::components(meta.path@)),
        is_kind_of(meta.kind, t[path::components(meta.path@)]),
        path::is_absolute(dst),
        scan::full_copy(w, meta, dst, replaces).result is Ok,
    ensures
        places_differ(scan::full_copy(w, meta, dst, replaces).result->Ok_0.copy),
        all_under(
            scan::full_copy(w, meta, dst, replaces).result->Ok_0.copy,
            path::components(dst),
        ),
    decreases (w.rank)(Side::Src, meta.path@), 2nat, 0nat,
{
    let k = path::components(dst);
    let c = scan::CopyPlanned { src: meta.path@, dst, meta, replaces };
    let f = scan::full_copy(w, meta, dst, replaces).result->Ok_0;
    lemma_under(k, k, Seq::empty());
    if meta.kind is Dir {
        assert(is_shown_at(w, Side::Src, t, hash, meta.path@));
        let entries = (w.list)(Side::Src, meta.path@)->Ok_0;
        let below = (w.rank)(Side::Src, meta.path@);
        let rest = scan::full_all(w, entries, dst, below).result->Ok_0.copy;
        lemma_full_all_places(w, t, hash, path::components(meta.path@), entries, dst, below);
        assert(f.copy =~= seq![c] + rest);
        assert forall|i: int, j: int|
            0 <= i < seq![c].len() && 0 <= j < rest.len() implies path::components(
            (#[trigger] seq![c][i]).dst,
        ) != path::components((#[trigger] rest[j]).dst) by {
        }
        lemma_places_concat(seq![c], rest);
        assert forall|i: int| 0 <= i < f.copy.len() implies under(
            path::components((#[trigger] f.copy[i]).dst),
            k,
        ) by {
            if i > 0 {
                assert(rest[i - 1] == f.copy[i]);
            }
        }
    } else {
        assert(f.copy =~= seq![c]);
    }
}

proof fn lemma_full_all_places(
    w: scan::World,
    t: Tree,
    hash: spec_fn(Seq<u8>) -> u64,
    dir: Key,
    entries: Seq<EntryMeta>,
    dst: Seq<char>,
    below: nat,
)
    requires
        shows(w, Side::Src, t, hash),
        forall|i: int|
            0 <= i < entries.len() ==> is_child_entry(
                w,
                Side::Src,
                t,
                hash,
                dir,
                #[trigger] entries[i],
            ),
        names_differ(entries),
        path::is_absolute(dst),
        scan::full_all(w, entries, dst, below).result is Ok,
    ensures
        places_differ(scan::full_all(w, entries, dst, below).result->Ok_0.copy),
        all_in_children(
            scan::full_all(w, entries, dst, below).result->Ok_0.copy,
            path::components(dst),
            entries,
            0,
        ),
    decreases below, 0nat, entries.len(),
{
    let k = path::components(dst);
    if entries.len() > 0 && (w.rank)(Side::Src, entries[0].path@) < below {
        let e = entries[0];
        let rest = entries.skip(1);
        let at = path::joined(dst, e.name@);
        path::lemma_join_adds_component(dst, e.name@);
        assert forall|i: int| 0 <= i < rest.len() implies is_child_entry(
            w,
            Side::Src,
            t,
            hash,
            dir,
            #[trigger] rest[i],
        ) by {
            assert(rest[i] == entries[i + 1]);
        }
        assert(names_differ(rest)) by {
            assert forall|i: int, j: int| 0 <= i < j < rest.len() implies (#[trigger] rest[i]).name@
                != (#[trigger] rest[j]).name@ by {
                assert(rest[i] == entries[i + 1] && rest[j] == entries[j + 1]);
            }
        }
        let a = scan::full_copy(w, e, at, None).result->Ok_0.copy;
        let b = scan::full_all(w, rest, dst, below).result->Ok_0.copy;
        lemma_full_places(w, t, hash, e, at, None);
        lemma_full_all_places(w, t, hash, dir, rest, dst, below);
        assert forall|n: int| 0 <= n < b.len() implies in_child(
            path::components((#[trigger] b[n]).dst),
            k,
            entries,
            1,
        ) by {
            let j = path::components(b[n].dst);
            let m = choose|m: int|
                0 <= m < rest.len() && (#[trigger] rest[m]).name@ == j[k.len() as int];
            assert(entries[m + 1].name@ == j[k.len() as int]);
        }
        lemma_child_places(a, b, k, entries, 0);
    }
}

/// No two copies of a whole sync plan go to the same place, and all of them go
/// below the directory that is synced.
pub proof fn law_sync_places_differ(
    w: scan::World,
    t: Tree,
    hash: spec_fn(Seq<u8>) -> u64,
    src: Seq<char>,
    dst: Seq<char>,
    del: bool,
)
    requires
        shows(w, Side::Src, t, hash),
        path::is_absolute(src),
        t.contains_key(path::components(src)),
        t[path::components(src)] is Dir,
        path::is_absolute(dst),
        scan::diff_dir(w, src, dst, del).result is Ok,
    ensures
        places_differ(scan::diff_dir(w, src, dst, del).result->Ok_0.copy),
        forall|i: int|
            0 <= i < scan::diff_dir(w, src, dst, del).result->Ok_0.copy.len() ==> under(
                path::components(
                    (#[trigger] scan::diff_dir(w, src, dst, del).result->Ok_0.copy[i]).dst,
                ),
                path::components(dst),
            ) && path::components(scan::diff_dir(w, src, dst, del).result->Ok_0.copy[i].dst)
                != path::components(dst),
    decreases (w.rank)(Side::Src, src), 3nat, 0nat,
{
    assert(is_shown_at(w, Side::Src, t, hash, src));
    let se = (w.list)(Side::Src, src)->Ok_0;
    let de = (w.list)(Side::Dst, dst)->Ok_0;
    let below = (w.rank)(Side::Src, src);
    let f = scan::diff_dir(w, src, dst, del).result->Ok_0;
    let compared = scan::diff_all(w, se, de, dst, del, 0, below).result->Ok_0;
    let left = scan::leftovers(se, de, de.len() as int);
    lemma_diff_all_places(w, t, hash, path::components(src), se, de, dst, del, 0, below);
    if del {
        lemma_delete_copies_nothing(w, left, (w.rank)(Side::Dst, dst));
    }
    assert(f.copy =~= compared.copy);
}

proof fn lemma_delete_copies_nothing(w: scan::World, entries: Seq<EntryMeta>, below: nat)
    ensures
        scan::delete_all(w, Side::Dst, entries, below).result matches Ok(f) ==> f.copy.len() == 0,
    decreases below, 0nat, entries.len(),
{
    if entries.len() > 0 && (w.rank)(Side::Dst, entries[0].path@) < below {
        let at = entries[0].path@;
        match (w.list)(Side::Dst, at) {
            Ok(inner) => lemma_delete_copies_nothing(w, inner, (w.rank)(Side::Dst, at)),
            Err(_) => {},
        }
        lemma_delete_copies_nothing(w, entries.skip(1), below);
        let expanded = scan::delete_expand(w, Side::Dst, at);
        assert(expanded.result matches Ok(f) ==> f.copy.len() == 0);
        let first = scan::delete_visit(w, Side::Dst, at);
        assert(first.result matches Ok(f) ==> f.copy.len() == 0);
    }
}

proof fn lemma_diff_all_places(
    w: scan::World,
    t: Tree,
    hash: spec_fn(Seq<u8>) -> u64,
    dir: Key,
    se: Seq<EntryMeta>,
    de: Seq<EntryMeta>,
    dst: Seq<char>,
    del: bool,
    i: int,
    below: nat,
)
    requires
        shows(w, Side::Src, t, hash),
        lists(w, Side::Src, t, hash, dir, se),
        path::is_absolute(dst),
        0 <= i <= se.len(),
        scan::diff_all(w, se, de, dst, del, i, below).result is Ok,
    ensures
        places_differ(scan::diff_all(w, se, de, dst, del, i, below).result->Ok_0.copy),
        all_in_children(
            scan::diff_all(w, se, de, dst, del, i, below).result->Ok_0.copy,
            path::components(dst),
            se,
            i,
        ),
    decreases below, 0nat, se.len() - i,
{
    if i < se.len() && (w.rank)(Side::Src, se[i].path@) < below {
        let e = se[i];
        let k = path::components(dst);
        let other = scan::counterpart(se, de, i);
        let at = path::joined(dst, e.name@);
        let c = k.push(e.name@);
        path::lemma_join_adds_component(dst, e.name@);
        lemma_under(c, c, Seq::empty());
        let one = scan::diff_one(w, e, other, at, del);
        let a = one.result->Ok_0.copy;
        let b = scan::diff_all(w, se, de, dst, del, i + 1, below).result->Ok_0.copy;
        lemma_diff_all_places(w, t, hash, dir, se, de, dst, del, i + 1, below);
        if other is None || !vfs::same_shape(e.kind, other->0.kind) {
            assert(one == scan::full_copy(w, e, at, other));
            lemma_full_places(w, t, hash, e, at, other);
        } else if e.kind is Dir {
            law_sync_places_differ(w, t, hash, e.path@, at, del);
            assert(one == scan::diff_dir(w, e.path@, at, del));
        } else {
            assert(a.len() <= 1);
            assert(a.len() == 1 ==> a[0].dst == at);
        }
        lemma_child_places(a, b, k, se, i);
    }
}

} // verus!
