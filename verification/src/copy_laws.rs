//! What copies, deletions and moves do to whole trees.

use vstd::prelude::*;

use crate::job;
use crate::job::{JobError, JobOp, JobRun, OpResult};
use crate::path;
use crate::path::VfsPath;
use crate::scan;
use crate::scan::Side;
use crate::sync_laws;
use crate::sync_laws::{Key, Node, Pair, Tree};
use crate::vfs::{EntryMeta, VfsError};
use crate::work::{Stage, Work, WorkKind};

verus! {

/// Whether a copy is exactly what was copied: a directory, a file with the same
/// content or a link with the same target.
pub open spec fn is_exact(a: Node, b: Node) -> bool {
    match (a, b) {
        (Node::Dir, Node::Dir) => true,
        (Node::File(x), Node::File(y)) => x == y,
        (Node::Link(Some(x)), Node::Link(Some(y))) => x == y,
        _ => false,
    }
}

/// What a copy leaves at `k`: what the source has at its twin place if that is
/// part of what is copied, and else what was there.
pub open spec fn is_copied_at(p: Pair, before: Tree, after: Tree, top: Key, k: Key) -> bool {
    if sync_laws::under(k, top) && p.src.contains_key(p.twin(k)) {
        after.contains_key(k) && is_exact(p.src[p.twin(k)], after[k])
    } else {
        sync_laws::same_at(after, before, k)
    }
}

/// Whether all that is copied are directories, files and links whose target can
/// be read, in a proper tree that the backend answers truly about.
pub open spec fn can_be_copied(p: Pair, w: scan::World) -> bool {
    &&& sync_laws::is_tree(p.src)
    &&& w.is_finite()
    &&& sync_laws::shows(w, Side::Src, p.src, p.hash)
    &&& forall|k: Key| #[trigger]
        p.src.contains_key(k) && sync_laws::under(k, p.from) ==> !(p.src[k] is Other) && p.src[k]
            != Node::Link(None)
}

proof fn lemma_copy_visit(p: Pair, w: scan::World, src: Seq<char>, dst: Seq<char>, x: Tree)
    requires
        can_be_copied(p, w),
        path::is_absolute(src),
        path::is_absolute(dst),
        sync_laws::under(path::components(dst), p.to),
        path::components(src) == p.twin(path::components(dst)),
        p.src.contains_key(path::components(src)),
        scan::copy_visit(w, src, dst).result is Ok,
    ensures
        forall|j: Key| #[trigger]
            is_copied_at(
                p,
                x,
                sync_laws::copies_effect(p.src, x, scan::copy_visit(w, src, dst).result->Ok_0.copy),
                path::components(dst),
                j,
            ),
    decreases (w.rank)(Side::Src, src), 2nat, 0nat,
{
    let k = path::components(dst);
    let q = path::components(src);
    let f = scan::copy_visit(w, src, dst).result->Ok_0;
    assert(sync_laws::is_shown_at(w, Side::Src, p.src, p.hash, src));
    let meta = (w.stat)(Side::Src, src)->Ok_0;
    let c = scan::CopyPlanned { src, dst, meta, replaces: None };
    let x1 = sync_laws::copy_effect(p.src, x, c);
    let y = sync_laws::copies_effect(p.src, x, f.copy);
    sync_laws::lemma_under(k, k, Seq::empty());
    sync_laws::lemma_under(p.to, p.to, Seq::empty());
    p.lemma_twin(k, p.to);
    assert(sync_laws::under(q, p.from));
    assert(is_exact(p.src[q], x1[k]));
    sync_laws::lemma_copies_one(p.src, x, c);
    if meta.kind is Dir {
        let entries = (w.list)(Side::Src, src)->Ok_0;
        let below = (w.rank)(Side::Src, src);
        assert forall|i: int| 0 <= i < entries.len() implies (w.rank)(
            Side::Src,
            (#[trigger] entries[i]).path@,
        ) < below by {
            assert((w.list)(Side::Src, src)->Ok_0[i] == entries[i]);
        }
        let rest = scan::copy_all(w, entries, dst, below);
        assert(f.copy =~= seq![c] + rest.result->Ok_0.copy);
        sync_laws::lemma_copies_concat(p.src, x, seq![c], rest.result->Ok_0.copy);
        lemma_copy_all(p, w, entries, dst, below, x1);
        assert forall|j: Key| #[trigger] is_copied_at(p, x, y, k, j) by {
            assert(is_copied_in_child(p, x1, y, k, entries, j));
            if j == k {
            } else if sync_laws::under(j, k) && p.src.contains_key(p.twin(j)) {
                if j.len() == k.len() {
                    assert(j.take(k.len() as int) =~= j);
                }
                lemma_listed(p, w, k, entries, j);
            }
        }
    } else {
        assert(f.copy =~= seq![c]);
        assert forall|j: Key| #[trigger] is_copied_at(p, x, y, k, j) by {
            if j != k && sync_laws::under(j, k) && p.src.contains_key(p.twin(j)) {
                p.lemma_twin(j, k);
                if j.len() == k.len() {
                    assert(j.take(k.len() as int) =~= j);
                }
                sync_laws::lemma_leaf(p.src, q, p.twin(j));
            }
        }
    }
}

/// As [`is_copied_at`], for children of a directory.
spec fn is_copied_in_child(
    p: Pair,
    before: Tree,
    after: Tree,
    dir: Key,
    entries: Seq<EntryMeta>,
    k: Key,
) -> bool {
    if sync_laws::in_child(k, dir, entries, 0) && p.src.contains_key(p.twin(k)) {
        after.contains_key(k) && is_exact(p.src[p.twin(k)], after[k])
    } else {
        sync_laws::same_at(after, before, k)
    }
}

proof fn lemma_listed(p: Pair, w: scan::World, dir: Key, entries: Seq<EntryMeta>, k: Key)
    requires
        sync_laws::is_tree(p.src),
        sync_laws::under(dir, p.to),
        sync_laws::lists(w, Side::Src, p.src, p.hash, p.twin(dir), entries),
        sync_laws::under(k, dir),
        k.len() > dir.len(),
        p.src.contains_key(p.twin(k)),
    ensures
        sync_laws::in_child(k, dir, entries, 0),
{
    let name = k[dir.len() as int];
    sync_laws::lemma_under(k, dir, name);
    p.lemma_twin(k, dir);
    let q = p.twin(dir).push(name);
    assert(p.twin(dir.push(name)) == q);
    let n = p.twin(dir).len() as int + 1;
    assert(p.twin(k).take(n) =~= q) by {
        assert(p.twin(k).take(n) =~= p.twin(k).take(n - 1).push(p.twin(k)[n - 1]));
    }
    if n < p.twin(k).len() {
        sync_laws::lemma_above(p.src, p.twin(k), n);
    } else {
        assert(p.twin(k).take(n) =~= p.twin(k));
    }
    assert(p.src.contains_key(p.twin(dir).push(name)));
}

proof fn lemma_copy_all(
    p: Pair,
    w: scan::World,
    entries: Seq<EntryMeta>,
    dst: Seq<char>,
    below: nat,
    x: Tree,
)
    requires
        can_be_copied(p, w),
        path::is_absolute(dst),
        sync_laws::under(path::components(dst), p.to),
        forall|i: int|
            0 <= i < entries.len() ==> sync_laws::is_child_entry(
                w,
                Side::Src,
                p.src,
                p.hash,
                p.twin(path::components(dst)),
                #[trigger] entries[i],
            ),
        forall|i: int|
            0 <= i < entries.len() ==> (w.rank)(Side::Src, (#[trigger] entries[i]).path@) < below,
        sync_laws::names_differ(entries),
        scan::copy_all(w, entries, dst, below).result is Ok,
    ensures
        forall|j: Key| #[trigger]
            is_copied_in_child(
                p,
                x,
                sync_laws::copies_effect(
                    p.src,
                    x,
                    scan::copy_all(w, entries, dst, below).result->Ok_0.copy,
                ),
                path::components(dst),
                entries,
                j,
            ),
    decreases below, 0nat, entries.len(),
{
    let k = path::components(dst);
    let all = scan::copy_all(w, entries, dst, below);
    let y = sync_laws::copies_effect(p.src, x, all.result->Ok_0.copy);
    if entries.len() > 0 {
        let e = entries[0];
        let rest = entries.skip(1);
        let at = path::joined(dst, e.name@);
        let child = k.push(e.name@);
        path::lemma_join_adds_component(dst, e.name@);
        sync_laws::lemma_under(k, k, e.name@);
        p.lemma_twin(child, k);
        sync_laws::lemma_under_trans(child, k, p.to);
        let first = scan::copy_visit(w, e.path@, at);
        let others = scan::copy_all(w, rest, dst, below);
        lemma_copy_visit(p, w, e.path@, at, x);
        let x1 = sync_laws::copies_effect(p.src, x, first.result->Ok_0.copy);
        sync_laws::lemma_copies_concat(
            p.src,
            x,
            first.result->Ok_0.copy,
            others.result->Ok_0.copy,
        );
        assert forall|i: int| 0 <= i < rest.len() implies sync_laws::is_child_entry(
            w,
            Side::Src,
            p.src,
            p.hash,
            p.twin(k),
            #[trigger] rest[i],
        ) && (w.rank)(Side::Src, rest[i].path@) < below by {
            assert(rest[i] == entries[i + 1]);
        }
        assert(sync_laws::names_differ(rest)) by {
            assert forall|i: int, j: int| 0 <= i < j < rest.len() implies (#[trigger] rest[i]).name@
                != (#[trigger] rest[j]).name@ by {
                assert(rest[i] == entries[i + 1] && rest[j] == entries[j + 1]);
            }
        }
        lemma_copy_all(p, w, rest, dst, below, x1);
        assert forall|j: Key| #[trigger] is_copied_in_child(p, x, y, k, entries, j) by {
            assert(is_copied_at(p, x, x1, child, j));
            assert(is_copied_in_child(p, x1, y, k, rest, j));
            sync_laws::lemma_under(j, k, e.name@);
            if sync_laws::in_child(j, k, rest, 0) {
                let name = j[k.len() as int];
                let m = choose|m: int| 0 <= m < rest.len() && (#[trigger] rest[m]).name@ == name;
                assert(entries[m + 1].name@ == name);
                assert(entries[0].name@ != entries[m + 1].name@);
            }
            if sync_laws::in_child(j, k, entries, 0) && !sync_laws::in_child(j, k, rest, 0) {
                let name = j[k.len() as int];
                let m = choose|m: int|
                    0 <= m < entries.len() && (#[trigger] entries[m]).name@ == name;
                if m > 0 {
                    assert(rest[m - 1].name@ == name);
                }
            }
            if sync_laws::under(j, child) {
                assert(entries[0].name@ == j[k.len() as int]);
            }
        }
    }
}

/// The pair of an item and where its copy goes in the directory `dest`.
pub open spec fn item_pair(
    src: Tree,
    hash: spec_fn(Seq<u8>) -> u64,
    item: Seq<char>,
    dest: Seq<char>,
) -> Pair {
    Pair {
        src,
        dst: src,
        hash,
        from: path::components(item),
        to: path::components(dest).push(path::components(item).last()),
    }
}

/// Whether an item can be copied: it has a plain name, is there, and is made of
/// what can be copied.
pub open spec fn is_copyable(
    w: scan::World,
    src: Tree,
    hash: spec_fn(Seq<u8>) -> u64,
    item: Seq<char>,
    dest: Seq<char>,
) -> bool {
    &&& path::is_absolute(item)
    &&& path::components(item).len() > 0
    &&& path::is_plain_name(path::components(item).last())
    &&& src.contains_key(path::components(item))
    &&& can_be_copied(item_pair(src, hash, item, dest), w)
}

/// Whether `k` belongs to the copy of one of the items from `i` on.
pub open spec fn is_in_copies(
    src: Tree,
    hash: spec_fn(Seq<u8>) -> u64,
    items: Seq<Seq<char>>,
    dest: Seq<char>,
    i: int,
    k: Key,
) -> bool {
    exists|n: int|
        {
            let p = item_pair(src, hash, #[trigger] items[n], dest);
            &&& i <= n < items.len()
            &&& sync_laws::under(k, p.to)
            &&& src.contains_key(p.twin(k))
        }
}

/// Whether the tree `y` has at `k` what belongs there as part of an item's copy.
pub open spec fn is_item_copied(
    src: Tree,
    hash: spec_fn(Seq<u8>) -> u64,
    y: Tree,
    item: Seq<char>,
    dest: Seq<char>,
    k: Key,
) -> bool {
    let p = item_pair(src, hash, item, dest);
    sync_laws::under(k, p.to) && src.contains_key(p.twin(k)) ==> y.contains_key(k) && is_exact(
        src[p.twin(k)],
        y[k],
    )
}

/// A copy makes complete copies: each item goes under its own name into the
/// directory, with everything in it, every file with its content and every link
/// with its target. What is not part of a copy stays as it was.
pub proof fn law_copy_copies_trees(
    w: scan::World,
    src: Tree,
    hash: spec_fn(Seq<u8>) -> u64,
    items: Seq<Seq<char>>,
    dest: Seq<char>,
    x: Tree,
)
    requires
        path::is_absolute(dest),
        forall|i: int|
            0 <= i < items.len() ==> is_copyable(w, src, hash, #[trigger] items[i], dest),
        forall|i: int, j: int|
            0 <= i < j < items.len() ==> path::components(#[trigger] items[i]).last()
                != path::components(#[trigger] items[j]).last(),
        scan::copy_items(w, items, dest).result is Ok,
    ensures
        ({
            let y = sync_laws::copies_effect(
                src,
                x,
                scan::copy_items(w, items, dest).result->Ok_0.copy,
            );
            &&& forall|i: int, k: Key|
                0 <= i < items.len() ==> #[trigger] is_item_copied(src, hash, y, items[i], dest, k)
            &&& forall|k: Key|
                !is_in_copies(src, hash, items, dest, 0, k) ==> #[trigger] sync_laws::same_at(y, x, k)
        }),
    decreases items.len(),
{
    let y = sync_laws::copies_effect(src, x, scan::copy_items(w, items, dest).result->Ok_0.copy);
    if items.len() > 0 {
        let item = items[0];
        let rest = items.skip(1);
        let p = item_pair(src, hash, item, dest);
        let name = path::components(item).last();
        let first = scan::copy_item(w, item, dest);
        let others = scan::copy_items(w, rest, dest);
        assert(path::last_name(item) == Some(name));
        path::lemma_join_adds_component(dest, name);
        sync_laws::lemma_under(p.to, p.to, Seq::empty());
        assert(p.twin(p.to) =~= p.from);
        lemma_copy_visit(p, w, item, path::joined(dest, name), x);
        let x1 = sync_laws::copies_effect(src, x, first.result->Ok_0.copy);
        sync_laws::lemma_copies_concat(
            src,
            x,
            first.result->Ok_0.copy,
            others.result->Ok_0.copy,
        );
        assert forall|i: int| 0 <= i < rest.len() implies is_copyable(
            w,
            src,
            hash,
            #[trigger] rest[i],
            dest,
        ) by {
            assert(rest[i] == items[i + 1]);
        }
        assert forall|i: int, j: int| 0 <= i < j < rest.len() implies path::components(
            #[trigger] rest[i],
        ).last() != path::components(#[trigger] rest[j]).last() by {
            assert(rest[i] == items[i + 1] && rest[j] == items[j + 1]);
        }
        law_copy_copies_trees(w, src, hash, rest, dest, x1);
        let d = path::components(dest);
        assert forall|k: Key| sync_laws::under(k, p.to) implies !#[trigger] is_in_copies(
            src,
            hash,
            rest,
            dest,
            0,
            k,
        ) by {
            if is_in_copies(src, hash, rest, dest, 0, k) {
                let n = choose|n: int|
                    {
                        let q = item_pair(src, hash, #[trigger] rest[n], dest);
                        &&& 0 <= n < rest.len()
                        &&& sync_laws::under(k, q.to)
                        &&& src.contains_key(q.twin(k))
                    };
                assert(rest[n] == items[n + 1]);
                sync_laws::lemma_under(k, d, name);
                sync_laws::lemma_under(k, d, path::components(rest[n]).last());
                assert(path::components(items[0]).last() != path::components(items[n + 1]).last());
            }
        }
        assert forall|i: int, k: Key| 0 <= i < items.len() implies #[trigger] is_item_copied(
            src,
            hash,
            y,
            items[i],
            dest,
            k,
        ) by {
            let r = item_pair(src, hash, items[i], dest);
            if sync_laws::under(k, r.to) && src.contains_key(r.twin(k)) {
                if i == 0 {
                    assert(is_copied_at(p, x, x1, p.to, k));
                    assert(!is_in_copies(src, hash, rest, dest, 0, k));
                    assert(sync_laws::same_at(y, x1, k));
                } else {
                    assert(rest[i - 1] == items[i]);
                    assert(is_item_copied(src, hash, y, rest[i - 1], dest, k));
                }
            }
        }
        assert forall|k: Key| !is_in_copies(src, hash, items, dest, 0, k) implies
            #[trigger] sync_laws::same_at(y, x, k) by {
            assert(is_copied_at(p, x, x1, p.to, k));
            if sync_laws::under(k, p.to) && src.contains_key(p.twin(k)) {
                assert(item_pair(src, hash, items[0], dest).twin(k) == p.twin(k));
                assert(is_in_copies(src, hash, items, dest, 0, k));
            }
            if is_in_copies(src, hash, rest, dest, 0, k) {
                let n = choose|n: int|
                    {
                        let q = item_pair(src, hash, #[trigger] rest[n], dest);
                        &&& 0 <= n < rest.len()
                        &&& sync_laws::under(k, q.to)
                        &&& src.contains_key(q.twin(k))
                    };
                assert(rest[n] == items[n + 1]);
                assert(is_in_copies(src, hash, items, dest, 0, k));
            }
            assert(sync_laws::same_at(y, x1, k));
            assert(sync_laws::same_at(x1, x, k));
        }
    }
}

/// What a job's operations remove from the tree of one of the sides.
pub open spec fn left_by(side: Side, t: Tree, ops: Seq<JobOp>) -> Tree
    decreases ops.len(),
{
    if ops.len() == 0 {
        t
    } else {
        let before = left_by(side, t, ops.drop_last());
        match ops.last() {
            JobOp::RemoveFile { side: s, path: p } if s == side => before.remove(
                path::components(p@),
            ),
            JobOp::RemoveDir { side: s, path: p, recursive } if s == side => if recursive {
                sync_laws::without(before, path::components(p@))
            } else {
                before.remove(path::components(p@))
            },
            _ => before,
        }
    }
}

proof fn lemma_left_concat(side: Side, t: Tree, a: Seq<JobOp>, b: Seq<JobOp>)
    ensures
        left_by(side, t, a + b) == left_by(side, left_by(side, t, a), b),
    decreases b.len(),
{
    if b.len() == 0 {
        assert(a + b =~= a);
    } else {
        lemma_left_concat(side, t, a, b.drop_last());
        assert((a + b).drop_last() =~= a + b.drop_last());
    }
}

proof fn lemma_left_by_deletes(
    side: Side,
    t: Tree,
    items: Seq<(VfsPath, EntryMeta)>,
)
    ensures
        left_by(side, t, job::all_delete_ops(side, items)) == sync_laws::deletes_effect(
            t,
            scan::deletes_planned(items),
        ),
    decreases items.len(),
{
    if items.len() > 0 {
        let before = items.drop_last();
        let last = job::delete_ops(side, items.last());
        lemma_left_by_deletes(side, t, before);
        lemma_left_concat(side, t, job::all_delete_ops(side, before), last);
        let t1 = left_by(side, t, job::all_delete_ops(side, before));
        reveal_with_fuel(left_by, 6);
        let l4 = last.drop_last();
        let l3 = l4.drop_last();
        let l2 = l3.drop_last();
        let l1 = l2.drop_last();
        assert(l1.drop_last().len() == 0);
        assert(l4.last() == last[3] && l3.last() == last[2] && l2.last() == last[1] && l1.last()
            == last[0]);
        assert(left_by(side, t1, last) == t1.remove(path::components(items.last().0@)));
        let planned = scan::deletes_planned(items);
        assert(planned.drop_last() =~= scan::deletes_planned(before));
        assert(planned.last() == (items.last().0@, items.last().1));
    }
}

/// Whether `k` is one of the items or in one.
pub open spec fn is_in_items(items: Seq<Seq<char>>, k: Key) -> bool {
    exists|i: int|
        0 <= i < items.len() && sync_laws::under(k, path::components(#[trigger] items[i]))
}

proof fn lemma_delete_items(
    w: scan::World,
    side: Side,
    t: Tree,
    hash: spec_fn(Seq<u8>) -> u64,
    items: Seq<Seq<char>>,
    k: Key,
)
    requires
        sync_laws::is_tree(t),
        w.is_finite(),
        sync_laws::shows(w, side, t, hash),
        forall|i: int|
            0 <= i < items.len() ==> path::is_absolute(#[trigger] items[i]) && t.contains_key(
                path::components(items[i]),
            ),
        scan::delete_items(w, side, items).result is Ok,
    ensures
        sync_laws::deletes_key(scan::delete_items(w, side, items).result->Ok_0.delete, k)
            <==> t.contains_key(k) && is_in_items(items, k),
    decreases items.len(),
{
    if items.len() > 0 {
        let rest = items.skip(1);
        assert forall|i: int| 0 <= i < rest.len() implies path::is_absolute(#[trigger] rest[i])
            && t.contains_key(path::components(rest[i])) by {
            assert(rest[i] == items[i + 1]);
        }
        let first = scan::delete_visit(w, side, items[0]);
        let others = scan::delete_items(w, side, rest);
        assert(path::is_absolute(items[0]));
        sync_laws::lemma_delete_visit(w, side, t, hash, items[0], k);
        lemma_delete_items(w, side, t, hash, rest, k);
        sync_laws::lemma_deletes_concat(
            first.result->Ok_0.delete,
            others.result->Ok_0.delete,
            k,
        );
        if is_in_items(rest, k) {
            let i = choose|i: int|
                0 <= i < rest.len() && sync_laws::under(k, path::components(#[trigger] rest[i]));
            assert(rest[i] == items[i + 1]);
        }
        if is_in_items(items, k) {
            let i = choose|i: int|
                0 <= i < items.len() && sync_laws::under(k, path::components(#[trigger] items[i]));
            if i > 0 {
                assert(rest[i - 1] == items[i]);
            }
        }
    }
}

/// A deletion deletes the items with everything in them, and nothing else.
pub proof fn law_delete_deletes_trees(
    w: scan::World,
    side: Side,
    t: Tree,
    hash: spec_fn(Seq<u8>) -> u64,
    items: Seq<Seq<char>>,
    planned: Seq<(VfsPath, EntryMeta)>,
    k: Key,
)
    requires
        sync_laws::is_tree(t),
        w.is_finite(),
        sync_laws::shows(w, side, t, hash),
        forall|i: int|
            0 <= i < items.len() ==> path::is_absolute(#[trigger] items[i]) && t.contains_key(
                path::components(items[i]),
            ),
        scan::delete_items(w, side, items).result is Ok,
        scan::deletes_planned(planned) == scan::delete_items(w, side, items).result->Ok_0.delete,
    ensures
        ({
            let after = left_by(side, t, job::delete_program(side, planned));
            &&& is_in_items(items, k) ==> !after.contains_key(k)
            &&& !is_in_items(items, k) ==> sync_laws::same_at(after, t, k)
        }),
{
    let report = seq![JobOp::Report];
    lemma_left_concat(side, t, report, job::all_delete_ops(side, planned));
    assert(report.drop_last() =~= Seq::<JobOp>::empty());
    reveal_with_fuel(left_by, 2);
    lemma_left_by_deletes(side, t, planned);
    let deletes = scan::deletes_planned(planned);
    lemma_delete_items(w, side, t, hash, items, k);
    sync_laws::lemma_deletes_effect(t, deletes, k);
}

/// A copy job comes from its scan to a run that makes exactly the copies that the
/// scan has found; and so does the first half of a move between backends.
pub proof fn law_copy_job_makes_its_copies(before: Work, after: Work, src: Tree, x: Tree)
    requires
        before.kind is Copy || before.kind is MoveAcross,
        before.stage is Scan,
        (before.stage->Scan_0)@.failed is None,
        before.advances_to(after),
    ensures
        after.stage is Run,
        sync_laws::ops_effect(src, x, (after.stage->Run_0).ops@) == sync_laws::copies_effect(
            src,
            x,
            (before.stage->Scan_0)@.found.copy,
        ),
        (after.stage->Run_0).progress.files_done == 0,
        (after.stage->Run_0).progress.bytes_done == 0,
{
    let s = before.stage->Scan_0;
    let items = s.copies_found();
    s.law_found();
    let report = seq![JobOp::Report];
    sync_laws::lemma_ops_concat(src, x, report, job::all_copy_ops(items));
    sync_laws::lemma_ops_one(src, x, JobOp::Report);
    sync_laws::lemma_all_copy_ops_effect(src, x, items);
    let ops = job::copy_program(items);
    assert(ops[0] is Report);
}

/// A delete job comes from its scan to a run that removes exactly what the scan
/// has found, where the job deletes: for a plain deletion that is its only
/// backend, for the second half of a move the one that the items came from.
pub proof fn law_delete_job_removes_its_items(before: Work, after: Work, t: Tree)
    requires
        before.kind is Delete || before.kind is DeleteSource,
        before.stage is Scan,
        (before.stage->Scan_0)@.failed is None,
        before.advances_to(after),
    ensures
        after.stage is Run,
        before.kind is Delete ==> left_by(Side::Dst, t, (after.stage->Run_0).ops@)
            == sync_laws::deletes_effect(t, (before.stage->Scan_0)@.found.delete),
        before.kind is DeleteSource ==> left_by(Side::Src, t, (after.stage->Run_0).ops@)
            == sync_laws::deletes_effect(t, (before.stage->Scan_0)@.found.delete),
{
    let s = before.stage->Scan_0;
    let items = s.deletes_found();
    s.law_found();
    let side = if before.kind is Delete {
        Side::Dst
    } else {
        Side::Src
    };
    let report = seq![JobOp::Report];
    lemma_left_concat(side, t, report, job::all_delete_ops(side, items));
    assert(report.drop_last() =~= Seq::<JobOp>::empty());
    reveal_with_fuel(left_by, 2);
    lemma_left_by_deletes(side, t, items);
}

/// A move between backends goes on, once its copy has been made, to delete its
/// own items where they came from; any other job is over when its run is.
pub proof fn law_after_the_run(before: Work, after: Work)
    requires
        before.stage is Run,
        (before.stage->Run_0).ended matches Some(Ok(_)),
        before.advances_to(after),
    ensures
        before.kind matches WorkKind::MoveAcross { items } ==> {
            &&& after.stage is Scan
            &&& after.kind is DeleteSource
            &&& items@.len() > 0 ==> (after.stage->Scan_0)@.pending() == Some(
                scan::Ask::Stat(Side::Src, items@[0]@),
            )
            &&& forall|i: int|
                0 <= i < items@.len() ==> (after.stage->Scan_0)@.todo.contains(
                    scan::Todo::DeleteVisit { side: Side::Src, at: (#[trigger] items@[i])@ },
                )
        },
        !(before.kind is MoveAcross) ==> after.stage matches Stage::Ended(Ok(_)),
{
    if let WorkKind::MoveAcross { items } = before.kind {
        let texts = scan::path_texts(items@);
        let start = scan::delete_start(texts, Side::Src);
        if items@.len() > 0 {
            assert(start.todo.last() == scan::Todo::DeleteVisit { side: Side::Src, at: texts[0] });
            assert(start.is_settled());
            assert forall|i: int| 0 <= i < items@.len() implies start.todo.contains(
                scan::Todo::DeleteVisit { side: Side::Src, at: (#[trigger] items@[i])@ },
            ) by {
                let n = texts.len() - 1 - i;
                assert(start.todo[n] == scan::Todo::DeleteVisit { side: Side::Src, at: texts[i] });
            }
        }
    }
}

/// A job that fails or is cancelled ends with that: in its scan with the error of
/// the question, in its run with the error of the operation, except that a link
/// that could not be made is passed over where the run is not strict.
pub proof fn law_failures_end_jobs(run: JobRun, result: OpResult, after: JobRun, work: Work, end: Work)
    requires
        run.is_valid(),
        run.ended is None,
        run.goes_to(result, after),
    ensures
        result is Cancelled ==> after.ended == Some(Err::<(), JobError>(JobError::Cancelled)),
        result matches OpResult::Failed(e) ==> (run.strict || !(run.ops@[run.at as int]
            is Symlink) ==> after.ended == Some(Err::<(), JobError>(JobError::Vfs(e)))),
        result is Done ==> after.at > run.at && !(after.ended matches Some(Err(_))),
        work.advances_to(end) && work.stage is Run ==> ((work.stage->Run_0).ended matches Some(
            Err(e),
        ) ==> end.stage == Stage::Ended(Err(e))),
        work.advances_to(end) && work.stage is Scan ==> ((work.stage->Scan_0)@.failed matches Some(
            e,
        ) ==> end.stage == Stage::Ended(Err(JobError::Vfs(e)))),
{
    if result is Done {
        lemma_skips_forward(run.ops@, run.at + 1, run.progress);
    }
}

proof fn lemma_skips_forward(ops: Seq<JobOp>, at: int, progress: job::JobProgress)
    requires
        0 <= at,
    ensures
        job::skipped(ops, at, progress).0 >= at,
    decreases ops.len() - at,
{
    if at < ops.len() && job::is_internal(ops[at]) {
        lemma_skips_forward(ops, at + 1, job::counted(progress, ops[at]));
    }
}

/// Every item of a job begins with a look whether the job was cancelled, and
/// every deletion and renaming counts one and is reported.
pub proof fn law_items_can_be_cancelled(
    item: scan::SyncCopyItem,
    side: Side,
    deleted: (VfsPath, EntryMeta),
    pair: (VfsPath, VfsPath),
)
    ensures
        job::copy_ops(item)[0] is CheckCancel,
        job::delete_ops(side, deleted)[0] is CheckCancel,
        job::rename_ops(pair)[0] is CheckCancel,
        job::delete_ops(side, deleted).last() is Report,
        job::rename_ops(pair).last() is Report,
        job::counts_among(job::delete_ops(side, deleted)) == 1,
        job::counts_among(job::rename_ops(pair)) == 1,
{
    reveal_with_fuel(job::counts_among, 6);
}

/// A move within one backend renames each of its pairs, in order and nothing
/// else: its operations that change anything are exactly the renamings.
pub proof fn law_renames(pairs: Seq<(VfsPath, VfsPath)>)
    ensures
        renames_among(job::rename_program(pairs)) == pairs,
        forall|i: int|
            0 <= i < job::rename_program(pairs).len() ==> !(#[trigger] job::rename_program(pairs)[i]
                is RemoveFile) && !(job::rename_program(pairs)[i] is RemoveDir) && !(
            job::rename_program(pairs)[i] is Transfer) && !(job::rename_program(pairs)[i] is Mkdir)
                && !(job::rename_program(pairs)[i] is Symlink),
    decreases pairs.len(),
{
    let ops = job::rename_program(pairs);
    if pairs.len() == 0 {
        assert(ops =~= seq![JobOp::Report]);
        assert(ops.drop_last() =~= Seq::<JobOp>::empty());
        reveal_with_fuel(renames_among, 2);
        assert(pairs =~= Seq::<(VfsPath, VfsPath)>::empty());
    } else {
        let before = pairs.drop_last();
        law_renames(before);
        let b = job::rename_program(before);
        let last = job::rename_ops(pairs.last());
        assert(ops =~= b + last);
        lemma_renames_concat(b, last);
        assert(renames_among(last) =~= seq![pairs.last()]) by {
            reveal_with_fuel(renames_among, 6);
            let l4 = last.drop_last();
            let l3 = l4.drop_last();
            let l2 = l3.drop_last();
            let l1 = l2.drop_last();
            assert(l1.drop_last().len() == 0);
            assert(l4.last() == last[3] && l3.last() == last[2] && l2.last() == last[1]
                && l1.last() == last[0]);
        }
        assert(renames_among(ops) =~= pairs);
        assert forall|i: int| 0 <= i < ops.len() implies !(#[trigger] ops[i] is RemoveFile) && !(
        ops[i] is RemoveDir) && !(ops[i] is Transfer) && !(ops[i] is Mkdir) && !(ops[i]
            is Symlink) by {
            if i < b.len() {
                assert(b[i] == ops[i]);
            } else {
                assert(last[i - b.len()] == ops[i]);
            }
        }
    }
}

/// The renamings among operations, in order.
pub open spec fn renames_among(ops: Seq<JobOp>) -> Seq<(VfsPath, VfsPath)>
    decreases ops.len(),
{
    if ops.len() == 0 {
        Seq::empty()
    } else {
        let before = renames_among(ops.drop_last());
        match ops.last() {
            JobOp::Rename { from, to } => before.push((from, to)),
            _ => before,
        }
    }
}

proof fn lemma_renames_concat(a: Seq<JobOp>, b: Seq<JobOp>)
    ensures
        renames_among(a + b) == renames_among(a) + renames_among(b),
    decreases b.len(),
{
    if b.len() == 0 {
        assert(a + b =~= a);
        assert(renames_among(a) + renames_among(b) =~= renames_among(a));
    } else {
        lemma_renames_concat(a, b.drop_last());
        assert((a + b).drop_last() =~= a + b.drop_last());
        assert(renames_among(a + b) =~= renames_among(a) + renames_among(b));
    }
}

/// A move between backends moves trees: once its copies have been made and its
/// originals deleted, every item is in the directory, with everything in it, and
/// none of it is left where it came from; whatever else was there still is.
pub proof fn law_move_moves_trees(
    w: scan::World,
    src: Tree,
    hash: spec_fn(Seq<u8>) -> u64,
    items: Seq<Seq<char>>,
    dest: Seq<char>,
    x: Tree,
    planned: Seq<(VfsPath, EntryMeta)>,
    i: int,
    k: Key,
)
    requires
        path::is_absolute(dest),
        sync_laws::is_tree(src),
        w.is_finite(),
        sync_laws::shows(w, Side::Src, src, hash),
        forall|n: int|
            0 <= n < items.len() ==> is_copyable(w, src, hash, #[trigger] items[n], dest),
        forall|n: int, m: int|
            0 <= n < m < items.len() ==> path::components(#[trigger] items[n]).last()
                != path::components(#[trigger] items[m]).last(),
        scan::copy_items(w, items, dest).result is Ok,
        scan::delete_items(w, Side::Src, items).result is Ok,
        scan::deletes_planned(planned) == scan::delete_items(
            w,
            Side::Src,
            items,
        ).result->Ok_0.delete,
        0 <= i < items.len(),
    ensures
        ({
            let there = sync_laws::copies_effect(
                src,
                x,
                scan::copy_items(w, items, dest).result->Ok_0.copy,
            );
            let here = left_by(Side::Src, src, job::delete_program(Side::Src, planned));
            &&& is_item_copied(src, hash, there, items[i], dest, k)
            &&& is_in_items(items, k) ==> !here.contains_key(k)
            &&& !is_in_items(items, k) ==> sync_laws::same_at(here, src, k)
            &&& !is_in_copies(src, hash, items, dest, 0, k) ==> sync_laws::same_at(there, x, k)
        }),
{
    law_copy_copies_trees(w, src, hash, items, dest, x);
    assert forall|n: int| 0 <= n < items.len() implies path::is_absolute(#[trigger] items[n])
        && src.contains_key(path::components(items[n])) by {
        assert(is_copyable(w, src, hash, items[n], dest));
    }
    law_delete_deletes_trees(w, Side::Src, src, hash, items, planned, k);
    let there = sync_laws::copies_effect(
        src,
        x,
        scan::copy_items(w, items, dest).result->Ok_0.copy,
    );
    assert(is_item_copied(src, hash, there, items[i], dest, k));
}

} // verus!
