//! What a scan comes to, whatever it is told on the way.

use vstd::prelude::*;

use crate::path;
use crate::scan;
use crate::scan::Side;
use crate::sync_laws;
use crate::vfs;
use crate::vfs::{EntryKind, EntryMeta, FileTime, VfsError};

verus! {

spec fn so_far(found: scan::Found) -> scan::Run {
    scan::Run { asks: Seq::empty(), result: Ok(found) }
}

proof fn lemma_in_order_assoc(a: scan::Run, b: scan::Run, c: scan::Run)
    ensures
        scan::in_order(scan::in_order(a, b), c) == scan::in_order(a, scan::in_order(b, c)),
{
    let left = scan::in_order(scan::in_order(a, b), c);
    let right = scan::in_order(a, scan::in_order(b, c));
    assert(left.asks == right.asks);
    if a.result is Ok && b.result is Ok && c.result is Ok {
        assert(left.result->Ok_0 =~= right.result->Ok_0);
    }
    assert(left =~= right);
}

proof fn lemma_asked_in_order(q: scan::Ask, a: scan::Run, b: scan::Run)
    ensures
        scan::in_order(scan::asked(q, a), b) == scan::asked(q, scan::in_order(a, b)),
{
    assert(scan::in_order(scan::asked(q, a), b) =~~= scan::asked(q, scan::in_order(a, b)));
}

proof fn lemma_so_far_asked(found: scan::Found, q: scan::Ask, a: scan::Run)
    ensures
        scan::in_order(so_far(found), scan::asked(q, a)) == scan::asked(
            q,
            scan::in_order(so_far(found), a),
        ),
{
    assert(scan::in_order(so_far(found), scan::asked(q, a)) =~~= scan::asked(
        q,
        scan::in_order(so_far(found), a),
    ));
}

proof fn lemma_nothing(a: scan::Run)
    ensures
        scan::in_order(scan::nothing(), a) == a,
        scan::in_order(a, scan::nothing()) == a,
{
    assert(scan::in_order(scan::nothing(), a) =~~= a);
    assert(scan::in_order(a, scan::nothing()) =~~= a);
}

proof fn lemma_fails(found: scan::Found, e: VfsError, a: scan::Run)
    ensures
        scan::in_order(so_far(found), scan::in_order(scan::fails(e), a)) == scan::fails(e),
{
    assert(scan::in_order(so_far(found), scan::in_order(scan::fails(e), a)) =~~= scan::fails(e));
}

proof fn lemma_so_far_copies(found: scan::Found, c: scan::CopyPlanned, a: scan::Run)
    ensures
        scan::in_order(so_far(found), scan::in_order(scan::copies(c), a)) == scan::in_order(
            so_far(scan::Found { copy: found.copy.push(c), ..found }),
            a,
        ),
{
    lemma_in_order_assoc(so_far(found), scan::copies(c), a);
    let left = scan::in_order(so_far(found), scan::copies(c));
    let right = so_far(scan::Found { copy: found.copy.push(c), ..found });
    assert(left.asks == right.asks);
    assert(left.result->Ok_0 =~= right.result->Ok_0);
    assert(left =~= right);
}

proof fn lemma_so_far_deletes(found: scan::Found, at: Seq<char>, meta: EntryMeta, a: scan::Run)
    ensures
        scan::in_order(so_far(found), scan::in_order(scan::deletes(at, meta), a))
            == scan::in_order(
            so_far(scan::Found { delete: found.delete.push((at, meta)), ..found }),
            a,
        ),
{
    lemma_in_order_assoc(so_far(found), scan::deletes(at, meta), a);
    let left = scan::in_order(so_far(found), scan::deletes(at, meta));
    let right = so_far(scan::Found { delete: found.delete.push((at, meta)), ..found });
    assert(left.asks == right.asks);
    assert(left.result->Ok_0 =~= right.result->Ok_0);
    assert(left =~= right);
}

proof fn lemma_run_push(w: scan::World, todo: Seq<scan::Todo>, t: scan::Todo, dest: Seq<char>, del: bool)
    ensures
        scan::run_todo(w, todo.push(t), dest, del) == scan::in_order(
            t.run(w, dest, del),
            scan::run_todo(w, todo, dest, del),
        ),
{
    assert(todo.push(t).drop_last() == todo);
}

/// A settled scan that asks nothing more has come to its end.
pub proof fn law_end(w: scan::World, v: scan::ScanView)
    requires
        v.is_settled(),
        v.pending() is None,
    ensures
        v.failed matches Some(e) ==> v.run(w) == scan::fails(e),
        v.failed is None ==> v.run(w) == (scan::Run {
            asks: Seq::empty(),
            result: Ok::<scan::Found, VfsError>(v.found),
        }),
{
    if v.failed is None {
        lemma_nothing(so_far(v.found));
    }
}

proof fn lemma_agrees_sub(w: scan::World, v: scan::ScanView, u: scan::ScanView)
    requires
        v.agrees_with(w),
        u.todo.len() <= v.todo.len() + 1,
        forall|i: int| 0 <= i < u.todo.len() - 1 ==> u.todo[i] == v.todo[i],
        u.todo.len() > 0 ==> (u.todo.last() !is DiffDst || (u.todo.len() <= v.todo.len()
            && u.todo.last() == v.todo[u.todo.len() - 1])),
        u.todo.len() == v.todo.len() + 1 ==> u.todo[u.todo.len() - 2] == v.todo.last(),
    ensures
        u.agrees_with(w),
{
    assert forall|i: int| 0 <= i < u.todo.len() implies (#[trigger] u.todo[i] matches
        scan::Todo::DiffDst { src, entries, .. } ==> (w.list)(Side::Src, src) == Ok::<
        Seq<EntryMeta>,
        VfsError,
    >(entries)) by {
        if i < u.todo.len() - 1 {
            assert(u.todo[i] == v.todo[i]);
        } else {
            assert(u.todo[i] == u.todo.last());
        }
    }
}

proof fn lemma_settle_full(
    w: scan::World,
    v: scan::ScanView,
    meta: EntryMeta,
    dst: Seq<char>,
    replaces: Option<EntryMeta>,
)
    requires
        v.failed is None,
        v.todo.len() > 0,
        v.agrees_with(w),
        v.todo.last().run(w, v.dest, v.delete_extraneous) == scan::full_copy(w, meta, dst, replaces),
    ensures
        scan::settle_full(v, meta, dst, replaces).run(w) == v.run(w),
        scan::settle_full(v, meta, dst, replaces).agrees_with(w),
{
    let rest = v.todo.drop_last();
    let others = scan::run_todo(w, rest, v.dest, v.delete_extraneous);
    let c = scan::copy_of(meta, dst, replaces);
    let u = scan::settle_full(v, meta, dst, replaces);
    let more = if meta.kind is Dir {
        scan::full_expand(w, meta.path@, dst)
    } else {
        scan::nothing()
    };
    lemma_in_order_assoc(scan::copies(c), more, others);
    lemma_so_far_copies(v.found, c, scan::in_order(more, others));
    if meta.kind is Dir {
        lemma_run_push(
            w,
            rest,
            scan::Todo::FullExpand { src: meta.path@, dst },
            v.dest,
            v.delete_extraneous,
        );
    } else {
        lemma_nothing(others);
    }
    lemma_agrees_sub(w, v, u);
}

proof fn lemma_pop_keeps_run(w: scan::World, v: scan::ScanView)
    requires
        v.failed is None,
        v.todo.len() > 0,
        v.agrees_with(w),
        v.todo.last().run(w, v.dest, v.delete_extraneous) == scan::nothing(),
    ensures
        v.popped().run(w) == v.run(w),
        v.popped().agrees_with(w),
{
    lemma_nothing(scan::run_todo(w, v.todo.drop_last(), v.dest, v.delete_extraneous));
    lemma_agrees_sub(w, v, v.popped());
}

proof fn lemma_copy_keeps_run(w: scan::World, v: scan::ScanView, c: scan::CopyPlanned)
    requires
        v.failed is None,
        v.todo.len() > 0,
        v.agrees_with(w),
        v.todo.last().run(w, v.dest, v.delete_extraneous) == scan::copies(c),
    ensures
        v.with_copy(c).popped().run(w) == v.run(w),
        v.with_copy(c).popped().agrees_with(w),
{
    let others = scan::run_todo(w, v.todo.drop_last(), v.dest, v.delete_extraneous);
    lemma_so_far_copies(v.found, c, others);
    lemma_agrees_sub(w, v, v.with_copy(c).popped());
}

proof fn lemma_replace_keeps_run(w: scan::World, v: scan::ScanView, t: scan::Todo)
    requires
        v.failed is None,
        v.todo.len() > 0,
        v.agrees_with(w),
        t !is DiffDst,
        v.todo.last().run(w, v.dest, v.delete_extraneous) == t.run(w, v.dest, v.delete_extraneous),
    ensures
        v.replaced(t).run(w) == v.run(w),
        v.replaced(t).agrees_with(w),
{
    lemma_run_push(w, v.todo.drop_last(), t, v.dest, v.delete_extraneous);
    lemma_agrees_sub(w, v, v.replaced(t));
}

proof fn lemma_settle_step(w: scan::World, v: scan::ScanView)
    requires
        !v.is_settled(),
        v.agrees_with(w),
    ensures
        scan::settle_step(v).run(w) == v.run(w),
        scan::settle_step(v).agrees_with(w),
        scan::settle_step(v).todo.len() <= v.todo.len(),
        scan::settle_step(v).todo.len() == v.todo.len() ==> scan::settle_step(v).is_settled(),
{
    let rest = v.todo.drop_last();
    let others = scan::run_todo(w, rest, v.dest, v.delete_extraneous);
    match v.todo.last() {
        scan::Todo::CopyTop { item } => {
            match path::last_name(item) {
                None => {
                    lemma_fails(v.found, scan::no_name(), others);
                },
                Some(name) => {
                    lemma_replace_keeps_run(
                        w,
                        v,
                        scan::Todo::CopyVisit { src: item, dst: path::joined(v.dest, name) },
                    );
                },
            }
        },
        scan::Todo::DeleteEmit { at, meta } => {
            lemma_so_far_deletes(v.found, at, meta, others);
            lemma_agrees_sub(w, v, v.with_delete(at, meta).popped());
        },
        scan::Todo::Entry { src, dst, dst_path } => {
            match dst {
                None => {
                    lemma_settle_full(w, v, src, dst_path, None);
                },
                Some(d) => {
                    if !vfs::same_shape(src.kind, d.kind) {
                        lemma_settle_full(w, v, src, dst_path, Some(d));
                    } else {
                        match src.kind {
                            EntryKind::Dir => {
                                lemma_replace_keeps_run(
                                    w,
                                    v,
                                    scan::Todo::DiffDir { src: src.path@, dst: dst_path },
                                );
                            },
                            EntryKind::Symlink { .. } => {
                                if !vfs::same_kind(src.kind, d.kind) {
                                    lemma_copy_keeps_run(
                                        w,
                                        v,
                                        scan::copy_of(src, dst_path, Some(d)),
                                    );
                                } else {
                                    lemma_pop_keeps_run(w, v);
                                }
                            },
                            EntryKind::File => {
                                if src.size != d.size {
                                    lemma_copy_keeps_run(w, v, scan::copy_of(src, dst_path, None));
                                } else {
                                    lemma_replace_keeps_run(
                                        w,
                                        v,
                                        scan::Todo::HashSrc { src, dst: d, dst_path },
                                    );
                                }
                            },
                            EntryKind::Other => {
                                lemma_pop_keeps_run(w, v);
                            },
                        }
                    }
                },
            }
        },
        _ => {},
    }
}

/// What a scan can do without an answer changes nothing about what it comes to.
pub proof fn law_settle(w: scan::World, v: scan::ScanView)
    requires
        v.agrees_with(w),
    ensures
        scan::settled(v).is_settled(),
        scan::settled(v).agrees_with(w),
        scan::settled(v).run(w) == v.run(w),
    decreases v.todo.len(),
{
    if !v.is_settled() {
        lemma_settle_step(w, v);
        let next = scan::settle_step(v);
        if next.todo.len() < v.todo.len() {
            law_settle(w, next);
        }
    }
}

proof fn lemma_answer_fails(w: scan::World, v: scan::ScanView, q: scan::Ask, e: VfsError)
    requires
        v.failed is None,
        v.todo.len() > 0,
        v.todo.last().run(w, v.dest, v.delete_extraneous) == scan::asked(q, scan::fails(e)),
    ensures
        v.run(w) == scan::asked(q, v.failing(e).run(w)),
{
    let others = scan::run_todo(w, v.todo.drop_last(), v.dest, v.delete_extraneous);
    lemma_asked_in_order(q, scan::fails(e), others);
    lemma_so_far_asked(v.found, q, scan::in_order(scan::fails(e), others));
    lemma_fails(v.found, e, others);
}

/// Being told what a path is takes the scan one question further and changes
/// nothing about what it comes to.
pub proof fn law_stat(w: scan::World, v: scan::ScanView, side: Side, at: Seq<char>)
    requires
        v.agrees_with(w),
        v.pending() == Some(scan::Ask::Stat(side, at)),
    ensures
        scan::after_stat(v, (w.stat)(side, at)).is_settled(),
        scan::after_stat(v, (w.stat)(side, at)).agrees_with(w),
        v.run(w) == scan::asked(
            scan::Ask::Stat(side, at),
            scan::after_stat(v, (w.stat)(side, at)).run(w),
        ),
{
    let q = scan::Ask::Stat(side, at);
    let rest = v.todo.drop_last();
    let others = scan::run_todo(w, rest, v.dest, v.delete_extraneous);
    match (w.stat)(side, at) {
        Err(e) => {
            lemma_answer_fails(w, v, q, e);
        },
        Ok(meta) => {
            match v.todo.last() {
                scan::Todo::CopyVisit { src, dst } => {
                    let c = scan::CopyPlanned { src, dst, meta, replaces: None };
                    let more = if meta.kind is Dir {
                        scan::copy_expand(w, src, dst)
                    } else {
                        scan::nothing()
                    };
                    let u = if meta.kind is Dir {
                        v.with_copy(c).replaced(scan::Todo::CopyExpand { src, dst })
                    } else {
                        v.with_copy(c).popped()
                    };
                    lemma_asked_in_order(q, scan::in_order(scan::copies(c), more), others);
                    lemma_in_order_assoc(scan::copies(c), more, others);
                    lemma_so_far_asked(
                        v.found,
                        q,
                        scan::in_order(scan::copies(c), scan::in_order(more, others)),
                    );
                    lemma_so_far_copies(v.found, c, scan::in_order(more, others));
                    if meta.kind is Dir {
                        lemma_run_push(
                            w,
                            rest,
                            scan::Todo::CopyExpand { src, dst },
                            v.dest,
                            v.delete_extraneous,
                        );
                    } else {
                        lemma_nothing(others);
                    }
                    assert(v.run(w) == scan::asked(q, u.run(w)));
                    lemma_agrees_sub(w, v, u);
                    law_settle(w, u);
                },
                scan::Todo::DeleteVisit { side: place, at: p } => {
                    let emit = scan::Todo::DeleteEmit { at: p, meta };
                    let d = scan::deletes(p, meta);
                    let more = if meta.kind is Dir {
                        scan::delete_expand(w, place, p)
                    } else {
                        scan::nothing()
                    };
                    let u = if meta.kind is Dir {
                        scan::ScanView {
                            todo: rest.push(emit).push(scan::Todo::DeleteExpand { side: place, at: p }),
                            ..v
                        }
                    } else {
                        v.with_delete(p, meta).popped()
                    };
                    lemma_asked_in_order(q, scan::in_order(more, d), others);
                    lemma_in_order_assoc(more, d, others);
                    lemma_so_far_asked(v.found, q, scan::in_order(more, scan::in_order(d, others)));
                    if meta.kind is Dir {
                        lemma_run_push(w, rest, emit, v.dest, v.delete_extraneous);
                        lemma_run_push(
                            w,
                            rest.push(emit),
                            scan::Todo::DeleteExpand { side: place, at: p },
                            v.dest,
                            v.delete_extraneous,
                        );
                        assert forall|i: int| 0 <= i < u.todo.len() implies (
                        #[trigger] u.todo[i] matches scan::Todo::DiffDst { src, entries, .. } ==> (
                        w.list)(Side::Src, src) == Ok::<Seq<EntryMeta>, VfsError>(entries)) by {
                            if i < rest.len() {
                                assert(u.todo[i] == v.todo[i]);
                            }
                        }
                    } else {
                        lemma_nothing(scan::in_order(d, others));
                        lemma_so_far_deletes(v.found, p, meta, others);
                        lemma_agrees_sub(w, v, u);
                    }
                    assert(v.run(w) == scan::asked(q, u.run(w)));
                    law_settle(w, u);
                },
                _ => {},
            }
        },
    }
}

/// Being told a file's hash takes the scan one question further and changes
/// nothing about what it comes to.
pub proof fn law_hash(w: scan::World, v: scan::ScanView, side: Side, at: Seq<char>)
    requires
        v.agrees_with(w),
        v.pending() == Some(scan::Ask::Hash(side, at)),
    ensures
        scan::after_hash(v, (w.hash)(side, at)).is_settled(),
        scan::after_hash(v, (w.hash)(side, at)).agrees_with(w),
        v.run(w) == scan::asked(
            scan::Ask::Hash(side, at),
            scan::after_hash(v, (w.hash)(side, at)).run(w),
        ),
{
    let q = scan::Ask::Hash(side, at);
    let rest = v.todo.drop_last();
    let others = scan::run_todo(w, rest, v.dest, v.delete_extraneous);
    match (w.hash)(side, at) {
        Err(e) => {
            lemma_answer_fails(w, v, q, e);
        },
        Ok(hash) => {
            match v.todo.last() {
                scan::Todo::HashSrc { src, dst, dst_path } => {
                    let t = scan::Todo::HashDst { src, dst, dst_path, src_hash: hash };
                    let next = scan::file_after_src_hash(w, src, dst, dst_path, hash);
                    lemma_asked_in_order(q, next, others);
                    lemma_so_far_asked(v.found, q, scan::in_order(next, others));
                    lemma_run_push(w, rest, t, v.dest, v.delete_extraneous);
                    lemma_agrees_sub(w, v, v.replaced(t));
                },
                scan::Todo::HashDst { src, dst, dst_path, src_hash } => {
                    let c = scan::copy_of(src, dst_path, None);
                    let next = scan::file_after_hashes(src, dst, dst_path, src_hash, hash);
                    lemma_asked_in_order(q, next, others);
                    lemma_so_far_asked(v.found, q, scan::in_order(next, others));
                    let u = if scan::hash_or_time_changed(
                        src_hash,
                        hash,
                        src.modified,
                        dst.modified,
                    ) {
                        lemma_so_far_copies(v.found, c, others);
                        v.with_copy(c).popped()
                    } else {
                        lemma_nothing(others);
                        v.popped()
                    };
                    assert(v.run(w) == scan::asked(q, u.run(w)));
                    lemma_agrees_sub(w, v, u);
                    law_settle(w, u);
                },
                _ => {},
            }
        },
    }
}

proof fn lemma_copy_children(
    w: scan::World,
    base: Seq<scan::Todo>,
    entries: Seq<EntryMeta>,
    dst: Seq<char>,
    below: nat,
    dest: Seq<char>,
    del: bool,
)
    requires
        forall|i: int|
            0 <= i < entries.len() ==> (w.rank)(Side::Src, (#[trigger] entries[i]).path@) < below,
    ensures
        scan::run_todo(w, base + scan::copy_tasks(entries, dst), dest, del) == scan::in_order(
            scan::copy_all(w, entries, dst, below),
            scan::run_todo(w, base, dest, del),
        ),
    decreases entries.len(),
{
    let tasks = scan::copy_tasks(entries, dst);
    if entries.len() == 0 {
        assert(base + tasks == base);
        lemma_nothing(scan::run_todo(w, base, dest, del));
    } else {
        let rest = entries.skip(1);
        assert forall|i: int| 0 <= i < rest.len() implies (w.rank)(
            Side::Src,
            (#[trigger] rest[i]).path@,
        ) < below by {
            assert(rest[i] == entries[i + 1]);
        }
        lemma_copy_children(w, base, rest, dst, below, dest, del);
        let e = entries[0];
        let t = scan::Todo::CopyVisit { src: e.path@, dst: path::joined(dst, e.name@) };
        assert(base + tasks =~= (base + scan::copy_tasks(rest, dst)).push(t));
        lemma_run_push(w, base + scan::copy_tasks(rest, dst), t, dest, del);
        lemma_in_order_assoc(
            t.run(w, dest, del),
            scan::copy_all(w, rest, dst, below),
            scan::run_todo(w, base, dest, del),
        );
    }
}

proof fn lemma_full_children(
    w: scan::World,
    base: Seq<scan::Todo>,
    entries: Seq<EntryMeta>,
    dst: Seq<char>,
    below: nat,
    dest: Seq<char>,
    del: bool,
)
    requires
        forall|i: int|
            0 <= i < entries.len() ==> (w.rank)(Side::Src, (#[trigger] entries[i]).path@) < below,
    ensures
        scan::run_todo(w, base + scan::full_tasks(entries, dst), dest, del) == scan::in_order(
            scan::full_all(w, entries, dst, below),
            scan::run_todo(w, base, dest, del),
        ),
    decreases entries.len(),
{
    let tasks = scan::full_tasks(entries, dst);
    if entries.len() == 0 {
        assert(base + tasks == base);
        lemma_nothing(scan::run_todo(w, base, dest, del));
    } else {
        let rest = entries.skip(1);
        assert forall|i: int| 0 <= i < rest.len() implies (w.rank)(
            Side::Src,
            (#[trigger] rest[i]).path@,
        ) < below by {
            assert(rest[i] == entries[i + 1]);
        }
        lemma_full_children(w, base, rest, dst, below, dest, del);
        let e = entries[0];
        let t = scan::Todo::Entry { src: e, dst: None, dst_path: path::joined(dst, e.name@) };
        assert(base + tasks =~= (base + scan::full_tasks(rest, dst)).push(t));
        lemma_run_push(w, base + scan::full_tasks(rest, dst), t, dest, del);
        lemma_in_order_assoc(
            t.run(w, dest, del),
            scan::full_all(w, rest, dst, below),
            scan::run_todo(w, base, dest, del),
        );
    }
}

proof fn lemma_delete_children(
    w: scan::World,
    side: Side,
    base: Seq<scan::Todo>,
    entries: Seq<EntryMeta>,
    below: nat,
    dest: Seq<char>,
    del: bool,
)
    requires
        forall|i: int|
            0 <= i < entries.len() ==> (w.rank)(side, (#[trigger] entries[i]).path@) < below,
    ensures
        scan::run_todo(w, base + scan::delete_tasks(entries, side), dest, del) == scan::in_order(
            scan::delete_all(w, side, entries, below),
            scan::run_todo(w, base, dest, del),
        ),
    decreases entries.len(),
{
    let tasks = scan::delete_tasks(entries, side);
    if entries.len() == 0 {
        assert(base + tasks == base);
        lemma_nothing(scan::run_todo(w, base, dest, del));
    } else {
        let rest = entries.skip(1);
        assert forall|i: int| 0 <= i < rest.len() implies (w.rank)(
            side,
            (#[trigger] rest[i]).path@,
        ) < below by {
            assert(rest[i] == entries[i + 1]);
        }
        lemma_delete_children(w, side, base, rest, below, dest, del);
        let t = scan::Todo::DeleteVisit { side, at: entries[0].path@ };
        assert(base + tasks =~= (base + scan::delete_tasks(rest, side)).push(t));
        lemma_run_push(w, base + scan::delete_tasks(rest, side), t, dest, del);
        lemma_in_order_assoc(
            t.run(w, dest, del),
            scan::delete_all(w, side, rest, below),
            scan::run_todo(w, base, dest, del),
        );
    }
}

proof fn lemma_diff_children(
    w: scan::World,
    base: Seq<scan::Todo>,
    src: Seq<EntryMeta>,
    dst: Seq<EntryMeta>,
    dst_dir: Seq<char>,
    i: int,
    below: nat,
    dest: Seq<char>,
    del: bool,
)
    requires
        0 <= i <= src.len(),
        forall|k: int|
            0 <= k < src.len() ==> (w.rank)(Side::Src, (#[trigger] src[k]).path@) < below,
    ensures
        scan::run_todo(
            w,
            base + scan::diff_tasks(src, dst, dst_dir).take(src.len() - i),
            dest,
            del,
        ) == scan::in_order(
            scan::diff_all(w, src, dst, dst_dir, del, i, below),
            scan::run_todo(w, base, dest, del),
        ),
    decreases src.len() - i,
{
    let tasks = scan::diff_tasks(src, dst, dst_dir);
    if i == src.len() {
        assert(base + tasks.take(0) == base);
        lemma_nothing(scan::run_todo(w, base, dest, del));
    } else {
        lemma_diff_children(w, base, src, dst, dst_dir, i + 1, below, dest, del);
        let t = scan::Todo::Entry {
            src: src[i],
            dst: scan::counterpart(src, dst, i),
            dst_path: path::joined(dst_dir, src[i].name@),
        };
        let fewer = base + tasks.take(src.len() - i - 1);
        assert(base + tasks.take(src.len() - i) =~= fewer.push(t));
        lemma_run_push(w, fewer, t, dest, del);
        lemma_in_order_assoc(
            t.run(w, dest, del),
            scan::diff_all(w, src, dst, dst_dir, del, i + 1, below),
            scan::run_todo(w, base, dest, del),
        );
    }
}

/// What has no counterpart was listed.
pub proof fn lemma_leftovers_are_listed(src: Seq<EntryMeta>, dst: Seq<EntryMeta>, n: int, k: int)
    requires
        n <= dst.len(),
        0 <= k < scan::leftovers(src, dst, n).len(),
    ensures
        dst.contains(scan::leftovers(src, dst, n)[k]),
    decreases n,
{
    let before = scan::leftovers(src, dst, n - 1);
    if scan::is_leftover(src, dst, n - 1) && k == before.len() {
        assert(scan::leftovers(src, dst, n)[k] == dst[n - 1]);
    } else {
        lemma_leftovers_are_listed(src, dst, n - 1, k);
    }
}

proof fn lemma_agrees_more(w: scan::World, v: scan::ScanView, u: scan::ScanView, more: Seq<scan::Todo>)
    requires
        v.agrees_with(w),
        v.todo.len() > 0,
        u.todo == v.todo.drop_last() + more,
        forall|i: int| 0 <= i < more.len() ==> #[trigger] more[i] !is DiffDst,
    ensures
        u.agrees_with(w),
{
    assert forall|i: int| 0 <= i < u.todo.len() implies (#[trigger] u.todo[i] matches
        scan::Todo::DiffDst { src, entries, .. } ==> (w.list)(Side::Src, src) == Ok::<
        Seq<EntryMeta>,
        VfsError,
    >(entries)) by {
        if i < v.todo.len() - 1 {
            assert(u.todo[i] == v.todo[i]);
        } else {
            assert(u.todo[i] == more[i - (v.todo.len() - 1)]);
        }
    }
}

/// Being told what a directory holds takes the scan one question further and
/// changes nothing about what it comes to.
pub proof fn law_list(w: scan::World, v: scan::ScanView, side: Side, at: Seq<char>)
    requires
        w.is_finite(),
        v.agrees_with(w),
        v.pending() == Some(scan::Ask::List(side, at)),
    ensures
        scan::after_list(v, (w.list)(side, at)).is_settled(),
        scan::after_list(v, (w.list)(side, at)).agrees_with(w),
        v.run(w) == scan::asked(
            scan::Ask::List(side, at),
            scan::after_list(v, (w.list)(side, at)).run(w),
        ),
{
    let q = scan::Ask::List(side, at);
    let rest = v.todo.drop_last();
    let others = scan::run_todo(w, rest, v.dest, v.delete_extraneous);
    match (w.list)(side, at) {
        Err(e) => {
            lemma_answer_fails(w, v, q, e);
        },
        Ok(entries) => {
            let below = (w.rank)(side, at);
            assert forall|i: int| 0 <= i < entries.len() implies (w.rank)(
                side,
                (#[trigger] entries[i]).path@,
            ) < below by {
                assert((w.list)(side, at)->Ok_0[i] == entries[i]);
            }
            match v.todo.last() {
                scan::Todo::CopyExpand { src, dst } => {
                    let more = scan::copy_tasks(entries, dst);
                    let u = scan::ScanView { todo: rest + more, ..v };
                    let next = scan::copy_all(w, entries, dst, below);
                    lemma_copy_children(w, rest, entries, dst, below, v.dest, v.delete_extraneous);
                    lemma_asked_in_order(q, next, others);
                    lemma_so_far_asked(v.found, q, scan::in_order(next, others));
                    lemma_agrees_more(w, v, u, more);
                    law_settle(w, u);
                },
                scan::Todo::DeleteExpand { side: place, at: p } => {
                    let more = scan::delete_tasks(entries, place);
                    let u = scan::ScanView { todo: rest + more, ..v };
                    let next = scan::delete_all(w, place, entries, below);
                    lemma_delete_children(w, place, rest, entries, below, v.dest, v.delete_extraneous);
                    lemma_asked_in_order(q, next, others);
                    lemma_so_far_asked(v.found, q, scan::in_order(next, others));
                    lemma_agrees_more(w, v, u, more);
                    law_settle(w, u);
                },
                scan::Todo::FullExpand { src, dst } => {
                    let more = scan::full_tasks(entries, dst);
                    let u = scan::ScanView { todo: rest + more, ..v };
                    let next = scan::full_all(w, entries, dst, below);
                    lemma_full_children(w, rest, entries, dst, below, v.dest, v.delete_extraneous);
                    lemma_asked_in_order(q, next, others);
                    lemma_so_far_asked(v.found, q, scan::in_order(next, others));
                    lemma_agrees_more(w, v, u, more);
                    law_settle(w, u);
                },
                scan::Todo::DiffDir { src, dst } => {
                    let t = scan::Todo::DiffDst { src, entries, dst };
                    let u = v.replaced(t);
                    let next = scan::diff_after_src(w, src, entries, dst, v.delete_extraneous);
                    lemma_asked_in_order(q, next, others);
                    lemma_so_far_asked(v.found, q, scan::in_order(next, others));
                    lemma_run_push(w, rest, t, v.dest, v.delete_extraneous);
                    assert forall|i: int| 0 <= i < u.todo.len() implies (#[trigger] u.todo[i] matches
                        scan::Todo::DiffDst { src, entries, .. } ==> (w.list)(Side::Src, src)
                        == Ok::<Seq<EntryMeta>, VfsError>(entries)) by {
                        if i < rest.len() {
                            assert(u.todo[i] == v.todo[i]);
                        }
                    }
                },
                scan::Todo::DiffDst { src, entries: src_entries, dst } => {
                    let left = scan::leftovers(src_entries, entries, entries.len() as int);
                    let only_dst = if v.delete_extraneous {
                        scan::delete_tasks(left, Side::Dst)
                    } else {
                        Seq::empty()
                    };
                    let tasks = scan::diff_tasks(src_entries, entries, dst);
                    let u = scan::ScanView { todo: rest + only_dst + tasks, ..v };
                    let src_below = (w.rank)(Side::Src, src);
                    let compared = scan::diff_all(
                        w,
                        src_entries,
                        entries,
                        dst,
                        v.delete_extraneous,
                        0,
                        src_below,
                    );
                    let removed = if v.delete_extraneous {
                        scan::delete_all(w, Side::Dst, left, below)
                    } else {
                        scan::nothing()
                    };
                    assert(v.todo[v.todo.len() - 1] is DiffDst);
                    assert forall|k: int| 0 <= k < src_entries.len() implies (w.rank)(
                        Side::Src,
                        (#[trigger] src_entries[k]).path@,
                    ) < src_below by {
                        assert((w.list)(Side::Src, src)->Ok_0[k] == src_entries[k]);
                    }
                    assert(scan::run_todo(w, rest + only_dst, v.dest, v.delete_extraneous)
                        == scan::in_order(removed, others)) by {
                        if v.delete_extraneous {
                            assert forall|k: int| 0 <= k < left.len() implies (w.rank)(
                                Side::Dst,
                                (#[trigger] left[k]).path@,
                            ) < below by {
                                lemma_leftovers_are_listed(
                                    src_entries,
                                    entries,
                                    entries.len() as int,
                                    k,
                                );
                                let j = choose|j: int|
                                    0 <= j < entries.len() && entries[j] == left[k];
                                assert(entries[j] == left[k]);
                            }
                            lemma_delete_children(
                                w,
                                Side::Dst,
                                rest,
                                left,
                                below,
                                v.dest,
                                v.delete_extraneous,
                            );
                        } else {
                            assert(rest + only_dst == rest);
                            lemma_nothing(others);
                        }
                    }
                    lemma_diff_children(
                        w,
                        rest + only_dst,
                        src_entries,
                        entries,
                        dst,
                        0,
                        src_below,
                        v.dest,
                        v.delete_extraneous,
                    );
                    assert(tasks.take(src_entries.len() - 0) == tasks);
                    lemma_in_order_assoc(compared, removed, others);
                    lemma_asked_in_order(q, scan::in_order(compared, removed), others);
                    lemma_so_far_asked(
                        v.found,
                        q,
                        scan::in_order(compared, scan::in_order(removed, others)),
                    );
                    assert(v.run(w) == scan::asked(q, u.run(w)));
                    assert(u.todo == rest + (only_dst + tasks));
                    lemma_agrees_more(w, v, u, only_dst + tasks);
                    law_settle(w, u);
                },
                _ => {},
            }
        },
    }
}

/// A copy scan comes to the copy scan of its items, one after the other.
pub proof fn law_copy_start(w: scan::World, items: Seq<Seq<char>>, dest: Seq<char>)
    ensures
        scan::copy_start(items, dest).agrees_with(w),
        scan::copy_start(items, dest).run(w) == scan::copy_items(w, items, dest),
{
    lemma_copy_start(w, items, dest);
    lemma_nothing(scan::copy_items(w, items, dest));
}

proof fn lemma_copy_start(w: scan::World, items: Seq<Seq<char>>, dest: Seq<char>)
    ensures
        scan::run_todo(w, scan::copy_start(items, dest).todo, dest, false) == scan::copy_items(
            w,
            items,
            dest,
        ),
    decreases items.len(),
{
    if items.len() > 0 {
        let rest = items.skip(1);
        lemma_copy_start(w, rest, dest);
        let t = scan::Todo::CopyTop { item: items[0] };
        assert(scan::copy_start(items, dest).todo =~= scan::copy_start(rest, dest).todo.push(t));
        lemma_run_push(w, scan::copy_start(rest, dest).todo, t, dest, false);
    }
}

/// A delete scan comes to the delete scan of its items, one after the other.
pub proof fn law_delete_start(w: scan::World, side: Side, items: Seq<Seq<char>>)
    ensures
        scan::delete_start(items, side).agrees_with(w),
        scan::delete_start(items, side).run(w) == scan::delete_items(w, side, items),
{
    lemma_delete_start(w, side, items);
    lemma_nothing(scan::delete_items(w, side, items));
}

proof fn lemma_delete_start(w: scan::World, side: Side, items: Seq<Seq<char>>)
    ensures
        scan::run_todo(w, scan::delete_start(items, side).todo, Seq::empty(), false)
            == scan::delete_items(w, side, items),
    decreases items.len(),
{
    if items.len() > 0 {
        let rest = items.skip(1);
        lemma_delete_start(w, side, rest);
        let t = scan::Todo::DeleteVisit { side, at: items[0] };
        assert(scan::delete_start(items, side).todo =~= scan::delete_start(rest, side).todo.push(t));
        lemma_run_push(w, scan::delete_start(rest, side).todo, t, Seq::empty(), false);
    }
}

/// A sync scan comes to the comparison of its two directories.
pub proof fn law_sync_start(w: scan::World, src: Seq<char>, dst: Seq<char>, del: bool)
    ensures
        scan::sync_start(src, dst, del).agrees_with(w),
        scan::sync_start(src, dst, del).is_settled(),
        scan::sync_start(src, dst, del).run(w) == scan::diff_dir(w, src, dst, del),
{
    let v = scan::sync_start(src, dst, del);
    let t = scan::Todo::DiffDir { src, dst };
    assert(v.todo =~= Seq::<scan::Todo>::empty().push(t));
    lemma_run_push(w, Seq::empty(), t, v.dest, del);
    lemma_nothing(scan::diff_dir(w, src, dst, del));
}

/// A whole new copy plans no deletion.
pub proof fn lemma_full_deletes_nothing(
    w: scan::World,
    meta: EntryMeta,
    dst: Seq<char>,
    replaces: Option<EntryMeta>,
)
    ensures
        scan::full_copy(w, meta, dst, replaces).result matches Ok(f) ==> f.delete.len() == 0,
    decreases (w.rank)(Side::Src, meta.path@), 2nat, 0nat,
{
    if meta.kind is Dir {
        match (w.list)(Side::Src, meta.path@) {
            Ok(entries) => {
                lemma_full_all_deletes_nothing(w, entries, dst, (w.rank)(Side::Src, meta.path@));
            },
            Err(_) => {},
        }
    }
}

proof fn lemma_full_all_deletes_nothing(
    w: scan::World,
    entries: Seq<EntryMeta>,
    dst: Seq<char>,
    below: nat,
)
    ensures
        scan::full_all(w, entries, dst, below).result matches Ok(f) ==> f.delete.len() == 0,
    decreases below, 0nat, entries.len(),
{
    if entries.len() > 0 && (w.rank)(Side::Src, entries[0].path@) < below {
        lemma_full_deletes_nothing(w, entries[0], path::joined(dst, entries[0].name@), None);
        lemma_full_all_deletes_nothing(w, entries.skip(1), dst, below);
    }
}

/// Unless it is told to, a sync deletes nothing.
pub proof fn law_sync_deletes_only_on_request(w: scan::World, src: Seq<char>, dst: Seq<char>)
    ensures
        scan::diff_dir(w, src, dst, false).result matches Ok(f) ==> f.delete.len() == 0,
    decreases (w.rank)(Side::Src, src), 3nat, 0nat,
{
    match ((w.list)(Side::Src, src), (w.list)(Side::Dst, dst)) {
        (Ok(se), Ok(de)) => {
            lemma_diff_all_deletes_nothing(w, se, de, dst, 0, (w.rank)(Side::Src, src));
        },
        _ => {},
    }
}

proof fn lemma_diff_all_deletes_nothing(
    w: scan::World,
    src: Seq<EntryMeta>,
    dst: Seq<EntryMeta>,
    dst_dir: Seq<char>,
    i: int,
    below: nat,
)
    ensures
        scan::diff_all(w, src, dst, dst_dir, false, i, below).result matches Ok(f) ==> f.delete.len()
            == 0,
    decreases below, 0nat, src.len() - i,
{
    if 0 <= i < src.len() && (w.rank)(Side::Src, src[i].path@) < below {
        let at = path::joined(dst_dir, src[i].name@);
        let other = scan::counterpart(src, dst, i);
        lemma_diff_all_deletes_nothing(w, src, dst, dst_dir, i + 1, below);
        match other {
            None => {
                lemma_full_deletes_nothing(w, src[i], at, None);
            },
            Some(d) => {
                lemma_full_deletes_nothing(w, src[i], at, Some(d));
                if src[i].kind is Dir {
                    law_sync_deletes_only_on_request(w, src[i].path@, at);
                }
                let one = scan::diff_entry(w, src[i], d, at, false);
                assert(one.result matches Ok(f) ==> f.delete.len() == 0);
            },
        }
        let one = scan::diff_one(w, src[i], other, at, false);
        assert(one.result matches Ok(f) ==> f.delete.len() == 0);
    }
}

/// Whether a task of a scan is part of a deletion.
pub open spec fn is_deletion(t: scan::Todo) -> bool {
    t is DeleteVisit || t is DeleteExpand || t is DeleteEmit
}

/// Whether a scan neither has found anything to delete nor ever will.
pub open spec fn copies_only(v: scan::ScanView) -> bool {
    &&& !v.delete_extraneous
    &&& v.found.delete.len() == 0
    &&& forall|i: int| 0 <= i < v.todo.len() ==> !is_deletion(#[trigger] v.todo[i])
}

proof fn lemma_settled_copies_only(v: scan::ScanView)
    requires
        copies_only(v),
    ensures
        copies_only(scan::settled(v)),
    decreases v.todo.len(),
{
    if !v.is_settled() {
        let next = scan::settle_step(v);
        assert(!is_deletion(v.todo[v.todo.len() - 1]));
        assert(copies_only(next)) by {
            assert forall|i: int| 0 <= i < next.todo.len() implies !is_deletion(
                #[trigger] next.todo[i],
            ) by {
                if i < v.todo.len() - 1 {
                    assert(next.todo[i] == v.todo[i]);
                }
            }
        }
        if next.todo.len() < v.todo.len() {
            lemma_settled_copies_only(next);
        }
    }
}

/// A sync that was not told to delete starts without deletions.
pub proof fn law_sync_starts_without_deletions(src: Seq<char>, dst: Seq<char>)
    ensures
        copies_only(scan::sync_start(src, dst, false)),
{
}

/// Whatever a scan without deletions is told on the way, it never plans one.
pub proof fn law_no_deletion_gets_planned(
    v: scan::ScanView,
    stat: Result<EntryMeta, VfsError>,
    list: Result<Seq<EntryMeta>, VfsError>,
    hash: Result<Option<u64>, VfsError>,
)
    requires
        copies_only(v),
    ensures
        v.pending() matches Some(scan::Ask::Stat(..)) ==> copies_only(scan::after_stat(v, stat)),
        v.pending() matches Some(scan::Ask::List(..)) ==> copies_only(scan::after_list(v, list)),
        v.pending() matches Some(scan::Ask::Hash(..)) ==> copies_only(scan::after_hash(v, hash)),
{
    if v.pending() is Some {
        let n = v.todo.len() as int;
        let rest = v.todo.drop_last();
        assert(!is_deletion(v.todo[n - 1]));
        assert forall|i: int| 0 <= i < rest.len() implies !is_deletion(#[trigger] rest[i]) by {
            assert(rest[i] == v.todo[i]);
        }
        match v.todo.last() {
            scan::Todo::CopyVisit { src, dst } => {
                if let Ok(meta) = stat {
                    let c = v.with_copy(scan::CopyPlanned { src, dst, meta, replaces: None });
                    lemma_settled_copies_only(c.popped());
                    lemma_settled_copies_only(c.replaced(scan::Todo::CopyExpand { src, dst }));
                }
            },
            scan::Todo::CopyExpand { dst, .. } => {
                if let Ok(entries) = list {
                    lemma_settled_copies_only(
                        scan::ScanView { todo: rest + scan::copy_tasks(entries, dst), ..v },
                    );
                }
            },
            scan::Todo::FullExpand { dst, .. } => {
                if let Ok(entries) = list {
                    lemma_settled_copies_only(
                        scan::ScanView { todo: rest + scan::full_tasks(entries, dst), ..v },
                    );
                }
            },
            scan::Todo::DiffDst { entries: src_entries, dst, .. } => {
                if let Ok(entries) = list {
                    let none = Seq::<scan::Todo>::empty();
                    lemma_settled_copies_only(
                        scan::ScanView {
                            todo: rest + none + scan::diff_tasks(src_entries, entries, dst),
                            ..v
                        },
                    );
                }
            },
            scan::Todo::HashDst { src, dst_path, .. } => {
                lemma_settled_copies_only(v.popped());
                lemma_settled_copies_only(
                    v.with_copy(scan::copy_of(src, dst_path, None)).popped(),
                );
            },
            _ => {},
        }
    }
}

/// Whether everything that a directory of the list holds stands before it in
/// the list.
pub open spec fn contents_first(w: scan::World, side: Side, list: Seq<(Seq<char>, EntryMeta)>) -> bool {
    forall|i: int, k: int|
        #![trigger list[i], (w.list)(side, list[i].0)->Ok_0[k]]
        0 <= i < list.len() && list[i].1.kind is Dir && (w.list)(side, list[i].0) is Ok && 0
            <= k < (w.list)(side, list[i].0)->Ok_0.len() ==> stands_before(
            list,
            (w.list)(side, list[i].0)->Ok_0[k].path@,
            i,
        )
}

/// Whether `at` stands in the list before position `i`.
pub open spec fn stands_before(list: Seq<(Seq<char>, EntryMeta)>, at: Seq<char>, i: int) -> bool {
    exists|j: int| 0 <= j < i && j < list.len() && (#[trigger] list[j]).0 == at
}

proof fn lemma_contents_first_concat(
    w: scan::World,
    side: Side,
    a: Seq<(Seq<char>, EntryMeta)>,
    b: Seq<(Seq<char>, EntryMeta)>,
)
    requires
        contents_first(w, side, a),
        contents_first(w, side, b),
    ensures
        contents_first(w, side, a + b),
{
    let c = a + b;
    assert forall|i: int, k: int|
        #![trigger c[i], (w.list)(side, c[i].0)->Ok_0[k]]
        0 <= i < c.len() && c[i].1.kind is Dir && (w.list)(side, c[i].0) is Ok && 0 <= k < (
        w.list)(side, c[i].0)->Ok_0.len() implies stands_before(
        c,
        (w.list)(side, c[i].0)->Ok_0[k].path@,
        i,
    ) by {
        let at = (w.list)(side, c[i].0)->Ok_0[k].path@;
        if i < a.len() {
            assert(a[i] == c[i]);
            assert((w.list)(side, a[i].0)->Ok_0[k].path@ == at);
            assert(stands_before(a, at, i));
            let j = choose|j: int| 0 <= j < i && j < a.len() && (#[trigger] a[j]).0 == at;
            assert(c[j] == a[j]);
        } else {
            let m = i - a.len();
            assert(b[m] == c[i]);
            assert((w.list)(side, b[m].0)->Ok_0[k].path@ == at);
            assert(stands_before(b, at, m));
            let j = choose|j: int| 0 <= j < m && j < b.len() && (#[trigger] b[j]).0 == at;
            assert(c[j + a.len()] == b[j]);
        }
    }
}

/// A delete scan of a path ends with the path itself, and everything a
/// directory holds is deleted before the directory.
pub proof fn law_delete_contents_first(w: scan::World, side: Side, at: Seq<char>)
    requires
        w.is_finite(),
    ensures
        scan::delete_visit(w, side, at).result matches Ok(f) ==> {
            &&& f.copy.len() == 0
            &&& f.delete.len() > 0
            &&& f.delete.last().0 == at
            &&& contents_first(w, side, f.delete)
        },
    decreases (w.rank)(side, at), 2nat, 0nat,
{
    match (w.stat)(side, at) {
        Err(_) => {},
        Ok(meta) => {
            let own = seq![(at, meta)];
            if meta.kind is Dir {
                match (w.list)(side, at) {
                    Err(_) => {},
                    Ok(entries) => {
                        let below = (w.rank)(side, at);
                        assert forall|i: int| 0 <= i < entries.len() implies (w.rank)(
                            side,
                            (#[trigger] entries[i]).path@,
                        ) < below by {
                            assert((w.list)(side, at)->Ok_0[i] == entries[i]);
                        }
                        lemma_delete_all_contents_first(w, side, entries, below);
                        if let Ok(inner) = scan::delete_all(w, side, entries, below).result {
                            let all = inner.delete + own;
                            assert forall|i: int, k: int|
                                #![trigger all[i], (w.list)(side, all[i].0)->Ok_0[k]]
                                0 <= i < all.len() && all[i].1.kind is Dir && (w.list)(
                                    side,
                                    all[i].0,
                                ) is Ok && 0 <= k < (w.list)(side, all[i].0)->Ok_0.len()
                                    implies stands_before(
                                all,
                                (w.list)(side, all[i].0)->Ok_0[k].path@,
                                i,
                            ) by {
                                let p = (w.list)(side, all[i].0)->Ok_0[k].path@;
                                if i < inner.delete.len() {
                                    assert(inner.delete[i] == all[i]);
                                    assert(stands_before(inner.delete, p, i));
                                    let j = choose|j: int|
                                        0 <= j < i && j < inner.delete.len() && (
                                        #[trigger] inner.delete[j]).0 == p;
                                    assert(all[j] == inner.delete[j]);
                                } else {
                                    assert(entries[k].path@ == p);
                                    let n = inner.delete.len() as int;
                                    assert(stands_before(inner.delete, p, n));
                                    let j = choose|j: int|
                                        0 <= j < n && j < inner.delete.len() && (
                                        #[trigger] inner.delete[j]).0 == p;
                                    assert(all[j] == inner.delete[j]);
                                }
                            }
                            assert(contents_first(w, side, all));
                        }
                    },
                }
            } else {
                assert(Seq::<(Seq<char>, EntryMeta)>::empty() + own == own);
                assert(contents_first(w, side, own));
            }
        },
    }
}

proof fn lemma_delete_all_contents_first(w: scan::World, side: Side, entries: Seq<EntryMeta>, below: nat)
    requires
        w.is_finite(),
        forall|i: int|
            0 <= i < entries.len() ==> (w.rank)(side, (#[trigger] entries[i]).path@) < below,
    ensures
        scan::delete_all(w, side, entries, below).result matches Ok(f) ==> {
            &&& f.copy.len() == 0
            &&& contents_first(w, side, f.delete)
            &&& forall|k: int|
                0 <= k < entries.len() ==> stands_before(
                    f.delete,
                    (#[trigger] entries[k]).path@,
                    f.delete.len() as int,
                )
        },
    decreases below, 0nat, entries.len(),
{
    if entries.len() > 0 {
        let rest = entries.skip(1);
        assert forall|i: int| 0 <= i < rest.len() implies (w.rank)(
            side,
            (#[trigger] rest[i]).path@,
        ) < below by {
            assert(rest[i] == entries[i + 1]);
        }
        law_delete_contents_first(w, side, entries[0].path@);
        lemma_delete_all_contents_first(w, side, rest, below);
        let first = scan::delete_visit(w, side, entries[0].path@).result;
        let others = scan::delete_all(w, side, rest, below).result;
        if first is Ok && others is Ok {
            let a = first->Ok_0.delete;
            let b = others->Ok_0.delete;
            let all = a + b;
            lemma_contents_first_concat(w, side, a, b);
            assert forall|k: int| 0 <= k < entries.len() implies stands_before(
                all,
                (#[trigger] entries[k]).path@,
                all.len() as int,
            ) by {
                if k == 0 {
                    assert(all[a.len() - 1] == a.last());
                } else {
                    assert(rest[k - 1] == entries[k]);
                    let p = entries[k].path@;
                    assert(stands_before(b, rest[k - 1].path@, b.len() as int));
                    let j = choose|j: int|
                        0 <= j < b.len() && j < b.len() && (#[trigger] b[j]).0 == p;
                    assert(all[j + a.len()] == b[j]);
                }
            }
        }
    }
}

/// Everything that a sync deletes comes after what it holds: whatever a
/// directory of the whole plan's deletions lists stands before it.
pub proof fn law_sync_contents_first(w: scan::World, src: Seq<char>, dst: Seq<char>, del: bool)
    requires
        w.is_finite(),
    ensures
        scan::diff_dir(w, src, dst, del).result matches Ok(f) ==> contents_first(
            w,
            Side::Dst,
            f.delete,
        ),
    decreases (w.rank)(Side::Src, src), 3nat, 0nat,
{
    match ((w.list)(Side::Src, src), (w.list)(Side::Dst, dst)) {
        (Ok(se), Ok(de)) => {
            let below = (w.rank)(Side::Src, src);
            let low = (w.rank)(Side::Dst, dst);
            let compared = scan::diff_all(w, se, de, dst, del, 0, below);
            lemma_diff_all_contents_first(w, se, de, dst, del, 0, below);
            let left = scan::leftovers(se, de, de.len() as int);
            assert forall|i: int| 0 <= i < left.len() implies (w.rank)(
                Side::Dst,
                (#[trigger] left[i]).path@,
            ) < low by {
                lemma_leftovers_are_listed(se, de, de.len() as int, i);
                let m = choose|m: int| 0 <= m < de.len() && de[m] == left[i];
                assert((w.list)(Side::Dst, dst)->Ok_0[m] == left[i]);
            }
            lemma_delete_all_contents_first(w, Side::Dst, left, low);
            let removed = if del {
                scan::delete_all(w, Side::Dst, left, low)
            } else {
                scan::nothing()
            };
            if compared.result is Ok && removed.result is Ok {
                lemma_contents_first_concat(
                    w,
                    Side::Dst,
                    compared.result->Ok_0.delete,
                    removed.result->Ok_0.delete,
                );
            }
        },
        _ => {},
    }
}

proof fn lemma_diff_all_contents_first(
    w: scan::World,
    src: Seq<EntryMeta>,
    dst: Seq<EntryMeta>,
    dst_dir: Seq<char>,
    del: bool,
    i: int,
    below: nat,
)
    requires
        w.is_finite(),
    ensures
        scan::diff_all(w, src, dst, dst_dir, del, i, below).result matches Ok(f) ==> contents_first(
            w,
            Side::Dst,
            f.delete,
        ),
    decreases below, 0nat, src.len() - i,
{
    if 0 <= i < src.len() && (w.rank)(Side::Src, src[i].path@) < below {
        let at = path::joined(dst_dir, src[i].name@);
        let other = scan::counterpart(src, dst, i);
        let one = scan::diff_one(w, src[i], other, at, del);
        let rest = scan::diff_all(w, src, dst, dst_dir, del, i + 1, below);
        lemma_diff_all_contents_first(w, src, dst, dst_dir, del, i + 1, below);
        lemma_full_deletes_nothing(w, src[i], at, other);
        if other is Some && src[i].kind is Dir {
            law_sync_contents_first(w, src[i].path@, at, del);
        }
        if one.result is Ok && rest.result is Ok {
            assert(contents_first(w, Side::Dst, one.result->Ok_0.delete));
            lemma_contents_first_concat(
                w,
                Side::Dst,
                one.result->Ok_0.delete,
                rest.result->Ok_0.delete,
            );
        }
    }
}

/// The state after the pending question was answered as the backends stand.
pub open spec fn answered(w: scan::World, v: scan::ScanView) -> scan::ScanView {
    match v.pending() {
        Some(scan::Ask::Stat(side, at)) => scan::after_stat(v, (w.stat)(side, at)),
        Some(scan::Ask::List(side, at)) => scan::after_list(v, (w.list)(side, at)),
        Some(scan::Ask::Hash(side, at)) => scan::after_hash(v, (w.hash)(side, at)),
        None => v,
    }
}

/// A scan that is answered as the backends stand until it asks nothing more has
/// asked and found exactly what it comes to. `states` are its states.
pub proof fn law_scan_comes_to(w: scan::World, states: Seq<scan::ScanView>)
    requires
        w.is_finite(),
        states.len() > 0,
        states[0].is_settled(),
        states[0].agrees_with(w),
        forall|i: int|
            0 <= i < states.len() - 1 ==> (#[trigger] states[i]).pending() is Some && states[i + 1]
                == answered(w, states[i]),
        states.last().pending() is None,
    ensures
        states[0].run(w).asks.len() == states.len() - 1,
        forall|i: int|
            0 <= i < states.len() - 1 ==> (#[trigger] states[i]).pending() == Some(
                states[0].run(w).asks[i],
            ),
        states[0].run(w).result == (match states.last().failed {
            Some(e) => Err(e),
            None => Ok(states.last().found),
        }),
    decreases states.len(),
{
    let v = states[0];
    if states.len() == 1 {
        law_end(w, v);
    } else {
        let rest = states.skip(1);
        let next = states[1];
        assert(states[0].pending() is Some);
        match v.pending()->0 {
            scan::Ask::Stat(side, at) => law_stat(w, v, side, at),
            scan::Ask::List(side, at) => law_list(w, v, side, at),
            scan::Ask::Hash(side, at) => law_hash(w, v, side, at),
        }
        assert(v.run(w) == scan::asked(v.pending()->0, next.run(w)));
        assert forall|i: int| 0 <= i < rest.len() - 1 implies (#[trigger] rest[i]).pending() is Some
            && rest[i + 1] == answered(w, rest[i]) by {
            assert(rest[i] == states[i + 1] && rest[i + 1] == states[i + 2]);
            assert(states[i + 1].pending() is Some);
        }
        assert(rest.last() == states.last());
        law_scan_comes_to(w, rest);
        assert forall|i: int| 0 <= i < states.len() - 1 implies (#[trigger] states[i]).pending()
            == Some(v.run(w).asks[i]) by {
            if i > 0 {
                assert(rest[i - 1] == states[i]);
                assert(rest[i - 1].pending() == Some(next.run(w).asks[i - 1]));
                assert(v.run(w).asks[i] == next.run(w).asks[i - 1]);
            }
        }
    }
}

/// Whether two entries of the same name need no copy: the same kind of thing,
/// and for files the same size and the same hash.
pub open spec fn is_unchanged(
    w: scan::World,
    src: EntryMeta,
    dst: EntryMeta,
    dst_path: Seq<char>,
    del: bool,
) -> bool
    decreases (w.rank)(Side::Src, src.path@), 2nat, 0nat,
{
    match src.kind {
        EntryKind::Dir => dst.kind is Dir && is_unchanged_dir(w, src.path@, dst_path, del),
        EntryKind::File => {
            &&& dst.kind is File
            &&& src.size == dst.size
            &&& (w.hash)(Side::Src, src.path@) is Ok
            &&& (w.hash)(Side::Src, src.path@)->Ok_0 is Some
            &&& (w.hash)(Side::Dst, dst.path@) == (w.hash)(Side::Src, src.path@)
        },
        _ => vfs::same_kind(src.kind, dst.kind),
    }
}

/// Whether everything that the source's directory lists is unchanged in the
/// destination's, and if it counts, whether that has no other names.
pub open spec fn is_unchanged_dir(
    w: scan::World,
    src: Seq<char>,
    dst: Seq<char>,
    del: bool,
) -> bool
    decreases (w.rank)(Side::Src, src), 1nat, 0nat,
{
    let se = (w.list)(Side::Src, src);
    let de = (w.list)(Side::Dst, dst);
    &&& se is Ok
    &&& de is Ok
    &&& del ==> scan::leftovers(se->Ok_0, de->Ok_0, de->Ok_0.len() as int).len() == 0
    &&& forall|i: int|
        0 <= i < se->Ok_0.len() ==> {
            let e = #[trigger] se->Ok_0[i];
            let d = scan::counterpart(se->Ok_0, de->Ok_0, i);
            &&& d is Some
            &&& (w.rank)(Side::Src, e.path@) < (w.rank)(Side::Src, src)
            &&& is_unchanged(w, e, d->0, path::joined(dst, e.name@), del)
        }
}

/// Between two directories that do not differ there is nothing to sync.
pub proof fn law_sync_leaves_unchanged_alone(
    w: scan::World,
    src: Seq<char>,
    dst: Seq<char>,
    del: bool,
)
    requires
        is_unchanged_dir(w, src, dst, del),
    ensures
        scan::diff_dir(w, src, dst, del).result == Ok::<scan::Found, VfsError>(
            scan::Found { copy: Seq::empty(), delete: Seq::empty() },
        ),
    decreases (w.rank)(Side::Src, src), 3nat, 0nat,
{
    let se = (w.list)(Side::Src, src)->Ok_0;
    let de = (w.list)(Side::Dst, dst)->Ok_0;
    let below = (w.rank)(Side::Src, src);
    lemma_unchanged_all(w, src, dst, se, de, del, 0);
    let left = scan::leftovers(se, de, de.len() as int);
    if del {
        assert(scan::delete_all(w, Side::Dst, left, (w.rank)(Side::Dst, dst)) == scan::nothing());
    }
    lemma_nothing(scan::diff_all(w, se, de, dst, del, 0, below));
}

proof fn lemma_unchanged_all(
    w: scan::World,
    src_dir: Seq<char>,
    dst_dir: Seq<char>,
    se: Seq<EntryMeta>,
    de: Seq<EntryMeta>,
    del: bool,
    i: int,
)
    requires
        is_unchanged_dir(w, src_dir, dst_dir, del),
        (w.list)(Side::Src, src_dir) == Ok::<Seq<EntryMeta>, VfsError>(se),
        (w.list)(Side::Dst, dst_dir) == Ok::<Seq<EntryMeta>, VfsError>(de),
        0 <= i <= se.len(),
    ensures
        scan::diff_all(w, se, de, dst_dir, del, i, (w.rank)(Side::Src, src_dir)).result == Ok::<
            scan::Found,
            VfsError,
        >(scan::Found { copy: Seq::empty(), delete: Seq::empty() }),
    decreases (w.rank)(Side::Src, src_dir), 2nat, se.len() - i,
{
    if i < se.len() {
        let e = (w.list)(Side::Src, src_dir)->Ok_0[i];
        let d = scan::counterpart(se, de, i)->0;
        let at = path::joined(dst_dir, e.name@);
        assert(is_unchanged(w, e, d, at, del));
        lemma_unchanged_all(w, src_dir, dst_dir, se, de, del, i + 1);
        let one = scan::diff_entry(w, e, d, at, del);
        let empty = scan::Found { copy: Seq::empty(), delete: Seq::empty() };
        if e.kind is Dir {
            law_sync_leaves_unchanged_alone(w, e.path@, at, del);
        }
        assert(one.result == Ok::<scan::Found, VfsError>(empty));
        assert(scan::diff_one(w, e, scan::counterpart(se, de, i), at, del) == one);
        assert(empty.copy + empty.copy == empty.copy);
        assert(empty.delete + empty.delete == empty.delete);
    }
}

/// A point in time as nanoseconds since the epoch.
pub open spec fn nanoseconds(t: FileTime) -> int {
    t.seconds as int * 1_000_000_000 + t.nanos as int
}

/// Whether the source's file of two is newer by more than two seconds, or cannot
/// be told to be older because a time is missing.
pub open spec fn may_be_newer(src: EntryMeta, dst: EntryMeta) -> bool {
    src.modified is None || dst.modified is None || nanoseconds(src.modified->0) > nanoseconds(
        dst.modified->0,
    ) + 2_000_000_000
}

/// Two files of one name are compared by size first, then by content if both
/// sides can hash, and else by time: whenever either hash is missing, or both
/// are, the file is planned to be copied exactly if it may be newer. Nothing
/// else is planned for it.
pub proof fn law_files_are_compared(
    w: scan::World,
    src: EntryMeta,
    dst: EntryMeta,
    at: Seq<char>,
    del: bool,
    src_hash: Option<u64>,
    dst_hash: Option<u64>,
)
    requires
        src.kind is File,
        dst.kind is File,
        (w.hash)(Side::Src, src.path@) == Ok::<Option<u64>, VfsError>(src_hash),
        (w.hash)(Side::Dst, dst.path@) == Ok::<Option<u64>, VfsError>(dst_hash),
    ensures
        ({
            let r = scan::diff_entry(w, src, dst, at, del);
            let f = r.result->Ok_0;
            let copied = if src.size != dst.size {
                true
            } else if src_hash is Some && dst_hash is Some {
                src_hash->0 != dst_hash->0
            } else {
                may_be_newer(src, dst)
            };
            &&& r.result is Ok
            &&& f.delete.len() == 0
            &&& copied ==> f.copy.len() == 1 && f.copy[0].src == src.path@ && f.copy[0].dst == at
                && f.copy[0].meta == src && f.copy[0].replaces is None
            &&& !copied ==> f.copy.len() == 0
        }),
{
    let r = scan::diff_entry(w, src, dst, at, del);
    assert(vfs::same_shape(src.kind, dst.kind));
}

/// The comparison by itself: two hashes decide if there are two, and else the
/// times do, whichever hash is missing.
pub proof fn law_hashes_then_times(
    src_hash: Option<u64>,
    dst_hash: Option<u64>,
    src: EntryMeta,
    dst: EntryMeta,
)
    ensures
        src_hash is Some && dst_hash is Some ==> scan::hash_or_time_changed(
            src_hash,
            dst_hash,
            src.modified,
            dst.modified,
        ) == (src_hash->0 != dst_hash->0),
        src_hash is None || dst_hash is None ==> scan::hash_or_time_changed(
            src_hash,
            dst_hash,
            src.modified,
            dst.modified,
        ) == may_be_newer(src, dst),
{
}

/// An answer to a question about a hash leads to the same comparison.
pub proof fn law_scan_compares_files(
    v: scan::ScanView,
    src: EntryMeta,
    dst: EntryMeta,
    at: Seq<char>,
    src_hash: Option<u64>,
    dst_hash: Option<u64>,
)
    requires
        v.failed is None,
        v.todo.len() == 1,
        v.todo[0] == (scan::Todo::HashDst { src, dst, dst_path: at, src_hash }),
    ensures
        ({
            let after = scan::after_hash(v, Ok::<Option<u64>, VfsError>(dst_hash));
            let copied = if src_hash is Some && dst_hash is Some {
                src_hash->0 != dst_hash->0
            } else {
                may_be_newer(src, dst)
            };
            &&& after.todo.len() == 0
            &&& after.failed is None
            &&& after.found.delete == v.found.delete
            &&& copied ==> after.found.copy.len() == v.found.copy.len() + 1
                && after.found.copy.last().src == src.path@ && after.found.copy.last().dst == at
            &&& !copied ==> after.found.copy == v.found.copy
        }),
{
}

proof fn lemma_diff_all_has(
    w: scan::World,
    se: Seq<EntryMeta>,
    de: Seq<EntryMeta>,
    dst: Seq<char>,
    del: bool,
    i: int,
    below: nat,
    m: int,
)
    requires
        0 <= i <= m < se.len(),
        forall|k: int| 0 <= k < se.len() ==> (w.rank)(Side::Src, (#[trigger] se[k]).path@) < below,
        scan::diff_all(w, se, de, dst, del, i, below).result is Ok,
    ensures
        ({
            let f = scan::diff_all(w, se, de, dst, del, i, below).result->Ok_0;
            let one = scan::diff_one(
                w,
                se[m],
                scan::counterpart(se, de, m),
                path::joined(dst, se[m].name@),
                del,
            );
            &&& one.result is Ok
            &&& forall|n: int|
                0 <= n < one.result->Ok_0.copy.len() ==> f.copy.contains(
                    #[trigger] one.result->Ok_0.copy[n],
                )
        }),
    decreases m - i,
{
    let one = scan::diff_one(
        w,
        se[i],
        scan::counterpart(se, de, i),
        path::joined(dst, se[i].name@),
        del,
    );
    let rest = scan::diff_all(w, se, de, dst, del, i + 1, below);
    let f = scan::diff_all(w, se, de, dst, del, i, below).result->Ok_0;
    let a = one.result->Ok_0.copy;
    let b = rest.result->Ok_0.copy;
    assert(f.copy == a + b);
    if m == i {
        assert forall|n: int| 0 <= n < a.len() implies f.copy.contains(#[trigger] a[n]) by {
            assert(f.copy[n] == a[n]);
        }
    } else {
        lemma_diff_all_has(w, se, de, dst, del, i + 1, below, m);
        let other = scan::diff_one(
            w,
            se[m],
            scan::counterpart(se, de, m),
            path::joined(dst, se[m].name@),
            del,
        ).result->Ok_0.copy;
        assert forall|n: int| 0 <= n < other.len() implies f.copy.contains(#[trigger] other[n]) by {
            assert(b.contains(other[n]));
            let k = choose|k: int| 0 <= k < b.len() && b[k] == other[n];
            assert(f.copy[a.len() + k] == b[k]);
        }
    }
}

/// Whether a copy of the source's entry is among the planned ones, in place of
/// what is there, if anything is to be removed first.
pub open spec fn is_planned(
    f: scan::Found,
    e: EntryMeta,
    at: Seq<char>,
    replaces: Option<EntryMeta>,
) -> bool {
    exists|n: int|
        {
            &&& 0 <= n < f.copy.len()
            &&& (#[trigger] f.copy[n]).src == e.path@
            &&& f.copy[n].dst == at
            &&& f.copy[n].meta == e
            &&& f.copy[n].replaces == replaces
        }
}

/// Whatever the source has in a directory that both sides have, and the
/// destination has not or has otherwise, is in the plan, under its own name in the
/// destination's directory.
pub proof fn law_sync_plans_what_differs(
    w: scan::World,
    src: Seq<char>,
    dst: Seq<char>,
    del: bool,
    se: Seq<EntryMeta>,
    de: Seq<EntryMeta>,
    i: int,
)
    requires
        w.is_finite(),
        (w.list)(Side::Src, src) == Ok::<Seq<EntryMeta>, VfsError>(se),
        (w.list)(Side::Dst, dst) == Ok::<Seq<EntryMeta>, VfsError>(de),
        sync_laws::names_differ(se),
        sync_laws::names_differ(de),
        0 <= i < se.len(),
        scan::diff_dir(w, src, dst, del).result is Ok,
    ensures
        ({
            let f = scan::diff_dir(w, src, dst, del).result->Ok_0;
            let e = se[i];
            let at = path::joined(dst, e.name@);
            &&& (forall|m: int| 0 <= m < de.len() ==> (#[trigger] de[m]).name@ != e.name@)
                ==> is_planned(f, e, at, None)
            &&& forall|m: int|
                0 <= m < de.len() && (#[trigger] de[m]).name@ == e.name@ ==> {
                    &&& e.kind is File && de[m].kind is File && e.size != de[m].size
                        ==> is_planned(f, e, at, None)
                    &&& e.kind is File && de[m].kind is File && e.size == de[m].size && (w.hash)(
                        Side::Src,
                        e.path@,
                    ) is Ok && (w.hash)(Side::Dst, de[m].path@) is Ok ==> {
                        let a = (w.hash)(Side::Src, e.path@)->Ok_0;
                        let b = (w.hash)(Side::Dst, de[m].path@)->Ok_0;
                        (if a is Some && b is Some {
                            a->0 != b->0
                        } else {
                            may_be_newer(e, de[m])
                        }) ==> is_planned(f, e, at, None)
                    }
                    &&& (e.kind is Dir) != (de[m].kind is Dir) ==> is_planned(
                        f,
                        e,
                        at,
                        Some(de[m]),
                    )
                    &&& (e.kind is File) != (de[m].kind is File) ==> is_planned(
                        f,
                        e,
                        at,
                        Some(de[m]),
                    )
                    &&& (e.kind is Symlink) != (de[m].kind is Symlink) ==> is_planned(
                        f,
                        e,
                        at,
                        Some(de[m]),
                    )
                }
        }),
{
    let f = scan::diff_dir(w, src, dst, del).result->Ok_0;
    let below = (w.rank)(Side::Src, src);
    let e = se[i];
    let at = path::joined(dst, e.name@);
    let other = scan::counterpart(se, de, i);
    let compared = scan::diff_all(w, se, de, dst, del, 0, below);
    assert forall|k: int| 0 <= k < se.len() implies (w.rank)(Side::Src, (#[trigger] se[k]).path@)
        < below by {
        assert((w.list)(Side::Src, src)->Ok_0[k] == se[k]);
    }
    lemma_diff_all_has(w, se, de, dst, del, 0, below, i);
    sync_laws::lemma_counterpart(se, de, i);
    let one = scan::diff_one(w, e, other, at, del).result->Ok_0;
    let left = if del {
        scan::delete_all(
            w,
            Side::Dst,
            scan::leftovers(se, de, de.len() as int),
            (w.rank)(Side::Dst, dst),
        )
    } else {
        scan::nothing()
    };
    assert(f.copy == compared.result->Ok_0.copy + left.result->Ok_0.copy);
    assert forall|n: int| 0 <= n < one.copy.len() implies f.copy.contains(#[trigger] one.copy[n]) by {
        let c = compared.result->Ok_0.copy;
        assert(c.contains(one.copy[n]));
        let k = choose|k: int| 0 <= k < c.len() && c[k] == one.copy[n];
        assert(f.copy[k] == c[k]);
    }
    if one.copy.len() > 0 {
        assert(f.copy.contains(one.copy[0]));
        let k = choose|k: int| 0 <= k < f.copy.len() && f.copy[k] == one.copy[0];
        assert(f.copy[k] == one.copy[0]);
    }
    assert forall|m: int| 0 <= m < de.len() && (#[trigger] de[m]).name@ == e.name@ implies other
        == Some(de[m]) by {
        assert(sync_laws::named_from(de, 0, e.name@));
        let k = choose|k: int| 0 <= k < de.len() && #[trigger] de[k] == other->0;
        assert(de[k].name@ == e.name@);
        if k < m {
            assert(de[k].name@ != de[m].name@);
        } else if m < k {
            assert(de[m].name@ != de[k].name@);
        }
    }
    if other is None {
        assert(one.copy[0] == (scan::CopyPlanned { src: e.path@, dst: at, meta: e, replaces: None }));
    }
}

} // verus!
