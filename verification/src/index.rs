//! Builds a hierarchical index of an archive's contents from the flat list of
//! its raw entries: unsafe paths are left out, and missing parent directories
//! are added.

use vstd::prelude::*;

use crate::path;
use crate::path::VfsPath;
use crate::text;
use crate::text::{from_chars, same_chars, text_before, to_chars};
use crate::vfs::{EntryKind, FileTime};

verus! {

/// An entry as an archive stores it.
#[derive(Debug)]
pub struct RawEntry {
    /// The raw path as stored in the archive (forward-slash separated,
    /// typically no leading `/`).
    pub raw_path: String,
    pub is_dir: bool,
    pub is_symlink: bool,
    pub symlink_target: Option<String>,
    pub size: u64,
    pub modified: Option<FileTime>,
    pub permissions: Option<u32>,
}

/// An entry of an archive's index.
#[derive(Debug)]
pub struct ArchiveEntry {
    pub path: VfsPath,
    pub kind: EntryKind,
    pub size: u64,
    pub modified: Option<FileTime>,
    pub permissions: Option<u32>,
}

impl Clone for ArchiveEntry {
    fn clone(&self) -> (r: Self)
        ensures
            r == *self,
    {
        ArchiveEntry {
            path: self.path.clone(),
            kind: self.kind.clone(),
            size: self.size,
            modified: self.modified,
            permissions: self.permissions,
        }
    }
}

/// The pieces of a raw path that name something.
pub open spec fn names_among(p: Seq<Seq<char>>) -> Seq<Seq<char>>
    decreases p.len(),
{
    if p.len() == 0 {
        Seq::empty()
    } else {
        let before = names_among(p.drop_last());
        if p.last().len() == 0 || p.last() == seq!['.'] {
            before
        } else {
            before.push(p.last())
        }
    }
}

/// The names that lead from the archive's root to a raw path; none if the path
/// could leave the root, or names nothing.
pub open spec fn safe_names(raw: Seq<char>) -> Option<Seq<Seq<char>>> {
    let names = names_among(path::pieces(raw));
    if names.len() == 0 || names.contains(seq!['.', '.']) {
        None
    } else {
        Some(names)
    }
}

/// The path from the root along `names`.
pub open spec fn rooted(names: Seq<Seq<char>>) -> Seq<char>
    decreases names.len(),
{
    if names.len() == 0 {
        Seq::empty()
    } else {
        rooted(names.drop_last()).push('/') + names.last()
    }
}

/// The clean form of a raw path, if it is safe.
pub open spec fn sanitized(raw: Seq<char>) -> Option<Seq<char>> {
    match safe_names(raw) {
        Some(names) => Some(rooted(names)),
        None => None,
    }
}

/// Whether all of `names` are plain names.
pub open spec fn all_plain(names: Seq<Seq<char>>) -> bool {
    forall|i: int| 0 <= i < names.len() ==> path::is_plain_name(#[trigger] names[i])
}

proof fn lemma_pieces_have_no_slash(s: Seq<char>)
    ensures
        path::pieces(s).len() > 0,
        forall|i: int|
            0 <= i < path::pieces(s).len() ==> !(#[trigger] path::pieces(s)[i]).contains('/'),
    decreases s.len(),
{
    if s.len() > 0 {
        let before = path::pieces(s.drop_last());
        lemma_pieces_have_no_slash(s.drop_last());
        let p = path::pieces(s);
        assert forall|i: int| 0 <= i < p.len() implies !(#[trigger] p[i]).contains('/') by {
            if s.last() == '/' {
                if i < before.len() {
                    assert(p[i] == before[i]);
                }
            } else if i < before.len() - 1 {
                assert(p[i] == before[i]);
            } else {
                let l = before.last();
                assert(p[i] == l.push(s.last()));
                assert(!before[before.len() - 1].contains('/'));
                if p[i].contains('/') {
                    let k = choose|k: int| 0 <= k < p[i].len() && p[i][k] == '/';
                    assert(l[k] == '/');
                    assert(l.contains('/'));
                }
            }
        }
    }
}

proof fn lemma_names_among_plain(p: Seq<Seq<char>>)
    requires
        forall|i: int| 0 <= i < p.len() ==> !(#[trigger] p[i]).contains('/'),
    ensures
        forall|i: int|
            0 <= i < names_among(p).len() ==> (#[trigger] names_among(p)[i]).len() > 0
                && names_among(p)[i] != seq!['.'] && !names_among(p)[i].contains('/'),
    decreases p.len(),
{
    if p.len() > 0 {
        assert forall|i: int| 0 <= i < p.drop_last().len() implies !(
        #[trigger] p.drop_last()[i]).contains('/') by {
            assert(p.drop_last()[i] == p[i]);
        }
        lemma_names_among_plain(p.drop_last());
        assert(!p[p.len() - 1].contains('/'));
        let before = names_among(p.drop_last());
        let names = names_among(p);
        assert forall|i: int| 0 <= i < names.len() implies (#[trigger] names[i]).len() > 0
            && names[i] != seq!['.'] && !names[i].contains('/') by {
            if i < before.len() {
                assert(names[i] == before[i]);
            }
        }
    }
}

/// What is left of a safe raw path are plain names: no traversal, no empty
/// piece, no slash.
pub proof fn law_safe_names_are_plain(raw: Seq<char>)
    requires
        safe_names(raw) is Some,
    ensures
        safe_names(raw)->0.len() > 0,
        all_plain(safe_names(raw)->0),
{
    let p = path::pieces(raw);
    lemma_pieces_have_no_slash(raw);
    lemma_names_among_plain(p);
    let names = names_among(p);
    assert forall|i: int| 0 <= i < names.len() implies path::is_plain_name(#[trigger] names[i]) by {
        if names[i] == seq!['.', '.'] {
            assert(names.contains(seq!['.', '.']));
        }
    }
}

/// A path along plain names is clean, and its components are the names.
pub proof fn law_rooted_is_clean(names: Seq<Seq<char>>)
    requires
        names.len() > 0,
        all_plain(names),
    ensures
        path::is_clean(rooted(names)),
        path::is_absolute(rooted(names)),
        path::components(rooted(names)) == names,
        path::pieces(rooted(names)) == seq![Seq::<char>::empty()] + names,
{
    lemma_rooted_pieces(names);
    let p = path::pieces(rooted(names));
    assert(p[0] == Seq::<char>::empty());
    assert forall|i: int| 1 <= i < p.len() implies path::is_plain_name(#[trigger] p[i]) by {
        assert(p[i] == names[i - 1]);
    }
    path::lemma_clean_components_all(rooted(names));
    assert(p.subrange(1, p.len() as int) == names);
}

proof fn lemma_rooted_pieces(names: Seq<Seq<char>>)
    requires
        all_plain(names),
    ensures
        path::pieces(rooted(names)) == seq![Seq::<char>::empty()] + names,
        names.len() > 0 ==> rooted(names).len() > 0 && rooted(names)[0] == '/',
    decreases names.len(),
{
    let empty = Seq::<char>::empty();
    if names.len() == 0 {
        assert(rooted(names) == empty);
        assert(seq![empty] + names == seq![empty]);
    } else {
        let shorter = names.drop_last();
        assert forall|i: int| 0 <= i < shorter.len() implies path::is_plain_name(
            #[trigger] shorter[i],
        ) by {
            assert(shorter[i] == names[i]);
        }
        lemma_rooted_pieces(shorter);
        let base = rooted(shorter).push('/');
        assert(base.drop_last() == rooted(shorter));
        assert(path::is_plain_name(names[names.len() - 1]));
        path::lemma_pieces_of_name(base, names.last());
        assert(path::pieces(base) == path::pieces(rooted(shorter)).push(empty));
        assert(path::pieces(base).drop_last() == seq![empty] + shorter);
        assert((seq![empty] + shorter).push(names.last()) =~= seq![empty] + names);
        if shorter.len() > 0 {
            assert(rooted(names)[0] == rooted(shorter)[0]);
        } else {
            assert(rooted(shorter) == empty);
            assert(rooted(names)[0] == base[0]);
        }
    }
}

/// The parent of a path along plain names is the path along all but the last
/// of them, or the root.
pub open spec fn parent_text(names: Seq<Seq<char>>) -> Seq<char> {
    if names.len() <= 1 {
        seq!['/']
    } else {
        rooted(names.drop_last())
    }
}

/// The views of a list of names.
pub open spec fn name_views(names: Seq<Vec<char>>) -> Seq<Seq<char>> {
    Seq::new(names.len(), |i: int| names[i]@)
}

fn split_names(raw: &str) -> (r: Option<Vec<Vec<char>>>)
    ensures
        r is Some <==> safe_names(raw@) is Some,
        r matches Some(names) ==> safe_names(raw@) == Some(name_views(names@)),
{
    let chars: Vec<char> = to_chars(raw);
    let dot: Vec<char> = to_chars(".");
    let dots: Vec<char> = to_chars("..");
    proof {
        reveal_strlit(".");
        reveal_strlit("..");
        assert("."@ =~= seq!['.']);
        assert(".."@ =~= seq!['.', '.']);
    }
    let mut names: Vec<Vec<char>> = Vec::new();
    let mut current: Vec<char> = Vec::new();
    let mut unsafe_seen: bool = false;
    let mut i: usize = 0;
    let ghost mut done: Seq<Seq<char>> = Seq::empty();
    proof {
        assert(raw@.take(0) == Seq::<char>::empty());
        assert(path::pieces(raw@.take(0)) =~= done.push(current@));
        assert(name_views(names@) =~= Seq::<Seq<char>>::empty());
    }
    while i < chars.len()
        invariant
            i <= chars@.len(),
            chars@ == raw@,
            dot@ == seq!['.'],
            dots@ == seq!['.', '.'],
            path::pieces(raw@.take(i as int)) == done.push(current@),
            names_among(done) == name_views(names@),
            unsafe_seen == name_views(names@).contains(seq!['.', '.']),
        decreases chars.len() - i,
    {
        let c: char = chars[i];
        let ghost t = raw@.take(i + 1);
        proof {
            assert(t.drop_last() == raw@.take(i as int));
            assert(t.last() == c);
            assert(done.push(current@).drop_last() == done);
        }
        if c == '/' {
            proof {
                assert(done.push(current@).drop_last() =~= done);
            }
            let ghost before = name_views(names@);
            if current.len() > 0 && !same_chars(&current, &dot) {
                let is_up: bool = same_chars(&current, &dots);
                let ghost name = current@;
                names.push(current);
                proof {
                    assert(name_views(names@) =~= before.push(name));
                    lemma_push_contains(before, name, seq!['.', '.']);
                }
                unsafe_seen = unsafe_seen || is_up;
                proof {
                    done = done.push(name);
                    assert(done.drop_last() =~= done.take(done.len() - 1));
                }
            } else {
                proof {
                    assert(current@.len() == 0 ==> current@ =~= Seq::<char>::empty());
                    done = done.push(current@);
                }
            }
            proof {
                let d = done.drop_last();
                assert(done =~= d.push(done.last()));
            }
            current = Vec::new();
            proof {
                assert(path::pieces(t) =~= done.push(current@));
            }
        } else {
            let ghost earlier = current@;
            current.push(c);
            proof {
                assert(path::pieces(t) =~= done.push(current@));
            }
        }
        i += 1;
    }
    proof {
        assert(raw@.take(i as int) == raw@);
        assert(done.push(current@).drop_last() =~= done);
    }
    let ghost before = name_views(names@);
    if current.len() > 0 && !same_chars(&current, &dot) {
        let is_up: bool = same_chars(&current, &dots);
        let ghost name = current@;
        names.push(current);
        proof {
            assert(name_views(names@) =~= before.push(name));
            lemma_push_contains(before, name, seq!['.', '.']);
        }
        unsafe_seen = unsafe_seen || is_up;
    }
    if unsafe_seen || names.len() == 0 {
        None
    } else {
        Some(names)
    }
}

proof fn lemma_push_contains<A>(s: Seq<A>, e: A, x: A)
    ensures
        s.push(e).contains(x) <==> s.contains(x) || e == x,
{
    let t = s.push(e);
    if s.contains(x) {
        let i = choose|i: int| 0 <= i < s.len() && s[i] == x;
        assert(t[i] == x);
    }
    if e == x {
        assert(t[s.len() as int] == x);
    }
    if t.contains(x) {
        let i = choose|i: int| 0 <= i < t.len() && t[i] == x;
        if i < s.len() {
            assert(s[i] == x);
        }
    }
}

fn rooted_path(names: &Vec<Vec<char>>, n: usize) -> (r: VfsPath)
    requires
        n <= names@.len(),
    ensures
        r@ == rooted(name_views(names@).take(n as int)),
{
    let mut out: Vec<char> = Vec::new();
    let ghost views = name_views(names@);
    let mut i: usize = 0;
    proof {
        assert(views.take(0) == Seq::<Seq<char>>::empty());
    }
    while i < n
        invariant
            i <= n <= names@.len(),
            views == name_views(names@),
            out@ == rooted(views.take(i as int)),
        decreases n - i,
    {
        let ghost before = out@;
        out.push('/');
        let mut name: Vec<char> = text::slice_chars(&names[i], 0, names[i].len());
        proof {
            assert(name@ =~= views[i as int]);
        }
        let ghost last = name@;
        out.append(&mut name);
        proof {
            let t = views.take(i + 1);
            assert(t.drop_last() == views.take(i as int));
            assert(t.last() == last);
            assert(out@ =~= before.push('/') + last);
        }
        i += 1;
    }
    VfsPath::from_text(from_chars(&out))
}

/// Rejects an entry path that could escape the archive's own root (a `..`
/// component), and paths that name nothing. A leading slash is dropped.
pub fn sanitize_path(raw: &str) -> (r: Option<VfsPath>)
    ensures
        r is Some <==> sanitized(raw@) is Some,
        r matches Some(p) ==> sanitized(raw@) == Some(p@),
{
    match split_names(raw) {
        None => None,
        Some(names) => {
            let p: VfsPath = rooted_path(&names, names.len());
            proof {
                let views = name_views(names@);
                assert(views.take(views.len() as int) == views);
            }
            Some(p)
        },
    }
}

/// Whether the path along `a` is listed before the path along `b`: the first
/// names that differ decide, and a directory comes before what it holds.
pub open spec fn names_before(a: Seq<Seq<char>>, b: Seq<Seq<char>>) -> bool
    decreases a.len(),
{
    if b.len() == 0 {
        false
    } else if a.len() == 0 {
        true
    } else if a[0] != b[0] {
        text::comes_before(a[0], b[0])
    } else {
        names_before(a.skip(1), b.skip(1))
    }
}

/// Nothing is listed before itself, and of two different paths exactly one is
/// listed before the other.
pub proof fn lemma_names_total(a: Seq<Seq<char>>, b: Seq<Seq<char>>)
    ensures
        a == b ==> !names_before(a, b),
        a != b ==> names_before(a, b) != names_before(b, a),
    decreases a.len(),
{
    if a.len() > 0 && b.len() > 0 {
        text::lemma_before_total(a[0], b[0]);
        if a[0] == b[0] {
            lemma_names_total(a.skip(1), b.skip(1));
            assert(a == seq![a[0]] + a.skip(1));
            assert(b == seq![b[0]] + b.skip(1));
        }
    } else if a.len() == 0 && b.len() == 0 {
        assert(a == b);
    }
}

/// The order of paths is transitive.
pub proof fn lemma_names_transitive(a: Seq<Seq<char>>, b: Seq<Seq<char>>, c: Seq<Seq<char>>)
    requires
        names_before(a, b),
        names_before(b, c),
    ensures
        names_before(a, c),
    decreases a.len(),
{
    if a.len() > 0 {
        text::lemma_before_total(a[0], b[0]);
        text::lemma_before_total(b[0], c[0]);
        text::lemma_before_total(a[0], c[0]);
        if a[0] == b[0] && b[0] == c[0] {
            lemma_names_transitive(a.skip(1), b.skip(1), c.skip(1));
        } else if a[0] != b[0] && b[0] != c[0] {
            text::lemma_before_transitive(a[0], b[0], c[0]);
        }
    }
}

fn names_less(a: &Vec<Vec<char>>, b: &Vec<Vec<char>>) -> (r: bool)
    ensures
        r == names_before(name_views(a@), name_views(b@)),
{
    let ghost x = name_views(a@);
    let ghost y = name_views(b@);
    let mut i: usize = 0;
    proof {
        assert(x.skip(0) == x);
        assert(y.skip(0) == y);
    }
    while i < a.len() && i < b.len()
        invariant
            i <= a@.len(),
            i <= b@.len(),
            x == name_views(a@),
            y == name_views(b@),
            names_before(x, y) == names_before(x.skip(i as int), y.skip(i as int)),
        decreases a.len() - i,
    {
        proof {
            assert(x.skip(i as int)[0] == a@[i as int]@);
            assert(y.skip(i as int)[0] == b@[i as int]@);
            assert(x.skip(i as int).skip(1) == x.skip(i + 1));
            assert(y.skip(i as int).skip(1) == y.skip(i + 1));
        }
        if !same_chars(&a[i], &b[i]) {
            return text_before(&a[i], &b[i]);
        }
        i += 1;
    }
    i < b.len()
}

/// What an index knows of an entry's kind.
pub ghost enum KindFacts {
    File,
    Dir,
    Symlink(Option<Seq<char>>),
    Other,
}

/// What an index knows of an entry besides its path.
pub ghost struct EntryFacts {
    pub kind: KindFacts,
    pub size: u64,
    pub modified: Option<FileTime>,
    pub permissions: Option<u32>,
}

/// A raw entry, with its texts as plain sequences.
pub ghost struct RawFacts {
    pub path: Seq<char>,
    pub is_dir: bool,
    pub is_symlink: bool,
    pub symlink_target: Option<Seq<char>>,
    pub size: u64,
    pub modified: Option<FileTime>,
    pub permissions: Option<u32>,
}

impl RawEntry {
    /// What the archive says of the entry.
    pub open spec fn facts(self) -> RawFacts {
        RawFacts {
            path: self.raw_path@,
            is_dir: self.is_dir,
            is_symlink: self.is_symlink,
            symlink_target: match self.symlink_target {
                Some(t) => Some(t@),
                None => None,
            },
            size: self.size,
            modified: self.modified,
            permissions: self.permissions,
        }
    }
}

/// What an archive says of its entries.
pub open spec fn all_facts(raw: Seq<RawEntry>) -> Seq<RawFacts> {
    Seq::new(raw.len(), |i: int| raw[i].facts())
}

/// The facts of a raw entry; a link's target is made clean like any other path.
pub open spec fn raw_facts(raw: RawFacts) -> EntryFacts {
    EntryFacts {
        kind: if raw.is_symlink {
            KindFacts::Symlink(
                match raw.symlink_target {
                    Some(t) => sanitized(t),
                    None => None,
                },
            )
        } else if raw.is_dir {
            KindFacts::Dir
        } else {
            KindFacts::File
        },
        size: raw.size,
        modified: raw.modified,
        permissions: raw.permissions,
    }
}

/// The facts of an index entry.
pub open spec fn entry_facts(e: ArchiveEntry) -> EntryFacts {
    EntryFacts {
        kind: match e.kind {
            EntryKind::File => KindFacts::File,
            EntryKind::Dir => KindFacts::Dir,
            EntryKind::Symlink { target: None } => KindFacts::Symlink(None),
            EntryKind::Symlink { target: Some(t) } => KindFacts::Symlink(Some(t@)),
            EntryKind::Other => KindFacts::Other,
        },
        size: e.size,
        modified: e.modified,
        permissions: e.permissions,
    }
}

/// The facts of a directory that the archive does not mention itself.
pub open spec fn made_dir() -> EntryFacts {
    EntryFacts { kind: KindFacts::Dir, size: 0, modified: None, permissions: None }
}

/// What the raw entries with a safe path say, by the names that lead to them;
/// a later entry of the same path takes the place of an earlier one.
pub open spec fn explicit_entries(raw: Seq<RawFacts>) -> Map<Seq<Seq<char>>, EntryFacts>
    decreases raw.len(),
{
    if raw.len() == 0 {
        Map::empty()
    } else {
        let before = explicit_entries(raw.drop_last());
        match safe_names(raw.last().path) {
            Some(names) => before.insert(names, raw_facts(raw.last())),
            None => before,
        }
    }
}

/// Whether `n` is a directory on the way to `below`.
pub open spec fn is_above(n: Seq<Seq<char>>, below: Seq<Seq<char>>) -> bool {
    0 < n.len() < below.len() && below.take(n.len() as int) == n
}

/// Whether `n` is a directory on the way to one of the entries.
pub open spec fn is_above_some(n: Seq<Seq<char>>, m: Map<Seq<Seq<char>>, EntryFacts>) -> bool {
    exists|k: Seq<Seq<char>>| #[trigger] m.contains_key(k) && is_above(n, k)
}

/// The entries together with the directories on the way to them.
pub open spec fn with_parents(m: Map<Seq<Seq<char>>, EntryFacts>) -> Map<
    Seq<Seq<char>>,
    EntryFacts,
> {
    Map::new(
        |n: Seq<Seq<char>>| m.contains_key(n) || is_above_some(n, m),
        |n: Seq<Seq<char>>|
            if m.contains_key(n) {
                m[n]
            } else {
                made_dir()
            },
    )
}

/// The names that lead to an index entry.
pub open spec fn key_of(e: ArchiveEntry) -> Seq<Seq<char>> {
    path::components(e.path@)
}

/// A list of entries that is an index: safe, clean paths in strict order.
pub open spec fn is_index(entries: Seq<ArchiveEntry>) -> bool {
    &&& forall|i: int|
        0 <= i < entries.len() ==> {
            let e = #[trigger] entries[i];
            key_of(e).len() > 0 && all_plain(key_of(e)) && e.path@ == rooted(key_of(e))
        }
    &&& forall|i: int, j: int|
        0 <= i < j < entries.len() ==> #[trigger] names_before(
            key_of(entries[i]),
            key_of(entries[j]),
        )
}

/// What an index says, by the names that lead to its entries.
pub open spec fn index_contents(entries: Seq<ArchiveEntry>) -> Map<Seq<Seq<char>>, EntryFacts> {
    Map::new(
        |n: Seq<Seq<char>>| exists|i: int| 0 <= i < entries.len() && key_of(#[trigger] entries[i]) == n,
        |n: Seq<Seq<char>>|
            entry_facts(
                entries[choose|i: int| 0 <= i < entries.len() && key_of(#[trigger] entries[i]) == n],
            ),
    )
}

/// Each entry of an index stands in it under its own names.
pub proof fn lemma_index_contents(entries: Seq<ArchiveEntry>, i: int)
    requires
        is_index(entries),
        0 <= i < entries.len(),
    ensures
        index_contents(entries).contains_key(key_of(entries[i])),
        index_contents(entries)[key_of(entries[i])] == entry_facts(entries[i]),
{
    let n = key_of(entries[i]);
    let k = choose|k: int| 0 <= k < entries.len() && key_of(#[trigger] entries[k]) == n;
    if k < i {
        assert(names_before(key_of(entries[k]), key_of(entries[i])));
        lemma_names_total(n, n);
    } else if i < k {
        assert(names_before(key_of(entries[i]), key_of(entries[k])));
        lemma_names_total(n, n);
    }
}

struct Table {
    keys: Vec<Vec<Vec<char>>>,
    entries: Vec<ArchiveEntry>,
}

impl Table {
    spec fn is_valid(self) -> bool {
        &&& self.keys@.len() == self.entries@.len()
        &&& is_index(self.entries@)
        &&& forall|i: int|
            0 <= i < self.keys@.len() ==> name_views(#[trigger] self.keys@[i]@) == key_of(
                self.entries@[i],
            )
    }

    /// The first position whose path is not listed before `names`.
    fn slot(&self, names: &Vec<Vec<char>>) -> (r: usize)
        requires
            self.is_valid(),
        ensures
            r <= self.entries@.len(),
            forall|i: int|
                0 <= i < r ==> names_before(
                    key_of(#[trigger] self.entries@[i]),
                    name_views(names@),
                ),
            r < self.entries@.len() ==> !names_before(
                key_of(self.entries@[r as int]),
                name_views(names@),
            ),
    {
        let mut at: usize = self.keys.len();
        while at > 0 && !names_less(&self.keys[at - 1], names)
            invariant
                at <= self.keys@.len(),
                self.is_valid(),
                at < self.entries@.len() ==> !names_before(
                    key_of(self.entries@[at as int]),
                    name_views(names@),
                ),
            decreases at,
        {
            proof {
                assert(name_views(self.keys@[at - 1]@) == key_of(self.entries@[at - 1]));
            }
            at -= 1;
        }
        proof {
            let n = name_views(names@);
            assert forall|i: int| 0 <= i < at implies names_before(
                key_of(#[trigger] self.entries@[i]),
                n,
            ) by {
                assert(name_views(self.keys@[at - 1]@) == key_of(self.entries@[at - 1]));
                if i < at - 1 {
                    assert(names_before(key_of(self.entries@[i]), key_of(self.entries@[at - 1])));
                    lemma_names_transitive(
                        key_of(self.entries@[i]),
                        key_of(self.entries@[at - 1]),
                        n,
                    );
                }
            }
        }
        at
    }

    /// Puts `entry` under `names`, in place of what is there if `overwrite`
    /// says so.
    fn put(&mut self, names: Vec<Vec<char>>, entry: ArchiveEntry, overwrite: bool)
        requires
            old(self).is_valid(),
            name_views(names@).len() > 0,
            all_plain(name_views(names@)),
            entry.path@ == rooted(name_views(names@)),
        ensures
            final(self).is_valid(),
            index_contents(final(self).entries@) == (if overwrite || !index_contents(
                old(self).entries@,
            ).contains_key(name_views(names@)) {
                index_contents(old(self).entries@).insert(name_views(names@), entry_facts(entry))
            } else {
                index_contents(old(self).entries@)
            }),
    {
        let at: usize = self.slot(&names);
        let ghost n = name_views(names@);
        let ghost before = self.entries@;
        proof {
            law_rooted_is_clean(n);
            assert(key_of(entry) == n);
            if at < before.len() {
                lemma_names_total(key_of(before[at as int]), n);
                assert(name_views(self.keys@[at as int]@) == key_of(before[at as int]));
            }
        }
        let present: bool = at < self.keys.len() && !names_less(&names, &self.keys[at]);
        if present {
            proof {
                assert(key_of(before[at as int]) == n);
                assert(index_contents(before).contains_key(n));
            }
            if overwrite {
                self.entries.set(at, entry);
                proof {
                    lemma_replace_index(before, at as int, entry);
                    let after = self.entries@;
                    assert forall|i: int| 0 <= i < self.keys@.len() implies name_views(
                        #[trigger] self.keys@[i]@,
                    ) == key_of(after[i]) by {
                        if i != at {
                            assert(after[i] == before[i]);
                        }
                    }
                }
            }
        } else {
            proof {
                assert forall|i: int| at <= i < before.len() implies names_before(
                    n,
                    key_of(#[trigger] before[i]),
                ) by {
                    if i > at {
                        assert(names_before(key_of(before[at as int]), key_of(before[i])));
                        lemma_names_transitive(n, key_of(before[at as int]), key_of(before[i]));
                    }
                }
                lemma_insert_index(before, at as int, entry);
            }
            let ghost keys_before = self.keys@;
            self.keys.insert(at, names);
            self.entries.insert(at, entry);
            proof {
                let after = self.entries@;
                assert(after == before.insert(at as int, entry));
                assert forall|i: int| 0 <= i < self.keys@.len() implies name_views(
                    #[trigger] self.keys@[i]@,
                ) == key_of(after[i]) by {
                    if i < at {
                        assert(self.keys@[i] == keys_before[i]);
                        assert(after[i] == before[i]);
                    } else if i > at {
                        assert(self.keys@[i] == keys_before[i - 1]);
                        assert(after[i] == before[i - 1]);
                    }
                }
            }
        }
    }
}

proof fn lemma_insert_index(before: Seq<ArchiveEntry>, at: int, entry: ArchiveEntry)
    requires
        is_index(before),
        0 <= at <= before.len(),
        key_of(entry).len() > 0,
        all_plain(key_of(entry)),
        entry.path@ == rooted(key_of(entry)),
        forall|i: int| 0 <= i < at ==> names_before(key_of(#[trigger] before[i]), key_of(entry)),
        forall|i: int|
            at <= i < before.len() ==> names_before(key_of(entry), key_of(#[trigger] before[i])),
    ensures
        is_index(before.insert(at, entry)),
        index_contents(before.insert(at, entry)) == index_contents(before).insert(
            key_of(entry),
            entry_facts(entry),
        ),
        !index_contents(before).contains_key(key_of(entry)),
{
    let after = before.insert(at, entry);
    let n = key_of(entry);
    assert forall|i: int| 0 <= i < after.len() implies ({
        let e = #[trigger] after[i];
        key_of(e).len() > 0 && all_plain(key_of(e)) && e.path@ == rooted(key_of(e))
    }) by {
        if i < at {
            assert(after[i] == before[i]);
        } else if i > at {
            assert(after[i] == before[i - 1]);
        }
    }
    assert forall|i: int, j: int| 0 <= i < j < after.len() implies #[trigger] names_before(
        key_of(after[i]),
        key_of(after[j]),
    ) by {
        let i0 = if i < at {
            i
        } else {
            i - 1
        };
        let j0 = if j < at {
            j
        } else {
            j - 1
        };
        if i == at {
            assert(after[j] == before[j0]);
        } else if j == at {
            assert(after[i] == before[i0]);
        } else {
            assert(after[i] == before[i0]);
            assert(after[j] == before[j0]);
            assert(names_before(key_of(before[i0]), key_of(before[j0])));
        }
    }
    if index_contents(before).contains_key(n) {
        let i = choose|i: int| 0 <= i < before.len() && key_of(#[trigger] before[i]) == n;
        lemma_names_total(n, n);
    }
    let a = index_contents(after);
    let b = index_contents(before).insert(n, entry_facts(entry));
    assert forall|k: Seq<Seq<char>>| a.contains_key(k) <==> b.contains_key(k) by {
        if a.contains_key(k) {
            let i = choose|i: int| 0 <= i < after.len() && key_of(#[trigger] after[i]) == k;
            if i < at {
                assert(after[i] == before[i]);
            } else if i > at {
                assert(after[i] == before[i - 1]);
            }
        }
        if b.contains_key(k) {
            if k == n {
                assert(after[at] == entry);
            } else {
                let i = choose|i: int| 0 <= i < before.len() && key_of(#[trigger] before[i]) == k;
                if i < at {
                    assert(after[i] == before[i]);
                } else {
                    assert(after[i + 1] == before[i]);
                }
            }
        }
    }
    assert forall|k: Seq<Seq<char>>| a.contains_key(k) implies a[k] == b[k] by {
        let i = choose|i: int| 0 <= i < after.len() && key_of(#[trigger] after[i]) == k;
        lemma_index_contents(after, i);
        if i == at {
            assert(k == n);
        } else if i < at {
            assert(after[i] == before[i]);
            lemma_index_contents(before, i);
        } else {
            assert(after[i] == before[i - 1]);
            lemma_index_contents(before, i - 1);
        }
    }
    assert(a =~= b);
}

proof fn lemma_replace_index(before: Seq<ArchiveEntry>, at: int, entry: ArchiveEntry)
    requires
        is_index(before),
        0 <= at < before.len(),
        key_of(entry) == key_of(before[at]),
        entry.path@ == rooted(key_of(entry)),
    ensures
        is_index(before.update(at, entry)),
        index_contents(before.update(at, entry)) == index_contents(before).insert(
            key_of(entry),
            entry_facts(entry),
        ),
{
    let after = before.update(at, entry);
    let n = key_of(entry);
    assert forall|i: int| 0 <= i < after.len() implies ({
        let e = #[trigger] after[i];
        key_of(e).len() > 0 && all_plain(key_of(e)) && e.path@ == rooted(key_of(e))
    }) by {
        assert(key_of(before[i]) == key_of(after[i]));
    }
    assert forall|i: int, j: int| 0 <= i < j < after.len() implies #[trigger] names_before(
        key_of(after[i]),
        key_of(after[j]),
    ) by {
        assert(names_before(key_of(before[i]), key_of(before[j])));
    }
    let a = index_contents(after);
    let b = index_contents(before).insert(n, entry_facts(entry));
    assert forall|k: Seq<Seq<char>>| a.contains_key(k) <==> b.contains_key(k) by {
        if a.contains_key(k) {
            let i = choose|i: int| 0 <= i < after.len() && key_of(#[trigger] after[i]) == k;
            assert(key_of(before[i]) == k);
        }
        if b.contains_key(k) {
            if k == n {
                assert(after[at] == entry);
            } else {
                let i = choose|i: int| 0 <= i < before.len() && key_of(#[trigger] before[i]) == k;
                assert(key_of(after[i]) == k);
            }
        }
    }
    assert forall|k: Seq<Seq<char>>| a.contains_key(k) implies a[k] == b[k] by {
        let i = choose|i: int| 0 <= i < after.len() && key_of(#[trigger] after[i]) == k;
        lemma_index_contents(after, i);
        if i != at {
            assert(after[i] == before[i]);
            lemma_index_contents(before, i);
            if k == n {
                lemma_names_total(n, n);
                if i < at {
                    assert(names_before(key_of(before[i]), key_of(before[at])));
                } else {
                    assert(names_before(key_of(before[at]), key_of(before[i])));
                }
            }
        }
    }
    assert(a =~= b);
}

fn clone_names(names: &Vec<Vec<char>>, n: usize) -> (r: Vec<Vec<char>>)
    requires
        n <= names@.len(),
    ensures
        name_views(r@) == name_views(names@).take(n as int),
{
    let mut out: Vec<Vec<char>> = Vec::new();
    let mut i: usize = 0;
    proof {
        assert(name_views(out@) =~= name_views(names@).take(0));
    }
    while i < n
        invariant
            i <= n <= names@.len(),
            name_views(out@) == name_views(names@).take(i as int),
        decreases n - i,
    {
        let name: Vec<char> = text::slice_chars(&names[i], 0, names[i].len());
        proof {
            assert(name@ =~= names@[i as int]@);
        }
        let ghost before = name_views(out@);
        out.push(name);
        proof {
            assert(name_views(out@) =~= before.push(name@));
            assert(name_views(names@).take(i + 1) =~= before.push(name@));
        }
        i += 1;
    }
    out
}

fn entry_kind(raw: &RawEntry) -> (r: EntryKind)
    ensures
        (match r {
            EntryKind::File => KindFacts::File,
            EntryKind::Dir => KindFacts::Dir,
            EntryKind::Symlink { target: None } => KindFacts::Symlink(None),
            EntryKind::Symlink { target: Some(t) } => KindFacts::Symlink(Some(t@)),
            EntryKind::Other => KindFacts::Other,
        }) == raw_facts(raw.facts()).kind,
{
    if raw.is_symlink {
        let target: Option<VfsPath> = match &raw.symlink_target {
            Some(t) => sanitize_path(t.as_str()),
            None => None,
        };
        EntryKind::Symlink { target }
    } else if raw.is_dir {
        EntryKind::Dir
    } else {
        EntryKind::File
    }
}

/// Builds the index of an archive from its raw entries: entries with an unsafe
/// or empty path are left out, of several with the same path the last counts,
/// and directories that are only mentioned on the way to something are added.
pub fn build_index(raw_entries: &Vec<RawEntry>) -> (r: Vec<ArchiveEntry>)
    ensures
        is_index(r@),
        index_contents(r@) == with_parents(explicit_entries(all_facts(raw_entries@))),
{
    let mut table = Table { keys: Vec::new(), entries: Vec::new() };
    let mut i: usize = 0;
    proof {
        assert(index_contents(table.entries@) =~= Map::<Seq<Seq<char>>, EntryFacts>::empty());
        assert(all_facts(raw_entries@).take(0) == Seq::<RawFacts>::empty());
    }
    while i < raw_entries.len()
        invariant
            i <= raw_entries@.len(),
            table.is_valid(),
            index_contents(table.entries@) == explicit_entries(
                all_facts(raw_entries@).take(i as int),
            ),
        decreases raw_entries.len() - i,
    {
        let raw: &RawEntry = &raw_entries[i];
        proof {
            let t = all_facts(raw_entries@).take(i + 1);
            assert(t.drop_last() == all_facts(raw_entries@).take(i as int));
            assert(t.last() == raw.facts());
        }
        match split_names(raw.raw_path.as_str()) {
            None => {},
            Some(names) => {
                let ghost views = name_views(names@);
                let p: VfsPath = rooted_path(&names, names.len());
                proof {
                    assert(views.take(views.len() as int) == views);
                    law_safe_names_are_plain(raw.raw_path@);
                }
                let entry = ArchiveEntry {
                    path: p,
                    kind: entry_kind(raw),
                    size: raw.size,
                    modified: raw.modified,
                    permissions: raw.permissions,
                };
                proof {
                    assert(entry_facts(entry) == raw_facts(raw.facts()));
                }
                table.put(names, entry, true);
            },
        }
        i += 1;
    }
    proof {
        let facts = all_facts(raw_entries@);
        assert(facts.take(i as int) == facts);
    }
    add_parents(&mut table);
    table.entries
}

/// Whether `n` is on the way to one of the first `i` entries, or by its first
/// `k` names to the next.
spec fn added(
    entries: Seq<ArchiveEntry>,
    i: int,
    k: int,
    n: Seq<Seq<char>>,
) -> bool {
    ||| exists|j: int| 0 <= j < i && j < entries.len() && is_above(n, key_of(#[trigger] entries[j]))
    ||| i < entries.len() && n.len() <= k && is_above(n, key_of(entries[i]))
}

spec fn is_grown(
    m: Map<Seq<Seq<char>>, EntryFacts>,
    grown: Map<Seq<Seq<char>>, EntryFacts>,
    entries: Seq<ArchiveEntry>,
    i: int,
    k: int,
) -> bool {
    &&& forall|n: Seq<Seq<char>>|
        #![trigger grown.contains_key(n)]
        grown.contains_key(n) <==> m.contains_key(n) || added(entries, i, k, n)
    &&& forall|n: Seq<Seq<char>>|
        #![trigger grown[n]]
        grown.contains_key(n) ==> grown[n] == (if m.contains_key(n) {
            m[n]
        } else {
            made_dir()
        })
}

fn add_parents(table: &mut Table)
    requires
        old(table).is_valid(),
    ensures
        final(table).is_valid(),
        index_contents(final(table).entries@) == with_parents(index_contents(old(table).entries@)),
{
    let ghost start = table.entries@;
    let ghost m = index_contents(start);
    let mut keys: Vec<Vec<Vec<char>>> = Vec::new();
    let mut c: usize = 0;
    while c < table.keys.len()
        invariant
            c <= table.keys@.len(),
            keys@.len() == c,
            *table == *old(table),
            table.is_valid(),
            forall|j: int|
                0 <= j < c ==> name_views(#[trigger] keys@[j]@) == key_of(table.entries@[j]),
        decreases table.keys.len() - c,
    {
        let names: Vec<Vec<char>> = clone_names(&table.keys[c], table.keys[c].len());
        proof {
            let v = name_views(table.keys@[c as int]@);
            assert(v.take(v.len() as int) == v);
        }
        keys.push(names);
        c += 1;
    }
    proof {
        assert(is_grown(m, m, start, 0, 0));
    }
    let mut i: usize = 0;
    while i < keys.len()
        invariant
            i <= keys@.len(),
            keys@.len() == start.len(),
            is_index(start),
            m == index_contents(start),
            forall|j: int|
                0 <= j < keys@.len() ==> name_views(#[trigger] keys@[j]@) == key_of(start[j]),
            table.is_valid(),
            is_grown(m, index_contents(table.entries@), start, i as int, 0),
        decreases keys.len() - i,
    {
        let mut k: usize = 0;
        let len: usize = keys[i].len();
        let ghost whole = key_of(start[i as int]);
        proof {
            assert(name_views(keys@[i as int]@) == whole);
        }
        while k + 1 < len
            invariant
                k < len,
                i < keys@.len(),
                keys@.len() == start.len(),
                is_index(start),
                m == index_contents(start),
                whole == key_of(start[i as int]),
                len == keys@[i as int]@.len(),
                len == whole.len(),
                name_views(keys@[i as int]@) == whole,
                table.is_valid(),
                is_grown(m, index_contents(table.entries@), start, i as int, k as int),
            decreases len - k,
        {
            k += 1;
            let names: Vec<Vec<char>> = clone_names(&keys[i], k);
            let p: VfsPath = rooted_path(&names, names.len());
            let ghost n = name_views(names@);
            proof {
                assert(n.take(n.len() as int) == n);
                assert(n == whole.take(k as int));
                assert(all_plain(whole)) by {
                    let e = start[i as int];
                }
                assert forall|j: int| 0 <= j < n.len() implies path::is_plain_name(
                    #[trigger] n[j],
                ) by {
                    assert(n[j] == whole[j]);
                }
            }
            let ghost before = index_contents(table.entries@);
            let entry = ArchiveEntry {
                path: p,
                kind: EntryKind::Dir,
                size: 0,
                modified: None,
                permissions: None,
            };
            table.put(names, entry, false);
            proof {
                let after = index_contents(table.entries@);
                assert(is_above(n, whole));
                assert forall|x: Seq<Seq<char>>| #![trigger after.contains_key(x)] after.contains_key(x)
                    <==> m.contains_key(x) || added(start, i as int, k as int, x) by {
                    assert(before.contains_key(x) <==> m.contains_key(x) || added(
                        start,
                        i as int,
                        k - 1,
                        x,
                    ));
                    if x.len() == k && is_above(x, whole) {
                        assert(x == n);
                    }
                }
                assert forall|x: Seq<Seq<char>>| #![trigger after[x]] after.contains_key(x) implies after[x] == (
                if m.contains_key(x) {
                    m[x]
                } else {
                    made_dir()
                }) by {
                    if before.contains_key(x) {
                        assert(before[x] == after[x] || x == n);
                        assert(before[x] == (if m.contains_key(x) {
                            m[x]
                        } else {
                            made_dir()
                        }));
                    } else {
                        assert(!m.contains_key(x));
                    }
                }
                assert(is_grown(m, after, start, i as int, k as int));
            }
        }
        proof {
            let grown = index_contents(table.entries@);
            assert(whole.len() > 0) by {
                let e = start[i as int];
            }
            assert forall|x: Seq<Seq<char>>| #![trigger grown.contains_key(x)] grown.contains_key(x) <==> m.contains_key(x)
                || added(start, i + 1, 0, x) by {
                if added(start, i + 1, 0, x) && !(i + 1 < start.len() && x.len() <= 0) {
                    let j = choose|j: int|
                        0 <= j < i + 1 && j < start.len() && is_above(x, key_of(#[trigger] start[j]));
                    if j < i {
                        assert(added(start, i as int, k as int, x));
                    } else {
                        assert(is_above(x, whole));
                        assert(x.len() <= k);
                    }
                }
                if added(start, i as int, k as int, x) {
                    if exists|j: int|
                        0 <= j < i && j < start.len() && is_above(x, key_of(#[trigger] start[j])) {
                        let j = choose|j: int|
                            0 <= j < i && j < start.len() && is_above(
                                x,
                                key_of(#[trigger] start[j]),
                            );
                        assert(0 <= j < i + 1);
                    } else {
                        assert(is_above(x, key_of(start[i as int])));
                    }
                }
            }
            assert(is_grown(m, grown, start, i + 1, 0));
        }
        i += 1;
    }
    proof {
        let grown = index_contents(table.entries@);
        let want = with_parents(m);
        assert forall|x: Seq<Seq<char>>| grown.contains_key(x) <==> want.contains_key(x) by {
            if added(start, i as int, 0, x) {
                let j = choose|j: int|
                    0 <= j < i && j < start.len() && is_above(x, key_of(#[trigger] start[j]));
                lemma_index_contents(start, j);
                assert(is_above_some(x, m));
            }
            if is_above_some(x, m) {
                let key = choose|key: Seq<Seq<char>>| #[trigger] m.contains_key(key) && is_above(x, key);
                let j = choose|j: int| 0 <= j < start.len() && key_of(#[trigger] start[j]) == key;
                assert(added(start, i as int, 0, x));
            }
        }
        assert forall|x: Seq<Seq<char>>| grown.contains_key(x) implies grown[x] == want[x] by {}
        assert(grown =~= want);
    }
}

/// Every entry of an index lies below the archive's root on a clean path, and
/// the directory that holds it is the root or stands in the index too.
pub proof fn law_index_is_closed(raw: Seq<RawFacts>, names: Seq<Seq<char>>)
    requires
        with_parents(explicit_entries(raw)).contains_key(names),
    ensures
        names.len() > 0,
        all_plain(names),
        path::is_clean(rooted(names)),
        names.len() > 1 ==> with_parents(explicit_entries(raw)).contains_key(names.drop_last()),
{
    let m = explicit_entries(raw);
    if m.contains_key(names) {
        lemma_explicit_is_safe(raw, names);
        if names.len() > 1 {
            let up = names.drop_last();
            assert(names.take(up.len() as int) == up);
            assert(is_above(up, names));
            assert(is_above_some(up, m));
        }
    } else {
        let key = choose|key: Seq<Seq<char>>| #[trigger] m.contains_key(key) && is_above(names, key);
        lemma_explicit_is_safe(raw, key);
        assert forall|i: int| 0 <= i < names.len() implies path::is_plain_name(
            #[trigger] names[i],
        ) by {
            assert(names[i] == key[i]);
        }
        if names.len() > 1 {
            let up = names.drop_last();
            assert(key.take(up.len() as int) =~= up) by {
                assert(key.take(names.len() as int) == names);
            }
            assert(is_above(up, key));
            assert(is_above_some(up, m));
        }
    }
    law_rooted_is_clean(names);
}

proof fn lemma_explicit_is_safe(raw: Seq<RawFacts>, names: Seq<Seq<char>>)
    requires
        explicit_entries(raw).contains_key(names),
    ensures
        names.len() > 0,
        all_plain(names),
    decreases raw.len(),
{
    if raw.len() > 0 {
        match safe_names(raw.last().path) {
            Some(n) => {
                if n == names {
                    law_safe_names_are_plain(raw.last().path);
                } else {
                    lemma_explicit_is_safe(raw.drop_last(), names);
                }
            },
            None => {
                lemma_explicit_is_safe(raw.drop_last(), names);
            },
        }
    }
}

proof fn lemma_names_are_components(p: Seq<Seq<char>>)
    requires
        p.len() > 0,
    ensures
        p[0] == seq!['.'] ==> path::named_pieces(p) == seq![seq!['.']] + names_among(p),
        p[0] != seq!['.'] ==> path::named_pieces(p) == names_among(p),
    decreases p.len(),
{
    let before = p.drop_last();
    if p.len() == 1 {
        reveal_with_fuel(path::named_pieces, 2);
        reveal_with_fuel(names_among, 2);
        if p[0] == seq!['.'] {
            assert(path::named_pieces(p) =~= seq![seq!['.']]);
            assert(seq![seq!['.']] + names_among(p) =~= seq![seq!['.']]);
        }
    } else {
        lemma_names_are_components(before);
        assert(before[0] == p[0]);
        if !(p.last().len() == 0 || p.last() == seq!['.']) && p[0] == seq!['.'] {
            assert(path::named_pieces(p) =~= seq![seq!['.']] + names_among(p));
        }
    }
}

/// A raw path is turned into the absolute path with the same components, but for
/// a dot at its front. It is refused exactly if it has no such component or one of
/// them would lead upwards.
pub proof fn law_sanitized_keeps_components(raw: Seq<char>)
    ensures
        ({
            let all = path::components(raw);
            let names = if all.len() > 0 && all[0] == seq!['.'] {
                all.skip(1)
            } else {
                all
            };
            &&& sanitized(raw) is Some <==> names.len() > 0 && !names.contains(seq!['.', '.'])
            &&& sanitized(raw) is Some ==> path::is_absolute(sanitized(raw)->0)
                && path::components(sanitized(raw)->0) == names
        }),
{
    let p = path::pieces(raw);
    lemma_pieces_have_no_slash(raw);
    lemma_names_are_components(p);
    let names = names_among(p);
    if p[0] == seq!['.'] {
        assert((seq![seq!['.']] + names).skip(1) =~= names);
    } else if path::components(raw).len() > 0 && path::components(raw)[0] == seq!['.'] {
        lemma_names_among_plain(p);
        assert(names[0] != seq!['.']);
    }
    if safe_names(raw) is Some {
        law_safe_names_are_plain(raw);
        law_rooted_is_clean(names);
    }
}

/// An entry whose path no other has is in the index under its path's components,
/// with its own size, time and permissions and as what it is: a link if it is one,
/// else a directory if it is one, else a file.
pub proof fn law_entry_is_indexed(raw: Seq<RawFacts>, i: int)
    requires
        0 <= i < raw.len(),
        sanitized(raw[i].path) is Some,
        forall|j: int|
            0 <= j < raw.len() && j != i && sanitized((#[trigger] raw[j]).path) is Some
                ==> path::components(sanitized(raw[j].path)->0) != path::components(
                sanitized(raw[i].path)->0,
            ),
    ensures
        ({
            let m = with_parents(explicit_entries(raw));
            let k = path::components(sanitized(raw[i].path)->0);
            &&& m.contains_key(k)
            &&& m[k].size == raw[i].size
            &&& m[k].modified == raw[i].modified
            &&& m[k].permissions == raw[i].permissions
            &&& raw[i].is_symlink <==> m[k].kind is Symlink
            &&& m[k].kind is Dir <==> raw[i].is_dir && !raw[i].is_symlink
            &&& m[k].kind is File <==> !raw[i].is_dir && !raw[i].is_symlink
        }),
    decreases raw.len(),
{
    let names = safe_names(raw[i].path)->0;
    law_safe_names_are_plain(raw[i].path);
    law_rooted_is_clean(names);
    lemma_explicit_is_own(raw, i);
}

proof fn lemma_explicit_is_own(raw: Seq<RawFacts>, i: int)
    requires
        0 <= i < raw.len(),
        sanitized(raw[i].path) is Some,
        forall|j: int|
            0 <= j < raw.len() && j != i && sanitized((#[trigger] raw[j]).path) is Some
                ==> path::components(sanitized(raw[j].path)->0) != path::components(
                sanitized(raw[i].path)->0,
            ),
    ensures
        explicit_entries(raw).contains_key(safe_names(raw[i].path)->0),
        explicit_entries(raw)[safe_names(raw[i].path)->0] == raw_facts(raw[i]),
    decreases raw.len(),
{
    let names = safe_names(raw[i].path)->0;
    let before = raw.drop_last();
    if i < raw.len() - 1 {
        assert(before[i] == raw[i]);
        assert forall|j: int|
            0 <= j < before.len() && j != i && sanitized((#[trigger] before[j]).path) is Some
            implies path::components(sanitized(before[j].path)->0) != path::components(
            sanitized(before[i].path)->0,
        ) by {
            assert(before[j] == raw[j]);
        }
        lemma_explicit_is_own(before, i);
        let last = raw[raw.len() - 1];
        assert(raw.last() == last);
        assert(sanitized(last.path) is Some ==> path::components(sanitized(last.path)->0)
            != path::components(sanitized(raw[i].path)->0));
    }
}

/// Of several entries with the same path the last counts, and a link leads where it
/// says, as a path within the archive.
pub proof fn law_last_entry_counts(raw: Seq<RawFacts>, i: int)
    requires
        0 <= i < raw.len(),
        sanitized(raw[i].path) is Some,
        forall|j: int|
            i < j < raw.len() && sanitized((#[trigger] raw[j]).path) is Some ==> path::components(
                sanitized(raw[j].path)->0,
            ) != path::components(sanitized(raw[i].path)->0),
    ensures
        ({
            let m = with_parents(explicit_entries(raw));
            let k = path::components(sanitized(raw[i].path)->0);
            &&& m.contains_key(k)
            &&& m[k].size == raw[i].size
            &&& m[k].modified == raw[i].modified
            &&& m[k].permissions == raw[i].permissions
            &&& m[k].kind is Dir <==> raw[i].is_dir && !raw[i].is_symlink
            &&& raw[i].is_symlink ==> (raw[i].symlink_target matches Some(t) ==> (sanitized(
                t,
            ) matches Some(to) ==> m[k].kind == KindFacts::Symlink(Some(to))))
        }),
{
    let names = safe_names(raw[i].path)->0;
    law_safe_names_are_plain(raw[i].path);
    law_rooted_is_clean(names);
    lemma_explicit_is_last(raw, i);
}

proof fn lemma_explicit_is_last(raw: Seq<RawFacts>, i: int)
    requires
        0 <= i < raw.len(),
        sanitized(raw[i].path) is Some,
        forall|j: int|
            i < j < raw.len() && sanitized((#[trigger] raw[j]).path) is Some ==> path::components(
                sanitized(raw[j].path)->0,
            ) != path::components(sanitized(raw[i].path)->0),
    ensures
        explicit_entries(raw).contains_key(safe_names(raw[i].path)->0),
        explicit_entries(raw)[safe_names(raw[i].path)->0] == raw_facts(raw[i]),
    decreases raw.len(),
{
    let before = raw.drop_last();
    if i < raw.len() - 1 {
        assert(before[i] == raw[i]);
        assert forall|j: int|
            i < j < before.len() && sanitized((#[trigger] before[j]).path) is Some
            implies path::components(sanitized(before[j].path)->0) != path::components(
            sanitized(before[i].path)->0,
        ) by {
            assert(before[j] == raw[j]);
        }
        lemma_explicit_is_last(before, i);
        let last = raw[raw.len() - 1];
        assert(raw.last() == last);
        assert(sanitized(last.path) is Some ==> path::components(sanitized(last.path)->0)
            != path::components(sanitized(raw[i].path)->0));
    }
}

/// An index makes nothing up: whatever it holds is an entry of the archive, or a
/// directory on the way to one.
pub proof fn law_nothing_is_made_up(raw: Seq<RawFacts>, names: Seq<Seq<char>>) -> (i: int)
    requires
        with_parents(explicit_entries(raw)).contains_key(names),
    ensures
        0 <= i < raw.len(),
        sanitized(raw[i].path) is Some,
        ({
            let all = path::components(sanitized(raw[i].path)->0);
            let m = with_parents(explicit_entries(raw));
            ||| all == names
            ||| names.len() < all.len() && all.take(names.len() as int) == names && m[names].kind
                is Dir && m[names].size == 0
        }),
{
    let m = explicit_entries(raw);
    if m.contains_key(names) {
        lemma_explicit_comes_from(raw, names)
    } else {
        let key = choose|key: Seq<Seq<char>>| #[trigger] m.contains_key(key) && is_above(names, key);
        lemma_explicit_comes_from(raw, key)
    }
}

proof fn lemma_explicit_comes_from(raw: Seq<RawFacts>, names: Seq<Seq<char>>) -> (i: int)
    requires
        explicit_entries(raw).contains_key(names),
    ensures
        0 <= i < raw.len(),
        sanitized(raw[i].path) is Some,
        path::components(sanitized(raw[i].path)->0) == names,
    decreases raw.len(),
{
    if raw.len() == 0 {
        0
    } else {
        let n = raw.len() - 1;
        if safe_names(raw[n].path) == Some(names) {
            law_safe_names_are_plain(raw[n].path);
            law_rooted_is_clean(names);
            n
        } else {
            assert(explicit_entries(raw.drop_last()).contains_key(names));
            lemma_explicit_comes_from(raw.drop_last(), names)
        }
    }
}

} // verus!
