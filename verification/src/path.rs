//! Paths within one backend's namespace.

use vstd::prelude::*;

verus! {

/// The text of `s` cut at every slash; always at least one piece.
pub open spec fn pieces(s: Seq<char>) -> Seq<Seq<char>>
    decreases s.len(),
{
    if s.len() == 0 {
        seq![Seq::<char>::empty()]
    } else {
        let before = pieces(s.drop_last());
        if s.last() == '/' {
            before.push(Seq::<char>::empty())
        } else {
            before.drop_last().push(before.last().push(s.last()))
        }
    }
}

/// Whether the piece at `index` names something: empty pieces do not, and a
/// single dot only at the very front.
pub open spec fn is_component(piece: Seq<char>, index: int) -> bool {
    piece.len() > 0 && (piece != seq!['.'] || index == 0)
}

/// The pieces that name something, in order.
pub open spec fn named_pieces(p: Seq<Seq<char>>) -> Seq<Seq<char>>
    decreases p.len(),
{
    if p.len() == 0 {
        Seq::empty()
    } else {
        let before = named_pieces(p.drop_last());
        if is_component(p.last(), p.len() - 1) {
            before.push(p.last())
        } else {
            before
        }
    }
}

/// Whether the path starts at the root.
pub open spec fn is_absolute(s: Seq<char>) -> bool {
    s.len() > 0 && s[0] == '/'
}

/// The components of a path after its root, if it has one.
pub open spec fn components(s: Seq<char>) -> Seq<Seq<char>> {
    named_pieces(pieces(s))
}

/// Two texts that mean the same path: repeated and trailing slashes and
/// inner single dots make no difference.
pub open spec fn same_path(a: Seq<char>, b: Seq<char>) -> bool {
    is_absolute(a) == is_absolute(b) && components(a) == components(b)
}

/// A component that names an entry, not the directory itself or its parent.
pub open spec fn is_normal(component: Seq<char>) -> bool {
    component != seq!['.'] && component != seq!['.', '.']
}

/// The name at the end of a path, where there is one.
pub open spec fn last_name(s: Seq<char>) -> Option<Seq<char>> {
    let c = components(s);
    if c.len() > 0 && is_normal(c.last()) {
        Some(c.last())
    } else {
        None
    }
}

/// `base` with `child` below it; an absolute `child` stands for itself.
pub open spec fn joined(base: Seq<char>, child: Seq<char>) -> Seq<char> {
    if is_absolute(child) {
        child
    } else if base.len() == 0 || base.last() == '/' {
        base + child
    } else {
        base.push('/') + child
    }
}

/// A name that can stand alone as one component: not empty, no slash in it,
/// and neither of the two dot names.
pub open spec fn is_plain_name(name: Seq<char>) -> bool {
    name.len() > 0 && !name.contains('/') && is_normal(name)
}

/// An absolute path below the root that is written in the plainest way: every
/// piece after the leading slash is a plain name.
pub open spec fn is_clean(s: Seq<char>) -> bool {
    let p = pieces(s);
    &&& p.len() > 1
    &&& p[0].len() == 0
    &&& forall|i: int| 1 <= i < p.len() ==> #[trigger] is_plain_name(p[i])
}

/// Whether nothing stands behind the last component of a path, and without any
/// component the path is just the root or empty.
pub open spec fn ends_in_component(s: Seq<char>) -> bool {
    if components(s).len() > 0 {
        is_component(pieces(s).last(), pieces(s).len() - 1)
    } else if is_absolute(s) {
        s == seq!['/']
    } else {
        s.len() == 0
    }
}

/// Whether `up` is `path` without its final component: the beginning of its text
/// up to the end of the component before, or to the root.
pub open spec fn is_parent(up: Seq<char>, path: Seq<char>) -> bool {
    &&& is_absolute(up) == is_absolute(path)
    &&& components(up) == components(path).drop_last()
    &&& up.is_prefix_of(path)
    &&& ends_in_component(up)
}

/// `camino::Utf8Path::join`: an absolute `child` replaces `base`; otherwise
/// `child` is put behind `base`, with one slash between them unless `base` is
/// empty or already ends in one.
#[verifier::external_body]
fn camino_join(base: &str, child: &str) -> (r: String)
    ensures
        r@ == joined(base@, child@),
{
    camino::Utf8Path::new(base).join(child).into_string()
}

/// `camino::Utf8Path::file_name`: the final component, unless the path has
/// none or ends in a dot name.
#[verifier::external_body]
fn camino_file_name(path: &str) -> (r: Option<String>)
    ensures
        r is Some <==> last_name(path@) is Some,
        r matches Some(name) ==> last_name(path@) == Some(name@),
{
    camino::Utf8Path::new(path).file_name().map(|name| name.to_string())
}

/// `camino::Utf8Path::parent`: the path without its final component, and
/// nothing for a path that has none. What comes back is the beginning of the
/// path's text, without the slashes and single dots that stand behind the
/// component that is then the last.
#[verifier::external_body]
fn camino_parent(path: &str) -> (r: Option<String>)
    ensures
        r is Some <==> components(path@).len() > 0,
        r matches Some(up) ==> is_parent(up@, path@),
{
    camino::Utf8Path::new(path).parent().map(|up| up.as_str().to_string())
}

/// The position of the last dot in a name, or -1.
pub open spec fn last_dot(name: Seq<char>) -> int
    decreases name.len(),
{
    if name.len() == 0 {
        -1
    } else if name.last() == '.' {
        name.len() - 1
    } else {
        last_dot(name.drop_last())
    }
}

/// What stands behind the last dot of the name at the end of a path, unless
/// that dot is the name's first character.
pub open spec fn extension_of(s: Seq<char>) -> Option<Seq<char>> {
    match last_name(s) {
        Some(name) => if last_dot(name) > 0 {
            Some(name.skip(last_dot(name) + 1))
        } else {
            None
        },
        None => None,
    }
}

/// `camino::Utf8Path::extension`: what stands behind the last dot of the final
/// component; nothing if there is no such dot, if it is the component's first
/// character, or if the path has no final component that is a name.
#[verifier::external_body]
fn camino_extension(path: &str) -> (r: Option<String>)
    ensures
        r is Some <==> extension_of(path@) is Some,
        r matches Some(ext) ==> extension_of(path@) == Some(ext@),
{
    camino::Utf8Path::new(path).extension().map(|ext| ext.to_string())
}

/// `==` on `camino::Utf8Path`: compares the two paths component by component.
#[verifier::external_body]
fn camino_eq(a: &str, b: &str) -> (r: bool)
    ensures
        r == same_path(a@, b@),
{
    camino::Utf8Path::new(a) == camino::Utf8Path::new(b)
}

/// A path within a single backend's namespace. Always UTF-8.
#[derive(Debug)]
pub struct VfsPath {
    text: String,
}

impl View for VfsPath {
    type V = Seq<char>;

    closed spec fn view(&self) -> Seq<char> {
        self.text@
    }
}

impl Clone for VfsPath {
    fn clone(&self) -> (r: Self)
        ensures
            r == *self,
    {
        VfsPath { text: self.text.clone() }
    }
}

impl PartialEq for VfsPath {
    fn eq(&self, other: &Self) -> (r: bool) {
        camino_eq(self.text.as_str(), other.text.as_str())
    }
}

impl vstd::std_specs::cmp::PartialEqSpecImpl for VfsPath {
    open spec fn obeys_eq_spec() -> bool {
        true
    }

    open spec fn eq_spec(&self, other: &Self) -> bool {
        same_path(self@, other@)
    }
}

impl VfsPath {
    /// The path written as `text`.
    pub fn new(text: &str) -> (r: Self)
        ensures
            r@ == text@,
    {
        VfsPath { text: text.to_owned() }
    }

    /// The path written as `text`.
    pub fn from_text(text: String) -> (r: Self)
        ensures
            r@ == text@,
    {
        VfsPath { text }
    }

    /// The path's text.
    pub fn as_str(&self) -> (r: &str)
        ensures
            r@ == self@,
    {
        self.text.as_str()
    }

    /// `child` below this path.
    pub fn join(&self, child: &str) -> (r: Self)
        ensures
            r@ == joined(self@, child@),
    {
        VfsPath { text: camino_join(self.text.as_str(), child) }
    }

    /// The name at the end of the path.
    pub fn file_name(&self) -> (r: Option<String>)
        ensures
            r is Some <==> last_name(self@) is Some,
            r matches Some(name) ==> last_name(self@) == Some(name@),
    {
        camino_file_name(self.text.as_str())
    }

    /// What stands behind the last dot of the name at the end of the path.
    pub fn extension(&self) -> (r: Option<String>)
        ensures
            r is Some <==> extension_of(self@) is Some,
            r matches Some(ext) ==> extension_of(self@) == Some(ext@),
    {
        camino_extension(self.text.as_str())
    }

    /// The path without its last component.
    pub fn parent(&self) -> (r: Option<Self>)
        ensures
            r is Some <==> components(self@).len() > 0,
            r matches Some(up) ==> is_parent(up@, self@),
    {
        match camino_parent(self.text.as_str()) {
            Some(up) => Some(VfsPath { text: up }),
            None => None,
        }
    }
}

/// Cutting at slashes always leaves at least one piece.
proof fn lemma_pieces_nonempty(s: Seq<char>)
    ensures
        pieces(s).len() > 0,
    decreases s.len(),
{
    if s.len() > 0 {
        lemma_pieces_nonempty(s.drop_last());
    }
}

/// Below a path that ends in a slash, a name without one becomes the last piece.
pub proof fn lemma_pieces_of_name(base: Seq<char>, name: Seq<char>)
    requires
        !name.contains('/'),
        base.len() > 0,
        base.last() == '/',
    ensures
        pieces(base + name) == pieces(base).drop_last().push(name),
        pieces(base).last() == Seq::<char>::empty(),
{
    lemma_pieces_of_child(base, name);
}

/// The components of a clean path are its pieces after the leading slash.
pub proof fn lemma_clean_components_all(s: Seq<char>)
    requires
        is_clean(s),
    ensures
        components(s) == pieces(s).subrange(1, pieces(s).len() as int),
{
    let p = pieces(s);
    lemma_clean_components(s, p.len() as int);
    assert(p.take(p.len() as int) == p);
}

proof fn lemma_pieces_of_child(base: Seq<char>, name: Seq<char>)
    requires
        !name.contains('/'),
        base.len() > 0,
        base.last() == '/',
    ensures
        pieces(base + name) == pieces(base).drop_last().push(name),
        pieces(base).last() == Seq::<char>::empty(),
    decreases name.len(),
{
    lemma_pieces_nonempty(base.drop_last());
    if name.len() == 0 {
        assert(base + name == base);
        assert(name == Seq::<char>::empty());
        assert(pieces(base) == pieces(base).drop_last().push(name));
    } else {
        let shorter = name.drop_last();
        assert(name.contains(name.last()));
        assert forall|i: int| 0 <= i < shorter.len() implies shorter[i] != '/' by {
            assert(name.contains(name[i]));
        }
        lemma_pieces_of_child(base, shorter);
        assert((base + name).drop_last() == base + shorter);
        assert((base + name).last() == name.last());
        let before = pieces(base + shorter);
        assert(before.drop_last() == pieces(base).drop_last());
        assert(before.last().push(name.last()) == name);
    }
}

proof fn lemma_clean_components(s: Seq<char>, n: int)
    requires
        is_clean(s),
        1 <= n <= pieces(s).len(),
    ensures
        named_pieces(pieces(s).take(n)) == pieces(s).subrange(1, n),
    decreases n,
{
    let p = pieces(s);
    let t = p.take(n);
    assert(t.drop_last() == p.take(n - 1));
    if n == 1 {
        assert(t.last() == p[0]);
        reveal_with_fuel(named_pieces, 2);
        assert(p.subrange(1, 1) == Seq::<Seq<char>>::empty());
    } else {
        lemma_clean_components(s, n - 1);
        assert(t.last() == p[n - 1]);
        assert(is_plain_name(p[n - 1]));
        assert(p.subrange(1, n) == p.subrange(1, n - 1).push(p[n - 1]));
    }
}

proof fn lemma_pieces_determine_text(a: Seq<char>, b: Seq<char>)
    requires
        pieces(a) == pieces(b),
    ensures
        a == b,
    decreases a.len() + b.len(),
{
    lemma_pieces_nonempty(a);
    let empty = Seq::<char>::empty();
    if a.len() == 0 || b.len() == 0 {
        if a.len() > 0 {
            lemma_pieces_nonempty(a.drop_last());
            assert(pieces(b) == seq![empty]);
            assert(pieces(a).len() >= 2 || pieces(a).last().len() > 0);
            assert(pieces(b).last().len() == 0);
        }
        if b.len() > 0 {
            lemma_pieces_nonempty(b.drop_last());
            assert(pieces(a) == seq![empty]);
            assert(pieces(b).len() >= 2 || pieces(b).last().len() > 0);
            assert(pieces(a).last().len() == 0);
        }
        assert(a == b);
    } else {
        let pa = pieces(a.drop_last());
        let pb = pieces(b.drop_last());
        lemma_pieces_nonempty(a.drop_last());
        lemma_pieces_nonempty(b.drop_last());
        let last = pieces(a).last();
        if a.last() == '/' {
            assert(last.len() == 0);
            assert(b.last() == '/');
            assert(pa == pieces(a).drop_last());
            assert(pb == pieces(b).drop_last());
        } else {
            assert(last == pa.last().push(a.last()));
            assert(b.last() != '/');
            assert(last == pb.last().push(b.last()));
            assert(pa.last() == last.drop_last());
            assert(pb.last() == last.drop_last());
            assert(pa == pa.drop_last().push(pa.last()));
            assert(pb == pb.drop_last().push(pb.last()));
            assert(pieces(a).drop_last() == pa.drop_last());
            assert(pieces(b).drop_last() == pb.drop_last());
            assert(a.last() == last.last());
            assert(b.last() == last.last());
        }
        lemma_pieces_determine_text(a.drop_last(), b.drop_last());
        assert(a == a.drop_last().push(a.last()));
        assert(b == b.drop_last().push(b.last()));
    }
}

/// Texts with the same pieces are the same.
pub proof fn lemma_same_pieces(a: Seq<char>, b: Seq<char>)
    requires
        pieces(a) == pieces(b),
    ensures
        a == b,
{
    lemma_pieces_determine_text(a, b);
}

/// Clean paths mean the same path only if they are the same text.
pub proof fn law_same_clean_path(a: Seq<char>, b: Seq<char>)
    requires
        is_clean(a),
        is_clean(b),
        same_path(a, b),
    ensures
        a == b,
{
    let pa = pieces(a);
    let pb = pieces(b);
    lemma_clean_components(a, pa.len() as int);
    lemma_clean_components(b, pb.len() as int);
    assert(pa.take(pa.len() as int) == pa);
    assert(pb.take(pb.len() as int) == pb);
    assert(pa[0] == Seq::<char>::empty());
    assert(pb[0] == Seq::<char>::empty());
    assert(pa == seq![Seq::<char>::empty()] + pa.subrange(1, pa.len() as int));
    assert(pb == seq![Seq::<char>::empty()] + pb.subrange(1, pb.len() as int));
    lemma_pieces_determine_text(a, b);
}

/// The pieces of the beginning of a text are those of the text, but for the last,
/// which is the beginning of one.
proof fn lemma_pieces_of_prefix(s: Seq<char>, n: int)
    requires
        0 <= n <= s.len(),
    ensures
        ({
            let p = pieces(s);
            let q = pieces(s.take(n));
            &&& 0 < q.len() <= p.len()
            &&& forall|i: int| 0 <= i < q.len() - 1 ==> #[trigger] q[i] == p[i]
            &&& q.last().is_prefix_of(p[q.len() - 1])
        }),
    decreases s.len(),
{
    lemma_pieces_nonempty(s);
    lemma_pieces_nonempty(s.take(n));
    if n == s.len() {
        assert(s.take(n) =~= s);
    } else {
        let before = s.drop_last();
        lemma_pieces_nonempty(before);
        assert(before.take(n) =~= s.take(n));
        lemma_pieces_of_prefix(before, n);
        let p = pieces(s);
        let b = pieces(before);
        let q = pieces(s.take(n));
        assert forall|i: int| 0 <= i < q.len() - 1 implies #[trigger] q[i] == p[i] by {
            assert(q[i] == b[i]);
            assert(p[i] == b[i]);
        }
        let m = q.len() - 1;
        if s.last() != '/' && m == b.len() - 1 {
            assert(p[m] == b[m].push(s.last()));
            assert(q.last().is_prefix_of(b[m].push(s.last())));
        } else {
            assert(p[m] == b[m]);
        }
    }
}

proof fn lemma_named_plain(p: Seq<Seq<char>>)
    requires
        p.len() > 0,
        p[0].len() == 0,
        forall|i: int| 1 <= i < p.len() ==> #[trigger] is_plain_name(p[i]),
    ensures
        named_pieces(p) == p.subrange(1, p.len() as int),
    decreases p.len(),
{
    let before = p.drop_last();
    if p.len() == 1 {
        reveal_with_fuel(named_pieces, 2);
        assert(p.subrange(1, 1) =~= Seq::<Seq<char>>::empty());
    } else {
        assert forall|i: int| 1 <= i < before.len() implies #[trigger] is_plain_name(before[i]) by {
            assert(is_plain_name(p[i]));
        }
        lemma_named_plain(before);
        assert(is_plain_name(p[p.len() - 1]));
        assert(p.subrange(1, p.len() as int) =~= before.subrange(1, before.len() as int).push(
            p.last(),
        ));
    }
}

proof fn lemma_named_grows(p: Seq<Seq<char>>, n: int)
    requires
        0 <= n <= p.len(),
    ensures
        named_pieces(p.take(n)).len() <= named_pieces(p).len(),
    decreases p.len() - n,
{
    if n == p.len() {
        assert(p.take(n) =~= p);
    } else {
        assert(p.take(n + 1).drop_last() =~= p.take(n));
        lemma_named_grows(p, n + 1);
    }
}

proof fn lemma_parent_not_shorter(a: Seq<char>, b: Seq<char>)
    requires
        a.is_prefix_of(b),
        components(a) == components(b),
        components(a).len() > 0,
        ends_in_component(a),
        ends_in_component(b),
    ensures
        a == b,
{
    lemma_pieces_nonempty(a);
    lemma_pieces_nonempty(b);
    let n = a.len() as int;
    assert(b.take(n) =~= a);
    lemma_pieces_of_prefix(b, n);
    let p = pieces(b);
    let q = pieces(a);
    let m = q.len() as int;
    assert(q.drop_last() =~= p.take(m - 1));
    assert(p.take(m).drop_last() =~= p.take(m - 1));
    assert(p.take(m).last() == p[m - 1]);
    assert(named_pieces(q).len() == named_pieces(p.take(m - 1)).len() + 1);
    if m < p.len() {
        lemma_named_grows(p.drop_last(), m);
        assert(p.drop_last().take(m) =~= p.take(m));
        if !is_component(p[m - 1], m - 1) {
            assert(q.last().len() > 0);
            assert(p[m - 1].len() > 0);
            assert(p[m - 1] == seq!['.']);
            assert(q.last() =~= seq!['.']);
        }
        assert(named_pieces(p).len() == named_pieces(p.drop_last()).len() + 1);
    } else {
        assert(named_pieces(q).last() == q.last());
        assert(named_pieces(p).last() == p.last());
        assert(p =~= q) by {
            assert forall|i: int| 0 <= i < m implies p[i] == q[i] by {
                if i == m - 1 {
                    assert(q.last() == p.last());
                }
            }
        }
        lemma_pieces_determine_text(a, b);
    }
}

/// A path has only one parent.
pub proof fn law_one_parent(a: Seq<char>, b: Seq<char>, path: Seq<char>)
    requires
        is_parent(a, path),
        is_parent(b, path),
    ensures
        a == b,
{
    if components(a).len() > 0 {
        if a.len() <= b.len() {
            assert(a.is_prefix_of(b)) by {
                assert(a =~= b.take(a.len() as int));
            }
            lemma_parent_not_shorter(a, b);
        } else {
            assert(b.is_prefix_of(a)) by {
                assert(b =~= a.take(b.len() as int));
            }
            lemma_parent_not_shorter(b, a);
        }
    } else if !is_absolute(a) {
        assert(a =~= b);
    }
}

/// The parent of a clean path (or the root) with a slash and one plain name
/// behind it is that path.
pub proof fn law_parent_of_child(dir: Seq<char>, name: Seq<char>, up: Seq<char>)
    requires
        is_plain_name(name),
        dir.len() == 0 || is_clean(dir),
        is_parent(up, dir.push('/') + name),
    ensures
        up == (if dir.len() == 0 {
            seq!['/']
        } else {
            dir
        }),
{
    let base = dir.push('/');
    let s = base + name;
    lemma_pieces_nonempty(dir);
    lemma_pieces_of_child(base, name);
    assert(base.drop_last() =~= dir);
    assert(pieces(base) =~= pieces(dir).push(Seq::<char>::empty()));
    let p = pieces(s);
    assert(p =~= pieces(dir).push(name));
    assert(s[0] == base[0]);
    if dir.len() == 0 {
        assert(pieces(dir) =~= seq![Seq::<char>::empty()]);
        assert(p[0].len() == 0);
        lemma_named_plain(p);
        assert(components(s) =~= seq![name]);
        assert(components(up) =~= Seq::<Seq<char>>::empty());
    } else {
        let d = pieces(dir);
        assert forall|i: int| 1 <= i < p.len() implies #[trigger] is_plain_name(p[i]) by {
            if i < d.len() {
                assert(is_plain_name(d[i]));
                assert(p[i] == d[i]);
            }
        }
        lemma_named_plain(p);
        lemma_named_plain(d);
        assert(components(s).drop_last() =~= components(dir));
        assert(s.take(up.len() as int) =~= up);
        lemma_pieces_of_prefix(s, up.len() as int);
        let q = pieces(up);
        let m = q.len() as int;
        let c = components(up);
        assert(c == components(dir));
        assert(c.last() == d[d.len() - 1]);
        assert(is_plain_name(d[d.len() - 1]));
        assert(q.last() == c.last());
        if m == 1 {
            assert(q[0].is_prefix_of(p[0]));
            assert(q.last().len() == 0);
        }
        let before = q.drop_last();
        assert forall|i: int| 1 <= i < before.len() implies #[trigger] is_plain_name(before[i]) by {
            assert(before[i] == q[i] && q[i] == p[i]);
            assert(is_plain_name(p[i]));
        }
        assert(before[0] == q[0] && q[0] == p[0]);
        assert(p[0] == d[0]);
        lemma_named_plain(before);
        assert(named_pieces(q) == named_pieces(before).push(q.last()));
        assert(c.len() == m - 1);
        assert(m == d.len());
        assert(q =~= d) by {
            assert forall|i: int| 0 <= i < m implies q[i] == d[i] by {
                if i < m - 1 {
                    assert(q[i] == p[i]);
                }
            }
        }
        lemma_pieces_determine_text(up, dir);
    }
}

/// A plain name put below a path adds exactly one component: the name.
pub proof fn lemma_join_adds_component(base: Seq<char>, name: Seq<char>)
    requires
        is_plain_name(name),
        base.len() > 0,
    ensures
        components(joined(base, name)) == components(base).push(name),
        is_absolute(joined(base, name)) == is_absolute(base),
        last_name(joined(base, name)) == Some(name),
{
    assert(name.contains(name[0]));
    let slashed = if base.last() == '/' {
        base
    } else {
        base.push('/')
    };
    assert(joined(base, name) == slashed + name);
    lemma_pieces_nonempty(base);
    lemma_pieces_nonempty(slashed);
    lemma_pieces_of_child(slashed, name);
    let p = pieces(slashed);
    assert(slashed.drop_last().push('/') == slashed);
    let q = p.drop_last();
    if base.last() == '/' {
        assert(p == pieces(base));
    } else {
        assert(slashed.drop_last() == base);
        assert(q == pieces(base));
        assert(p == pieces(base).push(Seq::<char>::empty()));
    }
    assert(named_pieces(p) == named_pieces(q)) by {
        assert(p.last() == Seq::<char>::empty());
    }
    assert(components(base) == named_pieces(q));
    let r = q.push(name);
    assert(r.drop_last() == q);
    assert(r.last() == name);
    assert(name != seq!['.']);
}

/// A slash at the end of a path and a dot behind it change nothing of what the path
/// means.
pub proof fn law_trailing_slash(s: Seq<char>)
    requires
        s.len() > 0,
    ensures
        same_path(s.push('/'), s),
        same_path(s.push('/').push('.'), s),
        same_path(s.push('/').push('/'), s),
{
    let a = s.push('/');
    let b = a.push('.');
    let c = a.push('/');
    lemma_pieces_nonempty(s);
    assert(a.drop_last() =~= s);
    assert(b.drop_last() =~= a);
    assert(c.drop_last() =~= a);
    let p = pieces(s);
    let empty = Seq::<char>::empty();
    assert(pieces(a) =~= p.push(empty));
    assert(pieces(c) =~= p.push(empty).push(empty));
    assert(pieces(b) =~= p.push(empty.push('.')));
    assert(empty.push('.') =~= seq!['.']);
    assert(p.push(empty).drop_last() =~= p);
    assert(p.push(empty).push(empty).drop_last() =~= p.push(empty));
    assert(p.push(empty.push('.')).drop_last() =~= p);
}

/// An absolute path below another stands for itself; a plain name becomes the last
/// component, after those of the path, and its own part of the text.
pub proof fn law_joined(base: Seq<char>, name: Seq<char>, absolute: Seq<char>)
    requires
        base.len() > 0,
        is_plain_name(name),
        absolute.len() > 0,
        absolute[0] == '/',
    ensures
        joined(base, absolute) == absolute,
        components(joined(base, name)) == components(base).push(name),
        base.is_prefix_of(joined(base, name)),
        last_name(joined(base, name)) == Some(name),
{
    lemma_join_adds_component(base, name);
    assert(name.contains(name[0]));
    if base.last() == '/' {
        assert(base.is_prefix_of(base + name));
    } else {
        assert(base.is_prefix_of(base.push('/') + name));
    }
}

/// What stands behind the last dot of a name is its extension; a dot at the front
/// does not begin one.
pub proof fn law_extension(dir: Seq<char>, stem: Seq<char>, ext: Seq<char>)
    requires
        dir.len() > 0,
        stem.len() > 0,
        !ext.contains('.'),
        is_plain_name(stem + seq!['.'] + ext),
    ensures
        extension_of(joined(dir, stem + seq!['.'] + ext)) == Some(ext),
        ext.len() > 0 && is_plain_name(ext) ==> extension_of(joined(dir, ext)) is None,
        ext.len() > 0 && is_plain_name(seq!['.'] + ext) ==> extension_of(
            joined(dir, seq!['.'] + ext),
        ) is None,
{
    let name = stem + seq!['.'] + ext;
    lemma_join_adds_component(dir, name);
    lemma_last_dot(stem + seq!['.'], ext);
    assert((stem + seq!['.']).last() == '.');
    assert(last_dot(stem + seq!['.']) == stem.len());
    assert(name.skip(stem.len() as int + 1) =~= ext);
    if ext.len() > 0 && is_plain_name(ext) {
        lemma_join_adds_component(dir, ext);
        let none = Seq::<char>::empty();
        lemma_last_dot(none, ext);
        assert(none + ext =~= ext);
    }
    if ext.len() > 0 && is_plain_name(seq!['.'] + ext) {
        lemma_join_adds_component(dir, seq!['.'] + ext);
        lemma_last_dot(seq!['.'], ext);
        assert(seq!['.'].last() == '.');
        assert(last_dot(seq!['.']) == 0);
    }
}

proof fn lemma_last_dot(s: Seq<char>, rest: Seq<char>)
    requires
        !rest.contains('.'),
    ensures
        last_dot(s + rest) == last_dot(s),
    decreases rest.len(),
{
    if rest.len() == 0 {
        assert(s + rest =~= s);
    } else {
        assert(rest.contains(rest.last()));
        let shorter = rest.drop_last();
        assert forall|i: int| 0 <= i < shorter.len() implies shorter[i] != '.' by {
            assert(rest.contains(rest[i]));
        }
        lemma_last_dot(s, shorter);
        assert((s + rest).drop_last() =~= s + shorter);
        assert((s + rest).last() == rest.last());
    }
}

} // verus!
