//! Unix paths as text.
//!
//! A path is the text it was written as; what it names is the sequence of its parts.

use crate::text;
use vstd::prelude::*;
use vstd::string::*;

verus! {

/// One part of a path.
pub enum Part {
    /// The leading slash.
    Root,
    /// A leading `.`.
    Current,
    /// A `..`.
    Parent,
    Normal(Seq<char>),
}

pub open spec fn absolute(p: Seq<char>) -> bool {
    p.len() > 0 && p[0] == '/'
}

/// The parts that the pieces `pieces[i..]` between slashes name. Empty pieces and a `.` anywhere
/// but at the very start name nothing.
pub open spec fn parts_from(pieces: Seq<Seq<char>>, i: int) -> Seq<Part>
    decreases pieces.len() - i,
{
    if i < 0 || i >= pieces.len() {
        seq![]
    } else {
        let rest = parts_from(pieces, i + 1);
        if pieces[i].len() == 0 {
            rest
        } else if pieces[i] == "."@ {
            if i == 0 {
                seq![Part::Current] + rest
            } else {
                rest
            }
        } else if pieces[i] == ".."@ {
            seq![Part::Parent] + rest
        } else {
            seq![Part::Normal(pieces[i])] + rest
        }
    }
}

/// The parts of a path.
pub open spec fn parts(p: Seq<char>) -> Seq<Part> {
    let named = parts_from(text::split(p, '/'), 0);
    if absolute(p) {
        seq![Part::Root] + named
    } else {
        named
    }
}

/// `base` with `part` appended as one more part.
pub open spec fn pushed(base: Seq<char>, part: Seq<char>) -> Seq<char> {
    if base.len() == 0 || base.last() == '/' {
        base + part
    } else {
        base + "/"@ + part
    }
}

/// The path `p` as seen from `base`: an absolute path stands for itself.
pub open spec fn joined_path(base: Seq<char>, p: Seq<char>) -> Seq<char> {
    if absolute(p) {
        p
    } else {
        pushed(base, p)
    }
}

/// `p` without trailing slashes and trailing `.` parts.
pub open spec fn core_of(p: Seq<char>) -> Seq<char>
    decreases p.len(),
{
    if p.len() > 0 && (p.last() == '/' || (p.len() >= 2 && p.last() == '.' && p[p.len() - 2]
        == '/')) {
        core_of(p.subrange(0, p.len() - 1))
    } else {
        p
    }
}

/// The path without its last part. Neither the root nor the empty path has a parent.
pub open spec fn parent_of(p: Seq<char>) -> Option<Seq<char>> {
    let t = core_of(p);
    let k = text::last_char(t, '/', t.len() as int);
    if t.len() == 0 {
        None
    } else if k < 0 {
        Some(seq![])
    } else {
        let base = core_of(t.subrange(0, k));
        Some(
            if base.len() == 0 {
                "/"@
            } else {
                base
            },
        )
    }
}

/// The path's parts begin with the parts of `base`.
pub open spec fn within(p: Seq<char>, base: Seq<char>) -> bool {
    parts(base).is_prefix_of(parts(p))
}

/// A text that names one normal part: not empty, without a slash, neither `.` nor `..`.
pub open spec fn is_name(s: Seq<char>) -> bool {
    &&& s.len() > 0
    &&& s != "."@
    &&& s != ".."@
    &&& forall|i: int| 0 <= i < s.len() ==> s[i] != '/'
}

proof fn lemma_parts_push(pieces: Seq<Seq<char>>, name: Seq<char>, i: int)
    requires
        0 <= i <= pieces.len(),
        is_name(name),
    ensures
        parts_from(pieces.push(name), i) == parts_from(pieces, i).push(Part::Normal(name)),
    decreases pieces.len() - i,
{
    if i < pieces.len() {
        lemma_parts_push(pieces, name, i + 1);
        assert(parts_from(pieces.push(name), i) =~= parts_from(pieces, i).push(Part::Normal(name)));
    } else {
        assert(parts_from(pieces.push(name), i + 1) =~= seq![]);
        assert(parts_from(pieces.push(name), i) =~= seq![Part::Normal(name)]);
    }
}

proof fn lemma_parts_push_empty(pieces: Seq<Seq<char>>, i: int)
    requires
        0 <= i <= pieces.len(),
    ensures
        parts_from(pieces.push(seq![]), i) == parts_from(pieces, i),
    decreases pieces.len() - i,
{
    if i < pieces.len() {
        lemma_parts_push_empty(pieces, i + 1);
    } else {
        assert(parts_from(pieces.push(seq![]), i + 1) =~= seq![]);
    }
}

/// Appending a name to a path appends one normal part.
pub proof fn push_adds_one_part(base: Seq<char>, name: Seq<char>)
    requires
        is_name(name),
    ensures
        parts(pushed(base, name)) == parts(base).push(Part::Normal(name)),
{
    reveal_strlit("/");
    reveal_strlit(".");
    let all = pushed(base, name);
    let open = if base.len() == 0 || base.last() == '/' {
        base
    } else {
        base.push('/')
    };
    assert(all =~= open + name);
    text::lemma_split_extend(open, name, '/', 0);
    let pieces = text::split(open, '/');
    if open.len() > 0 {
        let inner = open.drop_last();
        text::lemma_split_open(inner, '/', 0);
        assert(inner.push('/') =~= open);
        let before = text::split(inner, '/');
        assert(pieces.drop_last() =~= before);
        assert(pieces.last() + name =~= name);
        lemma_parts_push(before, name, 0);
        lemma_parts_push_empty(before, 0);
        if base.len() > 0 && base.last() == '/' {
            assert(open == base);
        } else {
            assert(inner =~= base);
        }
    } else {
        assert(pieces.drop_last() =~= seq![]);
        assert(pieces.last() + name =~= name);
        assert(base =~= seq![]);
        lemma_parts_push(seq![], name, 0);
        assert(text::after(base, 0) =~= base);
        assert(text::split(base, '/') =~= seq![base]);
        assert(parts_from(text::split(base, '/'), 1) =~= seq![]);
        assert(parts_from(text::split(base, '/'), 0) =~= seq![]);
    }
    assert(parts(all) =~= parts(base).push(Part::Normal(name)));
}

/// Whether the path is absolute.
pub fn is_absolute(p: &str) -> (r: bool)
    ensures
        r == absolute(p@),
{
    p.unicode_len() > 0 && p.get_char(0) == '/'
}

/// `base` with `part` appended.
pub fn push(base: &str, part: &str) -> (r: String)
    ensures
        r@ == pushed(base@, part@),
{
    let n = base.unicode_len();
    if n == 0 || base.get_char(n - 1) == '/' {
        text::concat2(base, part)
    } else {
        text::concat3(base, "/", part)
    }
}

/// The path `p` as seen from `base`.
pub fn join(base: &str, p: &str) -> (r: String)
    ensures
        r@ == joined_path(base@, p@),
{
    if is_absolute(p) {
        p.to_string()
    } else {
        push(base, p)
    }
}

fn core_len(v: &Vec<char>, n: usize) -> (r: usize)
    requires
        n <= v@.len(),
    ensures
        r <= n,
        v@.subrange(0, r as int) == core_of(v@.subrange(0, n as int)),
{
    let mut k: usize = n;
    while k > 0 && (v[k - 1] == '/' || (k >= 2 && v[k - 1] == '.' && v[k - 2] == '/'))
        invariant
            0 <= k <= n <= v@.len(),
            core_of(v@.subrange(0, k as int)) == core_of(v@.subrange(0, n as int)),
        decreases k,
    {
        proof {
            let t = v@.subrange(0, k as int);
            assert(t.subrange(0, t.len() - 1) =~= v@.subrange(0, k - 1));
        }
        k -= 1;
    }
    k
}

/// The path without its last part.
pub fn parent(p: &str) -> (r: Option<String>)
    ensures
        text::opt_view(r) == parent_of(p@),
{
    let v = text::chars_of(p);
    assert(v@.subrange(0, v@.len() as int) =~= p@);
    let n = core_len(&v, v.len());
    if n == 0 {
        assert(core_of(p@).len() == 0);
        return None;
    }
    let t = p.substring_char(0, n);
    match text::rfind_char(t, '/') {
        None => {
            let r = String::new();
            assert(r@ =~= Seq::<char>::empty());
            Some(r)
        },
        Some(k) => {
            proof {
                assert(t@.subrange(0, k as int) =~= v@.subrange(0, k as int));
            }
            let m = core_len(&v, k);
            if m == 0 {
                Some("/".to_string())
            } else {
                Some(p.substring_char(0, m).to_string())
            }
        },
    }
}

/// One part of a path, as [`Part`] models it.
pub enum PathPart {
    Root,
    Current,
    Parent,
    Normal(String),
}

impl View for PathPart {
    type V = Part;

    open spec fn view(&self) -> Part {
        match self {
            PathPart::Root => Part::Root,
            PathPart::Current => Part::Current,
            PathPart::Parent => Part::Parent,
            PathPart::Normal(s) => Part::Normal(s@),
        }
    }
}

pub open spec fn part_views(v: Seq<PathPart>) -> Seq<Part> {
    Seq::new(v.len(), |i: int| v[i]@)
}

/// The parts of a path.
pub fn parts_of(p: &str) -> (r: Vec<PathPart>)
    ensures
        part_views(r@) == parts(p@),
{
    let pieces = text::split_char(p, '/');
    let ghost all = text::views(pieces@);
    let mut out: Vec<PathPart> = Vec::new();
    if is_absolute(p) {
        out.push(PathPart::Root);
    }
    assert(part_views(out@) + parts_from(all, 0) =~= parts(p@));
    let mut i: usize = 0;
    while i < pieces.len()
        invariant
            0 <= i <= pieces@.len(),
            all == text::views(pieces@),
            part_views(out@) + parts_from(all, i as int) == parts(p@),
        decreases pieces@.len() - i,
    {
        let piece = pieces[i];
        let ghost before = out@;
        let ghost rest = parts_from(all, i + 1);
        assert(all[i as int] == piece@);
        if piece.unicode_len() == 0 {
        } else if text::same(piece, ".") {
            if i == 0 {
                out.push(PathPart::Current);
                assert(part_views(out@) + rest =~= part_views(before) + (seq![Part::Current] + rest));
            }
        } else if text::same(piece, "..") {
            out.push(PathPart::Parent);
            assert(part_views(out@) + rest =~= part_views(before) + (seq![Part::Parent] + rest));
        } else {
            out.push(PathPart::Normal(piece.to_string()));
            assert(part_views(out@) + rest =~= part_views(before) + (seq![Part::Normal(piece@)]
                + rest));
        }
        i += 1;
    }
    assert(part_views(out@) + parts_from(all, i as int) =~= part_views(out@));
    out
}

fn same_part(a: &PathPart, b: &PathPart) -> (r: bool)
    ensures
        r == (a@ == b@),
{
    match (a, b) {
        (PathPart::Root, PathPart::Root) => true,
        (PathPart::Current, PathPart::Current) => true,
        (PathPart::Parent, PathPart::Parent) => true,
        (PathPart::Normal(x), PathPart::Normal(y)) => text::same(x.as_str(), y.as_str()),
        _ => false,
    }
}

/// Whether the path's parts begin with the parts of `base`.
pub fn starts_with(p: &str, base: &str) -> (r: bool)
    ensures
        r == within(p@, base@),
{
    let a = parts_of(base);
    let b = parts_of(p);
    if a.len() > b.len() {
        return false;
    }
    let mut i: usize = 0;
    while i < a.len()
        invariant
            0 <= i <= a@.len() <= b@.len(),
            part_views(a@) == parts(base@),
            part_views(b@) == parts(p@),
            parts(base@).take(i as int) =~= parts(p@).take(i as int),
        decreases a@.len() - i,
    {
        assert(part_views(a@)[i as int] == a@[i as int]@);
        assert(part_views(b@)[i as int] == b@[i as int]@);
        if !same_part(&a[i], &b[i]) {
            assert(!within(p@, base@));
            return false;
        }
        i += 1;
        proof {
            assert(parts(base@).take(i as int) =~= parts(base@).take(i - 1).push(
                parts(base@)[i - 1],
            ));
            assert(parts(p@).take(i as int) =~= parts(p@).take(i - 1).push(parts(p@)[i - 1]));
        }
    }
    proof {
        assert(parts(base@).take(i as int) =~= parts(base@));
        assert(parts(base@) =~= parts(p@).subrange(0, parts(base@).len() as int));
    }
    true
}

/// The name of a file without its extension, where the extension is `ext`. A name that is all
/// extension has none.
pub open spec fn stem_of(name: Seq<char>, ext: Seq<char>) -> Option<Seq<char>> {
    let tail = "."@ + ext;
    if text::ends(name, tail) && name.len() > tail.len() {
        Some(name.subrange(0, name.len() - tail.len()))
    } else {
        None
    }
}

/// The name of a file without its extension, where the extension is `ext`.
pub fn stem<'a>(name: &'a str, ext: &str) -> (r: Option<&'a str>)
    ensures
        match r {
            Some(s) => stem_of(name@, ext@) == Some(s@),
            None => stem_of(name@, ext@) is None,
        },
{
    let tail = text::concat2(".", ext);
    let n = name.unicode_len();
    let m = tail.as_str().unicode_len();
    if text::ends_with(name, tail.as_str()) && n > m {
        Some(name.substring_char(0, n - m))
    } else {
        None
    }
}

// ---- what holds of paths --------------------------------------------------------------------

/// What is named from a directory stands within it, and the directory within itself.
pub proof fn a_named_file_is_within(base: Seq<char>, name: Seq<char>)
    requires
        is_name(name),
    ensures
        within(joined_path(base, name), base),
        within(base, base),
        !within(base, joined_path(base, name)),
{
    push_adds_one_part(base, name);
    let a = parts(base);
    let b = parts(pushed(base, name));
    assert(name[0] != '/');
    assert(a =~= b.subrange(0, a.len() as int));
    assert(a =~= a.subrange(0, a.len() as int));
    assert(b.len() == a.len() + 1);
}

/// A full path is taken as it is, wherever it is named from.
pub proof fn a_full_path_stands_for_itself(base: Seq<char>, p: Seq<char>)
    requires
        p.len() > 0,
        p[0] == '/',
    ensures
        joined_path(base, p) == p,
{
}

/// The directory of what is named from it is that directory again.
pub proof fn the_parent_undoes_naming(base: Seq<char>, name: Seq<char>)
    requires
        is_name(name),
        base.len() > 0,
        core_of(base) == base,
        base.last() != '/',
    ensures
        parent_of(pushed(base, name)) == Some(base),
{
    reveal_strlit("/");
    reveal_strlit(".");
    let p = pushed(base, name);
    assert(p =~= base + seq!['/'] + name);
    assert(p.last() == name.last());
    assert(name[name.len() - 1] != '/');
    if p.last() == '.' && p[p.len() - 2] == '/' {
        if name.len() == 1 {
            assert(name =~= "."@);
        } else {
            assert(p[p.len() - 2] == name[name.len() - 2]);
        }
    }
    assert(core_of(p) == p);
    lemma_last_slash(p, base.len() as int, p.len() as int);
    assert(p.subrange(0, base.len() as int) =~= base);
}

proof fn lemma_last_slash(p: Seq<char>, k: int, n: int)
    requires
        0 <= k < n <= p.len(),
        p[k] == '/',
        forall|i: int| k < i < n ==> p[i] != '/',
    ensures
        text::last_char(p, '/', n) == k,
    decreases n,
{
    if k < n - 1 {
        lemma_last_slash(p, k, n - 1);
    }
}

/// The name of a file without its ending, and none where it has another.
pub proof fn a_stem_is_the_name_without_the_ending(stem: Seq<char>, ext: Seq<char>)
    requires
        stem.len() > 0,
    ensures
        stem_of(stem + seq!['.'] + ext, ext) == Some(stem),
{
    reveal_strlit(".");
    let name = stem + seq!['.'] + ext;
    let tail = "."@ + ext;
    assert(name.subrange(name.len() - tail.len(), name.len() as int) =~= tail);
    assert(name.subrange(0, name.len() - tail.len()) =~= stem);
}

} // verus!
