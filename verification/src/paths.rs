//! Paths as strings: joining, validating a single plain name, and the std
//! path queries the library relies on.

use vstd::prelude::*;

use crate::strings::{chars_eq, piece_views, pieces_on, split_on, string_from_chars, trim_chars, trimmed};
use crate::text::chars_of;

verus! {

/// `a.join(b)` on Unix: an absolute `b` replaces `a`; otherwise a `/` is put
/// between them unless `a` is empty or already ends in one.
pub open spec fn join_path(a: Seq<char>, b: Seq<char>) -> Seq<char> {
    if b.len() > 0 && b[0] == '/' {
        b
    } else if a.len() == 0 || a.last() == '/' {
        a + b
    } else {
        a + seq!['/'] + b
    }
}

/// Join `b` onto `a` as `Path::join` does.
pub fn path_join(a: &str, b: &str) -> (r: String)
    ensures
        r@ == join_path(a@, b@),
{
    let x = chars_of(a);
    let y = chars_of(b);
    let mut out: Vec<char> = Vec::new();
    if y.len() > 0 && y[0] == '/' {
        return string_from_chars(y.as_slice());
    }
    let mut i: usize = 0;
    while i < x.len()
        invariant
            i <= x@.len(),
            out@ == x@.take(i as int),
        decreases x@.len() - i,
    {
        out.push(x[i]);
        i = i + 1;
        assert(out@ =~= x@.take(i as int));
    }
    assert(x@.take(x@.len() as int) =~= x@);
    if x.len() > 0 && x[x.len() - 1] != '/' {
        out.push('/');
    }
    let ghost base = out@;
    let mut j: usize = 0;
    while j < y.len()
        invariant
            j <= y@.len(),
            out@ == base + y@.take(j as int),
        decreases y@.len() - j,
    {
        out.push(y[j]);
        j = j + 1;
        assert(out@ =~= base + y@.take(j as int));
    }
    assert(y@.take(y@.len() as int) =~= y@);
    assert(out@ =~= join_path(a@, b@));
    string_from_chars(out.as_slice())
}

/// `p` is `"."`.
pub open spec fn is_dot(p: Seq<char>) -> bool {
    p == seq!['.']
}

/// `p` is `".."`.
pub open spec fn is_dotdot(p: Seq<char>) -> bool {
    p == seq!['.', '.']
}

/// `s` is a relative path with exactly one component, and that component is
/// a plain name (`Path::components` yields a single `Normal`): the first
/// `/`-separated piece is a name other than `.` or `..`, and every later
/// piece is empty or `.` (which `components` drops).
pub open spec fn single_plain_name(s: Seq<char>) -> bool {
    let ps = pieces_on(s, '/', 0);
    &&& ps[0].len() > 0
    &&& !is_dot(ps[0])
    &&& !is_dotdot(ps[0])
    &&& forall|i: int| 1 <= i < ps.len() ==> (#[trigger] ps[i]).len() == 0 || is_dot(ps[i])
}

fn chars_are_dot(p: &Vec<char>) -> (r: bool)
    ensures
        r == is_dot(p@),
{
    let r = p.len() == 1 && p[0] == '.';
    assert(r ==> p@ =~= seq!['.']);
    r
}

fn chars_are_dotdot(p: &Vec<char>) -> (r: bool)
    ensures
        r == is_dotdot(p@),
{
    let r = p.len() == 2 && p[0] == '.' && p[1] == '.';
    assert(r ==> p@ =~= seq!['.', '.']);
    r
}

/// Whether the characters `s` form a single plain path name.
pub fn is_single_plain_name(s: &[char]) -> (r: bool)
    ensures
        r == single_plain_name(s@),
{
    let ps = split_on(s, '/');
    let ghost v = piece_views(ps@);
    assert(v[0] == ps@[0]@);
    if ps[0].len() == 0 || chars_are_dot(&ps[0]) || chars_are_dotdot(&ps[0]) {
        return false;
    }
    let mut i: usize = 1;
    while i < ps.len()
        invariant
            1 <= i <= ps@.len(),
            v == piece_views(ps@),
            v == pieces_on(s@, '/', 0),
            forall|k: int| 1 <= k < i ==> (#[trigger] v[k]).len() == 0 || is_dot(v[k]),
        decreases ps@.len() - i,
    {
        assert(v[i as int] == ps@[i as int]@);
        if !(ps[i].len() == 0 || chars_are_dot(&ps[i])) {
            return false;
        }
        i = i + 1;
    }
    true
}

/// The message for a name that is not a single plain name.
pub open spec fn bad_name_message() -> Seq<char> {
    "enter a single file or folder name"@
}

/// Join one plain filename to `parent`, rejecting empty names and traversal.
pub fn child_path(parent: &str, name: &str) -> (r: Result<String, String>)
    ensures
        match r {
            Ok(p) => single_plain_name(trimmed(name@)) && p@ == join_path(parent@, trimmed(name@)),
            Err(e) => !single_plain_name(trimmed(name@)) && e@ == bad_name_message(),
        },
{
    let cs = chars_of(name);
    let t = trim_chars(cs.as_slice());
    if is_single_plain_name(t.as_slice()) {
        let n = string_from_chars(t.as_slice());
        Ok(path_join(parent, n.as_str()))
    } else {
        Err(String::from_str("enter a single file or folder name"))
    }
}

/// What `Path::strip_prefix` leaves of `path` once the components of `base`
/// are removed from its front, if `base` is a prefix.
pub uninterp spec fn prefix_stripped(path: Seq<char>, base: Seq<char>) -> Option<Seq<char>>;

/// `Path::strip_prefix`: the rest of `path` after the components of `base`,
/// when `base` is a component-wise prefix of it. The result is a function
/// of the two paths alone.
#[verifier::external_body]
pub(crate) fn strip_prefix(path: &str, base: &str) -> (r: Option<String>)
    ensures
        match r {
            Some(t) => prefix_stripped(path@, base@) == Some(t@),
            None => prefix_stripped(path@, base@) is None,
        },
{
    std::path::Path::new(path).strip_prefix(base).ok().map(|tail| tail.to_string_lossy().into_owned())
}

/// Move a document path along with a renamed file or directory: the part of
/// `path` below `from`, re-rooted at `to`; `None` when `path` is not below
/// `from`.
pub fn remap_descendant(path: &str, from: &str, to: &str) -> (r: Option<String>)
    ensures
        match r {
            Some(p) => exists|tail: Seq<char>|
                prefix_stripped(path@, from@) == Some(tail) && p@ == join_path(to@, tail),
            None => prefix_stripped(path@, from@) is None,
        },
{
    match strip_prefix(path, from) {
        Some(tail) => Some(path_join(to, tail.as_str())),
        None => None,
    }
}

/// The extension `Path::extension` finds in a path, if any.
pub uninterp spec fn extension_of(path: Seq<char>) -> Option<Seq<char>>;

/// `Path::extension` of `path`: the part of the file name after its last
/// `.`, if there is one (and the name is not just a leading dot). The result
/// is a function of the path alone.
#[verifier::external_body]
pub(crate) fn path_extension(path: &str) -> (r: Option<String>)
    ensures
        match r {
            Some(e) => extension_of(path@) == Some(e@),
            None => extension_of(path@) is None,
        },
{
    std::path::Path::new(path).extension().map(|e| e.to_string_lossy().into_owned())
}

/// The path `Path::with_extension` builds from `path` and `ext`.
pub uninterp spec fn extension_replaced(path: Seq<char>, ext: Seq<char>) -> Seq<char>;

/// `Path::with_extension`: `path` with its extension replaced by `ext` (or
/// removed, for an empty `ext`). The result is a function of its arguments.
/// It panics when `ext` holds a path separator (`/` on this platform), which
/// `requires` rules out.
#[verifier::external_body]
pub(crate) fn with_extension(path: &str, ext: &str) -> (r: String)
    requires
        forall|i: int| 0 <= i < ext@.len() ==> ext@[i] != '/',
    ensures
        r@ == extension_replaced(path@, ext@),
{
    std::path::Path::new(path).with_extension(ext).to_string_lossy().into_owned()
}

/// The directory `Path::parent` finds above a path, if any.
pub uninterp spec fn parent_of(path: Seq<char>) -> Option<Seq<char>>;

/// `Path::parent`: `path` without its last component; `None` for a root or
/// an empty path. The result is a function of the path alone.
#[verifier::external_body]
pub(crate) fn path_parent(path: &str) -> (r: Option<String>)
    ensures
        match r {
            Some(p) => parent_of(path@) == Some(p@),
            None => parent_of(path@) is None,
        },
{
    std::path::Path::new(path).parent().map(|p| p.to_string_lossy().into_owned())
}

/// The last component `Path::file_name` finds in a path, if any.
pub uninterp spec fn file_name_of(path: Seq<char>) -> Option<Seq<char>>;

/// `Path::file_name`: the final component of `path` when it is a normal
/// name (not `..`, not a root). The result is a function of the path alone.
#[verifier::external_body]
pub(crate) fn path_file_name(path: &str) -> (r: Option<String>)
    ensures
        match r {
            Some(n) => file_name_of(path@) == Some(n@),
            None => file_name_of(path@) is None,
        },
{
    std::path::Path::new(path).file_name().map(|n| n.to_string_lossy().into_owned())
}

/// The file name without its extension that `Path::file_stem` finds, if any.
pub uninterp spec fn file_stem_of(path: Seq<char>) -> Option<Seq<char>>;

/// `Path::file_stem`: the final component of `path` without its extension.
/// The result is a function of the path alone.
#[verifier::external_body]
pub(crate) fn path_file_stem(path: &str) -> (r: Option<String>)
    ensures
        match r {
            Some(n) => file_stem_of(path@) == Some(n@),
            None => file_stem_of(path@) is None,
        },
{
    std::path::Path::new(path).file_stem().map(|n| n.to_string_lossy().into_owned())
}

/// The named parts of a path's `/`-separated pieces: empty pieces (from a
/// doubled or trailing `/`) and `.` pieces dropped, as `Path::components`
/// drops them.
pub open spec fn named_pieces(ps: Seq<Seq<char>>) -> Seq<Seq<char>>
    decreases ps.len(),
{
    if ps.len() == 0 {
        Seq::empty()
    } else {
        let rest = named_pieces(ps.drop_last());
        let x = ps.last();
        if x.len() == 0 || x == seq!['.'] {
            rest
        } else {
            rest.push(x)
        }
    }
}

/// A path's components on Unix, as `Path::components` yields them: whether
/// it starts at the root, whether a relative path starts with `.`, and its
/// named parts (`..` among them). Two `Path`s are equal when these are.
pub open spec fn path_components(s: Seq<char>) -> (bool, bool, Seq<Seq<char>>) {
    let ps = pieces_on(s, '/', 0);
    let rooted = s.len() > 0 && s[0] == '/';
    (rooted, !rooted && ps[0] == seq!['.'], named_pieces(ps))
}

/// `Path::new(a) == Path::new(b)`: the two name the same components.
pub open spec fn same_path_spec(a: Seq<char>, b: Seq<char>) -> bool {
    path_components(a) == path_components(b)
}

/// The named parts of `s`'s pieces.
fn named_of(s: &str) -> (r: (bool, bool, Vec<Vec<char>>))
    ensures
        (r.0, r.1, piece_views(r.2@)) == path_components(s@),
{
    let cs = chars_of(s);
    let ps = split_on(cs.as_slice(), '/');
    let ghost pv = piece_views(ps@);
    let rooted = cs.len() > 0 && cs[0] == '/';
    assert(pv[0] == ps@[0]@);
    let cur = !rooted && ps[0].len() == 1 && ps[0][0] == '.';
    assert(cur == (!rooted && pv[0] == seq!['.'])) by {
        if ps@[0]@.len() == 1 && ps@[0]@[0] == '.' {
            assert(ps@[0]@ =~= seq!['.']);
        }
    }
    let mut out: Vec<Vec<char>> = Vec::new();
    let mut i: usize = 0;
    while i < ps.len()
        invariant
            i <= ps@.len(),
            pv == piece_views(ps@),
            piece_views(out@) == named_pieces(pv.take(i as int)),
        decreases ps@.len() - i,
    {
        assert(pv.take(i + 1).drop_last() =~= pv.take(i as int));
        assert(pv[i as int] == ps@[i as int]@);
        let x = &ps[i];
        let dot = x.len() == 1 && x[0] == '.';
        assert(dot == (x@ == seq!['.'])) by {
            if x@.len() == 1 && x@[0] == '.' {
                assert(x@ =~= seq!['.']);
            }
        }
        if !(x.len() == 0 || dot) {
            let ghost before = out@;
            out.push(x.clone());
            assert(piece_views(out@) =~= piece_views(before).push(x@));
        }
        i = i + 1;
    }
    assert(pv.take(ps@.len() as int) =~= pv);
    (rooted, cur, out)
}

/// Whether `a` and `b` name the same path, compared component by component
/// as `Path` equality does (see [`path_components`]).
pub fn same_path(a: &str, b: &str) -> (r: bool)
    ensures
        r == same_path_spec(a@, b@),
{
    let (ra, ca, na) = named_of(a);
    let (rb, cb, nb) = named_of(b);
    if ra != rb || ca != cb || na.len() != nb.len() {
        assert(path_components(a@).0 != path_components(b@).0 || path_components(a@).1 != path_components(
            b@,
        ).1 || path_components(a@).2.len() != path_components(b@).2.len());
        return false;
    }
    let mut i: usize = 0;
    while i < na.len()
        invariant
            i <= na@.len(),
            na@.len() == nb@.len(),
            forall|k: int| 0 <= k < i ==> piece_views(na@)[k] == piece_views(nb@)[k],
            (ra, ca, piece_views(na@)) == path_components(a@),
            (rb, cb, piece_views(nb@)) == path_components(b@),
        decreases na@.len() - i,
    {
        if !chars_eq(na[i].as_slice(), nb[i].as_slice()) {
            assert(piece_views(na@)[i as int] != piece_views(nb@)[i as int]);
            assert(path_components(a@).2[i as int] != path_components(b@).2[i as int]);
            return false;
        }
        i = i + 1;
    }
    assert(piece_views(na@) =~= piece_views(nb@));
    assert(path_components(a@) == (ra, ca, piece_views(na@)));
    assert(path_components(b@) == (rb, cb, piece_views(nb@)));
    true
}

} // verus!
