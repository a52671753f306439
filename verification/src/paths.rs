//! Slash-separated paths, taken apart the way Unix path components are:
//! repeated slashes and inner `.` components count for nothing.

use crate::scan;
use crate::text;
use vstd::prelude::*;

verus! {

/// A path as its components.
#[verifier::ext_equal]
pub struct PathModel {
    /// The path starts at the root.
    pub rooted: bool,
    pub parts: Seq<Seq<char>>,
}

/// The pieces that are components: not empty, and not `.` except at the very
/// start of a path that has no root.
pub open spec fn components(pieces: Seq<Seq<char>>, rooted: bool) -> Seq<Seq<char>>
    decreases pieces.len(),
{
    if pieces.len() == 0 {
        Seq::empty()
    } else {
        let head = components(pieces.drop_last(), rooted);
        let p = pieces.last();
        if p.len() == 0 || (p == seq!['.'] && (rooted || pieces.len() > 1)) {
            head
        } else {
            head.push(p)
        }
    }
}

/// The components of a path.
pub open spec fn path_of(s: Seq<char>) -> PathModel {
    let rooted = s.len() > 0 && s[0] == '/';
    PathModel { rooted, parts: components(scan::split_of(s, '/'), rooted) }
}

/// The path without its last component, if it has one.
pub open spec fn parent_of(s: Seq<char>) -> Option<PathModel> {
    let p = path_of(s);
    if p.parts.len() > 0 {
        Some(PathModel { rooted: p.rooted, parts: p.parts.drop_last() })
    } else {
        None
    }
}

/// The last component, if it is an ordinary name.
pub open spec fn file_name_of(s: Seq<char>) -> Option<Seq<char>> {
    let p = path_of(s);
    if p.parts.len() > 0 && p.parts.last() != seq!['.'] && p.parts.last() != seq!['.', '.'] {
        Some(p.parts.last())
    } else {
        None
    }
}

/// A path with one more component, which is not rooted itself.
pub open spec fn joined_path(dir: Seq<char>, name: Seq<char>) -> Seq<char> {
    if dir.len() == 0 || dir.last() == '/' {
        dir + name
    } else {
        dir + seq!['/'] + name
    }
}

/// A path as its components.
pub struct PathParts {
    pub rooted: bool,
    pub parts: Vec<String>,
}

impl View for PathParts {
    type V = PathModel;

    open spec fn view(&self) -> PathModel {
        PathModel { rooted: self.rooted, parts: text::texts(self.parts@) }
    }
}

/// The components of `s`.
pub fn parts_of(s: &str) -> (r: PathParts)
    ensures
        r@ == path_of(s@),
{
    let v = text::chars_of(s);
    let rooted = v.len() > 0 && v[0] == '/';
    let pieces = scan::split(s, '/');
    let mut parts: Vec<String> = Vec::new();
    let mut i: usize = 0;
    while i < pieces.len()
        invariant
            i <= pieces@.len(),
            text::texts(parts@) == components(text::texts(pieces@).take(i as int), rooted),
        decreases pieces@.len() - i,
    {
        let ghost before = parts@;
        let p = pieces[i].as_str();
        proof {
            reveal_strlit("");
            reveal_strlit(".");
            assert("."@ =~= seq!['.']);
            assert(p@ == ""@ <==> p@.len() == 0) by {
                if p@.len() == 0 {
                    assert(p@ =~= ""@);
                }
            }
            let t = text::texts(pieces@).take(i + 1);
            assert(t.drop_last() =~= text::texts(pieces@).take(i as int));
            assert(t.last() == p@);
        }
        if text::same(p, "") || (text::same(p, ".") && (rooted || i > 0)) {
        } else {
            parts.push(pieces[i].clone());
            assert(text::texts(parts@) =~= text::texts(before).push(p@));
        }
        i = i + 1;
    }
    assert(text::texts(pieces@).take(pieces@.len() as int) =~= text::texts(pieces@));
    PathParts { rooted, parts }
}

/// The model of an optional path.
pub open spec fn opt_path(o: Option<PathParts>) -> Option<PathModel> {
    match o {
        Some(p) => Some(p@),
        None => None,
    }
}

/// The path without its last component, if it has one.
pub fn parent(s: &str) -> (r: Option<PathParts>)
    ensures
        opt_path(r) == parent_of(s@),
{
    let mut p = parts_of(s);
    let ghost all = text::texts(p.parts@);
    match p.parts.pop() {
        Some(_) => {
            assert(text::texts(p.parts@) =~= all.drop_last());
            Some(p)
        },
        None => None,
    }
}

/// The last component, if it is an ordinary name.
pub fn file_name(s: &str) -> (r: Option<String>)
    ensures
        text::opt_text(r) == file_name_of(s@),
{
    let p = parts_of(s);
    let n: usize = p.parts.len();
    if n == 0 {
        return None;
    }
    let last = p.parts[n - 1].as_str();
    proof {
        reveal_strlit(".");
        reveal_strlit("..");
        assert("."@ =~= seq!['.']);
        assert(".."@ =~= seq!['.', '.']);
        assert(last@ == text::texts(p.parts@).last());
    }
    if text::same(last, ".") || text::same(last, "..") {
        None
    } else {
        Some(p.parts[n - 1].clone())
    }
}

/// Equality of two paths.
pub fn same_path(a: &PathParts, b: &PathParts) -> (r: bool)
    ensures
        r == (a@ == b@),
{
    if a.rooted != b.rooted || a.parts.len() != b.parts.len() {
        proof {
            if a@ == b@ {
                assert(text::texts(a.parts@).len() == text::texts(b.parts@).len());
            }
        }
        return false;
    }
    let mut i: usize = 0;
    while i < a.parts.len()
        invariant
            i <= a.parts@.len(),
            a.parts@.len() == b.parts@.len(),
            forall|k: int| 0 <= k < i ==> text::texts(a.parts@)[k] == text::texts(b.parts@)[k],
        decreases a.parts@.len() - i,
    {
        if !text::same(a.parts[i].as_str(), b.parts[i].as_str()) {
            proof {
                assert(text::texts(a.parts@)[i as int] != text::texts(b.parts@)[i as int]);
            }
            return false;
        }
        i = i + 1;
    }
    assert(text::texts(a.parts@) =~= text::texts(b.parts@));
    true
}

/// Equality of two optional paths.
pub fn same_opt_path(a: &Option<PathParts>, b: &Option<PathParts>) -> (r: bool)
    ensures
        r == (opt_path(*a) == opt_path(*b)),
{
    match (a, b) {
        (Some(x), Some(y)) => same_path(x, y),
        (None, None) => true,
        _ => false,
    }
}

/// The path of `name` under `dir`.
pub fn join(dir: &str, name: &str) -> (r: String)
    ensures
        r@ == joined_path(dir@, name@),
{
    proof {
        reveal_strlit("/");
        assert("/"@ =~= seq!['/']);
        assert(scan::has_suffix(dir@, "/"@) <==> (dir@.len() > 0 && dir@.last() == '/')) by {
            if dir@.len() > 0 && dir@.last() == '/' {
                assert(dir@.skip(dir@.len() - 1) =~= "/"@);
            }
            if scan::has_suffix(dir@, "/"@) {
                assert(dir@.skip(dir@.len() - 1)[0] == '/');
            }
        }
        reveal_strlit("");
        if dir@.len() == 0 {
            assert(dir@ =~= ""@);
        }
    }
    if text::same(dir, "") || scan::ends_with(dir, "/") {
        text::join2(dir, name)
    } else {
        text::join3(dir, "/", name)
    }
}

} // verus!
