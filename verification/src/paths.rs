use crate::text::{chars_equal, chars_of, split_chars, split_on};
use vstd::prelude::*;

verus! {

/// The named components of a path: its segments without empty and `.` ones,
/// which is what two equal `Path`s share.
pub open spec fn path_names(segments: Seq<Seq<char>>) -> Seq<Seq<char>>
    decreases segments.len(),
{
    if segments.len() == 0 {
        seq![]
    } else if segments.last().len() == 0 || segments.last() == "."@ {
        path_names(segments.drop_last())
    } else {
        path_names(segments.drop_last()).push(segments.last())
    }
}

pub open spec fn components(path: Seq<char>) -> Seq<Seq<char>> {
    path_names(split_on(path, '/'))
}

pub fn path_components(path: &str) -> (out: Vec<Vec<char>>)
    ensures
        out@.map_values(|w: Vec<char>| w@) == components(path@),
{
    let chars = chars_of(path);
    let segments = split_chars(&chars, '/');
    let ghost views = segments@.map_values(|w: Vec<char>| w@);
    let dot = chars_of(".");
    let mut out: Vec<Vec<char>> = Vec::new();
    let mut i: usize = 0;
    while i < segments.len()
        invariant
            views == split_on(path@, '/'),
            views == segments@.map_values(|w: Vec<char>| w@),
            chars@ == path@,
            dot@ == "."@,
            i <= segments.len(),
            out@.map_values(|w: Vec<char>| w@) == path_names(views.take(i as int)),
        decreases segments.len() - i,
    {
        assert(views.take(i + 1).drop_last() =~= views.take(i as int));
        assert(views[i as int] == segments@[i as int]@);
        let segment = &segments[i];
        if segment.len() != 0 && !chars_equal(segment, &dot) {
            let ghost before = out@.map_values(|w: Vec<char>| w@);
            out.push(segment.clone());
            assert(out@.map_values(|w: Vec<char>| w@) =~= before.push(segments@[i as int]@));
        }
        i += 1;
    }
    assert(views.take(segments.len() as int) =~= views);
    out
}

pub fn same_components(a: &Vec<Vec<char>>, b: &Vec<Vec<char>>) -> (eq: bool)
    ensures
        eq == (a@.map_values(|w: Vec<char>| w@) == b@.map_values(|w: Vec<char>| w@)),
{
    let ghost av = a@.map_values(|w: Vec<char>| w@);
    let ghost bv = b@.map_values(|w: Vec<char>| w@);
    if a.len() != b.len() {
        assert(av.len() != bv.len());
        return false;
    }
    let mut i: usize = 0;
    while i < a.len()
        invariant
            a.len() == b.len(),
            av == a@.map_values(|w: Vec<char>| w@),
            bv == b@.map_values(|w: Vec<char>| w@),
            i <= a.len(),
            forall|j: int| 0 <= j < i ==> av[j] == bv[j],
        decreases a.len() - i,
    {
        assert(av[i as int] == a@[i as int]@);
        assert(bv[i as int] == b@[i as int]@);
        if !chars_equal(&a[i], &b[i]) {
            return false;
        }
        i += 1;
    }
    assert(av =~= bv);
    true
}

/// An absolute path: it starts at `/`.
pub open spec fn absolute(path: Seq<char>) -> bool {
    path.len() > 0 && path[0] == '/'
}

/// `path` lies at or below `root`: both are absolute and the components of
/// `root` begin those of `path`, as `Path::starts_with` compares them.
pub open spec fn within(path: Seq<char>, root: Seq<char>) -> bool {
    &&& absolute(path)
    &&& absolute(root)
    &&& components(root).len() <= components(path).len()
    &&& components(path).take(components(root).len() as int) == components(root)
}

/// `path` is directly inside `root`: `root` is its parent.
pub open spec fn direct_child(path: Seq<char>, root: Seq<char>) -> bool {
    &&& within(path, root)
    &&& components(path).len() == components(root).len() + 1
}

fn is_absolute(path: &str) -> (b: bool)
    ensures
        b == absolute(path@),
{
    let chars = chars_of(path);
    chars.len() > 0 && chars[0] == '/'
}

/// Whether `path` lies at or below `root`; both must be absolute (a
/// canonical path always is), so a relative one is never within.
pub fn is_within(path: &str, root: &str) -> (b: bool)
    ensures
        b == within(path@, root@),
{
    if !is_absolute(path) || !is_absolute(root) {
        return false;
    }
    let inner = path_components(path);
    let outer = path_components(root);
    let ghost iv = inner@.map_values(|w: Vec<char>| w@);
    let ghost ov = outer@.map_values(|w: Vec<char>| w@);
    assert(iv == components(path@) && ov == components(root@));
    if outer.len() > inner.len() {
        return false;
    }
    let mut i: usize = 0;
    while i < outer.len()
        invariant
            outer.len() <= inner.len(),
            iv == components(path@),
            ov == components(root@),
            absolute(path@) && absolute(root@),
            iv == inner@.map_values(|w: Vec<char>| w@),
            ov == outer@.map_values(|w: Vec<char>| w@),
            i <= outer.len(),
            forall|j: int| 0 <= j < i ==> iv[j] == ov[j],
        decreases outer.len() - i,
    {
        assert(iv[i as int] == inner@[i as int]@);
        assert(ov[i as int] == outer@[i as int]@);
        if !chars_equal(&inner[i], &outer[i]) {
            assert(iv.take(ov.len() as int)[i as int] != ov[i as int]);
            assert(iv.take(ov.len() as int) != ov);
            return false;
        }
        i += 1;
    }
    assert(iv.take(ov.len() as int) =~= ov);
    true
}

/// Whether `root` is the parent of `path`; both must be absolute.
pub fn is_direct_child(path: &str, root: &str) -> (b: bool)
    ensures
        b == direct_child(path@, root@),
{
    if !is_within(path, root) {
        return false;
    }
    let inner = path_components(path);
    let outer = path_components(root);
    inner.len() > 0 && inner.len() - 1 == outer.len()
}

} // verus!
