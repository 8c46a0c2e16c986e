//! Paths as the components that they are made of.

use vstd::prelude::*;

use crate::text::same_text;

verus! {

/// What the components of a path say.
pub open spec fn parts(path: Seq<String>) -> Seq<Seq<char>> {
    path.map_values(|s: String| s@)
}

/// Whether a path lies below another, or is the same.
pub open spec fn below(path: Seq<Seq<char>>, root: Seq<Seq<char>>) -> bool {
    root.len() <= path.len() && path.take(root.len() as int) == root
}

/// The path below `root`, where it lies there.
pub open spec fn stripped(path: Seq<Seq<char>>, root: Seq<Seq<char>>) -> Option<Seq<Seq<char>>> {
    if below(path, root) {
        Some(path.skip(root.len() as int))
    } else {
        None
    }
}

/// A component that is the root directory.
pub open spec fn is_root(component: Seq<char>) -> bool {
    component == seq!['/']
}

/// The components, with slashes between them; none follows the root, which is one itself.
pub open spec fn joined(path: Seq<Seq<char>>) -> Seq<char>
    decreases path.len(),
{
    if path.len() == 0 {
        seq![]
    } else if path.len() == 1 {
        path[0]
    } else if path.len() == 2 && is_root(path[0]) {
        path[0] + path[1]
    } else {
        joined(path.drop_last()) + seq!['/'] + path.last()
    }
}

pub fn same_path(a: &Vec<String>, b: &Vec<String>) -> (r: bool)
    ensures
        r == (parts(a@) == parts(b@)),
{
    if a.len() != b.len() {
        assert(parts(a@).len() != parts(b@).len());
        return false;
    }
    let mut i: usize = 0;
    while i < a.len()
        invariant
            i <= a@.len() == b@.len(),
            forall|j: int| 0 <= j < i ==> parts(a@)[j] == parts(b@)[j],
        decreases a@.len() - i,
    {
        if !same_text(a[i].as_str(), b[i].as_str()) {
            assert(parts(a@)[i as int] != parts(b@)[i as int]);
            return false;
        }
        i += 1;
    }
    assert(parts(a@) =~= parts(b@));
    true
}

pub fn is_below(path: &Vec<String>, root: &Vec<String>) -> (r: bool)
    ensures
        r == below(parts(path@), parts(root@)),
{
    if root.len() > path.len() {
        return false;
    }
    let mut i: usize = 0;
    while i < root.len()
        invariant
            i <= root@.len() <= path@.len(),
            forall|j: int| 0 <= j < i ==> parts(path@)[j] == parts(root@)[j],
        decreases root@.len() - i,
    {
        if !same_text(path[i].as_str(), root[i].as_str()) {
            assert(parts(path@).take(root@.len() as int)[i as int] != parts(root@)[i as int]);
            return false;
        }
        i += 1;
    }
    assert(parts(path@).take(root@.len() as int) =~= parts(root@));
    true
}

/// The path below `root`, where it lies there.
pub fn strip_prefix(path: &Vec<String>, root: &Vec<String>) -> (r: Option<Vec<String>>)
    ensures
        match r {
            Some(rest) => stripped(parts(path@), parts(root@)) == Some(parts(rest@)),
            None => stripped(parts(path@), parts(root@)) is None,
        },
{
    if !is_below(path, root) {
        return None;
    }
    let mut rest: Vec<String> = Vec::new();
    let mut i: usize = root.len();
    while i < path.len()
        invariant
            root@.len() <= i <= path@.len(),
            rest@.len() == i - root@.len(),
            forall|j: int|
                0 <= j < rest@.len() ==> (#[trigger] rest@[j])@ == path@[root@.len() + j]@,
        decreases path@.len() - i,
    {
        rest.push(path[i].clone());
        i += 1;
    }
    assert(parts(rest@) =~= parts(path@).skip(root@.len() as int));
    Some(rest)
}

/// `root` followed by `rest`.
pub fn append(root: &Vec<String>, rest: &Vec<String>) -> (r: Vec<String>)
    ensures
        parts(r@) == parts(root@) + parts(rest@),
{
    let mut out: Vec<String> = copy_path(root);
    let mut i: usize = 0;
    assert(parts(out@) =~= parts(root@) + parts(rest@).take(0));
    while i < rest.len()
        invariant
            i <= rest@.len(),
            parts(out@) == parts(root@) + parts(rest@).take(i as int),
        decreases rest@.len() - i,
    {
        let ghost before = out@;
        out.push(rest[i].clone());
        i += 1;
        proof {
            assert(parts(out@) =~= parts(before).push(rest@[i - 1]@));
            assert(parts(rest@).take(i as int) =~= parts(rest@).take(i - 1).push(
                rest@[i - 1]@,
            ));
            assert(parts(out@) =~= parts(root@) + parts(rest@).take(i as int));
        }
    }
    assert(parts(rest@).take(i as int) =~= parts(rest@));
    out
}

pub fn copy_path(path: &Vec<String>) -> (r: Vec<String>)
    ensures
        parts(r@) == parts(path@),
        r@.len() == path@.len(),
{
    let mut out: Vec<String> = Vec::new();
    let mut i: usize = 0;
    while i < path.len()
        invariant
            i <= path@.len(),
            out@.len() == i,
            forall|j: int| 0 <= j < i ==> (#[trigger] out@[j])@ == path@[j]@,
        decreases path@.len() - i,
    {
        out.push(path[i].clone());
        i += 1;
    }
    assert(parts(out@) =~= parts(path@));
    out
}

/// The path as a text with slashes.
pub fn join_parts(path: &Vec<String>) -> (r: String)
    ensures
        r@ == joined(parts(path@)),
{
    let mut out = String::new();
    let mut i: usize = 0;
    let ghost all = parts(path@);
    assert(out@ =~= joined(all.take(0)));
    while i < path.len()
        invariant
            i <= path@.len(),
            all == parts(path@),
            out@ == joined(all.take(i as int)),
        decreases path@.len() - i,
    {
        let ghost before = out@;
        assert(all.take(i + 1).drop_last() =~= all.take(i as int));
        assert(all.take(i + 1).last() == path@[i as int]@);
        proof {
            reveal_strlit("/");
            assert("/"@ =~= seq!['/']);
        }
        let below_root = i == 1 && same_text(path[0].as_str(), "/");
        if i > 0 && !below_root {
            out.push('/');
        }
        out.append(path[i].as_str());
        proof {
            assert(all.take(i + 1)[0] == path@[0]@);
            if i == 0 {
                assert(out@ =~= path@[0]@);
            } else if below_root {
                assert(all.take(1)[0] == path@[0]@);
                assert(before == path@[0]@);
                assert(all.take(i + 1)[1] == path@[1]@);
                assert(out@ =~= path@[0]@ + path@[1]@);
            } else {
                assert(out@ =~= before + seq!['/'] + path@[i as int]@);
            }
        }
        i += 1;
    }
    assert(all.take(i as int) =~= all);
    out
}

/// A path that is put below a root is found below it again.
pub proof fn law_stripping_undoes_appending(root: Seq<Seq<char>>, rest: Seq<Seq<char>>)
    ensures
        stripped(root + rest, root) == Some(rest),
{
    assert((root + rest).take(root.len() as int) =~= root);
    assert((root + rest).skip(root.len() as int) =~= rest);
}

/// Parts of a path are joined by a slash, but for one behind the root, which is a slash itself.
pub proof fn law_parts_are_joined_by_slashes(path: Seq<Seq<char>>, part: Seq<char>)
    ensures
        joined(Seq::<Seq<char>>::empty()).len() == 0,
        joined(seq![part]) == part,
        path.len() == 1 && path[0] == seq!['/'] ==> joined(path.push(part)) == seq!['/'] + part,
        path.len() > 1 || (path.len() == 1 && path[0] != seq!['/']) ==> joined(path.push(part))
            == joined(path) + seq!['/'] + part,
{
    assert(path.push(part).drop_last() =~= path);
}

/// A path is below another exactly if it goes on from it; what is left is the rest of its way.
pub proof fn law_paths_below_go_on_from_their_root(path: Seq<Seq<char>>, root: Seq<Seq<char>>)
    ensures
        below(path, root) <==> exists|rest: Seq<Seq<char>>| path == #[trigger] (root + rest),
        stripped(path, root) matches Some(rest) ==> path == root + rest,
        stripped(path, root) is Some <==> below(path, root),
        below(path, path),
{
    if below(path, root) {
        assert(path =~= root + path.skip(root.len() as int));
    }
    if exists|rest: Seq<Seq<char>>| path == #[trigger] (root + rest) {
        let rest = choose|rest: Seq<Seq<char>>| path == #[trigger] (root + rest);
        assert(path.take(root.len() as int) =~= root);
    }
    assert(path.take(path.len() as int) =~= path);
}

} // verus!
