//! The containment validator: the single safety mechanism of the
//! command. A target may only be deleted when it is a directory and a
//! *direct* child of the current directory — not the directory itself,
//! not an ancestor, not a deeper descendant, not an unrelated tree.
//! The one-level-only rule is deliberate: it bounds the blast radius of
//! the deletion to what the operator is looking directly at.

use vstd::prelude::*;

use crate::error::Error;
use crate::path::CanonicalPath;

verus! {

/// What the filesystem says the resolved target is. The caller queries
/// this; the validator only judges the answer.
#[derive(Clone, Copy, Debug, PartialEq, Eq, Structural)]
pub enum FileKind {
    /// The target exists and is a directory.
    Directory,
    /// The target exists but is not a directory.
    File,
    /// The target does not exist (or is a dangling reference).
    Missing,
}

/// `child` is a direct child of `parent`: one segment deeper, equal on
/// all of `parent`'s segments.
pub open spec fn is_direct_child(parent: Seq<Seq<char>>, child: Seq<Seq<char>>) -> bool {
    child.len() == parent.len() + 1 && child.drop_last() == parent
}

/// `child` is a direct child of `parent` exactly when its segment
/// sequence is `parent`'s with one more trailing segment.
pub proof fn lemma_direct_child_characterization(parent: Seq<Seq<char>>, child: Seq<Seq<char>>)
    ensures
        is_direct_child(parent, child) <==> (child.len() == parent.len() + 1 && child
            == parent.push(child.last())),
{
    if child.len() == parent.len() + 1 {
        if child.drop_last() == parent {
            assert(child =~= parent.push(child.last()));
        }
        if child == parent.push(child.last()) {
            assert(child.drop_last() =~= parent);
        }
    }
}

/// No path is a direct child of itself.
pub proof fn lemma_path_not_its_own_child(p: Seq<Seq<char>>)
    ensures
        !is_direct_child(p, p),
{
}

/// An ancestor of a path — any strict prefix of its segments — is never
/// a direct child of it.
pub proof fn lemma_ancestor_not_child(p: Seq<Seq<char>>, a: Seq<Seq<char>>)
    requires
        a.len() < p.len(),
        a == p.take(a.len() as int),
    ensures
        !is_direct_child(p, a),
{
}

/// A descendant two or more levels below a path is not a direct child
/// of it.
pub proof fn lemma_deeper_not_child(p: Seq<Seq<char>>, c: Seq<Seq<char>>)
    requires
        c.len() >= p.len() + 2,
        p == c.take(p.len() as int),
    ensures
        !is_direct_child(p, c),
{
}

/// A path that shares no common prefix with another — already their
/// first segments differ — is not a direct child of it.
pub proof fn lemma_unrelated_not_child(p: Seq<Seq<char>>, c: Seq<Seq<char>>)
    requires
        0 < p.len(),
        0 < c.len(),
        p[0] != c[0],
    ensures
        !is_direct_child(p, c),
{
    if is_direct_child(p, c) {
        assert(c.drop_last()[0] == c[0]);
    }
}

/// Decides whether `child` is exactly one segment deeper than `parent`,
/// comparing the two canonical paths segment by segment from the root.
pub fn is_direct_subdirectory(parent: &CanonicalPath, child: &CanonicalPath) -> (r: bool)
    ensures
        r == is_direct_child(parent@, child@),
{
    let np = parent.depth();
    let nc = child.depth();
    if nc == 0 || nc - 1 != np {
        return false;
    }
    let mut i: usize = 0;
    while i < np
        invariant
            np == parent@.len(),
            nc == child@.len(),
            nc == np + 1,
            0 <= i <= np,
            forall|j: int| 0 <= j < i ==> parent@[j] == child@[j],
        decreases np - i,
    {
        let same = *parent.segment(i) == *child.segment(i);
        if !same {
            proof {
                assert(child@.drop_last()[i as int] != parent@[i as int]);
            }
            return false;
        }
        i += 1;
    }
    proof {
        assert(child@.drop_last() =~= parent@);
    }
    true
}

/// Rejects with `NotASubdirectory` unless `child` is a direct child of
/// `parent`.
pub fn ensure_is_subdirectory(parent: &CanonicalPath, child: &CanonicalPath) -> (r: Result<
    (),
    Error,
>)
    ensures
        r is Ok <==> is_direct_child(parent@, child@),
        r matches Err(e) ==> e == Error::NotASubdirectory,
{
    if is_direct_subdirectory(parent, child) {
        Ok(())
    } else {
        Err(Error::NotASubdirectory)
    }
}

/// Rejects with `NotADirectory` unless the resolved target is a
/// directory.
pub fn ensure_is_dir(kind: FileKind) -> (r: Result<(), Error>)
    ensures
        r is Ok <==> kind == FileKind::Directory,
        r matches Err(e) ==> e == Error::NotADirectory,
{
    match kind {
        FileKind::Directory => Ok(()),
        _ => Err(Error::NotADirectory),
    }
}

/// The whole validation step before the prompt: the target must be a
/// directory, and it must be a direct child of the current directory.
/// The directory check comes first, so a deeper or unrelated file also
/// reports `NotADirectory` rather than `NotASubdirectory`.
pub fn validate_target(current: &CanonicalPath, target: &CanonicalPath, kind: FileKind) -> (r:
    Result<(), Error>)
    ensures
        r is Ok <==> (kind == FileKind::Directory && is_direct_child(current@, target@)),
        kind != FileKind::Directory ==> r == Result::<(), Error>::Err(Error::NotADirectory),
        kind == FileKind::Directory && !is_direct_child(current@, target@) ==> r == Result::<
            (),
            Error,
        >::Err(Error::NotASubdirectory),
{
    match ensure_is_dir(kind) {
        Err(e) => Err(e),
        Ok(()) => ensure_is_subdirectory(current, target),
    }
}

} // verus!
