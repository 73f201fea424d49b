//! The disjoint-set forest that region building runs on.
//!
//! The forest itself is `disjoint_sets::UnionFind`; nothing in this module is
//! proved. Each item states what the forest is taken to do, over one model:
//! the sequence that gives, for every element, the representative of its set.

use disjoint_sets::UnionFind;
use vstd::prelude::*;

verus! {

/// A disjoint-set forest over the elements `0, 1, 2, ...`, kept by the
/// `disjoint_sets` crate.
#[verifier::external_body]
pub struct Forest {
    inner: UnionFind<usize>,
}

/// For each element of the forest, in order, the representative of the set
/// that holds it: the root that `UnionFind::find` walks to.
pub uninterp spec fn representatives(forest: Forest) -> Seq<usize>;

/// How the representatives change when the sets of `a` and `b` are joined:
/// one of the two old representatives becomes the representative of every
/// element of both sets, and every other element keeps its own.
pub open spec fn joined(before: Seq<usize>, after: Seq<usize>, a: int, b: int) -> bool {
    &&& after.len() == before.len()
    &&& (after[a] == before[a] || after[a] == before[b])
    &&& forall|i: int|
        0 <= i < before.len() ==> #[trigger] after[i] == if before[i] == before[a] || before[i]
            == before[b] {
            after[a]
        } else {
            before[i]
        }
}

/// `UnionFind::new`: a forest of `size` singleton sets, so that every element
/// is its own representative. As with a `Vec`, running out of memory is not
/// part of the picture.
#[verifier::external_body]
pub(crate) fn forest_new(size: usize) -> (forest: Forest)
    ensures
        representatives(forest).len() == size,
        forall|i: int| 0 <= i < size ==> #[trigger] representatives(forest)[i] == i,
{
    Forest { inner: UnionFind::new(size) }
}

/// `UnionFind::union`: joins the sets of `a` and `b` and tells whether they
/// were different sets. The crate hangs the root of lower rank under the
/// other, so which of the two old representatives survives is left open here.
/// Both elements must exist: the crate indexes its parent array with them.
#[verifier::external_body]
pub(crate) fn forest_union(forest: &mut Forest, a: usize, b: usize) -> (changed: bool)
    requires
        a < representatives(*old(forest)).len(),
        b < representatives(*old(forest)).len(),
    ensures
        joined(representatives(*old(forest)), representatives(*final(forest)), a as int, b as int),
        changed == (representatives(*old(forest))[a as int] != representatives(
            *old(forest),
        )[b as int]),
{
    forest.inner.union(a, b)
}

/// `UnionFind::find`: the representative of the set that holds `a`. The crate
/// shortens paths on the way, which moves no element to another set.
#[verifier::external_body]
pub(crate) fn forest_find(forest: &Forest, a: usize) -> (r: usize)
    requires
        a < representatives(*forest).len(),
    ensures
        r == representatives(*forest)[a as int],
{
    forest.inner.find(a)
}

} // verus!
