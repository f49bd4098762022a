use vstd::prelude::*;

verus! {

/// How a BVH node divides the objects it is built over.
#[derive(PartialEq, Eq, Structural, Clone, Copy, Debug)]
pub enum BvhSplit {
    /// One object: both children hold it.
    Single,
    /// Two objects: one child each.
    Pair,
    /// More objects: sorted along the split axis, the first `mid` of them
    /// form the left subtree and the rest the right one.
    Halves { mid: usize },
}

/// The division a node over `len` objects makes.
pub open spec fn spec_bvh_split(len: nat) -> BvhSplit {
    if len == 1 {
        BvhSplit::Single
    } else if len == 2 {
        BvhSplit::Pair
    } else {
        BvhSplit::Halves { mid: (len / 2) as usize }
    }
}

/// Returns how a BVH node over `len` objects divides them; a node needs at
/// least one object.
pub fn bvh_split(len: usize) -> (split: BvhSplit)
    requires
        len >= 1,
    ensures
        split == spec_bvh_split(len as nat),
{
    if len == 1 {
        BvhSplit::Single
    } else if len == 2 {
        BvhSplit::Pair
    } else {
        BvhSplit::Halves { mid: len / 2 }
    }
}

/// Splitting into halves leaves both subtrees non-empty and smaller than the
/// node, and their sizes differ by at most one, so the hierarchy is balanced
/// and its construction ends.
pub proof fn lemma_halves_are_balanced(len: usize)
    requires
        len >= 3,
    ensures
        spec_bvh_split(len as nat) matches BvhSplit::Halves { mid } && 1 <= mid < len && mid <= len
            - mid <= mid + 1,
{
}

} // verus!
