use vstd::prelude::*;
use crate::field::Fe;
use crate::model::path_wf;
use crate::params::RollupParams;

verus! {

/// The node reached from `leaf` after the first `k` levels of `siblings`,
/// where `path[i]` set means the node at level `i` is a right child.
pub open spec fn root_upto<P: RollupParams>(p: &P, leaf: nat, siblings: Seq<Fe>, path: Seq<bool>, k: nat) -> nat
    decreases k,
{
    if k == 0 {
        leaf
    } else {
        let below = root_upto(p, leaf, siblings, path, (k - 1) as nat);
        let sib = siblings[k - 1]@;
        if path[k - 1] {
            p.node_hash_spec(sib, below)
        } else {
            p.node_hash_spec(below, sib)
        }
    }
}

/// The root recomputed from `leaf` along the whole authentication path.
pub open spec fn merkle_root_spec<P: RollupParams>(p: &P, leaf: nat, siblings: Seq<Fe>, path: Seq<bool>) -> nat {
    root_upto(p, leaf, siblings, path, siblings.len())
}

/// Recomputes the tree root from a leaf hash, its sibling hashes bottom-up and
/// its little-endian position bits.
pub fn merkle_root<P: RollupParams>(p: &P, leaf: &Fe, siblings: &Vec<Fe>, path: &Vec<bool>) -> (r: Fe)
    requires
        leaf.wf(),
        path_wf(siblings@),
        path@.len() == siblings@.len(),
    ensures
        r.wf(),
        r@ == merkle_root_spec(p, leaf@, siblings@, path@),
{
    let mut cur = *leaf;
    let mut i: usize = 0;
    while i < siblings.len()
        invariant
            i <= siblings@.len(),
            path@.len() == siblings@.len(),
            path_wf(siblings@),
            cur.wf(),
            cur@ == root_upto(p, leaf@, siblings@, path@, i as nat),
        decreases siblings@.len() - i,
    {
        let sib = &siblings[i];
        cur = if path[i] {
            p.node_hash(sib, &cur)
        } else {
            p.node_hash(&cur, sib)
        };
        i = i + 1;
    }
    cur
}

/// The node hash never maps two different pairs of children to one parent.
pub open spec fn node_hash_injective<P: RollupParams>(p: &P) -> bool {
    forall|a: nat, b: nat, c: nat, d: nat|
        #[trigger] p.node_hash_spec(a, b) == #[trigger] p.node_hash_spec(c, d) ==> a == c && b == d
}

/// Below the level where two paths first differ, the recomputed nodes agree.
proof fn lemma_root_upto_agree<P: RollupParams>(p: &P, leaf: nat, s1: Seq<Fe>, s2: Seq<Fe>, path: Seq<bool>, k: nat)
    requires
        k <= s1.len(),
        k <= s2.len(),
        forall|i: int| 0 <= i < k ==> s1[i]@ == s2[i]@,
    ensures
        root_upto(p, leaf, s1, path, k) == root_upto(p, leaf, s2, path, k),
    decreases k,
{
    if k > 0 {
        lemma_root_upto_agree(p, leaf, s1, s2, path, (k - 1) as nat);
    }
}

proof fn lemma_root_upto_differs<P: RollupParams>(
    p: &P,
    leaf: nat,
    s1: Seq<Fe>,
    s2: Seq<Fe>,
    path: Seq<bool>,
    j: int,
    k: nat,
)
    requires
        node_hash_injective(p),
        s1.len() == s2.len(),
        path.len() == s1.len(),
        0 <= j < k <= s1.len(),
        s1[j]@ != s2[j]@,
        forall|i: int| 0 <= i < s1.len() && i != j ==> s1[i]@ == s2[i]@,
    ensures
        root_upto(p, leaf, s1, path, k) != root_upto(p, leaf, s2, path, k),
    decreases k,
{
    if k == j + 1 {
        lemma_root_upto_agree(p, leaf, s1, s2, path, j as nat);
    } else {
        lemma_root_upto_differs(p, leaf, s1, s2, path, j, (k - 1) as nat);
    }
    let b1 = root_upto(p, leaf, s1, path, (k - 1) as nat);
    let b2 = root_upto(p, leaf, s2, path, (k - 1) as nat);
    if path[k - 1] {
        assert(p.node_hash_spec(s1[k - 1]@, b1) != p.node_hash_spec(s2[k - 1]@, b2));
    } else {
        assert(p.node_hash_spec(b1, s1[k - 1]@) != p.node_hash_spec(b2, s2[k - 1]@));
    }
}

/// With a collision-free node hash, changing one sibling of an
/// authentication path changes the recomputed root.
pub proof fn lemma_sibling_change_changes_root<P: RollupParams>(
    p: &P,
    leaf: nat,
    siblings: Seq<Fe>,
    path: Seq<bool>,
    j: int,
    other: Fe,
)
    requires
        node_hash_injective(p),
        path.len() == siblings.len(),
        0 <= j < siblings.len(),
        other@ != siblings[j]@,
    ensures
        merkle_root_spec(p, leaf, siblings.update(j, other), path) != merkle_root_spec(p, leaf, siblings, path),
{
    lemma_root_upto_differs(p, leaf, siblings.update(j, other), siblings, path, j, siblings.len());
}

/// With a collision-free node hash, two different leaves on the same
/// authentication path give different roots.
pub proof fn lemma_leaf_change_changes_root<P: RollupParams>(
    p: &P,
    leaf_a: nat,
    leaf_b: nat,
    siblings: Seq<Fe>,
    path: Seq<bool>,
)
    requires
        node_hash_injective(p),
        path.len() == siblings.len(),
        leaf_a != leaf_b,
    ensures
        merkle_root_spec(p, leaf_a, siblings, path) != merkle_root_spec(p, leaf_b, siblings, path),
{
    lemma_leaf_change_upto(p, leaf_a, leaf_b, siblings, path, siblings.len());
}

proof fn lemma_leaf_change_upto<P: RollupParams>(p: &P, leaf_a: nat, leaf_b: nat, siblings: Seq<Fe>, path: Seq<bool>, k: nat)
    requires
        node_hash_injective(p),
        path.len() == siblings.len(),
        k <= siblings.len(),
        leaf_a != leaf_b,
    ensures
        root_upto(p, leaf_a, siblings, path, k) != root_upto(p, leaf_b, siblings, path, k),
    decreases k,
{
    if k > 0 {
        lemma_leaf_change_upto(p, leaf_a, leaf_b, siblings, path, (k - 1) as nat);
        let a = root_upto(p, leaf_a, siblings, path, (k - 1) as nat);
        let b = root_upto(p, leaf_b, siblings, path, (k - 1) as nat);
        let sib = siblings[k - 1]@;
        assert(p.node_hash_spec(sib, a) != p.node_hash_spec(sib, b));
        assert(p.node_hash_spec(a, sib) != p.node_hash_spec(b, sib));
    }
}

} // verus!
