use vstd::prelude::*;
use crate::field::Fe;
use crate::params::RollupParams;

verus! {

/// One account: its owner's public-key coordinate, its balance and its nonce.
#[derive(Clone, Copy, Debug, PartialEq, Eq)]
pub struct Leaf {
    pub owner: Fe,
    pub amount: Fe,
    pub nonce: Fe,
}

impl Leaf {
    pub open spec fn wf(&self) -> bool {
        self.owner.wf() && self.amount.wf() && self.nonce.wf()
    }

    /// The leaf's commitment.
    pub open spec fn hash_spec<P: RollupParams>(&self, p: &P) -> nat {
        p.leaf_hash_spec(self.owner@, self.amount@, self.nonce@)
    }

    /// Commits to the leaf with the leaf hash.
    pub fn hash<P: RollupParams>(&self, p: &P) -> (h: Fe)
        requires
            self.wf(),
        ensures
            h.wf(),
            h@ == self.hash_spec(p),
    {
        p.leaf_hash(&self.owner, &self.amount, &self.nonce)
    }
}

/// A signed transfer of `amount` from leaf index `from` to leaf index `to`.
#[derive(Clone, Copy, Debug, PartialEq, Eq)]
pub struct Tx {
    pub from: Fe,
    pub to: Fe,
    pub amount: Fe,
    pub nonce: Fe,
    pub s: Fe,
    pub r: Fe,
}

impl Tx {
    pub open spec fn wf(&self) -> bool {
        self.from.wf() && self.to.wf() && self.amount.wf() && self.nonce.wf() && self.s.wf() && self.r.wf()
    }

    /// The message the transaction is signed over.
    pub open spec fn hash_spec<P: RollupParams>(&self, p: &P) -> nat {
        p.tx_hash_spec(self.from@, self.to@, self.amount@, self.nonce@)
    }

    /// Whether the signature is valid over the message under `owner`.
    pub open spec fn sigverify_spec<P: RollupParams>(&self, owner: nat, p: &P) -> bool {
        p.signature_valid_spec(self.s@, self.r@, owner, self.hash_spec(p))
    }

    /// Hashes `(from, to, amount, nonce)` into the signed message.
    pub fn hash<P: RollupParams>(&self, p: &P) -> (h: Fe)
        requires
            self.wf(),
        ensures
            h.wf(),
            h@ == self.hash_spec(p),
    {
        p.tx_hash(&self.from, &self.to, &self.amount, &self.nonce)
    }

    /// Checks `(s, r)` over the transaction's message under the key `owner`.
    pub fn sigverify<P: RollupParams>(&self, owner: &Fe, p: &P) -> (ok: bool)
        requires
            self.wf(),
            owner.wf(),
        ensures
            ok == self.sigverify_spec(owner@, p),
    {
        let m = self.hash(p);
        p.signature_valid(&self.s, &self.r, owner, &m)
    }
}

/// The witness of one transaction: both leaves before it, and the sibling
/// paths of the sender and receiver before and after each update.
#[derive(Clone, Debug)]
pub struct TxEx {
    pub leaf_from: Leaf,
    pub leaf_to: Leaf,
    pub proof_from_before: Vec<Fe>,
    pub proof_from_after: Vec<Fe>,
    pub proof_to_before: Vec<Fe>,
    pub proof_to_after: Vec<Fe>,
}

/// Every element of a path is canonical.
pub open spec fn path_wf(path: Seq<Fe>) -> bool {
    forall|i: int| 0 <= i < path.len() ==> (#[trigger] path[i]).wf()
}

impl TxEx {
    /// The tree depth of the witness: the length of its paths.
    pub open spec fn depth(&self) -> nat {
        self.proof_from_before@.len()
    }

    /// Both leaves are canonical, and all four paths are canonical and of one
    /// length.
    pub open spec fn wf(&self) -> bool {
        &&& self.leaf_from.wf()
        &&& self.leaf_to.wf()
        &&& self.proof_from_after@.len() == self.depth()
        &&& self.proof_to_before@.len() == self.depth()
        &&& self.proof_to_after@.len() == self.depth()
        &&& path_wf(self.proof_from_before@)
        &&& path_wf(self.proof_from_after@)
        &&& path_wf(self.proof_to_before@)
        &&& path_wf(self.proof_to_after@)
    }
}

} // verus!
