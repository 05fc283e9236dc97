use vstd::prelude::*;
use crate::field::Fe;

verus! {

/// The parameter bundle: the hash functions for Merkle nodes, leaves and
/// transaction messages, and the signature scheme over the curve, for a
/// chosen curve and parameter set. Each is a deterministic function of its
/// inputs, which the `*_spec` functions name; an implementation verified with
/// the library defines them, and the default leaves them unspecified.
pub trait RollupParams {
    /// Compression of two Merkle children into their parent.
    closed spec fn node_hash_spec(&self, left: nat, right: nat) -> nat {
        arbitrary()
    }

    /// Commitment to a leaf `(owner, amount, nonce)`.
    closed spec fn leaf_hash_spec(&self, owner: nat, amount: nat, nonce: nat) -> nat {
        arbitrary()
    }

    /// The message a transaction `(from, to, amount, nonce)` is signed over.
    closed spec fn tx_hash_spec(&self, from: nat, to: nat, amount: nat, nonce: nat) -> nat {
        arbitrary()
    }

    /// Whether `(s, r)` is a valid signature over `msg` under the public key
    /// whose coordinate is `owner`.
    closed spec fn signature_valid_spec(&self, s: nat, r: nat, owner: nat, msg: nat) -> bool {
        arbitrary()
    }

    /// Hashes two Merkle children into their parent.
    fn node_hash(&self, left: &Fe, right: &Fe) -> (h: Fe)
        requires
            left.wf(),
            right.wf(),
        ensures
            h.wf(),
            h@ == self.node_hash_spec(left@, right@),
    ;

    /// Hashes a leaf's three fields.
    fn leaf_hash(&self, owner: &Fe, amount: &Fe, nonce: &Fe) -> (h: Fe)
        requires
            owner.wf(),
            amount.wf(),
            nonce.wf(),
        ensures
            h.wf(),
            h@ == self.leaf_hash_spec(owner@, amount@, nonce@),
    ;

    /// Hashes a transaction's four signed fields.
    fn tx_hash(&self, from: &Fe, to: &Fe, amount: &Fe, nonce: &Fe) -> (h: Fe)
        requires
            from.wf(),
            to.wf(),
            amount.wf(),
            nonce.wf(),
        ensures
            h.wf(),
            h@ == self.tx_hash_spec(from@, to@, amount@, nonce@),
    ;

    /// Verifies a signature over `msg` under the key `owner`.
    fn signature_valid(&self, s: &Fe, r: &Fe, owner: &Fe, msg: &Fe) -> (ok: bool)
        requires
            s.wf(),
            r.wf(),
            owner.wf(),
            msg.wf(),
        ensures
            ok == self.signature_valid_spec(s@, r@, owner@, msg@),
    ;
}

} // verus!
