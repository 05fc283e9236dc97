use vstd::prelude::*;
use vstd::arithmetic::power2::{pow2, lemma2_to64};
use crate::field::{Fe, bits_of, field_add, field_sub, succ, modulus};
use crate::merkle::{merkle_root, merkle_root_spec};
use crate::model::{Leaf, Tx, TxEx};
use crate::params::RollupParams;
use crate::range::{range_check, lemma_high_limbs, AMOUNT_LENGTH};

verus! {

/// Depth of the account tree in the benchmark circuit.
pub const PROOF_LENGTH: usize = 32;

/// Number of transactions in one batch of the benchmark circuit.
pub const N_TXS: usize = 1024;

/// The first requirement of the transition predicate that a witness violates.
#[derive(Clone, Copy, Debug, PartialEq, Eq, Structural)]
pub enum Violation {
    /// The signature does not verify over the message under the sender's key.
    BadSignature,
    /// The sender's nonce differs from the transaction's.
    NonceMismatch,
    /// The transferred amount does not fit the amount width.
    AmountOutOfRange,
    /// The sender index does not fit the tree depth.
    FromIndexOutOfRange,
    /// The receiver index does not fit the tree depth.
    ToIndexOutOfRange,
    /// The sender's balance before the transfer does not fit the amount width.
    SenderBalanceOutOfRange,
    /// The sender leaf and its path do not lead to the starting root.
    RootBeforeMismatch,
    /// The sender's balance after the transfer does not fit (it underflowed).
    SenderBalanceUnderflow,
    /// The receiver's balance before the transfer does not fit the amount width.
    ReceiverBalanceOutOfRange,
    /// The receiver leaf and its path do not lead to the intermediate root.
    RootMidMismatch,
    /// The receiver's balance after the transfer does not fit (it overflowed).
    ReceiverBalanceOverflow,
}

/// The sender leaf after the transfer: balance reduced, nonce advanced.
pub open spec fn leaf_from_after(leaf: Leaf, tx: Tx) -> (nat, nat, nat) {
    (leaf.owner@, field_sub(leaf.amount@, tx.amount@), succ(leaf.nonce@))
}

/// The receiver leaf after the transfer: balance increased.
pub open spec fn leaf_to_after(leaf: Leaf, tx: Tx) -> (nat, nat, nat) {
    (leaf.owner@, field_add(leaf.amount@, tx.amount@), leaf.nonce@)
}

/// The commitment to a leaf given as a triple.
pub open spec fn commit<P: RollupParams>(p: &P, l: (nat, nat, nat)) -> nat {
    p.leaf_hash_spec(l.0, l.1, l.2)
}

/// The root reached after updating the sender leaf.
pub open spec fn root_mid<P: RollupParams>(p: &P, tx: Tx, ex: TxEx) -> nat {
    merkle_root_spec(p, commit(p, leaf_from_after(ex.leaf_from, tx)), ex.proof_from_after@, bits_of(tx.from@, ex.depth()))
}

/// The root reached after updating both leaves.
pub open spec fn root_final<P: RollupParams>(p: &P, tx: Tx, ex: TxEx) -> nat {
    merkle_root_spec(p, commit(p, leaf_to_after(ex.leaf_to, tx)), ex.proof_to_after@, bits_of(tx.to@, ex.depth()))
}

/// The transition predicate: the root after `tx` applied to the tree with
/// root `root_before`, or the first requirement the witness violates.
pub open spec fn transition_spec<P: RollupParams>(p: &P, root_before: nat, tx: Tx, ex: TxEx) -> Result<nat, Violation> {
    let depth = ex.depth();
    let amount_bound = pow2(AMOUNT_LENGTH as nat);
    if !tx.sigverify_spec(ex.leaf_from.owner@, p) {
        Err(Violation::BadSignature)
    } else if ex.leaf_from.nonce@ != tx.nonce@ {
        Err(Violation::NonceMismatch)
    } else if tx.amount@ >= amount_bound {
        Err(Violation::AmountOutOfRange)
    } else if tx.from@ >= pow2(depth) {
        Err(Violation::FromIndexOutOfRange)
    } else if tx.to@ >= pow2(depth) {
        Err(Violation::ToIndexOutOfRange)
    } else if ex.leaf_from.amount@ >= amount_bound {
        Err(Violation::SenderBalanceOutOfRange)
    } else if merkle_root_spec(p, ex.leaf_from.hash_spec(p), ex.proof_from_before@, bits_of(tx.from@, depth))
        != root_before {
        Err(Violation::RootBeforeMismatch)
    } else if leaf_from_after(ex.leaf_from, tx).1 >= amount_bound {
        Err(Violation::SenderBalanceUnderflow)
    } else if ex.leaf_to.amount@ >= amount_bound {
        Err(Violation::ReceiverBalanceOutOfRange)
    } else if merkle_root_spec(p, ex.leaf_to.hash_spec(p), ex.proof_to_before@, bits_of(tx.to@, depth))
        != root_mid(p, tx, ex) {
        Err(Violation::RootMidMismatch)
    } else if leaf_to_after(ex.leaf_to, tx).1 >= amount_bound {
        Err(Violation::ReceiverBalanceOverflow)
    } else {
        Ok(root_final(p, tx, ex))
    }
}

/// A computed root, seen as its value.
pub open spec fn view_root(r: Result<Fe, Violation>) -> Result<nat, Violation> {
    match r {
        Ok(f) => Ok(f@),
        Err(e) => Err(e),
    }
}

/// A computed root is canonical.
pub open spec fn root_wf(r: Result<Fe, Violation>) -> bool {
    match r {
        Ok(f) => f.wf(),
        Err(_) => true,
    }
}

/// Applies one transaction to the tree with root `root_before`, checking its
/// signature, nonce, ranges and both authentication paths; returns the new
/// root, or the first requirement the witness violates.
pub fn transaction<P: RollupParams>(tx: &Tx, ex: &TxEx, root_before: &Fe, params: &P) -> (r: Result<Fe, Violation>)
    requires
        tx.wf(),
        ex.wf(),
        root_before.wf(),
    ensures
        root_wf(r),
        view_root(r) == transition_spec(params, root_before@, *tx, *ex),
{
    let depth = ex.proof_from_before.len();
    proof {
        lemma2_to64();
        assert(modulus() > 2 * pow2(64));
    }
    if !tx.sigverify(&ex.leaf_from.owner, params) {
        return Err(Violation::BadSignature);
    }
    if !ex.leaf_from.nonce.equals(&tx.nonce) {
        return Err(Violation::NonceMismatch);
    }
    if range_check(&tx.amount, AMOUNT_LENGTH).is_none() {
        return Err(Violation::AmountOutOfRange);
    }
    let path_from = match range_check(&tx.from, depth) {
        Some(bits) => bits,
        None => return Err(Violation::FromIndexOutOfRange),
    };
    let path_to = match range_check(&tx.to, depth) {
        Some(bits) => bits,
        None => return Err(Violation::ToIndexOutOfRange),
    };
    if range_check(&ex.leaf_from.amount, AMOUNT_LENGTH).is_none() {
        return Err(Violation::SenderBalanceOutOfRange);
    }
    let leaf_from_before_hash = ex.leaf_from.hash(params);
    let root_before2 = merkle_root(params, &leaf_from_before_hash, &ex.proof_from_before, &path_from);
    if !root_before2.equals(root_before) {
        return Err(Violation::RootBeforeMismatch);
    }
    proof {
        lemma_high_limbs(tx.amount, 64);
        lemma_high_limbs(ex.leaf_from.amount, 64);
        lemma_high_limbs(ex.leaf_to.amount, 64);
    }
    let have = ex.leaf_from.amount.l0;
    let spend = tx.amount.l0;
    if have < spend {
        proof {
            let a = have as int;
            let b = spend as int;
            let m = modulus() as int;
            vstd::arithmetic::div_mod::lemma_small_mod((a + m - b) as nat, m as nat);
        }
        return Err(Violation::SenderBalanceUnderflow);
    }
    let leaf_from_after = Leaf {
        owner: ex.leaf_from.owner,
        amount: Fe::from_u64(have - spend),
        nonce: ex.leaf_from.nonce.add_one(),
    };
    proof {
        let a = have as int;
        let b = spend as int;
        let m = modulus() as int;
        vstd::arithmetic::div_mod::lemma_mod_add_multiples_vanish(a - b, m);
        vstd::arithmetic::div_mod::lemma_small_mod((a - b) as nat, m as nat);
        assert(leaf_from_after.amount@ == field_sub(ex.leaf_from.amount@, tx.amount@));
    }
    let leaf_from_after_hash = leaf_from_after.hash(params);
    let root_after = merkle_root(params, &leaf_from_after_hash, &ex.proof_from_after, &path_from);

    if range_check(&ex.leaf_to.amount, AMOUNT_LENGTH).is_none() {
        return Err(Violation::ReceiverBalanceOutOfRange);
    }
    let leaf_to_before_hash = ex.leaf_to.hash(params);
    let root_after2 = merkle_root(params, &leaf_to_before_hash, &ex.proof_to_before, &path_to);
    if !root_after2.equals(&root_after) {
        return Err(Violation::RootMidMismatch);
    }
    let held = ex.leaf_to.amount.l0;
    proof {
        vstd::arithmetic::div_mod::lemma_small_mod((held + spend) as nat, modulus());
    }
    if held > 0xffff_ffff_ffff_ffff - spend {
        return Err(Violation::ReceiverBalanceOverflow);
    }
    let leaf_to_after = Leaf {
        owner: ex.leaf_to.owner,
        amount: Fe::from_u64(held + spend),
        nonce: ex.leaf_to.nonce,
    };
    let leaf_to_after_hash = leaf_to_after.hash(params);
    Ok(merkle_root(params, &leaf_to_after_hash, &ex.proof_to_after, &path_to))
}

/// The batch predicate: the left fold of `transition_spec` over the
/// transactions and their witnesses, threading the root, stopping at the
/// first violation.
pub open spec fn rollup_spec<P: RollupParams>(p: &P, root_before: nat, txs: Seq<Tx>, exs: Seq<TxEx>) -> Result<nat, Violation>
    decreases txs.len(),
{
    if txs.len() == 0 {
        Ok(root_before)
    } else {
        match rollup_spec(p, root_before, txs.drop_last(), exs.drop_last()) {
            Ok(root) => transition_spec(p, root, txs.last(), exs.last()),
            Err(e) => Err(e),
        }
    }
}

/// Every transaction and witness of a batch is well formed.
pub open spec fn batch_wf(txs: Seq<Tx>, exs: Seq<TxEx>) -> bool {
    &&& txs.len() == exs.len()
    &&& forall|i: int| 0 <= i < txs.len() ==> (#[trigger] txs[i]).wf()
    &&& forall|i: int| 0 <= i < exs.len() ==> (#[trigger] exs[i]).wf()
}

/// Applies the transactions in order, each to the root the previous one
/// produced; returns the final root or the first violation. The benchmark
/// circuit runs it on batches of `N_TXS`.
pub fn rollup<P: RollupParams>(txs: &Vec<Tx>, exs: &Vec<TxEx>, root_before: &Fe, params: &P) -> (r: Result<Fe, Violation>)
    requires
        batch_wf(txs@, exs@),
        root_before.wf(),
    ensures
        root_wf(r),
        view_root(r) == rollup_spec(params, root_before@, txs@, exs@),
{
    let mut root = *root_before;
    let mut i: usize = 0;
    proof {
        assert(txs@.subrange(0, 0).len() == 0);
    }
    while i < txs.len()
        invariant
            i <= txs@.len(),
            batch_wf(txs@, exs@),
            root.wf(),
            rollup_spec(params, root_before@, txs@.subrange(0, i as int), exs@.subrange(0, i as int)) == Ok::<nat, Violation>(root@),
        decreases txs@.len() - i,
    {
        proof {
            let t = txs@.subrange(0, i + 1);
            let e = exs@.subrange(0, i + 1);
            assert(t.drop_last() =~= txs@.subrange(0, i as int));
            assert(e.drop_last() =~= exs@.subrange(0, i as int));
        }
        match transaction(&txs[i], &exs[i], &root, params) {
            Ok(next) => {
                root = next;
            },
            Err(e) => {
                proof {
                    lemma_rollup_stops(params, root_before@, txs@, exs@, (i + 1) as nat);
                    assert(txs@.subrange(0, txs@.len() as int) =~= txs@);
                    assert(exs@.subrange(0, exs@.len() as int) =~= exs@);
                }
                return Err(e);
            },
        }
        i = i + 1;
    }
    proof {
        assert(txs@.subrange(0, i as int) =~= txs@);
        assert(exs@.subrange(0, i as int) =~= exs@);
    }
    Ok(root)
}

/// Once a prefix of a batch fails, the whole batch fails the same way.
proof fn lemma_rollup_stops<P: RollupParams>(p: &P, root: nat, txs: Seq<Tx>, exs: Seq<TxEx>, k: nat)
    requires
        k <= txs.len(),
        txs.len() == exs.len(),
        rollup_spec(p, root, txs.subrange(0, k as int), exs.subrange(0, k as int)).is_err(),
    ensures
        rollup_spec(p, root, txs.subrange(0, txs.len() as int), exs.subrange(0, exs.len() as int))
            == rollup_spec(p, root, txs.subrange(0, k as int), exs.subrange(0, k as int)),
    decreases txs.len() - k,
{
    if k < txs.len() {
        let t = txs.subrange(0, k + 1 as int);
        let e = exs.subrange(0, k + 1 as int);
        assert(t.drop_last() =~= txs.subrange(0, k as int));
        assert(e.drop_last() =~= exs.subrange(0, k as int));
        lemma_rollup_stops(p, root, txs, exs, k + 1);
    }
}

/// Batch composition: folding over `a` followed by `b` is folding over `a`,
/// then folding over `b` from the root that `a` reached.
pub proof fn lemma_rollup_compose<P: RollupParams>(
    p: &P,
    root: nat,
    txs_a: Seq<Tx>,
    exs_a: Seq<TxEx>,
    txs_b: Seq<Tx>,
    exs_b: Seq<TxEx>,
)
    requires
        txs_a.len() == exs_a.len(),
        txs_b.len() == exs_b.len(),
    ensures
        rollup_spec(p, root, txs_a + txs_b, exs_a + exs_b) == match rollup_spec(p, root, txs_a, exs_a) {
            Ok(mid) => rollup_spec(p, mid, txs_b, exs_b),
            Err(e) => Err(e),
        },
    decreases txs_b.len(),
{
    if txs_b.len() == 0 {
        assert(txs_a + txs_b =~= txs_a);
        assert(exs_a + exs_b =~= exs_a);
    } else {
        assert((txs_a + txs_b).drop_last() =~= txs_a + txs_b.drop_last());
        assert((exs_a + exs_b).drop_last() =~= exs_a + exs_b.drop_last());
        lemma_rollup_compose(p, root, txs_a, exs_a, txs_b.drop_last(), exs_b.drop_last());
    }
}

/// A batch of one transaction is that transaction's transition.
pub proof fn lemma_rollup_single<P: RollupParams>(p: &P, root: nat, tx: Tx, ex: TxEx)
    ensures
        rollup_spec(p, root, seq![tx], seq![ex]) == transition_spec(p, root, tx, ex),
{
    assert(seq![tx].drop_last() =~= Seq::<Tx>::empty());
    assert(seq![ex].drop_last() =~= Seq::<TxEx>::empty());
    assert(rollup_spec(p, root, Seq::<Tx>::empty(), Seq::<TxEx>::empty()) == Ok::<nat, Violation>(root));
}

/// A sender leaf whose path does not lead to the starting root makes the
/// transition fail, whatever else the witness holds.
pub proof fn lemma_wrong_path_rejected<P: RollupParams>(p: &P, root_before: nat, tx: Tx, ex: TxEx)
    requires
        merkle_root_spec(p, ex.leaf_from.hash_spec(p), ex.proof_from_before@, bits_of(tx.from@, ex.depth()))
            != root_before,
    ensures
        transition_spec(p, root_before, tx, ex).is_err(),
{
}

/// A signature that does not verify over the transaction's message under the
/// sender's key makes the transition fail.
pub proof fn lemma_bad_signature_rejected<P: RollupParams>(p: &P, root_before: nat, tx: Tx, ex: TxEx)
    requires
        !tx.sigverify_spec(ex.leaf_from.owner@, p),
    ensures
        transition_spec(p, root_before, tx, ex) == Err::<nat, Violation>(Violation::BadSignature),
{
}

/// A transition that succeeds moves `amount` from the sender to the
/// receiver, advances the sender's nonce, and returns the root recomputed
/// from the updated receiver leaf; neither balance leaves the amount width.
pub proof fn lemma_transition_accepts<P: RollupParams>(p: &P, root_before: nat, tx: Tx, ex: TxEx)
    requires
        tx.wf(),
        ex.wf(),
        transition_spec(p, root_before, tx, ex).is_ok(),
    ensures
        ex.leaf_from.nonce@ == tx.nonce@,
        tx.sigverify_spec(ex.leaf_from.owner@, p),
        ex.leaf_from.amount@ >= tx.amount@,
        leaf_from_after(ex.leaf_from, tx).1 == ex.leaf_from.amount@ - tx.amount@,
        leaf_to_after(ex.leaf_to, tx).1 == ex.leaf_to.amount@ + tx.amount@,
        leaf_to_after(ex.leaf_to, tx).1 < pow2(AMOUNT_LENGTH as nat),
        transition_spec(p, root_before, tx, ex) == Ok::<nat, Violation>(root_final(p, tx, ex)),
{
    lemma2_to64();
    let a = ex.leaf_from.amount@ as int;
    let b = tx.amount@ as int;
    let m = modulus() as int;
    assert(m > 2 * pow2(64));
    if a < b {
        vstd::arithmetic::div_mod::lemma_small_mod((a + m - b) as nat, m as nat);
    } else {
        vstd::arithmetic::div_mod::lemma_mod_add_multiples_vanish(a - b, m);
        vstd::arithmetic::div_mod::lemma_small_mod((a - b) as nat, m as nat);
    }
    vstd::arithmetic::div_mod::lemma_small_mod((ex.leaf_to.amount@ + b) as nat, m as nat);
}

/// Commitments and messages are functions of the values they hash: leaves
/// and transactions with equal field values hash alike.
pub proof fn lemma_hashes_deterministic<P: RollupParams>(p: &P, a: Leaf, b: Leaf, s: Tx, t: Tx)
    requires
        a.owner@ == b.owner@,
        a.amount@ == b.amount@,
        a.nonce@ == b.nonce@,
        s.from@ == t.from@,
        s.to@ == t.to@,
        s.amount@ == t.amount@,
        s.nonce@ == t.nonce@,
    ensures
        a.hash_spec(p) == b.hash_spec(p),
        s.hash_spec(p) == t.hash_spec(p),
{
}

/// The transition is a function of its inputs: equal roots, transactions
/// and witnesses give equal results.
pub proof fn lemma_transition_deterministic<P: RollupParams>(
    p: &P,
    root_a: nat,
    root_b: nat,
    tx_a: Tx,
    tx_b: Tx,
    ex_a: TxEx,
    ex_b: TxEx,
)
    requires
        root_a == root_b,
        tx_a == tx_b,
        ex_a.leaf_from == ex_b.leaf_from,
        ex_a.leaf_to == ex_b.leaf_to,
        ex_a.proof_from_before@ == ex_b.proof_from_before@,
        ex_a.proof_from_after@ == ex_b.proof_from_after@,
        ex_a.proof_to_before@ == ex_b.proof_to_before@,
        ex_a.proof_to_after@ == ex_b.proof_to_after@,
    ensures
        transition_spec(p, root_a, tx_a, ex_a) == transition_spec(p, root_b, tx_b, ex_b),
{
}

} // verus!
