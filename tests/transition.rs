use rollup_circuit::field::Fe;
use rollup_circuit::merkle::merkle_root;
use rollup_circuit::model::{Leaf, Tx, TxEx};
use rollup_circuit::range::range_check;
use rollup_circuit::params::RollupParams;
use rollup_circuit::rollup::{rollup, transaction, Violation};

/// Small, deterministic stand-ins for the hash and signature primitives.
struct Toy;

fn mix(acc: u64, x: &Fe) -> u64 {
    acc.wrapping_mul(0x9e37_79b9_7f4a_7c15)
        ^ x.l0.wrapping_add(x.l1.rotate_left(7)).wrapping_add(x.l2.rotate_left(13)).wrapping_add(x.l3.rotate_left(29))
}

fn toy_hash(tag: u64, xs: &[&Fe]) -> Fe {
    let mut acc = tag;
    for x in xs {
        acc = mix(acc, x);
    }
    Fe::from_u64(acc.wrapping_mul(0xbf58_476d_1ce4_e5b9) >> 1)
}

fn toy_sign(owner: &Fe, msg: &Fe) -> Fe {
    Fe::from_u64(owner.l0 ^ msg.l0)
}

impl RollupParams for Toy {
    fn node_hash(&self, left: &Fe, right: &Fe) -> Fe {
        toy_hash(3, &[left, right])
    }
    fn leaf_hash(&self, owner: &Fe, amount: &Fe, nonce: &Fe) -> Fe {
        toy_hash(4, &[owner, amount, nonce])
    }
    fn tx_hash(&self, from: &Fe, to: &Fe, amount: &Fe, nonce: &Fe) -> Fe {
        toy_hash(5, &[from, to, amount, nonce])
    }
    fn signature_valid(&self, s: &Fe, r: &Fe, owner: &Fe, msg: &Fe) -> bool {
        r.l0 == 1 && *s == toy_sign(owner, msg)
    }
}

fn fe(v: u64) -> Fe {
    Fe::from_u64(v)
}

fn leaf(owner: u64, amount: u64, nonce: u64) -> Leaf {
    Leaf { owner: fe(owner), amount: fe(amount), nonce: fe(nonce) }
}

fn signed_tx(p: &Toy, owner: &Fe, from: u64, to: u64, amount: u64, nonce: u64) -> Tx {
    let mut tx = Tx { from: fe(from), to: fe(to), amount: fe(amount), nonce: fe(nonce), s: fe(0), r: fe(1) };
    let m = tx.hash(p);
    tx.s = toy_sign(owner, &m);
    tx
}

/// Root of a depth-2 tree over four leaves.
fn root4(p: &Toy, leaves: &[Leaf; 4]) -> Fe {
    let h: Vec<Fe> = leaves.iter().map(|l| l.hash(p)).collect();
    let a = p.node_hash(&h[0], &h[1]);
    let b = p.node_hash(&h[2], &h[3]);
    p.node_hash(&a, &b)
}

/// Sibling path of leaf `i` in a depth-2 tree over four leaves.
fn path4(p: &Toy, leaves: &[Leaf; 4], i: usize) -> Vec<Fe> {
    let h: Vec<Fe> = leaves.iter().map(|l| l.hash(p)).collect();
    let pair = if i < 2 { p.node_hash(&h[2], &h[3]) } else { p.node_hash(&h[0], &h[1]) };
    vec![h[i ^ 1], pair]
}

/// A valid transfer of `amount` from leaf `from` to leaf `to` in `leaves`,
/// with the witness, the root before, and the leaves after.
fn transfer(p: &Toy, leaves: &[Leaf; 4], from: usize, to: usize, amount: u64) -> (Tx, TxEx, Fe, [Leaf; 4]) {
    let root = root4(p, leaves);
    let sender = leaves[from];
    let tx = signed_tx(p, &sender.owner, from as u64, to as u64, amount, sender.nonce.l0);
    let mut mid = *leaves;
    mid[from] = leaf(sender.owner.l0, sender.amount.l0 - amount, sender.nonce.l0 + 1);
    let mut after = mid;
    after[to] = leaf(leaves[to].owner.l0, leaves[to].amount.l0 + amount, leaves[to].nonce.l0);
    let ex = TxEx {
        leaf_from: sender,
        leaf_to: leaves[to],
        proof_from_before: path4(p, leaves, from),
        proof_from_after: path4(p, &mid, from),
        proof_to_before: path4(p, &mid, to),
        proof_to_after: path4(p, &after, to),
    };
    (tx, ex, root, after)
}

fn start_leaves() -> [Leaf; 4] {
    [leaf(1001, 100, 0), leaf(1002, 0, 5), leaf(1003, 40, 2), leaf(1004, 7, 9)]
}

#[test]
fn end_to_end_single_transfer() {
    let p = Toy;
    let leaves = start_leaves();
    let (tx, ex, root, after) = transfer(&p, &leaves, 0, 1, 5);
    assert_eq!(after[0], leaf(1001, 95, 1));
    assert_eq!(after[1], leaf(1002, 5, 5));
    let r = transaction(&tx, &ex, &root, &p).unwrap();
    assert_eq!(r, root4(&p, &after));
    assert_ne!(r, root);
    let batch = rollup(&vec![tx], &vec![ex], &root, &p).unwrap();
    assert_eq!(batch, r);
}

#[test]
fn transition_is_deterministic() {
    let p = Toy;
    let (tx, ex, root, _) = transfer(&p, &start_leaves(), 0, 1, 5);
    let a = transaction(&tx, &ex, &root, &p);
    let b = transaction(&tx, &ex, &root, &p);
    assert_eq!(a, b);
    let l = leaf(1, 2, 3);
    assert_eq!(l.hash(&p), l.hash(&p));
    assert_eq!(tx.hash(&p), tx.hash(&p));
}

#[test]
fn rollup_is_left_fold_of_three() {
    let p = Toy;
    let l0 = start_leaves();
    let (t1, e1, root0, l1) = transfer(&p, &l0, 0, 1, 5);
    let (t2, e2, root1, l2) = transfer(&p, &l1, 2, 3, 10);
    let (t3, e3, root2, l3) = transfer(&p, &l2, 1, 0, 3);
    let s1 = transaction(&t1, &e1, &root0, &p).unwrap();
    assert_eq!(s1, root1);
    let s2 = transaction(&t2, &e2, &s1, &p).unwrap();
    assert_eq!(s2, root2);
    let s3 = transaction(&t3, &e3, &s2, &p).unwrap();
    let batch = rollup(&vec![t1, t2, t3], &vec![e1, e2, e3], &root0, &p).unwrap();
    assert_eq!(batch, s3);
    assert_eq!(batch, root4(&p, &l3));
}

#[test]
fn rollup_stops_at_first_violation() {
    let p = Toy;
    let l0 = start_leaves();
    let (t1, e1, root0, l1) = transfer(&p, &l0, 0, 1, 5);
    let (mut t2, e2, _, _) = transfer(&p, &l1, 2, 3, 10);
    t2.nonce = fe(99);
    let (t3, e3, _, _) = transfer(&p, &l1, 1, 0, 3);
    let r = rollup(&vec![t1, t2, t3], &vec![e1, e2, e3], &root0, &p);
    assert_eq!(r, Err(Violation::BadSignature));
}

#[test]
fn empty_batch_keeps_root() {
    let p = Toy;
    let root = fe(42);
    assert_eq!(rollup(&vec![], &vec![], &root, &p), Ok(root));
}

#[test]
fn wrong_path_is_rejected() {
    let p = Toy;
    let leaves = start_leaves();
    let (tx, mut ex, root, _) = transfer(&p, &leaves, 0, 1, 5);
    ex.proof_from_before[1] = fe(12345);
    assert_eq!(transaction(&tx, &ex, &root, &p), Err(Violation::RootBeforeMismatch));
}

#[test]
fn sender_at_other_index_is_rejected() {
    let p = Toy;
    let leaves = start_leaves();
    let (_, mut ex, root, _) = transfer(&p, &leaves, 0, 1, 5);
    ex.proof_from_before = path4(&p, &leaves, 2);
    let tx = signed_tx(&p, &leaves[0].owner, 0, 1, 5, 0);
    assert_eq!(transaction(&tx, &ex, &root, &p), Err(Violation::RootBeforeMismatch));
}

#[test]
fn bad_signature_is_rejected() {
    let p = Toy;
    let (mut tx, ex, root, _) = transfer(&p, &start_leaves(), 0, 1, 5);
    tx.s = fe(tx.s.l0 ^ 1);
    assert_eq!(transaction(&tx, &ex, &root, &p), Err(Violation::BadSignature));
}

#[test]
fn signature_under_other_key_is_rejected() {
    let p = Toy;
    let leaves = start_leaves();
    let (_, ex, root, _) = transfer(&p, &leaves, 0, 1, 5);
    let tx = signed_tx(&p, &leaves[1].owner, 0, 1, 5, 0);
    assert!(!tx.sigverify(&leaves[0].owner, &p));
    assert!(tx.sigverify(&leaves[1].owner, &p));
    assert_eq!(transaction(&tx, &ex, &root, &p), Err(Violation::BadSignature));
}

#[test]
fn nonce_mismatch_is_rejected() {
    let p = Toy;
    let leaves = start_leaves();
    let (_, ex, root, _) = transfer(&p, &leaves, 0, 1, 5);
    let tx = signed_tx(&p, &leaves[0].owner, 0, 1, 5, 1);
    assert_eq!(transaction(&tx, &ex, &root, &p), Err(Violation::NonceMismatch));
}

fn big() -> Fe {
    Fe { l0: 0, l1: 1, l2: 0, l3: 0 }
}

#[test]
fn amount_out_of_range_is_rejected() {
    let p = Toy;
    let leaves = start_leaves();
    let (_, ex, root, _) = transfer(&p, &leaves, 0, 1, 5);
    let mut tx = Tx { from: fe(0), to: fe(1), amount: big(), nonce: fe(0), s: fe(0), r: fe(1) };
    tx.s = toy_sign(&leaves[0].owner, &tx.hash(&p));
    assert_eq!(transaction(&tx, &ex, &root, &p), Err(Violation::AmountOutOfRange));
}

#[test]
fn index_out_of_range_is_rejected() {
    let p = Toy;
    let leaves = start_leaves();
    let (_, ex, root, _) = transfer(&p, &leaves, 0, 1, 5);
    let tx = signed_tx(&p, &leaves[0].owner, 4, 1, 5, 0);
    assert_eq!(transaction(&tx, &ex, &root, &p), Err(Violation::FromIndexOutOfRange));
    let tx = signed_tx(&p, &leaves[0].owner, 0, 4, 5, 0);
    assert_eq!(transaction(&tx, &ex, &root, &p), Err(Violation::ToIndexOutOfRange));
}

#[test]
fn sender_balance_out_of_range_is_rejected() {
    let p = Toy;
    let mut leaves = start_leaves();
    leaves[0].amount = big();
    let (_, mut ex, root, _) = transfer(&p, &start_leaves(), 0, 1, 5);
    ex.leaf_from = leaves[0];
    let tx = signed_tx(&p, &leaves[0].owner, 0, 1, 5, 0);
    assert_eq!(transaction(&tx, &ex, &root, &p), Err(Violation::SenderBalanceOutOfRange));
}

#[test]
fn sender_underflow_is_rejected() {
    let p = Toy;
    let leaves = start_leaves();
    let root = root4(&p, &leaves);
    let (_, mut ex, _, _) = transfer(&p, &leaves, 0, 1, 5);
    ex.proof_from_before = path4(&p, &leaves, 0);
    let tx = signed_tx(&p, &leaves[0].owner, 0, 1, 101, 0);
    assert_eq!(transaction(&tx, &ex, &root, &p), Err(Violation::SenderBalanceUnderflow));
    let tx = signed_tx(&p, &leaves[0].owner, 0, 1, 100, 0);
    assert!(transaction(&tx, &ex, &root, &p).is_err());
}

#[test]
fn receiver_balance_out_of_range_is_rejected() {
    let p = Toy;
    let (tx, mut ex, root, _) = transfer(&p, &start_leaves(), 0, 1, 5);
    ex.leaf_to.amount = big();
    assert_eq!(transaction(&tx, &ex, &root, &p), Err(Violation::ReceiverBalanceOutOfRange));
}

#[test]
fn receiver_path_mismatch_is_rejected() {
    let p = Toy;
    let (tx, mut ex, root, _) = transfer(&p, &start_leaves(), 0, 1, 5);
    ex.proof_to_before[0] = fe(777);
    assert_eq!(transaction(&tx, &ex, &root, &p), Err(Violation::RootMidMismatch));
}

#[test]
fn receiver_overflow_is_rejected() {
    let p = Toy;
    let mut leaves = start_leaves();
    leaves[1].amount = fe(u64::MAX - 4);
    let (_, ex, root, _) = transfer(&p, &leaves, 0, 1, 4);
    let tx = signed_tx(&p, &leaves[0].owner, 0, 1, 4, 0);
    assert!(transaction(&tx, &ex, &root, &p).is_ok());
    let mut mid = leaves;
    mid[0] = leaf(1001, 95, 1);
    let ex5 = TxEx {
        leaf_from: leaves[0],
        leaf_to: leaves[1],
        proof_from_before: path4(&p, &leaves, 0),
        proof_from_after: path4(&p, &mid, 0),
        proof_to_before: path4(&p, &mid, 1),
        proof_to_after: path4(&p, &mid, 1),
    };
    let tx5 = signed_tx(&p, &leaves[0].owner, 0, 1, 5, 0);
    assert_eq!(transaction(&tx5, &ex5, &root, &p), Err(Violation::ReceiverBalanceOverflow));
}

#[test]
fn merkle_root_follows_index_bits() {
    let p = Toy;
    let leaves = start_leaves();
    let h = leaves[2].hash(&p);
    let r = merkle_root(&p, &h, &path4(&p, &leaves, 2), &vec![false, true]);
    assert_eq!(r, root4(&p, &leaves));
    let wrong = merkle_root(&p, &h, &path4(&p, &leaves, 2), &vec![true, true]);
    assert_ne!(wrong, root4(&p, &leaves));
    assert_eq!(merkle_root(&p, &h, &vec![], &vec![]), h);
}

#[test]
fn deep_tree_transfer() {
    let p = Toy;
    let depth = 70;
    let sender = leaf(1, 50, 3);
    let receiver = leaf(2, 1, 0);
    let from_bits = range_check(&fe(0), depth).unwrap();
    let to_bits = range_check(&fe(1), depth).unwrap();
    let upper: Vec<Fe> = (0..depth - 1).map(|i| fe(500 + i as u64)).collect();
    let path = |sib: Fe| -> Vec<Fe> {
        let mut v = vec![sib];
        v.extend(upper.iter().copied());
        v
    };
    let root = merkle_root(&p, &sender.hash(&p), &path(receiver.hash(&p)), &from_bits);
    let tx = signed_tx(&p, &sender.owner, 0, 1, 20, 3);
    let sender_after = leaf(1, 30, 4);
    let receiver_after = leaf(2, 21, 0);
    let ex = TxEx {
        leaf_from: sender,
        leaf_to: receiver,
        proof_from_before: path(receiver.hash(&p)),
        proof_from_after: path(receiver.hash(&p)),
        proof_to_before: path(sender_after.hash(&p)),
        proof_to_after: path(sender_after.hash(&p)),
    };
    let expected = merkle_root(&p, &receiver_after.hash(&p), &path(sender_after.hash(&p)), &to_bits);
    assert_eq!(transaction(&tx, &ex, &root, &p), Ok(expected));
}

#[test]
fn changed_sibling_changes_root() {
    let p = Toy;
    let leaves = start_leaves();
    let h = leaves[0].hash(&p);
    let path = path4(&p, &leaves, 0);
    let bits = vec![false, false];
    let base = merkle_root(&p, &h, &path, &bits);
    for j in 0..2 {
        let mut changed = path.clone();
        changed[j] = fe(changed[j].l0 ^ 1);
        assert_ne!(merkle_root(&p, &h, &changed, &bits), base);
    }
    assert_ne!(merkle_root(&p, &leaves[1].hash(&p), &path, &bits), base);
}
