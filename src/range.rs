use vstd::prelude::*;
use vstd::arithmetic::power2::{pow2, lemma_pow2_pos, lemma2_to64, lemma_pow2_unfold, lemma_pow2_strictly_increases};
use vstd::arithmetic::div_mod::{lemma_div_denominator, lemma_fundamental_div_mod, lemma_basic_div};
use crate::field::{Fe, bits_of, limb_base};

verus! {

/// The bit width of every amount.
pub const AMOUNT_LENGTH: usize = 64;

pub proof fn lemma_high_limbs(v: Fe, width: nat)
    requires
        width <= 64,
    ensures
        (v.l1 != 0 || v.l2 != 0 || v.l3 != 0) ==> v@ >= pow2(width),
        (v.l1 == 0 && v.l2 == 0 && v.l3 == 0) ==> v@ == v.l0,
{
    lemma2_to64();
    if width < 64 {
        lemma_pow2_strictly_increases(width, 64);
    }
    let b = limb_base() as int;
    let (a0, a1, a2, a3) = (v.l0 as int, v.l1 as int, v.l2 as int, v.l3 as int);
    if v.l1 != 0 || v.l2 != 0 || v.l3 != 0 {
        assert(a0 + b * (a1 + b * (a2 + b * a3)) >= b) by (nonlinear_arith)
            requires
                b > 1, a0 >= 0, a1 >= 0, a2 >= 0, a3 >= 0,
                a1 != 0 || a2 != 0 || a3 != 0;
    }
}

/// `a` halved, with its low bit.
#[verifier::rlimit(20)]
fn halve(a: &Fe) -> (r: (Fe, bool))
    ensures
        a@ == 2 * r.0@ + (if r.1 { 1int } else { 0int }),
        r.1 == (a@ % 2 == 1),
        r.0@ == a@ / 2,
{
    let h: u64 = 0x8000_0000_0000_0000;
    let r = Fe {
        l0: a.l0 / 2 + (a.l1 % 2) * h,
        l1: a.l1 / 2 + (a.l2 % 2) * h,
        l2: a.l2 / 2 + (a.l3 % 2) * h,
        l3: a.l3 / 2,
    };
    let low = a.l0 % 2 == 1;
    proof {
        let (q0, q1, q2, q3) = (a.l0 as int / 2, a.l1 as int / 2, a.l2 as int / 2, a.l3 as int / 2);
        let (r0, r1, r2, r3) = (a.l0 as int % 2, a.l1 as int % 2, a.l2 as int % 2, a.l3 as int % 2);
        assert(a.l0 == 2 * q0 + r0 && a.l1 == 2 * q1 + r1 && a.l2 == 2 * q2 + r2 && a.l3 == 2 * q3 + r3);
        assert(r.l0 == q0 + r1 * 0x8000_0000_0000_0000 && r.l1 == q1 + r2 * 0x8000_0000_0000_0000
            && r.l2 == q2 + r3 * 0x8000_0000_0000_0000 && r.l3 == q3);
        assert(a@ == 2 * r@ + r0);
        vstd::arithmetic::div_mod::lemma_fundamental_div_mod_converse(a@ as int, 2, r@ as int, r0);
    }
    (r, low)
}

/// Decomposes `value` into `width` little-endian bits. There is a
/// decomposition exactly when `value < 2^width`; then bit `i` is digit `i`
/// of `value` in base two.
pub fn range_check(value: &Fe, width: usize) -> (r: Option<Vec<bool>>)
    ensures
        r.is_some() == (value@ < pow2(width as nat)),
        r.is_some() ==> r.unwrap()@ == bits_of(value@, width as nat),
{
    let ghost x = value@;
    let mut cur: Fe = *value;
    let mut bits: Vec<bool> = Vec::new();
    let mut i: usize = 0;
    proof {
        assert(pow2(0) == 1) by { lemma2_to64(); }
    }
    while i < width
        invariant
            i <= width,
            cur@ == x / pow2(i as nat),
            bits@.len() == i,
            forall|j: int| 0 <= j < i ==> bits@[j] == ((x / pow2(j as nat)) % 2 == 1),
        decreases width - i,
    {
        let (next, low) = halve(&cur);
        bits.push(low);
        proof {
            lemma_pow2_pos(i as nat);
            lemma_pow2_unfold((i + 1) as nat);
            lemma_div_denominator(x as int, pow2(i as nat) as int, 2);
            assert(pow2(i as nat) * 2 == 2 * pow2(i as nat)) by (nonlinear_arith);
        }
        cur = next;
        i = i + 1;
    }
    proof {
        assert(bits@ =~= bits_of(x, width as nat));
        let d = pow2(width as nat) as int;
        let xi = x as int;
        lemma_pow2_pos(width as nat);
        lemma_fundamental_div_mod(xi, d);
        if xi < d {
            lemma_basic_div(xi, d);
        }
    }
    if cur.l0 != 0 || cur.l1 != 0 || cur.l2 != 0 || cur.l3 != 0 {
        proof {
            let d = pow2(width as nat) as int;
            let xi = x as int;
            if cur@ == 0 {
                lemma_high_limbs(cur, 0);
                lemma_limbs_zero(cur);
            }
            assert(xi >= d) by (nonlinear_arith)
                requires xi == d * (xi / d) + xi % d, xi / d != 0, xi >= 0, d > 0, xi % d >= 0, xi / d >= 0;
        }
        None
    } else {
        proof {
            let d = pow2(width as nat) as int;
            let xi = x as int;
            assert(cur@ == 0);
            assert(xi < d) by (nonlinear_arith)
                requires xi == d * (xi / d) + xi % d, xi / d == 0, d > 0, xi % d < d;
        }
        Some(bits)
    }
}

/// A limb vector of value zero has every limb zero.
proof fn lemma_limbs_zero(v: Fe)
    requires
        v@ == 0,
    ensures
        v.l0 == 0 && v.l1 == 0 && v.l2 == 0 && v.l3 == 0,
{
    assert(v@ == v.l0 + 0x1_0000_0000_0000_0000 * (v.l1 + 0x1_0000_0000_0000_0000 * (v.l2 + 0x1_0000_0000_0000_0000 * v.l3)));
}

} // verus!
