use vstd::prelude::*;
use vstd::arithmetic::power2::pow2;

verus! {

/// The radix of one limb.
pub open spec fn limb_base() -> nat {
    0x1_0000_0000_0000_0000
}

/// The order of the BN254 scalar field, the field every signal lives in.
pub open spec fn modulus() -> nat {
    limbs_value(
        0x43e1f593f0000001,
        0x2833e84879b97091,
        0xb85045b68181585d,
        0x30644e72e131a029,
    )
}

/// The number held by four little-endian 64-bit limbs.
pub open spec fn limbs_value(l0: u64, l1: u64, l2: u64, l3: u64) -> nat {
    (l0 + limb_base() * (l1 + limb_base() * (l2 + limb_base() * l3))) as nat
}

/// A field element, held as four little-endian 64-bit limbs of its canonical
/// representative.
#[derive(Clone, Copy, Debug, PartialEq, Eq, Structural)]
pub struct Fe {
    pub l0: u64,
    pub l1: u64,
    pub l2: u64,
    pub l3: u64,
}

impl View for Fe {
    type V = nat;

    open spec fn view(&self) -> nat {
        limbs_value(self.l0, self.l1, self.l2, self.l3)
    }
}

/// The field element whose canonical representative is `n` (`n` below the modulus).
pub open spec fn fe_of(n: nat) -> Fe {
    Fe {
        l0: (n % limb_base()) as u64,
        l1: ((n / limb_base()) % limb_base()) as u64,
        l2: ((n / limb_base() / limb_base()) % limb_base()) as u64,
        l3: (n / limb_base() / limb_base() / limb_base()) as u64,
    }
}

proof fn lemma_split(a: u64, x: nat, b: u64, y: nat)
    requires
        a + limb_base() * x == b + limb_base() * y,
    ensures
        a == b,
        x == y,
{
    let n = a + limb_base() * x;
    vstd::arithmetic::div_mod::lemma_fundamental_div_mod_converse(n as int, limb_base() as int, x as int, a as int);
    vstd::arithmetic::div_mod::lemma_fundamental_div_mod_converse(n as int, limb_base() as int, y as int, b as int);
}

/// Two limb vectors with the same value are equal.
proof fn lemma_limbs_unique(a: Fe, b: Fe)
    requires
        a@ == b@,
    ensures
        a == b,
{
    let base = limb_base();
    assert(base * b.l3 >= 0) by (nonlinear_arith) requires base > 0;
    assert(base * a.l3 >= 0) by (nonlinear_arith) requires base > 0;
    assert(base * (a.l2 + base * a.l3) >= 0) by (nonlinear_arith) requires base > 0, a.l2 + base * a.l3 >= 0;
    assert(base * (b.l2 + base * b.l3) >= 0) by (nonlinear_arith) requires base > 0, b.l2 + base * b.l3 >= 0;
    lemma_split(a.l0, (a.l1 + base * (a.l2 + base * a.l3)) as nat, b.l0, (b.l1 + base * (b.l2 + base * b.l3)) as nat);
    lemma_split(a.l1, (a.l2 + base * a.l3) as nat, b.l1, (b.l2 + base * b.l3) as nat);
    lemma_split(a.l2, a.l3 as nat, b.l2, b.l3 as nat);
}

/// The value of a limb vector round-trips through `fe_of`.
proof fn lemma_fe_of_view(a: Fe)
    ensures
        fe_of(a@) == a,
{
    let base = limb_base();
    let x3 = a.l3 as nat;
    let x2 = (a.l2 + base * x3) as nat;
    let x1 = (a.l1 + base * x2) as nat;
    assert(base * x3 >= 0 && base * x2 >= 0 && base * x1 >= 0) by (nonlinear_arith);
    vstd::arithmetic::div_mod::lemma_fundamental_div_mod_converse(a@ as int, base as int, x1 as int, a.l0 as int);
    vstd::arithmetic::div_mod::lemma_fundamental_div_mod_converse(x1 as int, base as int, x2 as int, a.l1 as int);
    vstd::arithmetic::div_mod::lemma_fundamental_div_mod_converse(x2 as int, base as int, x3 as int, a.l2 as int);
}

impl Fe {
    /// The element is canonical: its value is below the modulus.
    pub open spec fn wf(&self) -> bool {
        self@ < modulus()
    }

    /// The field element zero.
    pub fn zero() -> (r: Fe)
        ensures
            r.wf(),
            r@ == 0,
    {
        Fe { l0: 0, l1: 0, l2: 0, l3: 0 }
    }

    /// The field element with canonical representative `v`.
    pub fn from_u64(v: u64) -> (r: Fe)
        ensures
            r.wf(),
            r@ == v,
    {
        let r = Fe { l0: v, l1: 0, l2: 0, l3: 0 };
        assert(r@ == v) by (nonlinear_arith) requires r@ == limbs_value(v, 0, 0, 0);
        r
    }

    /// Whether the limbs hold a canonical element (a value below the modulus).
    pub fn is_canonical(&self) -> (r: bool)
        ensures
            r == self.wf(),
    {
        let b: u128 = 0x1_0000_0000_0000_0000;
        let hi: u128 = (self.l3 as u128) * b + self.l2 as u128;
        let lo: u128 = (self.l1 as u128) * b + self.l0 as u128;
        let m_hi: u128 = 0x30644e72e131a029_b85045b68181585d;
        let m_lo: u128 = 0x2833e84879b97091_43e1f593f0000001;
        proof {
            let c: int = (limb_base() * limb_base()) as int;
            assert(c == 0x1_0000_0000_0000_0000 * 0x1_0000_0000_0000_0000);
            assert(hi == self.l3 * 0x1_0000_0000_0000_0000 + self.l2);
            assert(lo == self.l1 * 0x1_0000_0000_0000_0000 + self.l0);
            assert(self@ == lo + c * hi);
            assert(modulus() == m_lo + c * m_hi);
        }
        hi < m_hi || (hi == m_hi && lo < m_lo)
    }

    /// Equality of field elements, by value.
    pub fn equals(&self, o: &Fe) -> (r: bool)
        ensures
            r == (self@ == o@),
    {
        if self.l0 == o.l0 && self.l1 == o.l1 && self.l2 == o.l2 && self.l3 == o.l3 {
            true
        } else {
            proof {
                if self@ == o@ {
                    lemma_limbs_unique(*self, *o);
                }
            }
            false
        }
    }
}

/// The little-endian bits `0..n` of `v`.
pub open spec fn bits_of(v: nat, n: nat) -> Seq<bool> {
    Seq::new(n, |i: int| (v / pow2(i as nat)) % 2 == 1)
}

/// The field element one above `a`, wrapping to zero at the modulus.
pub open spec fn succ(a: nat) -> nat {
    (a + 1) % modulus()
}

/// The field element `a - b` for canonical `a` and `b`.
pub open spec fn field_sub(a: nat, b: nat) -> nat {
    ((a + modulus() - b) % (modulus() as int)) as nat
}

/// The field element `a + b` for canonical `a` and `b`.
pub open spec fn field_add(a: nat, b: nat) -> nat {
    (a + b) % modulus()
}

const MAX_LIMB: u64 = 0xffff_ffff_ffff_ffff;

impl Fe {
    /// The modulus itself, as limbs (not a canonical element).
    fn modulus_limbs() -> (r: Fe)
        ensures
            r@ == modulus(),
    {
        Fe { l0: 0x43e1f593f0000001, l1: 0x2833e84879b97091, l2: 0xb85045b68181585d, l3: 0x30644e72e131a029 }
    }

    /// `self + 1` in the field.
    pub fn add_one(&self) -> (r: Fe)
        requires
            self.wf(),
        ensures
            r.wf(),
            r@ == succ(self@),
    {
        let ghost base = limb_base();
        let n = if self.l0 < MAX_LIMB {
            Fe { l0: self.l0 + 1, l1: self.l1, l2: self.l2, l3: self.l3 }
        } else if self.l1 < MAX_LIMB {
            Fe { l0: 0, l1: self.l1 + 1, l2: self.l2, l3: self.l3 }
        } else if self.l2 < MAX_LIMB {
            Fe { l0: 0, l1: 0, l2: self.l2 + 1, l3: self.l3 }
        } else {
            proof {
                let l3 = self.l3 as int;
                assert(self@ >= base * (base * (base * l3))) by (nonlinear_arith)
                    requires
                        self@ == self.l0 + base * (self.l1 + base * (self.l2 + base * l3)),
                        base > 0, l3 >= 0,
                        self.l0 >= 0, self.l1 >= 0, self.l2 >= 0;
                assert(modulus() < base * (base * (base * 0x30644e72e131a02a))) by (nonlinear_arith)
                    requires
                        modulus() == 0x43e1f593f0000001 + base * (0x2833e84879b97091 + base * (0xb85045b68181585d + base * 0x30644e72e131a029)),
                        base == 0x1_0000_0000_0000_0000;
                if l3 >= 0x30644e72e131a02a {
                    assert(base * (base * (base * l3)) >= base * (base * (base * 0x30644e72e131a02a))) by (nonlinear_arith)
                        requires l3 >= 0x30644e72e131a02a, base > 0;
                }
            }
            Fe { l0: 0, l1: 0, l2: 0, l3: self.l3 + 1 }
        };
        proof {
            let (a0, a1, a2, a3) = (self.l0 as int, self.l1 as int, self.l2 as int, self.l3 as int);
            let b = base as int;
            assert(b == 0x1_0000_0000_0000_0000);
            if self.l0 < MAX_LIMB {
                assert(n@ == self@ + 1);
            } else if self.l1 < MAX_LIMB {
                let y = a2 + b * a3;
                assert(0 + b * ((a1 + 1) + b * y) == (b - 1) + b * (a1 + b * y) + 1) by (nonlinear_arith);
            } else if self.l2 < MAX_LIMB {
                assert(0 + b * (0 + b * ((a2 + 1) + b * a3)) == (b - 1) + b * ((b - 1) + b * (a2 + b * a3)) + 1)
                    by (nonlinear_arith);
            } else {
                assert(0 + b * (0 + b * (0 + b * (a3 + 1))) == (b - 1) + b * ((b - 1) + b * ((b - 1) + b * a3)) + 1)
                    by (nonlinear_arith);
            }
        }
        let m = Fe::modulus_limbs();
        if n.equals(&m) {
            proof {
                vstd::arithmetic::div_mod::lemma_mod_self_0(modulus() as int);
            }
            Fe::zero()
        } else {
            proof {
                vstd::arithmetic::div_mod::lemma_small_mod(n@, modulus());
            }
            n
        }
    }
}

} // verus!
