use vstd::prelude::*;
use vstd::arithmetic::div_mod::{
    lemma_add_mod_noop, lemma_mod_twice, lemma_mul_mod_noop,
    lemma_sub_mod_noop, lemma_small_mod,
};

verus! {

/// The modulus of the prime field: 2^64 - 2^32 + 1.
pub const MODULUS: u64 = 18446744069414584321;

/// The prime modulus as a mathematical integer.
pub open spec fn p() -> int {
    MODULUS as int
}

/// An element of the prime field. Any `u64` is accepted as a representative:
/// the element it denotes is its residue modulo `MODULUS`, and every
/// operation returns the canonical (reduced) representative.
#[derive(Clone, Copy, Debug)]
pub struct Fp {
    pub val: u64,
}

impl Fp {
    /// The field value of this element, as an integer in `[0, p)`.
    pub open spec fn fv(self) -> int {
        self.val as int % p()
    }

    /// True when the representative is already reduced.
    pub open spec fn canonical(self) -> bool {
        self.val < MODULUS
    }

    pub fn zero() -> (r: Fp)
        ensures
            r.fv() == 0,
            r.canonical(),
    {
        proof {
            lemma_small_mod(0, MODULUS as nat);
        }
        Fp { val: 0 }
    }

    pub fn one() -> (r: Fp)
        ensures
            r.fv() == 1,
            r.canonical(),
    {
        proof {
            lemma_small_mod(1, MODULUS as nat);
        }
        Fp { val: 1 }
    }

    /// The field element congruent to `v`.
    pub fn from_u64(v: u64) -> (r: Fp)
        ensures
            r.fv() == v as int % p(),
            r.val == v % MODULUS,
            r.canonical(),
    {
        Fp { val: v % MODULUS }
    }

    pub fn add(self, o: Fp) -> (r: Fp)
        ensures
            r.fv() == (self.fv() + o.fv()) % p(),
            r.fv() == (self.val + o.val) % p(),
            r.canonical(),
    {
        let s: u128 = (self.val as u128) + (o.val as u128);
        let v: u64 = (s % (MODULUS as u128)) as u64;
        proof {
            lemma_add_mod_noop(self.val as int, o.val as int, p());
            lemma_mod_twice(v as int, p());
        }
        Fp { val: v }
    }

    pub fn mul(self, o: Fp) -> (r: Fp)
        ensures
            r.fv() == (self.fv() * o.fv()) % p(),
            r.fv() == (self.val * o.val) % p(),
            r.canonical(),
    {
        let a: u128 = self.val as u128;
        let b: u128 = o.val as u128;
        assert(a * b <= 0xffff_ffff_ffff_ffffu128 * 0xffff_ffff_ffff_ffffu128) by (nonlinear_arith)
            requires
                a <= 0xffff_ffff_ffff_ffffu128,
                b <= 0xffff_ffff_ffff_ffffu128,
        ;
        let v: u64 = ((a * b) % (MODULUS as u128)) as u64;
        proof {
            lemma_mul_mod_noop(self.val as int, o.val as int, p());
            lemma_mod_twice(v as int, p());
        }
        Fp { val: v }
    }

    pub fn sub(self, o: Fp) -> (r: Fp)
        ensures
            r.fv() == (self.fv() - o.fv()) % p(),
            r.fv() == (self.val - o.val) % p(),
            r.canonical(),
    {
        let a: u64 = self.val % MODULUS;
        let b: u64 = o.val % MODULUS;
        let s: u128 = (a as u128) + ((MODULUS - b) as u128);
        let v: u64 = (s % (MODULUS as u128)) as u64;
        proof {
            lemma_mod_twice(v as int, p());
            lemma_sub_mod_noop(self.val as int, o.val as int, p());
            assert((a + (p() - b)) % p() == (a - b) % p()) by {
                vstd::arithmetic::div_mod::lemma_mod_add_multiples_vanish(a - b, p());
            }
        }
        Fp { val: v }
    }

    pub fn neg(self) -> (r: Fp)
        ensures
            r.fv() == (-self.fv()) % p(),
            r.canonical(),
    {
        let z = Fp::zero();
        z.sub(self)
    }

    pub fn is_zero(self) -> (r: bool)
        ensures
            r == (self.fv() == 0),
    {
        self.val % MODULUS == 0
    }

    pub fn eq_value(self, o: Fp) -> (r: bool)
        ensures
            r == (self.fv() == o.fv()),
    {
        self.val % MODULUS == o.val % MODULUS
    }
}

} // verus!
