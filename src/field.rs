//! The prime field that every wire value and every hash input or output lives in.
use vstd::arithmetic::div_mod::{lemma_add_mod_noop, lemma_mod_bound, lemma_mul_mod_noop_general, lemma_sub_mod_noop};
use vstd::prelude::*;

verus! {

/// The field's characteristic, the Mersenne prime 2^31 - 1.
pub const MODULUS: u64 = 2147483647;

/// The characteristic as a mathematical integer.
pub open spec fn p() -> int {
    MODULUS as int
}

/// Reduction of an integer into the canonical range `[0, p)`.
pub open spec fn fe(x: int) -> int {
    x % p()
}

pub open spec fn fadd(a: int, b: int) -> int {
    fe(a + b)
}

pub open spec fn fsub(a: int, b: int) -> int {
    fe(a - b)
}

pub open spec fn fmul(a: int, b: int) -> int {
    fe(a * b)
}

pub open spec fn fneg(a: int) -> int {
    fe(-a)
}

/// A field element. Any `u64` is accepted as a representative: its value is
/// the representative reduced modulo `MODULUS`, and every operation reduces
/// its operands first, so no invariant has to be carried around.
#[derive(Clone, Copy, Debug)]
pub struct Fp {
    pub repr: u64,
}

impl View for Fp {
    type V = int;

    open spec fn view(&self) -> int {
        fe(self.repr as int)
    }
}

/// The values of a sequence of field elements.
pub open spec fn vals(s: Seq<Fp>) -> Seq<int> {
    s.map_values(|x: Fp| x@)
}

impl Fp {
    pub fn zero() -> (r: Fp)
        ensures
            r@ == 0,
            r.repr == 0,
    {
        Fp { repr: 0 }
    }

    pub fn one() -> (r: Fp)
        ensures
            r@ == 1,
    {
        proof {
            vstd::arithmetic::div_mod::lemma_small_mod(1, MODULUS as nat);
        }
        Fp { repr: 1 }
    }

    /// Embeds an unsigned integer by reduction modulo the characteristic.
    pub fn from_u32(x: u32) -> (r: Fp)
        ensures
            r@ == fe(x as int),
            r.repr == x as u64,
    {
        Fp { repr: x as u64 }
    }

    /// Embeds a `u64` by reduction modulo the characteristic.
    pub fn from_u64(x: u64) -> (r: Fp)
        ensures
            r@ == fe(x as int),
            r.repr == x,
    {
        Fp { repr: x }
    }

    /// The canonical representative, in `[0, MODULUS)`.
    pub fn value(&self) -> (r: u64)
        ensures
            r as int == self@,
            r < MODULUS,
    {
        self.repr % MODULUS
    }

    pub fn add(&self, o: &Fp) -> (r: Fp)
        ensures
            r@ == fadd(self@, o@),
            r.repr < MODULUS,
    {
        let a = self.repr % MODULUS;
        let b = o.repr % MODULUS;
        proof {
            lemma_add_mod_noop(self.repr as int, o.repr as int, p());
            lemma_mod_bound(a as int + b as int, p());
        }
        Fp { repr: (a + b) % MODULUS }
    }

    pub fn sub(&self, o: &Fp) -> (r: Fp)
        ensures
            r@ == fsub(self@, o@),
            r.repr < MODULUS,
    {
        let a = self.repr % MODULUS;
        let b = o.repr % MODULUS;
        proof {
            lemma_sub_mod_noop(self.repr as int, o.repr as int, p());
            lemma_add_mod_noop(a as int - b as int, p(), p());
            lemma_mod_bound(a as int - b as int + p(), p());
            assert((a as int - b as int + p()) % p() == (a as int - b as int) % p()) by {
                vstd::arithmetic::div_mod::lemma_mod_add_multiples_vanish(a as int - b as int, p());
            }
        }
        Fp { repr: (a + MODULUS - b) % MODULUS }
    }

    pub fn mul(&self, o: &Fp) -> (r: Fp)
        ensures
            r@ == fmul(self@, o@),
            r.repr < MODULUS,
    {
        let a = self.repr % MODULUS;
        let b = o.repr % MODULUS;
        proof {
            lemma_mul_mod_noop_general(self.repr as int, o.repr as int, p());
            assert(a * b <= (MODULUS - 1) * (MODULUS - 1)) by (nonlinear_arith)
                requires
                    a < MODULUS,
                    b < MODULUS,
            ;
        }
        Fp { repr: (a * b) % MODULUS }
    }

    pub fn neg(&self) -> (r: Fp)
        ensures
            r@ == fneg(self@),
            r.repr < MODULUS,
    {
        let z = Fp::zero();
        proof {
            assert(fsub(0, self@) == fneg(self@));
        }
        z.sub(self)
    }

    /// Equality of values, not of representatives.
    pub fn equals(&self, o: &Fp) -> (r: bool)
        ensures
            r == (self@ == o@),
    {
        self.repr % MODULUS == o.repr % MODULUS
    }
}

} // verus!
