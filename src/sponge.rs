//! An algebraic sponge hasher over the field: every step is field arithmetic,
//! so the same hash could later be written as a circuit. The round function
//! is `x -> (x + c)^5`, a permutation of the field since 5 does not divide
//! `MODULUS - 1`.
//!
//! This hasher is for tests and examples only. Its state is one 31-bit field
//! element and it outputs two, so it is not collision-resistant: a birthday
//! search finds collisions, and commitments made with it are not binding.
//! Proofs meant to be sound need a collision-resistant `NativeHasher`.
use crate::field::{fadd, fe, fmul, vals, Fp};
use crate::native::{NativeError, NativeHasher};
use vstd::prelude::*;

verus! {

/// Rounds of the permutation.
pub const ROUNDS: u64 = 8;

pub open spec fn pow5(x: int) -> int {
    fmul(fmul(fmul(fmul(x, x), x), x), x)
}

pub open spec fn round_const(r: nat) -> int {
    fe((r * r * r + 7 * r + 42) as int)
}

/// The state after `r` rounds starting from `t`.
pub open spec fn permute(t: int, r: nat) -> int
    decreases r,
{
    if r == 0 {
        t
    } else {
        pow5(fadd(permute(t, (r - 1) as nat), round_const((r - 1) as nat)))
    }
}

/// The state after absorbing `xs`, starting from `key`.
pub open spec fn absorb(key: int, xs: Seq<int>) -> int
    decreases xs.len(),
{
    if xs.len() == 0 {
        key
    } else {
        permute(fadd(absorb(key, xs.drop_last()), xs.last()), ROUNDS as nat)
    }
}

/// The two output elements squeezed from an absorbed state.
pub open spec fn squeeze(s: int) -> Seq<int> {
    seq![permute(fadd(s, 1), ROUNDS as nat), permute(fadd(s, 2), ROUNDS as nat)]
}

#[derive(Clone, Copy, Debug)]
pub struct SpongeHasher {
    /// Starting state; hashers with different keys are independent oracles.
    pub key: Fp,
}

fn pow5_exec(x: Fp) -> (r: Fp)
    ensures
        r@ == pow5(x@),
{
    let x2 = x.mul(&x);
    let x3 = x2.mul(&x);
    let x4 = x3.mul(&x);
    x4.mul(&x)
}

fn permute_exec(t: Fp) -> (r: Fp)
    ensures
        r@ == permute(t@, ROUNDS as nat),
{
    let mut s = t;
    let mut r: u64 = 0;
    while r < ROUNDS
        invariant
            r <= ROUNDS,
            s@ == permute(t@, r as nat),
        decreases ROUNDS - r,
    {
        proof {
            assert(r * r <= 64 && r * r * r <= 512) by (nonlinear_arith)
                requires
                    r < 8,
            ;
        }
        let c = Fp::from_u64(r * r * r + 7 * r + 42);
        s = pow5_exec(s.add(&c));
        r = r + 1;
    }
    s
}

impl NativeHasher for SpongeHasher {
    open spec fn hash_spec(&self, inputs: Seq<int>) -> Seq<int> {
        squeeze(absorb(self.key@, inputs))
    }

    open spec fn accepts(&self, inputs: Seq<int>) -> bool {
        true
    }

    open spec fn total(&self) -> bool {
        true
    }

    open spec fn init() -> SpongeHasher {
        SpongeHasher { key: Fp { repr: 0 } }
    }

    proof fn lemma_total(&self, inputs: Seq<int>) {
    }

    fn new() -> SpongeHasher {
        SpongeHasher { key: Fp::zero() }
    }

    fn hash(&self, inputs: &[Fp]) -> (r: Result<Vec<Fp>, NativeError>) {
        let mut s = self.key;
        let mut i: usize = 0;
        proof {
            assert(vals(inputs@).take(0) =~= Seq::<int>::empty());
        }
        while i < inputs.len()
            invariant
                i <= inputs@.len(),
                s@ == absorb(self.key@, vals(inputs@).take(i as int)),
            decreases inputs@.len() - i,
        {
            let ghost before = vals(inputs@).take(i as int);
            s = permute_exec(s.add(&inputs[i]));
            i = i + 1;
            proof {
                let now = vals(inputs@).take(i as int);
                assert(now.drop_last() =~= before);
                assert(now.last() == inputs@[i - 1]@);
            }
        }
        proof {
            assert(vals(inputs@).take(inputs@.len() as int) =~= vals(inputs@));
        }
        let one = Fp::one();
        let two = Fp::from_u32(2);
        proof {
            vstd::arithmetic::div_mod::lemma_small_mod(2, crate::field::MODULUS as nat);
        }
        let out: Vec<Fp> = vec![permute_exec(s.add(&one)), permute_exec(s.add(&two))];
        proof {
            assert(vals(out@) =~= squeeze(s@));
        }
        Ok(out)
    }
}

/// The hasher is a function of its input: equal inputs give equal outputs.
pub proof fn lemma_sponge_deterministic(h: SpongeHasher, a: Seq<Fp>, b: Seq<Fp>)
    requires
        vals(a) == vals(b),
    ensures
        h.hash_spec(vals(a)) == h.hash_spec(vals(b)),
        h.hash_spec(vals(a)).len() == 2,
{
}

} // verus!
