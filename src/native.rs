//! The plaintext backend: evaluates gates on bare field elements and routes
//! the hashing roles of the protocol through one hasher, each under its own tag.
use crate::field::{fadd, fe, fmul, fneg, fsub, vals, Fp};
use vstd::prelude::*;

verus! {

/// Failures of a hashing backend.
#[derive(Debug, Clone, Copy, PartialEq, Eq, Structural)]
pub enum NativeError {
    /// The hasher refused its input.
    HashFailed,
    /// The hasher returned no element where one was needed.
    EmptyHashOutput,
}

/// A random oracle over field elements: a deterministic map from a sequence
/// of field elements to a sequence of field elements.
pub trait NativeHasher: Sized {
    /// The output on inputs with the given values.
    spec fn hash_spec(&self, inputs: Seq<int>) -> Seq<int>;

    /// Whether this hasher accepts inputs with the given values.
    spec fn accepts(&self, inputs: Seq<int>) -> bool;

    /// Whether this hasher accepts every input.
    spec fn total(&self) -> bool;

    /// The hasher that `new` builds.
    spec fn init() -> Self;

    fn new() -> (r: Self)
        ensures
            r == Self::init(),
    ;

    /// Succeeds exactly on the inputs the hasher accepts, and then returns
    /// the output that the values of the inputs determine.
    fn hash(&self, inputs: &[Fp]) -> (r: Result<Vec<Fp>, NativeError>)
        ensures
            r is Ok <==> self.accepts(vals(inputs@)),
            r matches Ok(v) ==> vals(v@) == self.hash_spec(vals(inputs@)),
    ;

    /// A total hasher accepts every input and never returns an empty output.
    proof fn lemma_total(&self, inputs: Seq<int>)
        requires
            self.total(),
        ensures
            self.accepts(inputs),
            self.hash_spec(inputs).len() > 0,
    ;
}

pub proof fn lemma_vals_add(a: Seq<Fp>, b: Seq<Fp>)
    ensures
        vals(a + b) == vals(a) + vals(b),
{
    assert(vals(a + b) =~= vals(a) + vals(b));
}

/// `a ++ b ++ c`.
pub fn concat3(a: &[Fp], b: &[Fp], c: &[Fp]) -> (r: Vec<Fp>)
    ensures
        r@ == a@ + b@ + c@,
{
    let mut r: Vec<Fp> = Vec::new();
    let mut i: usize = 0;
    while i < a.len()
        invariant
            i <= a@.len(),
            r@ == a@.take(i as int),
        decreases a@.len() - i,
    {
        r.push(a[i]);
        i = i + 1;
        assert(r@ =~= a@.take(i as int));
    }
    assert(a@.take(a@.len() as int) =~= a@);
    let mut j: usize = 0;
    while j < b.len()
        invariant
            j <= b@.len(),
            r@ == a@ + b@.take(j as int),
        decreases b@.len() - j,
    {
        r.push(b[j]);
        j = j + 1;
        assert(r@ =~= a@ + b@.take(j as int));
    }
    assert(b@.take(b@.len() as int) =~= b@);
    let mut k: usize = 0;
    while k < c.len()
        invariant
            k <= c@.len(),
            r@ == a@ + b@ + c@.take(k as int),
        decreases c@.len() - k,
    {
        r.push(c[k]);
        k = k + 1;
        assert(r@ =~= a@ + b@ + c@.take(k as int));
    }
    assert(c@.take(c@.len() as int) =~= c@);
    r
}

/// Role tag of `hash_input_share`.
pub const TAG_INPUT_SHARE: u64 = 1;

/// Role tag of `hash_mul_pad`.
pub const TAG_MUL_PAD: u64 = 2;

/// Role tag of `hash_commit`.
pub const TAG_COMMIT: u64 = 3;

/// Role tag of `hash_each_transcript`.
pub const TAG_TRANSCRIPT: u64 = 4;

/// Role tag of `hash_challenge`.
pub const TAG_CHALLENGE: u64 = 5;

/// Evaluates gates in plaintext. Every hash input starts with
/// `hasher_prefix`, which separates uses of one hash function, followed by
/// the tag of the hashing role, which separates the roles from each other.
pub struct NativeBackend<H: NativeHasher> {
    pub hasher_prefix: Vec<Fp>,
    pub hasher: H,
}

impl<H: NativeHasher> NativeBackend<H> {
    /// The values hashed for role `tag` on `a` followed by `b`.
    pub open spec fn role_input(&self, tag: u64, a: Seq<int>, b: Seq<int>) -> Seq<int> {
        vals(self.hasher_prefix@) + seq![fe(tag as int)] + a + b
    }

    /// What the hasher returns for role `tag` on `a` followed by `b`.
    pub open spec fn prefixed(&self, tag: u64, a: Seq<int>, b: Seq<int>) -> Seq<int> {
        self.hasher.hash_spec(self.role_input(tag, a, b))
    }

    /// Whether the hasher accepts the input of role `tag` on `a` and `b`.
    pub open spec fn accepted(&self, tag: u64, a: Seq<int>, b: Seq<int>) -> bool {
        self.hasher.accepts(self.role_input(tag, a, b))
    }

    /// The element that `hash_input_share` derives.
    pub open spec fn input_share_spec(&self, seed: Seq<int>, idx: u32) -> int {
        self.prefixed(TAG_INPUT_SHARE, seed, seq![fe(idx as int)])[0]
    }

    /// The pad that `hash_mul_pad` derives.
    pub open spec fn mul_pad_spec(&self, seed: Seq<int>, input: Seq<int>) -> int {
        self.prefixed(TAG_MUL_PAD, seed, input)[0]
    }

    /// Builds a backend with the hasher that `H::new` builds.
    pub fn new(hasher_prefix: Vec<Fp>) -> (r: Result<Self, NativeError>)
        ensures
            r matches Ok(b) && b.hasher_prefix@ == hasher_prefix@ && b.hasher == H::init(),
    {
        let hasher = H::new();
        Ok(NativeBackend { hasher_prefix, hasher })
    }

    pub fn load_value(&mut self, a: &Fp) -> (r: Result<(), NativeError>)
        ensures
            r is Ok,
            *final(self) == *old(self),
    {
        Ok(())
    }

    pub fn expose_value(&mut self, a: &Fp) -> (r: Result<(), NativeError>)
        ensures
            r is Ok,
            *final(self) == *old(self),
    {
        Ok(())
    }

    pub fn constant(&mut self, a: &Fp) -> (r: Result<Fp, NativeError>)
        ensures
            r == Ok::<Fp, NativeError>(*a),
            *final(self) == *old(self),
    {
        Ok(*a)
    }

    pub fn add(&mut self, a: &Fp, b: &Fp) -> (r: Result<Fp, NativeError>)
        ensures
            r matches Ok(v) && v@ == fadd(a@, b@),
            *final(self) == *old(self),
    {
        Ok(a.add(b))
    }

    pub fn mul(&mut self, a: &Fp, b: &Fp) -> (r: Result<Fp, NativeError>)
        ensures
            r matches Ok(v) && v@ == fmul(a@, b@),
            *final(self) == *old(self),
    {
        Ok(a.mul(b))
    }

    pub fn sub(&mut self, a: &Fp, b: &Fp) -> (r: Result<Fp, NativeError>)
        ensures
            r matches Ok(v) && v@ == fsub(a@, b@),
            *final(self) == *old(self),
    {
        Ok(a.sub(b))
    }

    pub fn neg(&mut self, a: &Fp) -> (r: Result<Fp, NativeError>)
        ensures
            r matches Ok(v) && v@ == fneg(a@),
            *final(self) == *old(self),
    {
        Ok(a.neg())
    }

    /// One where the two values are equal, zero where they differ.
    pub fn eq(&mut self, a: &Fp, b: &Fp) -> (r: Result<Fp, NativeError>)
        ensures
            r matches Ok(v) && v@ == (if a@ == b@ { 1int } else { 0int }),
            *final(self) == *old(self),
    {
        if a.equals(b) {
            Ok(Fp::one())
        } else {
            Ok(Fp::zero())
        }
    }

    /// The hasher input of role `tag` on `a` followed by `b`.
    fn role_vec(&self, tag: u64, a: &[Fp], b: &[Fp]) -> (r: Vec<Fp>)
        requires
            tag < 8,
        ensures
            vals(r@) == self.role_input(tag, vals(a@), vals(b@)),
    {
        let t: Vec<Fp> = vec![Fp::from_u64(tag)];
        let head = concat3(self.hasher_prefix.as_slice(), t.as_slice(), a);
        let r = concat3(head.as_slice(), b, &[]);
        proof {
            lemma_vals_add(self.hasher_prefix@ + t@, a@);
            lemma_vals_add(self.hasher_prefix@, t@);
            lemma_vals_add(head@ + b@, Seq::<Fp>::empty());
            lemma_vals_add(head@, b@);
            assert(vals(t@) =~= seq![fe(tag as int)]);
            assert(vals(r@) =~= self.role_input(tag, vals(a@), vals(b@)));
        }
        r
    }

    /// Hashes for role `tag` and keeps the first element.
    fn first_of_hash(&self, tag: u64, a: &[Fp], b: &[Fp]) -> (r: Result<Fp, NativeError>)
        requires
            tag < 8,
        ensures
            r is Ok <==> self.accepted(tag, vals(a@), vals(b@)) && self.prefixed(tag, vals(a@), vals(b@)).len() > 0,
            r matches Ok(v) ==> v@ == self.prefixed(tag, vals(a@), vals(b@))[0],
            self.accepted(tag, vals(a@), vals(b@)) && self.prefixed(tag, vals(a@), vals(b@)).len() == 0
                ==> r == Err::<Fp, NativeError>(NativeError::EmptyHashOutput),
            self.hasher.total() ==> r is Ok,
    {
        let input = self.role_vec(tag, a, b);
        proof {
            if self.hasher.total() {
                self.hasher.lemma_total(vals(input@));
            }
        }
        match self.hasher.hash(input.as_slice()) {
            Ok(outputs) => {
                if outputs.len() == 0 {
                    Err(NativeError::EmptyHashOutput)
                } else {
                    Ok(outputs[0])
                }
            },
            Err(e) => Err(e),
        }
    }

    /// Hashes for role `tag` and keeps the whole output.
    fn all_of_hash(&self, tag: u64, a: &[Fp], b: &[Fp]) -> (r: Result<Vec<Fp>, NativeError>)
        requires
            tag < 8,
        ensures
            r is Ok <==> self.accepted(tag, vals(a@), vals(b@)),
            r matches Ok(v) ==> vals(v@) == self.prefixed(tag, vals(a@), vals(b@)),
            self.hasher.total() ==> r is Ok,
    {
        let input = self.role_vec(tag, a, b);
        proof {
            if self.hasher.total() {
                self.hasher.lemma_total(vals(input@));
            }
        }
        self.hasher.hash(input.as_slice())
    }

    /// One party's share of input wire `input_idx`, derived from its seed.
    pub fn hash_input_share(&mut self, rand_seed: &[Fp], input_idx: u32) -> (r: Result<
        Fp,
        NativeError,
    >)
        ensures
            r is Ok <==> old(self).accepted(TAG_INPUT_SHARE, vals(rand_seed@), seq![fe(input_idx as int)])
                && old(self).prefixed(TAG_INPUT_SHARE, vals(rand_seed@), seq![fe(input_idx as int)]).len() > 0,
            r matches Ok(v) ==> v@ == old(self).input_share_spec(vals(rand_seed@), input_idx),
            old(self).accepted(TAG_INPUT_SHARE, vals(rand_seed@), seq![fe(input_idx as int)])
                && old(self).prefixed(TAG_INPUT_SHARE, vals(rand_seed@), seq![fe(input_idx as int)]).len() == 0
                ==> r == Err::<Fp, NativeError>(NativeError::EmptyHashOutput),
            old(self).hasher.total() ==> r is Ok,
            *final(self) == *old(self),
    {
        let idx = Fp::from_u32(input_idx);
        let tail: Vec<Fp> = vec![idx];
        proof {
            assert(vals(tail@) =~= seq![fe(input_idx as int)]);
        }
        self.first_of_hash(TAG_INPUT_SHARE, rand_seed, tail.as_slice())
    }

    /// The pad that a party injects at a multiplication gate.
    pub fn hash_mul_pad(&mut self, rand_seed: &[Fp], input: &[Fp]) -> (r: Result<Fp, NativeError>)
        ensures
            r is Ok <==> old(self).accepted(TAG_MUL_PAD, vals(rand_seed@), vals(input@))
                && old(self).prefixed(TAG_MUL_PAD, vals(rand_seed@), vals(input@)).len() > 0,
            r matches Ok(v) ==> v@ == old(self).mul_pad_spec(vals(rand_seed@), vals(input@)),
            old(self).accepted(TAG_MUL_PAD, vals(rand_seed@), vals(input@))
                && old(self).prefixed(TAG_MUL_PAD, vals(rand_seed@), vals(input@)).len() == 0
                ==> r == Err::<Fp, NativeError>(NativeError::EmptyHashOutput),
            old(self).hasher.total() ==> r is Ok,
            *final(self) == *old(self),
    {
        self.first_of_hash(TAG_MUL_PAD, rand_seed, input)
    }

    /// The commitment to a party's view: its seed and its transcript.
    pub fn hash_commit(&mut self, rand_seed: &[Fp], input: &[Fp]) -> (r: Result<
        Vec<Fp>,
        NativeError,
    >)
        ensures
            r is Ok <==> old(self).accepted(TAG_COMMIT, vals(rand_seed@), vals(input@)),
            r matches Ok(v) ==> vals(v@) == old(self).prefixed(TAG_COMMIT, vals(rand_seed@), vals(input@)),
            old(self).hasher.total() ==> r is Ok,
            *final(self) == *old(self),
    {
        self.all_of_hash(TAG_COMMIT, rand_seed, input)
    }

    /// Folds a party's accumulated messages into one digest.
    pub fn hash_each_transcript(&mut self, input: &[Fp]) -> (r: Result<Vec<Fp>, NativeError>)
        ensures
            r is Ok <==> old(self).accepted(TAG_TRANSCRIPT, seq![], vals(input@)),
            r matches Ok(v) ==> vals(v@) == old(self).prefixed(TAG_TRANSCRIPT, seq![], vals(input@)),
            old(self).hasher.total() ==> r is Ok,
            *final(self) == *old(self),
    {
        let empty: Vec<Fp> = Vec::new();
        proof {
            assert(vals(empty@) =~= Seq::<int>::empty());
        }
        self.all_of_hash(TAG_TRANSCRIPT, empty.as_slice(), input)
    }

    /// The Fiat-Shamir hash over all commitments and outputs.
    pub fn hash_challenge(&mut self, input: &[Fp]) -> (r: Result<Vec<Fp>, NativeError>)
        ensures
            r is Ok <==> old(self).accepted(TAG_CHALLENGE, seq![], vals(input@)),
            r matches Ok(v) ==> vals(v@) == old(self).prefixed(TAG_CHALLENGE, seq![], vals(input@)),
            old(self).hasher.total() ==> r is Ok,
            *final(self) == *old(self),
    {
        let empty: Vec<Fp> = Vec::new();
        proof {
            assert(vals(empty@) =~= Seq::<int>::empty());
        }
        self.all_of_hash(TAG_CHALLENGE, empty.as_slice(), input)
    }
}

/// Every hashing role is a function of its inputs' values: two backends with
/// the same hasher and a prefix of the same values (two backends that `new`
/// built from one prefix, or one backend called twice) accept the same
/// inputs and derive the same input shares, pads, commitments, transcript
/// digests and challenges from inputs of the same values.
pub proof fn lemma_hash_roles_deterministic<H: NativeHasher>(
    b1: NativeBackend<H>,
    b2: NativeBackend<H>,
    tag: u64,
    a1: Seq<Fp>,
    a2: Seq<Fp>,
    c1: Seq<Fp>,
    c2: Seq<Fp>,
)
    requires
        b1.hasher == b2.hasher,
        vals(b1.hasher_prefix@) == vals(b2.hasher_prefix@),
        vals(a1) == vals(a2),
        vals(c1) == vals(c2),
    ensures
        b1.accepted(tag, vals(a1), vals(c1)) == b2.accepted(tag, vals(a2), vals(c2)),
        b1.prefixed(tag, vals(a1), vals(c1)) == b2.prefixed(tag, vals(a2), vals(c2)),
{
}

/// Backends that `new` built from prefixes of the same values hash alike.
pub proof fn lemma_new_backends_agree<H: NativeHasher>(b1: NativeBackend<H>, b2: NativeBackend<H>)
    requires
        b1.hasher == H::init(),
        b2.hasher == H::init(),
        vals(b1.hasher_prefix@) == vals(b2.hasher_prefix@),
    ensures
        forall|tag: u64, a: Seq<int>, c: Seq<int>|
            #![trigger b1.prefixed(tag, a, c), b2.prefixed(tag, a, c)]
            b1.prefixed(tag, a, c) == b2.prefixed(tag, a, c) && b1.accepted(tag, a, c) == b2.accepted(tag, a, c),
{
}

/// The hashing roles never hash the same input: inputs of different roles
/// differ in the role tag, which follows the prefix.
pub proof fn lemma_roles_separated<H: NativeHasher>(
    b: NativeBackend<H>,
    t1: u64,
    t2: u64,
    a1: Seq<int>,
    c1: Seq<int>,
    a2: Seq<int>,
    c2: Seq<int>,
)
    requires
        t1 < 8,
        t2 < 8,
        t1 != t2,
    ensures
        b.role_input(t1, a1, c1) != b.role_input(t2, a2, c2),
{
    let n = vals(b.hasher_prefix@).len() as int;
    vstd::arithmetic::div_mod::lemma_small_mod(t1 as nat, crate::field::MODULUS as nat);
    vstd::arithmetic::div_mod::lemma_small_mod(t2 as nat, crate::field::MODULUS as nat);
    assert(b.role_input(t1, a1, c1)[n] == fe(t1 as int));
    assert(b.role_input(t2, a2, c2)[n] == fe(t2 as int));
}

} // verus!
