//! The proof engine: repetitions of the three-party protocol, commitments,
//! the Fiat-Shamir challenge over the finished set of commitments, and the
//! verifier's replay of the two opened views of every repetition.
use crate::circuit::{Circuit, Gate};
use crate::field::{fe, fsub, vals, Fp, MODULUS};
use crate::mpc::{
    eval_pair, eval_triple, firsts, n_muls, next, pair_wires, party, transcript_of, triple_wires,
    zip2, zip3,
};
use crate::native::{concat3, NativeBackend, NativeError, NativeHasher, TAG_CHALLENGE, TAG_COMMIT};
use vstd::prelude::*;

verus! {

/// What a party's view holds: its seed, the input shares that cannot be
/// derived from the seed (only party 2 has any), and its transcript.
#[derive(Clone, Debug)]
pub struct PartyView {
    pub seed: Vec<Fp>,
    pub aux: Vec<Fp>,
    pub transcript: Vec<Fp>,
}

/// The committed part of one repetition: the three parties' commitments and
/// their shares of the public outputs.
#[derive(Clone, Debug)]
pub struct Committed {
    pub commitments: Vec<Vec<Fp>>,
    pub output_shares: Vec<Vec<Fp>>,
}

/// All repetitions' commitments, complete before any challenge is drawn.
#[derive(Clone, Debug)]
pub struct CommitmentSet {
    pub reps: Vec<Committed>,
}

/// The two opened views of one repetition: of party `e` and of `next(e)`.
#[derive(Clone, Debug)]
pub struct Opening {
    pub first: PartyView,
    pub second: PartyView,
}

#[derive(Clone, Debug)]
pub struct Proof {
    pub committed: CommitmentSet,
    pub openings: Vec<Opening>,
}

#[derive(Clone, Copy, Debug, PartialEq, Eq, Structural)]
pub enum ProofError {
    /// A hash invocation failed.
    Hash(NativeError),
    /// The witness does not have one element per circuit input.
    WitnessLength,
    /// Not three seeds for each repetition.
    SeedCount,
    /// The claimed output does not have one element per output wire.
    OutputLength,
    /// The proof does not hold the repetition count of the security parameter.
    RepetitionCount,
    /// A repetition's commitments or output shares have the wrong shape.
    Malformed,
}

/// Repetitions for a soundness error of at most `2^-secpar`: each catches a
/// cheating prover with probability at least 1/3, so `reps` repetitions
/// leave `(2/3)^reps`, and `reps = ceil(secpar * 100000 / 58496)` gives
/// `reps * log2(3/2) >= secpar` because `0.58496 < log2(3/2)`.
pub open spec fn reps_for(secpar: nat) -> nat {
    ((secpar * 100000 + 58495) / 58496) as nat
}

pub fn repetitions(secpar: u32) -> (r: u64)
    ensures
        r == reps_for(secpar as nat),
{
    let s = secpar as u64;
    (s * 100000 + 58495) / 58496
}

/// The challenge input contributed by one repetition.
pub open spec fn rep_flat(c: Committed) -> Seq<int> {
    vals(c.commitments@[0]@) + vals(c.commitments@[1]@) + vals(c.commitments@[2]@) + vals(
        c.output_shares@[0]@,
    ) + vals(c.output_shares@[1]@) + vals(c.output_shares@[2]@)
}

pub open spec fn flat(reps: Seq<Committed>) -> Seq<int>
    decreases reps.len(),
{
    if reps.len() == 0 {
        seq![]
    } else {
        flat(reps.drop_last()) + rep_flat(reps.last())
    }
}

/// The Fiat-Shamir digest over all commitments, output shares and the claim.
pub open spec fn digest<H: NativeHasher>(b: NativeBackend<H>, set: Seq<Committed>, public: Seq<int>) -> Seq<int> {
    b.prefixed(TAG_CHALLENGE, seq![], flat(set) + public)
}

/// The party left closed in repetition `r` is `next(next(trit))`.
pub open spec fn trit<H: NativeHasher>(b: NativeBackend<H>, d: Seq<int>, r: int) -> int {
    b.prefixed(TAG_CHALLENGE, seq![], d + seq![fe(r)])[0] % 3
}

pub open spec fn committed_shape(cm: Committed, n_out: int) -> bool {
    &&& cm.commitments@.len() == 3
    &&& cm.output_shares@.len() == 3
    &&& forall|i: int| 0 <= i < 3 ==> (#[trigger] cm.output_shares@[i])@.len() == n_out
}

/// Collects the challenge input of all repetitions, then the claimed output.
fn challenge_input(set: &CommitmentSet, public: &Vec<Fp>) -> (r: Vec<Fp>)
    requires
        forall|k: int| 0 <= k < set.reps@.len() ==> (#[trigger] set.reps@[k]).commitments@.len() == 3
            && set.reps@[k].output_shares@.len() == 3,
    ensures
        vals(r@) == flat(set.reps@) + vals(public@),
{
    let mut acc: Vec<Fp> = Vec::new();
    let mut k: usize = 0;
    proof {
        assert(set.reps@.take(0) =~= Seq::<Committed>::empty());
        assert(vals(acc@) =~= Seq::<int>::empty());
    }
    while k < set.reps.len()
        invariant
            k <= set.reps@.len(),
            forall|k: int| 0 <= k < set.reps@.len() ==> (#[trigger] set.reps@[k]).commitments@.len() == 3
                && set.reps@[k].output_shares@.len() == 3,
            vals(acc@) == flat(set.reps@.take(k as int)),
        decreases set.reps@.len() - k,
    {
        let cm = &set.reps[k];
        let a = concat3(cm.commitments[0].as_slice(), cm.commitments[1].as_slice(), cm.commitments[2].as_slice());
        let o = concat3(cm.output_shares[0].as_slice(), cm.output_shares[1].as_slice(), cm.output_shares[2].as_slice());
        let next_acc = concat3(acc.as_slice(), a.as_slice(), o.as_slice());
        proof {
            crate::native::lemma_vals_add(acc@ + a@, o@);
            crate::native::lemma_vals_add(acc@, a@);
            crate::native::lemma_vals_add(cm.commitments@[0]@ + cm.commitments@[1]@, cm.commitments@[2]@);
            crate::native::lemma_vals_add(cm.commitments@[0]@, cm.commitments@[1]@);
            crate::native::lemma_vals_add(cm.output_shares@[0]@ + cm.output_shares@[1]@, cm.output_shares@[2]@);
            crate::native::lemma_vals_add(cm.output_shares@[0]@, cm.output_shares@[1]@);
            let t = set.reps@.take(k + 1);
            assert(t.drop_last() =~= set.reps@.take(k as int));
            assert(vals(next_acc@) =~= flat(set.reps@.take(k as int)) + rep_flat(set.reps@[k as int]));
        }
        acc = next_acc;
        k = k + 1;
    }
    proof {
        assert(set.reps@.take(set.reps@.len() as int) =~= set.reps@);
    }
    let r = concat3(acc.as_slice(), public.as_slice(), &[]);
    proof {
        crate::native::lemma_vals_add(acc@ + public@, Seq::<Fp>::empty());
        crate::native::lemma_vals_add(acc@, public@);
        assert(vals(Seq::<Fp>::empty()) =~= Seq::<int>::empty());
        assert(vals(r@) =~= flat(set.reps@) + vals(public@));
    }
    r
}

/// The Fiat-Shamir challenge: for every repetition, the first opened party.
/// It reads only the finished commitment set and the claimed output.
pub fn challenge<H: NativeHasher>(
    b: &mut NativeBackend<H>,
    set: &CommitmentSet,
    public: &Vec<Fp>,
) -> (r: Result<Vec<usize>, NativeError>)
    requires
        forall|k: int| 0 <= k < set.reps@.len() ==> (#[trigger] set.reps@[k]).commitments@.len() == 3
            && set.reps@[k].output_shares@.len() == 3,
    ensures
        r matches Ok(es) ==> es@.len() == set.reps@.len() && forall|k: int|
            0 <= k < es@.len() ==> #[trigger] es@[k] as int == trit(
                *old(b),
                digest(*old(b), set.reps@, vals(public@)),
                k,
            ) && es@[k] < 3,
        old(b).hasher.total() ==> r is Ok,
        *final(b) == *old(b),
{
    let ghost bb = *b;
    let input = challenge_input(set, public);
    let d = match b.hash_challenge(input.as_slice()) {
        Ok(d) => d,
        Err(e) => {
            return Err(e);
        },
    };
    let mut es: Vec<usize> = Vec::new();
    let mut k: usize = 0;
    while k < set.reps.len()
        invariant
            *b == bb,
            bb == *old(b),
            k <= set.reps@.len(),
            vals(d@) == digest(bb, set.reps@, vals(public@)),
            es@.len() == k,
            forall|j: int|
                0 <= j < k ==> #[trigger] es@[j] as int == trit(bb, digest(bb, set.reps@, vals(public@)), j)
                    && es@[j] < 3,
        decreases set.reps@.len() - k,
    {
        let tag = Fp::from_u64(k as u64);
        let t = concat3(d.as_slice(), &[tag], &[]);
        let h = match b.hash_challenge(t.as_slice()) {
            Ok(h) => h,
            Err(e) => {
                return Err(e);
            },
        };
        proof {
            crate::native::lemma_vals_add(d@ + seq![tag], Seq::<Fp>::empty());
            crate::native::lemma_vals_add(d@, seq![tag]);
            assert(vals(seq![tag]) =~= seq![fe(k as int)]);
            assert(vals(Seq::<Fp>::empty()) =~= Seq::<int>::empty());
            assert(vals(t@) =~= vals(d@) + seq![fe(k as int)]);
            if bb.hasher.total() {
                bb.hasher.lemma_total(bb.role_input(TAG_CHALLENGE, seq![], vals(t@)));
            }
        }
        if h.len() == 0 {
            return Err(NativeError::EmptyHashOutput);
        }
        proof {
            assert(vals(h@)[0] == h@[0]@);
        }
        let e = (h[0].value() % 3) as usize;
        es.push(e);
        k = k + 1;
    }
    Ok(es)
}

/// A copy of a sequence of field elements.
fn copy_fps(a: &[Fp]) -> (r: Vec<Fp>)
    ensures
        r@ == a@,
{
    let r = concat3(a, &[], &[]);
    proof {
        assert(r@ =~= a@);
    }
    r
}

fn copy_view(v: &PartyView) -> (r: PartyView)
    ensures
        r.seed@ == v.seed@,
        r.aux@ == v.aux@,
        r.transcript@ == v.transcript@,
{
    PartyView {
        seed: copy_fps(v.seed.as_slice()),
        aux: copy_fps(v.aux.as_slice()),
        transcript: copy_fps(v.transcript.as_slice()),
    }
}

/// The honest input shares: parties 0 and 1 derive theirs from their seeds,
/// party 2 holds what makes the three add up to the witness.
pub open spec fn honest_ins<H: NativeHasher>(b: NativeBackend<H>, sd: Seq<Seq<int>>, w: Seq<int>) -> Seq<(int, int, int)> {
    Seq::new(
        w.len(),
        |k: int|
            {
                let x0 = b.input_share_spec(sd[0], k as u32);
                let x1 = b.input_share_spec(sd[1], k as u32);
                (x0, x1, fsub(fsub(w[k], x0), x1))
            },
    )
}

/// The input shares that party `i`'s view has to carry.
pub open spec fn aux_of(ins: Seq<(int, int, int)>, i: int) -> Seq<int> {
    if i == 2 {
        ins.map_values(|x: (int, int, int)| x.2)
    } else {
        seq![]
    }
}

/// Party `i`'s honest view in a repetition with seeds `sd` on witness `w`.
pub open spec fn honest_view<H: NativeHasher>(
    b: NativeBackend<H>,
    c: Circuit,
    w: Seq<int>,
    sd: Seq<Seq<int>>,
    i: int,
    v: PartyView,
) -> bool {
    let ins = honest_ins(b, sd, w);
    let t = triple_wires(b, sd, c.gates@, ins);
    &&& vals(v.seed@) == sd[i]
    &&& vals(v.aux@) == aux_of(ins, i)
    &&& vals(v.transcript@) == transcript_of(c.gates@, party(t, i))
}

/// The honest commitments and output shares of a repetition.
pub open spec fn honest_committed<H: NativeHasher>(
    b: NativeBackend<H>,
    c: Circuit,
    w: Seq<int>,
    sd: Seq<Seq<int>>,
    cm: Committed,
) -> bool {
    let ins = honest_ins(b, sd, w);
    let t = triple_wires(b, sd, c.gates@, ins);
    &&& committed_shape(cm, c.outputs@.len() as int)
    &&& forall|i: int|
        0 <= i < 3 ==> vals((#[trigger] cm.commitments@[i])@) == b.prefixed(
            TAG_COMMIT,
            sd[i],
            aux_of(ins, i) + transcript_of(c.gates@, party(t, i)),
        )
    &&& forall|i: int, j: int|
        0 <= i < 3 && 0 <= j < c.outputs@.len() ==> #[trigger] vals(cm.output_shares@[i]@)[j]
            == party(t, i)[c.outputs@[j] as int]
}

/// The seeds of repetition `r`.
pub open spec fn rep_seeds(seeds: Seq<Vec<Fp>>, r: int) -> Seq<Seq<int>> {
    seq![vals(seeds[3 * r]@), vals(seeds[3 * r + 1]@), vals(seeds[3 * r + 2]@)]
}

/// Derives a party's share of every input from its seed.
fn derive_inputs<H: NativeHasher>(b: &mut NativeBackend<H>, seed: &Vec<Fp>, n: usize) -> (r: Result<
    Vec<Fp>,
    NativeError,
>)
    requires
        n <= MODULUS as usize,
    ensures
        r matches Ok(v) ==> v@.len() == n && vals(v@) == Seq::new(
            n as nat,
            |k: int| old(b).input_share_spec(vals(seed@), k as u32),
        ),
        old(b).hasher.total() ==> r is Ok,
        *final(b) == *old(b),
{
    let ghost bb = *b;
    let mut v: Vec<Fp> = Vec::new();
    let mut k: usize = 0;
    while k < n
        invariant
            *b == bb,
            bb == *old(b),
            k <= n,
            n <= MODULUS as usize,
            v@.len() == k,
            forall|j: int| 0 <= j < k ==> (#[trigger] v@[j])@ == bb.input_share_spec(vals(seed@), j as u32),
        decreases n - k,
    {
        let x = match b.hash_input_share(seed.as_slice(), k as u32) {
            Ok(x) => x,
            Err(e) => {
                return Err(e);
            },
        };
        v.push(x);
        k = k + 1;
    }
    proof {
        assert(vals(v@) =~= Seq::new(n as nat, |k: int| bb.input_share_spec(vals(seed@), k as u32)));
    }
    Ok(v)
}

/// Runs one repetition: input shares, the three parties' runs, their
/// commitments and output shares. Returns the committed part and the
/// three views.
fn commit_rep<H: NativeHasher>(
    b: &mut NativeBackend<H>,
    c: &Circuit,
    witness: &Vec<Fp>,
    sd: &Vec<Vec<Fp>>,
) -> (r: Result<(Committed, Vec<PartyView>), NativeError>)
    requires
        c.wf(),
        c.n_inputs <= MODULUS as usize,
        witness@.len() == c.n_inputs,
        sd@.len() == 3,
    ensures
        r matches Ok((cm, vs)) ==> {
            let sds = seq![vals(sd@[0]@), vals(sd@[1]@), vals(sd@[2]@)];
            &&& honest_committed(*old(b), *c, vals(witness@), sds, cm)
            &&& vs@.len() == 3
            &&& forall|i: int| 0 <= i < 3 ==> honest_view(*old(b), *c, vals(witness@), sds, i, #[trigger] vs@[i])
        },
        old(b).hasher.total() ==> r is Ok,
        *final(b) == *old(b),
{
    let ghost bb = *b;
    let ghost sds = seq![vals(sd@[0]@), vals(sd@[1]@), vals(sd@[2]@)];
    let ghost w = vals(witness@);
    let n = c.n_inputs;
    let ins0 = match derive_inputs(b, &sd[0], n) {
        Ok(v) => v,
        Err(e) => {
            return Err(e);
        },
    };
    let ins1 = match derive_inputs(b, &sd[1], n) {
        Ok(v) => v,
        Err(e) => {
            return Err(e);
        },
    };
    let mut ins2: Vec<Fp> = Vec::new();
    let mut k: usize = 0;
    while k < n
        invariant
            k <= n,
            n == c.n_inputs,
            witness@.len() == n,
            ins0@.len() == n,
            ins1@.len() == n,
            ins2@.len() == k,
            forall|j: int| 0 <= j < k ==> (#[trigger] ins2@[j])@ == fsub(fsub(witness@[j]@, ins0@[j]@), ins1@[j]@),
        decreases n - k,
    {
        ins2.push(witness[k].sub(&ins0[k]).sub(&ins1[k]));
        k = k + 1;
    }
    let ghost ins = zip3(vals(ins0@), vals(ins1@), vals(ins2@));
    proof {
        assert(ins =~= honest_ins(bb, sds, w));
    }
    let runs = eval_triple(b, &c.gates, n, sd, &ins0, &ins1, &ins2);
    let (r0, r1, r2) = match runs {
        Ok(x) => x,
        Err(e) => {
            return Err(e);
        },
    };
    let ghost t = triple_wires(bb, sds, c.gates@, ins);
    proof {
        assert(party(t, 0) =~= vals(r0.wires@));
        assert(party(t, 1) =~= vals(r1.wires@));
        assert(party(t, 2) =~= vals(r2.wires@));
        assert(aux_of(ins, 2) =~= vals(ins2@));
        assert(aux_of(ins, 0) =~= vals(Seq::<Fp>::empty()));
    }
    let v0 = PartyView { seed: copy_fps(sd[0].as_slice()), aux: Vec::new(), transcript: r0.transcript };
    let v1 = PartyView { seed: copy_fps(sd[1].as_slice()), aux: Vec::new(), transcript: r1.transcript };
    let v2 = PartyView { seed: copy_fps(sd[2].as_slice()), aux: ins2, transcript: r2.transcript };
    let vs: Vec<PartyView> = vec![v0, v1, v2];
    let mut commitments: Vec<Vec<Fp>> = Vec::new();
    let mut output_shares: Vec<Vec<Fp>> = Vec::new();
    let mut i: usize = 0;
    while i < 3
        invariant
            *b == bb,
            bb == *old(b),
            i <= 3,
            vs@.len() == 3,
            c.wf(),
            forall|i: int| 0 <= i < 3 ==> honest_view(bb, *c, w, sds, i, #[trigger] vs@[i]),
            r0.wires@.len() == c.gates@.len(),
            r1.wires@.len() == c.gates@.len(),
            r2.wires@.len() == c.gates@.len(),
            party(t, 0) == vals(r0.wires@),
            party(t, 1) == vals(r1.wires@),
            party(t, 2) == vals(r2.wires@),
            t == triple_wires(bb, sds, c.gates@, honest_ins(bb, sds, w)),
            commitments@.len() == i,
            output_shares@.len() == i,
            forall|j: int|
                0 <= j < i ==> vals((#[trigger] commitments@[j])@) == bb.prefixed(
                    TAG_COMMIT,
                    sds[j],
                    aux_of(honest_ins(bb, sds, w), j) + transcript_of(c.gates@, party(t, j)),
                ),
            forall|j: int| 0 <= j < i ==> (#[trigger] output_shares@[j])@.len() == c.outputs@.len(),
            forall|j: int, o: int|
                0 <= j < i && 0 <= o < c.outputs@.len() ==> #[trigger] vals(output_shares@[j]@)[o]
                    == party(t, j)[c.outputs@[o] as int],
        decreases 3 - i,
    {
        let v = &vs[i];
        let body = concat3(v.aux.as_slice(), v.transcript.as_slice(), &[]);
        proof {
            crate::native::lemma_vals_add(v.aux@ + v.transcript@, Seq::<Fp>::empty());
            crate::native::lemma_vals_add(v.aux@, v.transcript@);
            assert(vals(Seq::<Fp>::empty()) =~= Seq::<int>::empty());
            assert(vals(body@) =~= vals(v.aux@) + vals(v.transcript@));
        }
        let com = match b.hash_commit(v.seed.as_slice(), body.as_slice()) {
            Ok(x) => x,
            Err(e) => {
                return Err(e);
            },
        };
        let wires = if i == 0 {
            &r0.wires
        } else if i == 1 {
            &r1.wires
        } else {
            &r2.wires
        };
        proof {
            assert(vals(wires@) == party(t, i as int));
        }
        let mut outs: Vec<Fp> = Vec::new();
        let mut j: usize = 0;
        while j < c.outputs.len()
            invariant
                c.wf(),
                wires@.len() == c.gates@.len(),
                j <= c.outputs@.len(),
                outs@.len() == j,
                forall|o: int| 0 <= o < j ==> (#[trigger] outs@[o])@ == vals(wires@)[c.outputs@[o] as int],
            decreases c.outputs@.len() - j,
        {
            outs.push(wires[c.outputs[j]]);
            j = j + 1;
        }
        proof {
            assert forall|o: int| 0 <= o < c.outputs@.len() implies vals(outs@)[o] == party(t, i as int)[c.outputs@[o] as int] by {
                assert(outs@[o]@ == vals(wires@)[c.outputs@[o] as int]);
            }
        }
        commitments.push(com);
        output_shares.push(outs);
        i = i + 1;
    }
    let cm = Committed { commitments, output_shares };
    Ok((cm, vs))
}

/// `pf` is the honest proof for the seeds, the witness and the claim.
pub open spec fn honest_proof<H: NativeHasher>(
    b: NativeBackend<H>,
    c: Circuit,
    w: Seq<int>,
    seeds: Seq<Vec<Fp>>,
    public: Seq<int>,
    secpar: nat,
    pf: Proof,
) -> bool {
    let n = reps_for(secpar);
    &&& pf.committed.reps@.len() == n
    &&& pf.openings@.len() == n
    &&& forall|r: int|
        0 <= r < n ==> {
            let e = trit(b, digest(b, pf.committed.reps@, public), r);
            &&& honest_committed(b, c, w, rep_seeds(seeds, r), #[trigger] pf.committed.reps@[r])
            &&& honest_view(b, c, w, rep_seeds(seeds, r), e, pf.openings@[r].first)
            &&& honest_view(b, c, w, rep_seeds(seeds, r), next(e), pf.openings@[r].second)
        }
}

/// Proves knowledge of `witness` for `c` and the claimed output `public`,
/// with `repetitions(secpar)` repetitions; `seeds` holds three fresh random
/// seeds per repetition, in order. The hasher prefix of `b` separates this
/// use of the hash from others.
pub fn prove<H: NativeHasher>(
    b: &mut NativeBackend<H>,
    secpar: u32,
    seeds: &Vec<Vec<Fp>>,
    c: &Circuit,
    witness: &Vec<Fp>,
    public: &Vec<Fp>,
) -> (r: Result<Proof, ProofError>)
    requires
        c.wf(),
        c.n_inputs <= MODULUS as usize,
    ensures
        witness@.len() != c.n_inputs ==> r == Err::<Proof, ProofError>(ProofError::WitnessLength),
        witness@.len() == c.n_inputs && public@.len() != c.outputs@.len() ==> r == Err::<
            Proof,
            ProofError,
        >(ProofError::OutputLength),
        witness@.len() == c.n_inputs && public@.len() == c.outputs@.len() && seeds@.len() != 3
            * reps_for(secpar as nat) ==> r == Err::<Proof, ProofError>(ProofError::SeedCount),
        r matches Ok(pf) ==> honest_proof(
            *old(b),
            *c,
            vals(witness@),
            seeds@,
            vals(public@),
            secpar as nat,
            pf,
        ),
        r matches Err(ProofError::WitnessLength) ==> witness@.len() != c.n_inputs,
        r matches Err(ProofError::OutputLength) ==> witness@.len() == c.n_inputs && public@.len()
            != c.outputs@.len(),
        r matches Err(ProofError::SeedCount) ==> witness@.len() == c.n_inputs && public@.len()
            == c.outputs@.len() && seeds@.len() != 3 * reps_for(secpar as nat),
        r matches Err(ProofError::Hash(_)) ==> !old(b).hasher.total(),
        r is Err ==> r matches Err(
            ProofError::WitnessLength | ProofError::OutputLength | ProofError::SeedCount | ProofError::Hash(_),
        ),
        witness@.len() == c.n_inputs && public@.len() == c.outputs@.len() && seeds@.len() == 3
            * reps_for(secpar as nat) && old(b).hasher.total() ==> r is Ok,
        *final(b) == *old(b),
{
    let ghost bb = *b;
    let ghost w = vals(witness@);
    if witness.len() != c.n_inputs {
        return Err(ProofError::WitnessLength);
    }
    if public.len() != c.outputs.len() {
        return Err(ProofError::OutputLength);
    }
    let nreps = repetitions(secpar);
    if seeds.len() as u64 != 3 * nreps {
        return Err(ProofError::SeedCount);
    }
    let nr = nreps as usize;
    let mut committed: Vec<Committed> = Vec::new();
    let mut views: Vec<Vec<PartyView>> = Vec::new();
    let mut r: usize = 0;
    while r < nr
        invariant
            *b == bb,
            bb == *old(b),
            c.wf(),
            c.n_inputs <= MODULUS as usize,
            witness@.len() == c.n_inputs,
            w == vals(witness@),
            seeds@.len() == 3 * nr,
            nr == reps_for(secpar as nat),
            public@.len() == c.outputs@.len(),
            r <= nr,
            committed@.len() == r,
            views@.len() == r,
            forall|q: int|
                0 <= q < r ==> honest_committed(bb, *c, w, rep_seeds(seeds@, q), #[trigger] committed@[q]),
            forall|q: int|
                0 <= q < r ==> (#[trigger] views@[q])@.len() == 3 && forall|i: int|
                    0 <= i < 3 ==> honest_view(bb, *c, w, rep_seeds(seeds@, q), i, #[trigger] views@[q]@[i]),
        decreases nr - r,
    {
        let sl = seeds.len();
        proof {
            assert(3 * r + 2 < 3 * nr) by (nonlinear_arith)
                requires
                    r < nr,
            ;
        }
        let sd: Vec<Vec<Fp>> = vec![
            copy_fps(seeds[3 * r].as_slice()),
            copy_fps(seeds[3 * r + 1].as_slice()),
            copy_fps(seeds[3 * r + 2].as_slice()),
        ];
        proof {
            assert(seq![vals(sd@[0]@), vals(sd@[1]@), vals(sd@[2]@)] == rep_seeds(seeds@, r as int));
        }
        let (cm, vs) = match commit_rep(b, c, witness, &sd) {
            Ok(x) => x,
            Err(e) => {
                return Err(ProofError::Hash(e));
            },
        };
        committed.push(cm);
        views.push(vs);
        r = r + 1;
    }
    proof {
        assert forall|k: int| 0 <= k < committed@.len() implies (#[trigger] committed@[k]).commitments@.len() == 3
            && committed@[k].output_shares@.len() == 3 by {
            assert(honest_committed(bb, *c, w, rep_seeds(seeds@, k), committed@[k]));
        }
    }
    let set = CommitmentSet { reps: committed };
    let es = match challenge(b, &set, public) {
        Ok(es) => es,
        Err(e) => {
            return Err(ProofError::Hash(e));
        },
    };
    let ghost d = digest(bb, set.reps@, vals(public@));
    let mut openings: Vec<Opening> = Vec::new();
    let mut q: usize = 0;
    while q < nr
        invariant
            *b == bb,
            bb == *old(b),
            q <= nr,
            es@.len() == nr,
            views@.len() == nr,
            set.reps@.len() == nr,
            d == digest(bb, set.reps@, vals(public@)),
            forall|k: int| 0 <= k < nr ==> #[trigger] es@[k] as int == trit(bb, d, k) && es@[k] < 3,
            forall|k: int|
                0 <= k < nr ==> (#[trigger] views@[k])@.len() == 3 && forall|i: int|
                    0 <= i < 3 ==> honest_view(bb, *c, w, rep_seeds(seeds@, k), i, #[trigger] views@[k]@[i]),
            openings@.len() == q,
            forall|k: int|
                0 <= k < q ==> honest_view(bb, *c, w, rep_seeds(seeds@, k), trit(bb, d, k), (#[trigger] openings@[k]).first)
                    && honest_view(bb, *c, w, rep_seeds(seeds@, k), next(trit(bb, d, k)), openings@[k].second),
        decreases nr - q,
    {
        let e = es[q];
        let f = if e == 2 {
            0
        } else {
            e + 1
        };
        proof {
            assert(honest_view(bb, *c, w, rep_seeds(seeds@, q as int), e as int, views@[q as int]@[e as int]));
            assert(honest_view(bb, *c, w, rep_seeds(seeds@, q as int), f as int, views@[q as int]@[f as int]));
        }
        let first = copy_view(&views[q][e]);
        let second = copy_view(&views[q][f]);
        openings.push(Opening { first, second });
        q = q + 1;
    }
    Ok(Proof { committed: set, openings })
}

/// The input shares of opened party `i`, from its view.
pub open spec fn view_ins<H: NativeHasher>(b: NativeBackend<H>, i: int, v: PartyView, n: nat) -> Seq<int> {
    if i == 2 {
        vals(v.aux@)
    } else {
        Seq::new(n, |k: int| b.input_share_spec(vals(v.seed@), k as u32))
    }
}

/// Only party 2's view carries input shares, one per input.
pub open spec fn aux_len_ok(c: Circuit, i: int, v: PartyView) -> bool {
    v.aux@.len() == if i == 2 {
        c.n_inputs as int
    } else {
        0
    }
}

/// Repetition `cm`, `op` passes every check when party `e` and `next(e)` are opened.
pub open spec fn rep_ok<H: NativeHasher>(
    b: NativeBackend<H>,
    c: Circuit,
    public: Seq<int>,
    cm: Committed,
    op: Opening,
    e: int,
) -> bool {
    let p = e;
    let q = next(e);
    let u = next(q);
    let n = c.n_inputs as nat;
    &&& aux_len_ok(c, p, op.first)
    &&& aux_len_ok(c, q, op.second)
    &&& op.second.transcript@.len() == n_muls(c.gates@)
    &&& {
        let pw = pair_wires(
            b,
            vals(op.first.seed@),
            vals(op.second.seed@),
            p,
            c.gates@,
            zip2(view_ins(b, p, op.first, n), view_ins(b, q, op.second, n)),
            vals(op.second.transcript@),
        );
        &&& vals(op.first.transcript@) == transcript_of(c.gates@, firsts(pw))
        &&& b.prefixed(TAG_COMMIT, vals(op.first.seed@), vals(op.first.aux@) + vals(op.first.transcript@))
            == vals(cm.commitments@[p]@)
        &&& b.prefixed(TAG_COMMIT, vals(op.second.seed@), vals(op.second.aux@) + vals(op.second.transcript@))
            == vals(cm.commitments@[q]@)
        &&& forall|j: int|
            0 <= j < c.outputs@.len() ==> {
                let o = #[trigger] c.outputs@[j] as int;
                &&& vals(cm.output_shares@[p]@)[j] == pw[o].0
                &&& vals(cm.output_shares@[q]@)[j] == pw[o].1
                &&& fe(pw[o].0 + pw[o].1 + vals(cm.output_shares@[u]@)[j]) == public[j]
            }
    }
}

/// Whether two sequences of field elements have the same values.
fn vals_eq(a: &Vec<Fp>, b: &Vec<Fp>) -> (r: bool)
    ensures
        r == (vals(a@) == vals(b@)),
{
    if a.len() != b.len() {
        proof {
            assert(vals(a@).len() != vals(b@).len());
        }
        return false;
    }
    let mut i: usize = 0;
    while i < a.len()
        invariant
            a@.len() == b@.len(),
            i <= a@.len(),
            forall|j: int| 0 <= j < i ==> (#[trigger] a@[j])@ == b@[j]@,
        decreases a@.len() - i,
    {
        if !a[i].equals(&b[i]) {
            proof {
                assert(vals(a@)[i as int] != vals(b@)[i as int]);
            }
            return false;
        }
        i = i + 1;
    }
    proof {
        assert(vals(a@) =~= vals(b@));
    }
    true
}

/// The input shares of opened party `i`: carried by party 2's view, derived
/// from the seed for the others.
fn opened_inputs<H: NativeHasher>(b: &mut NativeBackend<H>, i: usize, v: &PartyView, n: usize) -> (r: Result<
    Vec<Fp>,
    NativeError,
>)
    requires
        n <= MODULUS as usize,
        i == 2 ==> v.aux@.len() == n,
    ensures
        r matches Ok(x) ==> x@.len() == n && vals(x@) == view_ins(*old(b), i as int, *v, n as nat),
        old(b).hasher.total() ==> r is Ok,
        *final(b) == *old(b),
{
    if i == 2 {
        Ok(copy_fps(v.aux.as_slice()))
    } else {
        derive_inputs(b, &v.seed, n)
    }
}

/// Replays one repetition with parties `e` and `next(e)` opened.
pub fn check_rep<H: NativeHasher>(
    b: &mut NativeBackend<H>,
    c: &Circuit,
    public: &Vec<Fp>,
    cm: &Committed,
    op: &Opening,
    e: usize,
) -> (r: Result<bool, NativeError>)
    requires
        c.wf(),
        c.n_inputs <= MODULUS as usize,
        committed_shape(*cm, c.outputs@.len() as int),
        public@.len() == c.outputs@.len(),
        e < 3,
    ensures
        r matches Ok(v) ==> v == rep_ok(*old(b), *c, vals(public@), *cm, *op, e as int),
        old(b).hasher.total() ==> r is Ok,
        *final(b) == *old(b),
{
    let ghost bb = *b;
    let p = e;
    let q = if e == 2 {
        0
    } else {
        e + 1
    };
    let u = if q == 2 {
        0
    } else {
        q + 1
    };
    let n = c.n_inputs;
    let pa = if p == 2 {
        n
    } else {
        0
    };
    let qa = if q == 2 {
        n
    } else {
        0
    };
    if op.first.aux.len() != pa || op.second.aux.len() != qa {
        return Ok(false);
    }
    let nm = count_muls(&c.gates);
    if op.second.transcript.len() != nm {
        return Ok(false);
    }
    let insp = match opened_inputs(b, p, &op.first, n) {
        Ok(x) => x,
        Err(e) => {
            return Err(e);
        },
    };
    let insq = match opened_inputs(b, q, &op.second, n) {
        Ok(x) => x,
        Err(e) => {
            return Err(e);
        },
    };
    let (rp, wq) = match eval_pair(
        b,
        &c.gates,
        n,
        p,
        &op.first.seed,
        &op.second.seed,
        &insp,
        &insq,
        &op.second.transcript,
    ) {
        Ok(x) => x,
        Err(e) => {
            return Err(e);
        },
    };
    let ghost pw = pair_wires(
        bb,
        vals(op.first.seed@),
        vals(op.second.seed@),
        p as int,
        c.gates@,
        zip2(view_ins(bb, p as int, op.first, n as nat), view_ins(bb, q as int, op.second, n as nat)),
        vals(op.second.transcript@),
    );
    proof {
        assert(firsts(pw) =~= vals(rp.wires@));
    }
    if !vals_eq(&rp.transcript, &op.first.transcript) {
        return Ok(false);
    }
    let bodyp = concat3(op.first.aux.as_slice(), op.first.transcript.as_slice(), &[]);
    let bodyq = concat3(op.second.aux.as_slice(), op.second.transcript.as_slice(), &[]);
    proof {
        crate::native::lemma_vals_add(op.first.aux@ + op.first.transcript@, Seq::<Fp>::empty());
        crate::native::lemma_vals_add(op.first.aux@, op.first.transcript@);
        crate::native::lemma_vals_add(op.second.aux@ + op.second.transcript@, Seq::<Fp>::empty());
        crate::native::lemma_vals_add(op.second.aux@, op.second.transcript@);
        assert(vals(Seq::<Fp>::empty()) =~= Seq::<int>::empty());
        assert(vals(bodyp@) =~= vals(op.first.aux@) + vals(op.first.transcript@));
        assert(vals(bodyq@) =~= vals(op.second.aux@) + vals(op.second.transcript@));
    }
    let comp = match b.hash_commit(op.first.seed.as_slice(), bodyp.as_slice()) {
        Ok(x) => x,
        Err(e) => {
            return Err(e);
        },
    };
    if !vals_eq(&comp, &cm.commitments[p]) {
        return Ok(false);
    }
    let comq = match b.hash_commit(op.second.seed.as_slice(), bodyq.as_slice()) {
        Ok(x) => x,
        Err(e) => {
            return Err(e);
        },
    };
    if !vals_eq(&comq, &cm.commitments[q]) {
        return Ok(false);
    }
    let mut j: usize = 0;
    while j < c.outputs.len()
        invariant
            c.wf(),
            committed_shape(*cm, c.outputs@.len() as int),
            public@.len() == c.outputs@.len(),
            p < 3 && q < 3 && u < 3,
            p == e,
            q as int == next(e as int),
            u as int == next(q as int),
            *b == bb,
            bb == *old(b),
            aux_len_ok(*c, p as int, op.first),
            aux_len_ok(*c, q as int, op.second),
            op.second.transcript@.len() == n_muls(c.gates@),
            pw == pair_wires(
                bb,
                vals(op.first.seed@),
                vals(op.second.seed@),
                p as int,
                c.gates@,
                zip2(view_ins(bb, p as int, op.first, c.n_inputs as nat), view_ins(bb, q as int, op.second, c.n_inputs as nat)),
                vals(op.second.transcript@),
            ),
            vals(op.first.transcript@) == transcript_of(c.gates@, firsts(pw)),
            bb.prefixed(TAG_COMMIT, vals(op.first.seed@), vals(op.first.aux@) + vals(op.first.transcript@))
                == vals(cm.commitments@[p as int]@),
            bb.prefixed(TAG_COMMIT, vals(op.second.seed@), vals(op.second.aux@) + vals(op.second.transcript@))
                == vals(cm.commitments@[q as int]@),
            rp.wires@.len() == c.gates@.len(),
            wq@.len() == c.gates@.len(),
            pw == zip2(vals(rp.wires@), vals(wq@)),
            j <= c.outputs@.len(),
            forall|k: int|
                0 <= k < j ==> {
                    let o = #[trigger] c.outputs@[k] as int;
                    &&& vals(cm.output_shares@[p as int]@)[k] == pw[o].0
                    &&& vals(cm.output_shares@[q as int]@)[k] == pw[o].1
                    &&& fe(pw[o].0 + pw[o].1 + vals(cm.output_shares@[u as int]@)[k]) == vals(public@)[k]
                },
        decreases c.outputs@.len() - j,
    {
        let o = c.outputs[j];
        let sp = rp.wires[o];
        let sq = wq[o];
        proof {
            assert(pw[o as int] == (sp@, sq@));
            assert(cm.output_shares@[p as int]@.len() == c.outputs@.len());
            assert(cm.output_shares@[q as int]@.len() == c.outputs@.len());
            assert(cm.output_shares@[u as int]@.len() == c.outputs@.len());
        }
        let su = cm.output_shares[u][j];
        if !cm.output_shares[p][j].equals(&sp) || !cm.output_shares[q][j].equals(&sq) {
            return Ok(false);
        }
        let total = sp.add(&sq).add(&su);
        proof {
            crate::mpc::lemma_fe_sum3_pub(sp@, sq@, su@);
        }
        if !total.equals(&public[j]) {
            return Ok(false);
        }
        j = j + 1;
    }
    Ok(true)
}

/// Counts the multiplication gates.
fn count_muls(gates: &Vec<Gate>) -> (r: usize)
    ensures
        r == n_muls(gates@),
{
    let mut k: usize = 0;
    let mut i: usize = 0;
    proof {
        assert(gates@.take(0) =~= Seq::<Gate>::empty());
    }
    while i < gates.len()
        invariant
            i <= gates@.len(),
            k == n_muls(gates@.take(i as int)),
            k <= i,
        decreases gates@.len() - i,
    {
        proof {
            assert(gates@.take(i + 1).drop_last() =~= gates@.take(i as int));
        }
        if matches!(gates[i], Gate::Mul(_, _)) {
            k = k + 1;
        }
        i = i + 1;
    }
    proof {
        assert(gates@.take(gates@.len() as int) =~= gates@);
    }
    k
}

/// Every repetition's committed part has three commitments and three output
/// shares of one element per output wire.
pub open spec fn proof_shape(pf: Proof, c: Circuit) -> bool {
    forall|r: int|
        0 <= r < pf.committed.reps@.len() ==> committed_shape(
            #[trigger] pf.committed.reps@[r],
            c.outputs@.len() as int,
        )
}

/// The proof is accepted: every repetition passes every check, with the
/// opened parties that the re-derived challenge names.
pub open spec fn accepts<H: NativeHasher>(b: NativeBackend<H>, c: Circuit, public: Seq<int>, pf: Proof) -> bool {
    forall|r: int|
        0 <= r < pf.committed.reps@.len() ==> rep_ok(
            b,
            c,
            public,
            #[trigger] pf.committed.reps@[r],
            pf.openings@[r],
            trit(b, digest(b, pf.committed.reps@, public), r),
        )
}

impl Proof {
    /// Checks the proof against `c` and the claimed output `public`. A proof
    /// that fails a check is `Ok(false)`; only malformed input is an error.
    pub fn verify<H: NativeHasher>(
        &self,
        b: &mut NativeBackend<H>,
        secpar: u32,
        c: &Circuit,
        public: &Vec<Fp>,
    ) -> (r: Result<bool, ProofError>)
        requires
            c.wf(),
            c.n_inputs <= MODULUS as usize,
        ensures
            public@.len() != c.outputs@.len() ==> r == Err::<bool, ProofError>(ProofError::OutputLength),
            public@.len() == c.outputs@.len() && (self.committed.reps@.len() != reps_for(secpar as nat)
                || self.openings@.len() != reps_for(secpar as nat)) ==> r == Err::<bool, ProofError>(
                ProofError::RepetitionCount,
            ),
            public@.len() == c.outputs@.len() && self.committed.reps@.len() == reps_for(secpar as nat)
                && self.openings@.len() == reps_for(secpar as nat) && !proof_shape(*self, *c) ==> r
                == Err::<bool, ProofError>(ProofError::Malformed),
            r matches Ok(v) ==> v == accepts(*old(b), *c, vals(public@), *self),
            r matches Err(ProofError::OutputLength) ==> public@.len() != c.outputs@.len(),
            r matches Err(ProofError::RepetitionCount) ==> public@.len() == c.outputs@.len() && (
            self.committed.reps@.len() != reps_for(secpar as nat) || self.openings@.len() != reps_for(
                secpar as nat,
            )),
            r matches Err(ProofError::Malformed) ==> public@.len() == c.outputs@.len()
                && self.committed.reps@.len() == reps_for(secpar as nat) && self.openings@.len()
                == reps_for(secpar as nat) && !proof_shape(*self, *c),
            r matches Err(ProofError::Hash(_)) ==> !old(b).hasher.total(),
            r is Err ==> r matches Err(
                ProofError::OutputLength | ProofError::RepetitionCount | ProofError::Malformed | ProofError::Hash(_),
            ),
            public@.len() == c.outputs@.len() && self.committed.reps@.len() == reps_for(secpar as nat)
                && self.openings@.len() == reps_for(secpar as nat) && proof_shape(*self, *c)
                && old(b).hasher.total() ==> r is Ok,
            *final(b) == *old(b),
    {
        let ghost bb = *b;
        if public.len() != c.outputs.len() {
            return Err(ProofError::OutputLength);
        }
        let nreps = repetitions(secpar);
        if self.committed.reps.len() as u64 != nreps || self.openings.len() as u64 != nreps {
            return Err(ProofError::RepetitionCount);
        }
        let mut k: usize = 0;
        while k < self.committed.reps.len()
            invariant
                public@.len() == c.outputs@.len(),
                self.committed.reps@.len() == reps_for(secpar as nat),
                self.openings@.len() == reps_for(secpar as nat),
                k <= self.committed.reps@.len(),
                forall|j: int|
                    0 <= j < k ==> committed_shape(#[trigger] self.committed.reps@[j], c.outputs@.len() as int),
            decreases self.committed.reps@.len() - k,
        {
            let cm = &self.committed.reps[k];
            if cm.commitments.len() != 3 || cm.output_shares.len() != 3 || cm.output_shares[0].len()
                != c.outputs.len() || cm.output_shares[1].len() != c.outputs.len()
                || cm.output_shares[2].len() != c.outputs.len() {
                proof {
                    assert(!committed_shape(self.committed.reps@[k as int], c.outputs@.len() as int));
                }
                return Err(ProofError::Malformed);
            }
            proof {
                let cmv = self.committed.reps@[k as int];
                assert forall|i: int| 0 <= i < 3 implies (#[trigger] cmv.output_shares@[i])@.len()
                    == c.outputs@.len() by {
                    if i == 0 {
                    } else if i == 1 {
                    } else {
                    }
                }
            }
            k = k + 1;
        }
        let es = match challenge(b, &self.committed, public) {
            Ok(es) => es,
            Err(e) => {
                return Err(ProofError::Hash(e));
            },
        };
        let ghost d = digest(bb, self.committed.reps@, vals(public@));
        let mut r: usize = 0;
        while r < self.committed.reps.len()
            invariant
                *b == bb,
                bb == *old(b),
                c.wf(),
                c.n_inputs <= MODULUS as usize,
                public@.len() == c.outputs@.len(),
                self.committed.reps@.len() == reps_for(secpar as nat),
                proof_shape(*self, *c),
                self.openings@.len() == self.committed.reps@.len(),
                es@.len() == self.committed.reps@.len(),
                d == digest(bb, self.committed.reps@, vals(public@)),
                forall|k: int| 0 <= k < es@.len() ==> #[trigger] es@[k] as int == trit(bb, d, k) && es@[k] < 3,
                r <= self.committed.reps@.len(),
                forall|j: int|
                    0 <= j < r ==> rep_ok(
                        bb,
                        *c,
                        vals(public@),
                        #[trigger] self.committed.reps@[j],
                        self.openings@[j],
                        trit(bb, d, j),
                    ),
            decreases self.committed.reps@.len() - r,
        {
            proof {
                assert(committed_shape(self.committed.reps@[r as int], c.outputs@.len() as int));
            }
            let ok = match check_rep(b, c, public, &self.committed.reps[r], &self.openings[r], es[r]) {
                Ok(v) => v,
                Err(e) => {
                    return Err(ProofError::Hash(e));
                },
            };
            if !ok {
                return Ok(false);
            }
            r = r + 1;
        }
        Ok(true)
    }
}

} // verus!
