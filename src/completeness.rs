//! Completeness: an honestly generated proof for a witness that satisfies the
//! circuit passes every check of the verifier.
use crate::circuit::{gate_ok, gates_ok, lemma_wire_values_len, wire_values, Circuit, Gate};
use crate::engine::{
    accepts, aux_of, honest_committed, honest_ins, honest_proof, honest_view, rep_ok, rep_seeds,
    trit, digest, view_ins, Committed, Opening, Proof,
};
use crate::field::{fe, fsub, p, vals, Fp};
use crate::mpc::{
    firsts, lemma_n_muls_take, lemma_share_sum, n_muls, next, pair_gate, pair_wires, party, sum3, transcript_of,
    triple_gate, triple_wires, zip2, comp,
};
use crate::native::{NativeBackend, NativeHasher, TAG_COMMIT};
use vstd::arithmetic::div_mod::{lemma_add_mod_noop, lemma_mod_twice, lemma_small_mod, lemma_sub_mod_noop};
use vstd::prelude::*;

verus! {

proof fn lemma_transcript_len(gates: Seq<Gate>, ws: Seq<int>)
    requires
        ws.len() == gates.len(),
    ensures
        transcript_of(gates, ws).len() == n_muls(gates),
    decreases gates.len(),
{
    if gates.len() > 0 {
        lemma_transcript_len(gates.drop_last(), ws.drop_last());
    }
}

/// The transcript entry of multiplication gate `g` is the party's share of it.
proof fn lemma_transcript_at(gates: Seq<Gate>, ws: Seq<int>, g: int)
    requires
        ws.len() == gates.len(),
        0 <= g < gates.len(),
        gates[g] is Mul,
    ensures
        n_muls(gates.take(g)) < transcript_of(gates, ws).len(),
        transcript_of(gates, ws)[n_muls(gates.take(g)) as int] == ws[g],
    decreases gates.len(),
{
    lemma_transcript_len(gates, ws);
    let pre = gates.drop_last();
    lemma_transcript_len(pre, ws.drop_last());
    if g == gates.len() - 1 {
        assert(gates.take(g) =~= pre);
    } else {
        assert(pre.take(g) =~= gates.take(g));
        lemma_transcript_at(pre, ws.drop_last(), g);
        assert(pre.take(g + 1).drop_last() =~= pre.take(g));
        assert(pre[g] is Mul);
        lemma_n_muls_take(pre, g + 1);
    }
}

proof fn lemma_triple_len<H: NativeHasher>(
    b: NativeBackend<H>,
    sd: Seq<Seq<int>>,
    gates: Seq<Gate>,
    ins: Seq<(int, int, int)>,
)
    ensures
        triple_wires(b, sd, gates, ins).len() == gates.len(),
    decreases gates.len(),
{
    if gates.len() > 0 {
        lemma_triple_len(b, sd, gates.drop_last(), ins);
    }
}

/// The shares of a prefix of the gates are a prefix of the shares.
proof fn lemma_triple_prefix<H: NativeHasher>(
    b: NativeBackend<H>,
    sd: Seq<Seq<int>>,
    gates: Seq<Gate>,
    ins: Seq<(int, int, int)>,
    m: int,
)
    requires
        0 <= m <= gates.len(),
    ensures
        triple_wires(b, sd, gates.take(m), ins) == triple_wires(b, sd, gates, ins).take(m),
    decreases gates.len(),
{
    lemma_triple_len(b, sd, gates, ins);
    if m == gates.len() {
        assert(gates.take(m) =~= gates);
        assert(triple_wires(b, sd, gates, ins).take(m) =~= triple_wires(b, sd, gates, ins));
    } else {
        let pre = gates.drop_last();
        assert(pre.take(m) =~= gates.take(m));
        lemma_triple_prefix(b, sd, pre, ins, m);
        lemma_triple_len(b, sd, pre, ins);
        assert(triple_wires(b, sd, pre, ins).take(m) =~= triple_wires(b, sd, gates, ins).take(m));
    }
}

/// What the verifier replays for two honest parties is what the prover computed.
proof fn lemma_pair_matches<H: NativeHasher>(
    b: NativeBackend<H>,
    sd: Seq<Seq<int>>,
    gates: Seq<Gate>,
    n_inputs: int,
    ins: Seq<(int, int, int)>,
    pp: int,
    m: int,
)
    requires
        gates_ok(gates, n_inputs),
        ins.len() == n_inputs,
        sd.len() == 3,
        0 <= pp < 3,
        0 <= m <= gates.len(),
    ensures
        ({
            let t = triple_wires(b, sd, gates, ins);
            let q = next(pp);
            pair_wires(
                b,
                sd[pp],
                sd[q],
                pp,
                gates.take(m),
                zip2(party(ins, pp), party(ins, q)),
                transcript_of(gates, party(t, q)),
            ) == zip2(party(t, pp), party(t, q)).take(m)
        }),
    decreases m,
{
    let t = triple_wires(b, sd, gates, ins);
    let q = next(pp);
    let pins = zip2(party(ins, pp), party(ins, q));
    let trq = transcript_of(gates, party(t, q));
    let z = zip2(party(t, pp), party(t, q));
    lemma_triple_len(b, sd, gates, ins);
    if m == 0 {
        assert(gates.take(0) =~= Seq::<Gate>::empty());
        assert(z.take(0) =~= Seq::<(int, int)>::empty());
    } else {
        let g = m - 1;
        lemma_pair_matches(b, sd, gates, n_inputs, ins, pp, g);
        let tm = gates.take(m);
        assert(tm.drop_last() =~= gates.take(g));
        let prev = z.take(g);
        let gt = gates[g];
        assert(tm.last() == gt);
        lemma_triple_prefix(b, sd, gates, ins, m);
        lemma_triple_prefix(b, sd, gates, ins, g);
        let tp = t.take(g);
        assert(t.take(m)[g] == t[g]);
        assert(t[g] == triple_gate(b, sd, gt, g, tp, ins));
        assert(gate_ok(gt, g, n_inputs));
        let pg = pair_gate(b, sd[pp], sd[q], pp, gt, g, prev, pins, trq, n_muls(gates.take(g)) as int);
        assert(pg == z[g]) by {
            match gt {
                Gate::Input(k) => {},
                Gate::Constant(c) => {},
                Gate::Add(a, c) => {
                    assert(prev[a as int] == (comp(tp[a as int], pp), comp(tp[a as int], q)));
                    assert(prev[c as int] == (comp(tp[c as int], pp), comp(tp[c as int], q)));
                },
                Gate::Sub(a, c) => {
                    assert(prev[a as int] == (comp(tp[a as int], pp), comp(tp[a as int], q)));
                    assert(prev[c as int] == (comp(tp[c as int], pp), comp(tp[c as int], q)));
                },
                Gate::Neg(a) => {
                    assert(prev[a as int] == (comp(tp[a as int], pp), comp(tp[a as int], q)));
                },
                Gate::Mul(a, c) => {
                    assert(prev[a as int] == (comp(tp[a as int], pp), comp(tp[a as int], q)));
                    assert(prev[c as int] == (comp(tp[c as int], pp), comp(tp[c as int], q)));
                    lemma_transcript_at(gates, party(t, q), g);
                },
            }
        }
        assert(z.take(m) =~= prev.push(z[g]));
    }
}

proof fn lemma_ins_sum(x0: int, x1: int, w: int)
    requires
        0 <= w < p(),
    ensures
        sum3((x0, x1, fsub(fsub(w, x0), x1))) == w,
{
    lemma_mod_twice(w - x0, p());
    lemma_sub_mod_noop(w - x0, x1, p());
    lemma_mod_twice(x1, p());
    lemma_add_mod_noop(x0 + x1, w - x0 - x1, p());
    lemma_mod_twice(x0 + x1, p());
    lemma_mod_twice(w - x0 - x1, p());
    lemma_add_mod_noop(x0 + x1, fe(w - x0 - x1), p());
    lemma_small_mod(w as nat, p() as nat);
}

/// An honest repetition on witness `w` passes every check of the verifier
/// against the circuit's outputs on `w`, whichever two parties are opened.
proof fn lemma_rep_complete<H: NativeHasher>(
    b: NativeBackend<H>,
    c: Circuit,
    w: Seq<int>,
    sd: Seq<Seq<int>>,
    cm: Committed,
    op: Opening,
    e: int,
)
    requires
        c.wf(),
        w.len() == c.n_inputs,
        forall|k: int| 0 <= k < w.len() ==> 0 <= #[trigger] w[k] < p(),
        sd.len() == 3,
        0 <= e < 3,
        honest_committed(b, c, w, sd, cm),
        honest_view(b, c, w, sd, e, op.first),
        honest_view(b, c, w, sd, next(e), op.second),
    ensures
        rep_ok(b, c, c.output_values(w), cm, op, e),
{
    let public = c.output_values(w);
    let gates = c.gates@;
    let n = c.n_inputs as nat;
    let ins = honest_ins(b, sd, w);
    let t = triple_wires(b, sd, gates, ins);
    let pp = e;
    let q = next(e);
    let u = next(q);
    assert forall|k: int| 0 <= k < w.len() implies sum3(#[trigger] ins[k]) == w[k] by {
        lemma_ins_sum(b.input_share_spec(sd[0], k as u32), b.input_share_spec(sd[1], k as u32), w[k]);
    }
    lemma_share_sum(b, sd, gates, ins, w);
    lemma_wire_values_len(gates, w);
    assert(view_ins(b, pp, op.first, n) =~= party(ins, pp));
    assert(view_ins(b, q, op.second, n) =~= party(ins, q));
    lemma_pair_matches(b, sd, gates, c.n_inputs as int, ins, pp, gates.len() as int);
    assert(gates.take(gates.len() as int) =~= gates);
    let z = zip2(party(t, pp), party(t, q));
    assert(z.take(gates.len() as int) =~= z);
    let pw = pair_wires(
        b,
        vals(op.first.seed@),
        vals(op.second.seed@),
        pp,
        gates,
        zip2(view_ins(b, pp, op.first, n), view_ins(b, q, op.second, n)),
        vals(op.second.transcript@),
    );
    assert(pw == z);
    assert(firsts(pw) =~= party(t, pp));
    lemma_transcript_len(gates, party(t, q));
    assert(vals(op.first.aux@).len() == op.first.aux@.len());
    assert(vals(op.second.aux@).len() == op.second.aux@.len());
    assert(vals(op.second.transcript@).len() == op.second.transcript@.len());
    assert(vals(cm.commitments@[pp]@) == b.prefixed(TAG_COMMIT, sd[pp], aux_of(ins, pp) + transcript_of(gates, party(t, pp))));
    assert(vals(cm.commitments@[q]@) == b.prefixed(TAG_COMMIT, sd[q], aux_of(ins, q) + transcript_of(gates, party(t, q))));
    assert forall|j: int| 0 <= j < c.outputs@.len() implies {
        let o = #[trigger] c.outputs@[j] as int;
        &&& vals(cm.output_shares@[pp]@)[j] == pw[o].0
        &&& vals(cm.output_shares@[q]@)[j] == pw[o].1
        &&& fe(pw[o].0 + pw[o].1 + vals(cm.output_shares@[u]@)[j]) == public[j]
    } by {
        let o = c.outputs@[j] as int;
        assert(vals(cm.output_shares@[pp]@)[j] == party(t, pp)[o]);
        assert(vals(cm.output_shares@[q]@)[j] == party(t, q)[o]);
        assert(vals(cm.output_shares@[u]@)[j] == party(t, u)[o]);
        assert(sum3(t[o]) == wire_values(gates, w)[o]);
        assert(public[j] == wire_values(gates, w)[o]);
    }
}

/// Backends with the same hasher and a prefix of the same values give the
/// same shares of every wire.
proof fn lemma_triple_congruent<H: NativeHasher>(
    b1: NativeBackend<H>,
    b2: NativeBackend<H>,
    sd: Seq<Seq<int>>,
    gates: Seq<Gate>,
    ins: Seq<(int, int, int)>,
)
    requires
        b1.hasher == b2.hasher,
        vals(b1.hasher_prefix@) == vals(b2.hasher_prefix@),
    ensures
        triple_wires(b1, sd, gates, ins) == triple_wires(b2, sd, gates, ins),
    decreases gates.len(),
{
    if gates.len() > 0 {
        lemma_triple_congruent(b1, b2, sd, gates.drop_last(), ins);
    }
}

/// An honest proof made with one backend is an honest proof for every
/// backend with the same hasher and a prefix of the same values.
proof fn lemma_honest_congruent<H: NativeHasher>(
    b1: NativeBackend<H>,
    b2: NativeBackend<H>,
    c: Circuit,
    w: Seq<int>,
    seeds: Seq<Vec<Fp>>,
    public: Seq<int>,
    secpar: nat,
    pf: Proof,
)
    requires
        b1.hasher == b2.hasher,
        vals(b1.hasher_prefix@) == vals(b2.hasher_prefix@),
        honest_proof(b1, c, w, seeds, public, secpar, pf),
    ensures
        honest_proof(b2, c, w, seeds, public, secpar, pf),
{
    assert(digest(b1, pf.committed.reps@, public) == digest(b2, pf.committed.reps@, public));
    assert forall|r: int| 0 <= r < crate::engine::reps_for(secpar) implies {
        let e = trit(b2, digest(b2, pf.committed.reps@, public), r);
        &&& honest_committed(b2, c, w, rep_seeds(seeds, r), #[trigger] pf.committed.reps@[r])
        &&& honest_view(b2, c, w, rep_seeds(seeds, r), e, pf.openings@[r].first)
        &&& honest_view(b2, c, w, rep_seeds(seeds, r), next(e), pf.openings@[r].second)
    } by {
        let sd = rep_seeds(seeds, r);
        assert(honest_ins(b1, sd, w) =~= honest_ins(b2, sd, w));
        lemma_triple_congruent(b1, b2, sd, c.gates@, honest_ins(b1, sd, w));
        assert(trit(b1, digest(b1, pf.committed.reps@, public), r) == trit(
            b2,
            digest(b2, pf.committed.reps@, public),
            r,
        ));
        assert(honest_committed(b1, c, w, sd, pf.committed.reps@[r]));
    }
}

/// Completeness: a proof that `prove` produced honestly, for a witness on
/// which the circuit outputs the claimed values, is accepted by a verifier
/// whose backend has the prover's hasher and a prefix of the same values
/// (as two calls of `new` on one prefix give), for every choice of seeds and
/// every repetition count.
pub proof fn lemma_completeness<H: NativeHasher>(
    bp: NativeBackend<H>,
    bv: NativeBackend<H>,
    c: Circuit,
    witness: Seq<Fp>,
    seeds: Seq<Vec<Fp>>,
    public: Seq<Fp>,
    secpar: nat,
    pf: Proof,
)
    requires
        c.wf(),
        witness.len() == c.n_inputs,
        c.output_values(vals(witness)) == vals(public),
        honest_proof(bp, c, vals(witness), seeds, vals(public), secpar, pf),
        bv.hasher == bp.hasher,
        vals(bv.hasher_prefix@) == vals(bp.hasher_prefix@),
    ensures
        accepts(bv, c, vals(public), pf),
{
    let b = bv;
    let w = vals(witness);
    lemma_honest_congruent(bp, bv, c, w, seeds, vals(public), secpar, pf);
    assert forall|k: int| 0 <= k < w.len() implies 0 <= #[trigger] w[k] < p() by {
        vstd::arithmetic::div_mod::lemma_mod_bound(witness[k].repr as int, p());
    }
    let d = digest(b, pf.committed.reps@, vals(public));
    assert forall|r: int| 0 <= r < pf.committed.reps@.len() implies rep_ok(
        b,
        c,
        vals(public),
        #[trigger] pf.committed.reps@[r],
        pf.openings@[r],
        trit(b, d, r),
    ) by {
        let e = trit(b, d, r);
        assert(honest_committed(b, c, w, rep_seeds(seeds, r), pf.committed.reps@[r]));
        lemma_rep_complete(b, c, w, rep_seeds(seeds, r), pf.committed.reps@[r], pf.openings@[r], e);
    }
}

/// A proof that `prove` produced honestly from a witness on which the
/// circuit does not output the claimed values is rejected, whatever the
/// seeds, as soon as there is one repetition.
pub proof fn lemma_forged_rejected<H: NativeHasher>(
    b: NativeBackend<H>,
    c: Circuit,
    witness: Seq<Fp>,
    seeds: Seq<Vec<Fp>>,
    public: Seq<Fp>,
    secpar: nat,
    pf: Proof,
)
    requires
        c.wf(),
        witness.len() == c.n_inputs,
        public.len() == c.outputs@.len(),
        c.output_values(vals(witness)) != vals(public),
        honest_proof(b, c, vals(witness), seeds, vals(public), secpar, pf),
        crate::engine::reps_for(secpar) >= 1,
    ensures
        !accepts(b, c, vals(public), pf),
{
    let w = vals(witness);
    let ov = c.output_values(w);
    let pv = vals(public);
    assert forall|k: int| 0 <= k < w.len() implies 0 <= #[trigger] w[k] < p() by {
        vstd::arithmetic::div_mod::lemma_mod_bound(witness[k].repr as int, p());
    }
    let d = digest(b, pf.committed.reps@, pv);
    let e = trit(b, d, 0);
    let cm = pf.committed.reps@[0];
    let op = pf.openings@[0];
    assert(honest_committed(b, c, w, rep_seeds(seeds, 0), cm));
    lemma_rep_complete(b, c, w, rep_seeds(seeds, 0), cm, op, e);
    if rep_ok(b, c, pv, cm, op, e) {
        assert forall|j: int| 0 <= j < ov.len() implies ov[j] == pv[j] by {
            assert(ov[j] == wire_values(c.gates@, w)[c.outputs@[j] as int]);
        }
        assert(ov =~= pv);
    }
}

/// Tampering with the transcript of the first opened view of any repetition
/// of an accepted proof, and with nothing else, makes the proof rejected:
/// the verifier recomputes that transcript exactly.
pub proof fn lemma_first_transcript_tamper<H: NativeHasher>(
    b: NativeBackend<H>,
    c: Circuit,
    public: Seq<int>,
    pf: Proof,
    forged: Proof,
    r: int,
)
    requires
        accepts(b, c, public, pf),
        forged.committed == pf.committed,
        forged.openings@.len() == pf.openings@.len(),
        pf.openings@.len() == pf.committed.reps@.len(),
        0 <= r < pf.openings@.len(),
        forged.openings@[r].second == pf.openings@[r].second,
        forged.openings@[r].first.seed == pf.openings@[r].first.seed,
        forged.openings@[r].first.aux == pf.openings@[r].first.aux,
        vals(forged.openings@[r].first.transcript@) != vals(pf.openings@[r].first.transcript@),
    ensures
        !accepts(b, c, public, forged),
{
    let d = digest(b, pf.committed.reps@, public);
    assert(rep_ok(b, c, public, pf.committed.reps@[r], pf.openings@[r], trit(b, d, r)));
    assert(forged.committed.reps@[r] == pf.committed.reps@[r]);
}

} // verus!
