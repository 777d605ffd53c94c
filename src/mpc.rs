//! Three-party evaluation of a circuit on additive shares. Party `i` holds
//! one share of every wire; linear gates are computed locally, and at a
//! multiplication gate party `i` also uses the shares and the pad of party
//! `next(i)`. Pads cancel in the sum, so the three shares of every wire add
//! up to its plaintext value.
use crate::circuit::{gate_ok, gates_ok, gate_value, wire_values, lemma_wire_values_len, Gate};
use crate::field::{fadd, fe, fmul, fneg, fsub, p, vals, Fp, MODULUS};
use crate::native::{NativeBackend, NativeError, NativeHasher};
use vstd::arithmetic::div_mod::{lemma_add_mod_noop, lemma_mod_twice, lemma_small_mod, lemma_mul_mod_noop_general, lemma_sub_mod_noop};
use vstd::prelude::*;

verus! {

/// The party whose shares party `i` reads at a multiplication gate.
pub open spec fn next(i: int) -> int {
    if i == 2 {
        0
    } else {
        i + 1
    }
}

/// Party `i`'s component of a share triple.
pub open spec fn comp(t: (int, int, int), i: int) -> int {
    if i == 0 {
        t.0
    } else if i == 1 {
        t.1
    } else {
        t.2
    }
}

/// Party `i`'s output at a multiplication gate of operands `x` and `y`, from
/// its own shares, those of the next party, and both parties' pads.
pub open spec fn mul_share(xi: int, yi: int, xj: int, yj: int, ri: int, rj: int) -> int {
    fe(xi * yi + xj * yi + xi * yj + ri - rj)
}

/// The pad that the party with seed `seed` injects at gate `g`.
pub open spec fn pad_of<H: NativeHasher>(b: NativeBackend<H>, seed: Seq<int>, g: int) -> int {
    b.mul_pad_spec(seed, seq![fe(g)])
}

/// The share triple of gate `gt` standing at index `g`.
pub open spec fn triple_gate<H: NativeHasher>(
    b: NativeBackend<H>,
    seeds: Seq<Seq<int>>,
    gt: Gate,
    g: int,
    prev: Seq<(int, int, int)>,
    ins: Seq<(int, int, int)>,
) -> (int, int, int) {
    match gt {
        Gate::Input(k) => ins[k as int],
        Gate::Constant(c) => (c@, 0, 0),
        Gate::Add(a, c) => {
            let (x, y) = (prev[a as int], prev[c as int]);
            (fadd(x.0, y.0), fadd(x.1, y.1), fadd(x.2, y.2))
        },
        Gate::Sub(a, c) => {
            let (x, y) = (prev[a as int], prev[c as int]);
            (fsub(x.0, y.0), fsub(x.1, y.1), fsub(x.2, y.2))
        },
        Gate::Neg(a) => {
            let x = prev[a as int];
            (fneg(x.0), fneg(x.1), fneg(x.2))
        },
        Gate::Mul(a, c) => {
            let (x, y) = (prev[a as int], prev[c as int]);
            let r0 = pad_of(b, seeds[0], g);
            let r1 = pad_of(b, seeds[1], g);
            let r2 = pad_of(b, seeds[2], g);
            (
                mul_share(x.0, y.0, x.1, y.1, r0, r1),
                mul_share(x.1, y.1, x.2, y.2, r1, r2),
                mul_share(x.2, y.2, x.0, y.0, r2, r0),
            )
        },
    }
}

/// The share triple of every wire, given the input shares `ins`.
pub open spec fn triple_wires<H: NativeHasher>(
    b: NativeBackend<H>,
    seeds: Seq<Seq<int>>,
    gates: Seq<Gate>,
    ins: Seq<(int, int, int)>,
) -> Seq<(int, int, int)>
    decreases gates.len(),
{
    if gates.len() == 0 {
        seq![]
    } else {
        let prev = triple_wires(b, seeds, gates.drop_last(), ins);
        prev.push(triple_gate(b, seeds, gates.last(), gates.len() - 1, prev, ins))
    }
}

/// The value that three shares stand for.
pub open spec fn sum3(t: (int, int, int)) -> int {
    fe(t.0 + t.1 + t.2)
}

proof fn lemma_fe_sum3(x: int, y: int, z: int)
    ensures
        fe(fe(x) + fe(y) + fe(z)) == fe(x + y + z),
{
    lemma_add_mod_noop(x, y, p());
    lemma_add_mod_noop(x + y, z, p());
    lemma_add_mod_noop(fe(x) + fe(y), z, p());
    lemma_mod_twice(x + y, p());
    lemma_add_mod_noop(fe(x) + fe(y), fe(z), p());
    lemma_mod_twice(z, p());
}

/// Adding three field values one after the other gives their sum.
pub proof fn lemma_fe_sum3_pub(x: int, y: int, z: int)
    ensures
        fadd(fadd(x, y), z) == fe(x + y + z),
{
    lemma_add_mod_noop(x + y, z, p());
    lemma_mod_twice(x + y, p());
    lemma_mod_twice(z, p());
    lemma_add_mod_noop(fe(x + y), z, p());
    lemma_mod_twice(fe(x + y) + z, p());
}

proof fn lemma_sum_gate<H: NativeHasher>(
    b: NativeBackend<H>,
    seeds: Seq<Seq<int>>,
    gt: Gate,
    g: int,
    prev: Seq<(int, int, int)>,
    vprev: Seq<int>,
    ins: Seq<(int, int, int)>,
    w: Seq<int>,
)
    requires
        gate_ok(gt, g, w.len() as int),
        prev.len() == g,
        vprev.len() == g,
        ins.len() == w.len(),
        forall|j: int| 0 <= j < g ==> sum3(#[trigger] prev[j]) == vprev[j],
        forall|k: int| 0 <= k < w.len() ==> sum3(#[trigger] ins[k]) == w[k],
    ensures
        sum3(triple_gate(b, seeds, gt, g, prev, ins)) == gate_value(gt, vprev, w),
{
    match gt {
        Gate::Input(k) => {},
        Gate::Constant(c) => {
            lemma_mod_twice(c.repr as int, p());
        },
        Gate::Add(a, c) => {
            let (x, y) = (prev[a as int], prev[c as int]);
            assert(sum3(x) == vprev[a as int]);
            assert(sum3(y) == vprev[c as int]);
            lemma_fe_sum3(x.0 + y.0, x.1 + y.1, x.2 + y.2);
            lemma_add_mod_noop(x.0 + x.1 + x.2, y.0 + y.1 + y.2, p());
        },
        Gate::Sub(a, c) => {
            let (x, y) = (prev[a as int], prev[c as int]);
            assert(sum3(x) == vprev[a as int]);
            assert(sum3(y) == vprev[c as int]);
            lemma_fe_sum3(x.0 - y.0, x.1 - y.1, x.2 - y.2);
            lemma_sub_mod_noop(x.0 + x.1 + x.2, y.0 + y.1 + y.2, p());
        },
        Gate::Neg(a) => {
            let x = prev[a as int];
            assert(sum3(x) == vprev[a as int]);
            lemma_fe_sum3(-x.0, -x.1, -x.2);
            lemma_sub_mod_noop(0, x.0 + x.1 + x.2, p());
        },
        Gate::Mul(a, c) => {
            let (x, y) = (prev[a as int], prev[c as int]);
            assert(sum3(x) == vprev[a as int]);
            assert(sum3(y) == vprev[c as int]);
            let r0 = pad_of(b, seeds[0], g);
            let r1 = pad_of(b, seeds[1], g);
            let r2 = pad_of(b, seeds[2], g);
            let m0 = x.0 * y.0 + x.1 * y.0 + x.0 * y.1 + r0 - r1;
            let m1 = x.1 * y.1 + x.2 * y.1 + x.1 * y.2 + r1 - r2;
            let m2 = x.2 * y.2 + x.0 * y.2 + x.2 * y.0 + r2 - r0;
            lemma_fe_sum3(m0, m1, m2);
            let (x0, x1, x2, y0, y1, y2) = (x.0, x.1, x.2, y.0, y.1, y.2);
            assert(m0 + m1 + m2 == (x0 + x1 + x2) * (y0 + y1 + y2)) by (nonlinear_arith)
                requires
                    m0 == x0 * y0 + x1 * y0 + x0 * y1 + r0 - r1,
                    m1 == x1 * y1 + x2 * y1 + x1 * y2 + r1 - r2,
                    m2 == x2 * y2 + x0 * y2 + x2 * y0 + r2 - r0,
            ;
            lemma_mul_mod_noop_general(x.0 + x.1 + x.2, y.0 + y.1 + y.2, p());
        },
    }
}

/// The share-sum invariant: on input shares that add up to the witness, the
/// three parties' shares of every wire add up to that wire's plaintext value,
/// whatever the seeds and the pads.
pub proof fn lemma_share_sum<H: NativeHasher>(
    b: NativeBackend<H>,
    seeds: Seq<Seq<int>>,
    gates: Seq<Gate>,
    ins: Seq<(int, int, int)>,
    w: Seq<int>,
)
    requires
        gates_ok(gates, w.len() as int),
        ins.len() == w.len(),
        forall|k: int| 0 <= k < w.len() ==> sum3(#[trigger] ins[k]) == w[k],
    ensures
        triple_wires(b, seeds, gates, ins).len() == gates.len(),
        forall|j: int|
            0 <= j < gates.len() ==> sum3(#[trigger] triple_wires(b, seeds, gates, ins)[j])
                == wire_values(gates, w)[j],
    decreases gates.len(),
{
    lemma_wire_values_len(gates, w);
    if gates.len() > 0 {
        let pre = gates.drop_last();
        assert(gates_ok(pre, w.len() as int)) by {
            assert forall|i: int| 0 <= i < pre.len() implies gate_ok(#[trigger] pre[i], i, w.len() as int) by {
                assert(pre[i] == gates[i]);
            }
        }
        lemma_share_sum(b, seeds, pre, ins, w);
        lemma_wire_values_len(pre, w);
        let prev = triple_wires(b, seeds, pre, ins);
        let vprev = wire_values(pre, w);
        assert(gate_ok(gates[gates.len() - 1], gates.len() - 1, w.len() as int));
        lemma_sum_gate(b, seeds, gates.last(), gates.len() - 1, prev, vprev, ins, w);
    }
}

/// The number of multiplication gates.
pub open spec fn n_muls(gates: Seq<Gate>) -> nat
    decreases gates.len(),
{
    if gates.len() == 0 {
        0
    } else {
        n_muls(gates.drop_last()) + if gates.last() is Mul {
            1nat
        } else {
            0nat
        }
    }
}

/// A party's transcript: its shares at the multiplication gates, in order,
/// where `ws` holds its share of every wire.
pub open spec fn transcript_of(gates: Seq<Gate>, ws: Seq<int>) -> Seq<int>
    decreases gates.len(),
{
    if gates.len() == 0 {
        seq![]
    } else {
        transcript_of(gates.drop_last(), ws.drop_last()) + if gates.last() is Mul {
            seq![ws.last()]
        } else {
            seq![]
        }
    }
}

/// Party `i`'s share of every wire.
pub open spec fn party(t: Seq<(int, int, int)>, i: int) -> Seq<int> {
    t.map_values(|x: (int, int, int)| comp(x, i))
}

/// The shares of parties `pp` and `next(pp)` at gate `gt` standing at index
/// `g`, replayed from their seeds, their input shares `ins`, and the
/// transcript `trq` of the second party; `mc` multiplication gates precede.
pub open spec fn pair_gate<H: NativeHasher>(
    b: NativeBackend<H>,
    sp: Seq<int>,
    sq: Seq<int>,
    pp: int,
    gt: Gate,
    g: int,
    prev: Seq<(int, int)>,
    ins: Seq<(int, int)>,
    trq: Seq<int>,
    mc: int,
) -> (int, int) {
    match gt {
        Gate::Input(k) => ins[k as int],
        Gate::Constant(c) => (
            if pp == 0 {
                c@
            } else {
                0
            },
            if next(pp) == 0 {
                c@
            } else {
                0
            },
        ),
        Gate::Add(a, c) => {
            let (x, y) = (prev[a as int], prev[c as int]);
            (fadd(x.0, y.0), fadd(x.1, y.1))
        },
        Gate::Sub(a, c) => {
            let (x, y) = (prev[a as int], prev[c as int]);
            (fsub(x.0, y.0), fsub(x.1, y.1))
        },
        Gate::Neg(a) => {
            let x = prev[a as int];
            (fneg(x.0), fneg(x.1))
        },
        Gate::Mul(a, c) => {
            let (x, y) = (prev[a as int], prev[c as int]);
            (mul_share(x.0, y.0, x.1, y.1, pad_of(b, sp, g), pad_of(b, sq, g)), trq[mc])
        },
    }
}

/// The shares of parties `pp` and `next(pp)` of every wire, as a verifier
/// replays them.
pub open spec fn pair_wires<H: NativeHasher>(
    b: NativeBackend<H>,
    sp: Seq<int>,
    sq: Seq<int>,
    pp: int,
    gates: Seq<Gate>,
    ins: Seq<(int, int)>,
    trq: Seq<int>,
) -> Seq<(int, int)>
    decreases gates.len(),
{
    if gates.len() == 0 {
        seq![]
    } else {
        let prev = pair_wires(b, sp, sq, pp, gates.drop_last(), ins, trq);
        prev.push(
            pair_gate(
                b,
                sp,
                sq,
                pp,
                gates.last(),
                gates.len() - 1,
                prev,
                ins,
                trq,
                n_muls(gates.drop_last()) as int,
            ),
        )
    }
}

/// The first components of a sequence of pairs.
pub open spec fn firsts(t: Seq<(int, int)>) -> Seq<int> {
    t.map_values(|x: (int, int)| x.0)
}

proof fn lemma_mul_share_nested(xi: int, yi: int, xj: int, yj: int, ri: int, rj: int)
    ensures
        fsub(fadd(fadd(fadd(fmul(xi, yi), fmul(xj, yi)), fmul(xi, yj)), fe(ri)), fe(rj))
            == mul_share(xi, yi, xj, yj, ri, rj),
{
    lemma_add_mod_noop(xi * yi, xj * yi, p());
    lemma_add_mod_noop(xi * yi + xj * yi, xi * yj, p());
    lemma_mod_twice(xi * yi + xj * yi, p());
    lemma_add_mod_noop(xi * yi + xj * yi + xi * yj, ri, p());
    lemma_mod_twice(xi * yi + xj * yi + xi * yj, p());
    lemma_mod_twice(ri, p());
    lemma_sub_mod_noop(xi * yi + xj * yi + xi * yj + ri, rj, p());
    lemma_mod_twice(xi * yi + xj * yi + xi * yj + ri, p());
    lemma_mod_twice(rj, p());
}

/// Computes `mul_share` on field elements.
fn mul_share_exec(xi: Fp, yi: Fp, xj: Fp, yj: Fp, ri: Fp, rj: Fp) -> (r: Fp)
    ensures
        r@ == mul_share(xi@, yi@, xj@, yj@, ri@, rj@),
{
    proof {
        lemma_mul_share_nested(xi@, yi@, xj@, yj@, ri@, rj@);
        lemma_mod_twice(ri.repr as int, p());
        lemma_mod_twice(rj.repr as int, p());
    }
    xi.mul(&yi).add(&xj.mul(&yi)).add(&xi.mul(&yj)).add(&ri).sub(&rj)
}

/// The pad of the party with seed `seed` at gate `g`.
fn pad_exec<H: NativeHasher>(b: &mut NativeBackend<H>, seed: &[Fp], g: usize) -> (r: Result<
    Fp,
    NativeError,
>)
    ensures
        r matches Ok(v) ==> v@ == pad_of(*old(b), vals(seed@), g as int),
        old(b).hasher.total() ==> r is Ok,
        *final(b) == *old(b),
{
    let tag: Vec<Fp> = vec![Fp::from_u64(g as u64)];
    proof {
        assert(vals(tag@) =~= seq![fe(g as int)]);
    }
    b.hash_mul_pad(seed, tag.as_slice())
}

pub open spec fn zip3(a: Seq<int>, b: Seq<int>, c: Seq<int>) -> Seq<(int, int, int)> {
    Seq::new(a.len(), |k: int| (a[k], b[k], c[k]))
}

pub open spec fn zip2(a: Seq<int>, b: Seq<int>) -> Seq<(int, int)> {
    Seq::new(a.len(), |k: int| (a[k], b[k]))
}

/// One party's run over a circuit: its share of every wire, and its transcript.
pub struct PartyRun {
    pub wires: Vec<Fp>,
    pub transcript: Vec<Fp>,
}

/// Adds the wire share `v` of gate `gt` to a run.
fn extend_run(run: &mut PartyRun, gt: Gate, v: Fp, Ghost(gates): Ghost<Seq<Gate>>)
    requires
        gates.len() == old(run).wires@.len() + 1,
        gates.last() == gt,
        vals(old(run).transcript@) == transcript_of(gates.drop_last(), vals(old(run).wires@)),
    ensures
        final(run).wires@ == old(run).wires@.push(v),
        vals(final(run).transcript@) == transcript_of(gates, vals(final(run).wires@)),
{
    let ghost before = vals(run.wires@);
    let ghost tbefore = vals(run.transcript@);
    run.wires.push(v);
    if matches!(gt, Gate::Mul(_, _)) {
        run.transcript.push(v);
        proof {
            assert(vals(run.transcript@) =~= tbefore + seq![v@]);
        }
    } else {
        proof {
            assert(vals(run.transcript@) =~= tbefore + Seq::<int>::empty());
        }
    }
    proof {
        assert(vals(run.wires@).drop_last() =~= before);
    }
}

/// Runs the three parties over the gates, from their seeds and input shares.
pub fn eval_triple<H: NativeHasher>(
    b: &mut NativeBackend<H>,
    gates: &Vec<Gate>,
    n_inputs: usize,
    seeds: &Vec<Vec<Fp>>,
    ins0: &Vec<Fp>,
    ins1: &Vec<Fp>,
    ins2: &Vec<Fp>,
) -> (r: Result<(PartyRun, PartyRun, PartyRun), NativeError>)
    requires
        gates_ok(gates@, n_inputs as int),
        seeds@.len() == 3,
        ins0@.len() == n_inputs,
        ins1@.len() == n_inputs,
        ins2@.len() == n_inputs,
    ensures
        r matches Ok((r0, r1, r2)) ==> {
            let t = triple_wires(
                *old(b),
                seq![vals(seeds@[0]@), vals(seeds@[1]@), vals(seeds@[2]@)],
                gates@,
                zip3(vals(ins0@), vals(ins1@), vals(ins2@)),
            );
            &&& t == zip3(vals(r0.wires@), vals(r1.wires@), vals(r2.wires@))
            &&& r0.wires@.len() == gates@.len()
            &&& r1.wires@.len() == gates@.len()
            &&& r2.wires@.len() == gates@.len()
            &&& vals(r0.transcript@) == transcript_of(gates@, vals(r0.wires@))
            &&& vals(r1.transcript@) == transcript_of(gates@, vals(r1.wires@))
            &&& vals(r2.transcript@) == transcript_of(gates@, vals(r2.wires@))
        },
        old(b).hasher.total() ==> r is Ok,
        *final(b) == *old(b),
{
    let ghost bb = *b;
    let ghost sd = seq![vals(seeds@[0]@), vals(seeds@[1]@), vals(seeds@[2]@)];
    let ghost ins = zip3(vals(ins0@), vals(ins1@), vals(ins2@));
    let mut r0 = PartyRun { wires: Vec::new(), transcript: Vec::new() };
    let mut r1 = PartyRun { wires: Vec::new(), transcript: Vec::new() };
    let mut r2 = PartyRun { wires: Vec::new(), transcript: Vec::new() };
    let mut i: usize = 0;
    proof {
        assert(gates@.take(0) =~= Seq::<Gate>::empty());
        assert(zip3(vals(r0.wires@), vals(r1.wires@), vals(r2.wires@)) =~= Seq::<(int, int, int)>::empty());
    }
    while i < gates.len()
        invariant
            gates_ok(gates@, n_inputs as int),
            seeds@.len() == 3,
            ins0@.len() == n_inputs,
            ins1@.len() == n_inputs,
            ins2@.len() == n_inputs,
            sd == seq![vals(seeds@[0]@), vals(seeds@[1]@), vals(seeds@[2]@)],
            ins == zip3(vals(ins0@), vals(ins1@), vals(ins2@)),
            *b == bb,
            bb == *old(b),
            i <= gates@.len(),
            r0.wires@.len() == i,
            r1.wires@.len() == i,
            r2.wires@.len() == i,
            triple_wires(bb, sd, gates@.take(i as int), ins) == zip3(vals(r0.wires@), vals(r1.wires@), vals(r2.wires@)),
            vals(r0.transcript@) == transcript_of(gates@.take(i as int), vals(r0.wires@)),
            vals(r1.transcript@) == transcript_of(gates@.take(i as int), vals(r1.wires@)),
            vals(r2.transcript@) == transcript_of(gates@.take(i as int), vals(r2.wires@)),
        decreases gates@.len() - i,
    {
        let ghost prev = zip3(vals(r0.wires@), vals(r1.wires@), vals(r2.wires@));
        let gt = gates[i];
        proof {
            assert(gate_ok(gates@[i as int], i as int, n_inputs as int));
        }
        let (v0, v1, v2) = match gt {
            Gate::Input(k) => (ins0[k], ins1[k], ins2[k]),
            Gate::Constant(c) => (c, Fp::zero(), Fp::zero()),
            Gate::Add(a, c) => (
                r0.wires[a].add(&r0.wires[c]),
                r1.wires[a].add(&r1.wires[c]),
                r2.wires[a].add(&r2.wires[c]),
            ),
            Gate::Sub(a, c) => (
                r0.wires[a].sub(&r0.wires[c]),
                r1.wires[a].sub(&r1.wires[c]),
                r2.wires[a].sub(&r2.wires[c]),
            ),
            Gate::Neg(a) => (r0.wires[a].neg(), r1.wires[a].neg(), r2.wires[a].neg()),
            Gate::Mul(a, c) => {
                let p0 = match pad_exec(b, seeds[0].as_slice(), i) {
                    Ok(v) => v,
                    Err(e) => {
                        return Err(e);
                    },
                };
                let p1 = match pad_exec(b, seeds[1].as_slice(), i) {
                    Ok(v) => v,
                    Err(e) => {
                        return Err(e);
                    },
                };
                let p2 = match pad_exec(b, seeds[2].as_slice(), i) {
                    Ok(v) => v,
                    Err(e) => {
                        return Err(e);
                    },
                };
                let (x0, x1, x2) = (r0.wires[a], r1.wires[a], r2.wires[a]);
                let (y0, y1, y2) = (r0.wires[c], r1.wires[c], r2.wires[c]);
                (
                    mul_share_exec(x0, y0, x1, y1, p0, p1),
                    mul_share_exec(x1, y1, x2, y2, p1, p2),
                    mul_share_exec(x2, y2, x0, y0, p2, p0),
                )
            },
        };
        proof {
            let t = gates@.take(i + 1);
            assert(t.drop_last() =~= gates@.take(i as int));
            assert(t.last() == gt);
            assert(triple_gate(bb, sd, gt, i as int, prev, ins) == (v0@, v1@, v2@));
        }
        extend_run(&mut r0, gt, v0, Ghost(gates@.take(i + 1)));
        extend_run(&mut r1, gt, v1, Ghost(gates@.take(i + 1)));
        extend_run(&mut r2, gt, v2, Ghost(gates@.take(i + 1)));
        i = i + 1;
        proof {
            assert(zip3(vals(r0.wires@), vals(r1.wires@), vals(r2.wires@)) =~= prev.push((v0@, v1@, v2@)));
        }
    }
    proof {
        assert(gates@.take(gates@.len() as int) =~= gates@);
    }
    Ok((r0, r1, r2))
}

/// A prefix of the gates has at most as many multiplications.
pub proof fn lemma_n_muls_take(gates: Seq<Gate>, i: int)
    requires
        0 <= i <= gates.len(),
    ensures
        n_muls(gates.take(i)) <= n_muls(gates),
    decreases gates.len(),
{
    if i == gates.len() {
        assert(gates.take(i) =~= gates);
    } else {
        assert(gates.drop_last().take(i) =~= gates.take(i));
        lemma_n_muls_take(gates.drop_last(), i);
    }
}

/// Replays parties `pp` and `next(pp)` over the gates, from their seeds and
/// input shares, taking the second party's multiplication shares from its
/// transcript `trq`. Returns the first party's run and the second's wires.
pub fn eval_pair<H: NativeHasher>(
    b: &mut NativeBackend<H>,
    gates: &Vec<Gate>,
    n_inputs: usize,
    pp: usize,
    sp: &Vec<Fp>,
    sq: &Vec<Fp>,
    insp: &Vec<Fp>,
    insq: &Vec<Fp>,
    trq: &Vec<Fp>,
) -> (r: Result<(PartyRun, Vec<Fp>), NativeError>)
    requires
        gates_ok(gates@, n_inputs as int),
        pp < 3,
        insp@.len() == n_inputs,
        insq@.len() == n_inputs,
        trq@.len() == n_muls(gates@),
    ensures
        r matches Ok((rp, wq)) ==> {
            &&& pair_wires(
                *old(b),
                vals(sp@),
                vals(sq@),
                pp as int,
                gates@,
                zip2(vals(insp@), vals(insq@)),
                vals(trq@),
            ) == zip2(vals(rp.wires@), vals(wq@))
            &&& rp.wires@.len() == gates@.len()
            &&& wq@.len() == gates@.len()
            &&& vals(rp.transcript@) == transcript_of(gates@, vals(rp.wires@))
        },
        old(b).hasher.total() ==> r is Ok,
        *final(b) == *old(b),
{
    let ghost bb = *b;
    let ghost ins = zip2(vals(insp@), vals(insq@));
    let mut rp = PartyRun { wires: Vec::new(), transcript: Vec::new() };
    let mut wq: Vec<Fp> = Vec::new();
    let mut mc: usize = 0;
    let mut i: usize = 0;
    proof {
        assert(gates@.take(0) =~= Seq::<Gate>::empty());
        assert(zip2(vals(rp.wires@), vals(wq@)) =~= Seq::<(int, int)>::empty());
    }
    while i < gates.len()
        invariant
            gates_ok(gates@, n_inputs as int),
            pp < 3,
            insp@.len() == n_inputs,
            insq@.len() == n_inputs,
            trq@.len() == n_muls(gates@),
            ins == zip2(vals(insp@), vals(insq@)),
            *b == bb,
            bb == *old(b),
            i <= gates@.len(),
            mc == n_muls(gates@.take(i as int)),
            rp.wires@.len() == i,
            wq@.len() == i,
            pair_wires(bb, vals(sp@), vals(sq@), pp as int, gates@.take(i as int), ins, vals(trq@))
                == zip2(vals(rp.wires@), vals(wq@)),
            vals(rp.transcript@) == transcript_of(gates@.take(i as int), vals(rp.wires@)),
        decreases gates@.len() - i,
    {
        let ghost prev = zip2(vals(rp.wires@), vals(wq@));
        let gt = gates[i];
        proof {
            assert(gate_ok(gates@[i as int], i as int, n_inputs as int));
            let t = gates@.take(i + 1);
            assert(t.drop_last() =~= gates@.take(i as int));
            lemma_n_muls_take(gates@, i + 1);
        }
        let (vp, vq) = match gt {
            Gate::Input(k) => (insp[k], insq[k]),
            Gate::Constant(c) => (
                if pp == 0 {
                    c
                } else {
                    Fp::zero()
                },
                if pp == 2 {
                    c
                } else {
                    Fp::zero()
                },
            ),
            Gate::Add(a, c) => (rp.wires[a].add(&rp.wires[c]), wq[a].add(&wq[c])),
            Gate::Sub(a, c) => (rp.wires[a].sub(&rp.wires[c]), wq[a].sub(&wq[c])),
            Gate::Neg(a) => (rp.wires[a].neg(), wq[a].neg()),
            Gate::Mul(a, c) => {
                let padp = match pad_exec(b, sp.as_slice(), i) {
                    Ok(v) => v,
                    Err(e) => {
                        return Err(e);
                    },
                };
                let padq = match pad_exec(b, sq.as_slice(), i) {
                    Ok(v) => v,
                    Err(e) => {
                        return Err(e);
                    },
                };
                let v = mul_share_exec(rp.wires[a], rp.wires[c], wq[a], wq[c], padp, padq);
                proof {
                    let t = gates@.take(i + 1);
                    assert(t.last() is Mul);
                    assert(n_muls(t) == n_muls(t.drop_last()) + 1);
                    assert(n_muls(t) <= n_muls(gates@));
                    assert(mc + 1 <= trq@.len());
                }
                let m = trq[mc];
                let n = trq.len();
                proof {
                    assert(mc + 1 <= n);
                }
                mc = mc + 1;
                (v, m)
            },
        };
        proof {
            let t = gates@.take(i + 1);
            assert(t.last() == gt);
            assert(pair_gate(bb, vals(sp@), vals(sq@), pp as int, gt, i as int, prev, ins, vals(trq@), n_muls(gates@.take(i as int)) as int) == (vp@, vq@));
        }
        extend_run(&mut rp, gt, vp, Ghost(gates@.take(i + 1)));
        wq.push(vq);
        proof {
            let t = gates@.take(i + 1);
            if !(gt is Mul) {
                assert(n_muls(t) == n_muls(t.drop_last()));
            }
        }
        i = i + 1;
        proof {
            assert(zip2(vals(rp.wires@), vals(wq@)) =~= prev.push((vp@, vq@)));
        }
    }
    proof {
        assert(gates@.take(gates@.len() as int) =~= gates@);
    }
    Ok((rp, wq))
}

} // verus!
