use mpc_zk::circuit::{evaluate, Circuit, CircuitBuilder};
use mpc_zk::engine::{prove, repetitions, Proof, ProofError};
use mpc_zk::field::{Fp, MODULUS};
use mpc_zk::mpc::{eval_pair, eval_triple};
use mpc_zk::native::{NativeBackend, NativeError, NativeHasher};
use mpc_zk::sponge::SpongeHasher;

fn fp(x: u64) -> Fp {
    Fp::from_u64(x)
}

fn backend() -> NativeBackend<SpongeHasher> {
    match NativeBackend::<SpongeHasher>::new(vec![fp(7), fp(11)]) {
        Ok(b) => b,
        Err(_) => panic!("backend construction failed"),
    }
}

/// A small linear congruential generator for test seeds.
struct Lcg(u64);

impl Lcg {
    fn next(&mut self) -> u64 {
        self.0 = self.0.wrapping_mul(6364136223846793005).wrapping_add(1442695040888963407);
        self.0 >> 33
    }
}

fn seeds_for(secpar: u32, gen: &mut Lcg) -> Vec<Vec<Fp>> {
    let n = repetitions(secpar) as usize * 3;
    (0..n).map(|_| vec![fp(gen.next()), fp(gen.next())]).collect()
}

fn square_circuit() -> Circuit {
    let mut b = CircuitBuilder::new();
    let x = b.inputs(1);
    let y = b.mul(x[0], x[0]);
    b.output(vec![y])
}

fn sum3_circuit() -> Circuit {
    let mut b = CircuitBuilder::new();
    let x = b.inputs(3);
    let s = b.add(x[0], x[1]);
    let t = b.add(s, x[2]);
    b.output(vec![t])
}

fn prove_and_verify(c: &Circuit, secpar: u32, witness: &[u64], public: &[u64], gen: &mut Lcg) -> bool {
    let mut b = backend();
    let seeds = seeds_for(secpar, gen);
    let w: Vec<Fp> = witness.iter().map(|&x| fp(x)).collect();
    let p: Vec<Fp> = public.iter().map(|&x| fp(x)).collect();
    let pf = prove(&mut b, secpar, &seeds, c, &w, &p).expect("prove");
    pf.verify(&mut b, secpar, c, &p).expect("verify")
}

#[test]
fn field_arithmetic_reduces() {
    let a = fp(MODULUS - 1);
    let b = fp(2);
    assert_eq!(a.add(&b).value(), 1);
    assert_eq!(b.sub(&a).value(), 3);
    assert_eq!(a.mul(&a).value(), 1);
    assert_eq!(fp(5).neg().value(), MODULUS - 5);
    assert_eq!(fp(MODULUS + 4).value(), 4);
    assert!(fp(MODULUS).equals(&Fp::zero()));
    assert_eq!(Fp::one().value(), 1);
    assert_eq!(Fp::from_u32(9).value(), 9);
}

#[test]
fn native_backend_gate_operations() {
    let mut b = backend();
    assert_eq!(b.add(&fp(3), &fp(4)).unwrap().value(), 7);
    assert_eq!(b.sub(&fp(3), &fp(4)).unwrap().value(), MODULUS - 1);
    assert_eq!(b.mul(&fp(3), &fp(4)).unwrap().value(), 12);
    assert_eq!(b.neg(&fp(3)).unwrap().value(), MODULUS - 3);
    assert_eq!(b.eq(&fp(3), &fp(MODULUS + 3)).unwrap().value(), 1);
    assert_eq!(b.eq(&fp(3), &fp(4)).unwrap().value(), 0);
    assert_eq!(b.constant(&fp(42)).unwrap().value(), 42);
    assert!(b.load_value(&fp(1)).is_ok());
    assert!(b.expose_value(&fp(1)).is_ok());
}

#[test]
fn hash_roles_are_deterministic() {
    let mut b1 = backend();
    let mut b2 = backend();
    let seed = vec![fp(1), fp(2)];
    let input = vec![fp(3), fp(4), fp(5)];
    assert_eq!(
        b1.hash_input_share(&seed, 4).unwrap().value(),
        b2.hash_input_share(&seed, 4).unwrap().value()
    );
    assert_eq!(
        b1.hash_mul_pad(&seed, &input).unwrap().value(),
        b2.hash_mul_pad(&seed, &input).unwrap().value()
    );
    let c1: Vec<u64> = b1.hash_commit(&seed, &input).unwrap().iter().map(|x| x.value()).collect();
    let c2: Vec<u64> = b2.hash_commit(&seed, &input).unwrap().iter().map(|x| x.value()).collect();
    assert_eq!(c1, c2);
    let h1: Vec<u64> = b1.hash_challenge(&input).unwrap().iter().map(|x| x.value()).collect();
    let h2: Vec<u64> = b1.hash_challenge(&input).unwrap().iter().map(|x| x.value()).collect();
    assert_eq!(h1, h2);
    let t1: Vec<u64> = b1.hash_each_transcript(&input).unwrap().iter().map(|x| x.value()).collect();
    let t2: Vec<u64> = b2.hash_each_transcript(&input).unwrap().iter().map(|x| x.value()).collect();
    assert_eq!(t1, t2);
    assert_eq!(h1.len(), 2);
}

#[test]
fn hash_inputs_are_separated() {
    let mut b = backend();
    let seed = vec![fp(1), fp(2)];
    let s0 = b.hash_input_share(&seed, 0).unwrap().value();
    let s1 = b.hash_input_share(&seed, 1).unwrap().value();
    assert_ne!(s0, s1);
    let mut other = NativeBackend::<SpongeHasher>::new(vec![fp(8)]).unwrap();
    assert_ne!(other.hash_input_share(&seed, 0).unwrap().value(), s0);
    let h = SpongeHasher::new();
    let out = h.hash(&[fp(1)]).unwrap();
    assert_ne!(out[0].value(), 1);
}

#[test]
fn native_evaluation_of_square() {
    let c = square_circuit();
    let mut b = backend();
    let out = evaluate(&mut b, &c, &[fp(3)]).unwrap();
    assert_eq!(out.len(), 1);
    assert_eq!(out[0].value(), 9);
}

#[test]
fn native_evaluation_of_all_gates() {
    let mut bld = CircuitBuilder::new();
    let x = bld.inputs(2);
    let k = bld.constant(fp(10));
    let d = bld.sub(x[0], x[1]);
    let n = bld.neg(d);
    let m = bld.mul(n, k);
    let c = bld.output(vec![d, n, m]);
    let mut b = backend();
    let out = evaluate(&mut b, &c, &[fp(5), fp(7)]).unwrap();
    let vals: Vec<u64> = out.iter().map(|x| x.value()).collect();
    assert_eq!(vals, vec![MODULUS - 2, 2, 20]);
}

#[test]
fn square_scenario_accepts_and_rejects() {
    let c = square_circuit();
    let mut gen = Lcg(1);
    assert!(prove_and_verify(&c, 20, &[3], &[9], &mut gen));
    let mut b = backend();
    let seeds = seeds_for(20, &mut gen);
    let pf = prove(&mut b, 20, &seeds, &c, &vec![fp(3)], &vec![fp(9)]).unwrap();
    assert_eq!(pf.verify(&mut b, 20, &c, &vec![fp(8)]), Ok(false));
    assert!(!prove_and_verify(&c, 20, &[3], &[8], &mut gen));
}

#[test]
fn additive_scenario_round_trip() {
    let c = sum3_circuit();
    let mut gen = Lcg(2);
    assert!(prove_and_verify(&c, 10, &[1, 2, 3], &[6], &mut gen));
    assert!(prove_and_verify(&c, 10, &[MODULUS - 1, 4, 0], &[3], &mut gen));
    assert!(!prove_and_verify(&c, 10, &[1, 2, 4], &[6], &mut gen));
}

#[test]
fn completeness_over_many_seeds() {
    let mut bld = CircuitBuilder::new();
    let x = bld.inputs(2);
    let p = bld.mul(x[0], x[1]);
    let k = bld.constant(fp(5));
    let s = bld.add(p, k);
    let q = bld.mul(s, x[0]);
    let c = bld.output(vec![q, p]);
    let mut gen = Lcg(3);
    for secpar in 1..6u32 {
        for trial in 0..5u64 {
            let a = trial + 2;
            let b = 3 * trial + 1;
            assert!(prove_and_verify(&c, secpar, &[a, b], &[(a * b + 5) * a, a * b], &mut gen));
        }
    }
}

#[test]
fn forged_witness_never_accepted() {
    let c = square_circuit();
    let mut gen = Lcg(4);
    for _ in 0..1000 {
        assert!(!prove_and_verify(&c, 40, &[3 ^ 1], &[9], &mut gen));
    }
}

fn tamper_setup() -> (Circuit, Proof, NativeBackend<SpongeHasher>) {
    let c = square_circuit();
    let mut b = backend();
    let mut gen = Lcg(5);
    let seeds = seeds_for(8, &mut gen);
    let pf = prove(&mut b, 8, &seeds, &c, &vec![fp(3)], &vec![fp(9)]).unwrap();
    assert_eq!(pf.verify(&mut b, 8, &c, &vec![fp(9)]), Ok(true));
    (c, pf, b)
}

fn bump(x: &mut Fp) {
    *x = x.add(&Fp::one());
}

#[test]
fn tampered_commitment_rejected() {
    let (c, mut pf, mut b) = tamper_setup();
    bump(&mut pf.committed.reps[0].commitments[1][0]);
    assert_eq!(pf.verify(&mut b, 8, &c, &vec![fp(9)]), Ok(false));
}

#[test]
fn tampered_seed_rejected() {
    let (c, mut pf, mut b) = tamper_setup();
    bump(&mut pf.openings[2].first.seed[0]);
    assert_eq!(pf.verify(&mut b, 8, &c, &vec![fp(9)]), Ok(false));
    let (c, mut pf, mut b) = tamper_setup();
    bump(&mut pf.openings[2].second.seed[1]);
    assert_eq!(pf.verify(&mut b, 8, &c, &vec![fp(9)]), Ok(false));
}

#[test]
fn tampered_transcript_rejected() {
    let (c, mut pf, mut b) = tamper_setup();
    bump(&mut pf.openings[1].first.transcript[0]);
    assert_eq!(pf.verify(&mut b, 8, &c, &vec![fp(9)]), Ok(false));
    let (c, mut pf, mut b) = tamper_setup();
    bump(&mut pf.openings[1].second.transcript[0]);
    assert_eq!(pf.verify(&mut b, 8, &c, &vec![fp(9)]), Ok(false));
}

#[test]
fn tampered_output_share_rejected() {
    let (c, mut pf, mut b) = tamper_setup();
    bump(&mut pf.committed.reps[3].output_shares[2][0]);
    assert_eq!(pf.verify(&mut b, 8, &c, &vec![fp(9)]), Ok(false));
}

#[test]
fn structural_errors() {
    let (c, pf, mut b) = tamper_setup();
    assert_eq!(pf.verify(&mut b, 8, &c, &vec![fp(9), fp(1)]), Err(ProofError::OutputLength));
    assert_eq!(pf.verify(&mut b, 9, &c, &vec![fp(9)]), Err(ProofError::RepetitionCount));
    let mut bad = pf.clone();
    bad.committed.reps[0].commitments.pop();
    assert_eq!(bad.verify(&mut b, 8, &c, &vec![fp(9)]), Err(ProofError::Malformed));
    let seeds = seeds_for(8, &mut Lcg(6));
    assert_eq!(
        prove(&mut b, 8, &seeds, &c, &vec![fp(3), fp(4)], &vec![fp(9)]).err(),
        Some(ProofError::WitnessLength)
    );
    assert_eq!(prove(&mut b, 8, &seeds, &c, &vec![fp(3)], &vec![]).err(), Some(ProofError::OutputLength));
    assert_eq!(prove(&mut b, 9, &seeds, &c, &vec![fp(3)], &vec![fp(9)]).err(), Some(ProofError::SeedCount));
    let e = ProofError::Hash(NativeError::EmptyHashOutput);
    assert_ne!(e, ProofError::Malformed);
}

#[test]
fn repetition_formula() {
    assert_eq!(repetitions(0), 0);
    assert_eq!(repetitions(1), 2);
    assert_eq!(repetitions(20), 35);
    assert_eq!(repetitions(40), 69);
    assert_eq!(repetitions(128), 219);
}

#[test]
fn builder_handles_are_gate_indices() {
    let mut bld = CircuitBuilder::new();
    let x = bld.inputs(2);
    assert_eq!(x, vec![0, 1]);
    let y = bld.inputs(1);
    assert_eq!(y, vec![2]);
    assert_eq!(bld.add(0, 2), 3);
    let c = bld.output(vec![3]);
    assert_eq!(c.n_inputs, 3);
    assert_eq!(c.gates.len(), 4);
}

fn mixed_circuit() -> Circuit {
    let mut bld = CircuitBuilder::new();
    let x = bld.inputs(3);
    let m = bld.mul(x[0], x[1]);
    let k = bld.constant(fp(MODULUS - 4));
    let s = bld.add(m, k);
    let n = bld.neg(x[2]);
    let d = bld.sub(s, n);
    let q = bld.mul(d, m);
    let all: Vec<usize> = (0..=q).collect();
    bld.output(all)
}

#[test]
fn share_sum_matches_native() {
    let c = mixed_circuit();
    let mut b = backend();
    let witness = vec![fp(12345), fp(MODULUS - 7), fp(99)];
    let plain = evaluate(&mut b, &c, &witness).unwrap();
    let mut gen = Lcg(7);
    for _ in 0..10 {
        let seeds: Vec<Vec<Fp>> = (0..3).map(|_| vec![fp(gen.next())]).collect();
        let ins0: Vec<Fp> = (0..3).map(|k| b.hash_input_share(&seeds[0], k).unwrap()).collect();
        let ins1: Vec<Fp> = (0..3).map(|k| b.hash_input_share(&seeds[1], k).unwrap()).collect();
        let ins2: Vec<Fp> = (0..3).map(|k| witness[k].sub(&ins0[k]).sub(&ins1[k])).collect();
        let (r0, r1, r2) = eval_triple(&mut b, &c.gates, 3, &seeds, &ins0, &ins1, &ins2).unwrap();
        for g in 0..c.gates.len() {
            let sum = r0.wires[g].add(&r1.wires[g]).add(&r2.wires[g]);
            assert_eq!(sum.value(), plain[g].value());
        }
        assert_eq!(r0.transcript.len(), 2);
        let (rp, wq) = eval_pair(&mut b, &c.gates, 3, 2, &seeds[2], &seeds[0], &ins2, &ins0, &r0.transcript).unwrap();
        for g in 0..c.gates.len() {
            assert_eq!(rp.wires[g].value(), r2.wires[g].value());
            assert_eq!(wq[g].value(), r0.wires[g].value());
        }
        let t2: Vec<u64> = rp.transcript.iter().map(|x| x.value()).collect();
        let e2: Vec<u64> = r2.transcript.iter().map(|x| x.value()).collect();
        assert_eq!(t2, e2);
    }
}

#[test]
fn mixed_circuit_round_trip() {
    let c = mixed_circuit();
    let mut b = backend();
    let witness = vec![fp(3), fp(5), fp(2)];
    let plain = evaluate(&mut b, &c, &witness).unwrap();
    let p: Vec<u64> = plain.iter().map(|x| x.value()).collect();
    assert_eq!(p[c.gates.len() - 1], ((15 + MODULUS - 4) + 2) * 15 % MODULUS);
    let mut gen = Lcg(8);
    assert!(prove_and_verify(&c, 16, &[3, 5, 2], &p, &mut gen));
    let mut wrong = p.clone();
    wrong[3] = (wrong[3] + 1) % MODULUS;
    assert!(!prove_and_verify(&c, 16, &[3, 5, 2], &wrong, &mut gen));
}

#[test]
fn roles_hash_distinct_inputs() {
    let mut b = backend();
    let seed = vec![fp(1), fp(2)];
    let share = b.hash_input_share(&seed, 5).unwrap().value();
    let pad = b.hash_mul_pad(&seed, &[fp(5)]).unwrap().value();
    assert_ne!(share, pad);
    let commit = b.hash_commit(&seed, &[fp(5)]).unwrap();
    assert_ne!(commit[0].value(), pad);
    let t: Vec<u64> = b.hash_each_transcript(&[fp(5)]).unwrap().iter().map(|x| x.value()).collect();
    let c: Vec<u64> = b.hash_challenge(&[fp(5)]).unwrap().iter().map(|x| x.value()).collect();
    assert_ne!(t, c);
}

#[test]
fn separate_backends_agree() {
    let c = square_circuit();
    let mut prover = backend();
    let mut verifier = backend();
    let seed = vec![fp(9)];
    assert_eq!(
        prover.hash_input_share(&seed, 0).unwrap().value(),
        verifier.hash_input_share(&seed, 0).unwrap().value()
    );
    let seeds = seeds_for(20, &mut Lcg(9));
    let pf = prove(&mut prover, 20, &seeds, &c, &vec![fp(3)], &vec![fp(9)]).unwrap();
    assert_eq!(pf.verify(&mut verifier, 20, &c, &vec![fp(9)]), Ok(true));
    let mut other = NativeBackend::<SpongeHasher>::new(vec![fp(1)]).unwrap();
    assert_eq!(pf.verify(&mut other, 20, &c, &vec![fp(9)]), Ok(false));
}
