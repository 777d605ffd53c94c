//! Circuits: gates in topological order over field-valued wires, a builder
//! that only ever appends gates over existing wires, and plaintext evaluation.
use crate::field::{fadd, fmul, fneg, fsub, vals, Fp};
use crate::native::{NativeBackend, NativeError, NativeHasher};
use vstd::prelude::*;

verus! {

/// One gate; operands are the indices of earlier gates.
#[derive(Clone, Copy, Debug)]
pub enum Gate {
    /// The witness element of the given index.
    Input(usize),
    Constant(Fp),
    Add(usize, usize),
    Sub(usize, usize),
    Mul(usize, usize),
    Neg(usize),
}

/// Gate `g` standing at index `i` reads only earlier wires and existing inputs.
pub open spec fn gate_ok(g: Gate, i: int, n_inputs: int) -> bool {
    match g {
        Gate::Input(k) => k < n_inputs,
        Gate::Constant(_) => true,
        Gate::Add(a, b) => a < i && b < i,
        Gate::Sub(a, b) => a < i && b < i,
        Gate::Mul(a, b) => a < i && b < i,
        Gate::Neg(a) => a < i,
    }
}

pub open spec fn gates_ok(gates: Seq<Gate>, n_inputs: int) -> bool {
    forall|i: int| 0 <= i < gates.len() ==> gate_ok(#[trigger] gates[i], i, n_inputs)
}

/// The value of gate `g` given the values of the wires before it and the witness.
pub open spec fn gate_value(g: Gate, prev: Seq<int>, w: Seq<int>) -> int {
    match g {
        Gate::Input(k) => w[k as int],
        Gate::Constant(c) => c@,
        Gate::Add(a, b) => fadd(prev[a as int], prev[b as int]),
        Gate::Sub(a, b) => fsub(prev[a as int], prev[b as int]),
        Gate::Mul(a, b) => fmul(prev[a as int], prev[b as int]),
        Gate::Neg(a) => fneg(prev[a as int]),
    }
}

/// The value of every wire on witness `w`.
pub open spec fn wire_values(gates: Seq<Gate>, w: Seq<int>) -> Seq<int>
    decreases gates.len(),
{
    if gates.len() == 0 {
        seq![]
    } else {
        let prev = wire_values(gates.drop_last(), w);
        prev.push(gate_value(gates.last(), prev, w))
    }
}

pub proof fn lemma_wire_values_len(gates: Seq<Gate>, w: Seq<int>)
    ensures
        wire_values(gates, w).len() == gates.len(),
    decreases gates.len(),
{
    if gates.len() > 0 {
        lemma_wire_values_len(gates.drop_last(), w);
    }
}

/// A finalized circuit.
#[derive(Clone, Debug)]
pub struct Circuit {
    pub gates: Vec<Gate>,
    /// The wires that are the public outputs.
    pub outputs: Vec<usize>,
    /// The length of the witness.
    pub n_inputs: usize,
}

impl Circuit {
    pub open spec fn wf(&self) -> bool {
        &&& gates_ok(self.gates@, self.n_inputs as int)
        &&& forall|j: int| 0 <= j < self.outputs@.len() ==> #[trigger] self.outputs@[j] < self.gates@.len()
    }

    /// The public outputs on witness `w`.
    pub open spec fn output_values(&self, w: Seq<int>) -> Seq<int> {
        self.outputs@.map_values(|o: usize| wire_values(self.gates@, w)[o as int])
    }
}

/// Builds a circuit one gate at a time; every handle is a gate index.
#[derive(Clone, Debug)]
pub struct CircuitBuilder {
    pub gates: Vec<Gate>,
    pub n_inputs: usize,
}

impl CircuitBuilder {
    pub open spec fn wf(&self) -> bool {
        gates_ok(self.gates@, self.n_inputs as int)
    }

    pub fn new() -> (r: CircuitBuilder)
        ensures
            r.wf(),
            r.gates@.len() == 0,
            r.n_inputs == 0,
    {
        CircuitBuilder { gates: Vec::new(), n_inputs: 0 }
    }

    fn push_gate(&mut self, g: Gate) -> (r: usize)
        requires
            old(self).wf(),
            old(self).gates@.len() < usize::MAX,
            gate_ok(g, old(self).gates@.len() as int, old(self).n_inputs as int),
        ensures
            final(self).wf(),
            final(self).gates@ == old(self).gates@.push(g),
            final(self).n_inputs == old(self).n_inputs,
            r == old(self).gates@.len(),
    {
        let r = self.gates.len();
        self.gates.push(g);
        proof {
            assert forall|i: int| 0 <= i < self.gates@.len() implies gate_ok(
                #[trigger] self.gates@[i],
                i,
                self.n_inputs as int,
            ) by {
                if i < r {
                    assert(self.gates@[i] == old(self).gates@[i]);
                }
            }
        }
        r
    }

    /// Appends `n` input gates; returns their handles, in order.
    pub fn inputs(&mut self, n: usize) -> (r: Vec<usize>)
        requires
            old(self).wf(),
            old(self).gates@.len() + n < usize::MAX,
            old(self).n_inputs + n <= usize::MAX,
        ensures
            final(self).wf(),
            final(self).n_inputs == old(self).n_inputs + n,
            final(self).gates@.len() == old(self).gates@.len() + n,
            final(self).gates@.take(old(self).gates@.len() as int) == old(self).gates@,
            r@.len() == n,
            forall|j: int|
                0 <= j < n ==> #[trigger] r@[j] == old(self).gates@.len() + j
                    && final(self).gates@[r@[j] as int] == Gate::Input((old(self).n_inputs + j) as usize),
    {
        let mut r: Vec<usize> = Vec::new();
        let mut j: usize = 0;
        while j < n
            invariant
                j <= n,
                self.wf(),
                self.n_inputs == old(self).n_inputs + j,
                self.gates@.len() == old(self).gates@.len() + j,
                self.gates@.take(old(self).gates@.len() as int) == old(self).gates@,
                old(self).gates@.len() + n < usize::MAX,
                old(self).n_inputs + n <= usize::MAX,
                r@.len() == j,
                forall|k: int|
                    0 <= k < j ==> #[trigger] r@[k] == old(self).gates@.len() + k
                        && self.gates@[r@[k] as int] == Gate::Input((old(self).n_inputs + k) as usize),
            decreases n - j,
        {
            let k = self.n_inputs;
            self.n_inputs = k + 1;
            proof {
                assert forall|i: int| 0 <= i < self.gates@.len() implies gate_ok(
                    #[trigger] self.gates@[i],
                    i,
                    self.n_inputs as int,
                ) by {
                    assert(gate_ok(self.gates@[i], i, k as int));
                }
            }
            let h = self.push_gate(Gate::Input(k));
            r.push(h);
            j = j + 1;
            proof {
                assert(self.gates@.take(old(self).gates@.len() as int) =~= old(self).gates@);
            }
        }
        r
    }

    pub fn constant(&mut self, c: Fp) -> (r: usize)
        requires
            old(self).wf(),
            old(self).gates@.len() < usize::MAX,
        ensures
            final(self).wf(),
            final(self).gates@ == old(self).gates@.push(Gate::Constant(c)),
            final(self).n_inputs == old(self).n_inputs,
            r == old(self).gates@.len(),
    {
        self.push_gate(Gate::Constant(c))
    }

    pub fn add(&mut self, a: usize, b: usize) -> (r: usize)
        requires
            old(self).wf(),
            old(self).gates@.len() < usize::MAX,
            a < old(self).gates@.len(),
            b < old(self).gates@.len(),
        ensures
            final(self).wf(),
            final(self).gates@ == old(self).gates@.push(Gate::Add(a, b)),
            final(self).n_inputs == old(self).n_inputs,
            r == old(self).gates@.len(),
    {
        self.push_gate(Gate::Add(a, b))
    }

    pub fn sub(&mut self, a: usize, b: usize) -> (r: usize)
        requires
            old(self).wf(),
            old(self).gates@.len() < usize::MAX,
            a < old(self).gates@.len(),
            b < old(self).gates@.len(),
        ensures
            final(self).wf(),
            final(self).gates@ == old(self).gates@.push(Gate::Sub(a, b)),
            final(self).n_inputs == old(self).n_inputs,
            r == old(self).gates@.len(),
    {
        self.push_gate(Gate::Sub(a, b))
    }

    pub fn mul(&mut self, a: usize, b: usize) -> (r: usize)
        requires
            old(self).wf(),
            old(self).gates@.len() < usize::MAX,
            a < old(self).gates@.len(),
            b < old(self).gates@.len(),
        ensures
            final(self).wf(),
            final(self).gates@ == old(self).gates@.push(Gate::Mul(a, b)),
            final(self).n_inputs == old(self).n_inputs,
            r == old(self).gates@.len(),
    {
        self.push_gate(Gate::Mul(a, b))
    }

    pub fn neg(&mut self, a: usize) -> (r: usize)
        requires
            old(self).wf(),
            old(self).gates@.len() < usize::MAX,
            a < old(self).gates@.len(),
        ensures
            final(self).wf(),
            final(self).gates@ == old(self).gates@.push(Gate::Neg(a)),
            final(self).n_inputs == old(self).n_inputs,
            r == old(self).gates@.len(),
    {
        self.push_gate(Gate::Neg(a))
    }

    /// Finalizes the circuit with the given wires as its public outputs.
    pub fn output(self, outputs: Vec<usize>) -> (r: Circuit)
        requires
            self.wf(),
            forall|j: int| 0 <= j < outputs@.len() ==> #[trigger] outputs@[j] < self.gates@.len(),
        ensures
            r.wf(),
            r.gates@ == self.gates@,
            r.outputs@ == outputs@,
            r.n_inputs == self.n_inputs,
    {
        Circuit { gates: self.gates, outputs, n_inputs: self.n_inputs }
    }
}

/// Evaluates the circuit in plaintext on `witness`; returns the public outputs.
pub fn evaluate<H: NativeHasher>(
    backend: &mut NativeBackend<H>,
    c: &Circuit,
    witness: &[Fp],
) -> (r: Result<Vec<Fp>, NativeError>)
    requires
        c.wf(),
        witness@.len() == c.n_inputs,
    ensures
        r matches Ok(v) && vals(v@) == c.output_values(vals(witness@)),
        *final(backend) == *old(backend),
{
    let ghost w = vals(witness@);
    let ghost gs = c.gates@;
    let mut wires: Vec<Fp> = Vec::new();
    let mut i: usize = 0;
    proof {
        assert(gs.take(0) =~= Seq::<Gate>::empty());
    }
    while i < c.gates.len()
        invariant
            c.wf(),
            witness@.len() == c.n_inputs,
            w == vals(witness@),
            gs == c.gates@,
            i <= gs.len(),
            wires@.len() == i,
            vals(wires@) == wire_values(gs.take(i as int), w),
            *backend == *old(backend),
        decreases gs.len() - i,
    {
        let ghost prev = vals(wires@);
        proof {
            assert(gate_ok(gs[i as int], i as int, c.n_inputs as int));
        }
        let res = match c.gates[i] {
            Gate::Input(k) => {
                let v = witness[k];
                match backend.load_value(&v) {
                    Ok(()) => Ok(v),
                    Err(e) => Err(e),
                }
            },
            Gate::Constant(x) => backend.constant(&x),
            Gate::Add(a, b) => backend.add(&wires[a], &wires[b]),
            Gate::Sub(a, b) => backend.sub(&wires[a], &wires[b]),
            Gate::Mul(a, b) => backend.mul(&wires[a], &wires[b]),
            Gate::Neg(a) => backend.neg(&wires[a]),
        };
        let v = match res {
            Ok(v) => v,
            Err(e) => {
                return Err(e);
            },
        };
        wires.push(v);
        i = i + 1;
        proof {
            let t = gs.take(i as int);
            assert(t.drop_last() =~= gs.take(i - 1));
            assert(vals(wires@) =~= prev.push(v@));
            assert(v@ == gate_value(t.last(), prev, w));
        }
    }
    proof {
        assert(gs.take(gs.len() as int) =~= gs);
    }
    let mut out: Vec<Fp> = Vec::new();
    let mut j: usize = 0;
    while j < c.outputs.len()
        invariant
            c.wf(),
            wires@.len() == gs.len(),
            gs == c.gates@,
            vals(wires@) == wire_values(gs, w),
            j <= c.outputs@.len(),
            vals(out@) == c.output_values(w).take(j as int),
            *backend == *old(backend),
        decreases c.outputs@.len() - j,
    {
        let o = c.outputs[j];
        let v = wires[o];
        proof {
            lemma_wire_values_len(gs, w);
            assert(o < gs.len());
            assert(vals(wires@)[o as int] == v@);
        }
        match backend.expose_value(&v) {
            Ok(()) => {},
            Err(e) => {
                return Err(e);
            },
        }
        let ghost before = vals(out@);
        out.push(v);
        j = j + 1;
        proof {
            let ov = c.output_values(w);
            assert(ov[j - 1] == wire_values(gs, w)[o as int]);
            assert(vals(out@) =~= before.push(v@));
            assert(ov.take(j as int) =~= ov.take(j - 1).push(ov[j - 1]));
        }
    }
    proof {
        assert(c.output_values(w).take(c.outputs@.len() as int) =~= c.output_values(w));
    }
    Ok(out)
}

} // verus!
