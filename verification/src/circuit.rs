//! The constraint circuit: a straight line of gates over numbered wires.
//!
//! The first `num_inputs` wires carry the input. Gate `k` constrains wire
//! `num_inputs + k`, which is its output, in terms of wires that precede it.
//! A circuit is plain data: a driver replays its gates into the constraint
//! system of a proof backend.

use crate::field::{add_mod, canonical, lemma_results_canonical, mul_mod, product, reduce, residue, sum, MODULUS};
use crate::permutation::{inner_product, lemma_inner_canonical, partial_inner};
use crate::sponge::normalized;
use vstd::prelude::*;

verus! {

/// One constraint. Constants and coefficients are fixed in a gate; they are
/// no wires.
#[derive(Clone, Debug, PartialEq, Eq)]
pub enum Gate {
    /// The output equals `value`.
    Constant { value: u64 },
    /// The output equals the wire plus `constant`.
    AddConstant { wire: usize, constant: u64 },
    /// The output equals the product of two wires.
    Mul { left: usize, right: usize },
    /// The output equals the sum of `coeffs[j]` times wire `wires[j]`.
    Linear { coeffs: Vec<u64>, wires: Vec<usize> },
}

/// A circuit with its public outputs marked. Every wire that is not listed
/// in `outputs` is private.
#[derive(Clone, Debug, PartialEq, Eq)]
pub struct Circuit {
    pub num_inputs: usize,
    pub gates: Vec<Gate>,
    pub outputs: Vec<usize>,
}

/// The values found on the listed wires, in the order listed.
pub open spec fn read(values: Seq<u64>, wires: Seq<usize>) -> Seq<u64> {
    Seq::new(wires.len(), |j: int| values[wires[j] as int])
}

/// Whether two assignments agree on every wire below `bound`.
pub open spec fn agree_below(a: Seq<u64>, b: Seq<u64>, bound: int) -> bool {
    forall|w: int| 0 <= w < bound ==> a[w] == b[w]
}

impl Gate {
    /// Whether every wire that this gate reads is numbered below `bound`.
    pub open spec fn reads_below(&self, bound: int) -> bool {
        match self {
            Gate::Constant { .. } => true,
            Gate::AddConstant { wire, .. } => *wire < bound,
            Gate::Mul { left, right } => *left < bound && *right < bound,
            Gate::Linear { coeffs, wires } => {
                &&& coeffs@.len() == wires@.len()
                &&& forall|j: int| 0 <= j < wires@.len() ==> (#[trigger] wires@[j]) < bound
            },
        }
    }

    /// The value that this gate demands of its output, given the wires it reads.
    pub open spec fn value(&self, values: Seq<u64>) -> u64 {
        match self {
            Gate::Constant { value } => residue(*value),
            Gate::AddConstant { wire, constant } => sum(values[*wire as int], *constant),
            Gate::Mul { left, right } => product(values[*left as int], values[*right as int]),
            Gate::Linear { coeffs, wires } => inner_product(coeffs@, read(values, wires@)),
        }
    }

    /// The number of wires that this gate touches, its output included.
    pub open spec fn arity(&self) -> nat {
        match self {
            Gate::Constant { .. } => 1,
            Gate::AddConstant { .. } => 2,
            Gate::Mul { .. } => 3,
            Gate::Linear { wires, .. } => wires@.len() + 1,
        }
    }

    /// A gate demands a canonical value.
    pub proof fn lemma_value_canonical(&self, values: Seq<u64>)
        ensures
            canonical(self.value(values)),
    {
        match self {
            Gate::Linear { coeffs, wires } => {
                lemma_inner_canonical(coeffs@, read(values, wires@), coeffs@.len());
            },
            _ => {},
        }
    }

    /// The demanded value depends only on the wires that are read.
    pub proof fn lemma_value_local(&self, a: Seq<u64>, b: Seq<u64>, bound: int)
        requires
            self.reads_below(bound),
            agree_below(a, b, bound),
        ensures
            self.value(a) == self.value(b),
    {
        match self {
            Gate::Linear { coeffs, wires } => {
                assert(read(a, wires@) =~= read(b, wires@));
            },
            _ => {},
        }
    }

    /// A gate that reads below a bound reads below every larger bound.
    pub proof fn lemma_reads_below_more(&self, bound: int, larger: int)
        requires
            self.reads_below(bound),
            bound <= larger,
        ensures
            self.reads_below(larger),
    {
    }

    /// Checks that every wire that this gate reads is numbered below `bound`.
    pub fn reads_only_below(&self, bound: usize) -> (ok: bool)
        ensures
            ok == self.reads_below(bound as int),
    {
        match self {
            Gate::Constant { .. } => true,
            Gate::AddConstant { wire, .. } => *wire < bound,
            Gate::Mul { left, right } => *left < bound && *right < bound,
            Gate::Linear { coeffs, wires } => {
                if coeffs.len() != wires.len() {
                    return false;
                }
                let mut j: usize = 0;
                while j < wires.len()
                    invariant
                        j <= wires@.len(),
                        self.reads_below(bound as int) ==> forall|i: int|
                            0 <= i < wires@.len() ==> (#[trigger] wires@[i]) < bound,
                        forall|i: int| 0 <= i < j ==> (#[trigger] wires@[i]) < bound,
                    decreases wires@.len() - j,
                {
                    if wires[j] >= bound {
                        return false;
                    }
                    j = j + 1;
                }
                true
            },
        }
    }

    /// Computes the value that this gate demands of its output.
    pub fn evaluate(&self, values: &Vec<u64>) -> (v: u64)
        requires
            self.reads_below(values@.len() as int),
        ensures
            v == self.value(values@),
    {
        match self {
            Gate::Constant { value } => reduce(*value),
            Gate::AddConstant { wire, constant } => add_mod(values[*wire], *constant),
            Gate::Mul { left, right } => mul_mod(values[*left], values[*right]),
            Gate::Linear { coeffs, wires } => {
                let mut acc: u64 = 0;
                let mut j: usize = 0;
                while j < coeffs.len()
                    invariant
                        j <= coeffs@.len(),
                        coeffs@.len() == wires@.len(),
                        forall|i: int|
                            0 <= i < wires@.len() ==> (#[trigger] wires@[i]) < values@.len(),
                        acc == partial_inner(coeffs@, read(values@, wires@), j as nat),
                    decreases coeffs@.len() - j,
                {
                    acc = add_mod(acc, mul_mod(coeffs[j], values[wires[j]]));
                    j = j + 1;
                }
                acc
            },
        }
    }
}

/// The wire values after the input and the first `k` gates: the reduced
/// input, then one value per gate, each computed from what precedes it.
pub open spec fn evaluated(gates: Seq<Gate>, input: Seq<u64>, k: nat) -> Seq<u64>
    decreases k,
{
    if k == 0 {
        normalized(input)
    } else {
        let before = evaluated(gates, input, (k - 1) as nat);
        before.push(gates[k - 1].value(before))
    }
}

/// Evaluation assigns one canonical value per wire.
pub proof fn lemma_evaluated_shape(gates: Seq<Gate>, input: Seq<u64>, k: nat)
    ensures
        evaluated(gates, input, k).len() == input.len() + k,
        forall|w: int|
            0 <= w < input.len() + k ==> canonical(#[trigger] evaluated(gates, input, k)[w]),
    decreases k,
{
    if k == 0 {
        assert forall|w: int| 0 <= w < input.len() implies canonical(
            #[trigger] evaluated(gates, input, k)[w],
        ) by {
            lemma_results_canonical(input[w], 0, 0);
        }
    } else {
        let before = evaluated(gates, input, (k - 1) as nat);
        lemma_evaluated_shape(gates, input, (k - 1) as nat);
        gates[k - 1].lemma_value_canonical(before);
    }
}

/// Evaluating further gates leaves the earlier wires as they were.
pub proof fn lemma_evaluated_stable(gates: Seq<Gate>, input: Seq<u64>, k: nat, m: nat)
    requires
        k <= m,
    ensures
        agree_below(
            evaluated(gates, input, k),
            evaluated(gates, input, m),
            (input.len() + k) as int,
        ),
    decreases m - k,
{
    if k < m {
        lemma_evaluated_stable(gates, input, k, (m - 1) as nat);
        lemma_evaluated_shape(gates, input, (m - 1) as nat);
    }
}

/// Evaluation reads the gates it evaluates and no others.
pub proof fn lemma_evaluated_prefix(a: Seq<Gate>, b: Seq<Gate>, input: Seq<u64>, k: nat)
    requires
        k <= a.len(),
        k <= b.len(),
        forall|j: int| 0 <= j < k ==> a[j] == b[j],
    ensures
        evaluated(a, input, k) == evaluated(b, input, k),
    decreases k,
{
    if k > 0 {
        lemma_evaluated_prefix(a, b, input, (k - 1) as nat);
    }
}

impl Circuit {
    /// The number of wires: the inputs and one output per gate.
    pub open spec fn num_wires(&self) -> int {
        self.num_inputs + self.gates@.len()
    }

    /// Every gate reads only wires that precede its output, and every public
    /// output names a wire of the circuit.
    pub open spec fn wf(&self) -> bool {
        &&& self.num_wires() <= usize::MAX
        &&& forall|k: int|
            0 <= k < self.gates@.len() ==> (#[trigger] self.gates@[k]).reads_below(
                self.num_inputs + k,
            )
        &&& forall|i: int|
            0 <= i < self.outputs@.len() ==> (#[trigger] self.outputs@[i]) < self.num_wires()
    }

    /// The value of every wire when the circuit runs on `input`.
    pub open spec fn trace(&self, input: Seq<u64>) -> Seq<u64> {
        evaluated(self.gates@, input, self.gates@.len())
    }

    /// The values on the public output wires.
    pub open spec fn digest(&self, values: Seq<u64>) -> Seq<u64> {
        read(values, self.outputs@)
    }

    /// Whether an assignment meets every constraint: one canonical value per
    /// wire, and on each gate's output the value which that gate demands.
    pub open spec fn satisfied_by(&self, values: Seq<u64>) -> bool {
        &&& values.len() == self.num_wires()
        &&& forall|i: int| 0 <= i < self.num_inputs ==> canonical(#[trigger] values[i])
        &&& forall|k: int|
            0 <= k < self.gates@.len() ==> (#[trigger] self.gates@[k]).value(values)
                == values[self.num_inputs + k]
    }

    /// Whether `self` is `before` with further gates appended.
    pub open spec fn extends(&self, before: &Circuit) -> bool {
        &&& self.num_inputs == before.num_inputs
        &&& before.gates@.len() <= self.gates@.len()
        &&& forall|k: int| 0 <= k < before.gates@.len() ==> self.gates@[k] == before.gates@[k]
    }

    /// Whether every gate fits a row of `wires` wires.
    pub open spec fn fits_rows(&self, wires: int) -> bool {
        forall|k: int| 0 <= k < self.gates@.len() ==> (#[trigger] self.gates@[k]).arity() <= wires
    }

    /// Whether some gate adds `constant` to `wire`.
    pub open spec fn keys(&self, wire: usize, constant: u64) -> bool {
        exists|k: int|
            0 <= k < self.gates@.len() && #[trigger] self.gates@[k] == (Gate::AddConstant {
                wire,
                constant,
            })
    }

    /// A circuit that grew keeps its gates.
    pub proof fn lemma_keys_kept(&self, before: &Circuit, wire: usize, constant: u64)
        requires
            self.extends(before),
            before.keys(wire, constant),
        ensures
            self.keys(wire, constant),
    {
        let k = choose|k: int|
            0 <= k < before.gates@.len() && #[trigger] before.gates@[k] == (Gate::AddConstant {
                wire,
                constant,
            });
        assert(self.gates@[k] == before.gates@[k]);
    }

    /// The value of one wire when the circuit runs on `input`.
    pub open spec fn at(&self, input: Seq<u64>, wire: usize) -> u64 {
        self.trace(input)[wire as int]
    }

    /// Appending gates leaves the value of every earlier wire as it was.
    pub proof fn lemma_extends_stable(&self, before: &Circuit, input: Seq<u64>)
        requires
            self.extends(before),
        ensures
            agree_below(
                before.trace(input),
                self.trace(input),
                (input.len() + before.gates@.len()) as int,
            ),
    {
        lemma_evaluated_prefix(before.gates@, self.gates@, input, before.gates@.len());
        lemma_evaluated_stable(self.gates@, input, before.gates@.len(), self.gates@.len());
    }

    /// The wire of an appended gate carries what that gate demands of the
    /// wires before it.
    pub proof fn lemma_appended_value(&self, before: &Circuit, gate: Gate, input: Seq<u64>)
        requires
            self.num_inputs == before.num_inputs,
            self.gates@ == before.gates@.push(gate),
        ensures
            self.trace(input) == before.trace(input).push(gate.value(before.trace(input))),
    {
        lemma_evaluated_prefix(before.gates@, self.gates@, input, before.gates@.len());
    }

    /// The trace of a well-formed circuit meets every constraint.
    pub proof fn lemma_trace_satisfies(&self, input: Seq<u64>)
        requires
            self.wf(),
            input.len() == self.num_inputs,
        ensures
            self.satisfied_by(self.trace(input)),
    {
        let values = self.trace(input);
        let n = self.gates@.len();
        lemma_evaluated_shape(self.gates@, input, n);
        assert forall|k: int| 0 <= k < n implies (#[trigger] self.gates@[k]).value(values)
            == values[self.num_inputs + k] by {
            let upto = evaluated(self.gates@, input, k as nat);
            let next = evaluated(self.gates@, input, (k + 1) as nat);
            lemma_evaluated_shape(self.gates@, input, k as nat);
            lemma_evaluated_stable(self.gates@, input, k as nat, n);
            lemma_evaluated_stable(self.gates@, input, (k + 1) as nat, n);
            assert(next == upto.push(self.gates@[k].value(upto)));
            assert(next[self.num_inputs + k] == self.gates@[k].value(upto));
            self.gates@[k].lemma_value_local(upto, values, self.num_inputs + k);
        }
    }

    /// An assignment that meets every constraint of a well-formed circuit is
    /// the trace of the input it carries.
    pub proof fn lemma_satisfying_is_trace(&self, values: Seq<u64>)
        requires
            self.wf(),
            self.satisfied_by(values),
        ensures
            values == self.trace(values.subrange(0, self.num_inputs as int)),
    {
        let input = values.subrange(0, self.num_inputs as int);
        self.lemma_satisfying_prefix(values, self.gates@.len());
        assert(values.subrange(0, self.num_wires()) =~= values);
    }

    proof fn lemma_satisfying_prefix(&self, values: Seq<u64>, k: nat)
        requires
            self.wf(),
            self.satisfied_by(values),
            k <= self.gates@.len(),
        ensures
            evaluated(self.gates@, values.subrange(0, self.num_inputs as int), k)
                == values.subrange(0, self.num_inputs + k),
        decreases k,
    {
        let input = values.subrange(0, self.num_inputs as int);
        if k == 0 {
            assert(normalized(input) =~= input);
        } else {
            self.lemma_satisfying_prefix(values, (k - 1) as nat);
            let before = evaluated(self.gates@, input, (k - 1) as nat);
            let gate = self.gates@[k - 1];
            gate.lemma_value_local(before, values, self.num_inputs + k - 1);
            assert(before.push(gate.value(before)) =~= values.subrange(0, self.num_inputs + k));
        }
    }

    /// A circuit over `num_inputs` input wires, with no gate and no output.
    pub fn new(num_inputs: usize) -> (c: Circuit)
        ensures
            c.wf(),
            c.num_inputs == num_inputs,
            c.gates@.len() == 0,
            c.outputs@.len() == 0,
    {
        Circuit { num_inputs, gates: Vec::new(), outputs: Vec::new() }
    }

    /// Checks that the circuit is well formed.
    pub fn is_well_formed(&self) -> (ok: bool)
        ensures
            ok == self.wf(),
    {
        let total: usize = match self.num_inputs.checked_add(self.gates.len()) {
            Some(t) => t,
            None => {
                return false;
            },
        };
        let mut k: usize = 0;
        while k < self.gates.len()
            invariant
                k <= self.gates@.len(),
                total == self.num_wires(),
                forall|j: int|
                    0 <= j < k ==> (#[trigger] self.gates@[j]).reads_below(self.num_inputs + j),
            decreases self.gates@.len() - k,
        {
            if !self.gates[k].reads_only_below(self.num_inputs + k) {
                return false;
            }
            k = k + 1;
        }
        let mut i: usize = 0;
        while i < self.outputs.len()
            invariant
                i <= self.outputs@.len(),
                total == self.num_wires(),
                forall|j: int| 0 <= j < i ==> (#[trigger] self.outputs@[j]) < total,
            decreases self.outputs@.len() - i,
        {
            if self.outputs[i] >= total {
                return false;
            }
            i = i + 1;
        }
        true
    }

    /// Checks an assignment against every constraint of the circuit. An
    /// ill-formed circuit accepts nothing.
    pub fn accepts(&self, values: &Vec<u64>) -> (ok: bool)
        ensures
            ok == (self.wf() && self.satisfied_by(values@)),
    {
        if !self.is_well_formed() {
            return false;
        }
        if values.len() != self.num_inputs + self.gates.len() {
            return false;
        }
        let mut i: usize = 0;
        while i < self.num_inputs
            invariant
                i <= self.num_inputs,
                values@.len() == self.num_wires(),
                forall|j: int| 0 <= j < i ==> canonical(#[trigger] values@[j]),
            decreases self.num_inputs - i,
        {
            if values[i] >= MODULUS {
                return false;
            }
            i = i + 1;
        }
        let mut k: usize = 0;
        while k < self.gates.len()
            invariant
                self.wf(),
                k <= self.gates@.len(),
                values@.len() == self.num_wires(),
                forall|j: int|
                    0 <= j < k ==> (#[trigger] self.gates@[j]).value(values@)
                        == values@[self.num_inputs + j],
            decreases self.gates@.len() - k,
        {
            let gate: &Gate = &self.gates[k];
            proof {
                assert(gate.reads_below(self.num_inputs + k));
                gate.lemma_reads_below_more(self.num_inputs + k, values@.len() as int);
            }
            if gate.evaluate(values) != values[self.num_inputs + k] {
                return false;
            }
            k = k + 1;
        }
        true
    }
}

} // verus!
