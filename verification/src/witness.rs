//! Witness generation: one value for every wire of a circuit.

use crate::circuit::{evaluated, Circuit};
use crate::field::{reduce, residue};
use crate::sponge::normalized;
use vstd::prelude::*;

verus! {

/// Why no witness could be generated: a value has no wire to go on, or a
/// wire that is read has no value yet.
#[derive(Clone, Copy, Debug, PartialEq, Eq, Structural)]
pub enum InconsistentTraceError {
    /// The input does not have one element per input wire.
    InputLength { expected: usize, got: usize },
    /// Gate `gate` reads a wire that no earlier step assigns.
    OperandUnassigned { gate: usize },
    /// Public output `output` names a wire that the circuit does not have.
    OutputUnassigned { output: usize },
}

/// An assignment of a value to every wire of a circuit, indexed by wire.
#[derive(Clone, Debug, PartialEq, Eq)]
pub struct Witness {
    pub values: Vec<u64>,
}

impl View for Witness {
    type V = Seq<u64>;

    open spec fn view(&self) -> Seq<u64> {
        self.values@
    }
}

impl Witness {
    /// The number of wires that carry a value.
    pub fn len(&self) -> (n: usize)
        ensures
            n == self@.len(),
    {
        self.values.len()
    }

    /// The value on a wire, if the witness has that wire.
    pub fn get(&self, wire: usize) -> (v: Option<u64>)
        ensures
            v == if wire < self@.len() {
                Some(self@[wire as int])
            } else {
                None
            },
    {
        if wire < self.values.len() {
            Some(self.values[wire])
        } else {
            None
        }
    }

    /// Overwrites the value on a wire. Returns whether the witness has that
    /// wire; if it has not, nothing changes.
    pub fn set(&mut self, wire: usize, value: u64) -> (done: bool)
        ensures
            done == (wire < old(self)@.len()),
            final(self)@ == if done {
                old(self)@.update(wire as int, value)
            } else {
                old(self)@
            },
    {
        if wire < self.values.len() {
            self.values.set(wire, value);
            true
        } else {
            false
        }
    }

    /// Reads the circuit's public outputs off the witness: `None` if an
    /// output names a wire that the witness does not have.
    pub fn public_outputs(&self, circuit: &Circuit) -> (digest: Option<Vec<u64>>)
        ensures
            digest is Some <==> forall|i: int|
                0 <= i < circuit.outputs@.len() ==> (#[trigger] circuit.outputs@[i]) < self@.len(),
            digest matches Some(d) ==> d@ == circuit.digest(self@),
    {
        let mut digest: Vec<u64> = Vec::new();
        let mut i: usize = 0;
        while i < circuit.outputs.len()
            invariant
                i <= circuit.outputs@.len(),
                digest@.len() == i,
                forall|j: int| 0 <= j < i ==> (#[trigger] circuit.outputs@[j]) < self@.len(),
                forall|j: int| 0 <= j < i ==> digest@[j] == self@[circuit.outputs@[j] as int],
            decreases circuit.outputs@.len() - i,
        {
            let wire: usize = circuit.outputs[i];
            if wire >= self.values.len() {
                return None;
            }
            digest.push(self.values[wire]);
            i = i + 1;
        }
        assert(digest@ =~= circuit.digest(self@));
        Some(digest)
    }
}

impl Circuit {
    /// Whether `error` names the first step of witness generation that cannot
    /// be carried out for an input of `len` elements: the input is placed
    /// first, then each gate in order, then each public output in order.
    pub open spec fn stops_with(&self, len: nat, error: InconsistentTraceError) -> bool {
        match error {
            InconsistentTraceError::InputLength { expected, got } => {
                &&& expected == self.num_inputs
                &&& got == len
                &&& expected != got
            },
            InconsistentTraceError::OperandUnassigned { gate } => {
                &&& len == self.num_inputs
                &&& gate < self.gates@.len()
                &&& !self.gates@[gate as int].reads_below(self.num_inputs + gate)
                &&& forall|j: int|
                    0 <= j < gate ==> (#[trigger] self.gates@[j]).reads_below(self.num_inputs + j)
            },
            InconsistentTraceError::OutputUnassigned { output } => {
                &&& len == self.num_inputs
                &&& self.num_wires() <= usize::MAX
                &&& forall|j: int|
                    0 <= j < self.gates@.len() ==> (#[trigger] self.gates@[j]).reads_below(
                        self.num_inputs + j,
                    )
                &&& output < self.outputs@.len()
                &&& self.outputs@[output as int] >= self.num_wires()
                &&& forall|j: int|
                    0 <= j < output ==> (#[trigger] self.outputs@[j]) < self.num_wires()
            },
        }
    }

    /// Binds a concrete input to the circuit: replays the gates in order and
    /// records the value of every wire.
    ///
    /// Succeeds exactly when the input has one element per input wire and the
    /// circuit is well formed. The first step that cannot be carried out
    /// names the error.
    pub fn assign(&self, input: &Vec<u64>) -> (result: Result<Witness, InconsistentTraceError>)
        ensures
            result is Ok <==> input@.len() == self.num_inputs && self.wf(),
            match result {
                Ok(w) => {
                    &&& w@ == self.trace(input@)
                    &&& w@.len() == self.num_wires()
                },
                Err(e) => self.stops_with(input@.len(), e),
            },
    {
        if input.len() != self.num_inputs {
            return Err(
                InconsistentTraceError::InputLength { expected: self.num_inputs, got: input.len() },
            );
        }
        let mut values: Vec<u64> = Vec::new();
        let mut i: usize = 0;
        while i < input.len()
            invariant
                i <= input@.len(),
                values@.len() == i,
                forall|j: int| 0 <= j < i ==> values@[j] == residue(input@[j]),
            decreases input@.len() - i,
        {
            values.push(reduce(input[i]));
            i = i + 1;
        }
        assert(values@ =~= normalized(input@));
        let mut k: usize = 0;
        while k < self.gates.len()
            invariant
                input@.len() == self.num_inputs,
                k <= self.gates@.len(),
                values@.len() == self.num_inputs + k,
                values@ == evaluated(self.gates@, input@, k as nat),
                forall|j: int|
                    0 <= j < k ==> (#[trigger] self.gates@[j]).reads_below(self.num_inputs + j),
            decreases self.gates@.len() - k,
        {
            let gate = &self.gates[k];
            if !gate.reads_only_below(values.len()) {
                return Err(InconsistentTraceError::OperandUnassigned { gate: k });
            }
            let value: u64 = gate.evaluate(&values);
            values.push(value);
            k = k + 1;
        }
        let mut o: usize = 0;
        while o < self.outputs.len()
            invariant
                input@.len() == self.num_inputs,
                o <= self.outputs@.len(),
                values@.len() == self.num_wires(),
                forall|j: int|
                    0 <= j < self.gates@.len() ==> (#[trigger] self.gates@[j]).reads_below(
                        self.num_inputs + j,
                    ),
                forall|j: int| 0 <= j < o ==> (#[trigger] self.outputs@[j]) < self.num_wires(),
            decreases self.outputs@.len() - o,
        {
            if self.outputs[o] >= values.len() {
                return Err(InconsistentTraceError::OutputUnassigned { output: o });
            }
            o = o + 1;
        }
        assert(self.num_wires() == values.len());
        Ok(Witness { values })
    }
}

} // verus!
