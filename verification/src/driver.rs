//! The proving session: what a driver may do next, and what it has learnt.
//!
//! The backend that proves and verifies is outside this crate. A driver asks
//! it to prove and to verify, and reports each outcome to the session, which
//! decides the next stage. A session moves forward only, one stage at a
//! time; a circuit is borrowed, so that many sessions can share it.

use crate::arithmetize::BuildError;
use crate::circuit::Circuit;
use crate::config::CircuitConfig;
use crate::params::PermutationParams;
use crate::witness::{InconsistentTraceError, Witness};
use vstd::prelude::*;

verus! {

/// What the backend hands back for a witness that it accepts: the public
/// inputs that the proof commits to, and the proof's serialized bytes.
#[derive(Clone, Debug, PartialEq, Eq)]
pub struct Proof {
    pub public_inputs: Vec<u64>,
    pub bytes: Vec<u8>,
}

/// The stages of a session, in the order in which they are passed.
#[derive(Clone, Copy, Debug, PartialEq, Eq, Structural)]
pub enum Stage {
    Unbuilt,
    Built,
    Witnessed,
    Proved,
    Verified,
}

/// Why the prover's result was not accepted.
#[derive(Clone, Copy, Debug, PartialEq, Eq, Structural)]
pub enum ProverError {
    /// The backend rejected the witness.
    Rejected,
    /// The witness does not meet the circuit's constraints, whatever the
    /// backend returned.
    Unsatisfied,
}

/// Why a session stopped.
#[derive(Clone, Copy, Debug, PartialEq, Eq, Structural)]
pub enum DriverError {
    /// The step does not follow the stage that the session is in.
    OutOfOrder { stage: Stage },
    /// No circuit was built.
    Build(BuildError),
    /// No witness was generated.
    InconsistentTrace(InconsistentTraceError),
    /// No proof was produced.
    Prover(ProverError),
}

/// One proving session over a borrowed circuit.
#[derive(Debug, PartialEq, Eq)]
pub enum Session<'a> {
    Unbuilt,
    Built { circuit: &'a Circuit },
    Witnessed { circuit: &'a Circuit, witness: Witness },
    Proved { digest: Vec<u64>, proof: Proof },
    Verified { accepted: bool },
}

impl Stage {
    /// The position of the stage in the order of a session.
    pub open spec fn rank(self) -> nat {
        match self {
            Stage::Unbuilt => 0,
            Stage::Built => 1,
            Stage::Witnessed => 2,
            Stage::Proved => 3,
            Stage::Verified => 4,
        }
    }
}

impl Proof {
    /// The length of the serialized proof in bytes.
    pub fn size(&self) -> (n: usize)
        ensures
            n == self.bytes@.len(),
    {
        self.bytes.len()
    }
}

/// Whether two blocks hold the same elements.
pub fn same_block(a: &Vec<u64>, b: &Vec<u64>) -> (same: bool)
    ensures
        same == (a@ == b@),
{
    if a.len() != b.len() {
        return false;
    }
    let mut i: usize = 0;
    while i < a.len()
        invariant
            a@.len() == b@.len(),
            i <= a@.len(),
            forall|j: int| 0 <= j < i ==> a@[j] == b@[j],
        decreases a@.len() - i,
    {
        if a[i] != b[i] {
            return false;
        }
        i = i + 1;
    }
    assert(a@ =~= b@);
    true
}

impl<'a> Session<'a> {
    /// The stage that the session is in.
    pub open spec fn spec_stage(&self) -> Stage {
        match self {
            Session::Unbuilt => Stage::Unbuilt,
            Session::Built { .. } => Stage::Built,
            Session::Witnessed { .. } => Stage::Witnessed,
            Session::Proved { .. } => Stage::Proved,
            Session::Verified { .. } => Stage::Verified,
        }
    }

    /// The step from `Unbuilt` to `Built`: the session takes the circuit.
    pub open spec fn builds(&self, circuit: &Circuit, next: &Session<'a>) -> bool {
        &&& *self is Unbuilt
        &&& *next matches Session::Built { circuit: kept }
        &&& *kept == *circuit
    }

    /// The step from `Built` to `Witnessed`: the witness is the trace of the
    /// circuit on the input.
    pub open spec fn witnesses(&self, input: Seq<u64>, next: &Session<'a>) -> bool {
        &&& *self matches Session::Built { circuit }
        &&& *next matches Session::Witnessed { circuit: kept, witness }
        &&& *kept == *circuit
        &&& circuit.wf()
        &&& input.len() == circuit.num_inputs
        &&& witness@ == circuit.trace(input)
    }

    /// The step from `Witnessed` to `Proved`: the backend returned a proof,
    /// the witness meets every constraint, and the session remembers the
    /// digest on the public outputs.
    pub open spec fn proves(&self, outcome: Option<Proof>, next: &Session<'a>) -> bool {
        &&& *self matches Session::Witnessed { circuit, witness }
        &&& outcome matches Some(proof)
        &&& circuit.wf()
        &&& circuit.satisfied_by(witness@)
        &&& *next matches Session::Proved { digest, proof: kept }
        &&& kept == proof
        &&& digest@ == circuit.digest(witness@)
    }

    /// The step from `Proved` to `Verified`: the session accepts exactly when
    /// the backend accepted and the proof commits to the remembered digest.
    pub open spec fn verifies(&self, backend_accepts: bool, next: &Session<'a>) -> bool {
        &&& *self matches Session::Proved { digest, proof }
        &&& *next matches Session::Verified { accepted }
        &&& accepted == (backend_accepts && proof.public_inputs@ == digest@)
    }

    /// A session that has no circuit yet.
    pub fn new() -> (s: Session<'a>)
        ensures
            s is Unbuilt,
    {
        Session::Unbuilt
    }

    /// The stage that the session is in.
    pub fn stage(&self) -> (stage: Stage)
        ensures
            stage == self.spec_stage(),
    {
        match self {
            Session::Unbuilt => Stage::Unbuilt,
            Session::Built { .. } => Stage::Built,
            Session::Witnessed { .. } => Stage::Witnessed,
            Session::Proved { .. } => Stage::Proved,
            Session::Verified { .. } => Stage::Verified,
        }
    }

    /// Takes a built circuit into the session.
    pub fn built(self, circuit: &'a Circuit) -> (result: Result<Session<'a>, DriverError>)
        ensures
            result is Ok <==> self is Unbuilt,
            match result {
                Ok(next) => self.builds(circuit, &next),
                Err(e) => e == (DriverError::OutOfOrder { stage: self.spec_stage() }),
            },
    {
        match self {
            Session::Unbuilt => Ok(Session::Built { circuit }),
            other => Err(DriverError::OutOfOrder { stage: other.stage() }),
        }
    }

    /// Generates the witness for a concrete input.
    pub fn witnessed(self, input: &Vec<u64>) -> (result: Result<Session<'a>, DriverError>)
        ensures
            result is Ok <==> (self matches Session::Built { circuit } && circuit.wf() && input@.len()
                == circuit.num_inputs),
            match result {
                Ok(next) => self.witnesses(input@, &next),
                Err(DriverError::OutOfOrder { stage }) => {
                    &&& !(self is Built)
                    &&& stage == self.spec_stage()
                },
                Err(DriverError::InconsistentTrace(e)) => {
                    &&& self matches Session::Built { circuit }
                    &&& circuit.stops_with(input@.len(), e)
                },
                Err(_) => false,
            },
    {
        match self {
            Session::Built { circuit } => match circuit.assign(input) {
                Ok(witness) => Ok(Session::Witnessed { circuit, witness }),
                Err(e) => Err(DriverError::InconsistentTrace(e)),
            },
            other => Err(DriverError::OutOfOrder { stage: other.stage() }),
        }
    }

    /// Takes the prover's outcome: the proof, or `None` if the backend
    /// rejected the witness. A proof is kept only if the witness meets every
    /// constraint of the circuit.
    pub fn proved(self, outcome: Option<Proof>) -> (result: Result<Session<'a>, DriverError>)
        ensures
            result is Ok <==> (self matches Session::Witnessed { circuit, witness } && outcome
                is Some && circuit.wf() && circuit.satisfied_by(witness@)),
            match result {
                Ok(next) => self.proves(outcome, &next),
                Err(DriverError::OutOfOrder { stage }) => {
                    &&& !(self is Witnessed)
                    &&& stage == self.spec_stage()
                },
                Err(DriverError::Prover(ProverError::Rejected)) => {
                    &&& self is Witnessed
                    &&& outcome is None
                },
                Err(DriverError::Prover(ProverError::Unsatisfied)) => {
                    &&& self is Witnessed
                    &&& outcome is Some
                },
                Err(_) => false,
            },
    {
        match self {
            Session::Witnessed { circuit, witness } => match outcome {
                None => Err(DriverError::Prover(ProverError::Rejected)),
                Some(proof) => {
                    if !circuit.accepts(&witness.values) {
                        return Err(DriverError::Prover(ProverError::Unsatisfied));
                    }
                    let digest: Vec<u64> = witness.public_outputs(circuit).unwrap();
                    Ok(Session::Proved { digest, proof })
                },
            },
            other => Err(DriverError::OutOfOrder { stage: other.stage() }),
        }
    }

    /// Takes the verifier's verdict. The session accepts only if the backend
    /// accepted the proof and the proof commits to the digest that the
    /// witness carried on the public outputs.
    pub fn verified(self, backend_accepts: bool) -> (result: Result<Session<'a>, DriverError>)
        ensures
            result is Ok <==> self is Proved,
            match result {
                Ok(next) => self.verifies(backend_accepts, &next),
                Err(e) => e == (DriverError::OutOfOrder { stage: self.spec_stage() }),
            },
    {
        match self {
            Session::Proved { digest, proof } => {
                let accepted: bool = backend_accepts && same_block(&proof.public_inputs, &digest);
                Ok(Session::Verified { accepted })
            },
            other => Err(DriverError::OutOfOrder { stage: other.stage() }),
        }
    }

    /// The exit status of a driver that ends in this session: zero exactly
    /// when the proof was verified and accepted.
    pub fn exit_code(&self) -> (code: u8)
        ensures
            code == 0 <==> (self matches Session::Verified { accepted } && *accepted),
            code == 0 || code == 1,
    {
        match self {
            Session::Verified { accepted } => if *accepted {
                0
            } else {
                1
            },
            _ => 1,
        }
    }
}

/// Builds the circuit for a chain of hashes, generates the witness for one
/// block and reads the digest off the public outputs.
pub fn arithmetized_digest(
    params: &PermutationParams,
    chain: usize,
    config: &CircuitConfig,
    block: &Vec<u64>,
) -> (result: Result<Vec<u64>, DriverError>)
    requires
        params.wf(),
    ensures
        match result {
            Ok(digest) => {
                &&& config.num_wires >= params.min_wires()
                &&& params.circuit_wires(chain as nat) <= usize::MAX
                &&& block@.len() == params.rate
                &&& digest@ == params.chained(block@, chain as nat)
            },
            Err(DriverError::Build(BuildError::Configuration(e))) => {
                &&& config.num_wires < params.min_wires()
                &&& e.needed == params.min_wires()
                &&& e.configured == config.num_wires
            },
            Err(DriverError::Build(BuildError::ResourceExhausted)) => {
                &&& config.num_wires >= params.min_wires()
                &&& params.circuit_wires(chain as nat) > usize::MAX
            },
            Err(DriverError::InconsistentTrace(e)) => {
                &&& config.num_wires >= params.min_wires()
                &&& params.circuit_wires(chain as nat) <= usize::MAX
                &&& block@.len() != params.rate
                &&& e == (InconsistentTraceError::InputLength {
                    expected: params.rate,
                    got: block@.len() as usize,
                })
            },
            Err(_) => false,
        },
{
    let circuit: Circuit = match params.build(chain, config) {
        Ok(c) => c,
        Err(e) => {
            return Err(DriverError::Build(e));
        },
    };
    let witness: Witness = match circuit.assign(block) {
        Ok(w) => w,
        Err(e) => {
            return Err(DriverError::InconsistentTrace(e));
        },
    };
    let digest: Vec<u64> = witness.public_outputs(&circuit).unwrap();
    Ok(digest)
}

} // verus!
