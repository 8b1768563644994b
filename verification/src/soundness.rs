//! What holds of the crate as a whole: the native evaluator, the circuit,
//! the witness and the session agree with one another.

use crate::circuit::{agree_below, Circuit, Gate};
use crate::field::{canonical, lemma_sum_injective, residue};
use crate::config::{larger, CircuitConfig};
use crate::driver::{Proof, Session};
use crate::params::PermutationParams;
use crate::sponge::normalized;
use vstd::prelude::*;

verus! {

/// The permutation is deterministic: two runs on one state return one result,
/// because each returns what the round tables determine.
pub proof fn permutation_is_deterministic(
    params: &PermutationParams,
    state: Seq<u64>,
    first: Seq<u64>,
    second: Seq<u64>,
)
    requires
        first == params.permuted(state),
        second == params.permuted(state),
    ensures
        first == second,
{
}

/// A digest depends on the field elements of the block, not on the integers
/// that stand for them: blocks with the same residues hash alike.
pub proof fn digest_respects_residues(params: &PermutationParams, a: Seq<u64>, b: Seq<u64>, n: nat)
    requires
        a.len() == params.rate,
        b.len() == params.rate,
        normalized(a) == normalized(b),
    ensures
        params.hashed(a) == params.hashed(b),
        params.chained(a, n) == params.chained(b, n),
    decreases n,
{
    assert forall|i: int| 0 <= i < params.rate implies residue(a[i])
        == residue(b[i]) by {
        assert(normalized(a)[i] == residue(a[i]));
        assert(normalized(b)[i] == residue(b[i]));
    }
    assert(params.absorbed(a) =~= params.absorbed(b));
    if n > 0 {
        digest_respects_residues(params, a, b, (n - 1) as nat);
    }
}

/// Arithmetization is sound for the witness that the generator produces: on
/// every block, the public outputs of the circuit's trace carry the digest of
/// the native chain, and the trace meets every constraint.
pub proof fn witness_digest_is_native(
    params: &PermutationParams,
    circuit: &Circuit,
    chain: nat,
    block: Seq<u64>,
)
    requires
        params.arithmetized_by(circuit, chain),
        block.len() == params.rate,
    ensures
        circuit.digest(circuit.trace(block)) == params.chained(block, chain),
        circuit.satisfied_by(circuit.trace(block)),
{
    circuit.lemma_trace_satisfies(block);
}

/// Arithmetization is sound for every assignment: values that meet all
/// constraints of the circuit are the native run on the block they carry,
/// so their public outputs are that block's digest.
pub proof fn satisfying_assignment_is_native_run(
    params: &PermutationParams,
    circuit: &Circuit,
    chain: nat,
    values: Seq<u64>,
)
    requires
        params.arithmetized_by(circuit, chain),
        circuit.satisfied_by(values),
    ensures
        values == circuit.trace(values.subrange(0, params.rate as int)),
        circuit.digest(values) == params.chained(values.subrange(0, params.rate as int), chain),
{
    circuit.lemma_satisfying_is_trace(values);
    let block = values.subrange(0, params.rate as int);
    assert(circuit.digest(circuit.trace(block)) == params.chained(block, chain));
}

/// A chain of `n + 1` hashes is one hash of the chain of `n`.
pub proof fn chain_unrolls(params: &PermutationParams, block: Seq<u64>, n: nat)
    ensures
        params.chained(block, n + 1) == params.hashed(params.chained(block, n)),
{
}

/// A forged value on the output wire of a gate is caught: the assignment
/// that differs from the trace on that one wire breaks a constraint.
pub proof fn forged_wire_breaks_constraint(
    circuit: &Circuit,
    input: Seq<u64>,
    wire: int,
    forged: u64,
)
    requires
        circuit.wf(),
        input.len() == circuit.num_inputs,
        circuit.num_inputs <= wire < circuit.num_wires(),
        forged != circuit.trace(input)[wire],
    ensures
        !circuit.satisfied_by(circuit.trace(input).update(wire, forged)),
{
    let honest = circuit.trace(input);
    let tampered = honest.update(wire, forged);
    circuit.lemma_trace_satisfies(input);
    let k = wire - circuit.num_inputs;
    let gate = circuit.gates@[k];
    assert(gate.reads_below(circuit.num_inputs + k));
    assert(agree_below(tampered, honest, wire));
    gate.lemma_value_local(tampered, honest, wire);
    assert(gate.value(honest) == honest[circuit.num_inputs + k]);
    assert(tampered[circuit.num_inputs + k] == forged);
}

/// A forged value on an input wire of an arithmetized hash is caught too:
/// either it is no canonical element, or it contradicts a gate, which adds
/// the first round constant to that wire.
pub proof fn forged_input_breaks_constraint(
    params: &PermutationParams,
    circuit: &Circuit,
    chain: nat,
    block: Seq<u64>,
    wire: int,
    forged: u64,
)
    requires
        params.arithmetized_by(circuit, chain),
        chain >= 1,
        params.rounds@.len() >= 1,
        block.len() == params.rate,
        0 <= wire < params.rate,
        forged != circuit.trace(block)[wire],
    ensures
        !circuit.satisfied_by(circuit.trace(block).update(wire, forged)),
{
    let honest = circuit.trace(block);
    let tampered = honest.update(wire, forged);
    let constant = params.rounds@[0].constants@[wire];
    circuit.lemma_trace_satisfies(block);
    assert(circuit.keys(wire as usize, constant));
    let k = choose|k: int|
        0 <= k < circuit.gates@.len() && #[trigger] circuit.gates@[k] == (Gate::AddConstant {
            wire: wire as usize,
            constant,
        });
    if circuit.satisfied_by(tampered) {
        assert(circuit.gates@[k].value(tampered) == tampered[circuit.num_inputs + k]);
        assert(circuit.gates@[k].value(honest) == honest[circuit.num_inputs + k]);
        assert(canonical(tampered[wire]));
        assert(canonical(honest[wire]));
        lemma_sum_injective(forged, honest[wire], constant);
    }
}

/// On the witness of an arithmetized hash, a forged value is caught on every
/// wire.
pub proof fn forged_value_breaks_constraint(
    params: &PermutationParams,
    circuit: &Circuit,
    chain: nat,
    block: Seq<u64>,
    wire: int,
    forged: u64,
)
    requires
        params.arithmetized_by(circuit, chain),
        chain >= 1,
        params.rounds@.len() >= 1,
        block.len() == params.rate,
        0 <= wire < circuit.num_wires(),
        forged != circuit.trace(block)[wire],
    ensures
        !circuit.satisfied_by(circuit.trace(block).update(wire, forged)),
{
    if wire < params.rate {
        forged_input_breaks_constraint(params, circuit, chain, block, wire, forged);
    } else {
        forged_wire_breaks_constraint(circuit, block, wire, forged);
    }
}

/// A session never holds a proof for a witness that was forged on the output
/// wire of a gate, whatever the backend returned.
pub proof fn forged_witness_is_never_proved<'a>(
    session: &Session<'a>,
    input: Seq<u64>,
    wire: int,
    forged: u64,
    outcome: Option<Proof>,
    next: &Session<'a>,
)
    requires
        *session matches Session::Witnessed { circuit, witness } && {
            &&& circuit.wf()
            &&& input.len() == circuit.num_inputs
            &&& circuit.num_inputs <= wire < circuit.num_wires()
            &&& forged != circuit.trace(input)[wire]
            &&& witness@ == circuit.trace(input).update(wire, forged)
        },
    ensures
        !session.proves(outcome, next),
{
    match *session {
        Session::Witnessed { circuit, witness } => {
            forged_wire_breaks_constraint(circuit, input, wire, forged);
        },
        _ => {},
    }
}

/// A session that witnessed an input can be proved: the generated witness
/// meets every constraint of the circuit.
pub proof fn generated_witness_satisfies<'a>(
    session: &Session<'a>,
    input: Seq<u64>,
    next: &Session<'a>,
)
    requires
        session.witnesses(input, next),
    ensures
        *next matches Session::Witnessed { circuit, witness } && circuit.satisfied_by(witness@),
{
    match *next {
        Session::Witnessed { circuit, witness } => {
            circuit.lemma_trace_satisfies(input);
        },
        _ => {},
    }
}

/// The round trip: a session that witnesses a block, is handed a proof that
/// commits to the circuit's public outputs, and is told that the backend
/// accepted it, ends accepted.
pub proof fn honest_session_is_accepted<'a>(
    built: &Session<'a>,
    input: Seq<u64>,
    witnessed: &Session<'a>,
    proof: Proof,
    proved: &Session<'a>,
    verified: &Session<'a>,
)
    requires
        built.witnesses(input, witnessed),
        witnessed.proves(Some(proof), proved),
        proved.verifies(true, verified),
        *built matches Session::Built { circuit } && proof.public_inputs@ == circuit.digest(
            circuit.trace(input),
        ),
    ensures
        *verified matches Session::Verified { accepted } && accepted,
{
}

/// A session accepts only what the backend accepted, and only a proof that
/// commits to the digest which the witness carried.
pub proof fn acceptance_needs_backend_and_digest<'a>(
    proved: &Session<'a>,
    backend_accepts: bool,
    verified: &Session<'a>,
)
    requires
        proved.verifies(backend_accepts, verified),
        *verified matches Session::Verified { accepted } && accepted,
    ensures
        backend_accepts,
        *proved matches Session::Proved { digest, proof } && proof.public_inputs@ == digest@,
{
}

/// A session moves forward only, and one stage at a time.
pub proof fn session_moves_one_stage<'a>(
    session: &Session<'a>,
    next: &Session<'a>,
    circuit: &Circuit,
    input: Seq<u64>,
    outcome: Option<Proof>,
    backend_accepts: bool,
)
    requires
        session.builds(circuit, next) || session.witnesses(input, next) || session.proves(
            outcome,
            next,
        ) || session.verifies(backend_accepts, next),
    ensures
        next.spec_stage().rank() == session.spec_stage().rank() + 1,
{
}

/// Sizing is sufficient: a configuration whose wire count is the larger of a
/// gate's need and the baseline fits that gate, and offers no fewer wires than
/// the baseline.
pub proof fn sized_config_fits(gate_wires: usize, baseline: CircuitConfig, config: CircuitConfig)
    requires
        config.num_wires == larger(gate_wires, baseline.num_wires),
    ensures
        config.fits(gate_wires),
        config.num_wires >= baseline.num_wires,
{
}

/// A built circuit is never truncated: its gates are as many as the round
/// tables determine, and each fits a row of the configuration that the
/// builder accepted.
pub proof fn built_circuit_is_whole(
    params: &PermutationParams,
    circuit: &Circuit,
    chain: nat,
    config: CircuitConfig,
)
    requires
        params.arithmetized_by(circuit, chain),
        config.num_wires >= params.min_wires(),
    ensures
        circuit.gates@.len() == params.circuit_gates(chain),
        circuit.fits_rows(config.num_wires as int),
{
    assert forall|k: int| 0 <= k < circuit.gates@.len() implies (#[trigger] circuit.gates@[k]).arity()
        <= config.num_wires by {
        assert(circuit.gates@[k].arity() <= params.min_wires());
    }
}

} // verus!
