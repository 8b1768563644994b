//! The arithmetizer: encodes a chain of sponge hashes as a circuit.
//!
//! Each gate is emitted from the same round tables that the native evaluator
//! reads, and the contract of [`PermutationParams::build`] states that the
//! circuit's public outputs carry, for every input, the digest that the native
//! chain computes.

use crate::circuit::{agree_below, lemma_evaluated_shape, read, Circuit, Gate};
use crate::config::{larger, CircuitConfig, ConfigurationError};
use crate::field::{
    canonical, count_power_steps, lemma_power_add, lemma_power_one, lemma_residue_of_canonical,
    power, power_steps, product, sum,
};
use crate::params::PermutationParams;
use crate::permutation::{inner_product, substituted, with_constants};
use crate::sponge::normalized;
use vstd::prelude::*;

verus! {

/// Why no circuit was built.
#[derive(Clone, Copy, Debug, PartialEq, Eq, Structural)]
pub enum BuildError {
    /// The configured wire count is below what the widest gate needs.
    Configuration(ConfigurationError),
    /// The circuit would have more wires than the machine can number.
    ResourceExhausted,
}

/// Whether every listed wire is numbered below `bound`.
pub open spec fn below(wires: Seq<usize>, bound: int) -> bool {
    forall|j: int| 0 <= j < wires.len() ==> (#[trigger] wires[j]) < bound
}

impl Circuit {
    /// What holds of a circuit that grew out of `before`: the earlier wires
    /// keep their values on every input.
    proof fn lemma_grown(&self, before: &Circuit, input: Seq<u64>)
        requires
            self.extends(before),
            input.len() == before.num_inputs,
        ensures
            self.trace(input).len() == self.num_wires(),
            before.trace(input).len() == before.num_wires(),
            agree_below(before.trace(input), self.trace(input), before.num_wires()),
            forall|w: int| 0 <= w < self.num_wires() ==> canonical(#[trigger] self.trace(input)[w]),
    {
        self.lemma_extends_stable(before, input);
        lemma_evaluated_shape(self.gates@, input, self.gates@.len());
        lemma_evaluated_shape(before.gates@, input, before.gates@.len());
    }

    /// Reading wires of the earlier circuit gives the same values in the
    /// grown one.
    proof fn lemma_grown_read(&self, before: &Circuit, input: Seq<u64>, wires: Seq<usize>)
        requires
            self.extends(before),
            input.len() == before.num_inputs,
            below(wires, before.num_wires()),
        ensures
            read(self.trace(input), wires) == read(before.trace(input), wires),
    {
        self.lemma_grown(before, input);
        assert(read(self.trace(input), wires) =~= read(before.trace(input), wires));
    }
}

/// Appends one gate and returns its output wire.
fn append(c: &mut Circuit, gate: Gate, Ghost(row): Ghost<int>) -> (wire: usize)
    requires
        old(c).wf(),
        old(c).fits_rows(row),
        gate.reads_below(old(c).num_wires()),
        gate.arity() <= row,
        old(c).num_wires() < usize::MAX,
    ensures
        final(c).wf(),
        final(c).fits_rows(row),
        final(c).extends(old(c)),
        final(c).num_inputs == old(c).num_inputs,
        final(c).outputs == old(c).outputs,
        final(c).gates@ == old(c).gates@.push(gate),
        wire == old(c).num_wires(),
        forall|x: Seq<u64>|
            x.len() == old(c).num_inputs ==> #[trigger] final(c).trace(x) == old(c).trace(x).push(
                gate.value(old(c).trace(x)),
            ),
{
    let ghost before = *c;
    let wire: usize = c.num_inputs + c.gates.len();
    c.gates.push(gate);
    proof {
        assert forall|x: Seq<u64>| x.len() == before.num_inputs implies #[trigger] c.trace(x)
            == before.trace(x).push(gate.value(before.trace(x))) by {
            c.lemma_appended_value(&before, gate, x);
        }
    }
    wire
}

/// Emits the S-box on one wire: the power `alpha` by squaring and
/// multiplying, one gate for each multiplication.
fn emit_power(c: &mut Circuit, wire: usize, alpha: usize, Ghost(row): Ghost<int>) -> (out: usize)
    requires
        old(c).wf(),
        old(c).fits_rows(row),
        row >= 3,
        wire < old(c).num_wires(),
        alpha >= 1,
        old(c).num_wires() + power_steps(alpha as nat) <= usize::MAX,
    ensures
        final(c).wf(),
        final(c).fits_rows(row),
        final(c).extends(old(c)),
        final(c).outputs == old(c).outputs,
        final(c).gates@.len() == old(c).gates@.len() + power_steps(alpha as nat),
        out < final(c).num_wires(),
        forall|x: Seq<u64>|
            x.len() == old(c).num_inputs ==> #[trigger] final(c).at(x, out) == power(
                old(c).at(x, wire),
                alpha as nat,
            ),
    decreases alpha,
{
    let ghost start = *c;
    if alpha == 1 {
        proof {
            assert forall|x: Seq<u64>| x.len() == start.num_inputs implies #[trigger] c.at(x, wire)
                == power(start.at(x, wire), 1) by {
                c.lemma_grown(&start, x);
                lemma_power_one(start.at(x, wire));
                lemma_residue_of_canonical(start.at(x, wire));
            }
        }
        return wire;
    }
    let even: bool = alpha % 2 == 0;
    let lower: usize = if even {
        alpha / 2
    } else {
        alpha - 1
    };
    let base: usize = emit_power(c, wire, lower, Ghost(row));
    let ghost before = *c;
    let other: usize = if even {
        base
    } else {
        wire
    };
    let out: usize = append(c, Gate::Mul { left: base, right: other }, Ghost(row));
    proof {
        assert forall|x: Seq<u64>| x.len() == start.num_inputs implies #[trigger] c.at(x, out)
            == power(start.at(x, wire), alpha as nat) by {
            before.lemma_grown(&start, x);
            assert(before.at(x, base) == power(start.at(x, wire), lower as nat));
            assert(c.trace(x) == before.trace(x).push(
                product(before.at(x, base), before.at(x, other)),
            ));
            if even {
                lemma_power_add(start.at(x, wire), lower as nat, lower as nat);
            }
        }
    }
    out
}

/// The number of lanes among the first `i` that the S-box layer substitutes.
pub open spec fn substituted_lanes(full: bool, i: int) -> int {
    if full {
        i
    } else if i >= 1 {
        1
    } else {
        0
    }
}

/// Emits one round: the round constants, the S-box layer and the diffusion
/// matrix, on the state held by the wires `state`.
fn emit_round(c: &mut Circuit, params: &PermutationParams, r: usize, state: &Vec<usize>) -> (out:
    Vec<usize>)
    requires
        old(c).wf(),
        params.wf(),
        old(c).fits_rows(params.min_wires()),
        r < params.rounds@.len(),
        state@.len() == params.width(),
        below(state@, old(c).num_wires()),
        old(c).num_wires() + params.round_gates(r as int) <= usize::MAX,
    ensures
        final(c).wf(),
        final(c).fits_rows(params.min_wires()),
        final(c).extends(old(c)),
        final(c).outputs == old(c).outputs,
        final(c).gates@.len() == old(c).gates@.len() + params.round_gates(r as int),
        out@.len() == params.width(),
        below(out@, final(c).num_wires()),
        forall|x: Seq<u64>|
            x.len() == old(c).num_inputs ==> read(#[trigger] final(c).trace(x), out@)
                == params.round_applied(r as int, read(old(c).trace(x), state@)),
        forall|i: int|
            0 <= i < params.width() ==> final(c).keys(
                #[trigger] state@[i],
                params.rounds@[r as int].constants@[i],
            ),
{
    let ghost start = *c;
    let ghost row = params.min_wires();
    let width: usize = state.len();
    let alpha: usize = params.alpha;
    let full: bool = params.rounds[r].full;
    let constants: &Vec<u64> = &params.rounds[r].constants;
    let ghost lanes: int = if full {
        width as int
    } else {
        1
    };
    let ghost steps: int = power_steps(alpha as nat) as int;
    let mut mixed: Vec<usize> = Vec::new();
    let mut i: usize = 0;
    while i < width
        invariant
            c.wf(),
            params.wf(),
            c.fits_rows(row),
            row == params.min_wires(),
            c.extends(&start),
            c.outputs == start.outputs,
            width == params.width(),
            alpha == params.alpha,
            r < params.rounds@.len(),
            full == params.rounds@[r as int].full,
            constants@ == params.rounds@[r as int].constants@,
            lanes == if full {
                width as int
            } else {
                1
            },
            state@.len() == width,
            below(state@, start.num_wires()),
            i <= width,
            steps == power_steps(alpha as nat),
            c.gates@.len() == start.gates@.len() + i + substituted_lanes(full, i as int) * steps,
            start.num_wires() + 2 * width + lanes * steps <= usize::MAX,
            mixed@.len() == i,
            below(mixed@, c.num_wires()),
            forall|j: int| 0 <= j < i ==> c.keys(#[trigger] state@[j], constants@[j]),
            forall|x: Seq<u64>, j: int|
                x.len() == start.num_inputs && 0 <= j < i ==> #[trigger] c.at(x, mixed@[j])
                    == substituted(
                    with_constants(read(start.trace(x), state@), constants@),
                    alpha as nat,
                    full,
                )[j],
        decreases width - i,
    {
        let ghost before = *c;
        let ghost earlier = mixed@;
        proof {
            let gone = substituted_lanes(full, i as int);
            if full || i == 0 {
                assert(gone * steps + steps <= lanes * steps)
                    by (nonlinear_arith)
                    requires
                        0 <= gone + 1 <= lanes,
                        0 <= steps,
                ;
            } else {
                assert(gone * steps <= lanes * steps) by (nonlinear_arith)
                    requires
                        0 <= gone <= lanes,
                        0 <= steps,
                ;
            }
            assert(0 <= gone * steps) by (nonlinear_arith)
                requires
                    0 <= gone,
                    0 <= steps,
            ;
            assert((gone + 1) * steps == gone * steps + steps)
                by (nonlinear_arith);
        }
        let keyed: usize = append(
            c,
            Gate::AddConstant { wire: state[i], constant: constants[i] },
            Ghost(row),
        );
        let ghost middle = *c;
        let lane: usize = if full || i == 0 {
            emit_power(c, keyed, alpha, Ghost(row))
        } else {
            keyed
        };
        mixed.push(lane);
        proof {
            assert forall|j: int| 0 <= j < i + 1 implies c.keys(
                #[trigger] state@[j],
                constants@[j],
            ) by {
                if j < i {
                    c.lemma_keys_kept(&before, state@[j], constants@[j]);
                } else {
                    assert(middle.gates@[before.gates@.len() as int] == (Gate::AddConstant {
                        wire: state@[j],
                        constant: constants@[j],
                    }));
                    c.lemma_keys_kept(&middle, state@[j], constants@[j]);
                }
            }
            assert forall|x: Seq<u64>, j: int|
                x.len() == start.num_inputs && 0 <= j < i + 1 implies #[trigger] c.at(
                x,
                mixed@[j],
            ) == substituted(
                with_constants(read(start.trace(x), state@), constants@),
                alpha as nat,
                full,
            )[j] by {
                before.lemma_grown(&start, x);
                middle.lemma_grown(&before, x);
                c.lemma_grown(&middle, x);
                c.lemma_grown(&before, x);
                if j < i {
                    assert(mixed@[j] == earlier[j]);
                    assert(c.at(x, mixed@[j]) == before.at(x, earlier[j]));
                } else {
                    assert(middle.trace(x) == before.trace(x).push(
                        sum(before.at(x, state@[i as int]), constants@[i as int]),
                    ));
                    assert(middle.at(x, keyed) == sum(
                        start.at(x, state@[i as int]),
                        constants@[i as int],
                    ));
                    if full || i == 0 {
                        assert(c.at(x, lane) == power(middle.at(x, keyed), alpha as nat));
                    } else {
                        assert(c.at(x, lane) == middle.at(x, keyed));
                    }
                }
            }
        }
        i = i + 1;
    }
    let ghost keyed_circuit = *c;
    let mut out: Vec<usize> = Vec::new();
    let mut k: usize = 0;
    while k < width
        invariant
            c.wf(),
            params.wf(),
            c.fits_rows(row),
            row == params.min_wires(),
            c.extends(&keyed_circuit),
            keyed_circuit.extends(&start),
            c.outputs == start.outputs,
            width == params.width(),
            k <= width,
            c.gates@.len() == keyed_circuit.gates@.len() + k,
            keyed_circuit.gates@.len() + width <= usize::MAX - start.num_inputs,
            mixed@.len() == width,
            below(mixed@, keyed_circuit.num_wires()),
            out@.len() == k,
            below(out@, c.num_wires()),
            state@.len() == width,
            forall|j: int|
                0 <= j < width ==> keyed_circuit.keys(
                    #[trigger] state@[j],
                    params.rounds@[r as int].constants@[j],
                ),
            forall|x: Seq<u64>, j: int|
                x.len() == start.num_inputs && 0 <= j < k ==> #[trigger] c.at(x, out@[j])
                    == inner_product(params.mds@[j]@, read(keyed_circuit.trace(x), mixed@)),
        decreases width - k,
    {
        let ghost before = *c;
        let ghost earlier = out@;
        let gate = Gate::Linear { coeffs: params.mds[k].clone(), wires: mixed.clone() };
        let wire: usize = append(c, gate, Ghost(row));
        out.push(wire);
        proof {
            assert forall|x: Seq<u64>, j: int|
                x.len() == start.num_inputs && 0 <= j < k + 1 implies #[trigger] c.at(x, out@[j])
                == inner_product(params.mds@[j]@, read(keyed_circuit.trace(x), mixed@)) by {
                before.lemma_grown(&keyed_circuit, x);
                c.lemma_grown(&before, x);
                if j < k {
                    assert(out@[j] == earlier[j]);
                    assert(c.at(x, out@[j]) == before.at(x, earlier[j]));
                } else {
                    before.lemma_grown_read(&keyed_circuit, x, mixed@);
                    assert(c.trace(x) == before.trace(x).push(gate.value(before.trace(x))));
                    assert(gate.value(before.trace(x)) == inner_product(
                        params.mds@[k as int]@,
                        read(before.trace(x), mixed@),
                    ));
                }
            }
        }
        k = k + 1;
    }
    proof {
        assert forall|i: int| 0 <= i < params.width() implies c.keys(
            #[trigger] state@[i],
            params.rounds@[r as int].constants@[i],
        ) by {
            c.lemma_keys_kept(&keyed_circuit, state@[i], params.rounds@[r as int].constants@[i]);
        }
        assert forall|x: Seq<u64>| x.len() == start.num_inputs implies read(
            #[trigger] c.trace(x),
            out@,
        ) == params.round_applied(r as int, read(start.trace(x), state@)) by {
            let target = substituted(
                with_constants(read(start.trace(x), state@), constants@),
                alpha as nat,
                full,
            );
            let held = read(keyed_circuit.trace(x), mixed@);
            assert forall|j: int| 0 <= j < width implies held[j] == target[j] by {
                assert(keyed_circuit.at(x, mixed@[j]) == target[j]);
            }
            assert(held =~= target);
            assert forall|j: int| 0 <= j < width implies read(c.trace(x), out@)[j]
                == params.diffused(target)[j] by {
                assert(c.at(x, out@[j]) == inner_product(params.mds@[j]@, held));
            }
            assert(read(c.trace(x), out@) =~= params.diffused(target));
        }
    }
    out
}

/// Emits one permutation, round after round, on the state held by the wires
/// `state`.
fn emit_permutation(c: &mut Circuit, params: &PermutationParams, state: &Vec<usize>) -> (out: Vec<
    usize,
>)
    requires
        old(c).wf(),
        params.wf(),
        old(c).fits_rows(params.min_wires()),
        state@.len() == params.width(),
        below(state@, old(c).num_wires()),
        old(c).num_wires() + params.permutation_gates() <= usize::MAX,
    ensures
        final(c).wf(),
        final(c).fits_rows(params.min_wires()),
        final(c).extends(old(c)),
        final(c).outputs == old(c).outputs,
        final(c).gates@.len() == old(c).gates@.len() + params.permutation_gates(),
        out@.len() == params.width(),
        below(out@, final(c).num_wires()),
        forall|x: Seq<u64>|
            x.len() == old(c).num_inputs ==> read(#[trigger] final(c).trace(x), out@)
                == params.permuted(read(old(c).trace(x), state@)),
        params.rounds@.len() >= 1 ==> forall|i: int|
            0 <= i < params.width() ==> final(c).keys(
                #[trigger] state@[i],
                params.rounds@[0].constants@[i],
            ),
{
    let ghost start = *c;
    let mut current: Vec<usize> = state.clone();
    let mut r: usize = 0;
    while r < params.rounds.len()
        invariant
            c.wf(),
            params.wf(),
            c.fits_rows(params.min_wires()),
            c.extends(&start),
            c.outputs == start.outputs,
            r <= params.rounds@.len(),
            c.gates@.len() == start.gates@.len() + params.gates_upto(r as nat),
            start.num_wires() + params.permutation_gates() <= usize::MAX,
            current@.len() == params.width(),
            below(current@, c.num_wires()),
            state@.len() == params.width(),
            r == 0 ==> current@ == state@,
            r >= 1 ==> forall|i: int|
                0 <= i < params.width() ==> c.keys(
                    #[trigger] state@[i],
                    params.rounds@[0].constants@[i],
                ),
            forall|x: Seq<u64>|
                x.len() == start.num_inputs ==> read(#[trigger] c.trace(x), current@)
                    == params.rounds_applied(read(start.trace(x), state@), r as nat),
        decreases params.rounds@.len() - r,
    {
        let ghost before = *c;
        let ghost held = current@;
        proof {
            params.lemma_gates_monotone((r + 1) as nat, params.rounds@.len());
            params.lemma_gates_monotone(r as nat, r as nat);
        }
        current = emit_round(c, params, r, &current);
        proof {
            assert forall|i: int| 0 <= i < params.width() implies c.keys(
                #[trigger] state@[i],
                params.rounds@[0].constants@[i],
            ) by {
                if r == 0 {
                    assert(c.keys(held[i], params.rounds@[0].constants@[i]));
                } else {
                    c.lemma_keys_kept(&before, state@[i], params.rounds@[0].constants@[i]);
                }
            }
            assert forall|x: Seq<u64>| x.len() == start.num_inputs implies read(
                #[trigger] c.trace(x),
                current@,
            ) == params.rounds_applied(read(start.trace(x), state@), (r + 1) as nat) by {
                assert(read(before.trace(x), held) == params.rounds_applied(
                    read(start.trace(x), state@),
                    r as nat,
                ));
            }
        }
        r = r + 1;
    }
    current
}

impl PermutationParams {
    /// The wires that a row of the constraint system must offer: enough for
    /// a multiplication, and for a diffusion row with one wire per lane and
    /// its output.
    pub open spec fn min_wires(&self) -> int {
        if self.width() + 1 >= 3 {
            self.width() + 1
        } else {
            3
        }
    }

    /// The number of gates that encode round `r`: per lane one addition of
    /// a constant and one row of the diffusion matrix, and per substituted
    /// lane the multiplications of the S-box.
    pub open spec fn round_gates(&self, r: int) -> int {
        2 * self.width() + (if self.rounds@[r].full {
            self.width()
        } else {
            1
        }) * power_steps(self.alpha as nat)
    }

    /// The number of gates that encode the first `k` rounds.
    pub open spec fn gates_upto(&self, k: nat) -> int
        decreases k,
    {
        if k == 0 {
            0
        } else {
            self.gates_upto((k - 1) as nat) + self.round_gates(k - 1)
        }
    }

    /// The number of gates that encode one permutation.
    pub open spec fn permutation_gates(&self) -> int {
        self.gates_upto(self.rounds@.len())
    }

    /// The number of gates that hold the zero of the capacity lanes.
    pub open spec fn zero_gates(&self) -> int {
        if self.capacity > 0 {
            1
        } else {
            0
        }
    }

    /// The number of gates of the circuit for a chain of `chain` hashes.
    pub open spec fn circuit_gates(&self, chain: nat) -> int {
        self.zero_gates() + chain * self.permutation_gates()
    }

    /// The number of wires of the circuit for a chain of `chain` hashes.
    pub open spec fn circuit_wires(&self, chain: nat) -> int {
        self.rate + self.circuit_gates(chain)
    }

    /// The number of gates grows with the number of rounds.
    pub proof fn lemma_gates_monotone(&self, k: nat, n: nat)
        requires
            self.wf(),
            k <= n,
        ensures
            0 <= self.gates_upto(k) <= self.gates_upto(n),
        decreases n,
    {
        if n > 0 {
            let lanes: int = if self.rounds@[n - 1].full {
                self.width()
            } else {
                1
            };
            assert(0 <= lanes * power_steps(self.alpha as nat)) by (nonlinear_arith)
                requires
                    0 <= lanes,
            ;
            if k < n {
                self.lemma_gates_monotone(k, (n - 1) as nat);
            } else {
                self.lemma_gates_monotone(0, (n - 1) as nat);
            }
        }
    }

    /// The wires that a row of the constraint system must offer.
    pub fn minimum_wires(&self) -> (wires: usize)
        requires
            self.wf(),
        ensures
            wires == self.min_wires(),
    {
        let width: usize = self.lanes();
        if width >= 2 {
            width + 1
        } else {
            3
        }
    }

    /// Sizes a configuration for this permutation: the wire count is the
    /// larger of what its widest gate needs and what the baseline offers.
    pub fn generate_config(&self, baseline: &CircuitConfig) -> (config: CircuitConfig)
        requires
            self.wf(),
        ensures
            config.num_wires == larger(self.min_wires() as usize, baseline.num_wires),
            config.num_routed_wires == config.num_wires,
            config.num_wires >= self.min_wires(),
    {
        crate::config::generate_config_for_gate(self.minimum_wires(), baseline)
    }

    /// Counts the gates of the circuit for a chain of `chain` hashes: `None`
    /// if the circuit would have more wires than the machine can number.
    pub fn gate_count(&self, chain: usize) -> (count: Option<usize>)
        requires
            self.wf(),
        ensures
            count is Some <==> self.circuit_wires(chain as nat) <= usize::MAX,
            count matches Some(n) ==> n == self.circuit_gates(chain as nat),
    {
        let zero: usize = if self.capacity > 0 {
            1
        } else {
            0
        };
        if chain == 0 {
            assert(0 * self.permutation_gates() == 0);
            return Some(zero);
        }
        let width: usize = self.lanes();
        let exponent: usize = count_power_steps(self.alpha);
        let mut per: usize = 0;
        let mut r: usize = 0;
        while r < self.rounds.len()
            invariant
                self.wf(),
                chain >= 1,
                width == self.width(),
                exponent == power_steps(self.alpha as nat),
                r <= self.rounds@.len(),
                per == self.gates_upto(r as nat),
            decreases self.rounds@.len() - r,
        {
            let lanes: usize = if self.rounds[r].full {
                width
            } else {
                1
            };
            proof {
                self.lemma_gates_monotone(r as nat, r as nat);
                self.lemma_gates_monotone((r + 1) as nat, self.rounds@.len());
                assert(chain * self.permutation_gates() >= self.permutation_gates())
                    by (nonlinear_arith)
                    requires
                        chain >= 1,
                        self.permutation_gates() >= 0,
                ;
                assert(0 <= lanes * exponent) by (nonlinear_arith)
                    requires
                        0 <= lanes,
                        0 <= exponent,
                ;
            }
            let chains: usize = match lanes.checked_mul(exponent) {
                Some(v) => v,
                None => {
                    return None;
                },
            };
            let keyed: usize = match chains.checked_add(width) {
                Some(v) => v,
                None => {
                    return None;
                },
            };
            let round: usize = match keyed.checked_add(width) {
                Some(v) => v,
                None => {
                    return None;
                },
            };
            per = match per.checked_add(round) {
                Some(v) => v,
                None => {
                    return None;
                },
            };
            r = r + 1;
        }
        proof {
            self.lemma_gates_monotone(0, self.rounds@.len());
            assert(0 <= chain * per) by (nonlinear_arith)
                requires
                    0 <= chain,
                    0 <= per,
            ;
        }
        let all: usize = match chain.checked_mul(per) {
            Some(v) => v,
            None => {
                return None;
            },
        };
        let total: usize = match all.checked_add(zero) {
            Some(v) => v,
            None => {
                return None;
            },
        };
        match total.checked_add(self.rate) {
            Some(_) => Some(total),
            None => None,
        }
    }
}

impl PermutationParams {
    /// What it means for `c` to arithmetize a chain of `chain` hashes: the
    /// circuit is well formed, takes one block, has the size that the round
    /// tables determine, fits rows of [`Self::min_wires`] wires, and on every
    /// input its public outputs carry the digest of the native chain. Where
    /// anything is hashed, every input wire is read: some gate adds the first
    /// round constant of its lane to it.
    pub open spec fn arithmetized_by(&self, c: &Circuit, chain: nat) -> bool {
        &&& c.wf()
        &&& c.num_inputs == self.rate
        &&& c.outputs@.len() == self.rate
        &&& c.gates@.len() == self.circuit_gates(chain)
        &&& c.fits_rows(self.min_wires())
        &&& forall|x: Seq<u64>|
            x.len() == self.rate ==> c.digest(#[trigger] c.trace(x)) == self.chained(x, chain)
        &&& chain >= 1 && self.rounds@.len() >= 1 ==> forall|i: int|
            0 <= i < self.rate ==> #[trigger] c.keys(i as usize, self.rounds@[0].constants@[i])
    }

    /// Builds the circuit that hashes one block `chain` times, each hash on
    /// the digest of the one before, and marks the last digest public.
    ///
    /// Fails with a configuration error if a row of `config` cannot hold the
    /// widest gate, and reports exhaustion if the wires could not be
    /// numbered. Nothing is truncated: a circuit that is returned is whole.
    pub fn build(&self, chain: usize, config: &CircuitConfig) -> (result: Result<
        Circuit,
        BuildError,
    >)
        requires
            self.wf(),
        ensures
            result is Ok <==> config.num_wires >= self.min_wires() && self.circuit_wires(
                chain as nat,
            ) <= usize::MAX,
            match result {
                Ok(c) => self.arithmetized_by(&c, chain as nat),
                Err(BuildError::Configuration(e)) => {
                    &&& config.num_wires < self.min_wires()
                    &&& e.needed == self.min_wires()
                    &&& e.configured == config.num_wires
                },
                Err(BuildError::ResourceExhausted) => {
                    &&& config.num_wires >= self.min_wires()
                    &&& self.circuit_wires(chain as nat) > usize::MAX
                },
            },
    {
        let needed: usize = self.minimum_wires();
        match config.check(needed) {
            Err(e) => {
                return Err(BuildError::Configuration(e));
            },
            Ok(()) => {},
        }
        if self.gate_count(chain).is_none() {
            return Err(BuildError::ResourceExhausted);
        }
        let ghost row = self.min_wires();
        let mut c: Circuit = Circuit::new(self.rate);
        let ghost empty = c;
        proof {
            self.lemma_gates_monotone(0, self.rounds@.len());
            assert(0 <= chain * self.permutation_gates()) by (nonlinear_arith)
                requires
                    0 <= chain,
                    0 <= self.permutation_gates(),
            ;
        }
        let mut zero: usize = 0;
        if self.capacity > 0 {
            zero = append(&mut c, Gate::Constant { value: 0 }, Ghost(row));
        }
        let ghost base = c;
        proof {
            assert forall|x: Seq<u64>| x.len() == self.rate && self.capacity > 0 implies #[trigger] base.at(
                x,
                zero,
            ) == 0 by {
                base.lemma_grown(&empty, x);
            }
        }
        let mut digest: Vec<usize> = Vec::new();
        let mut i: usize = 0;
        while i < self.rate
            invariant
                i <= self.rate,
                digest@.len() == i,
                forall|j: int| 0 <= j < i ==> digest@[j] == j,
            decreases self.rate - i,
        {
            digest.push(i);
            i = i + 1;
        }
        proof {
            assert forall|x: Seq<u64>| x.len() == self.rate implies read(
                #[trigger] c.trace(x),
                digest@,
            ) == self.chained(x, 0) by {
                c.lemma_grown(&empty, x);
                assert(read(c.trace(x), digest@) =~= normalized(x));
            }
        }
        let mut done: usize = 0;
        while done < chain
            invariant
                self.wf(),
                c.wf(),
                c.fits_rows(row),
                row == self.min_wires(),
                c.num_inputs == self.rate,
                c.outputs@.len() == 0,
                c.extends(&base),
                base.num_inputs == self.rate,
                base.gates@.len() == self.zero_gates(),
                self.capacity > 0 ==> zero == self.rate,
                forall|x: Seq<u64>|
                    x.len() == self.rate && self.capacity > 0 ==> #[trigger] base.at(x, zero) == 0,
                done <= chain,
                c.gates@.len() == self.zero_gates() + done * self.permutation_gates(),
                self.circuit_wires(chain as nat) <= usize::MAX,
                digest@.len() == self.rate,
                below(digest@, c.num_wires()),
                done == 0 ==> forall|j: int| 0 <= j < self.rate ==> digest@[j] == j,
                done >= 1 && self.rounds@.len() >= 1 ==> forall|i: int|
                    0 <= i < self.rate ==> #[trigger] c.keys(
                        i as usize,
                        self.rounds@[0].constants@[i],
                    ),
                forall|x: Seq<u64>|
                    x.len() == self.rate ==> read(#[trigger] c.trace(x), digest@) == self.chained(
                        x,
                        done as nat,
                    ),
            decreases chain - done,
        {
            let ghost before = c;
            let ghost held = digest@;
            let mut state: Vec<usize> = digest.clone();
            let mut lane: usize = self.rate;
            while lane < self.rate + self.capacity
                invariant
                    self.wf(),
                    self.rate <= lane <= self.rate + self.capacity,
                    state@.len() == lane,
                    held.len() == self.rate,
                    forall|j: int| 0 <= j < self.rate ==> state@[j] == held[j],
                    forall|j: int| self.rate <= j < lane ==> state@[j] == zero,
                decreases self.rate + self.capacity - lane,
            {
                state.push(zero);
                lane = lane + 1;
            }
            proof {
                self.lemma_gates_monotone(0, self.rounds@.len());
                assert((done + 1) * self.permutation_gates() <= chain * self.permutation_gates())
                    by (nonlinear_arith)
                    requires
                        done + 1 <= chain,
                        0 <= self.permutation_gates(),
                ;
                assert((done + 1) * self.permutation_gates() == done * self.permutation_gates()
                    + self.permutation_gates()) by (nonlinear_arith);
                assert(0 <= done * self.permutation_gates()) by (nonlinear_arith)
                    requires
                        0 <= done,
                        0 <= self.permutation_gates(),
                ;
                assert forall|j: int| 0 <= j < state@.len() implies (#[trigger] state@[j])
                    < c.num_wires() by {
                    if j < self.rate {
                        assert(state@[j] == held[j]);
                    }
                }
            }
            let out: Vec<usize> = emit_permutation(&mut c, self, &state);
            let mut next: Vec<usize> = Vec::new();
            let mut k: usize = 0;
            while k < self.rate
                invariant
                    self.wf(),
                    out@.len() == self.width(),
                    k <= self.rate,
                    next@.len() == k,
                    forall|j: int| 0 <= j < k ==> next@[j] == out@[j],
                decreases self.rate - k,
            {
                next.push(out[k]);
                k = k + 1;
            }
            proof {
                if self.rounds@.len() >= 1 {
                    assert forall|i: int| 0 <= i < self.rate implies #[trigger] c.keys(
                        i as usize,
                        self.rounds@[0].constants@[i],
                    ) by {
                        if done == 0 {
                            assert(state@[i] == held[i]);
                            assert(held[i] == i);
                            assert(c.keys(state@[i], self.rounds@[0].constants@[i]));
                        } else {
                            c.lemma_keys_kept(&before, i as usize, self.rounds@[0].constants@[i]);
                        }
                    }
                }
                assert forall|x: Seq<u64>| x.len() == self.rate implies read(
                    #[trigger] c.trace(x),
                    next@,
                ) == self.chained(x, (done + 1) as nat) by {
                    before.lemma_grown(&base, x);
                    let block = self.chained(x, done as nat);
                    assert(read(before.trace(x), held) == block);
                    let absorbed = read(before.trace(x), state@);
                    assert forall|j: int| 0 <= j < self.width() implies absorbed[j]
                        == self.absorbed(block)[j] by {
                        if j < self.rate {
                            assert(absorbed[j] == read(before.trace(x), held)[j]);
                            lemma_residue_of_canonical(block[j]);
                        } else {
                            assert(absorbed[j] == before.at(x, zero));
                            assert(base.at(x, zero) == 0);
                        }
                    }
                    assert(absorbed =~= self.absorbed(block));
                    assert(read(c.trace(x), out@) == self.permuted(absorbed));
                    assert(read(c.trace(x), next@) =~= self.squeezed(read(c.trace(x), out@)));
                }
            }
            digest = next;
            done = done + 1;
        }
        let ghost whole = c;
        c.outputs = digest;
        proof {
            assert forall|x: Seq<u64>| x.len() == self.rate implies c.digest(#[trigger] c.trace(x))
                == self.chained(x, chain as nat) by {
                assert(c.trace(x) == whole.trace(x));
            }
            assert forall|k: int| 0 <= k < c.gates@.len() implies (#[trigger] c.gates@[k]).arity()
                <= row by {
                assert(whole.gates@[k].arity() <= row);
            }
            if chain >= 1 && self.rounds@.len() >= 1 {
                assert forall|i: int| 0 <= i < self.rate implies #[trigger] c.keys(
                    i as usize,
                    self.rounds@[0].constants@[i],
                ) by {
                    c.lemma_keys_kept(&whole, i as usize, self.rounds@[0].constants@[i]);
                }
            }
        }
        Ok(c)
    }
}

} // verus!
