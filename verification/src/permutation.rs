//! The native evaluator: one application of a permutation to a state.

use crate::field::{add_mod, lemma_results_canonical, mul_mod, pow_mod, canonical, power, product, sum};
use crate::params::PermutationParams;
use vstd::prelude::*;

verus! {

/// The state after the round constants were added, lane by lane.
pub open spec fn with_constants(state: Seq<u64>, constants: Seq<u64>) -> Seq<u64> {
    Seq::new(state.len(), |i: int| sum(state[i], constants[i]))
}

/// The state after the S-box layer: the substituted lanes raised to the power
/// `alpha`, the others unchanged. A partial layer substitutes the first lane
/// only.
pub open spec fn substituted(state: Seq<u64>, alpha: nat, full: bool) -> Seq<u64> {
    Seq::new(
        state.len(),
        |i: int|
            if full || i == 0 {
                power(state[i], alpha)
            } else {
                state[i]
            },
    )
}

/// The sum of the first `n` products `row[j] * state[j]`.
pub open spec fn partial_inner(row: Seq<u64>, state: Seq<u64>, n: nat) -> u64
    decreases n,
{
    if n == 0 {
        0
    } else {
        sum(partial_inner(row, state, (n - 1) as nat), product(row[n - 1], state[n - 1]))
    }
}

/// The inner product of a matrix row with the state.
pub open spec fn inner_product(row: Seq<u64>, state: Seq<u64>) -> u64 {
    partial_inner(row, state, row.len())
}

/// Whether every lane holds a canonical element.
pub open spec fn all_canonical(state: Seq<u64>) -> bool {
    forall|i: int| 0 <= i < state.len() ==> canonical(#[trigger] state[i])
}

/// An inner product is canonical.
pub proof fn lemma_inner_canonical(row: Seq<u64>, state: Seq<u64>, n: nat)
    ensures
        canonical(partial_inner(row, state, n)),
{
    if n > 0 {
        lemma_results_canonical(
            partial_inner(row, state, (n - 1) as nat),
            product(row[n - 1], state[n - 1]),
            0,
        );
    }
}

impl PermutationParams {
    /// The state after multiplication by the diffusion matrix.
    pub open spec fn diffused(&self, state: Seq<u64>) -> Seq<u64> {
        Seq::new(state.len(), |i: int| inner_product(self.mds@[i]@, state))
    }

    /// The state after round `r`.
    pub open spec fn round_applied(&self, r: int, state: Seq<u64>) -> Seq<u64> {
        self.diffused(
            substituted(
                with_constants(state, self.rounds@[r].constants@),
                self.alpha as nat,
                self.rounds@[r].full,
            ),
        )
    }

    /// The state after the first `k` rounds.
    pub open spec fn rounds_applied(&self, state: Seq<u64>, k: nat) -> Seq<u64>
        decreases k,
    {
        if k == 0 {
            state
        } else {
            self.round_applied(k - 1, self.rounds_applied(state, (k - 1) as nat))
        }
    }

    /// The permutation: every round, in order.
    pub open spec fn permuted(&self, state: Seq<u64>) -> Seq<u64> {
        self.rounds_applied(state, self.rounds@.len())
    }

    /// Rounds keep the number of lanes, and keep a canonical state canonical.
    pub proof fn lemma_rounds_shape(&self, state: Seq<u64>, k: nat)
        requires
            all_canonical(state),
        ensures
            self.rounds_applied(state, k).len() == state.len(),
            all_canonical(self.rounds_applied(state, k)),
        decreases k,
    {
        if k > 0 {
            let before = self.rounds_applied(state, (k - 1) as nat);
            self.lemma_rounds_shape(state, (k - 1) as nat);
            let after = self.round_applied(k - 1, before);
            assert forall|i: int| 0 <= i < after.len() implies canonical(#[trigger] after[i]) by {
                let mixed = substituted(
                    with_constants(before, self.rounds@[k - 1].constants@),
                    self.alpha as nat,
                    self.rounds@[k - 1].full,
                );
                lemma_inner_canonical(self.mds@[i]@, mixed, self.mds@[i]@.len());
            }
        }
    }

    /// Multiplies the state by the diffusion matrix.
    fn diffuse(&self, state: &Vec<u64>) -> (out: Vec<u64>)
        requires
            self.wf(),
            state@.len() == self.width(),
        ensures
            out@ == self.diffused(state@),
    {
        let width: usize = state.len();
        let mut out: Vec<u64> = Vec::new();
        let mut i: usize = 0;
        while i < width
            invariant
                self.wf(),
                width == state@.len(),
                width == self.width(),
                i <= width,
                out@.len() == i,
                forall|j: int| 0 <= j < i ==> out@[j] == inner_product(self.mds@[j]@, state@),
            decreases width - i,
        {
            let row: &Vec<u64> = &self.mds[i];
            let mut acc: u64 = 0;
            let mut j: usize = 0;
            while j < width
                invariant
                    width == state@.len(),
                    row@.len() == width,
                    j <= width,
                    acc == partial_inner(row@, state@, j as nat),
                decreases width - j,
            {
                acc = add_mod(acc, mul_mod(row[j], state[j]));
                j = j + 1;
            }
            out.push(acc);
            i = i + 1;
        }
        assert(out@ =~= self.diffused(state@));
        out
    }

    /// Applies round `r` to the state.
    pub fn round(&self, r: usize, state: &Vec<u64>) -> (out: Vec<u64>)
        requires
            self.wf(),
            r < self.rounds@.len(),
            state@.len() == self.width(),
        ensures
            out@ == self.round_applied(r as int, state@),
    {
        let width: usize = state.len();
        let constants: &Vec<u64> = &self.rounds[r].constants;
        let full: bool = self.rounds[r].full;
        let mut mixed: Vec<u64> = Vec::new();
        let mut i: usize = 0;
        while i < width
            invariant
                width == state@.len(),
                constants@.len() == width,
                i <= width,
                mixed@.len() == i,
                forall|j: int|
                    0 <= j < i ==> mixed@[j] == substituted(
                        with_constants(state@, constants@),
                        self.alpha as nat,
                        full,
                    )[j],
            decreases width - i,
        {
            let keyed: u64 = add_mod(state[i], constants[i]);
            let lane: u64 = if full || i == 0 {
                pow_mod(keyed, self.alpha as u64)
            } else {
                keyed
            };
            mixed.push(lane);
            i = i + 1;
        }
        assert(mixed@ =~= substituted(
            with_constants(state@, constants@),
            self.alpha as nat,
            full,
        ));
        self.diffuse(&mixed)
    }

    /// Applies the permutation to a state of `rate + capacity` lanes.
    pub fn permute(&self, state: &Vec<u64>) -> (out: Vec<u64>)
        requires
            self.wf(),
            state@.len() == self.width(),
        ensures
            out@ == self.permuted(state@),
            out@.len() == self.width(),
    {
        let mut current: Vec<u64> = state.clone();
        let mut r: usize = 0;
        while r < self.rounds.len()
            invariant
                self.wf(),
                r <= self.rounds@.len(),
                current@.len() == self.width(),
                current@ == self.rounds_applied(state@, r as nat),
            decreases self.rounds@.len() - r,
        {
            current = self.round(r, &current);
            r = r + 1;
        }
        current
    }
}

} // verus!
