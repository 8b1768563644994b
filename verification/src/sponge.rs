//! The sponge hash: absorb one block, permute, squeeze one block.

use crate::field::{canonical, lemma_results_canonical, reduce, residue};
use crate::params::PermutationParams;
use crate::permutation::all_canonical;
use vstd::prelude::*;

verus! {

/// The block with every element reduced to its canonical representative.
pub open spec fn normalized(block: Seq<u64>) -> Seq<u64> {
    Seq::new(block.len(), |i: int| residue(block[i]))
}

impl PermutationParams {
    /// The fresh state after absorbing one block: the block in the rate
    /// lanes, zero in the capacity lanes.
    pub open spec fn absorbed(&self, block: Seq<u64>) -> Seq<u64> {
        Seq::new(
            self.width() as nat,
            |i: int|
                if i < self.rate {
                    residue(block[i])
                } else {
                    0
                },
        )
    }

    /// The digest read from a state: its rate lanes.
    pub open spec fn squeezed(&self, state: Seq<u64>) -> Seq<u64> {
        state.subrange(0, self.rate as int)
    }

    /// The digest of one block.
    pub open spec fn hashed(&self, block: Seq<u64>) -> Seq<u64> {
        self.squeezed(self.permuted(self.absorbed(block)))
    }

    /// The digest after hashing `n` times, each time the previous digest.
    pub open spec fn chained(&self, block: Seq<u64>, n: nat) -> Seq<u64>
        decreases n,
    {
        if n == 0 {
            normalized(block)
        } else {
            self.hashed(self.chained(block, (n - 1) as nat))
        }
    }

    /// A digest has `rate` canonical elements.
    pub proof fn lemma_hashed_shape(&self, block: Seq<u64>)
        requires
            self.wf(),
        ensures
            self.hashed(block).len() == self.rate,
            all_canonical(self.hashed(block)),
    {
        let state = self.absorbed(block);
        assert forall|i: int| 0 <= i < state.len() implies canonical(#[trigger] state[i]) by {
            lemma_results_canonical(block[i], 0, 0);
        }
        self.lemma_rounds_shape(state, self.rounds@.len());
    }

    /// A chain of digests has `rate` canonical elements.
    pub proof fn lemma_chained_shape(&self, block: Seq<u64>, n: nat)
        requires
            self.wf(),
            block.len() == self.rate,
        ensures
            self.chained(block, n).len() == self.rate,
            all_canonical(self.chained(block, n)),
        decreases n,
    {
        if n == 0 {
            assert forall|i: int| 0 <= i < block.len() implies canonical(
                #[trigger] normalized(block)[i],
            ) by {
                lemma_results_canonical(block[i], 0, 0);
            }
        } else {
            self.lemma_hashed_shape(self.chained(block, (n - 1) as nat));
        }
    }

    /// Hashes one block of `rate` elements to a digest of `rate` elements.
    pub fn hash(&self, block: &Vec<u64>) -> (digest: Vec<u64>)
        requires
            self.wf(),
            block@.len() == self.rate,
        ensures
            digest@ == self.hashed(block@),
            digest@.len() == self.rate,
            all_canonical(digest@),
    {
        proof {
            self.lemma_hashed_shape(block@);
        }
        let width: usize = self.lanes();
        let mut state: Vec<u64> = Vec::new();
        let mut i: usize = 0;
        while i < width
            invariant
                self.wf(),
                width == self.width(),
                block@.len() == self.rate,
                i <= width,
                state@.len() == i,
                forall|j: int| 0 <= j < i ==> state@[j] == self.absorbed(block@)[j],
            decreases width - i,
        {
            let lane: u64 = if i < self.rate {
                reduce(block[i])
            } else {
                0
            };
            state.push(lane);
            i = i + 1;
        }
        assert(state@ =~= self.absorbed(block@));
        let permuted: Vec<u64> = self.permute(&state);
        let mut digest: Vec<u64> = Vec::new();
        let mut k: usize = 0;
        while k < self.rate
            invariant
                self.wf(),
                permuted@.len() == self.width(),
                k <= self.rate,
                digest@.len() == k,
                forall|j: int| 0 <= j < k ==> digest@[j] == permuted@[j],
            decreases self.rate - k,
        {
            digest.push(permuted[k]);
            k = k + 1;
        }
        assert(digest@ =~= self.squeezed(permuted@));
        digest
    }

    /// Hashes a block `n` times, feeding each digest back in.
    pub fn hash_chain(&self, block: &Vec<u64>, n: usize) -> (digest: Vec<u64>)
        requires
            self.wf(),
            block@.len() == self.rate,
        ensures
            digest@ == self.chained(block@, n as nat),
            digest@.len() == self.rate,
            all_canonical(digest@),
    {
        proof {
            self.lemma_chained_shape(block@, n as nat);
        }
        let mut digest: Vec<u64> = Vec::new();
        let mut i: usize = 0;
        while i < block.len()
            invariant
                i <= block@.len(),
                digest@.len() == i,
                forall|j: int| 0 <= j < i ==> digest@[j] == residue(block@[j]),
            decreases block@.len() - i,
        {
            digest.push(reduce(block[i]));
            i = i + 1;
        }
        assert(digest@ =~= normalized(block@));
        let mut done: usize = 0;
        while done < n
            invariant
                self.wf(),
                done <= n,
                digest@.len() == self.rate,
                digest@ == self.chained(block@, done as nat),
            decreases n - done,
        {
            digest = self.hash(&digest);
            done = done + 1;
        }
        digest
    }
}

} // verus!
