//! The description of a permutation: its shape and its round tables.
//!
//! One description feeds both the native evaluator and the arithmetizer, so
//! the two cannot drift apart.

use vstd::prelude::*;

verus! {

/// The hash families whose permutations the crate arithmetizes.
#[derive(Clone, Copy, Debug, PartialEq, Eq, Structural)]
pub enum HashFamily {
    Anemoi,
    Arion,
    Griffin,
    MiMC,
    Monolith,
    Poseidon,
}

/// One round of a permutation: its additive constants, one per lane, and
/// whether the S-box acts on every lane or on the first lane only.
#[derive(Clone, Debug, PartialEq, Eq)]
pub struct Round {
    pub constants: Vec<u64>,
    pub full: bool,
}

/// A substitution-permutation network over the Goldilocks field.
///
/// The state has `rate + capacity` lanes. A round adds the round constants,
/// raises the substituted lanes to the power `alpha` and multiplies the state
/// by the diffusion matrix `mds`.
#[derive(Clone, Debug, PartialEq, Eq)]
pub struct PermutationParams {
    pub family: HashFamily,
    pub rate: usize,
    pub capacity: usize,
    pub alpha: usize,
    pub rounds: Vec<Round>,
    pub mds: Vec<Vec<u64>>,
}

/// Why a description was refused at construction.
#[derive(Clone, Copy, Debug, PartialEq, Eq, Structural)]
pub enum ParamsError {
    /// The rate is zero: nothing could be absorbed.
    EmptyRate,
    /// The state has so many lanes that a diffusion row, which reads every
    /// lane and writes one more wire, could not be numbered.
    WidthOverflow,
    /// The S-box exponent is zero.
    DegenerateSbox,
    /// The diffusion matrix does not have one row per lane.
    MatrixRows,
    /// Row `row` of the diffusion matrix does not have one entry per lane.
    MatrixRow { row: usize },
    /// Round `round` does not have one constant per lane.
    ConstantsShape { round: usize },
}

/// Whether the tables fit a state of `rate + capacity` lanes.
pub open spec fn shaped(
    rate: usize,
    capacity: usize,
    alpha: usize,
    rounds: Seq<Round>,
    mds: Seq<Vec<u64>>,
) -> bool {
    &&& rate >= 1
    &&& rate + capacity < usize::MAX
    &&& alpha >= 1
    &&& mds.len() == rate + capacity
    &&& forall|i: int| 0 <= i < mds.len() ==> (#[trigger] mds[i]).len() == rate + capacity
    &&& forall|r: int|
        0 <= r < rounds.len() ==> (#[trigger] rounds[r]).constants.len() == rate + capacity
}

impl HashFamily {
    /// The family's name as the drivers print it.
    pub fn name(&self) -> (s: &'static str)
        ensures
            s@ == self.spec_name(),
    {
        match self {
            HashFamily::Anemoi => "anemoi",
            HashFamily::Arion => "arion",
            HashFamily::Griffin => "griffin",
            HashFamily::MiMC => "mimc",
            HashFamily::Monolith => "monolith",
            HashFamily::Poseidon => "poseidon",
        }
    }

    pub open spec fn spec_name(&self) -> Seq<char> {
        match self {
            HashFamily::Anemoi => "anemoi"@,
            HashFamily::Arion => "arion"@,
            HashFamily::Griffin => "griffin"@,
            HashFamily::MiMC => "mimc"@,
            HashFamily::Monolith => "monolith"@,
            HashFamily::Poseidon => "poseidon"@,
        }
    }
}

/// Whether `error` names the first check that the tables fail. The checks
/// run in the order of the variants of [`ParamsError`].
pub open spec fn refused_with(
    rate: usize,
    capacity: usize,
    alpha: usize,
    rounds: Seq<Round>,
    mds: Seq<Vec<u64>>,
    error: ParamsError,
) -> bool {
    match error {
        ParamsError::EmptyRate => rate == 0,
        ParamsError::WidthOverflow => rate >= 1 && rate + capacity >= usize::MAX,
        ParamsError::DegenerateSbox => {
            &&& rate >= 1
            &&& rate + capacity < usize::MAX
            &&& alpha == 0
        },
        ParamsError::MatrixRows => {
            &&& rate >= 1
            &&& rate + capacity < usize::MAX
            &&& alpha >= 1
            &&& mds.len() != rate + capacity
        },
        ParamsError::MatrixRow { row } => {
            &&& rate >= 1
            &&& rate + capacity < usize::MAX
            &&& alpha >= 1
            &&& mds.len() == rate + capacity
            &&& row < mds.len()
            &&& mds[row as int].len() != rate + capacity
            &&& forall|i: int| 0 <= i < row ==> (#[trigger] mds[i]).len() == rate + capacity
        },
        ParamsError::ConstantsShape { round } => {
            &&& rate >= 1
            &&& rate + capacity < usize::MAX
            &&& alpha >= 1
            &&& mds.len() == rate + capacity
            &&& forall|i: int| 0 <= i < mds.len() ==> (#[trigger] mds[i]).len() == rate + capacity
            &&& round < rounds.len()
            &&& rounds[round as int].constants.len() != rate + capacity
            &&& forall|r: int|
                0 <= r < round ==> (#[trigger] rounds[r]).constants.len() == rate + capacity
        },
    }
}

/// Checks that the tables fit a state of `rate + capacity` lanes.
fn check_shape(
    rate: usize,
    capacity: usize,
    alpha: usize,
    rounds: &Vec<Round>,
    mds: &Vec<Vec<u64>>,
) -> (result: Result<(), ParamsError>)
    ensures
        result is Ok <==> shaped(rate, capacity, alpha, rounds@, mds@),
        result matches Err(e) ==> refused_with(rate, capacity, alpha, rounds@, mds@, e),
{
    if rate == 0 {
        return Err(ParamsError::EmptyRate);
    }
    let width: usize = match rate.checked_add(capacity) {
        Some(w) => w,
        None => {
            return Err(ParamsError::WidthOverflow);
        },
    };
    if width == usize::MAX {
        return Err(ParamsError::WidthOverflow);
    }
    if alpha == 0 {
        return Err(ParamsError::DegenerateSbox);
    }
    if mds.len() != width {
        return Err(ParamsError::MatrixRows);
    }
    let mut i: usize = 0;
    while i < mds.len()
        invariant
            i <= mds@.len(),
            rate >= 1,
            alpha >= 1,
            width == rate + capacity,
            width < usize::MAX,
            mds@.len() == width,
            forall|j: int| 0 <= j < i ==> (#[trigger] mds@[j]).len() == width,
        decreases mds@.len() - i,
    {
        if mds[i].len() != width {
            return Err(ParamsError::MatrixRow { row: i });
        }
        i = i + 1;
    }
    let mut r: usize = 0;
    while r < rounds.len()
        invariant
            r <= rounds@.len(),
            rate >= 1,
            alpha >= 1,
            width == rate + capacity,
            width < usize::MAX,
            mds@.len() == width,
            forall|j: int| 0 <= j < mds@.len() ==> (#[trigger] mds@[j]).len() == width,
            forall|j: int| 0 <= j < r ==> (#[trigger] rounds@[j]).constants.len() == width,
        decreases rounds@.len() - r,
    {
        if rounds[r].constants.len() != width {
            return Err(ParamsError::ConstantsShape { round: r });
        }
        r = r + 1;
    }
    Ok(())
}

impl PermutationParams {
    /// The number of lanes of the state.
    pub open spec fn width(&self) -> int {
        self.rate + self.capacity
    }

    /// The description is consistent: every table fits the state.
    pub open spec fn wf(&self) -> bool {
        shaped(self.rate, self.capacity, self.alpha, self.rounds@, self.mds@)
    }

    /// Checks a description and, if every table fits, accepts it.
    ///
    /// The checks run in a fixed order and the first that fails names the
    /// error.
    pub fn new(
        family: HashFamily,
        rate: usize,
        capacity: usize,
        alpha: usize,
        rounds: Vec<Round>,
        mds: Vec<Vec<u64>>,
    ) -> (result: Result<PermutationParams, ParamsError>)
        ensures
            result is Ok <==> shaped(rate, capacity, alpha, rounds@, mds@),
            match result {
                Ok(p) => {
                    &&& p.wf()
                    &&& p.family == family
                    &&& p.rate == rate
                    &&& p.capacity == capacity
                    &&& p.alpha == alpha
                    &&& p.rounds == rounds
                    &&& p.mds == mds
                },
                Err(e) => refused_with(rate, capacity, alpha, rounds@, mds@, e),
            },
    {
        match check_shape(rate, capacity, alpha, &rounds, &mds) {
            Ok(()) => Ok(PermutationParams { family, rate, capacity, alpha, rounds, mds }),
            Err(e) => Err(e),
        }
    }

    /// Checks a description that was put together field by field.
    pub fn validate(&self) -> (result: Result<(), ParamsError>)
        ensures
            result is Ok <==> self.wf(),
            result matches Err(e) ==> refused_with(
                self.rate,
                self.capacity,
                self.alpha,
                self.rounds@,
                self.mds@,
                e,
            ),
    {
        check_shape(self.rate, self.capacity, self.alpha, &self.rounds, &self.mds)
    }

    /// The number of lanes of the state.
    pub fn lanes(&self) -> (w: usize)
        requires
            self.wf(),
        ensures
            w == self.width(),
    {
        self.rate + self.capacity
    }
}

} // verus!
