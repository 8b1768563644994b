use hash_arithmetization::params::{HashFamily, ParamsError, PermutationParams, Round};

fn rounds(width: usize, count: usize) -> Vec<Round> {
    let mut out: Vec<Round> = Vec::new();
    for r in 0..count {
        out.push(Round { constants: vec![r as u64; width], full: true });
    }
    out
}

fn identity(width: usize) -> Vec<Vec<u64>> {
    let mut out: Vec<Vec<u64>> = Vec::new();
    for i in 0..width {
        let mut row: Vec<u64> = vec![0; width];
        row[i] = 1;
        out.push(row);
    }
    out
}

#[test]
fn accepts_a_consistent_description() {
    let p = PermutationParams::new(HashFamily::Poseidon, 2, 1, 7, rounds(3, 4), identity(3)).unwrap();
    assert_eq!(p.family, HashFamily::Poseidon);
    assert_eq!(p.rate, 2);
    assert_eq!(p.capacity, 1);
    assert_eq!(p.alpha, 7);
    assert_eq!(p.rounds.len(), 4);
    assert_eq!(p.mds, identity(3));
    assert_eq!(p.lanes(), 3);
}

#[test]
fn accepts_a_single_lane_without_capacity_or_rounds() {
    let p = PermutationParams::new(HashFamily::MiMC, 1, 0, 3, Vec::new(), identity(1)).unwrap();
    assert_eq!(p.lanes(), 1);
}

#[test]
fn refuses_an_empty_rate() {
    let r = PermutationParams::new(HashFamily::Anemoi, 0, 3, 7, rounds(3, 1), identity(3));
    assert_eq!(r, Err(ParamsError::EmptyRate));
}

#[test]
fn refuses_a_width_that_cannot_be_numbered() {
    let r = PermutationParams::new(HashFamily::Arion, usize::MAX, 1, 7, Vec::new(), Vec::new());
    assert_eq!(r, Err(ParamsError::WidthOverflow));
    let r = PermutationParams::new(HashFamily::Arion, usize::MAX - 1, 1, 7, Vec::new(), Vec::new());
    assert_eq!(r, Err(ParamsError::WidthOverflow));
    let r = PermutationParams::new(HashFamily::Arion, usize::MAX, 0, 7, Vec::new(), Vec::new());
    assert_eq!(r, Err(ParamsError::WidthOverflow));
}

#[test]
fn refuses_a_zero_exponent() {
    let r = PermutationParams::new(HashFamily::Griffin, 2, 1, 0, rounds(3, 1), identity(3));
    assert_eq!(r, Err(ParamsError::DegenerateSbox));
}

#[test]
fn refuses_a_matrix_with_the_wrong_number_of_rows() {
    let r = PermutationParams::new(HashFamily::Monolith, 2, 1, 7, rounds(3, 1), identity(2));
    assert_eq!(r, Err(ParamsError::MatrixRows));
}

#[test]
fn names_the_first_short_matrix_row() {
    let mut mds = identity(3);
    mds[1] = vec![1, 2];
    mds[2] = vec![1];
    let r = PermutationParams::new(HashFamily::Poseidon, 2, 1, 7, rounds(3, 1), mds);
    assert_eq!(r, Err(ParamsError::MatrixRow { row: 1 }));
}

#[test]
fn names_the_first_round_with_the_wrong_number_of_constants() {
    let mut table = rounds(3, 5);
    table[2].constants = vec![1, 2, 3, 4];
    table[4].constants = Vec::new();
    let r = PermutationParams::new(HashFamily::Poseidon, 2, 1, 7, table, identity(3));
    assert_eq!(r, Err(ParamsError::ConstantsShape { round: 2 }));
}

#[test]
fn checks_run_in_a_fixed_order() {
    let r = PermutationParams::new(HashFamily::Poseidon, 0, 1, 0, rounds(3, 1), identity(1));
    assert_eq!(r, Err(ParamsError::EmptyRate));
    let r = PermutationParams::new(HashFamily::Poseidon, 2, 1, 0, rounds(2, 1), identity(1));
    assert_eq!(r, Err(ParamsError::DegenerateSbox));
    let r = PermutationParams::new(HashFamily::Poseidon, 2, 1, 7, rounds(2, 1), identity(1));
    assert_eq!(r, Err(ParamsError::MatrixRows));
}

#[test]
fn families_have_their_names() {
    assert_eq!(HashFamily::Anemoi.name(), "anemoi");
    assert_eq!(HashFamily::Arion.name(), "arion");
    assert_eq!(HashFamily::Griffin.name(), "griffin");
    assert_eq!(HashFamily::MiMC.name(), "mimc");
    assert_eq!(HashFamily::Monolith.name(), "monolith");
    assert_eq!(HashFamily::Poseidon.name(), "poseidon");
}

#[test]
fn validate_checks_a_description_built_by_hand() {
    let mut p = PermutationParams::new(HashFamily::Poseidon, 2, 1, 7, rounds(3, 4), identity(3)).unwrap();
    assert_eq!(p.validate(), Ok(()));
    p.rounds[3].constants.pop();
    assert_eq!(p.validate(), Err(ParamsError::ConstantsShape { round: 3 }));
    p.capacity = 2;
    assert_eq!(p.validate(), Err(ParamsError::MatrixRows));
    p.alpha = 0;
    assert_eq!(p.validate(), Err(ParamsError::DegenerateSbox));
}
