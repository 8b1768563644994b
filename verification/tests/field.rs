use hash_arithmetization::field::{
    add_mod, count_power_steps, mul_mod, pow_mod, reduce, MODULUS,
};

#[test]
fn modulus_is_the_goldilocks_prime() {
    assert_eq!(MODULUS, 18446744069414584321u64);
    assert_eq!(MODULUS as u128, (1u128 << 64) - (1u128 << 32) + 1);
}

#[test]
fn reduce_keeps_canonical_and_folds_the_rest() {
    assert_eq!(reduce(0), 0);
    assert_eq!(reduce(MODULUS - 1), MODULUS - 1);
    assert_eq!(reduce(MODULUS), 0);
    assert_eq!(reduce(MODULUS + 1), 1);
    assert_eq!(reduce(u64::MAX), 4294967294);
}

#[test]
fn add_wraps_at_the_modulus() {
    assert_eq!(add_mod(1, 2), 3);
    assert_eq!(add_mod(MODULUS - 1, 1), 0);
    assert_eq!(add_mod(MODULUS - 1, MODULUS - 1), MODULUS - 2);
    assert_eq!(add_mod(u64::MAX, u64::MAX), 8589934588);
    assert_eq!(add_mod(MODULUS, 5), 5);
}

#[test]
fn mul_reduces_the_wide_product() {
    assert_eq!(mul_mod(3, 4), 12);
    assert_eq!(mul_mod(0, u64::MAX), 0);
    assert_eq!(mul_mod(MODULUS - 1, MODULUS - 1), 1);
    assert_eq!(mul_mod(u64::MAX, u64::MAX), 18446744056529682436);
    assert_eq!(mul_mod(1u64 << 32, 1u64 << 32), 4294967295);
}

#[test]
fn pow_multiplies_repeatedly() {
    assert_eq!(pow_mod(5, 0), 1);
    assert_eq!(pow_mod(0, 0), 1);
    assert_eq!(pow_mod(5, 1), 5);
    assert_eq!(pow_mod(MODULUS + 5, 1), 5);
    assert_eq!(pow_mod(3, 7), 2187);
    assert_eq!(pow_mod(2, 64), 4294967295);
    assert_eq!(pow_mod(7, 1000), 4672572968542309196);
}

#[test]
fn pow_handles_large_exponents() {
    // Fermat: the power of the group order is one, and one less inverts.
    assert_eq!(pow_mod(7, MODULUS - 1), 1);
    let inverse: u64 = pow_mod(7, MODULUS - 2);
    assert_eq!(mul_mod(7, inverse), 1);
    assert_eq!(pow_mod(0, u64::MAX), 0);
    assert_eq!(pow_mod(1, u64::MAX), 1);
    assert_eq!(pow_mod(MODULUS - 1, u64::MAX), MODULUS - 1);
}

#[test]
fn power_steps_count_squarings_and_multiplications() {
    assert_eq!(count_power_steps(0), 0);
    assert_eq!(count_power_steps(1), 0);
    assert_eq!(count_power_steps(2), 1);
    assert_eq!(count_power_steps(3), 2);
    assert_eq!(count_power_steps(5), 3);
    assert_eq!(count_power_steps(7), 4);
    assert_eq!(count_power_steps(8), 3);
    assert_eq!(count_power_steps(usize::MAX), 2 * (usize::BITS as usize) - 2);
}
