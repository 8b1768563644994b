//! Arithmetic in the Goldilocks prime field.
//!
//! A field element is carried as a `u64`. Every `u64` stands for its residue
//! modulo [`MODULUS`]; the operations accept any representative and return the
//! canonical one.

use vstd::arithmetic::div_mod::{
    lemma_mod_equivalence, lemma_mul_mod_noop_left, lemma_mul_mod_noop_right, lemma_small_mod,
};
use vstd::arithmetic::mul::lemma_mul_is_associative;
use vstd::prelude::*;

verus! {

/// The Goldilocks prime, `2^64 - 2^32 + 1`.
pub const MODULUS: u64 = 0xFFFF_FFFF_0000_0001;

/// Whether `x` is the canonical representative of its residue class.
pub open spec fn canonical(x: u64) -> bool {
    x < MODULUS
}

/// The canonical representative of `x`.
pub open spec fn residue(x: u64) -> u64 {
    (x as int % MODULUS as int) as u64
}

/// The field sum of `a` and `b`.
pub open spec fn sum(a: u64, b: u64) -> u64 {
    ((a as int + b as int) % MODULUS as int) as u64
}

/// The field product of `a` and `b`.
pub open spec fn product(a: u64, b: u64) -> u64 {
    ((a as int * b as int) % MODULUS as int) as u64
}

/// `x` raised to the power `e`, by repeated multiplication.
pub open spec fn power(x: u64, e: nat) -> u64
    decreases e,
{
    if e == 0 {
        1
    } else {
        product(power(x, (e - 1) as nat), x)
    }
}

/// Every operation of the field returns a canonical element.
pub proof fn lemma_results_canonical(a: u64, b: u64, e: nat)
    ensures
        canonical(residue(a)),
        canonical(sum(a, b)),
        canonical(product(a, b)),
        canonical(power(a, e)),
{
    if e > 0 {
        assert(power(a, e) == product(power(a, (e - 1) as nat), a));
    }
}

/// A canonical element is its own residue.
pub proof fn lemma_residue_of_canonical(x: u64)
    requires
        canonical(x),
    ensures
        residue(x) == x,
{
}

/// The first power of an element is its residue.
pub proof fn lemma_power_one(x: u64)
    ensures
        power(x, 1) == residue(x),
{
    reveal_with_fuel(power, 2);
}

/// Adding a constant is injective on canonical elements.
pub proof fn lemma_sum_injective(a: u64, b: u64, c: u64)
    requires
        canonical(a),
        canonical(b),
        sum(a, c) == sum(b, c),
    ensures
        a == b,
{
    let m = MODULUS as int;
    if a > b {
        lemma_mod_equivalence(a as int + c as int, b as int + c as int, m);
        lemma_small_mod((a - b) as nat, m as nat);
    } else if a < b {
        lemma_mod_equivalence(b as int + c as int, a as int + c as int, m);
        lemma_small_mod((b - a) as nat, m as nat);
    }
}

/// The field product is associative.
pub proof fn lemma_product_associative(a: u64, b: u64, c: u64)
    ensures
        product(product(a, b), c) == product(a, product(b, c)),
{
    let m = MODULUS as int;
    lemma_mul_mod_noop_left(a as int * b as int, c as int, m);
    lemma_mul_mod_noop_right(a as int, b as int * c as int, m);
    lemma_mul_is_associative(a as int, b as int, c as int);
}

/// Powers of one element multiply by adding their exponents.
pub proof fn lemma_power_add(x: u64, a: nat, b: nat)
    ensures
        power(x, a + b) == product(power(x, a), power(x, b)),
    decreases b,
{
    if b == 0 {
        lemma_results_canonical(x, 0, a);
    } else {
        lemma_power_add(x, a, (b - 1) as nat);
        lemma_product_associative(power(x, a), power(x, (b - 1) as nat), x);
        assert(power(x, a + b) == product(power(x, (a + b - 1) as nat), x));
    }
}

/// The number of multiplications that raise an element to the power `e`
/// by squaring for each halving of the exponent and multiplying once more
/// where it is odd.
pub open spec fn power_steps(e: nat) -> nat
    decreases e,
{
    if e <= 1 {
        0
    } else if e % 2 == 0 {
        power_steps(e / 2) + 1
    } else {
        power_steps((e - 1) as nat) + 1
    }
}

/// Squaring and multiplying never takes more multiplications than the
/// exponent counts.
pub proof fn lemma_power_steps_bound(e: nat)
    ensures
        power_steps(e) <= e,
    decreases e,
{
    if e <= 1 {
    } else if e % 2 == 0 {
        lemma_power_steps_bound(e / 2);
    } else {
        lemma_power_steps_bound((e - 1) as nat);
    }
}

/// Reduces `x` to its canonical representative.
pub fn reduce(x: u64) -> (r: u64)
    ensures
        r == residue(x),
{
    x % MODULUS
}

/// Adds two field elements.
pub fn add_mod(a: u64, b: u64) -> (r: u64)
    ensures
        r == sum(a, b),
{
    let wide: u128 = a as u128 + b as u128;
    (wide % (MODULUS as u128)) as u64
}

/// Multiplies two field elements.
pub fn mul_mod(a: u64, b: u64) -> (r: u64)
    ensures
        r == product(a, b),
{
    assert(a as int * b as int <= 0xFFFF_FFFF_FFFF_FFFF * 0xFFFF_FFFF_FFFF_FFFF) by (nonlinear_arith)
        requires
            0 <= a as int <= 0xFFFF_FFFF_FFFF_FFFF,
            0 <= b as int <= 0xFFFF_FFFF_FFFF_FFFF,
    ;
    let wide: u128 = (a as u128) * (b as u128);
    (wide % (MODULUS as u128)) as u64
}

/// Raises `x` to the power `e` by squaring and multiplying.
pub fn pow_mod(x: u64, e: u64) -> (r: u64)
    ensures
        r == power(x, e as nat),
    decreases e,
{
    if e == 0 {
        1
    } else if e == 1 {
        proof {
            lemma_power_one(x);
        }
        reduce(x)
    } else if e % 2 == 0 {
        let half: u64 = pow_mod(x, e / 2);
        proof {
            lemma_power_add(x, (e / 2) as nat, (e / 2) as nat);
        }
        mul_mod(half, half)
    } else {
        let rest: u64 = pow_mod(x, e - 1);
        mul_mod(rest, x)
    }
}

/// Counts the multiplications of squaring and multiplying for the
/// exponent `e`.
pub fn count_power_steps(e: usize) -> (steps: usize)
    ensures
        steps == power_steps(e as nat),
    decreases e,
{
    proof {
        lemma_power_steps_bound(e as nat);
    }
    if e <= 1 {
        0
    } else if e % 2 == 0 {
        proof {
            lemma_power_steps_bound((e / 2) as nat);
        }
        count_power_steps(e / 2) + 1
    } else {
        proof {
            lemma_power_steps_bound((e - 1) as nat);
        }
        count_power_steps(e - 1) + 1
    }
}

} // verus!
