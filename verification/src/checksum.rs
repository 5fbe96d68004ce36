//! Bucket checksums: signed 32-bit values under wrapping addition.
use vstd::prelude::*;

verus! {

/// The number of distinct values of a 32-bit accumulator.
pub open spec fn modulus() -> int {
    0x1_0000_0000
}

/// What a wrapping signed 32-bit accumulator holds once the weights absorbed
/// into it add up to `total`.
pub open spec fn wrap32(total: int) -> i32 {
    let m = total % modulus();
    if m > i32::MAX {
        (m - modulus()) as i32
    } else {
        m as i32
    }
}

/// The wrapping sum of two checksums.
pub open spec fn combine(a: i32, b: i32) -> i32 {
    wrap32(a + b)
}

/// A value that already fits the accumulator is held unchanged.
pub proof fn lemma_wrap32_fits(x: int)
    requires
        i32::MIN <= x <= i32::MAX,
    ensures
        wrap32(x) == x,
{
    if x >= 0 {
        vstd::arithmetic::div_mod::lemma_small_mod(x as nat, modulus() as nat);
    } else {
        vstd::arithmetic::div_mod::lemma_small_mod((x + modulus()) as nat, modulus() as nat);
        vstd::arithmetic::div_mod::lemma_mod_add_multiples_vanish(x, modulus());
    }
}

/// Two totals that differ by a multiple of the modulus are held as one value.
pub proof fn lemma_wrap32_congruent(x: int, k: int)
    ensures
        wrap32(x + k * modulus()) == wrap32(x),
{
    vstd::arithmetic::div_mod::lemma_mod_multiples_vanish(k, x, modulus());
}

/// The accumulator differs from the total it absorbed by a multiple of the
/// modulus.
pub proof fn lemma_wrap32_residue(x: int) -> (k: int)
    ensures
        wrap32(x) == x + k * modulus(),
{
    vstd::arithmetic::div_mod::lemma_fundamental_div_mod(x, modulus());
    let q = x / modulus();
    assert(x == modulus() * q + x % modulus());
    assert(modulus() * q == q * modulus()) by (nonlinear_arith);
    if x % modulus() > i32::MAX {
        assert((-q - 1) * modulus() == -(q * modulus()) - modulus()) by (nonlinear_arith);
        -q - 1
    } else {
        assert((-q) * modulus() == -(q * modulus())) by (nonlinear_arith);
        -q
    }
}

/// Absorbing a weight into an accumulator gives what the accumulator would
/// hold had the weight been part of the total all along.
pub proof fn lemma_wrap32_absorb(x: int, y: int)
    ensures
        wrap32(wrap32(x) + y) == wrap32(x + y),
{
    let k = lemma_wrap32_residue(x);
    assert(wrap32(x) + y == (x + y) + k * modulus());
    lemma_wrap32_congruent(x + y, k);
}

/// Adds two checksums with wrap-around.
pub fn checksum_add(a: i32, b: i32) -> (sum: i32)
    ensures
        sum == combine(a, b),
{
    let sum: i32 = a.wrapping_add(b);
    proof {
        if a + b > i32::MAX {
            lemma_wrap32_fits(a + b - modulus());
            lemma_wrap32_congruent(a + b, -1);
        } else if a + b < i32::MIN {
            lemma_wrap32_fits(a + b + modulus());
            lemma_wrap32_congruent(a + b, 1);
        } else {
            lemma_wrap32_fits(a + b);
        }
    }
    sum
}

} // verus!
