//! Saturating wide arithmetic for the trail-weight computation, with
//! exact specifications.

use vstd::prelude::*;
use vstd::arithmetic::mul::{lemma_mul_inequality, lemma_mul_is_commutative};
use vstd::arithmetic::div_mod::{lemma_fundamental_div_mod, lemma_mod_bound};

verus! {

/// Addition capped at `u128::MAX`.
pub open spec fn sat_add_spec(a: int, b: int) -> int {
    if a + b > u128::MAX as int {
        u128::MAX as int
    } else {
        a + b
    }
}

/// Multiplication capped at `u128::MAX`.
pub open spec fn sat_mul_spec(a: int, b: int) -> int {
    if a * b > u128::MAX as int {
        u128::MAX as int
    } else {
        a * b
    }
}

/// Iterated saturating multiplication: `b` to the power `e`, capping
/// every intermediate product at `u128::MAX`.
pub open spec fn pow_sat_spec(b: int, e: nat) -> int
    decreases e,
{
    if e == 0 {
        1
    } else {
        sat_mul_spec(pow_sat_spec(b, (e - 1) as nat), b)
    }
}

/// A saturating power of a positive base stays between one and the cap.
pub proof fn lemma_pow_sat_pos(b: int, e: nat)
    requires
        1 <= b <= u128::MAX as int,
    ensures
        1 <= pow_sat_spec(b, e) <= u128::MAX as int,
    decreases e,
{
    if e > 0 {
        lemma_pow_sat_pos(b, (e - 1) as nat);
        lemma_mul_inequality(1, pow_sat_spec(b, (e - 1) as nat), b);
    }
}

pub fn sat_add(a: u128, b: u128) -> (r: u128)
    ensures
        r as int == sat_add_spec(a as int, b as int),
{
    if a <= u128::MAX - b {
        a + b
    } else {
        u128::MAX
    }
}

pub fn sat_mul(a: u128, b: u128) -> (r: u128)
    ensures
        r as int == sat_mul_spec(a as int, b as int),
{
    if b == 0 {
        return 0;
    }
    let q = u128::MAX / b;
    proof {
        lemma_fundamental_div_mod(u128::MAX as int, b as int);
        lemma_mod_bound(u128::MAX as int, b as int);
        lemma_mul_is_commutative(b as int, q as int);
    }
    if a <= q {
        proof {
            lemma_mul_inequality(a as int, q as int, b as int);
        }
        a * b
    } else {
        proof {
            lemma_mul_inequality(q as int + 1, a as int, b as int);
            assert((q as int + 1) * (b as int) == (q as int) * (b as int) + b as int)
                by (nonlinear_arith);
        }
        u128::MAX
    }
}

/// `base` to the power `exp`, with every intermediate product capped at
/// `u128::MAX`.
pub fn pow_sat(base: u64, exp: u32) -> (r: u128)
    ensures
        r as int == pow_sat_spec(base as int, exp as nat),
{
    let mut r: u128 = 1;
    let mut i: u32 = 0;
    while i < exp
        invariant
            i <= exp,
            r as int == pow_sat_spec(base as int, i as nat),
        decreases exp - i,
    {
        r = sat_mul(r, base as u128);
        i = i + 1;
    }
    r
}

} // verus!
