//! Powers whose exponent is a power of two, built by repeated squaring.

use crate::int256::{two_pow_128, two_pow_192, two_pow_255, two_pow_256, two_pow_64};
use crate::tick_math::two_pow_32;
use vstd::arithmetic::power2::*;
use vstd::prelude::*;

verus! {

/// `x^(2^j)`: `x` squared `j` times.
pub open spec fn sq_pow(x: nat, j: nat) -> nat
    decreases j,
{
    if j == 0 {
        x
    } else {
        sq_pow(x, (j - 1) as nat) * sq_pow(x, (j - 1) as nat)
    }
}

/// A power of a positive number is positive.
pub proof fn lemma_sq_pow_positive(x: nat, j: nat)
    requires
        x > 0,
    ensures
        sq_pow(x, j) > 0,
    decreases j,
{
    if j > 0 {
        lemma_sq_pow_positive(x, (j - 1) as nat);
        let p = sq_pow(x, (j - 1) as nat);
        assert(p * p > 0) by (nonlinear_arith)
            requires
                p > 0,
        ;
    }
}

/// Powers keep the order of their bases.
pub proof fn lemma_sq_pow_monotonic(x: nat, y: nat, j: nat)
    requires
        x <= y,
    ensures
        sq_pow(x, j) <= sq_pow(y, j),
    decreases j,
{
    if j > 0 {
        lemma_sq_pow_monotonic(x, y, (j - 1) as nat);
        let p = sq_pow(x, (j - 1) as nat);
        let q = sq_pow(y, (j - 1) as nat);
        assert(p * p <= q * q) by (nonlinear_arith)
            requires
                p <= q,
        ;
    }
}

/// Powers keep the strict order of their bases.
pub proof fn lemma_sq_pow_strict(x: nat, y: nat, j: nat)
    requires
        x < y,
    ensures
        sq_pow(x, j) < sq_pow(y, j),
    decreases j,
{
    if j > 0 {
        lemma_sq_pow_strict(x, y, (j - 1) as nat);
        let p = sq_pow(x, (j - 1) as nat);
        let q = sq_pow(y, (j - 1) as nat);
        assert(p * p < q * q) by (nonlinear_arith)
            requires
                p < q,
        ;
    }
}

/// The power of a product is the product of the powers.
pub proof fn lemma_sq_pow_mul(x: nat, y: nat, j: nat)
    ensures
        sq_pow(x * y, j) == sq_pow(x, j) * sq_pow(y, j),
    decreases j,
{
    if j > 0 {
        lemma_sq_pow_mul(x, y, (j - 1) as nat);
        let p = sq_pow(x, (j - 1) as nat);
        let q = sq_pow(y, (j - 1) as nat);
        assert((p * q) * (p * q) == (p * p) * (q * q)) by (nonlinear_arith);
    }
}

/// Squaring first and then taking the power is the next power.
pub proof fn lemma_sq_pow_square(x: nat, j: nat)
    ensures
        sq_pow(x * x, j) == sq_pow(x, j + 1),
    decreases j,
{
    if j == 0 {
        assert(sq_pow(x, 1) == sq_pow(x, 0) * sq_pow(x, 0));
    } else {
        lemma_sq_pow_square(x, (j - 1) as nat);
        assert(sq_pow(x, j + 1) == sq_pow(x, j) * sq_pow(x, j));
    }
}

/// A power of a power is the power of the sum of the two counts of squarings.
pub proof fn lemma_sq_pow_compose(x: nat, i: nat, j: nat)
    ensures
        sq_pow(sq_pow(x, i), j) == sq_pow(x, i + j),
    decreases j,
{
    if j > 0 {
        lemma_sq_pow_compose(x, i, (j - 1) as nat);
    }
}

/// The power of a power of two doubles the exponent with each squaring.
pub proof fn lemma_sq_pow_pow2(a: nat, j: nat)
    ensures
        sq_pow(pow2(a), j) == pow2(a * pow2(j)),
    decreases j,
{
    lemma2_to64();
    if j == 0 {
        assert(a * 1 == a);
    } else {
        lemma_sq_pow_pow2(a, (j - 1) as nat);
        let half = a * pow2((j - 1) as nat);
        lemma_pow2_adds(half, half);
        lemma_pow2_unfold(j);
        assert(a * pow2(j) == half + half) by (nonlinear_arith)
            requires
                half == a * pow2((j - 1) as nat),
                pow2(j) == 2 * pow2((j - 1) as nat),
        ;
    }
}

/// A base that is raised by a small part of itself at most doubles its power:
/// `(big + small)^(2^j) <= 2 * big^(2^j)` where `4^j * small <= big`.
pub proof fn lemma_sq_pow_nearby(big: nat, small: nat, j: nat)
    requires
        pow2(2 * j) * small <= big,
        big > 0,
    ensures
        sq_pow(big + small, j) * big <= sq_pow(big, j) * (big + pow2(2 * j) * small),
        sq_pow(big + small, j) <= 2 * sq_pow(big, j),
    decreases j,
{
    lemma2_to64();
    lemma_sq_pow_positive(big, j);
    if j == 0 {
        assert((big + small) * big == big * (big + 1 * small)) by (nonlinear_arith);
    } else {
        let i = (j - 1) as nat;
        lemma_pow2_adds(2 * i, 2);
        lemma_pow2_pos(2 * i);
        let a = pow2(2 * i) * small;
        assert(pow2(2 * j) * small == 4 * a) by (nonlinear_arith)
            requires
                pow2(2 * j) == pow2(2 * i) * 4,
                a == pow2(2 * i) * small,
        ;
        lemma_sq_pow_nearby(big, small, i);
        let p = sq_pow(big + small, i);
        let q = sq_pow(big, i);
        assert((p * p) * big <= (q * q) * (big + 4 * a)) by (nonlinear_arith)
            requires
                p * big <= q * (big + a),
                4 * a <= big,
                big > 0,
        ;
    }
    let p = sq_pow(big + small, j);
    let q = sq_pow(big, j);
    let extra = pow2(2 * j) * small;
    assert(p <= 2 * q) by (nonlinear_arith)
        requires
            p * big <= q * (big + extra),
            extra <= big,
            big > 0,
    ;
}

/// Squaring keeps an order between two numbers.
pub proof fn lemma_square_order(a: nat, b: nat)
    ensures
        a <= b ==> a * a <= b * b,
        a < b ==> a * a < b * b,
{
    assert(a <= b ==> a * a <= b * b) by (nonlinear_arith);
    assert(a < b ==> a * a < b * b) by (nonlinear_arith);
}

/// The power of one is one.
pub proof fn lemma_sq_pow_one(j: nat)
    ensures
        sq_pow(1, j) == 1,
    decreases j,
{
    if j > 0 {
        lemma_sq_pow_one((j - 1) as nat);
        assert(sq_pow(1, j) == sq_pow(1, (j - 1) as nat) * sq_pow(1, (j - 1) as nat));
    }
}

/// Two powers of two are ordered as their exponents.
pub proof fn lemma_pow2_order(a: nat, b: nat)
    ensures
        a <= b ==> pow2(a) <= pow2(b),
        a < b ==> pow2(a) < pow2(b),
        pow2(a) <= pow2(b) ==> a <= b,
        pow2(a) < pow2(b) ==> a < b,
{
    if a < b {
        lemma_pow2_strictly_increases(a, b);
    }
    if b < a {
        lemma_pow2_strictly_increases(b, a);
    }
}

/// The powers of two that the fixed-point formats use.
pub proof fn lemma_pow2_values()
    ensures
        pow2(0) == 1,
        pow2(1) == 2,
        pow2(32) == two_pow_32(),
        pow2(64) == two_pow_64(),
        pow2(127) == 0x8000_0000_0000_0000_0000_0000_0000_0000nat,
        pow2(128) == two_pow_128(),
        pow2(192) == two_pow_192(),
        pow2(255) == two_pow_255(),
        pow2(256) == two_pow_256(),
{
    lemma2_to64();
    lemma2_to64_rest();
    lemma_pow2_adds(64, 63);
    lemma_pow2_adds(64, 64);
    lemma_pow2_adds(128, 64);
    lemma_pow2_adds(128, 127);
    lemma_pow2_adds(128, 128);
    let a = pow2(127);
    let b = pow2(128);
    assert(b * a == two_pow_255()) by (nonlinear_arith)
        requires
            a == 0x8000_0000_0000_0000_0000_0000_0000_0000nat,
            b == two_pow_128(),
    ;
    assert(b * b == two_pow_256()) by (nonlinear_arith)
        requires
            b == two_pow_128(),
    ;
}

} // verus!
