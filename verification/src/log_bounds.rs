//! How far the approximate binary logarithm lies from the true one: the
//! digits that the squarings find bracket a power of the number itself.

use crate::int256::{two_pow_128, two_pow_256, two_pow_64};
use crate::log_lemmas::{lemma_msb_bounds, lemma_normalized_bounds, lemma_square_step};
use crate::power_lemmas::{
    lemma_pow2_values, lemma_sq_pow_compose, lemma_sq_pow_monotonic, lemma_sq_pow_mul,
    lemma_sq_pow_nearby, lemma_sq_pow_one, lemma_sq_pow_positive, lemma_sq_pow_pow2,
    lemma_sq_pow_square, lemma_square_order, sq_pow,
};
use crate::tick_math::{log2_fraction, log2_q64, most_significant_bit, normalized, two_pow_127};
use vstd::arithmetic::div_mod::*;
use vstd::arithmetic::power2::*;
use vstd::prelude::*;

verus! {

/// The digits of `log2_fraction` as a whole number: the digit found with
/// `bits` digits to go has the weight `2^(bits - 1)`.
pub open spec fn log2_units(r: nat, bits: nat) -> nat
    decreases bits,
{
    if bits == 0 {
        0
    } else {
        let square = r * r / two_pow_127();
        let digit = square / two_pow_128();
        digit * pow2((bits - 1) as nat) + log2_units(square / pow2(digit), (bits - 1) as nat)
    }
}

/// `log2_fraction` is `log2_units` in units of 2^50.
pub proof fn lemma_log2_fraction_units(r: nat, bits: nat)
    ensures
        log2_fraction(r, bits) == log2_units(r, bits) * pow2(50),
    decreases bits,
{
    if bits == 0 {
        assert(0 * pow2(50) == 0);
    } else {
        let b = (bits - 1) as nat;
        let square = r * r / two_pow_127();
        let digit = square / two_pow_128();
        lemma_pow2_pos(digit);
        let next = square / pow2(digit);
        let weight = pow2(b);
        let unit = pow2(50);
        assert(log2_units(r, bits) == digit * weight + log2_units(next, b));
        assert(log2_fraction(r, bits) == digit * pow2(49 + bits) + log2_fraction(next, b));
        lemma_log2_fraction_units(next, b);
        lemma_pow2_adds(b, 50);
        assert(49 + bits == b + 50);
        let rest = log2_units(next, b);
        assert(digit * (weight * unit) + rest * unit == (digit * weight + rest) * unit)
            by (nonlinear_arith);
    }
}

/// What one squaring step does to a bound from below and to one from above
/// on a number `r` of exactly 128 bits, where `next` is what the step
/// carries on and `digit` the digit it finds.
pub proof fn lemma_square_step_bounds(r: nat, c: nat)
    requires
        two_pow_127() <= r < two_pow_128(),
        c <= two_pow_64(),
    ensures
        ({
            let square = r * r / two_pow_127();
            let digit = square / two_pow_128();
            let next = square / pow2(digit);
            &&& digit <= 1
            &&& two_pow_127() <= next < two_pow_128()
            &&& next * (pow2(digit) * two_pow_127()) <= r * r
            &&& (r + c) * (r + c) < (next + (4 * c + 3)) * (pow2(digit) * two_pow_127())
        }),
{
    lemma_square_step(r);
    lemma2_to64();
    let q = two_pow_127() as int;
    let square = ((r * r) as int) / q;
    let digit = square / (two_pow_128() as int);
    let p = pow2(digit as nat) as int;
    let next = square / p;
    lemma_fundamental_div_mod((r * r) as int, q);
    lemma_fundamental_div_mod(square, p);
    let rem = ((r * r) as int) % q;
    let rem2 = square % p;
    assert(r * r == q * square + rem);
    assert(square == p * next + rem2);
    assert(1 <= p <= 2);
    assert(next * (p * q) <= r * r) by (nonlinear_arith)
        requires
            r * r == q * square + rem,
            square == p * next + rem2,
            rem >= 0,
            rem2 >= 0,
            q > 0,
            p > 0,
    ;
    assert((r + c) * (r + c) < (next + (4 * c + 3)) * (p * q)) by (nonlinear_arith)
        requires
            r * r == q * square + rem,
            square == p * next + rem2,
            rem < q,
            rem2 < p,
            1 <= p,
            q == 0x8000_0000_0000_0000_0000_0000_0000_0000int,
            0 <= r < 2 * q,
            0 <= c <= 0x1_0000_0000_0000_0000int,
            next >= 0,
    ;
}

/// The digits bound the power of a number from below: where `r * z <= y`,
/// `(y / z)^(2^bits)` is at least `2^(127 * 2^bits + log2_units(r, bits))`.
pub proof fn lemma_chain_lower(r: nat, bits: nat, y: nat, z: nat)
    requires
        two_pow_127() <= r < two_pow_128(),
        r * z <= y,
    ensures
        pow2(127 * pow2(bits) + log2_units(r, bits)) * sq_pow(z, bits) <= sq_pow(y, bits),
    decreases bits,
{
    lemma_pow2_values();
    if bits == 0 {
        assert(127 * pow2(0) + log2_units(r, 0) == 127);
        assert(pow2(127) * z <= r * z) by (nonlinear_arith)
            requires
                pow2(127) <= r,
        ;
    } else {
        let b = (bits - 1) as nat;
        let square = r * r / two_pow_127();
        let digit = square / two_pow_128();
        let next = square / pow2(digit);
        lemma_square_step_bounds(r, 0);
        let shift = pow2(digit) * two_pow_127();
        lemma_pow2_adds(digit, 127);
        assert(shift == pow2(digit + 127));
        let y2 = y * y;
        let z2 = shift * (z * z);
        lemma_square_order(r * z, y);
        assert(next * z2 <= y2) by (nonlinear_arith)
            requires
                next * shift <= r * r,
                (r * z) * (r * z) <= y * y,
                z2 == shift * (z * z),
                y2 == y * y,
        ;
        lemma_chain_lower(next, b, y2, z2);
        lemma_sq_pow_square(y, b);
        lemma_sq_pow_square(z, b);
        lemma_sq_pow_mul(shift, z * z, b);
        lemma_sq_pow_pow2(digit + 127, b);
        lemma_pow2_unfold(bits);
        let e_rest = 127 * pow2(b) + log2_units(next, b);
        let e_shift = (digit + 127) * pow2(b);
        lemma_pow2_adds(e_rest, e_shift);
        assert(e_rest + e_shift == 127 * pow2(bits) + log2_units(r, bits)) by (nonlinear_arith)
            requires
                e_rest == 127 * pow2(b) + log2_units(next, b),
                e_shift == (digit + 127) * pow2(b),
                pow2(bits) == 2 * pow2(b),
                log2_units(r, bits) == digit * pow2(b) + log2_units(next, b),
        ;
        let zp = sq_pow(z, bits);
        assert(pow2(e_rest) * (pow2(e_shift) * zp) == (pow2(e_rest) * pow2(e_shift)) * zp)
            by (nonlinear_arith);
    }
}

/// The digits bound the power of a number from above: where
/// `y < (r + c) * z`, `(y / z)^(2^bits)` is below
/// `(2 + 4^bits * (c + 1) / 2^127) * 2^(127 * 2^bits + log2_units(r, bits))`.
pub proof fn lemma_chain_upper(r: nat, c: nat, bits: nat, y: nat, z: nat)
    requires
        two_pow_127() <= r < two_pow_128(),
        y < (r + c) * z,
        pow2(2 * bits) * (c + 1) <= two_pow_64(),
    ensures
        sq_pow(y, bits) * two_pow_127() < (two_pow_128() + pow2(2 * bits) * (c + 1)) * (pow2(
            127 * pow2(bits) + log2_units(r, bits),
        ) * sq_pow(z, bits)),
    decreases bits,
{
    lemma_pow2_values();
    lemma_pow2_pos(2 * bits);
    assert(c + 1 <= two_pow_64()) by (nonlinear_arith)
        requires
            pow2(2 * bits) * (c + 1) <= two_pow_64(),
            pow2(2 * bits) >= 1,
    ;
    if bits == 0 {
        assert(127 * pow2(0) + log2_units(r, 0) == 127);
        let bound = two_pow_128() + c + 1;
        assert(2 * bits == 0);
        assert(pow2(0) == 1);
        assert(pow2(2 * bits) == 1);
        assert(pow2(2 * bits) * (c + 1) == c + 1) by (nonlinear_arith)
            requires
                pow2(2 * bits) == 1,
        ;
        assert(y * two_pow_127() < bound * (two_pow_127() * z)) by (nonlinear_arith)
            requires
                y < (r + c) * z,
                r + c < bound,
                two_pow_127() > 0,
        ;
    } else {
        let b = (bits - 1) as nat;
        let square = r * r / two_pow_127();
        let digit = square / two_pow_128();
        let next = square / pow2(digit);
        lemma_square_step_bounds(r, c);
        let shift = pow2(digit) * two_pow_127();
        lemma_pow2_adds(digit, 127);
        let y2 = y * y;
        let z2 = shift * (z * z);
        let c2 = 4 * c + 3;
        lemma_square_order(y, (r + c) * z);
        assert(y2 < (next + c2) * z2) by (nonlinear_arith)
            requires
                (r + c) * (r + c) < (next + c2) * shift,
                y * y < ((r + c) * z) * ((r + c) * z),
                z2 == shift * (z * z),
                y2 == y * y,
        ;
        lemma_pow2_adds(2 * b, 2);
        lemma2_to64();
        assert(2 * bits == 2 * b + 2);
        assert(pow2(2 * b) * (c2 + 1) == pow2(2 * bits) * (c + 1)) by (nonlinear_arith)
            requires
                pow2(2 * bits) == pow2(2 * b) * 4,
                c2 == 4 * c + 3,
        ;
        lemma_chain_upper(next, c2, b, y2, z2);
        lemma_sq_pow_square(y, b);
        lemma_sq_pow_square(z, b);
        lemma_sq_pow_mul(shift, z * z, b);
        lemma_sq_pow_pow2(digit + 127, b);
        lemma_pow2_unfold(bits);
        let e_rest = 127 * pow2(b) + log2_units(next, b);
        let e_shift = (digit + 127) * pow2(b);
        lemma_pow2_adds(e_rest, e_shift);
        assert(e_rest + e_shift == 127 * pow2(bits) + log2_units(r, bits)) by (nonlinear_arith)
            requires
                e_rest == 127 * pow2(b) + log2_units(next, b),
                e_shift == (digit + 127) * pow2(b),
                pow2(bits) == 2 * pow2(b),
                log2_units(r, bits) == digit * pow2(b) + log2_units(next, b),
        ;
        let zp = sq_pow(z, bits);
        assert(pow2(e_rest) * (pow2(e_shift) * zp) == (pow2(e_rest) * pow2(e_shift)) * zp)
            by (nonlinear_arith);
    }
}

/// The approximate binary logarithm of a number, counted from 2^0 in units of
/// 2^-14: `2^14` times the index of the most significant bit, and the
/// fourteen digits of the fraction.
pub open spec fn log2_total_units(x: nat) -> nat {
    most_significant_bit(x) * 16384 + log2_units(normalized(x), 14)
}

/// `log2_q64` is `log2_total_units`, counted from 2^128 and in units of 2^50.
pub proof fn lemma_log2_q64_units(x: nat)
    ensures
        log2_q64(x) == (log2_total_units(x) - 128 * 16384) * pow2(50),
{
    lemma_log2_fraction_units(normalized(x), 14);
    lemma2_to64();
    lemma2_to64_rest();
}

/// The approximate logarithm brackets the 2^14-th power of the number: the
/// power is at least two to the logarithm, and below two to the logarithm
/// and one, but for a factor of `1 + 2^-99`.
pub proof fn lemma_log_brackets(x: nat)
    requires
        1 <= x < two_pow_256(),
    ensures
        pow2(log2_total_units(x)) <= sq_pow(x, 14),
        sq_pow(x, 14) * two_pow_127() < (two_pow_128() + 0x2000_0000) * pow2(log2_total_units(x)),
{
    lemma_pow2_values();
    lemma2_to64();
    lemma_msb_bounds(x);
    lemma_normalized_bounds(x);
    let m = most_significant_bit(x);
    let r = normalized(x);
    let units = log2_units(r, 14);
    let h = log2_total_units(x);
    let base = 127 * pow2(14) + units;
    assert(pow2(28) == 0x1000_0000);
    assert(pow2(14) == 16384);
    let margin = pow2(2 * 14) * (1nat + 1);
    assert(pow2(2 * 14) == 0x1000_0000);
    assert(margin == 0x2000_0000) by (nonlinear_arith)
        requires
            margin == pow2(2 * 14) * (1nat + 1),
            pow2(2 * 14) == 0x1000_0000,
    ;
    if m >= 128 {
        let shift = (m - 127) as nat;
        let z = pow2(shift);
        lemma_pow2_pos(shift);
        lemma_fundamental_div_mod(x as int, z as int);
        assert(r * z <= x && x < (r + 1) * z) by (nonlinear_arith)
            requires
                x == z * (x / z) + x % z,
                0 <= x % z < z,
                r == x / z,
        ;
        lemma_chain_lower(r, 14, x, z);
        lemma_chain_upper(r, 1, 14, x, z);
        lemma_sq_pow_pow2(shift, 14);
        lemma_pow2_adds(base, shift * pow2(14));
        assert(base + shift * pow2(14) == h);
    } else {
        let shift = (127 - m) as nat;
        let z = pow2(shift);
        lemma_pow2_pos(shift);
        assert(r * 1 <= r && r < (r + 1) * 1) by (nonlinear_arith);
        lemma_chain_lower(r, 14, r, 1);
        lemma_chain_upper(r, 1, 14, r, 1);
        lemma_sq_pow_one(14);
        lemma_sq_pow_mul(x, z, 14);
        lemma_sq_pow_pow2(shift, 14);
        let scale = pow2(shift * pow2(14));
        lemma_pow2_pos(shift * pow2(14));
        lemma_pow2_adds(h, shift * pow2(14));
        assert(h + shift * pow2(14) == base);
        let p = sq_pow(x, 14);
        assert(sq_pow(r, 14) == p * scale);
        assert(pow2(base) == pow2(h) * scale);
        assert(pow2(h) <= p) by (nonlinear_arith)
            requires
                pow2(h) * scale * 1 <= p * scale,
                scale > 0,
        ;
        let bound = two_pow_128() + 0x2000_0000;
        let q = two_pow_127();
        assert(p * q < bound * pow2(h)) by (nonlinear_arith)
            requires
                (p * scale) * q < bound * ((pow2(h) * scale) * 1),
                scale > 0,
        ;
    }
}

/// The bracket of `lemma_log_brackets`, raised to the 2^28-th power of the
/// number.
pub proof fn lemma_log_brackets_raised(x: nat)
    requires
        1 <= x < two_pow_256(),
    ensures
        pow2(log2_total_units(x) * 16384) <= sq_pow(x, 28),
        sq_pow(x, 28) <= pow2((log2_total_units(x) + 1) * 16384 + 1),
{
    lemma_log_brackets(x);
    lemma2_to64();
    lemma2_to64_rest();
    lemma_pow2_values();
    let h = log2_total_units(x);
    let y = sq_pow(x, 14);
    lemma_sq_pow_compose(x, 14, 14);
    lemma_sq_pow_monotonic(pow2(h), y, 14);
    lemma_sq_pow_pow2(h, 14);
    let w = 0x8_0000_0000_0000_0000_0000_0000nat;
    lemma_pow2_unfold(h + 1);
    let top = pow2(h + 1);
    assert(y * w <= (w + 1) * top) by (nonlinear_arith)
        requires
            y * two_pow_127() < (two_pow_128() + 0x2000_0000) * pow2(h),
            top == 2 * pow2(h),
            w == 0x8_0000_0000_0000_0000_0000_0000nat,
            two_pow_127() == 0x8000_0000_0000_0000_0000_0000_0000_0000nat,
            two_pow_128() == 0x1_0000_0000_0000_0000_0000_0000_0000_0000nat,
    ;
    lemma_sq_pow_monotonic(y * w, (w + 1) * top, 14);
    lemma_sq_pow_mul(y, w, 14);
    lemma_sq_pow_mul((w + 1) as nat, top, 14);
    lemma_sq_pow_pow2(h + 1, 14);
    assert(pow2(28) == 0x1000_0000);
    assert(pow2(14) == 16384);
    assert(pow2(2 * 14) * 1 <= w);
    lemma_sq_pow_nearby(w, 1, 14);
    lemma_sq_pow_positive(w, 14);
    let yp = sq_pow(y, 14);
    let wp = sq_pow(w, 14);
    let wp1 = sq_pow((w + 1) as nat, 14);
    let tp = pow2((h + 1) * pow2(14));
    assert(yp <= 2 * tp) by (nonlinear_arith)
        requires
            yp * wp <= wp1 * tp,
            wp1 <= 2 * wp,
            wp > 0,
            tp >= 0,
    ;
    lemma_pow2_unfold((h + 1) * 16384 + 1);
}

} // verus!
