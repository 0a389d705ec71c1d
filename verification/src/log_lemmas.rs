//! Facts about the binary logarithm that the price-to-tick conversion
//! approximates.

use crate::int256::{two_pow_128, two_pow_256, two_pow_64};
use crate::power_lemmas::lemma_pow2_values;
use crate::tick_math::{
    log2_fraction, log2_q64, log_sqrt10001, most_significant_bit, normalized, price_in_range,
    sqrt_10001, tick_high_candidate, tick_high_error, tick_low_candidate,
    tick_low_error, two_pow_127, two_pow_32, MAX_TICK, MIN_TICK,
};
use vstd::arithmetic::div_mod::*;
use vstd::arithmetic::mul::*;
use vstd::arithmetic::power2::*;
use vstd::prelude::*;

verus! {

/// A number between two neighbouring powers of two has the exponent of the
/// lower one as the index of its most significant bit.
pub proof fn lemma_msb_unique(x: nat, m: nat)
    requires
        pow2(m) <= x < pow2(m + 1),
    ensures
        most_significant_bit(x) == m,
    decreases m,
{
    lemma2_to64();
    if m > 0 {
        lemma_pow2_unfold(m);
        lemma_pow2_unfold(m + 1);
        lemma_msb_unique(x / 2, (m - 1) as nat);
    }
}

/// Dividing by two powers of two in turn divides by the power of the sum.
pub proof fn lemma_div_pow2_twice(x: nat, a: nat, b: nat)
    ensures
        (x / pow2(a)) / pow2(b) == x / pow2(a + b),
{
    lemma_pow2_pos(a);
    lemma_pow2_pos(b);
    lemma_pow2_adds(a, b);
    lemma_div_denominator(x as int, pow2(a) as int, pow2(b) as int);
}

/// A number below 2^(a+b) divided by 2^a is below 2^b, and one that is at
/// least 2^(a+b) stays at least 2^b.
pub proof fn lemma_div_pow2_bounds(x: nat, a: nat, b: nat)
    ensures
        x < pow2(a + b) ==> x / pow2(a) < pow2(b),
        x >= pow2(a + b) ==> x / pow2(a) >= pow2(b),
{
    lemma_pow2_pos(a);
    lemma_pow2_pos(b);
    lemma_pow2_adds(a, b);
    let d = pow2(a) as int;
    let pb = pow2(b) as int;
    let q = (x as int) / d;
    let r = (x as int) % d;
    lemma_fundamental_div_mod(x as int, d);
    assert(x < d * pb ==> q < pb) by (nonlinear_arith)
        requires
            x == d * q + r,
            0 <= r < d,
    ;
    assert(x >= d * pb ==> q >= pb) by (nonlinear_arith)
        requires
            x == d * q + r,
            0 <= r < d,
    ;
}

/// One squaring step on a number of exactly 128 bits: the square fits in 256
/// bits, its top digit is zero or one, and what is carried on has 128 bits
/// again.
pub proof fn lemma_square_step(r: nat)
    requires
        two_pow_127() <= r < two_pow_128(),
    ensures
        r * r < two_pow_256(),
        two_pow_127() <= r * r / two_pow_127(),
        r * r / two_pow_127() / two_pow_128() <= 1,
        two_pow_127() <= (r * r / two_pow_127()) / pow2(r * r / two_pow_127() / two_pow_128())
            < two_pow_128(),
{
    lemma2_to64();
    let lo = two_pow_127() as int;
    let hi = two_pow_128() as int;
    let sq = (r * r) as int;
    assert(lo * lo <= sq < hi * hi) by (nonlinear_arith)
        requires
            lo <= r < hi,
            sq == r * r,
            lo > 0,
    ;
    assert(lo * lo == 0x4000_0000_0000_0000_0000_0000_0000_0000_0000_0000_0000_0000_0000_0000_0000_0000int);
    assert(hi * hi == two_pow_256());
    let square = sq / lo;
    assert(lo <= square < 4 * lo);
    let digit = square / hi;
    assert(digit == 0 || digit == 1);
    assert(pow2(0) == 1);
    assert(pow2(1) == 2);
}

/// Setting a bit in a limb whose bits up to that position are clear adds its
/// weight, and leaves the bits below it clear.
pub proof fn lemma_or_sets_clear_bit(x: u64, digit: u64, position: u64, up: u64, up_next: u64)
    by (bit_vector)
    requires
        1 <= position < 64,
        digit <= 1,
        up == 63 - position,
        up_next == 64 - position,
        x << up == 0,
    ensures
        (x | (digit << position)) == x + (digit << position),
        (x | (digit << position)) << up_next == 0,
{
}

/// Or with zero changes nothing.
pub proof fn lemma_or_zero(x: u64)
    by (bit_vector)
    ensures
        x | 0 == x,
{
}

/// A positive number lies between the power of two of its most significant
/// bit and the next.
pub proof fn lemma_msb_bounds(x: nat)
    requires
        x >= 1,
    ensures
        pow2(most_significant_bit(x)) <= x < pow2(most_significant_bit(x) + 1),
    decreases x,
{
    lemma2_to64();
    if x > 1 {
        lemma_msb_bounds(x / 2);
        lemma_pow2_unfold(most_significant_bit(x));
        lemma_pow2_unfold(most_significant_bit(x) + 1);
    }
}

/// A normalised number has exactly 128 bits.
pub proof fn lemma_normalized_bounds(value: nat)
    requires
        1 <= value < two_pow_256(),
    ensures
        two_pow_127() <= normalized(value) < two_pow_128(),
{
    lemma_pow2_values();
    lemma_msb_bounds(value);
    let msb = most_significant_bit(value);
    if msb >= 128 {
        lemma_pow2_adds((msb - 127) as nat, 127);
        lemma_pow2_adds((msb - 127) as nat, 128);
        lemma_div_pow2_bounds(value, (msb - 127) as nat, 127);
        lemma_div_pow2_bounds(value, (msb - 127) as nat, 128);
    } else {
        let scale = pow2((127 - msb) as nat);
        lemma_pow2_pos((127 - msb) as nat);
        lemma_pow2_adds(msb, (127 - msb) as nat);
        lemma_pow2_adds(msb + 1, (127 - msb) as nat);
        assert(pow2(msb) * scale <= value * scale < pow2(msb + 1) * scale) by (nonlinear_arith)
            requires
                pow2(msb) <= value < pow2(msb + 1),
                scale > 0,
        ;
    }
}

/// The digits of the fraction stay below the weight of the digit above them.
pub proof fn lemma_log2_fraction_bound(r: nat, bits: nat)
    requires
        two_pow_127() <= r < two_pow_128(),
    ensures
        log2_fraction(r, bits) + pow2(50) <= pow2(50 + bits),
    decreases bits,
{
    if bits > 0 {
        lemma_square_step(r);
        let square = r * r / two_pow_127();
        let digit = square / two_pow_128();
        lemma_log2_fraction_bound(square / pow2(digit), (bits - 1) as nat);
        lemma_pow2_unfold(50 + bits);
        assert(digit * pow2(49 + bits) <= pow2(49 + bits)) by (nonlinear_arith)
            requires
                digit <= 1,
        ;
    }
}

/// The approximate logarithm of a price in range lies in the 128 integer
/// units around zero.
pub proof fn lemma_log2_q64_bounds(price: nat)
    requires
        price_in_range(price),
    ensures
        -64 * two_pow_64() <= log2_q64(price * two_pow_32()) <= 64 * two_pow_64()
            - 0x4_0000_0000_0000,
{
    let value = price * two_pow_32();
    lemma_pow2_values();
    lemma2_to64();
    lemma_msb_bounds(value);
    let msb = most_significant_bit(value);
    assert(pow2(64) <= value < pow2(192));
    if msb < 63 {
        lemma_pow2_strictly_increases(msb + 1, 64);
    }
    if msb > 192 {
        lemma_pow2_strictly_increases(192, msb);
    }
    assert(64 <= msb <= 191);
    lemma_normalized_bounds(value);
    lemma_log2_fraction_bound(normalized(value), 14);
    lemma2_to64_rest();
    assert(log2_fraction(normalized(value), 14) + 0x4_0000_0000_0000 <= two_pow_64());
    assert((msb - 128) * two_pow_64() >= -64 * two_pow_64());
    assert((msb - 128) * two_pow_64() <= 63 * two_pow_64());
}

/// The two candidates for the tick of a price in range: the higher is the
/// lower or the one after it, and only the lower can leave the range of
/// ticks, by one at the low end.
pub proof fn lemma_tick_candidates(price: nat)
    requires
        price_in_range(price),
    ensures
        -64 * two_pow_64() <= log2_q64(price * two_pow_32()) <= 64 * two_pow_64()
            - 0x4_0000_0000_0000,
        -0x1000_0000 * two_pow_128() <= log_sqrt10001(price) <= 0x1000_0000 * two_pow_128(),
        tick_low_candidate(price) <= tick_high_candidate(price) <= tick_low_candidate(price) + 1,
        MIN_TICK - 1 <= tick_low_candidate(price),
        MIN_TICK <= tick_high_candidate(price) <= MAX_TICK,
{
    lemma_log2_q64_bounds(price);
    let log_2 = log2_q64(price * two_pow_32());
    let s = sqrt_10001();
    let scaled = log_2 * s;
    let least = -64 * two_pow_64();
    let most = 64 * two_pow_64() - 0x4_0000_0000_0000;
    assert(least * s <= scaled <= most * s) by (nonlinear_arith)
        requires
            least <= log_2 <= most,
            scaled == log_2 * s,
            s > 0,
    ;
    let q = two_pow_128() as int;
    let low = (scaled - tick_low_error()) / q;
    let high = (scaled + tick_high_error()) / q;
    lemma_fundamental_div_mod(scaled - tick_low_error(), q);
    lemma_fundamental_div_mod(scaled + tick_high_error(), q);
    assert(least * s == -301923272085925880617572551717740177505910784);
    assert(most * s == 301922984149455766933985842149190336826572800);
}

} // verus!
