//! The two conversions are inverse to each other: the tick of a price is the
//! greatest tick whose own price does not exceed it.

use crate::int256::{two_pow_128, two_pow_256, two_pow_64};
use crate::log_bounds::{lemma_log2_q64_units, lemma_log_brackets_raised, log2_total_units};
use crate::log_lemmas::lemma_tick_candidates;
use crate::power_lemmas::{
    lemma_pow2_order, lemma_pow2_values, lemma_sq_pow_monotonic, lemma_sq_pow_mul,
    lemma_sq_pow_nearby, lemma_sq_pow_pow2, lemma_sq_pow_strict, sq_pow,
};
use crate::ratio_bounds::{exponent_sum, lemma_ratio_power_bounds, unit_scale, unit_slack};
use crate::ratio_lemmas::{lemma_sqrt_ratio_at_ends, lemma_sqrt_ratio_strictly_increasing};
use crate::tick_math::{
    log2_q64, log_sqrt10001, max_sqrt_price, min_sqrt_price, price_in_range, ratio_q128,
    round_up_q96, sqrt_10001, sqrt_ratio_at_tick, tick_at_sqrt_ratio, tick_high_candidate,
    tick_high_error, tick_low_candidate, tick_low_error, two_pow_32, MAX_TICK, MIN_TICK,
};
use vstd::arithmetic::div_mod::*;
use vstd::arithmetic::power2::*;
use vstd::prelude::*;

verus! {

/// The price in Q128, the format of the ratios.
pub open spec fn price_q128(price: nat) -> nat {
    price * two_pow_32()
}

/// What the approximate logarithm of a price in range says of the price: its
/// 2^28-th power lies between two powers of two that are `2^14 + 1` apart.
pub proof fn lemma_price_power_bounds(price: nat)
    requires
        price_in_range(price),
    ensures
        0x1_0000_0000_0000_0000 <= price_q128(price) < two_pow_256(),
        log2_q64(price_q128(price)) == (log2_total_units(price_q128(price)) - 0x20_0000) * pow2(
            50,
        ),
        pow2(log2_total_units(price_q128(price)) * 16384) <= sq_pow(price_q128(price), 28),
        sq_pow(price_q128(price), 28) <= pow2(
            (log2_total_units(price_q128(price)) + 1) * 16384 + 1,
        ),
{
    let x = price_q128(price);
    lemma_log2_q64_units(x);
    lemma_log_brackets_raised(x);
}

/// A ratio that does not exceed the price rounds up to a Q96 number that
/// does not exceed it either, and a ratio above the price to one above it.
pub proof fn lemma_round_up_against_price(ratio: nat, price: nat)
    ensures
        ratio <= price_q128(price) ==> round_up_q96(ratio) <= price,
        price_q128(price) < ratio ==> price < round_up_q96(ratio),
{
}

/// The price of the lower candidate does not exceed the price, where the
/// candidate is a tick at all.
pub proof fn lemma_low_candidate_at_most_price(price: nat)
    requires
        price_in_range(price),
        MIN_TICK <= tick_low_candidate(price),
    ensures
        sqrt_ratio_at_tick(tick_low_candidate(price)) <= price,
{
    lemma_tick_candidates(price);
    lemma_price_power_bounds(price);
    lemma_pow2_values();
    lemma2_to64();
    lemma2_to64_rest();
    let x = price_q128(price);
    let h = log2_total_units(x);
    let log_2 = log2_q64(x);
    let scaled = log_sqrt10001(price);
    let low = tick_low_candidate(price);
    let q = two_pow_128() as int;
    lemma_fundamental_div_mod(scaled - tick_low_error(), q);
    assert(q * low <= scaled - tick_low_error());
    assert(scaled == (h - 0x20_0000) * 0x4_0000_0000_0000 * sqrt_10001());
    let n = if low <= 0 {
        (-low) as nat
    } else {
        low as nat
    };
    lemma_ratio_power_bounds(n);
    let r = ratio_q128(n);
    let a = exponent_sum(n, 20);
    let g = h * 16384;
    let z = 0x8_0000_0000nat;
    let px = sq_pow(x, 28);
    let pr = sq_pow(r, 28);
    assert(unit_scale() * 16384 == 0x4_0000_0000_0000 * sqrt_10001());
    if low <= 0 {
        assert(g + a >= z);
        lemma_pow2_adds(g, a);
        lemma_pow2_order(z, g + a);
        lemma_pow2_pos(a);
        if x < r {
            lemma_sq_pow_strict(x, r, 28);
            assert(false) by (nonlinear_arith)
                requires
                    px < pr,
                    pr * pow2(a) <= pow2(z),
                    pow2(z) <= pow2(g) * pow2(a),
                    pow2(g) <= px,
                    pow2(a) > 0,
            ;
        }
        lemma_round_up_against_price(r, price);
    } else {
        assert(g >= z + a + 21);
        lemma_pow2_adds(z, a + 21);
        lemma_pow2_order(z + a + 21, g);
        lemma_pow2_adds(z, z);
        lemma_sq_pow_pow2(256, 28);
        assert(256 * pow2(28) == z + z);
        lemma_sq_pow_mul(x, r, 28);
        lemma_pow2_pos(a + 21);
        lemma_pow2_pos(z);
        if x * r < two_pow_256() {
            lemma_sq_pow_strict(x * r, two_pow_256(), 28);
            assert(false) by (nonlinear_arith)
                requires
                    px * pr < pow2(z) * pow2(z),
                    pow2(z) <= pr * pow2((a + 21) as nat),
                    pow2(z) * pow2((a + 21) as nat) <= pow2(g),
                    pow2(g) <= px,
                    pow2((a + 21) as nat) > 0,
                    pow2(z) > 0,
            ;
        }
        let m = (two_pow_256() - 1) as nat;
        lemma_fundamental_div_mod(m as int, r as int);
        assert(m / r <= x) by (nonlinear_arith)
            requires
                m == r * (m / r) + m % r,
                0 <= m % r,
                m < x * r,
                r > 0,
        ;
        lemma_round_up_against_price(m / r, price);
    }
}

/// The price lies below the price of the tick after the higher candidate,
/// where that is a tick at all.
pub proof fn lemma_price_below_next_candidate(price: nat)
    requires
        price_in_range(price),
        tick_high_candidate(price) < MAX_TICK,
    ensures
        price < sqrt_ratio_at_tick(tick_high_candidate(price) + 1),
{
    lemma_tick_candidates(price);
    lemma_price_power_bounds(price);
    lemma_pow2_values();
    lemma2_to64();
    lemma2_to64_rest();
    let x = price_q128(price);
    let h = log2_total_units(x);
    let scaled = log_sqrt10001(price);
    let next = tick_high_candidate(price) + 1;
    let q = two_pow_128() as int;
    lemma_fundamental_div_mod(scaled + tick_high_error(), q);
    assert(scaled + tick_high_error() < q * next);
    assert(scaled == (h - 0x20_0000) * 0x4_0000_0000_0000 * sqrt_10001());
    let n = if next <= 0 {
        (-next) as nat
    } else {
        next as nat
    };
    lemma_ratio_power_bounds(n);
    let r = ratio_q128(n);
    let a = exponent_sum(n, 20);
    let g = h * 16384;
    let z = 0x8_0000_0000nat;
    let px = sq_pow(x, 28);
    let pr = sq_pow(r, 28);
    let top = (g + 16385) as nat;
    assert(unit_scale() * 16384 == 0x4_0000_0000_0000 * sqrt_10001());
    assert((h + 1) * 16384 + 1 == top);
    if next <= 0 {
        assert(z >= g + a + 16384 + 23);
        lemma_pow2_adds(top, a + 21);
        lemma_pow2_order(top + a + 21, z);
        lemma_pow2_pos(a + 21);
        if x >= r {
            lemma_sq_pow_monotonic(r, x, 28);
            assert(false) by (nonlinear_arith)
                requires
                    pr <= px,
                    pow2(z) <= pr * pow2((a + 21) as nat),
                    px <= pow2(top),
                    pow2(top) * pow2((a + 21) as nat) < pow2(z),
                    pow2((a + 21) as nat) > 0,
            ;
        }
        lemma_round_up_against_price(r, price);
    } else {
        assert(z + a >= g + 16384 + 3);
        lemma_pow2_adds(z, z);
        lemma_pow2_adds(z, a);
        lemma_pow2_adds(top + 1, z);
        lemma_pow2_unfold(top + 1);
        lemma_pow2_order(top + 1, z + a);
        lemma_pow2_pos(z);
        lemma_pow2_pos(a);
        lemma_sq_pow_pow2(256, 28);
        assert(256 * pow2(28) == z + z);
        assert(pow2(2 * 28) * 1 <= x) by {
            assert(pow2(56) == 0x100_0000_0000_0000);
        }
        lemma_sq_pow_nearby(x, 1, 28);
        lemma_sq_pow_mul(x + 1, r, 28);
        let px1 = sq_pow(x + 1, 28);
        if (x + 1) * r >= two_pow_256() {
            lemma_sq_pow_monotonic(two_pow_256(), (x + 1) * r, 28);
            assert(false) by (nonlinear_arith)
                requires
                    pow2(z) * pow2(z) <= px1 * pr,
                    px1 <= 2 * px,
                    px <= pow2(top),
                    pow2((top + 1) as nat) == 2 * pow2(top),
                    pr * pow2(a) <= pow2(z),
                    pow2((top + 1) as nat) < pow2(z) * pow2(a),
                    pow2(z) > 0,
                    pow2(a) > 0,
            ;
        }
        let m = (two_pow_256() - 1) as nat;
        lemma_fundamental_div_mod(m as int, r as int);
        assert(x < m / r) by (nonlinear_arith)
            requires
                m == r * (m / r) + m % r,
                0 <= m % r < r,
                (x + 1) * r <= m,
                r > 0,
        ;
        lemma_round_up_against_price(m / r, price);
    }
}

/// The tick of a price in range is a tick below `MAX_TICK` whose own price
/// does not exceed the price, while that of the next tick does.
pub proof fn lemma_tick_brackets_price(price: nat)
    requires
        price_in_range(price),
    ensures
        MIN_TICK <= tick_at_sqrt_ratio(price) < MAX_TICK,
        sqrt_ratio_at_tick(tick_at_sqrt_ratio(price)) <= price,
        price < sqrt_ratio_at_tick(tick_at_sqrt_ratio(price) + 1),
{
    lemma_tick_candidates(price);
    lemma_sqrt_ratio_at_ends();
    let low = tick_low_candidate(price);
    let high = tick_high_candidate(price);
    if MIN_TICK <= low {
        lemma_low_candidate_at_most_price(price);
    }
    if high < MAX_TICK {
        lemma_price_below_next_candidate(price);
    }
}

/// The tick of a price in range is the greatest tick whose own price does
/// not exceed the price.
pub proof fn lemma_tick_is_greatest(price: nat, tick: int)
    requires
        price_in_range(price),
        MIN_TICK <= tick <= MAX_TICK,
    ensures
        sqrt_ratio_at_tick(tick) <= price <==> tick <= tick_at_sqrt_ratio(price),
{
    lemma_tick_brackets_price(price);
    let found = tick_at_sqrt_ratio(price);
    if tick < found {
        lemma_sqrt_ratio_strictly_increasing(tick, found);
    }
    if found + 1 < tick {
        lemma_sqrt_ratio_strictly_increasing(found + 1, tick);
    }
}

/// The tick of the price of a tick is that tick, for every tick below
/// `MAX_TICK`, whose price is the first that is out of range.
pub proof fn lemma_tick_of_price_of_tick(tick: int)
    requires
        MIN_TICK <= tick < MAX_TICK,
    ensures
        price_in_range(sqrt_ratio_at_tick(tick)),
        tick_at_sqrt_ratio(sqrt_ratio_at_tick(tick)) == tick,
{
    lemma_sqrt_ratio_at_ends();
    lemma_sqrt_ratio_strictly_increasing(tick, MAX_TICK as int);
    if MIN_TICK < tick {
        lemma_sqrt_ratio_strictly_increasing(MIN_TICK as int, tick);
    }
    let price = sqrt_ratio_at_tick(tick);
    lemma_tick_is_greatest(price, tick);
    lemma_tick_is_greatest(price, tick + 1);
    lemma_sqrt_ratio_strictly_increasing(tick, tick + 1);
}

} // verus!
