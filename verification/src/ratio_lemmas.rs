//! Facts about the ratio of a tick: its bounds, and that it falls as the
//! magnitude of the tick grows.

use crate::int256::{two_pow_128, two_pow_256};
use crate::power_lemmas::lemma_pow2_values;
use crate::tick_math::{
    bit_is_set, magic, max_sqrt_price, min_sqrt_price, mul_shift, ratio_prefix, ratio_q128,
    round_up_q96, sqrt_ratio_at_tick, two_pow_32, MAX_TICK, MIN_TICK,
};
use vstd::arithmetic::div_mod::*;
use vstd::arithmetic::mul::*;
use vstd::arithmetic::power2::*;
use vstd::prelude::*;

verus! {

/// Every factor is positive and below one in Q128.
pub proof fn lemma_magic_bounds(i: nat)
    ensures
        0 < magic(i) < two_pow_128(),
{
}

/// Multiplying by a factor below one does not raise a number, and keeps the
/// order of two numbers.
pub proof fn lemma_mul_shift_bounds(x: nat, y: nat, factor: nat)
    requires
        x <= y,
        factor < two_pow_128(),
    ensures
        mul_shift(x, factor) <= mul_shift(y, factor),
        mul_shift(y, factor) <= y,
{
    let q = two_pow_128();
    assert(x * factor <= y * factor) by (nonlinear_arith)
        requires
            x <= y,
    ;
    lemma_div_is_ordered((x * factor) as int, (y * factor) as int, q as int);
    assert(y * factor <= y * q) by (nonlinear_arith)
        requires
            factor < q,
    ;
    lemma_div_is_ordered((y * factor) as int, (y * q) as int, q as int);
    lemma_div_by_multiple(y as int, q as int);
}

/// The ratio never exceeds one in Q128.
pub proof fn lemma_ratio_prefix_upper(abs_tick: nat, bits: nat)
    ensures
        ratio_prefix(abs_tick, bits) <= two_pow_128(),
    decreases bits,
{
    if bits > 0 {
        let before = ratio_prefix(abs_tick, (bits - 1) as nat);
        lemma_ratio_prefix_upper(abs_tick, (bits - 1) as nat);
        lemma_magic_bounds((bits - 1) as nat);
        lemma_mul_shift_bounds(before, before, magic((bits - 1) as nat));
    }
}

/// The ratio of the magnitude whose bits below `bits` are all set: the
/// smallest that `ratio_prefix` takes for that many bits.
pub open spec fn all_bits_prefix(bits: nat) -> nat
    decreases bits,
{
    if bits == 0 {
        two_pow_128()
    } else {
        mul_shift(all_bits_prefix((bits - 1) as nat), magic((bits - 1) as nat))
    }
}

/// The value of `all_bits_prefix` for each number of bits.
pub open spec fn all_bits_value(bits: nat) -> nat {
    if bits == 0 {
        0x1_0000000000000000_0000000000000000nat
    } else if bits == 1 {
        0xfffcb933bd6fad37_aa2d162d1a594001nat
    } else if bits == 2 {
        0xfff62bbb6d458ec3_c792106391dc463enat
    } else if bits == 3 {
        0xffe9114b9cf28d39_4c3203dbd44eb085nat
    } else if bits == 4 {
        0xffcede6f1d8be90b_88f350424e84e5b7nat
    } else if bits == 5 {
        0xff9a80c1ada7480b_1daa871d7c4d9b36nat
    } else if bits == 6 {
        0xff31e58d5a53c84f_c142023ec1b1dfd7nat
    } else if bits == 7 {
        0xfe612f8183b1ea21_b72fb71b03542ae4nat
    } else if bits == 8 {
        0xfcc1c2f380536bc6_7ee1ff564d1080b2nat
    } else if bits == 9 {
        0xf98ad8c8d7ecc0a3_f8a42c9724cffb6anat
    } else if bits == 10 {
        0xf33c480189b41523_5ad119427d89a1f6nat
    } else if bits == 11 {
        0xe71889a85903fd03_cb7cc40bdf371a9cnat
    } else if bits == 12 {
        0xd09a9f3e93db5812_d4820c2fc67a3e3anat
    } else if bits == 13 {
        0xa9f973345b9e647c_4163af91d00b255fnat
    } else if bits == 14 {
        0x70d9db6485f04ddd_567e07c7b89f8e7cnat
    } else if bits == 15 {
        0x31beb65d91af63ae_717a760be3b374dcnat
    } else if bits == 16 {
        0x9aa7036fd235542_9c4030b032e1cf71nat
    } else if bits == 17 {
        0x5d6c2af97aaa8d_e0e5a6bf23f5e547nat
    } else if bits == 18 {
        0x221755388a66_58e120f4a3c503cfnat
    } else if bits == 19 {
        0x48a25e3_6942a4fc0c1f899fnat
    } else {
        0x149b7873d84d48nat
    }
}

proof fn lemma_all_bits_values_low()
    ensures
        forall|b: nat| 0 <= b <= 5 ==> all_bits_prefix(b) == all_bits_value(b),
{
    assert(all_bits_prefix(0) == all_bits_value(0));
    assert(all_bits_prefix(1) == mul_shift(all_bits_prefix(0), magic(0)));
    assert(all_bits_prefix(1) == all_bits_value(1));
    assert(all_bits_prefix(2) == mul_shift(all_bits_prefix(1), magic(1)));
    assert(all_bits_prefix(2) == all_bits_value(2));
    assert(all_bits_prefix(3) == mul_shift(all_bits_prefix(2), magic(2)));
    assert(all_bits_prefix(3) == all_bits_value(3));
    assert(all_bits_prefix(4) == mul_shift(all_bits_prefix(3), magic(3)));
    assert(all_bits_prefix(4) == all_bits_value(4));
    assert(all_bits_prefix(5) == mul_shift(all_bits_prefix(4), magic(4)));
    assert(all_bits_prefix(5) == all_bits_value(5));
}

proof fn lemma_all_bits_values_mid()
    requires
        all_bits_prefix(5) == all_bits_value(5),
    ensures
        forall|b: nat| 5 <= b <= 10 ==> all_bits_prefix(b) == all_bits_value(b),
{
    assert(all_bits_prefix(6) == mul_shift(all_bits_prefix(5), magic(5)));
    assert(all_bits_prefix(6) == all_bits_value(6));
    assert(all_bits_prefix(7) == mul_shift(all_bits_prefix(6), magic(6)));
    assert(all_bits_prefix(7) == all_bits_value(7));
    assert(all_bits_prefix(8) == mul_shift(all_bits_prefix(7), magic(7)));
    assert(all_bits_prefix(8) == all_bits_value(8));
    assert(all_bits_prefix(9) == mul_shift(all_bits_prefix(8), magic(8)));
    assert(all_bits_prefix(9) == all_bits_value(9));
    assert(all_bits_prefix(10) == mul_shift(all_bits_prefix(9), magic(9)));
    assert(all_bits_prefix(10) == all_bits_value(10));
}

proof fn lemma_all_bits_values_high()
    requires
        all_bits_prefix(10) == all_bits_value(10),
    ensures
        forall|b: nat| 10 <= b <= 15 ==> all_bits_prefix(b) == all_bits_value(b),
{
    assert(all_bits_prefix(11) == mul_shift(all_bits_prefix(10), magic(10)));
    assert(all_bits_prefix(11) == all_bits_value(11));
    assert(all_bits_prefix(12) == mul_shift(all_bits_prefix(11), magic(11)));
    assert(all_bits_prefix(12) == all_bits_value(12));
    assert(all_bits_prefix(13) == mul_shift(all_bits_prefix(12), magic(12)));
    assert(all_bits_prefix(13) == all_bits_value(13));
    assert(all_bits_prefix(14) == mul_shift(all_bits_prefix(13), magic(13)));
    assert(all_bits_prefix(14) == all_bits_value(14));
    assert(all_bits_prefix(15) == mul_shift(all_bits_prefix(14), magic(14)));
    assert(all_bits_prefix(15) == all_bits_value(15));
}

proof fn lemma_all_bits_values_top()
    requires
        all_bits_prefix(15) == all_bits_value(15),
    ensures
        forall|b: nat| 15 <= b <= 20 ==> all_bits_prefix(b) == all_bits_value(b),
{
    assert(all_bits_prefix(16) == mul_shift(all_bits_prefix(15), magic(15)));
    assert(all_bits_prefix(16) == all_bits_value(16));
    assert(all_bits_prefix(17) == mul_shift(all_bits_prefix(16), magic(16)));
    assert(all_bits_prefix(17) == all_bits_value(17));
    assert(all_bits_prefix(18) == mul_shift(all_bits_prefix(17), magic(17)));
    assert(all_bits_prefix(18) == all_bits_value(18));
    assert(all_bits_prefix(19) == mul_shift(all_bits_prefix(18), magic(18)));
    assert(all_bits_prefix(19) == all_bits_value(19));
    assert(all_bits_prefix(20) == mul_shift(all_bits_prefix(19), magic(19)));
    assert(all_bits_prefix(20) == all_bits_value(20));
}

/// `all_bits_prefix` has the tabulated values.
pub proof fn lemma_all_bits_values(bits: nat)
    requires
        bits <= 20,
    ensures
        all_bits_prefix(bits) == all_bits_value(bits),
{
    lemma_all_bits_values_low();
    lemma_all_bits_values_mid();
    lemma_all_bits_values_high();
    lemma_all_bits_values_top();
}

/// `all_bits_prefix` falls as bits are added.
pub proof fn lemma_all_bits_prefix_falls(low: nat, high: nat)
    requires
        low <= high,
    ensures
        all_bits_prefix(high) <= all_bits_prefix(low),
    decreases high - low,
{
    if low < high {
        lemma_all_bits_prefix_falls(low, (high - 1) as nat);
        lemma_magic_bounds((high - 1) as nat);
        let before = all_bits_prefix((high - 1) as nat);
        lemma_mul_shift_bounds(before, before, magic((high - 1) as nat));
    }
}

/// No magnitude has a smaller ratio than the one with all bits set.
pub proof fn lemma_ratio_prefix_lower(abs_tick: nat, bits: nat)
    ensures
        all_bits_prefix(bits) <= ratio_prefix(abs_tick, bits),
    decreases bits,
{
    if bits > 0 {
        let b = (bits - 1) as nat;
        lemma_ratio_prefix_lower(abs_tick, b);
        lemma_magic_bounds(b);
        lemma_mul_shift_bounds(all_bits_prefix(b), ratio_prefix(abs_tick, b), magic(b));
        lemma_mul_shift_bounds(all_bits_prefix(b), all_bits_prefix(b), magic(b));
    }
}

/// Every ratio of up to twenty bits is at least 2^50.
pub proof fn lemma_ratio_prefix_floor(abs_tick: nat, bits: nat)
    requires
        bits <= 20,
    ensures
        ratio_prefix(abs_tick, bits) >= 0x4_0000_0000_0000nat,
{
    lemma_ratio_prefix_lower(abs_tick, bits);
    lemma_all_bits_prefix_falls(bits, 20);
    lemma_all_bits_values(20);
}

/// The denominator in which the relative gap between two ratios is measured, 2^50.
pub open spec fn gap_unit() -> nat {
    0x4_0000_0000_0000nat
}

/// Whether `high` exceeds `low` by at least the fraction
/// `(2^35 + slack) / 2^50` of `low`.
pub open spec fn gap_holds(high: nat, low: nat, slack: nat) -> bool {
    high * gap_unit() >= low * (gap_unit() + 0x8_0000_0000nat + slack)
}

/// A relative gap between two ratios survives the multiplication by a common
/// factor, but for one unit of slack that the rounding may take.
pub proof fn lemma_gap_step(high: nat, low: nat, factor: nat, slack: nat)
    requires
        gap_holds(high, low, slack),
        slack >= 1,
        mul_shift(low, factor) >= gap_unit(),
    ensures
        gap_holds(mul_shift(high, factor), mul_shift(low, factor), (slack - 1) as nat),
{
    let q = two_pow_128() as int;
    let d = gap_unit() as int;
    let e = 0x8_0000_0000int + slack;
    let hf = (high * factor) as int;
    let lf = (low * factor) as int;
    let h2 = hf / q;
    let l2 = lf / q;
    lemma_fundamental_div_mod(hf, q);
    lemma_fundamental_div_mod(lf, q);
    let rh = hf % q;
    let rl = lf % q;
    assert(hf == q * h2 + rh);
    assert(lf == q * l2 + rl);
    assert(hf * d >= lf * (d + e)) by (nonlinear_arith)
        requires
            high * d >= low * (d + e),
            hf == high * factor,
            lf == low * factor,
    ;
    assert(q * (h2 * d - l2 * (d + e) + d) > 0) by (nonlinear_arith)
        requires
            hf * d >= lf * (d + e),
            hf == q * h2 + rh,
            lf == q * l2 + rl,
            0 <= rh < q,
            0 <= rl,
            d > 0,
            e >= 0,
            l2 >= 0,
    ;
    assert(h2 * d - l2 * (d + e) + d > 0) by (nonlinear_arith)
        requires
            q * (h2 * d - l2 * (d + e) + d) > 0,
            q > 0,
    ;
    assert(l2 * (d + e) - d >= l2 * (d + e - 1)) by (nonlinear_arith)
        requires
            l2 >= d,
    ;
}

/// A relative gap holds with any smaller slack too.
pub proof fn lemma_gap_weaken(high: nat, low: nat, slack: nat, less: nat)
    requires
        gap_holds(high, low, slack),
        less <= slack,
    ensures
        gap_holds(high, low, less),
{
    let d = gap_unit();
    let e = 0x8_0000_0000nat;
    assert(low * (d + e + less) <= low * (d + e + slack)) by (nonlinear_arith)
        requires
            less <= slack,
    ;
}

/// The ratio of the magnitude with the `k` lowest bits set exceeds the
/// factor of bit `k`, which is the ratio of the next magnitude.
pub proof fn lemma_initial_gap(k: nat)
    requires
        k < 20,
    ensures
        gap_holds(all_bits_prefix(k), magic(k), 20),
{
    lemma_all_bits_values(k);
    if k == 0 {
        assert(0x1_0000000000000000_0000000000000000nat * 0x4_0000_0000_0000nat >= 0xfffcb933bd6fad37_aa2d162d1a594001nat * (0x4_0000_0000_0000nat + 0x8_0000_0000nat + 20nat));
    } else if k == 1 {
        assert(0xfffcb933bd6fad37_aa2d162d1a594001nat * 0x4_0000_0000_0000nat >= 0xfff97272373d4132_59a46990580e213anat * (0x4_0000_0000_0000nat + 0x8_0000_0000nat + 20nat));
    } else if k == 2 {
        assert(0xfff62bbb6d458ec3_c792106391dc463enat * 0x4_0000_0000_0000nat >= 0xfff2e50f5f656932_ef12357cf3c7fdccnat * (0x4_0000_0000_0000nat + 0x8_0000_0000nat + 20nat));
    } else if k == 3 {
        assert(0xffe9114b9cf28d39_4c3203dbd44eb085nat * 0x4_0000_0000_0000nat >= 0xffe5caca7e10e4e6_1c3624eaa0941cd0nat * (0x4_0000_0000_0000nat + 0x8_0000_0000nat + 20nat));
    } else if k == 4 {
        assert(0xffcede6f1d8be90b_88f350424e84e5b7nat * 0x4_0000_0000_0000nat >= 0xffcb9843d60f6159_c9db58835c926644nat * (0x4_0000_0000_0000nat + 0x8_0000_0000nat + 20nat));
    } else if k == 5 {
        assert(0xff9a80c1ada7480b_1daa871d7c4d9b36nat * 0x4_0000_0000_0000nat >= 0xff973b41fa98c081_472e6896dfb254c0nat * (0x4_0000_0000_0000nat + 0x8_0000_0000nat + 20nat));
    } else if k == 6 {
        assert(0xff31e58d5a53c84f_c142023ec1b1dfd7nat * 0x4_0000_0000_0000nat >= 0xff2ea16466c96a38_43ec78b326b52861nat * (0x4_0000_0000_0000nat + 0x8_0000_0000nat + 20nat));
    } else if k == 7 {
        assert(0xfe612f8183b1ea21_b72fb71b03542ae4nat * 0x4_0000_0000_0000nat >= 0xfe5dee046a99a2a8_11c461f1969c3053nat * (0x4_0000_0000_0000nat + 0x8_0000_0000nat + 20nat));
    } else if k == 8 {
        assert(0xfcc1c2f380536bc6_7ee1ff564d1080b2nat * 0x4_0000_0000_0000nat >= 0xfcbe86c7900a88ae_dcffc83b479aa3a4nat * (0x4_0000_0000_0000nat + 0x8_0000_0000nat + 20nat));
    } else if k == 9 {
        assert(0xf98ad8c8d7ecc0a3_f8a42c9724cffb6anat * 0x4_0000_0000_0000nat >= 0xf987a7253ac41317_6f2b074cf7815e54nat * (0x4_0000_0000_0000nat + 0x8_0000_0000nat + 20nat));
    } else if k == 10 {
        assert(0xf33c480189b41523_5ad119427d89a1f6nat * 0x4_0000_0000_0000nat >= 0xf3392b0822b70005_940c7a398e4b70f3nat * (0x4_0000_0000_0000nat + 0x8_0000_0000nat + 20nat));
    } else if k == 11 {
        assert(0xe71889a85903fd03_cb7cc40bdf371a9cnat * 0x4_0000_0000_0000nat >= 0xe7159475a2c29b74_43b29c7fa6e889d9nat * (0x4_0000_0000_0000nat + 0x8_0000_0000nat + 20nat));
    } else if k == 12 {
        assert(0xd09a9f3e93db5812_d4820c2fc67a3e3anat * 0x4_0000_0000_0000nat >= 0xd097f3bdfd2022b8_845ad8f792aa5825nat * (0x4_0000_0000_0000nat + 0x8_0000_0000nat + 20nat));
    } else if k == 13 {
        assert(0xa9f973345b9e647c_4163af91d00b255fnat * 0x4_0000_0000_0000nat >= 0xa9f746462d870fdf_8a65dc1f90e061e5nat * (0x4_0000_0000_0000nat + 0x8_0000_0000nat + 20nat));
    } else if k == 14 {
        assert(0x70d9db6485f04ddd_567e07c7b89f8e7cnat * 0x4_0000_0000_0000nat >= 0x70d869a156d2a1b8_90bb3df62baf32f7nat * (0x4_0000_0000_0000nat + 0x8_0000_0000nat + 20nat));
    } else if k == 15 {
        assert(0x31beb65d91af63ae_717a760be3b374dcnat * 0x4_0000_0000_0000nat >= 0x31be135f97d08fd9_81231505542fcfa6nat * (0x4_0000_0000_0000nat + 0x8_0000_0000nat + 20nat));
    } else if k == 16 {
        assert(0x9aa7036fd235542_9c4030b032e1cf71nat * 0x4_0000_0000_0000nat >= 0x9aa508b5b7a84e1_c677de54f3e99bc9nat * (0x4_0000_0000_0000nat + 0x8_0000_0000nat + 20nat));
    } else if k == 17 {
        assert(0x5d6c2af97aaa8d_e0e5a6bf23f5e547nat * 0x4_0000_0000_0000nat >= 0x5d6af8dedb8119_6699c329225ee604nat * (0x4_0000_0000_0000nat + 0x8_0000_0000nat + 20nat));
    } else if k == 18 {
        assert(0x221755388a66_58e120f4a3c503cfnat * 0x4_0000_0000_0000nat >= 0x2216e584f5fa_1ea926041bedfe98nat * (0x4_0000_0000_0000nat + 0x8_0000_0000nat + 20nat));
    } else if k == 19 {
        assert(0x48a25e3_6942a4fc0c1f899fnat * 0x4_0000_0000_0000nat >= 0x48a1703_91f7dc42444e8fa2nat * (0x4_0000_0000_0000nat + 0x8_0000_0000nat + 20nat));
    }
}

/// What the step from a magnitude to the next does to the ratio of the bits
/// below `bits`: where no carry leaves those bits the ratio falls by a
/// relative gap, and where one does the first is the ratio of all bits set
/// and the second is one.
pub open spec fn adjacent_prefix(n: nat, bits: nat) -> bool {
    let q = n / pow2(bits);
    let q_next = (n + 1) / pow2(bits);
    ||| q_next == q && gap_holds(
        ratio_prefix(n, bits),
        ratio_prefix(n + 1, bits),
        (20 - bits) as nat,
    )
    ||| q_next == q + 1 && ratio_prefix(n, bits) == all_bits_prefix(bits) && ratio_prefix(
        n + 1,
        bits,
    ) == two_pow_128()
}

/// `adjacent_prefix` holds for every magnitude and up to twenty bits.
pub proof fn lemma_adjacent_prefix(n: nat, bits: nat)
    requires
        bits <= 20,
    ensures
        adjacent_prefix(n, bits),
    decreases bits,
{
    lemma_pow2_values();
    if bits == 0 {
        assert(n / 1 == n);
        assert((n + 1) / 1 == n + 1);
    } else {
        let b = (bits - 1) as nat;
        lemma_adjacent_prefix(n, b);
        let q = n / pow2(b);
        let q_next = (n + 1) / pow2(b);
        lemma_pow2_unfold(bits);
        lemma_pow2_pos(b);
        lemma_div_denominator(n as int, pow2(b) as int, 2);
        lemma_div_denominator((n + 1) as int, pow2(b) as int, 2);
        assert(pow2(b) * 2 == pow2(bits));
        assert(n / pow2(bits) == q / 2);
        assert((n + 1) / pow2(bits) == q_next / 2);
        let high = ratio_prefix(n, b);
        let low = ratio_prefix(n + 1, b);
        lemma_magic_bounds(b);
        assert(bit_is_set(n, b) == (q % 2 == 1));
        assert(bit_is_set(n + 1, b) == (q_next % 2 == 1));
        if q_next == q {
            assert((n + 1) / pow2(bits) == n / pow2(bits));
            if bit_is_set(n, b) {
                lemma_ratio_prefix_floor(n + 1, bits);
                lemma_gap_step(high, low, magic(b), (20 - b) as nat);
                assert(gap_holds(ratio_prefix(n, bits), ratio_prefix(n + 1, bits), (20 - bits) as nat));
            } else {
                assert(ratio_prefix(n, bits) == high);
                assert(ratio_prefix(n + 1, bits) == low);
                lemma_gap_weaken(high, low, (20 - b) as nat, (20 - bits) as nat);
            }
        } else {
            assert(q_next == q + 1);
            assert(high == all_bits_prefix(b));
            assert(low == two_pow_128());
            if q % 2 == 0 {
                assert((n + 1) / pow2(bits) == n / pow2(bits));
                lemma_initial_gap(b);
                assert(mul_shift(two_pow_128(), magic(b)) == magic(b)) by {
                    lemma_div_by_multiple(magic(b) as int, two_pow_128() as int);
                    assert(two_pow_128() * magic(b) == magic(b) * two_pow_128())
                        by (nonlinear_arith);
                }
                assert(ratio_prefix(n, bits) == all_bits_prefix(b));
                assert(ratio_prefix(n + 1, bits) == magic(b));
                lemma_gap_weaken(all_bits_prefix(b), magic(b), 20, (20 - bits) as nat);
            } else {
                assert((n + 1) / pow2(bits) == n / pow2(bits) + 1);
                assert(ratio_prefix(n, bits) == all_bits_prefix(bits));
                assert(ratio_prefix(n + 1, bits) == two_pow_128());
            }
        }
    }
}

/// From a magnitude to the next the ratio falls by more than the fraction
/// 2^-15 of itself.
pub proof fn lemma_adjacent_ratio(n: nat)
    requires
        n + 1 < 0x10_0000,
    ensures
        gap_holds(ratio_q128(n), ratio_q128(n + 1), 0),
        ratio_q128(n + 1) >= gap_unit(),
        ratio_q128(n) <= two_pow_128(),
{
    lemma_adjacent_prefix(n, 20);
    lemma2_to64();
    assert(n / 0x10_0000 == 0);
    assert((n + 1) / 0x10_0000 == 0);
    lemma_ratio_prefix_floor(n + 1, 20);
    lemma_ratio_prefix_upper(n, 20);
}

/// Rounding up to Q96 keeps two numbers apart that differ by 2^33 or more.
pub proof fn lemma_round_up_strict(low: nat, high: nat)
    requires
        low + 0x2_0000_0000 <= high,
    ensures
        round_up_q96(low) < round_up_q96(high),
{
}

/// A relative gap above a number of 2^50 or more is an absolute gap of 2^35
/// or more.
pub proof fn lemma_gap_absolute(high: nat, low: nat)
    requires
        gap_holds(high, low, 0),
        low >= gap_unit(),
    ensures
        low + 0x8_0000_0000 <= high,
{
    let d = gap_unit() as int;
    let e = 0x8_0000_0000int;
    assert(high - low >= e) by (nonlinear_arith)
        requires
            high * d >= low * (d + e),
            low >= d,
            d > 0,
            e > 0,
    ;
}

/// A relative gap between two ratios is an absolute gap between their
/// reciprocals, taken the other way round.
pub proof fn lemma_gap_reciprocal(high: nat, low: nat)
    requires
        gap_holds(high, low, 0),
        0 < low,
        high <= two_pow_128(),
    ensures
        ((two_pow_256() - 1) as nat) / high + 0x2_0000_0000 <= ((two_pow_256() - 1) as nat) / low,
{
    let m = two_pow_256() - 1;
    let d = gap_unit() as int;
    let e = 0x8_0000_0000int;
    let a = high as int;
    let b = low as int;
    assert(a > 0) by (nonlinear_arith)
        requires
            a * d >= b * (d + e),
            b > 0,
            d > 0,
            e > 0,
            a >= 0,
    ;
    let p = m / a;
    let p_low = m / b;
    lemma_fundamental_div_mod(m, a);
    lemma_fundamental_div_mod(m, b);
    let ra = m % a;
    let rb = m % b;
    assert(m == a * p + ra);
    assert(m == b * p_low + rb);
    lemma_div_is_ordered_by_denominator(m, a, two_pow_128() as int);
    assert(m / (two_pow_128() as int) == two_pow_128() - 1);
    assert(p >= two_pow_128() - 1);
    assert(b * (p_low * d - p * (d + e) + d) > 0) by (nonlinear_arith)
        requires
            a * d >= b * (d + e),
            m == a * p + ra,
            m == b * p_low + rb,
            0 <= ra,
            0 <= rb < b,
            p >= 0,
            d > 0,
            e > 0,
    ;
    assert(p_low * d - p * (d + e) + d > 0) by (nonlinear_arith)
        requires
            b * (p_low * d - p * (d + e) + d) > 0,
            b > 0,
    ;
    assert(p * e >= (two_pow_128() - 1) * e) by (nonlinear_arith)
        requires
            p >= two_pow_128() - 1,
            e > 0,
    ;
    assert(((two_pow_256() - 1) as nat) / high == p);
    assert(((two_pow_256() - 1) as nat) / low == p_low);
}

/// The square-root price of tick zero is one, whichever way it is computed.
pub proof fn lemma_sqrt_ratio_at_zero()
    ensures
        ratio_q128(0) == two_pow_128(),
        sqrt_ratio_at_tick(0) == 0x1_0000_0000_0000_0000_0000_0000nat,
        round_up_q96(((two_pow_256() - 1) as nat) / ratio_q128(0))
            == 0x1_0000_0000_0000_0000_0000_0000nat,
{
    lemma_ratio_of_zero(20);
}

/// The magnitude zero has the ratio one.
pub proof fn lemma_ratio_of_zero(bits: nat)
    ensures
        ratio_prefix(0, bits) == two_pow_128(),
    decreases bits,
{
    if bits > 0 {
        lemma_ratio_of_zero((bits - 1) as nat);
        lemma_pow2_pos((bits - 1) as nat);
        assert(0nat / pow2((bits - 1) as nat) == 0) by {
            lemma_div_basics_1(pow2((bits - 1) as nat) as int);
        }
    }
}

/// From a tick to the next the square-root price rises.
pub proof fn lemma_adjacent_ticks(tick: int)
    requires
        MIN_TICK <= tick < MAX_TICK,
    ensures
        sqrt_ratio_at_tick(tick) < sqrt_ratio_at_tick(tick + 1),
{
    if tick < 0 {
        let n = (-(tick + 1)) as nat;
        lemma_adjacent_ratio(n);
        lemma_gap_absolute(ratio_q128(n), ratio_q128(n + 1));
        lemma_round_up_strict(ratio_q128(n + 1), ratio_q128(n));
        assert(sqrt_ratio_at_tick(tick) == round_up_q96(ratio_q128(n + 1)));
        assert(sqrt_ratio_at_tick(tick + 1) == round_up_q96(ratio_q128(n)));
    } else {
        let n = tick as nat;
        lemma_adjacent_ratio(n);
        lemma_gap_reciprocal(ratio_q128(n), ratio_q128(n + 1));
        let low = ((two_pow_256() - 1) as nat) / ratio_q128(n);
        let high = ((two_pow_256() - 1) as nat) / ratio_q128(n + 1);
        lemma_round_up_strict(low, high);
        if tick == 0 {
            lemma_sqrt_ratio_at_zero();
        }
    }
}

/// The square-root price rises strictly with the tick: of two ticks in
/// `[MIN_TICK, MAX_TICK]` the lower one has the lower price.
pub proof fn lemma_sqrt_ratio_strictly_increasing(t1: int, t2: int)
    requires
        MIN_TICK <= t1 < t2 <= MAX_TICK,
    ensures
        sqrt_ratio_at_tick(t1) < sqrt_ratio_at_tick(t2),
    decreases t2 - t1,
{
    lemma_adjacent_ticks(t2 - 1);
    if t1 < t2 - 1 {
        lemma_sqrt_ratio_strictly_increasing(t1, t2 - 1);
    }
}

proof fn lemma_max_magnitude_low()
    ensures
        ratio_prefix(887272, 7) == 0xfeac1d4052f77148_18b490c1138ea058nat,
{
    lemma2_to64();
    assert(ratio_prefix(887272, 0) == two_pow_128());
    assert(!bit_is_set(887272, 0));
    assert(ratio_prefix(887272, 1) == ratio_prefix(887272, 0));
    assert(ratio_prefix(887272, 1) == 0x1_0000000000000000_0000000000000000nat);
    assert(!bit_is_set(887272, 1));
    assert(ratio_prefix(887272, 2) == ratio_prefix(887272, 1));
    assert(ratio_prefix(887272, 2) == 0x1_0000000000000000_0000000000000000nat);
    assert(!bit_is_set(887272, 2));
    assert(ratio_prefix(887272, 3) == ratio_prefix(887272, 2));
    assert(ratio_prefix(887272, 3) == 0x1_0000000000000000_0000000000000000nat);
    assert(bit_is_set(887272, 3));
    assert(ratio_prefix(887272, 4) == mul_shift(ratio_prefix(887272, 3), magic(3)));
    assert(ratio_prefix(887272, 4) == 0xffe5caca7e10e4e6_1c3624eaa0941cd0nat);
    assert(!bit_is_set(887272, 4));
    assert(ratio_prefix(887272, 5) == ratio_prefix(887272, 4));
    assert(ratio_prefix(887272, 5) == 0xffe5caca7e10e4e6_1c3624eaa0941cd0nat);
    assert(bit_is_set(887272, 5));
    assert(ratio_prefix(887272, 6) == mul_shift(ratio_prefix(887272, 5), magic(5)));
    assert(ratio_prefix(887272, 6) == 0xff7d10c63a977157_da4140deb6f31a7bnat);
    assert(bit_is_set(887272, 6));
    assert(ratio_prefix(887272, 7) == mul_shift(ratio_prefix(887272, 6), magic(6)));
    assert(ratio_prefix(887272, 7) == 0xfeac1d4052f77148_18b490c1138ea058nat);
}

proof fn lemma_max_magnitude_mid()
    requires
        ratio_prefix(887272, 7) == 0xfeac1d4052f77148_18b490c1138ea058nat,
    ensures
        ratio_prefix(887272, 14) == 0xe183ac4e25d59499_66242a64e9c80e2fnat,
{
    lemma2_to64();
    assert(bit_is_set(887272, 7));
    assert(ratio_prefix(887272, 8) == mul_shift(ratio_prefix(887272, 7), magic(7)));
    assert(ratio_prefix(887272, 8) == 0xfd0c3654da9e0337_41d1a9f93707f6f6nat);
    assert(bit_is_set(887272, 8));
    assert(ratio_prefix(887272, 9) == mul_shift(ratio_prefix(887272, 8), magic(8)));
    assert(ratio_prefix(887272, 9) == 0xf9d459c5817dbafa_9e376ae84dcfeb8bnat);
    assert(!bit_is_set(887272, 9));
    assert(ratio_prefix(887272, 10) == ratio_prefix(887272, 9));
    assert(ratio_prefix(887272, 10) == 0xf9d459c5817dbafa_9e376ae84dcfeb8bnat);
    assert(!bit_is_set(887272, 10));
    assert(ratio_prefix(887272, 11) == ratio_prefix(887272, 10));
    assert(ratio_prefix(887272, 11) == 0xf9d459c5817dbafa_9e376ae84dcfeb8bnat);
    assert(bit_is_set(887272, 11));
    assert(ratio_prefix(887272, 12) == mul_shift(ratio_prefix(887272, 11), magic(11)));
    assert(ratio_prefix(887272, 12) == 0xe183ac4e25d59499_66242a64e9c80e2fnat);
    assert(!bit_is_set(887272, 12));
    assert(ratio_prefix(887272, 13) == ratio_prefix(887272, 12));
    assert(ratio_prefix(887272, 13) == 0xe183ac4e25d59499_66242a64e9c80e2fnat);
    assert(!bit_is_set(887272, 13));
    assert(ratio_prefix(887272, 14) == ratio_prefix(887272, 13));
    assert(ratio_prefix(887272, 14) == 0xe183ac4e25d59499_66242a64e9c80e2fnat);
}

proof fn lemma_max_magnitude_high()
    requires
        ratio_prefix(887272, 14) == 0xe183ac4e25d59499_66242a64e9c80e2fnat,
    ensures
        ratio_prefix(887272, 20) == 0x1_000276a221a17501nat,
{
    lemma2_to64();
    assert(!bit_is_set(887272, 14));
    assert(ratio_prefix(887272, 15) == ratio_prefix(887272, 14));
    assert(ratio_prefix(887272, 15) == 0xe183ac4e25d59499_66242a64e9c80e2fnat);
    assert(bit_is_set(887272, 15));
    assert(ratio_prefix(887272, 16) == mul_shift(ratio_prefix(887272, 15), magic(15)));
    assert(ratio_prefix(887272, 16) == 0x2bd1a4c5d2a1181a_ca1ef15e64c2e3cfnat);
    assert(bit_is_set(887272, 16));
    assert(ratio_prefix(887272, 17) == mul_shift(ratio_prefix(887272, 16), magic(16)));
    assert(ratio_prefix(887272, 17) == 0x1a785cbbdc05048_3e3be5812760be73nat);
    assert(!bit_is_set(887272, 17));
    assert(ratio_prefix(887272, 18) == ratio_prefix(887272, 17));
    assert(ratio_prefix(887272, 18) == 0x1a785cbbdc05048_3e3be5812760be73nat);
    assert(bit_is_set(887272, 18));
    assert(ratio_prefix(887272, 19) == mul_shift(ratio_prefix(887272, 18), magic(18)));
    assert(ratio_prefix(887272, 19) == 0x3865a6455d_07d2bc87c5956d2enat);
    assert(bit_is_set(887272, 19));
    assert(ratio_prefix(887272, 20) == mul_shift(ratio_prefix(887272, 19), magic(19)));
    assert(ratio_prefix(887272, 20) == 0x1_000276a221a17501nat);
}

/// The ratio of the greatest magnitude.
pub proof fn lemma_max_magnitude_ratio()
    ensures
        ratio_q128(887272) == 0x1_000276a221a17501nat,
{
    lemma_max_magnitude_low();
    lemma_max_magnitude_mid();
    lemma_max_magnitude_high();
}

/// The square-root prices of the two ends of the tick range.
pub proof fn lemma_sqrt_ratio_at_ends()
    ensures
        sqrt_ratio_at_tick(MIN_TICK as int) == min_sqrt_price(),
        sqrt_ratio_at_tick(MAX_TICK as int) == max_sqrt_price(),
{
    lemma_max_magnitude_ratio();
    let m = (two_pow_256() - 1) as nat;
    let r = ratio_q128(887272);
    assert(sqrt_ratio_at_tick(MIN_TICK as int) == round_up_q96(r));
    assert(sqrt_ratio_at_tick(MAX_TICK as int) == round_up_q96(m / r));
    assert(m / r == 0xfffd8963efd1fc6a_506488495d951d52_63988d25fa78259anat);
}

/// The square-root price of every tick in range lies between those of the
/// two ends.
pub proof fn lemma_sqrt_ratio_bounds(tick: int)
    requires
        MIN_TICK <= tick <= MAX_TICK,
    ensures
        min_sqrt_price() <= sqrt_ratio_at_tick(tick) <= max_sqrt_price(),
{
    lemma_sqrt_ratio_at_ends();
    if MIN_TICK < tick {
        lemma_sqrt_ratio_strictly_increasing(MIN_TICK as int, tick);
    }
    if tick < MAX_TICK {
        lemma_sqrt_ratio_strictly_increasing(tick, MAX_TICK as int);
    }
}

/// The ratio falls as the magnitude grows.
pub proof fn lemma_ratio_decreasing(n1: nat, n2: nat)
    requires
        n1 < n2 < 0x10_0000,
    ensures
        ratio_q128(n2) < ratio_q128(n1),
    decreases n2 - n1,
{
    let before = (n2 - 1) as nat;
    lemma_adjacent_ratio(before);
    lemma_gap_absolute(ratio_q128(before), ratio_q128(n2));
    if n1 < before {
        lemma_ratio_decreasing(n1, before);
    }
}

} // verus!
