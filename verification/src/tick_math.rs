//! The two conversions between a tick and the square root of its price, the
//! latter as a Q64.96 fixed-point number.

use crate::error::UniswapV3MathError;
use crate::int256::{
    i256_add, i256_bitor, i256_low_i32, i256_sub, i256_wrapping_mul, i256_wrapping_shl,
    i256_wrapping_shr, lemma_limbs_value_bound, lemma_small_value_limbs,
    lemma_wrap_signed_in_range, two_pow_128, two_pow_256, two_pow_64, u256_lt, u256_wrapping_add,
    u256_wrapping_div, u256_wrapping_mul, u256_wrapping_rem, u256_wrapping_shl,
    u256_wrapping_shr, I256, U256,
};
use crate::log_lemmas::{
    lemma_div_pow2_bounds, lemma_div_pow2_twice, lemma_log2_fraction_bound, lemma_msb_unique,
    lemma_or_sets_clear_bit, lemma_or_zero, lemma_square_step, lemma_tick_candidates,
};
use crate::power_lemmas::lemma_pow2_values;
use crate::ratio_lemmas::{
    lemma_magic_bounds, lemma_ratio_prefix_floor, lemma_ratio_prefix_upper,
    lemma_sqrt_ratio_at_ends, lemma_sqrt_ratio_bounds,
};
use crate::tick_inverse::lemma_tick_brackets_price;
use vstd::arithmetic::div_mod::{
    lemma_fundamental_div_mod, lemma_mod_multiples_vanish, lemma_small_mod,
};
use vstd::arithmetic::power2::*;
use vstd::prelude::*;

verus! {

/// The lowest tick that has a price.
pub const MIN_TICK: i32 = -887272;

/// The highest tick that has a price.
pub const MAX_TICK: i32 = 887272;

/// The square-root price of `MIN_TICK`.
pub open spec fn min_sqrt_price() -> nat {
    4295128739
}

/// The square-root price of `MAX_TICK`.
pub open spec fn max_sqrt_price() -> nat {
    1461446703485210103287273052203988822378723970342nat
}

/// 2^32, the factor between the Q128 working format and the Q96 result.
pub open spec fn two_pow_32() -> nat {
    0x1_0000_0000nat
}

/// The factor for bit `i` of a tick's magnitude: `sqrt(1.0001)^(-2^i)` in
/// Q128, rounded as the protocol fixes it.
pub open spec fn magic(i: nat) -> nat {
    if i == 0 {
        0xfffcb933bd6fad37_aa2d162d1a594001nat
    } else if i == 1 {
        0xfff97272373d4132_59a46990580e213anat
    } else if i == 2 {
        0xfff2e50f5f656932_ef12357cf3c7fdccnat
    } else if i == 3 {
        0xffe5caca7e10e4e6_1c3624eaa0941cd0nat
    } else if i == 4 {
        0xffcb9843d60f6159_c9db58835c926644nat
    } else if i == 5 {
        0xff973b41fa98c081_472e6896dfb254c0nat
    } else if i == 6 {
        0xff2ea16466c96a38_43ec78b326b52861nat
    } else if i == 7 {
        0xfe5dee046a99a2a8_11c461f1969c3053nat
    } else if i == 8 {
        0xfcbe86c7900a88ae_dcffc83b479aa3a4nat
    } else if i == 9 {
        0xf987a7253ac41317_6f2b074cf7815e54nat
    } else if i == 10 {
        0xf3392b0822b70005_940c7a398e4b70f3nat
    } else if i == 11 {
        0xe7159475a2c29b74_43b29c7fa6e889d9nat
    } else if i == 12 {
        0xd097f3bdfd2022b8_845ad8f792aa5825nat
    } else if i == 13 {
        0xa9f746462d870fdf_8a65dc1f90e061e5nat
    } else if i == 14 {
        0x70d869a156d2a1b8_90bb3df62baf32f7nat
    } else if i == 15 {
        0x31be135f97d08fd9_81231505542fcfa6nat
    } else if i == 16 {
        0x9aa508b5b7a84e1_c677de54f3e99bc9nat
    } else if i == 17 {
        0x5d6af8dedb8119_6699c329225ee604nat
    } else if i == 18 {
        0x2216e584f5fa_1ea926041bedfe98nat
    } else {
        0x48a1703_91f7dc42444e8fa2nat
    }
}

/// A Q128 number times a Q128 factor, rounded down to Q128.
pub open spec fn mul_shift(x: nat, factor: nat) -> nat {
    x * factor / two_pow_128()
}

/// Whether bit `i` of `n` is set.
pub open spec fn bit_is_set(n: nat, i: nat) -> bool {
    (n / pow2(i)) % 2 == 1
}

/// The Q128 product of the factors of the set bits of `abs_tick` below bit
/// `bits`, taken from the lowest bit up and rounded down after each factor.
pub open spec fn ratio_prefix(abs_tick: nat, bits: nat) -> nat
    decreases bits,
{
    if bits == 0 {
        two_pow_128()
    } else {
        let before = ratio_prefix(abs_tick, (bits - 1) as nat);
        if bit_is_set(abs_tick, (bits - 1) as nat) {
            mul_shift(before, magic((bits - 1) as nat))
        } else {
            before
        }
    }
}

/// `sqrt(1.0001)^(-abs_tick)` in Q128, as the twenty factors give it.
pub open spec fn ratio_q128(abs_tick: nat) -> nat {
    ratio_prefix(abs_tick, 20)
}

/// A Q128 number as Q96, rounded up.
pub open spec fn round_up_q96(r: nat) -> nat {
    r / two_pow_32() + if r % two_pow_32() == 0 {
        0nat
    } else {
        1nat
    }
}

/// The square-root price of a tick, `sqrt(1.0001^tick)` in Q96: for a tick
/// that is not positive the ratio of its magnitude, for a positive one the
/// reciprocal of that ratio, each rounded up to Q96.
pub open spec fn sqrt_ratio_at_tick(tick: int) -> nat {
    if tick > 0 {
        round_up_q96(((two_pow_256() - 1) as nat) / ratio_q128(tick as nat))
    } else {
        round_up_q96(ratio_q128((-tick) as nat))
    }
}

/// Whether a tick has a price.
pub open spec fn tick_in_range(tick: int) -> bool {
    MIN_TICK <= tick <= MAX_TICK
}

/// The square-root price of `MIN_TICK`, the lowest price.
pub fn min_sqrt_ratio() -> (r: U256)
    ensures
        r@ == min_sqrt_price(),
{
    U256 { l0: 4295128739, l1: 0, l2: 0, l3: 0 }
}

/// The square-root price of `MAX_TICK`, the bound that no input price reaches.
pub fn max_sqrt_ratio() -> (r: U256)
    ensures
        r@ == max_sqrt_price(),
{
    U256 { l0: 6743328256752651558, l1: 17280870778742802505, l2: 4294805859, l3: 0 }
}

/// The factor for bit `i`.
fn magic_constant(i: u32) -> (r: U256)
    requires
        i < 20,
    ensures
        r@ == magic(i as nat),
{
    if i == 0 {
        U256 { l0: 0xaa2d162d1a594001, l1: 0xfffcb933bd6fad37, l2: 0, l3: 0 }
    } else if i == 1 {
        U256 { l0: 0x59a46990580e213a, l1: 0xfff97272373d4132, l2: 0, l3: 0 }
    } else if i == 2 {
        U256 { l0: 0xef12357cf3c7fdcc, l1: 0xfff2e50f5f656932, l2: 0, l3: 0 }
    } else if i == 3 {
        U256 { l0: 0x1c3624eaa0941cd0, l1: 0xffe5caca7e10e4e6, l2: 0, l3: 0 }
    } else if i == 4 {
        U256 { l0: 0xc9db58835c926644, l1: 0xffcb9843d60f6159, l2: 0, l3: 0 }
    } else if i == 5 {
        U256 { l0: 0x472e6896dfb254c0, l1: 0xff973b41fa98c081, l2: 0, l3: 0 }
    } else if i == 6 {
        U256 { l0: 0x43ec78b326b52861, l1: 0xff2ea16466c96a38, l2: 0, l3: 0 }
    } else if i == 7 {
        U256 { l0: 0x11c461f1969c3053, l1: 0xfe5dee046a99a2a8, l2: 0, l3: 0 }
    } else if i == 8 {
        U256 { l0: 0xdcffc83b479aa3a4, l1: 0xfcbe86c7900a88ae, l2: 0, l3: 0 }
    } else if i == 9 {
        U256 { l0: 0x6f2b074cf7815e54, l1: 0xf987a7253ac41317, l2: 0, l3: 0 }
    } else if i == 10 {
        U256 { l0: 0x940c7a398e4b70f3, l1: 0xf3392b0822b70005, l2: 0, l3: 0 }
    } else if i == 11 {
        U256 { l0: 0x43b29c7fa6e889d9, l1: 0xe7159475a2c29b74, l2: 0, l3: 0 }
    } else if i == 12 {
        U256 { l0: 0x845ad8f792aa5825, l1: 0xd097f3bdfd2022b8, l2: 0, l3: 0 }
    } else if i == 13 {
        U256 { l0: 0x8a65dc1f90e061e5, l1: 0xa9f746462d870fdf, l2: 0, l3: 0 }
    } else if i == 14 {
        U256 { l0: 0x90bb3df62baf32f7, l1: 0x70d869a156d2a1b8, l2: 0, l3: 0 }
    } else if i == 15 {
        U256 { l0: 0x81231505542fcfa6, l1: 0x31be135f97d08fd9, l2: 0, l3: 0 }
    } else if i == 16 {
        U256 { l0: 0xc677de54f3e99bc9, l1: 0x9aa508b5b7a84e1, l2: 0, l3: 0 }
    } else if i == 17 {
        U256 { l0: 0x6699c329225ee604, l1: 0x5d6af8dedb8119, l2: 0, l3: 0 }
    } else if i == 18 {
        U256 { l0: 0x1ea926041bedfe98, l1: 0x2216e584f5fa, l2: 0, l3: 0 }
    } else {
        U256 { l0: 0x91f7dc42444e8fa2, l1: 0x48a1703, l2: 0, l3: 0 }
    }
}

/// One in Q128.
fn q128_one() -> (r: U256)
    ensures
        r@ == two_pow_128(),
{
    U256 { l0: 0, l1: 0, l2: 1, l3: 0 }
}

/// Whether bit `i` of `n` is set.
fn bit_set(n: u32, i: u32) -> (r: bool)
    requires
        i < 32,
    ensures
        r == bit_is_set(n as nat, i as nat),
{
    let shifted = n >> i;
    proof {
        vstd::bits::lemma_u32_shr_is_div(n, i);
        assert(shifted & 1 == shifted % 2) by (bit_vector);
    }
    shifted & 1 == 1
}

/// A Q128 number times a factor, rounded down to Q128.
fn mul_shift_q128(x: U256, factor: U256) -> (r: U256)
    requires
        x@ <= two_pow_128(),
        factor@ < two_pow_128(),
    ensures
        r@ == mul_shift(x@, factor@),
{
    let product = u256_wrapping_mul(x, factor);
    proof {
        lemma_pow2_values();
        assert(x@ * factor@ < two_pow_256()) by (nonlinear_arith)
            requires
                x@ <= two_pow_128(),
                factor@ < two_pow_128(),
        ;
    }
    u256_wrapping_shr(product, 128)
}

/// A Q128 number as Q96, rounded up.
fn to_q96_rounding_up(ratio: U256) -> (r: U256)
    ensures
        r@ == round_up_q96(ratio@),
{
    let quotient = u256_wrapping_shr(ratio, 32);
    let remainder = u256_wrapping_rem(ratio, U256::from_u64(0x1_0000_0000));
    let carry = if remainder.is_zero() {
        U256::from_u64(0)
    } else {
        U256::from_u64(1)
    };
    proof {
        lemma_pow2_values();
        lemma_limbs_value_bound(ratio.l0, ratio.l1, ratio.l2, ratio.l3);
    }
    u256_wrapping_add(quotient, carry)
}

/// The square-root price of a tick as a Q64.96 number, or `T` for a tick
/// outside `[MIN_TICK, MAX_TICK]`.
pub fn get_sqrt_ratio_at_tick(tick: i32) -> (r: Result<U256, UniswapV3MathError>)
    ensures
        tick_in_range(tick as int) ==> r is Ok && r->Ok_0@ == sqrt_ratio_at_tick(tick as int)
            && min_sqrt_price() <= r->Ok_0@ <= max_sqrt_price(),
        !tick_in_range(tick as int) ==> r == Err::<U256, UniswapV3MathError>(
            UniswapV3MathError::T,
        ),
{
    if tick < MIN_TICK || tick > MAX_TICK {
        return Err(UniswapV3MathError::T);
    }
    let abs_tick: u32 = if tick < 0 {
        (-tick) as u32
    } else {
        tick as u32
    };
    let mut ratio = q128_one();
    let mut i: u32 = 0;
    while i < 20
        invariant
            i <= 20,
            ratio@ == ratio_prefix(abs_tick as nat, i as nat),
        decreases 20 - i,
    {
        if bit_set(abs_tick, i) {
            proof {
                lemma_ratio_prefix_upper(abs_tick as nat, i as nat);
                lemma_magic_bounds(i as nat);
            }
            ratio = mul_shift_q128(ratio, magic_constant(i));
        }
        i = i + 1;
    }
    if tick > 0 {
        proof {
            lemma_ratio_prefix_floor(abs_tick as nat, 20);
        }
        ratio = u256_wrapping_div(U256::max_value(), ratio);
    }
    proof {
        lemma_sqrt_ratio_bounds(tick as int);
    }
    Ok(to_q96_rounding_up(ratio))
}

/// The index of the most significant set bit of a number, zero for zero.
pub open spec fn most_significant_bit(x: nat) -> nat
    decreases x,
{
    if x <= 1 {
        0
    } else {
        1 + most_significant_bit(x / 2)
    }
}

/// The index of the most significant set bit, found by halving the range of
/// bits that it may lie in.
fn msb_of(value: U256) -> (msb: usize)
    requires
        value@ >= 1,
    ensures
        msb == most_significant_bit(value@),
        msb < 256,
        pow2(msb as nat) <= value@ < pow2((msb + 1) as nat),
{
    let mut r = value;
    let mut msb: usize = 0;
    let mut width: usize = 256;
    proof {
        lemma_pow2_values();
        lemma_limbs_value_bound(value.l0, value.l1, value.l2, value.l3);
    }
    while width > 1
        invariant
            width == 256 || width == 128 || width == 64 || width == 32 || width == 16 || width
                == 8 || width == 4 || width == 2 || width == 1,
            msb + width <= 256,
            r@ == value@ / pow2(msb as nat),
            1 <= r@ < pow2(width as nat),
        decreases width,
    {
        let step = width / 2;
        let threshold = u256_wrapping_shl(U256::from_u64(1), step);
        proof {
            lemma_pow2_values();
            lemma_pow2_strictly_increases(step as nat, 256);
            lemma_small_mod(pow2(step as nat), two_pow_256());
            lemma_div_pow2_twice(value@, msb as nat, step as nat);
            lemma_div_pow2_bounds(r@, step as nat, step as nat);
            lemma_div_pow2_bounds(r@, step as nat, 0);
        }
        if !u256_lt(r, threshold) {
            msb = msb + step;
            r = u256_wrapping_shr(r, step);
        }
        width = step;
    }
    proof {
        lemma_pow2_values();
        lemma_pow2_pos(msb as nat);
        lemma_pow2_unfold((msb + 1) as nat);
        lemma_fundamental_div_mod(value@ as int, pow2(msb as nat) as int);
        assert(pow2(msb as nat) <= value@ < pow2((msb + 1) as nat)) by (nonlinear_arith)
            requires
                value@ == pow2(msb as nat) * (value@ / pow2(msb as nat)) + value@ % pow2(
                    msb as nat,
                ),
                value@ / pow2(msb as nat) == 1,
                0 <= value@ % pow2(msb as nat) < pow2(msb as nat),
                pow2((msb + 1) as nat) == 2 * pow2(msb as nat),
        ;
        lemma_msb_unique(value@, msb as nat);
    }
    msb
}

/// 2^127, the least value of a number normalised to 128 bits.
pub open spec fn two_pow_127() -> nat {
    0x8000_0000_0000_0000_0000_0000_0000_0000nat
}

/// A positive number scaled by a power of two so that its most significant
/// bit is bit 127; what is shifted out on the way down is dropped.
pub open spec fn normalized(value: nat) -> nat {
    let msb = most_significant_bit(value);
    if msb >= 128 {
        value / pow2((msb - 127) as nat)
    } else {
        value * pow2((127 - msb) as nat)
    }
}

/// The next `bits` binary digits of the fraction of the binary logarithm of
/// `r / 2^127`, found by repeated squaring and written as a Q64 fraction: the
/// digit found with `bits` digits to go has the weight `2^(49 + bits)`, so
/// that the last of fourteen digits has the weight `2^50`. `r` is a number
/// of exactly 128 bits, and each square is rounded down to 128 or 129 bits.
pub open spec fn log2_fraction(r: nat, bits: nat) -> nat
    decreases bits,
{
    if bits == 0 {
        0
    } else {
        let square = r * r / two_pow_127();
        let digit = square / two_pow_128();
        digit * pow2(49 + bits) + log2_fraction(square / pow2(digit), (bits - 1) as nat)
    }
}

/// The binary logarithm of `value / 2^128` as a signed Q64 number, to
/// fourteen binary digits of the fraction.
pub open spec fn log2_q64(value: nat) -> int {
    (most_significant_bit(value) - 128) * two_pow_64() + log2_fraction(normalized(value), 14)
}

/// A positive number scaled so that its most significant bit is bit 127.
fn normalize(value: U256, msb: usize) -> (r: U256)
    requires
        msb == most_significant_bit(value@),
        msb < 256,
        pow2(msb as nat) <= value@ < pow2((msb + 1) as nat),
    ensures
        r@ == normalized(value@),
        two_pow_127() <= r@ < two_pow_128(),
{
    proof {
        lemma_pow2_values();
    }
    if msb >= 128 {
        proof {
            lemma_pow2_adds((msb - 127) as nat, 127);
            lemma_pow2_adds((msb - 127) as nat, 128);
            lemma_div_pow2_bounds(value@, (msb - 127) as nat, 127);
            lemma_div_pow2_bounds(value@, (msb - 127) as nat, 128);
        }
        u256_wrapping_shr(value, msb - 127)
    } else {
        proof {
            let scale = pow2((127 - msb) as nat);
            lemma_pow2_pos((127 - msb) as nat);
            lemma_pow2_adds(msb as nat, (127 - msb) as nat);
            lemma_pow2_adds((msb + 1) as nat, (127 - msb) as nat);
            assert(pow2(msb as nat) * scale <= value@ * scale < pow2((msb + 1) as nat) * scale)
                by (nonlinear_arith)
                requires
                    pow2(msb as nat) <= value@ < pow2((msb + 1) as nat),
                    scale > 0,
            ;
            lemma_small_mod(value@ * scale, two_pow_256());
        }
        u256_wrapping_shl(value, 127 - msb)
    }
}

/// The integer part of the logarithm: the index of the most significant bit,
/// counted from bit 128, as a signed Q64 number.
fn log2_integer_part(msb: usize) -> (r: I256)
    requires
        msb < 256,
    ensures
        r@ == (msb - 128) * two_pow_64(),
        r.l0 == 0,
{
    let index = I256::from_raw(U256::from_u64(msb as u64));
    let offset = I256::from_raw(U256::from_u64(128));
    let difference = i256_sub(index, offset);
    let r = i256_wrapping_shl(difference, 64);
    proof {
        lemma_pow2_values();
        let v = msb - 128;
        let m = two_pow_256() as int;
        assert(difference.raw() == if v < 0 {
            v + m
        } else {
            v
        });
        let scaled = v * two_pow_64();
        assert((difference.raw() * two_pow_64()) as int == if v < 0 {
            scaled + two_pow_64() * m
        } else {
            scaled
        });
        if v < 0 {
            lemma_mod_multiples_vanish(two_pow_64() as int, scaled, m);
            lemma_small_mod((scaled + m) as nat, m as nat);
            lemma_mod_multiples_vanish(1, scaled, m);
            assert(r.raw() == scaled + m);
        } else {
            lemma_small_mod(scaled as nat, m as nat);
            assert(r.raw() == scaled);
        }
        assert(r.raw() % two_pow_64() == 0);
    }
    r
}

/// Sets the digit of weight `2^position` in the fraction of the logarithm,
/// whose digits from that position down are still clear.
fn set_digit(log_2: I256, digit: U256, position: usize) -> (r: I256)
    requires
        digit@ <= 1,
        50 <= position <= 63,
        log_2.l0 << ((63 - position) as u64) == 0,
    ensures
        r.l0 == log_2.l0 + digit@ * pow2(position as nat),
        r.l1 == log_2.l1,
        r.l2 == log_2.l2,
        r.l3 == log_2.l3,
        r.l0 << ((64 - position) as u64) == 0,
{
    let weight = I256::from_raw(u256_wrapping_shl(digit, position));
    proof {
        lemma_pow2_values();
        lemma2_to64();
        lemma_small_value_limbs(digit.l0, digit.l1, digit.l2, digit.l3);
        lemma_pow2_strictly_increases(position as nat, 64);
        assert(digit@ * pow2(position as nat) < two_pow_64()) by (nonlinear_arith)
            requires
                digit@ <= 1,
                pow2(position as nat) < two_pow_64(),
        ;
        lemma_small_mod(digit@ * pow2(position as nat), two_pow_256());
        lemma_small_value_limbs(weight.l0, weight.l1, weight.l2, weight.l3);
        vstd::bits::lemma_u64_shl_is_mul(digit.l0, position as u64);
        lemma_or_sets_clear_bit(
            log_2.l0,
            digit.l0,
            position as u64,
            (63 - position) as u64,
            (64 - position) as u64,
        );
        lemma_or_zero(log_2.l1);
        lemma_or_zero(log_2.l2);
        lemma_or_zero(log_2.l3);
    }
    i256_bitor(log_2, weight)
}

/// One squaring step: the digit that the square of `r` shows, and what is
/// carried on to the next step.
fn square_step(r: U256) -> (step: (U256, U256))
    requires
        two_pow_127() <= r@ < two_pow_128(),
    ensures
        step.0@ == r@ * r@ / two_pow_127() / two_pow_128(),
        step.0@ <= 1,
        step.1@ == (r@ * r@ / two_pow_127()) / pow2(step.0@),
        two_pow_127() <= step.1@ < two_pow_128(),
{
    proof {
        lemma_pow2_values();
        lemma_square_step(r@);
        lemma_small_mod(r@ * r@, two_pow_256());
    }
    let square = u256_wrapping_shr(u256_wrapping_mul(r, r), 127);
    let digit = u256_wrapping_shr(square, 128);
    proof {
        lemma_small_value_limbs(digit.l0, digit.l1, digit.l2, digit.l3);
    }
    let next = u256_wrapping_shr(square, digit.l0 as usize);
    (digit, next)
}

/// The binary logarithm of `value / 2^128` as a signed Q64 number: the index
/// of the most significant bit gives the integer part, and fourteen squarings
/// give as many digits of the fraction.
fn approximate_log2(value: U256) -> (log_2: I256)
    requires
        value@ >= 1,
    ensures
        log_2@ == log2_q64(value@),
{
    let msb = msb_of(value);
    let mut r = normalize(value, msb);
    let mut log_2 = log2_integer_part(msb);
    proof {
        let low_limb = log_2.l0;
        assert(low_limb << 0u64 == 0) by (bit_vector)
            requires
                low_limb == 0,
        ;
    }
    let ghost start = log_2;
    let ghost r_start = r@;
    let mut bits: usize = 14;
    while bits > 0
        invariant
            bits <= 14,
            two_pow_127() <= r@ < two_pow_128(),
            log_2.l1 == start.l1,
            log_2.l2 == start.l2,
            log_2.l3 == start.l3,
            log_2.l0 << ((14 - bits) as u64) == 0,
            log_2.l0 + log2_fraction(r@, bits as nat) == log2_fraction(r_start, 14),
        decreases bits,
    {
        let (digit, next) = square_step(r);
        log_2 = set_digit(log_2, digit, 49 + bits);
        r = next;
        bits = bits - 1;
    }
    proof {
        lemma_log2_fraction_bound(r_start, 14);
        lemma2_to64();
        lemma2_to64_rest();
        assert(log_2.raw() == start.raw() + log2_fraction(r_start, 14));
    }
    log_2
}

/// The factor from a binary logarithm in Q64 to a tick in Q128:
/// `2^64 / log2(sqrt(1.0001))`, rounded as the protocol fixes it.
pub open spec fn sqrt_10001() -> int {
    255738958999603826347141
}

/// What is taken off the scaled logarithm, in Q128, for the lower candidate.
pub open spec fn tick_low_error() -> int {
    3402992956809132418596140100660247210
}

/// What is put on the scaled logarithm, in Q128, for the higher candidate.
pub open spec fn tick_high_error() -> int {
    291339464771989622907027621153398088495
}

/// The logarithm of a price to the base `sqrt(1.0001)`, in Q128: the
/// approximate binary logarithm of the price in Q128, scaled.
pub open spec fn log_sqrt10001(price: nat) -> int {
    log2_q64(price * two_pow_32()) * sqrt_10001()
}

/// The lower of the two ticks that the logarithm leaves open.
pub open spec fn tick_low_candidate(price: nat) -> int {
    (log_sqrt10001(price) - tick_low_error()) / (two_pow_128() as int)
}

/// The higher of the two ticks that the logarithm leaves open.
pub open spec fn tick_high_candidate(price: nat) -> int {
    (log_sqrt10001(price) + tick_high_error()) / (two_pow_128() as int)
}

/// The tick of a square-root price: where the two candidates differ, the
/// higher one if its own price does not exceed the given one, else the lower.
pub open spec fn tick_at_sqrt_ratio(price: nat) -> int {
    let low = tick_low_candidate(price);
    let high = tick_high_candidate(price);
    if low == high {
        low
    } else if sqrt_ratio_at_tick(high) <= price {
        high
    } else {
        low
    }
}

/// Whether a square-root price has a tick.
pub open spec fn price_in_range(price: nat) -> bool {
    min_sqrt_price() <= price < max_sqrt_price()
}

/// The factor `sqrt_10001`.
fn sqrt_10001_constant() -> (r: I256)
    ensures
        r@ == sqrt_10001(),
{
    I256 { l0: 11745905768312294533, l1: 13863, l2: 0, l3: 0 }
}

/// The error bound `tick_low_error`.
fn tick_low_constant() -> (r: I256)
    ensures
        r@ == tick_low_error(),
{
    I256 { l0: 6552757943157144234, l1: 184476617836266586, l2: 0, l3: 0 }
}

/// The error bound `tick_high_error`.
fn tick_high_constant() -> (r: I256)
    ensures
        r@ == tick_high_error(),
{
    I256 { l0: 4998474450511881007, l1: 15793544031827761793, l2: 0, l3: 0 }
}

/// The integer part of a signed Q128 number, rounded down, for a number
/// whose integer part fits in 32 bits.
fn q128_floor(x: I256) -> (t: i32)
    requires
        -0x8000_0000 * two_pow_128() <= x@ < 0x8000_0000 * two_pow_128(),
    ensures
        t == x@ / (two_pow_128() as int),
{
    let shifted = i256_wrapping_shr(x, 128);
    proof {
        lemma_pow2_values();
        let q = x@ / (two_pow_128() as int);
        assert(shifted.raw() == if x@ < 0 {
            q + two_pow_128()
        } else {
            q
        });
        let low_limb = shifted.l0;
        assert(low_limb == shifted.raw() % two_pow_64());
        if q >= 0 {
            assert(low_limb == q);
            assert((low_limb as i32) == low_limb) by (bit_vector)
                requires
                    low_limb < 0x8000_0000,
            ;
        } else {
            assert(low_limb == q + two_pow_64());
            assert((low_limb as i32) == low_limb - 0x1_0000_0000_0000_0000) by (bit_vector)
                requires
                    low_limb >= 0xffff_ffff_8000_0000,
            ;
        }
    }
    i256_low_i32(shifted)
}

/// The tick of a square-root price given as a Q64.96 number: the greatest
/// tick whose own price does not exceed the given one. `R` for a price outside
/// `[min_sqrt_ratio(), max_sqrt_ratio())`.
pub fn get_tick_at_sqrt_ratio(sqrt_price_x_96: U256) -> (r: Result<i32, UniswapV3MathError>)
    ensures
        price_in_range(sqrt_price_x_96@) ==> r is Ok && r->Ok_0 == tick_at_sqrt_ratio(
            sqrt_price_x_96@,
        ) && MIN_TICK <= r->Ok_0 < MAX_TICK && sqrt_ratio_at_tick(r->Ok_0 as int)
            <= sqrt_price_x_96@ < sqrt_ratio_at_tick(r->Ok_0 + 1),
        !price_in_range(sqrt_price_x_96@) ==> r == Err::<i32, UniswapV3MathError>(
            UniswapV3MathError::R,
        ),
{
    if u256_lt(sqrt_price_x_96, min_sqrt_ratio()) || !u256_lt(sqrt_price_x_96, max_sqrt_ratio()) {
        return Err(UniswapV3MathError::R);
    }
    let ghost price = sqrt_price_x_96@;
    proof {
        lemma_pow2_values();
        lemma_tick_candidates(price);
        lemma_tick_brackets_price(price);
        assert(price * two_pow_32() < two_pow_256()) by (nonlinear_arith)
            requires
                price < 0x1_0000_0000_0000_0000_0000_0000_0000_0000_0000_0000nat,
                two_pow_32() == 0x1_0000_0000nat,
                two_pow_256()
                    == 0x1_0000_0000_0000_0000_0000_0000_0000_0000_0000_0000_0000_0000_0000_0000_0000_0000nat,
        ;
        lemma_small_mod(price * two_pow_32(), two_pow_256());
        assert(price * two_pow_32() >= 1) by (nonlinear_arith)
            requires
                price >= 1,
                two_pow_32() >= 1,
        ;
    }
    let ratio = u256_wrapping_shl(sqrt_price_x_96, 32);
    assert(ratio@ == price * two_pow_32());
    let log_2 = approximate_log2(ratio);
    assert(log_2@ * sqrt_10001() == log_sqrt10001(price));
    proof {
        lemma_wrap_signed_in_range(log_sqrt10001(price));
    }
    let scaled = i256_wrapping_mul(log_2, sqrt_10001_constant());
    assert(scaled@ == log_sqrt10001(price));
    let low_q128 = i256_sub(scaled, tick_low_constant());
    let high_q128 = i256_add(scaled, tick_high_constant());
    let tick_low = q128_floor(low_q128);
    let tick_high = q128_floor(high_q128);
    assert(tick_low == tick_low_candidate(price));
    assert(tick_high == tick_high_candidate(price));
    if tick_low == tick_high {
        Ok(tick_low)
    } else {
        proof {
            lemma_sqrt_ratio_at_ends();
        }
        match get_sqrt_ratio_at_tick(tick_high) {
            Ok(price_high) => if !u256_lt(sqrt_price_x_96, price_high) {
                Ok(tick_high)
            } else {
                Ok(tick_low)
            },
            Err(e) => Err(e),
        }
    }
}

} // verus!
