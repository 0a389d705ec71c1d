//! Bounds on the binary logarithm of the ratio of a tick, from the bounds on
//! the logarithms of its factors.

use crate::factor_bounds::{lemma_factor_bound, log2_bound};
use crate::int256::two_pow_128;
use crate::power_lemmas::{
    lemma_pow2_values, lemma_sq_pow_monotonic, lemma_sq_pow_mul, lemma_sq_pow_nearby,
    lemma_sq_pow_positive, lemma_sq_pow_pow2, sq_pow,
};
use crate::ratio_lemmas::{lemma_magic_bounds, lemma_max_magnitude_ratio, lemma_ratio_decreasing};
use crate::tick_math::{bit_is_set, magic, mul_shift, ratio_prefix, ratio_q128};
use vstd::arithmetic::div_mod::*;
use vstd::arithmetic::power2::*;
use vstd::prelude::*;

verus! {

/// The sum of `log2_bound` over the set bits of `n` below `bits`.
pub open spec fn exponent_sum(n: nat, bits: nat) -> nat
    decreases bits,
{
    if bits == 0 {
        0
    } else {
        exponent_sum(n, (bits - 1) as nat) + if bit_is_set(n, (bits - 1) as nat) {
            log2_bound((bits - 1) as nat)
        } else {
            0
        }
    }
}

/// The number that the bits of `n` below `bits` stand for.
pub open spec fn low_bits(n: nat, bits: nat) -> nat
    decreases bits,
{
    if bits == 0 {
        0
    } else {
        low_bits(n, (bits - 1) as nat) + if bit_is_set(n, (bits - 1) as nat) {
            pow2((bits - 1) as nat)
        } else {
            0
        }
    }
}

/// The factor from a logarithm in units of 2^-28 to a tick in Q128.
pub open spec fn unit_scale() -> nat {
    17574247443462132977878939809611776
}

/// How far the scaled bound of one factor may lie from the tick of its bit.
pub open spec fn unit_slack() -> nat {
    0x4_0000_0000_0000_0000_0000_0000_0000nat
}

/// The bits of `n` below `bits` stand for the remainder of `n` by `2^bits`.
pub proof fn lemma_low_bits_is_mod(n: nat, bits: nat)
    ensures
        low_bits(n, bits) == n % pow2(bits),
    decreases bits,
{
    lemma2_to64();
    if bits > 0 {
        let b = (bits - 1) as nat;
        lemma_low_bits_is_mod(n, b);
        lemma_pow2_pos(b);
        lemma_pow2_unfold(bits);
        let p = pow2(b) as int;
        let q = (n as int) / p;
        lemma_fundamental_div_mod(n as int, p);
        lemma_fundamental_div_mod(q, 2);
        let rest = (n as int) % p + p * (q % 2);
        assert(n == (2 * p) * (q / 2) + rest) by (nonlinear_arith)
            requires
                n == p * q + (n as int) % p,
                q == 2 * (q / 2) + q % 2,
                rest == (n as int) % p + p * (q % 2),
        ;
        assert(0 <= rest < 2 * p) by (nonlinear_arith)
            requires
                rest == (n as int) % p + p * (q % 2),
                0 <= (n as int) % p < p,
                0 <= q % 2 < 2,
        ;
        lemma_fundamental_div_mod_converse(n as int, 2 * p, q / 2, rest);
        assert(p * (q % 2) == if q % 2 == 1 {
            p
        } else {
            0
        }) by (nonlinear_arith)
            requires
                0 <= q % 2 < 2,
        ;
    }
}

/// The scaled bound of each factor lies within `unit_slack` of the tick of
/// its bit.
pub proof fn lemma_factor_weight(i: nat)
    requires
        i < 20,
    ensures
        pow2(i) * two_pow_128() - unit_slack() <= log2_bound(i) * unit_scale() <= pow2(i)
            * two_pow_128() + unit_slack(),
{
    lemma2_to64();
    if i == 0 {
        assert(19362 * 17574247443462132977878939809611776 - 1 * 0x1_0000_0000_0000_0000_0000_0000_0000_0000int == -9787920624644745682574838065004544);
    } else if i == 1 {
        assert(38725 * 17574247443462132977878939809611776 - 2 * 0x1_0000_0000_0000_0000_0000_0000_0000_0000int == -2001593805827358387270736320397312);
    } else if i == 2 {
        assert(77450 * 17574247443462132977878939809611776 - 4 * 0x1_0000_0000_0000_0000_0000_0000_0000_0000int == -4003187611654716774541472640794624);
    } else if i == 3 {
        assert(154900 * 17574247443462132977878939809611776 - 8 * 0x1_0000_0000_0000_0000_0000_0000_0000_0000int == -8006375223309433549082945281589248);
    } else if i == 4 {
        assert(309800 * 17574247443462132977878939809611776 - 16 * 0x1_0000_0000_0000_0000_0000_0000_0000_0000int == -16012750446618867098165890563178496);
    } else if i == 5 {
        assert(619601 * 17574247443462132977878939809611776 - 32 * 0x1_0000_0000_0000_0000_0000_0000_0000_0000int == -14451253449775601218452841316745216);
    } else if i == 6 {
        assert(1239203 * 17574247443462132977878939809611776 - 64 * 0x1_0000_0000_0000_0000_0000_0000_0000_0000int == -11328259456089069459026742823878656);
    } else if i == 7 {
        assert(2478407 * 17574247443462132977878939809611776 - 128 * 0x1_0000_0000_0000_0000_0000_0000_0000_0000int == -5082271468716005940174545838145536);
    } else if i == 8 {
        assert(4956814 * 17574247443462132977878939809611776 - 256 * 0x1_0000_0000_0000_0000_0000_0000_0000_0000int == -10164542937432011880349091676291072);
    } else if i == 9 {
        assert(9913629 * 17574247443462132977878939809611776 - 512 * 0x1_0000_0000_0000_0000_0000_0000_0000_0000int == -2754838431401890782819243542970368);
    } else if i == 10 {
        assert(19827258 * 17574247443462132977878939809611776 - 1024 * 0x1_0000_0000_0000_0000_0000_0000_0000_0000int == -5509676862803781565638487085940736);
    } else if i == 11 {
        assert(39654516 * 17574247443462132977878939809611776 - 2048 * 0x1_0000_0000_0000_0000_0000_0000_0000_0000int == -11019353725607563131276974171881472);
    } else if i == 12 {
        assert(79309033 * 17574247443462132977878939809611776 - 4096 * 0x1_0000_0000_0000_0000_0000_0000_0000_0000int == -4464460007752993284675008534151168);
    } else if i == 13 {
        assert(158618066 * 17574247443462132977878939809611776 - 8192 * 0x1_0000_0000_0000_0000_0000_0000_0000_0000int == -8928920015505986569350017068302336);
    } else if i == 14 {
        assert(317236133 * 17574247443462132977878939809611776 - 16384 * 0x1_0000_0000_0000_0000_0000_0000_0000_0000int == -283592587549840160821094326992896);
    } else if i == 15 {
        assert(634472266 * 17574247443462132977878939809611776 - 32768 * 0x1_0000_0000_0000_0000_0000_0000_0000_0000int == -567185175099680321642188653985792);
    } else if i == 16 {
        assert(1268944532 * 17574247443462132977878939809611776 - 65536 * 0x1_0000_0000_0000_0000_0000_0000_0000_0000int == -1134370350199360643284377307971584);
    } else if i == 17 {
        assert(2537889064 * 17574247443462132977878939809611776 - 131072 * 0x1_0000_0000_0000_0000_0000_0000_0000_0000int == -2268740700398721286568754615943168);
    } else if i == 18 {
        assert(5075778128 * 17574247443462132977878939809611776 - 262144 * 0x1_0000_0000_0000_0000_0000_0000_0000_0000int == -4537481400797442573137509231886336);
    } else if i == 19 {
        assert(10151556256 * 17574247443462132977878939809611776 - 524288 * 0x1_0000_0000_0000_0000_0000_0000_0000_0000int == -9074962801594885146275018463772672);
    }
}

/// The scaled sum of the bounds lies within `unit_slack` for each bit of the
/// ticks that the bits stand for.
pub proof fn lemma_exponent_budget(n: nat, bits: nat)
    requires
        bits <= 20,
    ensures
        low_bits(n, bits) * two_pow_128() - bits * unit_slack() <= exponent_sum(n, bits)
            * unit_scale() <= low_bits(n, bits) * two_pow_128() + bits * unit_slack(),
    decreases bits,
{
    if bits > 0 {
        let b = (bits - 1) as nat;
        lemma_exponent_budget(n, b);
        if bit_is_set(n, b) {
            lemma_factor_weight(b);
            let e = exponent_sum(n, b);
            let a = log2_bound(b);
            let l = low_bits(n, b);
            let s = unit_scale();
            let q = two_pow_128();
            assert((e + a) * s == e * s + a * s) by (nonlinear_arith);
            assert((l + pow2(b)) * q == l * q + pow2(b) * q) by (nonlinear_arith);
        }
    }
}

/// The power of the ratio lies at or below two to the sum of the bounds of
/// its factors.
pub proof fn lemma_ratio_upper_power(n: nat, bits: nat)
    requires
        bits <= 20,
    ensures
        sq_pow(ratio_prefix(n, bits), 28) * pow2(exponent_sum(n, bits)) <= sq_pow(
            two_pow_128(),
            28,
        ),
    decreases bits,
{
    let unit = sq_pow(two_pow_128(), 28);
    lemma_sq_pow_positive(two_pow_128(), 28);
    if bits == 0 {
        assert(pow2(0) == 1) by {
            lemma2_to64();
        }
        assert(unit * 1 == unit);
    } else {
        let b = (bits - 1) as nat;
        lemma_ratio_upper_power(n, b);
        if bit_is_set(n, b) {
            let r = ratio_prefix(n, b);
            let k = magic(b);
            let next = mul_shift(r, k);
            lemma_factor_bound(b);
            lemma_fundamental_div_mod((r * k) as int, two_pow_128() as int);
            assert(next * two_pow_128() <= r * k) by (nonlinear_arith)
                requires
                    r * k == two_pow_128() * next + (r * k) % two_pow_128(),
            ;
            lemma_sq_pow_monotonic(next * two_pow_128(), r * k, 28);
            lemma_sq_pow_mul(next, two_pow_128(), 28);
            lemma_sq_pow_mul(r, k, 28);
            lemma_pow2_adds(exponent_sum(n, b), log2_bound(b));
            let pn = sq_pow(next, 28);
            let pr = sq_pow(r, 28);
            let pk = sq_pow(k, 28);
            let ea = pow2(exponent_sum(n, b));
            let eb = pow2(log2_bound(b));
            assert(pn * (ea * eb) <= unit) by (nonlinear_arith)
                requires
                    pn * unit <= pr * pk,
                    pr * ea <= unit,
                    pk * eb <= unit,
                    unit > 0,
            ;
        }
    }
}

/// The power of the ratio, raised by one for each bit that may have rounded
/// it down, lies at or above two to the sum of the bounds of its factors and
/// one more for each bit.
pub proof fn lemma_ratio_lower_power(n: nat, bits: nat)
    requires
        bits <= 20,
    ensures
        sq_pow(two_pow_128(), 28) <= sq_pow(ratio_prefix(n, bits) + bits, 28) * pow2(
            exponent_sum(n, bits) + bits,
        ),
    decreases bits,
{
    let unit = sq_pow(two_pow_128(), 28);
    lemma_sq_pow_positive(two_pow_128(), 28);
    if bits == 0 {
        assert(pow2(0) == 1) by {
            lemma2_to64();
        }
        assert(unit * 1 == unit);
    } else {
        let b = (bits - 1) as nat;
        lemma_ratio_lower_power(n, b);
        let r = ratio_prefix(n, b);
        let before = sq_pow(r + b, 28);
        let eb = pow2(exponent_sum(n, b) + b);
        lemma_pow2_unfold(exponent_sum(n, b) + b + 1);
        if bit_is_set(n, b) {
            let k = magic(b);
            let next = mul_shift(r, k);
            lemma_factor_bound(b);
            lemma_magic_bounds(b);
            lemma_fundamental_div_mod((r * k) as int, two_pow_128() as int);
            assert((r + b) * k <= (next + bits) * two_pow_128()) by (nonlinear_arith)
                requires
                    r * k == two_pow_128() * next + (r * k) % two_pow_128(),
                    (r * k) % two_pow_128() < two_pow_128(),
                    k < two_pow_128(),
                    bits == b + 1,
            ;
            lemma_sq_pow_monotonic((r + b) * k, (next + bits) * two_pow_128(), 28);
            lemma_sq_pow_mul(next + bits, two_pow_128(), 28);
            lemma_sq_pow_mul(r + b, k, 28);
            lemma_pow2_adds(exponent_sum(n, b) + b, log2_bound(b) + 1);
            let pn = sq_pow(next + bits, 28);
            let pk = sq_pow(k, 28);
            let ek = pow2(log2_bound(b) + 1);
            assert(unit <= pn * (eb * ek)) by (nonlinear_arith)
                requires
                    before * pk <= pn * unit,
                    unit <= before * eb,
                    unit <= pk * ek,
                    unit > 0,
            ;
        } else {
            lemma_sq_pow_monotonic(r + b, r + bits, 28);
            let pn = sq_pow(r + bits, 28);
            assert(unit <= pn * (2 * eb)) by (nonlinear_arith)
                requires
                    unit <= before * eb,
                    before <= pn,
            ;
        }
    }
}

/// The bounds on the power of the ratio of a magnitude in range, and how the
/// exponent in them relates to the magnitude.
pub proof fn lemma_ratio_power_bounds(n: nat)
    requires
        n <= 887272,
    ensures
        sq_pow(ratio_q128(n), 28) * pow2(exponent_sum(n, 20)) <= pow2(0x8_0000_0000),
        pow2(0x8_0000_0000) <= sq_pow(ratio_q128(n), 28) * pow2(exponent_sum(n, 20) + 21),
        n * two_pow_128() - 20 * unit_slack() <= exponent_sum(n, 20) * unit_scale() <= n
            * two_pow_128() + 20 * unit_slack(),
        ratio_q128(n) >= 0x1_0000_0000_0000_0000,
{
    lemma2_to64();
    lemma2_to64_rest();
    lemma_pow2_values();
    let r = ratio_q128(n);
    let a = exponent_sum(n, 20);
    lemma_ratio_upper_power(n, 20);
    lemma_ratio_lower_power(n, 20);
    lemma_exponent_budget(n, 20);
    lemma_low_bits_is_mod(n, 20);
    lemma_small_mod(n, pow2(20));
    lemma_sq_pow_pow2(128, 28);
    assert(128 * pow2(28) == 0x8_0000_0000);
    lemma_max_magnitude_ratio();
    if n < 887272 {
        lemma_ratio_decreasing(n, 887272);
    }
    assert(pow2(2 * 28) * 20 <= r) by {
        assert(pow2(56) == 0x100_0000_0000_0000);
    }
    lemma_sq_pow_nearby(r, 20, 28);
    lemma_pow2_unfold(a + 21);
    let p = sq_pow(r, 28);
    let p20 = sq_pow(r + 20, 28);
    let unit = pow2(0x8_0000_0000);
    assert(unit <= p * (2 * pow2(a + 20))) by (nonlinear_arith)
        requires
            unit <= p20 * pow2(a + 20),
            p20 <= 2 * p,
    ;
}

} // verus!
