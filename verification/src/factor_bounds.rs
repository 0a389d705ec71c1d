//! Bounds on the binary logarithms of the twenty factors.
//!
//! The logarithm of a factor `k` is read off its `2^28`-th power, and the
//! power is found by squaring twenty-eight times. Each squaring keeps an
//! interval of 128-bit numbers around the power, scaled by a power of two so
//! that it stays at 128 bits: the lower end is rounded down and the upper end
//! up. The exponent of the scale at the end is the logarithm, in units of
//! `2^-28` and to one unit.

use crate::int256::two_pow_128;
use crate::power_lemmas::{lemma_square_order, sq_pow};
use crate::tick_math::magic;
use vstd::arithmetic::power2::*;
use vstd::prelude::*;

verus! {

/// An interval around a power of a factor: `lo` and `lo + width` bound
/// `(k / 2^128)^(2^level) * 2^(exponent + 128)`.
pub struct PowerBound {
    pub lo: nat,
    pub width: nat,
    pub exponent: nat,
    pub level: nat,
}

/// Whether the interval holds the power of `k` that it is about.
pub open spec fn bound_holds(k: nat, b: PowerBound) -> bool {
    let q = sq_pow(two_pow_128(), b.level);
    let scaled = sq_pow(k, b.level) * (pow2(b.exponent) * two_pow_128());
    b.lo * q <= scaled <= (b.lo + b.width) * q
}

/// The interval of the factor itself, shifted up by `shift` bits.
pub proof fn lemma_bound_start(k: nat, shift: nat) -> (b: PowerBound)
    ensures
        bound_holds(k, b),
        b == (PowerBound { lo: k * pow2(shift), width: 0, exponent: shift, level: 0 }),
{
    let b = PowerBound { lo: k * pow2(shift), width: 0, exponent: shift, level: 0 };
    assert((k * pow2(shift)) * two_pow_128() == k * (pow2(shift) * two_pow_128()))
        by (nonlinear_arith);
    b
}

/// From the interval of a power to that of its square, shifted up by `shift`
/// bits: the new lower end is not above the square of the old one, and the
/// new upper end not below the square of the old one, both in units of 2^128.
pub proof fn lemma_bound_step(k: nat, b: PowerBound, lo: nat, width: nat, shift: nat) -> (r:
    PowerBound)
    requires
        bound_holds(k, b),
        lo * two_pow_128() <= b.lo * b.lo * pow2(shift),
        (b.lo + b.width) * (b.lo + b.width) * pow2(shift) <= (lo + width) * two_pow_128(),
    ensures
        bound_holds(k, r),
        r == (PowerBound { lo, width, exponent: 2 * b.exponent + shift, level: b.level + 1 }),
{
    let r = PowerBound { lo, width, exponent: 2 * b.exponent + shift, level: b.level + 1 };
    let q = sq_pow(two_pow_128(), b.level);
    let p = sq_pow(k, b.level);
    let t = pow2(b.exponent);
    let u = two_pow_128();
    let s = pow2(shift);
    let scaled = p * (t * u);
    let hi = b.lo + b.width;
    lemma_pow2_adds(b.exponent, b.exponent);
    lemma_pow2_adds(2 * b.exponent, shift);
    assert(pow2(r.exponent) == t * t * s);
    lemma_square_order(b.lo * q, scaled);
    lemma_square_order(scaled, hi * q);
    assert(sq_pow(two_pow_128(), r.level) == q * q);
    assert(sq_pow(k, r.level) == p * p);
    let scaled_next = (p * p) * ((t * t * s) * u);
    assert(lo * (q * q) <= scaled_next) by (nonlinear_arith)
        requires
            (b.lo * q) * (b.lo * q) <= scaled * scaled,
            scaled == p * (t * u),
            scaled_next == (p * p) * ((t * t * s) * u),
            lo * u <= b.lo * b.lo * s,
            u > 0,
    ;
    assert(scaled_next <= (lo + width) * (q * q)) by (nonlinear_arith)
        requires
            scaled * scaled <= (hi * q) * (hi * q),
            scaled == p * (t * u),
            scaled_next == (p * p) * ((t * t * s) * u),
            hi * hi * s <= (lo + width) * u,
            u > 0,
    ;
    r
}

/// What an interval inside `[2^127, 2^128]` says of the power: it lies
/// between `2^-(exponent + 1)` and `2^-exponent`.
pub proof fn lemma_bound_end(k: nat, b: PowerBound)
    requires
        bound_holds(k, b),
        0x8000_0000_0000_0000_0000_0000_0000_0000 <= b.lo,
        b.lo + b.width <= two_pow_128(),
    ensures
        sq_pow(k, b.level) * pow2(b.exponent) <= sq_pow(two_pow_128(), b.level),
        sq_pow(two_pow_128(), b.level) <= sq_pow(k, b.level) * pow2(b.exponent + 1),
{
    let q = sq_pow(two_pow_128(), b.level);
    let p = sq_pow(k, b.level);
    let t = pow2(b.exponent);
    let u = two_pow_128();
    lemma_pow2_unfold(b.exponent + 1);
    assert(p * t <= q) by (nonlinear_arith)
        requires
            p * (t * u) <= (b.lo + b.width) * q,
            b.lo + b.width <= u,
            u > 0,
            q >= 0,
    ;
    assert(q <= p * (2 * t)) by (nonlinear_arith)
        requires
            b.lo * q <= p * (t * u),
            2 * b.lo >= u,
            u > 0,
            q >= 0,
    ;
}

/// A bound on the binary logarithm of each factor: `(magic(i) / 2^128)^(2^28)`
/// lies between `2^-(log2_bound(i) + 1)` and `2^-log2_bound(i)`.
pub open spec fn log2_bound(i: nat) -> nat {
    if i == 0 {
        19362
    } else if i == 1 {
        38725
    } else if i == 2 {
        77450
    } else if i == 3 {
        154900
    } else if i == 4 {
        309800
    } else if i == 5 {
        619601
    } else if i == 6 {
        1239203
    } else if i == 7 {
        2478407
    } else if i == 8 {
        4956814
    } else if i == 9 {
        9913629
    } else if i == 10 {
        19827258
    } else if i == 11 {
        39654516
    } else if i == 12 {
        79309033
    } else if i == 13 {
        158618066
    } else if i == 14 {
        317236133
    } else if i == 15 {
        634472266
    } else if i == 16 {
        1268944532
    } else if i == 17 {
        2537889064
    } else if i == 18 {
        5075778128
    } else {
        10151556256
    }
}

/// The bound for the factor of bit 0: each row gives the lower end of the
/// interval after one more squaring, its width, and the bits it was shifted
/// up by.
proof fn lemma_factor_bound_0()
    ensures
        sq_pow(magic(0), 28) * pow2(log2_bound(0)) <= sq_pow(two_pow_128(), 28),
        sq_pow(two_pow_128(), 28) <= sq_pow(magic(0), 28) * pow2(log2_bound(0) + 1),
{
    lemma2_to64();
    lemma2_to64_rest();
    let k = magic(0);
    let b0 = lemma_bound_start(k, 0);
    assert(b0.lo == 0xfffcb933bd6fad37_aa2d162d1a594001nat);
    let b1 = lemma_bound_step(k, b0, 0xfff97272373d4132_59a46990580e2138nat, 1, 0);
    let b2 = lemma_bound_step(k, b1, 0xfff2e50f5f656932_ef12357cf3c7fdc8nat, 3, 0);
    let b3 = lemma_bound_step(k, b2, 0xffe5caca7e10e4e6_1c3624eaa0941cc8nat, 7, 0);
    let b4 = lemma_bound_step(k, b3, 0xffcb9843d60f6159_c9db58835c926633nat, 15, 0);
    let b5 = lemma_bound_step(k, b4, 0xff973b41fa98c081_472e6896dfb2549enat, 31, 0);
    let b6 = lemma_bound_step(k, b5, 0xff2ea16466c96a38_43ec78b326b5281dnat, 63, 0);
    let b7 = lemma_bound_step(k, b6, 0xfe5dee046a99a2a8_11c461f1969c2fccnat, 126, 0);
    let b8 = lemma_bound_step(k, b7, 0xfcbe86c7900a88ae_dcffc83b479aa297nat, 252, 0);
    let b9 = lemma_bound_step(k, b8, 0xf987a7253ac41317_6f2b074cf7815c41nat, 498, 0);
    let b10 = lemma_bound_step(k, b9, 0xf3392b0822b70005_940c7a398e4b6ce7nat, 972, 0);
    let b11 = lemma_bound_step(k, b10, 0xe7159475a2c29b74_43b29c7fa6e88228nat, 1848, 0);
    let b12 = lemma_bound_step(k, b11, 0xd097f3bdfd2022b8_845ad8f792aa4a43nat, 3337, 0);
    let b13 = lemma_bound_step(k, b12, 0xa9f746462d870fdf_8a65dc1f90e04b44nat, 5439, 0);
    let b14 = lemma_bound_step(k, b13, 0xe1b0d342ada54371_21767bec575e29d4nat, 14446, 1);
    let b15 = lemma_bound_step(k, b14, 0xc6f84d7e5f423f66_048c541550bed49enat, 25472, 0);
    let b16 = lemma_bound_step(k, b15, 0x9aa508b5b7a84e1c_677de54f3e9917d6nat, 39596, 0);
    let b17 = lemma_bound_step(k, b16, 0xbad5f1bdb70232cd_33865244bdca7a94nat, 95678, 1);
    let b18 = lemma_bound_step(k, b17, 0x885b9613d7e87aa4_98106fb7fa5c983anat, 139657, 0);
    let b19 = lemma_bound_step(k, b18, 0x9142e0723efb8848_89d1f447715624f2nat, 297554, 1);
    let b20 = lemma_bound_step(k, b19, 0xa4d9a773d6131691_8f140bd96e836e82nat, 675362, 1);
    let b21 = lemma_bound_step(k, b20, 0xd44f2f3374636dfb_6364b38a2cf85828nat, 1739590, 1);
    let b22 = lemma_bound_step(k, b21, 0xb0133eab633a729a_54b084764f9184f1nat, 2885401, 0);
    let b23 = lemma_bound_step(k, b22, 0xf234ef3c0a711e1e_7ad2cb08f35dc3c8nat, 7938244, 1);
    let b24 = lemma_bound_step(k, b23, 0xe5281f3f93b34479_f8487d748db61537nat, 15021067, 0);
    let b25 = lemma_bound_step(k, b24, 0xcd20ce3185ed5617_0e57e37064098001nat, 26892021, 0);
    let b26 = lemma_bound_step(k, b25, 0xa45d8e6f82f35454_f434dfa044898c2bnat, 43096176, 0);
    let b27 = lemma_bound_step(k, b26, 0xd310015f58199d61_c4552ceb7a8dd8fcnat, 110680042, 1);
    let b28 = lemma_bound_step(k, b27, 0xae03634357271ed5_8a6c238d7fda4ad0nat, 182503193, 0);
    lemma_bound_end(k, b28);
}

/// The bound for the factor of bit 1: each row gives the lower end of the
/// interval after one more squaring, its width, and the bits it was shifted
/// up by.
proof fn lemma_factor_bound_1()
    ensures
        sq_pow(magic(1), 28) * pow2(log2_bound(1)) <= sq_pow(two_pow_128(), 28),
        sq_pow(two_pow_128(), 28) <= sq_pow(magic(1), 28) * pow2(log2_bound(1) + 1),
{
    lemma2_to64();
    lemma2_to64_rest();
    let k = magic(1);
    let b0 = lemma_bound_start(k, 0);
    assert(b0.lo == 0xfff97272373d4132_59a46990580e213anat);
    let b1 = lemma_bound_step(k, b0, 0xfff2e50f5f656932_ef12357cf3c7fdccnat, 1, 0);
    let b2 = lemma_bound_step(k, b1, 0xffe5caca7e10e4e6_1c3624eaa0941cd0nat, 3, 0);
    let b3 = lemma_bound_step(k, b2, 0xffcb9843d60f6159_c9db58835c926643nat, 7, 0);
    let b4 = lemma_bound_step(k, b3, 0xff973b41fa98c081_472e6896dfb254benat, 15, 0);
    let b5 = lemma_bound_step(k, b4, 0xff2ea16466c96a38_43ec78b326b5285dnat, 31, 0);
    let b6 = lemma_bound_step(k, b5, 0xfe5dee046a99a2a8_11c461f1969c304bnat, 63, 0);
    let b7 = lemma_bound_step(k, b6, 0xfcbe86c7900a88ae_dcffc83b479aa394nat, 126, 0);
    let b8 = lemma_bound_step(k, b7, 0xf987a7253ac41317_6f2b074cf7815e34nat, 250, 0);
    let b9 = lemma_bound_step(k, b8, 0xf3392b0822b70005_940c7a398e4b70b4nat, 488, 0);
    let b10 = lemma_bound_step(k, b9, 0xe7159475a2c29b74_43b29c7fa6e88961nat, 928, 0);
    let b11 = lemma_bound_step(k, b10, 0xd097f3bdfd2022b8_845ad8f792aa574dnat, 1676, 0);
    let b12 = lemma_bound_step(k, b11, 0xa9f746462d870fdf_8a65dc1f90e06084nat, 2732, 0);
    let b13 = lemma_bound_step(k, b12, 0xe1b0d342ada54371_21767bec575e6244nat, 7256, 1);
    let b14 = lemma_bound_step(k, b13, 0xc6f84d7e5f423f66_048c541550bf3821nat, 12794, 0);
    let b15 = lemma_bound_step(k, b14, 0x9aa508b5b7a84e1c_677de54f3e99b286nat, 19888, 0);
    let b16 = lemma_bound_step(k, b15, 0xbad5f1bdb70232cd_33865244bdcbf05anat, 48058, 1);
    let b17 = lemma_bound_step(k, b16, 0x885b9613d7e87aa4_98106fb7fa5eb9cenat, 70149, 0);
    let b18 = lemma_bound_step(k, b17, 0x9142e0723efb8848_89d1f447715aaf5anat, 149460, 1);
    let b19 = lemma_bound_step(k, b18, 0xa4d9a773d6131691_8f140bd96e8dbcd4nat, 339232, 1);
    let b20 = lemma_bound_step(k, b19, 0xd44f2f3374636dfb_6364b38a2d12e3e8nat, 873790, 1);
    let b21 = lemma_bound_step(k, b20, 0xb0133eab633a729a_54b084764fbd8cd3nat, 1449327, 0);
    let b22 = lemma_bound_step(k, b21, 0xf234ef3c0a711e1e_7ad2cb08f3d6e6b4nat, 3987352, 1);
    let b23 = lemma_bound_step(k, b22, 0xe5281f3f93b34479_f8487d748e9b4d55nat, 7545030, 0);
    let b24 = lemma_bound_step(k, b23, 0xcd20ce3185ed5617_0e57e37065a3de40nat, 13507770, 0);
    let b25 = lemma_bound_step(k, b24, 0xa45d8e6f82f35454_f434dfa0471b3049nat, 21647062, 0);
    let b26 = lemma_bound_step(k, b25, 0xd310015f58199d61_c4552ceb8126cee2nat, 55594208, 1);
    let b27 = lemma_bound_step(k, b26, 0xae03634357271ed5_8a6c238d8abb435anat, 91670733, 0);
    let b28 = lemma_bound_step(k, b27, 0xec9135f60914bfe7_fe565145c5bca206nat, 249248762, 1);
    lemma_bound_end(k, b28);
}

/// The bound for the factor of bit 2: each row gives the lower end of the
/// interval after one more squaring, its width, and the bits it was shifted
/// up by.
proof fn lemma_factor_bound_2()
    ensures
        sq_pow(magic(2), 28) * pow2(log2_bound(2)) <= sq_pow(two_pow_128(), 28),
        sq_pow(two_pow_128(), 28) <= sq_pow(magic(2), 28) * pow2(log2_bound(2) + 1),
{
    lemma2_to64();
    lemma2_to64_rest();
    let k = magic(2);
    let b0 = lemma_bound_start(k, 0);
    assert(b0.lo == 0xfff2e50f5f656932_ef12357cf3c7fdccnat);
    let b1 = lemma_bound_step(k, b0, 0xffe5caca7e10e4e6_1c3624eaa0941cd0nat, 1, 0);
    let b2 = lemma_bound_step(k, b1, 0xffcb9843d60f6159_c9db58835c926643nat, 3, 0);
    let b3 = lemma_bound_step(k, b2, 0xff973b41fa98c081_472e6896dfb254benat, 7, 0);
    let b4 = lemma_bound_step(k, b3, 0xff2ea16466c96a38_43ec78b326b5285dnat, 15, 0);
    let b5 = lemma_bound_step(k, b4, 0xfe5dee046a99a2a8_11c461f1969c304bnat, 31, 0);
    let b6 = lemma_bound_step(k, b5, 0xfcbe86c7900a88ae_dcffc83b479aa394nat, 62, 0);
    let b7 = lemma_bound_step(k, b6, 0xf987a7253ac41317_6f2b074cf7815e34nat, 124, 0);
    let b8 = lemma_bound_step(k, b7, 0xf3392b0822b70005_940c7a398e4b70b4nat, 243, 0);
    let b9 = lemma_bound_step(k, b8, 0xe7159475a2c29b74_43b29c7fa6e88961nat, 463, 0);
    let b10 = lemma_bound_step(k, b9, 0xd097f3bdfd2022b8_845ad8f792aa574dnat, 837, 0);
    let b11 = lemma_bound_step(k, b10, 0xa9f746462d870fdf_8a65dc1f90e06084nat, 1365, 0);
    let b12 = lemma_bound_step(k, b11, 0xe1b0d342ada54371_21767bec575e6244nat, 3626, 1);
    let b13 = lemma_bound_step(k, b12, 0xc6f84d7e5f423f66_048c541550bf3821nat, 6394, 0);
    let b14 = lemma_bound_step(k, b13, 0x9aa508b5b7a84e1c_677de54f3e99b286nat, 9940, 0);
    let b15 = lemma_bound_step(k, b14, 0xbad5f1bdb70232cd_33865244bdcbf05anat, 24020, 1);
    let b16 = lemma_bound_step(k, b15, 0x885b9613d7e87aa4_98106fb7fa5eb9cenat, 35062, 0);
    let b17 = lemma_bound_step(k, b16, 0x9142e0723efb8848_89d1f447715aaf5anat, 74704, 1);
    let b18 = lemma_bound_step(k, b17, 0xa4d9a773d6131691_8f140bd96e8dbcd4nat, 169558, 1);
    let b19 = lemma_bound_step(k, b18, 0xd44f2f3374636dfb_6364b38a2d12e3e8nat, 436746, 1);
    let b20 = lemma_bound_step(k, b19, 0xb0133eab633a729a_54b084764fbd8cd3nat, 724417, 0);
    let b21 = lemma_bound_step(k, b20, 0xf234ef3c0a711e1e_7ad2cb08f3d6e6b4nat, 1992998, 1);
    let b22 = lemma_bound_step(k, b21, 0xe5281f3f93b34479_f8487d748e9b4d55nat, 3771233, 0);
    let b23 = lemma_bound_step(k, b22, 0xcd20ce3185ed5617_0e57e37065a3de40nat, 6751590, 0);
    let b24 = lemma_bound_step(k, b23, 0xa45d8e6f82f35454_f434dfa0471b3049nat, 10819853, 0);
    let b25 = lemma_bound_step(k, b24, 0xd310015f58199d61_c4552ceb8126cee2nat, 27787660, 1);
    let b26 = lemma_bound_step(k, b25, 0xae03634357271ed5_8a6c238d8abb435anat, 45819794, 0);
    let b27 = lemma_bound_step(k, b26, 0xec9135f60914bfe7_fe565145c5bca206nat, 124582040, 1);
    let b28 = lemma_bound_step(k, b27, 0xda9c0ddbccd4578d_2d669bfa1d26af58nat, 230250220, 0);
    lemma_bound_end(k, b28);
}

/// The bound for the factor of bit 3: each row gives the lower end of the
/// interval after one more squaring, its width, and the bits it was shifted
/// up by.
proof fn lemma_factor_bound_3()
    ensures
        sq_pow(magic(3), 28) * pow2(log2_bound(3)) <= sq_pow(two_pow_128(), 28),
        sq_pow(two_pow_128(), 28) <= sq_pow(magic(3), 28) * pow2(log2_bound(3) + 1),
{
    lemma2_to64();
    lemma2_to64_rest();
    let k = magic(3);
    let b0 = lemma_bound_start(k, 0);
    assert(b0.lo == 0xffe5caca7e10e4e6_1c3624eaa0941cd0nat);
    let b1 = lemma_bound_step(k, b0, 0xffcb9843d60f6159_c9db58835c926643nat, 1, 0);
    let b2 = lemma_bound_step(k, b1, 0xff973b41fa98c081_472e6896dfb254benat, 3, 0);
    let b3 = lemma_bound_step(k, b2, 0xff2ea16466c96a38_43ec78b326b5285dnat, 7, 0);
    let b4 = lemma_bound_step(k, b3, 0xfe5dee046a99a2a8_11c461f1969c304bnat, 15, 0);
    let b5 = lemma_bound_step(k, b4, 0xfcbe86c7900a88ae_dcffc83b479aa394nat, 30, 0);
    let b6 = lemma_bound_step(k, b5, 0xf987a7253ac41317_6f2b074cf7815e34nat, 60, 0);
    let b7 = lemma_bound_step(k, b6, 0xf3392b0822b70005_940c7a398e4b70b4nat, 118, 0);
    let b8 = lemma_bound_step(k, b7, 0xe7159475a2c29b74_43b29c7fa6e88961nat, 225, 0);
    let b9 = lemma_bound_step(k, b8, 0xd097f3bdfd2022b8_845ad8f792aa574dnat, 407, 0);
    let b10 = lemma_bound_step(k, b9, 0xa9f746462d870fdf_8a65dc1f90e06084nat, 664, 0);
    let b11 = lemma_bound_step(k, b10, 0xe1b0d342ada54371_21767bec575e6244nat, 1764, 1);
    let b12 = lemma_bound_step(k, b11, 0xc6f84d7e5f423f66_048c541550bf3821nat, 3111, 0);
    let b13 = lemma_bound_step(k, b12, 0x9aa508b5b7a84e1c_677de54f3e99b286nat, 4837, 0);
    let b14 = lemma_bound_step(k, b13, 0xbad5f1bdb70232cd_33865244bdcbf05anat, 11690, 1);
    let b15 = lemma_bound_step(k, b14, 0x885b9613d7e87aa4_98106fb7fa5eb9cenat, 17064, 0);
    let b16 = lemma_bound_step(k, b15, 0x9142e0723efb8848_89d1f447715aaf5anat, 36358, 1);
    let b17 = lemma_bound_step(k, b16, 0xa4d9a773d6131691_8f140bd96e8dbcd4nat, 82524, 1);
    let b18 = lemma_bound_step(k, b17, 0xd44f2f3374636dfb_6364b38a2d12e3e8nat, 212566, 1);
    let b19 = lemma_bound_step(k, b18, 0xb0133eab633a729a_54b084764fbd8cd3nat, 352577, 0);
    let b20 = lemma_bound_step(k, b19, 0xf234ef3c0a711e1e_7ad2cb08f3d6e6b4nat, 970002, 1);
    let b21 = lemma_bound_step(k, b20, 0xe5281f3f93b34479_f8487d748e9b4d55nat, 1835478, 0);
    let b22 = lemma_bound_step(k, b21, 0xcd20ce3185ed5617_0e57e37065a3de40nat, 3286033, 0);
    let b23 = lemma_bound_step(k, b22, 0xa45d8e6f82f35454_f434dfa0471b3049nat, 5266078, 0);
    let b24 = lemma_bound_step(k, b23, 0xd310015f58199d61_c4552ceb8126cee2nat, 13524398, 1);
    let b25 = lemma_bound_step(k, b24, 0xae03634357271ed5_8a6c238d8abb435anat, 22300731, 0);
    let b26 = lemma_bound_step(k, b25, 0xec9135f60914bfe7_fe565145c5bca206nat, 60634726, 1);
    let b27 = lemma_bound_step(k, b26, 0xda9c0ddbccd4578d_2d669bfa1d26af58nat, 112063978, 0);
    let b28 = lemma_bound_step(k, b27, 0xbaae26bb3d7b576c_cd7754864bffabebnat, 191392656, 0);
    lemma_bound_end(k, b28);
}

/// The bound for the factor of bit 4: each row gives the lower end of the
/// interval after one more squaring, its width, and the bits it was shifted
/// up by.
proof fn lemma_factor_bound_4()
    ensures
        sq_pow(magic(4), 28) * pow2(log2_bound(4)) <= sq_pow(two_pow_128(), 28),
        sq_pow(two_pow_128(), 28) <= sq_pow(magic(4), 28) * pow2(log2_bound(4) + 1),
{
    lemma2_to64();
    lemma2_to64_rest();
    let k = magic(4);
    let b0 = lemma_bound_start(k, 0);
    assert(b0.lo == 0xffcb9843d60f6159_c9db58835c926644nat);
    let b1 = lemma_bound_step(k, b0, 0xff973b41fa98c081_472e6896dfb254c0nat, 1, 0);
    let b2 = lemma_bound_step(k, b1, 0xff2ea16466c96a38_43ec78b326b52861nat, 3, 0);
    let b3 = lemma_bound_step(k, b2, 0xfe5dee046a99a2a8_11c461f1969c3053nat, 7, 0);
    let b4 = lemma_bound_step(k, b3, 0xfcbe86c7900a88ae_dcffc83b479aa3a3nat, 15, 0);
    let b5 = lemma_bound_step(k, b4, 0xf987a7253ac41317_6f2b074cf7815e52nat, 30, 0);
    let b6 = lemma_bound_step(k, b5, 0xf3392b0822b70005_940c7a398e4b70eenat, 60, 0);
    let b7 = lemma_bound_step(k, b6, 0xe7159475a2c29b74_43b29c7fa6e889cfnat, 115, 0);
    let b8 = lemma_bound_step(k, b7, 0xd097f3bdfd2022b8_845ad8f792aa5814nat, 208, 0);
    let b9 = lemma_bound_step(k, b8, 0xa9f746462d870fdf_8a65dc1f90e061c8nat, 340, 0);
    let b10 = lemma_bound_step(k, b9, 0xe1b0d342ada54371_21767bec575e65a0nat, 904, 1);
    let b11 = lemma_bound_step(k, b10, 0xc6f84d7e5f423f66_048c541550bf3e0dnat, 1595, 0);
    let b12 = lemma_bound_step(k, b11, 0x9aa508b5b7a84e1c_677de54f3e99bbbanat, 2481, 0);
    let b13 = lemma_bound_step(k, b12, 0xbad5f1bdb70232cd_33865244bdcc0696nat, 5998, 1);
    let b14 = lemma_bound_step(k, b13, 0x885b9613d7e87aa4_98106fb7fa5eda42nat, 8756, 0);
    let b15 = lemma_bound_step(k, b14, 0x9142e0723efb8848_89d1f447715af47enat, 18658, 1);
    let b16 = lemma_bound_step(k, b15, 0xa4d9a773d6131691_8f140bd96e8e59c2nat, 42350, 1);
    let b17 = lemma_bound_step(k, b16, 0xd44f2f3374636dfb_6364b38a2d14781enat, 109088, 1);
    let b18 = lemma_bound_step(k, b17, 0xb0133eab633a729a_54b084764fc02b47nat, 180941, 0);
    let b19 = lemma_bound_step(k, b18, 0xf234ef3c0a711e1e_7ad2cb08f3de1b3cnat, 497802, 1);
    let b20 = lemma_bound_step(k, b19, 0xe5281f3f93b34479_f8487d748ea8efa1nat, 941962, 0);
    let b21 = lemma_bound_step(k, b20, 0xcd20ce3185ed5617_0e57e37065bc46e2nat, 1686383, 0);
    let b22 = lemma_bound_step(k, b21, 0xa45d8e6f82f35454_f434dfa047424e1enat, 2702537, 0);
    let b23 = lemma_bound_step(k, b22, 0xd310015f58199d61_c4552ceb818b4482nat, 6940686, 1);
    let b24 = lemma_bound_step(k, b23, 0xae03634357271ed5_8a6c238d8b60e9cfnat, 11444678, 0);
    let b25 = lemma_bound_step(k, b24, 0xec9135f60914bfe7_fe565145c77f0758nat, 31117588, 1);
    let b26 = lemma_bound_step(k, b25, 0xda9c0ddbccd4578d_2d669bfa2067191bnat, 57510951, 0);
    let b27 = lemma_bound_step(k, b26, 0xbaae26bb3d7b576c_cd775486518d56e6nat, 98222229, 0);
    let b28 = lemma_bound_step(k, b27, 0x882186c0c1baede8_7162be14a8d90bb1nat, 143251197, 0);
    lemma_bound_end(k, b28);
}

/// The bound for the factor of bit 5: each row gives the lower end of the
/// interval after one more squaring, its width, and the bits it was shifted
/// up by.
proof fn lemma_factor_bound_5()
    ensures
        sq_pow(magic(5), 28) * pow2(log2_bound(5)) <= sq_pow(two_pow_128(), 28),
        sq_pow(two_pow_128(), 28) <= sq_pow(magic(5), 28) * pow2(log2_bound(5) + 1),
{
    lemma2_to64();
    lemma2_to64_rest();
    let k = magic(5);
    let b0 = lemma_bound_start(k, 0);
    assert(b0.lo == 0xff973b41fa98c081_472e6896dfb254c0nat);
    let b1 = lemma_bound_step(k, b0, 0xff2ea16466c96a38_43ec78b326b52861nat, 1, 0);
    let b2 = lemma_bound_step(k, b1, 0xfe5dee046a99a2a8_11c461f1969c3053nat, 3, 0);
    let b3 = lemma_bound_step(k, b2, 0xfcbe86c7900a88ae_dcffc83b479aa3a3nat, 7, 0);
    let b4 = lemma_bound_step(k, b3, 0xf987a7253ac41317_6f2b074cf7815e52nat, 15, 0);
    let b5 = lemma_bound_step(k, b4, 0xf3392b0822b70005_940c7a398e4b70eenat, 31, 0);
    let b6 = lemma_bound_step(k, b5, 0xe7159475a2c29b74_43b29c7fa6e889cfnat, 60, 0);
    let b7 = lemma_bound_step(k, b6, 0xd097f3bdfd2022b8_845ad8f792aa5814nat, 109, 0);
    let b8 = lemma_bound_step(k, b7, 0xa9f746462d870fdf_8a65dc1f90e061c8nat, 179, 0);
    let b9 = lemma_bound_step(k, b8, 0xe1b0d342ada54371_21767bec575e65a0nat, 476, 1);
    let b10 = lemma_bound_step(k, b9, 0xc6f84d7e5f423f66_048c541550bf3e0dnat, 840, 0);
    let b11 = lemma_bound_step(k, b10, 0x9aa508b5b7a84e1c_677de54f3e99bbbanat, 1307, 0);
    let b12 = lemma_bound_step(k, b11, 0xbad5f1bdb70232cd_33865244bdcc0696nat, 3160, 1);
    let b13 = lemma_bound_step(k, b12, 0x885b9613d7e87aa4_98106fb7fa5eda42nat, 4614, 0);
    let b14 = lemma_bound_step(k, b13, 0x9142e0723efb8848_89d1f447715af47enat, 9834, 1);
    let b15 = lemma_bound_step(k, b14, 0xa4d9a773d6131691_8f140bd96e8e59c2nat, 22322, 1);
    let b16 = lemma_bound_step(k, b15, 0xd44f2f3374636dfb_6364b38a2d14781enat, 57500, 1);
    let b17 = lemma_bound_step(k, b16, 0xb0133eab633a729a_54b084764fc02b47nat, 95374, 0);
    let b18 = lemma_bound_step(k, b17, 0xf234ef3c0a711e1e_7ad2cb08f3de1b3cnat, 262392, 1);
    let b19 = lemma_bound_step(k, b18, 0xe5281f3f93b34479_f8487d748ea8efa1nat, 496510, 0);
    let b20 = lemma_bound_step(k, b19, 0xcd20ce3185ed5617_0e57e37065bc46e2nat, 888896, 0);
    let b21 = lemma_bound_step(k, b20, 0xa45d8e6f82f35454_f434dfa047424e1enat, 1424513, 0);
    let b22 = lemma_bound_step(k, b21, 0xd310015f58199d61_c4552ceb818b4482nat, 3658452, 1);
    let b23 = lemma_bound_step(k, b22, 0xae03634357271ed5_8a6c238d8b60e9cfnat, 6032518, 0);
    let b24 = lemma_bound_step(k, b23, 0xec9135f60914bfe7_fe565145c77f0758nat, 16402158, 1);
    let b25 = lemma_bound_step(k, b24, 0xda9c0ddbccd4578d_2d669bfa2067191bnat, 30314166, 0);
    let b26 = lemma_bound_step(k, b25, 0xbaae26bb3d7b576c_cd775486518d56e6nat, 51773183, 0);
    let b27 = lemma_bound_step(k, b26, 0x882186c0c1baede8_7162be14a8d90bb1nat, 75508066, 0);
    let b28 = lemma_bound_step(k, b27, 0x90c74721a4edd5d6_54eb77feeb517e6enat, 160609154, 1);
    lemma_bound_end(k, b28);
}

/// The bound for the factor of bit 6: each row gives the lower end of the
/// interval after one more squaring, its width, and the bits it was shifted
/// up by.
proof fn lemma_factor_bound_6()
    ensures
        sq_pow(magic(6), 28) * pow2(log2_bound(6)) <= sq_pow(two_pow_128(), 28),
        sq_pow(two_pow_128(), 28) <= sq_pow(magic(6), 28) * pow2(log2_bound(6) + 1),
{
    lemma2_to64();
    lemma2_to64_rest();
    let k = magic(6);
    let b0 = lemma_bound_start(k, 0);
    assert(b0.lo == 0xff2ea16466c96a38_43ec78b326b52861nat);
    let b1 = lemma_bound_step(k, b0, 0xfe5dee046a99a2a8_11c461f1969c3053nat, 1, 0);
    let b2 = lemma_bound_step(k, b1, 0xfcbe86c7900a88ae_dcffc83b479aa3a3nat, 3, 0);
    let b3 = lemma_bound_step(k, b2, 0xf987a7253ac41317_6f2b074cf7815e52nat, 7, 0);
    let b4 = lemma_bound_step(k, b3, 0xf3392b0822b70005_940c7a398e4b70eenat, 15, 0);
    let b5 = lemma_bound_step(k, b4, 0xe7159475a2c29b74_43b29c7fa6e889cfnat, 30, 0);
    let b6 = lemma_bound_step(k, b5, 0xd097f3bdfd2022b8_845ad8f792aa5814nat, 55, 0);
    let b7 = lemma_bound_step(k, b6, 0xa9f746462d870fdf_8a65dc1f90e061c8nat, 91, 0);
    let b8 = lemma_bound_step(k, b7, 0xe1b0d342ada54371_21767bec575e65a0nat, 244, 1);
    let b9 = lemma_bound_step(k, b8, 0xc6f84d7e5f423f66_048c541550bf3e0dnat, 431, 0);
    let b10 = lemma_bound_step(k, b9, 0x9aa508b5b7a84e1c_677de54f3e99bbbanat, 671, 0);
    let b11 = lemma_bound_step(k, b10, 0xbad5f1bdb70232cd_33865244bdcc0696nat, 1624, 1);
    let b12 = lemma_bound_step(k, b11, 0x885b9613d7e87aa4_98106fb7fa5eda42nat, 2372, 0);
    let b13 = lemma_bound_step(k, b12, 0x9142e0723efb8848_89d1f447715af47enat, 5056, 1);
    let b14 = lemma_bound_step(k, b13, 0xa4d9a773d6131691_8f140bd96e8e59c2nat, 11478, 1);
    let b15 = lemma_bound_step(k, b14, 0xd44f2f3374636dfb_6364b38a2d14781enat, 29568, 1);
    let b16 = lemma_bound_step(k, b15, 0xb0133eab633a729a_54b084764fc02b47nat, 49044, 0);
    let b17 = lemma_bound_step(k, b16, 0xf234ef3c0a711e1e_7ad2cb08f3de1b3cnat, 134930, 1);
    let b18 = lemma_bound_step(k, b17, 0xe5281f3f93b34479_f8487d748ea8efa1nat, 255321, 0);
    let b19 = lemma_bound_step(k, b18, 0xcd20ce3185ed5617_0e57e37065bc46e2nat, 457099, 0);
    let b20 = lemma_bound_step(k, b19, 0xa45d8e6f82f35454_f434dfa047424e1enat, 732531, 0);
    let b21 = lemma_bound_step(k, b20, 0xd310015f58199d61_c4552ceb818b4482nat, 1881296, 1);
    let b22 = lemma_bound_step(k, b21, 0xae03634357271ed5_8a6c238d8b60e9cfnat, 3102119, 0);
    let b23 = lemma_bound_step(k, b22, 0xec9135f60914bfe7_fe565145c77f0758nat, 8434530, 1);
    let b24 = lemma_bound_step(k, b23, 0xda9c0ddbccd4578d_2d669bfa2067191bnat, 15588544, 0);
    let b25 = lemma_bound_step(k, b24, 0xbaae26bb3d7b576c_cd775486518d56e6nat, 26623479, 0);
    let b26 = lemma_bound_step(k, b25, 0x882186c0c1baede8_7162be14a8d90bb1nat, 38828739, 0);
    let b27 = lemma_bound_step(k, b26, 0x90c74721a4edd5d6_54eb77feeb517e6enat, 82590528, 1);
    let b28 = lemma_bound_step(k, b27, 0xa3c1964b073b5076_dde110c02d2e4f54nat, 186833236, 1);
    lemma_bound_end(k, b28);
}

/// The bound for the factor of bit 7: each row gives the lower end of the
/// interval after one more squaring, its width, and the bits it was shifted
/// up by.
proof fn lemma_factor_bound_7()
    ensures
        sq_pow(magic(7), 28) * pow2(log2_bound(7)) <= sq_pow(two_pow_128(), 28),
        sq_pow(two_pow_128(), 28) <= sq_pow(magic(7), 28) * pow2(log2_bound(7) + 1),
{
    lemma2_to64();
    lemma2_to64_rest();
    let k = magic(7);
    let b0 = lemma_bound_start(k, 0);
    assert(b0.lo == 0xfe5dee046a99a2a8_11c461f1969c3053nat);
    let b1 = lemma_bound_step(k, b0, 0xfcbe86c7900a88ae_dcffc83b479aa3a3nat, 1, 0);
    let b2 = lemma_bound_step(k, b1, 0xf987a7253ac41317_6f2b074cf7815e52nat, 3, 0);
    let b3 = lemma_bound_step(k, b2, 0xf3392b0822b70005_940c7a398e4b70eenat, 7, 0);
    let b4 = lemma_bound_step(k, b3, 0xe7159475a2c29b74_43b29c7fa6e889cfnat, 14, 0);
    let b5 = lemma_bound_step(k, b4, 0xd097f3bdfd2022b8_845ad8f792aa5814nat, 26, 0);
    let b6 = lemma_bound_step(k, b5, 0xa9f746462d870fdf_8a65dc1f90e061c8nat, 43, 0);
    let b7 = lemma_bound_step(k, b6, 0xe1b0d342ada54371_21767bec575e65a0nat, 116, 1);
    let b8 = lemma_bound_step(k, b7, 0xc6f84d7e5f423f66_048c541550bf3e0dnat, 205, 0);
    let b9 = lemma_bound_step(k, b8, 0x9aa508b5b7a84e1c_677de54f3e99bbbanat, 320, 0);
    let b10 = lemma_bound_step(k, b9, 0xbad5f1bdb70232cd_33865244bdcc0696nat, 776, 1);
    let b11 = lemma_bound_step(k, b10, 0x885b9613d7e87aa4_98106fb7fa5eda42nat, 1134, 0);
    let b12 = lemma_bound_step(k, b11, 0x9142e0723efb8848_89d1f447715af47enat, 2420, 1);
    let b13 = lemma_bound_step(k, b12, 0xa4d9a773d6131691_8f140bd96e8e59c2nat, 5494, 1);
    let b14 = lemma_bound_step(k, b13, 0xd44f2f3374636dfb_6364b38a2d14781enat, 14154, 1);
    let b15 = lemma_bound_step(k, b14, 0xb0133eab633a729a_54b084764fc02b47nat, 23477, 0);
    let b16 = lemma_bound_step(k, b15, 0xf234ef3c0a711e1e_7ad2cb08f3de1b3cnat, 64592, 1);
    let b17 = lemma_bound_step(k, b16, 0xe5281f3f93b34479_f8487d748ea8efa1nat, 122225, 0);
    let b18 = lemma_bound_step(k, b17, 0xcd20ce3185ed5617_0e57e37065bc46e2nat, 218819, 0);
    let b19 = lemma_bound_step(k, b18, 0xa45d8e6f82f35454_f434dfa047424e1enat, 350672, 0);
    let b20 = lemma_bound_step(k, b19, 0xd310015f58199d61_c4552ceb818b4482nat, 900602, 1);
    let b21 = lemma_bound_step(k, b20, 0xae03634357271ed5_8a6c238d8b60e9cfnat, 1485027, 0);
    let b22 = lemma_bound_step(k, b21, 0xec9135f60914bfe7_fe565145c77f0758nat, 4037726, 1);
    let b23 = lemma_bound_step(k, b22, 0xda9c0ddbccd4578d_2d669bfa2067191bnat, 7462452, 0);
    let b24 = lemma_bound_step(k, b23, 0xbaae26bb3d7b576c_cd775486518d56e6nat, 12745028, 0);
    let b25 = lemma_bound_step(k, b24, 0x882186c0c1baede8_7162be14a8d90bb1nat, 18587856, 0);
    let b26 = lemma_bound_step(k, b25, 0x90c74721a4edd5d6_54eb77feeb517e6enat, 39537232, 1);
    let b27 = lemma_bound_step(k, b26, 0xa3c1964b073b5076_dde110c02d2e4f54nat, 89439664, 1);
    let b28 = lemma_bound_step(k, b27, 0xd1802f8f0124e4ba_e20fccfcda0a69d6nat, 228848432, 1);
    lemma_bound_end(k, b28);
}

/// The bound for the factor of bit 8: each row gives the lower end of the
/// interval after one more squaring, its width, and the bits it was shifted
/// up by.
proof fn lemma_factor_bound_8()
    ensures
        sq_pow(magic(8), 28) * pow2(log2_bound(8)) <= sq_pow(two_pow_128(), 28),
        sq_pow(two_pow_128(), 28) <= sq_pow(magic(8), 28) * pow2(log2_bound(8) + 1),
{
    lemma2_to64();
    lemma2_to64_rest();
    let k = magic(8);
    let b0 = lemma_bound_start(k, 0);
    assert(b0.lo == 0xfcbe86c7900a88ae_dcffc83b479aa3a4nat);
    let b1 = lemma_bound_step(k, b0, 0xf987a7253ac41317_6f2b074cf7815e54nat, 1, 0);
    let b2 = lemma_bound_step(k, b1, 0xf3392b0822b70005_940c7a398e4b70f2nat, 3, 0);
    let b3 = lemma_bound_step(k, b2, 0xe7159475a2c29b74_43b29c7fa6e889d7nat, 6, 0);
    let b4 = lemma_bound_step(k, b3, 0xd097f3bdfd2022b8_845ad8f792aa5822nat, 12, 0);
    let b5 = lemma_bound_step(k, b4, 0xa9f746462d870fdf_8a65dc1f90e061dfnat, 20, 0);
    let b6 = lemma_bound_step(k, b5, 0xe1b0d342ada54371_21767bec575e65dcnat, 56, 1);
    let b7 = lemma_bound_step(k, b6, 0xc6f84d7e5f423f66_048c541550bf3e77nat, 99, 0);
    let b8 = lemma_bound_step(k, b7, 0x9aa508b5b7a84e1c_677de54f3e99bc5fnat, 155, 0);
    let b9 = lemma_bound_step(k, b8, 0xbad5f1bdb70232cd_33865244bdcc0826nat, 376, 1);
    let b10 = lemma_bound_step(k, b9, 0x885b9613d7e87aa4_98106fb7fa5edc8anat, 550, 0);
    let b11 = lemma_bound_step(k, b10, 0x9142e0723efb8848_89d1f447715af95cnat, 1174, 1);
    let b12 = lemma_bound_step(k, b11, 0xa4d9a773d6131691_8f140bd96e8e64cenat, 2666, 1);
    let b13 = lemma_bound_step(k, b12, 0xd44f2f3374636dfb_6364b38a2d149494nat, 6868, 1);
    let b14 = lemma_bound_step(k, b13, 0xb0133eab633a729a_54b084764fc05a7cnat, 11392, 0);
    let b15 = lemma_bound_step(k, b14, 0xf234ef3c0a711e1e_7ad2cb08f3de9d1cnat, 31344, 1);
    let b16 = lemma_bound_step(k, b15, 0xe5281f3f93b34479_f8487d748ea9e563nat, 59311, 0);
    let b17 = lemma_bound_step(k, b16, 0xcd20ce3185ed5617_0e57e37065bdfedcnat, 106185, 0);
    let b18 = lemma_bound_step(k, b17, 0xa45d8e6f82f35454_f434dfa047450f35nat, 170169, 0);
    let b19 = lemma_bound_step(k, b18, 0xd310015f58199d61_c4552ceb81925754nat, 437032, 1);
    let b20 = lemma_bound_step(k, b19, 0xae03634357271ed5_8a6c238d8b6c93b8nat, 720634, 0);
    let b21 = lemma_bound_step(k, b20, 0xec9135f60914bfe7_fe565145c79ebde8nat, 1959374, 1);
    let b22 = lemma_bound_step(k, b21, 0xda9c0ddbccd4578d_2d669bfa20a1b5afnat, 3621280, 0);
    let b23 = lemma_bound_step(k, b22, 0xbaae26bb3d7b576c_cd77548651f17107nat, 6184739, 0);
    let b24 = lemma_bound_step(k, b23, 0x882186c0c1baede8_7162be14a96b09dbnat, 9020070, 0);
    let b25 = lemma_bound_step(k, b24, 0x90c74721a4edd5d6_54eb77feec880702nat, 19186108, 1);
    let b26 = lemma_bound_step(k, b25, 0xa3c1964b073b5076_dde110c02fecc98cnat, 43402104, 1);
    let b27 = lemma_bound_step(k, b26, 0xd1802f8f0124e4ba_e20fccfce10fd5f6nat, 111052560, 1);
    let b28 = lemma_bound_step(k, b27, 0xab728dd717b534ab_b3355366d5f9e77dnat, 181762438, 0);
    lemma_bound_end(k, b28);
}

/// The bound for the factor of bit 9: each row gives the lower end of the
/// interval after one more squaring, its width, and the bits it was shifted
/// up by.
proof fn lemma_factor_bound_9()
    ensures
        sq_pow(magic(9), 28) * pow2(log2_bound(9)) <= sq_pow(two_pow_128(), 28),
        sq_pow(two_pow_128(), 28) <= sq_pow(magic(9), 28) * pow2(log2_bound(9) + 1),
{
    lemma2_to64();
    lemma2_to64_rest();
    let k = magic(9);
    let b0 = lemma_bound_start(k, 0);
    assert(b0.lo == 0xf987a7253ac41317_6f2b074cf7815e54nat);
    let b1 = lemma_bound_step(k, b0, 0xf3392b0822b70005_940c7a398e4b70f2nat, 1, 0);
    let b2 = lemma_bound_step(k, b1, 0xe7159475a2c29b74_43b29c7fa6e889d7nat, 3, 0);
    let b3 = lemma_bound_step(k, b2, 0xd097f3bdfd2022b8_845ad8f792aa5822nat, 6, 0);
    let b4 = lemma_bound_step(k, b3, 0xa9f746462d870fdf_8a65dc1f90e061dfnat, 11, 0);
    let b5 = lemma_bound_step(k, b4, 0xe1b0d342ada54371_21767bec575e65dcnat, 32, 1);
    let b6 = lemma_bound_step(k, b5, 0xc6f84d7e5f423f66_048c541550bf3e77nat, 57, 0);
    let b7 = lemma_bound_step(k, b6, 0x9aa508b5b7a84e1c_677de54f3e99bc5fnat, 90, 0);
    let b8 = lemma_bound_step(k, b7, 0xbad5f1bdb70232cd_33865244bdcc0826nat, 218, 1);
    let b9 = lemma_bound_step(k, b8, 0x885b9613d7e87aa4_98106fb7fa5edc8anat, 319, 0);
    let b10 = lemma_bound_step(k, b9, 0x9142e0723efb8848_89d1f447715af95cnat, 680, 1);
    let b11 = lemma_bound_step(k, b10, 0xa4d9a773d6131691_8f140bd96e8e64cenat, 1546, 1);
    let b12 = lemma_bound_step(k, b11, 0xd44f2f3374636dfb_6364b38a2d149494nat, 3984, 1);
    let b13 = lemma_bound_step(k, b12, 0xb0133eab633a729a_54b084764fc05a7cnat, 6609, 0);
    let b14 = lemma_bound_step(k, b13, 0xf234ef3c0a711e1e_7ad2cb08f3de9d1cnat, 18184, 1);
    let b15 = lemma_bound_step(k, b14, 0xe5281f3f93b34479_f8487d748ea9e563nat, 34409, 0);
    let b16 = lemma_bound_step(k, b15, 0xcd20ce3185ed5617_0e57e37065bdfedcnat, 61603, 0);
    let b17 = lemma_bound_step(k, b16, 0xa45d8e6f82f35454_f434dfa047450f35nat, 98724, 0);
    let b18 = lemma_bound_step(k, b17, 0xd310015f58199d61_c4552ceb81925754nat, 253546, 1);
    let b19 = lemma_bound_step(k, b18, 0xae03634357271ed5_8a6c238d8b6c93b8nat, 418079, 0);
    let b20 = lemma_bound_step(k, b19, 0xec9135f60914bfe7_fe565145c79ebde8nat, 1136740, 1);
    let b21 = lemma_bound_step(k, b20, 0xda9c0ddbccd4578d_2d669bfa20a1b5afnat, 2100903, 0);
    let b22 = lemma_bound_step(k, b21, 0xbaae26bb3d7b576c_cd77548651f17107nat, 3588107, 0);
    let b23 = lemma_bound_step(k, b22, 0x882186c0c1baede8_7162be14a96b09dbnat, 5233039, 0);
    let b24 = lemma_bound_step(k, b23, 0x90c74721a4edd5d6_54eb77feec880702nat, 11130918, 1);
    let b25 = lemma_bound_step(k, b24, 0xa3c1964b073b5076_dde110c02fecc98cnat, 25179952, 1);
    let b26 = lemma_bound_step(k, b25, 0xd1802f8f0124e4ba_e20fccfce10fd5f6nat, 64427710, 1);
    let b27 = lemma_bound_step(k, b26, 0xab728dd717b534ab_b3355366d5f9e77dnat, 105450408, 0);
    let b28 = lemma_bound_step(k, b27, 0xe5a4797ff7a7ad2d_75d508e79571fd3cnat, 282487602, 1);
    lemma_bound_end(k, b28);
}

/// The bound for the factor of bit 10: each row gives the lower end of the
/// interval after one more squaring, its width, and the bits it was shifted
/// up by.
proof fn lemma_factor_bound_10()
    ensures
        sq_pow(magic(10), 28) * pow2(log2_bound(10)) <= sq_pow(two_pow_128(), 28),
        sq_pow(two_pow_128(), 28) <= sq_pow(magic(10), 28) * pow2(log2_bound(10) + 1),
{
    lemma2_to64();
    lemma2_to64_rest();
    let k = magic(10);
    let b0 = lemma_bound_start(k, 0);
    assert(b0.lo == 0xf3392b0822b70005_940c7a398e4b70f3nat);
    let b1 = lemma_bound_step(k, b0, 0xe7159475a2c29b74_43b29c7fa6e889d9nat, 1, 0);
    let b2 = lemma_bound_step(k, b1, 0xd097f3bdfd2022b8_845ad8f792aa5826nat, 2, 0);
    let b3 = lemma_bound_step(k, b2, 0xa9f746462d870fdf_8a65dc1f90e061e5nat, 5, 0);
    let b4 = lemma_bound_step(k, b3, 0xe1b0d342ada54371_21767bec575e65ecnat, 16, 1);
    let b5 = lemma_bound_step(k, b4, 0xc6f84d7e5f423f66_048c541550bf3e93nat, 29, 0);
    let b6 = lemma_bound_step(k, b5, 0x9aa508b5b7a84e1c_677de54f3e99bc8bnat, 46, 0);
    let b7 = lemma_bound_step(k, b6, 0xbad5f1bdb70232cd_33865244bdcc0890nat, 112, 1);
    let b8 = lemma_bound_step(k, b7, 0x885b9613d7e87aa4_98106fb7fa5edd25nat, 164, 0);
    let b9 = lemma_bound_step(k, b8, 0x9142e0723efb8848_89d1f447715afaa6nat, 350, 1);
    let b10 = lemma_bound_step(k, b9, 0xa4d9a773d6131691_8f140bd96e8e67banat, 798, 1);
    let b11 = lemma_bound_step(k, b10, 0xd44f2f3374636dfb_6364b38a2d149c1anat, 2058, 1);
    let b12 = lemma_bound_step(k, b11, 0xb0133eab633a729a_54b084764fc066f6nat, 3415, 0);
    let b13 = lemma_bound_step(k, b12, 0xf234ef3c0a711e1e_7ad2cb08f3debf70nat, 9396, 1);
    let b14 = lemma_bound_step(k, b13, 0xe5281f3f93b34479_f8487d748eaa2658nat, 17780, 0);
    let b15 = lemma_bound_step(k, b14, 0xcd20ce3185ed5617_0e57e37065be7327nat, 31832, 0);
    let b16 = lemma_bound_step(k, b15, 0xa45d8e6f82f35454_f434dfa04745c993nat, 51014, 0);
    let b17 = lemma_bound_step(k, b16, 0xd310015f58199d61_c4552ceb819435f6nat, 131016, 1);
    let b18 = lemma_bound_step(k, b17, 0xae03634357271ed5_8a6c238d8b6fa8f3nat, 216036, 0);
    let b19 = lemma_bound_step(k, b18, 0xec9135f60914bfe7_fe565145c7a71fcanat, 587394, 1);
    let b20 = lemma_bound_step(k, b19, 0xda9c0ddbccd4578d_2d669bfa20b133aanat, 1085612, 0);
    let b21 = lemma_bound_step(k, b20, 0xbaae26bb3d7b576c_cd775486520be67anat, 1854104, 0);
    let b22 = lemma_bound_step(k, b21, 0x882186c0c1baede8_7162be14a991a086nat, 2704100, 0);
    let b23 = lemma_bound_step(k, b22, 0x90c74721a4edd5d6_54eb77feecda1b64nat, 5751748, 1);
    let b24 = lemma_bound_step(k, b23, 0xa3c1964b073b5076_dde110c030a676fanat, 13011394, 1);
    let b25 = lemma_bound_step(k, b24, 0xd1802f8f0124e4ba_e20fccfce2eaed4enat, 33292134, 1);
    let b26 = lemma_bound_step(k, b25, 0xab728dd717b534ab_b3355366d9037f63nat, 54490050, 0);
    let b27 = lemma_bound_step(k, b26, 0xe5a4797ff7a7ad2d_75d508e79d950eeanat, 145971588, 1);
    let b28 = lemma_bound_step(k, b27, 0xcdffab0ad6b182bd_60b5e561344fa8e4nat, 261884980, 0);
    lemma_bound_end(k, b28);
}

/// The bound for the factor of bit 11: each row gives the lower end of the
/// interval after one more squaring, its width, and the bits it was shifted
/// up by.
proof fn lemma_factor_bound_11()
    ensures
        sq_pow(magic(11), 28) * pow2(log2_bound(11)) <= sq_pow(two_pow_128(), 28),
        sq_pow(two_pow_128(), 28) <= sq_pow(magic(11), 28) * pow2(log2_bound(11) + 1),
{
    lemma2_to64();
    lemma2_to64_rest();
    let k = magic(11);
    let b0 = lemma_bound_start(k, 0);
    assert(b0.lo == 0xe7159475a2c29b74_43b29c7fa6e889d9nat);
    let b1 = lemma_bound_step(k, b0, 0xd097f3bdfd2022b8_845ad8f792aa5826nat, 1, 0);
    let b2 = lemma_bound_step(k, b1, 0xa9f746462d870fdf_8a65dc1f90e061e5nat, 3, 0);
    let b3 = lemma_bound_step(k, b2, 0xe1b0d342ada54371_21767bec575e65ecnat, 10, 1);
    let b4 = lemma_bound_step(k, b3, 0xc6f84d7e5f423f66_048c541550bf3e93nat, 19, 0);
    let b5 = lemma_bound_step(k, b4, 0x9aa508b5b7a84e1c_677de54f3e99bc8bnat, 30, 0);
    let b6 = lemma_bound_step(k, b5, 0xbad5f1bdb70232cd_33865244bdcc0890nat, 74, 1);
    let b7 = lemma_bound_step(k, b6, 0x885b9613d7e87aa4_98106fb7fa5edd25nat, 109, 0);
    let b8 = lemma_bound_step(k, b7, 0x9142e0723efb8848_89d1f447715afaa6nat, 234, 1);
    let b9 = lemma_bound_step(k, b8, 0xa4d9a773d6131691_8f140bd96e8e67banat, 534, 1);
    let b10 = lemma_bound_step(k, b9, 0xd44f2f3374636dfb_6364b38a2d149c1anat, 1378, 1);
    let b11 = lemma_bound_step(k, b10, 0xb0133eab633a729a_54b084764fc066f6nat, 2287, 0);
    let b12 = lemma_bound_step(k, b11, 0xf234ef3c0a711e1e_7ad2cb08f3debf70nat, 6292, 1);
    let b13 = lemma_bound_step(k, b12, 0xe5281f3f93b34479_f8487d748eaa2658nat, 11907, 0);
    let b14 = lemma_bound_step(k, b13, 0xcd20ce3185ed5617_0e57e37065be7327nat, 21318, 0);
    let b15 = lemma_bound_step(k, b14, 0xa45d8e6f82f35454_f434dfa04745c993nat, 34164, 0);
    let b16 = lemma_bound_step(k, b15, 0xd310015f58199d61_c4552ceb819435f6nat, 87742, 1);
    let b17 = lemma_bound_step(k, b16, 0xae03634357271ed5_8a6c238d8b6fa8f3nat, 144681, 0);
    let b18 = lemma_bound_step(k, b17, 0xec9135f60914bfe7_fe565145c7a71fcanat, 393384, 1);
    let b19 = lemma_bound_step(k, b18, 0xda9c0ddbccd4578d_2d669bfa20b133aanat, 727046, 0);
    let b20 = lemma_bound_step(k, b19, 0xbaae26bb3d7b576c_cd775486520be67anat, 1241713, 0);
    let b21 = lemma_bound_step(k, b20, 0x882186c0c1baede8_7162be14a991a086nat, 1810964, 0);
    let b22 = lemma_bound_step(k, b21, 0x90c74721a4edd5d6_54eb77feecda1b64nat, 3852006, 1);
    let b23 = lemma_bound_step(k, b22, 0xa3c1964b073b5076_dde110c030a676fanat, 8713868, 1);
    let b24 = lemma_bound_step(k, b23, 0xd1802f8f0124e4ba_e20fccfce2eaed4enat, 22296094, 1);
    let b25 = lemma_bound_step(k, b24, 0xab728dd717b534ab_b3355366d9037f63nat, 36492562, 0);
    let b26 = lemma_bound_step(k, b25, 0xe5a4797ff7a7ad2d_75d508e79d950eeanat, 97758714, 1);
    let b27 = lemma_bound_step(k, b26, 0xcdffab0ad6b182bd_60b5e561344fa8e4nat, 175387137, 0);
    let b28 = lemma_bound_step(k, b27, 0xa5c377458db77c4c_60be7365de684c00nat, 282261898, 0);
    lemma_bound_end(k, b28);
}

/// The bound for the factor of bit 12: each row gives the lower end of the
/// interval after one more squaring, its width, and the bits it was shifted
/// up by.
proof fn lemma_factor_bound_12()
    ensures
        sq_pow(magic(12), 28) * pow2(log2_bound(12)) <= sq_pow(two_pow_128(), 28),
        sq_pow(two_pow_128(), 28) <= sq_pow(magic(12), 28) * pow2(log2_bound(12) + 1),
{
    lemma2_to64();
    lemma2_to64_rest();
    let k = magic(12);
    let b0 = lemma_bound_start(k, 0);
    assert(b0.lo == 0xd097f3bdfd2022b8_845ad8f792aa5825nat);
    let b1 = lemma_bound_step(k, b0, 0xa9f746462d870fdf_8a65dc1f90e061e4nat, 1, 0);
    let b2 = lemma_bound_step(k, b1, 0xe1b0d342ada54371_21767bec575e65eanat, 4, 1);
    let b3 = lemma_bound_step(k, b2, 0xc6f84d7e5f423f66_048c541550bf3e8fnat, 8, 0);
    let b4 = lemma_bound_step(k, b3, 0x9aa508b5b7a84e1c_677de54f3e99bc84nat, 14, 0);
    let b5 = lemma_bound_step(k, b4, 0xbad5f1bdb70232cd_33865244bdcc087enat, 36, 1);
    let b6 = lemma_bound_step(k, b5, 0x885b9613d7e87aa4_98106fb7fa5edd0bnat, 53, 0);
    let b7 = lemma_bound_step(k, b6, 0x9142e0723efb8848_89d1f447715afa6enat, 114, 1);
    let b8 = lemma_bound_step(k, b7, 0xa4d9a773d6131691_8f140bd96e8e673cnat, 260, 1);
    let b9 = lemma_bound_step(k, b8, 0xd44f2f3374636dfb_6364b38a2d149ad6nat, 670, 1);
    let b10 = lemma_bound_step(k, b9, 0xb0133eab633a729a_54b084764fc064ddnat, 1112, 0);
    let b11 = lemma_bound_step(k, b10, 0xf234ef3c0a711e1e_7ad2cb08f3deb9aanat, 3060, 1);
    let b12 = lemma_bound_step(k, b11, 0xe5281f3f93b34479_f8487d748eaa1b6bnat, 5791, 0);
    let b13 = lemma_bound_step(k, b12, 0xcd20ce3185ed5617_0e57e37065be5f97nat, 10369, 0);
    let b14 = lemma_bound_step(k, b13, 0xa45d8e6f82f35454_f434dfa04745aa39nat, 16618, 0);
    let b15 = lemma_bound_step(k, b14, 0xd310015f58199d61_c4552ceb8193e570nat, 42682, 1);
    let b16 = lemma_bound_step(k, b15, 0xae03634357271ed5_8a6c238d8b6f242cnat, 70380, 0);
    let b17 = lemma_bound_step(k, b16, 0xec9135f60914bfe7_fe565145c7a5b6c6nat, 191362, 1);
    let b18 = lemma_bound_step(k, b17, 0xda9c0ddbccd4578d_2d669bfa20ae9871nat, 353673, 0);
    let b19 = lemma_bound_step(k, b18, 0xbaae26bb3d7b576c_cd775486520772efnat, 604035, 0);
    let b20 = lemma_bound_step(k, b19, 0x882186c0c1baede8_7162be14a98b2291nat, 880950, 0);
    let b21 = lemma_bound_step(k, b20, 0x90c74721a4edd5d6_54eb77feeccc4c54nat, 1873824, 1);
    let b22 = lemma_bound_step(k, b21, 0xa3c1964b073b5076_dde110c030873a18nat, 4238896, 1);
    let b23 = lemma_bound_step(k, b22, 0xd1802f8f0124e4ba_e20fccfce29affc2nat, 10846024, 1);
    let b24 = lemma_bound_step(k, b23, 0xab728dd717b534ab_b3355366d880ad79nat, 17751953, 0);
    let b25 = lemma_bound_step(k, b24, 0xe5a4797ff7a7ad2d_75d508e79c369be4nat, 47555120, 1);
    let b26 = lemma_bound_step(k, b25, 0xcdffab0ad6b182bd_60b5e56131daeccbnat, 85317779, 0);
    let b27 = lemma_bound_step(k, b26, 0xa5c377458db77c4c_60be7365da746ee9nat, 137307438, 0);
    let b28 = lemma_bound_step(k, b27, 0xd6ab19fd286c50d0_33f910e2c5abf484nat, 355633858, 1);
    lemma_bound_end(k, b28);
}

/// The bound for the factor of bit 13: each row gives the lower end of the
/// interval after one more squaring, its width, and the bits it was shifted
/// up by.
proof fn lemma_factor_bound_13()
    ensures
        sq_pow(magic(13), 28) * pow2(log2_bound(13)) <= sq_pow(two_pow_128(), 28),
        sq_pow(two_pow_128(), 28) <= sq_pow(magic(13), 28) * pow2(log2_bound(13) + 1),
{
    lemma2_to64();
    lemma2_to64_rest();
    let k = magic(13);
    let b0 = lemma_bound_start(k, 0);
    assert(b0.lo == 0xa9f746462d870fdf_8a65dc1f90e061e5nat);
    let b1 = lemma_bound_step(k, b0, 0xe1b0d342ada54371_21767bec575e65ecnat, 2, 1);
    let b2 = lemma_bound_step(k, b1, 0xc6f84d7e5f423f66_048c541550bf3e93nat, 4, 0);
    let b3 = lemma_bound_step(k, b2, 0x9aa508b5b7a84e1c_677de54f3e99bc8bnat, 7, 0);
    let b4 = lemma_bound_step(k, b3, 0xbad5f1bdb70232cd_33865244bdcc0890nat, 18, 1);
    let b5 = lemma_bound_step(k, b4, 0x885b9613d7e87aa4_98106fb7fa5edd25nat, 27, 0);
    let b6 = lemma_bound_step(k, b5, 0x9142e0723efb8848_89d1f447715afaa6nat, 58, 1);
    let b7 = lemma_bound_step(k, b6, 0xa4d9a773d6131691_8f140bd96e8e67banat, 134, 1);
    let b8 = lemma_bound_step(k, b7, 0xd44f2f3374636dfb_6364b38a2d149c1anat, 346, 1);
    let b9 = lemma_bound_step(k, b8, 0xb0133eab633a729a_54b084764fc066f6nat, 575, 0);
    let b10 = lemma_bound_step(k, b9, 0xf234ef3c0a711e1e_7ad2cb08f3debf70nat, 1582, 1);
    let b11 = lemma_bound_step(k, b10, 0xe5281f3f93b34479_f8487d748eaa2658nat, 2994, 0);
    let b12 = lemma_bound_step(k, b11, 0xcd20ce3185ed5617_0e57e37065be7327nat, 5361, 0);
    let b13 = lemma_bound_step(k, b12, 0xa45d8e6f82f35454_f434dfa04745c993nat, 8592, 0);
    let b14 = lemma_bound_step(k, b13, 0xd310015f58199d61_c4552ceb819435f6nat, 22068, 1);
    let b15 = lemma_bound_step(k, b14, 0xae03634357271ed5_8a6c238d8b6fa8f3nat, 36389, 0);
    let b16 = lemma_bound_step(k, b15, 0xec9135f60914bfe7_fe565145c7a71fcanat, 98942, 1);
    let b17 = lemma_bound_step(k, b16, 0xda9c0ddbccd4578d_2d669bfa20b133aanat, 182864, 0);
    let b18 = lemma_bound_step(k, b17, 0xbaae26bb3d7b576c_cd775486520be67anat, 312312, 0);
    let b19 = lemma_bound_step(k, b18, 0x882186c0c1baede8_7162be14a991a086nat, 455489, 0);
    let b20 = lemma_bound_step(k, b19, 0x90c74721a4edd5d6_54eb77feecda1b64nat, 968848, 1);
    let b21 = lemma_bound_step(k, b20, 0xa3c1964b073b5076_dde110c030a676fanat, 2191694, 1);
    let b22 = lemma_bound_step(k, b21, 0xd1802f8f0124e4ba_e20fccfce2eaed4enat, 5607868, 1);
    let b23 = lemma_bound_step(k, b22, 0xab728dd717b534ab_b3355366d9037f63nat, 9178535, 0);
    let b24 = lemma_bound_step(k, b23, 0xe5a4797ff7a7ad2d_75d508e79d950eeanat, 24588074, 1);
    let b25 = lemma_bound_step(k, b24, 0xcdffab0ad6b182bd_60b5e561344fa8e4nat, 44113018, 0);
    let b26 = lemma_bound_step(k, b25, 0xa5c377458db77c4c_60be7365de684c00nat, 70993943, 0);
    let b27 = lemma_bound_step(k, b26, 0xd6ab19fd286c50d0_33f910e2cfe8bce6nat, 183878240, 1);
    let b28 = lemma_bound_step(k, b27, 0xb40281cefa6c840e_214c43ba7b9f02e4nat, 308381573, 0);
    lemma_bound_end(k, b28);
}

/// The bound for the factor of bit 14: each row gives the lower end of the
/// interval after one more squaring, its width, and the bits it was shifted
/// up by.
proof fn lemma_factor_bound_14()
    ensures
        sq_pow(magic(14), 28) * pow2(log2_bound(14)) <= sq_pow(two_pow_128(), 28),
        sq_pow(two_pow_128(), 28) <= sq_pow(magic(14), 28) * pow2(log2_bound(14) + 1),
{
    lemma2_to64();
    lemma2_to64_rest();
    let k = magic(14);
    let b0 = lemma_bound_start(k, 1);
    assert(b0.lo == 0xe1b0d342ada54371_21767bec575e65eenat);
    let b1 = lemma_bound_step(k, b0, 0xc6f84d7e5f423f66_048c541550bf3e96nat, 1, 0);
    let b2 = lemma_bound_step(k, b1, 0x9aa508b5b7a84e1c_677de54f3e99bc8fnat, 3, 0);
    let b3 = lemma_bound_step(k, b2, 0xbad5f1bdb70232cd_33865244bdcc089anat, 8, 1);
    let b4 = lemma_bound_step(k, b3, 0x885b9613d7e87aa4_98106fb7fa5edd34nat, 12, 0);
    let b5 = lemma_bound_step(k, b4, 0x9142e0723efb8848_89d1f447715afac6nat, 26, 1);
    let b6 = lemma_bound_step(k, b5, 0xa4d9a773d6131691_8f140bd96e8e6804nat, 60, 1);
    let b7 = lemma_bound_step(k, b6, 0xd44f2f3374636dfb_6364b38a2d149cd8nat, 156, 1);
    let b8 = lemma_bound_step(k, b7, 0xb0133eab633a729a_54b084764fc06831nat, 260, 0);
    let b9 = lemma_bound_step(k, b8, 0xf234ef3c0a711e1e_7ad2cb08f3dec2d2nat, 716, 1);
    let b10 = lemma_bound_step(k, b9, 0xe5281f3f93b34479_f8487d748eaa2cbenat, 1356, 0);
    let b11 = lemma_bound_step(k, b10, 0xcd20ce3185ed5617_0e57e37065be7e9bnat, 2429, 0);
    let b12 = lemma_bound_step(k, b11, 0xa45d8e6f82f35454_f434dfa04745dbednat, 3894, 0);
    let b13 = lemma_bound_step(k, b12, 0xd310015f58199d61_c4552ceb81946516nat, 10004, 1);
    let b14 = lemma_bound_step(k, b13, 0xae03634357271ed5_8a6c238d8b6ff6a7nat, 16497, 0);
    let b15 = lemma_bound_step(k, b14, 0xec9135f60914bfe7_fe565145c7a7f310nat, 44856, 1);
    let b16 = lemma_bound_step(k, b15, 0xda9c0ddbccd4578d_2d669bfa20b2ba23nat, 82903, 0);
    let b17 = lemma_bound_step(k, b16, 0xbaae26bb3d7b576c_cd775486520e815cnat, 141590, 0);
    let b18 = lemma_bound_step(k, b17, 0x882186c0c1baede8_7162be14a9956d22nat, 206501, 0);
    let b19 = lemma_bound_step(k, b18, 0x90c74721a4edd5d6_54eb77feece2302cnat, 439240, 1);
    let b20 = lemma_bound_step(k, b19, 0xa3c1964b073b5076_dde110c030b8bee6nat, 993634, 1);
    let b21 = lemma_bound_step(k, b20, 0xd1802f8f0124e4ba_e20fccfce319b3c6nat, 2542404, 1);
    let b22 = lemma_bound_step(k, b21, 0xab728dd717b534ab_b3355366d9500e4bnat, 4161215, 0);
    let b23 = lemma_bound_step(k, b22, 0xe5a4797ff7a7ad2d_75d508e79e6225c6nat, 11147342, 1);
    let b24 = lemma_bound_step(k, b23, 0xcdffab0ad6b182bd_60b5e56135bf9b51nat, 19999245, 0);
    let b25 = lemma_bound_step(k, b24, 0xa5c377458db77c4c_60be7365e0b87533nat, 32186084, 0);
    let b26 = lemma_bound_step(k, b25, 0xd6ab19fd286c50d0_33f910e2d5e677acnat, 83363738, 1);
    let b27 = lemma_bound_step(k, b26, 0xb40281cefa6c840e_214c43ba85ab3956nat, 139809043, 0);
    let b28 = lemma_bound_step(k, b27, 0xfd270d22b26d863e_8f7d514e2deaf3e6nat, 393234328, 1);
    lemma_bound_end(k, b28);
}

/// The bound for the factor of bit 15: each row gives the lower end of the
/// interval after one more squaring, its width, and the bits it was shifted
/// up by.
proof fn lemma_factor_bound_15()
    ensures
        sq_pow(magic(15), 28) * pow2(log2_bound(15)) <= sq_pow(two_pow_128(), 28),
        sq_pow(two_pow_128(), 28) <= sq_pow(magic(15), 28) * pow2(log2_bound(15) + 1),
{
    lemma2_to64();
    lemma2_to64_rest();
    let k = magic(15);
    let b0 = lemma_bound_start(k, 2);
    assert(b0.lo == 0xc6f84d7e5f423f66_048c541550bf3e98nat);
    let b1 = lemma_bound_step(k, b0, 0x9aa508b5b7a84e1c_677de54f3e99bc92nat, 1, 0);
    let b2 = lemma_bound_step(k, b1, 0xbad5f1bdb70232cd_33865244bdcc08a0nat, 4, 1);
    let b3 = lemma_bound_step(k, b2, 0x885b9613d7e87aa4_98106fb7fa5edd3cnat, 7, 0);
    let b4 = lemma_bound_step(k, b3, 0x9142e0723efb8848_89d1f447715afad6nat, 18, 1);
    let b5 = lemma_bound_step(k, b4, 0xa4d9a773d6131691_8f140bd96e8e6828nat, 42, 1);
    let b6 = lemma_bound_step(k, b5, 0xd44f2f3374636dfb_6364b38a2d149d36nat, 110, 1);
    let b7 = lemma_bound_step(k, b6, 0xb0133eab633a729a_54b084764fc068cdnat, 184, 0);
    let b8 = lemma_bound_step(k, b7, 0xf234ef3c0a711e1e_7ad2cb08f3dec47enat, 510, 1);
    let b9 = lemma_bound_step(k, b8, 0xe5281f3f93b34479_f8487d748eaa2fe8nat, 966, 0);
    let b10 = lemma_bound_step(k, b9, 0xcd20ce3185ed5617_0e57e37065be8445nat, 1731, 0);
    let b11 = lemma_bound_step(k, b10, 0xa45d8e6f82f35454_f434dfa04745e501nat, 2775, 0);
    let b12 = lemma_bound_step(k, b11, 0xd310015f58199d61_c4552ceb81947c68nat, 7128, 1);
    let b13 = lemma_bound_step(k, b12, 0xae03634357271ed5_8a6c238d8b701d1bnat, 11755, 0);
    let b14 = lemma_bound_step(k, b13, 0xec9135f60914bfe7_fe565145c7a85b9enat, 31962, 1);
    let b15 = lemma_bound_step(k, b14, 0xda9c0ddbccd4578d_2d669bfa20b37b5fnat, 59073, 0);
    let b16 = lemma_bound_step(k, b15, 0xbaae26bb3d7b576c_cd775486520fcb62nat, 100891, 0);
    let b17 = lemma_bound_step(k, b16, 0x882186c0c1baede8_7162be14a9974e73nat, 147145, 0);
    let b18 = lemma_bound_step(k, b17, 0x90c74721a4edd5d6_54eb77feece62ff6nat, 312986, 1);
    let b19 = lemma_bound_step(k, b18, 0xa3c1964b073b5076_dde110c030c1cae0nat, 708028, 1);
    let b20 = lemma_bound_step(k, b19, 0xd1802f8f0124e4ba_e20fccfce330d9a6nat, 1811626, 1);
    let b21 = lemma_bound_step(k, b20, 0xab728dd717b534ab_b3355366d975f151nat, 2965134, 0);
    let b22 = lemma_bound_step(k, b21, 0xe5a4797ff7a7ad2d_75d508e79ec7a42anat, 7943200, 1);
    let b23 = lemma_bound_step(k, b22, 0xcdffab0ad6b182bd_60b5e5613675b1danat, 14250752, 0);
    let b24 = lemma_bound_step(k, b23, 0xa5c377458db77c4c_60be7365e1dd80ffnat, 22934661, 0);
    let b25 = lemma_bound_step(k, b24, 0xd6ab19fd286c50d0_33f910e2d8dd7918nat, 59402042, 1);
    let b26 = lemma_bound_step(k, b25, 0xb40281cefa6c840e_214c43ba8aa4264dnat, 99622964, 0);
    let b27 = lemma_bound_step(k, b26, 0xfd270d22b26d863e_8f7d514e3be7403anat, 280204832, 1);
    let b28 = lemma_bound_step(k, b27, 0xfa5635eb95eb6389_8fc3eb9ed6fee38enat, 554176299, 0);
    lemma_bound_end(k, b28);
}

/// The bound for the factor of bit 16: each row gives the lower end of the
/// interval after one more squaring, its width, and the bits it was shifted
/// up by.
proof fn lemma_factor_bound_16()
    ensures
        sq_pow(magic(16), 28) * pow2(log2_bound(16)) <= sq_pow(two_pow_128(), 28),
        sq_pow(two_pow_128(), 28) <= sq_pow(magic(16), 28) * pow2(log2_bound(16) + 1),
{
    lemma2_to64();
    lemma2_to64_rest();
    let k = magic(16);
    let b0 = lemma_bound_start(k, 4);
    assert(b0.lo == 0x9aa508b5b7a84e1c_677de54f3e99bc90nat);
    let b1 = lemma_bound_step(k, b0, 0xbad5f1bdb70232cd_33865244bdcc089cnat, 2, 1);
    let b2 = lemma_bound_step(k, b1, 0x885b9613d7e87aa4_98106fb7fa5edd37nat, 3, 0);
    let b3 = lemma_bound_step(k, b2, 0x9142e0723efb8848_89d1f447715afaccnat, 8, 1);
    let b4 = lemma_bound_step(k, b3, 0xa4d9a773d6131691_8f140bd96e8e6812nat, 20, 1);
    let b5 = lemma_bound_step(k, b4, 0xd44f2f3374636dfb_6364b38a2d149cfcnat, 54, 1);
    let b6 = lemma_bound_step(k, b5, 0xb0133eab633a729a_54b084764fc0686dnat, 91, 0);
    let b7 = lemma_bound_step(k, b6, 0xf234ef3c0a711e1e_7ad2cb08f3dec376nat, 254, 1);
    let b8 = lemma_bound_step(k, b7, 0xe5281f3f93b34479_f8487d748eaa2df5nat, 481, 0);
    let b9 = lemma_bound_step(k, b8, 0xcd20ce3185ed5617_0e57e37065be80c8nat, 862, 0);
    let b10 = lemma_bound_step(k, b9, 0xa45d8e6f82f35454_f434dfa04745df6anat, 1382, 0);
    let b11 = lemma_bound_step(k, b10, 0xd310015f58199d61_c4552ceb81946e0cnat, 3552, 1);
    let b12 = lemma_bound_step(k, b11, 0xae03634357271ed5_8a6c238d8b70056enat, 5858, 0);
    let b13 = lemma_bound_step(k, b12, 0xec9135f60914bfe7_fe565145c7a81b3enat, 15930, 1);
    let b14 = lemma_bound_step(k, b13, 0xda9c0ddbccd4578d_2d669bfa20b30465nat, 29443, 0);
    let b15 = lemma_bound_step(k, b14, 0xbaae26bb3d7b576c_cd775486520f002fnat, 50286, 0);
    let b16 = lemma_bound_step(k, b15, 0x882186c0c1baede8_7162be14a9962619nat, 73340, 0);
    let b17 = lemma_bound_step(k, b16, 0x90c74721a4edd5d6_54eb77feece3b99anat, 156000, 1);
    let b18 = lemma_bound_step(k, b17, 0xa3c1964b073b5076_dde110c030bc38e6nat, 352900, 1);
    let b19 = lemma_bound_step(k, b18, 0xd1802f8f0124e4ba_e20fccfce3229904nat, 902962, 1);
    let b20 = lemma_bound_step(k, b19, 0xab728dd717b534ab_b3355366d95e9d83nat, 1477901, 0);
    let b21 = lemma_bound_step(k, b20, 0xe5a4797ff7a7ad2d_75d508e79e89267enat, 3959102, 1);
    let b22 = lemma_bound_step(k, b21, 0xcdffab0ad6b182bd_60b5e561360594b8nat, 7102954, 0);
    let b23 = lemma_bound_step(k, b22, 0xa5c377458db77c4c_60be7365e1291267nat, 11431245, 0);
    let b24 = lemma_bound_step(k, b23, 0xd6ab19fd286c50d0_33f910e2d70a24e6nat, 29607558, 1);
    let b25 = lemma_bound_step(k, b24, 0xb40281cefa6c840e_214c43ba879464d8nat, 49654736, 0);
    let b26 = lemma_bound_step(k, b25, 0xfd270d22b26d863e_8f7d514e334ad16cnat, 139661546, 1);
    let b27 = lemma_bound_step(k, b26, 0xfa5635eb95eb6389_8fc3eb9ec5f70fffnat, 276216217, 0);
    let b28 = lemma_bound_step(k, b27, 0xf4cc7e586673dd6f_9a62ce37813191canat, 540211508, 0);
    lemma_bound_end(k, b28);
}

/// The bound for the factor of bit 17: each row gives the lower end of the
/// interval after one more squaring, its width, and the bits it was shifted
/// up by.
proof fn lemma_factor_bound_17()
    ensures
        sq_pow(magic(17), 28) * pow2(log2_bound(17)) <= sq_pow(two_pow_128(), 28),
        sq_pow(two_pow_128(), 28) <= sq_pow(magic(17), 28) * pow2(log2_bound(17) + 1),
{
    lemma2_to64();
    lemma2_to64_rest();
    let k = magic(17);
    let b0 = lemma_bound_start(k, 9);
    assert(b0.lo == 0xbad5f1bdb70232cd_33865244bdcc0800nat);
    let b1 = lemma_bound_step(k, b0, 0x885b9613d7e87aa4_98106fb7fa5edc53nat, 1, 0);
    let b2 = lemma_bound_step(k, b1, 0x9142e0723efb8848_89d1f447715af8e6nat, 4, 1);
    let b3 = lemma_bound_step(k, b2, 0xa4d9a773d6131691_8f140bd96e8e63c2nat, 12, 1);
    let b4 = lemma_bound_step(k, b3, 0xd44f2f3374636dfb_6364b38a2d1491e0nat, 34, 1);
    let b5 = lemma_bound_step(k, b4, 0xb0133eab633a729a_54b084764fc05600nat, 57, 0);
    let b6 = lemma_bound_step(k, b5, 0xf234ef3c0a711e1e_7ad2cb08f3de90c6nat, 158, 1);
    let b7 = lemma_bound_step(k, b6, 0xe5281f3f93b34479_f8487d748ea9ce0bnat, 300, 0);
    let b8 = lemma_bound_step(k, b7, 0xcd20ce3185ed5617_0e57e37065bdd511nat, 538, 0);
    let b9 = lemma_bound_step(k, b8, 0xa45d8e6f82f35454_f434dfa04744cc3bnat, 863, 0);
    let b10 = lemma_bound_step(k, b9, 0xd310015f58199d61_c4552ceb8191ab52nat, 2218, 1);
    let b11 = lemma_bound_step(k, b10, 0xae03634357271ed5_8a6c238d8b6b7817nat, 3658, 0);
    let b12 = lemma_bound_step(k, b11, 0xec9135f60914bfe7_fe565145c79bbabcnat, 9948, 1);
    let b13 = lemma_bound_step(k, b12, 0xda9c0ddbccd4578d_2d669bfa209c246bnat, 18387, 0);
    let b14 = lemma_bound_step(k, b13, 0xbaae26bb3d7b576c_cd77548651e7eed6nat, 31403, 0);
    let b15 = lemma_bound_step(k, b14, 0x882186c0c1baede8_7162be14a95d2bbcnat, 45800, 0);
    let b16 = lemma_bound_step(k, b15, 0x90c74721a4edd5d6_54eb77feec6a87bcnat, 97420, 1);
    let b17 = lemma_bound_step(k, b16, 0xa3c1964b073b5076_dde110c02faa0f56nat, 220382, 1);
    let b18 = lemma_bound_step(k, b17, 0xd1802f8f0124e4ba_e20fccfce06519e0nat, 563890, 1);
    let b19 = lemma_bound_step(k, b18, 0xab728dd717b534ab_b3355366d4e27566nat, 922934, 0);
    let b20 = lemma_bound_step(k, b19, 0xe5a4797ff7a7ad2d_75d508e792856438nat, 2472420, 1);
    let b21 = lemma_bound_step(k, b20, 0xcdffab0ad6b182bd_60b5e56120776aefnat, 4435725, 0);
    let b22 = lemma_bound_step(k, b21, 0xa5c377458db77c4c_60be7365be785576nat, 7138701, 0);
    let b23 = lemma_bound_step(k, b22, 0xd6ab19fd286c50d0_33f910e27d308aa2nat, 18489634, 1);
    let b24 = lemma_bound_step(k, b23, 0xb40281cefa6c840e_214c43b9f0e47bfcnat, 31008903, 0);
    let b25 = lemma_bound_step(k, b24, 0xfd270d22b26d863e_8f7d514c8b762b60nat, 87217288, 1);
    let b26 = lemma_bound_step(k, b25, 0xfa5635eb95eb6389_8fc3eb9b7fbb7182nat, 172494363, 0);
    let b27 = lemma_bound_step(k, b26, 0xf4cc7e586673dd6f_9a62ce3119d08f14nat, 337356876, 0);
    let b28 = lemma_bound_step(k, b27, 0xea1674321e8b4a26_4ecd081f3f321e97nat, 645191871, 0);
    lemma_bound_end(k, b28);
}

/// The bound for the factor of bit 18: each row gives the lower end of the
/// interval after one more squaring, its width, and the bits it was shifted
/// up by.
proof fn lemma_factor_bound_18()
    ensures
        sq_pow(magic(18), 28) * pow2(log2_bound(18)) <= sq_pow(two_pow_128(), 28),
        sq_pow(two_pow_128(), 28) <= sq_pow(magic(18), 28) * pow2(log2_bound(18) + 1),
{
    lemma2_to64();
    lemma2_to64_rest();
    let k = magic(18);
    let b0 = lemma_bound_start(k, 18);
    assert(b0.lo == 0x885b9613d7e87aa4_98106fb7fa600000nat);
    let b1 = lemma_bound_step(k, b0, 0x9142e0723efb8848_89d1f447715d6658nat, 2, 1);
    let b2 = lemma_bound_step(k, b1, 0xa4d9a773d6131691_8f140bd96e93e642nat, 6, 1);
    let b3 = lemma_bound_step(k, b2, 0xd44f2f3374636dfb_6364b38a2d22c306nat, 18, 1);
    let b4 = lemma_bound_step(k, b3, 0xb0133eab633a729a_54b084764fd7e02enat, 31, 0);
    let b5 = lemma_bound_step(k, b4, 0xf234ef3c0a711e1e_7ad2cb08f41f53d8nat, 88, 1);
    let b6 = lemma_bound_step(k, b5, 0xe5281f3f93b34479_f8487d748f2459a1nat, 168, 0);
    let b7 = lemma_bound_step(k, b6, 0xcd20ce3185ed5617_0e57e37066993935nat, 302, 0);
    let b8 = lemma_bound_step(k, b7, 0xa45d8e6f82f35454_f434dfa048a462d7nat, 485, 0);
    let b9 = lemma_bound_step(k, b8, 0xd310015f58199d61_c4552ceb85189f36nat, 1248, 1);
    let b10 = lemma_bound_step(k, b9, 0xae03634357271ed5_8a6c238d913c5f09nat, 2059, 0);
    let b11 = lemma_bound_step(k, b10, 0xec9135f60914bfe7_fe565145d76bfd6enat, 5600, 1);
    let b12 = lemma_bound_step(k, b11, 0xda9c0ddbccd4578d_2d669bfa3dd60ffanat, 10350, 0);
    let b13 = lemma_bound_step(k, b12, 0xbaae26bb3d7b576c_cd77548683d235c6nat, 17678, 0);
    let b14 = lemma_bound_step(k, b13, 0x882186c0c1baede8_7162be14f2298464nat, 25783, 0);
    let b15 = lemma_bound_step(k, b14, 0x90c74721a4edd5d6_54eb77ff8742e6c6nat, 54844, 1);
    let b16 = lemma_bound_step(k, b15, 0xa3c1964b073b5076_dde110c18df30a0enat, 124068, 1);
    let b17 = lemma_bound_step(k, b16, 0xd1802f8f0124e4ba_e20fcd0060aa8316nat, 317454, 1);
    let b18 = lemma_bound_step(k, b17, 0xab728dd717b534ab_b335536c8fd55d9cnat, 519586, 0);
    let b19 = lemma_bound_step(k, b18, 0xe5a4797ff7a7ad2d_75d508f6ec481c78nat, 1391904, 1);
    let b20 = lemma_bound_step(k, b19, 0xcdffab0ad6b182bd_60b5e57caac75c40nat, 2497191, 0);
    let b21 = lemma_bound_step(k, b20, 0xa5c377458db77c4c_60be739210feb650nat, 4018892, 0);
    let b22 = lemma_bound_step(k, b21, 0xd6ab19fd286c50d0_33f9115549510762nat, 10409154, 1);
    let b23 = lemma_bound_step(k, b22, 0xb40281cefa6c840e_214c447a779eceddnat, 17457158, 0);
    let b24 = lemma_bound_step(k, b23, 0xfd270d22b26d863e_8f7d536a0dece87enat, 49100930, 1);
    let b25 = lemma_bound_step(k, b24, 0xfa5635eb95eb6389_8fc3efca78cf7587nat, 97109574, 0);
    let b26 = lemma_bound_step(k, b25, 0xf4cc7e586673dd6f_9a62d65fa99e26a7nat, 189922627, 0);
    let b27 = lemma_bound_step(k, b26, 0xea1674321e8b4a26_4ecd17c5139ab34enat, 363225249, 0);
    let b28 = lemma_bound_step(k, b27, 0xd60d0e63cd3158fc_f3e51a3f98e9e0b5nat, 664270055, 0);
    lemma_bound_end(k, b28);
}

/// The bound for the factor of bit 19: each row gives the lower end of the
/// interval after one more squaring, its width, and the bits it was shifted
/// up by.
proof fn lemma_factor_bound_19()
    ensures
        sq_pow(magic(19), 28) * pow2(log2_bound(19)) <= sq_pow(two_pow_128(), 28),
        sq_pow(two_pow_128(), 28) <= sq_pow(magic(19), 28) * pow2(log2_bound(19) + 1),
{
    lemma2_to64();
    lemma2_to64_rest();
    let k = magic(19);
    let b0 = lemma_bound_start(k, 37);
    assert(b0.lo == 0x9142e0723efb8848_89d1f44000000000nat);
    let b1 = lemma_bound_step(k, b0, 0xa4d9a773d6131691_8f140bc889f54800nat, 2, 1);
    let b2 = lemma_bound_step(k, b1, 0xd44f2f3374636dfb_6364b35ea9d8f08anat, 8, 1);
    let b3 = lemma_bound_step(k, b2, 0xb0133eab633a729a_54b0842e237a884enat, 14, 0);
    let b4 = lemma_bound_step(k, b3, 0xf234ef3c0a711e1e_7ad2ca42646aca3anat, 40, 1);
    let b5 = lemma_bound_step(k, b4, 0xe5281f3f93b34479_f8487bfcd55586a4nat, 77, 0);
    let b6 = lemma_bound_step(k, b5, 0xcd20ce3185ed5617_0e57e0cfbe67697cnat, 138, 0);
    let b7 = lemma_bound_step(k, b6, 0xa45d8e6f82f35454_f434db6a4edefcc5nat, 222, 0);
    let b8 = lemma_bound_step(k, b7, 0xd310015f58199d61_c455221b0d40be68nat, 572, 1);
    let b9 = lemma_bound_step(k, b8, 0xae03634357271ed5_8a6c11b89181d85fnat, 944, 0);
    let b10 = lemma_bound_step(k, b9, 0xec9135f60914bfe7_fe5620c9ce84a3b8nat, 2568, 1);
    let b11 = lemma_bound_step(k, b10, 0xda9c0ddbccd4578d_2d66425e8c78defdnat, 4747, 0);
    let b12 = lemma_bound_step(k, b11, 0xbaae26bb3d7b576c_cd76bb7c1a4ba4fanat, 8108, 0);
    let b13 = lemma_bound_step(k, b12, 0x882186c0c1baede8_7161dee1985b9102nat, 11826, 0);
    let b14 = lemma_bound_step(k, b13, 0x90c74721a4edd5d6_54e99d3d7bff31acnat, 25158, 1);
    let b15 = lemma_bound_step(k, b14, 0xa3c1964b073b5076_dddcdec6b196d408nat, 56914, 1);
    let b16 = lemma_bound_step(k, b15, 0xd1802f8f0124e4ba_e2051104e4e0239enat, 145628, 1);
    let b17 = lemma_bound_step(k, b16, 0xab728dd717b534ab_b323c1bbf734b062nat, 238354, 0);
    let b18 = lemma_bound_step(k, b17, 0xe5a4797ff7a7ad2d_75a5f840a1e5efd0nat, 638520, 1);
    let b19 = lemma_bound_step(k, b18, 0xcdffab0ad6b182bd_6061751c734a737cnat, 1145559, 0);
    let b20 = lemma_bound_step(k, b19, 0xa5c377458db77c4c_60368eef432b2c0fnat, 1843623, 0);
    let b21 = lemma_bound_step(k, b20, 0xd6ab19fd286c50d0_329918d7add266dcnat, 4775088, 1);
    let b22 = lemma_bound_step(k, b21, 0xb40281cefa6c840e_1efdfa8b09308730nat, 8008285, 0);
    let b23 = lemma_bound_step(k, b22, 0xfd270d22b26d863e_89010c5915d0fc86nat, 22524530, 1);
    let b24 = lemma_bound_step(k, b23, 0xfa5635eb95eb6389_82f050cae5f7b372nat, 44547986, 0);
    let b25 = lemma_bound_step(k, b24, 0xf4cc7e586673dd6f_814ce03e6fb86d05nat, 87124989, 0);
    let b26 = lemma_bound_step(k, b25, 0xea1674321e8b4a26_1ed326d286d26238nat, 166625728, 0);
    let b27 = lemma_bound_step(k, b26, 0xd60d0e63cd3158fc_9c27c3417a6ac207nat, 304726838, 0);
    let b28 = lemma_bound_step(k, b27, 0xb2f9d4b952006923_1d18dcf82f2733d2nat, 509586600, 0);
    lemma_bound_end(k, b28);
}

/// The bound of `log2_bound` holds for each of the twenty factors.
pub proof fn lemma_factor_bound(i: nat)
    requires
        i < 20,
    ensures
        sq_pow(magic(i), 28) * pow2(log2_bound(i)) <= sq_pow(two_pow_128(), 28),
        sq_pow(two_pow_128(), 28) <= sq_pow(magic(i), 28) * pow2(log2_bound(i) + 1),
{
    if i == 0 {
        lemma_factor_bound_0();
    } else if i == 1 {
        lemma_factor_bound_1();
    } else if i == 2 {
        lemma_factor_bound_2();
    } else if i == 3 {
        lemma_factor_bound_3();
    } else if i == 4 {
        lemma_factor_bound_4();
    } else if i == 5 {
        lemma_factor_bound_5();
    } else if i == 6 {
        lemma_factor_bound_6();
    } else if i == 7 {
        lemma_factor_bound_7();
    } else if i == 8 {
        lemma_factor_bound_8();
    } else if i == 9 {
        lemma_factor_bound_9();
    } else if i == 10 {
        lemma_factor_bound_10();
    } else if i == 11 {
        lemma_factor_bound_11();
    } else if i == 12 {
        lemma_factor_bound_12();
    } else if i == 13 {
        lemma_factor_bound_13();
    } else if i == 14 {
        lemma_factor_bound_14();
    } else if i == 15 {
        lemma_factor_bound_15();
    } else if i == 16 {
        lemma_factor_bound_16();
    } else if i == 17 {
        lemma_factor_bound_17();
    } else if i == 18 {
        lemma_factor_bound_18();
    } else if i == 19 {
        lemma_factor_bound_19();
    }
}

} // verus!
