//! 256-bit integers as plain limbs, with the arithmetic that the tick
//! conversions need. The arithmetic itself is done by `alloy`'s `U256` and
//! `I256`; each operation below states what that call returns.

use vstd::arithmetic::power2::pow2;
use vstd::prelude::*;

verus! {

/// 2^64.
pub open spec fn two_pow_64() -> nat {
    0x1_0000_0000_0000_0000nat
}

/// 2^128.
pub open spec fn two_pow_128() -> nat {
    0x1_0000_0000_0000_0000_0000_0000_0000_0000nat
}

/// 2^192.
pub open spec fn two_pow_192() -> nat {
    0x1_0000_0000_0000_0000_0000_0000_0000_0000_0000_0000_0000_0000nat
}

/// 2^255.
pub open spec fn two_pow_255() -> nat {
    0x8000_0000_0000_0000_0000_0000_0000_0000_0000_0000_0000_0000_0000_0000_0000_0000nat
}

/// 2^256.
pub open spec fn two_pow_256() -> nat {
    0x1_0000_0000_0000_0000_0000_0000_0000_0000_0000_0000_0000_0000_0000_0000_0000_0000nat
}

/// The number that four limbs stand for, least significant limb first.
pub open spec fn limbs_value(l0: u64, l1: u64, l2: u64, l3: u64) -> nat {
    (l0 as nat) + (l1 as nat) * two_pow_64() + (l2 as nat) * two_pow_128() + (l3 as nat)
        * two_pow_192()
}

/// The signed number that an unsigned 256-bit pattern stands for in two's complement.
pub open spec fn signed_value(raw: nat) -> int {
    if raw >= two_pow_255() {
        raw - two_pow_256()
    } else {
        raw as int
    }
}

/// An unsigned 256-bit integer, held as four 64-bit limbs, least significant first.
#[derive(Clone, Copy, Debug, PartialEq, Eq, Structural)]
pub struct U256 {
    pub l0: u64,
    pub l1: u64,
    pub l2: u64,
    pub l3: u64,
}

impl View for U256 {
    type V = nat;

    open spec fn view(&self) -> nat {
        limbs_value(self.l0, self.l1, self.l2, self.l3)
    }
}

/// A signed 256-bit integer in two's complement, held as four 64-bit limbs,
/// least significant first.
#[derive(Clone, Copy, Debug, PartialEq, Eq, Structural)]
pub struct I256 {
    pub l0: u64,
    pub l1: u64,
    pub l2: u64,
    pub l3: u64,
}

impl View for I256 {
    type V = int;

    open spec fn view(&self) -> int {
        signed_value(self.raw())
    }
}

/// Every limb pattern stands for a number below 2^256.
pub proof fn lemma_limbs_value_bound(l0: u64, l1: u64, l2: u64, l3: u64)
    ensures
        limbs_value(l0, l1, l2, l3) < two_pow_256(),
{
}

/// A number below 2^64 sits in the lowest limb alone.
pub proof fn lemma_small_value_limbs(l0: u64, l1: u64, l2: u64, l3: u64)
    requires
        limbs_value(l0, l1, l2, l3) < two_pow_64(),
    ensures
        l1 == 0,
        l2 == 0,
        l3 == 0,
        limbs_value(l0, l1, l2, l3) == l0,
{
}

impl U256 {
    /// The value from its limbs, least significant first.
    pub fn from_limbs(limbs: [u64; 4]) -> (r: U256)
        ensures
            r == (U256 { l0: limbs[0], l1: limbs[1], l2: limbs[2], l3: limbs[3] }),
            r@ == limbs_value(limbs[0], limbs[1], limbs[2], limbs[3]),
    {
        U256 { l0: limbs[0], l1: limbs[1], l2: limbs[2], l3: limbs[3] }
    }

    /// The limbs of the value, least significant first.
    pub fn into_limbs(self) -> (r: [u64; 4])
        ensures
            r[0] == self.l0,
            r[1] == self.l1,
            r[2] == self.l2,
            r[3] == self.l3,
            limbs_value(r[0], r[1], r[2], r[3]) == self@,
    {
        [self.l0, self.l1, self.l2, self.l3]
    }

    /// A value that fits in 64 bits.
    pub fn from_u64(x: u64) -> (r: U256)
        ensures
            r == (U256 { l0: x, l1: 0, l2: 0, l3: 0 }),
            r@ == x,
    {
        U256 { l0: x, l1: 0, l2: 0, l3: 0 }
    }

    /// The largest value, 2^256 - 1.
    pub fn max_value() -> (r: U256)
        ensures
            r@ == two_pow_256() - 1,
    {
        U256 {
            l0: 0xffff_ffff_ffff_ffff,
            l1: 0xffff_ffff_ffff_ffff,
            l2: 0xffff_ffff_ffff_ffff,
            l3: 0xffff_ffff_ffff_ffff,
        }
    }

    /// Whether the value is zero.
    pub fn is_zero(&self) -> (r: bool)
        ensures
            r == (self@ == 0),
    {
        self.l0 == 0 && self.l1 == 0 && self.l2 == 0 && self.l3 == 0
    }
}

impl I256 {
    /// The unsigned number that the limbs stand for.
    pub open spec fn raw(&self) -> nat {
        limbs_value(self.l0, self.l1, self.l2, self.l3)
    }

    /// The same 256 bits read as a signed number.
    pub fn from_raw(u: U256) -> (r: I256)
        ensures
            r == (I256 { l0: u.l0, l1: u.l1, l2: u.l2, l3: u.l3 }),
            r.raw() == u@,
            r@ == signed_value(u@),
    {
        I256 { l0: u.l0, l1: u.l1, l2: u.l2, l3: u.l3 }
    }
}

/// The value that a signed number wraps to when only its low 256 bits are kept.
pub open spec fn wrap_signed(x: int) -> int {
    signed_value((x % (two_pow_256() as int)) as nat)
}

/// A number inside the signed 256-bit range wraps to itself.
pub proof fn lemma_wrap_signed_in_range(x: int)
    requires
        -(two_pow_255() as int) <= x < two_pow_255(),
    ensures
        wrap_signed(x) == x,
{
    let m = two_pow_256() as int;
    if x >= 0 {
        vstd::arithmetic::div_mod::lemma_small_mod(x as nat, m as nat);
    } else {
        vstd::arithmetic::div_mod::lemma_small_mod((x + m) as nat, m as nat);
        vstd::arithmetic::div_mod::lemma_mod_add_multiples_vanish(x, m);
    }
}

/// `alloy`'s `U256::wrapping_mul`: the product modulo 2^256.
#[verifier::external_body]
pub(crate) fn u256_wrapping_mul(a: U256, b: U256) -> (r: U256)
    ensures
        r@ == (a@ * b@) % two_pow_256(),
{
    let x = alloy::primitives::U256::from_limbs([a.l0, a.l1, a.l2, a.l3]);
    let y = alloy::primitives::U256::from_limbs([b.l0, b.l1, b.l2, b.l3]);
    let [l0, l1, l2, l3] = x.wrapping_mul(y).into_limbs();
    U256 { l0, l1, l2, l3 }
}

/// `alloy`'s `U256::wrapping_add`: the sum modulo 2^256.
#[verifier::external_body]
pub(crate) fn u256_wrapping_add(a: U256, b: U256) -> (r: U256)
    ensures
        r@ == (a@ + b@) % two_pow_256(),
{
    let x = alloy::primitives::U256::from_limbs([a.l0, a.l1, a.l2, a.l3]);
    let y = alloy::primitives::U256::from_limbs([b.l0, b.l1, b.l2, b.l3]);
    let [l0, l1, l2, l3] = x.wrapping_add(y).into_limbs();
    U256 { l0, l1, l2, l3 }
}

/// `alloy`'s `U256::wrapping_div`: the quotient rounded down. The call panics
/// on a zero divisor, which the precondition leaves out.
#[verifier::external_body]
pub(crate) fn u256_wrapping_div(a: U256, b: U256) -> (r: U256)
    requires
        b@ != 0,
    ensures
        r@ == a@ / b@,
{
    let x = alloy::primitives::U256::from_limbs([a.l0, a.l1, a.l2, a.l3]);
    let y = alloy::primitives::U256::from_limbs([b.l0, b.l1, b.l2, b.l3]);
    let [l0, l1, l2, l3] = x.wrapping_div(y).into_limbs();
    U256 { l0, l1, l2, l3 }
}

/// `alloy`'s `U256::wrapping_rem`: the remainder of the division. The call
/// panics on a zero divisor, which the precondition leaves out.
#[verifier::external_body]
pub(crate) fn u256_wrapping_rem(a: U256, b: U256) -> (r: U256)
    requires
        b@ != 0,
    ensures
        r@ == a@ % b@,
{
    let x = alloy::primitives::U256::from_limbs([a.l0, a.l1, a.l2, a.l3]);
    let y = alloy::primitives::U256::from_limbs([b.l0, b.l1, b.l2, b.l3]);
    let [l0, l1, l2, l3] = x.wrapping_rem(y).into_limbs();
    U256 { l0, l1, l2, l3 }
}

/// `alloy`'s `U256::wrapping_shl`: the value times 2^n, modulo 2^256, for
/// every shift amount.
#[verifier::external_body]
pub(crate) fn u256_wrapping_shl(a: U256, n: usize) -> (r: U256)
    ensures
        r@ == (a@ * pow2(n as nat)) % two_pow_256(),
{
    let x = alloy::primitives::U256::from_limbs([a.l0, a.l1, a.l2, a.l3]);
    let [l0, l1, l2, l3] = x.wrapping_shl(n).into_limbs();
    U256 { l0, l1, l2, l3 }
}

/// `alloy`'s `U256::wrapping_shr`: the value divided by 2^n, rounded down, for
/// every shift amount.
#[verifier::external_body]
pub(crate) fn u256_wrapping_shr(a: U256, n: usize) -> (r: U256)
    ensures
        r@ == a@ / pow2(n as nat),
{
    let x = alloy::primitives::U256::from_limbs([a.l0, a.l1, a.l2, a.l3]);
    let [l0, l1, l2, l3] = x.wrapping_shr(n).into_limbs();
    U256 { l0, l1, l2, l3 }
}

/// `<` on `alloy`'s `U256`: the order of the numbers.
#[verifier::external_body]
pub(crate) fn u256_lt(a: U256, b: U256) -> (r: bool)
    ensures
        r == (a@ < b@),
{
    let x = alloy::primitives::U256::from_limbs([a.l0, a.l1, a.l2, a.l3]);
    let y = alloy::primitives::U256::from_limbs([b.l0, b.l1, b.l2, b.l3]);
    x < y
}

/// `alloy`'s `I256::wrapping_mul`: the product, wrapped into the signed
/// 256-bit range.
#[verifier::external_body]
pub(crate) fn i256_wrapping_mul(a: I256, b: I256) -> (r: I256)
    ensures
        r@ == wrap_signed(a@ * b@),
{
    let x = alloy::primitives::I256::from_limbs([a.l0, a.l1, a.l2, a.l3]);
    let y = alloy::primitives::I256::from_limbs([b.l0, b.l1, b.l2, b.l3]);
    let [l0, l1, l2, l3] = x.wrapping_mul(y).into_limbs();
    I256 { l0, l1, l2, l3 }
}

/// `+` on `alloy`'s `I256`: the sum. Where the sum leaves the signed range the
/// call panics in a debug build, so the precondition leaves that out.
#[verifier::external_body]
pub(crate) fn i256_add(a: I256, b: I256) -> (r: I256)
    requires
        -(two_pow_255() as int) <= a@ + b@ < two_pow_255(),
    ensures
        r@ == a@ + b@,
{
    let x = alloy::primitives::I256::from_limbs([a.l0, a.l1, a.l2, a.l3]);
    let y = alloy::primitives::I256::from_limbs([b.l0, b.l1, b.l2, b.l3]);
    let [l0, l1, l2, l3] = (x + y).into_limbs();
    I256 { l0, l1, l2, l3 }
}

/// `-` on `alloy`'s `I256`: the difference. Where the difference leaves the
/// signed range the call panics in a debug build, so the precondition leaves
/// that out.
#[verifier::external_body]
pub(crate) fn i256_sub(a: I256, b: I256) -> (r: I256)
    requires
        -(two_pow_255() as int) <= a@ - b@ < two_pow_255(),
    ensures
        r@ == a@ - b@,
{
    let x = alloy::primitives::I256::from_limbs([a.l0, a.l1, a.l2, a.l3]);
    let y = alloy::primitives::I256::from_limbs([b.l0, b.l1, b.l2, b.l3]);
    let [l0, l1, l2, l3] = (x - y).into_limbs();
    I256 { l0, l1, l2, l3 }
}

/// `alloy`'s `I256::wrapping_shl`: the bit pattern times 2^n, modulo 2^256,
/// for every shift amount.
#[verifier::external_body]
pub(crate) fn i256_wrapping_shl(a: I256, n: usize) -> (r: I256)
    ensures
        r.raw() == (a.raw() * pow2(n as nat)) % two_pow_256(),
{
    let x = alloy::primitives::I256::from_limbs([a.l0, a.l1, a.l2, a.l3]);
    let [l0, l1, l2, l3] = x.wrapping_shl(n).into_limbs();
    I256 { l0, l1, l2, l3 }
}

/// `alloy`'s `I256::wrapping_shr`: a logical shift, the bit pattern divided by
/// 2^n and rounded down, with zeros coming in at the top, for every shift
/// amount.
#[verifier::external_body]
pub(crate) fn i256_wrapping_shr(a: I256, n: usize) -> (r: I256)
    ensures
        r.raw() == a.raw() / pow2(n as nat),
{
    let x = alloy::primitives::I256::from_limbs([a.l0, a.l1, a.l2, a.l3]);
    let [l0, l1, l2, l3] = x.wrapping_shr(n).into_limbs();
    I256 { l0, l1, l2, l3 }
}

/// `|` on `alloy`'s `I256`: the bitwise or, limb by limb.
#[verifier::external_body]
pub(crate) fn i256_bitor(a: I256, b: I256) -> (r: I256)
    ensures
        r.l0 == a.l0 | b.l0,
        r.l1 == a.l1 | b.l1,
        r.l2 == a.l2 | b.l2,
        r.l3 == a.l3 | b.l3,
{
    let x = alloy::primitives::I256::from_limbs([a.l0, a.l1, a.l2, a.l3]);
    let y = alloy::primitives::I256::from_limbs([b.l0, b.l1, b.l2, b.l3]);
    let [l0, l1, l2, l3] = (x | y).into_limbs();
    I256 { l0, l1, l2, l3 }
}

/// `alloy`'s `I256::low_i32`: the low 32 bits of the lowest limb, read as a
/// signed number.
#[verifier::external_body]
pub(crate) fn i256_low_i32(a: I256) -> (r: i32)
    ensures
        r == a.l0 as i32,
{
    let x = alloy::primitives::I256::from_limbs([a.l0, a.l1, a.l2, a.l3]);
    x.low_i32()
}

} // verus!
