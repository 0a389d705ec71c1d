use alloy::primitives::U256 as WideUint;
use uniswap_v3_math::int256::{I256, U256};

#[test]
fn limbs_come_back_unchanged() {
    let limbs = [1u64, 2, 3, 4];
    assert_eq!(U256::from_limbs(limbs).into_limbs(), limbs);
}

#[test]
fn limbs_are_least_significant_first() {
    let x = U256::from_limbs([7, 0, 0, 0]);
    assert_eq!(x, U256::from_u64(7));
    let wide = WideUint::from_limbs(U256::from_limbs([0, 1, 0, 0]).into_limbs());
    assert_eq!(wide, WideUint::from(1u64) << 64);
}

#[test]
fn zero_is_recognised() {
    assert!(U256::from_u64(0).is_zero());
    assert!(!U256::from_u64(1).is_zero());
    assert!(!U256::from_limbs([0, 0, 0, 1]).is_zero());
}

#[test]
fn max_value_is_all_ones() {
    assert_eq!(
        WideUint::from_limbs(U256::max_value().into_limbs()),
        WideUint::MAX
    );
}

#[test]
fn signed_reading_keeps_the_bits() {
    let u = U256::from_limbs([5, 6, 7, u64::MAX]);
    let i = I256::from_raw(u);
    assert_eq!([i.l0, i.l1, i.l2, i.l3], [5, 6, 7, u64::MAX]);
}
