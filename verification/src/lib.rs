//! Conversions between ticks and square-root prices of a concentrated-liquidity
//! market maker, in exact fixed-point integer arithmetic.
//!
//! `tick_math` holds the two conversions and what they compute. `int256`
//! holds the 256-bit integers that they work on. The other modules hold the
//! proofs: `ratio_lemmas` that the price rises with the tick, and
//! `tick_inverse` that the tick of a price is the greatest tick whose own
//! price does not exceed it, which rests on the bounds of `factor_bounds`,
//! `ratio_bounds` and `log_bounds`.

pub mod error;
pub mod factor_bounds;
pub mod int256;
pub mod log_bounds;
pub mod log_lemmas;
pub mod power_lemmas;
pub mod ratio_bounds;
pub mod ratio_lemmas;
pub mod tick_inverse;
pub mod tick_math;
