use vstd::prelude::*;
use vstd::string::*;

verus! {

/// Why a conversion refused its input.
#[derive(Clone, Copy, Debug, PartialEq, Eq, Structural)]
pub enum UniswapV3MathError {
    /// The tick lies outside `[MIN_TICK, MAX_TICK]`.
    T,
    /// The square-root price lies outside `[MIN_SQRT_RATIO, MAX_SQRT_RATIO)`.
    R,
}

impl UniswapV3MathError {
    /// The message that belongs to each error.
    pub open spec fn message(self) -> Seq<char> {
        match self {
            UniswapV3MathError::T => "The given tick must be less than, or equal to, the maximum tick"@,
            UniswapV3MathError::R => "Second inequality must be < because the price can never reach the price at the max tick"@,
        }
    }

    /// Renders the error as its message.
    pub fn to_string(&self) -> (s: String)
        ensures
            s@ == self.message(),
    {
        match self {
            UniswapV3MathError::T => String::from_str(
                "The given tick must be less than, or equal to, the maximum tick",
            ),
            UniswapV3MathError::R => String::from_str(
                "Second inequality must be < because the price can never reach the price at the max tick",
            ),
        }
    }
}

} // verus!
