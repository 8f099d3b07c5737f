//! Why a session configuration is refused.

use vstd::prelude::*;

verus! {

/// The reasons for which a configuration is rejected before any rendering.
#[derive(Clone, Copy, PartialEq, Eq, Structural, Debug)]
pub enum ConfigError {
    /// The plane region is empty or inverted along one of its axes.
    DegenerateRegion,
    /// The region derived from the viewport's proportions is taller than a
    /// coordinate can express.
    RegionTooLarge,
    /// The width or the height of the viewport is zero or negative.
    NonPositiveDimension,
    /// The width or the height exceeds what a pixel coordinate can hold.
    DimensionTooLarge,
    /// The iteration budget is zero.
    ZeroBudget,
    /// The target frame rate is zero.
    ZeroFrameRate,
}

} // verus!
