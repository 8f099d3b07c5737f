//! The configuration of one render session, checked once before rendering.

use crate::error::ConfigError;
use crate::fixed::Fixed;
use crate::viewport::{PlaneRegion, ViewportDimensions, MAX_DIMENSION};
use vstd::prelude::*;

verus! {

/// The number of nanoseconds in one second.
pub const NANOS_PER_SECOND: u32 = 1000000000;

/// The coloring strategy of a session.
#[derive(Clone, Copy, PartialEq, Eq, Structural, Debug)]
pub enum ColorMode {
    /// Bands of fixed colors, chosen by the iteration count.
    Discrete,
    /// A gradient over a smoothed escape value.
    Continuous,
}

/// Everything a session is given at its start.
#[derive(Clone, Copy, PartialEq, Eq, Structural, Debug)]
pub struct SessionConfiguration {
    pub region: PlaneRegion,
    pub dims: ViewportDimensions,
    pub iteration_budget: u32,
    pub escape_radius: Fixed,
    pub color_mode: ColorMode,
    pub target_frame_rate: u32,
}

impl SessionConfiguration {
    /// The configuration can be rendered.
    pub open spec fn wf(&self) -> bool {
        &&& self.region.wf()
        &&& self.dims.wf()
        &&& self.iteration_budget > 0
        &&& self.target_frame_rate > 0
    }

    /// The first thing wrong with the configuration, if anything is: the
    /// region is looked at first, then the dimensions, the budget and the
    /// frame rate.
    pub open spec fn fault(&self) -> Option<ConfigError> {
        if !self.region.wf() {
            Some(ConfigError::DegenerateRegion)
        } else if self.dims.width == 0 || self.dims.height == 0 {
            Some(ConfigError::NonPositiveDimension)
        } else if self.dims.width > MAX_DIMENSION || self.dims.height > MAX_DIMENSION {
            Some(ConfigError::DimensionTooLarge)
        } else if self.iteration_budget == 0 {
            Some(ConfigError::ZeroBudget)
        } else if self.target_frame_rate == 0 {
            Some(ConfigError::ZeroFrameRate)
        } else {
            None
        }
    }

    /// A configuration without a fault is well-formed, and only such a one.
    pub proof fn lemma_fault_free_is_wf(&self)
        ensures
            self.fault() is None <==> self.wf(),
    {
    }

    /// Checks the configuration, and names the first fault it has.
    pub fn validate(&self) -> (res: Result<(), ConfigError>)
        ensures
            res == match self.fault() {
                Some(e) => Err::<(), ConfigError>(e),
                None => Ok::<(), ConfigError>(()),
            },
            res is Ok <==> self.wf(),
    {
        if !(self.region.x_min.raw < self.region.x_max.raw && self.region.y_min.raw
            < self.region.y_max.raw) {
            Err(ConfigError::DegenerateRegion)
        } else if self.dims.width == 0 || self.dims.height == 0 {
            Err(ConfigError::NonPositiveDimension)
        } else if self.dims.width > MAX_DIMENSION || self.dims.height > MAX_DIMENSION {
            Err(ConfigError::DimensionTooLarge)
        } else if self.iteration_budget == 0 {
            Err(ConfigError::ZeroBudget)
        } else if self.target_frame_rate == 0 {
            Err(ConfigError::ZeroFrameRate)
        } else {
            Ok(())
        }
    }

    /// Puts a configuration together and checks it.
    pub fn new(
        region: PlaneRegion,
        dims: ViewportDimensions,
        iteration_budget: u32,
        escape_radius: Fixed,
        color_mode: ColorMode,
        target_frame_rate: u32,
    ) -> (res: Result<SessionConfiguration, ConfigError>)
        ensures
            res == {
                let config = SessionConfiguration {
                    region,
                    dims,
                    iteration_budget,
                    escape_radius,
                    color_mode,
                    target_frame_rate,
                };
                match config.fault() {
                    Some(e) => Err::<SessionConfiguration, ConfigError>(e),
                    None => Ok::<SessionConfiguration, ConfigError>(config),
                }
            },
            res matches Ok(config) ==> config.wf(),
    {
        let config = SessionConfiguration {
            region,
            dims,
            iteration_budget,
            escape_radius,
            color_mode,
            target_frame_rate,
        };
        match config.validate() {
            Ok(()) => Ok(config),
            Err(e) => Err(e),
        }
    }

    /// The time one frame is given, in nanoseconds: a second divided by the
    /// target frame rate, rounded down.
    pub fn frame_interval_nanos(&self) -> (nanos: u32)
        requires
            self.target_frame_rate > 0,
        ensures
            nanos == NANOS_PER_SECOND / self.target_frame_rate,
    {
        NANOS_PER_SECOND / self.target_frame_rate
    }
}

} // verus!
