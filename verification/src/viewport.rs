//! The viewport: a grid of pixels laid over a rectangle of the complex plane.

use crate::complex::{ComplexInt, PlanePoint};
use crate::error::ConfigError;
use crate::fixed::Fixed;
use vstd::prelude::*;

verus! {

/// The largest width or height: pixel coordinates are handed out as `i32`.
pub const MAX_DIMENSION: u32 = 2147483647;

/// The size of the pixel grid.
#[derive(Clone, Copy, PartialEq, Eq, Structural, Debug)]
pub struct ViewportDimensions {
    pub width: u32,
    pub height: u32,
}

impl ViewportDimensions {
    /// Both sides are positive and no larger than `MAX_DIMENSION`.
    pub open spec fn wf(&self) -> bool {
        &&& 0 < self.width <= MAX_DIMENSION
        &&& 0 < self.height <= MAX_DIMENSION
    }

    /// What `new` answers for a given width and height.
    pub open spec fn checked(width: int, height: int) -> Result<ViewportDimensions, ConfigError> {
        if width <= 0 || height <= 0 {
            Err(ConfigError::NonPositiveDimension)
        } else if width > MAX_DIMENSION || height > MAX_DIMENSION {
            Err(ConfigError::DimensionTooLarge)
        } else {
            Ok(ViewportDimensions { width: width as u32, height: height as u32 })
        }
    }

    /// Validates a width and a height.
    pub fn new(width: i64, height: i64) -> (res: Result<ViewportDimensions, ConfigError>)
        ensures
            res == Self::checked(width as int, height as int),
            res matches Ok(dims) ==> dims.wf(),
    {
        if width <= 0 || height <= 0 {
            Err(ConfigError::NonPositiveDimension)
        } else if width > MAX_DIMENSION as i64 || height > MAX_DIMENSION as i64 {
            Err(ConfigError::DimensionTooLarge)
        } else {
            Ok(ViewportDimensions { width: width as u32, height: height as u32 })
        }
    }
}

/// A rectangle of the complex plane.
#[derive(Clone, Copy, PartialEq, Eq, Structural, Debug)]
pub struct PlaneRegion {
    pub x_min: Fixed,
    pub x_max: Fixed,
    pub y_min: Fixed,
    pub y_max: Fixed,
}

impl PlaneRegion {
    /// The rectangle has a positive extent along both axes.
    pub open spec fn wf(&self) -> bool {
        &&& self.x_min@ < self.x_max@
        &&& self.y_min@ < self.y_max@
    }

    /// Validates the four bounds.
    pub fn new(x_min: Fixed, x_max: Fixed, y_min: Fixed, y_max: Fixed) -> (res: Result<
        PlaneRegion,
        ConfigError,
    >)
        ensures
            x_min@ < x_max@ && y_min@ < y_max@ ==> res == Ok::<PlaneRegion, ConfigError>(
                PlaneRegion { x_min, x_max, y_min, y_max },
            ),
            !(x_min@ < x_max@ && y_min@ < y_max@) ==> res == Err::<PlaneRegion, ConfigError>(
                ConfigError::DegenerateRegion,
            ),
            res matches Ok(region) ==> region.wf(),
    {
        if x_min.raw < x_max.raw && y_min.raw < y_max.raw {
            Ok(PlaneRegion { x_min, x_max, y_min, y_max })
        } else {
            Err(ConfigError::DegenerateRegion)
        }
    }
}

/// The height, in raw units, of a region that spans `x_min..x_max` and has the
/// proportions of the pixel grid: `(x_max - x_min) * height / width`, rounded
/// down.
pub open spec fn aspect_extent(x_min: int, x_max: int, dims: ViewportDimensions) -> int {
    ((x_max - x_min) * dims.height) / (dims.width as int)
}

impl PlaneRegion {
    /// Derives the vertical bounds from the horizontal ones and the
    /// proportions of the viewport, so that a pixel is as high as it is wide.
    /// The region is centered on the real axis: of an odd extent, the half
    /// above the axis gets the odd unit.
    pub fn with_aspect(x_min: Fixed, x_max: Fixed, dims: &ViewportDimensions) -> (res: Result<
        PlaneRegion,
        ConfigError,
    >)
        requires
            dims.wf(),
        ensures
            res is Ok <==> x_min@ < x_max@ && 0 < aspect_extent(x_min@, x_max@, *dims)
                <= i64::MAX,
            res matches Ok(region) ==> {
                &&& region.wf()
                &&& region.x_min == x_min
                &&& region.x_max == x_max
                &&& region.y_min@ == -(aspect_extent(x_min@, x_max@, *dims) / 2)
                &&& region.y_max@ - region.y_min@ == aspect_extent(x_min@, x_max@, *dims)
            },
            res matches Err(e) ==> e == if x_min@ >= x_max@ || aspect_extent(
                x_min@,
                x_max@,
                *dims,
            ) <= 0 {
                ConfigError::DegenerateRegion
            } else {
                ConfigError::RegionTooLarge
            },
    {
        if x_min.raw >= x_max.raw {
            return Err(ConfigError::DegenerateRegion);
        }
        let span: i128 = x_max.raw as i128 - x_min.raw as i128;
        assert(0 <= span * dims.height <= 18446744073709551615 * 2147483647) by (nonlinear_arith)
            requires
                0 < span <= 18446744073709551615,
                0 < dims.height <= 2147483647,
        ;
        let scaled: i128 = span * (dims.height as i128);
        let extent: i128 = scaled / (dims.width as i128);
        proof {
            vstd::arithmetic::div_mod::lemma_div_pos_is_pos(scaled as int, dims.width as int);
        }
        if extent == 0 {
            return Err(ConfigError::DegenerateRegion);
        }
        if extent > i64::MAX as i128 {
            return Err(ConfigError::RegionTooLarge);
        }
        let half: i128 = extent / 2;
        let y_min: i128 = -half;
        let y_max: i128 = extent - half;
        Ok(
            PlaneRegion {
                x_min,
                x_max,
                y_min: Fixed { raw: y_min as i64 },
                y_max: Fixed { raw: y_max as i64 },
            },
        )
    }
}

/// The coordinate of step `index` out of `count` on the way from `lo` to
/// `hi`: `lo + (hi - lo) * index / count`, the quotient rounded down.
pub open spec fn lerp(lo: int, hi: int, index: int, count: int) -> int {
    lo + ((hi - lo) * index) / count
}

/// Every step lies in `[lo, hi)`, and step 0 is `lo`.
pub proof fn lemma_lerp_in_range(lo: int, hi: int, index: int, count: int)
    requires
        lo < hi,
        0 <= index < count,
    ensures
        lo <= lerp(lo, hi, index, count) < hi,
        index == 0 ==> lerp(lo, hi, index, count) == lo,
{
    let span = hi - lo;
    assert(0 <= span * index < span * count) by (nonlinear_arith)
        requires
            span > 0,
            0 <= index < count,
    ;
    vstd::arithmetic::div_mod::lemma_div_pos_is_pos(span * index, count);
    assert(span * count == count * span) by (nonlinear_arith);
    vstd::arithmetic::div_mod::lemma_div_by_multiple_is_strongly_ordered(
        span * index,
        span * count,
        span,
        count,
    );
    vstd::arithmetic::div_mod::lemma_div_by_multiple(span, count);
    if index == 0 {
        assert(span * index == 0) by (nonlinear_arith)
            requires
                index == 0,
        ;
    }
}

/// Later steps never map to smaller coordinates.
pub proof fn lemma_lerp_is_monotonic(lo: int, hi: int, i: int, j: int, count: int)
    requires
        lo < hi,
        0 <= i <= j,
        0 < count,
    ensures
        lerp(lo, hi, i, count) <= lerp(lo, hi, j, count),
{
    let span = hi - lo;
    assert(span * i <= span * j) by (nonlinear_arith)
        requires
            span > 0,
            i <= j,
    ;
    vstd::arithmetic::div_mod::lemma_div_is_ordered(span * i, span * j, count);
}

/// The last step lies at most one step's length, rounded up, below `hi`.
pub proof fn lemma_lerp_last_step(lo: int, hi: int, count: int)
    requires
        lo < hi,
        0 < count,
    ensures
        hi - lerp(lo, hi, count - 1, count) <= (hi - lo) / count + 1,
{
    let span = hi - lo;
    let last = span * (count - 1);
    let step = span / count;
    let below = span - step - 1;
    vstd::arithmetic::div_mod::lemma_fundamental_div_mod(span, count);
    assert(count * below <= last) by (nonlinear_arith)
        requires
            last == span * (count - 1),
            below == span - step - 1,
            span == count * step + (span % count),
            0 <= span % count < count,
    ;
    vstd::arithmetic::div_mod::lemma_div_is_ordered(count * below, last, count);
    vstd::arithmetic::div_mod::lemma_div_multiples_vanish(below, count);
}

fn interpolate(lo: Fixed, hi: Fixed, index: u32, count: u32) -> (at: Fixed)
    requires
        lo@ < hi@,
        index < count,
    ensures
        at@ == lerp(lo@, hi@, index as int, count as int),
{
    let span: i128 = hi.raw as i128 - lo.raw as i128;
    assert(0 <= span * index <= 18446744073709551615 * 4294967295) by (nonlinear_arith)
        requires
            0 < span <= 18446744073709551615,
            0 <= index <= 4294967295,
    ;
    let scaled: i128 = span * (index as i128);
    let offset: i128 = scaled / (count as i128);
    proof {
        lemma_lerp_in_range(lo@, hi@, index as int, count as int);
    }
    let at: i128 = lo.raw as i128 + offset;
    Fixed { raw: at as i64 }
}

/// Maps a pixel to its point of the plane:
/// `x_min + (x_max - x_min) * pixel_x / width` along the real axis and
/// `y_min + (y_max - y_min) * pixel_y / height` along the imaginary one.
pub fn map_pixel(
    pixel_x: u32,
    pixel_y: u32,
    dims: &ViewportDimensions,
    region: &PlaneRegion,
) -> (c: PlanePoint)
    requires
        dims.wf(),
        region.wf(),
        pixel_x < dims.width,
        pixel_y < dims.height,
    ensures
        c@ == plane_point_of(pixel_x as int, pixel_y as int, *dims, *region),
        region.x_min@ <= c.re@ < region.x_max@,
        region.y_min@ <= c.im@ < region.y_max@,
        pixel_x == 0 ==> c.re == region.x_min,
        pixel_y == 0 ==> c.im == region.y_min,
{
    proof {
        lemma_lerp_in_range(
            region.x_min@,
            region.x_max@,
            pixel_x as int,
            dims.width as int,
        );
        lemma_lerp_in_range(
            region.y_min@,
            region.y_max@,
            pixel_y as int,
            dims.height as int,
        );
    }
    let re: Fixed = interpolate(region.x_min, region.x_max, pixel_x, dims.width);
    let im: Fixed = interpolate(region.y_min, region.y_max, pixel_y, dims.height);
    PlanePoint { re, im }
}

/// The point of the plane that belongs to a pixel.
pub open spec fn plane_point_of(
    pixel_x: int,
    pixel_y: int,
    dims: ViewportDimensions,
    region: PlaneRegion,
) -> ComplexInt {
    ComplexInt {
        re: lerp(region.x_min@, region.x_max@, pixel_x, dims.width as int),
        im: lerp(region.y_min@, region.y_max@, pixel_y, dims.height as int),
    }
}

} // verus!
