//! Escape-time rendering of the Mandelbrot set, one scanline per frame.
//!
//! Plane coordinates are fixed-point numbers, so that every result is an exact
//! function of its inputs and can be stated and proved over the integers.

pub mod color;
pub mod complex;
pub mod error;
pub mod escape;
pub mod fixed;
pub mod gradient;
pub mod render;
pub mod session;
pub mod viewport;
