use vstd::prelude::*;

pub mod geometry;
pub mod clip;
pub mod framebuffer;
pub mod raster;
pub mod fog;
pub mod mesh;
pub mod scene;
pub mod pattern;

verus! {

/// Width of the canvas in pixels.
pub const CANVAS_WIDTH: usize = 480;

/// Height of the canvas in pixels.
pub const CANVAS_HEIGHT: usize = 480;

/// Width of the canvas as a signed pixel coordinate.
pub const CANVAS_W_I16: i16 = 480;

/// Height of the canvas as a signed pixel coordinate.
pub const CANVAS_H_I16: i16 = 480;

} // verus!
