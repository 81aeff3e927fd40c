use vstd::prelude::*;

verus! {

/// A pixel position that may lie outside the canvas.
#[allow(non_camel_case_types)]
#[derive(PartialEq, Eq, Structural, Debug, Clone, Copy)]
pub struct Point2d_i(pub i16, pub i16);

/// A pixel position inside the canvas.
#[allow(non_camel_case_types)]
#[derive(PartialEq, Eq, Structural, Debug, Clone, Copy)]
pub struct Point2d_u(pub usize, pub usize);

/// A segment between two pixel positions that may lie outside the canvas.
#[allow(non_camel_case_types)]
#[derive(PartialEq, Eq, Debug, Clone, Copy)]
pub struct Line2d_i(pub (i16, i16), pub (i16, i16));

/// A segment between two pixel positions inside the canvas.
#[allow(non_camel_case_types)]
#[derive(PartialEq, Eq, Debug, Clone, Copy)]
pub struct Line2d_u(pub (usize, usize), pub (usize, usize));

impl Line2d_u {
    /// The segment as a pair of integer points.
    pub open spec fn view_pts(self) -> ((int, int), (int, int)) {
        ((self.0.0 as int, self.0.1 as int), (self.1.0 as int, self.1.1 as int))
    }
}

} // verus!
