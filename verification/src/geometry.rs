use vstd::prelude::*;

verus! {

/// Largest magnitude a stored coordinate or dimension may take. Intermediate
/// sums are computed in `i128` and clamped back into this range, so no frame
/// computation can overflow.
pub const COORD_MAX: i64 = 0x1000_0000_0000_0000;

/// Bound on the numeric values of a configuration (fixed sizes, paddings,
/// gaps, min/max limits). Keeping configurations within this range leaves
/// ample headroom below `COORD_MAX` for every sum the pipeline forms.
pub const DIM_MAX: i64 = 0x1_0000_0000;

/// Clamp a mathematical integer into the storable coordinate range.
pub open spec fn sat(x: int) -> int {
    if x > COORD_MAX as int {
        COORD_MAX as int
    } else if x < -(COORD_MAX as int) {
        -(COORD_MAX as int)
    } else {
        x
    }
}

/// Bring an `i128` intermediate result back into coordinate range.
pub fn sat64(x: i128) -> (r: i64)
    ensures
        r as int == sat(x as int),
{
    if x > COORD_MAX as i128 {
        COORD_MAX
    } else if x < -(COORD_MAX as i128) {
        -COORD_MAX
    } else {
        x as i64
    }
}

#[derive(Debug, Clone, Copy, PartialEq, Eq, Structural)]
pub struct Point2D {
    pub x: i64,
    pub y: i64,
}

impl Point2D {
    pub fn new(x: i64, y: i64) -> (r: Self)
        ensures
            r == (Point2D { x, y }),
    {
        Point2D { x, y }
    }

    pub fn scalar(value: i64) -> (r: Self)
        ensures
            r == (Point2D { x: value, y: value }),
    {
        Point2D { x: value, y: value }
    }

    pub fn with_x(self, value: i64) -> (r: Self)
        ensures
            r == (Point2D { x: value, y: self.y }),
    {
        Point2D { x: value, y: self.y }
    }

    pub fn with_y(self, value: i64) -> (r: Self)
        ensures
            r == (Point2D { x: self.x, y: value }),
    {
        Point2D { x: self.x, y: value }
    }
}

impl Default for Point2D {
    fn default() -> (r: Self)
        ensures
            r == (Point2D { x: 0i64, y: 0i64 }),
    {
        Point2D { x: 0, y: 0 }
    }
}

#[derive(Debug, Clone, Copy, PartialEq, Eq, Structural)]
pub struct Dimension2D {
    pub width: i64,
    pub height: i64,
}

impl Dimension2D {
    pub fn new(width: i64, height: i64) -> (r: Self)
        ensures
            r == (Dimension2D { width, height }),
    {
        Dimension2D { width, height }
    }

    pub fn scalar(value: i64) -> (r: Self)
        ensures
            r == (Dimension2D { width: value, height: value }),
    {
        Dimension2D { width: value, height: value }
    }

    /// The same size with the width clamped into the given limits.
    pub fn clamped_width(self, min_max: crate::config::MinMax) -> (r: Self)
        requires
            min_max.min <= min_max.max,
        ensures
            r.width as int == crate::config::spec_clamp(
                self.width as int,
                min_max.min as int,
                min_max.max as int,
            ),
            r.height == self.height,
    {
        Dimension2D { width: min_max.clamp(self.width), height: self.height }
    }

    /// The same size with the height clamped into the given limits.
    pub fn clamped_height(self, min_max: crate::config::MinMax) -> (r: Self)
        requires
            min_max.min <= min_max.max,
        ensures
            r.height as int == crate::config::spec_clamp(
                self.height as int,
                min_max.min as int,
                min_max.max as int,
            ),
            r.width == self.width,
    {
        Dimension2D { width: self.width, height: min_max.clamp(self.height) }
    }

    pub fn with_width(self, value: i64) -> (r: Self)
        ensures
            r == (Dimension2D { width: value, height: self.height }),
    {
        Dimension2D { width: value, height: self.height }
    }

    pub fn with_height(self, value: i64) -> (r: Self)
        ensures
            r == (Dimension2D { width: self.width, height: value }),
    {
        Dimension2D { width: self.width, height: value }
    }
}

impl Default for Dimension2D {
    fn default() -> (r: Self)
        ensures
            r == (Dimension2D { width: 0i64, height: 0i64 }),
    {
        Dimension2D { width: 0, height: 0 }
    }
}

} // verus!
