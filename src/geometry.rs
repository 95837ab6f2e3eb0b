use vstd::prelude::*;

verus! {

/// A position, in micro-units, with the origin at the centre of the viewport.
#[derive(Clone, Copy, Debug, PartialEq, Eq, Structural)]
pub struct Point {
    pub x: i64,
    pub y: i64,
}

/// A velocity, in micro-units per millisecond.
#[derive(Clone, Copy, Debug, PartialEq, Eq, Structural)]
pub struct Velocity {
    pub dx: i64,
    pub dy: i64,
}

/// The size of the visible area, in micro-units. The viewport is centred at
/// the origin.
#[derive(Clone, Copy, Debug, PartialEq, Eq, Structural)]
pub struct Viewport {
    pub width: i64,
    pub height: i64,
}

/// Whether `p` lies in the rectangle `[-w/2, w/2] x [-h/2, h/2]`.
pub open spec fn point_in_bounds(v: Viewport, p: Point) -> bool {
    -v.width <= 2 * p.x <= v.width && -v.height <= 2 * p.y <= v.height
}

impl Viewport {
    /// A viewport has a non-negative width and height.
    pub open spec fn wf(&self) -> bool {
        self.width >= 0 && self.height >= 0
    }

    /// Whether `p` lies inside the viewport, edges included.
    pub fn in_bounds(&self, p: Point) -> (r: bool)
        ensures
            r == point_in_bounds(*self, p),
    {
        let w = self.width as i128;
        let h = self.height as i128;
        let x2 = 2 * (p.x as i128);
        let y2 = 2 * (p.y as i128);
        -w <= x2 && x2 <= w && -h <= y2 && y2 <= h
    }

    /// The top-centre point `(0, height / 2)`, where new words appear.
    pub fn top_center(&self) -> (r: Point)
        requires
            self.wf(),
        ensures
            r.x == 0,
            r.y == self.height / 2,
    {
        Point { x: 0, y: self.height / 2 }
    }
}

} // verus!
