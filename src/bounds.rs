//! The box of whole-number positions that a flight path visits, and how a
//! position in it maps onto a canvas whose row 0 is at the top.
use vstd::prelude::*;

verus! {

#[derive(Debug, Clone, Copy)]
pub struct Bounds {
    min_x: i16,
    min_y: i16,
    max_x: i16,
    max_y: i16,
}

impl Bounds {
    #[verifier::type_invariant]
    spec fn ordered(&self) -> bool {
        self.min_x <= self.max_x && self.min_y <= self.max_y
    }

    pub closed spec fn min_x_spec(&self) -> int {
        self.min_x as int
    }

    pub closed spec fn min_y_spec(&self) -> int {
        self.min_y as int
    }

    pub closed spec fn max_x_spec(&self) -> int {
        self.max_x as int
    }

    pub closed spec fn max_y_spec(&self) -> int {
        self.max_y as int
    }

    /// The box holding the one position `(x, y)`.
    pub fn new(x: i16, y: i16) -> (b: Bounds)
        ensures
            b.min_x_spec() == x,
            b.max_x_spec() == x,
            b.min_y_spec() == y,
            b.max_y_spec() == y,
    {
        Bounds { min_x: x, min_y: y, max_x: x, max_y: y }
    }

    /// Grows the box so that it holds `(x, y)` too.
    pub fn expand(&mut self, x: i16, y: i16)
        ensures
            final(self).min_x_spec() == if x < old(self).min_x_spec() {
                x as int
            } else {
                old(self).min_x_spec()
            },
            final(self).max_x_spec() == if x > old(self).max_x_spec() {
                x as int
            } else {
                old(self).max_x_spec()
            },
            final(self).min_y_spec() == if y < old(self).min_y_spec() {
                y as int
            } else {
                old(self).min_y_spec()
            },
            final(self).max_y_spec() == if y > old(self).max_y_spec() {
                y as int
            } else {
                old(self).max_y_spec()
            },
    {
        proof {
            use_type_invariant(&*self);
        }
        if x < self.min_x {
            self.min_x = x;
        }
        if x > self.max_x {
            self.max_x = x;
        }
        if y < self.min_y {
            self.min_y = y;
        }
        if y > self.max_y {
            self.max_y = y;
        }
    }

    /// Distance from the smallest to the largest `x`.
    pub fn width(&self) -> (w: usize)
        ensures
            w == self.max_x_spec() - self.min_x_spec(),
    {
        proof {
            use_type_invariant(self);
        }
        (self.max_x as i32 - self.min_x as i32) as usize
    }

    /// Distance from the smallest to the largest `y`; the path must have
    /// risen above where it started.
    pub fn height(&self) -> (h: usize)
        requires
            self.min_y_spec() < self.max_y_spec(),
        ensures
            h == self.max_y_spec() - self.min_y_spec(),
    {
        proof {
            use_type_invariant(self);
        }
        (self.max_y as i32 - self.min_y as i32) as usize
    }

    /// The canvas cell `(column, row)` of the position `(x, y)`, with rows
    /// counted down from the largest `y`.
    pub fn position_to_canvas(&self, x: i16, y: i16) -> (cell: (usize, usize))
        requires
            self.min_x_spec() <= x <= self.max_x_spec(),
            self.min_y_spec() <= y <= self.max_y_spec(),
            self.min_y_spec() < self.max_y_spec(),
        ensures
            cell.0 == x - self.min_x_spec(),
            cell.1 == self.max_y_spec() - y,
    {
        let cx = (x as i32 - self.min_x as i32) as usize;
        let cy = (y as i32 - self.min_y as i32) as usize;
        let flip_y = self.height() - cy;
        (cx, flip_y)
    }

    pub fn min_x(&self) -> (v: i16)
        ensures
            v == self.min_x_spec(),
    {
        self.min_x
    }

    pub fn min_y(&self) -> (v: i16)
        ensures
            v == self.min_y_spec(),
    {
        self.min_y
    }

    pub fn max_x(&self) -> (v: i16)
        ensures
            v == self.max_x_spec(),
    {
        self.max_x
    }

    pub fn max_y(&self) -> (v: i16)
        ensures
            v == self.max_y_spec(),
    {
        self.max_y
    }
}

} // verus!
