//! Shapes whose geometry is evaluated by the application: the unit cube of the
//! signed-distance family, and the bookkeeping of the boolean intersection of
//! two shapes.
use vstd::prelude::*;

verus! {

/// The cube of half-side one centred on the origin, given by its Chebyshev
/// distance (the largest absolute coordinate, minus one).
#[derive(Clone, Copy, Debug, PartialEq, Eq, Structural)]
pub struct Cube {}

/// Which of the two shapes of an intersection the marched ray is inside.
#[derive(Clone, Copy, Debug, PartialEq, Eq, Structural)]
pub struct CsgMarch {
    pub inside_first: bool,
    pub inside_second: bool,
}

impl CsgMarch {
    /// Whether the ray is inside shape `i` (0 for the first, 1 for the second).
    pub open spec fn inside(self, i: int) -> bool {
        if i == 0 {
            self.inside_first
        } else {
            self.inside_second
        }
    }

    /// Starts the march from where the ray starts, inside or outside each shape.
    pub fn new(inside_first: bool, inside_second: bool) -> (r: Self)
        ensures
            r.inside_first == inside_first,
            r.inside_second == inside_second,
    {
        CsgMarch { inside_first, inside_second }
    }

    /// The ray reaches the boundary of shape `i`, the nearer of the two.
    /// Returns whether that crossing takes it into both shapes: there the
    /// surface of the intersection is hit, and the march ends. Otherwise the
    /// ray passes the boundary, and its side of shape `i` flips.
    pub fn cross(&mut self, i: usize) -> (enters: bool)
        requires
            i < 2,
        ensures
            enters == (!old(self).inside(i as int) && old(self).inside(1 - i)),
            enters ==> *final(self) == *old(self),
            !enters ==> final(self).inside(i as int) == !old(self).inside(i as int),
            !enters ==> final(self).inside(1 - i) == old(self).inside(1 - i),
    {
        let (mine, other) = if i == 0 {
            (self.inside_first, self.inside_second)
        } else {
            (self.inside_second, self.inside_first)
        };
        if !mine && other {
            return true;
        }
        if i == 0 {
            self.inside_first = !mine;
        } else {
            self.inside_second = !mine;
        }
        false
    }
}

/// The colour, 0 or 1, of the checkerboard cell in column `index_x` and row
/// `index_y`: neighbouring cells differ.
pub fn checker_color(index_x: usize, index_y: usize) -> (r: usize)
    ensures
        r == (index_x + index_y) % 2,
{
    (index_x % 2 + index_y % 2) % 2
}

} // verus!
