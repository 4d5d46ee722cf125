use vstd::prelude::*;

verus! {

/// A 2D integer point on the grid, also used as a direction: a unit step on
/// each axis, or zero. The cancel sentinel is the zero vector.
#[derive(Clone, Copy, PartialEq, Eq, Hash, Structural, Debug)]
pub struct Vector2(pub i64, pub i64);

/// One wrap pass on a single axis: add the delta, then fold a single
/// overshoot back into `[0, bound)`. This is deliberately not general
/// modulo arithmetic; it is only meant for in-range positions moved by at
/// most one cell, which is all the game ever does.
pub open spec fn wrap_axis(pos: int, delta: int, bound: int) -> int {
    let s = pos + delta;
    if s < 0 {
        s + bound
    } else if s >= bound {
        s % bound
    } else {
        s
    }
}

impl Vector2 {
    /// The point lies on a board of the given bounds.
    pub open spec fn in_bounds(self, bounds: Vector2) -> bool {
        0 <= self.0 < bounds.0 && 0 <= self.1 < bounds.1
    }

    /// The vector moves by at most one cell on each axis.
    pub open spec fn is_unit_step(self) -> bool {
        -1 <= self.0 <= 1 && -1 <= self.1 <= 1
    }

    /// The point reached from `self` by the step `v` on a toroidal board of
    /// the given bounds.
    pub open spec fn spec_translate(self, v: Vector2, bounds: Vector2) -> Vector2 {
        Vector2(
            wrap_axis(self.0 as int, v.0 as int, bounds.0 as int) as i64,
            wrap_axis(self.1 as int, v.1 as int, bounds.1 as int) as i64,
        )
    }

    /// Move the point by the unit-or-zero step `v`, wrapping around the
    /// edges of a board of bounds `wrap_around`.
    pub fn translate(&mut self, v: &Vector2, wrap_around: &Vector2)
        requires
            old(self).in_bounds(*wrap_around),
            v.is_unit_step(),
        ensures
            *final(self) == old(self).spec_translate(*v, *wrap_around),
            final(self).in_bounds(*wrap_around),
    {
        self.0 += v.0;
        self.1 += v.1;
        if self.0 < 0 {
            self.0 += wrap_around.0;
        }
        if self.1 < 0 {
            self.1 += wrap_around.1;
        }
        if self.0 >= wrap_around.0 {
            proof {
                assert(self.0 == wrap_around.0);
                assert(wrap_around.0 % wrap_around.0 == 0) by (nonlinear_arith)
                    requires wrap_around.0 > 0;
            }
            self.0 = self.0 - wrap_around.0;
        }
        if self.1 >= wrap_around.1 {
            proof {
                assert(self.1 == wrap_around.1);
                assert(wrap_around.1 % wrap_around.1 == 0) by (nonlinear_arith)
                    requires wrap_around.1 > 0;
            }
            self.1 = self.1 - wrap_around.1;
        }
    }
}

} // verus!
