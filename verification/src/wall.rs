//! Wall segments, for casts against explicit geometry.

use vstd::prelude::*;
use crate::fixed::{Fixed, ONE, distance, div_spec, length_between};

verus! {

/// A wall from one point to another.
#[derive(Clone, Copy, Debug)]
pub struct Wall {
    /// Where the wall starts.
    pub start: (Fixed, Fixed),
    /// Where the wall ends.
    pub end: (Fixed, Fixed),
}

impl Default for Wall {
    /// A wall of no length at the origin.
    fn default() -> (w: Wall)
        ensures
            w.start == (0i64, 0i64),
            w.end == (0i64, 0i64),
    {
        Wall { start: (0, 0), end: (0, 0) }
    }
}

/// How far along a wall of length `len` a point at distance `part` from its
/// start lies, as a fraction of the length; `None` where the wall has no
/// length or the fraction is beyond the largest fixed-point number.
pub open spec fn fraction(part: int, len: int) -> Option<Fixed> {
    if len <= 0 || div_spec(part, len) > i64::MAX {
        None
    } else {
        Some(div_spec(part, len) as i64)
    }
}

impl Wall {
    /// Length of the wall from `start` to `end`.
    pub fn calc_length(start: (Fixed, Fixed), end: (Fixed, Fixed)) -> (d: Fixed)
        ensures
            d == distance(start, end),
            d >= 0,
    {
        length_between(start, end)
    }

    /// How far from the start of the wall `point` lies, as a fraction of
    /// the wall's length.
    pub fn dist_along_wall(&mut self, point: (Fixed, Fixed)) -> (r: Option<Fixed>)
        ensures
            *final(self) == *old(self),
            r == fraction(
                distance(old(self).start, point) as int,
                distance(old(self).start, old(self).end) as int,
            ),
    {
        let part: i64 = Wall::calc_length(self.start, point);
        let len: i64 = Wall::calc_length(self.start, self.end);
        if len == 0 {
            return None;
        }
        proof {
            assert(0 <= (part * ONE) / (len as int)) by (nonlinear_arith)
                requires
                    part >= 0,
                    len > 0,
                    ONE > 0,
            ;
            assert(0 <= part * ONE <= 0x7fff_ffff_ffff_ffff * 65536) by (nonlinear_arith)
                requires
                    0 <= part <= 0x7fff_ffff_ffff_ffff,
                    ONE == 65536,
            ;
        }
        let q: i128 = ((part as i128) * (ONE as i128)) / (len as i128);
        if q > i64::MAX as i128 {
            None
        } else {
            Some(q as i64)
        }
    }
}

} // verus!
