//! Cells of the grid as squares of four wall segments.

use vstd::prelude::*;
use crate::fixed::{Fixed, ONE, lemma_mul_bound, mul_floor, mul_spec};
use crate::grid::MAX_DIM;
use crate::wall::Wall;

verus! {

/// The largest magnitude of the side of a cell.
pub const MAX_SIDE: i64 = 0x8000_0000;

/// A cell of the grid that holds a wall, as a square.
#[derive(Clone, Copy, Debug)]
pub struct Cell {
    /// The four sides: top, right, bottom, left.
    pub walls: [Wall; 4],
    /// Column and row of the cell.
    pub pos: (Fixed, Fixed),
    /// Length of a side.
    pub l: Fixed,
}

/// The corner of the cell at `pos` with the smallest coordinates, for cells of side `l`.
pub open spec fn corner(pos: (Fixed, Fixed), l: Fixed) -> (int, int) {
    (mul_spec(pos.0 as int, l as int), mul_spec(pos.1 as int, l as int))
}

/// The wall from `(ax, ay)` to `(bx, by)`.
pub open spec fn wall_from(ax: int, ay: int, bx: int, by: int) -> Wall {
    Wall { start: (ax as i64, ay as i64), end: (bx as i64, by as i64) }
}

/// Side `i` of the square of side `l` whose corner of smallest coordinates
/// is `c`: the top, the right, the bottom and the left side, in this order.
pub open spec fn side_of(c: (int, int), l: int, i: int) -> Wall {
    if i == 0 {
        wall_from(c.0, c.1, c.0 + l, c.1)
    } else if i == 1 {
        wall_from(c.0 + l, c.1, c.0 + l, c.1 + l)
    } else if i == 2 {
        wall_from(c.0, c.1 + l, c.0 + l, c.1 + l)
    } else {
        wall_from(c.0, c.1, c.0, c.1 + l)
    }
}

/// Whether `cell` is the cell at `pos` of side `l` with its four sides in place.
pub open spec fn is_square(cell: Cell, pos: (Fixed, Fixed), l: Fixed) -> bool {
    &&& cell.pos == pos
    &&& cell.l == l
    &&& forall|i: int| 0 <= i < 4 ==> #[trigger] cell.walls@[i] == side_of(corner(pos, l), l as int, i)
}

impl Cell {
    /// Whether the place and the side are small enough for the corners to be worked out.
    pub open spec fn wf(&self) -> bool {
        &&& -MAX_DIM * ONE <= self.pos.0 <= MAX_DIM * ONE
        &&& -MAX_DIM * ONE <= self.pos.1 <= MAX_DIM * ONE
        &&& -MAX_SIDE <= self.l <= MAX_SIDE
    }

    /// Puts the four sides of the cell in place, around the square that
    /// its column, its row and the length of its side give.
    pub fn create_walls(&mut self)
        requires
            old(self).wf(),
        ensures
            is_square(*final(self), old(self).pos, old(self).l),
    {
        proof {
            lemma_mul_bound(self.pos.0 as int, self.l as int, 0x8000_0000, 0x8000_0000);
            lemma_mul_bound(self.pos.1 as int, self.l as int, 0x8000_0000, 0x8000_0000);
            assert(MAX_DIM * ONE == 0x8000_0000);
        }
        let x: i64 = mul_floor(self.pos.0, self.l);
        let y: i64 = mul_floor(self.pos.1, self.l);
        let l: i64 = self.l;
        self.walls = [
            Wall { start: (x, y), end: (x + l, y) },
            Wall { start: (x + l, y), end: (x + l, y + l) },
            Wall { start: (x, y + l), end: (x + l, y + l) },
            Wall { start: (x, y), end: (x, y + l) },
        ];
    }
}

} // verus!
