//! The tile grid: which cells are walls, and with which texture.

use vstd::prelude::*;
use vstd::arithmetic::div_mod::lemma_fundamental_div_mod_converse;
use crate::cell::{Cell, is_square};
use crate::fixed::{Fixed, ONE};
use crate::wall::Wall;

verus! {

/// The largest width and height of a grid.
pub const MAX_DIM: usize = 32768;

/// A tile that refers to a texture the atlas does not hold.
#[derive(Clone, Copy, Debug, PartialEq, Eq, Structural)]
pub struct TextureError {
    /// Column of the tile.
    pub x: usize,
    /// Row of the tile.
    pub y: usize,
    /// The tile's identifier.
    pub id: u8,
}

/// A grid of tiles, held column by column: `0` is open floor, any other
/// number `n` is a wall that shows texture `n - 1` of the atlas.
pub struct GridMap {
    tiles: Vec<Vec<u8>>,
    cells: Vec<Cell>,
}

/// Length of the side of a cell as a square of wall segments.
pub const CELL_SIDE: Fixed = 85197;

/// Column and row of the walls among the first `k` cells of `g`, counted
/// row after row from the top and along each row from the left.
pub open spec fn wall_places(g: Seq<Seq<u8>>, k: nat) -> Seq<(int, int)>
    decreases k,
{
    if k == 0 {
        Seq::empty()
    } else {
        let before = wall_places(g, (k - 1) as nat);
        let x = (k - 1) % (g.len() as int);
        let y = (k - 1) / (g.len() as int);
        if g[x][y] != 0 {
            before.push((x, y))
        } else {
            before
        }
    }
}

/// Whether `cells` are the walls at `places`, one for one, each at its
/// column and row with a side of [`CELL_SIDE`].
pub open spec fn cells_at(cells: Seq<Cell>, places: Seq<(int, int)>) -> bool {
    &&& cells.len() == places.len()
    &&& forall|i: int|
        0 <= i < cells.len() ==> {
            &&& (#[trigger] cells[i]).pos == ((places[i].0 * ONE) as i64, (places[i].1 * ONE) as i64)
            &&& cells[i].l == CELL_SIDE
        }
}

/// Whether each of `cells` has its four sides in place.
pub open spec fn cells_built(cells: Seq<Cell>) -> bool {
    forall|i: int| 0 <= i < cells.len() ==> is_square(#[trigger] cells[i], cells[i].pos, cells[i].l)
}

impl GridMap {
    /// The tiles, as a sequence of columns.
    pub closed spec fn view(&self) -> Seq<Seq<u8>> {
        Seq::new(self.tiles@.len(), |x: int| self.tiles@[x]@)
    }

    /// The walls of the grid as squares of wall segments, as last derived.
    pub closed spec fn spec_cells(&self) -> Seq<Cell> {
        self.cells@
    }

    /// A grid is rectangular, not empty, and no larger than [`MAX_DIM`] either way.
    pub open spec fn wf(&self) -> bool {
        grid_wf(self@)
    }

    /// Number of columns.
    pub open spec fn spec_width(&self) -> int {
        self@.len() as int
    }

    /// Number of rows.
    pub open spec fn spec_height(&self) -> int {
        self@[0].len() as int
    }

    /// Whether `(x, y)` names a cell of the grid.
    pub open spec fn contains(&self, x: int, y: int) -> bool {
        0 <= x < self.spec_width() && 0 <= y < self.spec_height()
    }

    /// Whether `(x, y)` is a cell of the grid that holds a wall.
    pub open spec fn solid(&self, x: int, y: int) -> bool {
        self.contains(x, y) && self@[x][y] != 0
    }

    /// Whether `(x, y)` is a cell of the grid that holds no wall.
    pub open spec fn open_at(&self, x: int, y: int) -> bool {
        self.contains(x, y) && self@[x][y] == 0
    }

    /// Whether every cell on the rim of the grid is a wall.
    pub open spec fn enclosed(&self) -> bool {
        forall|x: int, y: int|
            self.contains(x, y) && (x == 0 || y == 0 || x == self.spec_width() - 1 || y
                == self.spec_height() - 1) ==> #[trigger] self.solid(x, y)
    }

    /// Whether the cell `(x, y)` shows a texture that an atlas of `atlas_len` entries lacks.
    pub open spec fn bad_texture(&self, x: int, y: int, atlas_len: int) -> bool {
        self.solid(x, y) && self@[x][y] > atlas_len
    }

    /// Whether `e` names the first wall that shows a texture which an atlas
    /// of `atlas_len` entries lacks, going through the columns from the left
    /// and down each column.
    pub open spec fn first_bad_texture(&self, e: TextureError, atlas_len: int) -> bool {
        &&& self.bad_texture(e.x as int, e.y as int, atlas_len)
        &&& e.id == self@[e.x as int][e.y as int]
        &&& forall|x: int, y: int|
            self.contains(x, y) && (x < e.x || (x == e.x && y < e.y)) ==> !#[trigger] self.bad_texture(
                x,
                y,
                atlas_len,
            )
    }

    /// Makes a grid of the given columns; `None` unless they form a rectangle
    /// of at least one cell and at most [`MAX_DIM`] cells either way.
    pub fn new(tiles: Vec<Vec<u8>>) -> (r: Option<GridMap>)
        ensures
            r.is_some() <==> grid_wf(columns_of(tiles)),
            r.is_some() ==> r.unwrap()@ == columns_of(tiles) && r.unwrap().wf()
                && r.unwrap().spec_cells().len() == 0,
    {
        let w: usize = tiles.len();
        if w == 0 || w > MAX_DIM {
            return None;
        }
        let h: usize = tiles[0].len();
        if h == 0 || h > MAX_DIM {
            return None;
        }
        let mut x: usize = 1;
        while x < w
            invariant
                1 <= x <= w,
                w == tiles.len(),
                h == tiles[0].len(),
                forall|i: int| 0 <= i < x ==> (#[trigger] tiles@[i]).len() == h,
            decreases w - x,
        {
            if tiles[x].len() != h {
                proof {
                    assert(columns_of(tiles)[x as int].len() != columns_of(tiles)[0].len());
                }
                return None;
            }
            x = x + 1;
        }
        let g = GridMap { tiles, cells: Vec::new() };
        proof {
            assert(g@ =~= columns_of(g.tiles));
            assert forall|i: int| 0 <= i < g@.len() implies (#[trigger] g@[i]).len() == g@[0].len() by {
                assert(g.tiles@[i].len() == h);
            }
        }
        Some(g)
    }

    /// The walls of the grid as squares of wall segments, as last derived.
    pub fn cells(&self) -> (c: &Vec<Cell>)
        ensures
            c@ == self.spec_cells(),
    {
        &self.cells
    }

    /// Derives the walls of the grid as squares of wall segments: one for
    /// each cell that holds a wall, row after row from the top and along
    /// each row from the left, each with its four sides in place.
    pub fn make_map(&mut self)
        requires
            old(self).wf(),
        ensures
            final(self)@ == old(self)@,
            final(self).wf(),
            cells_at(
                final(self).spec_cells(),
                wall_places(old(self)@, (old(self).spec_width() * old(self).spec_height()) as nat),
            ),
            cells_built(final(self).spec_cells()),
    {
        let w: usize = self.width();
        let h: usize = self.height();
        let mut out: Vec<Cell> = Vec::new();
        let ghost g = self@;
        let mut y: usize = 0;
        while y < h
            invariant
                self.wf(),
                *self == *old(self),
                g == self@,
                w == self.spec_width(),
                h == self.spec_height(),
                0 <= y <= h,
                cells_at(out@, wall_places(g, (y * w) as nat)),
                forall|i: int| 0 <= i < out@.len() ==> (#[trigger] out@[i]).wf(),
            decreases h - y,
        {
            let mut x: usize = 0;
            while x < w
                invariant
                    self.wf(),
                    *self == *old(self),
                    g == self@,
                    w == self.spec_width(),
                    h == self.spec_height(),
                    0 <= y < h,
                    0 <= x <= w,
                    cells_at(out@, wall_places(g, (y * w + x) as nat)),
                    forall|i: int| 0 <= i < out@.len() ==> (#[trigger] out@[i]).wf(),
                decreases w - x,
            {
                proof {
                    assert(0 <= y * w <= (h - 1) * w) by (nonlinear_arith)
                        requires
                            0 <= y < h,
                            w > 0,
                    ;
                    lemma_fundamental_div_mod_converse((y * w + x) as int, w as int, y as int, x as int);
                }
                let t: Option<u8> = self.tile(x as i64, y as i64);
                if t != Some(0u8) {
                    out.push(
                        Cell {
                            walls: [Wall::default(); 4],
                            pos: ((x as i64) * ONE, (y as i64) * ONE),
                            l: CELL_SIDE,
                        },
                    );
                }
                proof {
                    assert((y * w + x + 1) as nat - 1 == y * w + x);
                }
                x = x + 1;
            }
            proof {
                assert((y + 1) * w == y * w + w) by (nonlinear_arith);
            }
            y = y + 1;
        }
        proof {
            assert(h * w == w * h) by (nonlinear_arith);
        }
        self.cells = out;
        self.build_all_cell_walls();
    }

    /// Puts the four sides of every derived cell in place.
    fn build_all_cell_walls(&mut self)
        requires
            forall|i: int| 0 <= i < old(self).spec_cells().len() ==> (#[trigger] old(self).spec_cells()[i]).wf(),
        ensures
            final(self)@ == old(self)@,
            final(self).spec_cells().len() == old(self).spec_cells().len(),
            forall|i: int|
                0 <= i < old(self).spec_cells().len() ==> {
                    &&& (#[trigger] final(self).spec_cells()[i]).pos == old(self).spec_cells()[i].pos
                    &&& final(self).spec_cells()[i].l == old(self).spec_cells()[i].l
                },
            cells_built(final(self).spec_cells()),
    {
        let n: usize = self.cells.len();
        let mut i: usize = 0;
        while i < n
            invariant
                self@ == old(self)@,
                n == self.spec_cells().len(),
                n == old(self).spec_cells().len(),
                0 <= i <= n,
                forall|k: int| 0 <= k < n ==> (#[trigger] old(self).spec_cells()[k]).wf(),
                forall|k: int|
                    0 <= k < n ==> {
                        &&& (#[trigger] self.spec_cells()[k]).pos == old(self).spec_cells()[k].pos
                        &&& self.spec_cells()[k].l == old(self).spec_cells()[k].l
                    },
                forall|k: int|
                    0 <= k < i ==> is_square(
                        #[trigger] self.spec_cells()[k],
                        self.spec_cells()[k].pos,
                        self.spec_cells()[k].l,
                    ),
            decreases n - i,
        {
            let mut c: Cell = self.cells[i];
            c.create_walls();
            self.cells.set(i, c);
            i = i + 1;
        }
    }

    /// Number of columns.
    pub fn width(&self) -> (w: usize)
        requires
            self.wf(),
        ensures
            w == self.spec_width(),
            1 <= w <= MAX_DIM,
    {
        self.tiles.len()
    }

    /// Number of rows.
    pub fn height(&self) -> (h: usize)
        requires
            self.wf(),
        ensures
            h == self.spec_height(),
            1 <= h <= MAX_DIM,
    {
        self.tiles[0].len()
    }

    /// The tile at `(x, y)`, or `None` where the grid has no such cell.
    pub fn tile(&self, x: i64, y: i64) -> (t: Option<u8>)
        requires
            self.wf(),
        ensures
            t.is_some() <==> self.contains(x as int, y as int),
            t.is_some() ==> t.unwrap() == self@[x as int][y as int],
    {
        if x < 0 || y < 0 {
            return None;
        }
        let w: usize = self.width();
        let h: usize = self.height();
        if x >= w as i64 || y >= h as i64 {
            return None;
        }
        let xu: usize = x as usize;
        let yu: usize = y as usize;
        proof {
            assert(self@[xu as int].len() == self@[0].len());
            assert(self@[xu as int] == self.tiles@[xu as int]@);
        }
        Some(self.tiles[xu][yu])
    }

    /// In an enclosed grid an open cell is not on the rim.
    pub proof fn lemma_open_off_rim(&self, x: int, y: int)
        requires
            self.open_at(x, y),
        ensures
            self.enclosed() ==> 1 <= x <= self.spec_width() - 2 && 1 <= y <= self.spec_height() - 2,
    {
        if self.enclosed() {
            assert(!self.solid(x, y));
        }
    }

    /// Whether every cell on the rim of the grid is a wall.
    pub fn is_enclosed(&self) -> (b: bool)
        requires
            self.wf(),
        ensures
            b == self.enclosed(),
    {
        let w: usize = self.width();
        let h: usize = self.height();
        let mut x: usize = 0;
        while x < w
            invariant
                self.wf(),
                w == self.spec_width(),
                h == self.spec_height(),
                0 <= x <= w,
                forall|i: int, j: int|
                    0 <= i < x && 0 <= j < h && (i == 0 || j == 0 || i == w - 1 || j == h - 1)
                        ==> #[trigger] self.solid(i, j),
            decreases w - x,
        {
            let mut y: usize = 0;
            while y < h
                invariant
                    self.wf(),
                    w == self.spec_width(),
                    h == self.spec_height(),
                    0 <= x < w,
                    0 <= y <= h,
                    forall|i: int, j: int|
                        0 <= i < x && 0 <= j < h && (i == 0 || j == 0 || i == w - 1 || j == h - 1)
                            ==> #[trigger] self.solid(i, j),
                    forall|j: int|
                        0 <= j < y && (x == 0 || j == 0 || x == w - 1 || j == h - 1)
                            ==> #[trigger] self.solid(x as int, j),
                decreases h - y,
            {
                if x == 0 || y == 0 || x == w - 1 || y == h - 1 {
                    let t: Option<u8> = self.tile(x as i64, y as i64);
                    if t == Some(0u8) {
                        proof {
                            assert(!self.solid(x as int, y as int));
                        }
                        return false;
                    }
                }
                y = y + 1;
            }
            x = x + 1;
        }
        true
    }

    /// Looks for a wall that shows a texture which an atlas of `atlas_len`
    /// entries lacks. Fails with the first such wall, going through the
    /// columns from the left and down each column.
    pub fn check_textures(&self, atlas_len: usize) -> (r: Result<(), TextureError>)
        requires
            self.wf(),
        ensures
            r.is_ok() <==> forall|x: int, y: int|
                self.contains(x, y) ==> !#[trigger] self.bad_texture(x, y, atlas_len as int),
            r.is_err() ==> self.first_bad_texture(r.unwrap_err(), atlas_len as int),
    {
        let w: usize = self.width();
        let h: usize = self.height();
        let mut x: usize = 0;
        while x < w
            invariant
                self.wf(),
                w == self.spec_width(),
                h == self.spec_height(),
                0 <= x <= w,
                forall|i: int, j: int|
                    0 <= i < x && 0 <= j < h ==> !#[trigger] self.bad_texture(i, j, atlas_len as int),
            decreases w - x,
        {
            let mut y: usize = 0;
            while y < h
                invariant
                    self.wf(),
                    w == self.spec_width(),
                    h == self.spec_height(),
                    0 <= x < w,
                    0 <= y <= h,
                    forall|i: int, j: int|
                        0 <= i < x && 0 <= j < h ==> !#[trigger] self.bad_texture(
                            i,
                            j,
                            atlas_len as int,
                        ),
                    forall|j: int|
                        0 <= j < y ==> !#[trigger] self.bad_texture(x as int, j, atlas_len as int),
                decreases h - y,
            {
                match self.tile(x as i64, y as i64) {
                    Some(t) => {
                        if t as usize > atlas_len {
                            proof {
                                assert(self.bad_texture(x as int, y as int, atlas_len as int));
                            }
                            return Err(TextureError { x, y, id: t });
                        }
                    },
                    None => {},
                }
                y = y + 1;
            }
            x = x + 1;
        }
        Ok(())
    }

    /// Whether `(x, y)` is a cell of the grid without a wall.
    pub fn is_open(&self, x: i64, y: i64) -> (b: bool)
        requires
            self.wf(),
        ensures
            b == self.open_at(x as int, y as int),
    {
        match self.tile(x, y) {
            Some(t) => t == 0,
            None => false,
        }
    }
}

/// The columns of a nested vector, as sequences.
pub open spec fn columns_of(tiles: Vec<Vec<u8>>) -> Seq<Seq<u8>> {
    Seq::new(tiles@.len(), |x: int| tiles@[x]@)
}

/// Whether `g` is a rectangle of at least one cell, at most [`MAX_DIM`] wide and high.
pub open spec fn grid_wf(g: Seq<Seq<u8>>) -> bool {
    &&& 1 <= g.len() <= MAX_DIM
    &&& 1 <= g[0].len() <= MAX_DIM
    &&& forall|x: int| 0 <= x < g.len() ==> (#[trigger] g[x]).len() == g[0].len()
}

} // verus!
