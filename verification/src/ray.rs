//! One ray of the fan: the walk through the grid that finds its wall.

use vstd::prelude::*;
use vstd::arithmetic::div_mod::lemma_fundamental_div_mod;
use vstd::arithmetic::div_mod::lemma_div_is_ordered;
use crate::fixed::{Fixed, LIMIT, ONE, distance, floor, floor_div, floor_spec, in_range, lemma_mul_bound, lemma_product_bound, length_between, mul_floor, mul_spec};
use crate::grid::{GridMap, MAX_DIM};

verus! {

/// What stands for the distance between two crossings of a ray that runs
/// along the grid lines of one axis and never crosses them.
pub const FAR: i64 = 655_360_000;

/// Width and height of a texture, in pixels.
pub const TEX_SIZE: i64 = 256;

/// A ray of the fan, with what its cast found.
#[derive(Clone, Copy, Debug)]
pub struct Ray {
    /// Where the ray starts.
    pub start: (Fixed, Fixed),
    /// Where the ray ends: on the wall, once it is cast.
    pub end: (Fixed, Fixed),
    /// Heading in degrees, from 0 up to 360.
    pub angle: Fixed,
    /// Distance to the wall, measured along the direction of view.
    pub length: Fixed,
    /// How far the ray reaches at most.
    pub max_length: Fixed,
    /// Whether the ray met a wall.
    pub collided: bool,
    /// `0` where the ray entered the wall across a grid line of constant x, else `1`.
    pub side: u8,
    /// The tile that the ray met.
    pub texture_index: u8,
    /// Texture column at the point of the wall that the ray met.
    pub texture_pos: i32,
}

/// Horizontal place of column `r` of `rc` on the camera plane, from -1 up to 1.
pub open spec fn camera_x(r: int, rc: int) -> int {
    (2 * r * ONE) / rc - ONE
}

/// One component of the direction of the ray at `cx` on the camera plane.
pub open spec fn ray_dir(dir: int, plane: int, cx: int) -> int {
    dir + mul_spec(plane, cx)
}

/// Distance along the ray between two crossings of grid lines of one axis,
/// for the component `rd` of the ray's direction on that axis.
pub open spec fn delta_dist(rd: int) -> int {
    if rd == 0 {
        FAR as int
    } else if rd < 0 {
        (ONE * ONE) / (-rd)
    } else {
        (ONE * ONE) / rd
    }
}

/// The change of the cell coordinate at a crossing: -1 or 1.
pub open spec fn grid_step(rd: int) -> int {
    if rd < 0 {
        -1
    } else {
        1
    }
}

/// Distance along the ray from `pos` to the first grid line of one axis.
pub open spec fn first_side_dist(pos: int, rd: int) -> int {
    let cell = floor_spec(pos);
    if rd < 0 {
        mul_spec(pos - cell * ONE, delta_dist(rd))
    } else {
        mul_spec((cell + 1) * ONE - pos, delta_dist(rd))
    }
}

/// A point of the walk of a ray through the grid.
pub struct Walk {
    /// Column of the cell reached.
    pub map_x: int,
    /// Row of the cell reached.
    pub map_y: int,
    /// Distance along the ray to the next grid line of constant x.
    pub side_x: int,
    /// Distance along the ray to the next grid line of constant y.
    pub side_y: int,
    /// Axis of the grid line crossed last: `0` for x, `1` for y.
    pub side: int,
}

/// The walk before its first step, for a ray from `pos` with direction `rd`.
pub open spec fn walk_start(pos: (int, int), rd: (int, int)) -> Walk {
    Walk {
        map_x: floor_spec(pos.0),
        map_y: floor_spec(pos.1),
        side_x: first_side_dist(pos.0, rd.0),
        side_y: first_side_dist(pos.1, rd.1),
        side: 0,
    }
}

/// One step of the walk: across the nearer grid line, into the next cell.
pub open spec fn walk_step(w: Walk, rd: (int, int)) -> Walk {
    if w.side_x < w.side_y {
        Walk {
            map_x: w.map_x + grid_step(rd.0),
            side_x: w.side_x + delta_dist(rd.0),
            side: 0,
            ..w
        }
    } else {
        Walk {
            map_y: w.map_y + grid_step(rd.1),
            side_y: w.side_y + delta_dist(rd.1),
            side: 1,
            ..w
        }
    }
}

/// The walk after `n` steps.
pub open spec fn walk_after(w: Walk, rd: (int, int), n: nat) -> Walk
    decreases n,
{
    if n == 0 {
        w
    } else {
        walk_step(walk_after(w, rd, (n - 1) as nat), rd)
    }
}

/// Number of steps after which the walk from `w` stands in a wall of `map`,
/// where it takes `fuel` steps at most.
pub open spec fn steps_to_wall(map: &GridMap, w: Walk, rd: (int, int), fuel: nat) -> nat
    decreases fuel,
{
    if fuel == 0 {
        0
    } else {
        let n = walk_step(w, rd);
        if map.solid(n.map_x, n.map_y) {
            1
        } else {
            1 + steps_to_wall(map, n, rd, (fuel - 1) as nat)
        }
    }
}

/// Distance from the camera to the grid line crossed last, along the direction of view.
pub open spec fn perp_dist(w: Walk, rd: (int, int)) -> int {
    if w.side == 0 {
        w.side_x - delta_dist(rd.0)
    } else {
        w.side_y - delta_dist(rd.1)
    }
}

/// The point at distance `perp` along the ray from `pos`.
pub open spec fn hit_point(pos: (int, int), rd: (int, int), perp: int) -> (int, int) {
    (pos.0 + mul_spec(perp, rd.0), pos.1 + mul_spec(perp, rd.1))
}

/// Texture column shown at `hit` on a wall face: the place along the face,
/// mirrored where the ray runs toward greater x onto a face of constant x or
/// toward smaller y onto a face of constant y.
pub open spec fn texture_column(side: int, rd: (int, int), hit: (int, int)) -> int {
    let along = if side == 0 {
        hit.1
    } else {
        hit.0
    };
    let col = ((along % (ONE as int)) * TEX_SIZE) / (ONE as int);
    if (side == 0 && rd.0 > 0) || (side != 0 && rd.1 < 0) {
        TEX_SIZE - col - 1
    } else {
        col
    }
}

/// The ray that a walk ending at `w` in a wall of tile `tile` records.
pub open spec fn ray_of_walk(pos: (int, int), rd: (int, int), w: Walk, tile: u8) -> Ray {
    let perp = perp_dist(w, rd);
    let hit = hit_point(pos, rd, perp);
    Ray {
        start: (pos.0 as i64, pos.1 as i64),
        end: (hit.0 as i64, hit.1 as i64),
        angle: 0,
        length: perp as i64,
        max_length: 0,
        collided: true,
        side: w.side as u8,
        texture_index: tile,
        texture_pos: texture_column(w.side, rd, hit) as i32,
    }
}

/// The most steps that a walk takes in `map` before it stands in a wall.
pub open spec fn step_limit(map: &GridMap) -> nat {
    (map.spec_width() + map.spec_height()) as nat
}

/// Where the walk of the ray from `pos` with direction `rd` ends in `map`.
pub open spec fn wall_walk(map: &GridMap, pos: (int, int), rd: (int, int)) -> Walk {
    let start = walk_start(pos, rd);
    walk_after(start, rd, steps_to_wall(map, start, rd, step_limit(map)))
}

/// What the ray from `pos` with direction `rd` finds in `map`.
pub open spec fn cast_spec(map: &GridMap, pos: (int, int), rd: (int, int)) -> Ray {
    let w = wall_walk(map, pos, rd);
    ray_of_walk(pos, rd, w, map@[w.map_x][w.map_y])
}

/// The largest magnitude of a component of a ray's direction.
pub const MAX_RAY: i64 = 0x40_0000;

/// Whether a ray's direction is within [`MAX_RAY`].
pub open spec fn ray_ok(rd: (Fixed, Fixed)) -> bool {
    &&& -MAX_RAY <= rd.0 <= MAX_RAY
    &&& -MAX_RAY <= rd.1 <= MAX_RAY
}

/// Whether `pos` lies in a cell of `map` that is not on its rim.
pub open spec fn within(map: &GridMap, pos: (Fixed, Fixed)) -> bool {
    &&& 1 <= floor_spec(pos.0 as int) <= map.spec_width() - 2
    &&& 1 <= floor_spec(pos.1 as int) <= map.spec_height() - 2
}

/// Distance along the ray between two crossings of grid lines of one axis.
pub fn delta(rd: Fixed) -> (d: Fixed)
    requires
        -MAX_RAY <= rd <= MAX_RAY,
    ensures
        d == delta_dist(rd as int),
        0 < d <= 0x1_0000_0000,
{
    if rd == 0 {
        FAR
    } else {
        let m: i64 = if rd < 0 {
            -rd
        } else {
            rd
        };
        proof {
            vstd::arithmetic::div_mod::lemma_div_is_ordered_by_denominator(
                0x1_0000_0000,
                m as int,
                MAX_RAY as int,
            );
            vstd::arithmetic::div_mod::lemma_div_is_ordered_by_denominator(
                0x1_0000_0000,
                1,
                m as int,
            );
        }
        (ONE * ONE) / m
    }
}

/// Distance along the ray from `pos` to the first grid line of one axis.
pub fn first_side(pos: Fixed, rd: Fixed) -> (s: Fixed)
    requires
        0 <= pos < MAX_DIM * ONE,
        -MAX_RAY <= rd <= MAX_RAY,
    ensures
        s == first_side_dist(pos as int, rd as int),
        0 <= s <= delta_dist(rd as int),
{
    let d: i64 = delta(rd);
    let cell: i64 = floor(pos);
    let part: i64 = if rd < 0 {
        pos - cell * ONE
    } else {
        (cell + 1) * ONE - pos
    };
    proof {
        assert(0 <= part * d <= ONE * d) by (nonlinear_arith)
            requires
                0 <= part <= ONE,
                0 < d,
        ;
        lemma_div_is_ordered(0, part * d, ONE as int);
        lemma_div_is_ordered(part * d, ONE * d, ONE as int);
        vstd::arithmetic::div_mod::lemma_div_multiples_vanish(d as int, ONE as int);
    }
    mul_floor(part, d)
}

/// The walk that stands at the given cell with the given distances.
pub open spec fn walk_of(map_x: i64, map_y: i64, side_x: i64, side_y: i64, side: u8) -> Walk {
    Walk {
        map_x: map_x as int,
        map_y: map_y as int,
        side_x: side_x as int,
        side_y: side_y as int,
        side: side as int,
    }
}

/// Number of cells between `cell` and the rim of the grid, along the way that `rd` steps.
pub open spec fn cells_left(cell: int, rd: int, size: int) -> int {
    if rd < 0 {
        cell
    } else {
        size - 1 - cell
    }
}

/// Casts the ray from `pos` with direction `rd`: walks from cell to cell
/// across the nearer grid line until the cell is a wall of `map`.
pub fn cast(map: &GridMap, pos: (Fixed, Fixed), rd: (Fixed, Fixed)) -> (ray: Ray)
    requires
        map.wf(),
        map.enclosed(),
        within(map, pos),
        ray_ok(rd),
    ensures
        ray == cast_spec(map, (pos.0 as int, pos.1 as int), (rd.0 as int, rd.1 as int)),
        map.solid(
            wall_walk(map, (pos.0 as int, pos.1 as int), (rd.0 as int, rd.1 as int)).map_x,
            wall_walk(map, (pos.0 as int, pos.1 as int), (rd.0 as int, rd.1 as int)).map_y,
        ),
        ray.texture_index >= 1,
        0 <= ray.texture_pos < TEX_SIZE,
        0 <= ray.length <= 0x2_0000_0000_0000,
        ray.side <= 1,
{
    let w: i64 = map.width() as i64;
    let h: i64 = map.height() as i64;
    let dx: i64 = delta(rd.0);
    let dy: i64 = delta(rd.1);
    let step_x: i64 = if rd.0 < 0 {
        -1
    } else {
        1
    };
    let step_y: i64 = if rd.1 < 0 {
        -1
    } else {
        1
    };
    let mut map_x: i64 = floor(pos.0);
    let mut map_y: i64 = floor(pos.1);
    let mut side_x: i64 = first_side(pos.0, rd.0);
    let mut side_y: i64 = first_side(pos.1, rd.1);
    let mut side: u8 = 0;
    let mut tile: u8 = 0;
    let mut hit: bool = false;
    let ghost posi = (pos.0 as int, pos.1 as int);
    let ghost rdi = (rd.0 as int, rd.1 as int);
    let ghost start = walk_start(posi, rdi);
    let ghost mut k: nat = 0;
    while !hit
        invariant
            map.wf(),
            map.enclosed(),
            w == map.spec_width(),
            h == map.spec_height(),
            rdi == (rd.0 as int, rd.1 as int),
            dx == delta_dist(rdi.0),
            dy == delta_dist(rdi.1),
            0 < dx <= 0x1_0000_0000,
            0 < dy <= 0x1_0000_0000,
            step_x == grid_step(rdi.0),
            step_y == grid_step(rdi.1),
            walk_of(map_x, map_y, side_x, side_y, side) == walk_after(start, rdi, k),
            0 <= side_x <= (k + 1) * 0x1_0000_0000,
            0 <= side_y <= (k + 1) * 0x1_0000_0000,
            0 <= map_x <= w - 1,
            0 <= map_y <= h - 1,
            k + cells_left(map_x as int, rdi.0, w as int) + cells_left(map_y as int, rdi.1, h as int)
                <= w + h,
            side <= 1,
            !hit ==> 1 <= map_x <= w - 2 && 1 <= map_y <= h - 2 && steps_to_wall(
                map,
                start,
                rdi,
                step_limit(map),
            ) == k + steps_to_wall(
                map,
                walk_after(start, rdi, k),
                rdi,
                (step_limit(map) - k) as nat,
            ),
            hit ==> map.solid(map_x as int, map_y as int) && tile == map@[map_x as int][map_y as int]
                && steps_to_wall(map, start, rdi, step_limit(map)) == k && (side == 0 ==> side_x
                >= dx) && (side == 1 ==> side_y >= dy),
        decreases
            cells_left(map_x as int, rdi.0, w as int) + cells_left(map_y as int, rdi.1, h as int) + (if hit { 0int } else { 1int }),
    {
        let ghost before = walk_after(start, rdi, k);
        if side_x < side_y {
            side_x = side_x + dx;
            map_x = map_x + step_x;
            side = 0;
        } else {
            side_y = side_y + dy;
            map_y = map_y + step_y;
            side = 1;
        }
        proof {
            assert(walk_of(map_x, map_y, side_x, side_y, side) == walk_step(before, rdi));
            k = k + 1;
        }
        match map.tile(map_x, map_y) {
            Some(t) => {
                if t > 0 {
                    hit = true;
                    tile = t;
                }
            },
            None => {},
        }
        proof {
            if !hit {
                assert(!map.solid(map_x as int, map_y as int));
            }
        }
    }
    let perp: i64 = if side == 0 {
        side_x - dx
    } else {
        side_y - dy
    };
    proof {
        assert(k <= w + h);
        lemma_mul_bound(perp as int, rd.0 as int, 0x2_0000_0000_0000, MAX_RAY as int);
        lemma_mul_bound(perp as int, rd.1 as int, 0x2_0000_0000_0000, MAX_RAY as int);
    }
    let end_x: i64 = pos.0 + mul_floor(perp, rd.0);
    let end_y: i64 = pos.1 + mul_floor(perp, rd.1);
    let along: i64 = if side == 0 {
        end_y
    } else {
        end_x
    };
    let whole: i64 = floor(along);
    let part: i64 = along - whole * ONE;
    proof {
        lemma_fundamental_div_mod(along as int, ONE as int);
        assert(part == (along as int) % (ONE as int));
    }
    let col: i64 = (part * TEX_SIZE) / ONE;
    let tex: i64 = if (side == 0 && rd.0 > 0) || (side != 0 && rd.1 < 0) {
        TEX_SIZE - col - 1
    } else {
        col
    };
    Ray {
        start: pos,
        end: (end_x, end_y),
        angle: 0,
        length: perp,
        max_length: 0,
        collided: true,
        side,
        texture_index: tile,
        texture_pos: tex as i32,
    }
}

/// The walk after one step and `n` more is the walk after `n + 1` steps.
pub proof fn lemma_walk_shift(w: Walk, rd: (int, int), n: nat)
    ensures
        walk_after(w, rd, n + 1) == walk_after(walk_step(w, rd), rd, n),
    decreases n,
{
    assert(walk_after(w, rd, n + 1) == walk_step(walk_after(w, rd, ((n + 1) - 1) as nat), rd));
    if n > 0 {
        lemma_walk_shift(w, rd, (n - 1) as nat);
        assert(walk_after(walk_step(w, rd), rd, n) == walk_step(
            walk_after(walk_step(w, rd), rd, (n - 1) as nat),
            rd,
        ));
    } else {
        assert(walk_after(w, rd, 0) == w);
        assert(walk_after(walk_step(w, rd), rd, 0) == walk_step(w, rd));
    }
}

/// From a cell off the rim of an enclosed grid, the walk stands in a wall
/// after the counted number of steps and in none before, and that number is
/// below the number of cells left to the rim along both axes together.
pub proof fn lemma_steps_to_wall(map: &GridMap, w: Walk, rd: (int, int), fuel: nat)
    requires
        map.wf(),
        map.enclosed(),
        1 <= w.map_x <= map.spec_width() - 2,
        1 <= w.map_y <= map.spec_height() - 2,
        cells_left(w.map_x, rd.0, map.spec_width()) + cells_left(w.map_y, rd.1, map.spec_height())
            <= fuel + 1,
    ensures
        1 <= steps_to_wall(map, w, rd, fuel),
        steps_to_wall(map, w, rd, fuel) + 1 <= cells_left(w.map_x, rd.0, map.spec_width())
            + cells_left(w.map_y, rd.1, map.spec_height()),
        map.solid(
            walk_after(w, rd, steps_to_wall(map, w, rd, fuel)).map_x,
            walk_after(w, rd, steps_to_wall(map, w, rd, fuel)).map_y,
        ),
        forall|j: nat|
            1 <= j < steps_to_wall(map, w, rd, fuel) ==> !map.solid(
                (#[trigger] walk_after(w, rd, j)).map_x,
                walk_after(w, rd, j).map_y,
            ),
    decreases fuel,
{
    let next = walk_step(w, rd);
    assert(walk_after(w, rd, 1) == walk_step(walk_after(w, rd, 0), rd));
    assert(map.contains(next.map_x, next.map_y));
    if map.solid(next.map_x, next.map_y) {
    } else {
        lemma_steps_to_wall(map, next, rd, (fuel - 1) as nat);
        let n = steps_to_wall(map, w, rd, fuel);
        let m = steps_to_wall(map, next, rd, (fuel - 1) as nat);
        assert(n == m + 1);
        lemma_walk_shift(w, rd, m);
        assert forall|j: nat| 1 <= j < n implies !map.solid(
            (#[trigger] walk_after(w, rd, j)).map_x,
            walk_after(w, rd, j).map_y,
        ) by {
            if j > 1 {
                lemma_walk_shift(w, rd, (j - 1) as nat);
            }
        }
    }
}

/// In an enclosed grid the walk of a ray that starts off the rim ends in a
/// wall after at most as many steps as the grid is wide and high together,
/// whatever the ray's direction, and passes through no wall before.
pub proof fn lemma_cast_terminates(map: &GridMap, pos: (int, int), rd: (int, int))
    requires
        map.wf(),
        map.enclosed(),
        1 <= floor_spec(pos.0) <= map.spec_width() - 2,
        1 <= floor_spec(pos.1) <= map.spec_height() - 2,
    ensures
        1 <= steps_to_wall(map, walk_start(pos, rd), rd, step_limit(map)) <= map.spec_width()
            + map.spec_height(),
        map.solid(wall_walk(map, pos, rd).map_x, wall_walk(map, pos, rd).map_y),
        forall|j: nat|
            1 <= j < steps_to_wall(map, walk_start(pos, rd), rd, step_limit(map)) ==> !map.solid(
                (#[trigger] walk_after(walk_start(pos, rd), rd, j)).map_x,
                walk_after(walk_start(pos, rd), rd, j).map_y,
            ),
{
    lemma_steps_to_wall(map, walk_start(pos, rd), rd, step_limit(map));
}

/// Where the walk stands in a wall after `n` steps and in none before, and
/// may take that many steps, `n` is the number of steps counted.
pub proof fn lemma_steps_exact(map: &GridMap, w: Walk, rd: (int, int), fuel: nat, n: nat)
    requires
        1 <= n <= fuel,
        map.solid(walk_after(w, rd, n).map_x, walk_after(w, rd, n).map_y),
        forall|j: nat|
            1 <= j < n ==> !map.solid((#[trigger] walk_after(w, rd, j)).map_x, walk_after(w, rd, j).map_y),
    ensures
        steps_to_wall(map, w, rd, fuel) == n,
    decreases n,
{
    let next = walk_step(w, rd);
    assert(walk_after(w, rd, 1) == walk_step(walk_after(w, rd, 0), rd));
    if n > 1 {
        assert(!map.solid(walk_after(w, rd, 1).map_x, walk_after(w, rd, 1).map_y));
        assert forall|j: nat| 1 <= j < n - 1 implies !map.solid(
            (#[trigger] walk_after(next, rd, j)).map_x,
            walk_after(next, rd, j).map_y,
        ) by {
            lemma_walk_shift(w, rd, j);
            assert(!map.solid(walk_after(w, rd, j + 1).map_x, walk_after(w, rd, j + 1).map_y));
        }
        lemma_walk_shift(w, rd, (n - 1) as nat);
        lemma_steps_exact(map, next, rd, (fuel - 1) as nat, (n - 1) as nat);
    }
}

/// A walk that starts nearer to a grid line of constant x than to one of
/// constant y, by more than `n - 1` crossings, goes straight along x for `n` steps.
pub proof fn lemma_walk_along_x(w: Walk, rd: (int, int), n: nat)
    requires
        delta_dist(rd.0) >= 0,
        w.side_x + (n - 1) * delta_dist(rd.0) < w.side_y,
    ensures
        walk_after(w, rd, n).map_x == w.map_x + n * grid_step(rd.0),
        walk_after(w, rd, n).map_y == w.map_y,
        walk_after(w, rd, n).side_x == w.side_x + n * delta_dist(rd.0),
        walk_after(w, rd, n).side_y == w.side_y,
        n >= 1 ==> walk_after(w, rd, n).side == 0,
    decreases n,
{
    if n > 0 {
        let d = delta_dist(rd.0);
        assert((n - 2) * d <= (n - 1) * d) by (nonlinear_arith)
            requires
                d >= 0,
        ;
        lemma_walk_along_x(w, rd, (n - 1) as nat);
        let before = walk_after(w, rd, (n - 1) as nat);
        assert(walk_after(w, rd, n) == walk_step(before, rd));
        assert(before.side_x < before.side_y);
        assert((n - 1) * d + d == n * d) by (nonlinear_arith);
        assert((n - 1) * grid_step(rd.0) + grid_step(rd.0) == n * grid_step(rd.0)) by (nonlinear_arith);
    }
}

/// A walk that starts no farther from a grid line of constant y than from
/// one of constant x, even after `n - 1` crossings, goes straight along y
/// for `n` steps.
pub proof fn lemma_walk_along_y(w: Walk, rd: (int, int), n: nat)
    requires
        delta_dist(rd.1) >= 0,
        w.side_y + (n - 1) * delta_dist(rd.1) <= w.side_x,
    ensures
        walk_after(w, rd, n).map_y == w.map_y + n * grid_step(rd.1),
        walk_after(w, rd, n).map_x == w.map_x,
        walk_after(w, rd, n).side_y == w.side_y + n * delta_dist(rd.1),
        walk_after(w, rd, n).side_x == w.side_x,
        n >= 1 ==> walk_after(w, rd, n).side == 1,
    decreases n,
{
    if n > 0 {
        let d = delta_dist(rd.1);
        assert((n - 2) * d <= (n - 1) * d) by (nonlinear_arith)
            requires
                d >= 0,
        ;
        lemma_walk_along_y(w, rd, (n - 1) as nat);
        let before = walk_after(w, rd, (n - 1) as nat);
        assert(walk_after(w, rd, n) == walk_step(before, rd));
        assert(!(before.side_x < before.side_y));
        assert((n - 1) * d + d == n * d) by (nonlinear_arith);
        assert((n - 1) * grid_step(rd.1) + grid_step(rd.1) == n * grid_step(rd.1)) by (nonlinear_arith);
    }
}

/// The distance that a ray along the x axis records, head-on to a wall:
/// where the `n`-th cell from the camera's is a wall, none before it is, and
/// the ray does not run so close along a grid line of constant y that the
/// far distance [`FAR`] falls short of the way, the ray ends in that wall,
/// across a grid line of constant x, at the distance of the wall's face. For
/// a direction of length one that is the distance from the camera to the
/// face in cells.
pub proof fn lemma_head_on_x(map: &GridMap, pos: (int, int), rdx: int, n: nat)
    requires
        rdx != 0,
        1 <= n <= step_limit(map),
        map.solid(floor_spec(pos.0) + n * grid_step(rdx), floor_spec(pos.1)),
        forall|j: nat|
            1 <= j < n ==> !#[trigger] map.solid(floor_spec(pos.0) + j * grid_step(rdx), floor_spec(pos.1)),
        first_side_dist(pos.0, rdx) + (n - 1) * delta_dist(rdx) < first_side_dist(pos.1, 0),
    ensures
        wall_walk(map, pos, (rdx, 0)).side == 0,
        wall_walk(map, pos, (rdx, 0)).map_x == floor_spec(pos.0) + n * grid_step(rdx),
        wall_walk(map, pos, (rdx, 0)).map_y == floor_spec(pos.1),
        perp_dist(wall_walk(map, pos, (rdx, 0)), (rdx, 0)) == first_side_dist(pos.0, rdx) + (n - 1)
            * delta_dist(rdx),
        rdx == -ONE ==> perp_dist(wall_walk(map, pos, (rdx, 0)), (rdx, 0)) == pos.0 - (floor_spec(pos.0)
            - n + 1) * ONE,
        rdx == ONE ==> perp_dist(wall_walk(map, pos, (rdx, 0)), (rdx, 0)) == (floor_spec(pos.0) + n)
            * ONE - pos.0,
{
    let rd = (rdx, 0int);
    let start = walk_start(pos, rd);
    let d = delta_dist(rdx);
    assert(d >= 0) by {
        if rdx < 0 {
            assert((ONE * ONE) / (-rdx) >= 0) by (nonlinear_arith)
                requires
                    rdx < 0,
                    ONE > 0,
            ;
        } else {
            assert((ONE * ONE) / rdx >= 0) by (nonlinear_arith)
                requires
                    rdx > 0,
                    ONE > 0,
            ;
        }
    }
    assert forall|j: nat| 1 <= j <= n implies (#[trigger] walk_after(start, rd, j)).map_x
        == start.map_x + j * grid_step(rdx) && walk_after(start, rd, j).map_y == start.map_y by {
        assert((j - 1) * d <= (n - 1) * d) by (nonlinear_arith)
            requires
                d >= 0,
                j <= n,
        ;
        lemma_walk_along_x(start, rd, j);
    }
    assert forall|j: nat| 1 <= j < n implies !map.solid(
        (#[trigger] walk_after(start, rd, j)).map_x,
        walk_after(start, rd, j).map_y,
    ) by {
        assert(!map.solid(floor_spec(pos.0) + j * grid_step(rdx), floor_spec(pos.1)));
    }
    lemma_walk_along_x(start, rd, n);
    lemma_steps_exact(map, start, rd, step_limit(map), n);
    assert((n - 1) * d + d == n * d) by (nonlinear_arith);
    if rdx == -ONE || rdx == ONE {
        assert(ONE == 65536);
        assert(ONE * ONE == 4294967296);
        assert(4294967296int / 65536int == 65536);
        assert(d == ONE);
        let part = if rdx < 0 {
            pos.0 - floor_spec(pos.0) * ONE
        } else {
            (floor_spec(pos.0) + 1) * ONE - pos.0
        };
        vstd::arithmetic::div_mod::lemma_div_multiples_vanish(part, ONE as int);
        assert(part * d == ONE * part) by (nonlinear_arith)
            requires
                d == ONE,
        ;
        assert(first_side_dist(pos.0, rdx) == part);
        assert((n - 1) * d == (n - 1) * 65536) by (nonlinear_arith)
            requires
                d == 65536,
        ;
    }
}

/// The distance that a ray along the y axis records, head-on to a wall: as
/// for a ray along the x axis, with the two axes exchanged, but that the
/// walk crosses a grid line of constant y where the two distances are equal.
pub proof fn lemma_head_on_y(map: &GridMap, pos: (int, int), rdy: int, n: nat)
    requires
        rdy != 0,
        1 <= n <= step_limit(map),
        map.solid(floor_spec(pos.0), floor_spec(pos.1) + n * grid_step(rdy)),
        forall|j: nat|
            1 <= j < n ==> !#[trigger] map.solid(floor_spec(pos.0), floor_spec(pos.1) + j * grid_step(rdy)),
        first_side_dist(pos.1, rdy) + (n - 1) * delta_dist(rdy) <= first_side_dist(pos.0, 0),
    ensures
        wall_walk(map, pos, (0, rdy)).side == 1,
        wall_walk(map, pos, (0, rdy)).map_x == floor_spec(pos.0),
        wall_walk(map, pos, (0, rdy)).map_y == floor_spec(pos.1) + n * grid_step(rdy),
        perp_dist(wall_walk(map, pos, (0, rdy)), (0, rdy)) == first_side_dist(pos.1, rdy) + (n - 1)
            * delta_dist(rdy),
        rdy == -ONE ==> perp_dist(wall_walk(map, pos, (0, rdy)), (0, rdy)) == pos.1 - (floor_spec(pos.1)
            - n + 1) * ONE,
        rdy == ONE ==> perp_dist(wall_walk(map, pos, (0, rdy)), (0, rdy)) == (floor_spec(pos.1) + n)
            * ONE - pos.1,
{
    let rd = (0int, rdy);
    let start = walk_start(pos, rd);
    let d = delta_dist(rdy);
    assert(d >= 0) by {
        if rdy < 0 {
            assert((ONE * ONE) / (-rdy) >= 0) by (nonlinear_arith)
                requires
                    rdy < 0,
                    ONE > 0,
            ;
        } else {
            assert((ONE * ONE) / rdy >= 0) by (nonlinear_arith)
                requires
                    rdy > 0,
                    ONE > 0,
            ;
        }
    }
    assert forall|j: nat| 1 <= j <= n implies (#[trigger] walk_after(start, rd, j)).map_y
        == start.map_y + j * grid_step(rdy) && walk_after(start, rd, j).map_x == start.map_x by {
        assert((j - 1) * d <= (n - 1) * d) by (nonlinear_arith)
            requires
                d >= 0,
                j <= n,
        ;
        lemma_walk_along_y(start, rd, j);
    }
    assert forall|j: nat| 1 <= j < n implies !map.solid(
        (#[trigger] walk_after(start, rd, j)).map_x,
        walk_after(start, rd, j).map_y,
    ) by {
        assert(!map.solid(floor_spec(pos.0), floor_spec(pos.1) + j * grid_step(rdy)));
    }
    lemma_walk_along_y(start, rd, n);
    lemma_steps_exact(map, start, rd, step_limit(map), n);
    assert((n - 1) * d + d == n * d) by (nonlinear_arith);
    if rdy == -ONE || rdy == ONE {
        assert(ONE == 65536);
        assert(ONE * ONE == 4294967296);
        assert(4294967296int / 65536int == 65536);
        assert(d == ONE);
        let part = if rdy < 0 {
            pos.1 - floor_spec(pos.1) * ONE
        } else {
            (floor_spec(pos.1) + 1) * ONE - pos.1
        };
        vstd::arithmetic::div_mod::lemma_div_multiples_vanish(part, ONE as int);
        assert(part * d == ONE * part) by (nonlinear_arith)
            requires
                d == ONE,
        ;
        assert(first_side_dist(pos.1, rdy) == part);
        assert((n - 1) * d == (n - 1) * 65536) by (nonlinear_arith)
            requires
                d == 65536,
        ;
    }
}

/// Where the far distance [`FAR`] falls short: a ray along the x axis from
/// a camera so near the next grid line of constant y that the distance to
/// that line, as [`FAR`] gives it, is reached after `j` crossings along x,
/// leaves the camera's row with its next step, across a grid line of
/// constant y. These are the rays that `lemma_head_on_x` does not speak of.
pub proof fn lemma_far_falls_short_x(pos: (int, int), rdx: int, j: nat)
    requires
        rdx != 0,
        j >= 1 ==> first_side_dist(pos.0, rdx) + (j - 1) * delta_dist(rdx) < first_side_dist(pos.1, 0),
        first_side_dist(pos.0, rdx) + j * delta_dist(rdx) >= first_side_dist(pos.1, 0),
    ensures
        walk_after(walk_start(pos, (rdx, 0)), (rdx, 0), j + 1).side == 1,
        walk_after(walk_start(pos, (rdx, 0)), (rdx, 0), j + 1).map_y == floor_spec(pos.1) + 1,
        walk_after(walk_start(pos, (rdx, 0)), (rdx, 0), j + 1).map_x == floor_spec(pos.0) + j
            * grid_step(rdx),
{
    let rd = (rdx, 0int);
    let start = walk_start(pos, rd);
    let d = delta_dist(rdx);
    if j >= 1 {
        assert(d >= 0) by {
            if rdx < 0 {
                assert((ONE * ONE) / (-rdx) >= 0) by (nonlinear_arith)
                    requires
                        rdx < 0,
                        ONE > 0,
                ;
            } else {
                assert((ONE * ONE) / rdx >= 0) by (nonlinear_arith)
                    requires
                        rdx > 0,
                        ONE > 0,
                ;
            }
        }
        lemma_walk_along_x(start, rd, j);
    } else {
        assert(walk_after(start, rd, 0) == start);
        assert(0 * grid_step(rdx) == 0);
        assert(0 * d == 0);
    }
    let before = walk_after(start, rd, j);
    assert(walk_after(start, rd, j + 1) == walk_step(walk_after(start, rd, ((j + 1) - 1) as nat), rd));
    assert(!(before.side_x < before.side_y));
}

/// Where the far distance [`FAR`] falls short for a ray along the y axis:
/// as for a ray along the x axis, with the two axes exchanged. Such a ray
/// leaves the camera's column with its next step, across a grid line of
/// constant x. These are the rays that `lemma_head_on_y` does not speak of.
pub proof fn lemma_far_falls_short_y(pos: (int, int), rdy: int, j: nat)
    requires
        rdy != 0,
        j >= 1 ==> first_side_dist(pos.1, rdy) + (j - 1) * delta_dist(rdy) <= first_side_dist(pos.0, 0),
        first_side_dist(pos.1, rdy) + j * delta_dist(rdy) > first_side_dist(pos.0, 0),
    ensures
        walk_after(walk_start(pos, (0, rdy)), (0, rdy), j + 1).side == 0,
        walk_after(walk_start(pos, (0, rdy)), (0, rdy), j + 1).map_x == floor_spec(pos.0) + 1,
        walk_after(walk_start(pos, (0, rdy)), (0, rdy), j + 1).map_y == floor_spec(pos.1) + j
            * grid_step(rdy),
{
    let rd = (0int, rdy);
    let start = walk_start(pos, rd);
    let d = delta_dist(rdy);
    if j >= 1 {
        assert(d >= 0) by {
            if rdy < 0 {
                assert((ONE * ONE) / (-rdy) >= 0) by (nonlinear_arith)
                    requires
                        rdy < 0,
                        ONE > 0,
                ;
            } else {
                assert((ONE * ONE) / rdy >= 0) by (nonlinear_arith)
                    requires
                        rdy > 0,
                        ONE > 0,
                ;
            }
        }
        lemma_walk_along_y(start, rd, j);
    } else {
        assert(walk_after(start, rd, 0) == start);
        assert(0 * grid_step(rdy) == 0);
        assert(0 * d == 0);
    }
    let before = walk_after(start, rd, j);
    assert(walk_after(start, rd, j + 1) == walk_step(walk_after(start, rd, ((j + 1) - 1) as nat), rd));
    assert(before.side_x < before.side_y);
}

/// Two casts from the same place in the same direction through the same
/// grid record the same ray, and so the same distance.
pub proof fn lemma_cast_repeatable(map: &GridMap, pos: (int, int), rd: (int, int), a: Ray, b: Ray)
    requires
        a == cast_spec(map, pos, rd),
        b == cast_spec(map, pos, rd),
    ensures
        a == b,
        a.length == b.length,
{
}

/// A full turn, in degrees.
pub const FULL_TURN: Fixed = 23_592_960;

/// What a search for a crossing gives where there is none.
pub const MISS: (Fixed, Fixed) = (-65536, -65536);

/// Whether both coordinates of `p` are within [`LIMIT`].
pub open spec fn point_ok(p: (Fixed, Fixed)) -> bool {
    in_range(p.0 as int) && in_range(p.1 as int)
}

/// The point at distance `len` from `start` along the heading of cosine
/// `cos` and sine `sin`.
pub open spec fn reach(start: (Fixed, Fixed), len: int, cos: int, sin: int) -> (Fixed, Fixed) {
    ((start.0 + mul_spec(len, cos)) as i64, (start.1 + mul_spec(len, sin)) as i64)
}

/// A heading in degrees brought into the range from 0 up to a full turn.
pub open spec fn wrap_angle(a: int) -> int {
    a % (FULL_TURN as int)
}

/// Twice the signed area of the triangle of three points: by its sign a
/// point lies to one side of a line or to the other.
pub open spec fn cross(a: (int, int), b: (int, int)) -> int {
    a.0 * b.1 - a.1 * b.0
}

/// The difference of two points.
pub open spec fn minus(a: (Fixed, Fixed), b: (Fixed, Fixed)) -> (int, int) {
    (a.0 - b.0, a.1 - b.1)
}

/// The squared length of a vector.
pub open spec fn norm2(a: (int, int)) -> int {
    a.0 * a.0 + a.1 * a.1
}

/// Where the line through `start` and `end` crosses the wall from `ws` to
/// `we`, or [`MISS`]. There is a crossing where the two lines are not
/// parallel, it lies strictly within the wall and ahead of `start`, and it
/// is nearer to `start` than `end` is. Its coordinates are rounded down.
pub open spec fn crossing(
    start: (Fixed, Fixed),
    end: (Fixed, Fixed),
    ws: (Fixed, Fixed),
    we: (Fixed, Fixed),
) -> (Fixed, Fixed) {
    let den = cross(minus(ws, we), minus(start, end));
    let t = cross(minus(ws, start), minus(start, end));
    let u = -cross(minus(ws, we), minus(ws, start));
    let size = if den < 0 {
        -den
    } else {
        den
    };
    let tn = if den < 0 {
        -t
    } else {
        t
    };
    let un = if den < 0 {
        -u
    } else {
        u
    };
    if den != 0 && 0 < tn < size && un > 0 {
        let x = ws.0 + (tn * (we.0 - ws.0)) / size;
        let y = ws.1 + (tn * (we.1 - ws.1)) / size;
        if norm2((x - start.0, y - start.1)) < norm2(minus(end, start)) {
            (x as i64, y as i64)
        } else {
            MISS
        }
    } else {
        MISS
    }
}

/// `a.0 * b.1 - a.1 * b.0`, for vectors of components within `2 * LIMIT`.
fn cross_product(a: (i128, i128), b: (i128, i128)) -> (r: i128)
    requires
        -2 * LIMIT <= a.0 <= 2 * LIMIT,
        -2 * LIMIT <= a.1 <= 2 * LIMIT,
        -2 * LIMIT <= b.0 <= 2 * LIMIT,
        -2 * LIMIT <= b.1 <= 2 * LIMIT,
    ensures
        r == cross((a.0 as int, a.1 as int), (b.0 as int, b.1 as int)),
        -8 * LIMIT * LIMIT <= r <= 8 * LIMIT * LIMIT,
{
    proof {
        assert(LIMIT == 0x100_0000_0000);
        lemma_product_bound(a.0 as int, b.1 as int, 0x200_0000_0000, 0x200_0000_0000);
        lemma_product_bound(a.1 as int, b.0 as int, 0x200_0000_0000, 0x200_0000_0000);
        assert(0x200_0000_0000 * 0x200_0000_0000 == 0x4_0000_0000_0000_0000_0000int) by (nonlinear_arith);
        assert(8 * LIMIT * LIMIT == 0x8_0000_0000_0000_0000_0000int) by (nonlinear_arith)
            requires
                LIMIT == 0x100_0000_0000,
        ;
    }
    a.0 * b.1 - a.1 * b.0
}

/// The squared length of a vector of components within `4 * LIMIT`.
fn squared(a: (i128, i128)) -> (r: i128)
    requires
        -4 * LIMIT <= a.0 <= 4 * LIMIT,
        -4 * LIMIT <= a.1 <= 4 * LIMIT,
    ensures
        r == norm2((a.0 as int, a.1 as int)),
{
    proof {
        assert(LIMIT == 0x100_0000_0000);
        lemma_product_bound(a.0 as int, a.0 as int, 0x400_0000_0000, 0x400_0000_0000);
        lemma_product_bound(a.1 as int, a.1 as int, 0x400_0000_0000, 0x400_0000_0000);
        assert(0x400_0000_0000 * 0x400_0000_0000 == 0x10_0000_0000_0000_0000_0000int) by (nonlinear_arith);
    }
    a.0 * a.0 + a.1 * a.1
}

/// A part of a number is no larger than the number: for `0 < t < size`,
/// `t * d / size` lies within the bound of `d`.
proof fn lemma_quotient_within(t: int, d: int, size: int, bound: int)
    requires
        0 < t < size,
        -bound <= d <= bound,
    ensures
        -bound <= (t * d) / size <= bound,
{
    assert(-(bound * size) <= t * d <= bound * size) by (nonlinear_arith)
        requires
            0 < t < size,
            -bound <= d <= bound,
    ;
    lemma_div_is_ordered(-(bound * size), t * d, size);
    lemma_div_is_ordered(t * d, bound * size, size);
    vstd::arithmetic::div_mod::lemma_div_multiples_vanish(bound, size);
    vstd::arithmetic::div_mod::lemma_div_multiples_vanish(-bound, size);
    assert(-(bound * size) == size * (-bound)) by (nonlinear_arith);
    assert(bound * size == size * bound) by (nonlinear_arith);
}

/// `ws + t * d / size` rounded down, for `0 < t < size`.
fn along(ws: Fixed, t: i128, d: i128, size: i128) -> (r: i128)
    requires
        in_range(ws as int),
        0 < t < size <= 8 * LIMIT * LIMIT,
        -2 * LIMIT <= d <= 2 * LIMIT,
    ensures
        r == ws + (t * d) / (size as int),
        -3 * LIMIT <= r <= 3 * LIMIT,
{
    proof {
        assert(LIMIT == 0x100_0000_0000);
        assert(8 * LIMIT * LIMIT == 0x8_0000_0000_0000_0000_0000int) by (nonlinear_arith)
            requires
                LIMIT == 0x100_0000_0000,
        ;
        lemma_product_bound(t as int, d as int, 0x8_0000_0000_0000_0000_0000, 0x200_0000_0000);
        assert(0x8_0000_0000_0000_0000_0000 * 0x200_0000_0000
            == 0x1000_0000_0000_0000_0000_0000_0000_0000int) by (nonlinear_arith);
        lemma_quotient_within(t as int, d as int, size as int, 0x200_0000_0000);
    }
    (ws as i128) + floor_div(t * d, size)
}

impl Ray {
    /// The point that the ray reaches at its full length, along the heading
    /// of cosine `cos` and sine `sin`.
    pub fn calc_end(&mut self, cos: Fixed, sin: Fixed) -> (e: (Fixed, Fixed))
        requires
            point_ok(old(self).start),
            in_range(old(self).max_length as int),
            -ONE <= cos <= ONE,
            -ONE <= sin <= ONE,
        ensures
            e == reach(old(self).start, old(self).max_length as int, cos as int, sin as int),
            *final(self) == *old(self),
    {
        proof {
            lemma_mul_bound(self.max_length as int, cos as int, LIMIT as int, ONE as int);
            lemma_mul_bound(self.max_length as int, sin as int, LIMIT as int, ONE as int);
        }
        (self.start.0 + mul_floor(self.max_length, cos), self.start.1 + mul_floor(self.max_length, sin))
    }

    /// Distance from the start of the ray to its end.
    pub fn calc_length(&mut self) -> (d: Fixed)
        ensures
            d == distance(old(self).start, old(self).end),
            d >= 0,
            *final(self) == *old(self),
    {
        Ray::calc_length_of_ray(self.start, self.end)
    }

    /// Distance from `start` to `end`.
    pub fn calc_length_of_ray(start: (Fixed, Fixed), end: (Fixed, Fixed)) -> (d: Fixed)
        ensures
            d == distance(start, end),
            d >= 0,
    {
        length_between(start, end)
    }

    /// Turns the ray by `step` degrees. The heading stays in the range from
    /// 0 up to a full turn, and the end moves to where the ray reaches along
    /// the new heading, whose cosine and sine are `cos` and `sin`.
    pub fn turn(&mut self, step: Fixed, cos: Fixed, sin: Fixed)
        requires
            point_ok(old(self).start),
            in_range(old(self).max_length as int),
            -ONE <= cos <= ONE,
            -ONE <= sin <= ONE,
        ensures
            final(self).angle == wrap_angle(old(self).angle + step),
            0 <= final(self).angle < FULL_TURN,
            final(self).end == reach(old(self).start, old(self).max_length as int, cos as int, sin as int),
            final(self).start == old(self).start,
            final(self).length == old(self).length,
            final(self).max_length == old(self).max_length,
            final(self).collided == old(self).collided,
            final(self).side == old(self).side,
            final(self).texture_index == old(self).texture_index,
            final(self).texture_pos == old(self).texture_pos,
    {
        let sum: i128 = (self.angle as i128) + (step as i128);
        let turns: i128 = floor_div(sum, FULL_TURN as i128);
        proof {
            assert(FULL_TURN == 23_592_960);
            lemma_fundamental_div_mod(sum as int, 23_592_960);
            vstd::arithmetic::div_mod::lemma_mod_bound(sum as int, 23_592_960);
            assert(turns * 23_592_960 == 23_592_960 * turns) by (nonlinear_arith);
        }
        self.angle = (sum - turns * (FULL_TURN as i128)) as i64;
        let e: (Fixed, Fixed) = self.calc_end(cos, sin);
        self.end = e;
    }

    /// Finds the point where the ray crosses the wall from `wall_start` to
    /// `wall_end`, or [`MISS`] where it does not cross it within its length.
    pub fn find_intersection(&mut self, wall_start: (Fixed, Fixed), wall_end: (Fixed, Fixed)) -> (p: (
        Fixed,
        Fixed,
    ))
        requires
            point_ok(old(self).start),
            point_ok(old(self).end),
            point_ok(wall_start),
            point_ok(wall_end),
        ensures
            p == crossing(old(self).start, old(self).end, wall_start, wall_end),
            *final(self) == *old(self),
    {
        let wall: (i128, i128) = (
            (wall_start.0 as i128) - (wall_end.0 as i128),
            (wall_start.1 as i128) - (wall_end.1 as i128),
        );
        let back: (i128, i128) = (
            (self.start.0 as i128) - (self.end.0 as i128),
            (self.start.1 as i128) - (self.end.1 as i128),
        );
        let gap: (i128, i128) = (
            (wall_start.0 as i128) - (self.start.0 as i128),
            (wall_start.1 as i128) - (self.start.1 as i128),
        );
        let den: i128 = cross_product(wall, back);
        if den == 0 {
            return MISS;
        }
        let t: i128 = cross_product(gap, back);
        let u: i128 = -cross_product(wall, gap);
        let size: i128 = if den < 0 {
            -den
        } else {
            den
        };
        let tn: i128 = if den < 0 {
            -t
        } else {
            t
        };
        let un: i128 = if den < 0 {
            -u
        } else {
            u
        };
        if 0 < tn && tn < size && un > 0 {
            let x: i128 = along(wall_start.0, tn, -wall.0, size);
            let y: i128 = along(wall_start.1, tn, -wall.1, size);
            let near: i128 = squared((x - (self.start.0 as i128), y - (self.start.1 as i128)));
            let far: i128 = squared((-back.0, -back.1));
            if near < far {
                (x as i64, y as i64)
            } else {
                MISS
            }
        } else {
            MISS
        }
    }
}

} // verus!
