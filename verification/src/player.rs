//! The camera: where it stands, where it looks, and how it moves.

use vstd::prelude::*;
use vstd::arithmetic::div_mod::lemma_fundamental_div_mod;
use vstd::arithmetic::div_mod::lemma_div_is_ordered;
use crate::fixed::{Fixed, ONE, floor, floor_div, floor_spec, lemma_mul_bound, lemma_product_bound, mul_floor, mul_spec};
use crate::grid::{GridMap, MAX_DIM};
use crate::ray::{Ray, camera_x, cast, cast_spec, ray_dir, ray_ok, within};

verus! {

/// The largest magnitude of a component of the direction or of the camera plane.
pub const MAX_VEC: i64 = 0x10_0000;

/// The camera.
pub struct Player {
    /// The camera plane: perpendicular to `dir`, its length sets the field of view.
    pub plane: (Fixed, Fixed),
    /// The direction of view.
    pub dir: (Fixed, Fixed),
    /// The position, in cells.
    pub pos: (Fixed, Fixed),
    /// The depth buffer: one ray for each screen column of the last cast.
    pub rays: Vec<Ray>,
}

/// Whether `v` is a direction or plane vector within [`MAX_VEC`].
pub open spec fn vec_ok(v: (Fixed, Fixed)) -> bool {
    &&& -MAX_VEC <= v.0 <= MAX_VEC
    &&& -MAX_VEC <= v.1 <= MAX_VEC
}

/// Whether `p` is a position that some grid can hold.
pub open spec fn pos_ok(p: (Fixed, Fixed)) -> bool {
    &&& 0 <= p.0 < MAX_DIM * ONE
    &&& 0 <= p.1 < MAX_DIM * ONE
}

impl Player {
    /// The vectors are within [`MAX_VEC`], the position is within what a grid can hold.
    pub open spec fn wf(&self) -> bool {
        &&& vec_ok(self.plane)
        &&& vec_ok(self.dir)
        &&& pos_ok(self.pos)
    }

    /// Column of the cell that the camera stands in.
    pub open spec fn cell_x(&self) -> int {
        floor_spec(self.pos.0 as int)
    }

    /// Row of the cell that the camera stands in.
    pub open spec fn cell_y(&self) -> int {
        floor_spec(self.pos.1 as int)
    }

    /// Whether the camera stands in a cell of `map` that is not on its rim.
    pub open spec fn inside(&self, map: &GridMap) -> bool {
        within(map, self.pos)
    }

    /// Whether the camera is well formed.
    pub fn is_valid(&self) -> (b: bool)
        ensures
            b == self.wf(),
    {
        let top: i64 = (MAX_DIM as i64) * ONE;
        -MAX_VEC <= self.plane.0 && self.plane.0 <= MAX_VEC && -MAX_VEC <= self.plane.1
            && self.plane.1 <= MAX_VEC && -MAX_VEC <= self.dir.0 && self.dir.0 <= MAX_VEC
            && -MAX_VEC <= self.dir.1 && self.dir.1 <= MAX_VEC && 0 <= self.pos.0 && self.pos.0
            < top && 0 <= self.pos.1 && self.pos.1 < top
    }

    /// Whether the camera stands in a cell of `map` that is not on its rim.
    pub fn is_inside(&self, map: &GridMap) -> (b: bool)
        requires
            map.wf(),
        ensures
            b == self.inside(map),
    {
        let x: i64 = floor(self.pos.0);
        let y: i64 = floor(self.pos.1);
        let w: i64 = map.width() as i64;
        let h: i64 = map.height() as i64;
        1 <= x && x <= w - 2 && 1 <= y && y <= h - 2
    }

    /// Direction of the ray through column `r` of `rc`.
    pub open spec fn column_dir(&self, r: int, rc: int) -> (int, int) {
        (
            ray_dir(self.dir.0 as int, self.plane.0 as int, camera_x(r, rc)),
            ray_dir(self.dir.1 as int, self.plane.1 as int, camera_x(r, rc)),
        )
    }

    /// What the ray through column `r` of `rc` finds in `map`.
    pub open spec fn column_ray(&self, map: &GridMap, r: int, rc: int) -> Ray {
        cast_spec(map, (self.pos.0 as int, self.pos.1 as int), self.column_dir(r, rc))
    }

    /// Direction of the ray through column `r` of `rc`: the direction of
    /// view plus the camera plane scaled by the column's place on it.
    pub fn ray_direction(&self, r: u32, rc: u32) -> (rd: (Fixed, Fixed))
        requires
            self.wf(),
            r < rc,
        ensures
            (rd.0 as int, rd.1 as int) == self.column_dir(r as int, rc as int),
            ray_ok(rd),
    {
        let twice: i64 = 2 * (r as i64) * ONE;
        let cx: i64 = twice / (rc as i64) - ONE;
        proof {
            assert(ONE == 65536);
            assert(twice == 131072 * r);
            assert(0 <= twice / (rc as i64) < 131072) by (nonlinear_arith)
                requires
                    0 <= twice < 131072 * rc,
                    rc > 0,
            ;
            lemma_mul_bound(self.plane.0 as int, cx as int, MAX_VEC as int, ONE as int);
            lemma_mul_bound(self.plane.1 as int, cx as int, MAX_VEC as int, ONE as int);
        }
        (self.dir.0 + mul_floor(self.plane.0, cx), self.dir.1 + mul_floor(self.plane.1, cx))
    }

    /// Casts the ray through column `r` of `rc`.
    pub fn cast_column(&self, map: &GridMap, r: u32, rc: u32) -> (ray: Ray)
        requires
            self.wf(),
            map.wf(),
            map.enclosed(),
            self.inside(map),
            r < rc,
        ensures
            ray == self.column_ray(map, r as int, rc as int),
            ray.texture_index >= 1,
            0 <= ray.texture_pos < crate::ray::TEX_SIZE,
            0 <= ray.length <= 0x2_0000_0000_0000,
            ray.side <= 1,
    {
        let rd: (Fixed, Fixed) = self.ray_direction(r, rc);
        cast(map, self.pos, rd)
    }

    /// Casts the whole fan anew: one ray for each of `rc` columns, or one
    /// ray where `rc` is zero. The camera itself stays as it is.
    pub fn cast_rays(&mut self, map: &GridMap, rc: u32)
        requires
            old(self).wf(),
            map.wf(),
            map.enclosed(),
            old(self).inside(map),
        ensures
            final(self).pos == old(self).pos,
            final(self).dir == old(self).dir,
            final(self).plane == old(self).plane,
            final(self).rays@.len() == column_count(rc),
            forall|r: int|
                0 <= r < column_count(rc) ==> #[trigger] final(self).rays@[r] == old(self).column_ray(
                    map,
                    r,
                    column_count(rc) as int,
                ),
            forall|r: int|
                0 <= r < column_count(rc) ==> ray_drawable(#[trigger] final(self).rays@[r]),
    {
        let n: u32 = if rc == 0 {
            1
        } else {
            rc
        };
        let mut rays: Vec<Ray> = Vec::new();
        let mut r: u32 = 0;
        while r < n
            invariant
                self.wf(),
                map.wf(),
                map.enclosed(),
                self.inside(map),
                *self == *old(self),
                n == column_count(rc),
                0 <= r <= n,
                rays@.len() == r,
                forall|i: int| 0 <= i < r ==> #[trigger] rays@[i] == self.column_ray(map, i, n as int),
                forall|i: int| 0 <= i < r ==> ray_drawable(#[trigger] rays@[i]),
            decreases n - r,
        {
            let ray: Ray = self.cast_column(map, r, n);
            rays.push(ray);
            r = r + 1;
        }
        self.rays = rays;
    }
}

/// First component of `v` turned by the angle of cosine `c` and sine `s`,
/// times [`ONE`]: the exact value, before it is rounded.
pub open spec fn rot_num_x(v: (int, int), c: int, s: int) -> int {
    v.0 * c - v.1 * s
}

/// Second component of `v` turned by the angle of cosine `c` and sine `s`,
/// times [`ONE`]: the exact value, before it is rounded.
pub open spec fn rot_num_y(v: (int, int), c: int, s: int) -> int {
    v.0 * s + v.1 * c
}

/// `a`, or the nearest number of magnitude [`MAX_VEC`] where `a` is beyond.
pub open spec fn clamp_vec(a: int) -> int {
    if a < -MAX_VEC {
        -MAX_VEC as int
    } else if a > MAX_VEC {
        MAX_VEC as int
    } else {
        a
    }
}

/// `v` turned by the angle of cosine `c` and sine `s`, each component rounded down.
pub open spec fn rotated(v: (Fixed, Fixed), c: int, s: int) -> (Fixed, Fixed) {
    let vi = (v.0 as int, v.1 as int);
    (
        clamp_vec(rot_num_x(vi, c, s) / (ONE as int)) as i64,
        clamp_vec(rot_num_y(vi, c, s) / (ONE as int)) as i64,
    )
}

/// How far a move of `amount` per unit of time over `dt`, forward or back, shifts one coordinate.
pub open spec fn shift(dir: int, amount: int, dt: int, direction: int) -> int {
    mul_spec(dir * direction, mul_spec(amount, dt))
}

/// The position after a move from `pos`: each coordinate shifts only where
/// the cell that it would enter, at the other coordinate as it then is, is open.
pub open spec fn moved(
    map: &GridMap,
    pos: (Fixed, Fixed),
    dir: (Fixed, Fixed),
    amount: int,
    dt: int,
    direction: int,
) -> (Fixed, Fixed) {
    let cx = pos.0 + shift(dir.0 as int, amount, dt, direction);
    let x = if map.open_at(floor_spec(cx), floor_spec(pos.1 as int)) {
        cx
    } else {
        pos.0 as int
    };
    let cy = pos.1 + shift(dir.1 as int, amount, dt, direction);
    let y = if map.open_at(floor_spec(x), floor_spec(cy)) {
        cy
    } else {
        pos.1 as int
    };
    (x as i64, y as i64)
}

/// `a` held within [`MAX_VEC`].
fn clamp(a: i128) -> (r: Fixed)
    ensures
        r == clamp_vec(a as int),
        -MAX_VEC <= r <= MAX_VEC,
{
    if a < -(MAX_VEC as i128) {
        -MAX_VEC
    } else if a > MAX_VEC as i128 {
        MAX_VEC
    } else {
        a as i64
    }
}

/// Turns `v` by the angle of cosine `cos` and sine `sin`. Each component is
/// rounded down, and held at [`MAX_VEC`] where it would pass it.
pub fn rotate(v: (Fixed, Fixed), cos: Fixed, sin: Fixed) -> (r: (Fixed, Fixed))
    requires
        vec_ok(v),
        -ONE <= cos <= ONE,
        -ONE <= sin <= ONE,
    ensures
        r == rotated(v, cos as int, sin as int),
        vec_ok(r),
{
    proof {
        lemma_product_bound(v.0 as int, cos as int, MAX_VEC as int, ONE as int);
        lemma_product_bound(v.1 as int, sin as int, MAX_VEC as int, ONE as int);
        lemma_product_bound(v.0 as int, sin as int, MAX_VEC as int, ONE as int);
        lemma_product_bound(v.1 as int, cos as int, MAX_VEC as int, ONE as int);
    }
    let nx: i128 = (v.0 as i128) * (cos as i128) - (v.1 as i128) * (sin as i128);
    let ny: i128 = (v.0 as i128) * (sin as i128) + (v.1 as i128) * (cos as i128);
    let x: i128 = floor_div(nx, ONE as i128);
    let y: i128 = floor_div(ny, ONE as i128);
    (clamp(x), clamp(y))
}

impl Player {
    /// Turns the direction of view and the camera plane by the angle of
    /// cosine `cos` and sine `sin`. Each component is rounded down, and held
    /// at [`MAX_VEC`] where it would pass it.
    pub fn turn(&mut self, cos: Fixed, sin: Fixed)
        requires
            old(self).wf(),
            -ONE <= cos <= ONE,
            -ONE <= sin <= ONE,
        ensures
            final(self).dir == rotated(old(self).dir, cos as int, sin as int),
            final(self).plane == rotated(old(self).plane, cos as int, sin as int),
            final(self).pos == old(self).pos,
            final(self).rays == old(self).rays,
            final(self).wf(),
    {
        self.dir = rotate(self.dir, cos, sin);
        self.plane = rotate(self.plane, cos, sin);
    }

    /// Moves the camera along its direction of view, forward where
    /// `direction` is 1 and back where it is -1, by `amount` for each unit of
    /// `dt`. The two coordinates move one after the other, each only into an
    /// open cell of `map`, so that the camera slides along a wall. A cell
    /// off the grid counts as closed, however far off it is.
    pub fn advance(&mut self, amount: Fixed, dt: Fixed, direction: i8, map: &GridMap)
        requires
            old(self).wf(),
            map.wf(),
        ensures
            final(self).pos == moved(
                map,
                old(self).pos,
                old(self).dir,
                amount as int,
                dt as int,
                direction as int,
            ),
            final(self).dir == old(self).dir,
            final(self).plane == old(self).plane,
            final(self).rays == old(self).rays,
            final(self).wf(),
            map.open_at(old(self).cell_x(), old(self).cell_y()) ==> map.open_at(
                final(self).cell_x(),
                final(self).cell_y(),
            ),
            map.enclosed() && old(self).inside(map) ==> final(self).inside(map),
    {
        proof {
            lemma_product_bound(
                amount as int,
                dt as int,
                0x8000_0000_0000_0000,
                0x8000_0000_0000_0000,
            );
            lemma_product_bound(self.dir.0 as int, direction as int, MAX_VEC as int, 128);
            lemma_product_bound(self.dir.1 as int, direction as int, MAX_VEC as int, 128);
        }
        let a: i128 = floor_div((amount as i128) * (dt as i128), ONE as i128);
        let sx: i64 = self.dir.0 * (direction as i64);
        let sy: i64 = self.dir.1 * (direction as i64);
        match candidate(self.pos.0, sx, a) {
            Some(cx) => {
                if map.is_open(floor(cx), floor(self.pos.1)) {
                    proof {
                        map.lemma_open_off_rim(floor_spec(cx as int), floor_spec(self.pos.1 as int));
                    }
                    self.pos.0 = cx;
                }
            },
            None => {
                proof {
                    lemma_off_every_grid(self.pos.0 + mul_spec(sx as int, a as int));
                }
            },
        }
        match candidate(self.pos.1, sy, a) {
            Some(cy) => {
                if map.is_open(floor(self.pos.0), floor(cy)) {
                    proof {
                        map.lemma_open_off_rim(floor_spec(self.pos.0 as int), floor_spec(cy as int));
                    }
                    self.pos.1 = cy;
                }
            },
            None => {
                proof {
                    lemma_off_every_grid(self.pos.1 + mul_spec(sy as int, a as int));
                }
            },
        }
    }
}

/// A coordinate below zero or beyond the largest grid lies in no cell of any grid.
proof fn lemma_off_every_grid(c: int)
    requires
        !(0 <= c < MAX_DIM * ONE),
    ensures
        !(0 <= floor_spec(c) < MAX_DIM),
{
    lemma_fundamental_div_mod(c, ONE as int);
    vstd::arithmetic::div_mod::lemma_mod_bound(c, ONE as int);
}

/// The coordinate `pos` shifted by the product of `s` and `a`, or `None`
/// where that lies below zero or beyond the largest grid.
fn candidate(pos: Fixed, s: i64, a: i128) -> (r: Option<Fixed>)
    requires
        0 <= pos < MAX_DIM * ONE,
        -128 * MAX_VEC <= s <= 128 * MAX_VEC,
    ensures
        match r {
            Some(c) => c == pos + mul_spec(s as int, a as int),
            None => !(0 <= pos + mul_spec(s as int, a as int) < MAX_DIM * ONE),
        },
{
    if s == 0 {
        proof {
            assert(s * a == 0) by (nonlinear_arith)
                requires
                    s == 0,
            ;
        }
        return Some(pos);
    }
    let far: i128 = 0x1_0000_0000_0000_0000;
    if a > far || a < -far {
        proof {
            let p = s * a;
            assert(p > 0x1_0000_0000_0000_0000 || p < -0x1_0000_0000_0000_0000) by (nonlinear_arith)
                requires
                    p == s * a,
                    s != 0,
                    a > 0x1_0000_0000_0000_0000 || a < -0x1_0000_0000_0000_0000,
            ;
            if p > 0 {
                lemma_div_is_ordered(0x1_0000_0000_0000_0000, p, ONE as int);
            } else {
                lemma_div_is_ordered(p, -0x1_0000_0000_0000_0000, ONE as int);
            }
            assert(0x1_0000_0000_0000_0000int / 65536 == 0x1_0000_0000_0000);
            assert((-0x1_0000_0000_0000_0000int) / 65536 == -0x1_0000_0000_0000);
        }
        return None;
    }
    proof {
        lemma_product_bound(s as int, a as int, 0x800_0000, 0x1_0000_0000_0000_0000);
    }
    let c: i128 = (pos as i128) + floor_div((s as i128) * a, ONE as i128);
    if c < 0 || c >= (MAX_DIM as i128) * (ONE as i128) {
        None
    } else {
        Some(c as i64)
    }
}

/// One move of a walk: the speed, the time and the direction, forward or back.
pub struct Move {
    /// How far the camera walks in a unit of time.
    pub amount: int,
    /// The time that the move takes.
    pub dt: int,
    /// `1` for forward, `-1` for back, `0` for none.
    pub direction: int,
}

/// The position after the moves of `moves`, one after the other, from `pos`.
pub open spec fn walked(map: &GridMap, pos: (Fixed, Fixed), dir: (Fixed, Fixed), moves: Seq<Move>) -> (
    Fixed,
    Fixed,
)
    decreases moves.len(),
{
    if moves.len() == 0 {
        pos
    } else {
        moved(
            map,
            walked(map, pos, dir, moves.drop_last()),
            dir,
            moves.last().amount,
            moves.last().dt,
            moves.last().direction,
        )
    }
}

/// A move from an open cell ends in an open cell.
pub proof fn lemma_move_stays_open(
    map: &GridMap,
    pos: (Fixed, Fixed),
    dir: (Fixed, Fixed),
    amount: int,
    dt: int,
    direction: int,
)
    requires
        map.wf(),
        map.open_at(floor_spec(pos.0 as int), floor_spec(pos.1 as int)),
    ensures
        map.open_at(
            floor_spec(moved(map, pos, dir, amount, dt, direction).0 as int),
            floor_spec(moved(map, pos, dir, amount, dt, direction).1 as int),
        ),
{
    let cx = pos.0 + shift(dir.0 as int, amount, dt, direction);
    let cy = pos.1 + shift(dir.1 as int, amount, dt, direction);
    if map.open_at(floor_spec(cx), floor_spec(pos.1 as int)) {
        lemma_fundamental_div_mod(cx, ONE as int);
        assert(0 <= cx < MAX_DIM * ONE);
    }
    let x = moved(map, pos, dir, amount, dt, direction).0;
    if map.open_at(floor_spec(x as int), floor_spec(cy)) {
        lemma_fundamental_div_mod(cy, ONE as int);
        assert(0 <= cy < MAX_DIM * ONE);
    }
}

/// However often the camera is moved, at whatever speed and whichever way:
/// from an open cell it never comes to stand in a wall, nor off the grid.
pub proof fn lemma_walk_stays_open(map: &GridMap, pos: (Fixed, Fixed), dir: (Fixed, Fixed), moves: Seq<Move>)
    requires
        map.wf(),
        map.open_at(floor_spec(pos.0 as int), floor_spec(pos.1 as int)),
    ensures
        map.open_at(
            floor_spec(walked(map, pos, dir, moves).0 as int),
            floor_spec(walked(map, pos, dir, moves).1 as int),
        ),
        !map.solid(
            floor_spec(walked(map, pos, dir, moves).0 as int),
            floor_spec(walked(map, pos, dir, moves).1 as int),
        ),
    decreases moves.len(),
{
    if moves.len() > 0 {
        lemma_walk_stays_open(map, pos, dir, moves.drop_last());
        lemma_move_stays_open(
            map,
            walked(map, pos, dir, moves.drop_last()),
            dir,
            moves.last().amount,
            moves.last().dt,
            moves.last().direction,
        );
    }
}

/// A turn by an angle of cosine `c` and sine `s` multiplies the squared
/// length of a vector, and its dot product with any other vector turned
/// alike, by `c * c + s * s`, before rounding: by exactly `ONE * ONE` for a
/// true cosine and sine, so that lengths and right angles are kept.
pub proof fn lemma_rotation_keeps_norm(v: (int, int), p: (int, int), c: int, s: int)
    ensures
        rot_num_x(v, c, s) * rot_num_x(v, c, s) + rot_num_y(v, c, s) * rot_num_y(v, c, s) == (c * c
            + s * s) * (v.0 * v.0 + v.1 * v.1),
        rot_num_x(v, c, s) * rot_num_x(p, c, s) + rot_num_y(v, c, s) * rot_num_y(p, c, s) == (c * c
            + s * s) * (v.0 * p.0 + v.1 * p.1),
{
    lemma_turned_product(v.0, v.1, v.0, v.1, c, s);
    lemma_turned_product(v.0, v.1, p.0, p.1, c, s);
}

/// The products of two pairs of numbers, swapped, are equal.
proof fn lemma_swap_product(a: int, b: int, c: int, d: int)
    ensures
        (a * b) * (c * d) == (a * c) * (b * d),
        (a * b) * (c * d) == (a * d) * (c * b),
{
    assert((a * b) * (c * d) == (a * c) * (b * d)) by (nonlinear_arith);
    assert((a * b) * (c * d) == (a * d) * (c * b)) by (nonlinear_arith);
}

/// The dot product of two vectors turned alike is that of the vectors, times `c * c + s * s`.
proof fn lemma_turned_product(x: int, y: int, u: int, w: int, c: int, s: int)
    ensures
        (x * c - y * s) * (u * c - w * s) + (x * s + y * c) * (u * s + w * c) == (c * c + s * s) * (
        x * u + y * w),
{
    let a = x * c;
    let b = y * s;
    let d = x * s;
    let e = y * c;
    let a2 = u * c;
    let b2 = w * s;
    let d2 = u * s;
    let e2 = w * c;
    assert((a - b) * (a2 - b2) == a * a2 - a * b2 - b * a2 + b * b2) by (nonlinear_arith);
    assert((d + e) * (d2 + e2) == d * d2 + d * e2 + e * d2 + e * e2) by (nonlinear_arith);
    lemma_swap_product(x, c, w, s);
    lemma_swap_product(x, s, w, c);
    assert(a * b2 == (x * w) * (c * s));
    assert(d * e2 == (x * w) * (s * c));
    assert(c * s == s * c) by (nonlinear_arith);
    lemma_swap_product(y, s, u, c);
    lemma_swap_product(y, c, u, s);
    assert(b * a2 == (y * u) * (s * c));
    assert(e * d2 == (y * u) * (c * s));
    lemma_swap_product(x, c, u, c);
    lemma_swap_product(y, s, w, s);
    lemma_swap_product(x, s, u, s);
    lemma_swap_product(y, c, w, c);
    let cc = c * c;
    let ss = s * s;
    let xu = x * u;
    let yw = y * w;
    assert(a * a2 == xu * cc);
    assert(b * b2 == yw * ss);
    assert(d * d2 == xu * ss);
    assert(e * e2 == yw * cc);
    assert((cc + ss) * (xu + yw) == xu * cc + yw * ss + xu * ss + yw * cc) by (nonlinear_arith);
}

/// The ray through the middle of an even number of columns runs along the
/// direction of view.
pub proof fn lemma_centre_column(player: &Player, rc: int)
    requires
        rc > 0,
        rc % 2 == 0,
    ensures
        player.column_dir(rc / 2, rc) == (player.dir.0 as int, player.dir.1 as int),
{
    assert(2 * (rc / 2) == rc);
    assert(2 * (rc / 2) * ONE == ONE * rc) by (nonlinear_arith)
        requires
            2 * (rc / 2) == rc,
    ;
    vstd::arithmetic::div_mod::lemma_div_multiples_vanish(ONE as int, rc);
    assert(camera_x(rc / 2, rc) == 0);
    assert(player.plane.0 * 0 == 0);
    assert(player.plane.1 * 0 == 0);
}

/// A half turn, of cosine -1 and sine 0, reverses a vector exactly.
pub proof fn lemma_half_turn(v: (Fixed, Fixed))
    requires
        vec_ok(v),
    ensures
        rotated(v, -ONE as int, 0) == (-v.0 as i64, -v.1 as i64),
{
    assert(v.0 * (-ONE) - v.1 * 0 == ONE * (-v.0)) by (nonlinear_arith);
    assert(v.0 * 0 + v.1 * (-ONE) == ONE * (-v.1)) by (nonlinear_arith);
    vstd::arithmetic::div_mod::lemma_div_multiples_vanish(-v.0 as int, ONE as int);
    vstd::arithmetic::div_mod::lemma_div_multiples_vanish(-v.1 as int, ONE as int);
}

/// What a turn stores differs from the exact turned vector by less than one
/// unit of the last place in each component, as long as the result stays
/// within [`MAX_VEC`].
pub proof fn lemma_rotation_rounding(v: (Fixed, Fixed), c: int, s: int)
    requires
        -MAX_VEC <= rot_num_x((v.0 as int, v.1 as int), c, s) / (ONE as int) <= MAX_VEC,
        -MAX_VEC <= rot_num_y((v.0 as int, v.1 as int), c, s) / (ONE as int) <= MAX_VEC,
    ensures
        rotated(v, c, s).0 * ONE <= rot_num_x((v.0 as int, v.1 as int), c, s) < rotated(v, c, s).0
            * ONE + ONE,
        rotated(v, c, s).1 * ONE <= rot_num_y((v.0 as int, v.1 as int), c, s) < rotated(v, c, s).1
            * ONE + ONE,
{
    lemma_fundamental_div_mod(rot_num_x((v.0 as int, v.1 as int), c, s), ONE as int);
    lemma_fundamental_div_mod(rot_num_y((v.0 as int, v.1 as int), c, s), ONE as int);
}

/// The magnitude of a number.
pub open spec fn magnitude(a: int) -> int {
    if a < 0 {
        -a
    } else {
        a
    }
}

/// The sum of the magnitudes of the two components of a vector.
pub open spec fn span(v: (Fixed, Fixed)) -> int {
    magnitude(v.0 as int) + magnitude(v.1 as int)
}

/// The dot product of two vectors; of a vector with itself, its squared length.
pub open spec fn dot(v: (Fixed, Fixed), p: (Fixed, Fixed)) -> int {
    v.0 * p.0 + v.1 * p.1
}

/// Whether a turn by cosine `c` and sine `s` leaves both components of `v`
/// within [`MAX_VEC`], so that none is held back.
pub open spec fn turns_freely(v: (Fixed, Fixed), c: int, s: int) -> bool {
    &&& -MAX_VEC <= rot_num_x((v.0 as int, v.1 as int), c, s) / (ONE as int) <= MAX_VEC
    &&& -MAX_VEC <= rot_num_y((v.0 as int, v.1 as int), c, s) / (ONE as int) <= MAX_VEC
}

/// How far the dot product of two vectors, each rounded down by less than
/// `e` in each component, lies from the dot product of the vectors themselves.
proof fn lemma_rounded_dot(
    nx: int,
    ny: int,
    mx: int,
    my: int,
    ex: int,
    ey: int,
    fx: int,
    fy: int,
    e: int,
    bn: int,
    bm: int,
)
    requires
        0 <= ex < e,
        0 <= ey < e,
        0 <= fx < e,
        0 <= fy < e,
        magnitude(nx) + magnitude(ny) <= bn,
        magnitude(mx) + magnitude(my) <= bm,
    ensures
        -(e * bn + e * bm) <= (nx - ex) * (mx - fx) + (ny - ey) * (my - fy) - (nx * mx + ny * my) <= e
            * bn + e * bm + 2 * e * e,
{
    let a1 = nx * fx;
    let a2 = ex * mx;
    let a3 = ex * fx;
    let b1 = ny * fy;
    let b2 = ey * my;
    let b3 = ey * fy;
    let hn = e * magnitude(nx) + e * magnitude(ny);
    let hm = e * magnitude(mx) + e * magnitude(my);
    assert((nx - ex) * (mx - fx) == nx * mx - a1 - a2 + a3) by (nonlinear_arith)
        requires
            a1 == nx * fx,
            a2 == ex * mx,
            a3 == ex * fx,
    ;
    assert((ny - ey) * (my - fy) == ny * my - b1 - b2 + b3) by (nonlinear_arith)
        requires
            b1 == ny * fy,
            b2 == ey * my,
            b3 == ey * fy,
    ;
    assert(-(e * magnitude(nx)) <= a1 <= e * magnitude(nx)) by (nonlinear_arith)
        requires
            a1 == nx * fx,
            0 <= fx < e,
            magnitude(nx) == nx || magnitude(nx) == -nx,
            magnitude(nx) >= 0,
    ;
    assert(-(e * magnitude(ny)) <= b1 <= e * magnitude(ny)) by (nonlinear_arith)
        requires
            b1 == ny * fy,
            0 <= fy < e,
            magnitude(ny) == ny || magnitude(ny) == -ny,
            magnitude(ny) >= 0,
    ;
    assert(-(e * magnitude(mx)) <= a2 <= e * magnitude(mx)) by (nonlinear_arith)
        requires
            a2 == ex * mx,
            0 <= ex < e,
            magnitude(mx) == mx || magnitude(mx) == -mx,
            magnitude(mx) >= 0,
    ;
    assert(-(e * magnitude(my)) <= b2 <= e * magnitude(my)) by (nonlinear_arith)
        requires
            b2 == ey * my,
            0 <= ey < e,
            magnitude(my) == my || magnitude(my) == -my,
            magnitude(my) >= 0,
    ;
    assert(0 <= a3 <= e * e) by (nonlinear_arith)
        requires
            a3 == ex * fx,
            0 <= ex < e,
            0 <= fx < e,
    ;
    assert(0 <= b3 <= e * e) by (nonlinear_arith)
        requires
            b3 == ey * fy,
            0 <= ey < e,
            0 <= fy < e,
    ;
    assert(hn <= e * bn) by (nonlinear_arith)
        requires
            hn == e * magnitude(nx) + e * magnitude(ny),
            magnitude(nx) + magnitude(ny) <= bn,
            e > 0,
    ;
    assert(hm <= e * bm) by (nonlinear_arith)
        requires
            hm == e * magnitude(mx) + e * magnitude(my),
            magnitude(mx) + magnitude(my) <= bm,
            e > 0,
    ;
    let diff = (nx - ex) * (mx - fx) + (ny - ey) * (my - fy) - (nx * mx + ny * my);
    assert(diff == -a1 - a2 + a3 - b1 - b2 + b3);
    assert(-hn - hm <= diff <= hn + hm + 2 * (e * e));
    assert(2 * e * e == 2 * (e * e)) by (nonlinear_arith);
}

/// The exact turned components of `v`, times [`ONE`], are together no more
/// than twice the span of `v`, times [`ONE`].
proof fn lemma_turned_span(v: (Fixed, Fixed), c: int, s: int)
    requires
        -ONE <= c <= ONE,
        -ONE <= s <= ONE,
    ensures
        magnitude(rot_num_x((v.0 as int, v.1 as int), c, s)) + magnitude(
            rot_num_y((v.0 as int, v.1 as int), c, s),
        ) <= 2 * ONE * span(v),
{
    let x = v.0 as int;
    let y = v.1 as int;
    let xc = x * c;
    let ys = y * s;
    let xs = x * s;
    let yc = y * c;
    lemma_product_bound(x, c, magnitude(x), ONE as int);
    lemma_product_bound(y, s, magnitude(y), ONE as int);
    lemma_product_bound(x, s, magnitude(x), ONE as int);
    lemma_product_bound(y, c, magnitude(y), ONE as int);
    assert(magnitude(xc - ys) <= magnitude(x) * ONE + magnitude(y) * ONE);
    assert(magnitude(xs + yc) <= magnitude(x) * ONE + magnitude(y) * ONE);
    assert(2 * ONE * span(v) == 2 * (magnitude(x) * ONE + magnitude(y) * ONE)) by (nonlinear_arith)
        requires
            span(v) == magnitude(x) + magnitude(y),
    ;
}

/// A turn keeps dot products within the tolerance of the rounding: for two
/// vectors turned alike, neither held back, the dot product of what is
/// stored lies within `2 * span(v) + 2 * span(p) + 2` of the dot product
/// before, scaled by `c * c + s * s` over `ONE * ONE`. For a true cosine and
/// sine the scale is one: the dot product of the direction of view and the
/// camera plane, and so their right angle, is kept within that tolerance.
pub proof fn lemma_turn_keeps_dot_nearly(v: (Fixed, Fixed), p: (Fixed, Fixed), c: int, s: int)
    requires
        -ONE <= c <= ONE,
        -ONE <= s <= ONE,
        turns_freely(v, c, s),
        turns_freely(p, c, s),
    ensures
        -(ONE * ONE * (2 * span(v) + 2 * span(p) + 2)) <= ONE * ONE * dot(
            rotated(v, c, s),
            rotated(p, c, s),
        ) - (c * c + s * s) * dot(v, p) <= ONE * ONE * (2 * span(v) + 2 * span(p) + 2),
{
    let vi = (v.0 as int, v.1 as int);
    let pi = (p.0 as int, p.1 as int);
    let r = rotated(v, c, s);
    let q = rotated(p, c, s);
    let nx = rot_num_x(vi, c, s);
    let ny = rot_num_y(vi, c, s);
    let mx = rot_num_x(pi, c, s);
    let my = rot_num_y(pi, c, s);
    lemma_rotation_rounding(v, c, s);
    lemma_rotation_rounding(p, c, s);
    lemma_rotation_keeps_norm(vi, pi, c, s);
    lemma_turned_span(v, c, s);
    lemma_turned_span(p, c, s);
    let e = ONE as int;
    lemma_rounded_dot(
        nx,
        ny,
        mx,
        my,
        nx - r.0 * ONE,
        ny - r.1 * ONE,
        mx - q.0 * ONE,
        my - q.1 * ONE,
        e,
        2 * ONE * span(v),
        2 * ONE * span(p),
    );
    assert((r.0 * ONE) * (q.0 * ONE) + (r.1 * ONE) * (q.1 * ONE) == ONE * ONE * dot(r, q))
        by (nonlinear_arith);
    assert(e * (2 * ONE * span(v)) + e * (2 * ONE * span(p)) + 2 * e * e == ONE * ONE * (2 * span(v)
        + 2 * span(p) + 2)) by (nonlinear_arith)
        requires
            e == ONE,
    ;
}

/// A turn keeps lengths within the tolerance of the rounding: the squared
/// length of what is stored lies within `4 * span(v) + 2` of the squared
/// length before, scaled by `c * c + s * s` over `ONE * ONE`; for a true
/// cosine and sine, of the squared length before itself.
pub proof fn lemma_turn_keeps_length_nearly(v: (Fixed, Fixed), c: int, s: int)
    requires
        -ONE <= c <= ONE,
        -ONE <= s <= ONE,
        turns_freely(v, c, s),
    ensures
        -(ONE * ONE * (4 * span(v) + 2)) <= ONE * ONE * dot(rotated(v, c, s), rotated(v, c, s)) - (c
            * c + s * s) * dot(v, v) <= ONE * ONE * (4 * span(v) + 2),
{
    lemma_turn_keeps_dot_nearly(v, v, c, s);
}

/// One turn: the cosine and the sine of its angle, as fixed-point numbers.
pub struct Turn {
    /// The cosine.
    pub cos: int,
    /// The sine.
    pub sin: int,
}

/// The vector `v` after the turns of `turns`, one after the other.
pub open spec fn turned(v: (Fixed, Fixed), turns: Seq<Turn>) -> (Fixed, Fixed)
    decreases turns.len(),
{
    if turns.len() == 0 {
        v
    } else {
        rotated(turned(v, turns.drop_last()), turns.last().cos, turns.last().sin)
    }
}

/// Whether both components of `v` are within `bound`.
pub open spec fn held_within(v: (Fixed, Fixed), bound: int) -> bool {
    -bound <= v.0 <= bound && -bound <= v.1 <= bound
}

/// Whether `t` is a turn by a cosine and a sine within one, whose squares
/// add up to one but for `slack`.
pub open spec fn nearly_true(t: Turn, slack: int) -> bool {
    &&& -ONE <= t.cos <= ONE
    &&& -ONE <= t.sin <= ONE
    &&& -slack <= t.cos * t.cos + t.sin * t.sin - ONE * ONE <= slack
}

/// Whether each of `turns` is nearly true, and `v` stays within `bound`
/// and is never held back as it is turned by one after the other.
pub open spec fn turns_steadily(v: (Fixed, Fixed), turns: Seq<Turn>, bound: int, slack: int) -> bool
    decreases turns.len(),
{
    if turns.len() == 0 {
        held_within(v, bound)
    } else {
        &&& turns_steadily(v, turns.drop_last(), bound, slack)
        &&& nearly_true(turns.last(), slack)
        &&& turns_freely(turned(v, turns.drop_last()), turns.last().cos, turns.last().sin)
        &&& held_within(turned(v, turns), bound)
    }
}

/// How far one turn may move a dot product of vectors within `bound`,
/// times `ONE * ONE`: by the rounding of the components, and by what the
/// squares of cosine and sine lack to one.
pub open spec fn turn_tolerance(bound: int, slack: int) -> int {
    ONE * ONE * (8 * bound + 2) + 2 * slack * (bound * bound)
}

/// The dot product of two vectors within `bound` is within twice its square.
proof fn lemma_dot_bound(v: (Fixed, Fixed), p: (Fixed, Fixed), bound: int)
    requires
        held_within(v, bound),
        held_within(p, bound),
    ensures
        -(2 * (bound * bound)) <= dot(v, p) <= 2 * (bound * bound),
        span(v) <= 2 * bound,
        span(p) <= 2 * bound,
{
    lemma_product_bound(v.0 as int, p.0 as int, bound, bound);
    lemma_product_bound(v.1 as int, p.1 as int, bound, bound);
}

/// One nearly true turn moves the dot product of two vectors within
/// `bound`, neither held back, by no more than the tolerance.
proof fn lemma_turn_within_tolerance(v: (Fixed, Fixed), p: (Fixed, Fixed), t: Turn, bound: int, slack: int)
    requires
        held_within(v, bound),
        held_within(p, bound),
        nearly_true(t, slack),
        turns_freely(v, t.cos, t.sin),
        turns_freely(p, t.cos, t.sin),
    ensures
        -turn_tolerance(bound, slack) <= ONE * ONE * (dot(
            rotated(v, t.cos, t.sin),
            rotated(p, t.cos, t.sin),
        ) - dot(v, p)) <= turn_tolerance(bound, slack),
{
    let c = t.cos;
    let s = t.sin;
    let after = dot(rotated(v, c, s), rotated(p, c, s));
    let before = dot(v, p);
    let k = c * c + s * s - ONE * ONE;
    lemma_turn_keeps_dot_nearly(v, p, c, s);
    lemma_dot_bound(v, p, bound);
    lemma_product_bound(k, before, slack, 2 * (bound * bound));
    let scaled = (c * c + s * s) * before;
    assert(scaled == ONE * ONE * before + k * before) by (nonlinear_arith)
        requires
            scaled == (c * c + s * s) * before,
            k == c * c + s * s - ONE * ONE,
    ;
    assert(slack * (2 * (bound * bound)) == 2 * slack * (bound * bound)) by (nonlinear_arith);
    assert(ONE * ONE * (2 * span(v) + 2 * span(p) + 2) <= ONE * ONE * (8 * bound + 2)) by (nonlinear_arith)
        requires
            span(v) <= 2 * bound,
            span(p) <= 2 * bound,
            ONE > 0,
    ;
    assert(ONE * ONE * (after - before) == ONE * ONE * after - ONE * ONE * before) by (nonlinear_arith);
}

/// Turns keep dot products within a tolerance that grows with their
/// number. Where two vectors are turned alike by any number of nearly true
/// turns, stay within `bound` and are never held back, the dot product of
/// what is stored differs from the dot product at the start by no more than
/// the tolerance of one turn for each turn. So the direction of view and
/// the camera plane keep their right angle within that tolerance.
pub proof fn lemma_turns_keep_dot_nearly(
    v: (Fixed, Fixed),
    p: (Fixed, Fixed),
    turns: Seq<Turn>,
    bound: int,
    slack: int,
)
    requires
        turns_steadily(v, turns, bound, slack),
        turns_steadily(p, turns, bound, slack),
    ensures
        -(turns.len() * turn_tolerance(bound, slack)) <= ONE * ONE * (dot(
            turned(v, turns),
            turned(p, turns),
        ) - dot(v, p)) <= turns.len() * turn_tolerance(bound, slack),
    decreases turns.len(),
{
    let tol = turn_tolerance(bound, slack);
    if turns.len() == 0 {
        assert(ONE * ONE * (dot(v, p) - dot(v, p)) == 0) by (nonlinear_arith);
        assert(0 * tol == 0);
    } else {
        let rest = turns.drop_last();
        lemma_turns_keep_dot_nearly(v, p, rest, bound, slack);
        lemma_turns_hold(v, rest, bound, slack);
        lemma_turns_hold(p, rest, bound, slack);
        let u = turned(v, rest);
        let w = turned(p, rest);
        lemma_turn_within_tolerance(u, w, turns.last(), bound, slack);
        let a = dot(turned(v, turns), turned(p, turns));
        let b = dot(u, w);
        let z = dot(v, p);
        assert(ONE * ONE * (a - z) == ONE * ONE * (a - b) + ONE * ONE * (b - z)) by (nonlinear_arith);
        assert(turns.len() * tol == rest.len() * tol + tol) by (nonlinear_arith)
            requires
                turns.len() == rest.len() + 1,
        ;
    }
}

/// A vector that turns steadily is within the bound at the end.
proof fn lemma_turns_hold(v: (Fixed, Fixed), turns: Seq<Turn>, bound: int, slack: int)
    requires
        turns_steadily(v, turns, bound, slack),
    ensures
        held_within(turned(v, turns), bound),
{
}

/// Turns keep lengths within a tolerance that grows with their number:
/// where a vector is turned by any number of nearly true turns, stays
/// within `bound` and is never held back, its squared length differs from
/// the squared length at the start by no more than the tolerance of one
/// turn for each turn.
pub proof fn lemma_turns_keep_length_nearly(v: (Fixed, Fixed), turns: Seq<Turn>, bound: int, slack: int)
    requires
        turns_steadily(v, turns, bound, slack),
    ensures
        -(turns.len() * turn_tolerance(bound, slack)) <= ONE * ONE * (dot(
            turned(v, turns),
            turned(v, turns),
        ) - dot(v, v)) <= turns.len() * turn_tolerance(bound, slack),
{
    lemma_turns_keep_dot_nearly(v, v, turns, bound, slack);
}

/// Number of rays cast for a request of `rc` columns: at least one.
pub open spec fn column_count(rc: u32) -> nat {
    if rc == 0 {
        1
    } else {
        rc as nat
    }
}

/// Whether a ray holds what a cast records: a wall's tile, a texture column
/// and a distance that is not negative.
pub open spec fn ray_drawable(ray: Ray) -> bool {
    &&& ray.texture_index >= 1
    &&& 0 <= ray.texture_pos < crate::ray::TEX_SIZE
    &&& 0 <= ray.length <= 0x2_0000_0000_0000
    &&& ray.side <= 1
}

} // verus!
