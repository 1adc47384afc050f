//! Walls: from the depth buffer to a picture, column by column.

use vstd::prelude::*;
use crate::fixed::{Fixed, ONE, floor_div};
use crate::frame::{Color, Frame, blank};
use crate::ray::{Ray, TEX_SIZE};
use crate::texture::Texture;

verus! {

/// Height in pixels of a wall at distance 1.
pub const PROJECTION: i64 = 480;

/// The distance at which a wall is black.
pub const MAX_DEPTH: Fixed = 655_360;

/// A width or height of the view: at least one pixel.
pub open spec fn view_size(n: u32) -> int {
    if n == 0 {
        1
    } else {
        n as int
    }
}

/// One channel of a colour seen at distance `dist`: it fades in a straight
/// line from its own value at distance 0 to black at [`MAX_DEPTH`].
pub open spec fn shade(ch: u8, dist: int) -> u8 {
    if dist >= MAX_DEPTH {
        0
    } else if dist <= 0 {
        ch
    } else {
        ((ch * (MAX_DEPTH - dist)) / (MAX_DEPTH as int)) as u8
    }
}

/// A colour seen at distance `dist`; the opacity stays.
pub open spec fn shade_color(c: Color, dist: int) -> Color {
    Color { r: shade(c.r, dist), g: shade(c.g, dist), b: shade(c.b, dist), a: c.a }
}

/// A colour at half its intensity; the opacity stays.
pub open spec fn half(c: Color) -> Color {
    Color { r: c.r / 2, g: c.g / 2, b: c.b / 2, a: c.a }
}

/// Whether `ray` names a texture of an atlas of `atlas_len` entries and a
/// column of it, at a distance that is not negative.
pub open spec fn drawable(ray: Ray, atlas_len: int) -> bool {
    &&& 1 <= ray.texture_index <= atlas_len
    &&& 0 <= ray.texture_pos < TEX_SIZE
    &&& ray.length >= 0
}

/// Height in pixels of a wall at distance `dist`, however high the view is.
/// A distance below the smallest positive one counts as that.
pub open spec fn wall_height(dist: int) -> int {
    (PROJECTION * ONE) / (if dist < 1 {
        1
    } else {
        dist
    })
}

/// The part of a wall of height `h` that a view of height `height` shows.
pub open spec fn shown_height(h: int, height: int) -> int {
    if h > height {
        height
    } else {
        h
    }
}

/// The colour of a wall of texture pixel `c` at distance `dist`: shaded by
/// the distance, at half intensity on a face of constant y, and opaque.
pub open spec fn wall_color(c: Color, dist: int, side: u8) -> Color {
    let s = shade_color(c, dist);
    let d = if side != 0 {
        half(s)
    } else {
        s
    };
    Color { a: 255, ..d }
}

/// Row of the texture shown in row `y` of a view of height `height` by a wall of height `h`.
pub open spec fn texture_row(h: int, height: int, y: int) -> int {
    ((y - (height - h) / 2) * TEX_SIZE) / h
}

/// The pixel in row `y` of a column of a view of height `height` that shows `ray`.
pub open spec fn wall_pixel(ray: Ray, tex: Seq<Texture>, height: int, y: int) -> Color {
    let h = wall_height(ray.length as int);
    let dh = shown_height(h, height);
    let top = (height - dh) / 2;
    if drawable(ray, tex.len() as int) && top <= y < top + dh {
        wall_color(
            tex[ray.texture_index - 1].at(ray.texture_pos as int, texture_row(h, height, y)),
            ray.length as int,
            ray.side,
        )
    } else {
        blank()
    }
}

/// The ray of `n` that column `x` of a view of width `width` shows.
pub open spec fn column_ray_index(x: int, width: int, n: int) -> int {
    (x * n) / width
}

/// The pixel at `(x, y)` of the picture of the walls that `rays` found.
pub open spec fn frame_pixel(
    rays: Seq<Ray>,
    tex: Seq<Texture>,
    width: int,
    height: int,
    x: int,
    y: int,
) -> Color {
    if rays.len() == 0 {
        blank()
    } else {
        wall_pixel(rays[column_ray_index(x, width, rays.len() as int)], tex, height, y)
    }
}

/// One channel at distance `dist`.
pub fn shade_channel(ch: u8, dist: Fixed) -> (r: u8)
    ensures
        r == shade(ch, dist as int),
        r <= ch,
{
    if dist >= MAX_DEPTH {
        0
    } else if dist <= 0 {
        ch
    } else {
        let left: i64 = MAX_DEPTH - dist;
        proof {
            assert(0 <= (ch * left) / (MAX_DEPTH as int) <= ch) by (nonlinear_arith)
                requires
                    0 < left <= MAX_DEPTH,
                    0 <= ch,
                    MAX_DEPTH > 0,
            ;
            assert(0 <= ch * left <= 255 * 655_360) by (nonlinear_arith)
                requires
                    0 < left <= 655_360,
                    0 <= ch <= 255,
            ;
        }
        (((ch as i64) * left) / MAX_DEPTH) as u8
    }
}

/// The colour of a wall of texture pixel `c` at distance `dist`.
pub fn shade_wall(c: Color, dist: Fixed, side: u8) -> (r: Color)
    ensures
        r == wall_color(c, dist as int, side),
{
    let red: u8 = shade_channel(c.r, dist);
    let green: u8 = shade_channel(c.g, dist);
    let blue: u8 = shade_channel(c.b, dist);
    if side != 0 {
        Color { r: red / 2, g: green / 2, b: blue / 2, a: 255 }
    } else {
        Color { r: red, g: green, b: blue, a: 255 }
    }
}

/// Draws column `x` of the picture: the wall that `ray` found.
fn draw_column(img: &mut Frame, tex: &Vec<Texture>, ray: Ray, x: u32)
    requires
        old(img).wf(),
        x < old(img).spec_width(),
        old(img).spec_height() >= 1,
        forall|j: int| 0 <= j < old(img).spec_height() ==> #[trigger] old(img).at(x as int, j) == blank(),
    ensures
        final(img).wf(),
        final(img).spec_width() == old(img).spec_width(),
        final(img).spec_height() == old(img).spec_height(),
        forall|j: int|
            0 <= j < old(img).spec_height() ==> #[trigger] final(img).at(x as int, j) == wall_pixel(
                ray,
                tex@,
                old(img).spec_height() as int,
                j,
            ),
        forall|i: int, j: int|
            0 <= i < old(img).spec_width() && 0 <= j < old(img).spec_height() && i != x
                ==> #[trigger] final(img).at(i, j) == old(img).at(i, j),
{
    if ray.texture_index < 1 || ray.texture_index as usize > tex.len() || ray.texture_pos < 0
        || ray.texture_pos >= 256 || ray.length < 0 {
        return ;
    }
    let height: i64 = img.height() as i64;
    let dist: i64 = if ray.length < 1 {
        1
    } else {
        ray.length
    };
    let h: i64 = (PROJECTION * ONE) / dist;
    proof {
        assert(0 <= (PROJECTION * ONE) / (dist as int) <= PROJECTION * ONE) by (nonlinear_arith)
            requires
                dist >= 1,
        ;
    }
    let dh: i64 = if h > height {
        height
    } else {
        h
    };
    let top: i64 = (height - dh) / 2;
    let full_top: i64 = floor_div((height - h) as i128, 2) as i64;
    let t: &Texture = &tex[(ray.texture_index - 1) as usize];
    let mut y: i64 = top;
    while y < top + dh
        invariant
            img.wf(),
            img.spec_width() == old(img).spec_width(),
            img.spec_height() == old(img).spec_height(),
            height == img.spec_height(),
            x < img.spec_width(),
            drawable(ray, tex@.len() as int),
            h == wall_height(ray.length as int),
            0 <= h <= PROJECTION * ONE,
            dh == shown_height(h as int, height as int),
            top == (height - dh) / 2,
            full_top == (height - h) / 2,
            *t == tex@[ray.texture_index - 1],
            top <= y <= top + dh,
            0 <= top,
            top + dh <= height <= u32::MAX,
            forall|j: int| 0 <= j < y ==> #[trigger] img.at(x as int, j) == wall_pixel(ray, tex@, height as int, j),
            forall|j: int| y <= j < height ==> #[trigger] img.at(x as int, j) == blank(),
            forall|i: int, j: int|
                0 <= i < img.spec_width() && 0 <= j < height && i != x ==> #[trigger] img.at(i, j)
                    == old(img).at(i, j),
        decreases top + dh - y,
    {
        let off: i64 = y - full_top;
        proof {
            assert(0 <= off < h);
            assert(0 <= (off * 256) / (h as int) < 256) by (nonlinear_arith)
                requires
                    0 <= off < h,
            ;
        }
        let v: i64 = (off * 256) / h;
        let c: Color = t.get(ray.texture_pos as usize, v as usize);
        proof {
            assert(v == texture_row(h as int, height as int, y as int));
            assert(wall_pixel(ray, tex@, height as int, y as int) == wall_color(
                c,
                ray.length as int,
                ray.side,
            ));
        }
        img.put(x, y as u32, shade_wall(c, ray.length, ray.side));
        y = y + 1;
    }
}

/// Draws the walls that `rays` found into a new picture of the given width
/// and height, each at least one pixel. A column shows the ray at the same
/// place in the fan: a wall as high as it is near, its texture stretched over
/// that height and shaded by the distance. The rest stays blank, as does the
/// column of a ray that names no texture of `tex`.
pub fn create_texture(rays: &Vec<Ray>, tex: &Vec<Texture>, width: u32, height: u32) -> (img: Frame)
    requires
        4 * view_size(width) * view_size(height) <= isize::MAX,
    ensures
        img.wf(),
        img.spec_width() == view_size(width),
        img.spec_height() == view_size(height),
        forall|x: int, y: int|
            0 <= x < view_size(width) && 0 <= y < view_size(height) ==> #[trigger] img.at(x, y)
                == frame_pixel(rays@, tex@, view_size(width), view_size(height), x, y),
{
    let w: u32 = if width == 0 {
        1
    } else {
        width
    };
    let h: u32 = if height == 0 {
        1
    } else {
        height
    };
    let mut img: Frame = Frame::new(w, h);
    let n: usize = rays.len();
    if n == 0 {
        return img;
    }
    let mut x: u32 = 0;
    while x < w
        invariant
            w == view_size(width),
            h == view_size(height),
            n == rays@.len(),
            n > 0,
            img.wf(),
            img.spec_width() == w,
            img.spec_height() == h,
            0 <= x <= w,
            forall|i: int, j: int|
                0 <= i < x && 0 <= j < h ==> #[trigger] img.at(i, j) == frame_pixel(
                    rays@,
                    tex@,
                    w as int,
                    h as int,
                    i,
                    j,
                ),
            forall|i: int, j: int| x <= i < w && 0 <= j < h ==> #[trigger] img.at(i, j) == blank(),
        decreases w - x,
    {
        proof {
            assert(0 <= (x * n) / (w as int) < n) by (nonlinear_arith)
                requires
                    0 <= x < w,
                    n > 0,
            ;
            assert(0 <= x * n <= 0xffff_ffff * 0xffff_ffff_ffff_ffff) by (nonlinear_arith)
                requires
                    0 <= x <= 0xffff_ffff,
                    0 <= n <= 0xffff_ffff_ffff_ffff,
            ;
        }
        let i: usize = (((x as u128) * (n as u128)) / (w as u128)) as usize;
        let ray: Ray = rays[i];
        draw_column(&mut img, tex, ray, x);
        x = x + 1;
    }
    img
}

} // verus!
