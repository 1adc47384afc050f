//! Sprites over walls: what is hidden, what shows, and how colours mix.

use vstd::prelude::*;
use crate::fixed::{Fixed, ONE, distance, floor_div, lemma_product_bound, trunc_div, trunc_div_spec};
use crate::frame::{Color, Frame};
use crate::player::{MAX_VEC, Player};
use crate::raster::{MAX_DEPTH, column_ray_index, shade_channel, shade_color};
use crate::ray::{Ray, TEX_SIZE};
use crate::sprite::{Sprite, far_first, sort_far_first};
use crate::texture::Texture;

verus! {

/// One channel of a colour of opacity `a` over a background.
pub open spec fn mix(f: u8, b: u8, a: u8) -> u8 {
    ((f * a + b * (255 - a)) / 255) as u8
}

/// The colour `fg` laid over `bg`. A transparent colour leaves the
/// background, an opaque one covers it, and one in between mixes with it by
/// its opacity; the mixture is opaque only over an opaque background.
pub open spec fn blend(fg: Color, bg: Color) -> Color {
    if fg.a == 0 {
        bg
    } else if fg.a == 255 {
        fg
    } else {
        Color {
            r: mix(fg.r, bg.r, fg.a),
            g: mix(fg.g, bg.g, fg.a),
            b: mix(fg.b, bg.b, fg.a),
            a: if bg.a == 255 {
                255
            } else {
                fg.a
            },
        }
    }
}

/// One channel of a colour of opacity `a` over a background.
pub fn mix_channel(f: u8, b: u8, a: u8) -> (r: u8)
    ensures
        r == mix(f, b, a),
{
    proof {
        assert(0 <= f * a <= 255 * a && 0 <= b * (255 - a) <= 255 * (255 - a)) by (nonlinear_arith)
            requires
                0 <= f <= 255,
                0 <= b <= 255,
                0 <= a <= 255,
        ;
    }
    let total: u32 = (f as u32) * (a as u32) + (b as u32) * (255 - a as u32);
    (total / 255) as u8
}

/// Lays the colour `fg` over `bg`.
pub fn composite(fg: Color, bg: Color) -> (r: Color)
    ensures
        r == blend(fg, bg),
        fg.a == 255 ==> r == fg,
        fg.a == 0 ==> r == bg,
{
    if fg.a == 0 {
        bg
    } else if fg.a == 255 {
        fg
    } else {
        Color {
            r: mix_channel(fg.r, bg.r, fg.a),
            g: mix_channel(fg.g, bg.g, fg.a),
            b: mix_channel(fg.b, bg.b, fg.a),
            a: if bg.a == 255 {
                255
            } else {
                fg.a
            },
        }
    }
}

/// The determinant of the camera's two vectors; its sign tells on which
/// side of the direction of view the camera plane points.
pub open spec fn camera_det(player: &Player) -> int {
    player.plane.0 * player.dir.1 - player.dir.0 * player.plane.1
}

/// How far the sprite stands to the side of the camera, times the magnitude
/// of the determinant.
pub open spec fn across(player: &Player, sprite: Sprite) -> int {
    let sx = sprite.pos.0 - player.pos.0;
    let sy = sprite.pos.1 - player.pos.1;
    let n = player.dir.1 * sx - player.dir.0 * sy;
    if camera_det(player) < 0 {
        -n
    } else {
        n
    }
}

/// How far the sprite stands ahead of the camera, times the magnitude of
/// the determinant.
pub open spec fn ahead(player: &Player, sprite: Sprite) -> int {
    let sx = sprite.pos.0 - player.pos.0;
    let sy = sprite.pos.1 - player.pos.1;
    let n = player.plane.0 * sy - player.plane.1 * sx;
    if camera_det(player) < 0 {
        -n
    } else {
        n
    }
}

/// The magnitude of the determinant of the camera's two vectors.
pub open spec fn det_size(player: &Player) -> int {
    if camera_det(player) < 0 {
        -camera_det(player)
    } else {
        camera_det(player)
    }
}

/// Depth of the sprite into the screen, as a fixed-point number: its
/// distance along the direction of view. Zero where the camera's two vectors
/// span no plane.
pub open spec fn sprite_depth(player: &Player, sprite: Sprite) -> int {
    if camera_det(player) == 0 {
        0
    } else {
        (ahead(player, sprite) * ONE) / det_size(player)
    }
}

/// Where a sprite shows on the screen.
pub struct Billboard {
    /// Depth into the screen, as a fixed-point number.
    pub depth: int,
    /// Width and height on the screen, in pixels.
    pub size: int,
    /// Column of the left edge, on the screen or off it.
    pub left: int,
    /// First column drawn.
    pub start_x: int,
    /// Column after the last one drawn.
    pub end_x: int,
    /// First row drawn.
    pub start_y: int,
    /// Row after the last one drawn.
    pub end_y: int,
}

/// The greater of two numbers.
pub open spec fn larger(a: int, b: int) -> int {
    if a > b {
        a
    } else {
        b
    }
}

/// The smaller of two numbers.
pub open spec fn smaller(a: int, b: int) -> int {
    if a < b {
        a
    } else {
        b
    }
}

/// Where a sprite ahead of the camera shows on a screen of the given size:
/// a square as high as a wall at its depth, at least one pixel, centred on
/// the middle row and on the column that its place to the side gives, cut
/// to the screen, whose every column and every row it may reach.
pub open spec fn billboard(player: &Player, sprite: Sprite, width: int, height: int) -> Billboard {
    let depth = sprite_depth(player, sprite);
    let centre = (width * (ahead(player, sprite) + across(player, sprite))) / (2 * ahead(
        player,
        sprite,
    ));
    let size = larger(1, (height * ONE) / depth);
    let part = size / 2;
    Billboard {
        depth,
        size,
        left: centre - part,
        start_x: larger(0, centre - part),
        end_x: smaller(width, part + centre),
        start_y: larger(0, height / 2 - part),
        end_y: smaller(height, part + height / 2),
    }
}

/// Column of the sprite's texture shown in column `x` of the screen.
pub open spec fn sprite_u(b: Billboard, x: int) -> int {
    trunc_div_spec(trunc_div_spec(256 * (x - b.left) * 256, b.size), 256)
}

/// Row of the sprite's texture shown in row `y` of a screen of the given height.
pub open spec fn sprite_v(b: Billboard, height: int, y: int) -> int {
    trunc_div_spec(trunc_div_spec((y * 256 - height * 128 + b.size * 128) * 256, b.size), 256)
}

/// Whether anything of the sprite can show: it stands ahead of the camera,
/// its texture is in the atlas, and there is a depth buffer to test against.
pub open spec fn sprite_shows(player: &Player, sprite: Sprite, rays: Seq<Ray>, atlas: Seq<Texture>) -> bool {
    &&& sprite_depth(player, sprite) > 0
    &&& sprite.texture_index < atlas.len()
    &&& rays.len() > 0
}

/// Whether the pixel `(x, y)` lies in the sprite's square and the wall of
/// its column is farther than the sprite.
pub open spec fn sprite_covers(b: Billboard, rays: Seq<Ray>, width: int, x: int, y: int) -> bool {
    &&& b.start_x <= x < b.end_x
    &&& b.start_y <= y < b.end_y
    &&& b.depth < rays[column_ray_index(x, width, rays.len() as int)].length
}

/// The pixel `(x, y)` of a screen of the given size once `sprite` is drawn
/// over the colour `bg`. Where the sprite shows and covers the pixel, its
/// texture is looked up, shaded by the sprite's own depth and laid over
/// `bg`; elsewhere `bg` stays.
pub open spec fn sprite_pixel(
    player: &Player,
    sprite: Sprite,
    rays: Seq<Ray>,
    atlas: Seq<Texture>,
    width: int,
    height: int,
    x: int,
    y: int,
    bg: Color,
) -> Color {
    let b = billboard(player, sprite, width, height);
    let u = sprite_u(b, x);
    let v = sprite_v(b, height, y);
    if sprite_shows(player, sprite, rays, atlas) && sprite_covers(b, rays, width, x, y) && 0 <= u
        < TEX_SIZE && 0 <= v < TEX_SIZE {
        blend(shade_color(atlas[sprite.texture_index as int].at(u, v), b.depth), bg)
    } else {
        bg
    }
}

/// Where a sprite shows on the screen, as the machine holds it.
pub struct Placement {
    /// Depth into the screen, as a fixed-point number.
    pub depth: i128,
    /// Width and height on the screen, in pixels.
    pub size: i128,
    /// Column of the left edge, on the screen or off it.
    pub left: i128,
    /// First column drawn.
    pub start_x: i128,
    /// Column after the last one drawn.
    pub end_x: i128,
    /// First row drawn.
    pub start_y: i128,
    /// Row after the last one drawn.
    pub end_y: i128,
}

impl Placement {
    /// The same numbers, without bounds.
    pub open spec fn view(&self) -> Billboard {
        Billboard {
            depth: self.depth as int,
            size: self.size as int,
            left: self.left as int,
            start_x: self.start_x as int,
            end_x: self.end_x as int,
            start_y: self.start_y as int,
            end_y: self.end_y as int,
        }
    }
}

/// Works out where `sprite` shows on a screen of the given size; `None`
/// where it stands beside or behind the camera, or the camera's two vectors
/// span no plane.
pub fn place(player: &Player, sprite: &Sprite, width: u32, height: u32) -> (r: Option<Placement>)
    requires
        player.wf(),
    ensures
        r.is_some() <==> sprite_depth(player, *sprite) > 0,
        r.is_some() ==> r.unwrap()@ == billboard(player, *sprite, width as int, height as int),
        r.is_some() ==> 1 <= r.unwrap().size <= 0x1_0000_0000_0000 && 0 <= r.unwrap().start_x
            && r.unwrap().end_x <= width && 0 <= r.unwrap().start_y && r.unwrap().end_y
            <= height && r.unwrap().end_x - r.unwrap().left <= r.unwrap().size
            && r.unwrap().left <= r.unwrap().start_x,
{
    let sx: i128 = (sprite.pos.0 as i128) - (player.pos.0 as i128);
    let sy: i128 = (sprite.pos.1 as i128) - (player.pos.1 as i128);
    let px: i128 = player.plane.0 as i128;
    let py: i128 = player.plane.1 as i128;
    let dx: i128 = player.dir.0 as i128;
    let dy: i128 = player.dir.1 as i128;
    proof {
        lemma_product_bound(px as int, dy as int, MAX_VEC as int, MAX_VEC as int);
        lemma_product_bound(dx as int, py as int, MAX_VEC as int, MAX_VEC as int);
        lemma_product_bound(dy as int, sx as int, MAX_VEC as int, 0x1_0000_0000_0000_0000);
        lemma_product_bound(dx as int, sy as int, MAX_VEC as int, 0x1_0000_0000_0000_0000);
        lemma_product_bound(px as int, sy as int, MAX_VEC as int, 0x1_0000_0000_0000_0000);
        lemma_product_bound(py as int, sx as int, MAX_VEC as int, 0x1_0000_0000_0000_0000);
    }
    let det: i128 = px * dy - dx * py;
    if det == 0 {
        return None;
    }
    let across_raw: i128 = dy * sx - dx * sy;
    let ahead_raw: i128 = px * sy - py * sx;
    let size_det: i128 = if det < 0 {
        -det
    } else {
        det
    };
    let side: i128 = if det < 0 {
        -across_raw
    } else {
        across_raw
    };
    let front: i128 = if det < 0 {
        -ahead_raw
    } else {
        ahead_raw
    };
    if front <= 0 {
        proof {
            assert((front * ONE) / (size_det as int) <= 0) by (nonlinear_arith)
                requires
                    front <= 0,
                    size_det > 0,
                    ONE > 0,
            ;
        }
        return None;
    }
    proof {
        assert(0 <= (front * ONE) / (size_det as int) <= front * ONE) by (nonlinear_arith)
            requires
                front > 0,
                size_det > 0,
                ONE > 0,
        ;
    }
    let depth: i128 = (front * (ONE as i128)) / size_det;
    if depth <= 0 {
        return None;
    }
    let w: i128 = width as i128;
    let h: i128 = height as i128;
    proof {
        lemma_product_bound(w as int, front + side, 0x1_0000_0000, 0x80_0000_0000_0000_0000_0000);
        assert(0 <= (h * ONE) / (depth as int) <= h * ONE) by (nonlinear_arith)
            requires
                h >= 0,
                depth > 0,
                ONE > 0,
        ;
    }
    let centre: i128 = floor_div(w * (front + side), 2 * front);
    let fit: i128 = (h * (ONE as i128)) / depth;
    let size: i128 = if fit < 1 {
        1
    } else {
        fit
    };
    let part: i128 = size / 2;
    proof {
        assert(-0x200_0000_0000_0000_0000_0000_0000_0000 <= centre
            <= 0x200_0000_0000_0000_0000_0000_0000_0000) by (nonlinear_arith)
            requires
                centre == (w * (front + side)) / (2 * front),
                front > 0,
                -0x80_0000_0000_0000_0000_0000_0000_0000 <= w * (front + side)
                    <= 0x80_0000_0000_0000_0000_0000_0000_0000,
        ;
    }
    let left: i128 = centre - part;
    let right: i128 = part + centre;
    Some(
        Placement {
            depth,
            size,
            left,
            start_x: if left < 0 {
                0
            } else {
                left
            },
            end_x: if w < right {
                w
            } else {
                right
            },
            start_y: if h / 2 - part < 0 {
                0
            } else {
                h / 2 - part
            },
            end_y: if h < part + h / 2 {
                h
            } else {
                part + h / 2
            },
        },
    )
}

/// A sprite's colour at depth `depth`; the opacity stays.
pub fn shade_sprite(c: Color, depth: i128) -> (r: Color)
    requires
        depth >= 0,
    ensures
        r == shade_color(c, depth as int),
{
    let d: i64 = if depth >= MAX_DEPTH as i128 {
        MAX_DEPTH
    } else {
        depth as i64
    };
    Color { r: shade_channel(c.r, d), g: shade_channel(c.g, d), b: shade_channel(c.b, d), a: c.a }
}

/// Draws one sprite over the picture.
pub fn draw_sprite(
    img: &mut Frame,
    player: &Player,
    sprite: &Sprite,
    rays: &Vec<Ray>,
    atlas: &Vec<Texture>,
)
    requires
        old(img).wf(),
        player.wf(),
    ensures
        final(img).wf(),
        final(img).spec_width() == old(img).spec_width(),
        final(img).spec_height() == old(img).spec_height(),
        forall|x: int, y: int|
            0 <= x < old(img).spec_width() && 0 <= y < old(img).spec_height()
                ==> #[trigger] final(img).at(x, y) == sprite_pixel(
                player,
                *sprite,
                rays@,
                atlas@,
                old(img).spec_width() as int,
                old(img).spec_height() as int,
                x,
                y,
                old(img).at(x, y),
            ),
{
    let width: u32 = img.width();
    let height: u32 = img.height();
    let n: usize = rays.len();
    if sprite.texture_index as usize >= atlas.len() || n == 0 {
        return ;
    }
    let b: Placement = match place(player, sprite, width, height) {
        Some(b) => b,
        None => {
            return ;
        },
    };
    if b.start_x >= b.end_x || b.start_y >= b.end_y {
        return ;
    }
    let t: &Texture = &atlas[sprite.texture_index as usize];
    let ghost w = width as int;
    let ghost h = height as int;
    let mut x: i128 = b.start_x;
    while x < b.end_x
        invariant
            img.wf(),
            player.wf(),
            img.spec_width() == old(img).spec_width() == width,
            img.spec_height() == old(img).spec_height() == height,
            w == width,
            h == height,
            n == rays@.len(),
            n > 0,
            sprite_shows(player, *sprite, rays@, atlas@),
            b@ == billboard(player, *sprite, w, h),
            1 <= b.size <= 0x1_0000_0000_0000,
            b.depth >= 1,
            0 <= b.start_x < b.end_x <= width,
            0 <= b.start_y < b.end_y <= height,
            b.end_x - b.left <= b.size,
            b.left <= b.start_x,
            *t == atlas@[sprite.texture_index as int],
            b.start_x <= x <= b.end_x,
            forall|i: int, j: int|
                0 <= i < x && 0 <= j < h ==> #[trigger] img.at(i, j) == sprite_pixel(
                    player,
                    *sprite,
                    rays@,
                    atlas@,
                    w,
                    h,
                    i,
                    j,
                    old(img).at(i, j),
                ),
            forall|i: int, j: int|
                x <= i < w && 0 <= j < h ==> #[trigger] img.at(i, j) == old(img).at(i, j),
        decreases b.end_x - x,
    {
        proof {
            assert(0 <= (x * n) / w < n) by (nonlinear_arith)
                requires
                    0 <= x < w,
                    n > 0,
            ;
            assert(0 <= x * n <= 0xffff_ffff * 0xffff_ffff_ffff_ffff) by (nonlinear_arith)
                requires
                    0 <= x <= 0xffff_ffff,
                    0 <= n <= 0xffff_ffff_ffff_ffff,
            ;
        }
        let idx: usize = ((x * (n as i128)) / (width as i128)) as usize;
        let wall: i64 = rays[idx].length;
        let offs: i128 = x - b.left;
        proof {
            assert(0 <= 256 * offs * 256 <= 0x1_0000_0000_0000_0000);
            assert(0 <= (256 * offs * 256) / (b.size as int) <= 256 * offs * 256) by (nonlinear_arith)
                requires
                    0 <= 256 * offs * 256,
                    b.size >= 1,
            ;
        }
        let u: i128 = ((256 * offs * 256) / b.size) / 256;
        if b.depth < wall as i128 && u < 256 {
            let mut y: i128 = b.start_y;
            while y < b.end_y
                invariant
                    img.wf(),
                    img.spec_width() == old(img).spec_width() == width,
                    img.spec_height() == old(img).spec_height() == height,
                    w == width,
                    h == height,
                    sprite_shows(player, *sprite, rays@, atlas@),
                    b@ == billboard(player, *sprite, w, h),
                    1 <= b.size <= 0x1_0000_0000_0000,
                    b.depth >= 1,
                    0 <= b.start_x <= x < b.end_x <= width,
                    0 <= b.start_y <= y <= b.end_y <= height,
                    *t == atlas@[sprite.texture_index as int],
                    0 <= u < 256,
                    u == sprite_u(b@, x as int),
                    b.depth < rays@[column_ray_index(x as int, w, rays@.len() as int)].length,
                    forall|i: int, j: int|
                        0 <= i < x && 0 <= j < h ==> #[trigger] img.at(i, j) == sprite_pixel(
                            player,
                            *sprite,
                            rays@,
                            atlas@,
                            w,
                            h,
                            i,
                            j,
                            old(img).at(i, j),
                        ),
                    forall|i: int, j: int|
                        x < i < w && 0 <= j < h ==> #[trigger] img.at(i, j) == old(img).at(i, j),
                    forall|j: int|
                        0 <= j < y ==> #[trigger] img.at(x as int, j) == sprite_pixel(
                            player,
                            *sprite,
                            rays@,
                            atlas@,
                            w,
                            h,
                            x as int,
                            j,
                            old(img).at(x as int, j),
                        ),
                    forall|j: int| y <= j < h ==> #[trigger] img.at(x as int, j) == old(img).at(x as int, j),
                decreases b.end_y - y,
            {
                let d: i128 = y * 256 - (height as i128) * 128 + b.size * 128;
                let v: i128 = trunc_div(trunc_div(d * 256, b.size), 256);
                if 0 <= v && v < 256 {
                    let texel: Color = t.get(u as usize, v as usize);
                    let bg: Color = img.get(x as u32, y as u32);
                    let fg: Color = shade_sprite(texel, b.depth);
                    img.put(x as u32, y as u32, composite(fg, bg));
                }
                y = y + 1;
            }
        }
        x = x + 1;
    }
}

/// The sprites of `s`, each with its distance from `pos`.
pub open spec fn measured(s: Seq<Sprite>, pos: (Fixed, Fixed)) -> Seq<Sprite> {
    Seq::new(s.len(), |i: int| (Sprite { dist: distance(s[i].pos, pos), ..s[i] }))
}

/// The order in which the sprites of `s` are drawn for a camera at `pos`:
/// from the farthest to the nearest, so that a nearer sprite is laid over a
/// farther one.
pub open spec fn drawing_order(s: Seq<Sprite>, pos: (Fixed, Fixed)) -> Seq<Sprite> {
    far_first(measured(s, pos))
}

/// The pixel `(x, y)` once the first `k` sprites of `order` are drawn, one
/// after the other, over the colour `bg`.
pub open spec fn overlay(
    order: Seq<Sprite>,
    k: nat,
    player: &Player,
    atlas: Seq<Texture>,
    width: int,
    height: int,
    x: int,
    y: int,
    bg: Color,
) -> Color
    decreases k,
{
    if k == 0 {
        bg
    } else {
        sprite_pixel(
            player,
            order[k - 1],
            player.rays@,
            atlas,
            width,
            height,
            x,
            y,
            overlay(order, (k - 1) as nat, player, atlas, width, height, x, y, bg),
        )
    }
}

/// Draws the sprites over the picture of the walls. Each sprite gets its
/// distance from the camera, the sprites are put in order from the farthest
/// to the nearest, and each is drawn in turn: where it stands ahead of the
/// camera and nearer than the wall of a column, its texture, shaded by its
/// depth, is laid over what the picture holds there.
pub fn draw_sprites(img: &mut Frame, player: &Player, sprites: &mut Vec<Sprite>, atlas: &Vec<Texture>)
    requires
        old(img).wf(),
        player.wf(),
    ensures
        final(img).wf(),
        final(img).spec_width() == old(img).spec_width(),
        final(img).spec_height() == old(img).spec_height(),
        final(sprites)@ == drawing_order(old(sprites)@, player.pos),
        forall|x: int, y: int|
            0 <= x < old(img).spec_width() && 0 <= y < old(img).spec_height()
                ==> #[trigger] final(img).at(x, y) == overlay(
                final(sprites)@,
                final(sprites)@.len(),
                player,
                atlas@,
                old(img).spec_width() as int,
                old(img).spec_height() as int,
                x,
                y,
                old(img).at(x, y),
            ),
{
    let n: usize = sprites.len();
    let mut order: Vec<Sprite> = Vec::new();
    let mut i: usize = 0;
    while i < n
        invariant
            *sprites == *old(sprites),
            n == sprites@.len(),
            0 <= i <= n,
            order@.len() == i,
            forall|k: int| 0 <= k < i ==> #[trigger] order@[k] == measured(sprites@, player.pos)[k],
        decreases n - i,
    {
        let mut sp: Sprite = sprites[i];
        let d: Fixed = sp.eucl_dist(player.pos);
        sp.dist = d;
        order.push(sp);
        i = i + 1;
    }
    proof {
        assert(order@ =~= measured(sprites@, player.pos));
    }
    sort_far_first(&mut order);
    let ghost w = img.spec_width() as int;
    let ghost h = img.spec_height() as int;
    let mut k: usize = 0;
    while k < n
        invariant
            player.wf(),
            img.wf(),
            img.spec_width() == old(img).spec_width() == w,
            img.spec_height() == old(img).spec_height() == h,
            order@ == drawing_order(old(sprites)@, player.pos),
            n == order@.len(),
            0 <= k <= n,
            forall|x: int, y: int|
                0 <= x < w && 0 <= y < h ==> #[trigger] img.at(x, y) == overlay(
                    order@,
                    k as nat,
                    player,
                    atlas@,
                    w,
                    h,
                    x,
                    y,
                    old(img).at(x, y),
                ),
        decreases n - k,
    {
        let sp: Sprite = order[k];
        draw_sprite(img, player, &sp, &player.rays, atlas);
        k = k + 1;
    }
    *sprites = order;
}

/// A sprite does not show in a column whose wall is no farther than the
/// sprite: there the picture stays as it was.
pub proof fn lemma_sprite_hidden(
    player: &Player,
    sprite: Sprite,
    rays: Seq<Ray>,
    atlas: Seq<Texture>,
    width: int,
    height: int,
    x: int,
    y: int,
    bg: Color,
)
    requires
        rays.len() > 0,
        sprite_depth(player, sprite) >= rays[column_ray_index(x, width, rays.len() as int)].length,
    ensures
        sprite_pixel(player, sprite, rays, atlas, width, height, x, y, bg) == bg,
{
}

/// A sprite shows in a column whose wall is farther than the sprite: a
/// pixel of its square that falls on its texture holds that texture's
/// colour, shaded by the sprite's depth and laid over what was there.
pub proof fn lemma_sprite_shown(
    player: &Player,
    sprite: Sprite,
    rays: Seq<Ray>,
    atlas: Seq<Texture>,
    width: int,
    height: int,
    x: int,
    y: int,
    bg: Color,
)
    requires
        sprite_shows(player, sprite, rays, atlas),
        0 < sprite_depth(player, sprite) < rays[column_ray_index(x, width, rays.len() as int)].length,
        billboard(player, sprite, width, height).start_x <= x < billboard(
            player,
            sprite,
            width,
            height,
        ).end_x,
        billboard(player, sprite, width, height).start_y <= y < billboard(
            player,
            sprite,
            width,
            height,
        ).end_y,
        0 <= sprite_u(billboard(player, sprite, width, height), x) < TEX_SIZE,
        0 <= sprite_v(billboard(player, sprite, width, height), height, y) < TEX_SIZE,
    ensures
        sprite_pixel(player, sprite, rays, atlas, width, height, x, y, bg) == blend(
            shade_color(
                atlas[sprite.texture_index as int].at(
                    sprite_u(billboard(player, sprite, width, height), x),
                    sprite_v(billboard(player, sprite, width, height), height, y),
                ),
                sprite_depth(player, sprite),
            ),
            bg,
        ),
{
}

/// An opaque colour laid over any background gives that colour, and a
/// transparent one gives the background.
pub proof fn lemma_blend_ends(fg: Color, bg: Color)
    ensures
        fg.a == 255 ==> blend(fg, bg) == fg,
        fg.a == 0 ==> blend(fg, bg) == bg,
{
}

} // verus!
