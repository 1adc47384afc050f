use raycast::compose::{composite, draw_sprite, draw_sprites, mix_channel, place, shade_sprite};
use raycast::fixed::{Fixed, ONE};
use raycast::frame::{Color, Frame};
use raycast::player::Player;
use raycast::raster::{create_texture, shade_channel, shade_wall, MAX_DEPTH};
use raycast::ray::Ray;
use raycast::sprite::{sort_far_first, Sprite};
use raycast::texture::Texture;

fn fx(n: i64) -> Fixed {
    n * ONE
}

const BLANK: Color = Color { r: 0, g: 0, b: 0, a: 0 };

/// A texture whose pixel in column `x` of row `y` is `(x, y, blue, alpha)`.
fn gradient(blue: u8, alpha: u8) -> Texture {
    let mut pixels: Vec<Color> = Vec::new();
    for x in 0..256u32 {
        for y in 0..256u32 {
            pixels.push(Color { r: x as u8, g: y as u8, b: blue, a: alpha });
        }
    }
    Texture::new(pixels).unwrap()
}

fn wall_ray(length: Fixed, side: u8, texture_index: u8, texture_pos: i32) -> Ray {
    Ray {
        start: (0, 0),
        end: (0, 0),
        angle: 0,
        length,
        max_length: 0,
        collided: true,
        side,
        texture_index,
        texture_pos,
    }
}

fn camera_with_walls(columns: usize, length: Fixed) -> Player {
    let mut rays: Vec<Ray> = Vec::new();
    for _ in 0..columns {
        rays.push(wall_ray(length, 0, 1, 0));
    }
    Player { plane: (0, 43254), dir: (-ONE, 0), pos: (fx(8), fx(5)), rays }
}

fn sprite_at(x: Fixed, y: Fixed, texture_index: u8) -> Sprite {
    Sprite { pos: (x, y), texture_index, dist: 0 }
}

fn filled(width: u32, height: u32, c: Color) -> Frame {
    let mut img = Frame::new(width, height);
    for x in 0..width {
        for y in 0..height {
            img.put(x, y, c);
        }
    }
    img
}

#[test]
fn a_new_frame_is_blank_and_keeps_what_is_put() {
    let mut img = Frame::new(3, 2);
    assert_eq!(img.width(), 3);
    assert_eq!(img.height(), 2);
    for x in 0..3 {
        for y in 0..2 {
            assert_eq!(img.get(x, y), BLANK);
        }
    }
    let c = Color { r: 1, g: 2, b: 3, a: 4 };
    img.put(2, 1, c);
    assert_eq!(img.get(2, 1), c);
    assert_eq!(img.get(1, 1), BLANK);
    assert_eq!(img.get(2, 0), BLANK);
    assert_eq!(img.width(), 3);
    assert_eq!(img.height(), 2);
}

#[test]
fn bytes_run_row_after_row() {
    let mut img = Frame::new(2, 2);
    img.put(1, 0, Color { r: 1, g: 2, b: 3, a: 4 });
    img.put(0, 1, Color { r: 5, g: 6, b: 7, a: 8 });
    assert_eq!(img.to_bytes(), vec![0, 0, 0, 0, 1, 2, 3, 4, 5, 6, 7, 8, 0, 0, 0, 0]);
}

#[test]
fn texture_needs_all_its_pixels() {
    assert!(Texture::new(Vec::new()).is_none());
    assert!(Texture::new(vec![BLANK; 65535]).is_none());
    assert!(Texture::new(vec![BLANK; 65537]).is_none());
    let t = gradient(9, 255);
    assert_eq!(t.get(3, 200), Color { r: 3, g: 200, b: 9, a: 255 });
    assert_eq!(t.get(255, 0), Color { r: 255, g: 0, b: 9, a: 255 });
}

#[test]
fn shade_fades_to_black_at_the_far_distance() {
    assert_eq!(shade_channel(200, 0), 200);
    assert_eq!(shade_channel(200, fx(2)), 160);
    assert_eq!(shade_channel(200, fx(5)), 100);
    assert_eq!(shade_channel(200, fx(8)), 40);
    assert_eq!(shade_channel(200, MAX_DEPTH), 0);
    assert_eq!(shade_channel(200, fx(50)), 0);
    assert_eq!(shade_channel(74, fx(2)), 59);
}

#[test]
fn wall_colour_is_opaque_and_halved_on_faces_of_constant_y() {
    let c = Color { r: 10, g: 74, b: 200, a: 17 };
    assert_eq!(shade_wall(c, fx(2), 0), Color { r: 8, g: 59, b: 160, a: 255 });
    assert_eq!(shade_wall(c, fx(2), 1), Color { r: 4, g: 29, b: 80, a: 255 });
}

#[test]
fn near_wall_fills_the_column_and_is_cropped() {
    let tex = vec![gradient(200, 255)];
    let rays = vec![wall_ray(fx(2), 0, 1, 10)];
    let img = create_texture(&rays, &tex, 4, 100);
    assert_eq!(img.width(), 4);
    assert_eq!(img.height(), 100);
    for x in 0..4 {
        assert_eq!(img.get(x, 0), Color { r: 8, g: 59, b: 160, a: 255 });
        assert_eq!(img.get(x, 99), Color { r: 8, g: 144, b: 160, a: 255 });
    }
}

#[test]
fn far_wall_leaves_the_rows_above_and_below_blank() {
    let tex = vec![gradient(200, 255)];
    let rays = vec![wall_ray(fx(8), 0, 1, 0)];
    let img = create_texture(&rays, &tex, 2, 100);
    assert_eq!(img.get(0, 19), BLANK);
    assert_eq!(img.get(0, 20), Color { r: 0, g: 0, b: 40, a: 255 });
    assert_eq!(img.get(0, 79), Color { r: 0, g: 50, b: 40, a: 255 });
    assert_eq!(img.get(0, 80), BLANK);
}

#[test]
fn wall_beyond_the_far_distance_is_black() {
    let tex = vec![gradient(200, 255)];
    let rays = vec![wall_ray(fx(12), 0, 1, 77)];
    let img = create_texture(&rays, &tex, 1, 100);
    assert_eq!(img.get(0, 50), Color { r: 0, g: 0, b: 0, a: 255 });
    assert_eq!(img.get(0, 29), BLANK);
    assert_eq!(img.get(0, 30), Color { r: 0, g: 0, b: 0, a: 255 });
}

#[test]
fn each_column_shows_its_ray() {
    let tex = vec![gradient(200, 255), gradient(100, 255)];
    let rays = vec![wall_ray(fx(2), 0, 1, 0), wall_ray(fx(2), 0, 2, 0)];
    let img = create_texture(&rays, &tex, 4, 10);
    assert_eq!(img.get(0, 5).b, 160);
    assert_eq!(img.get(1, 5).b, 160);
    assert_eq!(img.get(2, 5).b, 80);
    assert_eq!(img.get(3, 5).b, 80);
}

#[test]
fn empty_view_and_empty_fan_are_guarded() {
    let tex = vec![gradient(200, 255)];
    let none: Vec<Ray> = Vec::new();
    let img = create_texture(&none, &tex, 3, 3);
    for x in 0..3 {
        for y in 0..3 {
            assert_eq!(img.get(x, y), BLANK);
        }
    }
    let rays = vec![wall_ray(fx(2), 0, 1, 0)];
    let tiny = create_texture(&rays, &tex, 0, 0);
    assert_eq!(tiny.width(), 1);
    assert_eq!(tiny.height(), 1);
    assert_eq!(tiny.get(0, 0).a, 255);
}

#[test]
fn ray_without_a_texture_leaves_its_column_blank() {
    let tex = vec![gradient(200, 255)];
    let rays = vec![
        wall_ray(fx(2), 0, 0, 0),
        wall_ray(fx(2), 0, 2, 0),
        wall_ray(fx(2), 0, 1, 256),
        wall_ray(-1, 0, 1, 0),
        wall_ray(fx(2), 0, 1, 255),
    ];
    let img = create_texture(&rays, &tex, 5, 10);
    for x in 0..4 {
        for y in 0..10 {
            assert_eq!(img.get(x, y), BLANK);
        }
    }
    assert_eq!(img.get(4, 5).r, 204);
}

#[test]
fn wall_at_distance_zero_counts_as_the_nearest() {
    let tex = vec![gradient(200, 255)];
    let rays = vec![wall_ray(0, 0, 1, 3)];
    let img = create_texture(&rays, &tex, 1, 4);
    assert_eq!(img.get(0, 0), Color { r: 3, g: 127, b: 200, a: 255 });
    assert_eq!(img.get(0, 1), Color { r: 3, g: 127, b: 200, a: 255 });
    assert_eq!(img.get(0, 2), Color { r: 3, g: 128, b: 200, a: 255 });
    assert_eq!(img.get(0, 3), Color { r: 3, g: 128, b: 200, a: 255 });
}

#[test]
fn opaque_covers_and_transparent_leaves() {
    let bg = Color { r: 9, g: 8, b: 7, a: 200 };
    let opaque = Color { r: 51, g: 52, b: 53, a: 255 };
    assert_eq!(composite(opaque, bg), opaque);
    let clear = Color { r: 51, g: 52, b: 53, a: 0 };
    assert_eq!(composite(clear, bg), bg);
}

#[test]
fn partial_opacity_mixes_with_the_background() {
    assert_eq!(mix_channel(200, 100, 128), 150);
    assert_eq!(mix_channel(200, 100, 255), 200);
    assert_eq!(mix_channel(200, 100, 0), 100);
    let fg = Color { r: 200, g: 51, b: 80, a: 128 };
    let solid = Color { r: 100, g: 10, b: 30, a: 255 };
    assert_eq!(composite(fg, solid), Color { r: 150, g: 30, b: 55, a: 255 });
    let sky = Color { r: 100, g: 10, b: 30, a: 0 };
    assert_eq!(composite(fg, sky), Color { r: 150, g: 30, b: 55, a: 128 });
}

#[test]
fn sprite_shade_keeps_the_opacity() {
    let c = Color { r: 64, g: 100, b: 200, a: 77 };
    assert_eq!(shade_sprite(c, fx(2) as i128), Color { r: 51, g: 80, b: 160, a: 77 });
    assert_eq!(shade_sprite(c, 1i128 << 100), Color { r: 0, g: 0, b: 0, a: 77 });
}

#[test]
fn sprite_ahead_is_a_centred_square() {
    let cam = camera_with_walls(40, fx(5));
    let b = place(&cam, &sprite_at(fx(6), fx(5), 0), 40, 40).unwrap();
    assert_eq!(b.depth, fx(2) as i128);
    assert_eq!(b.size, 20);
    assert_eq!(b.left, 10);
    assert_eq!((b.start_x, b.end_x), (10, 30));
    assert_eq!((b.start_y, b.end_y), (10, 30));
}

#[test]
fn sprite_behind_or_beside_the_camera_has_no_place() {
    let cam = camera_with_walls(40, fx(5));
    assert!(place(&cam, &sprite_at(fx(10), fx(5), 0), 40, 40).is_none());
    assert!(place(&cam, &sprite_at(fx(8), fx(7), 0), 40, 40).is_none());
    let flat = Player { plane: (ONE, 0), dir: (ONE, 0), pos: (fx(8), fx(5)), rays: Vec::new() };
    assert!(place(&flat, &sprite_at(fx(10), fx(5), 0), 40, 40).is_none());
}

#[test]
fn far_sprite_is_at_least_one_pixel() {
    let cam = camera_with_walls(4, fx(5));
    let far = Player { plane: cam.plane, dir: cam.dir, pos: (fx(30000), fx(5)), rays: Vec::new() };
    let b = place(&far, &sprite_at(fx(1), fx(5), 0), 4, 4).unwrap();
    assert_eq!(b.size, 1);
}

#[test]
fn sprite_in_front_of_the_wall_shows() {
    let cam = camera_with_walls(40, fx(5));
    let atlas = vec![gradient(100, 255)];
    let bg = Color { r: 1, g: 2, b: 3, a: 255 };
    let mut img = filled(40, 40, bg);
    draw_sprite(&mut img, &cam, &sprite_at(fx(6), fx(5), 0), &cam.rays, &atlas);
    assert_eq!(img.get(15, 15), Color { r: 51, g: 51, b: 80, a: 255 });
    assert_eq!(img.get(10, 10), Color { r: 0, g: 0, b: 80, a: 255 });
    assert_eq!(img.get(29, 29), Color { r: 194, g: 194, b: 80, a: 255 });
    assert_eq!(img.get(9, 15), bg);
    assert_eq!(img.get(30, 15), bg);
    assert_eq!(img.get(15, 9), bg);
    assert_eq!(img.get(15, 30), bg);
}

#[test]
fn sprite_behind_the_wall_does_not_show() {
    let cam = camera_with_walls(40, fx(1) + ONE / 2);
    let atlas = vec![gradient(100, 255)];
    let bg = Color { r: 1, g: 2, b: 3, a: 255 };
    let mut img = filled(40, 40, bg);
    draw_sprite(&mut img, &cam, &sprite_at(fx(6), fx(5), 0), &cam.rays, &atlas);
    for x in 0..40 {
        for y in 0..40 {
            assert_eq!(img.get(x, y), bg);
        }
    }
    let level = camera_with_walls(40, fx(2));
    draw_sprite(&mut img, &level, &sprite_at(fx(6), fx(5), 0), &level.rays, &atlas);
    assert_eq!(img.get(15, 15), bg);
}

#[test]
fn sprite_shows_only_in_the_columns_where_it_is_nearer() {
    let mut cam = camera_with_walls(40, fx(5));
    for i in 0..20 {
        cam.rays[i].length = fx(1);
    }
    let atlas = vec![gradient(100, 255)];
    let bg = Color { r: 1, g: 2, b: 3, a: 255 };
    let mut img = filled(40, 40, bg);
    draw_sprite(&mut img, &cam, &sprite_at(fx(6), fx(5), 0), &cam.rays, &atlas);
    assert_eq!(img.get(19, 15), bg);
    assert_eq!(img.get(20, 15), Color { r: 102, g: 51, b: 80, a: 255 });
}

#[test]
fn transparent_sprite_pixels_leave_the_picture() {
    let cam = camera_with_walls(40, fx(5));
    let atlas = vec![gradient(100, 0)];
    let bg = Color { r: 1, g: 2, b: 3, a: 255 };
    let mut img = filled(40, 40, bg);
    draw_sprite(&mut img, &cam, &sprite_at(fx(6), fx(5), 0), &cam.rays, &atlas);
    for x in 0..40 {
        for y in 0..40 {
            assert_eq!(img.get(x, y), bg);
        }
    }
}

#[test]
fn half_opaque_sprite_mixes_with_the_wall() {
    let cam = camera_with_walls(40, fx(5));
    let atlas = vec![gradient(100, 128)];
    let bg = Color { r: 10, g: 10, b: 30, a: 255 };
    let mut img = filled(40, 40, bg);
    draw_sprite(&mut img, &cam, &sprite_at(fx(6), fx(5), 0), &cam.rays, &atlas);
    assert_eq!(img.get(15, 15), Color { r: 30, g: 30, b: 55, a: 255 });
}

#[test]
fn sprite_without_a_texture_or_a_depth_buffer_is_skipped() {
    let cam = camera_with_walls(40, fx(5));
    let atlas = vec![gradient(100, 255)];
    let bg = Color { r: 1, g: 2, b: 3, a: 255 };
    let mut img = filled(40, 40, bg);
    draw_sprite(&mut img, &cam, &sprite_at(fx(6), fx(5), 1), &cam.rays, &atlas);
    assert_eq!(img.get(15, 15), bg);
    let none: Vec<Ray> = Vec::new();
    draw_sprite(&mut img, &cam, &sprite_at(fx(6), fx(5), 0), &none, &atlas);
    assert_eq!(img.get(15, 15), bg);
}

#[test]
fn sprites_are_sorted_from_far_to_near() {
    let mut sprites = vec![
        Sprite { pos: (0, 0), texture_index: 0, dist: fx(2) },
        Sprite { pos: (0, 0), texture_index: 1, dist: fx(4) },
        Sprite { pos: (0, 0), texture_index: 2, dist: fx(1) },
        Sprite { pos: (0, 0), texture_index: 3, dist: fx(4) },
    ];
    sort_far_first(&mut sprites);
    let order: Vec<u8> = sprites.iter().map(|s| s.texture_index).collect();
    assert_eq!(order, vec![1, 3, 0, 2]);
}

#[test]
fn nearer_sprite_is_drawn_over_the_farther_whatever_the_order() {
    let atlas = vec![gradient(100, 255), gradient(250, 255)];
    let bg = Color { r: 1, g: 2, b: 3, a: 255 };
    let near = sprite_at(fx(6), fx(5), 0);
    let far = sprite_at(fx(4), fx(5), 1);

    let cam = camera_with_walls(40, fx(5));
    let mut first = filled(40, 40, bg);
    let mut sprites = vec![near, far];
    draw_sprites(&mut first, &cam, &mut sprites, &atlas);
    assert_eq!(sprites[0].texture_index, 1);
    assert_eq!(sprites[0].dist, fx(4));
    assert_eq!(sprites[1].texture_index, 0);
    assert_eq!(sprites[1].dist, fx(2));

    let mut second = filled(40, 40, bg);
    let mut reversed = vec![far, near];
    draw_sprites(&mut second, &cam, &mut reversed, &atlas);
    for x in 0..40 {
        for y in 0..40 {
            assert_eq!(first.get(x, y), second.get(x, y));
        }
    }
    assert_eq!(first.get(20, 20).b, 80);
    assert_eq!(first.get(15, 15), Color { r: 51, g: 51, b: 80, a: 255 });
    assert_eq!(first.get(17, 17).b, 80);
    assert_eq!(first.get(5, 5), bg);
}

#[test]
fn near_sprite_reaches_the_last_column_and_the_last_row() {
    let cam = camera_with_walls(40, fx(5));
    let atlas = vec![gradient(100, 255)];
    let bg = Color { r: 1, g: 2, b: 3, a: 255 };

    let near = sprite_at(fx(7) + ONE / 2, fx(5), 0);
    let b = place(&cam, &near, 40, 40).unwrap();
    assert_eq!(b.depth, (ONE / 2) as i128);
    assert_eq!(b.size, 80);
    assert_eq!(b.left, -20);
    assert_eq!((b.start_x, b.end_x), (0, 40));
    assert_eq!((b.start_y, b.end_y), (0, 40));
    let mut img = filled(40, 40, bg);
    draw_sprite(&mut img, &cam, &near, &cam.rays, &atlas);
    assert_eq!(img.get(0, 0), Color { r: 60, g: 60, b: 95, a: 255 });
    assert_eq!(img.get(39, 39), Color { r: 178, g: 178, b: 95, a: 255 });
    assert_eq!(img.get(39, 20), Color { r: 178, g: 121, b: 95, a: 255 });
    assert_eq!(img.get(20, 39), Color { r: 121, g: 178, b: 95, a: 255 });
    for x in 0..40 {
        for y in 0..40 {
            assert_eq!(img.get(x, y).b, 95);
        }
    }
}

#[test]
fn sprite_that_just_fills_the_view_covers_all_of_it() {
    let cam = camera_with_walls(40, fx(5));
    let atlas = vec![gradient(100, 255)];
    let bg = Color { r: 1, g: 2, b: 3, a: 255 };
    let sprite = sprite_at(fx(7), fx(5), 0);
    let b = place(&cam, &sprite, 40, 40).unwrap();
    assert_eq!(b.size, 40);
    assert_eq!((b.start_x, b.end_x), (0, 40));
    assert_eq!((b.start_y, b.end_y), (0, 40));
    let mut img = filled(40, 40, bg);
    draw_sprite(&mut img, &cam, &sprite, &cam.rays, &atlas);
    assert_eq!(img.get(39, 39), Color { r: 224, g: 224, b: 90, a: 255 });
    assert_eq!(img.get(39, 0), Color { r: 224, g: 0, b: 90, a: 255 });
    assert_eq!(img.get(0, 39), Color { r: 0, g: 224, b: 90, a: 255 });
}

#[test]
fn sprite_in_front_shows_at_the_edge_of_a_wide_view() {
    let mut cam = camera_with_walls(600, fx(2) + ONE / 2);
    cam.pos = (fx(8), fx(5));
    let atlas = vec![gradient(100, 255)];
    let bg = Color { r: 1, g: 2, b: 3, a: 255 };
    let mut img = filled(600, 480, bg);
    draw_sprite(&mut img, &cam, &sprite_at(fx(7), fx(5), 0), &cam.rays, &atlas);
    assert_eq!(img.get(300, 479).b, 90);
    assert_eq!(img.get(300, 0).b, 90);
    assert_eq!(img.get(539, 240).b, 90);
    assert_eq!(img.get(540, 240), bg);
    let mut off = cam;
    off.plane = (0, 43254);
    let side = sprite_at(fx(7), fx(5) + 43254, 0);
    let b = place(&off, &side, 600, 480).unwrap();
    assert_eq!(b.end_x, 600);
    let mut second = filled(600, 480, bg);
    draw_sprite(&mut second, &off, &side, &off.rays, &atlas);
    assert_eq!(second.get(599, 240).b, 90);
    assert_eq!(second.get(599, 479).b, 90);
}
