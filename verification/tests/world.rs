use raycast::app::{App, ConfigError, RAY_COUNT};
use raycast::cell::Cell;
use raycast::fixed::{floor, floor_div, isqrt, length_between, mul_floor, trunc_div, Fixed, ONE};
use raycast::grid::{GridMap, TextureError, CELL_SIDE};
use raycast::input_handler::{InputHandler, Key};
use raycast::player::{rotate, Player};
use raycast::ray::{Ray, MISS};
use raycast::sprite::{check_sprites, Sprite, SpriteError};
use raycast::wall::Wall;

fn fx(n: i64) -> Fixed {
    n * ONE
}

fn grid(rows: &[&[u8]]) -> GridMap {
    let height = rows.len();
    let width = rows[0].len();
    let mut tiles: Vec<Vec<u8>> = Vec::new();
    for x in 0..width {
        let mut column: Vec<u8> = Vec::new();
        for y in 0..height {
            column.push(rows[y][x]);
        }
        tiles.push(column);
    }
    GridMap::new(tiles).unwrap()
}

fn corridor() -> GridMap {
    grid(&[&[1, 1, 1, 1, 1, 1, 1], &[1, 0, 0, 0, 0, 0, 1], &[1, 1, 1, 1, 1, 1, 1]])
}

fn camera(pos: (Fixed, Fixed), dir: (Fixed, Fixed)) -> Player {
    Player { plane: (0, 43254), dir, pos, rays: Vec::new() }
}

fn plain_ray(start: (Fixed, Fixed), end: (Fixed, Fixed)) -> Ray {
    Ray {
        start,
        end,
        angle: 0,
        length: 0,
        max_length: 0,
        collided: false,
        side: 0,
        texture_index: 0,
        texture_pos: 0,
    }
}

#[test]
fn fixed_point_rounds_down() {
    assert_eq!(mul_floor(ONE / 2, ONE / 2), ONE / 4);
    assert_eq!(mul_floor(-1, 1), -1);
    assert_eq!(mul_floor(3 * ONE, -2 * ONE), -6 * ONE);
    assert_eq!(floor(ONE + 1), 1);
    assert_eq!(floor(-1), -1);
    assert_eq!(floor(-ONE), -1);
    assert_eq!(floor_div(-7, 2), -4);
    assert_eq!(floor_div(7, 2), 3);
    assert_eq!(trunc_div(-7, 2), -3);
    assert_eq!(trunc_div(7, 2), 3);
}

#[test]
fn square_root_rounds_down() {
    assert_eq!(isqrt(0), 0);
    assert_eq!(isqrt(1), 1);
    assert_eq!(isqrt(24), 4);
    assert_eq!(isqrt(25), 5);
    assert_eq!(isqrt(u128::MAX), u64::MAX);
    assert_eq!(length_between((0, 0), (fx(3), fx(4))), fx(5));
    assert_eq!(length_between((fx(1), fx(1)), (fx(2), fx(2))), 92681);
    assert_eq!(length_between((i64::MIN, 0), (i64::MAX, 0)), i64::MAX);
}

#[test]
fn grid_is_a_rectangle() {
    assert!(GridMap::new(Vec::new()).is_none());
    assert!(GridMap::new(vec![Vec::new()]).is_none());
    assert!(GridMap::new(vec![vec![1, 0], vec![1]]).is_none());
    let g = GridMap::new(vec![vec![1, 0, 2], vec![3, 4, 5]]).unwrap();
    assert_eq!(g.width(), 2);
    assert_eq!(g.height(), 3);
    assert_eq!(g.tile(1, 2), Some(5));
    assert_eq!(g.tile(0, 1), Some(0));
    assert_eq!(g.tile(2, 0), None);
    assert_eq!(g.tile(0, 3), None);
    assert_eq!(g.tile(-1, 0), None);
    assert!(g.is_open(0, 1));
    assert!(!g.is_open(0, 0));
    assert!(!g.is_open(5, 5));
    assert_eq!(g.cells().len(), 0);
}

#[test]
fn grid_knows_whether_it_is_enclosed() {
    assert!(corridor().is_enclosed());
    let gap = grid(&[&[1, 1, 1], &[1, 0, 0], &[1, 1, 1]]);
    assert!(!gap.is_enclosed());
    let open_corner = grid(&[&[0, 1, 1], &[1, 0, 1], &[1, 1, 1]]);
    assert!(!open_corner.is_enclosed());
    assert!(grid(&[&[7]]).is_enclosed());
    assert!(!grid(&[&[0]]).is_enclosed());
}

#[test]
fn missing_texture_is_reported_with_its_first_wall() {
    let g = grid(&[&[1, 1, 1, 1], &[1, 0, 3, 1], &[1, 4, 0, 1], &[1, 1, 1, 1]]);
    assert_eq!(g.check_textures(4), Ok(()));
    assert_eq!(g.check_textures(3), Err(TextureError { x: 1, y: 2, id: 4 }));
    assert_eq!(g.check_textures(2), Err(TextureError { x: 1, y: 2, id: 4 }));
    assert_eq!(g.check_textures(0), Err(TextureError { x: 0, y: 0, id: 1 }));
}

#[test]
fn walls_are_derived_row_by_row() {
    let mut g = grid(&[&[0, 2], &[1, 0]]);
    g.make_map();
    let cells: &Vec<Cell> = g.cells();
    assert_eq!(cells.len(), 2);
    assert_eq!(cells[0].pos, (fx(1), 0));
    assert_eq!(cells[1].pos, (0, fx(1)));
    assert_eq!(cells[0].l, CELL_SIDE);
    let l = CELL_SIDE;
    let w = cells[0].walls;
    assert_eq!((w[0].start, w[0].end), ((l, 0), (2 * l, 0)));
    assert_eq!((w[1].start, w[1].end), ((2 * l, 0), (2 * l, l)));
    assert_eq!((w[2].start, w[2].end), ((l, l), (2 * l, l)));
    assert_eq!((w[3].start, w[3].end), ((l, 0), (l, l)));
    assert_eq!(g.tile(1, 0), Some(2));
}

#[test]
fn cell_builds_its_four_sides() {
    let mut c = Cell { walls: [Wall::default(); 4], pos: (fx(2), fx(3)), l: ONE / 2 };
    c.create_walls();
    let h = ONE / 2;
    assert_eq!((c.walls[0].start, c.walls[0].end), ((fx(1), 3 * h), (fx(1) + h, 3 * h)));
    assert_eq!((c.walls[1].start, c.walls[1].end), ((fx(1) + h, 3 * h), (fx(1) + h, fx(2))));
    assert_eq!((c.walls[2].start, c.walls[2].end), ((fx(1), fx(2)), (fx(1) + h, fx(2))));
    assert_eq!((c.walls[3].start, c.walls[3].end), ((fx(1), 3 * h), (fx(1), fx(2))));
    assert_eq!(c.pos, (fx(2), fx(3)));
    assert_eq!(c.l, h);
}

#[test]
fn wall_measures_along_itself() {
    let d = Wall::default();
    assert_eq!((d.start, d.end), ((0, 0), (0, 0)));
    assert_eq!(Wall::calc_length((0, 0), (fx(3), fx(4))), fx(5));
    let mut w = Wall { start: (fx(1), fx(1)), end: (fx(5), fx(1)) };
    assert_eq!(w.dist_along_wall((fx(2), fx(1))), Some(ONE / 4));
    assert_eq!(w.dist_along_wall((fx(1), fx(1))), Some(0));
    assert_eq!(w.dist_along_wall((fx(9), fx(1))), Some(2 * ONE));
    let mut point = Wall { start: (fx(1), fx(1)), end: (fx(1), fx(1)) };
    assert_eq!(point.dist_along_wall((fx(2), fx(1))), None);
    let mut short = Wall { start: (0, 0), end: (1, 0) };
    assert_eq!(short.dist_along_wall((i64::MAX, 0)), None);
}

#[test]
fn ray_reaches_along_its_heading() {
    let mut r = plain_ray((fx(1), fx(2)), (0, 0));
    r.max_length = fx(10);
    assert_eq!(r.calc_end(ONE, 0), (fx(11), fx(2)));
    assert_eq!(r.calc_end(0, -ONE), (fx(1), fx(-8)));
    assert_eq!(r.calc_end(ONE / 2, ONE / 2), (fx(6), fx(7)));
    assert_eq!(r.end, (0, 0));
}

#[test]
fn ray_length_is_the_distance_to_its_end() {
    let mut r = plain_ray((fx(1), fx(1)), (fx(4), fx(5)));
    assert_eq!(r.calc_length(), fx(5));
    assert_eq!(Ray::calc_length_of_ray((fx(4), fx(5)), (fx(1), fx(1))), fx(5));
}

#[test]
fn ray_turn_keeps_the_heading_within_a_full_turn() {
    let mut r = plain_ray((0, 0), (0, 0));
    r.max_length = fx(2);
    r.angle = fx(350);
    r.turn(fx(20), ONE, 0);
    assert_eq!(r.angle, fx(10));
    assert_eq!(r.end, (fx(2), 0));
    r.turn(fx(-30), 0, ONE);
    assert_eq!(r.angle, fx(340));
    assert_eq!(r.end, (0, fx(2)));
    r.turn(fx(20), 0, ONE);
    assert_eq!(r.angle, 0);
    r.turn(fx(725), 0, ONE);
    assert_eq!(r.angle, fx(5));
    r.turn(fx(-725), 0, ONE);
    assert_eq!(r.angle, 0);
    assert_eq!(r.max_length, fx(2));
}

#[test]
fn ray_crosses_a_wall_within_its_length() {
    let mut r = plain_ray((0, 0), (fx(10), 0));
    assert_eq!(r.find_intersection((fx(5), fx(-1)), (fx(5), fx(1))), (fx(5), 0));
    assert_eq!(r.find_intersection((fx(5), fx(1)), (fx(5), fx(-1))), (fx(5), 0));
    assert_eq!(r.find_intersection((fx(4), fx(-1)), (fx(6), fx(3))), (fx(4) + ONE / 2, 0));
    assert_eq!(r.start, (0, 0));
    assert_eq!(r.end, (fx(10), 0));
}

#[test]
fn ray_misses_what_is_beside_behind_or_beyond() {
    let mut r = plain_ray((0, 0), (fx(10), 0));
    assert_eq!(MISS, (-ONE, -ONE));
    assert_eq!(r.find_intersection((fx(5), fx(1)), (fx(5), fx(3))), MISS);
    assert_eq!(r.find_intersection((fx(-5), fx(-1)), (fx(-5), fx(1))), MISS);
    assert_eq!(r.find_intersection((fx(15), fx(-1)), (fx(15), fx(1))), MISS);
    assert_eq!(r.find_intersection((fx(1), fx(1)), (fx(9), fx(1))), MISS);
    assert_eq!(r.find_intersection((fx(5), 0), (fx(5), fx(1))), MISS);
    assert_eq!(r.find_intersection((fx(10), fx(-1)), (fx(10), fx(1))), MISS);
}

#[test]
fn sprite_measures_its_distance() {
    let mut s = Sprite::new();
    assert_eq!((s.pos, s.texture_index, s.dist), ((0, 0), 0, 0));
    s.pos = (fx(8), fx(5));
    assert_eq!(s.eucl_dist((fx(5), fx(1))), fx(5));
    assert_eq!(s.dist, 0);
}

#[test]
fn quarter_turns_are_exact() {
    assert_eq!(rotate((ONE, 0), 0, ONE), (0, ONE));
    assert_eq!(rotate((0, 43254), 0, ONE), (-43254, 0));
    let mut cam = camera((fx(3), fx(5)), (-ONE, 0));
    for _ in 0..4 {
        cam.turn(0, ONE);
    }
    assert_eq!(cam.dir, (-ONE, 0));
    assert_eq!(cam.plane, (0, 43254));
    assert_eq!(cam.pos, (fx(3), fx(5)));
}

#[test]
fn turn_rounds_each_component_down() {
    assert_eq!(rotate((ONE, 0), 56756, 32768), (56756, 32768));
    assert_eq!(rotate((0, 43254), 56756, 32768), (-21627, 37459));
}

#[test]
fn turn_holds_beyond_the_largest_vector() {
    let big: Fixed = 0x10_0000;
    assert_eq!(rotate((big, big), ONE, ONE), (0, big));
    assert_eq!(rotate((big, -big), ONE, ONE), (big, 0));
    assert_eq!(rotate((big, -big), ONE, -ONE), (0, -big));
}

#[test]
fn a_full_circle_of_small_turns_keeps_length_and_right_angle() {
    let mut cam = camera((fx(3), fx(5)), (ONE, 0));
    for _ in 0..360 {
        cam.turn(65526, 1144);
    }
    let one = ONE as f64;
    let (dx, dy) = (cam.dir.0 as f64 / one, cam.dir.1 as f64 / one);
    let (px, py) = (cam.plane.0 as f64 / one, cam.plane.1 as f64 / one);
    assert!(((dx * dx + dy * dy).sqrt() - 1.0).abs() < 0.01);
    assert!(((px * px + py * py).sqrt() - 0.66).abs() < 0.01);
    assert!((dx * px + dy * py).abs() < 0.01);
}

#[test]
fn forward_in_a_corridor_stops_at_the_wall() {
    let map = corridor();
    let mut cam = camera((fx(1) + ONE / 2, fx(1) + ONE / 2), (ONE, 0));
    for _ in 0..100 {
        cam.advance(ONE / 4, ONE, 1, &map);
        assert!(map.is_open(floor(cam.pos.0), floor(cam.pos.1)));
    }
    assert_eq!(cam.pos, (fx(5) + 3 * ONE / 4, fx(1) + ONE / 2));
    for _ in 0..100 {
        cam.advance(ONE / 4, ONE, -1, &map);
        assert!(map.is_open(floor(cam.pos.0), floor(cam.pos.1)));
    }
    assert_eq!(cam.pos, (fx(1), fx(1) + ONE / 2));
}

#[test]
fn camera_slides_along_a_wall() {
    let map = corridor();
    let mut cam = camera((fx(1) + ONE / 2, fx(1) + ONE / 2), (46341, 46341));
    cam.advance(ONE / 4, ONE, 1, &map);
    assert_eq!(cam.pos, (98304 + 11585, 98304 + 11585));
    for _ in 0..99 {
        cam.advance(ONE / 4, ONE, 1, &map);
        assert!(map.is_open(floor(cam.pos.0), floor(cam.pos.1)));
    }
    assert_eq!(cam.pos, (387929, 121474));
}

#[test]
fn move_back_rounds_down_and_no_direction_stands() {
    let map = corridor();
    let mut cam = camera((fx(3), fx(1) + ONE / 2), (46341, 0));
    cam.advance(ONE / 4, ONE, -1, &map);
    assert_eq!(cam.pos, (196608 - 11586, 98304));
    cam.advance(ONE / 4, ONE, 0, &map);
    assert_eq!(cam.pos, (196608 - 11586, 98304));
    cam.advance(ONE / 4, 2 * ONE, 1, &map);
    assert_eq!(cam.pos, (196608 - 11586 + 23170, 98304));
}

#[test]
fn input_handler_follows_the_arrows() {
    let mut h = InputHandler::new();
    assert_eq!((h.turn, h.adv), (0, 0));
    h.key_press(&Key::Left);
    assert_eq!((h.turn, h.adv), (-1, 0));
    h.key_press(&Key::Up);
    assert_eq!((h.turn, h.adv), (-1, 1));
    h.key_press(&Key::Right);
    assert_eq!((h.turn, h.adv), (1, 1));
    h.key_press(&Key::Down);
    assert_eq!((h.turn, h.adv), (1, -1));
    h.key_press(&Key::Other);
    assert_eq!((h.turn, h.adv), (1, -1));
    h.key_up(&Key::Other);
    assert_eq!((h.turn, h.adv), (1, -1));
    h.key_up(&Key::Left);
    assert_eq!((h.turn, h.adv), (0, -1));
    h.key_up(&Key::Up);
    assert_eq!((h.turn, h.adv), (0, 0));
    h.key_press(&Key::Right);
    h.key_press(&Key::Up);
    h.key_up(&Key::Right);
    h.key_up(&Key::Down);
    assert_eq!((h.turn, h.adv), (0, 0));
}

fn game() -> App {
    let rows: [&[u8]; 10] = [
        &[1, 1, 1, 1, 1, 1, 1, 1, 1, 1],
        &[1, 0, 0, 0, 0, 0, 0, 0, 0, 1],
        &[1, 0, 0, 0, 0, 0, 0, 0, 0, 1],
        &[1, 0, 0, 0, 0, 0, 0, 0, 0, 1],
        &[1, 0, 0, 0, 0, 0, 0, 0, 0, 1],
        &[1, 0, 0, 0, 0, 0, 0, 0, 0, 1],
        &[1, 0, 0, 0, 0, 0, 0, 0, 0, 1],
        &[1, 0, 0, 0, 0, 0, 0, 0, 0, 1],
        &[1, 0, 0, 0, 0, 0, 0, 0, 0, 1],
        &[1, 1, 1, 1, 1, 1, 1, 1, 1, 1],
    ];
    App {
        play: camera((fx(3), fx(5)), (-ONE, 0)),
        map: grid(&rows),
        sprites: Vec::new(),
        texture_atlas: Vec::new(),
        sprite_atlas: Vec::new(),
        turning_left: false,
        turning_right: false,
        moving_forward: false,
        moving_back: false,
        debug: false,
        dt: 0,
    }
}

fn flags(app: &App) -> (bool, bool, bool, bool) {
    (app.turning_left, app.turning_right, app.moving_forward, app.moving_back)
}

#[test]
fn app_keys_set_and_clear_their_flags() {
    let mut app = game();
    app.key_press(&Key::Left);
    assert_eq!(flags(&app), (true, false, false, false));
    app.key_press(&Key::Right);
    assert_eq!(flags(&app), (false, true, false, false));
    app.key_press(&Key::Up);
    assert_eq!(flags(&app), (false, true, true, false));
    app.key_press(&Key::Down);
    assert_eq!(flags(&app), (false, true, false, true));
    app.key_press(&Key::Other);
    assert_eq!(flags(&app), (false, true, false, true));
    app.key_up(&Key::Left);
    assert_eq!(flags(&app), (false, true, false, true));
    app.key_up(&Key::Right);
    assert_eq!(flags(&app), (false, false, false, true));
    app.key_up(&Key::Other);
    app.key_up(&Key::Up);
    assert_eq!(flags(&app), (false, false, false, true));
    app.key_up(&Key::Down);
    assert_eq!(flags(&app), (false, false, false, false));
}

#[test]
fn update_turns_walks_and_casts() {
    let mut app = game();
    app.update(ONE, 0, ONE);
    assert_eq!(app.dt, ONE);
    assert_eq!(app.play.dir, (-ONE, 0));
    assert_eq!(app.play.pos, (fx(3), fx(5)));
    assert_eq!(app.play.rays.len(), RAY_COUNT as usize);
    assert_eq!(app.play.rays[300].length, fx(2));

    app.key_press(&Key::Left);
    app.update(ONE, 0, ONE);
    assert_eq!(app.play.dir, (0, -ONE));
    assert_eq!(app.play.plane, (-43254, 0));
    app.key_press(&Key::Right);
    app.update(ONE, 0, ONE);
    assert_eq!(app.play.dir, (-ONE, 0));
    assert_eq!(app.play.plane, (0, 43254));
    app.key_up(&Key::Right);

    app.key_press(&Key::Up);
    app.update(2 * ONE, ONE, 0);
    assert_eq!(app.play.pos, (fx(3) - 6554, fx(5)));
    assert_eq!(app.play.rays[300].length, fx(2) - 6554);
    app.key_press(&Key::Down);
    app.update(2 * ONE, ONE, 0);
    assert_eq!(app.play.pos, (fx(3), fx(5)));
}

#[test]
fn render_draws_walls_then_sprites() {
    let mut app = game();
    let mut wall_pixels = Vec::new();
    let mut sprite_pixels = Vec::new();
    for _ in 0..65536 {
        wall_pixels.push(raycast::frame::Color { r: 200, g: 100, b: 50, a: 255 });
        sprite_pixels.push(raycast::frame::Color { r: 10, g: 250, b: 10, a: 255 });
    }
    app.texture_atlas.push(raycast::texture::Texture::new(wall_pixels).unwrap());
    app.sprite_atlas.push(raycast::texture::Texture::new(sprite_pixels).unwrap());
    app.sprites.push(Sprite { pos: (fx(2), fx(5)), texture_index: 0, dist: 0 });
    app.update(ONE, ONE, 0);
    let img = app.render(60, 48);
    assert_eq!(img.width(), 60);
    assert_eq!(img.height(), 48);
    assert_eq!(app.sprites[0].dist, fx(1));
    assert_eq!(img.get(30, 24), raycast::frame::Color { r: 9, g: 225, b: 9, a: 255 });
    assert_eq!(img.get(2, 24), raycast::frame::Color { r: 160, g: 80, b: 40, a: 255 });
}

fn plain_texture() -> raycast::texture::Texture {
    let blank = raycast::frame::Color { r: 0, g: 0, b: 0, a: 0 };
    raycast::texture::Texture::new(vec![blank; 65536]).unwrap()
}

#[test]
fn sprite_without_a_texture_is_reported() {
    let sprites = vec![
        Sprite { pos: (0, 0), texture_index: 0, dist: 0 },
        Sprite { pos: (0, 0), texture_index: 2, dist: 0 },
        Sprite { pos: (0, 0), texture_index: 1, dist: 0 },
        Sprite { pos: (0, 0), texture_index: 3, dist: 0 },
    ];
    assert_eq!(check_sprites(&sprites, 4), Ok(()));
    assert_eq!(check_sprites(&sprites, 3), Err(SpriteError { index: 3, id: 3 }));
    assert_eq!(check_sprites(&sprites, 2), Err(SpriteError { index: 1, id: 2 }));
    assert_eq!(check_sprites(&sprites, 0), Err(SpriteError { index: 0, id: 0 }));
    assert_eq!(check_sprites(&Vec::new(), 0), Ok(()));
}

#[test]
fn game_is_validated_tiles_first() {
    let mut app = game();
    assert_eq!(
        app.validate(),
        Err(ConfigError::Tile(TextureError { x: 0, y: 0, id: 1 }))
    );
    app.texture_atlas.push(plain_texture());
    assert_eq!(app.validate(), Ok(()));
    app.sprites.push(Sprite { pos: (fx(2), fx(5)), texture_index: 0, dist: 0 });
    assert_eq!(app.validate(), Err(ConfigError::Sprite(SpriteError { index: 0, id: 0 })));
    app.sprite_atlas.push(plain_texture());
    assert_eq!(app.validate(), Ok(()));
    app.texture_atlas.clear();
    app.sprite_atlas.clear();
    assert_eq!(
        app.validate(),
        Err(ConfigError::Tile(TextureError { x: 0, y: 0, id: 1 }))
    );
}

#[test]
fn game_is_ready_inside_an_enclosed_map() {
    let mut app = game();
    assert!(app.is_ready());
    assert!(app.play.is_valid());
    assert!(app.play.is_inside(&app.map));
    app.play.pos = (fx(0) + 5, fx(5));
    assert!(app.play.is_valid());
    assert!(!app.play.is_inside(&app.map));
    assert!(!app.is_ready());
    app.play.pos = (fx(9), fx(5));
    assert!(!app.is_ready());
    app.play.pos = (fx(8) + ONE - 1, fx(8) + ONE - 1);
    assert!(app.is_ready());
    app.play.pos = (-1, fx(5));
    assert!(!app.play.is_valid());
    app.play.pos = (fx(3), fx(5));
    app.play.dir = (0x10_0001, 0);
    assert!(!app.play.is_valid());
    assert!(!app.is_ready());
    app.play.dir = (-0x10_0000, 0x10_0000);
    assert!(app.is_ready());
    app.map = grid(&[&[1, 1, 1], &[1, 0, 0], &[1, 1, 1]]);
    app.play.pos = (fx(1), fx(1));
    assert!(!app.is_ready());
}

#[test]
fn a_move_of_any_size_ends_in_an_open_cell() {
    let map = corridor();
    let start = (fx(3), fx(1) + ONE / 2);
    for (amount, dt, direction) in [
        (i64::MAX, i64::MAX, 1i8),
        (i64::MIN, i64::MAX, 1),
        (i64::MAX, i64::MIN, -1),
        (i64::MIN, i64::MIN, -1),
        (fx(40000), ONE, 1),
        (fx(40000), ONE, -1),
        (ONE, fx(1) << 40, 1),
        (ONE / 4, ONE, 127),
        (ONE / 4, ONE, -128),
    ] {
        let mut cam = camera(start, (46341, 46341));
        cam.advance(amount, dt, direction, &map);
        assert!(map.is_open(floor(cam.pos.0), floor(cam.pos.1)));
        assert_eq!(cam.pos, start);
    }
    let mut cam = camera(start, (46341, 0));
    cam.advance(ONE / 4, ONE, 4, &map);
    assert_eq!(cam.pos, (196608 + 46341, 98304));
    cam.advance(i64::MAX, i64::MAX, 0, &map);
    assert_eq!(cam.pos, (196608 + 46341, 98304));
    let mut still = camera(start, (0, 0));
    still.advance(i64::MAX, i64::MAX, 1, &map);
    assert_eq!(still.pos, start);
}

#[test]
fn update_takes_any_time_between_frames() {
    let mut app = game();
    app.key_press(&Key::Up);
    app.update(i64::MAX, ONE, 0);
    assert_eq!(app.play.pos, (fx(3), fx(5)));
    assert_eq!(app.dt, i64::MAX);
    app.update(i64::MIN, ONE, 0);
    assert_eq!(app.play.pos, (fx(3), fx(5)));
    assert_eq!(app.play.rays.len(), RAY_COUNT as usize);
}

#[test]
fn ray_beside_a_grid_line_leaves_its_row_where_the_far_distance_falls_short() {
    let rows: [&[u8]; 5] = [
        &[1, 1, 1, 1, 1, 1],
        &[1, 0, 0, 0, 0, 1],
        &[1, 0, 0, 0, 0, 1],
        &[1, 2, 0, 0, 0, 1],
        &[1, 1, 1, 1, 1, 1],
    ];
    let map = grid(&rows);
    let clear = raycast::ray::cast(&map, (fx(4) + ONE / 2, fx(2) + ONE / 2), (-ONE, 0));
    assert_eq!(clear.length, fx(3) + ONE / 2);
    assert_eq!(clear.side, 0);
    assert_eq!(clear.texture_index, 1);
    let beside = raycast::ray::cast(&map, (fx(4) + ONE / 2, fx(3) - 1), (-ONE, 0));
    assert_eq!(beside.side, 0);
    assert_eq!(beside.texture_index, 2);
    assert_eq!(beside.length, fx(2) + ONE / 2);
}
