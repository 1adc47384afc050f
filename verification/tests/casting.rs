use raycast::fixed::{Fixed, ONE};
use raycast::grid::GridMap;
use raycast::player::Player;
use raycast::ray::{cast, delta, first_side, Ray, FAR};

fn fx(n: i64) -> Fixed {
    n * ONE
}

/// A grid of the given size with walls of tile 1 all around and open floor inside.
fn bordered(width: usize, height: usize) -> GridMap {
    let mut tiles: Vec<Vec<u8>> = Vec::new();
    for x in 0..width {
        let mut column: Vec<u8> = Vec::new();
        for y in 0..height {
            let rim = x == 0 || y == 0 || x == width - 1 || y == height - 1;
            column.push(if rim { 1 } else { 0 });
        }
        tiles.push(column);
    }
    GridMap::new(tiles).unwrap()
}

fn camera(pos: (Fixed, Fixed), dir: (Fixed, Fixed), plane: (Fixed, Fixed)) -> Player {
    Player { plane, dir, pos, rays: Vec::new() }
}

fn same(a: &Ray, b: &Ray) -> bool {
    a.start == b.start
        && a.end == b.end
        && a.angle == b.angle
        && a.length == b.length
        && a.max_length == b.max_length
        && a.collided == b.collided
        && a.side == b.side
        && a.texture_index == b.texture_index
        && a.texture_pos == b.texture_pos
}

#[test]
fn center_ray_meets_the_west_border() {
    let map = bordered(10, 10);
    let cam = camera((fx(3), fx(5)), (-ONE, 0), (0, 43254));
    let ray = cam.cast_column(&map, 300, 600);
    assert_eq!(ray.length, fx(2));
    assert_eq!(ray.side, 0);
    assert_eq!(ray.texture_index, 1);
    assert!(ray.collided);
    assert_eq!(ray.start, (fx(3), fx(5)));
    assert_eq!(ray.end, (fx(1), fx(5)));
    assert_eq!(ray.texture_pos, 0);
}

#[test]
fn head_on_wall_is_at_its_distance_both_ways() {
    let map = bordered(10, 10);
    let mut cam = camera((fx(3) + ONE / 2, fx(5) + ONE / 2), (-ONE, 0), (0, 43254));
    let west = cam.cast_column(&map, 300, 600);
    assert_eq!(west.length, fx(2) + ONE / 2);
    assert_eq!(west.side, 0);
    cam.turn(-ONE, 0);
    assert_eq!(cam.dir, (ONE, 0));
    assert_eq!(cam.plane, (0, -43254));
    let east = cam.cast_column(&map, 300, 600);
    assert_eq!(east.length, fx(5) + ONE / 2);
    assert_eq!(east.side, 0);
}

#[test]
fn wall_across_y_is_side_one() {
    let map = bordered(10, 10);
    let cam = camera((fx(4) + ONE / 4, fx(3) + ONE / 2), (0, ONE), (43254, 0));
    let ray = cam.cast_column(&map, 300, 600);
    assert_eq!(ray.side, 1);
    assert_eq!(ray.length, fx(5) + ONE / 2);
    assert_eq!(ray.end, (fx(4) + ONE / 4, fx(9)));
    assert_eq!(ray.texture_pos, 64);
}

#[test]
fn texture_column_is_mirrored_toward_greater_x_and_smaller_y() {
    let map = bordered(10, 10);
    let pos = (fx(4) + ONE / 4, fx(3) + ONE / 4);
    let east = cast(&map, pos, (ONE, 0));
    assert_eq!(east.side, 0);
    assert_eq!(east.texture_pos, 255 - 64);
    let west = cast(&map, pos, (-ONE, 0));
    assert_eq!(west.texture_pos, 64);
    let north = cast(&map, pos, (0, -ONE));
    assert_eq!(north.side, 1);
    assert_eq!(north.texture_pos, 255 - 64);
    let south = cast(&map, pos, (0, ONE));
    assert_eq!(south.texture_pos, 64);
}

#[test]
fn ray_along_a_grid_line_uses_the_far_distance() {
    assert_eq!(delta(0), FAR);
    assert_eq!(delta(ONE), ONE);
    assert_eq!(delta(-ONE / 2), 2 * ONE);
    assert_eq!(delta(1), ONE * ONE);
}

#[test]
fn first_side_distance_goes_by_the_sign() {
    let pos = fx(3) + ONE / 4;
    assert_eq!(first_side(pos, ONE), 3 * ONE / 4);
    assert_eq!(first_side(pos, -ONE), ONE / 4);
    assert_eq!(first_side(fx(3), -ONE), 0);
    assert_eq!(first_side(fx(3), ONE), ONE);
}

#[test]
fn camera_on_a_cell_boundary_next_to_a_wall_is_at_distance_zero() {
    let map = bordered(10, 10);
    let ray = cast(&map, (fx(1), fx(5) + ONE / 2), (-ONE, 0));
    assert_eq!(ray.length, 0);
    assert_eq!(ray.side, 0);
}

#[test]
fn ray_stops_at_an_inner_wall_and_records_its_tile() {
    let mut tiles: Vec<Vec<u8>> = Vec::new();
    for x in 0..10usize {
        let mut column: Vec<u8> = Vec::new();
        for y in 0..10usize {
            let rim = x == 0 || y == 0 || x == 9 || y == 9;
            column.push(if rim { 1 } else if x == 6 && y == 5 { 3 } else { 0 });
        }
        tiles.push(column);
    }
    let map = GridMap::new(tiles).unwrap();
    let ray = cast(&map, (fx(3) + ONE / 2, fx(5) + ONE / 2), (ONE, 0));
    assert_eq!(ray.texture_index, 3);
    assert_eq!(ray.length, fx(2) + ONE / 2);
}

#[test]
fn every_column_of_the_fan_ends_in_a_wall() {
    let map = bordered(10, 10);
    let mut cam = camera((fx(3), fx(5)), (-ONE, 0), (0, 43254));
    cam.cast_rays(&map, 600);
    assert_eq!(cam.rays.len(), 600);
    for ray in cam.rays.iter() {
        assert!(ray.texture_index >= 1);
        assert!(ray.length >= 0);
        assert!(ray.length <= fx(20));
        assert!(ray.texture_pos >= 0 && ray.texture_pos < 256);
        assert!(ray.side <= 1);
    }
    assert_eq!(cam.pos, (fx(3), fx(5)));
}

#[test]
fn a_fan_of_no_columns_still_has_one_ray() {
    let map = bordered(10, 10);
    let mut cam = camera((fx(3), fx(5)), (-ONE, 0), (0, 43254));
    cam.cast_rays(&map, 0);
    assert_eq!(cam.rays.len(), 1);
    let only = cam.cast_column(&map, 0, 1);
    assert!(same(&cam.rays[0], &only));
}

#[test]
fn casting_twice_gives_the_same_rays() {
    let map = bordered(12, 9);
    let mut cam = camera((fx(4) + 12345, fx(3) + 54321), (46341, 46341), (-30584, 30584));
    cam.cast_rays(&map, 97);
    let first: Vec<Ray> = cam.rays.clone();
    cam.cast_rays(&map, 97);
    assert_eq!(first.len(), cam.rays.len());
    for i in 0..first.len() {
        assert!(same(&first[i], &cam.rays[i]));
        assert_eq!(first[i].length, cam.rays[i].length);
    }
}

#[test]
fn ray_direction_spans_the_plane() {
    let cam = camera((fx(3), fx(5)), (-ONE, 0), (0, 43254));
    assert_eq!(cam.ray_direction(0, 600), (-ONE, -43254));
    assert_eq!(cam.ray_direction(300, 600), (-ONE, 0));
    assert_eq!(cam.ray_direction(450, 600), (-ONE, 21627));
}
