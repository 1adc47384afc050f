//! The game as a whole: what a frame changes and what it shows.

use vstd::prelude::*;
use crate::compose::{draw_sprites, drawing_order, overlay};
use crate::fixed::{Fixed, ONE};
use crate::frame::Frame;
use crate::grid::{GridMap, TextureError};
use crate::input_handler::Key;
use crate::player::{Player, moved, ray_drawable, rotated};
use crate::raster::{create_texture, frame_pixel, view_size};
use crate::sprite::{Sprite, SpriteError, bad_sprite, check_sprites, first_bad_sprite};
use crate::texture::Texture;

verus! {

/// Number of rays of the fan.
pub const RAY_COUNT: u32 = 600;

/// How far the camera walks in a unit of time.
pub const WALK_RATE: Fixed = 3277;

/// The state of the game.
pub struct App {
    /// The camera.
    pub play: Player,
    /// The grid that the camera walks in.
    pub map: GridMap,
    /// The sprites, in the order in which they were last drawn.
    pub sprites: Vec<Sprite>,
    /// The textures of the walls: a tile `n` shows entry `n - 1`.
    pub texture_atlas: Vec<Texture>,
    /// The textures of the sprites.
    pub sprite_atlas: Vec<Texture>,
    /// Whether the key to turn left is down.
    pub turning_left: bool,
    /// Whether the key to turn right is down.
    pub turning_right: bool,
    /// Whether the key to walk forward is down.
    pub moving_forward: bool,
    /// Whether the key to walk back is down.
    pub moving_back: bool,
    /// Whether the frame rate is reported.
    pub debug: bool,
    /// Time that the last frame took.
    pub dt: Fixed,
}

/// What is wrong with the tiles or the sprites of a game.
#[derive(Clone, Copy, Debug, PartialEq, Eq, Structural)]
pub enum ConfigError {
    /// A wall shows a texture that the atlas of wall textures lacks.
    Tile(TextureError),
    /// A sprite shows a texture that the atlas of sprite textures lacks.
    Sprite(SpriteError),
}

/// The direction or plane vector after a frame's turn.
pub open spec fn frame_turn(v: (Fixed, Fixed), left: bool, right: bool, cos: int, sin: int) -> (
    Fixed,
    Fixed,
) {
    if left {
        rotated(v, cos, sin)
    } else if right {
        rotated(v, cos, -sin)
    } else {
        v
    }
}

/// The position after a frame's walk.
pub open spec fn frame_walk(
    map: &GridMap,
    pos: (Fixed, Fixed),
    dir: (Fixed, Fixed),
    forward: bool,
    back: bool,
    dt: int,
) -> (Fixed, Fixed) {
    if forward {
        moved(map, pos, dir, WALK_RATE as int, dt, 1)
    } else if back {
        moved(map, pos, dir, WALK_RATE as int, dt, -1)
    } else {
        pos
    }
}

impl App {
    /// The camera and the grid are well formed, the grid is enclosed by
    /// walls, and the camera stands off its rim.
    pub open spec fn wf(&self) -> bool {
        &&& self.play.wf()
        &&& self.map.wf()
        &&& self.map.enclosed()
        &&& self.play.inside(&self.map)
    }

    /// Whether every wall of the grid has its texture in the atlas of wall textures.
    pub open spec fn tiles_ok(&self) -> bool {
        forall|x: int, y: int|
            self.map.contains(x, y) ==> !#[trigger] self.map.bad_texture(
                x,
                y,
                self.texture_atlas@.len() as int,
            )
    }

    /// Whether every sprite has its texture in the atlas of sprite textures.
    pub open spec fn sprites_ok(&self) -> bool {
        forall|i: int| !#[trigger] bad_sprite(self.sprites@, i, self.sprite_atlas@.len() as int)
    }

    /// Looks, once the game is loaded, for a wall or a sprite whose texture
    /// is missing: first among the walls, then among the sprites.
    pub fn validate(&self) -> (r: Result<(), ConfigError>)
        requires
            self.map.wf(),
        ensures
            r.is_ok() <==> self.tiles_ok() && self.sprites_ok(),
            match r {
                Ok(_) => true,
                Err(ConfigError::Tile(e)) => self.map.first_bad_texture(
                    e,
                    self.texture_atlas@.len() as int,
                ),
                Err(ConfigError::Sprite(e)) => self.tiles_ok() && first_bad_sprite(
                    self.sprites@,
                    e,
                    self.sprite_atlas@.len() as int,
                ),
            },
    {
        match self.map.check_textures(self.texture_atlas.len()) {
            Err(e) => {
                return Err(ConfigError::Tile(e));
            },
            Ok(_) => {},
        }
        match check_sprites(&self.sprites, self.sprite_atlas.len()) {
            Err(e) => Err(ConfigError::Sprite(e)),
            Ok(_) => Ok(()),
        }
    }

    /// Whether the camera and the grid are fit for a frame.
    pub fn is_ready(&self) -> (b: bool)
        requires
            self.map.wf(),
        ensures
            b == self.wf(),
    {
        self.play.is_valid() && self.map.is_enclosed() && self.play.is_inside(&self.map)
    }

    /// Casts the fan of [`RAY_COUNT`] rays anew from where the camera stands.
    pub fn find_ray_intersections(&mut self)
        requires
            old(self).wf(),
        ensures
            final(self).wf(),
            final(self).play.pos == old(self).play.pos,
            final(self).play.dir == old(self).play.dir,
            final(self).play.plane == old(self).play.plane,
            final(self).map == old(self).map,
            final(self).sprites == old(self).sprites,
            final(self).texture_atlas == old(self).texture_atlas,
            final(self).sprite_atlas == old(self).sprite_atlas,
            final(self).turning_left == old(self).turning_left,
            final(self).turning_right == old(self).turning_right,
            final(self).moving_forward == old(self).moving_forward,
            final(self).moving_back == old(self).moving_back,
            final(self).debug == old(self).debug,
            final(self).dt == old(self).dt,
            final(self).play.rays@.len() == RAY_COUNT,
            forall|r: int|
                0 <= r < RAY_COUNT ==> #[trigger] final(self).play.rays@[r] == old(self).play.column_ray(&old(self).map, r, RAY_COUNT as int),
            forall|r: int| 0 <= r < RAY_COUNT ==> ray_drawable(#[trigger] final(self).play.rays@[r]),
    {
        self.play.cast_rays(&self.map, RAY_COUNT);
    }

    /// One frame's change, `dt` after the last: the camera turns by the
    /// angle of cosine `cos` and sine `sin` to the left where the key to
    /// turn left is down, else to the right where that key is down; it then
    /// walks forward or back where one of those keys is down; and the fan
    /// of rays is cast anew.
    pub fn update(&mut self, dt: Fixed, cos: Fixed, sin: Fixed)
        requires
            old(self).wf(),
            -ONE <= cos <= ONE,
            -ONE <= sin <= ONE,
        ensures
            final(self).wf(),
            final(self).dt == dt,
            final(self).play.dir == frame_turn(
                old(self).play.dir,
                old(self).turning_left,
                old(self).turning_right,
                cos as int,
                sin as int,
            ),
            final(self).play.plane == frame_turn(
                old(self).play.plane,
                old(self).turning_left,
                old(self).turning_right,
                cos as int,
                sin as int,
            ),
            final(self).play.pos == frame_walk(
                &old(self).map,
                old(self).play.pos,
                final(self).play.dir,
                old(self).moving_forward,
                old(self).moving_back,
                dt as int,
            ),
            final(self).play.rays@.len() == RAY_COUNT,
            forall|r: int|
                0 <= r < RAY_COUNT ==> #[trigger] final(self).play.rays@[r] == final(self).play.column_ray(&old(self).map, r, RAY_COUNT as int),
            final(self).map == old(self).map,
            final(self).sprites == old(self).sprites,
            final(self).texture_atlas == old(self).texture_atlas,
            final(self).sprite_atlas == old(self).sprite_atlas,
            final(self).turning_left == old(self).turning_left,
            final(self).turning_right == old(self).turning_right,
            final(self).moving_forward == old(self).moving_forward,
            final(self).moving_back == old(self).moving_back,
            final(self).debug == old(self).debug,
    {
        self.dt = dt;
        if self.turning_left {
            self.play.turn(cos, sin);
        } else if self.turning_right {
            self.play.turn(cos, -sin);
        }
        if self.moving_forward {
            self.play.advance(WALK_RATE, dt, 1, &self.map);
        } else if self.moving_back {
            self.play.advance(WALK_RATE, dt, -1, &self.map);
        }
        self.find_ray_intersections();
    }

    /// Draws the frame into a new picture of the given width and height:
    /// first the walls that the rays found, then the sprites over them,
    /// from the farthest to the nearest.
    pub fn render(&mut self, width: u32, height: u32) -> (img: Frame)
        requires
            old(self).play.wf(),
            4 * view_size(width) * view_size(height) <= isize::MAX,
        ensures
            img.wf(),
            img.spec_width() == view_size(width),
            img.spec_height() == view_size(height),
            final(self).sprites@ == drawing_order(old(self).sprites@, old(self).play.pos),
            forall|x: int, y: int|
                0 <= x < view_size(width) && 0 <= y < view_size(height) ==> #[trigger] img.at(x, y)
                    == overlay(
                    final(self).sprites@,
                    final(self).sprites@.len(),
                    &old(self).play,
                    old(self).sprite_atlas@,
                    view_size(width),
                    view_size(height),
                    x,
                    y,
                    frame_pixel(
                        old(self).play.rays@,
                        old(self).texture_atlas@,
                        view_size(width),
                        view_size(height),
                        x,
                        y,
                    ),
                ),
            final(self).play == old(self).play,
            final(self).map == old(self).map,
            final(self).texture_atlas == old(self).texture_atlas,
            final(self).sprite_atlas == old(self).sprite_atlas,
            final(self).turning_left == old(self).turning_left,
            final(self).turning_right == old(self).turning_right,
            final(self).moving_forward == old(self).moving_forward,
            final(self).moving_back == old(self).moving_back,
            final(self).debug == old(self).debug,
            final(self).dt == old(self).dt,
    {
        let mut img: Frame = create_texture(&self.play.rays, &self.texture_atlas, width, height);
        draw_sprites(&mut img, &self.play, &mut self.sprites, &self.sprite_atlas);
        img
    }

    /// A key goes down: an arrow sets its own flag and clears that of the
    /// opposite arrow; any other key changes nothing.
    pub fn key_press(&mut self, args: &Key)
        ensures
            final(self).turning_left == (*args == Key::Left || (old(self).turning_left && *args
                != Key::Right)),
            final(self).turning_right == (*args == Key::Right || (old(self).turning_right && *args
                != Key::Left)),
            final(self).moving_forward == (*args == Key::Up || (old(self).moving_forward && *args
                != Key::Down)),
            final(self).moving_back == (*args == Key::Down || (old(self).moving_back && *args
                != Key::Up)),
            final(self).play == old(self).play,
            final(self).map == old(self).map,
            final(self).sprites == old(self).sprites,
            final(self).texture_atlas == old(self).texture_atlas,
            final(self).sprite_atlas == old(self).sprite_atlas,
            final(self).debug == old(self).debug,
            final(self).dt == old(self).dt,
    {
        match *args {
            Key::Left => {
                self.turning_left = true;
                self.turning_right = false;
            },
            Key::Right => {
                self.turning_left = false;
                self.turning_right = true;
            },
            Key::Up => {
                self.moving_forward = true;
                self.moving_back = false;
            },
            Key::Down => {
                self.moving_forward = false;
                self.moving_back = true;
            },
            Key::Other => {},
        }
    }

    /// A key goes up: an arrow clears its own flag; any other key changes nothing.
    pub fn key_up(&mut self, args: &Key)
        ensures
            final(self).turning_left == (old(self).turning_left && *args != Key::Left),
            final(self).turning_right == (old(self).turning_right && *args != Key::Right),
            final(self).moving_forward == (old(self).moving_forward && *args != Key::Up),
            final(self).moving_back == (old(self).moving_back && *args != Key::Down),
            final(self).play == old(self).play,
            final(self).map == old(self).map,
            final(self).sprites == old(self).sprites,
            final(self).texture_atlas == old(self).texture_atlas,
            final(self).sprite_atlas == old(self).sprite_atlas,
            final(self).debug == old(self).debug,
            final(self).dt == old(self).dt,
    {
        match *args {
            Key::Left => {
                self.turning_left = false;
            },
            Key::Right => {
                self.turning_right = false;
            },
            Key::Up => {
                self.moving_forward = false;
            },
            Key::Down => {
                self.moving_back = false;
            },
            Key::Other => {},
        }
    }
}

} // verus!
