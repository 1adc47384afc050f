//! A grid raycasting renderer on fixed-point numbers.
//!
//! A camera stands in a grid of tiles. For each frame a fan of rays is cast
//! from the camera, one for each screen column; each ray walks from cell to
//! cell until it stands in a wall and records how far away that wall is,
//! which of its faces it met and where. From these records the walls are
//! drawn column by column, and sprites are laid over them, hidden where a
//! wall is nearer.
//!
//! Every quantity with a fractional part is a [`fixed::Fixed`]: a signed
//! integer that holds the value times 65536. Cosines and sines are taken as
//! given, in the same form.

pub mod app;
pub mod cell;
pub mod compose;
pub mod fixed;
pub mod frame;
pub mod grid;
pub mod input_handler;
pub mod player;
pub mod raster;
pub mod ray;
pub mod sprite;
pub mod texture;
pub mod wall;
