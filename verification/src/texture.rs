//! Textures: square pictures that walls and sprites show.

use vstd::prelude::*;
use crate::frame::Color;
use crate::ray::TEX_SIZE;

verus! {

/// Number of pixels of a texture.
pub const TEX_LEN: usize = 65536;

/// A picture of [`TEX_SIZE`] by [`TEX_SIZE`] pixels, held column by column.
pub struct Texture {
    pixels: Vec<Color>,
}

impl Texture {
    #[verifier::type_invariant]
    spec fn full(&self) -> bool {
        self.pixels@.len() == TEX_LEN
    }

    /// The pixels, column after column, each from the top.
    pub closed spec fn view(&self) -> Seq<Color> {
        self.pixels@
    }

    /// The pixel in column `x` of row `y`.
    pub open spec fn at(&self, x: int, y: int) -> Color {
        self@[x * TEX_SIZE + y]
    }

    /// Makes a texture of the given pixels, column after column; `None`
    /// unless they are [`TEX_LEN`] in number.
    pub fn new(pixels: Vec<Color>) -> (t: Option<Texture>)
        ensures
            t.is_some() <==> pixels@.len() == TEX_LEN,
            t.is_some() ==> t.unwrap()@ == pixels@,
    {
        if pixels.len() == TEX_LEN {
            Some(Texture { pixels })
        } else {
            None
        }
    }

    /// The pixel in column `x` of row `y`.
    pub fn get(&self, x: usize, y: usize) -> (c: Color)
        requires
            x < TEX_SIZE,
            y < TEX_SIZE,
        ensures
            c == self.at(x as int, y as int),
    {
        proof {
            use_type_invariant(self);
        }
        self.pixels[x * 256 + y]
    }
}

} // verus!
