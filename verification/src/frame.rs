//! The picture that a frame is drawn into.

use vstd::prelude::*;

verus! {

/// One pixel: red, green, blue and opacity.
#[derive(Clone, Copy, Debug, PartialEq, Eq, Structural)]
pub struct Color {
    /// Red.
    pub r: u8,
    /// Green.
    pub g: u8,
    /// Blue.
    pub b: u8,
    /// Opacity: 0 lets all of the background through, 255 none.
    pub a: u8,
}

/// A picture of a fixed width and height, held by the `image` crate.
#[verifier::external_body]
pub struct Frame {
    img: image::RgbaImage,
}

/// The rows of a picture from the top, each a row of pixels from the left.
pub uninterp spec fn frame_rows(frame: Frame) -> Seq<Seq<Color>>;

/// The width that a picture was made with.
pub uninterp spec fn frame_width(frame: Frame) -> nat;

/// A pixel that is zero in every channel.
pub open spec fn blank() -> Color {
    Color { r: 0, g: 0, b: 0, a: 0 }
}

/// `image::ImageBuffer::new`: a picture of the given width and height, that
/// is `height` rows of `width` pixels, all of them zero in every channel.
#[verifier::external_body]
fn new_image(width: u32, height: u32) -> (frame: Frame)
    requires
        4 * width * height <= isize::MAX,
    ensures
        frame_width(frame) == width,
        frame_rows(frame).len() == height,
        forall|y: int|
            0 <= y < height ==> (#[trigger] frame_rows(frame)[y]) == Seq::new(
                width as nat,
                |x: int| blank(),
            ),
{
    Frame { img: image::ImageBuffer::new(width, height) }
}

/// `image::ImageBuffer::width`: the width that the picture was made with.
#[verifier::external_body]
fn image_width(frame: &Frame) -> (w: u32)
    ensures
        w == frame_width(*frame),
{
    frame.img.width()
}

/// `image::ImageBuffer::height`: the number of rows of the picture.
#[verifier::external_body]
fn image_height(frame: &Frame) -> (h: u32)
    ensures
        h == frame_rows(*frame).len(),
{
    frame.img.height()
}

/// `image::ImageBuffer::get_pixel`: the pixel in column `x` of row `y`.
#[verifier::external_body]
fn read_pixel(frame: &Frame, x: u32, y: u32) -> (c: Color)
    requires
        x < frame_width(*frame),
        y < frame_rows(*frame).len(),
    ensures
        c == frame_rows(*frame)[y as int][x as int],
{
    let p = frame.img.get_pixel(x, y);
    Color { r: p.0[0], g: p.0[1], b: p.0[2], a: p.0[3] }
}

/// `image::ImageBuffer::put_pixel`: sets the pixel in column `x` of row `y`
/// and leaves every other pixel, and the width, as they were.
#[verifier::external_body]
fn write_pixel(frame: &mut Frame, x: u32, y: u32, c: Color)
    requires
        x < frame_width(*old(frame)),
        y < frame_rows(*old(frame)).len(),
    ensures
        frame_width(*final(frame)) == frame_width(*old(frame)),
        frame_rows(*final(frame)) == frame_rows(*old(frame)).update(
            y as int,
            frame_rows(*old(frame))[y as int].update(x as int, c),
        ),
{
    frame.img.put_pixel(x, y, image::Rgba([c.r, c.g, c.b, c.a]));
}

/// Channel `i` of a colour: red, green, blue, then opacity.
pub open spec fn channel(c: Color, i: int) -> u8 {
    if i == 0 {
        c.r
    } else if i == 1 {
        c.g
    } else if i == 2 {
        c.b
    } else {
        c.a
    }
}

/// The bytes of a picture of the given rows and width: row after row from
/// the top, pixel after pixel from the left, four channels to a pixel.
pub open spec fn bytes_of(rows: Seq<Seq<Color>>, width: nat) -> Seq<u8> {
    Seq::new(
        4 * width * rows.len(),
        |i: int| channel(rows[(i / 4) / (width as int)][(i / 4) % (width as int)], i % 4),
    )
}

/// `image::ImageBuffer::as_raw`: the buffer that holds the picture, row
/// after row from the top, four bytes to a pixel.
#[verifier::external_body]
fn raw_bytes(frame: &Frame) -> (bytes: Vec<u8>)
    ensures
        bytes@ == bytes_of(frame_rows(*frame), frame_width(*frame)),
{
    frame.img.as_raw().clone()
}

impl Frame {
    /// The bytes of the picture: row after row from the top, pixel after
    /// pixel from the left, four channels to a pixel.
    pub fn to_bytes(&self) -> (bytes: Vec<u8>)
        ensures
            bytes@ == bytes_of(self@, self.spec_width()),
    {
        raw_bytes(self)
    }

    /// The rows of the picture from the top, each a row of pixels from the left.
    pub open spec fn view(&self) -> Seq<Seq<Color>> {
        frame_rows(*self)
    }

    /// Width in pixels.
    pub open spec fn spec_width(&self) -> nat {
        frame_width(*self)
    }

    /// Height in pixels.
    pub open spec fn spec_height(&self) -> nat {
        self@.len()
    }

    /// Every row is as long as the picture is wide.
    pub open spec fn wf(&self) -> bool {
        forall|y: int| 0 <= y < self@.len() ==> (#[trigger] self@[y]).len() == self.spec_width()
    }

    /// The pixel in column `x` of row `y`.
    pub open spec fn at(&self, x: int, y: int) -> Color {
        self@[y][x]
    }

    /// A picture of the given size with every pixel zero in every channel.
    pub fn new(width: u32, height: u32) -> (frame: Frame)
        requires
            4 * width * height <= isize::MAX,
        ensures
            frame.wf(),
            frame.spec_width() == width,
            frame.spec_height() == height,
            forall|x: int, y: int|
                0 <= x < width && 0 <= y < height ==> #[trigger] frame.at(x, y) == blank(),
    {
        new_image(width, height)
    }

    /// Width in pixels.
    pub fn width(&self) -> (w: u32)
        ensures
            w == self.spec_width(),
    {
        image_width(self)
    }

    /// Height in pixels.
    pub fn height(&self) -> (h: u32)
        ensures
            h == self.spec_height(),
    {
        image_height(self)
    }

    /// The pixel in column `x` of row `y`.
    pub fn get(&self, x: u32, y: u32) -> (c: Color)
        requires
            x < self.spec_width(),
            y < self.spec_height(),
        ensures
            c == self.at(x as int, y as int),
    {
        read_pixel(self, x, y)
    }

    /// Sets the pixel in column `x` of row `y`; every other pixel stays.
    pub fn put(&mut self, x: u32, y: u32, c: Color)
        requires
            old(self).wf(),
            x < old(self).spec_width(),
            y < old(self).spec_height(),
        ensures
            final(self).wf(),
            final(self).spec_width() == old(self).spec_width(),
            final(self).spec_height() == old(self).spec_height(),
            final(self).at(x as int, y as int) == c,
            forall|i: int, j: int|
                0 <= i < old(self).spec_width() && 0 <= j < old(self).spec_height() && (i != x || j
                    != y) ==> #[trigger] final(self).at(i, j) == old(self).at(i, j),
    {
        write_pixel(self, x, y, c);
    }
}

} // verus!
