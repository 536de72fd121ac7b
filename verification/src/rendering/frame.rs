//! An RGB image buffer of the `image` crate as a pixel sink.

use vstd::prelude::*;
use crate::raster::color::Color;
use crate::raster::sink::{covers, Picture, PixelSink};

verus! {

/// An image of eight-bit RGB pixels, held in an `image::RgbImage`.
///
/// The pixel `(0, 0)` is the first one of the buffer; `x` grows along a
/// row and `y` from row to row. What the buffer holds is known here only
/// as [`frame_width`], [`frame_height`] and [`frame_pixels`], and only
/// through what is assumed of the calls into the `image` crate below.
#[verifier::external_body]
pub struct Frame {
    buffer: image::RgbImage,
}

/// The number of pixel columns of the buffer: what `ImageBuffer::width`
/// returns.
pub uninterp spec fn frame_width(frame: Frame) -> u32;

/// The number of pixel rows of the buffer: what `ImageBuffer::height`
/// returns.
pub uninterp spec fn frame_height(frame: Frame) -> u32;

/// The pixels of the buffer: the colour that `ImageBuffer::get_pixel`
/// returns for column `x` of row `y` is found under `(x, y)`.
pub uninterp spec fn frame_pixels(frame: Frame) -> Map<(int, int), Color>;

/// Calls `ImageBuffer::new`, which allocates `3 * width * height` zero
/// bytes and panics if a vector cannot hold that many (more than
/// `isize::MAX`): the result has the size asked for and black pixels only.
#[verifier::external_body]
fn buffer_new(width: u32, height: u32) -> (frame: Frame)
    requires
        3 * width * height <= isize::MAX,
    ensures
        frame_width(frame) == width,
        frame_height(frame) == height,
        forall|x: int, y: int|
            0 <= x < width && 0 <= y < height ==> #[trigger] frame_pixels(frame)[(x, y)] == Color(
                0,
                0,
                0,
            ),
{
    Frame { buffer: image::RgbImage::new(width, height) }
}

/// Calls `ImageBuffer::width`, which returns the width the buffer was made
/// with.
#[verifier::external_body]
fn buffer_width(frame: &Frame) -> (width: u32)
    ensures
        width == frame_width(*frame),
{
    frame.buffer.width()
}

/// Calls `ImageBuffer::height`, which returns the height the buffer was
/// made with.
#[verifier::external_body]
fn buffer_height(frame: &Frame) -> (height: u32)
    ensures
        height == frame_height(*frame),
{
    frame.buffer.height()
}

/// Calls `ImageBuffer::get_pixel`, which panics outside the image and
/// otherwise reads the three channels of the pixel `(x, y)`.
#[verifier::external_body]
fn buffer_get(frame: &Frame, x: u32, y: u32) -> (color: Color)
    requires
        x < frame_width(*frame),
        y < frame_height(*frame),
    ensures
        color == frame_pixels(*frame)[(x as int, y as int)],
{
    let pixel = frame.buffer.get_pixel(x, y);
    Color(pixel.0[0], pixel.0[1], pixel.0[2])
}

/// Calls `ImageBuffer::put_pixel`, which panics outside the image and
/// otherwise overwrites the pixel `(x, y)` and nothing else.
#[verifier::external_body]
fn buffer_put(frame: &mut Frame, x: u32, y: u32, color: Color)
    requires
        x < frame_width(*old(frame)),
        y < frame_height(*old(frame)),
    ensures
        frame_width(*final(frame)) == frame_width(*old(frame)),
        frame_height(*final(frame)) == frame_height(*old(frame)),
        frame_pixels(*final(frame)) == frame_pixels(*old(frame)).insert(
            (x as int, y as int),
            color,
        ),
{
    frame.buffer.put_pixel(x, y, image::Rgb([color.0, color.1, color.2]));
}

impl Picture for Frame {
    open spec fn sink_width(&self) -> nat {
        frame_width(*self) as nat
    }

    open spec fn sink_height(&self) -> nat {
        frame_height(*self) as nat
    }

    open spec fn pixel_at(&self, x: int, y: int) -> Color {
        frame_pixels(*self)[(x, y)]
    }
}

impl PixelSink for Frame {
    fn columns(&self) -> usize {
        buffer_width(self) as usize
    }

    fn rows(&self) -> usize {
        buffer_height(self) as usize
    }

    fn put(&mut self, x: i64, y: i64, color: Color) {
        let width = buffer_width(self);
        let height = buffer_height(self);
        if 0 <= x && x < width as i64 && 0 <= y && y < height as i64 {
            buffer_put(self, x as u32, y as u32, color);
        }
    }
}

impl Frame {
    /// Makes a black image of the given size, or `None` if its
    /// `3 * width * height` bytes are more than a vector can hold.
    pub fn new(width: u32, height: u32) -> (made: Option<Frame>)
        ensures
            3 * width * height > isize::MAX ==> made.is_none(),
            3 * width * height <= isize::MAX ==> made.is_some() && {
                let frame = made.unwrap();
                &&& frame.sink_width() == width
                &&& frame.sink_height() == height
                &&& forall|x: int, y: int|
                    covers(&frame, x, y) ==> #[trigger] frame.pixel_at(x, y) == Color(0, 0, 0)
            },
    {
        assert(width * height <= 0xffff_ffff * 0xffff_ffff) by (nonlinear_arith)
            requires
                0 <= width <= 0xffff_ffff,
                0 <= height <= 0xffff_ffff,
        ;
        let area: u64 = (width as u64) * (height as u64);
        if area <= (isize::MAX as u64) / 3 {
            assert(3 * width * height == 3 * area) by (nonlinear_arith)
                requires
                    area == width * height,
            ;
            Some(buffer_new(width, height))
        } else {
            assert(3 * width * height == 3 * area) by (nonlinear_arith)
                requires
                    area == width * height,
            ;
            None
        }
    }

    /// The number of pixel columns.
    pub fn width(&self) -> (width: u32)
        ensures
            width == self.sink_width(),
    {
        buffer_width(self)
    }

    /// The number of pixel rows.
    pub fn height(&self) -> (height: u32)
        ensures
            height == self.sink_height(),
    {
        buffer_height(self)
    }

    /// The colour of the pixel `(x, y)`, or `None` where the image has no
    /// such pixel.
    pub fn get(&self, x: u32, y: u32) -> (pixel: Option<Color>)
        ensures
            covers(self, x as int, y as int) ==> pixel == Some(self.pixel_at(x as int, y as int)),
            !covers(self, x as int, y as int) ==> pixel.is_none(),
    {
        if x < buffer_width(self) && y < buffer_height(self) {
            Some(buffer_get(self, x, y))
        } else {
            None
        }
    }
}

} // verus!
