//! Decoded images of the `image` crate as textures.

use vstd::prelude::*;
use image::DynamicImage;
use image::GenericImageView;
use crate::raster::color::Color;

verus! {

/// `image::DynamicImage`, a decoded image of any pixel format. Nothing is
/// known here of its inside but what [`texture_width`], [`texture_height`]
/// and [`texture_texels`] name.
#[verifier::external_type_specification]
#[verifier::external_body]
pub struct ExDynamicImage(image::DynamicImage);

/// The number of texel columns of the image: what `DynamicImage::width`
/// returns.
pub uninterp spec fn texture_width(image: DynamicImage) -> u32;

/// The number of texel rows of the image: what `DynamicImage::height`
/// returns.
pub uninterp spec fn texture_height(image: DynamicImage) -> u32;

/// The texels of the image: the red, green and blue levels that
/// `get_pixel` returns for column `x` of row `y` are found under `(x, y)`.
pub uninterp spec fn texture_texels(image: DynamicImage) -> Map<(int, int), Color>;

/// Whether the image has a texel at `(x, y)`.
pub open spec fn has_texel(image: DynamicImage, x: int, y: int) -> bool {
    0 <= x < texture_width(image) && 0 <= y < texture_height(image)
}

/// Calls `DynamicImage::width`, which returns the width of the underlying
/// buffer.
#[verifier::external_body]
pub(crate) fn image_width(image: &DynamicImage) -> (width: u32)
    ensures
        width == texture_width(*image),
{
    image.width()
}

/// Calls `DynamicImage::height`, which returns the height of the
/// underlying buffer.
#[verifier::external_body]
pub(crate) fn image_height(image: &DynamicImage) -> (height: u32)
    ensures
        height == texture_height(*image),
{
    image.height()
}

/// Calls `GenericImageView::get_pixel` of `DynamicImage`, which panics
/// outside the image and otherwise converts the pixel `(x, y)` to eight-bit
/// RGBA; the first three channels are handed on.
#[verifier::external_body]
pub(crate) fn image_texel(image: &DynamicImage, x: u32, y: u32) -> (texel: Color)
    requires
        x < texture_width(*image),
        y < texture_height(*image),
    ensures
        texel == texture_texels(*image)[(x as int, y as int)],
{
    let pixel = image.get_pixel(x, y);
    Color(pixel.0[0], pixel.0[1], pixel.0[2])
}

/// Calls `DynamicImage::flipv`, which copies the image with its rows in
/// the opposite order: the result has the same size, and its row `y` is the
/// row `height - 1 - y` of the image given.
#[verifier::external_body]
pub(crate) fn image_flipv(image: &DynamicImage) -> (flipped: DynamicImage)
    ensures
        texture_width(flipped) == texture_width(*image),
        texture_height(flipped) == texture_height(*image),
        forall|x: int, y: int|
            has_texel(*image, x, y) ==> #[trigger] texture_texels(flipped)[(x, y)]
                == texture_texels(*image)[(x, texture_height(*image) - 1 - y)],
{
    image.flipv()
}

} // verus!
