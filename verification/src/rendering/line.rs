//! Lines on an image buffer.

use vstd::prelude::*;
use crate::raster::color::Color;
use crate::raster::line::on_line;
use crate::raster::sink::{covers, same_size, Picture};
use crate::rendering::frame::Frame;

verus! {

/// The colour with the given red, green and blue levels.
pub open spec fn color_of(levels: [u8; 3]) -> Color {
    Color(levels[0], levels[1], levels[2])
}

/// Draws the line from `(x0_input, y0_input)` to `(x1_input, y1_input)` on
/// an image, in the colour with the given red, green and blue levels. Both
/// end points are coloured; parts of the line outside the image are left
/// out.
pub fn draw_line(
    x0_input: i32,
    y0_input: i32,
    x1_input: i32,
    y1_input: i32,
    canvas: &mut Frame,
    color: &[u8; 3],
)
    ensures
        same_size(final(canvas), old(canvas)),
        forall|px: int, py: int|
            covers(old(canvas), px, py) ==> #[trigger] final(canvas).pixel_at(px, py) == (if on_line(
                x0_input as int,
                y0_input as int,
                x1_input as int,
                y1_input as int,
                px,
                py,
            ) {
                color_of(*color)
            } else {
                old(canvas).pixel_at(px, py)
            }),
{
    let shade = Color(color[0], color[1], color[2]);
    crate::raster::line::draw_line(x0_input, y0_input, x1_input, y1_input, canvas, &shade);
}

} // verus!
