//! What a rasterizer needs from the thing it draws on.

use vstd::prelude::*;
use crate::raster::color::Color;

verus! {

/// A rectangular grid of pixels.
///
/// The pixel `(0, 0)` is a corner of the grid, `x` runs along the width and
/// `y` along the height.
pub trait Picture: Sized {
    /// The number of pixel columns.
    spec fn sink_width(&self) -> nat;

    /// The number of pixel rows.
    spec fn sink_height(&self) -> nat;

    /// The colour of the pixel in column `x` of row `y`.
    spec fn pixel_at(&self, x: int, y: int) -> Color;
}

/// A picture that can be written one pixel at a time. Writes outside the
/// grid are ignored, so a rasterizer never has to clip before it writes.
pub trait PixelSink: Picture {
    /// The number of pixel columns.
    fn columns(&self) -> (columns: usize)
        ensures
            columns == self.sink_width(),
    ;

    /// The number of pixel rows.
    fn rows(&self) -> (rows: usize)
        ensures
            rows == self.sink_height(),
    ;

    /// Colours the pixel `(x, y)` if the grid has one there, and changes
    /// nothing otherwise.
    fn put(&mut self, x: i64, y: i64, color: Color)
        ensures
            same_size(final(self), old(self)),
            forall|px: int, py: int|
                covers(old(self), px, py) ==> #[trigger] final(self).pixel_at(px, py) == (if px == x
                    && py == y {
                    color
                } else {
                    old(self).pixel_at(px, py)
                }),
    ;
}

/// Whether the grid has a pixel at `(x, y)`.
pub open spec fn covers<S: Picture>(sink: &S, x: int, y: int) -> bool {
    0 <= x < sink.sink_width() && 0 <= y < sink.sink_height()
}

/// Whether two grids have the same number of columns and of rows.
pub open spec fn same_size<S: Picture>(a: &S, b: &S) -> bool {
    a.sink_width() == b.sink_width() && a.sink_height() == b.sink_height()
}

/// Whether two grids of the same size show the same picture.
pub open spec fn same_picture<S: Picture>(a: &S, b: &S) -> bool {
    &&& same_size(a, b)
    &&& forall|x: int, y: int| covers(a, x, y) ==> #[trigger] a.pixel_at(x, y) == b.pixel_at(x, y)
}

/// In a row-major grid `width` wide, two cells with the same index are the
/// same cell.
pub proof fn lemma_cell_index_unique(width: int, x1: int, y1: int, x2: int, y2: int)
    requires
        0 <= x1 < width,
        0 <= x2 < width,
        y1 * width + x1 == y2 * width + x2,
    ensures
        x1 == x2,
        y1 == y2,
{
    if y1 < y2 {
        assert((y2 - y1) * width >= width) by (nonlinear_arith)
            requires
                y2 - y1 >= 1,
                width > 0,
        ;
        assert(y2 * width - y1 * width == (y2 - y1) * width) by (nonlinear_arith);
    } else if y2 < y1 {
        assert((y1 - y2) * width >= width) by (nonlinear_arith)
            requires
                y1 - y2 >= 1,
                width > 0,
        ;
        assert(y1 * width - y2 * width == (y1 - y2) * width) by (nonlinear_arith);
    }
}

/// In a row-major grid of `width` columns and `height` rows, the index of
/// every cell is below `width * height`.
pub proof fn lemma_cell_index_bound(width: int, height: int, x: int, y: int)
    requires
        0 <= x < width,
        0 <= y < height,
    ensures
        0 <= y * width + x < width * height,
{
    assert(y * width + x < width * height) by (nonlinear_arith)
        requires
            0 <= x < width,
            0 <= y < height,
    {
        assert((y + 1) * width <= height * width);
    }
    assert(0 <= y * width) by (nonlinear_arith)
        requires
            0 <= y,
            0 <= width,
    ;
}

/// Every index below `width * height` is the index of one cell of a
/// row-major grid: the cell in column `i % width` of row `i / width`.
pub proof fn lemma_cell_of_index(width: int, height: int, i: int)
    requires
        0 <= i < width * height,
        0 <= width,
    ensures
        0 < width,
        0 <= i % width < width,
        0 <= i / width < height,
        (i / width) * width + i % width == i,
{
    assert(width > 0) by (nonlinear_arith)
        requires
            0 <= i < width * height,
            0 <= width,
    ;
    assert(i == width * (i / width) + i % width && 0 <= i % width < width) by (nonlinear_arith)
        requires
            width > 0,
    ;
    assert(0 <= i / width < height) by (nonlinear_arith)
        requires
            0 <= i < width * height,
            0 < width,
            i == width * (i / width) + i % width,
            0 <= i % width < width,
    {
        if i / width >= height {
            assert(width * (i / width) >= width * height);
        }
        if i / width < 0 {
            assert(width * (i / width) <= width * (-1));
        }
    }
    assert((i / width) * width == width * (i / width)) by (nonlinear_arith);
}

} // verus!
