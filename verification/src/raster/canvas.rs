//! A framebuffer that owns its pixels.

use vstd::prelude::*;
use vstd::string::*;
use crate::raster::color::Color;
use crate::raster::ppm::{body, document, header, lemma_document_lines, lines_within, room, wraps, LINE_LIMIT};
use crate::raster::sink::{covers, lemma_cell_index_bound, lemma_cell_index_unique, lemma_cell_of_index, same_size, Picture, PixelSink};
use crate::raster::text::append_decimal;

verus! {

/// A `width` by `height` grid of colours, black when it is made.
///
/// The pixel `(0, 0)` is the first one in storage; `x` grows along a row
/// and `y` from row to row.
pub struct Canvas {
    width: usize,
    height: usize,
    contents: Vec<Color>,
}

impl Picture for Canvas {
    closed spec fn sink_width(&self) -> nat {
        self.width as nat
    }

    closed spec fn sink_height(&self) -> nat {
        self.height as nat
    }

    closed spec fn pixel_at(&self, x: int, y: int) -> Color {
        self.contents@[y * self.width + x]
    }
}

impl PixelSink for Canvas {
    fn columns(&self) -> usize {
        self.width
    }

    fn rows(&self) -> usize {
        self.height
    }

    fn put(&mut self, x: i64, y: i64, color: Color) {
        proof {
            use_type_invariant(&*self);
        }
        if x >= 0 && y >= 0 && (x as u64) < (self.width as u64) && (y as u64) < (
        self.height as u64) {
            proof {
                lemma_cell_index_bound(self.width as int, self.height as int, x as int, y as int);
            }
            let index = (y as usize) * self.width + (x as usize);
            self.contents[index] = color;
            assert forall|px: int, py: int| covers(old(self), px, py) implies #[trigger] self.pixel_at(
                px,
                py,
            ) == (if px == x && py == y {
                color
            } else {
                old(self).pixel_at(px, py)
            }) by {
                lemma_cell_index_bound(self.width as int, self.height as int, px, py);
                if py * self.width + px == index {
                    lemma_cell_index_unique(self.width as int, px, py, x as int, y as int);
                }
            }
        }
    }
}

impl Canvas {
    #[verifier::type_invariant]
    spec fn well_formed(self) -> bool {
        self.contents.len() == self.width * self.height
    }

    /// The pixels in the order in which a plain-text image lists them: the
    /// row with the largest `y` first, and each row by growing `x`.
    pub open spec fn emitted(&self) -> Seq<Color> {
        Seq::new(
            self.sink_width() * self.sink_height(),
            |k: int|
                self.pixel_at(
                    k % (self.sink_width() as int),
                    self.sink_height() - 1 - k / (self.sink_width() as int),
                ),
        )
    }

    /// The canvas as a plain-text image.
    pub open spec fn ppm_text(&self) -> Seq<char> {
        document(self.sink_width(), self.sink_height(), self.emitted())
    }

    /// Makes a black canvas of the given size.
    pub fn new(width: usize, height: usize) -> (canvas: Canvas)
        requires
            width * height <= usize::MAX,
        ensures
            canvas.sink_width() == width,
            canvas.sink_height() == height,
            forall|x: int, y: int|
                covers(&canvas, x, y) ==> #[trigger] canvas.pixel_at(x, y) == Color(0, 0, 0),
    {
        let count = width * height;
        let mut contents: Vec<Color> = Vec::new();
        while contents.len() < count
            invariant
                contents.len() <= count,
                forall|i: int| 0 <= i < contents.len() ==> contents@[i] == Color(0, 0, 0),
            decreases count - contents.len(),
        {
            contents.push(Color(0, 0, 0));
        }
        let canvas = Canvas { width, height, contents };
        assert forall|x: int, y: int| covers(&canvas, x, y) implies #[trigger] canvas.pixel_at(x, y)
            == Color(0, 0, 0) by {
            lemma_cell_index_bound(width as int, height as int, x, y);
        }
        canvas
    }

    /// The number of pixel columns.
    pub fn width(&self) -> (width: usize)
        ensures
            width == self.sink_width(),
    {
        self.width
    }

    /// The number of pixel rows.
    pub fn height(&self) -> (height: usize)
        ensures
            height == self.sink_height(),
    {
        self.height
    }

    /// Whether the canvas has a pixel at `(x, y)`.
    pub fn in_bounds(&self, x: i32, y: i32) -> (inside: bool)
        ensures
            inside == covers(self, x as int, y as int),
    {
        x >= 0 && y >= 0 && (x as usize) < self.width && (y as usize) < self.height
    }

    /// The colour of the pixel `(x, y)`, or `None` where the canvas has no
    /// such pixel.
    pub fn get(&self, x: i32, y: i32) -> (pixel: Option<&Color>)
        ensures
            covers(self, x as int, y as int) ==> pixel == Some(&self.pixel_at(x as int, y as int)),
            !covers(self, x as int, y as int) ==> pixel.is_none(),
    {
        proof {
            use_type_invariant(self);
        }
        if self.in_bounds(x, y) {
            proof {
                lemma_cell_index_bound(self.width as int, self.height as int, x as int, y as int);
            }
            let index = (y as usize) * self.width + (x as usize);
            Some(&self.contents[index])
        } else {
            None
        }
    }

    /// Colours the pixel `(x, y)`; does nothing where the canvas has no such
    /// pixel.
    pub fn set(&mut self, color: Color, x: i32, y: i32)
        ensures
            same_size(final(self), old(self)),
            forall|px: int, py: int|
                covers(old(self), px, py) ==> #[trigger] final(self).pixel_at(px, py) == (if px == x
                    && py == y {
                    color
                } else {
                    old(self).pixel_at(px, py)
                }),
    {
        self.put(x as i64, y as i64, color);
    }

    /// Writes the canvas as a plain-text image: the header, then the rows
    /// from the last one in storage to the first, each from `x = 0` on. No
    /// line of the text holds more than [`LINE_LIMIT`] characters.
    pub fn format_ppm(canvas: &Canvas) -> (text: String)
        ensures
            text@ == canvas.ppm_text(),
            lines_within(text@, LINE_LIMIT as int),
    {
        proof {
            use_type_invariant(canvas);
            lemma_document_lines(canvas.sink_width(), canvas.sink_height(), canvas.emitted());
            reveal_strlit("P3\n");
            reveal_strlit(" ");
            reveal_strlit("\n255\n");
            reveal_strlit("\n");
        }
        let width = canvas.width;
        let height = canvas.height;
        let mut result = String::new();
        result.append("P3\n");
        append_decimal(&mut result, width);
        result.append(" ");
        append_decimal(&mut result, height);
        result.append("\n255\n");
        assert(result@ =~= header(width as nat, height as nat));
        let count = width * height;
        let ghost pixels = canvas.emitted();
        let mut line_len: usize = 0;
        let mut items: usize = 0;
        let mut k: usize = 0;
        assert(pixels.take(0) =~= Seq::<Color>::empty());
        while k < count
            invariant
                k <= count,
                count == width * height,
                width == canvas.width,
                height == canvas.height,
                canvas.contents.len() == count,
                pixels == canvas.emitted(),
                pixels.len() == count,
                result@ == header(width as nat, height as nat) + body(
                    pixels.take(k as int),
                    width as nat,
                ).text,
                line_len == body(pixels.take(k as int), width as nat).line_len,
                items == body(pixels.take(k as int), width as nat).items,
                line_len <= LINE_LIMIT,
                items <= k,
            decreases count - k,
        {
            proof {
                lemma_cell_of_index(width as int, height as int, k as int);
            }
            let col = k % width;
            let row_up = k / width;
            proof {
                reveal_strlit(" ");
                reveal_strlit("\n");
                assert(" "@ =~= seq![' ']);
                assert("\n"@ =~= seq!['\n']);
                lemma_cell_index_bound(
                    width as int,
                    height as int,
                    col as int,
                    height - 1 - row_up,
                );
            }
            let row = height - 1 - row_up;
            let index = row * width + col;
            let color = canvas.contents[index];
            let ghost before = body(pixels.take(k as int), width as nat);
            proof {
                assert(pixels.take(k + 1).drop_last() =~= pixels.take(k as int));
                assert(pixels.take(k + 1).last() == pixels[k as int]);
                assert(pixels[k as int] == canvas.pixel_at(col as int, row as int));
                assert(color == pixels[k as int]);
            }
            let length = color.ppm_length();
            let ghost start = result@;
            let ghost head = header(width as nat, height as nat);
            if line_len + length > LINE_LIMIT || items >= width {
                result.append("\n");
                line_len = 0;
                items = 0;
            }
            let ghost broken = result@;
            color.append_to(&mut result);
            result.append(" ");
            items = items + 1;
            line_len = line_len + length;
            k = k + 1;
            proof {
                let after = body(pixels.take(k as int), width as nat);
                assert(room(color) == length);
                assert(result@ == broken + color.ppm_text() + seq![' ']);
                if wraps(before, color, width as nat) {
                    assert(broken == start + seq!['\n']);
                    assert(after.text == before.text + seq!['\n'] + color.ppm_text() + seq![' ']);
                    assert(head + (before.text + seq!['\n'] + color.ppm_text() + seq![' ']) =~= head
                        + before.text + seq!['\n'] + color.ppm_text() + seq![' ']);
                } else {
                    assert(broken == start);
                    assert(after.text == before.text + color.ppm_text() + seq![' ']);
                    assert(head + (before.text + color.ppm_text() + seq![' ']) =~= head
                        + before.text + color.ppm_text() + seq![' ']);
                }
            }
        }
        assert(pixels.take(count as int) =~= pixels);
        result.append("\n");
        result
    }
}

} // verus!
