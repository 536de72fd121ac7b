//! The layout of a plain-text ("P3") image.
//!
//! The text starts with the header `P3`, the width and height, and the
//! largest channel value `255`, each line ended by a line feed. The pixels
//! follow as `r g b` triples, each followed by one blank. A line feed is put
//! in front of a triple when the line would otherwise grow beyond
//! [`LINE_LIMIT`] characters, or when the line already holds as many triples
//! as the image is wide. A last line feed ends the text.

use vstd::prelude::*;
use crate::raster::color::Color;
use crate::raster::text::{decimal, lemma_decimal_is_digits, lemma_decimal_len, lemma_decimal_len_word};

verus! {

/// The most characters that a line of pixel data may hold.
pub const LINE_LIMIT: usize = 70;

/// The pixel data laid out so far, and how full its last line is.
pub struct Layout {
    /// The text.
    pub text: Seq<char>,
    /// The number of characters on the last line.
    pub line_len: nat,
    /// The number of triples on the last line.
    pub items: nat,
}

/// The room that one pixel takes on a line: its triple and the blank behind.
pub open spec fn room(pixel: Color) -> nat {
    pixel.ppm_text().len() + 1
}

/// Whether a line feed goes in front of `pixel` when it is added to `before`.
pub open spec fn wraps(before: Layout, pixel: Color, width: nat) -> bool {
    before.line_len + room(pixel) > LINE_LIMIT || before.items >= width
}

/// The layout of `pixels`, in the order given, for an image `width` wide.
pub open spec fn body(pixels: Seq<Color>, width: nat) -> Layout
    decreases pixels.len(),
{
    if pixels.len() == 0 {
        Layout { text: Seq::empty(), line_len: 0, items: 0 }
    } else {
        let before = body(pixels.drop_last(), width);
        let pixel = pixels.last();
        if wraps(before, pixel, width) {
            Layout {
                text: before.text + seq!['\n'] + pixel.ppm_text() + seq![' '],
                line_len: room(pixel),
                items: 1,
            }
        } else {
            Layout {
                text: before.text + pixel.ppm_text() + seq![' '],
                line_len: before.line_len + room(pixel),
                items: before.items + 1,
            }
        }
    }
}

/// The three header lines of an image of the given size.
pub open spec fn header(width: nat, height: nat) -> Seq<char> {
    seq!['P', '3', '\n'] + decimal(width) + seq![' '] + decimal(height) + seq![
        '\n',
        '2',
        '5',
        '5',
        '\n',
    ]
}

/// The whole text of an image of the given size whose pixels, in the order
/// in which they are written, are `pixels`.
pub open spec fn document(width: nat, height: nat, pixels: Seq<Color>) -> Seq<char> {
    header(width, height) + body(pixels, width).text + seq!['\n']
}

/// Whether the characters of `text` from `from` up to `to` are on one
/// line: none of them is a line feed.
pub open spec fn unbroken(text: Seq<char>, from: int, to: int) -> bool {
    forall|k: int| from <= k < to ==> text[k] != '\n'
}

/// Whether no line of `text` holds more than `limit` characters.
pub open spec fn lines_within(text: Seq<char>, limit: int) -> bool {
    forall|from: int, to: int|
        0 <= from <= to <= text.len() && #[trigger] unbroken(text, from, to) ==> to - from
            <= limit
}

/// Whether the last line of `text` holds at most `limit` characters.
pub open spec fn tail_within(text: Seq<char>, limit: int) -> bool {
    forall|from: int|
        0 <= from <= text.len() && #[trigger] unbroken(text, from, text.len() as int)
            ==> text.len() - from <= limit
}

/// Text without a line feed, put behind a last line that leaves room for
/// it, makes no line too long.
proof fn lemma_append_words(text: Seq<char>, words: Seq<char>, tail: int, limit: int)
    requires
        lines_within(text, limit),
        tail_within(text, tail),
        unbroken(words, 0, words.len() as int),
        0 <= tail,
        tail + words.len() <= limit,
    ensures
        lines_within(text + words, limit),
        tail_within(text + words, tail + words.len()),
{
    let all = text + words;
    let cut = text.len() as int;
    assert forall|from: int, to: int|
        0 <= from <= to <= all.len() && #[trigger] unbroken(all, from, to) implies to - from
        <= limit by {
        if to <= cut {
            assert forall|k: int| from <= k < to implies text[k] != '\n' by {
                assert(all[k] == text[k]);
            }
            assert(unbroken(text, from, to));
        } else if from < cut {
            assert forall|k: int| from <= k < cut implies text[k] != '\n' by {
                assert(all[k] == text[k]);
            }
            assert(unbroken(text, from, cut));
        }
    }
    assert forall|from: int|
        0 <= from <= all.len() && #[trigger] unbroken(all, from, all.len() as int) implies all.len()
        - from <= tail + words.len() by {
        if from < cut {
            assert forall|k: int| from <= k < cut implies text[k] != '\n' by {
                assert(all[k] == text[k]);
            }
            assert(unbroken(text, from, cut));
        }
    }
}

/// A line feed put behind text makes no line longer, and starts an empty
/// line.
proof fn lemma_append_break(text: Seq<char>, limit: int)
    requires
        lines_within(text, limit),
        0 <= limit,
    ensures
        lines_within(text + seq!['\n'], limit),
        tail_within(text + seq!['\n'], 0),
{
    let all = text + seq!['\n'];
    let cut = text.len() as int;
    assert(all[cut] == '\n');
    assert forall|from: int, to: int|
        0 <= from <= to <= all.len() && #[trigger] unbroken(all, from, to) implies to - from
        <= limit by {
        if to <= cut {
            assert forall|k: int| from <= k < to implies text[k] != '\n' by {
                assert(all[k] == text[k]);
            }
            assert(unbroken(text, from, to));
        } else if from <= cut {
            assert(all[cut] != '\n');
        }
    }
    assert forall|from: int|
        0 <= from <= all.len() && #[trigger] unbroken(all, from, all.len() as int) implies all.len()
        - from <= 0 by {
        if from <= cut {
            assert(all[cut] != '\n');
        }
    }
}

/// Two texts without a line feed, one behind the other, hold no line feed.
proof fn lemma_unbroken_pair(a: Seq<char>, b: Seq<char>)
    requires
        unbroken(a, 0, a.len() as int),
        unbroken(b, 0, b.len() as int),
    ensures
        unbroken(a + b, 0, (a + b).len() as int),
{
    assert forall|k: int| 0 <= k < (a + b).len() implies (a + b)[k] != '\n' by {
        if k < a.len() {
            assert((a + b)[k] == a[k]);
        } else {
            assert((a + b)[k] == b[k - a.len()]);
        }
    }
}

/// A number in decimal holds no line feed.
proof fn lemma_decimal_unbroken(n: nat)
    ensures
        unbroken(decimal(n), 0, decimal(n).len() as int),
{
    assert forall|k: int| 0 <= k < decimal(n).len() implies decimal(n)[k] != '\n' by {
        lemma_decimal_is_digits(n, k);
    }
}

/// A triple and the blank behind it hold no line feed and at most twelve
/// characters.
proof fn lemma_item_unbroken(pixel: Color)
    ensures
        unbroken(pixel.ppm_text() + seq![' '], 0, room(pixel) as int),
        (pixel.ppm_text() + seq![' ']).len() == room(pixel),
        room(pixel) <= 12,
{
    let blank = seq![' '];
    lemma_decimal_unbroken(pixel.0 as nat);
    lemma_decimal_unbroken(pixel.1 as nat);
    lemma_decimal_unbroken(pixel.2 as nat);
    lemma_unbroken_pair(decimal(pixel.0 as nat), blank);
    lemma_unbroken_pair(decimal(pixel.0 as nat) + blank, decimal(pixel.1 as nat));
    lemma_unbroken_pair(decimal(pixel.0 as nat) + blank + decimal(pixel.1 as nat), blank);
    lemma_unbroken_pair(
        decimal(pixel.0 as nat) + blank + decimal(pixel.1 as nat) + blank,
        decimal(pixel.2 as nat),
    );
    lemma_unbroken_pair(pixel.ppm_text(), blank);
    lemma_decimal_len(pixel.0 as nat);
    lemma_decimal_len(pixel.1 as nat);
    lemma_decimal_len(pixel.2 as nat);
    crate::raster::text::lemma_decimal_len_byte(pixel.0 as nat);
    crate::raster::text::lemma_decimal_len_byte(pixel.1 as nat);
    crate::raster::text::lemma_decimal_len_byte(pixel.2 as nat);
}

/// The header holds no line of more than [`LINE_LIMIT`] characters, and
/// ends with a line feed.
proof fn lemma_header_lines(width: nat, height: nat)
    requires
        width <= u64::MAX,
        height <= u64::MAX,
    ensures
        lines_within(header(width, height), LINE_LIMIT as int),
        tail_within(header(width, height), 0),
{
    let limit = LINE_LIMIT as int;
    let start = Seq::<char>::empty();
    let magic = seq!['P', '3'];
    let blank = seq![' '];
    let range = seq!['2', '5', '5'];
    let feed = seq!['\n'];
    lemma_decimal_unbroken(width);
    lemma_decimal_unbroken(height);
    lemma_decimal_len_word(width);
    lemma_decimal_len_word(height);
    assert(lines_within(start, limit));
    assert(tail_within(start, 0));
    lemma_append_words(start, magic, 0, limit);
    let t1 = start + magic;
    lemma_append_break(t1, limit);
    let t2 = t1 + feed;
    lemma_append_words(t2, decimal(width), 0, limit);
    let t3 = t2 + decimal(width);
    lemma_append_words(t3, blank, decimal(width).len() as int, limit);
    let t4 = t3 + blank;
    lemma_append_words(t4, decimal(height), (decimal(width).len() + 1) as int, limit);
    let t5 = t4 + decimal(height);
    lemma_append_break(t5, limit);
    let t6 = t5 + feed;
    lemma_append_words(t6, range, 0, limit);
    let t7 = t6 + range;
    lemma_append_break(t7, limit);
    assert(t7 + feed =~= header(width, height));
}

/// The header and the pixel data behind it hold no line of more than
/// [`LINE_LIMIT`] characters, and the last line is as long as the layout
/// says.
proof fn lemma_body_lines(width: nat, height: nat, pixels: Seq<Color>)
    requires
        width <= u64::MAX,
        height <= u64::MAX,
    ensures
        lines_within(header(width, height) + body(pixels, width).text, LINE_LIMIT as int),
        tail_within(
            header(width, height) + body(pixels, width).text,
            body(pixels, width).line_len as int,
        ),
        body(pixels, width).line_len <= LINE_LIMIT,
    decreases pixels.len(),
{
    let limit = LINE_LIMIT as int;
    let head = header(width, height);
    if pixels.len() == 0 {
        lemma_header_lines(width, height);
        assert(head + body(pixels, width).text =~= head);
    } else {
        let before = body(pixels.drop_last(), width);
        let pixel = pixels.last();
        let item = pixel.ppm_text() + seq![' '];
        lemma_body_lines(width, height, pixels.drop_last());
        lemma_item_unbroken(pixel);
        if wraps(before, pixel, width) {
            lemma_append_break(head + before.text, limit);
            lemma_append_words(head + before.text + seq!['\n'], item, 0, limit);
            assert(head + body(pixels, width).text =~= head + before.text + seq!['\n'] + item);
        } else {
            lemma_append_words(head + before.text, item, before.line_len as int, limit);
            assert(head + body(pixels, width).text =~= head + before.text + item);
        }
    }
}

/// No line of a plain-text image holds more than [`LINE_LIMIT`]
/// characters.
pub proof fn lemma_document_lines(width: nat, height: nat, pixels: Seq<Color>)
    requires
        width <= u64::MAX,
        height <= u64::MAX,
    ensures
        lines_within(document(width, height, pixels), LINE_LIMIT as int),
{
    lemma_body_lines(width, height, pixels);
    lemma_append_break(header(width, height) + body(pixels, width).text, LINE_LIMIT as int);
}

} // verus!
