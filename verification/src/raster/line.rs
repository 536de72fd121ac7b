//! Straight lines between two pixels, after Bresenham.
//!
//! A segment is walked along its longer axis, from the end with the smaller
//! coordinate to the other, one pixel per step. On the shorter axis the
//! pixel is the one nearest to the ideal line; where the line passes exactly
//! between two pixels, the one nearer to the start of the walk is taken.

use vstd::prelude::*;
use crate::raster::color::Color;
use crate::raster::sink::{covers, same_size, Picture, PixelSink};

verus! {

/// The distance between two numbers.
pub open spec fn span(a: int, b: int) -> int {
    if a <= b {
        b - a
    } else {
        a - b
    }
}

/// Whether the segment is walked along `y`: it rises more than it runs.
pub open spec fn steep(x0: int, y0: int, x1: int, y1: int) -> bool {
    span(x0, x1) < span(y0, y1)
}

/// A segment as it is walked: from `(a0, b0)` to `(a1, b1)`, where `a` is
/// the coordinate on the longer axis and `a0 <= a1`.
pub struct Walk {
    /// The start on the longer axis.
    pub a0: int,
    /// The start on the shorter axis.
    pub b0: int,
    /// The end on the longer axis.
    pub a1: int,
    /// The end on the shorter axis.
    pub b1: int,
    /// Whether the longer axis is `y`.
    pub steep: bool,
}

/// The walk along the segment from `(x0, y0)` to `(x1, y1)`.
pub open spec fn walk(x0: int, y0: int, x1: int, y1: int) -> Walk {
    if steep(x0, y0, x1, y1) {
        if y0 > y1 {
            Walk { a0: y1, b0: x1, a1: y0, b1: x0, steep: true }
        } else {
            Walk { a0: y0, b0: x0, a1: y1, b1: x1, steep: true }
        }
    } else {
        if x0 > x1 {
            Walk { a0: x1, b0: y1, a1: x0, b1: y0, steep: false }
        } else {
            Walk { a0: x0, b0: y0, a1: x1, b1: y1, steep: false }
        }
    }
}

/// How far the walk has moved on the shorter axis after `k` steps on the
/// longer one: `k * rise / run`, rounded to the nearest integer, a half
/// rounded down.
pub open spec fn drift(run: int, rise: int, k: int) -> int {
    if run <= 0 {
        0
    } else {
        (2 * k * rise + run - 1) / (2 * run)
    }
}

/// The coordinate on the shorter axis of the pixel that the walk colours
/// `k` steps after its start.
pub open spec fn minor_at(w: Walk, k: int) -> int {
    if w.b0 <= w.b1 {
        w.b0 + drift(w.a1 - w.a0, w.b1 - w.b0, k)
    } else {
        w.b0 - drift(w.a1 - w.a0, w.b0 - w.b1, k)
    }
}

/// Whether the walk colours the pixel with coordinate `a` on the longer
/// axis and `b` on the shorter.
pub open spec fn walk_covers(w: Walk, a: int, b: int) -> bool {
    w.a0 <= a <= w.a1 && b == minor_at(w, a - w.a0)
}

/// Whether the line from `(x0, y0)` to `(x1, y1)` colours the pixel
/// `(px, py)`.
pub open spec fn on_line(x0: int, y0: int, x1: int, y1: int, px: int, py: int) -> bool {
    let w = walk(x0, y0, x1, y1);
    if w.steep {
        walk_covers(w, py, px)
    } else {
        walk_covers(w, px, py)
    }
}

/// Whether the walk colours `(px, py)` before it reaches `a` on its longer
/// axis.
pub open spec fn on_line_before(w: Walk, a: int, px: int, py: int) -> bool {
    if w.steep {
        walk_covers(w, py, px) && py < a
    } else {
        walk_covers(w, px, py) && px < a
    }
}

/// The quotient of a division is the one number `q` with
/// `q * d <= n < (q + 1) * d`.
proof fn lemma_quotient(n: int, d: int, q: int)
    requires
        d > 0,
        q * d <= n < q * d + d,
    ensures
        n / d == q,
{
    assert(n / d == q) by (nonlinear_arith)
        requires
            d > 0,
            q * d <= n < q * d + d,
    {
        let r = n / d;
        assert(n == d * r + n % d);
        assert(0 <= n % d < d);
        if r < q {
            assert(d * (r + 1) <= d * q);
        }
        if r > q {
            assert(d * r >= d * (q + 1));
        }
    }
}

/// The walk does not drift at its start and has drifted by the whole rise
/// at its end.
pub proof fn lemma_drift_ends(run: int, rise: int)
    requires
        0 <= rise <= run,
    ensures
        drift(run, rise, 0) == 0,
        drift(run, rise, run) == rise,
{
    if run > 0 {
        lemma_quotient(run - 1, 2 * run, 0);
        assert(rise * (2 * run) == 2 * run * rise) by (nonlinear_arith);
        lemma_quotient(2 * run * rise + run - 1, 2 * run, rise);
    }
}

/// Every line colours both of its end points.
pub proof fn lemma_line_has_endpoints(x0: int, y0: int, x1: int, y1: int)
    ensures
        on_line(x0, y0, x1, y1, x0, y0),
        on_line(x0, y0, x1, y1, x1, y1),
{
    let w = walk(x0, y0, x1, y1);
    if w.b0 <= w.b1 {
        lemma_drift_ends(w.a1 - w.a0, w.b1 - w.b0);
    } else {
        lemma_drift_ends(w.a1 - w.a0, w.b0 - w.b1);
    }
}

/// A line colours the same pixels whichever of its ends is named first.
pub proof fn lemma_line_direction(x0: int, y0: int, x1: int, y1: int, px: int, py: int)
    ensures
        on_line(x0, y0, x1, y1, px, py) == on_line(x1, y1, x0, y0, px, py),
{
    assert(walk(x0, y0, x1, y1) == walk(x1, y1, x0, y0));
}

/// A segment that starts and ends at one pixel colours that pixel and no
/// other.
pub proof fn lemma_line_point(x: int, y: int, px: int, py: int)
    ensures
        on_line(x, y, x, y, px, py) == (px == x && py == y),
{
}

/// A horizontal line colours the pixels of its row between its ends, and no
/// others.
pub proof fn lemma_line_horizontal(x0: int, x1: int, y: int, px: int, py: int)
    ensures
        on_line(x0, y, x1, y, px, py) == (py == y && (x0 <= px <= x1 || x1 <= px <= x0)),
{
    let w = walk(x0, y, x1, y);
    let run = w.a1 - w.a0;
    if run > 0 && w.a0 <= px <= w.a1 {
        lemma_quotient(run - 1, 2 * run, 0);
        assert(2 * (px - w.a0) * 0 == 0);
    }
}

/// A vertical line colours the pixels of its column between its ends, and
/// no others.
pub proof fn lemma_line_vertical(x: int, y0: int, y1: int, px: int, py: int)
    ensures
        on_line(x, y0, x, y1, px, py) == (px == x && (y0 <= py <= y1 || y1 <= py <= y0)),
{
    let w = walk(x, y0, x, y1);
    let run = w.a1 - w.a0;
    if run > 0 && w.a0 <= py <= w.a1 {
        lemma_quotient(run - 1, 2 * run, 0);
        assert(2 * (py - w.a0) * 0 == 0);
    }
}

/// The error term of the walk determines its drift: if, after `k` steps
/// and `m` moves on the shorter axis, `2 * k * rise - 2 * m * run` lies in
/// `(-run, run]`, then `m` is the drift after `k` steps.
proof fn lemma_error_gives_drift(run: int, rise: int, k: int, m: int, error: int)
    requires
        run > 0,
        error == 2 * k * rise - 2 * run * m,
        -run < error <= run,
    ensures
        drift(run, rise, k) == m,
{
    assert(m * (2 * run) == 2 * run * m) by (nonlinear_arith);
    lemma_quotient(2 * k * rise + run - 1, 2 * run, m);
}

/// Draws the line from `(x0_input, y0_input)` to `(x1_input, y1_input)` in
/// `color`. Both end points are coloured. Parts of the line that lie
/// outside `canvas` are left out.
pub fn draw_line<S: PixelSink>(
    x0_input: i32,
    y0_input: i32,
    x1_input: i32,
    y1_input: i32,
    canvas: &mut S,
    color: &Color,
)
    ensures
        same_size(final(canvas), old(canvas)),
        forall|px: int, py: int|
            covers(old(canvas), px, py) ==> #[trigger] final(canvas).pixel_at(px, py) == (if on_line(
                x0_input as int,
                y0_input as int,
                x1_input as int,
                y1_input as int,
                px,
                py,
            ) {
                *color
            } else {
                old(canvas).pixel_at(px, py)
            }),
{
    let span_x: i64 = if x0_input <= x1_input {
        x1_input as i64 - x0_input as i64
    } else {
        x0_input as i64 - x1_input as i64
    };
    let span_y: i64 = if y0_input <= y1_input {
        y1_input as i64 - y0_input as i64
    } else {
        y0_input as i64 - y1_input as i64
    };
    let is_steep = span_x < span_y;
    let mut x0: i64 = x0_input as i64;
    let mut y0: i64 = y0_input as i64;
    let mut x1: i64 = x1_input as i64;
    let mut y1: i64 = y1_input as i64;
    if is_steep {
        x0 = y0_input as i64;
        y0 = x0_input as i64;
        x1 = y1_input as i64;
        y1 = x1_input as i64;
    }
    if x0 > x1 {
        let (x, y) = (x0, y0);
        x0 = x1;
        y0 = y1;
        x1 = x;
        y1 = y;
    }
    let ghost w = walk(x0_input as int, y0_input as int, x1_input as int, y1_input as int);
    assert(w == (Walk { a0: x0 as int, b0: y0 as int, a1: x1 as int, b1: y1 as int, steep: is_steep }));
    let dx: i64 = x1 - x0;
    let rise: i64 = if y0 <= y1 {
        y1 - y0
    } else {
        y0 - y1
    };
    let derror2: i64 = rise * 2;
    let mut error2: i64 = 0;
    let mut y: i64 = y0;
    let mut x: i64 = x0;
    let ghost mut moves: int = 0;
    proof {
        lemma_drift_ends(dx as int, rise as int);
        assert(2 * (x - x0) * rise - 2 * dx * moves == 0) by (nonlinear_arith)
            requires
                x == x0,
                moves == 0,
        ;
    }
    while x <= x1
        invariant
            x0 <= x <= x1 + 1,
            w == (Walk { a0: x0 as int, b0: y0 as int, a1: x1 as int, b1: y1 as int, steep: is_steep }),
            -2147483648 <= x0 <= x1 <= 2147483647,
            -2147483648 <= y0 <= 2147483647,
            -2147483648 <= y1 <= 2147483647,
            dx == x1 - x0,
            rise == span(y0 as int, y1 as int),
            0 <= rise <= dx,
            derror2 == 2 * rise,
            0 <= moves <= rise,
            y == (if y0 <= y1 {
                y0 + moves
            } else {
                y0 - moves
            }),
            x <= x1 ==> moves == drift(dx as int, rise as int, x - x0),
            x <= x1 ==> error2 == 2 * (x - x0) * rise - 2 * dx * moves,
            x <= x1 && dx > 0 ==> -dx < error2 <= dx,
            same_size(canvas, old(canvas)),
            forall|px: int, py: int|
                covers(old(canvas), px, py) ==> #[trigger] canvas.pixel_at(px, py) == (if on_line_before(
                    w,
                    x as int,
                    px,
                    py,
                ) {
                    *color
                } else {
                    old(canvas).pixel_at(px, py)
                }),
        decreases x1 + 1 - x,
    {
        let ghost shown = *canvas;
        if is_steep {
            canvas.put(y, x, *color);
        } else {
            canvas.put(x, y, *color);
        }
        assert(y == minor_at(w, x - x0));
        assert forall|px: int, py: int| covers(old(canvas), px, py) implies #[trigger] canvas.pixel_at(
            px,
            py,
        ) == (if on_line_before(w, x + 1, px, py) {
            *color
        } else {
            old(canvas).pixel_at(px, py)
        }) by {
            assert(covers(&shown, px, py));
        }
        if x < x1 {
            proof {
                assert(2 * (x + 1 - x0) * rise == 2 * (x - x0) * rise + 2 * rise) by (nonlinear_arith);
            }
            error2 = error2 + derror2;
            if error2 > dx {
                y = if y1 > y0 {
                    y + 1
                } else {
                    y - 1
                };
                error2 = error2 - dx * 2;
                proof {
                    assert(2 * dx * (moves + 1) == 2 * dx * moves + 2 * dx) by (nonlinear_arith);
                    moves = moves + 1;
                }
            }
            proof {
                lemma_error_gives_drift(dx as int, rise as int, x + 1 - x0, moves, error2 as int);
                lemma_drift_ends(dx as int, rise as int);
                lemma_drift_grows(dx as int, rise as int, x + 1 - x0, dx as int);
            }
        }
        x = x + 1;
    }
    assert forall|px: int, py: int| covers(old(canvas), px, py) implies #[trigger] canvas.pixel_at(
        px,
        py,
    ) == (if on_line(
        x0_input as int,
        y0_input as int,
        x1_input as int,
        y1_input as int,
        px,
        py,
    ) {
        *color
    } else {
        old(canvas).pixel_at(px, py)
    }) by {
        assert(on_line_before(w, x1 + 1, px, py) == on_line(
            x0_input as int,
            y0_input as int,
            x1_input as int,
            y1_input as int,
            px,
            py,
        ));
    }
}

/// The drift never shrinks as the walk goes on.
pub proof fn lemma_drift_grows(run: int, rise: int, j: int, k: int)
    requires
        0 <= rise,
        0 <= j <= k,
    ensures
        drift(run, rise, j) <= drift(run, rise, k),
{
    if run > 0 {
        let d = 2 * run;
        let n1 = 2 * j * rise + run - 1;
        let n2 = 2 * k * rise + run - 1;
        assert(n1 <= n2) by (nonlinear_arith)
            requires
                n1 == 2 * j * rise + run - 1,
                n2 == 2 * k * rise + run - 1,
                0 <= rise,
                0 <= j <= k,
        ;
        assert(n1 / d <= n2 / d) by (nonlinear_arith)
            requires
                n1 <= n2,
                d > 0,
        {
            assert(n1 == d * (n1 / d) + n1 % d);
            assert(n2 == d * (n2 / d) + n2 % d);
            assert(0 <= n1 % d < d);
            assert(0 <= n2 % d < d);
            if n1 / d > n2 / d {
                assert(d * (n1 / d) >= d * (n2 / d + 1));
            }
        }
    }
}

} // verus!
