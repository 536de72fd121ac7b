//! Filled triangles with a depth test.
//!
//! A pixel belongs to a triangle if its three barycentric weights are all
//! at least zero. The weights are kept as exact fractions with a common
//! denominator, so that a pixel on an edge is never lost to rounding.

use vstd::prelude::*;
use crate::raster::color::Color;
use crate::raster::sink::{covers, lemma_cell_index_bound, lemma_cell_index_unique, lemma_cell_of_index, same_picture, same_size, Picture, PixelSink};
use crate::raster::vector::Vec3u;
use crate::rendering::depth::{lemma_below_irreflexive, Depth};
use crate::rendering::line::color_of;
use crate::rendering::obj::{lemma_weighted_sum_bound, Model, Shader};

verus! {

/// The largest column or row that a vertex or a pixel may have here. With
/// it every number that the weights and depths are made of fits the
/// machine's integers.
pub const COORD_MAX: usize = 0x7fff_ffff;

/// The largest denominator that weights can have.
pub const UNIT_MAX: i128 = 0x8000_0000_0000_0000;

/// Three weights `n0 / unit`, `n1 / unit`, `n2 / unit`.
pub struct Bary {
    /// The numerator of the first vertex's weight.
    pub n0: int,
    /// The numerator of the second vertex's weight.
    pub n1: int,
    /// The numerator of the third vertex's weight.
    pub n2: int,
    /// The common denominator, which is positive.
    pub unit: int,
}

impl Bary {
    /// Whether no weight is negative.
    pub open spec fn inside(self) -> bool {
        self.n0 >= 0 && self.n1 >= 0 && self.n2 >= 0
    }

    /// Whether the weights are those of a point of a triangle: none is
    /// negative, and their sum is one.
    pub open spec fn proper(self) -> bool {
        &&& self.inside()
        &&& 0 < self.unit <= UNIT_MAX
        &&& self.n0 + self.n1 + self.n2 == self.unit
    }
}

/// Barycentric weights as exact fractions: the weight of the vertex `i` is
/// `ni / unit`.
#[derive(Clone, Copy, Debug, PartialEq, Eq)]
pub struct Weights {
    /// The numerator of the first vertex's weight.
    pub n0: i128,
    /// The numerator of the second vertex's weight.
    pub n1: i128,
    /// The numerator of the third vertex's weight.
    pub n2: i128,
    /// The common denominator, which is positive.
    pub unit: i128,
}

impl View for Weights {
    type V = Bary;

    open spec fn view(&self) -> Bary {
        Bary { n0: self.n0 as int, n1: self.n1 as int, n2: self.n2 as int, unit: self.unit as int }
    }
}

/// Whether the vertex lies where the weights can be computed: neither its
/// column nor its row is beyond [`COORD_MAX`]. Its depth may be anything.
pub open spec fn on_screen(vertex: Vec3u) -> bool {
    vertex.0 <= COORD_MAX && vertex.1 <= COORD_MAX
}

/// Whether there are three vertices and each lies where the weights can be
/// computed.
pub open spec fn drawable(points: Seq<Vec3u>) -> bool {
    &&& points.len() >= 3
    &&& on_screen(points[0])
    &&& on_screen(points[1])
    &&& on_screen(points[2])
}

/// The first component of the cross product of
/// `(v2.x - v0.x, v1.x - v0.x, v0.x - x)` and
/// `(v2.y - v0.y, v1.y - v0.y, v0.y - y)`.
pub open spec fn cross_x(points: Seq<Vec3u>, x: int, y: int) -> int {
    (points[1].0 - points[0].0) * (points[0].1 - y) - (points[0].0 - x) * (points[1].1
        - points[0].1)
}

/// The second component of that cross product.
pub open spec fn cross_y(points: Seq<Vec3u>, x: int, y: int) -> int {
    (points[0].0 - x) * (points[2].1 - points[0].1) - (points[2].0 - points[0].0) * (points[0].1
        - y)
}

/// The third component of that cross product, which does not depend on the
/// pixel: twice the area of the triangle, with a sign for its orientation.
pub open spec fn cross_z(points: Seq<Vec3u>) -> int {
    (points[2].0 - points[0].0) * (points[1].1 - points[0].1) - (points[1].0 - points[0].0) * (
    points[2].1 - points[0].1)
}

/// Whether the triangle has no area: its vertices lie on one line.
pub open spec fn degenerate(points: Seq<Vec3u>) -> bool {
    cross_z(points) == 0
}

/// The barycentric weights of the pixel `(x, y)` in the triangle of the
/// first three `points`: `1 - (u.x + u.y) / u.z`, `u.y / u.z` and
/// `u.x / u.z` for the cross product `u`. In a triangle without area
/// every pixel gets the weights `-1, 1, 1`.
pub open spec fn bary(points: Seq<Vec3u>, x: int, y: int) -> Bary {
    let ux = cross_x(points, x, y);
    let uy = cross_y(points, x, y);
    let uz = cross_z(points);
    if uz == 0 {
        Bary { n0: -1, n1: 1, n2: 1, unit: 1 }
    } else if uz > 0 {
        Bary { n0: uz - ux - uy, n1: uy, n2: ux, unit: uz }
    } else {
        Bary { n0: ux + uy - uz, n1: -uy, n2: -ux, unit: -uz }
    }
}

/// Whether the pixel `(x, y)` belongs to the triangle, its edges and
/// vertices included.
pub open spec fn inside(points: Seq<Vec3u>, x: int, y: int) -> bool {
    bary(points, x, y).inside()
}

/// The product of two numbers that are at most [`COORD_MAX`] in size.
fn times(a: i128, b: i128) -> (product: i128)
    requires
        -COORD_MAX <= a <= COORD_MAX,
        -COORD_MAX <= b <= COORD_MAX,
    ensures
        product == a * b,
        -COORD_MAX * COORD_MAX <= product <= COORD_MAX * COORD_MAX,
{
    assert(-COORD_MAX * COORD_MAX <= a * b <= COORD_MAX * COORD_MAX) by (nonlinear_arith)
        requires
            -COORD_MAX <= a <= COORD_MAX,
            -COORD_MAX <= b <= COORD_MAX,
    ;
    a * b
}

/// Computes the barycentric weights of the pixel `(x, y)` in the triangle
/// of the first three `points`.
pub fn barycentric(x: usize, y: usize, points: &Vec<Vec3u>) -> (weights: Weights)
    requires
        drawable(points@),
        x <= COORD_MAX,
        y <= COORD_MAX,
    ensures
        weights@ == bary(points@, x as int, y as int),
        -3 * UNIT_MAX <= weights.n0 <= 3 * UNIT_MAX,
        -UNIT_MAX <= weights.n1 <= UNIT_MAX,
        -UNIT_MAX <= weights.n2 <= UNIT_MAX,
        0 < weights.unit <= UNIT_MAX,
        weights@.inside() ==> weights@.proper(),
{
    let v0x = points[0].0 as i128;
    let v0y = points[0].1 as i128;
    let v1x = points[1].0 as i128;
    let v1y = points[1].1 as i128;
    let v2x = points[2].0 as i128;
    let v2y = points[2].1 as i128;
    let px = x as i128;
    let py = y as i128;
    let ux = times(v1x - v0x, v0y - py) - times(v0x - px, v1y - v0y);
    let uy = times(v0x - px, v2y - v0y) - times(v2x - v0x, v0y - py);
    let uz = times(v2x - v0x, v1y - v0y) - times(v1x - v0x, v2y - v0y);
    if uz == 0 {
        Weights { n0: -1, n1: 1, n2: 1, unit: 1 }
    } else if uz > 0 {
        Weights { n0: uz - ux - uy, n1: uy, n2: ux, unit: uz }
    } else {
        Weights { n0: ux + uy - uz, n1: -uy, n2: -ux, unit: -uz }
    }
}

/// At each of its own vertices, a triangle with area gives that vertex the
/// weight one and the other two the weight zero.
pub proof fn lemma_weights_at_vertices(points: Seq<Vec3u>)
    requires
        points.len() >= 3,
        !degenerate(points),
    ensures
        ({
            let w = bary(points, points[0].0 as int, points[0].1 as int);
            w.n0 == w.unit && w.n1 == 0 && w.n2 == 0
        }),
        ({
            let w = bary(points, points[1].0 as int, points[1].1 as int);
            w.n0 == 0 && w.n1 == w.unit && w.n2 == 0
        }),
        ({
            let w = bary(points, points[2].0 as int, points[2].1 as int);
            w.n0 == 0 && w.n1 == 0 && w.n2 == w.unit
        }),
        inside(points, points[0].0 as int, points[0].1 as int),
        inside(points, points[1].0 as int, points[1].1 as int),
        inside(points, points[2].0 as int, points[2].1 as int),
{
    let v0x = points[0].0 as int;
    let v0y = points[0].1 as int;
    let v1x = points[1].0 as int;
    let v1y = points[1].1 as int;
    let v2x = points[2].0 as int;
    let v2y = points[2].1 as int;
    let uz = cross_z(points);
    assert(cross_x(points, v0x, v0y) == 0 && cross_y(points, v0x, v0y) == 0) by (nonlinear_arith)
        requires
            cross_x(points, v0x, v0y) == (v1x - v0x) * (v0y - v0y) - (v0x - v0x) * (v1y - v0y),
            cross_y(points, v0x, v0y) == (v0x - v0x) * (v2y - v0y) - (v2x - v0x) * (v0y - v0y),
    ;
    assert(cross_x(points, v1x, v1y) == 0 && cross_y(points, v1x, v1y) == uz) by (nonlinear_arith)
        requires
            cross_x(points, v1x, v1y) == (v1x - v0x) * (v0y - v1y) - (v0x - v1x) * (v1y - v0y),
            cross_y(points, v1x, v1y) == (v0x - v1x) * (v2y - v0y) - (v2x - v0x) * (v0y - v1y),
            uz == (v2x - v0x) * (v1y - v0y) - (v1x - v0x) * (v2y - v0y),
    ;
    assert(cross_x(points, v2x, v2y) == uz && cross_y(points, v2x, v2y) == 0) by (nonlinear_arith)
        requires
            cross_x(points, v2x, v2y) == (v1x - v0x) * (v0y - v2y) - (v0x - v2x) * (v1y - v0y),
            cross_y(points, v2x, v2y) == (v0x - v2x) * (v2y - v0y) - (v2x - v0x) * (v0y - v2y),
            uz == (v2x - v0x) * (v1y - v0y) - (v1x - v0x) * (v2y - v0y),
    ;
}

/// A triangle without area has no pixel.
pub proof fn lemma_degenerate_is_empty(points: Seq<Vec3u>, x: int, y: int)
    requires
        degenerate(points),
    ensures
        !inside(points, x, y),
{
}

/// The smallest of three numbers.
pub open spec fn least(a: int, b: int, c: int) -> int {
    if a <= b && a <= c {
        a
    } else if b <= c {
        b
    } else {
        c
    }
}

/// The largest of three numbers.
pub open spec fn greatest(a: int, b: int, c: int) -> int {
    if a >= b && a >= c {
        a
    } else if b >= c {
        b
    } else {
        c
    }
}

/// A weighted mean of three numbers, with weights that are not negative
/// and sum up to `unit`, lies between the smallest and the largest of them.
proof fn lemma_mean_between(n0: int, n1: int, n2: int, unit: int, a: int, b: int, c: int, m: int)
    requires
        n0 >= 0,
        n1 >= 0,
        n2 >= 0,
        unit > 0,
        n0 + n1 + n2 == unit,
        m * unit == n0 * a + n1 * b + n2 * c,
    ensures
        least(a, b, c) <= m <= greatest(a, b, c),
{
    let lo = least(a, b, c);
    let hi = greatest(a, b, c);
    assert(n0 * a + n1 * b + n2 * c >= lo * unit) by (nonlinear_arith)
        requires
            n0 >= 0,
            n1 >= 0,
            n2 >= 0,
            n0 + n1 + n2 == unit,
            lo <= a,
            lo <= b,
            lo <= c,
    {
        assert(n0 * a >= n0 * lo);
        assert(n1 * b >= n1 * lo);
        assert(n2 * c >= n2 * lo);
        assert(n0 * lo + n1 * lo + n2 * lo == lo * (n0 + n1 + n2));
    }
    assert(n0 * a + n1 * b + n2 * c <= hi * unit) by (nonlinear_arith)
        requires
            n0 >= 0,
            n1 >= 0,
            n2 >= 0,
            n0 + n1 + n2 == unit,
            hi >= a,
            hi >= b,
            hi >= c,
    {
        assert(n0 * a <= n0 * hi);
        assert(n1 * b <= n1 * hi);
        assert(n2 * c <= n2 * hi);
        assert(n0 * hi + n1 * hi + n2 * hi == hi * (n0 + n1 + n2));
    }
    assert(lo <= m) by (nonlinear_arith)
        requires
            m * unit >= lo * unit,
            unit > 0,
    ;
    assert(m <= hi) by (nonlinear_arith)
        requires
            m * unit <= hi * unit,
            unit > 0,
    ;
}

/// The cross product of two vectors is perpendicular to the first of
/// them. Here the vectors are `(c, a, e)` and `(d, b, f)`.
proof fn lemma_cross_perpendicular(a: int, b: int, c: int, d: int, e: int, f: int)
    ensures
        (a * f - e * b) * c + (e * d - c * f) * a + (c * b - a * d) * e == 0,
        (a * f - e * b) * d + (e * d - c * f) * b + (c * b - a * d) * f == 0,
{
    assert((a * f - e * b) * c == a * f * c - e * b * c) by (nonlinear_arith);
    assert((e * d - c * f) * a == e * d * a - c * f * a) by (nonlinear_arith);
    assert((c * b - a * d) * e == c * b * e - a * d * e) by (nonlinear_arith);
    assert(a * f * c == c * f * a) by (nonlinear_arith);
    assert(e * b * c == c * b * e) by (nonlinear_arith);
    assert(e * d * a == a * d * e) by (nonlinear_arith);
    assert((a * f - e * b) * d == a * f * d - e * b * d) by (nonlinear_arith);
    assert((e * d - c * f) * b == e * d * b - c * f * b) by (nonlinear_arith);
    assert((c * b - a * d) * f == c * b * f - a * d * f) by (nonlinear_arith);
    assert(a * f * d == a * d * f) by (nonlinear_arith);
    assert(e * b * d == e * d * b) by (nonlinear_arith);
    assert(c * f * b == c * b * f) by (nonlinear_arith);
}

/// If `ux * (v2 - v0) + uy * (v1 - v0) + uz * (v0 - m) == 0`, then `m` is
/// the mean of `v0`, `v1`, `v2` with the weights `uz - ux - uy`, `uy`, `ux`
/// over `uz`.
proof fn lemma_mean_from_cross(ux: int, uy: int, uz: int, v0: int, v1: int, v2: int, m: int)
    requires
        ux * (v2 - v0) + uy * (v1 - v0) + uz * (v0 - m) == 0,
    ensures
        m * uz == (uz - ux - uy) * v0 + uy * v1 + ux * v2,
        m * (-uz) == (ux + uy - uz) * v0 + (-uy) * v1 + (-ux) * v2,
{
    assert(ux * (v2 - v0) == ux * v2 - ux * v0) by (nonlinear_arith);
    assert(uy * (v1 - v0) == uy * v1 - uy * v0) by (nonlinear_arith);
    assert(uz * (v0 - m) == uz * v0 - m * uz) by (nonlinear_arith);
    assert((uz - ux - uy) * v0 == uz * v0 - ux * v0 - uy * v0) by (nonlinear_arith);
    assert(m * (-uz) == -(m * uz)) by (nonlinear_arith);
    assert((ux + uy - uz) * v0 == ux * v0 + uy * v0 - uz * v0) by (nonlinear_arith);
    assert((-uy) * v1 == -(uy * v1)) by (nonlinear_arith);
    assert((-ux) * v2 == -(ux * v2)) by (nonlinear_arith);
}

/// Every pixel of a triangle lies in the box around its three vertices.
pub proof fn lemma_inside_box(points: Seq<Vec3u>, x: int, y: int)
    requires
        points.len() >= 3,
        inside(points, x, y),
    ensures
        least(points[0].0 as int, points[1].0 as int, points[2].0 as int) <= x <= greatest(
            points[0].0 as int,
            points[1].0 as int,
            points[2].0 as int,
        ),
        least(points[0].1 as int, points[1].1 as int, points[2].1 as int) <= y <= greatest(
            points[0].1 as int,
            points[1].1 as int,
            points[2].1 as int,
        ),
{
    let v0x = points[0].0 as int;
    let v0y = points[0].1 as int;
    let v1x = points[1].0 as int;
    let v1y = points[1].1 as int;
    let v2x = points[2].0 as int;
    let v2y = points[2].1 as int;
    let ux = cross_x(points, x, y);
    let uy = cross_y(points, x, y);
    let uz = cross_z(points);
    let w = bary(points, x, y);
    lemma_cross_perpendicular(v1x - v0x, v1y - v0y, v2x - v0x, v2y - v0y, v0x - x, v0y - y);
    lemma_mean_from_cross(ux, uy, uz, v0x, v1x, v2x, x);
    lemma_mean_from_cross(ux, uy, uz, v0y, v1y, v2y, y);
    lemma_mean_between(w.n0, w.n1, w.n2, w.unit, v0x, v1x, v2x, x);
    lemma_mean_between(w.n0, w.n1, w.n2, w.unit, v0y, v1y, v2y, y);
}

/// The depth with the given weights: the mean of the depths of the three
/// vertices.
pub open spec fn depth_from(w: Bary, points: Seq<Vec3u>) -> Depth {
    Depth::At {
        num: (w.n0 * points[0].2 + w.n1 * points[1].2 + w.n2 * points[2].2) as u128,
        den: w.unit as u128,
    }
}

/// The depth of the triangle at the pixel `(x, y)`.
pub open spec fn depth_at(points: Seq<Vec3u>, x: int, y: int) -> Depth {
    depth_from(bary(points, x, y), points)
}

/// Whether the triangle is drawn at the pixel `(x, y)`, where the depth
/// buffer holds `stored`: the pixel belongs to the triangle, and the
/// triangle is strictly nearer there than what was drawn before.
pub open spec fn wins(points: Seq<Vec3u>, x: int, y: int, stored: Depth) -> bool {
    inside(points, x, y) && stored.below(depth_at(points, x, y))
}

/// What filling the triangle makes of the pixel `(x, y)`: where the
/// triangle is drawn, the depth buffer takes the triangle's depth and the
/// pixel the colour `paint`; elsewhere both stay as they were. The depth of
/// the pixel `(x, y)` is the element `y * width + x` of the depth buffer.
pub open spec fn filled<S: Picture>(
    points: Seq<Vec3u>,
    depths_before: Seq<Depth>,
    before: &S,
    depths_after: Seq<Depth>,
    after: &S,
    x: int,
    y: int,
    paint: Color,
) -> bool {
    let cell = y * before.sink_width() + x;
    if wins(points, x, y, depths_before[cell]) {
        depths_after[cell] == depth_at(points, x, y) && after.pixel_at(x, y) == paint
    } else {
        depths_after[cell] == depths_before[cell] && after.pixel_at(x, y) == before.pixel_at(x, y)
    }
}

/// Whether the depth buffer fits the image and holds proper depths only.
pub open spec fn depths_fit<S: Picture>(depths: Seq<Depth>, image: &S) -> bool {
    &&& depths.len() == image.sink_width() * image.sink_height()
    &&& forall|i: int| 0 <= i < depths.len() ==> (#[trigger] depths[i]).valid()
}

/// Filling the same triangle a second time changes nothing, whatever the
/// colours of the two fills: where the triangle was drawn, it is not
/// strictly nearer than itself, and where it was not, it still is not.
///
/// The depth buffer and image are `depths0` and `image0` at first,
/// `depths1` and `image1` after the first fill and `depths2` and `image2`
/// after the second; `first` and `second` give the colour of each fill at
/// each pixel.
pub proof fn lemma_second_fill_idle<S: Picture>(
    points: Seq<Vec3u>,
    depths0: Seq<Depth>,
    image0: &S,
    depths1: Seq<Depth>,
    image1: &S,
    depths2: Seq<Depth>,
    image2: &S,
    first: spec_fn(int, int) -> Color,
    second: spec_fn(int, int) -> Color,
)
    requires
        same_size(image1, image0),
        same_size(image2, image1),
        depths0.len() == image0.sink_width() * image0.sink_height(),
        depths1.len() == depths0.len(),
        depths2.len() == depths1.len(),
        forall|x: int, y: int|
            covers(image0, x, y) ==> #[trigger] filled(
                points,
                depths0,
                image0,
                depths1,
                image1,
                x,
                y,
                first(x, y),
            ),
        forall|x: int, y: int|
            covers(image1, x, y) ==> #[trigger] filled(
                points,
                depths1,
                image1,
                depths2,
                image2,
                x,
                y,
                second(x, y),
            ),
    ensures
        depths2 == depths1,
        same_picture(image2, image1),
{
    let width = image0.sink_width() as int;
    let height = image0.sink_height() as int;
    assert forall|x: int, y: int| covers(image1, x, y) implies depths2[y * width + x]
        == depths1[y * width + x] && #[trigger] image2.pixel_at(x, y) == image1.pixel_at(x, y) by {
        lemma_below_irreflexive(depth_at(points, x, y));
        assert(filled(points, depths0, image0, depths1, image1, x, y, first(x, y)));
        assert(filled(points, depths1, image1, depths2, image2, x, y, second(x, y)));
    }
    assert forall|i: int| 0 <= i < depths1.len() implies depths2[i] == depths1[i] by {
        lemma_cell_of_index(width, height, i);
        assert(image2.pixel_at(i % width, i / width) == image1.pixel_at(i % width, i / width));
    }
    assert(depths2 =~= depths1);
}

/// Where the colour of a triangle's pixels comes from.
enum Paint<'a> {
    /// One colour for all pixels.
    Plain(Color),
    /// The colour that a shader computes for each pixel.
    Shaded(&'a Shader, &'a Model),
}

impl<'a> Paint<'a> {
    /// Whether a colour can be computed for every pixel of a triangle.
    spec fn usable(self) -> bool {
        match self {
            Paint::Plain(_) => true,
            Paint::Shaded(shader, model) => shader.fits(model),
        }
    }

    /// The colour for a pixel with the weights `w`.
    spec fn color_at(self, w: Bary) -> Color {
        match self {
            Paint::Plain(color) => color,
            Paint::Shaded(shader, model) => shader.color_for(w, model),
        }
    }

    /// The colour for a pixel with the given weights.
    fn pick(&self, weights: &Weights) -> (color: Color)
        requires
            self.usable(),
            weights@.proper(),
        ensures
            color == self.color_at(weights@),
    {
        match self {
            Paint::Plain(color) => *color,
            Paint::Shaded(shader, model) => {
                let levels = shader.compute_color(weights, model);
                Color(levels[0], levels[1], levels[2])
            },
        }
    }
}

/// Whether the scan reaches the pixel `(px, py)` before its cursor
/// `(cx, cy)`: it goes column by column, and down each column by growing
/// row.
spec fn passed(px: int, py: int, cx: int, cy: int) -> bool {
    px < cx || (px == cx && py < cy)
}

/// The state of the pixel `(px, py)` while the scan is at `(cx, cy)`:
/// filled if the scan has passed it, and else as it was.
spec fn scanned<S: Picture>(
    points: Seq<Vec3u>,
    paint: Paint,
    depths_before: Seq<Depth>,
    before: &S,
    depths_now: Seq<Depth>,
    now: &S,
    px: int,
    py: int,
    cx: int,
    cy: int,
) -> bool {
    if passed(px, py, cx, cy) {
        filled(
            points,
            depths_before,
            before,
            depths_now,
            now,
            px,
            py,
            paint.color_at(bary(points, px, py)),
        )
    } else {
        let cell = py * before.sink_width() + px;
        depths_now[cell] == depths_before[cell] && now.pixel_at(px, py) == before.pixel_at(px, py)
    }
}

/// The smallest of three numbers.
fn min3(a: usize, b: usize, c: usize) -> (m: usize)
    ensures
        m == least(a as int, b as int, c as int),
{
    if a <= b && a <= c {
        a
    } else if b <= c {
        b
    } else {
        c
    }
}

/// The largest of three numbers.
fn max3(a: usize, b: usize, c: usize) -> (m: usize)
    ensures
        m == greatest(a as int, b as int, c as int),
{
    if a >= b && a >= c {
        a
    } else if b >= c {
        b
    } else {
        c
    }
}

/// The depth of a pixel with the given weights.
fn interpolate(weights: &Weights, points: &Vec<Vec3u>) -> (depth: Depth)
    requires
        points@.len() >= 3,
        weights@.proper(),
    ensures
        depth == depth_from(weights@, points@),
        depth.valid(),
{
    let n0 = weights.n0 as u128;
    let n1 = weights.n1 as u128;
    let n2 = weights.n2 as u128;
    let d0 = points[0].2 as u128;
    let d1 = points[1].2 as u128;
    let d2 = points[2].2 as u128;
    proof {
        let top = 0xffff_ffff_ffff_ffffint;
        lemma_weighted_sum_bound(
            n0 as int,
            n1 as int,
            n2 as int,
            weights.unit as int,
            d0 as int,
            d1 as int,
            d2 as int,
            top,
        );
        assert(weights.unit * top <= 0x8000_0000_0000_0000 * 0xffff_ffff_ffff_ffff)
            by (nonlinear_arith)
            requires
                0 <= weights.unit <= 0x8000_0000_0000_0000,
                top == 0xffff_ffff_ffff_ffff,
        ;
    }
    Depth::At { num: n0 * d0 + n1 * d1 + n2 * d2, den: weights.unit as u128 }
}

/// Fills the triangle of the first three `points`, pixel by pixel over the
/// part of the box around it that lies in the image.
fn scan<S: PixelSink>(points: &Vec<Vec3u>, zbuffer: &mut Vec<Depth>, image: &mut S, paint: &Paint)
    requires
        drawable(points@),
        depths_fit(old(zbuffer)@, old(image)),
        paint.usable(),
    ensures
        same_size(final(image), old(image)),
        depths_fit(final(zbuffer)@, final(image)),
        forall|x: int, y: int|
            covers(old(image), x, y) ==> #[trigger] filled(
                points@,
                old(zbuffer)@,
                old(image),
                final(zbuffer)@,
                final(image),
                x,
                y,
                paint.color_at(bary(points@, x, y)),
            ),
{
    let width = image.columns();
    let height = image.rows();
    let cells = zbuffer.len();
    if width == 0 || height == 0 {
        return ;
    }
    let min_x = min3(points[0].0, points[1].0, points[2].0);
    let min_y = min3(points[0].1, points[1].1, points[2].1);
    let top_x = max3(points[0].0, points[1].0, points[2].0);
    let top_y = max3(points[0].1, points[1].1, points[2].1);
    let max_x = if top_x < width - 1 {
        top_x
    } else {
        width - 1
    };
    let max_y = if top_y < height - 1 {
        top_y
    } else {
        height - 1
    };
    assert forall|px: int, py: int| covers(old(image), px, py) && #[trigger] inside(
        points@,
        px,
        py,
    ) implies min_x <= px <= max_x && min_y <= py <= max_y by {
        lemma_inside_box(points@, px, py);
    }
    if min_x > max_x || min_y > max_y {
        return ;
    }
    let mut x = min_x;
    while x <= max_x
        invariant
            drawable(points@),
            paint.usable(),
            width == old(image).sink_width(),
            height == old(image).sink_height(),
            same_size(image, old(image)),
            depths_fit(old(zbuffer)@, old(image)),
            depths_fit(zbuffer@, image),
            min_x <= x <= max_x + 1,
            min_y <= max_y,
            cells == width * height,
            max_x < width,
            max_y < height,
            max_x <= COORD_MAX,
            max_y <= COORD_MAX,
            forall|px: int, py: int|
                covers(old(image), px, py) && #[trigger] inside(points@, px, py) ==> min_x <= px
                    <= max_x && min_y <= py <= max_y,
            forall|px: int, py: int|
                covers(old(image), px, py) ==> #[trigger] scanned(
                    points@,
                    *paint,
                    old(zbuffer)@,
                    old(image),
                    zbuffer@,
                    image,
                    px,
                    py,
                    x as int,
                    0,
                ),
        decreases max_x + 1 - x,
    {
        let mut y = min_y;
        assert forall|px: int, py: int| covers(old(image), px, py) implies #[trigger] scanned(
            points@,
            *paint,
            old(zbuffer)@,
            old(image),
            zbuffer@,
            image,
            px,
            py,
            x as int,
            y as int,
        ) by {
            assert(scanned(
                points@,
                *paint,
                old(zbuffer)@,
                old(image),
                zbuffer@,
                image,
                px,
                py,
                x as int,
                0,
            ));
        }
        while y <= max_y
            invariant
                drawable(points@),
                paint.usable(),
                width == old(image).sink_width(),
                height == old(image).sink_height(),
                same_size(image, old(image)),
                depths_fit(old(zbuffer)@, old(image)),
                depths_fit(zbuffer@, image),
                min_x <= x <= max_x,
                min_y <= y <= max_y + 1,
                cells == width * height,
                max_x < width,
                max_y < height,
                max_x <= COORD_MAX,
                max_y <= COORD_MAX,
                forall|px: int, py: int|
                    covers(old(image), px, py) && #[trigger] inside(points@, px, py) ==> min_x
                        <= px <= max_x && min_y <= py <= max_y,
                forall|px: int, py: int|
                    covers(old(image), px, py) ==> #[trigger] scanned(
                        points@,
                        *paint,
                        old(zbuffer)@,
                        old(image),
                        zbuffer@,
                        image,
                        px,
                        py,
                        x as int,
                        y as int,
                    ),
            decreases max_y + 1 - y,
        {
            let ghost depths_then = zbuffer@;
            let ghost image_then = *image;
            proof {
                lemma_cell_index_bound(width as int, height as int, x as int, y as int);
                assert(scanned(
                    points@,
                    *paint,
                    old(zbuffer)@,
                    old(image),
                    zbuffer@,
                    image,
                    x as int,
                    y as int,
                    x as int,
                    y as int,
                ));
            }
            let weights = barycentric(x, y, points);
            if !(weights.n0 < 0 || weights.n1 < 0 || weights.n2 < 0) {
                let depth = interpolate(&weights, points);
                assert(y * width >= 0) by (nonlinear_arith)
                    requires
                        y >= 0,
                        width >= 0,
                ;
                let cell = y * width + x;
                if zbuffer[cell].is_below(&depth) {
                    let color = paint.pick(&weights);
                    zbuffer[cell] = depth;
                    image.put(x as i64, y as i64, color);
                }
            }
            proof {
                assert forall|px: int, py: int| covers(old(image), px, py) implies #[trigger] scanned(
                    points@,
                    *paint,
                    old(zbuffer)@,
                    old(image),
                    zbuffer@,
                    image,
                    px,
                    py,
                    x as int,
                    y + 1,
                ) by {
                    assert(scanned(
                        points@,
                        *paint,
                        old(zbuffer)@,
                        old(image),
                        depths_then,
                        &image_then,
                        px,
                        py,
                        x as int,
                        y as int,
                    ));
                    assert(covers(&image_then, px, py));
                    lemma_cell_index_bound(width as int, height as int, px, py);
                    if py * width + px == y * width + x {
                        lemma_cell_index_unique(width as int, px, py, x as int, y as int);
                    }
                }
            }
            y = y + 1;
        }
        assert forall|px: int, py: int| covers(old(image), px, py) implies #[trigger] scanned(
            points@,
            *paint,
            old(zbuffer)@,
            old(image),
            zbuffer@,
            image,
            px,
            py,
            x + 1,
            0,
        ) by {
            assert(scanned(
                points@,
                *paint,
                old(zbuffer)@,
                old(image),
                zbuffer@,
                image,
                px,
                py,
                x as int,
                y as int,
            ));
        }
        x = x + 1;
    }
    assert forall|px: int, py: int| covers(old(image), px, py) implies #[trigger] filled(
        points@,
        old(zbuffer)@,
        old(image),
        zbuffer@,
        image,
        px,
        py,
        paint.color_at(bary(points@, px, py)),
    ) by {
        assert(scanned(
            points@,
            *paint,
            old(zbuffer)@,
            old(image),
            zbuffer@,
            image,
            px,
            py,
            x as int,
            0,
        ));
    }
}

/// Where no pixel of the image is drawn, a fill leaves the depth buffer
/// and the picture as they were.
proof fn lemma_nothing_drawn<S: Picture>(
    points: Seq<Vec3u>,
    depths_before: Seq<Depth>,
    before: &S,
    depths_after: Seq<Depth>,
    after: &S,
    paint: spec_fn(int, int) -> Color,
)
    requires
        same_size(after, before),
        depths_before.len() == before.sink_width() * before.sink_height(),
        depths_after.len() == depths_before.len(),
        forall|x: int, y: int| covers(before, x, y) ==> !inside(points, x, y),
        forall|x: int, y: int|
            covers(before, x, y) ==> #[trigger] filled(
                points,
                depths_before,
                before,
                depths_after,
                after,
                x,
                y,
                paint(x, y),
            ),
    ensures
        depths_after == depths_before,
        same_picture(after, before),
{
    let width = before.sink_width() as int;
    let height = before.sink_height() as int;
    assert forall|i: int| 0 <= i < depths_before.len() implies depths_after[i]
        == depths_before[i] by {
        lemma_cell_of_index(width, height, i);
        assert(filled(
            points,
            depths_before,
            before,
            depths_after,
            after,
            i % width,
            i / width,
            paint(i % width, i / width),
        ));
    }
    assert(depths_after =~= depths_before);
    assert forall|x: int, y: int| covers(after, x, y) implies #[trigger] after.pixel_at(x, y)
        == before.pixel_at(x, y) by {
        assert(filled(points, depths_before, before, depths_after, after, x, y, paint(x, y)));
    }
}

/// Fills the triangle of the first three `points` with one colour.
///
/// Each of the `points` holds the column, the row and the depth of a
/// vertex. A pixel is drawn if it belongs to the triangle, edges included,
/// and the triangle is strictly nearer there than what `zbuffer` holds for
/// the pixel; the depth buffer then takes the triangle's depth at the
/// pixel. Fewer than three points, or three on one line, draw nothing.
pub fn draw_triangle<S: PixelSink>(
    points: Vec<Vec3u>,
    zbuffer: &mut Vec<Depth>,
    image: &mut S,
    color: &[u8; 3],
)
    requires
        points@.len() >= 3 ==> drawable(points@),
        depths_fit(old(zbuffer)@, old(image)),
    ensures
        same_size(final(image), old(image)),
        depths_fit(final(zbuffer)@, final(image)),
        points@.len() >= 3 ==> forall|x: int, y: int|
            covers(old(image), x, y) ==> #[trigger] filled(
                points@,
                old(zbuffer)@,
                old(image),
                final(zbuffer)@,
                final(image),
                x,
                y,
                color_of(*color),
            ),
        points@.len() < 3 || degenerate(points@) ==> final(zbuffer)@ == old(zbuffer)@
            && same_picture(final(image), old(image)),
{
    if points.len() < 3 {
        return ;
    }
    let paint = Paint::Plain(Color(color[0], color[1], color[2]));
    scan(&points, zbuffer, image, &paint);
    proof {
        assert forall|x: int, y: int| covers(old(image), x, y) implies #[trigger] filled(
            points@,
            old(zbuffer)@,
            old(image),
            zbuffer@,
            image,
            x,
            y,
            color_of(*color),
        ) by {
            assert(paint.color_at(bary(points@, x, y)) == color_of(*color));
            assert(filled(
                points@,
                old(zbuffer)@,
                old(image),
                zbuffer@,
                image,
                x,
                y,
                paint.color_at(bary(points@, x, y)),
            ));
        }
        if degenerate(points@) {
            lemma_nothing_drawn(
                points@,
                old(zbuffer)@,
                old(image),
                zbuffer@,
                image,
                |x: int, y: int| color_of(*color),
            );
        }
    }
}

/// Fills the triangle of the first three `points` with the colours that
/// `shader` computes from the texture of `model`.
///
/// The pixels that are drawn are those that [`draw_triangle`] draws; each
/// takes the colour that the shader gives for its barycentric weights.
pub fn draw_triangle_model<S: PixelSink>(
    points: Vec<Vec3u>,
    shader: &Shader,
    model: &Model,
    zbuffer: &mut Vec<Depth>,
    image: &mut S,
)
    requires
        points@.len() >= 3 ==> drawable(points@),
        shader.fits(model),
        depths_fit(old(zbuffer)@, old(image)),
    ensures
        same_size(final(image), old(image)),
        depths_fit(final(zbuffer)@, final(image)),
        points@.len() >= 3 ==> forall|x: int, y: int|
            covers(old(image), x, y) ==> #[trigger] filled(
                points@,
                old(zbuffer)@,
                old(image),
                final(zbuffer)@,
                final(image),
                x,
                y,
                shader.color_for(bary(points@, x, y), model),
            ),
        points@.len() < 3 || degenerate(points@) ==> final(zbuffer)@ == old(zbuffer)@
            && same_picture(final(image), old(image)),
{
    if points.len() < 3 {
        return ;
    }
    let paint = Paint::Shaded(shader, model);
    scan(&points, zbuffer, image, &paint);
    proof {
        assert forall|x: int, y: int| covers(old(image), x, y) implies #[trigger] filled(
            points@,
            old(zbuffer)@,
            old(image),
            zbuffer@,
            image,
            x,
            y,
            shader.color_for(bary(points@, x, y), model),
        ) by {
            assert(paint.color_at(bary(points@, x, y)) == shader.color_for(
                bary(points@, x, y),
                model,
            ));
            assert(filled(
                points@,
                old(zbuffer)@,
                old(image),
                zbuffer@,
                image,
                x,
                y,
                paint.color_at(bary(points@, x, y)),
            ));
        }
        if degenerate(points@) {
            lemma_nothing_drawn(
                points@,
                old(zbuffer)@,
                old(image),
                zbuffer@,
                image,
                |x: int, y: int| shader.color_for(bary(points@, x, y), model),
            );
        }
    }
}

} // verus!
