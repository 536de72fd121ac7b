//! What a mesh gives the rasterizer, and the shading of its faces.
//!
//! Texture coordinates are fixed-point numbers: [`UV_ONE`] units make one.
//! A light intensity is a level from `0` (dark) to `255` (full).

use vstd::prelude::*;
use image::DynamicImage;
use crate::raster::color::Color;
use crate::raster::line::{draw_line, on_line};
use crate::raster::sink::{covers, same_size, Picture, PixelSink};
use crate::raster::vector::Vec3u;
use crate::rendering::texture::{has_texel, image_flipv, image_height, image_texel, image_width, texture_height, texture_texels, texture_width};
use crate::rendering::depth::Depth;
use crate::rendering::line::color_of;
use crate::rendering::triangle::{bary, depth_at, depths_fit, draw_triangle, draw_triangle_model, drawable, filled, greatest, wins, Bary, Weights, COORD_MAX};

verus! {

/// The number of fixed-point units that make one.
pub const UV_ONE: u64 = 65536;

/// A position on a texture, in units of `1 / UV_ONE`.
#[derive(Clone, Copy, Debug, PartialEq, Eq, Structural)]
pub struct TexCoord(pub u64, pub u64);

impl TexCoord {
    /// The column of the texel that the position lies in, when the
    /// position is counted in texels.
    pub open spec fn column(self) -> int {
        self.0 as int / UV_ONE as int
    }

    /// The row of the texel that the position lies in, when the position
    /// is counted in texels.
    pub open spec fn row(self) -> int {
        self.1 as int / UV_ONE as int
    }
}

/// The faces of a mesh with their texture coordinates and texture.
pub struct Model {
    /// For each face its three corners: the index of the vertex, the index
    /// of its texture coordinate in `uv`, and the index of its normal.
    pub faces: Vec<Vec<Vec3u>>,
    /// The texture coordinates, as parts of the texture's width and height.
    pub uv: Vec<TexCoord>,
    /// The texture, if one was loaded.
    pub diffuse: Option<DynamicImage>,
}

impl Model {
    /// Whether the corner `face_index` of the face `index` exists and has a
    /// texture coordinate that can be scaled to the texture's size.
    pub open spec fn has_uv(&self, index: int, face_index: int) -> bool {
        &&& 0 <= index < self.faces@.len()
        &&& 0 <= face_index < self.faces@[index]@.len()
        &&& self.faces@[index]@[face_index].1 < self.uv@.len()
        &&& self.diffuse.is_some() ==> {
            let at = self.uv@[self.faces@[index]@[face_index].1 as int];
            let image = self.diffuse.unwrap();
            &&& at.0 * texture_width(image) <= u64::MAX
            &&& at.1 * texture_height(image) <= u64::MAX
        }
    }

    /// The texture coordinate of a corner, counted in texels.
    pub open spec fn uv_at(&self, index: int, face_index: int) -> TexCoord {
        if self.diffuse.is_some() {
            let at = self.uv@[self.faces@[index]@[face_index].1 as int];
            let image = self.diffuse.unwrap();
            TexCoord(
                (at.0 * texture_width(image)) as u64,
                (at.1 * texture_height(image)) as u64,
            )
        } else {
            TexCoord(0, 0)
        }
    }

    /// Takes `image` as the texture. Its rows are turned upside down, so
    /// that texture coordinates count rows from the bottom of the image.
    pub fn load_texture(&mut self, image: DynamicImage)
        ensures
            final(self).faces == old(self).faces,
            final(self).uv == old(self).uv,
            final(self).diffuse.is_some(),
            texture_width(final(self).diffuse.unwrap()) == texture_width(image),
            texture_height(final(self).diffuse.unwrap()) == texture_height(image),
            forall|x: int, y: int|
                has_texel(image, x, y) ==> #[trigger] texture_texels(final(self).diffuse.unwrap())[(
                    x,
                    y,
                )] == texture_texels(image)[(x, texture_height(image) - 1 - y)],
    {
        self.diffuse = Some(image_flipv(&image));
    }

    /// The texture coordinate of the corner `face_index` of the face
    /// `index`, scaled to the size of the texture and so counted in texels.
    /// Without a texture it is `(0, 0)`.
    pub fn uv(&self, index: usize, face_index: usize) -> (at: TexCoord)
        requires
            self.diffuse.is_some() ==> self.has_uv(index as int, face_index as int),
        ensures
            at == self.uv_at(index as int, face_index as int),
    {
        match &self.diffuse {
            Some(image) => {
                let texture = self.faces[index][face_index].1;
                let at = self.uv[texture];
                TexCoord(at.0 * (image_width(image) as u64), at.1 * (image_height(image) as u64))
            },
            None => TexCoord(0, 0),
        }
    }

    /// Whether the texture has a texel where `uv`, counted in texels, lies.
    pub open spec fn covers_uv(&self, uv: TexCoord) -> bool {
        self.diffuse.is_some() && has_texel(self.diffuse.unwrap(), uv.column(), uv.row())
    }

    /// The texel in which `uv` lies.
    pub open spec fn texel_at(&self, uv: TexCoord) -> Color {
        texture_texels(self.diffuse.unwrap())[(uv.column(), uv.row())]
    }

    /// The red, green and blue levels of the texel in which `uv`, counted
    /// in texels, lies, and `255` for its opacity.
    pub fn diffuse(&self, uv: TexCoord) -> (texel: [u8; 4])
        requires
            self.covers_uv(uv),
        ensures
            texel[0] == self.texel_at(uv).0,
            texel[1] == self.texel_at(uv).1,
            texel[2] == self.texel_at(uv).2,
            texel[3] == 255,
    {
        match &self.diffuse {
            Some(image) => {
                let color = image_texel(image, (uv.0 / UV_ONE) as u32, (uv.1 / UV_ONE) as u32);
                [color.0, color.1, color.2, 255]
            },
            None => [0, 0, 0, 255],
        }
    }
}

/// The weighted mean `(n0 * a + n1 * b + n2 * c) / unit`, rounded down.
pub open spec fn blend(w: Bary, a: int, b: int, c: int) -> int {
    (w.n0 * a + w.n1 * b + w.n2 * c) / w.unit
}

/// A level scaled by an intensity: `level * intensity / 255`, rounded
/// down.
pub open spec fn dimmed(level: u8, intensity: u8) -> u8 {
    ((level as int * intensity as int) / 255) as u8
}

/// The texture coordinate for a pixel with the weights `w`: the mean of the
/// coordinates of the three corners.
pub open spec fn uv_between(uv: Seq<TexCoord>, w: Bary) -> TexCoord {
    TexCoord(
        blend(w, uv[0].0 as int, uv[1].0 as int, uv[2].0 as int) as u64,
        blend(w, uv[0].1 as int, uv[1].1 as int, uv[2].1 as int) as u64,
    )
}

/// The colour of a pixel with the weights `w` on a face whose corners have
/// the texture coordinates `uv` and which the light meets with the given
/// intensity: without texture coordinates the grey of the intensity, and
/// else the texel under the pixel, dimmed by the intensity.
pub open spec fn shade(uv: Seq<TexCoord>, intensity: u8, w: Bary, model: &Model) -> Color {
    if uv.len() == 0 {
        Color(intensity, intensity, intensity)
    } else {
        let texel = model.texel_at(uv_between(uv, w));
        Color(dimmed(texel.0, intensity), dimmed(texel.1, intensity), dimmed(texel.2, intensity))
    }
}

/// What colours one face: the texture coordinates of its three corners,
/// counted in texels (or none, for a face without texture), and the
/// intensity of the light on it.
pub struct Shader {
    /// The texture coordinates of the three corners, or nothing.
    pub uv: Vec<TexCoord>,
    /// The intensity of the light on the face.
    pub intensity: u8,
}

impl Shader {
    /// Whether the shader can colour a face with the texture of `model`:
    /// it holds no texture coordinates, or three that lie on the texture.
    pub open spec fn fits(&self, model: &Model) -> bool {
        self.uv@.len() == 0 || {
            &&& self.uv@.len() >= 3
            &&& model.covers_uv(self.uv@[0])
            &&& model.covers_uv(self.uv@[1])
            &&& model.covers_uv(self.uv@[2])
        }
    }

    /// The colour for a pixel with the weights `w`.
    pub open spec fn color_for(&self, w: Bary, model: &Model) -> Color {
        shade(self.uv@, self.intensity, w, model)
    }

    /// A shader without texture coordinates and without light.
    pub fn new() -> (shader: Shader)
        ensures
            shader.uv@.len() == 0,
            shader.intensity == 0,
    {
        Shader { uv: Vec::new(), intensity: 0 }
    }

    /// Computes the red, green and blue levels for a pixel of the face
    /// from its barycentric weights.
    pub fn compute_color(&self, point: &Weights, model: &Model) -> (color: [u8; 3])
        requires
            self.fits(model),
            point@.proper(),
        ensures
            color[0] == self.color_for(point@, model).0,
            color[1] == self.color_for(point@, model).1,
            color[2] == self.color_for(point@, model).2,
    {
        if self.uv.len() > 0 {
            let a = self.uv[0];
            let b = self.uv[1];
            let c = self.uv[2];
            let uv = TexCoord(mix(point, a.0, b.0, c.0), mix(point, a.1, b.1, c.1));
            proof {
                lemma_column_grows(uv.0 as int, greatest(a.0 as int, b.0 as int, c.0 as int));
                lemma_column_grows(uv.1 as int, greatest(a.1 as int, b.1 as int, c.1 as int));
            }
            let diffuse = model.diffuse(uv);
            [
                dim(diffuse[0], self.intensity),
                dim(diffuse[1], self.intensity),
                dim(diffuse[2], self.intensity),
            ]
        } else {
            [self.intensity, self.intensity, self.intensity]
        }
    }
}

/// A position that is not larger lies in a texel that is not later.
proof fn lemma_column_grows(a: int, b: int)
    requires
        a <= b,
    ensures
        a / UV_ONE as int <= b / UV_ONE as int,
{
}

/// Scales a level by an intensity.
fn dim(level: u8, intensity: u8) -> (dimmed_level: u8)
    ensures
        dimmed_level == dimmed(level, intensity),
{
    assert(level * intensity <= 255 * 255) by (nonlinear_arith)
        requires
            level <= 255,
            intensity <= 255,
    ;
    ((level as u32 * intensity as u32) / 255) as u8
}

/// The weighted mean of three numbers, rounded down.
fn mix(point: &Weights, a: u64, b: u64, c: u64) -> (mean: u64)
    requires
        point@.proper(),
    ensures
        mean == blend(point@, a as int, b as int, c as int),
        mean <= greatest(a as int, b as int, c as int),
{
    let n0 = point.n0 as u128;
    let n1 = point.n1 as u128;
    let n2 = point.n2 as u128;
    let unit = point.unit as u128;
    let ghost top = greatest(a as int, b as int, c as int);
    proof {
        lemma_weighted_sum_bound(
            n0 as int,
            n1 as int,
            n2 as int,
            unit as int,
            a as int,
            b as int,
            c as int,
            top,
        );
        assert(unit * top <= 0x8000_0000_0000_0000 * 0xffff_ffff_ffff_ffff) by (nonlinear_arith)
            requires
                0 <= unit <= 0x8000_0000_0000_0000,
                0 <= top <= 0xffff_ffff_ffff_ffff,
        ;
    }
    let sum = n0 * (a as u128) + n1 * (b as u128) + n2 * (c as u128);
    proof {
        assert(sum / unit <= top) by (nonlinear_arith)
            requires
                0 <= sum <= unit * top,
                unit > 0,
                0 <= top,
        {
            assert(sum == unit * (sum / unit) + sum % unit);
            assert(0 <= sum % unit);
            if sum / unit > top {
                assert(unit * (sum / unit) >= unit * (top + 1));
            }
        }
    }
    (sum / unit) as u64
}

/// A sum of three numbers with weights that are not negative and sum up to
/// `unit` is at most `unit` times the largest of the numbers, and so is
/// each part of it.
pub proof fn lemma_weighted_sum_bound(
    n0: int,
    n1: int,
    n2: int,
    unit: int,
    a: int,
    b: int,
    c: int,
    top: int,
)
    requires
        n0 >= 0,
        n1 >= 0,
        n2 >= 0,
        n0 + n1 + n2 == unit,
        0 <= a <= top,
        0 <= b <= top,
        0 <= c <= top,
    ensures
        0 <= n0 * a <= n0 * top,
        0 <= n1 * b <= n1 * top,
        0 <= n2 * c <= n2 * top,
        n0 * top + n1 * top + n2 * top == unit * top,
        0 <= n0 * a + n1 * b + n2 * c <= unit * top,
        0 <= n0 * a + n1 * b <= unit * top,
{
    assert(0 <= n0 * a <= n0 * top) by (nonlinear_arith)
        requires
            n0 >= 0,
            0 <= a <= top,
    ;
    assert(0 <= n1 * b <= n1 * top) by (nonlinear_arith)
        requires
            n1 >= 0,
            0 <= b <= top,
    ;
    assert(0 <= n2 * c <= n2 * top) by (nonlinear_arith)
        requires
            n2 >= 0,
            0 <= c <= top,
    ;
    assert(n0 * top + n1 * top + n2 * top == unit * top) by (nonlinear_arith)
        requires
            n0 + n1 + n2 == unit,
    ;
}

/// The colour of a wireframe.
pub open spec fn wire_color() -> Color {
    Color(255, 255, 255)
}

/// Whether the face has three corners and each names one of the `count`
/// vertices.
pub open spec fn face_usable(face: Seq<Vec3u>, count: int) -> bool {
    &&& face.len() >= 3
    &&& face[0].0 < count
    &&& face[1].0 < count
    &&& face[2].0 < count
}

/// Whether the edge from the corner `from` of the face to its corner `to`
/// colours the pixel `(px, py)`, where `screen` holds the pixel of each
/// vertex.
pub open spec fn edge_covers(
    face: Seq<Vec3u>,
    screen: Seq<(i32, i32)>,
    from: int,
    to: int,
    px: int,
    py: int,
) -> bool {
    let a = screen[face[from].0 as int];
    let b = screen[face[to].0 as int];
    on_line(a.0 as int, a.1 as int, b.0 as int, b.1 as int, px, py)
}

/// Whether the outline of the face colours the pixel `(px, py)`: the face
/// is usable, and one of its three edges does.
pub open spec fn face_outline_covers(
    face: Seq<Vec3u>,
    screen: Seq<(i32, i32)>,
    px: int,
    py: int,
) -> bool {
    &&& face_usable(face, screen.len() as int)
    &&& (edge_covers(face, screen, 0, 1, px, py) || edge_covers(face, screen, 1, 2, px, py)
        || edge_covers(face, screen, 2, 0, px, py))
}

/// Whether the outline of one of the first `n` faces colours the pixel
/// `(px, py)`.
pub open spec fn wireframe_covers(
    faces: Seq<Vec<Vec3u>>,
    screen: Seq<(i32, i32)>,
    n: int,
    px: int,
    py: int,
) -> bool
    decreases n,
{
    if n <= 0 {
        false
    } else {
        wireframe_covers(faces, screen, n - 1, px, py) || face_outline_covers(
            faces[n - 1]@,
            screen,
            px,
            py,
        )
    }
}

/// Draws the outline of every face of the model in white.
///
/// `screen` holds, for each vertex of the mesh, the pixel that it is seen
/// at. A face with fewer than three corners, or with a corner that names no
/// vertex, is passed over.
pub fn render_wireframe<S: PixelSink>(model: &Model, screen: &Vec<(i32, i32)>, image: &mut S)
    ensures
        same_size(final(image), old(image)),
        forall|px: int, py: int|
            covers(old(image), px, py) ==> #[trigger] final(image).pixel_at(px, py)
                == (if wireframe_covers(
                model.faces@,
                screen@,
                model.faces@.len() as int,
                px,
                py,
            ) {
                wire_color()
            } else {
                old(image).pixel_at(px, py)
            }),
{
    let white = Color(255, 255, 255);
    let mut index: usize = 0;
    while index < model.faces.len()
        invariant
            index <= model.faces@.len(),
            white == wire_color(),
            same_size(image, old(image)),
            forall|px: int, py: int|
                covers(old(image), px, py) ==> #[trigger] image.pixel_at(px, py)
                    == (if wireframe_covers(model.faces@, screen@, index as int, px, py) {
                    wire_color()
                } else {
                    old(image).pixel_at(px, py)
                }),
        decreases model.faces@.len() - index,
    {
        let face = &model.faces[index];
        if face.len() >= 3 && face[0].0 < screen.len() && face[1].0 < screen.len() && face[2].0
            < screen.len() {
            let a = screen[face[0].0];
            let b = screen[face[1].0];
            let c = screen[face[2].0];
            let ghost before = *image;
            draw_line(a.0, a.1, b.0, b.1, image, &white);
            let ghost first = *image;
            draw_line(b.0, b.1, c.0, c.1, image, &white);
            let ghost second = *image;
            draw_line(c.0, c.1, a.0, a.1, image, &white);
            assert forall|px: int, py: int| covers(old(image), px, py) implies #[trigger] image.pixel_at(
                px,
                py,
            ) == (if wireframe_covers(model.faces@, screen@, index + 1, px, py) {
                wire_color()
            } else {
                old(image).pixel_at(px, py)
            }) by {
                assert(covers(&before, px, py));
                assert(covers(&first, px, py));
                assert(covers(&second, px, py));
                assert(face_usable(face@, screen@.len() as int));
            }
        }
        index = index + 1;
    }
}

/// A face as it is seen: the column, row and depth of each of its three
/// corners, and the intensity of the light on it.
pub struct ScreenFace {
    /// The corners.
    pub points: Vec<Vec3u>,
    /// The intensity of the light on the face, or `None` for a face that
    /// the light does not reach.
    pub intensity: Option<u8>,
}

/// Whether the corner has a texture coordinate that lies on the texture.
pub open spec fn corner_textured(model: &Model, index: int, corner: int) -> bool {
    model.has_uv(index, corner) && model.covers_uv(model.uv_at(index, corner))
}

/// Whether the face `index` of the model, seen as `face`, is drawn at all:
/// the light reaches it, its corners lie where triangles can be filled,
/// and, if the model has a texture, each corner has a place on it.
pub open spec fn face_drawn(model: &Model, index: int, face: ScreenFace) -> bool {
    &&& face.intensity.is_some()
    &&& drawable(face.points@)
    &&& model.diffuse.is_some() ==> corner_textured(model, index, 0) && corner_textured(
        model,
        index,
        1,
    ) && corner_textured(model, index, 2)
}

/// The texture coordinates of the three corners of the face `index`,
/// counted in texels; none if the model has no texture.
pub open spec fn face_uv(model: &Model, index: int) -> Seq<TexCoord> {
    if model.diffuse.is_some() {
        seq![model.uv_at(index, 0), model.uv_at(index, 1), model.uv_at(index, 2)]
    } else {
        Seq::empty()
    }
}

/// What a pixel shows and how deep that lies.
pub struct Shown {
    /// The depth of what the pixel shows.
    pub depth: Depth,
    /// The colour of the pixel.
    pub color: Color,
}

/// What the pixel `(x, y)` shows after the first `n` faces were rendered,
/// one after the other, onto a pixel of the colour `start` with nothing
/// drawn on it yet.
pub open spec fn after_faces(
    model: &Model,
    faces: Seq<ScreenFace>,
    n: int,
    x: int,
    y: int,
    start: Color,
) -> Shown
    decreases n,
{
    if n <= 0 {
        Shown { depth: Depth::Empty, color: start }
    } else {
        let before = after_faces(model, faces, n - 1, x, y, start);
        let face = faces[n - 1];
        if face_drawn(model, n - 1, face) && wins(face.points@, x, y, before.depth) {
            Shown {
                depth: depth_at(face.points@, x, y),
                color: shade(
                    face_uv(model, n - 1),
                    face.intensity.unwrap(),
                    bary(face.points@, x, y),
                    model,
                ),
            }
        } else {
            before
        }
    }
}

/// Whether the corner has a texture coordinate that lies on the texture.
fn corner_ready(model: &Model, index: usize, corner: usize) -> (ready: bool)
    requires
        model.diffuse.is_some(),
    ensures
        ready == corner_textured(model, index as int, corner as int),
{
    if index >= model.faces.len() {
        return false;
    }
    if corner >= model.faces[index].len() {
        return false;
    }
    let texture = model.faces[index][corner].1;
    if texture >= model.uv.len() {
        return false;
    }
    let at = model.uv[texture];
    match &model.diffuse {
        Some(image) => {
            let width = image_width(image);
            let height = image_height(image);
            assert(at.0 * width <= 0xffff_ffff_ffff_ffff * 0xffff_ffff && at.1 * height
                <= 0xffff_ffff_ffff_ffff * 0xffff_ffff) by (nonlinear_arith)
                requires
                    0 <= at.0 <= 0xffff_ffff_ffff_ffff,
                    0 <= at.1 <= 0xffff_ffff_ffff_ffff,
                    0 <= width <= 0xffff_ffff,
                    0 <= height <= 0xffff_ffff,
            ;
            let across: u128 = (at.0 as u128) * (width as u128);
            let up: u128 = (at.1 as u128) * (height as u128);
            across <= u64::MAX as u128 && up <= u64::MAX as u128 && across / (UV_ONE as u128) < (
            width as u128) && up / (UV_ONE as u128) < (height as u128)
        },
        None => false,
    }
}

/// Whether the face `index`, seen as `face`, is drawn at all.
fn face_ready(model: &Model, index: usize, face: &ScreenFace) -> (ready: bool)
    ensures
        ready == face_drawn(model, index as int, *face),
{
    if face.intensity.is_none() || face.points.len() < 3 {
        return false;
    }
    if face.points[0].0 > COORD_MAX || face.points[0].1 > COORD_MAX || face.points[1].0 > COORD_MAX
        || face.points[1].1 > COORD_MAX || face.points[2].0 > COORD_MAX || face.points[2].1
        > COORD_MAX {
        return false;
    }
    if model.diffuse.is_some() {
        corner_ready(model, index, 0) && corner_ready(model, index, 1) && corner_ready(
            model,
            index,
            2,
        )
    } else {
        true
    }
}

/// A fill looks at the first three points only.
proof fn lemma_fill_of_corners<S: Picture>(
    corners: Seq<Vec3u>,
    points: Seq<Vec3u>,
    depths_before: Seq<Depth>,
    before: &S,
    depths_after: Seq<Depth>,
    after: &S,
    x: int,
    y: int,
    paint: Color,
)
    requires
        corners[0] == points[0],
        corners[1] == points[1],
        corners[2] == points[2],
    ensures
        bary(corners, x, y) == bary(points, x, y),
        filled(corners, depths_before, before, depths_after, after, x, y, paint) == filled(
            points,
            depths_before,
            before,
            depths_after,
            after,
            x,
            y,
            paint,
        ),
{
}

/// Whether the depth buffer and the image hold, for the pixel `(x, y)`,
/// what the pixel shows after the first `n` faces.
spec fn rendered<S: Picture>(
    model: &Model,
    faces: Seq<ScreenFace>,
    n: int,
    start: &S,
    depths: Seq<Depth>,
    image: &S,
    x: int,
    y: int,
) -> bool {
    let shown = after_faces(model, faces, n, x, y, start.pixel_at(x, y));
    depths[y * start.sink_width() + x] == shown.depth && image.pixel_at(x, y) == shown.color
}

/// Renders the faces of the model, one after the other, with a depth
/// buffer of its own that starts empty.
///
/// `faces` holds, for each face of the model, what the camera sees of it.
/// A face is filled with its texture, dimmed by the light's intensity, or,
/// if the model has no texture, with the grey of that intensity. A face
/// that the light does not reach is passed over, and so is one with fewer
/// than three corners, with a corner beyond [`COORD_MAX`], or, on a model
/// with a texture, with a corner that has no place on the texture.
pub fn render_model<S: PixelSink>(model: &Model, faces: &Vec<ScreenFace>, image: &mut S)
    requires
        old(image).sink_width() * old(image).sink_height() <= usize::MAX,
    ensures
        same_size(final(image), old(image)),
        forall|x: int, y: int|
            covers(old(image), x, y) ==> #[trigger] final(image).pixel_at(x, y) == after_faces(
                model,
                faces@,
                faces@.len() as int,
                x,
                y,
                old(image).pixel_at(x, y),
            ).color,
{
    let cells = image.columns() * image.rows();
    let mut zbuffer: Vec<Depth> = Vec::new();
    while zbuffer.len() < cells
        invariant
            zbuffer@.len() <= cells,
            forall|i: int| 0 <= i < zbuffer@.len() ==> zbuffer@[i] == Depth::Empty,
        decreases cells - zbuffer@.len(),
    {
        zbuffer.push(Depth::Empty);
    }
    assert forall|x: int, y: int| covers(old(image), x, y) implies #[trigger] rendered(
        model,
        faces@,
        0,
        old(image),
        zbuffer@,
        image,
        x,
        y,
    ) by {
        crate::raster::sink::lemma_cell_index_bound(
            old(image).sink_width() as int,
            old(image).sink_height() as int,
            x,
            y,
        );
    }
    let mut index: usize = 0;
    while index < faces.len()
        invariant
            index <= faces@.len(),
            same_size(image, old(image)),
            depths_fit(zbuffer@, image),
            forall|x: int, y: int|
                covers(old(image), x, y) ==> #[trigger] rendered(
                    model,
                    faces@,
                    index as int,
                    old(image),
                    zbuffer@,
                    image,
                    x,
                    y,
                ),
        decreases faces@.len() - index,
    {
        let face = &faces[index];
        let ghost depths_then = zbuffer@;
        let ghost image_then = *image;
        if face_ready(model, index, face) {
            let intensity = match face.intensity {
                Some(level) => level,
                None => 0,
            };
            let mut corners: Vec<Vec3u> = Vec::new();
            corners.push(face.points[0]);
            corners.push(face.points[1]);
            corners.push(face.points[2]);
            let ghost three = corners@;
            if model.diffuse.is_some() {
                let mut shader = Shader::new();
                shader.uv.push(model.uv(index, 0));
                shader.uv.push(model.uv(index, 1));
                shader.uv.push(model.uv(index, 2));
                shader.intensity = intensity;
                assert(shader.uv@ =~= face_uv(model, index as int));
                draw_triangle_model(corners, &shader, model, &mut zbuffer, image);
                assert forall|x: int, y: int| covers(old(image), x, y) implies #[trigger] rendered(
                    model,
                    faces@,
                    index + 1,
                    old(image),
                    zbuffer@,
                    image,
                    x,
                    y,
                ) by {
                    assert(rendered(
                        model,
                        faces@,
                        index as int,
                        old(image),
                        depths_then,
                        &image_then,
                        x,
                        y,
                    ));
                    assert(covers(&image_then, x, y));
                    let paint = shader.color_for(bary(three, x, y), model);
                    assert(filled(three, depths_then, &image_then, zbuffer@, image, x, y, paint));
                    lemma_fill_of_corners(
                        three,
                        face.points@,
                        depths_then,
                        &image_then,
                        zbuffer@,
                        image,
                        x,
                        y,
                        paint,
                    );
                }
            } else {
                let grey = [intensity, intensity, intensity];
                draw_triangle(corners, &mut zbuffer, image, &grey);
                assert forall|x: int, y: int| covers(old(image), x, y) implies #[trigger] rendered(
                    model,
                    faces@,
                    index + 1,
                    old(image),
                    zbuffer@,
                    image,
                    x,
                    y,
                ) by {
                    assert(rendered(
                        model,
                        faces@,
                        index as int,
                        old(image),
                        depths_then,
                        &image_then,
                        x,
                        y,
                    ));
                    assert(covers(&image_then, x, y));
                    let paint = color_of(grey);
                    assert(filled(three, depths_then, &image_then, zbuffer@, image, x, y, paint));
                    lemma_fill_of_corners(
                        three,
                        face.points@,
                        depths_then,
                        &image_then,
                        zbuffer@,
                        image,
                        x,
                        y,
                        paint,
                    );
                }
            }
        } else {
            assert forall|x: int, y: int| covers(old(image), x, y) implies #[trigger] rendered(
                model,
                faces@,
                index + 1,
                old(image),
                zbuffer@,
                image,
                x,
                y,
            ) by {
                assert(rendered(
                    model,
                    faces@,
                    index as int,
                    old(image),
                    zbuffer@,
                    image,
                    x,
                    y,
                ));
            }
        }
        index = index + 1;
    }
    assert forall|x: int, y: int| covers(old(image), x, y) implies #[trigger] image.pixel_at(x, y)
        == after_faces(
        model,
        faces@,
        faces@.len() as int,
        x,
        y,
        old(image).pixel_at(x, y),
    ).color by {
        assert(rendered(model, faces@, index as int, old(image), zbuffer@, image, x, y));
    }
}

} // verus!
