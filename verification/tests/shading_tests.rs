use image::{DynamicImage, RgbImage};
use rust_rasterizer::raster::canvas::Canvas;
use rust_rasterizer::raster::color::Color;
use rust_rasterizer::raster::vector::Vec3u;
use rust_rasterizer::rendering::depth::Depth;
use rust_rasterizer::rendering::obj::{Model, Shader, TexCoord};
use rust_rasterizer::rendering::triangle::{draw_triangle_model, Weights};

const ONE: u64 = 65536;

/// A texture two texels wide and two high:
///
/// ```text
/// row 0:  (10, 20, 30)  (40, 50, 60)
/// row 1:  (70, 80, 90)  (100, 110, 120)
/// ```
fn texture() -> DynamicImage {
    let bytes = vec![10, 20, 30, 40, 50, 60, 70, 80, 90, 100, 110, 120];
    DynamicImage::ImageRgb8(RgbImage::from_raw(2, 2, bytes).unwrap())
}

fn textured_model() -> Model {
    let mut model = Model {
        faces: vec![vec![Vec3u(0, 0, 0), Vec3u(1, 1, 0), Vec3u(2, 2, 0)]],
        uv: vec![
            TexCoord(0, 0),
            TexCoord(ONE / 2, 0),
            TexCoord(0, 3 * ONE / 4),
        ],
        diffuse: None,
    };
    model.load_texture(texture());
    model
}

#[test]
fn load_texture_turns_the_rows_upside_down() {
    let model = textured_model();
    assert_eq!(model.diffuse(TexCoord(0, 0)), [70, 80, 90, 255]);
    assert_eq!(model.diffuse(TexCoord(ONE, 0)), [100, 110, 120, 255]);
    assert_eq!(model.diffuse(TexCoord(0, ONE)), [10, 20, 30, 255]);
    assert_eq!(model.diffuse(TexCoord(ONE, ONE)), [40, 50, 60, 255]);
}

#[test]
fn load_texture_keeps_faces_and_coordinates() {
    let model = textured_model();
    assert_eq!(model.faces, vec![vec![Vec3u(0, 0, 0), Vec3u(1, 1, 0), Vec3u(2, 2, 0)]]);
    assert_eq!(model.uv.len(), 3);
    assert_eq!(model.uv[1], TexCoord(ONE / 2, 0));
    assert!(model.diffuse.is_some());
}

#[test]
fn diffuse_takes_the_texel_that_the_position_lies_in() {
    let model = textured_model();
    assert_eq!(model.diffuse(TexCoord(ONE - 1, ONE - 1)), [70, 80, 90, 255]);
    assert_eq!(model.diffuse(TexCoord(2 * ONE - 1, ONE - 1)), [100, 110, 120, 255]);
    assert_eq!(model.diffuse(TexCoord(ONE - 1, 2 * ONE - 1)), [10, 20, 30, 255]);
}

#[test]
fn uv_scales_by_the_size_of_the_texture() {
    let model = textured_model();
    assert_eq!(model.uv(0, 0), TexCoord(0, 0));
    assert_eq!(model.uv(0, 1), TexCoord(ONE, 0));
    assert_eq!(model.uv(0, 2), TexCoord(0, 3 * ONE / 2));
}

#[test]
fn uv_without_a_texture_is_zero() {
    let model = Model {
        faces: vec![vec![Vec3u(0, 0, 0), Vec3u(1, 1, 0), Vec3u(2, 2, 0)]],
        uv: vec![TexCoord(5, 6), TexCoord(7, 8), TexCoord(9, 10)],
        diffuse: None,
    };
    assert_eq!(model.uv(0, 1), TexCoord(0, 0));
    assert_eq!(model.uv(99, 99), TexCoord(0, 0));
}

#[test]
fn new_shader_is_dark_and_without_texture() {
    let shader = Shader::new();
    assert!(shader.uv.is_empty());
    assert_eq!(shader.intensity, 0);
}

#[test]
fn shader_without_texture_gives_the_grey_of_its_intensity() {
    let model = Model { faces: vec![], uv: vec![], diffuse: None };
    let mut shader = Shader::new();
    shader.intensity = 128;
    let weights = Weights { n0: 1, n1: 2, n2: 3, unit: 6 };
    assert_eq!(shader.compute_color(&weights, &model), [128, 128, 128]);
    shader.intensity = 255;
    assert_eq!(shader.compute_color(&weights, &model), [255, 255, 255]);
    let textured = textured_model();
    assert_eq!(shader.compute_color(&weights, &textured), [255, 255, 255]);
}

#[test]
fn shader_with_texture_dims_the_texel_under_the_pixel() {
    let model = textured_model();
    let shader = Shader {
        uv: vec![TexCoord(0, 0), TexCoord(ONE, 0), TexCoord(0, ONE)],
        intensity: 128,
    };
    let at = |n0, n1, n2, unit| shader.compute_color(&Weights { n0, n1, n2, unit }, &model);
    // 70 * 128 / 255 = 35.1, 80 * 128 / 255 = 40.2, 90 * 128 / 255 = 45.2
    assert_eq!(at(1, 0, 0, 1), [35, 40, 45]);
    // 100 * 128 / 255 = 50.2, 110 * 128 / 255 = 55.2, 120 * 128 / 255 = 60.2
    assert_eq!(at(0, 1, 0, 1), [50, 55, 60]);
    // 10 * 128 / 255 = 5.0, 20 * 128 / 255 = 10.0, 30 * 128 / 255 = 15.1
    assert_eq!(at(0, 0, 1, 1), [5, 10, 15]);
    // halfway between the second and third corner: (0.5, 0.5), the first texel
    assert_eq!(at(0, 1, 1, 2), [35, 40, 45]);
    // a quarter, a quarter, a half: (0.25, 0.5), the first texel
    assert_eq!(at(1, 1, 2, 4), [35, 40, 45]);
}

#[test]
fn shader_at_full_intensity_keeps_the_texel() {
    let model = textured_model();
    let shader = Shader {
        uv: vec![TexCoord(ONE, ONE), TexCoord(ONE, ONE), TexCoord(ONE, ONE)],
        intensity: 255,
    };
    let weights = Weights { n0: 3, n1: 3, n2: 3, unit: 9 };
    assert_eq!(shader.compute_color(&weights, &model), [40, 50, 60]);
    let dark = Shader { intensity: 0, ..shader };
    assert_eq!(dark.compute_color(&weights, &model), [0, 0, 0]);
}

#[test]
fn textured_triangle_takes_its_colors_from_the_texture() {
    let model = textured_model();
    let shader = Shader {
        uv: vec![
            TexCoord(0, 0),
            TexCoord(2 * ONE - 1, 0),
            TexCoord(0, 2 * ONE - 1),
        ],
        intensity: 255,
    };
    let mut canvas = Canvas::new(4, 4);
    let mut zbuffer = vec![Depth::Empty; 16];
    let points = vec![Vec3u(0, 0, 1), Vec3u(3, 0, 1), Vec3u(0, 3, 1)];
    draw_triangle_model(points, &shader, &model, &mut zbuffer, &mut canvas);
    assert_eq!(canvas.get(0, 0), Some(&Color(70, 80, 90)));
    assert_eq!(canvas.get(3, 0), Some(&Color(100, 110, 120)));
    assert_eq!(canvas.get(0, 3), Some(&Color(10, 20, 30)));
    assert_eq!(canvas.get(1, 1), Some(&Color(70, 80, 90)));
    assert_eq!(canvas.get(2, 1), Some(&Color(100, 110, 120)));
    assert_eq!(canvas.get(1, 2), Some(&Color(10, 20, 30)));
    assert_eq!(canvas.get(3, 3), Some(&Color(0, 0, 0)));
    assert_eq!(canvas.get(2, 2), Some(&Color(0, 0, 0)));
    assert_eq!(zbuffer[5], Depth::At { num: 9, den: 9 });
    assert_eq!(zbuffer[15], Depth::Empty);
}

#[test]
fn textured_triangle_obeys_the_depth_buffer() {
    let model = textured_model();
    let shader = Shader {
        uv: vec![TexCoord(0, 0), TexCoord(0, 0), TexCoord(0, 0)],
        intensity: 255,
    };
    let mut canvas = Canvas::new(3, 3);
    let mut zbuffer = vec![Depth::At { num: 5, den: 1 }; 9];
    zbuffer[0] = Depth::At { num: 3, den: 1 };
    let points = vec![Vec3u(0, 0, 4), Vec3u(2, 0, 4), Vec3u(0, 2, 4)];
    draw_triangle_model(points.clone(), &shader, &model, &mut zbuffer, &mut canvas);
    assert_eq!(canvas.get(0, 0), Some(&Color(70, 80, 90)));
    assert_eq!(canvas.get(1, 0), Some(&Color(0, 0, 0)));
    assert_eq!(canvas.get(1, 1), Some(&Color(0, 0, 0)));
    assert_eq!(zbuffer[0], Depth::At { num: 16, den: 4 });
    assert_eq!(zbuffer[1], Depth::At { num: 5, den: 1 });
    let before = zbuffer.clone();
    draw_triangle_model(points, &shader, &model, &mut zbuffer, &mut canvas);
    assert_eq!(zbuffer, before);
}

#[test]
fn degenerate_textured_triangle_draws_nothing() {
    let model = textured_model();
    let shader = Shader {
        uv: vec![TexCoord(0, 0), TexCoord(0, 0), TexCoord(0, 0)],
        intensity: 255,
    };
    let mut canvas = Canvas::new(3, 3);
    let mut zbuffer = vec![Depth::Empty; 9];
    let points = vec![Vec3u(0, 0, 4), Vec3u(1, 1, 4), Vec3u(2, 2, 4)];
    draw_triangle_model(points, &shader, &model, &mut zbuffer, &mut canvas);
    draw_triangle_model(vec![], &shader, &model, &mut zbuffer, &mut canvas);
    assert_eq!(zbuffer, vec![Depth::Empty; 9]);
    for y in 0..3 {
        for x in 0..3 {
            assert_eq!(canvas.get(x, y), Some(&Color(0, 0, 0)));
        }
    }
}

#[test]
fn uv_scales_columns_by_the_width_and_rows_by_the_height() {
    let bytes = vec![1, 1, 1, 2, 2, 2, 3, 3, 3];
    let mut model = Model {
        faces: vec![vec![Vec3u(0, 0, 0), Vec3u(0, 1, 0), Vec3u(0, 0, 0)]],
        uv: vec![TexCoord(ONE / 2, ONE / 2), TexCoord(ONE / 4, 3 * ONE / 4)],
        diffuse: None,
    };
    model.load_texture(DynamicImage::ImageRgb8(RgbImage::from_raw(3, 1, bytes).unwrap()));
    assert_eq!(model.uv(0, 0), TexCoord(3 * ONE / 2, ONE / 2));
    assert_eq!(model.uv(0, 1), TexCoord(3 * ONE / 4, 3 * ONE / 4));
    assert_eq!(model.diffuse(model.uv(0, 0)), [2, 2, 2, 255]);
    assert_eq!(model.diffuse(model.uv(0, 1)), [1, 1, 1, 255]);
    assert_eq!(model.diffuse(TexCoord(2 * ONE, 0)), [3, 3, 3, 255]);
}

#[test]
fn texture_of_another_pixel_format_is_read_as_rgb() {
    let grey = image::GrayImage::from_raw(2, 1, vec![7, 200]).unwrap();
    let mut model = Model { faces: vec![], uv: vec![], diffuse: None };
    model.load_texture(DynamicImage::ImageLuma8(grey));
    assert_eq!(model.diffuse(TexCoord(0, 0)), [7, 7, 7, 255]);
    assert_eq!(model.diffuse(TexCoord(ONE, 0)), [200, 200, 200, 255]);
}
