use rust_rasterizer::raster::canvas::Canvas;
use rust_rasterizer::raster::color::Color;
use rust_rasterizer::raster::line::draw_line;
use rust_rasterizer::raster::vector::Vec3u;
use rust_rasterizer::rendering::depth::Depth;
use rust_rasterizer::rendering::triangle::{barycentric, draw_triangle, Weights};

fn unlit() -> Color {
    Color(0, 0, 0)
}

fn snapshot(canvas: &Canvas) -> Vec<Color> {
    let mut pixels = Vec::new();
    for y in 0..canvas.height() as i32 {
        for x in 0..canvas.width() as i32 {
            pixels.push(*canvas.get(x, y).unwrap());
        }
    }
    pixels
}

#[test]
fn drawing_tests_line_drawing_tests() {
    let mut canvas = Canvas::new(10, 10);
    draw_line(0, 0, 9, 0, &mut canvas, &Color(255, 255, 255));
    assert_eq!(canvas.get(0, 0).unwrap(), &Color(255, 255, 255));
    assert_eq!(canvas.get(9, 0).unwrap(), &Color(255, 255, 255));
}

#[test]
fn triangle_drawing_tests() {
    let mut canvas = Canvas::new(10, 10);
    let mut zbuffer = vec![Depth::Empty; 100];
    let points = vec![Vec3u(0, 0, 0), Vec3u(4, 9, 0), Vec3u(9, 0, 0)];
    draw_triangle(points, &mut zbuffer, &mut canvas, &[255, 255, 255]);
    assert_eq!(canvas.get(0, 0).unwrap(), &Color(255, 255, 255));
    assert_eq!(canvas.get(4, 9).unwrap(), &Color(255, 255, 255));
    assert_eq!(canvas.get(9, 0).unwrap(), &Color(255, 255, 255));
}

#[test]
fn barycentric_is_one_hot_at_the_vertices() {
    let points = vec![Vec3u(0, 0, 5), Vec3u(4, 9, 6), Vec3u(9, 0, 7)];
    assert_eq!(
        barycentric(0, 0, &points),
        Weights { n0: 81, n1: 0, n2: 0, unit: 81 }
    );
    assert_eq!(
        barycentric(4, 9, &points),
        Weights { n0: 0, n1: 81, n2: 0, unit: 81 }
    );
    assert_eq!(
        barycentric(9, 0, &points),
        Weights { n0: 0, n1: 0, n2: 81, unit: 81 }
    );
}

#[test]
fn barycentric_of_either_orientation_has_a_positive_unit() {
    let clockwise = vec![Vec3u(0, 0, 0), Vec3u(4, 9, 0), Vec3u(9, 0, 0)];
    let counter = vec![Vec3u(0, 0, 0), Vec3u(9, 0, 0), Vec3u(4, 9, 0)];
    // (4, 3) = 30/81 * (0, 0) + 27/81 * (4, 9) + 24/81 * (9, 0)
    assert_eq!(
        barycentric(4, 3, &clockwise),
        Weights { n0: 30, n1: 27, n2: 24, unit: 81 }
    );
    assert_eq!(
        barycentric(4, 3, &counter),
        Weights { n0: 30, n1: 24, n2: 27, unit: 81 }
    );
}

#[test]
fn barycentric_outside_has_a_negative_weight() {
    let points = vec![Vec3u(0, 0, 0), Vec3u(4, 9, 0), Vec3u(9, 0, 0)];
    // (0, 9) = 36/81 * (0, 0) + 81/81 * (4, 9) - 36/81 * (9, 0)
    let w = barycentric(0, 9, &points);
    assert_eq!(w, Weights { n0: 36, n1: 81, n2: -36, unit: 81 });
}

#[test]
fn barycentric_of_a_degenerate_triangle_is_the_sentinel() {
    let points = vec![Vec3u(1, 1, 0), Vec3u(3, 3, 0), Vec3u(5, 5, 0)];
    assert_eq!(
        barycentric(3, 3, &points),
        Weights { n0: -1, n1: 1, n2: 1, unit: 1 }
    );
    let same = vec![Vec3u(2, 2, 0), Vec3u(2, 2, 0), Vec3u(2, 2, 0)];
    assert_eq!(
        barycentric(2, 2, &same),
        Weights { n0: -1, n1: 1, n2: 1, unit: 1 }
    );
}

#[test]
fn barycentric_at_the_largest_coordinates() {
    let m = 0x7fff_ffff;
    let points = vec![Vec3u(0, 0, 0), Vec3u(m, 0, 0), Vec3u(0, m, 0)];
    let w = barycentric(m, m, &points);
    let mm = (m as i128) * (m as i128);
    assert_eq!(w, Weights { n0: -mm, n1: mm, n2: mm, unit: mm });
}

#[test]
fn triangle_fills_exactly_its_pixels() {
    let mut canvas = Canvas::new(5, 5);
    let mut zbuffer = vec![Depth::Empty; 25];
    let points = vec![Vec3u(0, 0, 0), Vec3u(4, 0, 0), Vec3u(0, 4, 0)];
    draw_triangle(points, &mut zbuffer, &mut canvas, &[10, 20, 30]);
    for y in 0..5 {
        for x in 0..5 {
            let expected = if x + y <= 4 { Color(10, 20, 30) } else { unlit() };
            assert_eq!(canvas.get(x, y), Some(&expected), "pixel ({}, {})", x, y);
            let depth = zbuffer[(y * 5 + x) as usize];
            if x + y <= 4 {
                assert_eq!(depth, Depth::At { num: 0, den: 16 });
            } else {
                assert_eq!(depth, Depth::Empty);
            }
        }
    }
}

#[test]
fn triangle_depth_is_the_weighted_mean() {
    let mut canvas = Canvas::new(5, 5);
    let mut zbuffer = vec![Depth::Empty; 25];
    let points = vec![Vec3u(0, 0, 10), Vec3u(4, 0, 20), Vec3u(0, 4, 40)];
    draw_triangle(points, &mut zbuffer, &mut canvas, &[1, 1, 1]);
    // twice the area is 16; the weights of (1, 2) are 4/16, 4/16, 8/16
    assert_eq!(zbuffer[2 * 5 + 1], Depth::At { num: 4 * 10 + 4 * 20 + 8 * 40, den: 16 });
    assert_eq!(zbuffer[0], Depth::At { num: 160, den: 16 });
    assert_eq!(zbuffer[4], Depth::At { num: 320, den: 16 });
    assert_eq!(zbuffer[20], Depth::At { num: 640, den: 16 });
}

#[test]
fn second_pass_of_a_triangle_changes_nothing() {
    let mut canvas = Canvas::new(10, 10);
    let mut zbuffer = vec![Depth::Empty; 100];
    let points = vec![Vec3u(0, 0, 3), Vec3u(4, 9, 8), Vec3u(9, 0, 5)];
    draw_triangle(points.clone(), &mut zbuffer, &mut canvas, &[200, 100, 50]);
    let picture = snapshot(&canvas);
    let depths = zbuffer.clone();
    draw_triangle(points, &mut zbuffer, &mut canvas, &[1, 2, 3]);
    assert_eq!(snapshot(&canvas), picture);
    assert_eq!(zbuffer, depths);
}

#[test]
fn degenerate_triangle_draws_nothing() {
    let mut canvas = Canvas::new(10, 10);
    canvas.set(Color(5, 5, 5), 3, 3);
    let mut zbuffer = vec![Depth::Empty; 100];
    let picture = snapshot(&canvas);
    draw_triangle(
        vec![Vec3u(1, 1, 9), Vec3u(3, 3, 9), Vec3u(5, 5, 9)],
        &mut zbuffer,
        &mut canvas,
        &[255, 0, 0],
    );
    draw_triangle(
        vec![Vec3u(2, 7, 9), Vec3u(2, 7, 9), Vec3u(2, 7, 9)],
        &mut zbuffer,
        &mut canvas,
        &[255, 0, 0],
    );
    assert_eq!(snapshot(&canvas), picture);
    assert_eq!(zbuffer, vec![Depth::Empty; 100]);
}

#[test]
fn fewer_than_three_points_draw_nothing() {
    let mut canvas = Canvas::new(4, 4);
    let mut zbuffer = vec![Depth::Empty; 16];
    draw_triangle(vec![], &mut zbuffer, &mut canvas, &[255, 0, 0]);
    draw_triangle(vec![Vec3u(1, 1, 1)], &mut zbuffer, &mut canvas, &[255, 0, 0]);
    draw_triangle(
        vec![Vec3u(0, 0, 1), Vec3u(3, 3, 1)],
        &mut zbuffer,
        &mut canvas,
        &[255, 0, 0],
    );
    assert_eq!(snapshot(&canvas), vec![unlit(); 16]);
    assert_eq!(zbuffer, vec![Depth::Empty; 16]);
}

#[test]
fn more_than_three_points_use_the_first_three() {
    let mut canvas = Canvas::new(5, 5);
    let mut zbuffer = vec![Depth::Empty; 25];
    draw_triangle(
        vec![Vec3u(0, 0, 0), Vec3u(2, 0, 0), Vec3u(0, 2, 0), Vec3u(4, 4, 0)],
        &mut zbuffer,
        &mut canvas,
        &[9, 9, 9],
    );
    for y in 0..5 {
        for x in 0..5 {
            let expected = if x + y <= 2 { Color(9, 9, 9) } else { unlit() };
            assert_eq!(canvas.get(x, y), Some(&expected));
        }
    }
}

#[test]
fn nearer_triangle_hides_farther_one() {
    let mut canvas = Canvas::new(4, 4);
    let mut zbuffer = vec![Depth::Empty; 16];
    let corners = |depth: usize| vec![Vec3u(0, 0, depth), Vec3u(3, 0, depth), Vec3u(0, 3, depth)];
    draw_triangle(corners(5), &mut zbuffer, &mut canvas, &[50, 50, 50]);
    draw_triangle(corners(2), &mut zbuffer, &mut canvas, &[20, 20, 20]);
    assert_eq!(canvas.get(1, 1), Some(&Color(50, 50, 50)));
    assert_eq!(zbuffer[5], Depth::At { num: 45, den: 9 });
    draw_triangle(corners(5), &mut zbuffer, &mut canvas, &[55, 55, 55]);
    assert_eq!(canvas.get(1, 1), Some(&Color(50, 50, 50)));
    draw_triangle(corners(6), &mut zbuffer, &mut canvas, &[60, 60, 60]);
    assert_eq!(canvas.get(1, 1), Some(&Color(60, 60, 60)));
    assert_eq!(zbuffer[5], Depth::At { num: 54, den: 9 });
    assert_eq!(canvas.get(3, 3), Some(&unlit()));
}

#[test]
fn triangle_beyond_the_image_is_clipped() {
    let mut canvas = Canvas::new(3, 3);
    let mut zbuffer = vec![Depth::Empty; 9];
    draw_triangle(
        vec![Vec3u(0, 0, 1), Vec3u(20, 0, 1), Vec3u(0, 20, 1)],
        &mut zbuffer,
        &mut canvas,
        &[7, 7, 7],
    );
    assert_eq!(snapshot(&canvas), vec![Color(7, 7, 7); 9]);
    let mut canvas = Canvas::new(3, 3);
    let mut zbuffer = vec![Depth::Empty; 9];
    draw_triangle(
        vec![Vec3u(10, 10, 1), Vec3u(20, 10, 1), Vec3u(10, 20, 1)],
        &mut zbuffer,
        &mut canvas,
        &[7, 7, 7],
    );
    assert_eq!(snapshot(&canvas), vec![unlit(); 9]);
}

#[test]
fn triangle_on_an_empty_canvas_does_nothing() {
    let mut canvas = Canvas::new(0, 5);
    let mut zbuffer: Vec<Depth> = vec![];
    draw_triangle(
        vec![Vec3u(0, 0, 1), Vec3u(2, 0, 1), Vec3u(0, 2, 1)],
        &mut zbuffer,
        &mut canvas,
        &[7, 7, 7],
    );
    assert!(zbuffer.is_empty());
    assert_eq!(canvas.get(0, 0), None);
}

#[test]
fn triangle_with_the_largest_depths_does_not_overflow() {
    let mut canvas = Canvas::new(3, 3);
    let mut zbuffer = vec![Depth::Empty; 9];
    let far = usize::MAX;
    draw_triangle(
        vec![Vec3u(0, 0, far), Vec3u(0x7fff_ffff, 0, far), Vec3u(0, 0x7fff_ffff, far)],
        &mut zbuffer,
        &mut canvas,
        &[7, 7, 7],
    );
    let unit = 0x7fff_ffffu128 * 0x7fff_ffffu128;
    assert_eq!(zbuffer[4], Depth::At { num: unit * (far as u128), den: unit });
    draw_triangle(
        vec![Vec3u(0, 0, far - 1), Vec3u(0x7fff_ffff, 0, far), Vec3u(0, 0x7fff_ffff, far)],
        &mut zbuffer,
        &mut canvas,
        &[8, 8, 8],
    );
    assert_eq!(canvas.get(1, 1), Some(&Color(7, 7, 7)));
}
