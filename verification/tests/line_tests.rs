use rust_rasterizer::raster::canvas::Canvas;
use rust_rasterizer::raster::color::Color;
use rust_rasterizer::raster::line::draw_line;

fn white() -> Color {
    Color(255, 255, 255)
}

fn black() -> Color {
    Color(0, 0, 0)
}

fn drawn(x0: i32, y0: i32, x1: i32, y1: i32) -> Vec<(i32, i32)> {
    let mut canvas = Canvas::new(10, 10);
    draw_line(x0, y0, x1, y1, &mut canvas, &white());
    let mut pixels = Vec::new();
    for y in 0..10 {
        for x in 0..10 {
            if canvas.get(x, y) == Some(&white()) {
                pixels.push((x, y));
            }
        }
    }
    pixels
}

#[test]
fn line_tests_line_drawing_tests() {
    let mut canvas = Canvas::new(10, 10);
    draw_line(0, 0, 9, 0, &mut canvas, &Color(255, 255, 255));
    assert_eq!(canvas.get(0, 0).unwrap(), &Color(255, 255, 255));
    assert_eq!(canvas.get(9, 0).unwrap(), &Color(255, 255, 255));
}

#[test]
fn horizontal_line_colors_its_row_only() {
    let mut canvas = Canvas::new(10, 10);
    draw_line(0, 0, 9, 0, &mut canvas, &white());
    for y in 0..10 {
        for x in 0..10 {
            let expected = if y == 0 { white() } else { black() };
            assert_eq!(canvas.get(x, y), Some(&expected));
        }
    }
}

#[test]
fn line_is_the_same_in_both_directions() {
    assert_eq!(drawn(0, 0, 9, 0), drawn(9, 0, 0, 0));
    assert_eq!(drawn(1, 2, 8, 5), drawn(8, 5, 1, 2));
    assert_eq!(drawn(2, 9, 4, 0), drawn(4, 0, 2, 9));
    assert_eq!(drawn(0, 7, 9, 3), drawn(9, 3, 0, 7));
}

#[test]
fn line_holds_both_end_points() {
    for (x0, y0, x1, y1) in [(1, 2, 8, 5), (8, 5, 1, 2), (2, 9, 4, 0), (0, 0, 9, 9), (3, 3, 3, 8)] {
        let pixels = drawn(x0, y0, x1, y1);
        assert!(pixels.contains(&(x0, y0)));
        assert!(pixels.contains(&(x1, y1)));
    }
}

#[test]
fn single_point_line_colors_one_pixel() {
    assert_eq!(drawn(4, 6, 4, 6), vec![(4, 6)]);
}

#[test]
fn diagonal_line_is_exact() {
    assert_eq!(
        drawn(0, 0, 3, 3),
        vec![(0, 0), (1, 1), (2, 2), (3, 3)]
    );
    assert_eq!(
        drawn(3, 0, 0, 3),
        vec![(3, 0), (2, 1), (1, 2), (0, 3)]
    );
}

#[test]
fn shallow_line_rounds_halves_towards_its_start() {
    // rise 1 over run 2: the middle pixel lies exactly between two rows.
    assert_eq!(drawn(0, 0, 2, 1), vec![(0, 0), (1, 0), (2, 1)]);
    // rise 2 over run 5
    assert_eq!(
        drawn(0, 0, 5, 2),
        vec![(0, 0), (1, 0), (2, 1), (3, 1), (4, 2), (5, 2)]
    );
    // falling line, walked from its left end
    assert_eq!(
        drawn(0, 2, 5, 0),
        vec![(4, 0), (5, 0), (2, 1), (3, 1), (0, 2), (1, 2)]
    );
}

#[test]
fn steep_line_is_walked_along_y() {
    assert_eq!(
        drawn(0, 0, 2, 5),
        vec![(0, 0), (0, 1), (1, 2), (1, 3), (2, 4), (2, 5)]
    );
    assert_eq!(drawn(7, 1, 7, 4), vec![(7, 1), (7, 2), (7, 3), (7, 4)]);
}

#[test]
fn line_outside_the_canvas_is_clipped() {
    assert_eq!(drawn(-3, 4, 2, 4), vec![(0, 4), (1, 4), (2, 4)]);
    assert_eq!(drawn(8, 8, 12, 12), vec![(8, 8), (9, 9)]);
    assert_eq!(drawn(20, 20, 30, 25), vec![]);
    assert_eq!(drawn(-5, -5, -1, -1), vec![]);
}

#[test]
fn line_with_extreme_end_points_does_not_overflow() {
    let mut canvas = Canvas::new(2, 2);
    draw_line(i32::MIN, 1, i32::MIN + 10, 1, &mut canvas, &white());
    draw_line(i32::MAX - 10, 0, i32::MAX, 0, &mut canvas, &white());
    assert_eq!(canvas.get(0, 0), Some(&black()));
    assert_eq!(canvas.get(1, 1), Some(&black()));
}

#[test]
fn line_keeps_what_it_does_not_cover() {
    let mut canvas = Canvas::new(4, 4);
    canvas.set(Color(9, 8, 7), 1, 3);
    canvas.set(Color(1, 2, 3), 2, 0);
    draw_line(0, 0, 3, 0, &mut canvas, &white());
    assert_eq!(canvas.get(1, 3), Some(&Color(9, 8, 7)));
    assert_eq!(canvas.get(2, 0), Some(&white()));
}
