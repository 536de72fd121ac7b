use rust_rasterizer::raster::canvas::Canvas;
use rust_rasterizer::raster::color::Color;
use rust_rasterizer::raster::sink::PixelSink;

#[test]
fn new_canvas_is_black() {
    let canvas = Canvas::new(3, 2);
    assert_eq!(canvas.width(), 3);
    assert_eq!(canvas.height(), 2);
    for y in 0..2 {
        for x in 0..3 {
            assert_eq!(canvas.get(x, y), Some(&Color(0, 0, 0)));
        }
    }
}

#[test]
fn set_then_get_gives_the_color_back() {
    let mut canvas = Canvas::new(4, 3);
    canvas.set(Color(1, 2, 3), 0, 0);
    canvas.set(Color(4, 5, 6), 3, 0);
    canvas.set(Color(7, 8, 9), 0, 2);
    canvas.set(Color(10, 11, 12), 3, 2);
    assert_eq!(canvas.get(0, 0), Some(&Color(1, 2, 3)));
    assert_eq!(canvas.get(3, 0), Some(&Color(4, 5, 6)));
    assert_eq!(canvas.get(0, 2), Some(&Color(7, 8, 9)));
    assert_eq!(canvas.get(3, 2), Some(&Color(10, 11, 12)));
    assert_eq!(canvas.get(1, 1), Some(&Color(0, 0, 0)));
    assert_eq!(canvas.get(2, 0), Some(&Color(0, 0, 0)));
}

#[test]
fn get_outside_the_canvas_is_none() {
    let canvas = Canvas::new(4, 3);
    assert_eq!(canvas.get(4, 0), None);
    assert_eq!(canvas.get(0, 3), None);
    assert_eq!(canvas.get(-1, 0), None);
    assert_eq!(canvas.get(0, -1), None);
    assert_eq!(canvas.get(i32::MAX, i32::MAX), None);
    assert_eq!(canvas.get(i32::MIN, i32::MIN), None);
}

#[test]
fn set_outside_the_canvas_changes_nothing() {
    let mut canvas = Canvas::new(2, 2);
    canvas.set(Color(9, 9, 9), 2, 0);
    canvas.set(Color(9, 9, 9), 0, 2);
    canvas.set(Color(9, 9, 9), -1, 1);
    canvas.set(Color(9, 9, 9), 1, -1);
    canvas.put(5_000_000_000, 0, Color(9, 9, 9));
    canvas.put(0, -5_000_000_000, Color(9, 9, 9));
    for y in 0..2 {
        for x in 0..2 {
            assert_eq!(canvas.get(x, y), Some(&Color(0, 0, 0)));
        }
    }
}

#[test]
fn in_bounds_follows_the_size() {
    let canvas = Canvas::new(4, 3);
    assert!(canvas.in_bounds(0, 0));
    assert!(canvas.in_bounds(3, 2));
    assert!(!canvas.in_bounds(4, 2));
    assert!(!canvas.in_bounds(3, 3));
    assert!(!canvas.in_bounds(-1, 0));
    assert!(!canvas.in_bounds(0, -1));
    let empty = Canvas::new(0, 0);
    assert!(!empty.in_bounds(0, 0));
}

#[test]
fn canvas_as_a_sink_reports_its_size() {
    let mut canvas = Canvas::new(4, 3);
    assert_eq!(canvas.columns(), 4);
    assert_eq!(canvas.rows(), 3);
    canvas.put(2, 1, Color(3, 2, 1));
    assert_eq!(canvas.get(2, 1), Some(&Color(3, 2, 1)));
}

#[test]
fn ppm_of_a_white_pixel() {
    let mut canvas = Canvas::new(1, 1);
    canvas.set(Color(255, 255, 255), 0, 0);
    let text = Canvas::format_ppm(&canvas);
    assert!(text.starts_with("P3\n1 1\n255\n"));
    assert_eq!(&text["P3\n1 1\n255\n".len()..], "255 255 255 \n");
    assert_eq!(text, "P3\n1 1\n255\n255 255 255 \n");
}

#[test]
fn ppm_of_an_empty_canvas_is_its_header() {
    assert_eq!(Canvas::format_ppm(&Canvas::new(0, 0)), "P3\n0 0\n255\n\n");
    assert_eq!(Canvas::format_ppm(&Canvas::new(0, 7)), "P3\n0 7\n255\n\n");
}

#[test]
fn ppm_lists_the_last_row_first() {
    let mut canvas = Canvas::new(2, 2);
    canvas.set(Color(1, 2, 3), 0, 0);
    canvas.set(Color(4, 5, 6), 1, 0);
    canvas.set(Color(7, 8, 9), 0, 1);
    canvas.set(Color(10, 11, 12), 1, 1);
    assert_eq!(
        Canvas::format_ppm(&canvas),
        "P3\n2 2\n255\n7 8 9 10 11 12 \n1 2 3 4 5 6 \n"
    );
}

#[test]
fn ppm_breaks_the_line_after_each_row() {
    let canvas = Canvas::new(3, 2);
    assert_eq!(
        Canvas::format_ppm(&canvas),
        "P3\n3 2\n255\n0 0 0 0 0 0 0 0 0 \n0 0 0 0 0 0 0 0 0 \n"
    );
}

#[test]
fn ppm_breaks_the_line_before_it_passes_seventy_characters() {
    let mut canvas = Canvas::new(6, 1);
    for x in 0..6 {
        canvas.set(Color(255, 255, 255), x, 0);
    }
    let five = "255 255 255 ".repeat(5);
    assert_eq!(
        Canvas::format_ppm(&canvas),
        format!("P3\n6 1\n255\n{}\n255 255 255 \n", five)
    );
    let black = Canvas::new(12, 1);
    let eleven = "0 0 0 ".repeat(11);
    assert_eq!(
        Canvas::format_ppm(&black),
        format!("P3\n12 1\n255\n{}\n0 0 0 \n", eleven)
    );
}

#[test]
fn ppm_lines_hold_at_most_seventy_characters() {
    let mut canvas = Canvas::new(23, 5);
    for y in 0..5 {
        for x in 0..23 {
            canvas.set(
                Color((x * 11) as u8, (y * 60) as u8, (x * y) as u8),
                x,
                y,
            );
        }
    }
    let text = Canvas::format_ppm(&canvas);
    for line in text.lines() {
        assert!(line.len() <= 70, "line too long: {:?}", line);
    }
    let numbers: Vec<u32> = text
        .split_whitespace()
        .skip(4)
        .map(|word| word.parse().unwrap())
        .collect();
    assert_eq!(numbers.len(), 23 * 5 * 3);
    assert_eq!(&numbers[0..3], &[0, 240, 0]);
    assert_eq!(&numbers[3..6], &[11, 240, 4]);
    let last = numbers.len() - 3;
    assert_eq!(&numbers[last..], &[242, 0, 0]);
}

#[test]
fn ppm_leaves_the_canvas_as_it_was() {
    let mut canvas = Canvas::new(2, 2);
    canvas.set(Color(1, 2, 3), 0, 0);
    let first = Canvas::format_ppm(&canvas);
    let second = Canvas::format_ppm(&canvas);
    assert_eq!(first, second);
    assert_eq!(canvas.get(0, 0), Some(&Color(1, 2, 3)));
}

#[test]
fn color_text_and_length() {
    assert_eq!(Color(255, 0, 17).ppm_string(), "255 0 17");
    assert_eq!(Color(255, 0, 17).ppm_length(), 9);
    assert_eq!(Color(0, 0, 0).ppm_string(), "0 0 0");
    assert_eq!(Color(0, 0, 0).ppm_length(), 6);
    assert_eq!(Color(100, 10, 9).ppm_string(), "100 10 9");
    assert_eq!(Color(255, 255, 255).ppm_length(), 12);
    let mut text = String::from("x");
    Color(1, 20, 255).append_to(&mut text);
    assert_eq!(text, "x1 20 255");
}
