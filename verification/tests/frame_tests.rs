use rust_rasterizer::raster::color::Color;
use rust_rasterizer::raster::sink::PixelSink;
use rust_rasterizer::raster::vector::Vec3u;
use rust_rasterizer::rendering::depth::Depth;
use rust_rasterizer::rendering::frame::Frame;
use rust_rasterizer::rendering::line::draw_line;
use rust_rasterizer::rendering::triangle::draw_triangle;

#[test]
fn new_frame_has_its_size_and_is_black() {
    let frame = Frame::new(3, 2).unwrap();
    assert_eq!(frame.width(), 3);
    assert_eq!(frame.height(), 2);
    assert_eq!(frame.columns(), 3);
    assert_eq!(frame.rows(), 2);
    for y in 0..2 {
        for x in 0..3 {
            assert_eq!(frame.get(x, y), Some(Color(0, 0, 0)));
        }
    }
}

#[test]
fn frame_that_no_vector_can_hold_is_refused() {
    assert!(Frame::new(u32::MAX, u32::MAX).is_none());
    assert!(Frame::new(0, u32::MAX).is_some());
}

#[test]
fn frame_get_outside_is_none() {
    let frame = Frame::new(3, 2).unwrap();
    assert_eq!(frame.get(3, 0), None);
    assert_eq!(frame.get(0, 2), None);
    assert_eq!(frame.get(u32::MAX, u32::MAX), None);
}

#[test]
fn frame_put_colors_one_pixel() {
    let mut frame = Frame::new(3, 2).unwrap();
    frame.put(2, 1, Color(1, 2, 3));
    frame.put(0, 0, Color(4, 5, 6));
    frame.put(3, 0, Color(9, 9, 9));
    frame.put(0, 2, Color(9, 9, 9));
    frame.put(-1, 0, Color(9, 9, 9));
    frame.put(0, -1, Color(9, 9, 9));
    assert_eq!(frame.get(2, 1), Some(Color(1, 2, 3)));
    assert_eq!(frame.get(0, 0), Some(Color(4, 5, 6)));
    assert_eq!(frame.get(1, 0), Some(Color(0, 0, 0)));
    assert_eq!(frame.get(2, 0), Some(Color(0, 0, 0)));
    assert_eq!(frame.get(0, 1), Some(Color(0, 0, 0)));
    assert_eq!(frame.get(1, 1), Some(Color(0, 0, 0)));
}

#[test]
fn line_on_a_frame() {
    let mut frame = Frame::new(10, 10).unwrap();
    draw_line(0, 0, 9, 0, &mut frame, &[255, 128, 0]);
    for y in 0..10 {
        for x in 0..10 {
            let expected = if y == 0 { Color(255, 128, 0) } else { Color(0, 0, 0) };
            assert_eq!(frame.get(x, y), Some(expected));
        }
    }
}

#[test]
fn line_on_a_frame_is_clipped() {
    let mut frame = Frame::new(4, 4).unwrap();
    draw_line(-2, -2, 6, 6, &mut frame, &[1, 1, 1]);
    for y in 0..4 {
        for x in 0..4 {
            let expected = if x == y { Color(1, 1, 1) } else { Color(0, 0, 0) };
            assert_eq!(frame.get(x, y), Some(expected));
        }
    }
}

#[test]
fn triangle_on_a_frame() {
    let mut frame = Frame::new(10, 10).unwrap();
    let mut zbuffer = vec![Depth::Empty; 100];
    let points = vec![Vec3u(0, 0, 0), Vec3u(4, 9, 0), Vec3u(9, 0, 0)];
    draw_triangle(points, &mut zbuffer, &mut frame, &[255, 255, 255]);
    assert_eq!(frame.get(0, 0), Some(Color(255, 255, 255)));
    assert_eq!(frame.get(4, 9), Some(Color(255, 255, 255)));
    assert_eq!(frame.get(9, 0), Some(Color(255, 255, 255)));
    assert_eq!(frame.get(0, 9), Some(Color(0, 0, 0)));
    assert_eq!(frame.get(9, 9), Some(Color(0, 0, 0)));
    assert_eq!(frame.get(4, 4), Some(Color(255, 255, 255)));
}
