use rusteriser::color::Color;
use rusteriser::common;
use rusteriser::gl::{FaceThreadResult, Gl, DEPTH_CLEAR};
use rusteriser::triangle::{Point, TriangleIterator};

fn batch_for_triangle(
    corners: [(u32, u32); 3],
    color: Color,
    depth: i64,
    width: usize,
) -> FaceThreadResult {
    let tri: Vec<Point> = corners.iter().map(|&(x, y)| Point::new(x, y)).collect();
    let mut result = FaceThreadResult::new();
    let mut it = TriangleIterator::new(&tri);
    while let Some(row) = it.next() {
        for (x, y) in row {
            result.push(common::xy(x, y, width), color.bgra(), depth);
        }
    }
    result
}

#[test]
fn gl_new_buffer_dimensions() {
    let gl = Gl::new(6, 4);
    assert_eq!(gl.framebuffer().len(), 24);
    assert_eq!(gl.zbuffer().len(), 24);
    assert!(gl.framebuffer().iter().all(|&v| v == 0));
    assert!(gl.zbuffer().iter().all(|&z| z == DEPTH_CLEAR));
}

#[test]
fn single_triangle_fill() {
    // A 4x4 target, one triangle over the lower-left half, constant depth.
    let mut gl = Gl::new(4, 4);
    let red = Color::new(255, 0, 0, 255);
    let batch = batch_for_triangle([(0, 0), (3, 0), (0, 3)], red, 5, 4);
    gl.merge(&batch);
    let fb = gl.framebuffer();
    let zb = gl.zbuffer();
    for y in 0..4usize {
        for x in 0..4usize {
            let i = x + y * 4;
            if x + y <= 3 {
                assert_eq!(fb[i], red.bgra(), "pixel ({}, {})", x, y);
                assert_eq!(zb[i], 5, "depth ({}, {})", x, y);
            } else {
                assert_eq!(fb[i], 0, "pixel ({}, {})", x, y);
                assert_eq!(zb[i], DEPTH_CLEAR, "depth ({}, {})", x, y);
            }
        }
    }
}

#[test]
fn depth_test_nearer_wins() {
    // Two coincident triangles, back to front: red at depth -1, then blue
    // at depth +1. Blue wins everywhere because +1 >= -1.
    let mut gl = Gl::new(4, 4);
    let corners = [(0u32, 0u32), (3, 0), (0, 3)];
    gl.merge(&batch_for_triangle(corners, Color::red(), -1, 4));
    gl.merge(&batch_for_triangle(corners, Color::blue(), 1, 4));
    let fb = gl.framebuffer();
    for y in 0..4usize {
        for x in 0..4usize {
            if x + y <= 3 {
                assert_eq!(fb[x + y * 4], Color::blue().bgra());
                assert_eq!(gl.zbuffer()[x + y * 4], 1);
            }
        }
    }
}

#[test]
fn depth_test_farther_loses() {
    // Front to back: the later, farther fragment fails the depth test.
    let mut gl = Gl::new(4, 4);
    let corners = [(0u32, 0u32), (3, 0), (0, 3)];
    gl.merge(&batch_for_triangle(corners, Color::blue(), 1, 4));
    gl.merge(&batch_for_triangle(corners, Color::red(), -1, 4));
    assert_eq!(gl.framebuffer()[0], Color::blue().bgra());
    assert_eq!(gl.zbuffer()[0], 1);
}

#[test]
fn depth_test_equal_depth_last_wins() {
    // Ties use >=, so the most recently merged fragment keeps the pixel.
    let mut gl = Gl::new(2, 2);
    let mut first = FaceThreadResult::new();
    first.push(0, Color::red().bgra(), 7);
    let mut second = FaceThreadResult::new();
    second.push(0, Color::green().bgra(), 7);
    gl.merge(&first);
    gl.merge(&second);
    assert_eq!(gl.framebuffer()[0], Color::green().bgra());
    assert_eq!(gl.zbuffer()[0], 7);
}

#[test]
fn merge_depth_monotone() {
    // The stored depth at a pixel never goes below any depth that tried to
    // write there.
    let mut gl = Gl::new(2, 2);
    let mut batch = FaceThreadResult::new();
    batch.push(1, 0xa0a0a0a0, 3);
    batch.push(1, 0xb0b0b0b0, -5);
    batch.push(1, 0xc0c0c0c0, 9);
    batch.push(2, 0xd0d0d0d0, -2);
    gl.merge(&batch);
    assert!(gl.zbuffer()[1] >= 3);
    assert!(gl.zbuffer()[1] >= -5);
    assert!(gl.zbuffer()[1] >= 9);
    assert_eq!(gl.framebuffer()[1], 0xc0c0c0c0);
    assert_eq!(gl.zbuffer()[2], -2);
    assert_eq!(gl.framebuffer()[2], 0xd0d0d0d0);
    assert_eq!(gl.framebuffer()[0], 0);
    assert_eq!(gl.framebuffer()[3], 0);
}

#[test]
fn gl_zero_size_target() {
    let mut gl = Gl::new(0, 0);
    assert_eq!(gl.framebuffer().len(), 0);
    assert_eq!(gl.zbuffer().len(), 0);
    gl.merge(&FaceThreadResult::new());
    assert_eq!(gl.framebuffer().len(), 0);
    assert!(gl.framebuffer_bytes().is_empty());
}

#[test]
fn framebuffer_byte_streams() {
    let mut gl = Gl::new(1, 1);
    let c = Color::new(0x10, 0x20, 0x30, 0x40);
    let mut batch = FaceThreadResult::new();
    batch.push(0, c.bgra(), 0);
    gl.merge(&batch);
    // Display stream: little-endian expansion gives B, G, R, A.
    assert_eq!(gl.framebuffer_bytes(), vec![0x30, 0x20, 0x10, 0x40]);
    // Image stream: R, G, B, A.
    assert_eq!(gl.image_bytes(), vec![0x10, 0x20, 0x30, 0x40]);
}
