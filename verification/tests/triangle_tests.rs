use rusteriser::color::Color;
use rusteriser::triangle::{self, Point, TriangleIterator};

fn tri(points: [(u32, u32); 3]) -> Vec<Point> {
    points.iter().map(|&(x, y)| Point::new(x, y)).collect()
}

#[test]
fn test_point_in_triangle() {
    let mut tri: Vec<Point> = Vec::with_capacity(3);
    tri.push(Point::new(245, 391));
    tri.push(Point::new(115, 200));
    tri.push(Point::new(306, 438));

    let mut point = (234, 357);
    assert!(triangle::point_in_triangle(point, &tri));
    point = (236, 277);
    assert!(!triangle::point_in_triangle(point, &tri));

    tri.clear();
    tri.push(Point::new(375, 186));
    tri.push(Point::new(2, 257));
    tri.push(Point::new(483, 5));

    point = (340, 110);
    assert!(triangle::point_in_triangle(point, &tri));
    point = (288, 82);
    assert!(!triangle::point_in_triangle(point, &tri));
    point = (375, 186);
    assert!(triangle::point_in_triangle(point, &tri));
}

#[test]
fn vertices_are_inside() {
    let t = tri([(5, 5), (20, 7), (9, 18)]);
    assert!(triangle::point_in_triangle((5, 5), &t));
    assert!(triangle::point_in_triangle((20, 7), &t));
    assert!(triangle::point_in_triangle((9, 18), &t));
}

#[test]
fn far_outside_bounding_box_is_outside() {
    let t = tri([(5, 5), (20, 7), (9, 18)]);
    assert!(!triangle::point_in_triangle((100, 100), &t));
    assert!(!triangle::point_in_triangle((0, 0), &t));
    assert!(!triangle::point_in_triangle((21, 6), &t));
    assert!(!triangle::point_in_triangle((5, 19), &t));
}

#[test]
fn degenerate_triangle_accepts_only_its_segment() {
    // All three vertices on one line: the sign test rejects everything,
    // only points on the segments themselves are kept by the fallback.
    let t = tri([(0, 0), (4, 4), (8, 8)]);
    assert!(triangle::point_in_triangle((2, 2), &t));
    assert!(!triangle::point_in_triangle((2, 3), &t));
}

#[test]
fn triangle_iterator_scanlines() {
    let t = tri([(0, 0), (3, 0), (0, 3)]);
    let mut it = TriangleIterator::new(&t);
    let mut rows: Vec<Vec<(usize, usize)>> = Vec::new();
    while let Some(row) = it.next() {
        rows.push(row);
    }
    let expected: Vec<Vec<(usize, usize)>> = vec![
        vec![(0, 0), (1, 0), (2, 0), (3, 0)],
        vec![(0, 1), (1, 1), (2, 1)],
        vec![(0, 2), (1, 2)],
        vec![(0, 3)],
    ];
    assert_eq!(rows, expected);
}

#[test]
fn triangle_iterator_row_per_bounding_box_row() {
    let t = tri([(2, 5), (9, 5), (5, 11)]);
    let mut it = TriangleIterator::new(&t);
    let mut count = 0;
    while let Some(_row) = it.next() {
        count += 1;
    }
    // One scanline for every row of the bounding box, inclusive.
    assert_eq!(count, 7);
}

#[test]
fn triangle_draw_fills_interior() {
    let t = tri([(0, 0), (3, 0), (0, 3)]);
    let mut fb: Vec<u32> = vec![0; 16];
    let color = Color::red();
    triangle::draw(&t, color, &mut fb, 4);
    let c = color.bgra();
    for y in 0..4usize {
        for x in 0..4usize {
            let expected = if x + y <= 3 { c } else { 0 };
            assert_eq!(fb[x + y * 4], expected, "pixel ({}, {})", x, y);
        }
    }
}
