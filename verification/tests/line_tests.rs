use rusteriser::color::Color;
use rusteriser::line::{draw, LineIterator};

fn collect_points(mut it: LineIterator) -> Vec<(usize, usize)> {
    let mut pts: Vec<(usize, usize)> = Vec::new();
    while let Some(p) = it.next() {
        pts.push(p);
    }
    pts
}

#[test]
fn line_iterator_diagonal() {
    // The 45-degree diagonal yields exactly the eleven points (0,0)..(10,10).
    let pts = collect_points(LineIterator::new(0, 0, 10, 10));
    let expected: Vec<(usize, usize)> =
        (0..11).map(|i| (i as usize, i as usize)).collect();
    assert_eq!(pts, expected);
}

#[test]
fn line_iterator_endpoints() {
    let cases = [
        (0u32, 0u32, 10u32, 10u32),
        (10, 10, 0, 0),
        (3, 7, 3, 7),
        (0, 0, 7, 2),
        (7, 2, 0, 0),
        (2, 9, 4, 0),
        (5, 0, 0, 1),
    ];
    for &(x0, y0, x1, y1) in cases.iter() {
        let pts = collect_points(LineIterator::new(x0, y0, x1, y1));
        assert!(!pts.is_empty());
        assert_eq!(pts[0], (x0 as usize, y0 as usize));
        assert_eq!(*pts.last().unwrap(), (x1 as usize, y1 as usize));
    }
}

#[test]
fn line_iterator_deterministic() {
    let a = collect_points(LineIterator::new(1, 2, 30, 11));
    let b = collect_points(LineIterator::new(1, 2, 30, 11));
    assert_eq!(a, b);
}

#[test]
fn line_iterator_single_point() {
    let mut it = LineIterator::new(4, 4, 4, 4);
    assert_eq!(it.next(), Some((4, 4)));
    assert_eq!(it.next(), None);
    assert_eq!(it.next(), None);
}

#[test]
fn line_iterator_horizontal_and_vertical() {
    let pts = collect_points(LineIterator::new(2, 5, 6, 5));
    assert_eq!(pts, vec![(2, 5), (3, 5), (4, 5), (5, 5), (6, 5)]);
    let pts = collect_points(LineIterator::new(3, 1, 3, 4));
    assert_eq!(pts, vec![(3, 1), (3, 2), (3, 3), (3, 4)]);
}

#[test]
fn line_draw_diagonal() {
    let mut fb: Vec<u32> = vec![0; 9];
    let color = Color::red();
    draw(0, 0, 2, 2, color, &mut fb, 3);
    let c = Color::red().bgra();
    let expected = vec![c, 0, 0, 0, c, 0, 0, 0, c];
    assert_eq!(fb, expected);
}

#[test]
fn line_draw_matches_iterator() {
    let width: usize = 40;
    let mut fb: Vec<u32> = vec![0; width * 40];
    let color = Color::green();
    draw(1, 3, 33, 17, color, &mut fb, width);
    let mut expected: Vec<u32> = vec![0; width * 40];
    for (x, y) in collect_points(LineIterator::new(1, 3, 33, 17)) {
        expected[x + y * width] = color.bgra();
    }
    assert_eq!(fb, expected);
}
