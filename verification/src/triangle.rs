//! Triangle rasterization: bounding-box traversal with an exact interior
//! test.
//!
//! Coordinates are integers, so every tolerance of the interior test can be
//! decided exactly: the epsilon-widened bounding box admits exactly the
//! integer points of the plain bounding box, a squared point distance is
//! within epsilon squared only when it is zero, and the squared distance
//! from a point to an edge segment, `cross^2 / len2`, is within epsilon
//! squared exactly when `10000 * cross^2 <= len2`. The barycentric sign
//! test divides only to take signs, which integer products decide.

use vstd::prelude::*;
use crate::color::Color;
use crate::common;
use crate::line;
use crate::line::LineIterator;

verus! {

/// Vertex coordinates are kept at or below this bound so that the squared
/// products of the interior test fit the machine integers.
pub const MAX_TRI_COORD: u32 = 0x100000;

/// An integer point of the screen plane.
#[derive(Debug, Copy, Clone)]
pub struct Point {
    pub x: u32,
    pub y: u32,
}

impl Point {
    pub fn new(x: u32, y: u32) -> (p: Point)
        ensures
            p.x == x,
            p.y == y,
    {
        Point { x, y }
    }

    /// The point as a pair of mathematical integers.
    pub open spec fn view(self) -> (int, int) {
        (self.x as int, self.y as int)
    }
}

pub open spec fn min3(a: int, b: int, c: int) -> int {
    if a <= b && a <= c {
        a
    } else if b <= c {
        b
    } else {
        c
    }
}

pub open spec fn max3(a: int, b: int, c: int) -> int {
    if a >= b && a >= c {
        a
    } else if b >= c {
        b
    } else {
        c
    }
}

/// Twice the signed area of the triangle; zero exactly for degenerate
/// triangles.
pub open spec fn tri_uz(a: (int, int), b: (int, int), c: (int, int)) -> int {
    (c.0 - a.0) * (b.1 - a.1) - (b.0 - a.0) * (c.1 - a.1)
}

/// Whether a quotient with this numerator and denominator is strictly
/// positive.
pub open spec fn ratio_pos(num: int, den: int) -> bool {
    (num > 0 && den > 0) || (num < 0 && den < 0)
}

/// The barycentric sign test: all three barycentric coordinates of the
/// point with respect to the triangle are strictly positive, and the
/// triangle is not degenerate.
pub open spec fn spec_naive_point_in_triangle(
    p: (int, int),
    a: (int, int),
    b: (int, int),
    c: (int, int),
) -> bool {
    let uz = tri_uz(a, b, c);
    let ux = (b.0 - a.0) * (a.1 - p.1) - (a.0 - p.0) * (b.1 - a.1);
    let uy = (a.0 - p.0) * (c.1 - a.1) - (c.0 - a.0) * (a.1 - p.1);
    &&& uz != 0
    &&& ratio_pos(uz - ux - uy, uz)
    &&& ratio_pos(uy, uz)
    &&& ratio_pos(ux, uz)
}

/// Whether the point lies in the bounding box of the triangle. The box is
/// widened by an epsilon below one, which admits no further integer points.
pub open spec fn spec_in_bounding_box(
    p: (int, int),
    a: (int, int),
    b: (int, int),
    c: (int, int),
) -> bool {
    &&& min3(a.0, b.0, c.0) <= p.0 <= max3(a.0, b.0, c.0)
    &&& min3(a.1, b.1, c.1) <= p.1 <= max3(a.1, b.1, c.1)
}

/// Whether the squared distance from the point to the segment from `s` to
/// `t` is at most epsilon squared, 1/10000. For an integer point and
/// integer endpoints the distance to the nearer endpoint is within the
/// tolerance only when it is zero; between the endpoints the squared
/// distance is `cross^2 / len2`.
pub open spec fn spec_near_segment(p: (int, int), s: (int, int), t: (int, int)) -> bool {
    let len2 = (t.0 - s.0) * (t.0 - s.0) + (t.1 - s.1) * (t.1 - s.1);
    let dot = (p.0 - s.0) * (t.0 - s.0) + (p.1 - s.1) * (t.1 - s.1);
    let cross = (p.0 - s.0) * (t.1 - s.1) - (p.1 - s.1) * (t.0 - s.0);
    if len2 == 0 {
        (p.0 - t.0) * (p.0 - t.0) + (p.1 - t.1) * (p.1 - t.1) == 0
    } else if dot < 0 {
        (p.0 - s.0) * (p.0 - s.0) + (p.1 - s.1) * (p.1 - s.1) == 0
    } else if dot <= len2 {
        10000 * cross * cross <= len2
    } else {
        (p.0 - t.0) * (p.0 - t.0) + (p.1 - t.1) * (p.1 - t.1) == 0
    }
}

/// The two-tier interior test: bounding-box reject, then the barycentric
/// sign test, then the edge-distance fallback that closes the holes on
/// shared edges.
pub open spec fn spec_point_in_triangle(
    p: (int, int),
    a: (int, int),
    b: (int, int),
    c: (int, int),
) -> bool {
    &&& spec_in_bounding_box(p, a, b, c)
    &&& {
        ||| spec_naive_point_in_triangle(p, a, b, c)
        ||| spec_near_segment(p, a, b)
        ||| spec_near_segment(p, b, c)
        ||| spec_near_segment(p, c, a)
    }
}

/// `-(m*n) <= a*b <= m*n` whenever `a` and `b` are bounded by `m` and `n`.
proof fn lemma_mul_bounds(a: int, b: int, m: int, n: int)
    requires
        -m <= a <= m,
        -n <= b <= n,
        0 <= m,
        0 <= n,
    ensures
        -(m * n) <= a * b <= m * n,
{
    assert(-(m * n) <= a * b <= m * n) by (nonlinear_arith)
        requires
            -m <= a <= m,
            -n <= b <= n,
            0 <= m,
            0 <= n,
    ;
}

/// A sum of two squares is non-negative, and zero exactly when both sides
/// are zero.
proof fn lemma_sum_sq_zero(x: int, y: int)
    ensures
        x * x + y * y >= 0,
        (x * x + y * y == 0) <==> (x == 0 && y == 0),
{
    assert(x * x >= 0 && y * y >= 0 && (x * x == 0 <==> x == 0) && (y * y == 0 <==> y == 0))
        by (nonlinear_arith);
}

/// Both endpoints of a non-degenerate segment pass the edge-distance test
/// for their own segment: their distance to it is zero.
proof fn lemma_endpoints_near_segment(s: (int, int), t: (int, int))
    requires
        (t.0 - s.0) * (t.0 - s.0) + (t.1 - s.1) * (t.1 - s.1) != 0,
    ensures
        spec_near_segment(s, s, t),
        spec_near_segment(t, s, t),
{
    let dx = t.0 - s.0;
    let dy = t.1 - s.1;
    lemma_sum_sq_zero(dx, dy);
    let len2 = dx * dx + dy * dy;
    // The first endpoint: the projection parameter and the cross product
    // are both zero.
    assert((s.0 - s.0) * dx + (s.1 - s.1) * dy == 0 && (s.0 - s.0) * dy - (s.1 - s.1) * dx == 0)
        by (nonlinear_arith);
    assert(10000 * ((s.0 - s.0) * dy - (s.1 - s.1) * dx) * ((s.0 - s.0) * dy - (s.1 - s.1) * dx)
        == 0) by (nonlinear_arith)
        requires
            (s.0 - s.0) * dy - (s.1 - s.1) * dx == 0,
    ;
    // The second endpoint: the projection parameter equals len2 and the
    // cross product cancels.
    assert((t.0 - s.0) * dx + (t.1 - s.1) * dy == len2 && (t.0 - s.0) * dy - (t.1 - s.1) * dx
        == 0) by (nonlinear_arith)
        requires
            len2 == dx * dx + dy * dy,
            dx == t.0 - s.0,
            dy == t.1 - s.1,
    ;
    assert(10000 * ((t.0 - s.0) * dy - (t.1 - s.1) * dx) * ((t.0 - s.0) * dy - (t.1 - s.1) * dx)
        == 0) by (nonlinear_arith)
        requires
            (t.0 - s.0) * dy - (t.1 - s.1) * dx == 0,
    ;
}

/// A non-degenerate triangle has no zero-length edge from its first to its
/// second vertex nor from its second to its third.
proof fn lemma_nondegenerate_edges(a: (int, int), b: (int, int), c: (int, int))
    requires
        tri_uz(a, b, c) != 0,
    ensures
        (b.0 - a.0) * (b.0 - a.0) + (b.1 - a.1) * (b.1 - a.1) != 0,
        (c.0 - b.0) * (c.0 - b.0) + (c.1 - b.1) * (c.1 - b.1) != 0,
{
    lemma_sum_sq_zero(b.0 - a.0, b.1 - a.1);
    lemma_sum_sq_zero(c.0 - b.0, c.1 - b.1);
    if b.0 == a.0 && b.1 == a.1 {
        assert((c.0 - a.0) * (b.1 - a.1) - (b.0 - a.0) * (c.1 - a.1) == 0) by (nonlinear_arith)
            requires
                b.1 - a.1 == 0,
                b.0 - a.0 == 0,
        ;
    }
    if c.0 == b.0 && c.1 == b.1 {
        assert((c.0 - a.0) * (b.1 - a.1) - (b.0 - a.0) * (c.1 - a.1) == 0) by (nonlinear_arith)
            requires
                c.0 == b.0,
                c.1 == b.1,
        ;
    }
}

/// Every vertex of a non-degenerate triangle is accepted by the interior
/// test: the vertex lies on an edge, so the edge-distance fallback admits
/// it.
pub proof fn lemma_vertices_in_triangle(a: (int, int), b: (int, int), c: (int, int))
    requires
        tri_uz(a, b, c) != 0,
    ensures
        spec_point_in_triangle(a, a, b, c),
        spec_point_in_triangle(b, a, b, c),
        spec_point_in_triangle(c, a, b, c),
{
    lemma_nondegenerate_edges(a, b, c);
    lemma_endpoints_near_segment(a, b);
    lemma_endpoints_near_segment(b, c);
}

/// A point outside the bounding box of the triangle is rejected by the
/// interior test.
pub proof fn lemma_outside_bounding_box(
    p: (int, int),
    a: (int, int),
    b: (int, int),
    c: (int, int),
)
    requires
        !spec_in_bounding_box(p, a, b, c),
    ensures
        !spec_point_in_triangle(p, a, b, c),
{
}

/// Returns bounding box as tuple `(min_x, min_y, max_x, max_y)`.
fn bounding_box(positions: &Vec<Point>) -> (r: (u32, u32, u32, u32))
    requires
        positions.len() == 3,
    ensures
        r.0 == min3(positions[0].x as int, positions[1].x as int, positions[2].x as int),
        r.1 == min3(positions[0].y as int, positions[1].y as int, positions[2].y as int),
        r.2 == max3(positions[0].x as int, positions[1].x as int, positions[2].x as int),
        r.3 == max3(positions[0].y as int, positions[1].y as int, positions[2].y as int),
{
    let mut min_x: u32 = positions[0].x;
    let mut min_y: u32 = positions[0].y;
    let mut max_x: u32 = positions[0].x;
    let mut max_y: u32 = positions[0].y;
    if positions[1].x < min_x {
        min_x = positions[1].x;
    }
    if positions[2].x < min_x {
        min_x = positions[2].x;
    }
    if positions[1].y < min_y {
        min_y = positions[1].y;
    }
    if positions[2].y < min_y {
        min_y = positions[2].y;
    }
    if positions[1].x > max_x {
        max_x = positions[1].x;
    }
    if positions[2].x > max_x {
        max_x = positions[2].x;
    }
    if positions[1].y > max_y {
        max_y = positions[1].y;
    }
    if positions[2].y > max_y {
        max_y = positions[2].y;
    }
    (min_x, min_y, max_x, max_y)
}

/// The barycentric sign test of the interior check. The three barycentric
/// ratios are compared against zero through the signs of their integer
/// numerators and denominator.
fn naive_point_in_triangle(point: (usize, usize), triangle: &Vec<Point>) -> (r: bool)
    requires
        triangle.len() == 3,
        forall|i: int| 0 <= i < 3 ==> triangle[i].x <= MAX_TRI_COORD && triangle[i].y <= MAX_TRI_COORD,
        point.0 <= MAX_TRI_COORD,
        point.1 <= MAX_TRI_COORD,
    ensures
        r == spec_naive_point_in_triangle(
            (point.0 as int, point.1 as int),
            triangle[0]@,
            triangle[1]@,
            triangle[2]@,
        ),
{
    let ax: i64 = triangle[0].x as i64;
    let ay: i64 = triangle[0].y as i64;
    let bx: i64 = triangle[1].x as i64;
    let by: i64 = triangle[1].y as i64;
    let cx: i64 = triangle[2].x as i64;
    let cy: i64 = triangle[2].y as i64;
    let px: i64 = point.0 as i64;
    let py: i64 = point.1 as i64;

    proof {
        let m = MAX_TRI_COORD as int;
        lemma_mul_bounds(cx - ax, by - ay, m, m);
        lemma_mul_bounds(bx - ax, cy - ay, m, m);
        lemma_mul_bounds(bx - ax, ay - py, m, m);
        lemma_mul_bounds(ax - px, by - ay, m, m);
        lemma_mul_bounds(ax - px, cy - ay, m, m);
        lemma_mul_bounds(cx - ax, ay - py, m, m);
    }
    let uz: i64 = (cx - ax) * (by - ay) - (bx - ax) * (cy - ay);
    let ux: i64 = (bx - ax) * (ay - py) - (ax - px) * (by - ay);
    let uy: i64 = (ax - px) * (cy - ay) - (cx - ax) * (ay - py);

    if uz == 0 {
        return false;
    }

    let rx_num: i64 = uz - ux - uy;
    ((rx_num > 0 && uz > 0) || (rx_num < 0 && uz < 0)) && ((uy > 0 && uz > 0) || (uy < 0 && uz
        < 0)) && ((ux > 0 && uz > 0) || (ux < 0 && uz < 0))
}

/// The bounding-box tier of the interior test. The epsilon-widened box of
/// the floating-point formulation admits exactly the integer points of the
/// plain box.
fn point_in_triangle_bounding_box(point: (usize, usize), triangle: &Vec<Point>) -> (r: bool)
    requires
        triangle.len() == 3,
    ensures
        r == spec_in_bounding_box(
            (point.0 as int, point.1 as int),
            triangle[0]@,
            triangle[1]@,
            triangle[2]@,
        ),
{
    let (min_x, min_y, max_x, max_y) = bounding_box(triangle);
    let x_ok: bool = min_x as usize <= point.0 && point.0 <= max_x as usize;
    let y_ok: bool = min_y as usize <= point.1 && point.1 <= max_y as usize;
    x_ok && y_ok
}

/// Whether the squared distance from the point to the segment is at most
/// epsilon squared; decided exactly in integers.
fn near_segment(px: i64, py: i64, sx: i64, sy: i64, tx: i64, ty: i64) -> (r: bool)
    requires
        0 <= px <= MAX_TRI_COORD,
        0 <= py <= MAX_TRI_COORD,
        0 <= sx <= MAX_TRI_COORD,
        0 <= sy <= MAX_TRI_COORD,
        0 <= tx <= MAX_TRI_COORD,
        0 <= ty <= MAX_TRI_COORD,
    ensures
        r == spec_near_segment((px as int, py as int), (sx as int, sy as int), (tx as int, ty as int)),
{
    proof {
        let m = MAX_TRI_COORD as int;
        lemma_mul_bounds(tx - sx, tx - sx, m, m);
        lemma_mul_bounds(ty - sy, ty - sy, m, m);
        lemma_mul_bounds(px - sx, tx - sx, m, m);
        lemma_mul_bounds(py - sy, ty - sy, m, m);
        lemma_mul_bounds(px - sx, ty - sy, m, m);
        lemma_mul_bounds(py - sy, tx - sx, m, m);
        lemma_mul_bounds(px - sx, px - sx, m, m);
        lemma_mul_bounds(py - sy, py - sy, m, m);
        lemma_mul_bounds(px - tx, px - tx, m, m);
        lemma_mul_bounds(py - ty, py - ty, m, m);
    }
    let len2: i64 = (tx - sx) * (tx - sx) + (ty - sy) * (ty - sy);
    if len2 == 0 {
        return (px - tx) * (px - tx) + (py - ty) * (py - ty) == 0;
    }
    let dot: i64 = (px - sx) * (tx - sx) + (py - sy) * (ty - sy);
    if dot < 0 {
        return (px - sx) * (px - sx) + (py - sy) * (py - sy) == 0;
    }
    if dot <= len2 {
        let cross: i128 = ((px - sx) * (ty - sy) - (py - sy) * (tx - sx)) as i128;
        proof {
            lemma_mul_bounds(cross as int, cross as int, 0x400000000000, 0x400000000000);
            assert(10000 * ((cross as int) * (cross as int)) == 10000 * (cross as int) * (cross
                as int)) by (nonlinear_arith);
        }
        return 10000 * (cross * cross) <= len2 as i128;
    }
    (px - tx) * (px - tx) + (py - ty) * (py - ty) == 0
}

/// The full interior test: bounding-box reject, barycentric sign test, and
/// the edge-distance fallback.
pub fn point_in_triangle(point: (usize, usize), triangle: &Vec<Point>) -> (r: bool)
    requires
        triangle.len() == 3,
        forall|i: int| 0 <= i < 3 ==> triangle[i].x <= MAX_TRI_COORD && triangle[i].y <= MAX_TRI_COORD,
        point.0 <= MAX_TRI_COORD,
        point.1 <= MAX_TRI_COORD,
    ensures
        r == spec_point_in_triangle(
            (point.0 as int, point.1 as int),
            triangle[0]@,
            triangle[1]@,
            triangle[2]@,
        ),
{
    if !point_in_triangle_bounding_box(point, triangle) {
        return false;
    }
    if naive_point_in_triangle(point, triangle) {
        return true;
    }
    let px: i64 = point.0 as i64;
    let py: i64 = point.1 as i64;
    let ax: i64 = triangle[0].x as i64;
    let ay: i64 = triangle[0].y as i64;
    let bx: i64 = triangle[1].x as i64;
    let by: i64 = triangle[1].y as i64;
    let cx: i64 = triangle[2].x as i64;
    let cy: i64 = triangle[2].y as i64;
    if near_segment(px, py, ax, ay, bx, by) {
        return true;
    }
    if near_segment(px, py, bx, by, cx, cy) {
        return true;
    }
    if near_segment(px, py, cx, cy, ax, ay) {
        return true;
    }
    false
}

/// Whether some interior point of the triangle lands on buffer index `i`,
/// for a row-major buffer of the given width.
pub open spec fn tri_covers(
    a: (int, int),
    b: (int, int),
    c: (int, int),
    width: int,
    i: int,
) -> bool {
    exists|x: int, y: int|
        #[trigger] spec_point_in_triangle((x, y), a, b, c) && x + y * width == i
}

/// Whether some interior point on a row below `ylim` lands on buffer index
/// `i`.
pub open spec fn tri_covers_below(
    a: (int, int),
    b: (int, int),
    c: (int, int),
    width: int,
    ylim: int,
    i: int,
) -> bool {
    exists|x: int, y: int|
        #[trigger] spec_point_in_triangle((x, y), a, b, c) && y < ylim && x + y * width == i
}

/// Whether an interior point of row `y` among the first `n` columns of the
/// bounding box lands on buffer index `i`.
pub open spec fn tri_covers_row_upto(
    a: (int, int),
    b: (int, int),
    c: (int, int),
    width: int,
    y: int,
    n: int,
    i: int,
) -> bool {
    exists|x: int|
        min3(a.0, b.0, c.0) <= x < min3(a.0, b.0, c.0) + n && #[trigger] spec_point_in_triangle(
            (x, y),
            a,
            b,
            c,
        ) && x + y * width == i
}

/// Draw triangle from given vertex positions.
///
/// Writes the packed color of every interior point of the triangle into
/// the row-major buffer and leaves every other cell unchanged.
pub fn draw(triangle: &Vec<Point>, color: Color, buffer: &mut Vec<u32>, buffer_width: usize)
    requires
        triangle.len() == 3,
        forall|i: int|
            0 <= i < 3 ==> triangle[i].x <= MAX_TRI_COORD && triangle[i].y <= MAX_TRI_COORD,
        max3(triangle[0].x as int, triangle[1].x as int, triangle[2].x as int) + max3(
            triangle[0].y as int,
            triangle[1].y as int,
            triangle[2].y as int,
        ) * buffer_width < old(buffer).len(),
    ensures
        final(buffer).len() == old(buffer).len(),
        forall|x: int, y: int|
            #[trigger] spec_point_in_triangle((x, y), triangle[0]@, triangle[1]@, triangle[2]@)
                ==> {
                &&& 0 <= x + y * buffer_width < final(buffer).len()
                &&& final(buffer)[x + y * buffer_width] == crate::utils::spec_tup8_to_32(
                    (color.a, color.r, color.g, color.b),
                )
            },
        forall|i: int|
            0 <= i < old(buffer).len() && !tri_covers(
                triangle[0]@,
                triangle[1]@,
                triangle[2]@,
                buffer_width as int,
                i,
            ) ==> final(buffer)[i] == old(buffer)[i],
{
    let ghost a = triangle[0]@;
    let ghost b = triangle[1]@;
    let ghost c = triangle[2]@;
    let ghost w = buffer_width as int;
    let (bb_min_x, bb_min_y, bb_max_x, bb_max_y) = bounding_box(triangle);
    let ghost minx = bb_min_x as int;
    let ghost maxx = bb_max_x as int;
    let ghost miny = bb_min_y as int;
    let ghost maxy = bb_max_y as int;
    let cval: u32 = color.bgra();
    let mut y: u32 = bb_min_y;

    while y <= bb_max_y
        invariant
            triangle.len() == 3,
            a == triangle[0]@ && b == triangle[1]@ && c == triangle[2]@,
            forall|i: int|
                0 <= i < 3 ==> triangle[i].x <= MAX_TRI_COORD && triangle[i].y <= MAX_TRI_COORD,
            minx == min3(a.0, b.0, c.0),
            maxx == max3(a.0, b.0, c.0),
            miny == min3(a.1, b.1, c.1),
            maxy == max3(a.1, b.1, c.1),
            w == buffer_width as int,
            maxx + maxy * w < buffer.len(),
            bb_min_x == minx && bb_max_x == maxx && bb_max_y == maxy,
            miny <= y <= maxy + 1,
            buffer.len() == old(buffer).len(),
            cval == crate::utils::spec_tup8_to_32((color.a, color.r, color.g, color.b)),
            forall|px: int, py: int|
                #[trigger] spec_point_in_triangle((px, py), a, b, c) && py < y ==> {
                    &&& 0 <= px + py * w < buffer.len()
                    &&& buffer[px + py * w] == cval
                },
            forall|i: int|
                0 <= i < buffer.len() && !tri_covers_below(a, b, c, w, y as int, i)
                    ==> buffer[i] == old(buffer)[i],
        decreases maxy + 1 - y,
    {
        let ghost gy = y as int;
        let mut it = LineIterator::new(bb_min_x, y, bb_max_x, y);
        proof {
            line::lemma_horizontal_line(minx, maxx, gy, 0);
        }
        loop
            invariant
                it.wf(),
                it.origin() == (minx, gy, maxx, gy),
                0 <= it.emitted() <= maxx - minx + 1,
                it.pts().len() == maxx - minx + 1,
                triangle.len() == 3,
                a == triangle[0]@ && b == triangle[1]@ && c == triangle[2]@,
                forall|i: int|
                    0 <= i < 3 ==> triangle[i].x <= MAX_TRI_COORD && triangle[i].y
                        <= MAX_TRI_COORD,
                minx == min3(a.0, b.0, c.0),
                maxx == max3(a.0, b.0, c.0),
                miny == min3(a.1, b.1, c.1),
                maxy == max3(a.1, b.1, c.1),
                w == buffer_width as int,
                maxx + maxy * w < buffer.len(),
                miny <= gy <= maxy,
                0 <= minx <= maxx <= MAX_TRI_COORD,
                0 <= gy <= MAX_TRI_COORD,
                buffer.len() == old(buffer).len(),
                cval == crate::utils::spec_tup8_to_32((color.a, color.r, color.g, color.b)),
                forall|px: int, py: int|
                    #[trigger] spec_point_in_triangle((px, py), a, b, c) && py < gy ==> {
                        &&& 0 <= px + py * w < buffer.len()
                        &&& buffer[px + py * w] == cval
                    },
                forall|px: int|
                    minx <= px < minx + it.emitted() && #[trigger] spec_point_in_triangle(
                        (px, gy),
                        a,
                        b,
                        c,
                    ) ==> {
                        &&& 0 <= px + gy * w < buffer.len()
                        &&& buffer[px + gy * w] == cval
                    },
                forall|i: int|
                    0 <= i < buffer.len() && !tri_covers_below(a, b, c, w, gy, i)
                        && !tri_covers_row_upto(a, b, c, w, gy, it.emitted(), i) ==> buffer[i]
                        == old(buffer)[i],
            ensures
                it.emitted() == maxx - minx + 1,
                buffer.len() == old(buffer).len(),
                forall|px: int, py: int|
                    #[trigger] spec_point_in_triangle((px, py), a, b, c) && py < gy ==> {
                        &&& 0 <= px + py * w < buffer.len()
                        &&& buffer[px + py * w] == cval
                    },
                forall|px: int|
                    minx <= px < minx + (maxx - minx + 1) && #[trigger] spec_point_in_triangle(
                        (px, gy),
                        a,
                        b,
                        c,
                    ) ==> {
                        &&& 0 <= px + gy * w < buffer.len()
                        &&& buffer[px + gy * w] == cval
                    },
                forall|i: int|
                    0 <= i < buffer.len() && !tri_covers_below(a, b, c, w, gy, i)
                        && !tri_covers_row_upto(a, b, c, w, gy, maxx - minx + 1, i) ==> buffer[i]
                        == old(buffer)[i],
            decreases maxx - minx + 1 - it.emitted(),
        {
            let ghost n = it.emitted();
            match it.next() {
                Some(p) => {
                    proof {
                        line::lemma_horizontal_line(minx, maxx, gy, n);
                    }
                    if point_in_triangle(p, triangle) {
                        proof {
                            vstd::arithmetic::mul::lemma_mul_inequality(gy, maxy, w);
                        }
                        let idx: usize = common::xy(p.0, p.1, buffer_width);
                        buffer[idx] = cval;
                        proof {
                            assert(spec_point_in_triangle((minx + n, gy), a, b, c) && minx <= minx
                                + n < minx + n + 1 && (minx + n) + gy * w == idx as int);
                            assert(tri_covers_row_upto(a, b, c, w, gy, n + 1, idx as int));
                        }
                    }
                    proof {
                        assert forall|i: int|
                            0 <= i < buffer.len() && !tri_covers_below(a, b, c, w, gy, i)
                                && !tri_covers_row_upto(a, b, c, w, gy, it.emitted(), i) implies
                            buffer[i] == old(buffer)[i] by {
                            assert(!tri_covers_row_upto(a, b, c, w, gy, n, i));
                        }
                    }
                },
                None => {
                    break ;
                },
            }
        }
        proof {
            // A full row is out: coverage below gy + 1 is coverage below gy
            // plus the whole row, because the bounding box pins the x range
            // of any interior point of the row.
            assert forall|i: int|
                0 <= i < buffer.len() && !tri_covers_below(a, b, c, w, gy + 1, i) implies buffer[i]
                == old(buffer)[i] by {
                if tri_covers_row_upto(a, b, c, w, gy, maxx - minx + 1, i) {
                    let x = choose|x: int|
                        minx <= x < minx + (maxx - minx + 1) && #[trigger] spec_point_in_triangle(
                            (x, gy),
                            a,
                            b,
                            c,
                        ) && x + gy * w == i;
                    assert(spec_point_in_triangle((x, gy), a, b, c) && gy < gy + 1 && x + gy * w
                        == i);
                }
                if tri_covers_below(a, b, c, w, gy, i) {
                    let (x, py) = choose|x: int, py: int|
                        #[trigger] spec_point_in_triangle((x, py), a, b, c) && py < gy && x + py
                            * w == i;
                    assert(spec_point_in_triangle((x, py), a, b, c) && py < gy + 1 && x + py * w
                        == i);
                }
            }
        }
        y = y + 1;
    }

    proof {
        assert forall|x: int, py: int|
            #[trigger] spec_point_in_triangle((x, py), a, b, c) implies {
            &&& 0 <= x + py * w < buffer.len()
            &&& buffer[x + py * w] == cval
        } by {
            assert(py <= maxy);
            assert(py < y as int);
        }
        assert forall|i: int|
            0 <= i < buffer.len() && !tri_covers(a, b, c, w, i) implies buffer[i] == old(
            buffer,
        )[i] by {
            if tri_covers_below(a, b, c, w, y as int, i) {
                let (x, py) = choose|x: int, py: int|
                    #[trigger] spec_point_in_triangle((x, py), a, b, c) && py < y as int && x + py
                        * w == i;
                assert(tri_covers(a, b, c, w, i));
            }
        }
    }
}

/// The interior points of row `y` among the first `n` columns of the
/// bounding box, in increasing x order.
pub open spec fn scanline_upto(
    a: (int, int),
    b: (int, int),
    c: (int, int),
    y: int,
    n: int,
) -> Seq<(int, int)>
    decreases n,
{
    if n <= 0 {
        Seq::empty()
    } else {
        let x = min3(a.0, b.0, c.0) + n - 1;
        if spec_point_in_triangle((x, y), a, b, c) {
            scanline_upto(a, b, c, y, n - 1).push((x, y))
        } else {
            scanline_upto(a, b, c, y, n - 1)
        }
    }
}

/// The whole scanline of row `y`: the interior points of that row of the
/// bounding box, in increasing x order.
pub open spec fn scanline(a: (int, int), b: (int, int), c: (int, int), y: int) -> Seq<(int, int)> {
    scanline_upto(a, b, c, y, max3(a.0, b.0, c.0) - min3(a.0, b.0, c.0) + 1)
}

/// A scanline holds exactly the interior points of its row: a point is in
/// the scanline of row `y` precisely when its y is `y`, its x is within the
/// bounding box columns, and the interior test accepts it.
pub proof fn lemma_scanline_membership(
    a: (int, int),
    b: (int, int),
    c: (int, int),
    y: int,
    q: (int, int),
)
    ensures
        scanline(a, b, c, y).contains(q) <==> {
            &&& q.1 == y
            &&& min3(a.0, b.0, c.0) <= q.0 <= max3(a.0, b.0, c.0)
            &&& spec_point_in_triangle(q, a, b, c)
        },
{
    lemma_scanline_upto_membership(a, b, c, y, max3(a.0, b.0, c.0) - min3(a.0, b.0, c.0) + 1, q);
}

proof fn lemma_scanline_upto_membership(
    a: (int, int),
    b: (int, int),
    c: (int, int),
    y: int,
    n: int,
    q: (int, int),
)
    ensures
        scanline_upto(a, b, c, y, n).contains(q) <==> {
            &&& q.1 == y
            &&& min3(a.0, b.0, c.0) <= q.0 < min3(a.0, b.0, c.0) + n
            &&& spec_point_in_triangle(q, a, b, c)
        },
    decreases n,
{
    broadcast use vstd::seq_lib::lemma_seq_contains_after_push;

    if n <= 0 {
        assert(!scanline_upto(a, b, c, y, n).contains(q));
    } else {
        lemma_scanline_upto_membership(a, b, c, y, n - 1, q);
        let x = min3(a.0, b.0, c.0) + n - 1;
        if !spec_point_in_triangle((x, y), a, b, c) {
            assert(scanline_upto(a, b, c, y, n) == scanline_upto(a, b, c, y, n - 1));
        }
    }
}

/// Lazy per-scanline traversal of a triangle: each call to `next` yields
/// the interior points of one row of the bounding box, from the lowest row
/// to the highest.
pub struct TriangleIterator {
    bb_min_x: u32,
    bb_max_x: u32,
    bb_max_y: u32,
    t0: Point,
    t1: Point,
    t2: Point,
    y: u32,
}

impl TriangleIterator {
    /// The triangle being traversed.
    pub closed spec fn tri(self) -> ((int, int), (int, int), (int, int)) {
        (self.t0@, self.t1@, self.t2@)
    }

    /// The row the next call will produce.
    pub closed spec fn row(self) -> int {
        self.y as int
    }

    pub closed spec fn wf(self) -> bool {
        &&& self.t0.x <= MAX_TRI_COORD && self.t0.y <= MAX_TRI_COORD
        &&& self.t1.x <= MAX_TRI_COORD && self.t1.y <= MAX_TRI_COORD
        &&& self.t2.x <= MAX_TRI_COORD && self.t2.y <= MAX_TRI_COORD
        &&& self.bb_min_x == min3(self.t0.x as int, self.t1.x as int, self.t2.x as int)
        &&& self.bb_max_x == max3(self.t0.x as int, self.t1.x as int, self.t2.x as int)
        &&& self.bb_max_y == max3(self.t0.y as int, self.t1.y as int, self.t2.y as int)
        &&& self.y <= self.bb_max_y + 1
    }

    pub fn new(triangle: &Vec<Point>) -> (it: TriangleIterator)
        requires
            triangle.len() == 3,
            forall|i: int|
                0 <= i < 3 ==> triangle[i].x <= MAX_TRI_COORD && triangle[i].y <= MAX_TRI_COORD,
        ensures
            it.wf(),
            it.tri() == (triangle[0]@, triangle[1]@, triangle[2]@),
            it.row() == min3(triangle[0].y as int, triangle[1].y as int, triangle[2].y as int),
    {
        let (bb_min_x, bb_min_y, bb_max_x, bb_max_y) = bounding_box(triangle);
        TriangleIterator {
            bb_min_x,
            bb_max_x,
            bb_max_y,
            t0: triangle[0],
            t1: triangle[1],
            t2: triangle[2],
            y: bb_min_y,
        }
    }

    /// Produce the interior points of the current row and move one row
    /// down, or `None` once every row of the bounding box is out.
    pub fn next(&mut self) -> (r: Option<Vec<(usize, usize)>>)
        requires
            old(self).wf(),
        ensures
            final(self).wf(),
            final(self).tri() == old(self).tri(),
            old(self).row() > max3(
                old(self).tri().0.1,
                old(self).tri().1.1,
                old(self).tri().2.1,
            ) ==> {
                &&& r is None
                &&& *final(self) == *old(self)
            },
            old(self).row() <= max3(
                old(self).tri().0.1,
                old(self).tri().1.1,
                old(self).tri().2.1,
            ) ==> {
                &&& final(self).row() == old(self).row() + 1
                &&& r matches Some(row) && ({
                    let s = scanline(
                        old(self).tri().0,
                        old(self).tri().1,
                        old(self).tri().2,
                        old(self).row(),
                    );
                    &&& row@.len() == s.len()
                    &&& forall|j: int|
                        0 <= j < s.len() ==> row@[j].0 == s[j].0 && row@[j].1 == s[j].1
                })
            },
    {
        let ghost a = self.t0@;
        let ghost b = self.t1@;
        let ghost c = self.t2@;
        if self.y > self.bb_max_y {
            return None;
        }
        let y: u32 = self.y;
        let ghost gy = y as int;
        let ghost minx = self.bb_min_x as int;
        let ghost maxx = self.bb_max_x as int;
        let triangle_vec: Vec<Point> = vec![self.t0, self.t1, self.t2];
        let mut row: Vec<(usize, usize)> = Vec::new();
        let mut it = LineIterator::new(self.bb_min_x, y, self.bb_max_x, y);
        proof {
            line::lemma_horizontal_line(minx, maxx, gy, 0);
        }
        loop
            invariant
                it.wf(),
                it.origin() == (minx, gy, maxx, gy),
                0 <= it.emitted() <= maxx - minx + 1,
                it.pts().len() == maxx - minx + 1,
                triangle_vec.len() == 3,
                triangle_vec[0] == self.t0 && triangle_vec[1] == self.t1 && triangle_vec[2]
                    == self.t2,
                self.t0@ == a && self.t1@ == b && self.t2@ == c,
                self.t0.x <= MAX_TRI_COORD && self.t0.y <= MAX_TRI_COORD,
                self.t1.x <= MAX_TRI_COORD && self.t1.y <= MAX_TRI_COORD,
                self.t2.x <= MAX_TRI_COORD && self.t2.y <= MAX_TRI_COORD,
                minx == min3(a.0, b.0, c.0),
                maxx == max3(a.0, b.0, c.0),
                0 <= minx <= maxx <= MAX_TRI_COORD,
                0 <= gy <= MAX_TRI_COORD,
                ({
                    let s = scanline_upto(a, b, c, gy, it.emitted());
                    &&& row@.len() == s.len()
                    &&& forall|j: int|
                        0 <= j < s.len() ==> row@[j].0 == s[j].0 && row@[j].1 == s[j].1
                }),
            ensures
                it.emitted() == maxx - minx + 1,
                self.t0@ == a && self.t1@ == b && self.t2@ == c,
                ({
                    let s = scanline_upto(a, b, c, gy, maxx - minx + 1);
                    &&& row@.len() == s.len()
                    &&& forall|j: int|
                        0 <= j < s.len() ==> row@[j].0 == s[j].0 && row@[j].1 == s[j].1
                }),
            decreases maxx - minx + 1 - it.emitted(),
        {
            let ghost n = it.emitted();
            match it.next() {
                Some(p) => {
                    proof {
                        line::lemma_horizontal_line(minx, maxx, gy, n);
                    }
                    if point_in_triangle(p, &triangle_vec) {
                        row.push(p);
                    }
                },
                None => {
                    break ;
                },
            }
        }
        self.y = y + 1;
        Some(row)
    }
}

} // verus!
