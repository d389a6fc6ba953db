//! Line creation module.
//!
//! Integer Bresenham lines with octant normalization. The points of a line
//! are pinned down by the spec functions below: `line_seq` gives the whole
//! finite sequence of points for a pair of endpoints, and both the drawing
//! routine and the pull-style generator are proved to produce exactly that
//! sequence.

use vstd::prelude::*;
use vstd::arithmetic::div_mod::{
    lemma_fundamental_div_mod,
    lemma_fundamental_div_mod_converse_div,
};
use vstd::arithmetic::mul::lemma_mul_inequality;
use crate::color::Color;
use crate::utils;

verus! {

/// Endpoint coordinates are kept below this bound so that every intermediate
/// value of the error accumulator fits an `i32`.
pub const MAX_LINE_COORD: u32 = 0x4000_0000;

pub open spec fn abs_diff(a: int, b: int) -> int {
    if a >= b {
        a - b
    } else {
        b - a
    }
}

/// Step direction along one axis: toward the second coordinate, with ties
/// stepping positive.
pub open spec fn step_dir(from: int, to: int) -> int {
    if from > to {
        -1
    } else {
        1
    }
}

/// A line is steep when it covers more rows than columns; the roles of the
/// axes are then swapped and y becomes the major axis.
pub open spec fn line_steep(x0: int, y0: int, x1: int, y1: int) -> bool {
    abs_diff(y0, y1) > abs_diff(x0, x1)
}

/// Major-axis span: the larger of the two coordinate distances.
pub open spec fn line_d0(x0: int, y0: int, x1: int, y1: int) -> int {
    if line_steep(x0, y0, x1, y1) {
        abs_diff(y0, y1)
    } else {
        abs_diff(x0, x1)
    }
}

/// Minor-axis span: the smaller of the two coordinate distances.
pub open spec fn line_d1(x0: int, y0: int, x1: int, y1: int) -> int {
    if line_steep(x0, y0, x1, y1) {
        abs_diff(x0, x1)
    } else {
        abs_diff(y0, y1)
    }
}

/// How many minor-axis steps the line has taken once the major axis has
/// advanced `k` times: `k * d1 / d0` rounded half up. This closed form is
/// exactly what the error accumulator of the generator computes.
pub open spec fn minor_steps(d0: int, d1: int, k: int) -> int {
    if d0 <= 0 {
        0
    } else {
        (2 * k * d1 + d0) / (2 * d0)
    }
}

/// The `k`-th point of the line from (x0, y0) to (x1, y1), for
/// 0 <= k <= line_d0.
pub open spec fn line_point(x0: int, y0: int, x1: int, y1: int, k: int) -> (int, int) {
    let d0 = line_d0(x0, y0, x1, y1);
    let d1 = line_d1(x0, y0, x1, y1);
    let m = minor_steps(d0, d1, k);
    if line_steep(x0, y0, x1, y1) {
        (x0 + m * step_dir(x0, x1), y0 + k * step_dir(y0, y1))
    } else {
        (x0 + k * step_dir(x0, x1), y0 + m * step_dir(y0, y1))
    }
}

/// The full sequence of points of the line: d0 + 1 points, starting at the
/// first endpoint and ending at the second.
pub open spec fn line_seq(x0: int, y0: int, x1: int, y1: int) -> Seq<(int, int)> {
    Seq::new((line_d0(x0, y0, x1, y1) + 1) as nat, |k: int| line_point(x0, y0, x1, y1, k))
}

/// The buffer index that the `k`-th point of the line writes to, for a
/// row-major buffer of the given width.
pub open spec fn line_index(x0: int, y0: int, x1: int, y1: int, width: int, k: int) -> int {
    line_seq(x0, y0, x1, y1)[k].0 + line_seq(x0, y0, x1, y1)[k].1 * width
}

/// Whether one of the first `n` points of the line lands on buffer index `i`.
pub open spec fn line_covers(
    x0: int,
    y0: int,
    x1: int,
    y1: int,
    width: int,
    n: int,
    i: int,
) -> bool {
    exists|k: int| 0 <= k < n && line_index(x0, y0, x1, y1, width, k) == i
}

/// The characteristic bounds of `minor_steps`: it is the unique integer m
/// with 2*k*d1 - d0 < 2*m*d0 <= 2*k*d1 + d0, it is non-negative, and it never
/// exceeds d1 while k stays within the major span.
proof fn lemma_minor_steps_bounds(d0: int, d1: int, k: int)
    requires
        d0 > 0,
        0 <= d1,
        0 <= k,
    ensures
        2 * k * d1 - d0 < 2 * minor_steps(d0, d1, k) * d0,
        2 * minor_steps(d0, d1, k) * d0 <= 2 * k * d1 + d0,
        0 <= minor_steps(d0, d1, k),
        k <= d0 ==> minor_steps(d0, d1, k) <= d1,
{
    let x = 2 * k * d1 + d0;
    let m = x / (2 * d0);
    lemma_fundamental_div_mod(x, 2 * d0);
    let r = x % (2 * d0);
    assert(x == 2 * d0 * m + r);
    assert(0 <= r < 2 * d0);
    assert(2 * m * d0 == 2 * d0 * m) by (nonlinear_arith);
    assert(2 * k * d1 >= 0) by (nonlinear_arith)
        requires
            k >= 0,
            d1 >= 0,
    ;
    assert(m >= 0) by (nonlinear_arith)
        requires
            2 * d0 * m + r >= d0,
            0 <= r < 2 * d0,
            d0 > 0,
    ;
    if k <= d0 {
        assert(2 * k * d1 <= 2 * d0 * d1) by (nonlinear_arith)
            requires
                0 <= k <= d0,
                0 <= d1,
        ;
        assert(m <= d1) by (nonlinear_arith)
            requires
                2 * d0 * m + r == 2 * k * d1 + d0,
                2 * k * d1 <= 2 * d0 * d1,
                0 <= r < 2 * d0,
                d0 > 0,
        ;
    }
}

/// `minor_steps` is the only integer inside its characteristic bounds.
proof fn lemma_minor_steps_eq(d0: int, d1: int, k: int, m: int)
    requires
        d0 > 0,
        0 <= d1,
        0 <= k,
        2 * k * d1 - d0 < 2 * m * d0,
        2 * m * d0 <= 2 * k * d1 + d0,
    ensures
        m == minor_steps(d0, d1, k),
{
    let x = 2 * k * d1 + d0;
    let r = x - m * (2 * d0);
    assert(m * (2 * d0) == 2 * m * d0) by (nonlinear_arith);
    assert(0 <= r < 2 * d0);
    lemma_fundamental_div_mod_converse_div(x, 2 * d0, m, r);
}

/// The first emitted point of a line equals its first endpoint and the last
/// emitted point equals its second endpoint.
pub proof fn lemma_line_endpoints(x0: int, y0: int, x1: int, y1: int)
    ensures
        line_seq(x0, y0, x1, y1).len() == line_d0(x0, y0, x1, y1) + 1,
        line_seq(x0, y0, x1, y1)[0] == (x0, y0),
        line_seq(x0, y0, x1, y1).last() == (x1, y1),
{
    let d0 = line_d0(x0, y0, x1, y1);
    let d1 = line_d1(x0, y0, x1, y1);
    if d0 > 0 {
        // minor_steps(d0, d1, 0) == 0: the dividend is d0, below 2*d0.
        lemma_fundamental_div_mod_converse_div(d0, 2 * d0, 0, d0);
        assert(2 * 0 * d1 + d0 == d0) by (nonlinear_arith);
        // minor_steps(d0, d1, d0) == d1: the dividend is 2*d0*d1 + d0.
        assert(2 * d0 * d1 + d0 == d1 * (2 * d0) + d0) by (nonlinear_arith);
        lemma_fundamental_div_mod_converse_div(2 * d0 * d1 + d0, 2 * d0, d1, d0);
    }
    assert(minor_steps(d0, d1, 0) == 0);
    assert(minor_steps(d0, d1, d0) == d1);
    lemma_mul_zero_or_unit(0, step_dir(x0, x1));
    lemma_mul_zero_or_unit(0, step_dir(y0, y1));
    assert(line_point(x0, y0, x1, y1, 0) == (x0, y0));
    lemma_step_reach(x0, x1);
    lemma_step_reach(y0, y1);
    assert(line_seq(x0, y0, x1, y1).last() == line_point(x0, y0, x1, y1, d0));
    assert(line_point(x0, y0, x1, y1, d0) == (x1, y1));
}

/// Every point of a line lies inside the axis-aligned box of its endpoints.
pub proof fn lemma_line_point_in_box(x0: int, y0: int, x1: int, y1: int, k: int)
    requires
        0 <= k <= line_d0(x0, y0, x1, y1),
    ensures
        line_point(x0, y0, x1, y1, k).0 >= if x0 <= x1 { x0 } else { x1 },
        line_point(x0, y0, x1, y1, k).0 <= if x0 <= x1 { x1 } else { x0 },
        line_point(x0, y0, x1, y1, k).1 >= if y0 <= y1 { y0 } else { y1 },
        line_point(x0, y0, x1, y1, k).1 <= if y0 <= y1 { y1 } else { y0 },
{
    let d0 = line_d0(x0, y0, x1, y1);
    let d1 = line_d1(x0, y0, x1, y1);
    let m = minor_steps(d0, d1, k);
    if d0 > 0 {
        lemma_minor_steps_bounds(d0, d1, k);
    }
    assert(0 <= m <= d1);
    if line_steep(x0, y0, x1, y1) {
        lemma_step_bounds(x0, x1, m);
        lemma_step_bounds(y0, y1, k);
    } else {
        lemma_step_bounds(x0, x1, k);
        lemma_step_bounds(y0, y1, m);
    }
}

/// A horizontal line walks one pixel right per step: its `k`-th point is
/// `(x0 + k, y)`.
pub proof fn lemma_horizontal_line(x0: int, x1: int, y: int, k: int)
    requires
        x0 <= x1,
        0 <= k <= x1 - x0,
    ensures
        line_d0(x0, y, x1, y) == x1 - x0,
        line_seq(x0, y, x1, y).len() == x1 - x0 + 1,
        line_point(x0, y, x1, y, k) == (x0 + k, y),
{
    let d0 = line_d0(x0, y, x1, y);
    let d1 = line_d1(x0, y, x1, y);
    assert(d1 == 0);
    if d0 > 0 {
        assert(2 * k * d1 == 0) by (nonlinear_arith)
            requires
                d1 == 0,
        ;
        lemma_fundamental_div_mod_converse_div(d0, 2 * d0, 0, d0);
        assert(minor_steps(d0, d1, k) == 0);
    }
    lemma_mul_zero_or_unit(k, step_dir(x0, x1));
    lemma_mul_zero_or_unit(0, step_dir(y, y));
}

/// Two line generators built with identical endpoints emit identical point
/// sequences. The sequence is a function of the endpoints alone; `next` is
/// determined by the origin and the count of points already emitted, so two
/// generators with equal origins stay in lockstep.
pub proof fn lemma_line_deterministic(a: LineIterator, b: LineIterator)
    requires
        a.wf(),
        b.wf(),
        a.origin() == b.origin(),
    ensures
        a.pts() == b.pts(),
{
}

/// Draw line using Bresenham algorithm.
///
/// Writes the packed color of every point of the line into the row-major
/// buffer and leaves every other cell unchanged.
pub fn draw(
    x0: u32,
    y0: u32,
    x1: u32,
    y1: u32,
    color: Color,
    buffer: &mut Vec<u32>,
    buffer_width: usize,
)
    requires
        x0 < MAX_LINE_COORD,
        y0 < MAX_LINE_COORD,
        x1 < MAX_LINE_COORD,
        y1 < MAX_LINE_COORD,
        (if x0 <= x1 { x1 } else { x0 }) + (if y0 <= y1 { y1 } else { y0 }) * buffer_width
            < old(buffer).len(),
    ensures
        final(buffer).len() == old(buffer).len(),
        forall|k: int|
            0 <= k < line_seq(x0 as int, y0 as int, x1 as int, y1 as int).len()
                ==> final(buffer)[#[trigger] line_index(
                x0 as int,
                y0 as int,
                x1 as int,
                y1 as int,
                buffer_width as int,
                k,
            )] == utils::spec_tup8_to_32((color.a, color.r, color.g, color.b)),
        forall|i: int|
            0 <= i < old(buffer).len() && !line_covers(
                x0 as int,
                y0 as int,
                x1 as int,
                y1 as int,
                buffer_width as int,
                line_seq(x0 as int, y0 as int, x1 as int, y1 as int).len() as int,
                i,
            ) ==> final(buffer)[i] == old(buffer)[i],
{
    let ghost gx0 = x0 as int;
    let ghost gy0 = y0 as int;
    let ghost gx1 = x1 as int;
    let ghost gy1 = y1 as int;
    let ghost w = buffer_width as int;
    let ghost s = line_seq(gx0, gy0, gx1, gy1);
    let ghost mx: int = if gx0 <= gx1 { gx1 } else { gx0 };
    let ghost my: int = if gy0 <= gy1 { gy1 } else { gy0 };
    let cval: u32 = color.bgra();
    let mut it = LineIterator::new(x0, y0, x1, y1);
    loop
        invariant
            it.wf(),
            it.origin() == (gx0, gy0, gx1, gy1),
            0 <= it.emitted() <= s.len(),
            s == line_seq(gx0, gy0, gx1, gy1),
            mx == if gx0 <= gx1 { gx1 } else { gx0 },
            my == if gy0 <= gy1 { gy1 } else { gy0 },
            w == buffer_width as int,
            mx + my * w < buffer.len(),
            buffer.len() == old(buffer).len(),
            cval == utils::spec_tup8_to_32((color.a, color.r, color.g, color.b)),
            forall|k: int|
                0 <= k < it.emitted() ==> {
                    &&& 0 <= #[trigger] line_index(gx0, gy0, gx1, gy1, w, k) < buffer.len()
                    &&& buffer[line_index(gx0, gy0, gx1, gy1, w, k)] == cval
                },
            forall|i: int|
                0 <= i < buffer.len() && !line_covers(gx0, gy0, gx1, gy1, w, it.emitted(), i)
                    ==> buffer[i] == old(buffer)[i],
        ensures
            it.emitted() == s.len(),
            buffer.len() == old(buffer).len(),
            forall|k: int|
                0 <= k < it.emitted() ==> {
                    &&& 0 <= #[trigger] line_index(gx0, gy0, gx1, gy1, w, k) < buffer.len()
                    &&& buffer[line_index(gx0, gy0, gx1, gy1, w, k)] == cval
                },
            forall|i: int|
                0 <= i < buffer.len() && !line_covers(gx0, gy0, gx1, gy1, w, it.emitted(), i)
                    ==> buffer[i] == old(buffer)[i],
        decreases s.len() - it.emitted(),
    {
        let ghost n = it.emitted();
        match it.next() {
            Some(p) => {
                proof {
                    lemma_line_point_in_box(gx0, gy0, gx1, gy1, n);
                    assert(s[n] == line_point(gx0, gy0, gx1, gy1, n));
                    lemma_mul_inequality(s[n].1, my, w);
                }
                let idx: usize = utils::xy(p.0, p.1, buffer_width);
                proof {
                    assert(idx == line_index(gx0, gy0, gx1, gy1, w, n));
                }
                buffer[idx] = cval;
                proof {
                    assert(line_covers(gx0, gy0, gx1, gy1, w, n + 1, idx as int));
                    assert forall|k: int| 0 <= k < it.emitted() implies buffer[#[trigger] line_index(
                        gx0,
                        gy0,
                        gx1,
                        gy1,
                        w,
                        k,
                    )] == cval && 0 <= line_index(gx0, gy0, gx1, gy1, w, k) < buffer.len() by {
                        if k == n {
                            assert(line_index(gx0, gy0, gx1, gy1, w, n) == idx as int);
                        }
                    }
                    assert forall|i: int|
                        0 <= i < buffer.len() && !line_covers(
                            gx0,
                            gy0,
                            gx1,
                            gy1,
                            w,
                            it.emitted(),
                            i,
                        ) implies buffer[i] == old(buffer)[i] by {
                        assert(!line_covers(gx0, gy0, gx1, gy1, w, n, i));
                        assert(i != idx as int);
                    }
                }
            },
            None => {
                break ;
            },
        }
    }
}

/// Iterator-style generator with each next item being next point in line.
/// `line::draw` paints its pixels by walking this same generator.
pub struct LineIterator {
    d0: i32,
    d1: i32,
    e: i32,
    v0: i32,
    v1: i32,
    dir0: i32,
    dir1: i32,
    swapped: bool,
    count: i32,
    start: Ghost<(int, int, int, int)>,
}

impl LineIterator {
    /// The endpoints this generator was built from.
    pub closed spec fn origin(self) -> (int, int, int, int) {
        self.start@
    }

    /// How many points have been emitted so far.
    pub closed spec fn emitted(self) -> int {
        self.count as int
    }

    /// The full point sequence this generator emits.
    pub open spec fn pts(self) -> Seq<(int, int)> {
        line_seq(self.origin().0, self.origin().1, self.origin().2, self.origin().3)
    }

    pub closed spec fn wf(self) -> bool {
        let (x0, y0, x1, y1) = self.start@;
        let steep = line_steep(x0, y0, x1, y1);
        let d0 = line_d0(x0, y0, x1, y1);
        let d1 = line_d1(x0, y0, x1, y1);
        let maj0 = if steep { y0 } else { x0 };
        let maj1 = if steep { y1 } else { x1 };
        let min0 = if steep { x0 } else { y0 };
        let min1 = if steep { x1 } else { y1 };
        &&& 0 <= x0 < MAX_LINE_COORD
        &&& 0 <= y0 < MAX_LINE_COORD
        &&& 0 <= x1 < MAX_LINE_COORD
        &&& 0 <= y1 < MAX_LINE_COORD
        &&& self.d0 == d0
        &&& self.d1 == d1
        &&& self.swapped == steep
        &&& self.dir1 == step_dir(maj0, maj1)
        &&& self.dir0 == step_dir(min0, min1)
        &&& 0 <= self.count <= d0 + 1
        &&& (self.count == 0 ==> self.v1 == maj0 && self.v0 == min0 && self.e == 2 * d1 - d0)
        &&& (self.count >= 1 ==> {
            let m = minor_steps(d0, d1, self.count - 1);
            &&& self.v1 == maj0 + (self.count - 1) * self.dir1
            &&& self.v0 == min0 + m * self.dir0
            &&& self.e == 2 * self.count * d1 - (2 * m + 1) * d0
        })
    }

    pub fn new(x0: u32, y0: u32, x1: u32, y1: u32) -> (it: LineIterator)
        requires
            x0 < MAX_LINE_COORD,
            y0 < MAX_LINE_COORD,
            x1 < MAX_LINE_COORD,
            y1 < MAX_LINE_COORD,
        ensures
            it.wf(),
            it.origin() == (x0 as int, y0 as int, x1 as int, y1 as int),
            it.emitted() == 0,
    {
        // Values of current point in line.
        let mut v0: i32 = y0 as i32;
        let mut v1: i32 = x0 as i32;

        let mut dir0: i32 = if y0 > y1 {
            -1
        } else {
            1
        };
        let mut dir1: i32 = if x0 > x1 {
            -1
        } else {
            1
        };

        let mut d0: i32 = if x1 > x0 {
            x1 as i32 - x0 as i32
        } else {
            x0 as i32 - x1 as i32
        };

        let mut d1: i32 = if y1 > y0 {
            y1 as i32 - y0 as i32
        } else {
            y0 as i32 - y1 as i32
        };

        let swapped: bool = if d1 > d0 {
            let t0: i32 = d1;
            d1 = d0;
            d0 = t0;
            let t1: i32 = v1;
            v1 = v0;
            v0 = t1;
            let t2: i32 = dir1;
            dir1 = dir0;
            dir0 = t2;
            true
        } else {
            false
        };

        let e: i32 = 2 * d1 - d0;

        LineIterator {
            d0,
            d1,
            e,
            v0,
            v1,
            dir0,
            dir1,
            swapped,
            count: 0,
            start: Ghost((x0 as int, y0 as int, x1 as int, y1 as int)),
        }
    }

    /// Emit the next point of the line, or `None` once all d0 + 1 points
    /// are out.
    pub fn next(&mut self) -> (r: Option<(usize, usize)>)
        requires
            old(self).wf(),
        ensures
            final(self).wf(),
            final(self).origin() == old(self).origin(),
            old(self).emitted() < old(self).pts().len() ==> {
                &&& final(self).emitted() == old(self).emitted() + 1
                &&& r == Some(
                    (
                        old(self).pts()[old(self).emitted()].0 as usize,
                        old(self).pts()[old(self).emitted()].1 as usize,
                    ),
                )
            },
            old(self).emitted() >= old(self).pts().len() ==> {
                &&& r is None
                &&& *final(self) == *old(self)
            },
    {
        let ghost (x0, y0, x1, y1) = self.start@;
        let ghost d0s = line_d0(x0, y0, x1, y1);
        let ghost d1s = line_d1(x0, y0, x1, y1);
        let ghost steep = line_steep(x0, y0, x1, y1);
        let ghost maj0 = if steep { y0 } else { x0 };
        let ghost maj1 = if steep { y1 } else { x1 };
        let ghost min0 = if steep { x0 } else { y0 };
        let ghost min1 = if steep { x1 } else { y1 };

        if self.count > self.d0 {
            return None;
        }
        if self.count == 0 {
            self.count += 1;
            proof {
                if d0s > 0 {
                    lemma_fundamental_div_mod_converse_div(d0s, 2 * d0s, 0, d0s);
                    assert(2 * 0 * d1s + d0s == d0s) by (nonlinear_arith);
                }
                assert(minor_steps(d0s, d1s, 0) == 0);
                lemma_mul_zero_or_unit(0, step_dir(x0, x1));
                lemma_mul_zero_or_unit(0, step_dir(y0, y1));
                assert(line_point(x0, y0, x1, y1, 0) == (x0, y0));
                lemma_mul_zero_or_unit(0, self.dir1 as int);
                lemma_mul_zero_or_unit(0, self.dir0 as int);
                assert(self.e == 2 * self.count * d1s - (2 * minor_steps(d0s, d1s, self.count - 1)
                    + 1) * d0s) by (nonlinear_arith)
                    requires
                        self.count == 1,
                        minor_steps(d0s, d1s, self.count - 1) == 0,
                        self.e == 2 * d1s - d0s,
                ;
            }
            if self.swapped {
                return Some((self.v0 as usize, self.v1 as usize));
            } else {
                return Some((self.v1 as usize, self.v0 as usize));
            }
        }

        // 1 <= count <= d0, so the major span is positive.
        let ghost c = self.count as int;
        let ghost m0 = minor_steps(d0s, d1s, c - 1);
        let ghost mut m: int = m0;
        proof {
            lemma_minor_steps_bounds(d0s, d1s, c - 1);
            assert(2 * m0 * d0s <= 2 * c * d1s + d0s && 2 * c * d1s - (2 * m0 + 1) * d0s >= -2
                * d0s) by (nonlinear_arith)
                requires
                    2 * (c - 1) * d1s - d0s < 2 * m0 * d0s,
                    2 * m0 * d0s <= 2 * (c - 1) * d1s + d0s,
                    0 <= d1s,
                    1 <= d0s,
                    1 <= c,
                    self.e == 2 * c * d1s - (2 * m0 + 1) * d0s,
            ;
        }

        while self.e >= 0
            invariant
                self.d0 == d0s,
                self.d1 == d1s,
                self.swapped == steep,
                self.dir1 == step_dir(maj0, maj1),
                self.dir0 == step_dir(min0, min1),
                self.count == c,
                self.start@ == (x0, y0, x1, y1),
                self.v1 == maj0 + (c - 1) * self.dir1,
                1 <= c <= d0s,
                0 <= d1s <= d0s,
                0 <= maj0 < MAX_LINE_COORD,
                0 <= maj1 < MAX_LINE_COORD,
                0 <= min0 < MAX_LINE_COORD,
                0 <= min1 < MAX_LINE_COORD,
                d0s == abs_diff(maj0, maj1),
                d1s == abs_diff(min0, min1),
                0 <= m <= d1s,
                self.v0 == min0 + m * self.dir0,
                self.e == 2 * c * d1s - (2 * m + 1) * d0s,
                2 * m * d0s <= 2 * c * d1s + d0s,
                self.e >= -2 * d0s,
            decreases self.e + 2 * self.d0,
        {
            proof {
                // One more minor step stays within the minor span.
                assert(m + 1 <= d1s && 2 * (m + 1) * d0s <= 2 * c * d1s + d0s && 2 * c * d1s - (2
                    * (m + 1) + 1) * d0s >= -2 * d0s) by (nonlinear_arith)
                    requires
                        self.e == 2 * c * d1s - (2 * m + 1) * d0s,
                        self.e >= 0,
                        c <= d0s,
                        1 <= d0s,
                        0 <= d1s,
                        0 <= c,
                        0 <= m,
                ;
                assert((m + 1) * self.dir0 == m * self.dir0 + self.dir0) by (nonlinear_arith);
                lemma_step_bounds(min0, min1, m + 1);
            }
            self.v0 = self.v0 + self.dir0;
            self.e = self.e - 2 * self.d0;
            proof {
                m = m + 1;
                assert(self.e == 2 * c * d1s - (2 * m + 1) * d0s) by (nonlinear_arith)
                    requires
                        self.e == 2 * c * d1s - (2 * (m - 1) + 1) * d0s - 2 * d0s,
                ;
            }
        }

        proof {
            // The loop exits exactly at the minor position of point c.
            assert(2 * c * d1s - d0s < 2 * m * d0s) by (nonlinear_arith)
                requires
                    2 * c * d1s - (2 * m + 1) * d0s < 0,
            ;
            lemma_minor_steps_eq(d0s, d1s, c, m);
            assert((c - 1) * self.dir1 + self.dir1 == c * self.dir1) by (nonlinear_arith);
            lemma_step_bounds(maj0, maj1, c);
            lemma_step_bounds(min0, min1, m);
        }

        self.v1 = self.v1 + self.dir1;
        self.e = self.e + 2 * self.d1;
        self.count += 1;

        proof {
            assert(self.e == 2 * (c + 1) * d1s - (2 * m + 1) * d0s) by (nonlinear_arith)
                requires
                    self.e == 2 * c * d1s - (2 * m + 1) * d0s + 2 * d1s,
            ;
            assert(line_point(x0, y0, x1, y1, c) == if steep {
                (min0 + m * self.dir0, maj0 + c * self.dir1)
            } else {
                (maj0 + c * self.dir1, min0 + m * self.dir0)
            });
            assert(old(self).pts()[c] == line_point(x0, y0, x1, y1, c));
        }

        if self.swapped {
            Some((self.v0 as usize, self.v1 as usize))
        } else {
            Some((self.v1 as usize, self.v0 as usize))
        }
    }
}

/// Multiplying by zero gives zero; kept separate because the bare product of
/// two spec values is opaque to the default solver.
proof fn lemma_mul_zero_or_unit(a: int, s: int)
    ensures
        a == 0 ==> a * s == 0,
        s == 1 ==> a * s == a,
        s == -1 ==> a * s == -a,
{
    assert(a == 0 ==> a * s == 0) by (nonlinear_arith);
    assert(s == 1 ==> a * s == a) by (nonlinear_arith);
    assert(s == -1 ==> a * s == -a) by (nonlinear_arith);
}

/// Stepping the full distance from `base0` toward `base1` arrives at `base1`.
proof fn lemma_step_reach(base0: int, base1: int)
    ensures
        base0 + abs_diff(base0, base1) * step_dir(base0, base1) == base1,
{
    lemma_mul_zero_or_unit(abs_diff(base0, base1), step_dir(base0, base1));
}

/// Starting from `base0` and stepping `t` times toward `base1` stays between
/// the two bases while `t` is within their distance.
proof fn lemma_step_bounds(base0: int, base1: int, t: int)
    requires
        0 <= t <= abs_diff(base0, base1),
    ensures
        base0 + t * step_dir(base0, base1) >= if base0 <= base1 {
            base0
        } else {
            base1
        },
        base0 + t * step_dir(base0, base1) <= if base0 <= base1 {
            base1
        } else {
            base0
        },
{
    lemma_mul_zero_or_unit(t, step_dir(base0, base1));
}

} // verus!
