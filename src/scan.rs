//! Scanline coverage of a canonical triangle: the rows it spans and, per row,
//! the half-open run of columns between its left and right edges.
use vstd::prelude::*;
use crate::ramp::{Ramp, ramp_spec, slope_intercept};
use crate::raster::{RasterPoint, W, H};

verus! {

/// The left (`v0 -> v1`), right (`v0 -> v2`) and bottom (`v1 -> v2`) edges,
/// each as the column reached at a given row.
pub open spec fn edge_ramps(v0: RasterPoint, v1: RasterPoint, v2: RasterPoint) -> (Ramp, Ramp, Ramp) {
    (
        ramp_spec(v0.x as int, v1.x as int, v1.y - v0.y, v0.y as int),
        ramp_spec(v0.x as int, v2.x as int, v2.y - v0.y, v0.y as int),
        ramp_spec(v1.x as int, v2.x as int, v2.y - v1.y, v1.y as int),
    )
}

/// The first row the triangle covers.
pub open spec fn first_row(v0: RasterPoint, v1: RasterPoint, v2: RasterPoint) -> int {
    v0.y as int
}

/// One past the last row the triangle covers.
pub open spec fn end_row(v0: RasterPoint, v1: RasterPoint, v2: RasterPoint) -> int {
    if v1.y >= v2.y {
        v1.y as int
    } else {
        v2.y as int
    }
}

/// The columns `[left, right)` covered in row `y`. Above the middle vertex
/// the left and right edges bound the row; below it the bottom edge takes
/// the place of the edge that has ended.
pub open spec fn row_span(v0: RasterPoint, v1: RasterPoint, v2: RasterPoint, y: int) -> (int, int) {
    let (l, r, b) = edge_ramps(v0, v1, v2);
    let y_mid = if v1.y <= v2.y {
        v1.y as int
    } else {
        v2.y as int
    };
    if y < y_mid {
        (l.pixel_at(y), r.pixel_at(y))
    } else if v1.y <= v2.y {
        (b.pixel_at(y), r.pixel_at(y))
    } else {
        (l.pixel_at(y), b.pixel_at(y))
    }
}

/// Whether pixel `(x, y)` is covered by the triangle.
pub open spec fn covers(v0: RasterPoint, v1: RasterPoint, v2: RasterPoint, x: int, y: int) -> bool {
    &&& first_row(v0, v1, v2) <= y < end_row(v0, v1, v2)
    &&& row_span(v0, v1, v2, y).0 <= x < row_span(v0, v1, v2, y).1
}

/// The edges of a triangle, set up once for a sweep over its rows.
pub struct Scan {
    pub left: Ramp,
    pub right: Ramp,
    pub bottom: Ramp,
    pub y_mid: usize,
    pub left_bottom: bool,
}

impl Scan {
    /// The scan holds the edges of the triangle `v0, v1, v2`.
    pub open spec fn matches(self, v0: RasterPoint, v1: RasterPoint, v2: RasterPoint) -> bool {
        &&& (self.left, self.right, self.bottom) == edge_ramps(v0, v1, v2)
        &&& self.left_bottom == (v1.y <= v2.y)
        &&& self.y_mid == if v1.y <= v2.y {
            v1.y
        } else {
            v2.y
        }
        &&& self.wf()
    }

    /// Every edge meets the bounds of `slope_intercept`.
    pub open spec fn wf(self) -> bool {
        self.left.wf() && self.right.wf() && self.bottom.wf()
    }

    /// Builds the three edges of the triangle `v0, v1, v2`.
    pub fn new(v0: &RasterPoint, v1: &RasterPoint, v2: &RasterPoint) -> (s: Scan)
        requires
            v0.wf(),
            v1.wf(),
            v2.wf(),
        ensures
            s.matches(*v0, *v1, *v2),
    {
        let (x0, y0) = (v0.x as i32, v0.y as i32);
        let (x1, y1) = (v1.x as i32, v1.y as i32);
        let (x2, y2) = (v2.x as i32, v2.y as i32);
        let left = slope_intercept(x0, x1, y1 - y0, y0);
        let right = slope_intercept(x0, x2, y2 - y0, y0);
        let bottom = slope_intercept(x1, x2, y2 - y1, y1);
        let left_bottom = v1.y <= v2.y;
        let y_mid = if left_bottom {
            v1.y
        } else {
            v2.y
        };
        Scan { left, right, bottom, y_mid, left_bottom }
    }

    /// The columns `[left, right)` covered in row `y`.
    pub fn span(&self, y: usize) -> (r: (usize, usize))
        requires
            self.wf(),
            y <= H,
        ensures
            forall|v0: RasterPoint, v1: RasterPoint, v2: RasterPoint|
                #[trigger] self.matches(v0, v1, v2) ==> (r.0 as int, r.1 as int) == row_span(
                    v0,
                    v1,
                    v2,
                    y as int,
                ),
    {
        let yi = y as i32;
        if y < self.y_mid {
            (self.left.pixel(yi), self.right.pixel(yi))
        } else if self.left_bottom {
            (self.bottom.pixel(yi), self.right.pixel(yi))
        } else {
            (self.left.pixel(yi), self.bottom.pixel(yi))
        }
    }
}


/// An edge read at a row between its two ends lies between the columns of
/// its ends, so within the viewport.
pub proof fn lemma_ramp_pixel_in_range(from: int, to: int, steps: int, start: int, t: int)
    requires
        0 <= from <= W,
        0 <= to <= W,
        -(H as int) <= steps <= H,
        0 <= start <= H,
        steps >= 0 ==> start <= t <= start + steps,
        steps < 0 ==> start + steps <= t <= start,
    ensures
        0 <= ramp_spec(from, to, steps, start).pixel_at(t) <= W,
{
    let r = ramp_spec(from, to, steps, start);
    let n = r.num_at(t);
    let d = r.den as int;
    assert(-76800 <= from * steps <= 76800 && -76800 <= (to - from) * start <= 76800) by (nonlinear_arith)
        requires
            0 <= from <= 320,
            0 <= to <= 320,
            -240 <= steps <= 240,
            0 <= start <= 240,
    ;
    if steps == 0 {
        assert(r.slope_num == 0 && r.intercept_num == from && d == 1);
        assert(n == from) by (nonlinear_arith)
            requires
                n == r.slope_num * t + r.intercept_num,
                r.slope_num == 0,
                r.intercept_num == from,
        ;
    } else if steps > 0 {
        assert(n <= 320 * d) by (nonlinear_arith)
            requires
                n == (to - from) * t + (from * steps - (to - from) * start),
                d == steps,
                start <= t <= start + steps,
                0 <= from <= 320,
                0 <= to <= 320,
        ;
    } else if steps < 0 {
        assert(n <= 320 * d) by (nonlinear_arith)
            requires
                n == (from - to) * t + ((to - from) * start - from * steps),
                d == -steps,
                start + steps <= t <= start,
                0 <= from <= 320,
                0 <= to <= 320,
        ;
    }
    if n > 0 {
        vstd::arithmetic::div_mod::lemma_div_is_ordered(n, 320 * d, d);
        vstd::arithmetic::div_mod::lemma_div_by_multiple(320, d);
        vstd::arithmetic::div_mod::lemma_div_pos_is_pos(n, d);
    }
}

/// On every row the triangle covers, both column bounds lie within the
/// viewport: each edge is read between its two ends.
pub proof fn lemma_row_span_in_viewport(v0: RasterPoint, v1: RasterPoint, v2: RasterPoint, y: int)
    requires
        v0.wf(),
        v1.wf(),
        v2.wf(),
        first_row(v0, v1, v2) <= y < end_row(v0, v1, v2),
    ensures
        0 <= row_span(v0, v1, v2, y).0 <= W,
        0 <= row_span(v0, v1, v2, y).1 <= W,
{
    let y_mid = if v1.y <= v2.y {
        v1.y as int
    } else {
        v2.y as int
    };
    if y < y_mid {
        lemma_ramp_pixel_in_range(v0.x as int, v1.x as int, v1.y - v0.y, v0.y as int, y);
        lemma_ramp_pixel_in_range(v0.x as int, v2.x as int, v2.y - v0.y, v0.y as int, y);
    } else if v1.y <= v2.y {
        lemma_ramp_pixel_in_range(v1.x as int, v2.x as int, v2.y - v1.y, v1.y as int, y);
        lemma_ramp_pixel_in_range(v0.x as int, v2.x as int, v2.y - v0.y, v0.y as int, y);
    } else {
        lemma_ramp_pixel_in_range(v0.x as int, v1.x as int, v1.y - v0.y, v0.y as int, y);
        lemma_ramp_pixel_in_range(v1.x as int, v2.x as int, v2.y - v1.y, v1.y as int, y);
    }
}

} // verus!
