//! Flat-colour triangles: canonical form and scanline fill with one colour.
use vstd::prelude::*;
use crate::random::random_u32;
use rand::rngs::StdRng;
use crate::raster::{RasterPoint, canonical, canonical_indices, H};
use crate::scan::{Scan, first_row, end_row, row_span};

verus! {

/// A packed `0x00RRGGBB` colour.
#[derive(Clone, Copy, Debug, PartialEq, Eq, Structural)]
pub struct RGBA {
    pub c: u32,
}

impl RGBA {
    pub fn new(c: u32) -> (r: RGBA)
        ensures
            r.c == c,
    {
        RGBA { c }
    }
}

/// The colour held in the low 24 bits of `bits`.
pub fn color_from_bits(bits: u32) -> (r: RGBA)
    ensures
        r.c == bits % 0x100_0000,
{
    RGBA { c: bits % 0x100_0000 }
}

/// A random colour: the low 24 bits of a draw from `rng`.
pub fn get_color(rng: &mut StdRng) -> (r: RGBA)
    ensures
        r.c < 0x100_0000,
{
    color_from_bits(random_u32(rng))
}

/// Three vertices and a colour for the whole face.
#[derive(Clone, Copy, Debug)]
pub struct Triangle<T, C> {
    pub pt1: T,
    pub pt2: T,
    pub pt3: T,
    pub color: C,
}

/// Whether every vertex of the triangle has viewport coordinates.
pub open spec fn raster_wf(t: Triangle<RasterPoint, RGBA>) -> bool {
    t.pt1.wf() && t.pt2.wf() && t.pt3.wf()
}

/// Whether some vertex of the triangle was clipped.
pub open spec fn any_clipped(t: Triangle<RasterPoint, RGBA>) -> bool {
    t.pt1.clipped || t.pt2.clipped || t.pt3.clipped
}

/// Reorders the vertices into canonical form: the vertex with the smallest
/// raster key first, then the left edge's end and the right edge's end.
pub fn normal_form(t: Triangle<RasterPoint, RGBA>) -> (r: Triangle<RasterPoint, RGBA>)
    requires
        t.pt1.in_range(),
        t.pt2.in_range(),
        t.pt3.in_range(),
    ensures
        (r.pt1, r.pt2, r.pt3) == canonical(t.pt1, t.pt2, t.pt3),
        r.color == t.color,
{
    let (i, j, k) = canonical_indices(&t.pt1, &t.pt2, &t.pt3);
    let pts = [t.pt1, t.pt2, t.pt3];
    Triangle { pt1: pts[i], pt2: pts[j], pt3: pts[k], color: t.color }
}

/// The fragments of columns `[xl, xr)` in row `y`, left to right.
pub open spec fn flat_row(y: int, xl: int, xr: int, color: RGBA) -> Seq<(usize, usize, RGBA)> {
    Seq::new(
        if xr > xl {
            (xr - xl) as nat
        } else {
            0
        },
        |i: int| ((xl + i) as usize, y as usize, color),
    )
}

/// The fragments of all rows from the first row of the triangle up to `y`,
/// top to bottom.
pub open spec fn flat_rows(
    v0: RasterPoint,
    v1: RasterPoint,
    v2: RasterPoint,
    color: RGBA,
    y: int,
) -> Seq<(usize, usize, RGBA)>
    decreases y - first_row(v0, v1, v2),
{
    if y <= first_row(v0, v1, v2) {
        Seq::empty()
    } else {
        let (xl, xr) = row_span(v0, v1, v2, y - 1);
        flat_rows(v0, v1, v2, color, y - 1) + flat_row(y - 1, xl, xr, color)
    }
}

/// Every fragment of a canonical triangle: none when a vertex is clipped.
pub open spec fn flat_fragments(t: Triangle<RasterPoint, RGBA>) -> Seq<(usize, usize, RGBA)> {
    if any_clipped(t) {
        Seq::empty()
    } else {
        flat_rows(t.pt1, t.pt2, t.pt3, t.color, end_row(t.pt1, t.pt2, t.pt3))
    }
}

/// Appends to `plotter` one `(x, y, colour)` fragment for each pixel the
/// canonical triangle covers, row by row and left to right.
pub fn draw_triangle(t: Triangle<RasterPoint, RGBA>, plotter: &mut Vec<(usize, usize, RGBA)>)
    requires
        raster_wf(t),
    ensures
        final(plotter)@ == old(plotter)@ + flat_fragments(t),
        any_clipped(t) ==> final(plotter)@ == old(plotter)@,
{
    if t.pt1.clipped || t.pt2.clipped || t.pt3.clipped {
        assert(plotter@ =~= plotter@ + flat_fragments(t));
        return ;
    }
    let ghost base = plotter@;
    let ghost (v0, v1, v2) = (t.pt1, t.pt2, t.pt3);
    let scan = Scan::new(&t.pt1, &t.pt2, &t.pt3);
    let y_end = if t.pt2.y >= t.pt3.y {
        t.pt2.y
    } else {
        t.pt3.y
    };
    let mut y = t.pt1.y;
    assert(plotter@ =~= base + flat_rows(v0, v1, v2, t.color, y as int));
    while y < y_end
        invariant
            scan.matches(v0, v1, v2),
            raster_wf(t),
            v0 == t.pt1 && v1 == t.pt2 && v2 == t.pt3,
            y_end == end_row(v0, v1, v2),
            t.pt1.y <= y,
            y == t.pt1.y || y <= y_end,
            plotter@ == base + flat_rows(v0, v1, v2, t.color, y as int),
        decreases y_end - y,
    {
        let (xl, xr) = scan.span(y);
        let ghost row_base = plotter@;
        let mut x = xl;
        assert(plotter@ =~= row_base + flat_row(y as int, xl as int, x as int, t.color));
        while x < xr
            invariant
                xl <= x,
                x == xl || x <= xr,
                plotter@ == row_base + flat_row(y as int, xl as int, x as int, t.color),
            decreases xr - x,
        {
            plotter.push((x, y, t.color));
            x = x + 1;
            assert(plotter@ =~= row_base + flat_row(y as int, xl as int, x as int, t.color));
        }
        assert(flat_row(y as int, xl as int, x as int, t.color) =~= flat_row(
            y as int,
            xl as int,
            xr as int,
            t.color,
        ));
        y = y + 1;
        assert(plotter@ =~= base + flat_rows(v0, v1, v2, t.color, y as int));
    }
    assert(flat_rows(v0, v1, v2, t.color, y as int) =~= flat_rows(
        v0,
        v1,
        v2,
        t.color,
        y_end as int,
    ));
}

} // verus!
