//! Perspective-correct rasterization: every covered pixel gets a depth and
//! an attribute value interpolated linearly in view space.
use vstd::prelude::*;
use crate::point::Pt3;
use crate::raster::{RasterPoint, canonical_index, canonical_indices, pick, H, W};
use crate::scan::{Scan, first_row, end_row, row_span, lemma_row_span_in_viewport};

verus! {

/// A vertex placed on the pixel grid, with its view-space depth and the
/// attribute to interpolate.
#[derive(Clone, Copy, Debug, PartialEq, Eq, Structural)]
pub struct RasterLocatedVertex {
    pub raster_location: RasterPoint,
    pub depth: i32,
    pub variable: Pt3,
}

/// Three vertices, in any order.
#[derive(Clone, Copy, Debug)]
pub struct Triangle<T> {
    pub points: [T; 3],
}

/// An interpolated attribute value, one component per axis.
#[derive(Clone, Copy, Debug, PartialEq, Eq, Structural)]
pub struct Attr {
    pub x: i128,
    pub y: i128,
    pub z: i128,
}

/// One covered pixel with its resolved depth and attribute value.
#[derive(Clone, Copy, Debug, PartialEq, Eq, Structural)]
pub struct Fragment {
    pub x: usize,
    pub y: usize,
    pub depth: i128,
    pub variable: Attr,
}

/// `n / d` rounded toward negative infinity.
pub open spec fn floor_div(n: int, d: int) -> int {
    if d > 0 {
        n / d
    } else {
        (-n) / (-d)
    }
}

/// Component `c` (0, 1 or 2) of a vertex's attribute.
pub open spec fn comp(v: RasterLocatedVertex, c: int) -> int {
    if c == 0 {
        v.variable.x as int
    } else if c == 1 {
        v.variable.y as int
    } else {
        v.variable.z as int
    }
}

/// The rise of the edge `a -> b`, in rows.
pub open spec fn rise(a: RasterLocatedVertex, b: RasterLocatedVertex) -> int {
    b.raster_location.y - a.raster_location.y
}

/// The reciprocal depth along the edge `a -> b` at row `y`, stepped linearly
/// from `1 / za` to `1 / zb`: this value over `edge_den(a, b)`.
pub open spec fn edge_r(a: RasterLocatedVertex, b: RasterLocatedVertex, y: int) -> int {
    let k = y - a.raster_location.y;
    b.depth * (rise(a, b) - k) + a.depth * k
}

/// Component `c` of the depth-scaled attribute along the edge `a -> b` at
/// row `y`, stepped linearly from `ca / za` to `cb / zb`: this value over
/// `edge_den(a, b)`.
pub open spec fn edge_q(a: RasterLocatedVertex, b: RasterLocatedVertex, c: int, y: int) -> int {
    let k = y - a.raster_location.y;
    comp(a, c) * b.depth * (rise(a, b) - k) + comp(b, c) * a.depth * k
}

/// The common denominator of `edge_r` and `edge_q`.
pub open spec fn edge_den(a: RasterLocatedVertex, b: RasterLocatedVertex) -> int {
    a.depth * b.depth * rise(a, b)
}

/// The numerator of the value at column `xl + s` of a quantity stepped
/// linearly from `l / dl` at column `xl` to `r / dr` at column `xl + w`;
/// its denominator is `dl * dr * w`.
pub open spec fn span_mix(l: int, r: int, dl: int, dr: int, w: int, s: int) -> int {
    l * dr * (w - s) + r * dl * s
}

/// The edges that bound row `y` of the canonical triangle `v0, v1, v2`,
/// as `(left from, left to, right from, right to)`: the left and right
/// edges above the middle vertex; below it the bottom edge in place of the
/// edge that has ended.
pub open spec fn active_edges(
    v0: RasterLocatedVertex,
    v1: RasterLocatedVertex,
    v2: RasterLocatedVertex,
    y: int,
) -> (RasterLocatedVertex, RasterLocatedVertex, RasterLocatedVertex, RasterLocatedVertex) {
    let (y1, y2) = (v1.raster_location.y, v2.raster_location.y);
    let y_mid = if y1 <= y2 {
        y1 as int
    } else {
        y2 as int
    };
    if y < y_mid {
        (v0, v1, v0, v2)
    } else if y1 <= y2 {
        (v1, v2, v0, v2)
    } else {
        (v0, v1, v1, v2)
    }
}

/// The fragment at column `x` of row `y`, whose boundary edges are
/// `la -> lb` and `ra -> rb` and whose covered columns are `[xl, xr)`. The
/// reciprocal depth `r` and the depth-scaled attribute `q` are read off
/// each edge at row `y`, then stepped linearly from column `xl` to column
/// `xr`; the fragment has depth `1 / r` and attribute `q / r`, each rounded
/// down. There is none where `r` vanishes.
pub open spec fn fragment_from_edges(
    la: RasterLocatedVertex,
    lb: RasterLocatedVertex,
    ra: RasterLocatedVertex,
    rb: RasterLocatedVertex,
    x: int,
    y: int,
    xl: int,
    xr: int,
) -> Option<Fragment> {
    let (w, s) = (xr - xl, x - xl);
    let (dl, dr) = (edge_den(la, lb), edge_den(ra, rb));
    let r = span_mix(edge_r(la, lb, y), edge_r(ra, rb, y), dl, dr, w, s);
    if r == 0 {
        None
    } else {
        Some(
            Fragment {
                x: x as usize,
                y: y as usize,
                depth: floor_div(dl * dr * w, r) as i128,
                variable: Attr {
                    x: floor_div(span_mix(edge_q(la, lb, 0, y), edge_q(ra, rb, 0, y), dl, dr, w, s), r) as i128,
                    y: floor_div(span_mix(edge_q(la, lb, 1, y), edge_q(ra, rb, 1, y), dl, dr, w, s), r) as i128,
                    z: floor_div(span_mix(edge_q(la, lb, 2, y), edge_q(ra, rb, 2, y), dl, dr, w, s), r) as i128,
                },
            },
        )
    }
}

/// The fragment at `(x, y)` of the canonical triangle `v0, v1, v2`.
pub open spec fn resolve(
    v0: RasterLocatedVertex,
    v1: RasterLocatedVertex,
    v2: RasterLocatedVertex,
    x: int,
    y: int,
) -> Option<Fragment> {
    let (xl, xr) = row_span(v0.raster_location, v1.raster_location, v2.raster_location, y);
    let (la, lb, ra, rb) = active_edges(v0, v1, v2, y);
    fragment_from_edges(la, lb, ra, rb, x, y, xl, xr)
}

/// The fragments of columns `[xl, x)` in row `y`, left to right.
pub open spec fn row_fragments(
    v0: RasterLocatedVertex,
    v1: RasterLocatedVertex,
    v2: RasterLocatedVertex,
    y: int,
    xl: int,
    x: int,
) -> Seq<Fragment>
    decreases x - xl,
{
    if x <= xl {
        Seq::empty()
    } else {
        let s = row_fragments(v0, v1, v2, y, xl, x - 1);
        match resolve(v0, v1, v2, x - 1, y) {
            Some(f) => s.push(f),
            None => s,
        }
    }
}

/// The fragments of the rows from the triangle's first row up to `y`.
pub open spec fn rows_fragments(
    v0: RasterLocatedVertex,
    v1: RasterLocatedVertex,
    v2: RasterLocatedVertex,
    y: int,
) -> Seq<Fragment>
    decreases y - v0.raster_location.y,
{
    if y <= v0.raster_location.y {
        Seq::empty()
    } else {
        let (xl, xr) = row_span(v0.raster_location, v1.raster_location, v2.raster_location, y - 1);
        rows_fragments(v0, v1, v2, y - 1) + row_fragments(v0, v1, v2, y - 1, xl, xr)
    }
}

/// Whether every vertex of the triangle has viewport coordinates.
pub open spec fn located_wf(t: Triangle<RasterLocatedVertex>) -> bool {
    &&& t.points[0].raster_location.wf()
    &&& t.points[1].raster_location.wf()
    &&& t.points[2].raster_location.wf()
}

/// The triangle is drawn only when no vertex is clipped and no vertex has
/// zero depth.
pub open spec fn drawable(t: Triangle<RasterLocatedVertex>) -> bool {
    &&& !t.points[0].raster_location.clipped
    &&& !t.points[1].raster_location.clipped
    &&& !t.points[2].raster_location.clipped
    &&& t.points[0].depth != 0
    &&& t.points[1].depth != 0
    &&& t.points[2].depth != 0
}

/// The vertices of the triangle in canonical order.
pub open spec fn canonical_vertices(t: Triangle<RasterLocatedVertex>) -> (
    RasterLocatedVertex,
    RasterLocatedVertex,
    RasterLocatedVertex,
) {
    let (a, b, c) = (t.points[0], t.points[1], t.points[2]);
    let (i, j, k) = canonical_index(a.raster_location, b.raster_location, c.raster_location);
    (pick(a, b, c, i), pick(a, b, c, j), pick(a, b, c, k))
}

/// Every fragment of the triangle, row by row and left to right.
pub open spec fn fragments(t: Triangle<RasterLocatedVertex>) -> Seq<Fragment> {
    if !drawable(t) {
        Seq::empty()
    } else {
        let (v0, v1, v2) = canonical_vertices(t);
        rows_fragments(
            v0,
            v1,
            v2,
            end_row(v0.raster_location, v1.raster_location, v2.raster_location),
        )
    }
}

/// Scaling numerator and denominator by the same positive factor leaves
/// the rounded-down quotient unchanged.
pub proof fn lemma_floor_div_scale(n: int, d: int, k: int)
    requires
        d != 0,
        k > 0,
    ensures
        floor_div(k * n, k * d) == floor_div(n, d),
{
    let (n1, d1) = if d > 0 {
        (n, d)
    } else {
        (-n, -d)
    };
    assert(floor_div(n, d) == n1 / d1);
    assert(k * d > 0 <==> d > 0) by (nonlinear_arith)
        requires
            k > 0,
            d != 0,
    ;
    if d < 0 {
        assert(-(k * n) == k * n1 && -(k * d) == k * d1) by (nonlinear_arith)
            requires
                n1 == -n,
                d1 == -d,
        ;
    }
    assert(floor_div(k * n, k * d) == (k * n1) / (k * d1));
    let q = n1 / d1;
    let r = n1 % d1;
    vstd::arithmetic::div_mod::lemma_fundamental_div_mod(n1, d1);
    vstd::arithmetic::div_mod::lemma_mod_bound(n1, d1);
    assert(k * n1 == (k * d1) * q + k * r && 0 <= k * r < k * d1) by (nonlinear_arith)
        requires
            n1 == d1 * q + r,
            0 <= r < d1,
            k > 0,
    ;
    vstd::arithmetic::div_mod::lemma_div_multiples_vanish_fancy(q, k * r, k * d1);
}

/// Scaling the two edge values by `c` and the two denominators by `d`
/// scales the span numerator by `c * d`.
pub proof fn lemma_span_mix_scale(l: int, r: int, dl: int, dr: int, w: int, s: int, c: int, d: int)
    ensures
        span_mix(c * l, c * r, d * dl, d * dr, w, s) == (c * d) * span_mix(l, r, dl, dr, w, s),
{
    let k = c * d;
    let (a, b) = (l * dr * (w - s), r * dl * s);
    assert((c * l) * (d * dr) == k * (l * dr)) by (nonlinear_arith)
        requires
            k == c * d,
    ;
    assert((c * r) * (d * dl) == k * (r * dl)) by (nonlinear_arith)
        requires
            k == c * d,
    ;
    assert(k * (l * dr) * (w - s) == k * a) by (nonlinear_arith)
        requires
            a == l * dr * (w - s),
    ;
    assert(k * (r * dl) * s == k * b) by (nonlinear_arith)
        requires
            b == r * dl * s,
    ;
    assert(k * a + k * b == k * (a + b)) by (nonlinear_arith);
}

/// Scaling numerator and denominator by the same nonzero factor leaves
/// the rounded-down quotient unchanged.
pub proof fn lemma_floor_div_scale_any(n: int, d: int, k: int)
    requires
        d != 0,
        k != 0,
    ensures
        floor_div(k * n, k * d) == floor_div(n, d),
{
    if k > 0 {
        lemma_floor_div_scale(n, d, k);
    } else {
        lemma_floor_div_scale(-n, -d, -k);
        assert(k * n == (-k) * (-n) && k * d == (-k) * (-d)) by (nonlinear_arith);
    }
}

/// Component `c` of the attribute along the edge `a -> b` at row `y`,
/// stepped linearly in screen space: this value over `rise(a, b)`.
pub open spec fn edge_a(a: RasterLocatedVertex, b: RasterLocatedVertex, c: int, y: int) -> int {
    let k = y - a.raster_location.y;
    comp(a, c) * (rise(a, b) - k) + comp(b, c) * k
}

/// Component `c` of the attribute at `(x, y)` interpolated linearly in
/// screen space with no regard to depth: along the bounding edges in `y`,
/// then across the row's columns in `x`, rounded down.
pub open spec fn screen_linear(
    v0: RasterLocatedVertex,
    v1: RasterLocatedVertex,
    v2: RasterLocatedVertex,
    c: int,
    x: int,
    y: int,
) -> int {
    let (xl, xr) = row_span(v0.raster_location, v1.raster_location, v2.raster_location, y);
    let (la, lb, ra, rb) = active_edges(v0, v1, v2, y);
    let (hl, hr) = (rise(la, lb), rise(ra, rb));
    floor_div(span_mix(edge_a(la, lb, c, y), edge_a(ra, rb, c, y), hl, hr, xr - xl, x - xl), hl * hr * (xr - xl))
}

/// When the three vertices share one view-space depth, perspective-correct
/// interpolation is plain screen-space linear interpolation of the
/// attribute, and every fragment lies at that depth.
pub proof fn lemma_constant_depth_is_screen_linear(
    v0: RasterLocatedVertex,
    v1: RasterLocatedVertex,
    v2: RasterLocatedVertex,
    x: int,
    y: int,
)
    requires
        v0.depth == v1.depth,
        v1.depth == v2.depth,
        v0.depth != 0,
    ensures
        resolve(v0, v1, v2, x, y) == {
            let (xl, xr) = row_span(v0.raster_location, v1.raster_location, v2.raster_location, y);
            let (la, lb, ra, rb) = active_edges(v0, v1, v2, y);
            if rise(la, lb) * rise(ra, rb) * (xr - xl) == 0 {
                None
            } else {
                Some(
                    Fragment {
                        x: x as usize,
                        y: y as usize,
                        depth: v0.depth as i128,
                        variable: Attr {
                            x: screen_linear(v0, v1, v2, 0, x, y) as i128,
                            y: screen_linear(v0, v1, v2, 1, x, y) as i128,
                            z: screen_linear(v0, v1, v2, 2, x, y) as i128,
                        },
                    },
                )
            }
        },
{
    let (xl, xr) = row_span(v0.raster_location, v1.raster_location, v2.raster_location, y);
    let (la, lb, ra, rb) = active_edges(v0, v1, v2, y);
    let z = v0.depth as int;
    let (hl, hr) = (rise(la, lb), rise(ra, rb));
    let (w, s) = (xr - xl, x - xl);
    assert(la.depth == z && lb.depth == z && ra.depth == z && rb.depth == z);
    let (kl, kr) = (y - la.raster_location.y, y - ra.raster_location.y);
    let m = hl * hr * w;
    let zz = z * z;
    let z3 = z * zz;
    assert(z3 != 0) by (nonlinear_arith)
        requires
            z != 0,
            z3 == z * (z * z),
    ;
    let (dl, dr) = (edge_den(la, lb), edge_den(ra, rb));
    assert(dl == zz * hl && dr == zz * hr);
    assert(edge_r(la, lb, y) == z * hl) by (nonlinear_arith)
        requires
            edge_r(la, lb, y) == z * (hl - kl) + z * kl,
    ;
    assert(edge_r(ra, rb, y) == z * hr) by (nonlinear_arith)
        requires
            edge_r(ra, rb, y) == z * (hr - kr) + z * kr,
    ;
    lemma_span_mix_scale(hl, hr, hl, hr, w, s, z, zz);
    assert(span_mix(hl, hr, hl, hr, w, s) == m) by (nonlinear_arith)
        requires
            span_mix(hl, hr, hl, hr, w, s) == hl * hr * (w - s) + hr * hl * s,
            m == hl * hr * w,
    ;
    let r = span_mix(edge_r(la, lb, y), edge_r(ra, rb, y), dl, dr, w, s);
    assert(r == z3 * m);
    assert(m == 0 <==> r == 0) by (nonlinear_arith)
        requires
            r == z3 * m,
            z3 != 0,
    ;
    if m != 0 {
        let hh = hl * hr;
        assert(dl * dr == (zz * zz) * hh) by (nonlinear_arith)
            requires
                dl == zz * hl,
                dr == zz * hr,
                hh == hl * hr,
        ;
        assert(zz * zz == z3 * z) by (nonlinear_arith)
            requires
                zz == z * z,
                z3 == z * zz,
        ;
        assert(m == hh * w) by (nonlinear_arith)
            requires
                m == hl * hr * w,
                hh == hl * hr,
        ;
        assert(dl * dr * w == (z3 * z) * hh * w);
        assert((z3 * z) * hh * w == r * z) by (nonlinear_arith)
            requires
                r == z3 * m,
                m == hh * w,
        ;
        assert(r == r * 1);
        lemma_floor_div_scale_any(z, 1, r);
        assert(floor_div(z, 1) == z);
        assert forall|c: int| 0 <= c < 3 implies floor_div(
            span_mix(edge_q(la, lb, c, y), edge_q(ra, rb, c, y), dl, dr, w, s),
            r,
        ) == screen_linear(v0, v1, v2, c, x, y) by {
            let (al, ar) = (edge_a(la, lb, c, y), edge_a(ra, rb, c, y));
            let n = span_mix(al, ar, hl, hr, w, s);
            assert(edge_q(la, lb, c, y) == z * al) by (nonlinear_arith)
                requires
                    edge_q(la, lb, c, y) == comp(la, c) * z * (hl - kl) + comp(lb, c) * z * kl,
                    al == comp(la, c) * (hl - kl) + comp(lb, c) * kl,
            ;
            assert(edge_q(ra, rb, c, y) == z * ar) by (nonlinear_arith)
                requires
                    edge_q(ra, rb, c, y) == comp(ra, c) * z * (hr - kr) + comp(rb, c) * z * kr,
                    ar == comp(ra, c) * (hr - kr) + comp(rb, c) * kr,
            ;
            lemma_span_mix_scale(al, ar, hl, hr, w, s, z, zz);
            lemma_floor_div_scale_any(n, m, z3);
        }
    }
}

/// A constant attribute is reproduced exactly at every fragment: the
/// depth-scaled attribute is that constant times the reciprocal depth.
pub proof fn lemma_constant_attribute(
    v0: RasterLocatedVertex,
    v1: RasterLocatedVertex,
    v2: RasterLocatedVertex,
    x: int,
    y: int,
)
    requires
        v0.variable == v1.variable,
        v1.variable == v2.variable,
    ensures
        resolve(v0, v1, v2, x, y) matches Some(f) ==> f.variable == (Attr {
            x: v0.variable.x as i128,
            y: v0.variable.y as i128,
            z: v0.variable.z as i128,
        }),
{
    let (xl, xr) = row_span(v0.raster_location, v1.raster_location, v2.raster_location, y);
    let (la, lb, ra, rb) = active_edges(v0, v1, v2, y);
    let (w, s) = (xr - xl, x - xl);
    let (dl, dr) = (edge_den(la, lb), edge_den(ra, rb));
    let (el, er) = (edge_r(la, lb, y), edge_r(ra, rb, y));
    let r = span_mix(el, er, dl, dr, w, s);
    if r != 0 {
        assert forall|c: int| 0 <= c < 3 implies floor_div(
            span_mix(edge_q(la, lb, c, y), edge_q(ra, rb, c, y), dl, dr, w, s),
            r,
        ) == comp(v0, c) by {
            let a = comp(v0, c);
            let (kl, kr) = (y - la.raster_location.y, y - ra.raster_location.y);
            assert(comp(la, c) == a && comp(lb, c) == a && comp(ra, c) == a && comp(rb, c) == a);
            assert(edge_q(la, lb, c, y) == a * el) by (nonlinear_arith)
                requires
                    edge_q(la, lb, c, y) == a * lb.depth * (rise(la, lb) - kl) + a * la.depth * kl,
                    el == lb.depth * (rise(la, lb) - kl) + la.depth * kl,
            ;
            assert(edge_q(ra, rb, c, y) == a * er) by (nonlinear_arith)
                requires
                    edge_q(ra, rb, c, y) == a * rb.depth * (rise(ra, rb) - kr) + a * ra.depth * kr,
                    er == rb.depth * (rise(ra, rb) - kr) + ra.depth * kr,
            ;
            lemma_span_mix_scale(el, er, dl, dr, w, s, a, 1);
            assert(dl == 1 * dl && dr == 1 * dr && a * 1 == a);
            assert(r * a == r * a && r == r * 1);
            lemma_floor_div_scale_any(a, 1, r);
            assert(r * a == a * r) by (nonlinear_arith);
            assert(floor_div(a, 1) == a);
        }
    }
}

proof fn lemma_edge_bracket(za: int, zb: int, h: int, k: int, zmin: int, zmax: int)
    requires
        0 < zmin <= za <= zmax,
        zmin <= zb <= zmax,
        h != 0,
        h > 0 ==> 0 <= k <= h,
        h < 0 ==> h <= k <= 0,
    ensures
        ({
            let sg = if h > 0 { 1int } else { -1int };
            let n = zb * (h - k) + za * k;
            let d = za * zb * h;
            sg * n > 0 && zmin * (sg * n) <= sg * d <= zmax * (sg * n)
        }),
{
    let sg = if h > 0 { 1int } else { -1int };
    let (h1, k1) = (sg * h, sg * k);
    if h > 0 {
        assert(h1 == h && k1 == k);
    } else {
        assert(h1 == -h && k1 == -k) by (nonlinear_arith)
            requires
                sg == -1,
                h1 == sg * h,
                k1 == sg * k,
        ;
    }
    let n1 = zb * (h1 - k1) + za * k1;
    assert(n1 == sg * (zb * (h - k) + za * k) && za * zb * h1 == sg * (za * zb * h)) by (nonlinear_arith)
        requires
            h1 == sg * h,
            k1 == sg * k,
            n1 == zb * (h1 - k1) + za * k1,
    ;
    assert(n1 > 0 && zmin * n1 <= za * zb * h1 <= zmax * n1) by (nonlinear_arith)
        requires
            0 < zmin <= za <= zmax,
            zmin <= zb <= zmax,
            h1 > 0,
            0 <= k1 <= h1,
            n1 == zb * (h1 - k1) + za * k1,
    ;
}

/// Whether row `y` lies between the two ends of the edge `a -> b`, the end
/// row `b` excluded.
pub open spec fn row_on_edge(a: RasterLocatedVertex, b: RasterLocatedVertex, y: int) -> bool {
    let (ya, yb) = (a.raster_location.y as int, b.raster_location.y as int);
    (ya <= y < yb) || (yb < y <= ya) || (yb <= y < ya)
}

/// Between two edges that are read between their ends, with positive
/// depths, the resolved depth lies between the smallest and the largest
/// depth of the edges' ends.
pub proof fn lemma_span_depth_bracket(
    la: RasterLocatedVertex,
    lb: RasterLocatedVertex,
    ra: RasterLocatedVertex,
    rb: RasterLocatedVertex,
    x: int,
    y: int,
    xl: int,
    xr: int,
    zmin: int,
    zmax: int,
)
    requires
        0 < zmin,
        zmax <= i32::MAX,
        zmin <= la.depth <= zmax && zmin <= lb.depth <= zmax,
        zmin <= ra.depth <= zmax && zmin <= rb.depth <= zmax,
        row_on_edge(la, lb, y),
        row_on_edge(ra, rb, y),
        xl <= x < xr,
    ensures
        fragment_from_edges(la, lb, ra, rb, x, y, xl, xr) matches Some(f) && zmin <= f.depth <= zmax,
{
    let (hl, hr) = (rise(la, lb), rise(ra, rb));
    let (kl, kr) = (y - la.raster_location.y, y - ra.raster_location.y);
    lemma_edge_bracket(la.depth as int, lb.depth as int, hl, kl, zmin, zmax);
    lemma_edge_bracket(ra.depth as int, rb.depth as int, hr, kr, zmin, zmax);
    let sl = if hl > 0 { 1int } else { -1int };
    let sr = if hr > 0 { 1int } else { -1int };
    let (w, s) = (xr - xl, x - xl);
    let (dl, dr) = (edge_den(la, lb), edge_den(ra, rb));
    let (el, er) = (edge_r(la, lb, y), edge_r(ra, rb, y));
    let r = span_mix(el, er, dl, dr, w, s);
    let n = dl * dr * w;
    let (a, aa, b, bb) = (sl * el, sl * dl, sr * er, sr * dr);
    let sg = sl * sr;
    let (x1, y1) = (el * dr, er * dl);
    assert(r == x1 * (w - s) + y1 * s);
    assert(a * bb == sg * x1 && b * aa == sg * y1) by (nonlinear_arith)
        requires
            a == sl * el,
            aa == sl * dl,
            b == sr * er,
            bb == sr * dr,
            sg == sl * sr,
            x1 == el * dr,
            y1 == er * dl,
    ;
    assert(aa * bb == sg * (dl * dr)) by (nonlinear_arith)
        requires
            aa == sl * dl,
            bb == sr * dr,
            sg == sl * sr,
    ;
    let (u, v) = (bb * (w - s), aa * s);
    let (pr, pn) = (sg * r, sg * n);
    assert(pr == (sg * x1) * (w - s) + (sg * y1) * s) by (nonlinear_arith)
        requires
            pr == sg * r,
            r == x1 * (w - s) + y1 * s,
    ;
    assert(a * u == (a * bb) * (w - s)) by (nonlinear_arith)
        requires
            u == bb * (w - s),
    ;
    assert(b * v == (b * aa) * s) by (nonlinear_arith)
        requires
            v == aa * s,
    ;
    assert(pr == a * u + b * v);
    assert(pn == (aa * bb) * w) by (nonlinear_arith)
        requires
            pn == sg * n,
            n == dl * dr * w,
            aa * bb == sg * (dl * dr),
    ;
    assert(aa * u == (aa * bb) * (w - s) && bb * v == (aa * bb) * s) by (nonlinear_arith)
        requires
            u == bb * (w - s),
            v == aa * s,
    ;
    assert((aa * bb) * w == (aa * bb) * (w - s) + (aa * bb) * s) by (nonlinear_arith);
    assert(pn == aa * u + bb * v);
    assert(bb > 0 && aa > 0) by (nonlinear_arith)
        requires
            zmin * a <= aa,
            zmin * b <= bb,
            zmin > 0,
            a > 0,
            b > 0,
    ;
    assert(u > 0 && v >= 0) by (nonlinear_arith)
        requires
            u == bb * (w - s),
            v == aa * s,
            bb > 0,
            aa > 0,
            0 <= s < w,
    ;
    assert(pr > 0) by (nonlinear_arith)
        requires
            pr == a * u + b * v,
            a > 0,
            b > 0,
            u > 0,
            v >= 0,
    ;
    assert(zmin * pr <= pn <= zmax * pr) by (nonlinear_arith)
        requires
            pr == a * u + b * v,
            pn == aa * u + bb * v,
            zmin * a <= aa <= zmax * a,
            zmin * b <= bb <= zmax * b,
            u > 0,
            v >= 0,
    ;
    assert(sg == 1 || sg == -1) by (nonlinear_arith)
        requires
            sl == 1 || sl == -1,
            sr == 1 || sr == -1,
            sg == sl * sr,
    ;
    assert(r != 0) by (nonlinear_arith)
        requires
            pr == sg * r,
            pr > 0,
    ;
    lemma_floor_div_scale_any(n, r, sg);
    assert(floor_div(pn, pr) == pn / pr);
    vstd::arithmetic::div_mod::lemma_div_is_ordered(zmin * pr, pn, pr);
    vstd::arithmetic::div_mod::lemma_div_is_ordered(pn, zmax * pr, pr);
    vstd::arithmetic::div_mod::lemma_div_by_multiple(zmin, pr);
    vstd::arithmetic::div_mod::lemma_div_by_multiple(zmax, pr);
    assert(zmin * pr == pr * zmin && zmax * pr == pr * zmax) by (nonlinear_arith);
    assert(zmin <= pn / pr <= zmax);
    assert(floor_div(n, r) == pn / pr);
    assert(fragment_from_edges(la, lb, ra, rb, x, y, xl, xr) == Some(
        Fragment {
            x: x as usize,
            y: y as usize,
            depth: floor_div(n, r) as i128,
            variable: fragment_from_edges(la, lb, ra, rb, x, y, xl, xr).unwrap().variable,
        },
    ));
}

/// The smallest of three depths.
pub open spec fn min_depth(v0: RasterLocatedVertex, v1: RasterLocatedVertex, v2: RasterLocatedVertex) -> int {
    let m = if v0.depth <= v1.depth { v0.depth } else { v1.depth };
    if m <= v2.depth { m as int } else { v2.depth as int }
}

/// The largest of three depths.
pub open spec fn max_depth(v0: RasterLocatedVertex, v1: RasterLocatedVertex, v2: RasterLocatedVertex) -> int {
    let m = if v0.depth >= v1.depth { v0.depth } else { v1.depth };
    if m >= v2.depth { m as int } else { v2.depth as int }
}

/// Every pixel a canonical triangle with positive depths covers has a
/// fragment, and its depth lies between the smallest and the largest vertex
/// depth.
pub proof fn lemma_depth_within_vertices(
    v0: RasterLocatedVertex,
    v1: RasterLocatedVertex,
    v2: RasterLocatedVertex,
    x: int,
    y: int,
)
    requires
        v0.depth > 0 && v1.depth > 0 && v2.depth > 0,
        first_row(v0.raster_location, v1.raster_location, v2.raster_location) <= y,
        y < end_row(v0.raster_location, v1.raster_location, v2.raster_location),
        row_span(v0.raster_location, v1.raster_location, v2.raster_location, y).0 <= x,
        x < row_span(v0.raster_location, v1.raster_location, v2.raster_location, y).1,
    ensures
        resolve(v0, v1, v2, x, y) matches Some(f) && min_depth(v0, v1, v2) <= f.depth <= max_depth(
            v0,
            v1,
            v2,
        ),
{
    let (xl, xr) = row_span(v0.raster_location, v1.raster_location, v2.raster_location, y);
    let (la, lb, ra, rb) = active_edges(v0, v1, v2, y);
    lemma_span_depth_bracket(la, lb, ra, rb, x, y, xl, xr, min_depth(v0, v1, v2), max_depth(v0, v1, v2));
}

/// A product of two bounded factors is bounded by the product of the bounds.
pub proof fn lemma_mul_bound(a: int, b: int, ba: int, bb: int)
    requires
        -ba <= a <= ba,
        -bb <= b <= bb,
    ensures
        -(ba * bb) <= a * b <= ba * bb,
{
    assert(-(ba * bb) <= a * b <= ba * bb) by (nonlinear_arith)
        requires
            -ba <= a <= ba,
            -bb <= b <= bb,
    ;
}

/// `n / d` rounded toward negative infinity.
pub fn floor_divide(n: i128, d: i128) -> (q: i128)
    requires
        d != 0,
        -0x2000_0000_0000_0000_0000_0000_0000_0000 <= n <= 0x2000_0000_0000_0000_0000_0000_0000_0000,
        -0x2000_0000_0000_0000_0000_0000_0000_0000 <= d <= 0x2000_0000_0000_0000_0000_0000_0000_0000,
    ensures
        q == floor_div(n as int, d as int),
{
    let neg = d < 0;
    let nn: i128 = if neg {
        -n
    } else {
        n
    };
    let dd: i128 = if neg {
        -d
    } else {
        d
    };
    assert(floor_div(n as int, d as int) == (nn as int) / (dd as int));
    let du = dd as u128;
    if nn >= 0 {
        let q = (nn as u128) / du;
        q as i128
    } else {
        let m: u128 = (-nn) as u128;
        let q: u128 = m / du;
        let r: u128 = m % du;
        proof {
            vstd::arithmetic::div_mod::lemma_fundamental_div_mod(m as int, du as int);
            vstd::arithmetic::div_mod::lemma_mod_pos_bound(m as int, du as int);
            vstd::arithmetic::div_mod::lemma_div_pos_is_pos(m as int, du as int);
            vstd::arithmetic::div_mod::lemma_div_is_ordered_by_denominator(m as int, 1, du as int);
        }
        if r == 0 {
            proof {
                assert(nn == dd * (-(q as int)) + 0) by (nonlinear_arith)
                    requires
                        m == du * q + r,
                        r == 0,
                        m == -nn,
                        du == dd,
                ;
                vstd::arithmetic::div_mod::lemma_div_multiples_vanish_fancy(
                    -(q as int),
                    0,
                    dd as int,
                );
            }
            -(q as i128)
        } else {
            proof {
                assert(nn == dd * (-(q as int) - 1) + (dd - r)) by (nonlinear_arith)
                    requires
                        m == du * q + r,
                        m == -nn,
                        du == dd,
                ;
                vstd::arithmetic::div_mod::lemma_div_multiples_vanish_fancy(
                    -(q as int) - 1,
                    dd - r,
                    dd as int,
                );
            }
            -(q as i128) - 1
        }
    }
}

/// Component `c` of the depth-scaled attribute along an edge, from the
/// attribute components, the depths and the row offsets.
fn edge_q_value(ca: i32, cb: i32, za: i128, zb: i128, hk: i128, k: i128) -> (r: i128)
    requires
        -0x8000_0000 <= za <= 0x8000_0000,
        -0x8000_0000 <= zb <= 0x8000_0000,
        -480 <= hk <= 480,
        -240 <= k <= 240,
    ensures
        r == ca * zb * hk + cb * za * k,
        -0x200_0000_0000_0000_0000 <= r <= 0x200_0000_0000_0000_0000,
{
    let ghost b31: int = 0x8000_0000;
    let ghost b62: int = 0x4000_0000_0000_0000;
    proof {
        lemma_mul_bound(ca as int, zb as int, b31, b31);
        lemma_mul_bound(cb as int, za as int, b31, b31);
        lemma_mul_bound(ca * zb, hk as int, b62, 480);
        lemma_mul_bound(cb * za, k as int, b62, 240);
    }
    (ca as i128) * zb * hk + (cb as i128) * za * k
}

/// `edge_r` and the three components of `edge_q` of the edge `a -> b` at
/// row `y`.
fn edge_sample(a: &RasterLocatedVertex, b: &RasterLocatedVertex, y: usize) -> (r: (i128, i128, i128, i128))
    requires
        a.raster_location.wf(),
        b.raster_location.wf(),
        y <= H,
    ensures
        r.0 == edge_r(*a, *b, y as int),
        r.1 == edge_q(*a, *b, 0, y as int),
        r.2 == edge_q(*a, *b, 1, y as int),
        r.3 == edge_q(*a, *b, 2, y as int),
        -0x200_0000_0000_0000_0000 <= r.0 <= 0x200_0000_0000_0000_0000,
        -0x200_0000_0000_0000_0000 <= r.1 <= 0x200_0000_0000_0000_0000,
        -0x200_0000_0000_0000_0000 <= r.2 <= 0x200_0000_0000_0000_0000,
        -0x200_0000_0000_0000_0000 <= r.3 <= 0x200_0000_0000_0000_0000,
{
    let k = y as i128 - a.raster_location.y as i128;
    let hk = (b.raster_location.y as i128 - a.raster_location.y as i128) - k;
    let (za, zb) = (a.depth as i128, b.depth as i128);
    proof {
        lemma_mul_bound(zb as int, hk as int, 0x8000_0000, 480);
        lemma_mul_bound(za as int, k as int, 0x8000_0000, 240);
    }
    let r = zb * hk + za * k;
    let qx = edge_q_value(a.variable.x, b.variable.x, za, zb, hk, k);
    let qy = edge_q_value(a.variable.y, b.variable.y, za, zb, hk, k);
    let qz = edge_q_value(a.variable.z, b.variable.z, za, zb, hk, k);
    (r, qx, qy, qz)
}

/// `span_mix` of bounded values.
fn mix_value(l: i128, r: i128, dl: i128, dr: i128, w: i128, s: i128) -> (m: i128)
    requires
        -0x200_0000_0000_0000_0000 <= l <= 0x200_0000_0000_0000_0000,
        -0x200_0000_0000_0000_0000 <= r <= 0x200_0000_0000_0000_0000,
        -0x100_0000_0000 <= dl <= 0x100_0000_0000,
        -0x100_0000_0000 <= dr <= 0x100_0000_0000,
        0 <= s <= w <= W,
    ensures
        m == span_mix(l as int, r as int, dl as int, dr as int, w as int, s as int),
        -0x800_0000_0000_0000_0000_0000_0000_0000 <= m <= 0x800_0000_0000_0000_0000_0000_0000_0000,
{
    let ghost b73: int = 0x200_0000_0000_0000_0000;
    let ghost b40: int = 0x100_0000_0000;
    proof {
        lemma_mul_bound(l as int, dr as int, b73, b40);
        lemma_mul_bound(r as int, dl as int, b73, b40);
        lemma_mul_bound(l * dr, w - s, b73 * b40, 512);
        lemma_mul_bound(r * dl, s as int, b73 * b40, 512);
    }
    l * dr * (w - s) + r * dl * s
}

/// The fragment at column `x` of row `y` between the edges `la -> lb` and
/// `ra -> rb`, whose denominators share the factor `g`: they are
/// `g * lo * rise` and `g * ro * rise`.
fn fragment_at(
    la: &RasterLocatedVertex,
    lb: &RasterLocatedVertex,
    ra: &RasterLocatedVertex,
    rb: &RasterLocatedVertex,
    lo: i32,
    ro: i32,
    g: i32,
    x: usize,
    y: usize,
    xl: usize,
    xr: usize,
) -> (f: Option<Fragment>)
    requires
        la.raster_location.wf(),
        lb.raster_location.wf(),
        ra.raster_location.wf(),
        rb.raster_location.wf(),
        y <= H,
        xl <= x < xr <= W,
        g != 0,
        edge_den(*la, *lb) == g * lo * rise(*la, *lb),
        edge_den(*ra, *rb) == g * ro * rise(*ra, *rb),
    ensures
        f == fragment_from_edges(*la, *lb, *ra, *rb, x as int, y as int, xl as int, xr as int),
{
    let (rl, qlx, qly, qlz) = edge_sample(la, lb, y);
    let (rr, qrx, qry, qrz) = edge_sample(ra, rb, y);
    let hl = lb.raster_location.y as i128 - la.raster_location.y as i128;
    let hr = rb.raster_location.y as i128 - ra.raster_location.y as i128;
    proof {
        lemma_mul_bound(lo as int, hl as int, 0x8000_0000, 240);
        lemma_mul_bound(ro as int, hr as int, 0x8000_0000, 240);
    }
    let dl = lo as i128 * hl;
    let dr = ro as i128 * hr;
    let w = (xr - xl) as i128;
    let s = (x - xl) as i128;
    let r = mix_value(rl, rr, dl, dr, w, s);
    let ghost (yi, wi, si) = (y as int, w as int, s as int);
    let ghost (big_dl, big_dr) = (edge_den(*la, *lb), edge_den(*ra, *rb));
    let ghost gi = g as int;
    proof {
        assert(big_dl == gi * dl && big_dr == gi * dr) by (nonlinear_arith)
            requires
                big_dl == gi * lo * hl,
                big_dr == gi * ro * hr,
                dl == lo * hl,
                dr == ro * hr,
        ;
        lemma_span_mix_scale(rl as int, rr as int, dl as int, dr as int, wi, si, 1, gi);
        assert(gi * r == 0 <==> r == 0) by (nonlinear_arith)
            requires
                gi != 0,
        ;
    }
    if r == 0 {
        return None;
    }
    proof {
        lemma_mul_bound(g as int, dl as int, 0x8000_0000, 0x100_0000_0000);
        lemma_mul_bound(gi * dl, dr as int, 0x80_0000_0000_0000_0000int, 0x100_0000_0000);
        lemma_mul_bound(gi * dl * dr, w as int, 0x8000_0000_0000_0000_0000_0000_0000int, 512);
    }
    let depth_num = (g as i128) * dl * dr * w;
    let depth = floor_divide(depth_num, r);
    proof {
        assert(big_dl * big_dr * wi == gi * depth_num && gi * r == gi * r) by (nonlinear_arith)
            requires
                big_dl == gi * dl,
                big_dr == gi * dr,
                depth_num == gi * dl * dr * wi,
        ;
        lemma_floor_div_scale_any(depth_num as int, r as int, gi);
    }
    let ax = mix_value(qlx, qrx, dl, dr, w, s);
    let ay = mix_value(qly, qry, dl, dr, w, s);
    let az = mix_value(qlz, qrz, dl, dr, w, s);
    proof {
        lemma_span_mix_scale(qlx as int, qrx as int, dl as int, dr as int, wi, si, 1, gi);
        lemma_span_mix_scale(qly as int, qry as int, dl as int, dr as int, wi, si, 1, gi);
        lemma_span_mix_scale(qlz as int, qrz as int, dl as int, dr as int, wi, si, 1, gi);
        lemma_floor_div_scale_any(ax as int, r as int, gi);
        lemma_floor_div_scale_any(ay as int, r as int, gi);
        lemma_floor_div_scale_any(az as int, r as int, gi);
    }
    let variable = Attr { x: floor_divide(ax, r), y: floor_divide(ay, r), z: floor_divide(az, r) };
    Some(Fragment { x, y, depth, variable })
}

/// The fragment at `(x, y)` of the canonical triangle `v0, v1, v2`, whose
/// row `y` covers columns `[xl, xr)`.
fn resolve_at(
    v0: &RasterLocatedVertex,
    v1: &RasterLocatedVertex,
    v2: &RasterLocatedVertex,
    x: usize,
    y: usize,
    xl: usize,
    xr: usize,
) -> (r: Option<Fragment>)
    requires
        v0.raster_location.wf(),
        v1.raster_location.wf(),
        v2.raster_location.wf(),
        v0.depth != 0 && v1.depth != 0 && v2.depth != 0,
        first_row(v0.raster_location, v1.raster_location, v2.raster_location) <= y,
        y < end_row(v0.raster_location, v1.raster_location, v2.raster_location),
        (xl as int, xr as int) == row_span(v0.raster_location, v1.raster_location, v2.raster_location, y as int),
        xl <= x < xr,
    ensures
        r == resolve(*v0, *v1, *v2, x as int, y as int),
{
    proof {
        lemma_row_span_in_viewport(v0.raster_location, v1.raster_location, v2.raster_location, y as int);
    }
    let (y1, y2) = (v1.raster_location.y, v2.raster_location.y);
    let y_mid = if y1 <= y2 {
        y1
    } else {
        y2
    };
    let (z0, z1, z2) = (v0.depth, v1.depth, v2.depth);
    if y < y_mid {
        fragment_at(v0, v1, v0, v2, z1, z2, z0, x, y, xl, xr)
    } else if y1 <= y2 {
        proof {
            assert(edge_den(*v1, *v2) == z2 * z1 * rise(*v1, *v2)) by (nonlinear_arith)
                requires
                    edge_den(*v1, *v2) == z1 * z2 * rise(*v1, *v2),
            ;
            assert(edge_den(*v0, *v2) == z2 * z0 * rise(*v0, *v2)) by (nonlinear_arith)
                requires
                    edge_den(*v0, *v2) == z0 * z2 * rise(*v0, *v2),
            ;
        }
        fragment_at(v1, v2, v0, v2, z1, z0, z2, x, y, xl, xr)
    } else {
        proof {
            assert(edge_den(*v0, *v1) == z1 * z0 * rise(*v0, *v1)) by (nonlinear_arith)
                requires
                    edge_den(*v0, *v1) == z0 * z1 * rise(*v0, *v1),
            ;
        }
        fragment_at(v0, v1, v1, v2, z0, z2, z1, x, y, xl, xr)
    }
}

/// Appends to `plotter` the fragment of each pixel the triangle covers, row
/// by row and left to right. A triangle with a clipped vertex, or a vertex
/// of zero depth, has none.
pub fn draw_triangle(t: Triangle<RasterLocatedVertex>, plotter: &mut Vec<Fragment>)
    requires
        located_wf(t),
    ensures
        final(plotter)@ == old(plotter)@ + fragments(t),
        t.points[0].raster_location.clipped || t.points[1].raster_location.clipped
            || t.points[2].raster_location.clipped ==> final(plotter)@ == old(plotter)@,
{
    let pts = t.points;
    if pts[0].raster_location.clipped || pts[1].raster_location.clipped
        || pts[2].raster_location.clipped || pts[0].depth == 0 || pts[1].depth == 0
        || pts[2].depth == 0 {
        assert(plotter@ =~= plotter@ + fragments(t));
        return ;
    }
    let (i, j, k) = canonical_indices(
        &pts[0].raster_location,
        &pts[1].raster_location,
        &pts[2].raster_location,
    );
    let (v0, v1, v2) = (pts[i], pts[j], pts[k]);
    assert((v0, v1, v2) == canonical_vertices(t));
    let ghost base = plotter@;
    let ghost (p0, p1, p2) = (v0.raster_location, v1.raster_location, v2.raster_location);
    let scan = Scan::new(&v0.raster_location, &v1.raster_location, &v2.raster_location);
    let y_end = if v1.raster_location.y >= v2.raster_location.y {
        v1.raster_location.y
    } else {
        v2.raster_location.y
    };
    let mut y = v0.raster_location.y;
    assert(plotter@ =~= base + rows_fragments(v0, v1, v2, y as int));
    while y < y_end
        invariant
            scan.matches(p0, p1, p2),
            p0.wf() && p1.wf() && p2.wf(),
            p0 == v0.raster_location && p1 == v1.raster_location && p2 == v2.raster_location,
            y_end == end_row(p0, p1, p2),
            p0.y <= y,
            y == p0.y || y <= y_end,
            v0.depth != 0 && v1.depth != 0 && v2.depth != 0,
            plotter@ == base + rows_fragments(v0, v1, v2, y as int),
        decreases y_end - y,
    {
        let (xl, xr) = scan.span(y);
        let ghost row_base = plotter@;
        let mut x = xl;
        while x < xr
            invariant
                xl <= x,
                x == xl || x <= xr,
                (xl as int, xr as int) == row_span(p0, p1, p2, y as int),
                p0.y <= y < y_end,
                y_end == end_row(p0, p1, p2),
                v0.depth != 0 && v1.depth != 0 && v2.depth != 0,
                p0.wf() && p1.wf() && p2.wf(),
                p0 == v0.raster_location && p1 == v1.raster_location && p2 == v2.raster_location,
                plotter@ == row_base + row_fragments(v0, v1, v2, y as int, xl as int, x as int),
            decreases xr - x,
        {
            match resolve_at(&v0, &v1, &v2, x, y, xl, xr) {
                Some(f) => {
                    plotter.push(f);
                },
                None => {},
            }
            x = x + 1;
            assert(plotter@ =~= row_base + row_fragments(
                v0,
                v1,
                v2,
                y as int,
                xl as int,
                x as int,
            ));
        }
        assert(row_fragments(v0, v1, v2, y as int, xl as int, x as int) =~= row_fragments(
            v0,
            v1,
            v2,
            y as int,
            xl as int,
            xr as int,
        ));
        y = y + 1;
        assert(plotter@ =~= base + rows_fragments(v0, v1, v2, y as int));
    }
    assert(rows_fragments(v0, v1, v2, y as int) =~= rows_fragments(v0, v1, v2, y_end as int));
}

} // verus!
