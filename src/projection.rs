//! The projector and the viewport mapper, in fixed-point units: a length
//! `v` stands for `v / SCALE`.
use vstd::prelude::*;
use crate::mesh::Vertex;
use crate::perspective::{RasterLocatedVertex, Triangle, floor_div, floor_divide, lemma_mul_bound};
use crate::point::Pt3;
use crate::raster::{RasterPoint, W, H};

verus! {

/// Fixed-point units per unit of length.
pub const SCALE: i128 = 4096;

/// The largest coordinate magnitude the projector accepts.
pub const COORD_LIMIT: i32 = 0x10_0000;

/// A point on the viewing plane, in fixed-point units.
#[derive(Clone, Copy, Debug, PartialEq, Eq, Structural)]
pub struct Pt2 {
    pub x: i128,
    pub y: i128,
}

/// The plane that world points are projected onto: the eye at `origin_pt`,
/// the plane `dot(p, plane_unit_normal) == 1`, and two basis vectors that
/// span it.
#[derive(Clone, Copy, Debug, PartialEq, Eq, Structural)]
pub struct ProjectionData {
    pub origin_pt: Pt3,
    pub plane_unit_normal: Pt3,
    pub plane_basis_x: Pt3,
    pub plane_basis_y: Pt3,
}

/// The rectangle of the viewing plane shown on screen, and its size in pixels.
#[derive(Clone, Copy, Debug, PartialEq, Eq, Structural)]
pub struct ViewportData {
    pub x_min: i32,
    pub x_max: i32,
    pub y_min: i32,
    pub y_max: i32,
    pub pixels_tall: usize,
    pub pixels_wide: usize,
}

/// A vertex projected onto the viewing plane, with its view-space depth.
/// `defined` is false when the projection is undefined (`dot(s - o, n)` is
/// 0); its plane point then carries no meaning.
#[derive(Clone, Copy, Debug, PartialEq, Eq, Structural)]
pub struct ProjectedVertex {
    pub spatial: Pt3,
    pub projected: Pt2,
    pub depth: i32,
    pub defined: bool,
    pub variable: Pt3,
}

impl ViewportData {
    /// A rectangle of positive extent, shown on at most the display's pixels.
    pub open spec fn wf(self) -> bool {
        &&& self.x_min < self.x_max
        &&& self.y_min < self.y_max
        &&& self.pixels_wide <= W
        &&& self.pixels_tall <= H
    }
}

/// Coordinates within `COORD_LIMIT`.
pub open spec fn small(p: Pt3) -> bool {
    &&& -COORD_LIMIT <= p.x <= COORD_LIMIT
    &&& -COORD_LIMIT <= p.y <= COORD_LIMIT
    &&& -COORD_LIMIT <= p.z <= COORD_LIMIT
}

/// Every point of the projection within the coordinate limit.
pub open spec fn projection_wf(proj: ProjectionData) -> bool {
    &&& small(proj.origin_pt)
    &&& small(proj.plane_unit_normal)
    &&& small(proj.plane_basis_x)
    &&& small(proj.plane_basis_y)
}

/// The dot product of two points.
pub open spec fn dot(a: Pt3, b: Pt3) -> int {
    a.x * b.x + a.y * b.y + a.z * b.z
}

/// `dot(a - b, c)`.
pub open spec fn dot_diff(a: Pt3, b: Pt3, c: Pt3) -> int {
    (a.x - b.x) * c.x + (a.y - b.y) * c.y + (a.z - b.z) * c.z
}

/// The plane point of `s`: the point `o * t + s * (1 - t)`, with
/// `t = (1 - dot(s, n)) / dot(s - o, n)`, read in the plane basis and
/// rounded down. A point with `dot(s, n) == 1` stays where it is. None where
/// `dot(s - o, n)` is 0.
pub open spec fn project(s: Pt3, proj: ProjectionData) -> Option<Pt2> {
    let n = proj.plane_unit_normal;
    let o = proj.origin_pt;
    let num = SCALE * SCALE - dot(s, n);
    let den = dot_diff(s, o, n);
    if den == 0 {
        None
    } else {
        Some(
            Pt2 {
                x: floor_div(
                    num * dot(o, proj.plane_basis_x) + (den - num) * dot(s, proj.plane_basis_x),
                    den * SCALE,
                ) as i128,
                y: floor_div(
                    num * dot(o, proj.plane_basis_y) + (den - num) * dot(s, proj.plane_basis_y),
                    den * SCALE,
                ) as i128,
            },
        )
    }
}

/// The view-space depth of `s`: its position along the plane normal.
pub open spec fn view_depth(s: Pt3, proj: ProjectionData) -> int {
    floor_div(dot(s, proj.plane_unit_normal), SCALE as int)
}

/// `dot(a, b)` of two points within the coordinate limit.
fn dot_value(a: &Pt3, b: &Pt3) -> (r: i128)
    requires
        small(*a),
        small(*b),
    ensures
        r == dot(*a, *b),
        -0x300_0000_0000 <= r <= 0x300_0000_0000,
{
    let ghost l: int = COORD_LIMIT as int;
    proof {
        lemma_mul_bound(a.x as int, b.x as int, l, l);
        lemma_mul_bound(a.y as int, b.y as int, l, l);
        lemma_mul_bound(a.z as int, b.z as int, l, l);
    }
    (a.x as i128) * (b.x as i128) + (a.y as i128) * (b.y as i128) + (a.z as i128) * (b.z as i128)
}

/// `dot(a - b, c)` of three points within the coordinate limit.
fn dot_diff_value(a: &Pt3, b: &Pt3, c: &Pt3) -> (r: i128)
    requires
        small(*a),
        small(*b),
        small(*c),
    ensures
        r == dot_diff(*a, *b, *c),
        -0x600_0000_0000 <= r <= 0x600_0000_0000,
{
    let ghost l: int = COORD_LIMIT as int;
    proof {
        lemma_mul_bound(a.x - b.x, c.x as int, 2 * l, l);
        lemma_mul_bound(a.y - b.y, c.y as int, 2 * l, l);
        lemma_mul_bound(a.z - b.z, c.z as int, 2 * l, l);
    }
    (a.x as i128 - b.x as i128) * (c.x as i128) + (a.y as i128 - b.y as i128) * (c.y as i128) + (
    a.z as i128 - b.z as i128) * (c.z as i128)
}

/// One plane coordinate from the projection parameter `t = num / den` and the basis
/// readings of the eye and of the point.
fn plane_coord(num: i128, den: i128, eye: i128, point: i128) -> (r: i128)
    requires
        den != 0,
        -0x1000_0000_0000 <= num <= 0x1000_0000_0000,
        -0x1000_0000_0000 <= den <= 0x1000_0000_0000,
        -0x1000_0000_0000 <= eye <= 0x1000_0000_0000,
        -0x1000_0000_0000 <= point <= 0x1000_0000_0000,
    ensures
        r == floor_div(num * eye + (den - num) * point, den * SCALE),
{
    let ghost b: int = 0x1000_0000_0000;
    proof {
        lemma_mul_bound(num as int, eye as int, b, b);
        lemma_mul_bound(den - num, point as int, 2 * b, b);
        lemma_mul_bound(den as int, SCALE as int, b, 4096);
        assert(den * SCALE != 0) by (nonlinear_arith)
            requires
                den != 0,
        ;
    }
    floor_divide(num * eye + (den - num) * point, den * SCALE)
}

/// The plane point of `p`, or None where the projection is undefined.
pub fn simple_projection(p: Pt3, proj: &ProjectionData) -> (r: Option<Pt2>)
    requires
        small(p),
        projection_wf(*proj),
    ensures
        r == project(p, *proj),
{
    let n = &proj.plane_unit_normal;
    let o = &proj.origin_pt;
    let sn = dot_value(&p, n);
    let num = SCALE * SCALE - sn;
    let den = dot_diff_value(&p, o, n);
    if den == 0 {
        return None;
    }
    let ox = dot_value(o, &proj.plane_basis_x);
    let sx = dot_value(&p, &proj.plane_basis_x);
    let oy = dot_value(o, &proj.plane_basis_y);
    let sy = dot_value(&p, &proj.plane_basis_y);
    Some(Pt2 { x: plane_coord(num, den, ox, sx), y: plane_coord(num, den, oy, sy) })
}

/// Projects a mesh vertex onto the viewing plane and records its depth.
pub fn simple_projection_with_z(p: Vertex, proj: &ProjectionData) -> (r: ProjectedVertex)
    requires
        small(p.spatial),
        projection_wf(*proj),
    ensures
        r.spatial == p.spatial,
        r.variable == p.variable,
        r.depth == view_depth(p.spatial, *proj),
        r.defined == project(p.spatial, *proj).is_some(),
        r.defined ==> r.projected == project(p.spatial, *proj).unwrap(),
{
    let sn = dot_value(&p.spatial, &proj.plane_unit_normal);
    let depth = floor_divide(sn, SCALE);
    proof {
        let d = sn as int;
        if d >= 0 {
            vstd::arithmetic::div_mod::lemma_div_is_ordered(d, 0x300_0000_0000, 4096);
            vstd::arithmetic::div_mod::lemma_div_pos_is_pos(d, 4096);
        } else {
            vstd::arithmetic::div_mod::lemma_div_is_ordered(-0x300_0000_0000, d, 4096);
            vstd::arithmetic::div_mod::lemma_div_is_ordered(d, 0, 4096);
        }
    }
    let (projected, defined) = match simple_projection(p.spatial, proj) {
        Some(q) => (q, true),
        None => (Pt2 { x: 0, y: 0 }, false),
    };
    ProjectedVertex { spatial: p.spatial, projected, depth: depth as i32, defined, variable: p.variable }
}

/// The pixel of plane point `p`: columns grow with `x`, rows shrink with
/// `y`, both rounded down. A point outside the viewport's rectangle is
/// clipped and placed at `(0, 0)`.
pub open spec fn locate(p: Pt2, v: ViewportData) -> RasterPoint {
    if p.x < v.x_min || p.x > v.x_max || p.y < v.y_min || p.y > v.y_max {
        RasterPoint { x: 0, y: 0, clipped: true }
    } else {
        RasterPoint {
            x: (v.pixels_wide * (p.x - v.x_min) / (v.x_max - v.x_min)) as usize,
            y: (v.pixels_tall * (v.y_max - p.y) / (v.y_max - v.y_min)) as usize,
            clipped: false,
        }
    }
}

/// Maps a plane point to its pixel.
pub fn spatial_to_pixel(p: Pt2, v: &ViewportData) -> (r: RasterPoint)
    requires
        v.wf(),
    ensures
        r == locate(p, *v),
        r.wf(),
{
    if p.x < v.x_min as i128 || p.x > v.x_max as i128 || p.y < v.y_min as i128 || p.y
        > v.y_max as i128 {
        return RasterPoint { x: 0, y: 0, clipped: true };
    }
    let dx = (p.x - v.x_min as i128) as u128;
    let wx = (v.x_max as i128 - v.x_min as i128) as u128;
    let dy = (v.y_max as i128 - p.y) as u128;
    let wy = (v.y_max as i128 - v.y_min as i128) as u128;
    let (pw, pt) = (v.pixels_wide as u128, v.pixels_tall as u128);
    proof {
        assert(pw * dx <= pw * wx) by (nonlinear_arith)
            requires
                dx <= wx,
        ;
        assert(pt * dy <= pt * wy) by (nonlinear_arith)
            requires
                dy <= wy,
        ;
        assert(pw * wx <= 320 * 0x1_0000_0000) by (nonlinear_arith)
            requires
                pw <= 320,
                wx <= 0x1_0000_0000,
        ;
        assert(pt * wy <= 320 * 0x1_0000_0000) by (nonlinear_arith)
            requires
                pt <= 320,
                wy <= 0x1_0000_0000,
        ;
        vstd::arithmetic::div_mod::lemma_div_is_ordered((pw * dx) as int, (pw * wx) as int, wx as int);
        vstd::arithmetic::div_mod::lemma_div_by_multiple(pw as int, wx as int);
        vstd::arithmetic::div_mod::lemma_div_is_ordered((pt * dy) as int, (pt * wy) as int, wy as int);
        vstd::arithmetic::div_mod::lemma_div_by_multiple(pt as int, wy as int);
        assert(pw * wx == wx * pw) by (nonlinear_arith);
        assert(pt * wy == wy * pt) by (nonlinear_arith);
    }
    let x = (pw * dx) / wx;
    let y = (pt * dy) / wy;
    RasterPoint { x: x as usize, y: y as usize, clipped: false }
}

/// Places a projected vertex on the pixel grid. A vertex whose projection
/// is undefined is clipped.
pub fn raster_locate_vertex(p: ProjectedVertex, v: &ViewportData) -> (r: RasterLocatedVertex)
    requires
        v.wf(),
    ensures
        r.raster_location == if p.defined {
            locate(p.projected, *v)
        } else {
            RasterPoint { x: 0, y: 0, clipped: true }
        },
        r.raster_location.wf(),
        r.depth == p.depth,
        r.variable == p.variable,
{
    let raster_location = if p.defined {
        spatial_to_pixel(p.projected, v)
    } else {
        RasterPoint { x: 0, y: 0, clipped: true }
    };
    RasterLocatedVertex { raster_location, depth: p.depth, variable: p.variable }
}

/// The pixel-grid vertex of a mesh vertex: projected, then located.
pub open spec fn placed(p: Vertex, v: ViewportData, proj: ProjectionData) -> RasterLocatedVertex {
    RasterLocatedVertex {
        raster_location: match project(p.spatial, proj) {
            Some(q) => locate(q, v),
            None => RasterPoint { x: 0, y: 0, clipped: true },
        },
        depth: view_depth(p.spatial, proj) as i32,
        variable: p.variable,
    }
}

/// Projects and locates the three vertices of a mesh triangle.
pub fn prep_triangle(t: Triangle<Vertex>, viewport: &ViewportData, projection: &ProjectionData) -> (r:
    Triangle<RasterLocatedVertex>)
    requires
        viewport.wf(),
        projection_wf(*projection),
        small(t.points[0].spatial),
        small(t.points[1].spatial),
        small(t.points[2].spatial),
    ensures
        r.points[0] == placed(t.points[0], *viewport, *projection),
        r.points[1] == placed(t.points[1], *viewport, *projection),
        r.points[2] == placed(t.points[2], *viewport, *projection),
        r.points[0].raster_location.wf(),
        r.points[1].raster_location.wf(),
        r.points[2].raster_location.wf(),
{
    let a = raster_locate_vertex(simple_projection_with_z(t.points[0], projection), viewport);
    let b = raster_locate_vertex(simple_projection_with_z(t.points[1], projection), viewport);
    let c = raster_locate_vertex(simple_projection_with_z(t.points[2], projection), viewport);
    proof {
        assert(a == placed(t.points[0], *viewport, *projection));
        assert(b == placed(t.points[1], *viewport, *projection));
        assert(c == placed(t.points[2], *viewport, *projection));
    }
    Triangle { points: [a, b, c] }
}

} // verus!
