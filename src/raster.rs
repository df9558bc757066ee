//! Raster points, the display viewport and canonical vertex ordering.
use vstd::prelude::*;

verus! {

/// Width of the display viewport, in pixels.
pub const W: usize = 320;

/// Height of the display viewport, in pixels.
pub const H: usize = 240;

/// A vertex placed on the pixel grid. A clipped vertex fell outside the
/// viewport; its coordinates carry no meaning.
#[derive(Clone, Copy, Debug, PartialEq, Eq, Structural)]
pub struct RasterPoint {
    pub x: usize,
    pub y: usize,
    pub clipped: bool,
}

impl RasterPoint {
    /// Coordinates as the viewport mapper produces them: at most one past
    /// the last column and row.
    pub open spec fn wf(self) -> bool {
        self.x <= W && self.y <= H
    }

    /// Coordinates small enough for exact key and area arithmetic: below
    /// 2^20 each. Viewport coordinates are.
    pub open spec fn in_range(self) -> bool {
        self.x < 0x10_0000 && self.y < 0x10_0000
    }

    /// The composite raster key `x + W * y`; row-major order.
    pub open spec fn key(self) -> int {
        self.x + W * self.y
    }
}

/// The composite raster key of a point.
pub fn raster_key(p: &RasterPoint) -> (k: usize)
    requires
        p.in_range(),
    ensures
        k == p.key(),
{
    p.x + W * p.y
}

/// One of three values, by position.
pub open spec fn pick<T>(a: T, b: T, c: T, i: int) -> T {
    if i == 0 {
        a
    } else if i == 1 {
        b
    } else {
        c
    }
}

/// Positions of three points in ascending key order; equal keys keep their
/// input order.
pub open spec fn key_order(a: RasterPoint, b: RasterPoint, c: RasterPoint) -> (int, int, int) {
    let (ka, kb, kc) = (a.key(), b.key(), c.key());
    if ka <= kb && ka <= kc {
        if kb <= kc {
            (0, 1, 2)
        } else {
            (0, 2, 1)
        }
    } else if kb <= kc {
        if ka <= kc {
            (1, 0, 2)
        } else {
            (1, 2, 0)
        }
    } else {
        if ka <= kb {
            (2, 0, 1)
        } else {
            (2, 1, 0)
        }
    }
}

/// Signed area term of the vectors `p0 - p1` and `p0 - p2`.
pub open spec fn cross(p0: RasterPoint, p1: RasterPoint, p2: RasterPoint) -> int {
    (p0.x - p1.x) * (p0.y - p2.y) - (p0.x - p2.x) * (p0.y - p1.y)
}

/// Positions of the canonical order: the smallest key first, then the other
/// two in key order, swapped when their signed area term is positive.
pub open spec fn canonical_index(a: RasterPoint, b: RasterPoint, c: RasterPoint) -> (int, int, int) {
    let (i, j, k) = key_order(a, b, c);
    if cross(pick(a, b, c, i), pick(a, b, c, j), pick(a, b, c, k)) <= 0 {
        (i, j, k)
    } else {
        (i, k, j)
    }
}

/// The three points in canonical order.
pub open spec fn canonical(a: RasterPoint, b: RasterPoint, c: RasterPoint) -> (
    RasterPoint,
    RasterPoint,
    RasterPoint,
) {
    let (i, j, k) = canonical_index(a, b, c);
    (pick(a, b, c, i), pick(a, b, c, j), pick(a, b, c, k))
}

/// Canonical order does not depend on the order in which three points with
/// distinct keys are given.
pub proof fn lemma_canonical_permutation_invariant(a: RasterPoint, b: RasterPoint, c: RasterPoint)
    requires
        a.key() != b.key(),
        b.key() != c.key(),
        a.key() != c.key(),
    ensures
        canonical(a, c, b) == canonical(a, b, c),
        canonical(b, a, c) == canonical(a, b, c),
        canonical(b, c, a) == canonical(a, b, c),
        canonical(c, a, b) == canonical(a, b, c),
        canonical(c, b, a) == canonical(a, b, c),
{
}

/// The positions, 0 to 2, of three raster points in canonical order.
pub fn canonical_indices(a: &RasterPoint, b: &RasterPoint, c: &RasterPoint) -> (r: (
    usize,
    usize,
    usize,
))
    requires
        a.in_range(),
        b.in_range(),
        c.in_range(),
    ensures
        (r.0 as int, r.1 as int, r.2 as int) == canonical_index(*a, *b, *c),
{
    let ka = raster_key(a);
    let kb = raster_key(b);
    let kc = raster_key(c);
    let (i, j, k): (usize, usize, usize) = if ka <= kb && ka <= kc {
        if kb <= kc {
            (0, 1, 2)
        } else {
            (0, 2, 1)
        }
    } else if kb <= kc {
        if ka <= kc {
            (1, 0, 2)
        } else {
            (1, 2, 0)
        }
    } else {
        if ka <= kb {
            (2, 0, 1)
        } else {
            (2, 1, 0)
        }
    };
    let pts = [*a, *b, *c];
    let (p0, p1, p2) = (pts[i], pts[j], pts[k]);
    let d1x = p0.x as i64 - p1.x as i64;
    let d1y = p0.y as i64 - p1.y as i64;
    let d2x = p0.x as i64 - p2.x as i64;
    let d2y = p0.y as i64 - p2.y as i64;
    assert(-0x10_0000 <= d1x <= 0x10_0000 && -0x10_0000 <= d2y <= 0x10_0000 && -0x10_0000 <= d2x
        <= 0x10_0000 && -0x10_0000 <= d1y <= 0x10_0000);
    assert(-0x100_0000_0000 <= d1x * d2y <= 0x100_0000_0000) by (nonlinear_arith)
        requires
            -0x10_0000 <= d1x <= 0x10_0000,
            -0x10_0000 <= d2y <= 0x10_0000,
    ;
    assert(-0x100_0000_0000 <= d2x * d1y <= 0x100_0000_0000) by (nonlinear_arith)
        requires
            -0x10_0000 <= d2x <= 0x10_0000,
            -0x10_0000 <= d1y <= 0x10_0000,
    ;
    if d1x * d2y - d2x * d1y <= 0 {
        (i, j, k)
    } else {
        (i, k, j)
    }
}

} // verus!
