//! Mesh generation: a jittered grid over a rectangle, each cell split into
//! two triangles along a randomly chosen diagonal.
use vstd::prelude::*;
use rand::rngs::StdRng;
use crate::perspective::Triangle;
use crate::point::Pt3;
use crate::random::{coin, random_u32};

verus! {

/// A mesh vertex: its position and the attribute carried along with it.
#[derive(Clone, Copy, Debug, PartialEq, Eq, Structural)]
pub struct Vertex {
    pub spatial: Pt3,
    pub variable: Pt3,
}

/// The colour channels held in the upper three bytes of `bits`.
pub fn color_point_from_bits(bits: u32) -> (r: Pt3)
    ensures
        r.x == (bits / 0x100) % 0x100,
        r.y == (bits / 0x1_0000) % 0x100,
        r.z == bits / 0x100_0000,
{
    Pt3 {
        x: ((bits / 0x100) % 0x100) as i32,
        y: ((bits / 0x1_0000) % 0x100) as i32,
        z: (bits / 0x100_0000) as i32,
    }
}

/// A random colour, each channel in `[0, 255]`.
pub fn get_color(rng: &mut StdRng) -> (r: Pt3)
    ensures
        0 <= r.x < 256 && 0 <= r.y < 256 && 0 <= r.z < 256,
{
    color_point_from_bits(random_u32(rng))
}

/// The coordinate of grid line `i` of `n` across `[lo, hi]`, before jitter.
pub open spec fn grid_coord(lo: int, hi: int, n: int, i: int) -> int {
    lo + i * (hi - lo) / n
}

/// The shape of a jittered grid: the rectangle it covers, its size in
/// points, the jitter, and the depth of its plane.
#[derive(Clone, Copy, Debug, PartialEq, Eq, Structural)]
pub struct Grid {
    pub x_min: i32,
    pub x_max: i32,
    pub y_min: i32,
    pub y_max: i32,
    pub grid_width: usize,
    pub grid_height: usize,
    pub jitter: i32,
    pub depth: i32,
}

impl Grid {
    /// A rectangle, a jitter that moves no coordinate past `i32::MAX`, and a
    /// grid whose random bits fit in memory.
    pub open spec fn wf(self) -> bool {
        &&& self.x_min <= self.x_max
        &&& self.y_min <= self.y_max
        &&& 0 <= self.jitter
        &&& self.x_max + self.jitter <= i32::MAX
        &&& self.y_max + self.jitter <= i32::MAX
        &&& self.depth + self.jitter <= i32::MAX
        &&& 4 * self.grid_width * self.grid_height <= usize::MAX
    }

    /// The number of grid cells: none for a grid narrower or shorter than 2.
    pub open spec fn cells(self) -> int {
        if self.grid_width >= 2 && self.grid_height >= 2 {
            (self.grid_width - 1) * (self.grid_height - 1)
        } else {
            0
        }
    }

    /// The number of random bits a mesh of this grid takes: three per point
    /// (whether its x, y and depth are moved by the jitter), in row-major
    /// order of the points, then one per cell (which diagonal splits it).
    pub open spec fn bit_count(self) -> int {
        3 * self.grid_width * self.grid_height + self.cells()
    }

    /// Grid point `(i, j)`, each coordinate moved by the jitter where its
    /// bit is set.
    pub open spec fn point(self, bits: Seq<bool>, i: int, j: int) -> Pt3 {
        let p = j * self.grid_width + i;
        let jt = self.jitter as int;
        let x0 = grid_coord(self.x_min as int, self.x_max as int, self.grid_width as int, i);
        let y0 = grid_coord(self.y_min as int, self.y_max as int, self.grid_height as int, j);
        Pt3 {
            x: (x0 + if bits[3 * p] { jt } else { 0 }) as i32,
            y: (y0 + if bits[3 * p + 1] { jt } else { 0 }) as i32,
            z: (self.depth + if bits[3 * p + 2] { jt } else { 0 }) as i32,
        }
    }

    /// The position in a mesh of the first of the two triangles of cell
    /// `(i, j)`.
    pub open spec fn cell_index(self, i: int, j: int) -> int {
        2 * (j * (self.grid_width - 1) + i)
    }

    /// Triangles `cell_index(i, j)` and the next of `r` split cell `(i, j)`
    /// along the diagonal its bit chooses: corners `a b d` and `a c d` when it
    /// is set, `a b c` and `b c d` otherwise, where `a` is grid point
    /// `(i, j)`, `b` is `(i + 1, j)`, `c` is `(i, j + 1)` and `d` is
    /// `(i + 1, j + 1)`.
    pub open spec fn cell_from_bits(self, r: Seq<Triangle<Vertex>>, bits: Seq<bool>, i: int, j: int) -> bool {
        let a = self.point(bits, i, j);
        let b = self.point(bits, i + 1, j);
        let c = self.point(bits, i, j + 1);
        let d = self.point(bits, i + 1, j + 1);
        let k = self.cell_index(i, j);
        if bits[3 * self.grid_width * self.grid_height + j * (self.grid_width - 1) + i] {
            is_tri(r[k], a, b, d) && is_tri(r[k + 1], a, c, d)
        } else {
            is_tri(r[k], a, b, c) && is_tri(r[k + 1], b, c, d)
        }
    }

    /// `r` is the mesh of this grid built from `bits`: two triangles per
    /// cell, cells in row-major order.
    pub open spec fn mesh_from_bits(self, r: Seq<Triangle<Vertex>>, bits: Seq<bool>) -> bool {
        &&& r.len() == triangle_count(self.grid_width as int, self.grid_height as int)
        &&& forall|i: int, j: int|
            0 <= i < self.grid_width - 1 && 0 <= j < self.grid_height - 1 ==> #[trigger] self.cell_from_bits(
                r,
                bits,
                i,
                j,
            )
    }
}

/// A mesh vertex whose attribute is a copy of its position.
pub open spec fn vtx(p: Pt3) -> Vertex {
    Vertex { spatial: p, variable: p }
}

/// `t` has corners `a, b, c`, in this order, each carrying its position.
pub open spec fn is_tri(t: Triangle<Vertex>, a: Pt3, b: Pt3, c: Pt3) -> bool {
    t.points[0] == vtx(a) && t.points[1] == vtx(b) && t.points[2] == vtx(c)
}

/// The number of triangles of a `gw` by `gh` grid.
pub open spec fn triangle_count(gw: int, gh: int) -> int {
    if gw >= 2 && gh >= 2 {
        2 * (gw - 1) * (gh - 1)
    } else {
        0
    }
}

/// Position `p` lies in `[x_min - jitter, x_max + jitter]` by
/// `[y_min - jitter, y_max + jitter]`.
pub open spec fn in_bounds(p: Pt3, x_min: int, x_max: int, y_min: int, y_max: int, jitter: int) -> bool {
    x_min - jitter <= p.x <= x_max + jitter && y_min - jitter <= p.y <= y_max + jitter
}

/// Every vertex of `t` lies in the jittered rectangle.
pub open spec fn tri_in_bounds(t: Triangle<Vertex>, x_min: int, x_max: int, y_min: int, y_max: int, jitter: int) -> bool {
    forall|m: int| 0 <= m < 3 ==> in_bounds(#[trigger] t.points[m].spatial, x_min, x_max, y_min, y_max, jitter)
}

/// The coordinate of grid line `i` of `n` across `[lo, hi]`.
fn grid_line(lo: i32, hi: i32, n: usize, i: usize) -> (r: i32)
    requires
        lo <= hi,
        i < n,
    ensures
        r == grid_coord(lo as int, hi as int, n as int, i as int),
        lo <= r <= hi,
{
    let range: u128 = (hi as i64 - lo as i64) as u128;
    proof {
        assert(i * range <= range * n) by (nonlinear_arith)
            requires
                i < n,
                0 <= range,
        ;
        assert(i * range < 0x1_0000_0000_0000_0000 * 0x1_0000_0000) by (nonlinear_arith)
            requires
                i < 0x1_0000_0000_0000_0000,
                range < 0x1_0000_0000,
        ;
        vstd::arithmetic::div_mod::lemma_div_is_ordered((i * range) as int, (range * n) as int, n as int);
        vstd::arithmetic::div_mod::lemma_div_by_multiple(range as int, n as int);
        vstd::arithmetic::div_mod::lemma_div_pos_is_pos((i * range) as int, n as int);
    }
    let q: u128 = (i as u128 * range) / (n as u128);
    (lo as i64 + q as i64) as i32
}

/// Grid point `(i, j)`, each coordinate moved by the jitter where its bit
/// is set.
fn grid_point(grid: &Grid, bx: bool, by: bool, bz: bool, i: usize, j: usize) -> (p: Pt3)
    requires
        grid.wf(),
        i < grid.grid_width,
        j < grid.grid_height,
    ensures
        p.x == grid_coord(grid.x_min as int, grid.x_max as int, grid.grid_width as int, i as int) + if bx {
            grid.jitter as int
        } else {
            0
        },
        p.y == grid_coord(grid.y_min as int, grid.y_max as int, grid.grid_height as int, j as int) + if by {
            grid.jitter as int
        } else {
            0
        },
        p.z == grid.depth + if bz {
            grid.jitter as int
        } else {
            0
        },
        in_bounds(p, grid.x_min as int, grid.x_max as int, grid.y_min as int, grid.y_max as int, grid.jitter as int),
{
    let x0 = grid_line(grid.x_min, grid.x_max, grid.grid_width, i);
    let y0 = grid_line(grid.y_min, grid.y_max, grid.grid_height, j);
    let x = if bx {
        x0 + grid.jitter
    } else {
        x0
    };
    let y = if by {
        y0 + grid.jitter
    } else {
        y0
    };
    let z = if bz {
        grid.depth + grid.jitter
    } else {
        grid.depth
    };
    Pt3 { x, y, z }
}

proof fn lemma_grid_index(i: int, j: int, w: int, h: int)
    requires
        0 <= i < w,
        0 <= j < h,
    ensures
        0 <= j * w + i < w * h,
        j * w + i + 1 <= w * h,
{
    assert(0 <= j * w + i < w * h) by (nonlinear_arith)
        requires
            0 <= i < w,
            0 <= j < h,
    ;
}

proof fn lemma_index_order(i0: int, j0: int, i: int, j: int, w: int)
    requires
        0 <= i0 < w,
        0 <= j0,
        0 <= i,
        j0 < j || (j0 == j && i0 < i),
    ensures
        j0 * w + i0 < j * w + i,
{
    assert(j0 * w + i0 < j * w + i) by (nonlinear_arith)
        requires
            0 <= i0 < w,
            0 <= j0,
            0 <= i,
            j0 < j || (j0 == j && i0 < i),
    ;
}

/// Builds the mesh of `grid` from given random bits (see `Grid::bit_count`
/// for their layout): each grid point moved by the jitter where its bits say
/// so, each cell split along the diagonal its bit chooses into two triangles
/// whose vertices carry their own positions as attributes. The same bits
/// always give the same mesh.
pub fn build_triangle_partition(grid: &Grid, bits: &Vec<bool>) -> (r: Vec<Triangle<Vertex>>)
    requires
        grid.wf(),
        bits@.len() == grid.bit_count(),
    ensures
        grid.mesh_from_bits(r@, bits@),
        forall|k: int|
            0 <= k < r@.len() ==> tri_in_bounds(
                #[trigger] r@[k],
                grid.x_min as int,
                grid.x_max as int,
                grid.y_min as int,
                grid.y_max as int,
                grid.jitter as int,
            ),
{
    let gw = grid.grid_width;
    let gh = grid.grid_height;
    let mut points: Vec<Pt3> = Vec::new();
    let mut j: usize = 0;
    while j < gh
        invariant
            grid.wf(),
            bits@.len() == grid.bit_count(),
            gw == grid.grid_width && gh == grid.grid_height,
            j <= gh,
            points@.len() == j * gw,
            forall|k: int|
                0 <= k < points@.len() ==> in_bounds(
                    #[trigger] points@[k],
                    grid.x_min as int,
                    grid.x_max as int,
                    grid.y_min as int,
                    grid.y_max as int,
                    grid.jitter as int,
                ),
            forall|i0: int, j0: int|
                0 <= i0 < gw && 0 <= j0 < j ==> #[trigger] points@[j0 * gw + i0] == grid.point(bits@, i0, j0),
        decreases gh - j,
    {
        let mut i: usize = 0;
        while i < gw
            invariant
                grid.wf(),
                bits@.len() == grid.bit_count(),
                gw == grid.grid_width && gh == grid.grid_height,
                j < gh,
                i <= gw,
                points@.len() == j * gw + i,
                forall|k: int|
                    0 <= k < points@.len() ==> in_bounds(
                        #[trigger] points@[k],
                        grid.x_min as int,
                        grid.x_max as int,
                        grid.y_min as int,
                        grid.y_max as int,
                        grid.jitter as int,
                    ),
                forall|i0: int, j0: int|
                    0 <= i0 < gw && 0 <= j0 < j || (j0 == j && 0 <= i0 < i) ==> #[trigger] points@[j0 * gw
                        + i0] == grid.point(bits@, i0, j0),
            decreases gw - i,
        {
            proof {
                lemma_grid_index(i as int, j as int, gw as int, gh as int);
                assert(3 * (j * gw + i) + 2 < 3 * gw * gh) by (nonlinear_arith)
                    requires
                        j * gw + i < gw * gh,
                ;
                assert(3 * gw * gh <= 4 * gw * gh) by (nonlinear_arith)
                    requires
                        gw >= 0,
                        gh >= 0,
                ;
            }
            let p_idx = j * gw + i;
            let p = grid_point(grid, bits[3 * p_idx], bits[3 * p_idx + 1], bits[3 * p_idx + 2], i, j);
            assert(p == grid.point(bits@, i as int, j as int));
            let ghost before = points@;
            points.push(p);
            proof {
                assert forall|k: int| 0 <= k < points@.len() implies in_bounds(
                    #[trigger] points@[k],
                    grid.x_min as int,
                    grid.x_max as int,
                    grid.y_min as int,
                    grid.y_max as int,
                    grid.jitter as int,
                ) by {
                    if k < before.len() {
                        assert(points@[k] == before[k]);
                    }
                }
                assert forall|i0: int, j0: int|
                    0 <= i0 < gw && 0 <= j0 < j || (j0 == j && 0 <= i0 < i + 1) implies #[trigger] points@[j0
                        * gw + i0] == grid.point(bits@, i0, j0) by {
                    if j0 == j && i0 == i {
                        assert(points@[j0 * gw + i0] == p);
                    } else {
                        lemma_index_order(i0, j0, i as int, j as int, gw as int);
                        assert(points@[j0 * gw + i0] == before[j0 * gw + i0]);
                    }
                }
            }
            i = i + 1;
        }
        proof {
            assert((j + 1) * gw == j * gw + gw) by (nonlinear_arith);
        }
        j = j + 1;
    }
    proof {
        assert(points@.len() == gw * gh) by (nonlinear_arith)
            requires
                points@.len() == j * gw,
                j == gh,
        ;
    }
    let ghost g = points@;
    let mut tris: Vec<Triangle<Vertex>> = Vec::new();
    if gw >= 2 && gh >= 2 {
        let w1 = gw - 1;
        proof {
            assert(3 * (gw * gh) + gw * gh <= usize::MAX && 3 * (gw * gh) == 3 * gw * gh) by (nonlinear_arith)
                requires
                    4 * gw * gh <= usize::MAX,
                    gw >= 2,
                    gh >= 2,
            ;
        }
        let base = 3 * (gw * gh);
        let mut j: usize = 0;
        while j < gh - 1
            invariant
                grid.wf(),
                bits@.len() == grid.bit_count(),
                gw == grid.grid_width && gh == grid.grid_height,
                gw >= 2 && gh >= 2 && w1 == gw - 1,
                base == 3 * gw * gh,
                points@ == g,
                g.len() == gw * gh,
                forall|k: int|
                    0 <= k < g.len() ==> in_bounds(
                        #[trigger] g[k],
                        grid.x_min as int,
                        grid.x_max as int,
                        grid.y_min as int,
                        grid.y_max as int,
                        grid.jitter as int,
                    ),
                forall|i0: int, j0: int|
                    0 <= i0 < gw && 0 <= j0 < gh ==> #[trigger] g[j0 * gw + i0] == grid.point(bits@, i0, j0),
                j <= gh - 1,
                tris@.len() == 2 * (j * w1),
                forall|k: int|
                    0 <= k < tris@.len() ==> tri_in_bounds(
                        #[trigger] tris@[k],
                        grid.x_min as int,
                        grid.x_max as int,
                        grid.y_min as int,
                        grid.y_max as int,
                        grid.jitter as int,
                    ),
                forall|i0: int, j0: int|
                    0 <= i0 < w1 && 0 <= j0 < j ==> #[trigger] grid.cell_from_bits(tris@, bits@, i0, j0),
            decreases gh - 1 - j,
        {
            let mut i: usize = 0;
            while i < w1
                invariant
                    grid.wf(),
                    bits@.len() == grid.bit_count(),
                    gw == grid.grid_width && gh == grid.grid_height,
                    gw >= 2 && gh >= 2 && w1 == gw - 1,
                    base == 3 * gw * gh,
                    points@ == g,
                    g.len() == gw * gh,
                    forall|k: int|
                        0 <= k < g.len() ==> in_bounds(
                            #[trigger] g[k],
                            grid.x_min as int,
                            grid.x_max as int,
                            grid.y_min as int,
                            grid.y_max as int,
                            grid.jitter as int,
                        ),
                    forall|i0: int, j0: int|
                        0 <= i0 < gw && 0 <= j0 < gh ==> #[trigger] g[j0 * gw + i0] == grid.point(bits@, i0, j0),
                    j < gh - 1,
                    i <= w1,
                    tris@.len() == 2 * (j * w1 + i),
                    forall|k: int|
                        0 <= k < tris@.len() ==> tri_in_bounds(
                            #[trigger] tris@[k],
                            grid.x_min as int,
                            grid.x_max as int,
                            grid.y_min as int,
                            grid.y_max as int,
                            grid.jitter as int,
                        ),
                    forall|i0: int, j0: int|
                        0 <= i0 < w1 && 0 <= j0 < j || (j0 == j && 0 <= i0 < i) ==> #[trigger] grid.cell_from_bits(
                            tris@,
                            bits@,
                            i0,
                            j0,
                        ),
                decreases w1 - i,
            {
                proof {
                    lemma_grid_index(i + 1, j + 1, gw as int, gh as int);
                    lemma_grid_index(i as int, j as int, gw as int, gh as int);
                    lemma_grid_index(i as int, j as int, w1 as int, gh - 1);
                    assert((j + 1) * gw + i + 1 <= usize::MAX) by (nonlinear_arith)
                        requires
                            (j + 1) * gw + i + 1 < gw * gh,
                            4 * gw * gh <= usize::MAX,
                    ;
                    assert(j * gw <= (j + 1) * gw) by (nonlinear_arith);
                    assert(2 * (j * w1 + i) + 2 <= 2 * gw * gh) by (nonlinear_arith)
                        requires
                            j * w1 + i < w1 * (gh - 1),
                            w1 < gw,
                    ;
                    assert(base + (j * w1 + i) < 4 * gw * gh) by (nonlinear_arith)
                        requires
                            base == 3 * gw * gh,
                            j * w1 + i < w1 * (gh - 1),
                            w1 < gw,
                    ;
                }
                let a = points[j * gw + i];
                let b = points[j * gw + i + 1];
                let c = points[(j + 1) * gw + i];
                let d = points[(j + 1) * gw + i + 1];
                let diag = bits[base + (j * w1 + i)];
                let ghost before = tris@;
                let (t0, t1) = if diag {
                    (
                        Triangle { points: [Vertex { spatial: a, variable: a }, Vertex { spatial: b, variable: b }, Vertex { spatial: d, variable: d }] },
                        Triangle { points: [Vertex { spatial: a, variable: a }, Vertex { spatial: c, variable: c }, Vertex { spatial: d, variable: d }] },
                    )
                } else {
                    (
                        Triangle { points: [Vertex { spatial: a, variable: a }, Vertex { spatial: b, variable: b }, Vertex { spatial: c, variable: c }] },
                        Triangle { points: [Vertex { spatial: b, variable: b }, Vertex { spatial: c, variable: c }, Vertex { spatial: d, variable: d }] },
                    )
                };
                assert(tri_in_bounds(t0, grid.x_min as int, grid.x_max as int, grid.y_min as int, grid.y_max as int, grid.jitter as int));
                assert(tri_in_bounds(t1, grid.x_min as int, grid.x_max as int, grid.y_min as int, grid.y_max as int, grid.jitter as int));
                tris.push(t0);
                tris.push(t1);
                proof {
                    assert(j * gw + i + 1 == j * gw + (i + 1));
                    assert((j + 1) * gw + i + 1 == (j + 1) * gw + (i + 1));
                    assert(a == grid.point(bits@, i as int, j as int));
                    assert(b == grid.point(bits@, i + 1, j as int));
                    assert(c == grid.point(bits@, i as int, j + 1));
                    assert(d == grid.point(bits@, i + 1, j + 1));
                    assert(grid.cell_index(i as int, j as int) == before.len());
                    assert(tris@[before.len() as int] == t0 && tris@[before.len() + 1int] == t1);
                    assert(grid.cell_from_bits(tris@, bits@, i as int, j as int));
                    assert forall|i0: int, j0: int|
                        0 <= i0 < w1 && 0 <= j0 < j || (j0 == j && 0 <= i0 < i + 1) implies #[trigger] grid.cell_from_bits(
                            tris@,
                            bits@,
                            i0,
                            j0,
                        ) by {
                        if !(j0 == j && i0 == i) {
                            lemma_index_order(i0, j0, i as int, j as int, w1 as int);
                            let k = grid.cell_index(i0, j0);
                            assert(tris@[k] == before[k]);
                            assert(tris@[k + 1] == before[k + 1]);
                            assert(grid.cell_from_bits(before, bits@, i0, j0));
                        }
                    }
                    assert forall|k: int| 0 <= k < tris@.len() implies tri_in_bounds(
                        #[trigger] tris@[k],
                        grid.x_min as int,
                        grid.x_max as int,
                        grid.y_min as int,
                        grid.y_max as int,
                        grid.jitter as int,
                    ) by {
                        if k < before.len() {
                            assert(tris@[k] == before[k]);
                        }
                    }
                }
                i = i + 1;
            }
            proof {
                assert((j + 1) * w1 == j * w1 + w1) by (nonlinear_arith);
            }
            j = j + 1;
        }
        proof {
            assert(2 * (j * w1) == 2 * (gw - 1) * (gh - 1)) by (nonlinear_arith)
                requires
                    j == gh - 1,
                    w1 == gw - 1,
            ;
        }
    }
    tris
}

/// Lays out a `grid_width` by `grid_height` grid of points over the
/// rectangle and builds its mesh (see `build_triangle_partition`) from coin
/// flips drawn from `rng`. A grid narrower or shorter than 2 has no cells.
pub fn make_triangle_partition(
    x_min: i32,
    x_max: i32,
    y_min: i32,
    y_max: i32,
    grid_width: usize,
    grid_height: usize,
    jitter: i32,
    depth: i32,
    rng: &mut StdRng,
) -> (r: Vec<Triangle<Vertex>>)
    requires
        x_min <= x_max,
        y_min <= y_max,
        0 <= jitter,
        x_max + jitter <= i32::MAX,
        y_max + jitter <= i32::MAX,
        depth + jitter <= i32::MAX,
        4 * grid_width * grid_height <= usize::MAX,
    ensures
        r@.len() == triangle_count(grid_width as int, grid_height as int),
        forall|k: int|
            0 <= k < r@.len() ==> tri_in_bounds(
                #[trigger] r@[k],
                x_min as int,
                x_max as int,
                y_min as int,
                y_max as int,
                jitter as int,
            ),
        exists|bits: Seq<bool>|
            bits.len() == (Grid { x_min, x_max, y_min, y_max, grid_width, grid_height, jitter, depth }).bit_count()
                && #[trigger] (Grid { x_min, x_max, y_min, y_max, grid_width, grid_height, jitter, depth }).mesh_from_bits(
                r@,
                bits,
            ),
{
    let grid = Grid { x_min, x_max, y_min, y_max, grid_width, grid_height, jitter, depth };
    proof {
        assert(3 * (grid_width * grid_height) + grid_width * grid_height <= usize::MAX && 3 * (grid_width
            * grid_height) == 3 * grid_width * grid_height) by (nonlinear_arith)
            requires
                4 * grid_width * grid_height <= usize::MAX,
        ;
        if grid_width >= 2 && grid_height >= 2 {
            assert((grid_width - 1) * (grid_height - 1) <= grid_width * grid_height) by (nonlinear_arith)
                requires
                    grid_width >= 2,
                    grid_height >= 2,
            ;
        }
    }
    let cells: usize = if grid_width >= 2 && grid_height >= 2 {
        (grid_width - 1) * (grid_height - 1)
    } else {
        0
    };
    let n: usize = 3 * (grid_width * grid_height) + cells;
    let mut bits: Vec<bool> = Vec::new();
    while bits.len() < n
        invariant
            bits@.len() <= n,
        decreases n - bits@.len(),
    {
        bits.push(coin(rng));
    }
    let r = build_triangle_partition(&grid, &bits);
    assert(bits@.len() == grid.bit_count() && grid.mesh_from_bits(r@, bits@));
    r
}

/// Whether each channel of `c` is in `[0, 255]`.
pub open spec fn is_color(c: Pt3) -> bool {
    0 <= c.x < 256 && 0 <= c.y < 256 && 0 <= c.z < 256
}

/// Gives every vertex of every triangle its own random colour as its
/// attribute; positions stay as they are.
pub fn randomize_colors(tris: &mut Vec<Triangle<Vertex>>, rng: &mut StdRng)
    ensures
        final(tris)@.len() == old(tris)@.len(),
        forall|k: int, m: int|
            0 <= k < old(tris)@.len() && 0 <= m < 3 ==> {
                &&& (#[trigger] final(tris)@[k].points[m]).spatial == old(tris)@[k].points[m].spatial
                &&& is_color(final(tris)@[k].points[m].variable)
            },
{
    let ghost start = tris@;
    let mut k: usize = 0;
    while k < tris.len()
        invariant
            tris@.len() == start.len(),
            k <= tris@.len(),
            forall|k0: int, m: int|
                0 <= k0 < tris@.len() && 0 <= m < 3 ==> (#[trigger] tris@[k0].points[m]).spatial
                    == start[k0].points[m].spatial,
            forall|k0: int, m: int|
                0 <= k0 < k && 0 <= m < 3 ==> is_color((#[trigger] tris@[k0].points[m]).variable),
        decreases tris@.len() - k,
    {
        let t = tris[k];
        let p0 = Vertex { spatial: t.points[0].spatial, variable: get_color(rng) };
        let p1 = Vertex { spatial: t.points[1].spatial, variable: get_color(rng) };
        let p2 = Vertex { spatial: t.points[2].spatial, variable: get_color(rng) };
        let ghost before = tris@;
        tris.set(k, Triangle { points: [p0, p1, p2] });
        proof {
            assert forall|k0: int, m: int|
                0 <= k0 < tris@.len() && 0 <= m < 3 implies (#[trigger] tris@[k0].points[m]).spatial
                == start[k0].points[m].spatial && (k0 <= k ==> is_color(tris@[k0].points[m].variable)) by {
                if k0 != k {
                    assert(tris@[k0] == before[k0]);
                } else {
                    assert(tris@[k0].points[0] == p0);
                    assert(tris@[k0].points[1] == p1);
                    assert(tris@[k0].points[2] == p2);
                }
            }
        }
        k = k + 1;
    }
}

} // verus!
