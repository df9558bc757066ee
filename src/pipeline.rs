//! One frame of the pipeline: every mesh triangle projected, located,
//! rasterized and composited.
use vstd::prelude::*;
use crate::compositor::{Frame, plot_all_spec, Cell};
use crate::mesh::Vertex;
use crate::perspective::{Triangle, fragments};
use crate::projection::{ProjectionData, ViewportData, prep_triangle, projection_wf, small, placed};
use crate::raster::{W, H};

verus! {

/// A mesh triangle placed on the pixel grid.
pub open spec fn placed_triangle(t: Triangle<Vertex>, v: ViewportData, proj: ProjectionData) -> Triangle<
    crate::perspective::RasterLocatedVertex,
> {
    Triangle {
        points: [placed(t.points[0], v, proj), placed(t.points[1], v, proj), placed(t.points[2], v, proj)],
    }
}

/// Whether every vertex of every triangle is within the coordinate limit.
pub open spec fn mesh_small(tris: Seq<Triangle<Vertex>>) -> bool {
    forall|k: int|
        0 <= k < tris.len() ==> small((#[trigger] tris[k]).points[0].spatial) && small(
            tris[k].points[1].spatial,
        ) && small(tris[k].points[2].spatial)
}

/// The frame after drawing the triangles in order.
pub open spec fn render_spec(
    cells: Seq<Cell>,
    tris: Seq<Triangle<Vertex>>,
    v: ViewportData,
    proj: ProjectionData,
) -> Seq<Cell>
    decreases tris.len(),
{
    if tris.len() == 0 {
        cells
    } else {
        plot_all_spec(
            render_spec(cells, tris.drop_last(), v, proj),
            fragments(placed_triangle(tris.last(), v, proj)),
        )
    }
}

/// Draws every triangle of a mesh into the frame, in order.
pub fn render_mesh(
    frame: &mut Frame,
    tris: &Vec<Triangle<Vertex>>,
    viewport: &ViewportData,
    projection: &ProjectionData,
)
    requires
        old(frame).wf(),
        viewport.wf(),
        projection_wf(*projection),
        mesh_small(tris@),
    ensures
        final(frame).wf(),
        final(frame).cells@ == render_spec(old(frame).cells@, tris@, *viewport, *projection),
{
    let ghost start = frame.cells@;
    let mut k: usize = 0;
    while k < tris.len()
        invariant
            frame.wf(),
            viewport.wf(),
            projection_wf(*projection),
            mesh_small(tris@),
            k <= tris@.len(),
            frame.cells@ == render_spec(start, tris@.take(k as int), *viewport, *projection),
        decreases tris@.len() - k,
    {
        let t = tris[k];
        assert(small(tris@[k as int].points[0].spatial));
        let placed_t = prep_triangle(t, viewport, projection);
        assert(placed_t.points =~= placed_triangle(t, *viewport, *projection).points);
        frame.draw(placed_t);
        proof {
            assert(tris@.take(k + 1).drop_last() =~= tris@.take(k as int));
        }
        k = k + 1;
    }
    assert(tris@.take(k as int) =~= tris@);
}

/// The frame's colours as bytes for the display: four per pixel, in
/// row-major order, each colour least significant byte first.
pub fn pixel_bytes(frame: &Frame) -> (r: Vec<u8>)
    requires
        frame.wf(),
    ensures
        r@.len() == 4 * W * H,
        forall|i: int|
            0 <= i < W * H ==> {
                let c = #[trigger] frame.cells@[i].color;
                &&& r@[4 * i] == c % 0x100
                &&& r@[4 * i + 1] == (c / 0x100) % 0x100
                &&& r@[4 * i + 2] == (c / 0x1_0000) % 0x100
                &&& r@[4 * i + 3] == c / 0x100_0000
            },
{
    let mut r: Vec<u8> = Vec::new();
    let n: usize = W * H;
    let mut i: usize = 0;
    while i < n
        invariant
            n == W * H,
            frame.wf(),
            i <= n,
            r@.len() == 4 * i,
            forall|j: int|
                0 <= j < i ==> {
                    let c = #[trigger] frame.cells@[j].color;
                    &&& r@[4 * j] == c % 0x100
                    &&& r@[4 * j + 1] == (c / 0x100) % 0x100
                    &&& r@[4 * j + 2] == (c / 0x1_0000) % 0x100
                    &&& r@[4 * j + 3] == c / 0x100_0000
                },
        decreases n - i,
    {
        let c = frame.cells[i].color;
        let ghost before = r@;
        r.push((c % 0x100) as u8);
        r.push(((c / 0x100) % 0x100) as u8);
        r.push(((c / 0x1_0000) % 0x100) as u8);
        r.push((c / 0x100_0000) as u8);
        assert forall|j: int| 0 <= j < i + 1 implies {
            let c = #[trigger] frame.cells@[j].color;
            &&& r@[4 * j] == c % 0x100
            &&& r@[4 * j + 1] == (c / 0x100) % 0x100
            &&& r@[4 * j + 2] == (c / 0x1_0000) % 0x100
            &&& r@[4 * j + 3] == c / 0x100_0000
        } by {
            if j < i {
                assert(r@[4 * j] == before[4 * j]);
                assert(r@[4 * j + 1] == before[4 * j + 1]);
                assert(r@[4 * j + 2] == before[4 * j + 2]);
                assert(r@[4 * j + 3] == before[4 * j + 3]);
            }
        }
        i = i + 1;
    }
    r
}

} // verus!
