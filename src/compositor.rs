//! The frame compositor: a colour and a depth per pixel; the nearest
//! fragment wins.
use vstd::prelude::*;
use crate::perspective::{Attr, Fragment, Triangle, RasterLocatedVertex, draw_triangle, fragments, located_wf};
use crate::raster::{W, H};

verus! {

/// One pixel of the frame: its depth, `i128::MIN` where nothing was drawn,
/// and its packed `0x00RRGGBB` colour.
#[derive(Clone, Copy, Debug, PartialEq, Eq, Structural)]
pub struct Cell {
    pub depth: i128,
    pub color: u32,
}

/// A component clamped to a colour channel, `[0, 255]`.
pub open spec fn channel(v: int) -> int {
    if v < 0 {
        0
    } else if v > 255 {
        255
    } else {
        v
    }
}

/// The stored colour of an attribute: its components as red, green and
/// blue channels.
pub open spec fn color_of(a: Attr) -> u32 {
    (channel(a.x as int) * 65536 + channel(a.y as int) * 256 + channel(a.z as int)) as u32
}

/// The cell of an empty frame.
pub open spec fn cleared() -> Cell {
    Cell { depth: i128::MIN, color: 0 }
}

/// Whether fragment `f` falls on the pixel at row-major index `i`.
pub open spec fn lands_on(f: Fragment, i: int) -> bool {
    f.x < W && f.y < H && f.x + W * f.y == i
}

/// The frame after one fragment: it replaces the pixel it lands on when it
/// is nearer than what is there, and is discarded otherwise.
pub open spec fn plot_spec(cells: Seq<Cell>, f: Fragment) -> Seq<Cell> {
    let i = f.x + W * f.y;
    if f.x < W && f.y < H && f.depth > cells[i].depth {
        cells.update(i, Cell { depth: f.depth, color: color_of(f.variable) })
    } else {
        cells
    }
}

/// The frame after a sequence of fragments, in order.
pub open spec fn plot_all_spec(cells: Seq<Cell>, frags: Seq<Fragment>) -> Seq<Cell>
    decreases frags.len(),
{
    if frags.len() == 0 {
        cells
    } else {
        plot_spec(plot_all_spec(cells, frags.drop_last()), frags.last())
    }
}

/// Fragments that land on one pixel at one depth have one colour.
pub open spec fn depth_consistent(frags: Seq<Fragment>) -> bool {
    forall|i: int, j: int|
        0 <= i < frags.len() && 0 <= j < frags.len() && frags[i].x == frags[j].x && frags[i].y
            == frags[j].y && #[trigger] frags[i].depth == #[trigger] frags[j].depth ==> color_of(
            frags[i].variable,
        ) == color_of(frags[j].variable)
}

/// The pixel buffer and depth buffer of one frame.
pub struct Frame {
    pub cells: Vec<Cell>,
}

impl Frame {
    /// One cell per pixel of the viewport.
    pub open spec fn wf(self) -> bool {
        self.cells@.len() == W * H
    }

    /// An empty frame: every depth at `i128::MIN`, every colour 0.
    pub fn new() -> (r: Frame)
        ensures
            r.wf(),
            r.cells@ == Seq::new((W * H) as nat, |i: int| cleared()),
    {
        let mut cells: Vec<Cell> = Vec::new();
        let n: usize = W * H;
        while cells.len() < n
            invariant
                n == W * H,
                cells.len() <= n,
                cells@ == Seq::new(cells@.len(), |i: int| cleared()),
            decreases n - cells.len(),
        {
            cells.push(Cell { depth: i128::MIN, color: 0 });
            assert(cells@ =~= Seq::new(cells@.len(), |i: int| cleared()));
        }
        Frame { cells }
    }

    /// Draws one fragment when it is nearer than what its pixel holds.
    pub fn plot(&mut self, f: &Fragment)
        requires
            old(self).wf(),
        ensures
            final(self).wf(),
            final(self).cells@ == plot_spec(old(self).cells@, *f),
            forall|i: int|
                0 <= i < W * H ==> old(self).cells@[i].depth <= #[trigger] final(self).cells@[i].depth,
    {
        if f.x < W && f.y < H {
            let i = f.x + W * f.y;
            if f.depth > self.cells[i].depth {
                let color = color_value(&f.variable);
                self.cells.set(i, Cell { depth: f.depth, color });
            }
        }
    }

    /// Draws fragments in order.
    pub fn plot_all(&mut self, frags: &Vec<Fragment>)
        requires
            old(self).wf(),
        ensures
            final(self).wf(),
            final(self).cells@ == plot_all_spec(old(self).cells@, frags@),
            forall|i: int|
                0 <= i < W * H ==> old(self).cells@[i].depth <= #[trigger] final(self).cells@[i].depth,
    {
        let ghost start = self.cells@;
        let mut k: usize = 0;
        while k < frags.len()
            invariant
                self.wf(),
                start.len() == W * H,
                forall|i: int| 0 <= i < W * H ==> start[i].depth <= #[trigger] self.cells@[i].depth,
                k <= frags@.len(),
                self.cells@ == plot_all_spec(start, frags@.take(k as int)),
            decreases frags@.len() - k,
        {
            self.plot(&frags[k]);
            proof {
                assert(frags@.take(k + 1).drop_last() =~= frags@.take(k as int));
            }
            k = k + 1;
        }
        assert(frags@.take(k as int) =~= frags@);
    }

    /// Rasterizes a triangle into the frame.
    pub fn draw(&mut self, t: Triangle<RasterLocatedVertex>)
        requires
            old(self).wf(),
            located_wf(t),
        ensures
            final(self).wf(),
            final(self).cells@ == plot_all_spec(old(self).cells@, fragments(t)),
            forall|i: int|
                0 <= i < W * H ==> old(self).cells@[i].depth <= #[trigger] final(self).cells@[i].depth,
    {
        let mut frags: Vec<Fragment> = Vec::new();
        draw_triangle(t, &mut frags);
        assert(frags@ =~= fragments(t));
        self.plot_all(&frags);
    }
}

/// The stored colour of an attribute.
pub fn color_value(a: &Attr) -> (r: u32)
    ensures
        r == color_of(*a),
{
    let r: i128 = if a.x < 0 {
        0
    } else if a.x > 255 {
        255
    } else {
        a.x
    };
    let g: i128 = if a.y < 0 {
        0
    } else if a.y > 255 {
        255
    } else {
        a.y
    };
    let b: i128 = if a.z < 0 {
        0
    } else if a.z > 255 {
        255
    } else {
        a.z
    };
    (r * 65536 + g * 256 + b) as u32
}

/// What a sequence of fragments leaves at pixel `i`: either the pixel as it
/// was, when no fragment landing there is nearer; or the depth and colour of
/// a nearest fragment landing there, nearer than the pixel was.
pub open spec fn outcome_at(cells: Seq<Cell>, frags: Seq<Fragment>, i: int, r: Cell) -> bool {
    ||| {
        &&& r == cells[i]
        &&& forall|j: int|
            0 <= j < frags.len() && lands_on(#[trigger] frags[j], i) ==> frags[j].depth
                <= cells[i].depth
    }
    ||| {
        &&& r.depth > cells[i].depth
        &&& exists|j: int|
            0 <= j < frags.len() && lands_on(#[trigger] frags[j], i) && frags[j].depth == r.depth
                && color_of(frags[j].variable) == r.color
        &&& forall|j: int|
            0 <= j < frags.len() && lands_on(#[trigger] frags[j], i) ==> frags[j].depth
                <= r.depth
    }
}

proof fn lemma_plot_all_outcome(cells: Seq<Cell>, frags: Seq<Fragment>)
    requires
        cells.len() == W * H,
    ensures
        plot_all_spec(cells, frags).len() == W * H,
        forall|i: int|
            0 <= i < W * H ==> outcome_at(cells, frags, i, #[trigger] plot_all_spec(cells, frags)[i]),
    decreases frags.len(),
{
    if frags.len() > 0 {
        let prev = frags.drop_last();
        let f = frags.last();
        lemma_plot_all_outcome(cells, prev);
        let before = plot_all_spec(cells, prev);
        let after = plot_all_spec(cells, frags);
        assert forall|i: int| 0 <= i < W * H implies outcome_at(cells, frags, i, #[trigger] after[i]) by {
            assert(outcome_at(cells, prev, i, before[i]));
            assert forall|j: int| 0 <= j < prev.len() implies #[trigger] prev[j] == frags[j] by {}
            let fi = f.x + W * f.y;
            if lands_on(f, i) && f.depth > before[i].depth {
                assert(after[i] == Cell { depth: f.depth, color: color_of(f.variable) });
                assert(frags[frags.len() - 1] == f);
                assert(forall|j: int|
                    0 <= j < frags.len() - 1 && lands_on(#[trigger] frags[j], i) ==> prev[j]
                        == frags[j] && lands_on(prev[j], i));
            } else {
                if f.x < W && f.y < H && f.depth > before[fi].depth {
                    assert(fi != i);
                }
                assert(after[i] == before[i]);
                assert(frags[frags.len() - 1] == f);
                if outcome_at(cells, prev, i, before[i]) && before[i] != cells[i] {
                    let j0 = choose|j: int|
                        0 <= j < prev.len() && lands_on(#[trigger] prev[j], i) && prev[j].depth
                            == before[i].depth && color_of(prev[j].variable) == before[i].color;
                    assert(frags[j0] == prev[j0]);
                }
                assert(forall|j: int|
                    0 <= j < frags.len() - 1 && lands_on(#[trigger] frags[j], i) ==> prev[j]
                        == frags[j] && lands_on(prev[j], i));
            }
        }
    }
}

proof fn lemma_plot_all_concat(cells: Seq<Cell>, first: Seq<Fragment>, second: Seq<Fragment>)
    ensures
        plot_all_spec(plot_all_spec(cells, first), second) == plot_all_spec(cells, first + second),
    decreases second.len(),
{
    if second.len() > 0 {
        lemma_plot_all_concat(cells, first, second.drop_last());
        assert((first + second).drop_last() =~= first + second.drop_last());
        assert((first + second).last() == second.last());
    }
}

/// Fragments drawn into a frame in either of two orders leave the same
/// frame, provided fragments that land on one pixel at one depth agree on
/// the colour.
pub proof fn lemma_plot_order_independent(cells: Seq<Cell>, first: Seq<Fragment>, second: Seq<Fragment>)
    requires
        cells.len() == W * H,
        depth_consistent(first + second),
    ensures
        plot_all_spec(plot_all_spec(cells, first), second) == plot_all_spec(
            plot_all_spec(cells, second),
            first,
        ),
{
    let ab = first + second;
    let ba = second + first;
    lemma_plot_all_concat(cells, first, second);
    lemma_plot_all_concat(cells, second, first);
    lemma_plot_all_outcome(cells, ab);
    lemma_plot_all_outcome(cells, ba);
    let r1 = plot_all_spec(cells, ab);
    let r2 = plot_all_spec(cells, ba);
    let (n, m) = (first.len() as int, second.len() as int);
    assert forall|j: int| 0 <= j < n + m implies #[trigger] ba[j] == ab[if j < m {
        j + n
    } else {
        j - m
    }] by {}
    assert forall|j: int| 0 <= j < n + m implies #[trigger] ab[j] == ba[if j < n {
        j + m
    } else {
        j - n
    }] by {}
    assert forall|i: int| 0 <= i < W * H implies #[trigger] r1[i] == r2[i] by {
        assert(outcome_at(cells, ab, i, r1[i]));
        assert(outcome_at(cells, ba, i, r2[i]));
        if r1[i].depth > cells[i].depth {
            let j1 = choose|j: int|
                0 <= j < ab.len() && lands_on(#[trigger] ab[j], i) && ab[j].depth == r1[i].depth
                    && color_of(ab[j].variable) == r1[i].color;
            let k1 = if j1 < n {
                j1 + m
            } else {
                j1 - n
            };
            assert(ba[k1] == ab[j1]);
            assert(r2[i] != cells[i]);
            let j2 = choose|j: int|
                0 <= j < ba.len() && lands_on(#[trigger] ba[j], i) && ba[j].depth == r2[i].depth
                    && color_of(ba[j].variable) == r2[i].color;
            let k2 = if j2 < m {
                j2 + n
            } else {
                j2 - m
            };
            assert(ab[k2] == ba[j2]);
            assert(ab[k2].depth <= r1[i].depth);
            assert(ab[k2].depth == ab[j1].depth);
            assert(ab[k2].x == ab[j1].x && ab[k2].y == ab[j1].y) by (nonlinear_arith)
                requires
                    ab[k2].x < W && ab[k2].y < H && ab[k2].x + W * ab[k2].y == i,
                    ab[j1].x < W && ab[j1].y < H && ab[j1].x + W * ab[j1].y == i,
            ;
        } else if r2[i].depth > cells[i].depth {
            let j2 = choose|j: int|
                0 <= j < ba.len() && lands_on(#[trigger] ba[j], i) && ba[j].depth == r2[i].depth
                    && color_of(ba[j].variable) == r2[i].color;
            let k2 = if j2 < m {
                j2 + n
            } else {
                j2 - m
            };
            assert(ab[k2] == ba[j2]);
        }
    }
    assert(r1 =~= r2);
}

/// Two triangles drawn into a frame in either order leave the same frame,
/// provided their fragments that land on one pixel at one depth agree on
/// the colour.
pub proof fn lemma_draw_order_independent(
    cells: Seq<Cell>,
    t1: Triangle<RasterLocatedVertex>,
    t2: Triangle<RasterLocatedVertex>,
)
    requires
        cells.len() == W * H,
        depth_consistent(fragments(t1) + fragments(t2)),
    ensures
        plot_all_spec(plot_all_spec(cells, fragments(t1)), fragments(t2)) == plot_all_spec(
            plot_all_spec(cells, fragments(t2)),
            fragments(t1),
        ),
{
    lemma_plot_order_independent(cells, fragments(t1), fragments(t2));
}

} // verus!
