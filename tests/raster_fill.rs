use softraster::compositor::{color_value, Cell, Frame};
use softraster::flat::{draw_triangle, normal_form, Triangle, RGBA};
use softraster::perspective::{self, Attr, Fragment, RasterLocatedVertex};
use softraster::point::Pt3;
use softraster::raster::RasterPoint;

fn pt(x: usize, y: usize) -> RasterPoint {
    RasterPoint { x, y, clipped: false }
}

fn flat_tri(a: RasterPoint, b: RasterPoint, c: RasterPoint) -> Triangle<RasterPoint, RGBA> {
    normal_form(Triangle { pt1: a, pt2: b, pt3: c, color: RGBA::new(0xFF00FF) })
}

fn lv(p: RasterPoint, depth: i32, a: (i32, i32, i32)) -> RasterLocatedVertex {
    RasterLocatedVertex { raster_location: p, depth, variable: Pt3 { x: a.0, y: a.1, z: a.2 } }
}

fn persp(a: RasterLocatedVertex, b: RasterLocatedVertex, c: RasterLocatedVertex) -> Vec<Fragment> {
    let mut out = Vec::new();
    perspective::draw_triangle(perspective::Triangle { points: [a, b, c] }, &mut out);
    out
}

#[test]
fn right_triangle_covers_half_open_set() {
    let mut out = Vec::new();
    draw_triangle(flat_tri(pt(0, 0), pt(0, 10), pt(10, 0)), &mut out);
    let mut expected = Vec::new();
    for y in 0..10usize {
        for x in 0..(10 - y) {
            expected.push((x, y, RGBA::new(0xFF00FF)));
        }
    }
    assert_eq!(out.len(), 55);
    assert_eq!(out, expected);
}

#[test]
fn flat_fill_appends_to_existing_fragments() {
    let mut out = vec![(7usize, 7usize, RGBA::new(1))];
    draw_triangle(flat_tri(pt(0, 0), pt(0, 2), pt(2, 0)), &mut out);
    assert_eq!(
        out,
        vec![
            (7, 7, RGBA::new(1)),
            (0, 0, RGBA::new(0xFF00FF)),
            (1, 0, RGBA::new(0xFF00FF)),
            (0, 1, RGBA::new(0xFF00FF)),
        ]
    );
}

#[test]
fn clipped_vertex_draws_nothing() {
    let clipped = RasterPoint { x: 0, y: 0, clipped: true };
    for slot in 0..3 {
        let mut pts = [pt(0, 0), pt(0, 50), pt(60, 20)];
        pts[slot] = clipped;
        let mut out = Vec::new();
        draw_triangle(flat_tri(pts[0], pts[1], pts[2]), &mut out);
        assert!(out.is_empty());
        let frags = persp(lv(pts[0], 3, (1, 2, 3)), lv(pts[1], 3, (1, 2, 3)), lv(pts[2], 3, (1, 2, 3)));
        assert!(frags.is_empty());
    }
}

#[test]
fn flat_top_and_flat_bottom_triangles() {
    // Flat top: two vertices share the first row.
    let mut out = Vec::new();
    draw_triangle(flat_tri(pt(0, 0), pt(4, 0), pt(0, 4)), &mut out);
    assert_eq!(out.len(), 4 + 3 + 2 + 1);
    // Flat bottom.
    let mut out = Vec::new();
    draw_triangle(flat_tri(pt(0, 0), pt(0, 4), pt(4, 4)), &mut out);
    let rows: Vec<usize> = (0..4).map(|y| out.iter().filter(|f| f.1 == y).count()).collect();
    assert_eq!(rows, vec![0, 1, 2, 3]);
}

#[test]
fn degenerate_triangles_do_not_crash() {
    let mut out = Vec::new();
    draw_triangle(flat_tri(pt(5, 5), pt(5, 5), pt(5, 5)), &mut out);
    assert!(out.is_empty());
    draw_triangle(flat_tri(pt(0, 3), pt(9, 3), pt(20, 3)), &mut out);
    assert!(out.is_empty());
    draw_triangle(flat_tri(pt(320, 240), pt(0, 240), pt(320, 0)), &mut out);
    assert!(out.len() > 0);
}

#[test]
fn perspective_covers_same_pixels_as_flat() {
    let frags = persp(lv(pt(10, 0), 7, (0, 0, 0)), lv(pt(0, 0), 7, (0, 0, 0)), lv(pt(0, 10), 7, (0, 0, 0)));
    let cover: Vec<(usize, usize)> = frags.iter().map(|f| (f.x, f.y)).collect();
    let mut flat = Vec::new();
    draw_triangle(flat_tri(pt(0, 0), pt(0, 10), pt(10, 0)), &mut flat);
    let flat_cover: Vec<(usize, usize)> = flat.iter().map(|f| (f.0, f.1)).collect();
    assert_eq!(cover, flat_cover);
    assert!(frags.iter().all(|f| f.depth == 7));
}

#[test]
fn constant_depth_interpolates_linearly() {
    let frags = persp(lv(pt(0, 0), 5, (0, 0, 0)), lv(pt(0, 10), 5, (100, 10, 0)), lv(pt(10, 0), 5, (50, 0, 20)));
    let f = frags.iter().find(|f| f.x == 3 && f.y == 2).unwrap();
    assert_eq!(f.depth, 5);
    // Linear in screen space: value = (y * a1 + x * a2) / 10.
    assert_eq!(f.variable, Attr { x: (2 * 100 + 3 * 50) / 10, y: 2, z: 6 });
    for f in &frags {
        assert_eq!(f.variable.x, ((f.y * 100 + f.x * 50) / 10) as i128);
    }
}

#[test]
fn perspective_correct_values() {
    let frags = persp(lv(pt(0, 0), 1, (0, 0, 0)), lv(pt(0, 10), 2, (100, 0, 0)), lv(pt(10, 0), 4, (200, 0, 0)));
    let at = |x: usize, y: usize| frags.iter().find(|f| f.x == x && f.y == y).copied().unwrap();
    let f = at(3, 2);
    assert_eq!(f.depth, 1);
    assert_eq!(f.variable.x, 37);
    assert_eq!(at(0, 0).variable.x, 0);
    assert_eq!(at(1, 1).variable.x, 11);
    assert_eq!(at(1, 1).depth, 1);
}

#[test]
fn zero_depth_vertex_draws_nothing() {
    let frags = persp(lv(pt(0, 0), 0, (0, 0, 0)), lv(pt(0, 10), 2, (0, 0, 0)), lv(pt(10, 0), 4, (0, 0, 0)));
    assert!(frags.is_empty());
}

fn draw_all(order: &[[RasterLocatedVertex; 3]]) -> Frame {
    let mut frame = Frame::new();
    for pts in order {
        frame.draw(perspective::Triangle { points: *pts });
    }
    frame
}

#[test]
fn draw_order_does_not_change_frame() {
    let a = [lv(pt(10, 10), 100, (255, 0, 0)), lv(pt(60, 10), 100, (255, 0, 0)), lv(pt(10, 60), 100, (255, 0, 0))];
    let b = [lv(pt(20, 5), 150, (0, 0, 255)), lv(pt(70, 40), 300, (0, 0, 255)), lv(pt(25, 70), 200, (0, 0, 255))];
    let ab = draw_all(&[a, b]);
    let ba = draw_all(&[b, a]);
    assert!(ab.cells == ba.cells);
    assert!(ab.cells.iter().any(|c| c.color == 0xFF0000));
    assert!(ab.cells.iter().any(|c| c.color == 0x0000FF));
}

#[test]
fn nearer_fragment_wins() {
    let mut frame = Frame::new();
    let frag = |depth: i128, x: i128| Fragment { x: 4, y: 2, depth, variable: Attr { x, y: 0, z: 0 } };
    frame.plot(&frag(10, 1));
    frame.plot(&frag(5, 2));
    assert_eq!(frame.cells[4 + 320 * 2], Cell { depth: 10, color: 0x010000 });
    frame.plot(&frag(11, 300));
    assert_eq!(frame.cells[4 + 320 * 2], Cell { depth: 11, color: 0xFF0000 });
    frame.plot(&Fragment { x: 320, y: 0, depth: 99, variable: Attr { x: 1, y: 1, z: 1 } });
    assert!(frame.cells.iter().filter(|c| c.depth != i128::MIN).count() == 1);
}

#[test]
fn new_frame_is_cleared() {
    let frame = Frame::new();
    assert_eq!(frame.cells.len(), 320 * 240);
    assert!(frame.cells.iter().all(|c| *c == Cell { depth: i128::MIN, color: 0 }));
}

#[test]
fn attribute_colour_is_clamped_per_channel() {
    assert_eq!(color_value(&Attr { x: 18, y: 52, z: 86 }), 0x123456);
    assert_eq!(color_value(&Attr { x: -5, y: 1000, z: 255 }), 0x00FFFF);
}

#[test]
fn boundary_pixel_takes_edge_values() {
    // The only pixel of this triangle lies left of its exact left edge; it
    // takes the left edge's values at that row.
    let frags = persp(lv(pt(1, 0), 1, (0, 0, 0)), lv(pt(0, 2), 1, (0, 0, 0)), lv(pt(2, 2), 1, (100, 0, 0)));
    assert_eq!(frags.len(), 1);
    assert_eq!((frags[0].x, frags[0].y, frags[0].depth), (0, 1, 1));
    assert_eq!(frags[0].variable.x, 0);
}

#[test]
fn depth_stays_within_vertex_depths() {
    let frags = persp(lv(pt(1, 0), 100, (7, 7, 7)), lv(pt(0, 2), 100, (7, 7, 7)), lv(pt(2, 2), 10000, (7, 7, 7)));
    assert_eq!(frags.len(), 1);
    assert_eq!(frags[0].depth, 100);
    assert_eq!(frags[0].variable, Attr { x: 7, y: 7, z: 7 });
    let frags = persp(lv(pt(5, 0), 3, (9, 9, 9)), lv(pt(0, 9), 40, (9, 9, 9)), lv(pt(17, 6), 900, (9, 9, 9)));
    assert!(!frags.is_empty());
    for f in &frags {
        assert!(3 <= f.depth && f.depth <= 900);
        assert_eq!(f.variable, Attr { x: 9, y: 9, z: 9 });
    }
}

#[test]
fn perspective_values_on_a_skewed_triangle() {
    let frags = persp(lv(pt(5, 0), 3, (0, 0, 0)), lv(pt(0, 9), 40, (90, 0, 0)), lv(pt(17, 6), 900, (255, 0, 0)));
    let got: Vec<(usize, usize, i128, i128)> = frags.iter().take(6).map(|f| (f.x, f.y, f.depth, f.variable.x)).collect();
    assert_eq!(got, vec![(4, 1, 3, 0), (5, 1, 3, 0), (6, 1, 3, 0), (3, 2, 3, 1), (4, 2, 3, 1), (5, 2, 3, 1)]);
}
