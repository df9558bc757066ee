use softraster::flat::{normal_form, Triangle, RGBA};
use softraster::raster::{canonical_indices, raster_key, RasterPoint};

fn pt(x: usize, y: usize) -> RasterPoint {
    RasterPoint { x, y, clipped: false }
}

fn tri(a: RasterPoint, b: RasterPoint, c: RasterPoint) -> Triangle<RasterPoint, RGBA> {
    Triangle { pt1: a, pt2: b, pt3: c, color: RGBA::new(0x112233) }
}

fn corners(t: &Triangle<RasterPoint, RGBA>) -> (RasterPoint, RasterPoint, RasterPoint) {
    (t.pt1, t.pt2, t.pt3)
}

#[test]
fn composite_key_is_row_major() {
    assert_eq!(raster_key(&pt(5, 0)), 5);
    assert_eq!(raster_key(&pt(0, 1)), 320);
    assert_eq!(raster_key(&pt(7, 3)), 967);
}

#[test]
fn right_triangle_canonical_form() {
    let t = normal_form(tri(pt(10, 0), pt(0, 10), pt(0, 0)));
    assert_eq!(corners(&t), (pt(0, 0), pt(0, 10), pt(10, 0)));
    assert_eq!(t.color, RGBA::new(0x112233));
}

#[test]
fn canonical_form_ignores_input_order() {
    let sets = [
        (pt(0, 0), pt(0, 10), pt(10, 0)),
        (pt(40, 5), pt(12, 30), pt(70, 44)),
        (pt(100, 200), pt(3, 7), pt(250, 7)),
        (pt(1, 1), pt(2, 2), pt(3, 3)),
    ];
    for (a, b, c) in sets {
        let expected = corners(&normal_form(tri(a, b, c)));
        for (p, q, r) in [(a, c, b), (b, a, c), (b, c, a), (c, a, b), (c, b, a)] {
            assert_eq!(corners(&normal_form(tri(p, q, r))), expected);
        }
    }
}

#[test]
fn canonical_first_vertex_is_topmost() {
    let t = normal_form(tri(pt(40, 5), pt(12, 30), pt(70, 44)));
    assert_eq!(t.pt1, pt(40, 5));
    let t = normal_form(tri(pt(100, 200), pt(3, 7), pt(250, 7)));
    assert_eq!(t.pt1, pt(3, 7));
}

#[test]
fn canonical_swaps_on_positive_signed_area() {
    // Keys ascending: (10, 0) then (0, 10); their area term is positive, so
    // they are swapped.
    assert_eq!(canonical_indices(&pt(0, 0), &pt(10, 0), &pt(0, 10)), (0, 2, 1));
    // Here the area term is negative: key order stays.
    assert_eq!(canonical_indices(&pt(0, 0), &pt(10, 10), &pt(0, 5)), (0, 2, 1));
    assert_eq!(canonical_indices(&pt(5, 0), &pt(0, 10), &pt(10, 10)), (0, 1, 2));
}

#[test]
fn collinear_points_keep_key_order() {
    let t = normal_form(tri(pt(3, 3), pt(1, 1), pt(2, 2)));
    assert_eq!(corners(&t), (pt(1, 1), pt(2, 2), pt(3, 3)));
}

#[test]
fn canonical_form_beyond_the_viewport() {
    let (a, b, c) = (pt(100_000, 70_000), pt(5, 900_000), pt(999_999, 3));
    let expected = corners(&normal_form(tri(a, b, c)));
    assert_eq!(expected.0, pt(999_999, 3));
    for (p, q, r) in [(a, c, b), (b, a, c), (b, c, a), (c, a, b), (c, b, a)] {
        assert_eq!(corners(&normal_form(tri(p, q, r))), expected);
    }
}
