use rand::rngs::StdRng;
use rand::SeedableRng;
use softraster::compositor::Frame;
use softraster::flat::{color_from_bits, get_color as flat_color};
use softraster::mesh::{
    build_triangle_partition, color_point_from_bits, get_color, make_triangle_partition,
    randomize_colors, Grid, Vertex,
};
use softraster::perspective::Triangle;
use softraster::pipeline::{pixel_bytes, render_mesh};
use softraster::point::Pt3;
use softraster::projection::{
    prep_triangle, raster_locate_vertex, simple_projection, simple_projection_with_z,
    spatial_to_pixel, ProjectionData, Pt2, ViewportData,
};
use softraster::raster::RasterPoint;

fn p3(x: i32, y: i32, z: i32) -> Pt3 {
    Pt3 { x, y, z }
}

fn camera() -> ProjectionData {
    ProjectionData {
        origin_pt: p3(0, 0, 0),
        plane_unit_normal: p3(0, 0, 4096),
        plane_basis_x: p3(4096, 0, 0),
        plane_basis_y: p3(0, 4096, 0),
    }
}

fn viewport() -> ViewportData {
    ViewportData {
        x_min: -16384,
        x_max: 16384,
        y_min: -12288,
        y_max: 12288,
        pixels_tall: 240,
        pixels_wide: 320,
    }
}

#[test]
fn mesh_has_two_triangles_per_cell_within_bounds() {
    let mut rng = StdRng::seed_from_u64(7);
    let tris = make_triangle_partition(-1000, 1000, -500, 700, 5, 4, 40, 4096, &mut rng);
    assert_eq!(tris.len(), 2 * 4 * 3);
    for t in &tris {
        for v in &t.points {
            assert!(-1040 <= v.spatial.x && v.spatial.x <= 1040);
            assert!(-540 <= v.spatial.y && v.spatial.y <= 740);
            assert!(v.spatial.z == 4096 || v.spatial.z == 4136);
            assert_eq!(v.variable, v.spatial);
        }
    }
}

#[test]
fn mesh_cells_share_grid_points() {
    let mut rng = StdRng::seed_from_u64(11);
    let tris = make_triangle_partition(0, 300, 0, 300, 4, 4, 0, 10, &mut rng);
    assert_eq!(tris.len(), 18);
    // Without jitter every vertex sits on a grid line, a multiple of 75.
    for t in &tris {
        for v in &t.points {
            assert_eq!(v.spatial.x % 75, 0);
            assert_eq!(v.spatial.y % 75, 0);
            assert_eq!(v.spatial.z, 10);
        }
    }
    // The first cell spans (0, 0) to (75, 75).
    let corners: Vec<(i32, i32)> = tris[0].points.iter().chain(tris[1].points.iter()).map(|v| (v.spatial.x, v.spatial.y)).collect();
    assert!(corners.contains(&(0, 0)) || corners.contains(&(75, 0)));
    assert!(corners.iter().all(|&(x, y)| x <= 75 && y <= 75));
}

#[test]
fn degenerate_grids_have_no_triangles() {
    let mut rng = StdRng::seed_from_u64(1);
    assert!(make_triangle_partition(0, 10, 0, 10, 1, 5, 1, 1, &mut rng).is_empty());
    assert!(make_triangle_partition(0, 10, 0, 10, 5, 1, 1, 1, &mut rng).is_empty());
    assert!(make_triangle_partition(0, 10, 0, 10, 0, 0, 1, 1, &mut rng).is_empty());
    assert_eq!(make_triangle_partition(0, 10, 0, 10, 2, 2, 1, 1, &mut rng).len(), 2);
}

#[test]
fn colours_from_bits() {
    assert_eq!(color_from_bits(0xABCD_EF12).c, 0xCD_EF12);
    assert_eq!(color_point_from_bits(0x1122_3344), p3(0x33, 0x22, 0x11));
    let mut rng = StdRng::seed_from_u64(3);
    for _ in 0..20 {
        assert!(flat_color(&mut rng).c < 0x100_0000);
        let c = get_color(&mut rng);
        assert!((0..256).contains(&c.x) && (0..256).contains(&c.y) && (0..256).contains(&c.z));
    }
}

#[test]
fn projection_follows_the_plane_formula() {
    // s = (1, 0.5, 2): t = (1 - 2) / 2, so s * (1 - t) = (1.5, 0.75, 3).
    let q = simple_projection(p3(4096, 2048, 8192), &camera()).unwrap();
    assert_eq!(q, Pt2 { x: 6144, y: 3072 });
    let v = simple_projection_with_z(Vertex { spatial: p3(4096, 2048, 8192), variable: p3(1, 2, 3) }, &camera());
    assert_eq!(v.depth, 8192);
    assert!(v.defined);
    assert_eq!(v.variable, p3(1, 2, 3));
    // On the plane itself the point stays where it is.
    assert_eq!(simple_projection(p3(-300, 77, 4096), &camera()).unwrap(), Pt2 { x: -300, y: 77 });
}

#[test]
fn parallel_ray_is_clipped() {
    let v = simple_projection_with_z(Vertex { spatial: p3(4096, 0, 0), variable: p3(0, 0, 0) }, &camera());
    assert!(!v.defined);
    assert!(simple_projection(p3(4096, 0, 0), &camera()).is_none());
    let r = raster_locate_vertex(v, &viewport());
    assert!(r.raster_location.clipped);
}

#[test]
fn viewport_maps_and_clips() {
    assert_eq!(spatial_to_pixel(Pt2 { x: 6144, y: 3072 }, &viewport()), RasterPoint { x: 220, y: 90, clipped: false });
    assert_eq!(spatial_to_pixel(Pt2 { x: -16384, y: 12288 }, &viewport()), RasterPoint { x: 0, y: 0, clipped: false });
    assert_eq!(spatial_to_pixel(Pt2 { x: 16384, y: -12288 }, &viewport()), RasterPoint { x: 320, y: 240, clipped: false });
    assert_eq!(spatial_to_pixel(Pt2 { x: 20000, y: 0 }, &viewport()), RasterPoint { x: 0, y: 0, clipped: true });
    assert_eq!(spatial_to_pixel(Pt2 { x: 0, y: -12289 }, &viewport()), RasterPoint { x: 0, y: 0, clipped: true });
}

#[test]
fn prepared_triangle_is_located() {
    let v = |x, y| Vertex { spatial: p3(x, y, 4096), variable: p3(9, 9, 9) };
    let t = prep_triangle(Triangle { points: [v(0, 0), v(4096, 0), v(0, 4096)] }, &viewport(), &camera());
    assert_eq!(t.points[0].raster_location, RasterPoint { x: 160, y: 120, clipped: false });
    assert_eq!(t.points[1].raster_location, RasterPoint { x: 200, y: 120, clipped: false });
    assert_eq!(t.points[2].raster_location, RasterPoint { x: 160, y: 80, clipped: false });
    assert!(t.points.iter().all(|p| p.depth == 4096 && p.variable == p3(9, 9, 9)));
}

#[test]
fn rendered_mesh_fills_the_middle() {
    let mut rng = StdRng::seed_from_u64(5);
    let tris = make_triangle_partition(-8192, 8192, -6144, 6144, 8, 8, 0, 4096, &mut rng);
    let mut frame = Frame::new();
    render_mesh(&mut frame, &tris, &viewport(), &camera());
    let centre = frame.cells[160 + 320 * 120];
    assert_eq!(centre.depth, 4096);
    assert_eq!(frame.cells[5 + 320 * 5].depth, i128::MIN);
    let bytes = pixel_bytes(&frame);
    assert_eq!(bytes.len(), 4 * 320 * 240);
    let i = 160 + 320 * 120;
    let c = centre.color;
    assert_eq!(bytes[4 * i..4 * i + 4], c.to_le_bytes());
}

#[test]
fn random_colours_keep_positions() {
    let mut rng = StdRng::seed_from_u64(9);
    let mut tris = make_triangle_partition(0, 400, 0, 400, 3, 3, 0, 4096, &mut rng);
    let before = tris.clone();
    randomize_colors(&mut tris, &mut rng);
    assert_eq!(tris.len(), 8);
    for (t, b) in tris.iter().zip(before.iter()) {
        for m in 0..3 {
            assert_eq!(t.points[m].spatial, b.points[m].spatial);
            let c = t.points[m].variable;
            assert!((0..256).contains(&c.x) && (0..256).contains(&c.y) && (0..256).contains(&c.z));
        }
    }
}

fn small_grid() -> Grid {
    Grid { x_min: 0, x_max: 300, y_min: 0, y_max: 200, grid_width: 3, grid_height: 2, jitter: 10, depth: 50 }
}

#[test]
fn mesh_from_bits_is_exact() {
    // 3 * 6 point bits, then 2 cell bits.
    let mut bits = vec![false; 20];
    bits[0] = true; // point (0, 0): x moved
    bits[4] = true; // point (1, 0): y moved
    bits[18] = true; // cell (0, 0): diagonal a-d
    let tris = build_triangle_partition(&small_grid(), &bits);
    assert_eq!(tris.len(), 4);
    let pos = |t: &Triangle<Vertex>| -> Vec<(i32, i32, i32)> { t.points.iter().map(|v| (v.spatial.x, v.spatial.y, v.spatial.z)).collect() };
    assert_eq!(pos(&tris[0]), vec![(10, 0, 50), (100, 10, 50), (100, 100, 50)]);
    assert_eq!(pos(&tris[1]), vec![(10, 0, 50), (0, 100, 50), (100, 100, 50)]);
    assert_eq!(pos(&tris[2]), vec![(100, 10, 50), (200, 0, 50), (100, 100, 50)]);
    assert_eq!(pos(&tris[3]), vec![(200, 0, 50), (100, 100, 50), (200, 100, 50)]);
}

#[test]
fn same_bits_give_same_mesh() {
    let bits: Vec<bool> = (0..20).map(|k| k % 3 == 1).collect();
    let a = build_triangle_partition(&small_grid(), &bits);
    let b = build_triangle_partition(&small_grid(), &bits);
    assert!(a.iter().zip(b.iter()).all(|(s, t)| s.points == t.points));
    let mut r1 = StdRng::seed_from_u64(42);
    let mut r2 = StdRng::seed_from_u64(42);
    let m1 = make_triangle_partition(0, 300, 0, 200, 3, 2, 10, 50, &mut r1);
    let m2 = make_triangle_partition(0, 300, 0, 200, 3, 2, 10, 50, &mut r2);
    assert!(m1.iter().zip(m2.iter()).all(|(s, t)| s.points == t.points));
}
