use blinc_canvas_kit::geometry::Geometry;

#[test]
fn box_indices_cover_six_faces() {
    let idx = Geometry::box_indices();
    assert_eq!(idx.len(), 36);
    assert_eq!(&idx[0..6], &[0, 1, 2, 0, 2, 3]);
    assert_eq!(&idx[30..36], &[20, 21, 22, 20, 22, 23]);
    assert!(idx.iter().all(|&i| i < 24));
}

#[test]
fn sphere_has_two_triangles_per_cell() {
    let segments = 16u32;
    let idx = Geometry::sphere_indices(segments);
    assert_eq!(idx.len() / 3, (2 * segments * segments) as usize);
    assert_eq!(&idx[0..6], &[0, 17, 1, 17, 18, 1]);
    let vertices = (segments + 1) * (segments + 1);
    assert!(idx.iter().all(|&i| i < vertices));
}

#[test]
fn sphere_zero_segments_is_empty() {
    assert!(Geometry::sphere_indices(0).is_empty());
}

#[test]
fn torus_indices_follow_tube_rings() {
    let idx = Geometry::torus_indices(3, 2);
    assert_eq!(idx.len(), 36);
    // second cell of the first ring: a = 1, b = 1 + 3
    assert_eq!(&idx[6..12], &[1, 4, 2, 4, 5, 2]);
    assert!(idx.iter().all(|&i| i < 12));
}

#[test]
fn cylinder_indices_wall_and_caps() {
    let idx = Geometry::cylinder_indices(4);
    assert_eq!(idx.len(), 48);
    assert_eq!(&idx[0..6], &[0, 1, 2, 1, 3, 2]);
    // top cap fan around vertex 10, bottom cap fan around vertex 16
    assert_eq!(&idx[24..27], &[10, 11, 12]);
    assert_eq!(&idx[36..39], &[16, 18, 17]);
    assert!(idx.iter().all(|&i| i < 22));
}

#[test]
fn grid_indices_two_quads_per_line() {
    let idx = Geometry::grid_indices(2, 2);
    // 5 lines per axis, 2 quads each
    assert_eq!(idx.len(), 60);
    assert_eq!(&idx[6..12], &[4, 5, 6, 4, 6, 7]);
    assert!(idx.iter().all(|&i| i < 40));
}
