use mine_digger::cube::{cube, Vertex};

/// The 24 vertices of the cube centered at the origin with edge 2000
/// (half edge 1000), as (x, y, z, u, v), face order top, bottom, front,
/// back, right, left, corner order (-a,+b) (-a,-b) (+a,+b) (+a,-b).
fn unit_cube_expected() -> Vec<(i64, i64, i64, u8, u8)> {
    vec![
        // Top, z = +1000
        (-1000, 1000, 1000, 0, 1),
        (-1000, -1000, 1000, 0, 0),
        (1000, 1000, 1000, 1, 1),
        (1000, -1000, 1000, 1, 0),
        // Bottom, z = -1000
        (-1000, -1000, -1000, 0, 1),
        (-1000, 1000, -1000, 0, 0),
        (1000, -1000, -1000, 1, 1),
        (1000, 1000, -1000, 1, 0),
        // Front, y = -1000
        (-1000, -1000, 1000, 0, 1),
        (-1000, -1000, -1000, 0, 0),
        (1000, -1000, 1000, 1, 1),
        (1000, -1000, -1000, 1, 0),
        // Back, y = +1000
        (1000, 1000, 1000, 0, 1),
        (1000, 1000, -1000, 0, 0),
        (-1000, 1000, 1000, 1, 1),
        (-1000, 1000, -1000, 1, 0),
        // Right, x = +1000
        (1000, -1000, 1000, 0, 1),
        (1000, -1000, -1000, 0, 0),
        (1000, 1000, 1000, 1, 1),
        (1000, 1000, -1000, 1, 0),
        // Left, x = -1000
        (-1000, 1000, 1000, 0, 1),
        (-1000, 1000, -1000, 0, 0),
        (-1000, -1000, 1000, 1, 1),
        (-1000, -1000, -1000, 1, 0),
    ]
}

#[test]
fn cube_has_24_vertices_and_36_indices() {
    let (vs, ids) = cube(0, 0, 0, 2000);
    assert_eq!(vs.len(), 24);
    assert_eq!(ids.len(), 36);
    for &i in ids.iter() {
        assert!(i < 24);
    }
}

#[test]
fn cube_vertices_are_exact() {
    let (vs, _) = cube(0, 0, 0, 2000);
    let expected = unit_cube_expected();
    for (k, v) in vs.iter().enumerate() {
        let (x, y, z, u, w) = expected[k];
        assert_eq!((v.x, v.y, v.z, v.u, v.v), (x, y, z, u, w), "vertex {}", k);
    }
}

#[test]
fn cube_index_pattern_is_fixed_per_face() {
    let (_, ids) = cube(0, 0, 0, 2000);
    let expected: Vec<u16> = vec![
        0, 1, 2, 2, 1, 3, 4, 5, 6, 6, 5, 7, 8, 9, 10, 10, 9, 11, 12, 13, 14, 14, 13, 15, 16, 17,
        18, 18, 17, 19, 20, 21, 22, 22, 21, 23,
    ];
    assert_eq!(ids, expected);
}

#[test]
fn cube_vertices_lie_on_surface() {
    let (vs, _) = cube(17, -4000, 250, 3000);
    for v in vs.iter() {
        assert_eq!((v.x - 17).abs(), 1500);
        assert_eq!((v.y + 4000).abs(), 1500);
        assert_eq!((v.z - 250).abs(), 1500);
    }
}

#[test]
fn cube_odd_edge_rounds_half_toward_zero() {
    let (vs, _) = cube(0, 0, 0, 5);
    for v in vs.iter() {
        assert_eq!(v.x.abs(), 2);
        assert_eq!(v.y.abs(), 2);
        assert_eq!(v.z.abs(), 2);
    }
}

#[test]
fn cube_negative_edge_is_degenerate_but_total() {
    let (vs, ids) = cube(100, 100, 100, -2000);
    assert_eq!(vs.len(), 24);
    assert_eq!(ids.len(), 36);
    for v in vs.iter() {
        assert_eq!((v.x - 100).abs(), 1000);
        assert_eq!((v.y - 100).abs(), 1000);
        assert_eq!((v.z - 100).abs(), 1000);
    }
}

#[test]
fn cube_zero_edge_collapses_to_center() {
    let (vs, _) = cube(7, 8, 9, 0);
    for v in vs.iter() {
        assert_eq!((v.x, v.y, v.z), (7, 8, 9));
    }
}

#[test]
fn cube_is_deterministic() {
    let a = cube(123, -456, 789, 2222);
    let b = cube(123, -456, 789, 2222);
    assert_eq!(a.0, b.0);
    assert_eq!(a.1, b.1);
}

fn sub(a: &Vertex, b: &Vertex) -> (i64, i64, i64) {
    (a.x - b.x, a.y - b.y, a.z - b.z)
}

fn cross(a: (i64, i64, i64), b: (i64, i64, i64)) -> (i64, i64, i64) {
    (
        a.1 * b.2 - a.2 * b.1,
        a.2 * b.0 - a.0 * b.2,
        a.0 * b.1 - a.1 * b.0,
    )
}

fn dot(a: (i64, i64, i64), b: (i64, i64, i64)) -> i64 {
    a.0 * b.0 + a.1 * b.1 + a.2 * b.2
}

#[test]
fn cube_triangles_wind_outward() {
    let (cx, cy, cz) = (50, -70, 90);
    let (vs, ids) = cube(cx, cy, cz, 2000);
    for t in 0..12 {
        let p0 = &vs[ids[3 * t] as usize];
        let p1 = &vs[ids[3 * t + 1] as usize];
        let p2 = &vs[ids[3 * t + 2] as usize];
        let n = cross(sub(p1, p0), sub(p2, p0));
        let outward = (p0.x - cx, p0.y - cy, p0.z - cz);
        assert!(dot(n, outward) > 0, "triangle {} winds inward", t);
    }
}

#[test]
fn cube_faces_carry_full_texture_square() {
    let (vs, _) = cube(0, 0, 0, 2000);
    for f in 0..6 {
        let uvs: Vec<(u8, u8)> = (0..4).map(|q| (vs[4 * f + q].u, vs[4 * f + q].v)).collect();
        assert_eq!(uvs, vec![(0, 1), (0, 0), (1, 1), (1, 0)], "face {}", f);
    }
}
