//! Procedural cube mesh: 24 vertices (4 per face, duplicated so every face
//! carries its own full texture square) and 36 indices (2 triangles per face).
//!
//! Coordinates are fixed-point milli-units. Every face is emitted in the same
//! pattern: with `a` the texture's `u` axis, `b` its `v` axis and `n` the
//! outward normal, chosen so that `a x b == n`, the four corners come in the
//! order `(-a,+b) (-a,-b) (+a,+b) (+a,-b)`. The shared index pattern
//! `[0,1,2, 2,1,3]` then winds both triangles of every face
//! counter-clockwise as seen from outside the solid.

use vstd::prelude::*;

use crate::math::{abs_of, times_sign};

verus! {

/// A mesh vertex: a position in milli-units and a texel coordinate whose
/// components are 0 or 1 (each face spans the whole texture square).
#[derive(Clone, Copy, Debug, PartialEq, Eq, Structural)]
pub struct Vertex {
    pub x: i64,
    pub y: i64,
    pub z: i64,
    pub u: u8,
    pub v: u8,
}

/// Half of `l`, rounded toward zero (the half edge of a cube of edge `l`).
pub open spec fn half(l: int) -> int {
    if l >= 0 {
        l / 2
    } else {
        -((-l) / 2)
    }
}

/// Sign of the texture-`u` axis coordinate of corner `q` of a face.
pub open spec fn corner_a(q: int) -> int {
    if q == 2 || q == 3 {
        1
    } else {
        -1
    }
}

/// Sign of the texture-`v` axis coordinate of corner `q` of a face.
pub open spec fn corner_b(q: int) -> int {
    if q == 0 || q == 2 {
        1
    } else {
        -1
    }
}

/// Texel `u` of corner `q`.
pub open spec fn corner_u(q: int) -> int {
    if q == 2 || q == 3 {
        1
    } else {
        0
    }
}

/// Texel `v` of corner `q`.
pub open spec fn corner_v(q: int) -> int {
    if q == 0 || q == 2 {
        1
    } else {
        0
    }
}

/// Outward unit normal of face `f`, faces ordered top, bottom, front, back,
/// right, left.
pub open spec fn face_normal(f: int) -> (int, int, int) {
    if f == 0 {
        (0, 0, 1)
    } else if f == 1 {
        (0, 0, -1)
    } else if f == 2 {
        (0, -1, 0)
    } else if f == 3 {
        (0, 1, 0)
    } else if f == 4 {
        (1, 0, 0)
    } else {
        (-1, 0, 0)
    }
}

/// In-plane axis of face `f` along which the texel `u` grows.
pub open spec fn face_axis_a(f: int) -> (int, int, int) {
    if f == 0 || f == 1 || f == 2 {
        (1, 0, 0)
    } else if f == 3 {
        (-1, 0, 0)
    } else if f == 4 {
        (0, 1, 0)
    } else {
        (0, -1, 0)
    }
}

/// In-plane axis of face `f` along which the texel `v` grows.
pub open spec fn face_axis_b(f: int) -> (int, int, int) {
    if f == 0 {
        (0, 1, 0)
    } else if f == 1 {
        (0, -1, 0)
    } else {
        (0, 0, 1)
    }
}

/// Offset of vertex `i` from the cube center, in units of the half edge:
/// the face normal plus the signed in-plane axes of corner `i % 4`.
pub open spec fn vertex_sign(i: int) -> (int, int, int) {
    let f = i / 4;
    let q = i % 4;
    let n = face_normal(f);
    let a = face_axis_a(f);
    let b = face_axis_b(f);
    (
        n.0 + times_sign(corner_a(q), a.0) + times_sign(corner_b(q), b.0),
        n.1 + times_sign(corner_a(q), a.1) + times_sign(corner_b(q), b.1),
        n.2 + times_sign(corner_a(q), a.2) + times_sign(corner_b(q), b.2),
    )
}

/// Vertex `vt` is the `i`-th vertex of the cube centered at `(cx, cy, cz)`
/// with half edge `h`.
pub open spec fn vertex_matches(vt: Vertex, cx: int, cy: int, cz: int, h: int, i: int) -> bool {
    &&& vt.x == cx + times_sign(vertex_sign(i).0, h)
    &&& vt.y == cy + times_sign(vertex_sign(i).1, h)
    &&& vt.z == cz + times_sign(vertex_sign(i).2, h)
    &&& vt.u == corner_u(i % 4)
    &&& vt.v == corner_v(i % 4)
}

/// `s` is exactly the vertex sequence of the cube centered at `(cx, cy, cz)`
/// with half edge `h`.
pub open spec fn is_cube_vertices(s: Seq<Vertex>, cx: int, cy: int, cz: int, h: int) -> bool {
    &&& s.len() == 24
    &&& forall|i: int| 0 <= i < 24 ==> #[trigger] vertex_matches(s[i], cx, cy, cz, h, i)
}

/// The corner picked by slot `k` of a face's six index slots.
pub open spec fn slot_corner(k: int) -> int {
    if k == 0 {
        0
    } else if k == 1 {
        1
    } else if k == 2 {
        2
    } else if k == 3 {
        2
    } else if k == 4 {
        1
    } else {
        3
    }
}

/// The `j`-th entry of the index buffer: face `j / 6`, slot `j % 6`.
pub open spec fn cube_index(j: int) -> int {
    4 * (j / 6) + slot_corner(j % 6)
}

/// `s` is exactly the cube's index buffer.
pub open spec fn is_cube_indices(s: Seq<u16>) -> bool {
    &&& s.len() == 36
    &&& forall|j: int| 0 <= j < 36 ==> #[trigger] s[j] == cube_index(j)
}

/// Build the vertex and index buffers of an axis-aligned cube centered at
/// `(pos_x, pos_y, pos_z)` with the given edge length, all in milli-units.
///
/// The function is total over its numeric domain (a nonpositive edge length
/// yields a degenerate or inverted cube, as documented); the bounds below
/// only keep the corner coordinates inside `i64`.
#[verifier::rlimit(60)]
pub fn cube(pos_x: i64, pos_y: i64, pos_z: i64, edge_length: i64) -> (r: (Vec<Vertex>, Vec<u16>))
    requires
        -0x2000_0000_0000_0000 <= pos_x <= 0x2000_0000_0000_0000,
        -0x2000_0000_0000_0000 <= pos_y <= 0x2000_0000_0000_0000,
        -0x2000_0000_0000_0000 <= pos_z <= 0x2000_0000_0000_0000,
        -0x2000_0000_0000_0000 <= edge_length <= 0x2000_0000_0000_0000,
    ensures
        is_cube_vertices(
            r.0@,
            pos_x as int,
            pos_y as int,
            pos_z as int,
            half(edge_length as int),
        ),
        is_cube_indices(r.1@),
{
    let h: i64 = if edge_length >= 0 {
        ((edge_length as u64) / 2) as i64
    } else {
        -((((-edge_length) as u64) / 2) as i64)
    };
    proof {
        assert(h as int == half(edge_length as int));
    }
    let xm: i64 = pos_x - h;
    let xp: i64 = pos_x + h;
    let ym: i64 = pos_y - h;
    let yp: i64 = pos_y + h;
    let zm: i64 = pos_z - h;
    let zp: i64 = pos_z + h;

    let mut vs: Vec<Vertex> = Vec::new();
    // Top face, z = +h
    vs.push(Vertex { x: xm, y: yp, z: zp, u: 0, v: 1 });
    vs.push(Vertex { x: xm, y: ym, z: zp, u: 0, v: 0 });
    vs.push(Vertex { x: xp, y: yp, z: zp, u: 1, v: 1 });
    vs.push(Vertex { x: xp, y: ym, z: zp, u: 1, v: 0 });
    // Bottom face, z = -h
    vs.push(Vertex { x: xm, y: ym, z: zm, u: 0, v: 1 });
    vs.push(Vertex { x: xm, y: yp, z: zm, u: 0, v: 0 });
    vs.push(Vertex { x: xp, y: ym, z: zm, u: 1, v: 1 });
    vs.push(Vertex { x: xp, y: yp, z: zm, u: 1, v: 0 });
    // Front face, y = -h
    vs.push(Vertex { x: xm, y: ym, z: zp, u: 0, v: 1 });
    vs.push(Vertex { x: xm, y: ym, z: zm, u: 0, v: 0 });
    vs.push(Vertex { x: xp, y: ym, z: zp, u: 1, v: 1 });
    vs.push(Vertex { x: xp, y: ym, z: zm, u: 1, v: 0 });
    // Back face, y = +h
    vs.push(Vertex { x: xp, y: yp, z: zp, u: 0, v: 1 });
    vs.push(Vertex { x: xp, y: yp, z: zm, u: 0, v: 0 });
    vs.push(Vertex { x: xm, y: yp, z: zp, u: 1, v: 1 });
    vs.push(Vertex { x: xm, y: yp, z: zm, u: 1, v: 0 });
    // Right face, x = +h
    vs.push(Vertex { x: xp, y: ym, z: zp, u: 0, v: 1 });
    vs.push(Vertex { x: xp, y: ym, z: zm, u: 0, v: 0 });
    vs.push(Vertex { x: xp, y: yp, z: zp, u: 1, v: 1 });
    vs.push(Vertex { x: xp, y: yp, z: zm, u: 1, v: 0 });
    // Left face, x = -h
    vs.push(Vertex { x: xm, y: yp, z: zp, u: 0, v: 1 });
    vs.push(Vertex { x: xm, y: yp, z: zm, u: 0, v: 0 });
    vs.push(Vertex { x: xm, y: ym, z: zp, u: 1, v: 1 });
    vs.push(Vertex { x: xm, y: ym, z: zm, u: 1, v: 0 });

    let mut ids: Vec<u16> = Vec::new();
    ids.push(0);
    ids.push(1);
    ids.push(2);
    ids.push(2);
    ids.push(1);
    ids.push(3);
    ids.push(4);
    ids.push(5);
    ids.push(6);
    ids.push(6);
    ids.push(5);
    ids.push(7);
    ids.push(8);
    ids.push(9);
    ids.push(10);
    ids.push(10);
    ids.push(9);
    ids.push(11);
    ids.push(12);
    ids.push(13);
    ids.push(14);
    ids.push(14);
    ids.push(13);
    ids.push(15);
    ids.push(16);
    ids.push(17);
    ids.push(18);
    ids.push(18);
    ids.push(17);
    ids.push(19);
    ids.push(20);
    ids.push(21);
    ids.push(22);
    ids.push(22);
    ids.push(21);
    ids.push(23);

    proof {
        let ghost cxi = pos_x as int;
        let ghost cyi = pos_y as int;
        let ghost czi = pos_z as int;
        let ghost hi = h as int;
        assert forall|i: int| 0 <= i < 24 implies #[trigger] vertex_matches(
            vs@[i],
            cxi,
            cyi,
            czi,
            hi,
            i,
        ) by {
            if i < 12 {
                if i < 6 {
                    if i == 0 { assert(vertex_matches(vs@[0], cxi, cyi, czi, hi, 0)); }
                    else if i == 1 { assert(vertex_matches(vs@[1], cxi, cyi, czi, hi, 1)); }
                    else if i == 2 { assert(vertex_matches(vs@[2], cxi, cyi, czi, hi, 2)); }
                    else if i == 3 { assert(vertex_matches(vs@[3], cxi, cyi, czi, hi, 3)); }
                    else if i == 4 { assert(vertex_matches(vs@[4], cxi, cyi, czi, hi, 4)); }
                    else { assert(vertex_matches(vs@[5], cxi, cyi, czi, hi, 5)); }
                } else {
                    if i == 6 { assert(vertex_matches(vs@[6], cxi, cyi, czi, hi, 6)); }
                    else if i == 7 { assert(vertex_matches(vs@[7], cxi, cyi, czi, hi, 7)); }
                    else if i == 8 { assert(vertex_matches(vs@[8], cxi, cyi, czi, hi, 8)); }
                    else if i == 9 { assert(vertex_matches(vs@[9], cxi, cyi, czi, hi, 9)); }
                    else if i == 10 { assert(vertex_matches(vs@[10], cxi, cyi, czi, hi, 10)); }
                    else { assert(vertex_matches(vs@[11], cxi, cyi, czi, hi, 11)); }
                }
            } else {
                if i < 18 {
                    if i == 12 { assert(vertex_matches(vs@[12], cxi, cyi, czi, hi, 12)); }
                    else if i == 13 { assert(vertex_matches(vs@[13], cxi, cyi, czi, hi, 13)); }
                    else if i == 14 { assert(vertex_matches(vs@[14], cxi, cyi, czi, hi, 14)); }
                    else if i == 15 { assert(vertex_matches(vs@[15], cxi, cyi, czi, hi, 15)); }
                    else if i == 16 { assert(vertex_matches(vs@[16], cxi, cyi, czi, hi, 16)); }
                    else { assert(vertex_matches(vs@[17], cxi, cyi, czi, hi, 17)); }
                } else {
                    if i == 18 { assert(vertex_matches(vs@[18], cxi, cyi, czi, hi, 18)); }
                    else if i == 19 { assert(vertex_matches(vs@[19], cxi, cyi, czi, hi, 19)); }
                    else if i == 20 { assert(vertex_matches(vs@[20], cxi, cyi, czi, hi, 20)); }
                    else if i == 21 { assert(vertex_matches(vs@[21], cxi, cyi, czi, hi, 21)); }
                    else if i == 22 { assert(vertex_matches(vs@[22], cxi, cyi, czi, hi, 22)); }
                    else { assert(vertex_matches(vs@[23], cxi, cyi, czi, hi, 23)); }
                }
            }
        }
        assert forall|j: int| 0 <= j < 36 implies #[trigger] ids@[j] == cube_index(j) by {
            assert(0 <= j / 6 < 6);
            assert(0 <= j % 6 < 6);
        }
        assert(is_cube_vertices(
            vs@,
            pos_x as int,
            pos_y as int,
            pos_z as int,
            half(edge_length as int),
        ));
        assert(is_cube_indices(ids@));
    }
    (vs, ids)
}

/// Every component of every vertex offset is a full half edge: the cube has
/// no vertex strictly inside or outside its surface.
pub proof fn lemma_sign_unit(i: int)
    requires
        0 <= i < 24,
    ensures
        vertex_sign(i).0 == -1 || vertex_sign(i).0 == 1,
        vertex_sign(i).1 == -1 || vertex_sign(i).1 == 1,
        vertex_sign(i).2 == -1 || vertex_sign(i).2 == 1,
{
    assert(0 <= i / 4 < 6);
    assert(0 <= i % 4 < 4);
}

/// Vertex `vt` sits on the surface of the cube of half edge `h` centered at
/// `(cx, cy, cz)`: each coordinate deviates from the center by exactly `h`.
pub open spec fn on_surface(vt: Vertex, cx: int, cy: int, cz: int, h: int) -> bool {
    &&& abs_of(vt.x - cx) == h
    &&& abs_of(vt.y - cy) == h
    &&& abs_of(vt.z - cz) == h
}

/// All 24 vertices lie on the surface of the cube: the absolute deviation of
/// every coordinate from the center is exactly the half edge.
pub proof fn lemma_cube_on_surface(s: Seq<Vertex>, cx: int, cy: int, cz: int, h: int)
    requires
        is_cube_vertices(s, cx, cy, cz, h),
        h >= 0,
    ensures
        forall|i: int| 0 <= i < 24 ==> #[trigger] on_surface(s[i], cx, cy, cz, h),
{
    assert forall|i: int| 0 <= i < 24 implies #[trigger] on_surface(s[i], cx, cy, cz, h) by {
        assert(vertex_matches(s[i], cx, cy, cz, h, i));
        lemma_sign_unit(i);
    }
}

/// Every entry of the index buffer points at one of the 24 vertex slots.
pub proof fn lemma_cube_indices_bound(s: Seq<u16>)
    requires
        is_cube_indices(s),
    ensures
        forall|j: int| 0 <= j < 36 ==> 0 <= #[trigger] s[j] < 24,
{
    assert forall|j: int| 0 <= j < 36 implies 0 <= #[trigger] s[j] < 24 by {
        assert(s[j] == cube_index(j));
        assert(0 <= j / 6 <= 5);
    }
}

/// The mesh is a function of center and edge alone: any two outputs that
/// meet the cube contracts for the same arguments are identical.
pub proof fn lemma_cube_deterministic(
    v1: Seq<Vertex>,
    i1: Seq<u16>,
    v2: Seq<Vertex>,
    i2: Seq<u16>,
    cx: int,
    cy: int,
    cz: int,
    h: int,
)
    requires
        is_cube_vertices(v1, cx, cy, cz, h),
        is_cube_indices(i1),
        is_cube_vertices(v2, cx, cy, cz, h),
        is_cube_indices(i2),
    ensures
        v1 == v2,
        i1 == i2,
{
    assert forall|i: int| 0 <= i < 24 implies v1[i] == v2[i] by {
        assert(vertex_matches(v1[i], cx, cy, cz, h, i));
        assert(vertex_matches(v2[i], cx, cy, cz, h, i));
    }
    assert(v1 =~= v2);
    assert forall|j: int| 0 <= j < 36 implies i1[j] == i2[j] by {
        assert(i1[j] == cube_index(j));
        assert(i2[j] == cube_index(j));
    }
    assert(i1 =~= i2);
}

/// Componentwise difference of two integer vectors.
pub open spec fn sub3(a: (int, int, int), b: (int, int, int)) -> (int, int, int) {
    (a.0 - b.0, a.1 - b.1, a.2 - b.2)
}

/// Cross product of two integer vectors.
pub open spec fn cross3(a: (int, int, int), b: (int, int, int)) -> (int, int, int) {
    (a.1 * b.2 - a.2 * b.1, a.2 * b.0 - a.0 * b.2, a.0 * b.1 - a.1 * b.0)
}

/// Dot product of two integer vectors.
pub open spec fn dot3(a: (int, int, int), b: (int, int, int)) -> int {
    a.0 * b.0 + a.1 * b.1 + a.2 * b.2
}

/// An integer vector scaled by `k`.
pub open spec fn scale3(k: int, a: (int, int, int)) -> (int, int, int) {
    (k * a.0, k * a.1, k * a.2)
}

/// The position of a mesh vertex as an integer vector.
pub open spec fn vertex_pos(vt: Vertex) -> (int, int, int) {
    (vt.x as int, vt.y as int, vt.z as int)
}

/// Triangle `t` of the mesh (vertices picked by index slots `3t .. 3t+3`)
/// winds counter-clockwise seen from outside: the cross product of its edge
/// vectors points away from the cube center.
pub open spec fn triangle_outward(
    vs: Seq<Vertex>,
    ids: Seq<u16>,
    cx: int,
    cy: int,
    cz: int,
    t: int,
) -> bool {
    let p0 = vertex_pos(vs[ids[3 * t] as int]);
    let p1 = vertex_pos(vs[ids[3 * t + 1] as int]);
    let p2 = vertex_pos(vs[ids[3 * t + 2] as int]);
    dot3(cross3(sub3(p1, p0), sub3(p2, p0)), sub3(p0, (cx, cy, cz))) > 0
}

/// `mul_small(a, b) == a * b` for `a` between -2 and 2, written with sums
/// alone so that the default solver can evaluate it.
spec fn mul_small(a: int, b: int) -> int {
    if a == 0 {
        0
    } else if a == 1 {
        b
    } else if a == -1 {
        -b
    } else if a == 2 {
        b + b
    } else {
        -(b + b)
    }
}

proof fn lemma_mul_comm(a: int, b: int)
    ensures
        a * b == b * a,
{
    assert(a * b == b * a) by (nonlinear_arith);
}

proof fn lemma_mul_small(a: int, b: int)
    requires
        -2 <= a <= 2,
    ensures
        mul_small(a, b) == a * b,
{
    if a == 0 {
        assert(a * b == 0) by (nonlinear_arith)
            requires
                a == 0,
        ;
    } else if a == 1 {
        assert(a * b == b) by (nonlinear_arith)
            requires
                a == 1,
        ;
    } else if a == -1 {
        assert(a * b == -b) by (nonlinear_arith)
            requires
                a == -1,
        ;
    } else if a == 2 {
        assert(a * b == b + b) by (nonlinear_arith)
            requires
                a == 2,
        ;
    } else {
        assert(a * b == -(b + b)) by (nonlinear_arith)
            requires
                a == -2,
        ;
    }
}

proof fn lemma_times_sign_mul(s: int, h: int)
    requires
        -1 <= s <= 1,
    ensures
        times_sign(s, h) == s * h,
{
    if s == 1 {
        assert(s * h == h) by (nonlinear_arith)
            requires
                s == 1,
        ;
    } else if s == -1 {
        assert(s * h == -h) by (nonlinear_arith)
            requires
                s == -1,
        ;
    } else {
        assert(s * h == 0) by (nonlinear_arith)
            requires
                s == 0,
        ;
    }
}

proof fn lemma_cross_scale(d1: (int, int, int), d2: (int, int, int), h: int)
    ensures
        cross3(scale3(h, d1), scale3(h, d2)) == scale3(h * h, cross3(d1, d2)),
{
    assert((h * d1.1) * (h * d2.2) - (h * d1.2) * (h * d2.1) == (h * h) * (d1.1 * d2.2 - d1.2
        * d2.1)) by (nonlinear_arith);
    assert((h * d1.2) * (h * d2.0) - (h * d1.0) * (h * d2.2) == (h * h) * (d1.2 * d2.0 - d1.0
        * d2.2)) by (nonlinear_arith);
    assert((h * d1.0) * (h * d2.1) - (h * d1.1) * (h * d2.0) == (h * h) * (d1.0 * d2.1 - d1.1
        * d2.0)) by (nonlinear_arith);
}

proof fn lemma_dot_scale(u: (int, int, int), w: (int, int, int), k: int, h: int)
    ensures
        dot3(scale3(k, u), scale3(h, w)) == (k * h) * dot3(u, w),
{
    assert((k * u.0) * (h * w.0) == (k * h) * (u.0 * w.0)) by (nonlinear_arith);
    assert((k * u.1) * (h * w.1) == (k * h) * (u.1 * w.1)) by (nonlinear_arith);
    assert((k * u.2) * (h * w.2) == (k * h) * (u.2 * w.2)) by (nonlinear_arith);
    assert((k * h) * (u.0 * w.0) + (k * h) * (u.1 * w.1) + (k * h) * (u.2 * w.2) == (k * h) * (u.0
        * w.0 + u.1 * w.1 + u.2 * w.2)) by (nonlinear_arith);
}

#[verifier::rlimit(100)]
proof fn lemma_triangle_outward(
    vs: Seq<Vertex>,
    ids: Seq<u16>,
    cx: int,
    cy: int,
    cz: int,
    h: int,
    t: int,
)
    requires
        is_cube_vertices(vs, cx, cy, cz, h),
        is_cube_indices(ids),
        h >= 1,
        0 <= t < 12,
    ensures
        triangle_outward(vs, ids, cx, cy, cz, t),
{
    let j0 = 3 * t;
    let j1 = 3 * t + 1;
    let j2 = 3 * t + 2;
    assert(ids[j0] == cube_index(j0));
    assert(ids[j1] == cube_index(j1));
    assert(ids[j2] == cube_index(j2));
    let i0 = cube_index(j0);
    let i1 = cube_index(j1);
    let i2 = cube_index(j2);
    assert(0 <= j0 / 6 <= 5);
    assert(0 <= j1 / 6 <= 5);
    assert(0 <= j2 / 6 <= 5);
    assert(vertex_matches(vs[i0], cx, cy, cz, h, i0));
    assert(vertex_matches(vs[i1], cx, cy, cz, h, i1));
    assert(vertex_matches(vs[i2], cx, cy, cz, h, i2));
    lemma_sign_unit(i0);
    lemma_sign_unit(i1);
    lemma_sign_unit(i2);
    let s0 = vertex_sign(i0);
    let s1 = vertex_sign(i1);
    let s2 = vertex_sign(i2);
    let p0 = vertex_pos(vs[i0]);
    let p1 = vertex_pos(vs[i1]);
    let p2 = vertex_pos(vs[i2]);
    let d1 = sub3(s1, s0);
    let d2 = sub3(s2, s0);
    lemma_times_sign_mul(s0.0, h);
    lemma_times_sign_mul(s0.1, h);
    lemma_times_sign_mul(s0.2, h);
    lemma_times_sign_mul(s1.0, h);
    lemma_times_sign_mul(s1.1, h);
    lemma_times_sign_mul(s1.2, h);
    lemma_times_sign_mul(s2.0, h);
    lemma_times_sign_mul(s2.1, h);
    lemma_times_sign_mul(s2.2, h);
    assert(p1.0 - p0.0 == s1.0 * h - s0.0 * h);
    assert(s1.0 * h - s0.0 * h == (s1.0 - s0.0) * h) by (nonlinear_arith);
    assert(s1.1 * h - s0.1 * h == (s1.1 - s0.1) * h) by (nonlinear_arith);
    assert(s1.2 * h - s0.2 * h == (s1.2 - s0.2) * h) by (nonlinear_arith);
    assert(s2.0 * h - s0.0 * h == (s2.0 - s0.0) * h) by (nonlinear_arith);
    assert(s2.1 * h - s0.1 * h == (s2.1 - s0.1) * h) by (nonlinear_arith);
    assert(s2.2 * h - s0.2 * h == (s2.2 - s0.2) * h) by (nonlinear_arith);
    assert(d1.0 * h == h * d1.0) by (nonlinear_arith);
    assert(d1.1 * h == h * d1.1) by (nonlinear_arith);
    assert(d1.2 * h == h * d1.2) by (nonlinear_arith);
    assert(d2.0 * h == h * d2.0) by (nonlinear_arith);
    assert(d2.1 * h == h * d2.1) by (nonlinear_arith);
    assert(d2.2 * h == h * d2.2) by (nonlinear_arith);
    assert(s0.0 * h == h * s0.0) by (nonlinear_arith);
    assert(s0.1 * h == h * s0.1) by (nonlinear_arith);
    assert(s0.2 * h == h * s0.2) by (nonlinear_arith);
    assert(sub3(p1, p0) == scale3(h, d1));
    assert(sub3(p2, p0) == scale3(h, d2));
    assert(sub3(p0, (cx, cy, cz)) == scale3(h, s0));
    lemma_cross_scale(d1, d2, h);
    lemma_dot_scale(cross3(d1, d2), s0, h * h, h);
    let k = cross3(d1, d2);
    lemma_mul_comm(d1.1, d2.2);
    lemma_mul_comm(d1.2, d2.1);
    lemma_mul_comm(d1.2, d2.0);
    lemma_mul_comm(d1.0, d2.2);
    lemma_mul_comm(d1.0, d2.1);
    lemma_mul_comm(d1.1, d2.0);
    lemma_mul_small(d2.2, d1.1);
    lemma_mul_small(d2.1, d1.2);
    lemma_mul_small(d2.0, d1.2);
    lemma_mul_small(d2.2, d1.0);
    lemma_mul_small(d2.1, d1.0);
    lemma_mul_small(d2.0, d1.1);
    assert(k.0 == mul_small(d2.2, d1.1) - mul_small(d2.1, d1.2));
    assert(k.1 == mul_small(d2.0, d1.2) - mul_small(d2.2, d1.0));
    assert(k.2 == mul_small(d2.1, d1.0) - mul_small(d2.0, d1.1));
    lemma_mul_comm(k.0, s0.0);
    lemma_mul_comm(k.1, s0.1);
    lemma_mul_comm(k.2, s0.2);
    lemma_mul_small(s0.0, k.0);
    lemma_mul_small(s0.1, k.1);
    lemma_mul_small(s0.2, k.2);
    assert(dot3(k, s0) == mul_small(s0.0, k.0) + mul_small(s0.1, k.1) + mul_small(s0.2, k.2));
    if t == 0 {
        assert(dot3(k, s0) == 4);
    } else if t == 1 {
        assert(dot3(k, s0) == 4);
    } else if t == 2 {
        assert(dot3(k, s0) == 4);
    } else if t == 3 {
        assert(dot3(k, s0) == 4);
    } else if t == 4 {
        assert(dot3(k, s0) == 4);
    } else if t == 5 {
        assert(dot3(k, s0) == 4);
    } else if t == 6 {
        assert(dot3(k, s0) == 4);
    } else if t == 7 {
        assert(dot3(k, s0) == 4);
    } else if t == 8 {
        assert(dot3(k, s0) == 4);
    } else if t == 9 {
        assert(dot3(k, s0) == 4);
    } else if t == 10 {
        assert(dot3(k, s0) == 4);
    } else {
        assert(dot3(k, s0) == 4);
    }
    let cub = (h * h) * h;
    assert((h * h) * h >= 1) by (nonlinear_arith)
        requires
            h >= 1,
    ;
    assert(cross3(sub3(p1, p0), sub3(p2, p0)) == scale3(h * h, cross3(d1, d2)));
    assert(dot3(cross3(sub3(p1, p0), sub3(p2, p0)), sub3(p0, (cx, cy, cz))) == cub * dot3(
        cross3(d1, d2),
        s0,
    ));
    assert(dot3(cross3(d1, d2), s0) == 4);
    assert(cub * dot3(cross3(d1, d2), s0) == cub * 4);
    assert(dot3(cross3(sub3(p1, p0), sub3(p2, p0)), sub3(p0, (cx, cy, cz))) == cub * 4);
    assert(cub * 4 > 0);
    let q0 = vertex_pos(vs[ids[3 * t] as int]);
    let q1 = vertex_pos(vs[ids[3 * t + 1] as int]);
    let q2 = vertex_pos(vs[ids[3 * t + 2] as int]);
    assert(q0 == p0);
    assert(q1 == p1);
    assert(q2 == p2);
    assert(dot3(cross3(sub3(q1, q0), sub3(q2, q0)), sub3(q0, (cx, cy, cz))) > 0);
    assert(triangle_outward(vs, ids, cx, cy, cz, t));
}

/// Both triangles of every face of the cube mesh have outward-pointing
/// normals: the fixed index pattern winds them counter-clockwise as seen
/// from outside the solid.
pub proof fn lemma_cube_winding(vs: Seq<Vertex>, ids: Seq<u16>, cx: int, cy: int, cz: int, h: int)
    requires
        is_cube_vertices(vs, cx, cy, cz, h),
        is_cube_indices(ids),
        h >= 1,
    ensures
        forall|t: int| 0 <= t < 12 ==> #[trigger] triangle_outward(vs, ids, cx, cy, cz, t),
{
    assert forall|t: int| 0 <= t < 12 implies #[trigger] triangle_outward(vs, ids, cx, cy, cz, t) by {
        lemma_triangle_outward(vs, ids, cx, cy, cz, h, t);
    }
}

} // verus!
