use flowguide::fp::{F_NEG_ONE, F_ONE, F_TAU, F_TWO_NEG16, V3};
use flowguide::hierarchy::build;
use flowguide::mesh::{InputMesh, ProcessMesh, Tri};
use flowguide::orientation::{extrinsic_compat, hierarchical_smoothing};
use flowguide::ply::compute_normals;

fn v(x: f32, y: f32, z: f32) -> V3 {
    V3 { x: x.to_bits(), y: y.to_bits(), z: z.to_bits() }
}

fn g(p: V3) -> glam::Vec3 {
    glam::Vec3::new(f32::from_bits(p.x), f32::from_bits(p.y), f32::from_bits(p.z))
}

fn bits(p: V3) -> (u32, u32, u32) {
    (p.x, p.y, p.z)
}

fn gbits(p: glam::Vec3) -> (u32, u32, u32) {
    (p.x.to_bits(), p.y.to_bits(), p.z.to_bits())
}

fn sm_next(s: u64) -> (u64, u64) {
    let s2 = s.wrapping_add(0x9E37_79B9_7F4A_7C15);
    let z1 = (s2 ^ (s2 >> 30)).wrapping_mul(0xBF58_476D_1CE4_E5B9);
    let z2 = (z1 ^ (z1 >> 27)).wrapping_mul(0x94D0_49BB_1331_11EB);
    (s2, z2 ^ (z2 >> 31))
}

#[test]
fn bit_pattern_constants_match_the_values() {
    assert_eq!(F_ONE, 1.0f32.to_bits());
    assert_eq!(F_NEG_ONE, (-1.0f32).to_bits());
    assert_eq!(F_TAU, std::f32::consts::TAU.to_bits());
    assert_eq!(F_TWO_NEG16, (1.0f32 / 65536.0).to_bits());
}

/// On a mesh with no edges the solver's output is exactly the seeded
/// tangent field, so every generator draw, integer-to-float conversion,
/// basis component and trigonometric call is pinned bit for bit.
#[test]
fn seeded_field_of_edgeless_mesh_matches_reference_computation() {
    let input = InputMesh {
        vertices: vec![v(0.0, 0.0, 0.0), v(5.0, 0.0, 0.0)],
        normals: vec![v(0.0, 0.0, 1.0), v(0.6, 0.0, 0.8)],
        tris: vec![],
    };
    let normals = input.normals.clone();
    let mesh = ProcessMesh::from(input);
    let h = build(mesh);
    assert_eq!(h.len(), 1);
    let field = hierarchical_smoothing(&h, 10);
    assert_eq!(field.len(), 2);

    let mut state = 0u64;
    for i in 0..2 {
        let n = g(normals[i]);
        let (s2, out) = sm_next(state);
        state = s2;
        let u = out >> 48;
        let unit = (u as f32) * f32::from_bits(F_TWO_NEG16);
        let theta = unit * std::f32::consts::TAU;
        let cs = glam::Vec2::from_angle(theta);
        let sign = if n.z < 0.0 { -1.0f32 } else { 1.0f32 };
        let a = -1.0 / (sign + n.z);
        let b = n.x * n.y * a;
        let bx = glam::Vec3::new(1.0 + sign * n.x * n.x * a, sign * b, (-sign) * n.x);
        let by = glam::Vec3::new(b, sign + n.y * n.y * a, -n.y);
        let expected = glam::Vec3::splat(cs.x) * bx + glam::Vec3::splat(cs.y) * by;
        assert_eq!(bits(field[i]), gbits(expected), "vertex {}", i);
    }
}

/// The dual area of one octahedron vertex, recomputed step for step:
/// the one-ring walk collects the circumcenters of all but the closing
/// triangle, and the area is half the length of their shoelace sum.
#[test]
fn octahedron_dual_area_matches_reference_computation() {
    let pos = [
        (1.0, 0.0, 0.0),
        (-1.0, 0.0, 0.0),
        (0.0, 1.0, 0.0),
        (0.0, -1.0, 0.0),
        (0.0, 0.0, 1.0),
        (0.0, 0.0, -1.0),
    ];
    let vertices: Vec<V3> = pos.iter().map(|&(x, y, z)| v(x, y, z)).collect();
    let faces = [
        (0, 2, 4),
        (2, 1, 4),
        (1, 3, 4),
        (3, 0, 4),
        (2, 0, 5),
        (1, 2, 5),
        (3, 1, 5),
        (0, 3, 5),
    ];
    let tris: Vec<Tri> = faces.iter().map(|&(a, b, c)| Tri { a, b, c }).collect();
    let input = InputMesh { vertices: vertices.clone(), normals: vertices.clone(), tris };
    let mesh = ProcessMesh::from(input);

    let gv: Vec<glam::Vec3> = vertices.iter().map(|&p| g(p)).collect();
    let cc = |f: (usize, usize, usize)| -> glam::Vec3 {
        let a = gv[f.0] - gv[f.2];
        let b = gv[f.1] - gv[f.2];
        let axb = a.cross(b);
        (glam::Vec3::splat(a.dot(a)) * b - glam::Vec3::splat(b.dot(b)) * a).cross(axb)
            / glam::Vec3::splat(2.0 * axb.dot(axb))
    };
    // The walk around vertex 0 visits faces (0,2,4), (3,0,4) and
    // (0,3,5); the closing face (2,0,5) contributes no circumcenter.
    let ring = [cc(faces[0]), cc(faces[3]), cc(faces[7])];
    let sum = ((glam::Vec3::ZERO + ring[0].cross(ring[1])) + ring[1].cross(ring[2]))
        + ring[2].cross(ring[0]);
    let expected = 0.5 * sum.length();
    assert_eq!(f32::from_bits(mesh.dual_area[0]), expected);
    assert!(expected > 0.0);
}

/// The compatibility search evaluates eight candidate pairs and, like a
/// maximum search, keeps the last best-aligned one.
#[test]
fn compat_picks_last_best_aligned_pair() {
    let o0 = v(1.0, 0.0, 0.0);
    let n0 = v(0.0, 0.0, 1.0);
    let o1 = v(0.0, 1.0, 0.0);
    let n1 = v(0.0, 0.0, 1.0);
    let (c0, c1) = extrinsic_compat(o0, n0, o1, n1);
    // Both (rotation of vertex 0, direction of vertex 1) and (negated
    // direction of vertex 0, rotation of vertex 1) align perfectly; the
    // later pair wins, as in a maximum search that prefers later ties.
    let p1 = g(n1).cross(g(o1));
    assert_eq!(bits(c0), gbits(-g(o0)));
    assert_eq!(bits(c1), gbits(p1));
}

#[test]
fn compat_prefers_rotated_representative() {
    let o0 = v(1.0, 0.0, 0.0);
    let n0 = v(0.0, 0.0, 1.0);
    let o1 = v(0.0, 0.9, 0.1);
    let n1 = v(1.0, 0.0, 0.0);
    let (c0, c1) = extrinsic_compat(o0, n0, o1, n1);
    // The 90-degree rotation of vertex 0's direction is the unique best
    // match for vertex 1's direction.
    assert_eq!(bits(c0), gbits(g(n0).cross(g(o0))));
    assert_eq!(bits(c1), bits(o1));
}

/// Derived normals, recomputed with the same accumulation.
#[test]
fn computed_normals_match_reference_computation() {
    let verts = vec![v(0.0, 0.0, 0.0), v(2.0, 0.0, 0.0), v(0.0, 2.0, 0.0), v(0.0, 0.0, 3.0)];
    let tris = vec![Tri { a: 0, b: 1, c: 2 }, Tri { a: 0, b: 3, c: 1 }];
    let r = compute_normals(&verts, &tris);
    let gv: Vec<glam::Vec3> = verts.iter().map(|&p| g(p)).collect();
    let mut acc = vec![glam::Vec3::ZERO; 4];
    for t in [(0usize, 1usize, 2usize), (0, 3, 1)] {
        let n = (gv[t.2] - gv[t.0]).cross(gv[t.1] - gv[t.0]).normalize();
        acc[t.0] += n;
        acc[t.1] += n;
        acc[t.2] += n;
    }
    for i in 0..4 {
        assert_eq!(bits(r[i]), gbits(acc[i].normalize()), "vertex {}", i);
    }
}
