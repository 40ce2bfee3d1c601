use flowguide::fp::V3;
use flowguide::hierarchy::build;
use flowguide::mesh::{InputMesh, ProcessMesh, Tri};
use flowguide::orientation::{extrinsic_smooth, hierarchical_smoothing, Prng64};

fn v(x: f32, y: f32, z: f32) -> V3 {
    V3 { x: x.to_bits(), y: y.to_bits(), z: z.to_bits() }
}

fn g(p: V3) -> glam::Vec3 {
    glam::Vec3::new(f32::from_bits(p.x), f32::from_bits(p.y), f32::from_bits(p.z))
}

fn single_triangle() -> InputMesh {
    InputMesh {
        vertices: vec![v(0.0, 0.0, 0.0), v(1.0, 0.0, 0.0), v(0.0, 1.0, 0.0)],
        normals: vec![v(0.0, 0.0, 1.0), v(0.0, 0.0, 1.0), v(0.0, 0.0, 1.0)],
        tris: vec![Tri { a: 0, b: 1, c: 2 }],
    }
}

fn octahedron() -> InputMesh {
    let pos = [
        (1.0, 0.0, 0.0),
        (-1.0, 0.0, 0.0),
        (0.0, 1.0, 0.0),
        (0.0, -1.0, 0.0),
        (0.0, 0.0, 1.0),
        (0.0, 0.0, -1.0),
    ];
    let vertices: Vec<V3> = pos.iter().map(|&(x, y, z)| v(x, y, z)).collect();
    let normals = vertices.clone();
    let faces = [
        (0, 2, 4),
        (2, 1, 4),
        (1, 3, 4),
        (3, 0, 4),
        (2, 0, 5),
        (1, 2, 5),
        (3, 1, 5),
        (0, 3, 5),
    ];
    let tris: Vec<Tri> = faces.iter().map(|&(a, b, c)| Tri { a, b, c }).collect();
    InputMesh { vertices, normals, tris }
}

fn check_hierarchy_mappings(h: &[flowguide::hierarchy::HierarchyLevel]) {
    // Every level above the coarsest maps each of its vertices to a
    // valid vertex of the next coarser level.
    for k in 1..h.len() {
        assert_eq!(h[k].up_mapping.len(), h[k].mesh.vertices.len());
        for &u in &h[k].up_mapping {
            assert!(u < h[k - 1].mesh.vertices.len());
        }
    }
}

#[test]
fn single_triangle_dual_areas_fall_back() {
    let input = single_triangle();
    assert!(input.check_wf());
    let mesh = ProcessMesh::from(input);
    assert_eq!(mesh.dual_area.len(), 3);
    for &a in &mesh.dual_area {
        assert_eq!(f32::from_bits(a), 1.0);
    }
}

#[test]
fn single_triangle_hierarchy_terminates() {
    let mesh = ProcessMesh::from(single_triangle());
    let h = build(mesh);
    assert_eq!(h.len(), 3);
    assert_eq!(h[h.len() - 1].mesh.vertices.len(), 3);
    assert_eq!(h[1].mesh.vertices.len(), 2);
    assert_eq!(h[0].mesh.vertices.len(), 1);
    assert_eq!(h[0].up_mapping.len(), 0);
    for row in &h[0].mesh.adjacency_face {
        assert!(row.is_empty());
    }
    check_hierarchy_mappings(&h);
}

#[test]
fn octahedron_hierarchy() {
    let input = octahedron();
    assert!(input.check_wf());
    let mesh = ProcessMesh::from(input);
    for &a in &mesh.dual_area {
        let f = f32::from_bits(a);
        assert!(f.is_finite() && f > 0.0, "dual area {}", f);
    }
    let h = build(mesh);
    assert!(h.len() >= 2);
    assert!(h[0].mesh.vertices.len() < 6);
    for row in &h[0].mesh.adjacency_face {
        assert!(row.is_empty());
    }
    check_hierarchy_mappings(&h);
}

#[test]
fn octahedron_dual_area_sum_is_positive_and_bounded() {
    let mesh = ProcessMesh::from(octahedron());
    let sum: f32 = mesh.dual_area.iter().map(|&a| f32::from_bits(a)).sum();
    // The ring-area derivation leaves out each one-ring's closing
    // circumcenter and mixes per-triangle frames, so the sum comes out
    // well below the true surface area (eight equilateral faces of side
    // sqrt(2), about 6.93); it is still positive, finite and symmetric.
    let area = 4.0 * 3.0_f32.sqrt();
    assert!(sum.is_finite() && sum > 0.0, "dual area sum {}", sum);
    assert!(sum < area, "dual area sum {} vs surface area {}", sum, area);
}

#[test]
fn zero_triangle_mesh_gives_single_level() {
    let input = InputMesh {
        vertices: vec![v(0.0, 0.0, 0.0), v(1.0, 1.0, 1.0)],
        normals: vec![v(0.0, 0.0, 1.0), v(1.0, 0.0, 0.0)],
        tris: vec![],
    };
    assert!(input.check_wf());
    let mesh = ProcessMesh::from(input);
    for &a in &mesh.dual_area {
        assert_eq!(f32::from_bits(a), 1.0);
    }
    let h = build(mesh);
    assert_eq!(h.len(), 1);
    assert_eq!(h[0].up_mapping.len(), 0);
    assert_eq!(h[0].mesh.vertices.len(), 2);
    assert_eq!(g(h[0].mesh.vertices[1]), glam::Vec3::new(1.0, 1.0, 1.0));
}

#[test]
fn field_is_unit_and_tangent() {
    let mesh = ProcessMesh::from(octahedron());
    let normals = mesh.normals.clone();
    let h = build(mesh);
    let field = hierarchical_smoothing(&h, 10);
    assert_eq!(field.len(), 6);
    for i in 0..field.len() {
        let d = g(field[i]);
        let n = g(normals[i]);
        assert!((d.length() - 1.0).abs() < 1e-3, "length {}", d.length());
        assert!(d.dot(n).abs() < 1e-3, "dot {}", d.dot(n));
    }
}

#[test]
fn sweep_keeps_field_unit_and_tangent() {
    let mesh = ProcessMesh::from(octahedron());
    // A valid tangent direction per vertex of the octahedron.
    let mut field = vec![
        v(0.0, 1.0, 0.0),
        v(0.0, 1.0, 0.0),
        v(1.0, 0.0, 0.0),
        v(1.0, 0.0, 0.0),
        v(1.0, 0.0, 0.0),
        v(1.0, 0.0, 0.0),
    ];
    let mut rng = Prng64::seed_from_u64(7);
    extrinsic_smooth(&mesh, &mut field, &mut rng);
    for i in 0..field.len() {
        let d = g(field[i]);
        let n = g(mesh.normals[i]);
        assert!((d.length() - 1.0).abs() < 1e-3, "length {}", d.length());
        assert!(d.dot(n).abs() < 1e-3, "dot {}", d.dot(n));
    }
}

#[test]
fn solve_is_deterministic() {
    let run = || {
        let mesh = ProcessMesh::from(octahedron());
        let h = build(mesh);
        hierarchical_smoothing(&h, 10)
    };
    let f1 = run();
    let f2 = run();
    assert_eq!(f1.len(), f2.len());
    for i in 0..f1.len() {
        assert_eq!((f1[i].x, f1[i].y, f1[i].z), (f2[i].x, f2[i].y, f2[i].z));
    }
}

#[test]
fn hierarchy_is_deterministic() {
    let h1 = build(ProcessMesh::from(octahedron()));
    let h2 = build(ProcessMesh::from(octahedron()));
    assert_eq!(h1.len(), h2.len());
    for k in 0..h1.len() {
        assert_eq!(h1[k].up_mapping, h2[k].up_mapping);
        assert_eq!(h1[k].mesh.vertices.len(), h2[k].mesh.vertices.len());
        for i in 0..h1[k].mesh.vertices.len() {
            assert_eq!(h1[k].mesh.vertices[i], h2[k].mesh.vertices[i]);
            assert_eq!(h1[k].mesh.dual_area[i], h2[k].mesh.dual_area[i]);
        }
    }
}
