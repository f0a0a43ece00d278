use orbitview::mesh::Icosphere;

fn norm_of(v: orbitview::vec3::Vec3) -> f64 {
    let x = v.x as f64 / 1.0e6;
    let y = v.y as f64 / 1.0e6;
    let z = v.z as f64 / 1.0e6;
    (x * x + y * y + z * z).sqrt()
}

#[test]
fn vertex_and_face_counts_by_depth() {
    // 10 * 4^d + 2 vertices, 20 * 4^d faces.
    let expected = [(12, 20), (42, 80), (162, 320), (642, 1280)];
    for (d, (nv, nf)) in expected.iter().enumerate() {
        let m = Icosphere::new(d as u32);
        assert_eq!(m.vertex_count(), *nv);
        assert_eq!(m.face_count(), *nf);
    }
}

#[test]
fn unit_sphere_invariant() {
    let m = Icosphere::new(3);
    for i in 0..m.vertex_count() {
        let n = norm_of(m.vertex_at(i));
        assert!((n - 1.0).abs() < 1.0e-5, "vertex {} has norm {}", i, n);
    }
}

#[test]
fn edge_welding_depth_one() {
    // Exactly one midpoint per icosahedron edge: 12 + 30 vertices, 80 faces.
    let m = Icosphere::new(1);
    assert_eq!(m.vertex_count(), 42);
    assert_eq!(m.face_count(), 80);
    // No unwelded near-duplicate vertices.
    for i in 0..42 {
        for j in (i + 1)..42 {
            let a = m.vertex_at(i);
            let b = m.vertex_at(j);
            let dx = (a.x - b.x) as f64 / 1.0e6;
            let dy = (a.y - b.y) as f64 / 1.0e6;
            let dz = (a.z - b.z) as f64 / 1.0e6;
            let d = (dx * dx + dy * dy + dz * dz).sqrt();
            assert!(d > 1.0e-3, "vertices {} and {} nearly coincide", i, j);
        }
    }
}

#[test]
fn faces_reference_valid_vertices() {
    let m = Icosphere::new(2);
    let nv = m.vertex_count();
    for i in 0..m.face_count() {
        let t = m.face_at(i);
        assert!(t.a < nv && t.b < nv && t.c < nv);
    }
}

#[test]
fn index_buffer_layout() {
    let m = Icosphere::new(1);
    assert_eq!(m.index_count(), 240);
    let idx = m.triangle_indices();
    assert_eq!(idx.len(), 240);
    for i in 0..m.face_count() {
        let t = m.face_at(i);
        assert_eq!(idx[3 * i] as usize, t.a);
        assert_eq!(idx[3 * i + 1] as usize, t.b);
        assert_eq!(idx[3 * i + 2] as usize, t.c);
    }
}

#[test]
fn mottle_flags_are_deterministic_and_mixed() {
    let m1 = Icosphere::new(2);
    let m2 = Icosphere::new(2);
    let f1 = m1.mottle_flags();
    let f2 = m2.mottle_flags();
    assert_eq!(f1.len(), 162);
    assert_eq!(f1, f2);
    assert!(f1.iter().any(|&b| b));
    assert!(f1.iter().any(|&b| !b));
    // The selector is the low bit of the transformed index.
    for (i, &flag) in f1.iter().enumerate() {
        let state = (i as u32).wrapping_mul(1664525).wrapping_add(1013904223);
        assert_eq!(flag, state & 1 == 1);
    }
}

#[test]
fn depth_zero_is_the_bare_icosahedron() {
    let m = Icosphere::new(0);
    assert_eq!(m.vertex_count(), 12);
    let v0 = m.vertex_at(0);
    assert_eq!((v0.x, v0.y, v0.z), (-525_731, 850_651, 0));
    let t0 = m.face_at(0);
    assert_eq!((t0.a, t0.b, t0.c), (0, 11, 5));
}
