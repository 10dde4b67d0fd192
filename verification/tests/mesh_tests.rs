use mesh_engine::coloured_mesh::ColouredMesh;
use mesh_engine::mesh::{combine_meshes, flat_shade_components, Mesh, MeshError};
use mesh_engine::vec3::Vector3;
use mesh_engine::vertex::{Colour, ColouredVertex, Normal, PositionVertex};

fn v3(x: f32, y: f32, z: f32) -> Vector3 {
    Vector3 { x: x.to_bits(), y: y.to_bits(), z: z.to_bits() }
}

fn pv(x: f32, y: f32, z: f32) -> PositionVertex {
    PositionVertex { position: v3(x, y, z) }
}

fn nm(x: f32, y: f32, z: f32) -> Normal {
    Normal { normal: v3(x, y, z) }
}

/// One counter-clockwise triangle in the xy-plane.
fn unit_triangle() -> Mesh<PositionVertex> {
    Mesh::new(
        vec![pv(0.0, 0.0, 0.0), pv(1.0, 0.0, 0.0), pv(0.0, 1.0, 0.0)],
        vec![0, 1, 2],
    )
}

/// Two counter-clockwise triangles sharing an edge, in the xy-plane.
fn quad() -> Mesh<PositionVertex> {
    Mesh::new(
        vec![
            pv(0.0, 0.0, 0.0),
            pv(1.0, 0.0, 0.0),
            pv(0.0, 1.0, 0.0),
            pv(1.0, 1.0, 0.0),
        ],
        vec![0, 1, 2, 1, 3, 2],
    )
}

#[test]
fn recalculate_normals_pins_plus_z() {
    let mut m = unit_triangle();
    m.recalculate_normals();
    assert_eq!(m.normals.len(), m.vertices.len());
    assert_eq!(m.indices.len() % 3, 0);
    for n in &m.normals {
        assert_eq!(n.normal, v3(0.0, 0.0, 1.0));
    }
}

#[test]
fn recalculate_normals_normalises_and_zeroes_unused() {
    // A larger triangle accumulates an unnormalised face normal (0, 0, 4),
    // which must come out normalised; a vertex in no triangle keeps the
    // zero accumulator, which normalises to the zero vector.
    let mut m = Mesh::new(
        vec![
            pv(0.0, 0.0, 0.0),
            pv(2.0, 0.0, 0.0),
            pv(0.0, 2.0, 0.0),
            pv(9.0, 9.0, 9.0),
        ],
        vec![0, 1, 2],
    );
    m.recalculate_normals();
    assert_eq!(m.normals.len(), 4);
    assert_eq!(m.normals[0], nm(0.0, 0.0, 1.0));
    assert_eq!(m.normals[1], nm(0.0, 0.0, 1.0));
    assert_eq!(m.normals[2], nm(0.0, 0.0, 1.0));
    assert_eq!(m.normals[3], nm(0.0, 0.0, 0.0));
}

#[test]
fn set_normals_replaces_only_normals() {
    let mut m = unit_triangle();
    m.set_normals(vec![nm(1.0, 0.0, 0.0); 3]);
    assert_eq!(m.vertices.len(), 3);
    assert_eq!(m.indices, vec![0, 1, 2]);
    assert_eq!(m.normals, vec![nm(1.0, 0.0, 0.0); 3]);
}

#[test]
fn invert_normals_flips_sign_bits() {
    let mut m = unit_triangle();
    m.recalculate_normals();
    m.invert_normals();
    // IEEE negation flips the sign bit of every component, zeros included.
    let expected = Vector3 {
        x: (-0.0f32).to_bits(),
        y: (-0.0f32).to_bits(),
        z: (-1.0f32).to_bits(),
    };
    for n in &m.normals {
        assert_eq!(n.normal, expected);
    }
}

#[test]
fn flat_shaded_duplicates_per_face() {
    let m = quad();
    let f = m.flat_shaded();
    assert_eq!(f.vertices.len(), 6);
    assert_eq!(f.normals.len(), 6);
    assert_eq!(f.indices, vec![0, 1, 2, 3, 4, 5]);
    let positions: Vec<Vector3> = f.vertices.iter().map(|v| v.position).collect();
    assert_eq!(
        positions,
        vec![
            v3(0.0, 0.0, 0.0),
            v3(1.0, 0.0, 0.0),
            v3(0.0, 1.0, 0.0),
            v3(1.0, 0.0, 0.0),
            v3(1.0, 1.0, 0.0),
            v3(0.0, 1.0, 0.0),
        ]
    );
    // The second face's cross product computes its x component as
    // (-1.0)*0.0 - 0.0*0.0 = -0.0, and normalising keeps the signed zero.
    for n in &f.normals[0..3] {
        assert_eq!(n.normal, v3(0.0, 0.0, 1.0));
    }
    for n in &f.normals[3..6] {
        assert_eq!(n.normal, v3(-0.0, 0.0, 1.0));
    }
}

#[test]
fn flat_shade_twice_keeps_vertex_count() {
    let mut m = quad();
    m.flat_shade();
    let once = m.vertices.len();
    m.flat_shade();
    assert_eq!(m.vertices.len(), once);
    assert_eq!(once, 6);
}

#[test]
fn smooth_shaded_merges_duplicate_positions() {
    let flat = quad().flat_shaded();
    let s = flat.smooth_shaded();
    // Vertices are kept (dead slots remain); indices point at first
    // occurrences of each position.
    assert_eq!(s.vertices.len(), 6);
    assert_eq!(s.indices, vec![0, 1, 2, 1, 4, 2]);
    assert_eq!(s.normals.len(), 6);
    // Referenced vertices average the two coplanar face normals back to
    // (0, 0, 1); unreferenced slots get the zero vector.
    assert_eq!(s.normals[0], nm(0.0, 0.0, 1.0));
    assert_eq!(s.normals[1], nm(0.0, 0.0, 1.0));
    assert_eq!(s.normals[2], nm(0.0, 0.0, 1.0));
    assert_eq!(s.normals[3], nm(0.0, 0.0, 0.0));
    assert_eq!(s.normals[4], nm(0.0, 0.0, 1.0));
    assert_eq!(s.normals[5], nm(0.0, 0.0, 0.0));
}

#[test]
fn smooth_shade_twice_keeps_vertex_count() {
    let mut m = quad().flat_shaded();
    m.smooth_shade();
    let once = m.vertices.len();
    let indices_once = m.indices.clone();
    m.smooth_shade();
    assert_eq!(m.vertices.len(), once);
    assert_eq!(m.indices, indices_once);
}

#[test]
fn add_offsets_source_indices() {
    let mut a = unit_triangle();
    a.recalculate_normals();
    let mut b = Mesh::new(
        vec![pv(5.0, 0.0, 0.0), pv(6.0, 0.0, 0.0), pv(5.0, 1.0, 0.0)],
        vec![0, 1, 2],
    );
    b.recalculate_normals();
    a.add(b);
    assert_eq!(a.vertices.len(), 6);
    assert_eq!(a.indices, vec![0, 1, 2, 3, 4, 5]);
    // Both sides carried one normal per vertex, so the normals were kept.
    assert_eq!(a.normals.len(), 6);
    for n in &a.normals {
        assert_eq!(n.normal, v3(0.0, 0.0, 1.0));
    }
}

#[test]
fn add_recomputes_normals_on_count_mismatch() {
    let mut a = unit_triangle();
    a.recalculate_normals();
    let b = unit_triangle(); // no normals
    a.add(b);
    assert_eq!(a.vertices.len(), 6);
    assert_eq!(a.normals.len(), 6);
    for n in &a.normals {
        assert_eq!(n.normal, v3(0.0, 0.0, 1.0));
    }
}

#[test]
fn combine_meshes_folds_left_to_right() {
    let mut a = unit_triangle();
    a.recalculate_normals();
    let mut b = Mesh::new(
        vec![pv(5.0, 0.0, 0.0), pv(6.0, 0.0, 0.0), pv(5.0, 1.0, 0.0)],
        vec![0, 1, 2],
    );
    b.recalculate_normals();
    let combined = combine_meshes(&vec![a, b]).unwrap();
    assert_eq!(combined.vertices.len(), 6);
    assert_eq!(combined.indices, vec![0, 1, 2, 3, 4, 5]);
    assert_eq!(combined.normals.len(), 6);
}

#[test]
fn combine_meshes_empty_fails() {
    let empty: Vec<Mesh<PositionVertex>> = Vec::new();
    let r = combine_meshes(&empty);
    assert!(matches!(r, Err(MeshError::EmptyInput)));
}

#[test]
fn components_returns_the_three_sequences() {
    let mut m = unit_triangle();
    m.recalculate_normals();
    let (vs, ns, is) = m.components();
    assert_eq!(vs, m.vertices);
    assert_eq!(ns, m.normals);
    assert_eq!(is, m.indices);
}

#[test]
fn duplicate_is_a_deep_copy() {
    let mut m = unit_triangle();
    m.recalculate_normals();
    let d = m.duplicate();
    assert_eq!(d.vertices, m.vertices);
    assert_eq!(d.normals, m.normals);
    assert_eq!(d.indices, m.indices);
}

#[test]
fn flat_shade_components_matches_flat_shaded() {
    let m = quad();
    let f = m.flat_shaded();
    let (vs, ns, is) = flat_shade_components(m.vertices.clone(), m.indices.clone());
    assert_eq!(vs, f.vertices);
    assert_eq!(ns, f.normals);
    assert_eq!(is, f.indices);
}

#[test]
fn coloured_mesh_shades_like_its_mesh() {
    let blue = Colour {
        r: 0.0f32.to_bits(),
        g: 0.0f32.to_bits(),
        b: 1.0f32.to_bits(),
        a: 1.0f32.to_bits(),
    };
    let q = quad();
    let mut cm = ColouredMesh::new(q.vertices.clone(), q.indices.clone(), blue);
    cm.recalculate_normals();
    assert_eq!(cm.mesh.normals.len(), 4);
    cm.flat_shade();
    assert_eq!(cm.mesh.vertices.len(), 6);
    assert_eq!(cm.colour, blue);
    let flat = cm.flat_shaded();
    let (vs, ns, is) = flat.components();
    assert_eq!(vs.len(), 6);
    assert_eq!(ns.len(), 6);
    assert_eq!(is, vec![0, 1, 2, 3, 4, 5]);
}

#[test]
fn coloured_vertices_keep_their_colour() {
    let red = Colour {
        r: 1.0f32.to_bits(),
        g: 0.0f32.to_bits(),
        b: 0.0f32.to_bits(),
        a: 1.0f32.to_bits(),
    };
    let cv = |x: f32, y: f32| ColouredVertex { position: v3(x, y, 0.0), colour: red };
    let m = Mesh::new(vec![cv(0.0, 0.0), cv(1.0, 0.0), cv(0.0, 1.0)], vec![0, 1, 2]);
    let f = m.flat_shaded();
    assert_eq!(f.vertices.len(), 3);
    for v in &f.vertices {
        assert_eq!(v.colour, red);
    }
    for n in &f.normals {
        assert_eq!(n.normal, v3(0.0, 0.0, 1.0));
    }
}
