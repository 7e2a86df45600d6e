use openmodel::Mesh;
use openmodel::Point;

#[test]
fn test_euler_matches_counts_after_each_mutation() {
    let mut mesh: Mesh<f64> = Mesh::new();
    let check = |m: &Mesh<f64>| {
        let v = m.number_of_vertices() as i32;
        let e = m.number_of_edges() as i32;
        let f = m.number_of_faces() as i32;
        assert_eq!(m.euler(), v - e + f);
    };
    check(&mesh);
    let v0 = mesh.add_vertex(Point::new(0.0, 0.0, 0.0), None);
    check(&mesh);
    let v1 = mesh.add_vertex(Point::new(1.0, 0.0, 0.0), None);
    let v2 = mesh.add_vertex(Point::new(1.0, 1.0, 0.0), None);
    let v3 = mesh.add_vertex(Point::new(0.0, 1.0, 0.0), None);
    check(&mesh);
    mesh.add_face(vec![v0, v1, v2, v3], None).unwrap();
    check(&mesh);
    mesh.add_face(vec![v0, v2, v1], None).unwrap();
    check(&mesh);
    mesh.clear();
    check(&mesh);
}

#[test]
fn test_add_face_unknown_handle_leaves_counts_unchanged() {
    let mut mesh: Mesh<f64> = Mesh::new();
    let v0 = mesh.add_vertex(Point::new(0.0, 0.0, 0.0), None);
    let v1 = mesh.add_vertex(Point::new(1.0, 0.0, 0.0), None);

    assert!(mesh.add_face(vec![v0, v1, 999], None).is_none());
    assert_eq!(mesh.number_of_vertices(), 2);
    assert_eq!(mesh.number_of_faces(), 0);
    assert_eq!(mesh.number_of_edges(), 0);
}

#[test]
fn test_add_face_repeated_handle_leaves_counts_unchanged() {
    let mut mesh: Mesh<f64> = Mesh::new();
    let v0 = mesh.add_vertex(Point::new(0.0, 0.0, 0.0), None);
    let v1 = mesh.add_vertex(Point::new(1.0, 0.0, 0.0), None);
    let v2 = mesh.add_vertex(Point::new(0.0, 1.0, 0.0), None);

    assert!(mesh.add_face(vec![v0, v1, v2, v0], None).is_none());
    assert_eq!(mesh.number_of_vertices(), 3);
    assert_eq!(mesh.number_of_faces(), 0);
    assert_eq!(mesh.number_of_edges(), 0);
}

#[test]
fn test_clear_resets_all_counts_and_counters() {
    let mut mesh: Mesh<f64> = Mesh::new();
    let v0 = mesh.add_vertex(Point::new(0.0, 0.0, 0.0), None);
    let v1 = mesh.add_vertex(Point::new(1.0, 0.0, 0.0), None);
    let v2 = mesh.add_vertex(Point::new(0.0, 1.0, 0.0), Some(7));
    mesh.add_face(vec![v0, v1, v2], None);

    mesh.clear();
    assert_eq!(mesh.number_of_vertices(), 0);
    assert_eq!(mesh.number_of_faces(), 0);
    assert_eq!(mesh.number_of_edges(), 0);
    // Counters restart from zero: the first auto handle is 0 again.
    let first = mesh.add_vertex(Point::new(0.0, 0.0, 0.0), None);
    assert_eq!(first, 0);
}

#[test]
fn test_explicit_handle_advances_counter() {
    let mut mesh: Mesh<f64> = Mesh::new();
    let a = mesh.add_vertex(Point::new(0.0, 0.0, 0.0), None);
    assert_eq!(a, 0);
    let b = mesh.add_vertex(Point::new(1.0, 0.0, 0.0), Some(5));
    assert_eq!(b, 5);
    // The counter stands past the explicit handle, so auto allocation never
    // collides with it.
    let c = mesh.add_vertex(Point::new(2.0, 0.0, 0.0), None);
    assert_eq!(c, 6);
    assert_eq!(mesh.number_of_vertices(), 3);
}

#[test]
fn test_vertex_attributes() {
    let mut mesh: Mesh<f64> = Mesh::new();
    let v = mesh.add_vertex(Point::new(0.0, 0.0, 0.0), None);

    // Unknown handle is rejected.
    assert!(!mesh.set_attribute(99, String::from("weight"), 1.5));
    assert!(mesh.get_attribute(99, &String::from("weight")).is_none());

    // Unknown name on a known handle is absent.
    assert!(mesh.get_attribute(v, &String::from("weight")).is_none());

    // Set, read back, overwrite.
    assert!(mesh.set_attribute(v, String::from("weight"), 1.5));
    assert_eq!(mesh.get_attribute(v, &String::from("weight")), Some(1.5));
    assert!(mesh.set_attribute(v, String::from("weight"), 2.5));
    assert_eq!(mesh.get_attribute(v, &String::from("weight")), Some(2.5));
}

#[test]
fn test_face_attributes() {
    let mut mesh: Mesh<f64> = Mesh::new();
    let v0 = mesh.add_vertex(Point::new(0.0, 0.0, 0.0), None);
    let v1 = mesh.add_vertex(Point::new(1.0, 0.0, 0.0), None);
    let v2 = mesh.add_vertex(Point::new(0.0, 1.0, 0.0), None);
    let f = mesh.add_face(vec![v0, v1, v2], None).unwrap();

    assert!(!mesh.set_face_attribute(f + 1, String::from("area"), 0.5));
    assert!(mesh.get_face_attribute(f, &String::from("area")).is_none());
    assert!(mesh.set_face_attribute(f, String::from("area"), 0.5));
    assert_eq!(mesh.get_face_attribute(f, &String::from("area")), Some(0.5));
}

#[test]
fn test_add_vertex_overwrite_resets_attributes() {
    let mut mesh: Mesh<f64> = Mesh::new();
    let v = mesh.add_vertex(Point::new(0.0, 0.0, 0.0), None);
    assert!(mesh.set_attribute(v, String::from("weight"), 1.5));

    // Re-adding under the same handle replaces the stored data.
    mesh.add_vertex(Point::new(9.0, 9.0, 9.0), Some(v));
    assert_eq!(mesh.number_of_vertices(), 1);
    let pos = mesh.vertex_position(v).unwrap();
    assert_eq!(pos.x, 9.0);
    assert!(mesh.get_attribute(v, &String::from("weight")).is_none());
}

#[test]
fn test_face_fan_triangles() {
    let mut mesh: Mesh<f64> = Mesh::new();
    let v0 = mesh.add_vertex(Point::new(0.0, 0.0, 0.0), None);
    let v1 = mesh.add_vertex(Point::new(1.0, 0.0, 0.0), None);
    let v2 = mesh.add_vertex(Point::new(1.0, 1.0, 0.0), None);
    let v3 = mesh.add_vertex(Point::new(0.0, 1.0, 0.0), None);
    let f = mesh.add_face(vec![v0, v1, v2, v3], None).unwrap();

    let tris = mesh.face_fan_triangles(f).unwrap();
    assert_eq!(tris, vec![(v0, v1, v2), (v0, v2, v3)]);
    assert!(mesh.face_fan_triangles(f + 1).is_none());
}

#[test]
fn test_vertex_and_face_keys() {
    let mut mesh: Mesh<f64> = Mesh::new();
    let v0 = mesh.add_vertex(Point::new(0.0, 0.0, 0.0), None);
    let v1 = mesh.add_vertex(Point::new(1.0, 0.0, 0.0), None);
    let v2 = mesh.add_vertex(Point::new(0.0, 1.0, 0.0), None);
    let f = mesh.add_face(vec![v0, v1, v2], None).unwrap();

    let vks = mesh.vertex_keys();
    assert_eq!(vks.len(), 3);
    assert!(vks.contains(&v0) && vks.contains(&v1) && vks.contains(&v2));
    let fks = mesh.face_keys();
    assert_eq!(fks, vec![f]);
}

#[test]
fn test_shared_edge_between_two_faces() {
    // Two triangles sharing the edge (v1, v2), wound consistently: the
    // shared edge is interior, the outer ring is boundary.
    let mut mesh: Mesh<f64> = Mesh::new();
    let v0 = mesh.add_vertex(Point::new(0.0, 0.0, 0.0), None);
    let v1 = mesh.add_vertex(Point::new(1.0, 0.0, 0.0), None);
    let v2 = mesh.add_vertex(Point::new(0.0, 1.0, 0.0), None);
    let v3 = mesh.add_vertex(Point::new(1.0, 1.0, 0.0), None);

    mesh.add_face(vec![v0, v1, v2], None).unwrap();
    mesh.add_face(vec![v1, v3, v2], None).unwrap();

    assert_eq!(mesh.number_of_vertices(), 4);
    assert_eq!(mesh.number_of_faces(), 2);
    assert_eq!(mesh.number_of_edges(), 5);
    assert_eq!(mesh.euler(), 1);
    // Every vertex still touches the outer boundary ring.
    assert!(mesh.is_vertex_on_boundary(v0));
    assert!(mesh.is_vertex_on_boundary(v1));
    assert!(mesh.is_vertex_on_boundary(v2));
    assert!(mesh.is_vertex_on_boundary(v3));
}

#[test]
fn test_cube_has_no_boundary_vertices() {
    // A closed surface: every directed edge is owned by exactly one face,
    // so no vertex has an outgoing boundary halfedge.
    let mut mesh: Mesh<f64> = Mesh::new();
    let corners = [
        [0.0, 0.0, 0.0],
        [1.0, 0.0, 0.0],
        [1.0, 1.0, 0.0],
        [0.0, 1.0, 0.0],
        [0.0, 0.0, 1.0],
        [1.0, 0.0, 1.0],
        [1.0, 1.0, 1.0],
        [0.0, 1.0, 1.0],
    ];
    let mut hs = Vec::new();
    for c in &corners {
        hs.push(mesh.add_vertex(Point::new(c[0], c[1], c[2]), None));
    }
    let quads = [
        [0, 3, 2, 1], // bottom
        [4, 5, 6, 7], // top
        [0, 1, 5, 4], // front
        [2, 3, 7, 6], // back
        [0, 4, 7, 3], // left
        [1, 2, 6, 5], // right
    ];
    for q in &quads {
        mesh.add_face(vec![hs[q[0]], hs[q[1]], hs[q[2]], hs[q[3]]], None)
            .unwrap();
    }
    assert_eq!(mesh.number_of_edges(), 12);
    assert_eq!(mesh.euler(), 2);
    for h in &hs {
        assert!(!mesh.is_vertex_on_boundary(*h));
    }
}

#[test]
fn test_halfedge_ownership_last_writer_wins() {
    let mut mesh: Mesh<f64> = Mesh::new();
    let a = mesh.add_vertex(Point::new(0.0, 0.0, 0.0), None);
    let b = mesh.add_vertex(Point::new(1.0, 0.0, 0.0), None);
    let c = mesh.add_vertex(Point::new(0.0, 1.0, 0.0), None);
    let d = mesh.add_vertex(Point::new(0.0, 0.0, 1.0), None);

    let f1 = mesh.add_face(vec![a, b, c], None).unwrap();
    assert_eq!(mesh.halfedge_face(a, b), Some(Some(f1)));
    assert_eq!(mesh.halfedge_face(b, a), Some(None));
    assert_eq!(mesh.halfedge_face(c, a), Some(Some(f1)));
    assert_eq!(mesh.halfedge_face(a, d), None);

    // A second face claiming the same directed edge overwrites the record.
    let f2 = mesh.add_face(vec![a, b, d], None).unwrap();
    assert_eq!(mesh.halfedge_face(a, b), Some(Some(f2)));
    assert_eq!(mesh.halfedge_face(b, a), Some(None));
    assert_eq!(mesh.halfedge_face(b, c), Some(Some(f1)));
}

#[test]
fn test_unknown_handle_queries() {
    let mut mesh: Mesh<f64> = Mesh::new();
    let v0 = mesh.add_vertex(Point::new(0.0, 0.0, 0.0), None);
    let v1 = mesh.add_vertex(Point::new(1.0, 0.0, 0.0), None);
    let v2 = mesh.add_vertex(Point::new(0.0, 1.0, 0.0), None);
    mesh.add_face(vec![v0, v1, v2], None).unwrap();

    assert!(mesh.vertex_position(99).is_none());
    assert!(mesh.face_vertices(99).is_none());
    assert!(mesh.face_fan_triangles(99).is_none());
    assert!(!mesh.is_vertex_on_boundary(99));
    assert!(mesh.vertex_neighbors(99).is_empty());
    assert!(mesh.vertex_faces(99).is_empty());
}

#[test]
fn test_default_is_empty_mesh() {
    let mesh: Mesh<f64> = Default::default();
    assert!(mesh.is_empty());
    assert_eq!(mesh.euler(), 0);
}

#[test]
fn test_vertex_data_round_trip() {
    let mut vd = openmodel::VertexData::new(Point::new(1.0, 2.0, 3.0));
    let p = vd.position();
    assert_eq!(p.x, 1.0);
    assert_eq!(p.y, 2.0);
    assert_eq!(p.z, 3.0);
    vd.set_position(Point::new(4.0, 5.0, 6.0));
    assert_eq!(vd.position().x, 4.0);
    assert_eq!(vd.position().z, 6.0);
}
