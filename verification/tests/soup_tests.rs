use openmodel::Mesh;
use openmodel::Point;

/// The quantization key of a coordinate triple: each coordinate rounded to
/// the nearest multiple of the precision, written with ten decimal places.
fn quant_key(x: f64, y: f64, z: f64, precision: f64) -> Vec<u8> {
    format!(
        "{:.10}_{:.10}_{:.10}",
        (x / precision).round() * precision,
        (y / precision).round() * precision,
        (z / precision).round() * precision
    )
    .into_bytes()
}

/// A polygon as the soup constructor takes it: each point paired with its
/// quantization key.
fn keyed(points: &[[f64; 3]], precision: Option<f64>) -> Vec<(Point<f64>, Vec<u8>)> {
    let p = precision.unwrap_or(1e-10);
    let mut out = Vec::new();
    for c in points {
        out.push((Point::new(c[0], c[1], c[2]), quant_key(c[0], c[1], c[2], p)));
    }
    out
}

#[test]
fn test_from_polygons_simple() {
    let triangle = [[0.0, 0.0, 0.0], [1.0, 0.0, 0.0], [0.0, 1.0, 0.0]];

    let mesh: Mesh<f64> = Mesh::from_polygons(vec![keyed(&triangle, None)]);
    assert_eq!(mesh.number_of_vertices(), 3);
    assert_eq!(mesh.number_of_faces(), 1);
    assert_eq!(mesh.number_of_edges(), 3);
}

#[test]
fn test_from_polygons_vertex_merging() {
    let triangle1 = [[0.0, 0.0, 0.0], [1.0, 0.0, 0.0], [0.0, 1.0, 0.0]];
    let triangle2 = [
        [1.0, 0.0, 0.0], // Shared vertex
        [0.0, 1.0, 0.0], // Shared vertex
        [1.0, 1.0, 0.0],
    ];

    let mesh: Mesh<f64> =
        Mesh::from_polygons(vec![keyed(&triangle1, None), keyed(&triangle2, None)]);
    assert_eq!(mesh.number_of_vertices(), 4); // Should merge shared vertices
    assert_eq!(mesh.number_of_faces(), 2);
}

#[test]
fn test_from_polygons_precision() {
    let triangle1 = [[0.0, 0.0, 0.0], [1.0, 0.0, 0.0], [0.0, 1.0, 0.0]];
    let triangle2 = [
        [1.0000001, 0.0, 0.0], // Very close to (1,0,0)
        [0.0, 1.0000001, 0.0], // Very close to (0,1,0)
        [1.0, 1.0, 0.0],
    ];

    let mesh: Mesh<f64> = Mesh::from_polygons(vec![
        keyed(&triangle1, Some(1e-6)),
        keyed(&triangle2, Some(1e-6)),
    ]);
    assert_eq!(mesh.number_of_vertices(), 4); // Should merge vertices within precision
    assert_eq!(mesh.number_of_faces(), 2);
}

#[test]
fn test_from_polygons_invalid_polygons() {
    let invalid_polygon = [
        [0.0, 0.0, 0.0],
        [1.0, 0.0, 0.0], // Only 2 points
    ];
    let valid_triangle = [[0.0, 0.0, 0.0], [1.0, 0.0, 0.0], [0.0, 1.0, 0.0]];

    let mesh: Mesh<f64> = Mesh::from_polygons(vec![
        keyed(&invalid_polygon, None),
        keyed(&valid_triangle, None),
    ]);
    assert_eq!(mesh.number_of_vertices(), 3); // Only valid triangle should be added
    assert_eq!(mesh.number_of_faces(), 1);
}

#[test]
fn test_from_polygons_cube() {
    // Create a cube using 6 faces
    let faces = vec![
        // Bottom face (z=0)
        vec![
            [0.0, 0.0, 0.0],
            [1.0, 0.0, 0.0],
            [1.0, 1.0, 0.0],
            [0.0, 1.0, 0.0],
        ],
        // Top face (z=1)
        vec![
            [0.0, 0.0, 1.0],
            [0.0, 1.0, 1.0],
            [1.0, 1.0, 1.0],
            [1.0, 0.0, 1.0],
        ],
        // Front face (y=0)
        vec![
            [0.0, 0.0, 0.0],
            [0.0, 0.0, 1.0],
            [1.0, 0.0, 1.0],
            [1.0, 0.0, 0.0],
        ],
        // Back face (y=1)
        vec![
            [0.0, 1.0, 0.0],
            [1.0, 1.0, 0.0],
            [1.0, 1.0, 1.0],
            [0.0, 1.0, 1.0],
        ],
        // Left face (x=0)
        vec![
            [0.0, 0.0, 0.0],
            [0.0, 1.0, 0.0],
            [0.0, 1.0, 1.0],
            [0.0, 0.0, 1.0],
        ],
        // Right face (x=1)
        vec![
            [1.0, 0.0, 0.0],
            [1.0, 0.0, 1.0],
            [1.0, 1.0, 1.0],
            [1.0, 1.0, 0.0],
        ],
    ];

    let mut soup = Vec::new();
    for f in &faces {
        soup.push(keyed(f, None));
    }
    let mesh: Mesh<f64> = Mesh::from_polygons(soup);
    assert_eq!(mesh.number_of_vertices(), 8); // A cube has 8 vertices
    assert_eq!(mesh.number_of_faces(), 6); // A cube has 6 faces
    assert_eq!(mesh.number_of_edges(), 12); // A cube has 12 edges
    assert_eq!(mesh.euler(), 2); // Euler characteristic for a cube: V-E+F = 8-12+6 = 2
}

#[test]
fn test_from_polygons_coalesced_duplicate_gives_no_face() {
    // Three points, two of which quantize to the same key: the polygon's
    // handles repeat, so no face is added, but the fresh vertices stay.
    let degenerate = [[0.0, 0.0, 0.0], [1.0, 0.0, 0.0], [0.0, 0.0, 0.0]];

    let mesh: Mesh<f64> = Mesh::from_polygons(vec![keyed(&degenerate, None)]);
    assert_eq!(mesh.number_of_vertices(), 2);
    assert_eq!(mesh.number_of_faces(), 0);
    assert_eq!(mesh.number_of_edges(), 0);
}
