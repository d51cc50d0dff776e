use raytracer::mesh::MeshIndices;

#[test]
fn accepts_the_quad_index_pattern() {
    // The two-triangle quad used for every wall of the box scene.
    let m = MeshIndices::new(vec![0, 1, 2, 3, 2, 1], 4).unwrap();
    assert_eq!(m.triangle_count(), 2);
    assert_eq!(m.triple(0), (0, 1, 2));
    assert_eq!(m.triple(1), (3, 2, 1));
}

#[test]
fn rejects_a_partial_triple() {
    assert!(MeshIndices::new(vec![0, 1], 4).is_none());
    assert!(MeshIndices::new(vec![0, 1, 2, 3], 4).is_none());
}

#[test]
fn rejects_an_index_past_the_vertex_buffer() {
    assert!(MeshIndices::new(vec![0, 1, 4], 4).is_none());
    assert!(MeshIndices::new(vec![0, 1, 2], 2).is_none());
}

#[test]
fn accepts_an_empty_mesh() {
    let m = MeshIndices::new(Vec::new(), 0).unwrap();
    assert_eq!(m.triangle_count(), 0);
}
