use geo_proc::dynamic_mesh::dynamic_mesh::DynamicMesh;
use geo_proc::ids::FaceID;

fn points(flat: Vec<f32>) -> Vec<[f32; 3]> {
    flat.chunks(3).map(|c| [c[0], c[1], c[2]]).collect()
}

#[test]
fn indices_buffer_of_a_built_mesh() {
    let positions: Vec<f32> = vec![0.0, 0.0, 0.0, 1.0, 0.0, 0.0, 1.0, 1.0, 0.0, 0.0, 1.0, 0.0];
    let indices: Vec<u32> = vec![0, 1, 2, 0, 2, 3];
    let mesh = DynamicMesh::new_with_connectivity(indices, points(positions), None);
    // Each face starts at the corner its halfedge points to: the second of the three given.
    assert_eq!(mesh.indices_buffer(), vec![1, 2, 0, 2, 3, 0]);
}

#[test]
fn indices_buffer_counts_vertices_in_order() {
    let positions: Vec<f32> = vec![0.0, 0.0, 0.0, 1.0, 0.0, 0.0, 1.0, 1.0, 0.0, 0.0, 1.0, 0.0];
    let indices: Vec<u32> = vec![0, 1, 2, 0, 2, 3];
    let mut mesh = DynamicMesh::new_with_connectivity(indices, points(positions), None);
    // Removing the first face takes its two edges on the boundary and vertex 1 with it.
    mesh.remove_face(&FaceID::new(0));
    assert_eq!(mesh.no_vertices(), 3);
    assert_eq!(mesh.no_faces(), 1);
    // Vertices 0, 2 and 3 are now the first, second and third.
    assert_eq!(mesh.indices_buffer(), vec![1, 2, 0]);
}

#[test]
fn indices_buffer_of_an_empty_mesh() {
    let mesh: DynamicMesh<[f32; 3]> = DynamicMesh::new_with_connectivity(vec![], vec![], None);
    assert!(mesh.indices_buffer().is_empty());
}
