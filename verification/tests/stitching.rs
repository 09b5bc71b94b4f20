use geo_proc::dynamic_mesh::dynamic_mesh::DynamicMesh;
use geo_proc::ids::VertexID;
use geo_proc::stitching::is_at_seam;

fn strip() -> DynamicMesh<[f32; 3]> {
    let indices: Vec<u32> = vec![0, 1, 2, 2, 1, 3];
    let positions = vec![[0.0, 0.0, 0.0], [0.0, 0.0, 1.0], [1.0, 0.0, 0.5], [1.0, 0.0, 1.5]];
    DynamicMesh::new_with_connectivity(indices, positions, None)
}

fn triangle() -> DynamicMesh<[f32; 3]> {
    DynamicMesh::new_with_connectivity(vec![0, 1, 2], vec![[0.0, 0.0, 1.0], [1.0, 0.0, 0.5], [0.0, 1.0, 0.0]], None)
}

#[test]
fn an_edge_between_seam_vertices_joined_in_the_other_mesh_is_at_the_seam() {
    let mesh1 = strip();
    let mesh2 = triangle();
    let seam = vec![(VertexID::new(1), VertexID::new(0)), (VertexID::new(2), VertexID::new(1))];
    let h = mesh1.connecting_edge(&VertexID::new(1), &VertexID::new(2)).unwrap();
    assert!(is_at_seam(&mesh1, &mesh2, &seam, &h));
    let g = mesh1.connecting_edge(&VertexID::new(0), &VertexID::new(1)).unwrap();
    assert!(!is_at_seam(&mesh1, &mesh2, &seam, &g));
}

#[test]
fn an_edge_whose_seam_vertices_are_not_joined_is_not_at_the_seam() {
    let mesh1 = strip();
    let mesh2 = DynamicMesh::new_with_connectivity(vec![0, 1, 2, 3, 4, 5], vec![[0.0, 0.0, 0.0]; 6], None);
    let seam = vec![(VertexID::new(1), VertexID::new(0)), (VertexID::new(2), VertexID::new(3))];
    let h = mesh1.connecting_edge(&VertexID::new(1), &VertexID::new(2)).unwrap();
    assert!(!is_at_seam(&mesh1, &mesh2, &seam, &h));
}
