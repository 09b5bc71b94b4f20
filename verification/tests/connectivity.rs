use geo_proc::dynamic_mesh::dynamic_mesh::DynamicMesh;
use geo_proc::ids::{VertexID, FaceID};

fn points(flat: Vec<f32>) -> Vec<[f32; 3]> {
    flat.chunks(3).map(|c| [c[0], c[1], c[2]]).collect()
}

fn create_three_connected_faces() -> DynamicMesh<[f32; 3]> {
    let indices: Vec<u32> = vec![0, 2, 3, 0, 3, 1, 0, 1, 2];
    let positions: Vec<f32> = vec![0.0, 0.0, 0.0, 0.0, 0.0, 1.0, 1.0, 0.0, -0.5, -1.0, 0.0, -0.5];
    DynamicMesh::new_with_connectivity(indices, points(positions), None)
}

#[test]
fn connecting_edge_finds_the_edge_between_two_vertices() {
    let mesh = create_three_connected_faces();
    let h = mesh.connecting_edge(&VertexID::new(0), &VertexID::new(2)).unwrap();
    assert_eq!(mesh.edge_vertices(&h), (VertexID::new(2), VertexID::new(0)));
    assert!(mesh.connecting_edge(&VertexID::new(1), &VertexID::new(1)).is_none());
}

#[test]
fn find_edge_and_connecting_edge_agree() {
    let mesh = create_three_connected_faces();
    for a in 0..4 {
        for b in 0..4 {
            let va = VertexID::new(a);
            let vb = VertexID::new(b);
            assert_eq!(mesh.find_edge(&va, &vb).is_some(), mesh.connecting_edge(&va, &vb).is_some());
        }
    }
    // vertices 2 and 1 are joined, 1 and 1 are not
    assert!(mesh.find_edge(&VertexID::new(2), &VertexID::new(1)).is_some());
}

#[test]
fn boundary_edges_and_ordered_vertices() {
    let mesh = create_three_connected_faces();
    let outer = mesh.connecting_edge(&VertexID::new(2), &VertexID::new(3)).unwrap();
    let inner = mesh.connecting_edge(&VertexID::new(0), &VertexID::new(1)).unwrap();
    assert!(mesh.on_boundary(&outer));
    assert!(!mesh.on_boundary(&inner));
    let twin = mesh.walker_from_halfedge(&inner).twin_id().unwrap();
    assert_eq!(mesh.ordered_edge_vertices(&inner), (VertexID::new(0), VertexID::new(1)));
    assert_eq!(mesh.ordered_edge_vertices(&twin), (VertexID::new(0), VertexID::new(1)));
}

#[test]
fn edge_iterator_gives_each_edge_once() {
    let mesh = create_three_connected_faces();
    let edges = mesh.edge_iterator();
    assert_eq!(edges.len(), 6);
    for (a, b) in edges.iter() {
        assert!(a.val() < b.val());
    }
    let h = mesh.connecting_edge(&VertexID::new(3), &VertexID::new(0)).unwrap();
    assert_eq!(mesh.edge_positions(&h), ([0.0, 0.0, 0.0], [-1.0, 0.0, -0.5]));
}

#[test]
fn face_vertices_follow_the_face() {
    let mesh = create_three_connected_faces();
    let (a, b, c) = mesh.face_vertices(&FaceID::new(1));
    assert_eq!((a, b, c), (VertexID::new(3), VertexID::new(1), VertexID::new(0)));
}

#[test]
fn connecting_edge_as_a_function_of_the_mesh() {
    let mesh = create_three_connected_faces();
    for v1 in mesh.vertex_iterator() {
        for v2 in mesh.vertex_iterator() {
            let found = geo_proc::connectivity::connecting_edge(&mesh, &v1, &v2);
            assert_eq!(found, mesh.connecting_edge(&v1, &v2));
            if let Some(h) = found {
                assert_eq!(mesh.walker_from_halfedge(&h).vertex_id(), Some(v2));
                assert_eq!(mesh.walker_from_halfedge(&h).twin().vertex_id(), Some(v1));
            }
        }
    }
}
