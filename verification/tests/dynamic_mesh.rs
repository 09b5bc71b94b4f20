use geo_proc::dynamic_mesh::dynamic_mesh::DynamicMesh;
use geo_proc::ids::{VertexID, HalfEdgeID, FaceID};

fn points(flat: Vec<f32>) -> Vec<[f32; 3]> {
    flat.chunks(3).map(|c| [c[0], c[1], c[2]]).collect()
}

fn create_three_connected_faces() -> DynamicMesh<[f32; 3]> {
    let indices: Vec<u32> = vec![0, 2, 3, 0, 3, 1, 0, 1, 2];
    let positions: Vec<f32> = vec![0.0, 0.0, 0.0, 0.0, 0.0, 1.0, 1.0, 0.0, -0.5, -1.0, 0.0, -0.5];
    let normals: Vec<f32> = vec![0.0; 4 * 3];
    DynamicMesh::new_with_connectivity(indices, points(positions), Some(points(normals)))
}

fn create_connected_box() -> DynamicMesh<[f32; 3]> {
    let positions: Vec<f32> = vec![
        1.0, -1.0, -1.0, 1.0, -1.0, 1.0, -1.0, -1.0, 1.0, -1.0, -1.0, -1.0, 1.0, 1.0, -1.0, 1.0, 1.0, 1.0, -1.0, 1.0, 1.0,
        -1.0, 1.0, -1.0,
    ];
    let indices: Vec<u32> = vec![
        0, 1, 2, 0, 2, 3, 4, 7, 6, 4, 6, 5, 0, 4, 5, 0, 5, 1, 1, 5, 6, 1, 6, 2, 2, 6, 7, 2, 7, 3, 4, 0, 3, 4, 3, 7,
    ];
    DynamicMesh::new_with_connectivity(indices, points(positions), None)
}

#[test]
fn dynamic_mesh_test_one_face_connectivity() {
    let mut mesh: DynamicMesh<[f32; 3]> = DynamicMesh::new_with_connectivity(vec![], vec![], None);

    let v1 = mesh.create_vertex([0.0, 0.0, 0.0], None);
    let v2 = mesh.create_vertex([0.0, 0.0, 0.0], None);
    let v3 = mesh.create_vertex([0.0, 0.0, 0.0], None);
    let f1 = mesh.create_face(&v1, &v2, &v3);
    mesh.create_twin_connectivity();

    let t1 = mesh.walker_from_vertex(&v1).vertex_id();
    assert_eq!(t1, Some(v2.clone()));

    let t2 = mesh.walker_from_vertex(&v1).twin().vertex_id();
    assert_eq!(t2, Some(v1));

    let t3 = mesh.walker_from_vertex(&v2.clone()).next().next().vertex_id();
    assert_eq!(t3, Some(v2.clone()));

    let t4 = mesh.walker_from_face(&f1.clone()).twin().face_id();
    assert!(t4.is_none());

    let t5 = mesh.walker_from_face(&f1.clone()).twin().next_id();
    assert!(t5.is_none());

    let t6 = mesh.walker_from_face(&f1.clone()).previous().previous().twin().twin().face_id();
    assert_eq!(t6, Some(f1.clone()));

    let t7 = mesh.walker_from_vertex(&v2.clone()).next().next().next_id();
    assert_eq!(t7, mesh.walker_from_vertex(&v2).halfedge_id());

    let t8 = mesh.walker_from_vertex(&v3).face_id();
    assert_eq!(t8, Some(f1));
}

#[test]
fn dynamic_mesh_test_three_face_connectivity() {
    let mesh = create_three_connected_faces();
    let mut id = None;
    for vertex_id in mesh.vertex_iterator() {
        let mut round = true;
        for walker in mesh.vertex_halfedge_iterator(&vertex_id) {
            if walker.face_id().is_none() {
                round = false;
                break;
            }
        }
        if round {
            id = Some(vertex_id);
            break;
        }
    }
    let mut walker = mesh.walker_from_vertex(&id.unwrap());
    let start_edge = walker.halfedge_id().unwrap();
    let one_round_edge = walker.previous().twin().previous().twin().previous().twin_id().unwrap();
    assert_eq!(start_edge, one_round_edge);
}

#[test]
fn dynamic_mesh_test_vertex_iterator() {
    let mesh = create_three_connected_faces();

    let mut i = 0;
    for _ in mesh.vertex_iterator() {
        i = i + 1;
    }
    assert_eq!(4, i);

    let vec: Vec<VertexID> = mesh.vertex_iterator();
    i = 0;
    for vertex_id in mesh.vertex_iterator() {
        assert_eq!(vertex_id, vec[i]);
        i = i + 1;
    }
}

#[test]
fn dynamic_mesh_test_halfedge_iterator() {
    let mesh = create_three_connected_faces();

    let mut i = 0;
    for _ in mesh.halfedge_iterator() {
        i = i + 1;
    }
    assert_eq!(12, i);

    let vec: Vec<HalfEdgeID> = mesh.halfedge_iterator();
    i = 0;
    for halfedge_id in mesh.halfedge_iterator() {
        assert_eq!(halfedge_id, vec[i]);
        i = i + 1;
    }
}

#[test]
fn dynamic_mesh_test_face_iterator() {
    let mesh = create_three_connected_faces();

    let mut i = 0;
    for _ in mesh.face_iterator() {
        i = i + 1;
    }
    assert_eq!(3, i);

    let vec: Vec<FaceID> = mesh.face_iterator();
    i = 0;
    for face_id in mesh.face_iterator() {
        assert_eq!(face_id, vec[i]);
        i = i + 1;
    }
}

#[test]
fn dynamic_mesh_test_vertex_halfedge_iterator() {
    let mesh = create_three_connected_faces();

    let mut i = 0;
    let vertex_id = *mesh.vertex_iterator().last().unwrap();
    for edge in mesh.vertex_halfedge_iterator(&vertex_id) {
        assert!(edge.vertex_id().is_some());
        i = i + 1;
    }
    assert_eq!(i, 3, "All edges of a one-ring are not visited");
}

#[test]
fn dynamic_mesh_test_vertex_halfedge_iterator_with_holes() {
    let indices: Vec<u32> = vec![0, 2, 3, 0, 4, 1, 0, 1, 2];
    let positions: Vec<f32> = vec![0.0; 5 * 3];
    let mesh = DynamicMesh::new_with_connectivity(indices, points(positions), None);

    let mut i = 0;
    for edge in mesh.vertex_halfedge_iterator(&VertexID::new(0)) {
        assert!(edge.vertex_id().is_some());
        i = i + 1;
    }
    assert_eq!(i, 4, "All edges of a one-ring are not visited");
}

#[test]
fn dynamic_mesh_test_face_halfedge_iterator() {
    let positions: Vec<f32> = vec![0.0, 0.0, 0.0, 0.0, 0.0, 1.0, 1.0, 0.0, 0.0];
    let mesh = DynamicMesh::new_with_connectivity((0..3).collect(), points(positions), None);
    let mut i = 0;
    for edge in mesh.face_halfedge_iterator(&FaceID::new(0)) {
        assert!(edge.halfedge_id().is_some());
        assert!(edge.face_id().is_some());
        i = i + 1;
    }
    assert_eq!(i, 3, "All edges of a face are not visited");
}

#[test]
fn test_remove_face() {
    let mut mesh = create_connected_box();
    let face_id = mesh.face_iterator()[0];
    mesh.remove_face(&face_id);

    assert_eq!(8, mesh.no_vertices());
    assert_eq!(36, mesh.no_halfedges());
    assert_eq!(11, mesh.no_faces());

    let mut i = 0;
    for face_id in mesh.face_iterator() {
        mesh.remove_face(&face_id);
        i = i + 1;
    }
    assert_eq!(i, 11);
    assert_eq!(0, mesh.no_vertices());
    assert_eq!(0, mesh.no_halfedges());
    assert_eq!(0, mesh.no_faces());
}

#[test]
fn new_with_connectivity_keeps_positions_and_normals() {
    let mesh = create_three_connected_faces();
    assert_eq!(*mesh.position(&VertexID::new(1)), [0.0, 0.0, 1.0]);
    assert_eq!(*mesh.position(&VertexID::new(3)), [-1.0, 0.0, -0.5]);
    assert_eq!(mesh.normal(&VertexID::new(2)), Some(&[0.0, 0.0, 0.0]));
    let bare = DynamicMesh::new_with_connectivity(vec![0, 1, 2], vec![[0.0f32; 3]; 3], None);
    assert_eq!(bare.normal(&VertexID::new(0)), None);
}

#[test]
fn new_with_connectivity_gives_faces_their_corners() {
    let mesh = create_three_connected_faces();
    assert_eq!(mesh.face_vertices(&FaceID::new(0)), (VertexID::new(2), VertexID::new(3), VertexID::new(0)));
    assert_eq!(mesh.face_vertices(&FaceID::new(2)), (VertexID::new(1), VertexID::new(2), VertexID::new(0)));
}

#[test]
fn new_with_connectivity_ignores_a_partial_triangle() {
    let mesh = DynamicMesh::new_with_connectivity(vec![0, 1, 2, 0, 1], vec![[0.0f32; 3]; 3], None);
    assert_eq!(mesh.no_faces(), 1);
    assert_eq!(mesh.no_halfedges(), 6);
}

#[test]
fn flip_orientation_twice_restores_the_mesh() {
    let mut mesh = create_three_connected_faces();
    let before: Vec<_> = mesh.face_iterator().iter().map(|f| mesh.face_vertices(f)).collect();
    mesh.flip_orientation();
    let flipped: Vec<_> = mesh.face_iterator().iter().map(|f| mesh.face_vertices(f)).collect();
    assert_ne!(before, flipped);
    // each face now runs the other way round
    for (a, b) in before.iter().zip(flipped.iter()) {
        let forward = [a.0, a.1, a.2];
        let backward = [b.2, b.1, b.0];
        assert!((0..3).any(|k| (0..3).all(|i| forward[i] == backward[(i + k) % 3])));
    }
    mesh.flip_orientation();
    let again: Vec<_> = mesh.face_iterator().iter().map(|f| mesh.face_vertices(f)).collect();
    assert_eq!(before, again);
}

#[test]
fn set_position_and_normal() {
    let mut mesh = create_three_connected_faces();
    mesh.set_position(VertexID::new(0), [1.0, 2.0, 3.0]);
    mesh.set_normal(VertexID::new(0), [0.0, 1.0, 0.0]);
    assert_eq!(*mesh.position(&VertexID::new(0)), [1.0, 2.0, 3.0]);
    assert_eq!(mesh.normal(&VertexID::new(0)), Some(&[0.0, 1.0, 0.0]));
}
