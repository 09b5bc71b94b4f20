use geo_proc::dynamic_mesh::dynamic_mesh::DynamicMesh;
use geo_proc::ids::{FaceID, HalfEdgeID, VertexID};

fn points(flat: Vec<f32>) -> Vec<[f32; 3]> {
    flat.chunks(3).map(|c| [c[0], c[1], c[2]]).collect()
}

fn create_three_connected_faces() -> DynamicMesh<[f32; 3]> {
    let indices: Vec<u32> = vec![0, 2, 3, 0, 3, 1, 0, 1, 2];
    let positions: Vec<f32> = vec![0.0, 0.0, 0.0, 0.0, 0.0, 1.0, 1.0, 0.0, -0.5, -1.0, 0.0, -0.5];
    DynamicMesh::new_with_connectivity(indices, points(positions), None)
}

fn create_single_face() -> DynamicMesh<[f32; 3]> {
    let positions: Vec<f32> = vec![0.0, 0.0, 0.0, 0.0, 0.0, 1.0, 1.0, 0.0, 0.0];
    DynamicMesh::new_with_connectivity((0..3).collect(), points(positions), None)
}

fn find_inner_vertex(mesh: &DynamicMesh<[f32; 3]>) -> Option<VertexID> {
    for vertex_id in mesh.vertex_iterator() {
        let mut round = true;
        for walker in mesh.vertex_halfedge_iterator(&vertex_id) {
            if walker.face_id().is_none() {
                round = false;
                break;
            }
        }
        if round {
            return Some(vertex_id);
        }
    }
    None
}

/// Whether every halfedge has a twin whose twin it is, and each face's halfedge bounds it.
fn is_consistent(mesh: &DynamicMesh<[f32; 3]>) -> bool {
    for h in mesh.halfedge_iterator() {
        match mesh.walker_from_halfedge(&h).twin_id() {
            Some(t) => {
                if t == h || mesh.walker_from_halfedge(&t).twin_id() != Some(h) {
                    return false;
                }
            }
            None => return false,
        }
    }
    mesh.face_iterator().iter().all(|f| mesh.walker_from_face(f).face_id() == Some(*f))
}

#[test]
fn test_create_face() {
    let mut mesh: DynamicMesh<[f32; 3]> = DynamicMesh::new_with_connectivity(vec![], vec![], None);

    let v1 = mesh.create_vertex([0.0, 0.0, 0.0], None);
    let v2 = mesh.create_vertex([0.0, 0.0, 0.0], None);
    let v3 = mesh.create_vertex([0.0, 0.0, 0.0], None);
    let f1 = mesh.create_face(&v1, &v2, &v3);
    mesh.create_twin_connectivity();

    let t1 = mesh.walker_from_vertex(&v1).halfedge_id();
    assert!(t1.is_some());

    let t2 = mesh.walker_from_vertex(&v1).twin().halfedge_id();
    assert!(t2.is_some());

    let t3 = mesh.walker_from_vertex(&v2).next().next().vertex_id();
    assert!(t3.is_some());
    assert_eq!(t3.unwrap(), v2);

    let t4 = mesh.walker_from_face(&f1).twin().face_id();
    assert!(t4.is_none());

    let t5 = mesh.walker_from_halfedge(&t1.unwrap()).twin().halfedge_id();
    assert!(t5.is_some());

    let t6 = mesh.walker_from_vertex(&v3).face_id();
    assert!(t6.is_some());
    assert_eq!(t6.unwrap(), f1);
}

#[test]
fn halfedge_mesh_test_vertex_iterator() {
    let mesh = create_three_connected_faces();

    let mut i = 0;
    for _ in mesh.vertex_iterator() {
        i = i + 1;
    }
    assert_eq!(4, i);

    // Test that two iterations return the same result
    let vec: Vec<VertexID> = mesh.vertex_iterator();
    i = 0;
    for vertex_id in mesh.vertex_iterator() {
        assert_eq!(vertex_id, vec[i]);
        i = i + 1;
    }
}

#[test]
fn halfedge_mesh_test_halfedge_iterator() {
    let mesh = create_three_connected_faces();

    let mut i = 0;
    for _ in mesh.halfedge_iterator() {
        i = i + 1;
    }
    assert_eq!(12, i);

    // Test that two iterations return the same result
    let vec: Vec<HalfEdgeID> = mesh.halfedge_iterator();
    i = 0;
    for halfedge_id in mesh.halfedge_iterator() {
        assert_eq!(halfedge_id, vec[i]);
        i = i + 1;
    }
}

#[test]
fn halfedge_mesh_test_face_iterator() {
    let mesh = create_three_connected_faces();

    let mut i = 0;
    for _ in mesh.face_iterator() {
        i = i + 1;
    }
    assert_eq!(3, i);

    // Test that two iterations return the same result
    let vec: Vec<FaceID> = mesh.face_iterator();
    i = 0;
    for face_id in mesh.face_iterator() {
        assert_eq!(face_id, vec[i]);
        i = i + 1;
    }
}

#[test]
fn test_connectivity() {
    let mesh = create_three_connected_faces();
    let id = find_inner_vertex(&mesh);
    let mut walker = mesh.walker_from_vertex(&id.unwrap());
    let start_edge = walker.halfedge_id().unwrap();
    let one_round_edge = walker.previous().twin().previous().twin().previous().twin().halfedge_id().unwrap();
    assert_eq!(start_edge, one_round_edge);
}

#[test]
fn halfedge_mesh_test_vertex_halfedge_iterator() {
    let mesh = create_three_connected_faces();

    let mut i = 0;
    let vertex_id = *mesh.vertex_iterator().last().unwrap();
    for edge in mesh.vertex_halfedge_iterator(&vertex_id) {
        assert!(edge.vertex_id().is_some());
        i = i + 1;
    }
    assert_eq!(i, 3, "All edges of a one-ring are not visited");
}

#[test]
fn halfedge_mesh_test_vertex_halfedge_iterator_with_holes() {
    let positions: Vec<f32> = vec![0.0; 5 * 3];
    let indices: Vec<u32> = vec![0, 2, 3, 0, 4, 1, 0, 1, 2];
    let mesh = DynamicMesh::new_with_connectivity(indices, points(positions), None);

    let mut i = 0;
    for edge in mesh.vertex_halfedge_iterator(&VertexID::new(0)) {
        assert!(edge.vertex_id().is_some());
        i = i + 1;
    }
    assert_eq!(i, 4, "All edges of a one-ring are not visited");
}

#[test]
fn halfedge_mesh_test_face_halfedge_iterator() {
    let mesh = create_single_face();
    let mut i = 0;
    for edge in mesh.face_halfedge_iterator(&FaceID::new(0)) {
        assert!(edge.halfedge_id().is_some());
        assert!(edge.face_id().is_some());
        i = i + 1;
    }
    assert_eq!(i, 3, "All edges of a face are not visited");
}

#[test]
fn mesh_test_one_face_connectivity() {
    let mut mesh: DynamicMesh<[f32; 3]> = DynamicMesh::new_with_connectivity(vec![], vec![], None);

    let v1 = mesh.create_vertex([0.0, 0.0, 0.0], None);
    let v2 = mesh.create_vertex([0.0, 0.0, 0.0], None);
    let v3 = mesh.create_vertex([0.0, 0.0, 0.0], None);
    let f1 = mesh.create_face(&v1, &v2, &v3);
    mesh.create_twin_connectivity();

    let t1 = mesh.walker_from_vertex(&v1).vertex_id();
    assert_eq!(t1, Some(v2.clone()));

    let t2 = mesh.walker_from_vertex(&v1).twin().vertex_id();
    assert_eq!(t2, Some(v1));

    let t3 = mesh.walker_from_vertex(&v2.clone()).next().next().vertex_id();
    assert_eq!(t3, Some(v2.clone()));

    let t4 = mesh.walker_from_face(&f1.clone()).twin().face_id();
    assert!(t4.is_none());

    let t5 = mesh.walker_from_face(&f1.clone()).twin().next_id();
    assert!(t5.is_none());

    let t6 = mesh.walker_from_face(&f1.clone()).previous().previous().twin().twin().face_id();
    assert_eq!(t6, Some(f1.clone()));

    let t7 = mesh.walker_from_vertex(&v2.clone()).next().next().next_id();
    assert_eq!(t7, mesh.walker_from_vertex(&v2).halfedge_id());

    let t8 = mesh.walker_from_vertex(&v3).face_id();
    assert_eq!(t8, Some(f1));
}

#[test]
fn mesh_test_three_face_connectivity() {
    let mesh = create_three_connected_faces();
    let id = find_inner_vertex(&mesh);
    let mut walker = mesh.walker_from_vertex(&id.unwrap());
    let start_edge = walker.halfedge_id().unwrap();
    let one_round_edge = walker.previous().twin().previous().twin().previous().twin_id().unwrap();
    assert_eq!(start_edge, one_round_edge);
}

#[test]
fn mesh_test_create_sub_mesh() {
    let indices: Vec<u32> = vec![0, 1, 2, 2, 1, 3, 3, 1, 4, 3, 4, 5];
    let positions: Vec<f32> = vec![0.0, 0.0, 0.0, 0.0, 0.0, 1.0, 1.0, 0.0, 0.5, 1.0, 0.0, 1.5, 0.0, 0.0, 2.0, 1.0, 0.0, 2.5];
    let mesh = DynamicMesh::new_with_connectivity(indices, points(positions), None);

    let mut faces = Vec::new();
    for face_id in mesh.face_iterator() {
        faces.push(face_id);
        break;
    }

    let sub_mesh = mesh.create_sub_mesh(&faces);

    assert!(is_consistent(&mesh));
    assert!(is_consistent(&sub_mesh));
}
