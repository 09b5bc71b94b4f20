use geo_proc::dynamic_mesh::dynamic_mesh::DynamicMesh;
use geo_proc::ids::{VertexID, HalfEdgeID, FaceID};

fn points(flat: Vec<f32>) -> Vec<[f32; 3]> {
    flat.chunks(3).map(|c| [c[0], c[1], c[2]]).collect()
}

fn create_three_connected_faces() -> DynamicMesh<[f32; 3]> {
    let indices: Vec<u32> = vec![0, 2, 3, 0, 3, 1, 0, 1, 2];
    let positions: Vec<f32> = vec![0.0, 0.0, 0.0, 0.0, 0.0, 1.0, 1.0, 0.0, -0.5, -1.0, 0.0, -0.5];
    let normals: Vec<f32> = vec![0.0; 4 * 3];
    DynamicMesh::new_with_connectivity(indices, points(positions), Some(points(normals)))
}

#[test]
fn traversal_test_vertex_iterator() {
    let mesh = create_three_connected_faces();

    let mut i = 0;
    for _ in mesh.vertex_iterator() {
        i = i + 1;
    }
    assert_eq!(4, i);

    // Test that two iterations return the same result
    let vec: Vec<VertexID> = mesh.vertex_iterator();
    i = 0;
    for vertex_id in mesh.vertex_iterator() {
        assert_eq!(vertex_id, vec[i]);
        i = i + 1;
    }
}

#[test]
fn traversal_test_halfedge_iterator() {
    let mesh = create_three_connected_faces();

    let mut i = 0;
    for _ in mesh.halfedge_iterator() {
        i = i + 1;
    }
    assert_eq!(12, i);

    // Test that two iterations return the same result
    let vec: Vec<HalfEdgeID> = mesh.halfedge_iterator();
    i = 0;
    for halfedge_id in mesh.halfedge_iterator() {
        assert_eq!(halfedge_id, vec[i]);
        i = i + 1;
    }
}

#[test]
fn traversal_test_face_iterator() {
    let mesh = create_three_connected_faces();

    let mut i = 0;
    for _ in mesh.face_iterator() {
        i = i + 1;
    }
    assert_eq!(3, i);

    // Test that two iterations return the same result
    let vec: Vec<FaceID> = mesh.face_iterator();
    i = 0;
    for face_id in mesh.face_iterator() {
        assert_eq!(face_id, vec[i]);
        i = i + 1;
    }
}

#[test]
fn traversal_test_vertex_halfedge_iterator() {
    let mesh = create_three_connected_faces();

    let mut i = 0;
    let vertex_id = *mesh.vertex_iterator().last().unwrap();
    for edge in mesh.vertex_halfedge_iterator(&vertex_id) {
        assert!(edge.vertex_id().is_some());
        i = i + 1;
    }
    assert_eq!(i, 3, "All edges of a one-ring are not visited");
}

#[test]
fn traversal_test_vertex_halfedge_iterator_with_holes() {
    let indices: Vec<u32> = vec![0, 2, 3, 0, 4, 1, 0, 1, 2];
    let positions: Vec<f32> = vec![0.0; 5 * 3];
    let mesh = DynamicMesh::new_with_connectivity(indices, points(positions), None);

    let mut i = 0;
    for edge in mesh.vertex_halfedge_iterator(&VertexID::new(0)) {
        assert!(edge.vertex_id().is_some());
        i = i + 1;
    }
    assert_eq!(i, 4, "All edges of a one-ring are not visited");
}

#[test]
fn traversal_test_face_halfedge_iterator() {
    let positions: Vec<f32> = vec![0.0, 0.0, 0.0, 0.0, 0.0, 1.0, 1.0, 0.0, 0.0];
    let mesh = DynamicMesh::new_with_connectivity((0..3).collect(), points(positions), None);
    let mut i = 0;
    for edge in mesh.face_halfedge_iterator(&FaceID::new(0)) {
        assert!(edge.halfedge_id().is_some());
        assert!(edge.face_id().is_some());
        i = i + 1;
    }
    assert_eq!(i, 3, "All edges of a face are not visited");
}

#[test]
fn walker_steps_around_a_face_and_back() {
    let mesh = create_three_connected_faces();
    let mut walker = mesh.walker_from_face(&FaceID::new(0));
    let start = walker.halfedge_id();
    let next = walker.next_id();
    let previous = walker.previous_id();
    walker.next();
    assert_eq!(walker.halfedge_id(), next);
    walker.next();
    assert_eq!(walker.halfedge_id(), previous);
    walker.next();
    assert_eq!(walker.halfedge_id(), start);
    let twin = walker.twin_id();
    walker.twin();
    assert_eq!(walker.halfedge_id(), twin);
    assert_eq!(walker.twin_id(), start);
}

#[test]
fn walker_on_nothing_stays_there() {
    let mesh = create_three_connected_faces();
    let mut walker = mesh.walker();
    assert_eq!(walker.halfedge_id(), None);
    walker.next().twin().previous();
    assert_eq!(walker.halfedge_id(), None);
    assert_eq!(walker.vertex_id(), None);
    assert_eq!(walker.face_id(), None);
}

#[test]
fn walker_into_and_as() {
    let mesh = create_three_connected_faces();
    let walker = mesh.walker().into_vertex_halfedge_walker(&VertexID::new(0));
    assert_eq!(walker.halfedge_id(), mesh.walker_from_vertex(&VertexID::new(0)).halfedge_id());
    let h = walker.halfedge_id().unwrap();
    let walker = mesh.walker().into_halfedge_walker(&h);
    assert_eq!(walker.halfedge_id(), Some(h));
    let walker = mesh.walker().into_face_halfedge_walker(&FaceID::new(1));
    assert_eq!(walker.face_id(), Some(FaceID::new(1)));
    let mut walker = mesh.walker();
    walker.as_face_halfedge_walker(&FaceID::new(2));
    assert_eq!(walker.face_id(), Some(FaceID::new(2)));
    walker.as_halfedge_walker(&h);
    assert_eq!(walker.halfedge_id(), Some(h));
    walker.as_vertex_halfedge_walker(&VertexID::new(1));
    assert_eq!(walker.halfedge_id(), mesh.walker_from_vertex(&VertexID::new(1)).halfedge_id());
}

#[test]
fn halfedge_twins_come_once_each() {
    let mesh = create_three_connected_faces();
    let twins = mesh.halfedge_twins_iterator();
    assert_eq!(twins.len(), 6);
    for (a, b) in twins {
        assert!(a.val() < b.val());
        assert_eq!(mesh.walker_from_halfedge(&a).twin_id(), Some(b));
    }
}
