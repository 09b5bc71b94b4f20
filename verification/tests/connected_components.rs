use geo_proc::connected_components::{connected_component, connected_component_with_limit, connected_components};
use geo_proc::dynamic_mesh::dynamic_mesh::DynamicMesh;
use geo_proc::ids::{FaceID, HalfEdgeID};

fn points(flat: Vec<f32>) -> Vec<[f32; 3]> {
    flat.chunks(3).map(|c| [c[0], c[1], c[2]]).collect()
}

fn create_connected_test_object() -> DynamicMesh<[f32; 3]> {
    let positions: Vec<f32> = vec![
        1.0, -1.0, -1.0, 1.0, -1.0, 1.0, -1.0, -1.0, 1.0, -1.0, -1.0, -1.0, 1.0, 1.0, -1.0, 1.0, 1.0, 1.0, -1.0, 1.0, 1.0,
        -1.0, 1.0, -1.0,
    ];
    let indices: Vec<u32> = vec![
        0, 1, 2, 0, 2, 3, 4, 7, 6, 4, 6, 5, 0, 4, 5, 0, 5, 1, 1, 5, 6, 1, 6, 2, 2, 6, 7, 2, 7, 3, 4, 0, 3, 4, 3, 7,
    ];
    DynamicMesh::new_with_connectivity(indices, points(positions), None)
}

fn create_unconnected_test_object() -> DynamicMesh<[f32; 3]> {
    let positions: Vec<f32> = vec![
        1.0, -1.0, -1.0, 1.0, -1.0, 1.0, -1.0, -1.0, 1.0, -1.0, -1.0, -1.0, 1.0, 1.0, -1.0, 1.0, 1.0, 1.0, -1.0, 1.0, 1.0,
        -1.0, 1.0, -1.0, -1.0, 2.0, -1.0, -1.0, 3.0, -1.0, -2.0, 4.0, -1.0, -2.0, 1.0, -1.0, -1.0, 3.0, -2.0, -2.0, 4.0,
        -3.0, -2.0, 1.0, -4.0,
    ];
    let indices: Vec<u32> = vec![
        0, 1, 2, 0, 2, 3, 4, 7, 6, 4, 6, 5, 0, 4, 5, 0, 5, 1, 1, 5, 6, 1, 6, 2, 2, 6, 7, 2, 7, 3, 4, 0, 3, 4, 3, 7, 8, 9,
        10, 8, 10, 11, 12, 13, 14,
    ];
    DynamicMesh::new_with_connectivity(indices, points(positions), None)
}

#[test]
fn connected_components_test_one_connected_component() {
    let mesh = create_connected_test_object();
    let cc = connected_component(&mesh, &FaceID::new(0));
    assert_eq!(cc.len(), mesh.no_faces());
}

#[test]
fn connected_components_test_three_connected_component() {
    let mesh = create_unconnected_test_object();

    let mut cc = connected_component(&mesh, &FaceID::new(0));
    assert_eq!(cc.len(), 12);

    cc = connected_component(&mesh, &FaceID::new(13));
    assert_eq!(cc.len(), 2);

    cc = connected_component(&mesh, &FaceID::new(14));
    assert_eq!(cc.len(), 1);
}

#[test]
fn test_connected_components() {
    let mesh = create_unconnected_test_object();
    let cc = connected_components(&mesh);

    assert_eq!(cc.len(), 3);

    assert_eq!(cc[0].len() + cc[1].len() + cc[2].len(), 15);
    assert!(cc.iter().find(|vec| vec.len() == 12).is_some());
    assert!(cc.iter().find(|vec| vec.len() == 2).is_some());
    assert!(cc.iter().find(|vec| vec.len() == 1).is_some());
}

#[test]
fn connected_component_starts_with_the_given_face() {
    let mesh = create_unconnected_test_object();
    let cc = connected_component(&mesh, &FaceID::new(12));
    assert_eq!(cc[0], FaceID::new(12));
    assert!(cc.contains(&FaceID::new(13)));
    assert!(!cc.contains(&FaceID::new(14)));
}

#[test]
fn connected_component_stops_at_the_limit() {
    // Two triangles sharing the edge between vertices 0 and 2.
    let indices: Vec<u32> = vec![0, 1, 2, 0, 2, 3];
    let positions: Vec<f32> = vec![0.0, 0.0, 0.0, 1.0, 0.0, 0.0, 1.0, 1.0, 0.0, 0.0, 1.0, 0.0];
    let mesh = DynamicMesh::new_with_connectivity(indices, points(positions), None);

    let unlimited = connected_component_with_limit(&mesh, &FaceID::new(0), &vec![]);
    assert_eq!(unlimited.len(), 2);

    let shared: Vec<HalfEdgeID> = mesh
        .face_halfedge_iterator(&FaceID::new(0))
        .into_iter()
        .filter_map(|w| w.halfedge_id())
        .filter(|h| mesh.walker_from_halfedge(h).twin().face_id() == Some(FaceID::new(1)))
        .collect();
    assert_eq!(shared.len(), 1);
    let limited = connected_component_with_limit(&mesh, &FaceID::new(0), &shared);
    assert_eq!(limited, vec![FaceID::new(0)]);
}

#[test]
fn connected_components_of_the_empty_mesh() {
    let mesh: DynamicMesh<[f32; 3]> = DynamicMesh::new_with_connectivity(vec![], vec![], None);
    assert!(connected_components(&mesh).is_empty());
}

#[test]
fn connected_components_of_a_box_is_one_component() {
    let mesh = create_connected_test_object();
    let cc = connected_components(&mesh);
    assert_eq!(cc.len(), 1);
    assert_eq!(cc[0].len(), 12);
}
