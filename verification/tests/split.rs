use geo_proc::dynamic_mesh::dynamic_mesh::DynamicMesh;
use geo_proc::ids::HalfEdgeID;
use geo_proc::split::{cut_into_subsets, split_mesh};

fn points(flat: Vec<f32>) -> Vec<[f32; 3]> {
    flat.chunks(3).map(|c| [c[0], c[1], c[2]]).collect()
}

/// Whether the mesh is consistent: proper twins, halfedges on stored vertices, triangles
/// around faces, vertex halfedges starting at their vertex and face halfedges bounding
/// their face.
fn is_valid(mesh: &DynamicMesh<[f32; 3]>) -> bool {
    let vertices = mesh.vertex_iterator();
    let faces = mesh.face_iterator();
    for h in mesh.halfedge_iterator() {
        let walker = mesh.walker_from_halfedge(&h);
        let twin = match walker.twin_id() {
            Some(t) => t,
            None => return false,
        };
        if twin == h || mesh.walker_from_halfedge(&twin).twin_id() != Some(h) {
            return false;
        }
        let vertex = match walker.vertex_id() {
            Some(v) => v,
            None => return false,
        };
        if !vertices.contains(&vertex) || mesh.walker_from_vertex(&vertex).halfedge_id().is_none() {
            return false;
        }
        if let Some(previous) = walker.previous_id() {
            if mesh.walker_from_halfedge(&twin).vertex_id() != mesh.walker_from_halfedge(&previous).vertex_id() {
                return false;
            }
        }
        if let Some(f) = walker.face_id() {
            if !faces.contains(&f) {
                return false;
            }
            let mut w = mesh.walker_from_halfedge(&h);
            w.next();
            if w.face_id() != Some(f) {
                return false;
            }
            w.next();
            if w.face_id() != Some(f) || w.next_id() != Some(h) {
                return false;
            }
        }
    }
    for v in vertices.iter() {
        let walker = mesh.walker_from_vertex(v);
        if walker.halfedge_id().is_some() {
            let mut w = walker;
            if w.twin().vertex_id() != Some(*v) {
                return false;
            }
        }
    }
    for f in faces.iter() {
        if mesh.walker_from_face(f).face_id() != Some(*f) {
            return false;
        }
    }
    true
}

fn create_strip() -> DynamicMesh<[f32; 3]> {
    let indices: Vec<u32> = vec![0, 1, 2, 2, 1, 3, 3, 1, 4, 3, 4, 5];
    let positions: Vec<f32> = vec![0.0, 0.0, 0.0, 0.0, 0.0, 1.0, 1.0, 0.0, 0.5, 1.0, 0.0, 1.5, 0.0, 0.0, 2.0, 1.0, 0.0, 2.5];
    DynamicMesh::new_with_connectivity(indices, points(positions), None)
}

fn middle_edges(mesh: &DynamicMesh<[f32; 3]>) -> Vec<HalfEdgeID> {
    mesh.halfedge_iterator()
        .into_iter()
        .filter(|he_id| {
            let (p0, p1) = mesh.edge_positions(he_id);
            p0[2] > 0.75 && p0[2] < 1.75 && p1[2] > 0.75 && p1[2] < 1.75
        })
        .collect()
}

#[test]
fn test_cut_into_subsets() {
    let mesh = create_strip();

    let meshes = cut_into_subsets(&mesh, &middle_edges(&mesh));

    assert_eq!(meshes.len(), 2);
    let m1 = &meshes[0];
    let m2 = &meshes[1];

    assert!(is_valid(&mesh));
    assert!(is_valid(m1));
    assert!(is_valid(m2));

    assert_eq!(m1.no_faces(), 2);
    assert_eq!(m2.no_faces(), 2);
}

#[test]
fn split_test_splitting() {
    let mesh = create_strip();

    let (m1, m2) = mesh.split(&middle_edges(&mesh)).unwrap();

    assert!(is_valid(&mesh));
    assert!(is_valid(&m1));
    assert!(is_valid(&m2));

    assert_eq!(m1.no_faces(), 2);
    assert_eq!(m2.no_faces(), 2);
}

#[test]
fn cut_without_split_edges_gives_the_components() {
    let mesh = create_strip();
    let meshes = cut_into_subsets(&mesh, &vec![]);
    assert_eq!(meshes.len(), 1);
    assert_eq!(meshes[0].no_faces(), 4);
    assert!(is_valid(&meshes[0]));
}

#[test]
fn cut_at_every_edge_gives_single_faces() {
    let mesh = create_strip();
    let meshes = cut_into_subsets(&mesh, &mesh.halfedge_iterator());
    assert_eq!(meshes.len(), 4);
    for m in meshes.iter() {
        assert_eq!(m.no_faces(), 1);
        assert_eq!(m.no_vertices(), 3);
        assert!(is_valid(m));
    }
}

#[test]
fn split_mesh_at_the_middle() {
    let mesh = create_strip();
    let (m1, m2) = split_mesh(&mesh, &middle_edges(&mesh));
    assert_eq!(m1.no_faces(), 2);
    assert_eq!(m2.no_faces(), 2);
    assert!(is_valid(&m1));
    assert!(is_valid(&m2));
}

#[test]
fn split_mesh_without_split_edges_gives_empty_parts() {
    let mesh = create_strip();
    let (m1, m2) = split_mesh(&mesh, &vec![]);
    assert_eq!(m1.no_faces(), 0);
    assert_eq!(m2.no_faces(), 0);
    assert_eq!(m1.no_vertices(), 0);
}

#[test]
fn split_mesh_at_a_boundary_edge_gives_one_part() {
    let mesh = create_strip();
    let boundary: Vec<HalfEdgeID> = mesh
        .halfedge_iterator()
        .into_iter()
        .filter(|h| mesh.walker_from_halfedge(h).face_id().is_none())
        .collect();
    let (m1, m2) = split_mesh(&mesh, &boundary);
    // The first boundary halfedge has no face; its twin's side is the whole strip.
    assert_eq!(m1.no_faces(), 0);
    assert_eq!(m2.no_faces(), 4);
}
