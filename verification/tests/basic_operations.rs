use geo_proc::dynamic_mesh::basic_operations::Error;
use geo_proc::dynamic_mesh::dynamic_mesh::DynamicMesh;
use geo_proc::ids::{HalfEdgeID, VertexID};

fn points(flat: Vec<f32>) -> Vec<[f32; 3]> {
    flat.chunks(3).map(|c| [c[0], c[1], c[2]]).collect()
}

/// Whether the mesh is consistent: proper twins, halfedges on stored vertices, triangles
/// around faces, vertex halfedges starting at their vertex and face halfedges bounding
/// their face.
fn is_valid(mesh: &DynamicMesh<[f32; 3]>) -> bool {
    let vertices = mesh.vertex_iterator();
    let faces = mesh.face_iterator();
    for h in mesh.halfedge_iterator() {
        let walker = mesh.walker_from_halfedge(&h);
        let twin = match walker.twin_id() {
            Some(t) => t,
            None => return false,
        };
        if twin == h || mesh.walker_from_halfedge(&twin).twin_id() != Some(h) {
            return false;
        }
        let vertex = match walker.vertex_id() {
            Some(v) => v,
            None => return false,
        };
        if !vertices.contains(&vertex) || mesh.walker_from_vertex(&vertex).halfedge_id().is_none() {
            return false;
        }
        if let Some(previous) = walker.previous_id() {
            if mesh.walker_from_halfedge(&twin).vertex_id() != mesh.walker_from_halfedge(&previous).vertex_id() {
                return false;
            }
        }
        if let Some(f) = walker.face_id() {
            if !faces.contains(&f) {
                return false;
            }
            let mut w = mesh.walker_from_halfedge(&h);
            w.next();
            if w.face_id() != Some(f) {
                return false;
            }
            w.next();
            if w.face_id() != Some(f) || w.next_id() != Some(h) {
                return false;
            }
        }
    }
    for v in vertices.iter() {
        let walker = mesh.walker_from_vertex(v);
        if walker.halfedge_id().is_some() {
            let mut w = walker;
            if w.twin().vertex_id() != Some(*v) {
                return false;
            }
        }
    }
    for f in faces.iter() {
        if mesh.walker_from_face(f).face_id() != Some(*f) {
            return false;
        }
    }
    true
}

fn create_plane() -> DynamicMesh<[f32; 3]> {
    let positions: Vec<f32> = vec![-1.0, 0.0, -1.0, 1.0, 0.0, -1.0, 1.0, 0.0, 1.0, -1.0, 0.0, 1.0];
    let indices: Vec<u32> = vec![0, 2, 1, 0, 3, 2];
    DynamicMesh::new_with_connectivity(indices, points(positions), None)
}

fn create_icosahedron() -> DynamicMesh<[f32; 3]> {
    let x: f32 = 0.525731112119133606;
    let z: f32 = 0.850650808352039932;
    let positions: Vec<f32> = vec![
        -x, 0.0, z, x, 0.0, z, -x, 0.0, -z, x, 0.0, -z, 0.0, z, x, 0.0, z, -x, 0.0, -z, x, 0.0, -z, -x, z, x, 0.0, -z, x,
        0.0, z, -x, 0.0, -z, -x, 0.0,
    ];
    let indices: Vec<u32> = vec![
        0, 1, 4, 0, 4, 9, 9, 4, 5, 4, 8, 5, 4, 1, 8, 8, 1, 10, 8, 10, 3, 5, 8, 3, 5, 3, 2, 2, 3, 7, 7, 3, 10, 7, 10, 6, 7,
        6, 11, 11, 6, 0, 0, 6, 1, 6, 10, 1, 9, 11, 0, 9, 2, 11, 9, 5, 2, 7, 11, 2,
    ];
    DynamicMesh::new_with_connectivity(indices, points(positions), None)
}

fn flip_all_edges(mesh: &mut DynamicMesh<[f32; 3]>) -> usize {
    let mut no_flips = 0;
    for halfedge_id in mesh.halfedge_iterator() {
        let (v0, v1) = mesh.edge_vertices(&halfedge_id);

        if mesh.flip_edge(&halfedge_id).is_ok() {
            assert!(is_valid(mesh));

            let (v2, v3) = mesh.edge_vertices(&halfedge_id);
            assert_ne!(v0, v2);
            assert_ne!(v1, v2);
            assert_ne!(v0, v3);
            assert_ne!(v1, v3);

            assert!(mesh.connecting_edge(&v0, &v1).is_none());
            assert!(mesh.connecting_edge(&v2, &v3).is_some());

            let edge = mesh.connecting_edge(&v2, &v3).unwrap();
            let twin = mesh.walker_from_halfedge(&edge).twin_id().unwrap();
            assert!(
                edge == halfedge_id || twin == halfedge_id,
                "Flipped edge {} or flipped edge twin {} should be equal to before flipped edge id {}",
                edge.to_string(),
                twin.to_string(),
                halfedge_id.to_string()
            );
            no_flips = no_flips + 1;
        }
    }
    no_flips
}

#[test]
fn test_flip_edge() {
    let mut mesh = create_plane();
    let no_edges = mesh.no_halfedges();
    let no_flips = flip_all_edges(&mut mesh);
    assert_eq!(no_edges, mesh.no_halfedges());
    assert_eq!(no_flips, 2);
}

#[test]
fn test_flip_multiple_edges() {
    let mut mesh = create_icosahedron();
    let no_edges = mesh.no_halfedges();
    let no_flips = flip_all_edges(&mut mesh);
    assert_eq!(no_edges, mesh.no_halfedges());
    assert!(no_flips > 0);
}

fn boundary_halfedge(mesh: &DynamicMesh<[f32; 3]>) -> HalfEdgeID {
    mesh.halfedge_iterator().into_iter().find(|h| mesh.walker_from_halfedge(h).face_id().is_none()).unwrap()
}

#[test]
fn flip_edge_on_the_boundary_fails_and_keeps_the_mesh() {
    let mut mesh = create_plane();
    let boundary = boundary_halfedge(&mesh);
    let before: Vec<(HalfEdgeID, Option<VertexID>)> =
        mesh.halfedge_iterator().into_iter().map(|h| (h, mesh.walker_from_halfedge(&h).vertex_id())).collect();
    match mesh.flip_edge(&boundary) {
        Err(Error::FailedToFlipEdge { .. }) => {}
        Ok(()) => panic!("an edge on the boundary was flipped"),
    }
    // The twin of a boundary halfedge has a face, but its own twin has none.
    let inner = mesh.walker_from_halfedge(&boundary).twin_id().unwrap();
    assert!(mesh.flip_edge(&inner).is_err());
    let after: Vec<(HalfEdgeID, Option<VertexID>)> =
        mesh.halfedge_iterator().into_iter().map(|h| (h, mesh.walker_from_halfedge(&h).vertex_id())).collect();
    assert_eq!(before, after);
    assert!(is_valid(&mesh));
}

#[test]
fn flip_edge_fails_where_the_corners_are_joined_already() {
    // A tetrahedron: every two vertices are joined, so no edge can be flipped.
    let positions: Vec<f32> = vec![0.0, 0.0, 0.0, 1.0, 0.0, 0.0, 0.0, 1.0, 0.0, 0.0, 0.0, 1.0];
    let indices: Vec<u32> = vec![0, 2, 1, 0, 1, 3, 1, 2, 3, 2, 0, 3];
    let mut mesh = DynamicMesh::new_with_connectivity(indices, points(positions), None);
    assert!(is_valid(&mesh));
    for halfedge_id in mesh.halfedge_iterator() {
        assert!(mesh.flip_edge(&halfedge_id).is_err());
    }
    assert!(is_valid(&mesh));
}

#[test]
fn flipping_an_edge_twice_gives_back_the_diagonal() {
    let mut mesh = create_plane();
    let diagonal = mesh
        .halfedge_iterator()
        .into_iter()
        .find(|h| {
            let mut w = mesh.walker_from_halfedge(h);
            w.face_id().is_some() && w.twin().face_id().is_some()
        })
        .unwrap();
    let (v0, v1) = mesh.edge_vertices(&diagonal);
    mesh.flip_edge(&diagonal).unwrap();
    let (v2, v3) = mesh.edge_vertices(&diagonal);
    assert!(mesh.connecting_edge(&v0, &v1).is_none());
    mesh.flip_edge(&diagonal).unwrap();
    let (v4, v5) = mesh.edge_vertices(&diagonal);
    assert!(mesh.connecting_edge(&v2, &v3).is_none());
    assert_eq!((v4, v5), (v1, v0));
    assert!(is_valid(&mesh));
    assert_eq!(mesh.no_faces(), 2);
}
