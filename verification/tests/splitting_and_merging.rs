use geo_proc::dynamic_mesh::dynamic_mesh::DynamicMesh;
use geo_proc::dynamic_mesh::merging::merge;
use geo_proc::dynamic_mesh::splitting_and_merging::Error;
use geo_proc::ids::{VertexID, HalfEdgeID, FaceID};

fn points(flat: Vec<f32>) -> Vec<[f32; 3]> {
    flat.chunks(3).map(|c| [c[0], c[1], c[2]]).collect()
}

fn distance(a: &[f32; 3], b: &[f32; 3]) -> f32 {
    ((a[0] - b[0]).powi(2) + (a[1] - b[1]).powi(2) + (a[2] - b[2]).powi(2)).sqrt()
}

/// Whether the mesh is consistent: proper twins, halfedges on stored vertices, triangles
/// around faces, vertex halfedges starting at their vertex and face halfedges bounding
/// their face.
fn is_valid(mesh: &DynamicMesh<[f32; 3]>) -> bool {
    let vertices = mesh.vertex_iterator();
    let faces = mesh.face_iterator();
    for h in mesh.halfedge_iterator() {
        let walker = mesh.walker_from_halfedge(&h);
        let twin = match walker.twin_id() {
            Some(t) => t,
            None => return false,
        };
        if twin == h || mesh.walker_from_halfedge(&twin).twin_id() != Some(h) {
            return false;
        }
        let vertex = match walker.vertex_id() {
            Some(v) => v,
            None => return false,
        };
        if !vertices.contains(&vertex) || mesh.walker_from_vertex(&vertex).halfedge_id().is_none() {
            return false;
        }
        if let Some(previous) = walker.previous_id() {
            if mesh.walker_from_halfedge(&twin).vertex_id() != mesh.walker_from_halfedge(&previous).vertex_id() {
                return false;
            }
        }
        if let Some(f) = walker.face_id() {
            if !faces.contains(&f) {
                return false;
            }
            let mut w = mesh.walker_from_halfedge(&h);
            w.next();
            if w.face_id() != Some(f) {
                return false;
            }
            w.next();
            if w.face_id() != Some(f) || w.next_id() != Some(h) {
                return false;
            }
        }
    }
    for v in vertices.iter() {
        let walker = mesh.walker_from_vertex(v);
        if walker.halfedge_id().is_some() {
            let mut w = walker;
            if w.twin().vertex_id() != Some(*v) {
                return false;
            }
        }
    }
    for f in faces.iter() {
        if mesh.walker_from_face(f).face_id() != Some(*f) {
            return false;
        }
    }
    true
}

fn stitches_by_position(mesh1: &DynamicMesh<[f32; 3]>, mesh2: &DynamicMesh<[f32; 3]>) -> Vec<(VertexID, VertexID)> {
    let mut mapping = Vec::new();
    for vertex_id1 in mesh1.vertex_iterator() {
        for vertex_id2 in mesh2.vertex_iterator() {
            if distance(mesh1.position(&vertex_id1), mesh2.position(&vertex_id2)) < 0.001 {
                mapping.push((vertex_id2, vertex_id1));
            }
        }
    }
    mapping
}

#[test]
fn splitting_and_merging_test_face_face_merging_at_edge() {
    let indices1: Vec<u32> = vec![0, 1, 2];
    let positions1: Vec<f32> = vec![-2.0, 0.0, -2.0, -2.0, 0.0, 2.0, 2.0, 0.0, 0.0];
    let mesh1 = DynamicMesh::new_with_connectivity(indices1, points(positions1), None);

    let indices2: Vec<u32> = vec![0, 1, 2];
    let positions2: Vec<f32> = vec![-2.0, 0.0, 2.0, -2.0, 0.0, -2.0, -2.0, 0.5, 0.0];
    let mesh2 = DynamicMesh::new_with_connectivity(indices2, points(positions2), None);

    let mapping = stitches_by_position(&mesh1, &mesh2);

    let stitched = merge(mesh1.clone(), &mesh2, &mapping).unwrap();

    assert!(is_valid(&mesh1));
    assert!(is_valid(&mesh2));

    assert_eq!(stitched.no_faces(), 2);
    assert_eq!(stitched.no_vertices(), 4);
    assert!(is_valid(&stitched));
}

#[test]
fn splitting_and_merging_test_face_face_merging_at_edge_when_orientation_is_opposite() {
    let indices1: Vec<u32> = vec![0, 1, 2];
    let positions1: Vec<f32> = vec![-2.0, 0.0, -2.0, -2.0, 0.0, 2.0, 2.0, 0.0, 0.0];
    let mesh1 = DynamicMesh::new_with_connectivity(indices1, points(positions1), None);

    let indices2: Vec<u32> = vec![0, 1, 2];
    let positions2: Vec<f32> = vec![-2.0, 0.0, 2.0, -2.0, 0.5, 0.0, -2.0, 0.0, -2.0];
    let mesh2 = DynamicMesh::new_with_connectivity(indices2, points(positions2), None);

    let mapping = stitches_by_position(&mesh1, &mesh2);

    let stitched = merge(mesh1.clone(), &mesh2, &mapping).unwrap();

    assert!(is_valid(&mesh1));
    assert!(is_valid(&mesh2));

    assert_eq!(stitched.no_faces(), 2);
    assert_eq!(stitched.no_vertices(), 4);
    assert!(is_valid(&stitched));
}

fn create_strip() -> DynamicMesh<[f32; 3]> {
    let indices: Vec<u32> = vec![0, 1, 2, 2, 1, 3, 3, 1, 4, 3, 4, 5];
    let positions: Vec<f32> = vec![
        0.0, 0.0, 0.0, 0.0, 0.0, 1.0, 1.0, 0.0, 0.5, 1.0, 0.0, 1.5, 0.0, 0.0, 2.0, 1.0, 0.0, 2.5,
    ];
    DynamicMesh::new_with_connectivity(indices, points(positions), None)
}

#[test]
fn splitting_and_merging_test_create_sub_mesh() {
    let mesh = create_strip();

    let mut faces = Vec::new();
    for face_id in mesh.face_iterator() {
        faces.push(face_id);
        break;
    }

    let sub_mesh = mesh.create_sub_mesh(&faces);

    assert!(is_valid(&mesh));
    assert!(is_valid(&sub_mesh));
    assert_eq!(sub_mesh.no_faces(), 1);
    assert_eq!(sub_mesh.no_vertices(), 3);
    assert_eq!(sub_mesh.no_halfedges(), 6);
}

#[test]
fn splitting_and_merging_test_splitting() {
    let mesh = create_strip();

    let split_edges: Vec<HalfEdgeID> = mesh
        .halfedge_iterator()
        .into_iter()
        .filter(|he_id| {
            let (p0, p1) = mesh.edge_positions(he_id);
            p0[2] > 0.75 && p0[2] < 1.75 && p1[2] > 0.75 && p1[2] < 1.75
        })
        .collect();
    let (m1, m2) = mesh.split(&split_edges).unwrap();

    assert!(is_valid(&mesh));
    assert!(is_valid(&m1));
    assert!(is_valid(&m2));

    assert_eq!(m1.no_faces(), 2);
    assert_eq!(m2.no_faces(), 2);
}

#[test]
fn splitting_without_a_closed_curve_fails() {
    let mesh = create_strip();
    let split_edges: Vec<HalfEdgeID> = Vec::new();
    match mesh.split(&split_edges) {
        Err(Error::SplittingEdgesDidNotFormAClosesCurve { .. }) => {},
        _ => panic!("splitting without edges to split at should fail"),
    }
}

#[test]
fn sub_meshes_keep_positions() {
    let mesh = create_strip();
    let sub_mesh = mesh.create_sub_mesh(&vec![FaceID::new(3)]);
    assert_eq!(sub_mesh.no_vertices(), 3);
    assert_eq!(*sub_mesh.position(&VertexID::new(5)), [1.0, 0.0, 2.5]);
    assert_eq!(sub_mesh.face_vertices(&FaceID::new(3)), mesh.face_vertices(&FaceID::new(3)));
}

#[test]
fn test_merge_vertices() {
    let positions: Vec<f32> = vec![0.0, 0.0, 0.0, 1.0, 0.0, -0.5, -1.0, 0.0, -0.5, 0.0, 0.0, 0.0, -1.0, 0.0, -0.5, 0.0, 0.0, 1.0];
    let mut mesh = DynamicMesh::new_with_connectivity((0..6).collect(), points(positions), None);

    let mut vertex_id1 = None;
    for vertex_id in mesh.vertex_iterator() {
        if *mesh.position(&vertex_id) == [0.0, 0.0, 0.0] {
            if vertex_id1.is_none() {
                vertex_id1 = Some(vertex_id);
            } else {
                mesh.merge_vertices(&vertex_id1.unwrap(), &vertex_id).unwrap();
                break;
            }
        }
    }

    assert_eq!(5, mesh.no_vertices());
    assert_eq!(12, mesh.no_halfedges());
    assert_eq!(2, mesh.no_faces());
}

#[test]
fn test_merge_halfedges() {
    let positions: Vec<f32> = vec![1.0, 0.0, 0.0, 0.0, 0.0, 0.0, 0.0, 0.0, -1.0, 0.0, 0.0, 0.0, 1.0, 0.0, 0.0, 0.0, 0.0, 1.0];
    let mut mesh = DynamicMesh::new_with_connectivity((0..6).collect(), points(positions), None);

    let mut heid1 = None;
    for (v0, v1) in mesh.edge_iterator() {
        if mesh.position(&v0)[2] == 0.0 && mesh.position(&v1)[2] == 0.0 {
            let halfedge_id = mesh.connecting_edge(&v0, &v1).unwrap();
            if heid1.is_none() {
                heid1 = Some((halfedge_id, v0, v1));
            } else {
                let (halfedge_id1, v10, v11) = heid1.unwrap();
                mesh.merge_vertices(&v0, &v11).unwrap();
                mesh.merge_vertices(&v1, &v10).unwrap();
                mesh.merge_halfedges(&halfedge_id1, &halfedge_id).unwrap();
                break;
            }
        }
    }

    assert_eq!(4, mesh.no_vertices());
    assert_eq!(10, mesh.no_halfedges());
    assert_eq!(2, mesh.no_faces());
    assert!(is_valid(&mesh));
}

#[test]
fn merging_two_interior_edges_is_refused() {
    let mut mesh = create_strip();
    let a = mesh.connecting_edge(&VertexID::new(1), &VertexID::new(2)).unwrap();
    let b = mesh.connecting_edge(&VertexID::new(1), &VertexID::new(3)).unwrap();
    match mesh.merge_halfedges(&a, &b) {
        Err(Error::FailedToMergeVertices { .. }) => {},
        _ => panic!("merging two interior edges should be refused"),
    }
    assert_eq!(mesh.no_halfedges(), 18);
}

#[test]
fn merging_at_an_interior_edge_is_refused() {
    let mesh1 = create_strip();
    let mesh2 = create_strip();
    // vertices 1 and 2 of the strip are joined by an edge with faces on both sides
    let mapping = vec![(VertexID::new(1), VertexID::new(1)), (VertexID::new(2), VertexID::new(2))];
    match merge(mesh1, &mesh2, &mapping) {
        Err(Error::MergeWillCreateNonManifoldMesh { .. }) => {},
        _ => panic!("merging at an interior edge should be refused"),
    }
}

#[test]
fn merging_without_an_edge_in_the_other_mesh_cannot_check_orientation() {
    let indices1: Vec<u32> = vec![0, 1, 2];
    let positions1: Vec<f32> = vec![-2.0, 0.0, -2.0, -2.0, 0.0, 2.0, 2.0, 0.0, 0.0];
    let mesh1 = DynamicMesh::new_with_connectivity(indices1, points(positions1), None);
    let mesh2 = DynamicMesh::new_with_connectivity(vec![0, 1, 2, 3, 4, 5], points(vec![0.0; 18]), None);
    // vertices 0 and 1 of the first mesh are joined, vertices 0 and 3 of the second are not
    let mapping = vec![(VertexID::new(0), VertexID::new(0)), (VertexID::new(3), VertexID::new(1))];
    match merge(mesh1, &mesh2, &mapping) {
        Err(Error::CannotCheckOrientationOfMesh { .. }) => {},
        _ => panic!("the orientation cannot be checked"),
    }
}

#[test]
fn append_adds_the_faces_on_new_vertices() {
    let positions: Vec<f32> = vec![0.0, 0.0, 0.0, 1.0, 0.0, 0.0, 0.0, 1.0, 0.0];
    let mut mesh1 = DynamicMesh::new_with_connectivity(vec![0, 1, 2], points(positions.clone()), None);
    let mesh2 = DynamicMesh::new_with_connectivity(vec![0, 1, 2], points(positions), None);
    mesh1.append(&mesh2);
    assert_eq!(mesh1.no_faces(), 2);
    assert_eq!(mesh1.no_vertices(), 6);
    assert_eq!(mesh1.no_halfedges(), 12);
    assert!(is_valid(&mesh1));
}

#[test]
fn merging_at_an_interior_edge_of_a_mesh_with_a_hole_is_refused_and_leaves_it() {
    let mut mesh1 = create_strip();
    // the last face goes; its boundary halfedges keep their next links
    let last = mesh1.face_iterator()[3];
    mesh1.remove_face(&last);
    let before_faces = mesh1.no_faces();
    let before_halfedges = mesh1.no_halfedges();
    let mesh2 = create_strip();
    let mapping = vec![(VertexID::new(1), VertexID::new(1)), (VertexID::new(2), VertexID::new(2))];
    match mesh1.merge_with(&mesh2, &mapping) {
        Err(Error::MergeWillCreateNonManifoldMesh { message }) => {
            assert_eq!(message, "Merge at edge ((id: 1, dead: false)), (id: 2, dead: false))) will create non manifold mesh");
        },
        _ => panic!("merging at an interior edge should be refused"),
    }
    assert_eq!(mesh1.no_faces(), before_faces);
    assert_eq!(mesh1.no_halfedges(), before_halfedges);
}

#[test]
fn merged_stitched_vertices_are_shared() {
    let indices1: Vec<u32> = vec![0, 1, 2];
    let positions1: Vec<f32> = vec![-2.0, 0.0, -2.0, -2.0, 0.0, 2.0, 2.0, 0.0, 0.0];
    let mesh1 = DynamicMesh::new_with_connectivity(indices1, points(positions1), None);
    let indices2: Vec<u32> = vec![0, 1, 2];
    let positions2: Vec<f32> = vec![-2.0, 0.0, 2.0, -2.0, 0.0, -2.0, -2.0, 0.5, 0.0];
    let mesh2 = DynamicMesh::new_with_connectivity(indices2, points(positions2), None);
    let mapping = vec![(VertexID::new(0), VertexID::new(1)), (VertexID::new(1), VertexID::new(0))];
    let stitched = merge(mesh1, &mesh2, &mapping).unwrap();
    assert_eq!(stitched.no_vertices(), 4);
    // the new vertex carries the position of vertex 2 of the second mesh
    let new_vertex = stitched.vertex_iterator()[3];
    assert_eq!(*stitched.position(&new_vertex), [-2.0, 0.5, 0.0]);
    // the stitched edge has a face on both sides
    let e = stitched.connecting_edge(&VertexID::new(0), &VertexID::new(1)).unwrap();
    let mut w = stitched.walker_from_halfedge(&e);
    assert!(w.face_id().is_some());
    assert!(w.twin().face_id().is_some());
    assert_eq!(stitched.no_halfedges(), 10);
}

#[test]
fn merging_at_an_interior_edge_is_refused_without_reading_the_other_mesh() {
    let mut mesh1 = create_strip();
    let halfedges = mesh1.no_halfedges();
    let mesh2 = create_strip();
    // the stitched vertices 100 and 101 are not in the other mesh
    let mapping = vec![(VertexID::new(100), VertexID::new(1)), (VertexID::new(101), VertexID::new(2))];
    match mesh1.merge_with(&mesh2, &mapping) {
        Err(Error::MergeWillCreateNonManifoldMesh { .. }) => {},
        _ => panic!("merging at an interior edge should be refused"),
    }
    assert_eq!(mesh1.no_halfedges(), halfedges);
    assert_eq!(mesh1.no_faces(), 4);
}
