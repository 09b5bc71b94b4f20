use geo_proc::dynamic_mesh::dynamic_mesh::DynamicMesh;
use geo_proc::dynamic_mesh::splitting_and_merging::Error;
use geo_proc::ids::VertexID;

fn points(flat: Vec<f32>) -> Vec<[f32; 3]> {
    flat.chunks(3).map(|c| [c[0], c[1], c[2]]).collect()
}

/// Whether the mesh is consistent: proper twins, halfedges on stored vertices, triangles
/// around faces, vertex halfedges starting at their vertex and face halfedges bounding
/// their face.
fn is_valid(mesh: &DynamicMesh<[f32; 3]>) -> bool {
    let vertices = mesh.vertex_iterator();
    let faces = mesh.face_iterator();
    for h in mesh.halfedge_iterator() {
        let walker = mesh.walker_from_halfedge(&h);
        let twin = match walker.twin_id() {
            Some(t) => t,
            None => return false,
        };
        if twin == h || mesh.walker_from_halfedge(&twin).twin_id() != Some(h) {
            return false;
        }
        let vertex = match walker.vertex_id() {
            Some(v) => v,
            None => return false,
        };
        if !vertices.contains(&vertex) || mesh.walker_from_vertex(&vertex).halfedge_id().is_none() {
            return false;
        }
        if let Some(previous) = walker.previous_id() {
            if mesh.walker_from_halfedge(&twin).vertex_id() != mesh.walker_from_halfedge(&previous).vertex_id() {
                return false;
            }
        }
        if let Some(f) = walker.face_id() {
            if !faces.contains(&f) {
                return false;
            }
            let mut w = mesh.walker_from_halfedge(&h);
            w.next();
            if w.face_id() != Some(f) {
                return false;
            }
            w.next();
            if w.face_id() != Some(f) || w.next_id() != Some(h) {
                return false;
            }
        }
    }
    for v in vertices.iter() {
        let walker = mesh.walker_from_vertex(v);
        if walker.halfedge_id().is_some() {
            let mut w = walker;
            if w.twin().vertex_id() != Some(*v) {
                return false;
            }
        }
    }
    for f in faces.iter() {
        if mesh.walker_from_face(f).face_id() != Some(*f) {
            return false;
        }
    }
    true
}

/// The groups of vertices at one place, each in increasing order of index, ordered by
/// their first vertex; a vertex alone at its place makes no group.
fn groups_at_one_place(positions: &Vec<f32>) -> Vec<Vec<VertexID>> {
    let n = positions.len() / 3;
    let mut taken = vec![false; n];
    let mut groups = Vec::new();
    for i in 0..n {
        if taken[i] {
            continue;
        }
        let mut group = vec![VertexID::new(i)];
        for j in (i + 1)..n {
            if !taken[j] && positions[3 * i..3 * i + 3] == positions[3 * j..3 * j + 3] {
                taken[j] = true;
                group.push(VertexID::new(j));
            }
        }
        if group.len() > 1 {
            groups.push(group);
        }
    }
    groups
}

fn merged(indices: Vec<u32>, positions: Vec<f32>) -> DynamicMesh<[f32; 3]> {
    let groups = groups_at_one_place(&positions);
    let mut mesh = DynamicMesh::new_with_connectivity(indices, points(positions), None);
    mesh.merge_overlapping_primitives(&groups).unwrap();
    mesh
}

fn fan_positions() -> Vec<f32> {
    vec![
        0.0, 0.0, 0.0, 1.0, 0.0, -0.5, -1.0, 0.0, -0.5, 0.0, 0.0, 0.0, -1.0, 0.0, -0.5, 0.0, 0.0, 1.0, 0.0, 0.0, 0.0,
        0.0, 0.0, 1.0, 1.0, 0.0, -0.5,
    ]
}

fn coinciding_positions() -> Vec<f32> {
    vec![
        0.0, 0.0, 0.0, 1.0, 0.0, -0.5, -1.0, 0.0, -0.5, 0.0, 0.0, 0.0, -1.0, 0.0, -0.5, 0.0, 0.0, 1.0, 0.0, 0.0, 0.0,
        -1.0, 0.0, -0.5, 0.0, 0.0, 1.0,
    ]
}

fn unconnected_cube() -> (Vec<u32>, Vec<f32>) {
    let corners: Vec<f32> = vec![
        1.0, -1.0, -1.0, 1.0, -1.0, 1.0, -1.0, -1.0, 1.0, -1.0, -1.0, -1.0, 1.0, 1.0, -1.0, 1.0, 1.0, 1.0, -1.0, 1.0, 1.0,
        -1.0, 1.0, -1.0,
    ];
    let triangles: Vec<usize> = vec![
        0, 1, 2, 0, 2, 3, 4, 7, 6, 4, 6, 5, 0, 4, 5, 0, 5, 1, 1, 5, 6, 1, 6, 2, 2, 6, 7, 2, 7, 3, 4, 0, 3, 4, 3, 7,
    ];
    let mut positions = Vec::new();
    for &corner in triangles.iter() {
        positions.extend_from_slice(&corners[3 * corner..3 * corner + 3]);
    }
    ((0..36).collect(), positions)
}

fn separate_quads() -> (Vec<u32>, Vec<f32>) {
    let indices: Vec<u32> = vec![0, 1, 2, 1, 3, 2, 4, 6, 5, 6, 7, 5];
    let positions: Vec<f32> = vec![
        0.0, 0.0, 0.0, -1.0, 0.0, 0.0, -0.5, 0.0, 1.0, -1.5, 0.0, 1.0, -1.0, 0.0, 0.0, -0.5, 0.0, 1.0, -1.5, 0.0, 1.0,
        -1.0, 0.0, 1.5,
    ];
    (indices, positions)
}

#[test]
fn dynamic_mesh_test_merge_overlapping_primitives() {
    let mesh = merged((0..9).collect(), fan_positions());
    assert_eq!(4, mesh.no_vertices());
    assert_eq!(12, mesh.no_halfedges());
    assert_eq!(3, mesh.no_faces());
    assert!(is_valid(&mesh));
}

#[test]
fn dynamic_mesh_test_merge_overlapping_primitives_of_cube() {
    let (indices, positions) = unconnected_cube();
    let mesh = merged(indices, positions);
    assert_eq!(8, mesh.no_vertices());
    assert_eq!(36, mesh.no_halfedges());
    assert_eq!(12, mesh.no_faces());
    assert!(is_valid(&mesh));
}

#[test]
fn dynamic_mesh_test_merge_overlapping_individual_faces() {
    let mesh = merged((0..9).collect(), coinciding_positions());
    assert_eq!(4, mesh.no_vertices());
    assert_eq!(10, mesh.no_halfedges());
    assert_eq!(2, mesh.no_faces());
    assert!(is_valid(&mesh));
}

#[test]
fn dynamic_mesh_test_merge_overlapping_faces() {
    let (indices, positions) = separate_quads();
    let mesh = merged(indices, positions);
    assert_eq!(5, mesh.no_vertices());
    assert_eq!(14, mesh.no_halfedges());
    assert_eq!(3, mesh.no_faces());
    assert!(is_valid(&mesh));
}

#[test]
fn splitting_and_merging_test_merge_overlapping_primitives() {
    let mesh = merged((0..9).collect(), fan_positions());
    assert_eq!(4, mesh.no_vertices());
    assert_eq!(12, mesh.no_halfedges());
    assert_eq!(3, mesh.no_faces());
    assert!(is_valid(&mesh));
}

#[test]
fn splitting_and_merging_test_merge_overlapping_primitives_of_cube() {
    let (indices, positions) = unconnected_cube();
    let mesh = merged(indices, positions);
    assert_eq!(8, mesh.no_vertices());
    assert_eq!(36, mesh.no_halfedges());
    assert_eq!(12, mesh.no_faces());
    assert!(is_valid(&mesh));
}

#[test]
fn splitting_and_merging_test_merge_overlapping_individual_faces() {
    let mesh = merged((0..9).collect(), coinciding_positions());
    assert_eq!(4, mesh.no_vertices());
    assert_eq!(10, mesh.no_halfedges());
    assert_eq!(2, mesh.no_faces());
    assert!(is_valid(&mesh));
}

#[test]
fn splitting_and_merging_test_merge_overlapping_faces() {
    let (indices, positions) = separate_quads();
    let mesh = merged(indices, positions);
    assert_eq!(5, mesh.no_vertices());
    assert_eq!(14, mesh.no_halfedges());
    assert_eq!(3, mesh.no_faces());
    assert!(is_valid(&mesh));
}

#[test]
fn merging_without_groups_changes_nothing() {
    let mut mesh = DynamicMesh::new_with_connectivity((0..9).collect(), points(fan_positions()), None);
    mesh.merge_overlapping_primitives(&vec![]).unwrap();
    assert_eq!(9, mesh.no_vertices());
    assert_eq!(18, mesh.no_halfedges());
    assert_eq!(3, mesh.no_faces());
}

#[test]
fn merging_two_interior_edges_is_refused_after_the_vertices_are_merged() {
    // Two quads, not lying on each other, whose diagonals lie on each other.
    let indices: Vec<u32> = vec![0, 1, 2, 0, 2, 3, 4, 5, 6, 4, 6, 7];
    let positions: Vec<f32> = vec![
        0.0, 0.0, 0.0, 1.0, 0.0, 0.0, 1.0, 0.0, 1.0, 0.0, 0.0, 1.0, 0.0, 0.0, 0.0, 0.5, 1.0, 0.5, 1.0, 0.0, 1.0, 0.5,
        -1.0, 0.5,
    ];
    let groups = groups_at_one_place(&positions);
    assert_eq!(groups, vec![vec![VertexID::new(0), VertexID::new(4)], vec![VertexID::new(2), VertexID::new(6)]]);
    let mut mesh = DynamicMesh::new_with_connectivity(indices, points(positions), None);
    let result = mesh.merge_overlapping_primitives(&groups);
    assert!(matches!(result, Err(Error::FailedToMergeVertices { .. })));
    assert_eq!(6, mesh.no_vertices());
    assert_eq!(4, mesh.no_faces());
}
