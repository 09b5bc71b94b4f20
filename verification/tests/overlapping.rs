use geo_proc::dynamic_mesh::dynamic_mesh::DynamicMesh;
use geo_proc::ids::{FaceID, HalfEdgeID, VertexID};

fn points(flat: Vec<f32>) -> Vec<[f32; 3]> {
    flat.chunks(3).map(|c| [c[0], c[1], c[2]]).collect()
}

fn v(i: usize) -> VertexID {
    VertexID::new(i)
}

/// Two triangles at one place, made of different vertices, the second turned the other way.
fn create_two_coinciding_faces() -> DynamicMesh<[f32; 3]> {
    let positions: Vec<f32> = vec![
        0.0, 0.0, 0.0, 1.0, 0.0, 0.0, 0.0, 1.0, 0.0, 0.0, 0.0, 0.0, 1.0, 0.0, 0.0, 0.0, 1.0, 0.0,
    ];
    let indices: Vec<u32> = vec![0, 1, 2, 3, 5, 4];
    DynamicMesh::new_with_connectivity(indices, points(positions), None)
}

/// Two triangles of a square whose shared side has its vertices twice.
fn create_square_with_open_seam() -> DynamicMesh<[f32; 3]> {
    let positions: Vec<f32> = vec![
        0.0, 0.0, 0.0, 1.0, 0.0, 0.0, 1.0, 1.0, 0.0, 1.0, 1.0, 0.0, 0.0, 1.0, 0.0, 0.0, 0.0, 0.0,
    ];
    let indices: Vec<u32> = vec![0, 1, 2, 3, 4, 5];
    DynamicMesh::new_with_connectivity(indices, points(positions), None)
}

fn edge_of(mesh: &DynamicMesh<[f32; 3]>, h: &HalfEdgeID) -> (usize, usize) {
    let (a, b) = mesh.ordered_edge_vertices(h);
    (a.val(), b.val())
}

fn points_up(mesh: &DynamicMesh<[f32; 3]>, h: &HalfEdgeID) -> bool {
    let (to, from) = mesh.edge_vertices(h);
    to.val() >= from.val()
}

#[test]
fn overlapping_edges_of_coinciding_faces() {
    let mesh = create_two_coinciding_faces();
    let groups = vec![vec![v(0), v(3)], vec![v(1), v(4)], vec![v(2), v(5)]];
    let edges = mesh.find_overlapping_edges(&groups);
    assert_eq!(edges.len(), 3);
    let mut found: Vec<((usize, usize), (usize, usize))> = Vec::new();
    for group in edges.iter() {
        assert_eq!(group.len(), 2);
        for h in group.iter() {
            assert!(points_up(&mesh, h));
        }
        let (a, b) = (edge_of(&mesh, &group[0]), edge_of(&mesh, &group[1]));
        found.push(if a < b { (a, b) } else { (b, a) });
    }
    found.sort();
    assert_eq!(found, vec![((0, 1), (3, 4)), ((0, 2), (3, 5)), ((1, 2), (4, 5))]);
}

#[test]
fn overlapping_edges_along_an_open_seam() {
    let mesh = create_square_with_open_seam();
    // Vertex 3 lies on vertex 2 and vertex 5 on vertex 0.
    let groups = vec![vec![v(2), v(3)], vec![v(0), v(5)]];
    let edges = mesh.find_overlapping_edges(&groups);
    assert_eq!(edges.len(), 1);
    let mut pair = vec![edge_of(&mesh, &edges[0][0]), edge_of(&mesh, &edges[0][1])];
    pair.sort();
    assert_eq!(pair, vec![(0, 2), (3, 5)]);
    // The groups hold no whole face of either triangle.
    assert!(mesh.find_overlapping_faces(&groups).is_empty());
}

#[test]
fn overlapping_edges_need_a_partner() {
    let mesh = create_two_coinciding_faces();
    // Only the vertices of one side are grouped: each edge joins its groups alone.
    let groups = vec![vec![v(0)], vec![v(1)], vec![v(2)]];
    assert!(mesh.find_overlapping_edges(&groups).is_empty());
    assert!(mesh.find_overlapping_edges(&vec![]).is_empty());
}

#[test]
fn overlapping_faces_of_coinciding_faces() {
    let mesh = create_two_coinciding_faces();
    let groups = vec![vec![v(0), v(3)], vec![v(1), v(4)], vec![v(2), v(5)]];
    let faces = mesh.find_overlapping_faces(&groups);
    assert_eq!(faces, vec![vec![FaceID::new(0), FaceID::new(1)]]);
}

#[test]
fn overlapping_faces_of_three_copies() {
    let positions: Vec<f32> = vec![0.0; 27];
    let indices: Vec<u32> = vec![0, 1, 2, 3, 4, 5, 6, 7, 8];
    let mesh = DynamicMesh::new_with_connectivity(indices, points(positions), None);
    let groups = vec![vec![v(0), v(3), v(6)], vec![v(1), v(4), v(7)], vec![v(2), v(5), v(8)]];
    let faces = mesh.find_overlapping_faces(&groups);
    // Each face is grouped with the faces of larger index on it.
    assert_eq!(
        faces,
        vec![vec![FaceID::new(0), FaceID::new(1), FaceID::new(2)], vec![FaceID::new(1), FaceID::new(2)]]
    );
    let edges = mesh.find_overlapping_edges(&groups);
    assert_eq!(edges.len(), 3);
    for group in edges.iter() {
        assert_eq!(group.len(), 3);
    }
}

#[test]
fn overlapping_edges_with_a_vertex_in_two_groups() {
    let mesh = create_two_coinciding_faces();
    // Vertex 0 is also in the second group; it counts in the first group that holds it.
    let groups = vec![vec![v(0), v(3)], vec![v(1), v(4), v(0)], vec![v(2), v(5)]];
    let edges = mesh.find_overlapping_edges(&groups);
    // Edge (0, 1) takes (3, 4); edge (1, 2) takes (4, 5) and, through vertex 0, also (0, 2);
    // then (3, 5) finds nothing left to join.
    assert_eq!(edges.len(), 2);
    assert_eq!(edges[0].len(), 2);
    assert_eq!(edges[1].len(), 3);
}
