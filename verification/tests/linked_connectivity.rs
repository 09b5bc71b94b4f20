use geo_proc::arena::Arena;
use geo_proc::connectivity_info::ConnectivityInfo;
use geo_proc::ids::{FaceID, HalfEdgeID, VertexID};
use geo_proc::static_mesh::{Attribute, Error, StaticMesh};
use geo_proc::traversal::Walker;

/// One triangle with its three inner halfedges and three boundary twins, linked by hand.
fn create_triangle() -> (ConnectivityInfo, [VertexID; 3], [HalfEdgeID; 6], FaceID) {
    let mut info = ConnectivityInfo::new(3, 1);
    let v0 = info.create_vertex();
    let v1 = info.create_vertex();
    let v2 = info.create_vertex();
    let f = info.create_face();
    let h0 = info.create_halfedge();
    let h1 = info.create_halfedge();
    let h2 = info.create_halfedge();
    let t0 = info.create_halfedge();
    let t1 = info.create_halfedge();
    let t2 = info.create_halfedge();

    // h0: v0 -> v1, h1: v1 -> v2, h2: v2 -> v0; each halfedge points to its end vertex.
    info.set_halfedge_vertex(&h0, &v1);
    info.set_halfedge_vertex(&h1, &v2);
    info.set_halfedge_vertex(&h2, &v0);
    info.set_halfedge_vertex(&t0, &v0);
    info.set_halfedge_vertex(&t1, &v1);
    info.set_halfedge_vertex(&t2, &v2);
    info.set_halfedge_next(&h0, &h1);
    info.set_halfedge_next(&h1, &h2);
    info.set_halfedge_next(&h2, &h0);
    for (a, b) in [(h0, t0), (h1, t1), (h2, t2)] {
        info.set_halfedge_twin(&a, &b);
        info.set_halfedge_twin(&b, &a);
    }
    info.set_halfedge_face(&h0, &f);
    info.set_halfedge_face(&h1, &f);
    info.set_halfedge_face(&h2, &f);
    info.set_face_halfedge(&f, &h0);
    info.set_vertex_halfedge(&v0, &h0);
    info.set_vertex_halfedge(&v1, &h1);
    info.set_vertex_halfedge(&v2, &h2);
    (info, [v0, v1, v2], [h0, h1, h2, t0, t1, t2], f)
}

#[test]
fn linked_connectivity_counts_and_ids() {
    let (info, vertices, halfedges, face) = create_triangle();
    assert_eq!(info.no_vertices(), 3);
    assert_eq!(info.no_faces(), 1);
    assert_eq!(info.vertex_iterator(), vertices.to_vec());
    assert_eq!(info.halfedge_iterator(), halfedges.to_vec());
    assert_eq!(info.face_iterator(), vec![face]);
    assert_eq!(vertices[0], VertexID::new(0));
    assert_eq!(halfedges[5], HalfEdgeID::new(5));
}

#[test]
fn linked_connectivity_getters_give_what_was_set() {
    let (info, [v0, v1, _v2], [h0, h1, _h2, t0, _t1, _t2], face) = create_triangle();
    assert_eq!(info.vertex_halfedge(&v0), Some(h0));
    assert_eq!(info.halfedge_vertex(&h0), Some(v1));
    assert_eq!(info.halfedge_twin(&h0), Some(t0));
    assert_eq!(info.halfedge_twin(&t0), Some(h0));
    assert_eq!(info.halfedge_next(&h0), Some(h1));
    assert_eq!(info.halfedge_next(&t0), None);
    assert_eq!(info.halfedge_face(&h0), Some(face));
    assert_eq!(info.halfedge_face(&t0), None);
    assert_eq!(info.face_halfedge(&face), Some(h0));
    let record = info.halfedge_info(&h1).unwrap();
    assert_eq!(record.next, info.halfedge_next(&h1));
    assert!(info.halfedge_info(&HalfEdgeID::new(17)).is_none());
}

#[test]
fn linked_connectivity_twin_is_set_on_one_side_only() {
    let mut info = ConnectivityInfo::new(0, 0);
    let a = info.create_halfedge();
    let b = info.create_halfedge();
    info.set_halfedge_twin(&a, &b);
    assert_eq!(info.halfedge_twin(&a), Some(b));
    assert_eq!(info.halfedge_twin(&b), None);
}

#[test]
fn linked_connectivity_remove_vertex_frees_its_index() {
    let mut info = ConnectivityInfo::new(0, 0);
    let v0 = info.create_vertex();
    let v1 = info.create_vertex();
    info.remove_vertex(&v0);
    assert_eq!(info.no_vertices(), 1);
    assert_eq!(info.vertex_iterator(), vec![v1]);
    // The next vertex gets the smallest unused index from the number of vertices on.
    let v2 = info.create_vertex();
    assert_eq!(v2, VertexID::new(2));
    let v3 = info.create_vertex();
    assert_eq!(v3, VertexID::new(3));
}

#[test]
fn linked_walker_goes_around_the_triangle() {
    let (info, [v0, v1, v2], [h0, h1, h2, t0, _t1, _t2], face) = create_triangle();

    let mut walker = Walker::create_from_vertex(&v0, &info);
    assert_eq!(walker.halfedge_id(), Some(h0));
    assert_eq!(walker.vertex_id(), Some(v1));
    assert_eq!(walker.next().vertex_id(), Some(v2));
    assert_eq!(walker.next().vertex_id(), Some(v0));
    assert_eq!(walker.halfedge_id(), Some(h2));
    assert_eq!(walker.previous().halfedge_id(), Some(h1));

    let mut walker = Walker::create_from_face(&face, &info);
    assert_eq!(walker.face_id(), Some(face));
    assert_eq!(walker.twin_id(), Some(t0));
    assert_eq!(walker.twin().face_id(), None);
    assert_eq!(walker.vertex_id(), Some(v0));
    // A boundary halfedge has no next: the walker then stands on nothing.
    assert_eq!(walker.next().halfedge_id(), None);
    assert_eq!(walker.next().halfedge_id(), None);

    let mut walker = Walker::create_from_halfedge(&h1, &info);
    assert_eq!(walker.face_id(), Some(face));
    walker.jump_to_edge(&h2).jump_to_vertex(&v1);
    assert_eq!(walker.halfedge_id(), Some(h1));
    walker.jump_to_face(&face);
    assert_eq!(walker.halfedge_id(), Some(h0));

    let walker = Walker::create(&info);
    assert_eq!(walker.halfedge_id(), None);
    assert_eq!(walker.vertex_id(), None);
}

fn attribute(name: &str, no_components: usize, data: Vec<f32>) -> Attribute<f32> {
    Attribute { name: name.to_owned(), no_components, data }
}

#[test]
fn static_mesh_needs_positions() {
    match StaticMesh::<f32>::create(vec![0, 1, 2], vec![]) {
        Err(Error::NeedPositionAttributeToCreateMesh { .. }) => {}
        Ok(_) => panic!("a static mesh was made without positions"),
    }
}

#[test]
fn static_mesh_counts() {
    let positions = attribute("position", 3, vec![0.0, 0.0, 0.0, 1.0, 0.0, 0.0, 0.0, 1.0, 0.0, 1.0, 1.0, 0.0]);
    let normals = attribute("normal", 3, vec![0.0; 12]);
    let mesh = StaticMesh::create(vec![0, 1, 2, 2, 1, 3], vec![positions, normals]).unwrap();
    assert_eq!(mesh.no_vertices(), 4);
    assert_eq!(mesh.no_faces(), 2);
    assert_eq!(mesh.indices(), vec![0, 1, 2, 2, 1, 3]);
}

#[test]
fn arena_insert_get_remove() {
    let mut arena: Arena<u32> = Arena::new();
    assert_eq!(arena.len(), 0);
    assert_eq!(arena.fresh(), 0);
    arena.insert(0, 10);
    arena.insert(2, 30);
    assert_eq!(arena.len(), 2);
    assert!(arena.contains(2));
    assert!(!arena.contains(1));
    assert_eq!(arena.get(2), Some(30));
    assert_eq!(*arena.get_ref(0), 10);
    // The smallest unused key from the number of entries on.
    assert_eq!(arena.fresh(), 3);
    arena.insert(2, 31);
    assert_eq!(arena.get(2), Some(31));
    assert_eq!(arena.len(), 2);
    assert_eq!(arena.remove(0), Some(10));
    assert_eq!(arena.remove(0), None);
    assert_eq!(arena.keys(), vec![2]);
    assert_eq!(arena.fresh(), 1);
    let other: Arena<u32> = Arena::with_capacity(8);
    assert_eq!(other.len(), 0);
}

#[test]
fn static_mesh_finds_attributes_by_name() {
    let positions = attribute("position", 3, vec![0.0, 0.0, 0.0, 1.0, 0.0, 0.0, 0.0, 1.0, 0.0]);
    let normals = attribute("normal", 3, vec![0.0, 0.0, 1.0, 0.0, 0.0, 1.0, 0.0, 0.0, 1.0]);
    let other_normals = attribute("normal", 1, vec![5.0, 5.0, 5.0]);
    let mesh = StaticMesh::create(vec![0, 1, 2], vec![positions, normals, other_normals]).unwrap();
    assert_eq!(mesh.get_attribute("position").unwrap().no_components, 3);
    // the first attribute with the name is found
    let n = mesh.get_attribute("normal").unwrap();
    assert_eq!(n.no_components, 3);
    assert_eq!(n.data[2], 1.0);
    assert!(mesh.get_attribute("color").is_none());
}

#[test]
fn the_face_list_holds_every_face_once() {
    let (mut info, _, _, f) = create_triangle();
    let faces = info.face_iterator();
    assert_eq!(faces.len(), info.no_faces());
    assert_eq!(faces, vec![f]);
    let g = info.create_face();
    let faces = info.face_iterator();
    assert_eq!(faces.len(), 2);
    assert!(faces.contains(&f));
    assert!(faces.contains(&g));
    assert_ne!(f, g);
}
