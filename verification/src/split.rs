use vstd::prelude::*;
use crate::ids::{HalfEdgeID, FaceID, group_id_ext};
use crate::dynamic_mesh::dynamic_mesh::DynamicMesh;
use crate::dynamic_mesh::splitting_and_merging::{is_part, faces_closed, lemma_triangles_closed, at_split};
use crate::connected_components::{is_component, covered, in_some, connected_component_with_limit, contains_halfedge};
use crate::dynamic_mesh::connectivity_info::ConnectivityInfo;

verus! {

broadcast use group_id_ext;

/// Whether `parts` are the sub-meshes of `mesh` made of the lists of faces `comps`, each the
/// component, bounded by `limit`, of its first face, which no list before it holds, and
/// together holding every face.
pub open spec fn cut_parts<P: Copy>(
    mesh: DynamicMesh<P>,
    limit: Seq<HalfEdgeID>,
    comps: Seq<Seq<FaceID>>,
    parts: Seq<DynamicMesh<P>>,
) -> bool {
    let c = mesh.connectivity();
    &&& comps.len() == parts.len()
    &&& forall|i: int| 0 <= i < comps.len() ==> #[trigger] is_component(c, limit, comps[i], comps[i][0])
    &&& forall|i: int| 0 <= i < comps.len() ==> #[trigger] is_part(mesh, comps[i], parts[i]) && parts[i].wf()
    &&& forall|i: int, m: int| 0 <= i < comps.len() && 0 <= m < comps[i].len() ==> c.has_face(#[trigger] comps[i][m])
    &&& forall|i: int, j: int| 0 <= j < i < comps.len() ==> !(#[trigger] comps[j].contains(#[trigger] comps[i][0]))
    &&& forall|f: FaceID| #[trigger] c.has_face(f) ==> exists|i: int| 0 <= i < comps.len() && #[trigger] comps[i].contains(f)
}

/// Cuts a mesh into the parts that the halfedges of `split_edges` separate: going through the
/// faces, each face not in a part yet starts a part with the faces reached from it without
/// crossing those halfedges. Where every face of the mesh is one triangle, every part is a
/// valid mesh.
pub fn cut_into_subsets<P: Copy>(mesh: &DynamicMesh<P>, split_edges: &Vec<HalfEdgeID>) -> (r: Vec<DynamicMesh<P>>)
    requires
        mesh.wf(),
        mesh.connectivity().is_valid(),
        forall|k: usize|
            #[trigger] mesh.connectivity().vertex_map().dom().contains(k) ==> mesh.position_map().dom().contains(k),
    ensures
        exists|comps: Seq<Seq<FaceID>>| #[trigger] cut_parts(*mesh, split_edges@, comps, r@),
        mesh.connectivity().faces_are_triangles() ==> forall|i: int| 0 <= i < r@.len() ==> (#[trigger] r@[i]).connectivity().is_valid(),
{
    let ghost c = mesh.connectivity();
    let faces = mesh.face_iterator();
    let mut components: Vec<Vec<FaceID>> = Vec::new();
    let mut k: usize = 0;
    while k < faces.len()
        invariant
            mesh.wf(),
            c == mesh.connectivity(),
            c.is_valid(),
            k <= faces@.len(),
            forall|a: int| 0 <= a < faces@.len() ==> #[trigger] c.has_face(faces@[a]),
            forall|f: FaceID| #[trigger] c.has_face(f) ==> faces@.contains(f),
            forall|a: int| 0 <= a < k ==> #[trigger] covered(components@, faces@[a]),
            forall|i: int|
                0 <= i < components@.len() ==> #[trigger] is_component(c, split_edges@, components@[i]@, components@[i]@[0]),
            forall|i: int, j: int|
                0 <= j < i < components@.len() ==> !(#[trigger] components@[j]@.contains(#[trigger] components@[i]@[0])),
            forall|i: int, m: int|
                0 <= i < components@.len() && 0 <= m < components@[i]@.len() ==> c.has_face(#[trigger] components@[i]@[m]),
        decreases faces@.len() - k,
    {
        let face_id = faces[k];
        if !in_some(&components, &face_id) {
            proof {
                assert(c.has_face(faces@[k as int]));
            }
            let component = connected_component_with_limit(mesh, &face_id, split_edges);
            let ghost before = components@;
            components.push(component);
            proof {
                assert(components@ == before.push(component));
                assert forall|f: FaceID| #[trigger] covered(before, f) implies covered(components@, f) by {
                    let i = choose|i: int| 0 <= i < before.len() && #[trigger] before[i]@.contains(f);
                    assert(components@[i] == before[i]);
                }
                assert(components@[before.len() as int] == component);
                assert(component@.contains(face_id));
                assert(covered(components@, face_id));
                assert forall|a: int| 0 <= a < k + 1 implies #[trigger] covered(components@, faces@[a]) by {
                    if a < k {
                        assert(covered(before, faces@[a]));
                    }
                }
                assert forall|i: int| 0 <= i < components@.len() implies #[trigger] is_component(
                    c,
                    split_edges@,
                    components@[i]@,
                    components@[i]@[0],
                ) by {
                    if i < before.len() {
                        assert(components@[i] == before[i]);
                    }
                }
                assert forall|i: int, m: int|
                    0 <= i < components@.len() && 0 <= m < components@[i]@.len() implies c.has_face(
                    #[trigger] components@[i]@[m],
                ) by {
                    if i < before.len() {
                        assert(components@[i] == before[i]);
                    }
                }
                assert forall|i: int, j: int|
                    0 <= j < i < components@.len() implies !(#[trigger] components@[j]@.contains(
                    #[trigger] components@[i]@[0],
                )) by {
                    assert(components@[j] == before[j]);
                    if i < before.len() {
                        assert(components@[i] == before[i]);
                    } else {
                        assert(components@[i]@[0] == face_id);
                        if before[j]@.contains(face_id) {
                            assert(covered(before, face_id));
                        }
                    }
                }
            }
        }
        k = k + 1;
    }
    let mut meshes: Vec<DynamicMesh<P>> = Vec::new();
    let mut i: usize = 0;
    while i < components.len()
        invariant
            mesh.wf(),
            c == mesh.connectivity(),
            c.is_valid(),
            forall|k: usize| #[trigger] c.vertex_map().dom().contains(k) ==> mesh.position_map().dom().contains(k),
            i <= components@.len(),
            meshes@.len() == i,
            forall|a: int, m: int|
                0 <= a < components@.len() && 0 <= m < components@[a]@.len() ==> c.has_face(#[trigger] components@[a]@[m]),
            forall|a: int| 0 <= a < i ==> #[trigger] is_part(*mesh, components@[a]@, meshes@[a]) && meshes@[a].wf(),
            forall|a: int| 0 <= a < i && faces_closed(c) ==> (#[trigger] meshes@[a]).connectivity().is_valid(),
        decreases components@.len() - i,
    {
        proof {
            assert forall|m: int| 0 <= m < components@[i as int]@.len() implies #[trigger] c.has_face(components@[i as int]@[m]) by {
            }
        }
        let part = mesh.create_sub_mesh(&components[i]);
        let ghost before = meshes@;
        meshes.push(part);
        proof {
            assert(meshes@[i as int] == part);
            assert(is_part(*mesh, components@[i as int]@, part));
            assert forall|a: int| 0 <= a < i + 1 implies #[trigger] is_part(*mesh, components@[a]@, meshes@[a]) && meshes@[a].wf() by {
                if a < i {
                    assert(meshes@[a] == before[a]);
                } else {
                    assert(meshes@[a] == part);
                }
            }
            assert forall|a: int| 0 <= a < i + 1 && faces_closed(c) implies (#[trigger] meshes@[a]).connectivity().is_valid() by {
                if a < i {
                    assert(meshes@[a] == before[a]);
                }
            }
        }
        i = i + 1;
    }
    proof {
        let comps = components@.map_values(|v: Vec<FaceID>| v@);
        assert forall|f: FaceID| #[trigger] c.has_face(f) implies exists|i: int| 0 <= i < comps.len() && #[trigger] comps[i].contains(f) by {
            assert(faces@.contains(f));
            let a = choose|a: int| 0 <= a < faces@.len() && faces@[a] == f;
            assert(covered(components@, faces@[a]));
            let i = choose|i: int| 0 <= i < components@.len() && #[trigger] components@[i]@.contains(faces@[a]);
            assert(comps[i] == components@[i]@);
        }
        assert forall|i: int| 0 <= i < comps.len() implies #[trigger] is_component(c, split_edges@, comps[i], comps[i][0]) by {
            assert(comps[i] == components@[i]@);
        }
        assert forall|i: int| 0 <= i < comps.len() implies #[trigger] is_part(*mesh, comps[i], meshes@[i]) && meshes@[i].wf() by {
            assert(comps[i] == components@[i]@);
        }
        assert forall|i: int, m: int| 0 <= i < comps.len() && 0 <= m < comps[i].len() implies c.has_face(#[trigger] comps[i][m]) by {
            assert(comps[i] == components@[i]@);
        }
        assert forall|i: int, j: int| 0 <= j < i < comps.len() implies !(#[trigger] comps[j].contains(#[trigger] comps[i][0])) by {
            assert(comps[i] == components@[i]@);
            assert(comps[j] == components@[j]@);
        }
        assert(cut_parts(*mesh, split_edges@, comps, meshes@));
        if c.faces_are_triangles() {
            lemma_triangles_closed(c);
        }
    }
    meshes
}

/// Whether `(f1, f2)` are the faces on the two sides of the halfedge of smallest index where
/// the mesh is to be split, or none where no halfedge is.
pub open spec fn first_split_sides(c: ConnectivityInfo, edges: Seq<HalfEdgeID>, f1: Option<FaceID>, f2: Option<FaceID>) -> bool {
    if exists|h: HalfEdgeID| #[trigger] at_split(c, edges, h) {
        exists|h: HalfEdgeID|
            #[trigger] at_split(c, edges, h) && f1 == c.face_of(Some(h)) && f2 == c.face_of(c.twin_of(Some(h))) && forall|
                g: HalfEdgeID,
            | #[trigger] at_split(c, edges, g) ==> h.index() <= g.index()
    } else {
        f1 is None && f2 is None
    }
}

/// Whether `cc1` and `cc2` are the components, bounded by `edges`, of the faces `f1` and `f2`
/// on the two sides of the first halfedge where the mesh is to be split (empty for a side
/// without a face).
pub open spec fn first_split_plan(
    c: ConnectivityInfo,
    edges: Seq<HalfEdgeID>,
    f1: Option<FaceID>,
    f2: Option<FaceID>,
    cc1: Seq<FaceID>,
    cc2: Seq<FaceID>,
) -> bool {
    &&& first_split_sides(c, edges, f1, f2)
    &&& match f1 {
        Some(f) => is_component(c, edges, cc1, f),
        None => cc1.len() == 0,
    }
    &&& match f2 {
        Some(f) => is_component(c, edges, cc2, f),
        None => cc2.len() == 0,
    }
}

/// Splits a mesh in two at the halfedges of `split_edges`: the parts are the faces reached,
/// without crossing those halfedges, from the faces on the two sides of the first of them (by
/// halfedge index); a side without a face gives an empty part.
pub fn split_mesh<P: Copy>(mesh: &DynamicMesh<P>, split_edges: &Vec<HalfEdgeID>) -> (r: (DynamicMesh<P>, DynamicMesh<P>))
    requires
        mesh.wf(),
        mesh.connectivity().is_valid(),
        forall|k: usize|
            #[trigger] mesh.connectivity().vertex_map().dom().contains(k) ==> mesh.position_map().dom().contains(k),
    ensures
        exists|f1: Option<FaceID>, f2: Option<FaceID>, cc1: Seq<FaceID>, cc2: Seq<FaceID>|
            #[trigger] first_split_plan(mesh.connectivity(), split_edges@, f1, f2, cc1, cc2) && {
                &&& r.0.wf() && is_part(*mesh, cc1, r.0)
                &&& r.1.wf() && is_part(*mesh, cc2, r.1)
            },
{
    let ghost c = mesh.connectivity();
    let halfedges = mesh.halfedge_iterator();
    let mut face_id1: Option<FaceID> = None;
    let mut face_id2: Option<FaceID> = None;
    let mut i: usize = 0;
    while i < halfedges.len()
        invariant_except_break
            forall|j: int| 0 <= j < i ==> !at_split(c, split_edges@, #[trigger] halfedges@[j]),
            face_id1 is None && face_id2 is None,
        invariant
            mesh.wf(),
            c == mesh.connectivity(),
            c.is_valid(),
            i <= halfedges@.len(),
            forall|a: int, b: int| 0 <= a < b < halfedges@.len() ==> halfedges@[a].index() < halfedges@[b].index(),
            forall|a: int| 0 <= a < halfedges@.len() ==> #[trigger] c.has_halfedge(halfedges@[a]),
            forall|h: HalfEdgeID| #[trigger] c.has_halfedge(h) ==> halfedges@.contains(h),
        ensures
            i < halfedges@.len() ==> at_split(c, split_edges@, halfedges@[i as int]) && face_id1 == c.face_of(
                Some(halfedges@[i as int]),
            ) && face_id2 == c.face_of(c.twin_of(Some(halfedges@[i as int]))) && forall|j: int|
                0 <= j < i ==> !at_split(c, split_edges@, #[trigger] halfedges@[j]),
            i >= halfedges@.len() ==> face_id1 is None && face_id2 is None && forall|j: int|
                0 <= j < halfedges@.len() ==> !at_split(c, split_edges@, #[trigger] halfedges@[j]),
        decreases halfedges@.len() - i,
    {
        let halfedge_id = halfedges[i];
        if contains_halfedge(split_edges, &halfedge_id) {
            proof {
                assert(c.has_halfedge(halfedges@[i as int]));
            }
            let mut walker = mesh.walker_from_halfedge(&halfedge_id);
            face_id1 = walker.face_id();
            face_id2 = walker.twin().face_id();
            break;
        }
        i = i + 1;
    }
    proof {
        if i < halfedges.len() {
            let h = halfedges@[i as int];
            c.lemma_valid_halfedge(h);
            c.lemma_valid_halfedge(c.halfedge_at(h).twin->Some_0);
            if c.face_of(Some(h)) is Some {
                c.lemma_valid_face(c.face_of(Some(h))->Some_0);
            }
            assert forall|g: HalfEdgeID| #[trigger] at_split(c, split_edges@, g) implies h.index() <= g.index() by {
                assert(halfedges@.contains(g));
                let b = choose|b: int| 0 <= b < halfedges@.len() && halfedges@[b] == g;
                if b < i {
                    assert(!at_split(c, split_edges@, halfedges@[b]));
                } else if b > i {
                    assert(halfedges@[i as int].index() < halfedges@[b].index());
                }
            }
            assert(first_split_sides(c, split_edges@, face_id1, face_id2));
        } else {
            assert forall|g: HalfEdgeID| !#[trigger] at_split(c, split_edges@, g) by {
                if at_split(c, split_edges@, g) {
                    assert(halfedges@.contains(g));
                    let b = choose|b: int| 0 <= b < halfedges@.len() && halfedges@[b] == g;
                    assert(!at_split(c, split_edges@, halfedges@[b]));
                }
            }
            assert(first_split_sides(c, split_edges@, face_id1, face_id2));
        }
    }
    let cc1 = match face_id1 {
        Some(face_id) => connected_component_with_limit(mesh, &face_id, split_edges),
        None => Vec::new(),
    };
    let cc2 = match face_id2 {
        Some(face_id) => connected_component_with_limit(mesh, &face_id, split_edges),
        None => Vec::new(),
    };
    let sub_mesh1 = mesh.create_sub_mesh(&cc1);
    let sub_mesh2 = mesh.create_sub_mesh(&cc2);
    proof {
        assert(first_split_plan(c, split_edges@, face_id1, face_id2, cc1@, cc2@));
    }
    (sub_mesh1, sub_mesh2)
}

} // verus!
