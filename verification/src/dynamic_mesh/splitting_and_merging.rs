use vstd::prelude::*;
use vstd::string::StringExecFns;
use crate::ids::{VertexID, HalfEdgeID, FaceID, group_id_ext};
use crate::dynamic_mesh::connectivity_info::{ConnectivityInfo, Connectivity, HalfEdge, Vertex, Face};
use crate::dynamic_mesh::dynamic_mesh::{DynamicMesh, boundary_open};
use crate::dynamic_mesh::connectivity_info::{face_created, new_face_halfedge_indices, face_halfedge};
use crate::arena::{fresh_index, lemma_fresh_index};
use crate::arena::Arena;
use crate::connected_components::{connected_component_with_limit, is_component, contains_face, contains_halfedge};

verus! {

broadcast use group_id_ext;

/// Why meshes could not be split or merged.
#[derive(Debug)]
pub enum Error {
    MergeWillCreateNonManifoldMesh { message: String },
    FailedToMergeVertices { message: String },
    CannotCheckOrientationOfMesh { message: String },
    SplittingEdgesDidNotFormAClosesCurve { message: String },
}

/// The halfedges with every halfedge that pointed to `from` pointing to `to`.
pub open spec fn redirected(hm: Map<usize, HalfEdge>, from: VertexID, to: VertexID) -> Map<usize, HalfEdge> {
    Map::new(
        |k: usize| hm.dom().contains(k),
        |k: usize|
            if hm[k].vertex == Some(from) {
                HalfEdge { vertex: Some(to), ..hm[k] }
            } else {
                hm[k]
            },
    )
}

/// Making the halfedges of a valid mesh that point to vertex `v2` point to another vertex
/// `v1` that has a halfedge, and removing `v2`, gives a valid mesh.
pub proof fn lemma_merged_vertices_valid(before: ConnectivityInfo, after: ConnectivityInfo, v1: VertexID, v2: VertexID)
    requires
        before.is_valid(),
        before.has_vertex(v1),
        before.vertex_at(v1).halfedge is Some,
        v1 != v2,
        after.halfedge_map() == redirected(before.halfedge_map(), v2, v1),
        after.vertex_map() == if v2.spec_is_null() {
            before.vertex_map()
        } else {
            before.vertex_map().remove(v2.index())
        },
        after.face_map() == before.face_map(),
    ensures
        after.is_valid(),
{
    assert(v1.index() != v2.index() || v2.spec_is_null());
    assert forall|h: HalfEdgeID| #[trigger] after.has_halfedge(h) implies after.halfedge_ok(h) && after.twin_ok(h) by {
        before.lemma_valid_halfedge(h);
        let t = before.halfedge_at(h).twin->Some_0;
        before.lemma_valid_halfedge(t);
        let u = before.halfedge_at(h).vertex->Some_0;
        if u != v2 {
            assert(after.has_vertex(u));
            assert(after.vertex_at(u) == before.vertex_at(u));
        } else {
            assert(after.has_vertex(v1));
            assert(after.vertex_at(v1) == before.vertex_at(v1));
        }
        if before.halfedge_at(h).face is Some {
            let g = before.halfedge_at(h).face->Some_0;
            let n = before.halfedge_at(h).next->Some_0;
            let m = before.halfedge_at(n).next->Some_0;
            assert(after.halfedge_at(n).next == before.halfedge_at(n).next);
            assert(after.halfedge_at(m).next == before.halfedge_at(m).next);
            assert(after.halfedge_at(n).face == before.halfedge_at(n).face);
            assert(after.halfedge_at(m).face == before.halfedge_at(m).face);
            assert(after.in_triangle(h, g));
        }
        if after.origin(h) is Some {
            let n = before.halfedge_at(h).next->Some_0;
            let m = before.halfedge_at(n).next->Some_0;
            assert(before.has_halfedge(n) && before.has_halfedge(m));
            assert(before.origin(h) == before.halfedge_at(m).vertex);
        }
    }
    assert forall|w: VertexID| #[trigger] after.has_vertex(w) implies after.vertex_ok(w) by {
        before.lemma_valid_vertex(w);
        assert(after.vertex_at(w) == before.vertex_at(w));
        if before.vertex_at(w).halfedge is Some {
            let g = before.vertex_at(w).halfedge->Some_0;
            before.lemma_valid_halfedge(g);
            let t = before.halfedge_at(g).twin->Some_0;
            assert(before.halfedge_at(t).vertex == Some(w));
            assert(w != v2);
        }
    }
    assert forall|g: FaceID| #[trigger] after.has_face(g) implies after.face_ok(g) by {
        before.lemma_valid_face(g);
    }
    after.lemma_valid_intro();
}

/// Whether neither halfedge of the edge of `h` bounds a face.
pub open spec fn edge_alone(c: ConnectivityInfo, h: HalfEdgeID) -> bool {
    c.face_of(Some(h)) is None && c.face_of(c.twin_of(Some(h))) is None
}

/// Whether both halfedges of the edge of `h` bound a face.
pub open spec fn edge_interior(c: ConnectivityInfo, h: HalfEdgeID) -> bool {
    c.face_of(Some(h)) is Some && c.face_of(c.twin_of(Some(h))) is Some
}

/// The halfedge of the edge of `h` that bounds a face, for an edge with a face on one side.
pub open spec fn faced_side(c: ConnectivityInfo, h: HalfEdgeID) -> HalfEdgeID {
    if c.face_of(Some(h)) is Some {
        h
    } else {
        c.twin_of(Some(h))->Some_0
    }
}

/// Whether merging the edges of `h1` and `h2` is refused: an edge with faces on both sides
/// can only be merged with an edge with none.
pub open spec fn merge_refused(c: ConnectivityInfo, h1: HalfEdgeID, h2: HalfEdgeID) -> bool {
    (edge_interior(c, h1) && !edge_alone(c, h2)) || (edge_interior(c, h2) && !edge_alone(c, h1))
}

/// The halfedge of each edge that stays when the edges of `h1` and `h2` are merged: on an edge
/// with one face, the halfedge that bounds it; on an edge with none, the halfedge that points
/// where the halfedge kept on the other edge does, or else the twin of the given halfedge.
pub open spec fn merge_survivors(c: ConnectivityInfo, h1: HalfEdgeID, h2: HalfEdgeID) -> (HalfEdgeID, HalfEdgeID) {
    let t1 = c.twin_of(Some(h1))->Some_0;
    let t2 = c.twin_of(Some(h2))->Some_0;
    if !edge_alone(c, h1) && !edge_alone(c, h2) {
        (faced_side(c, h1), faced_side(c, h2))
    } else if !edge_alone(c, h1) {
        let s1 = faced_side(c, h1);
        (s1, if c.vertex_of(Some(s1)) == c.vertex_of(Some(t2)) { h2 } else { t2 })
    } else if !edge_alone(c, h2) {
        let s2 = faced_side(c, h2);
        (if c.vertex_of(Some(s2)) == c.vertex_of(Some(t1)) { h1 } else { t1 }, s2)
    } else {
        let s1 = if c.vertex_of(Some(t1)) is None { h1 } else { t1 };
        (s1, if c.vertex_of(Some(s1)) == c.vertex_of(Some(t2)) { h2 } else { t2 })
    }
}

/// The halfedges after halfedge `h` is removed: its twin is left without a twin.
pub open spec fn without_halfedge(hm: Map<usize, HalfEdge>, h: HalfEdgeID) -> Map<usize, HalfEdge> {
    let t = hm[h.index()].twin->Some_0;
    hm.remove(h.index()).insert(t.index(), HalfEdge { twin: None, ..hm[t.index()] })
}

/// The connectivity after the edges of `h1` and `h2` are merged into one: the twins of the
/// two halfedges that stay are removed, the two that stay become twins, and the vertex each
/// of them points to is given the other.
pub open spec fn halfedges_merged(c: ConnectivityInfo, h1: HalfEdgeID, h2: HalfEdgeID) -> Connectivity {
    let (s1, s2) = merge_survivors(c, h1, h2);
    let r1 = c.twin_of(Some(s1))->Some_0;
    let r2 = c.twin_of(Some(s2))->Some_0;
    let hm0 = without_halfedge(without_halfedge(c.halfedge_map(), r1), r2);
    let hm1 = hm0.insert(s1.index(), HalfEdge { twin: Some(s2), ..hm0[s1.index()] });
    let hm2 = hm1.insert(s2.index(), HalfEdge { twin: Some(s1), ..hm1[s2.index()] });
    let v1 = c.vertex_of(Some(s1))->Some_0;
    let v2 = c.vertex_of(Some(s2))->Some_0;
    let vm = c.vertex_map().insert(v1.index(), Vertex { halfedge: Some(s2) }).insert(
        v2.index(),
        Vertex { halfedge: Some(s1) },
    );
    (vm, hm2, c.face_map())
}

/// Whether the halfedges that stay when the edges of `h1` and `h2` are merged each point to
/// where the twin of the other points.
pub open spec fn survivors_meet(c: ConnectivityInfo, h1: HalfEdgeID, h2: HalfEdgeID) -> bool {
    let (s1, s2) = merge_survivors(c, h1, h2);
    &&& c.vertex_of(Some(s2)) == c.vertex_of(c.twin_of(Some(s1)))
    &&& c.vertex_of(Some(s1)) == c.vertex_of(c.twin_of(Some(s2)))
}

/// Whether the edges of `h1` and `h2` join the same two vertices, either way round.
pub open spec fn same_ends(c: ConnectivityInfo, h1: HalfEdgeID, h2: HalfEdgeID) -> bool {
    let a1 = c.vertex_of(Some(h1));
    let b1 = c.vertex_of(c.twin_of(Some(h1)));
    let a2 = c.vertex_of(Some(h2));
    let b2 = c.vertex_of(c.twin_of(Some(h2)));
    (a1 == a2 && b1 == b2) || (a1 == b2 && b1 == a2)
}

/// When two edges on the same two vertices of a valid mesh are merged, one of them with no
/// face or their faces on opposite sides (the halfedges bounding them point to different
/// vertices), the two halfedges that stay run opposite ways: each points to where the twin of
/// the other points.
pub proof fn lemma_lone_edge_survivors_meet(c: ConnectivityInfo, h1: HalfEdgeID, h2: HalfEdgeID)
    requires
        c.is_valid(),
        c.has_halfedge(h1),
        c.has_halfedge(h2),
        !merge_refused(c, h1, h2),
        same_ends(c, h1, h2),
        edge_alone(c, h1) || edge_alone(c, h2) || c.vertex_of(Some(faced_side(c, h1))) != c.vertex_of(
            Some(faced_side(c, h2)),
        ),
    ensures
        survivors_meet(c, h1, h2),
{
    c.lemma_valid_halfedge(h1);
    c.lemma_valid_halfedge(h2);
    let t1 = c.halfedge_at(h1).twin->Some_0;
    let t2 = c.halfedge_at(h2).twin->Some_0;
    c.lemma_valid_halfedge(t1);
    c.lemma_valid_halfedge(t2);
    c.lemma_walk_returns(h1);
    c.lemma_walk_returns(h2);
}

/// Merging the edges of two different halfedges of a valid mesh, where it is not refused and
/// the halfedges that stay each point to where the twin of the other points, gives a valid
/// mesh.
#[verifier::rlimit(40)]
pub proof fn lemma_merged_halfedges_valid(c: ConnectivityInfo, after: ConnectivityInfo, h1: HalfEdgeID, h2: HalfEdgeID)
    requires
        c.is_valid(),
        c.has_halfedge(h1),
        c.has_halfedge(h2),
        h2 != h1,
        Some(h2) != c.twin_of(Some(h1)),
        !(edge_alone(c, h1) && edge_interior(c, h2)),
        !(edge_interior(c, h1) && edge_alone(c, h2)),
        !merge_refused(c, h1, h2),
        survivors_meet(c, h1, h2),
        after.state() == halfedges_merged(c, h1, h2),
    ensures
        after.is_valid(),
{
    c.lemma_valid_halfedge(h1);
    c.lemma_valid_halfedge(h2);
    let t1 = c.halfedge_at(h1).twin->Some_0;
    let t2 = c.halfedge_at(h2).twin->Some_0;
    c.lemma_valid_halfedge(t1);
    c.lemma_valid_halfedge(t2);
    let (s1, s2) = merge_survivors(c, h1, h2);
    let r1 = c.twin_of(Some(s1))->Some_0;
    let r2 = c.twin_of(Some(s2))->Some_0;
    assert((s1 == h1 && r1 == t1) || (s1 == t1 && r1 == h1));
    assert((s2 == h2 && r2 == t2) || (s2 == t2 && r2 == h2));
    assert(c.halfedge_at(r1).face is None);
    assert(c.halfedge_at(r2).face is None);
    assert(s1 != s2 && s1 != r2 && r1 != s2 && r1 != r2);
    let v1 = c.vertex_of(Some(s1))->Some_0;
    let v2 = c.vertex_of(Some(s2))->Some_0;
    let hm = c.halfedge_map();
    assert(after.halfedge_map().dom() =~= hm.dom().remove(r1.index()).remove(r2.index()));
    assert(after.vertex_map().dom() =~= c.vertex_map().dom());
    assert forall|h: HalfEdgeID| #[trigger] after.has_halfedge(h) implies {
        &&& c.has_halfedge(h)
        &&& h != r1 && h != r2
        &&& after.halfedge_at(h).vertex == c.halfedge_at(h).vertex
        &&& after.halfedge_at(h).next == c.halfedge_at(h).next
        &&& after.halfedge_at(h).face == c.halfedge_at(h).face
        &&& after.halfedge_at(h).twin == if h == s1 {
            Some(s2)
        } else if h == s2 {
            Some(s1)
        } else {
            c.halfedge_at(h).twin
        }
    } by {
        assert(h.index() != r1.index() && h.index() != r2.index());
    }
    // A step along a triangle or to a stored halfedge is the same afterwards.
    assert forall|h: HalfEdgeID| #[trigger] after.has_halfedge(h) && after.origin(h) is Some implies after.origin(h) == c.origin(h) by {
        let n = after.halfedge_at(h).next->Some_0;
        assert(after.has_halfedge(n));
        let m = after.halfedge_at(n).next->Some_0;
        assert(after.has_halfedge(m));
    }
    assert forall|h: HalfEdgeID| #[trigger] after.has_halfedge(h) implies after.halfedge_ok(h) && after.twin_ok(h) by {
        c.lemma_valid_halfedge(h);
        let u = c.halfedge_at(h).vertex->Some_0;
        assert(after.has_vertex(u));
        if u == v1 {
            assert(after.vertex_at(u).halfedge is Some);
        } else if u == v2 {
            assert(after.vertex_at(u).halfedge is Some);
        } else {
            assert(after.vertex_at(u) == c.vertex_at(u));
        }
        if c.halfedge_at(h).face is Some {
            let g = c.halfedge_at(h).face->Some_0;
            let n = c.halfedge_at(h).next->Some_0;
            let m = c.halfedge_at(n).next->Some_0;
            assert(c.halfedge_at(n).face == Some(g));
            assert(c.halfedge_at(m).face == Some(g));
            assert(n != r1 && n != r2 && m != r1 && m != r2);
            assert(after.has_halfedge(n));
            assert(after.has_halfedge(m));
            assert(after.in_triangle(h, g));
        }
        if h != s1 && h != s2 {
            let t = c.halfedge_at(h).twin->Some_0;
            c.lemma_valid_halfedge(t);
            assert(t != r1 && t != r2);
            assert(t != s1 && t != s2);
            assert(after.has_halfedge(t));
        } else {
            assert(after.has_halfedge(s1) && after.has_halfedge(s2));
        }
    }
    assert forall|w: VertexID| #[trigger] after.has_vertex(w) implies after.vertex_ok(w) by {
        c.lemma_valid_vertex(w);
        if w == v2 {
            assert(after.vertex_at(w).halfedge == Some(s1));
            assert(after.has_halfedge(s1));
        } else if w == v1 {
            assert(after.vertex_at(w).halfedge == Some(s2));
            assert(after.has_halfedge(s2));
        } else {
            assert(after.vertex_at(w) == c.vertex_at(w));
            if c.vertex_at(w).halfedge is Some {
                let g = c.vertex_at(w).halfedge->Some_0;
                c.lemma_valid_halfedge(g);
                let t = c.halfedge_at(g).twin->Some_0;
                if g == r1 {
                    assert(t == s1);
                } else if g == r2 {
                    assert(t == s2);
                }
                assert(after.has_halfedge(g));
                if g == s1 || g == s2 {
                    assert(c.halfedge_at(t).vertex == Some(w));
                }
            }
        }
    }
    assert forall|g: FaceID| #[trigger] after.has_face(g) implies after.face_ok(g) by {
        c.lemma_valid_face(g);
        let k = c.face_at(g).halfedge->Some_0;
        assert(k != r1 && k != r2);
        assert(after.has_halfedge(k));
    }
    assert(after.twins_complete());
    after.lemma_valid_intro();
}

/// Whether halfedge `x` is one of the three halfedges of face `f`: the face's own halfedge
/// and the two after it.
pub open spec fn on_face(c: ConnectivityInfo, f: FaceID, x: HalfEdgeID) -> bool {
    let h0 = c.face_at(f).halfedge->Some_0;
    let n = c.halfedge_at(h0).next->Some_0;
    let m = c.halfedge_at(n).next->Some_0;
    x == h0 || x == n || x == m
}

/// Whether halfedge `x` is a halfedge of one of the first `len` faces.
pub open spec fn in_faces(c: ConnectivityInfo, faces: Seq<FaceID>, len: int, x: HalfEdgeID) -> bool {
    exists|b: int| 0 <= b < len && #[trigger] on_face(c, faces[b], x)
}

/// Whether halfedge `x` bounds one of the faces.
pub open spec fn bounds_one_of(c: ConnectivityInfo, faces: Seq<FaceID>, x: HalfEdgeID) -> bool {
    c.face_of(Some(x)) matches Some(g) && faces.contains(g)
}

/// Whether halfedge `x` belongs to the part of the mesh made of the first `len` faces: it is
/// one of their halfedges, or the twin of one that bounds none of the faces.
pub open spec fn in_part(c: ConnectivityInfo, faces: Seq<FaceID>, len: int, x: HalfEdgeID) -> bool {
    &&& c.has_halfedge(x)
    &&& {
        ||| in_faces(c, faces, len, x)
        ||| (c.twin_of(Some(x)) matches Some(y) && in_faces(c, faces, len, y) && !bounds_one_of(c, faces, x))
    }
}

/// Halfedge `x` as the part of the mesh made of the faces has it: a halfedge that bounds a
/// face left out bounds none there and has no next halfedge.
pub open spec fn part_halfedge(c: ConnectivityInfo, faces: Seq<FaceID>, x: HalfEdgeID) -> HalfEdge {
    if c.face_of(Some(x)) is Some && !bounds_one_of(c, faces, x) {
        HalfEdge { face: None, next: None, ..c.halfedge_at(x) }
    } else {
        c.halfedge_at(x)
    }
}

/// The halfedges of the part of the mesh made of the faces.
pub open spec fn part_halfedges(c: ConnectivityInfo, faces: Seq<FaceID>) -> Map<usize, HalfEdge> {
    Map::new(
        |k: usize| in_part(c, faces, faces.len() as int, HalfEdgeID::spec_new(k)),
        |k: usize| part_halfedge(c, faces, HalfEdgeID::spec_new(k)),
    )
}

/// The faces of the part of the mesh made of the faces.
pub open spec fn part_faces(c: ConnectivityInfo, faces: Seq<FaceID>) -> Map<usize, Face> {
    Map::new(
        |k: usize| faces.contains(FaceID::spec_new(k)),
        |k: usize| c.face_at(FaceID::spec_new(k)),
    )
}

/// Whether vertex `v` is pointed to by a halfedge of one of the first `len` faces.
pub open spec fn part_vertex(c: ConnectivityInfo, faces: Seq<FaceID>, len: int, v: VertexID) -> bool {
    exists|x: HalfEdgeID| #[trigger] in_faces(c, faces, len, x) && c.vertex_of(Some(x)) == Some(v)
}

/// A halfedge of the first `len + 1` faces is one of the first `len` or of face `len`.
pub proof fn lemma_in_faces_grow(c: ConnectivityInfo, faces: Seq<FaceID>, len: int, x: HalfEdgeID)
    requires
        0 <= len < faces.len(),
    ensures
        in_faces(c, faces, len + 1, x) <==> in_faces(c, faces, len, x) || on_face(c, faces[len], x),
{
    if in_faces(c, faces, len + 1, x) {
        let b = choose|b: int| 0 <= b < len + 1 && #[trigger] on_face(c, faces[b], x);
        if b < len {
            assert(in_faces(c, faces, len, x));
        }
    }
    if in_faces(c, faces, len, x) {
        let b = choose|b: int| 0 <= b < len && #[trigger] on_face(c, faces[b], x);
        assert(on_face(c, faces[b], x));
    }
}

/// Every halfedge that bounds a face is one of that face's three halfedges.
pub open spec fn faces_closed(c: ConnectivityInfo) -> bool {
    forall|x: HalfEdgeID| #[trigger] c.has_halfedge(x) && c.halfedge_at(x).face is Some ==> on_face(c, c.halfedge_at(x).face->Some_0, x)
}

/// Where every face is one triangle, every halfedge of a face is one of its three.
pub proof fn lemma_triangles_closed(c: ConnectivityInfo)
    requires
        c.faces_are_triangles(),
    ensures
        faces_closed(c),
{
    assert forall|x: HalfEdgeID| #[trigger] c.has_halfedge(x) && c.halfedge_at(x).face is Some implies on_face(
        c,
        c.halfedge_at(x).face->Some_0,
        x,
    ) by {
        let f = c.halfedge_at(x).face->Some_0;
        let s = c.face_at(f).halfedge->Some_0;
        assert(c.has_halfedge(s));
        let n = c.halfedge_at(s).next->Some_0;
        assert(c.has_halfedge(n));
    }
}

/// In a valid mesh the three halfedges of a face are stored, bound it and follow each other.
pub proof fn lemma_on_face(c: ConnectivityInfo, f: FaceID, x: HalfEdgeID)
    requires
        c.is_valid(),
        c.has_face(f),
        on_face(c, f, x),
    ensures
        c.has_halfedge(x),
        c.halfedge_at(x).face == Some(f),
        c.halfedge_at(x).next is Some,
        on_face(c, f, c.halfedge_at(x).next->Some_0),
        on_face(c, f, c.halfedge_at(c.halfedge_at(x).next->Some_0).next->Some_0),
        c.halfedge_at(c.halfedge_at(c.halfedge_at(x).next->Some_0).next->Some_0).next == Some(x),
        c.halfedge_ok(x),
        c.twin_ok(x),
{
    c.lemma_valid_face(f);
    let h0 = c.face_at(f).halfedge->Some_0;
    c.lemma_valid_halfedge(h0);
    let n = c.halfedge_at(h0).next->Some_0;
    let m = c.halfedge_at(n).next->Some_0;
    c.lemma_valid_halfedge(n);
    c.lemma_valid_halfedge(m);
}

/// What the part of a valid mesh made of some of its faces has of a halfedge of the faces.
proof fn lemma_part_inner(c: ConnectivityInfo, faces: Seq<FaceID>, sub: ConnectivityInfo, x: HalfEdgeID)
    requires
        c.is_valid(),
        forall|i: int| 0 <= i < faces.len() ==> #[trigger] c.has_face(faces[i]),
        sub.halfedge_map() == part_halfedges(c, faces),
        in_faces(c, faces, faces.len() as int, x),
    ensures
        c.has_halfedge(x),
        sub.has_halfedge(x),
        sub.halfedge_at(x) == c.halfedge_at(x),
        bounds_one_of(c, faces, x),
        c.halfedge_ok(x),
        c.twin_ok(x),
        in_faces(c, faces, faces.len() as int, c.halfedge_at(x).next->Some_0),
        in_faces(c, faces, faces.len() as int, c.halfedge_at(c.halfedge_at(x).next->Some_0).next->Some_0),
        c.halfedge_at(c.halfedge_at(c.halfedge_at(x).next->Some_0).next->Some_0).next == Some(x),
{
    let len = faces.len() as int;
    let b = choose|b: int| 0 <= b < len && #[trigger] on_face(c, faces[b], x);
    lemma_on_face(c, faces[b], x);
    assert(faces.contains(faces[b]));
    assert(HalfEdgeID::spec_new(x.index()) == x);
    let n = c.halfedge_at(x).next->Some_0;
    let m = c.halfedge_at(n).next->Some_0;
    assert(on_face(c, faces[b], n));
    assert(on_face(c, faces[b], m));
}

/// The part of a valid mesh made of some of its faces has the twin of each halfedge of the
/// faces, as it has it.
proof fn lemma_part_twin(c: ConnectivityInfo, faces: Seq<FaceID>, sub: ConnectivityInfo, x: HalfEdgeID)
    requires
        c.is_valid(),
        faces_closed(c),
        forall|i: int| 0 <= i < faces.len() ==> #[trigger] c.has_face(faces[i]),
        sub.halfedge_map() == part_halfedges(c, faces),
        in_faces(c, faces, faces.len() as int, x),
    ensures
        sub.has_halfedge(c.halfedge_at(x).twin->Some_0),
        sub.halfedge_at(c.halfedge_at(x).twin->Some_0) == part_halfedge(c, faces, c.halfedge_at(x).twin->Some_0),
        c.twin_ok(c.halfedge_at(x).twin->Some_0),
        c.halfedge_ok(c.halfedge_at(x).twin->Some_0),
{
    let len = faces.len() as int;
    lemma_part_inner(c, faces, sub, x);
    let t = c.halfedge_at(x).twin->Some_0;
    c.lemma_valid_halfedge(t);
    assert(HalfEdgeID::spec_new(t.index()) == t);
    if bounds_one_of(c, faces, t) {
        let g = c.halfedge_at(t).face->Some_0;
        assert(on_face(c, g, t));
        let b = choose|b: int| 0 <= b < faces.len() && faces[b] == g;
        assert(on_face(c, faces[b], t));
        assert(in_faces(c, faces, len, t));
    }
}

/// A halfedge of the part of a valid mesh made of some of its faces is consistent there.
#[verifier::rlimit(40)]
proof fn lemma_part_halfedge_ok(c: ConnectivityInfo, faces: Seq<FaceID>, sub: ConnectivityInfo, x: HalfEdgeID)
    requires
        c.is_valid(),
        faces_closed(c),
        forall|i: int| 0 <= i < faces.len() ==> #[trigger] c.has_face(faces[i]),
        sub.face_map() == part_faces(c, faces),
        sub.halfedge_map() == part_halfedges(c, faces),
        forall|k: usize| #[trigger] sub.vertex_map().dom().contains(k) <==> part_vertex(c, faces, faces.len() as int, VertexID::spec_new(k)),
        forall|k: usize|
            #[trigger] sub.vertex_map().dom().contains(k) ==> exists|x: HalfEdgeID|
                #[trigger] in_faces(c, faces, faces.len() as int, x) && c.vertex_of(Some(x)) == Some(VertexID::spec_new(k))
                    && sub.vertex_map()[k] == (Vertex { halfedge: c.next_of(Some(x)) }),
        sub.has_halfedge(x),
    ensures
        sub.twin_ok(x),
        sub.halfedge_ok(x),
{
    let len = faces.len() as int;
    assert(HalfEdgeID::spec_new(x.index()) == x);
    c.lemma_valid_halfedge(x);
    let t = c.halfedge_at(x).twin->Some_0;
    c.lemma_valid_halfedge(t);
    if in_faces(c, faces, len, x) {
        lemma_part_inner(c, faces, sub, x);
        lemma_part_twin(c, faces, sub, x);
        let n = c.halfedge_at(x).next->Some_0;
        let m = c.halfedge_at(n).next->Some_0;
        lemma_part_inner(c, faces, sub, n);
        lemma_part_inner(c, faces, sub, m);
        let w = c.halfedge_at(x).vertex->Some_0;
        assert(part_vertex(c, faces, len, w));
        assert(VertexID::spec_new(w.index()) == w);
        assert(sub.vertex_map().dom().contains(w.index()));
        let x2 = choose|x2: HalfEdgeID|
            #[trigger] in_faces(c, faces, len, x2) && c.vertex_of(Some(x2)) == Some(VertexID::spec_new(w.index()))
                && sub.vertex_map()[w.index()] == (Vertex { halfedge: c.next_of(Some(x2)) });
        lemma_part_inner(c, faces, sub, x2);
        let g = c.halfedge_at(x).face->Some_0;
        let b = choose|b: int| 0 <= b < faces.len() && faces[b] == g;
        assert(FaceID::spec_new(g.index()) == g);
        assert(sub.has_face(g));
        assert(sub.in_triangle(x, g));
    } else {
        let y = t;
        assert(in_faces(c, faces, len, y));
        lemma_part_inner(c, faces, sub, y);
        assert(c.halfedge_at(y).twin == Some(x));
        let n = c.halfedge_at(y).next->Some_0;
        let m = c.halfedge_at(n).next->Some_0;
        lemma_part_inner(c, faces, sub, n);
        lemma_part_inner(c, faces, sub, m);
        let w = c.halfedge_at(m).vertex->Some_0;
        assert(c.halfedge_at(x).vertex == Some(w));
        assert(part_vertex(c, faces, len, w));
        assert(VertexID::spec_new(w.index()) == w);
        assert(sub.vertex_map().dom().contains(w.index()));
        let x2 = choose|x2: HalfEdgeID|
            #[trigger] in_faces(c, faces, len, x2) && c.vertex_of(Some(x2)) == Some(VertexID::spec_new(w.index()))
                && sub.vertex_map()[w.index()] == (Vertex { halfedge: c.next_of(Some(x2)) });
        lemma_part_inner(c, faces, sub, x2);
        // where the part keeps the next halfedges of the twin, it starts where it did
        let p = sub.halfedge_at(x).next;
        if p is Some {
            let p1 = p->Some_0;
            assert(c.halfedge_at(x).next == Some(p1));
            if sub.has_halfedge(p1) && sub.halfedge_at(p1).next is Some {
                assert(HalfEdgeID::spec_new(p1.index()) == p1);
                let q1 = sub.halfedge_at(p1).next->Some_0;
                assert(c.halfedge_at(p1).next == Some(q1));
                if sub.has_halfedge(q1) {
                    assert(HalfEdgeID::spec_new(q1.index()) == q1);
                    assert(sub.halfedge_at(q1).vertex == c.halfedge_at(q1).vertex);
                }
            }
        }
    }
}

/// A vertex of the part of a valid mesh made of some of its faces is consistent there.
proof fn lemma_part_vertex_ok(c: ConnectivityInfo, faces: Seq<FaceID>, sub: ConnectivityInfo, v: VertexID)
    requires
        c.is_valid(),
        faces_closed(c),
        forall|i: int| 0 <= i < faces.len() ==> #[trigger] c.has_face(faces[i]),
        sub.face_map() == part_faces(c, faces),
        sub.halfedge_map() == part_halfedges(c, faces),
        forall|k: usize| #[trigger] sub.vertex_map().dom().contains(k) <==> part_vertex(c, faces, faces.len() as int, VertexID::spec_new(k)),
        forall|k: usize|
            #[trigger] sub.vertex_map().dom().contains(k) ==> exists|x: HalfEdgeID|
                #[trigger] in_faces(c, faces, faces.len() as int, x) && c.vertex_of(Some(x)) == Some(VertexID::spec_new(k))
                    && sub.vertex_map()[k] == (Vertex { halfedge: c.next_of(Some(x)) }),
        sub.has_vertex(v),
    ensures
        sub.vertex_ok(v),
{
    let len = faces.len() as int;
    assert(VertexID::spec_new(v.index()) == v);
    let x = choose|x: HalfEdgeID|
        #[trigger] in_faces(c, faces, len, x) && c.vertex_of(Some(x)) == Some(VertexID::spec_new(v.index()))
            && sub.vertex_map()[v.index()] == (Vertex { halfedge: c.next_of(Some(x)) });
    lemma_part_inner(c, faces, sub, x);
    let n = c.halfedge_at(x).next->Some_0;
    lemma_part_inner(c, faces, sub, n);
    lemma_part_twin(c, faces, sub, n);
}

/// A face of the part of a valid mesh made of some of its faces is consistent there.
proof fn lemma_part_face_ok(c: ConnectivityInfo, faces: Seq<FaceID>, sub: ConnectivityInfo, g: FaceID)
    requires
        c.is_valid(),
        faces_closed(c),
        forall|i: int| 0 <= i < faces.len() ==> #[trigger] c.has_face(faces[i]),
        sub.face_map() == part_faces(c, faces),
        sub.halfedge_map() == part_halfedges(c, faces),
        forall|k: usize| #[trigger] sub.vertex_map().dom().contains(k) <==> part_vertex(c, faces, faces.len() as int, VertexID::spec_new(k)),
        forall|k: usize|
            #[trigger] sub.vertex_map().dom().contains(k) ==> exists|x: HalfEdgeID|
                #[trigger] in_faces(c, faces, faces.len() as int, x) && c.vertex_of(Some(x)) == Some(VertexID::spec_new(k))
                    && sub.vertex_map()[k] == (Vertex { halfedge: c.next_of(Some(x)) }),
        sub.has_face(g),
    ensures
        sub.face_ok(g),
{
    let len = faces.len() as int;
    assert(FaceID::spec_new(g.index()) == g);
    let b = choose|b: int| 0 <= b < faces.len() && faces[b] == g;
    assert(c.has_face(faces[b]));
    c.lemma_valid_face(g);
    let h0 = c.face_at(g).halfedge->Some_0;
    assert(sub.face_at(g) == c.face_at(g));
    assert(on_face(c, faces[b], h0));
    assert(in_faces(c, faces, len, h0));
    lemma_part_inner(c, faces, sub, h0);
}

/// The part of a valid mesh made of some of its faces is valid, where every halfedge that
/// bounds a face is one of that face's three halfedges.
pub proof fn lemma_part_valid(c: ConnectivityInfo, faces: Seq<FaceID>, sub: ConnectivityInfo)
    requires
        c.is_valid(),
        faces_closed(c),
        forall|i: int| 0 <= i < faces.len() ==> #[trigger] c.has_face(faces[i]),
        sub.face_map() == part_faces(c, faces),
        sub.halfedge_map() == part_halfedges(c, faces),
        forall|k: usize| #[trigger] sub.vertex_map().dom().contains(k) <==> part_vertex(c, faces, faces.len() as int, VertexID::spec_new(k)),
        forall|k: usize|
            #[trigger] sub.vertex_map().dom().contains(k) ==> exists|x: HalfEdgeID|
                #[trigger] in_faces(c, faces, faces.len() as int, x) && c.vertex_of(Some(x)) == Some(VertexID::spec_new(k))
                    && sub.vertex_map()[k] == (Vertex { halfedge: c.next_of(Some(x)) }),
    ensures
        sub.is_valid(),
{
    assert forall|x: HalfEdgeID| #[trigger] sub.has_halfedge(x) implies sub.twin_ok(x) && sub.halfedge_ok(x) by {
        lemma_part_halfedge_ok(c, faces, sub, x);
    }
    assert forall|v: VertexID| #[trigger] sub.has_vertex(v) implies sub.vertex_ok(v) by {
        lemma_part_vertex_ok(c, faces, sub, v);
    }
    assert forall|g: FaceID| #[trigger] sub.has_face(g) implies sub.face_ok(g) by {
        lemma_part_face_ok(c, faces, sub, g);
    }
    sub.lemma_valid_intro();
}

/// Whether `part` is the part of `mesh` made of `faces`: their faces, halfedges and twins
/// (see `part_halfedges`), the vertices their halfedges point to, each given the halfedge
/// after one of the halfedges of the faces that point to it, and those vertices' positions
/// and normals.
pub open spec fn is_part<P: Copy>(mesh: DynamicMesh<P>, faces: Seq<FaceID>, part: DynamicMesh<P>) -> bool {
    let c = mesh.connectivity();
    let len = faces.len() as int;
    let vm = part.connectivity().vertex_map();
    &&& part.connectivity().face_map() == part_faces(c, faces)
    &&& part.connectivity().halfedge_map() == part_halfedges(c, faces)
    &&& forall|k: usize| #[trigger] vm.dom().contains(k) <==> part_vertex(c, faces, len, VertexID::spec_new(k))
    &&& forall|k: usize|
        #[trigger] vm.dom().contains(k) ==> exists|x: HalfEdgeID|
            #[trigger] in_faces(c, faces, len, x) && c.vertex_of(Some(x)) == Some(VertexID::spec_new(k)) && vm[k] == (
            Vertex { halfedge: c.next_of(Some(x)) })
    &&& part.position_map() == Map::new(|k: usize| vm.dom().contains(k), |k: usize| mesh.position_map()[k])
    &&& part.normal_map() == Map::new(
        |k: usize| vm.dom().contains(k) && mesh.normal_map().dom().contains(k),
        |k: usize| mesh.normal_map()[k],
    )
}

/// Whether splitting along `edges` starts from the faces `f1` and `f2` (see `split_start`)
/// and gives the components `cc1` and `cc2` of those faces, bounded by `edges` (empty where
/// there is no face).
pub open spec fn split_plan(
    c: ConnectivityInfo,
    edges: Seq<HalfEdgeID>,
    f1: Option<FaceID>,
    f2: Option<FaceID>,
    cc1: Seq<FaceID>,
    cc2: Seq<FaceID>,
) -> bool {
    &&& split_start(c, edges, f1, f2)
    &&& match f1 {
        Some(f) => is_component(c, edges, cc1, f),
        None => cc1.len() == 0,
    }
    &&& match f2 {
        Some(f) => is_component(c, edges, cc2, f),
        None => cc2.len() == 0,
    }
}

/// Whether halfedge `h` is a stored halfedge where the mesh is to be split.
pub open spec fn at_split(c: ConnectivityInfo, edges: Seq<HalfEdgeID>, h: HalfEdgeID) -> bool {
    c.has_halfedge(h) && edges.contains(h)
}

/// Whether halfedge `h` and its twin both bound faces.
pub open spec fn two_sided(c: ConnectivityInfo, h: HalfEdgeID) -> bool {
    c.face_of(Some(h)) is Some && c.face_of(c.twin_of(Some(h))) is Some
}

/// Whether `(f1, f2)` are the faces on the two sides of the halfedge where splitting starts:
/// the splitting halfedge of smallest index with faces on both sides, or else the splitting
/// halfedge of largest index, or none where no halfedge is at the split.
pub open spec fn split_start(c: ConnectivityInfo, edges: Seq<HalfEdgeID>, f1: Option<FaceID>, f2: Option<FaceID>) -> bool {
    let sides = |h: HalfEdgeID| f1 == c.face_of(Some(h)) && f2 == c.face_of(c.twin_of(Some(h)));
    if exists|h: HalfEdgeID| #[trigger] at_split(c, edges, h) && two_sided(c, h) {
        exists|h: HalfEdgeID|
            #[trigger] at_split(c, edges, h) && two_sided(c, h) && sides(h) && forall|g: HalfEdgeID|
                #[trigger] at_split(c, edges, g) && two_sided(c, g) ==> h.index() <= g.index()
    } else if exists|h: HalfEdgeID| #[trigger] at_split(c, edges, h) {
        exists|h: HalfEdgeID|
            #[trigger] at_split(c, edges, h) && sides(h) && forall|g: HalfEdgeID| #[trigger] at_split(c, edges, g) ==> g.index() <= h.index()
    } else {
        f1 is None && f2 is None
    }
}


/// Every halfedge that bounds a face points to a vertex and continues with a halfedge that
/// bounds a face.
#[verifier::opaque]
pub open spec fn faced_next_faced(c: ConnectivityInfo) -> bool {
    forall|x: HalfEdgeID|
        #[trigger] c.has_halfedge(x) && c.halfedge_at(x).face is Some ==> {
            &&& c.halfedge_at(x).vertex is Some
            &&& c.halfedge_at(x).next is Some
            &&& c.face_of(c.halfedge_at(x).next) is Some
        }
}

/// What a mesh whose faced halfedges continue in faces says of one of its faced halfedges.
pub proof fn lemma_faced(c: ConnectivityInfo, x: HalfEdgeID)
    requires
        faced_next_faced(c),
        c.has_halfedge(x),
        c.halfedge_at(x).face is Some,
    ensures
        c.halfedge_at(x).vertex is Some,
        c.halfedge_at(x).next is Some,
        c.face_of(c.halfedge_at(x).next) is Some,
{
    reveal(faced_next_faced);
}

/// A mesh whose missing twins can be found: twins ready and next halfedges stored (see
/// `ConnectivityInfo::twins_ready`), no halfedge outside a face has a next halfedge, and the
/// next halfedge of a halfedge in a face is in a face.
pub open spec fn twinnable(c: ConnectivityInfo) -> bool {
    &&& c.twins_ready()
    &&& c.next_closed()
    &&& boundary_open(c)
    &&& faced_next_faced(c)
}

/// A valid mesh where no halfedge outside a face has a next halfedge is one whose missing
/// twins can be found.
pub proof fn lemma_valid_twinnable(c: ConnectivityInfo)
    requires
        c.is_valid(),
        boundary_open(c),
    ensures
        twinnable(c),
{
    assert forall|h: HalfEdgeID| #[trigger] c.has_halfedge(h) implies (if c.halfedge_at(h).twin is None {
        c.halfedge_at(h).vertex is Some && c.origin(h) is Some
    } else {
        c.twin_ok(h)
    }) by {
        c.lemma_valid_halfedge(h);
    }
    assert forall|h: HalfEdgeID| #[trigger] c.has_halfedge(h) && c.halfedge_at(h).next is Some implies c.has_halfedge(
        c.halfedge_at(h).next->Some_0,
    ) by {
        c.lemma_valid_halfedge(h);
    }
    assert(faced_next_faced(c)) by {
        reveal(faced_next_faced);
        assert forall|x: HalfEdgeID| #[trigger] c.has_halfedge(x) && c.halfedge_at(x).face is Some implies {
            &&& c.halfedge_at(x).vertex is Some
            &&& c.halfedge_at(x).next is Some
            &&& c.face_of(c.halfedge_at(x).next) is Some
        } by {
            c.lemma_valid_halfedge(x);
        }
    }
}

/// Removing a halfedge outside a face whose twin is in a face keeps the missing twins of a
/// mesh findable.
pub proof fn lemma_removal_twinnable(before: ConnectivityInfo, after: ConnectivityInfo, f: HalfEdgeID)
    requires
        twinnable(before),
        before.has_halfedge(f),
        before.halfedge_at(f).face is None,
        before.halfedge_at(f).twin is Some,
        before.face_of(before.halfedge_at(f).twin) is Some,
        after.halfedge_map() == without_halfedge(before.halfedge_map(), f),
        after.vertex_map() == before.vertex_map(),
        after.face_map() == before.face_map(),
    ensures
        twinnable(after),
        forall|x: HalfEdgeID| #[trigger] after.has_halfedge(x) <==> before.has_halfedge(x) && x != f,
{
    let t = before.halfedge_at(f).twin->Some_0;
    assert(before.twin_ok(f));
    assert(t.index() != f.index());
    assert forall|x: HalfEdgeID| #[trigger] after.has_halfedge(x) <==> before.has_halfedge(x) && x != f by {}
    assert forall|x: HalfEdgeID| #[trigger] before.has_halfedge(x) && x != f && x != t implies after.halfedge_at(x) == before.halfedge_at(x) by {
        assert(x.index() != f.index() && x.index() != t.index());
    }
    assert(after.halfedge_at(t) == HalfEdge { twin: None, ..before.halfedge_at(t) });
    // origins of halfedges that stay are unchanged
    assert forall|x: HalfEdgeID| #[trigger] after.has_halfedge(x) implies after.origin(x) == before.origin(x) by {
        let n = before.halfedge_at(x).next;
        if n is Some {
            assert(before.halfedge_at(x).face is Some);
            lemma_faced(before, x);
            let n1 = n->Some_0;
            assert(before.has_halfedge(n1));
            assert(n1 != f);
            lemma_faced(before, n1);
            let m = before.halfedge_at(n1).next;
            if m is Some {
                let m1 = m->Some_0;
                assert(before.has_halfedge(m1));
                assert(m1 != f);
            }
        }
    }
    assert forall|h: HalfEdgeID|
        #[trigger] after.has_halfedge(h) && after.halfedge_at(h).next is Some implies after.has_halfedge(
            after.halfedge_at(h).next->Some_0,
        ) by {
        assert(before.halfedge_at(h).face is Some);
        lemma_faced(before, h);
        assert(before.has_halfedge(before.halfedge_at(h).next->Some_0));
    }
    assert forall|x: HalfEdgeID| #[trigger] after.has_halfedge(x) && after.halfedge_at(x).face is None implies after.halfedge_at(x).next is None by {
        assert(before.has_halfedge(x));
    }
    assert forall|h: HalfEdgeID| #[trigger] after.has_halfedge(h) implies (if after.halfedge_at(h).twin is None {
        after.halfedge_at(h).vertex is Some && after.origin(h) is Some
    } else {
        after.twin_ok(h)
    }) by {
        if h == t {
            assert(before.halfedge_at(t).face is Some);
            lemma_faced(before, t);
            let n = before.halfedge_at(t).next->Some_0;
            assert(before.has_halfedge(n));
            lemma_faced(before, n);
            let m = before.halfedge_at(n).next->Some_0;
            assert(before.has_halfedge(m));
            lemma_faced(before, m);
            assert(m != f && n != f);
        } else if before.halfedge_at(h).twin is Some {
            assert(before.twin_ok(h));
            let y = before.halfedge_at(h).twin->Some_0;
            if y == f {
                assert(h == t);
            }
            if y == t {
                assert(before.twin_ok(t));
            }
        }
    }
    assert(faced_next_faced(after)) by {
        reveal(faced_next_faced);
        assert forall|x: HalfEdgeID| #[trigger] after.has_halfedge(x) && after.halfedge_at(x).face is Some implies {
            &&& after.halfedge_at(x).vertex is Some
            &&& after.halfedge_at(x).next is Some
            &&& after.face_of(after.halfedge_at(x).next) is Some
        } by {
            lemma_faced(before, x);
            let n = before.halfedge_at(x).next->Some_0;
            assert(before.has_halfedge(n));
            assert(n != f);
        }
    }
}

/// Adding a face keeps the missing twins of a mesh findable.
#[verifier::rlimit(40)]
pub proof fn lemma_face_created_twinnable(
    before: ConnectivityInfo,
    after: ConnectivityInfo,
    f: FaceID,
    v1: VertexID,
    v2: VertexID,
    v3: VertexID,
)
    requires
        before.wf(),
        twinnable(before),
        before.halfedge_map().dom().len() < usize::MAX / 2 - 3,
        face_created(before.state(), after.state(), f, v1, v2, v3),
    ensures
        twinnable(after),
        after.halfedge_map().dom().len() == before.halfedge_map().dom().len() + 3,
{
    before.lemma_finite();
    let d = before.halfedge_map().dom();
    let (h1, h2, h3) = new_face_halfedge_indices(d);
    lemma_fresh_index(d);
    assert(d.insert(h1).len() == d.len() + 1);
    lemma_fresh_index(d.insert(h1));
    assert(d.insert(h1).insert(h3).len() == d.len() + 2);
    lemma_fresh_index(d.insert(h1).insert(h3));
    let e1 = HalfEdgeID::spec_new(h1);
    let e2 = HalfEdgeID::spec_new(h2);
    let e3 = HalfEdgeID::spec_new(h3);
    assert(h1 != h2 && h1 != h3 && h2 != h3);
    assert(after.halfedge_at(e1) == face_halfedge(v2, e2, f));
    assert(after.halfedge_at(e2) == face_halfedge(v3, e3, f));
    assert(after.halfedge_at(e3) == face_halfedge(v1, e1, f));
    assert(after.halfedge_map().dom() =~= d.insert(h1).insert(h3).insert(h2));
    assert forall|h: HalfEdgeID| #[trigger] before.has_halfedge(h) implies after.has_halfedge(h)
        && after.halfedge_at(h) == before.halfedge_at(h) && after.origin(h) == before.origin(h) by {
        assert(h.index() != h1 && h.index() != h2 && h.index() != h3);
        let n = before.halfedge_at(h).next;
        if n is Some {
            let n1 = n->Some_0;
            assert(before.has_halfedge(n1));
            assert(n1.index() != h1 && n1.index() != h2 && n1.index() != h3);
            let m = before.halfedge_at(n1).next;
            if m is Some {
                let m1 = m->Some_0;
                assert(before.has_halfedge(m1));
                assert(m1.index() != h1 && m1.index() != h2 && m1.index() != h3);
            }
        }
    }
    assert(after.origin(e1) == Some(v1));
    assert(after.origin(e2) == Some(v2));
    assert(after.origin(e3) == Some(v3));
    assert forall|h: HalfEdgeID| #[trigger] after.has_halfedge(h) implies (if after.halfedge_at(h).twin is None {
        after.halfedge_at(h).vertex is Some && after.origin(h) is Some
    } else {
        after.twin_ok(h)
    }) by {
        if h != e1 && h != e2 && h != e3 {
            assert(before.has_halfedge(h));
            if before.halfedge_at(h).twin is Some {
                assert(before.twin_ok(h));
            }
        }
    }
    assert forall|h: HalfEdgeID|
        #[trigger] after.has_halfedge(h) && after.halfedge_at(h).next is Some implies after.has_halfedge(
            after.halfedge_at(h).next->Some_0,
        ) by {
        if h != e1 && h != e2 && h != e3 {
            assert(before.has_halfedge(h));
        }
    }
    assert(faced_next_faced(after)) by {
        reveal(faced_next_faced);
        assert forall|x: HalfEdgeID| #[trigger] after.has_halfedge(x) && after.halfedge_at(x).face is Some implies {
            &&& after.halfedge_at(x).vertex is Some
            &&& after.halfedge_at(x).next is Some
            &&& after.face_of(after.halfedge_at(x).next) is Some
        } by {
            if x != e1 && x != e2 && x != e3 {
                assert(before.has_halfedge(x));
                lemma_faced(before, x);
                assert(before.has_halfedge(before.halfedge_at(x).next->Some_0));
            }
        }
    }
    assert forall|x: HalfEdgeID| #[trigger] after.has_halfedge(x) && after.halfedge_at(x).face is None implies after.halfedge_at(x).next is None by {
        if x != e1 && x != e2 && x != e3 {
            assert(before.has_halfedge(x));
        }
    }
}

/// A mesh whose halfedges are those of a mesh whose missing twins can be found is one too.
pub proof fn lemma_twinnable_same_halfedges(c1: ConnectivityInfo, c2: ConnectivityInfo)
    requires
        twinnable(c1),
        c1.halfedge_map() == c2.halfedge_map(),
    ensures
        twinnable(c2),
{
    reveal(faced_next_faced);
    assert forall|h: HalfEdgeID| #[trigger] c2.has_halfedge(h) implies (if c2.halfedge_at(h).twin is None {
        c2.halfedge_at(h).vertex is Some && c2.origin(h) is Some
    } else {
        c2.twin_ok(h)
    }) by {
        assert(c1.has_halfedge(h));
    }
    assert forall|h: HalfEdgeID|
        #[trigger] c2.has_halfedge(h) && c2.halfedge_at(h).next is Some implies c2.has_halfedge(c2.halfedge_at(h).next->Some_0) by {
        assert(c1.has_halfedge(h));
    }
    assert forall|x: HalfEdgeID| #[trigger] c2.has_halfedge(x) && c2.halfedge_at(x).face is None implies c2.halfedge_at(x).next is None by {
        assert(c1.has_halfedge(x));
    }
    assert forall|x: HalfEdgeID| #[trigger] c2.has_halfedge(x) && c2.halfedge_at(x).face is Some implies {
        &&& c2.halfedge_at(x).vertex is Some
        &&& c2.halfedge_at(x).next is Some
        &&& c2.face_of(c2.halfedge_at(x).next) is Some
    } by {
        assert(c1.has_halfedge(x));
    }
}

/// The halfedge of the edge of `h` that bounds no face: `h` itself unless it bounds one.
pub open spec fn faceless_side(c: ConnectivityInfo, h: HalfEdgeID) -> HalfEdgeID {
    if c.face_of(Some(h)) is Some {
        c.twin_of(Some(h))->Some_0
    } else {
        h
    }
}

/// `head`, the text of `a`, `middle`, the text of `b`, then `tail`.
pub fn pair_text(head: &str, a: String, middle: &str, b: String, tail: &str) -> (r: String)
    ensures
        r@ == head@ + a@ + middle@ + b@ + tail@,
{
    let mut s = String::from_str(head);
    s.append(a.as_str());
    s.append(middle);
    s.append(b.as_str());
    s.append(tail);
    proof {
        assert(s@ =~= head@ + a@ + middle@ + b@ + tail@);
    }
    s
}

/// The vertex of this mesh that a stitch joins to vertex `v` of the other mesh.
pub open spec fn stitch_of(s: Seq<(VertexID, VertexID)>, v: VertexID) -> Option<VertexID> {
    if exists|i: int| 0 <= i < s.len() && #[trigger] s[i].0 == v {
        let i = choose|i: int| 0 <= i < s.len() && #[trigger] s[i].0 == v;
        Some(s[i].1)
    } else {
        None
    }
}

/// What checking the stitches finds.
pub enum StitchCheck {
    /// The meshes can be merged; the mesh is turned the other way round first where `flip`.
    Fine { flip: bool },
    /// An edge to stitch along has faces on both sides.
    NonManifold,
    /// The other mesh has no edge between the two stitched vertices where this mesh has one.
    Unoriented,
}

/// What checking the stitch pairs finds, from pair `(i, j)` on, in order: for each pair of
/// stitches whose vertices this mesh `c` joins by an edge, the edge must have a side without
/// a face; at the first such pair, the other mesh `o` must join the two vertices too, by an
/// edge with a side without a face, and the two meshes have the same orientation where the
/// vertex of this mesh stitched to where that side of the other edge points is not where
/// the side of this edge without a face points. `oriented` is what that comparison gave, if
/// it has been made.
pub open spec fn stitch_check(
    c: ConnectivityInfo,
    o: ConnectivityInfo,
    s: Seq<(VertexID, VertexID)>,
    i: int,
    j: int,
    oriented: Option<bool>,
) -> StitchCheck
    decreases s.len() - i, s.len() - j,
{
    if i < 0 || j < 0 || i >= s.len() {
        StitchCheck::Fine { flip: oriented == Some(false) }
    } else if j >= s.len() {
        stitch_check(c, o, s, i + 1, 0, oriented)
    } else {
        match c.connection(s[i].1, s[j].1) {
            None => stitch_check(c, o, s, i, j + 1, oriented),
            Some(e) => if two_sided(c, e) {
                StitchCheck::NonManifold
            } else if oriented is None {
                match o.connection(s[i].0, s[j].0) {
                    None => StitchCheck::Unoriented,
                    Some(e2) => if two_sided(o, e2) {
                        StitchCheck::NonManifold
                    } else {
                        let same = stitch_of(s, o.vertex_of(Some(faceless_side(o, e2)))->Some_0) != c.vertex_of(
                            Some(faceless_side(c, e)),
                        );
                        stitch_check(c, o, s, i, j + 1, Some(same))
                    },
                }
            } else {
                stitch_check(c, o, s, i, j + 1, oriented)
            },
        }
    }
}

/// Whether halfedge `h` is the side without a face of an edge joining the vertices of two
/// stitches among the pairs before pair `(i, j)`.
pub open spec fn stitched_side(c: ConnectivityInfo, s: Seq<(VertexID, VertexID)>, i: int, j: int, h: HalfEdgeID) -> bool {
    exists|a: int, b: int|
        0 <= a < s.len() && 0 <= b < s.len() && (a < i || (a == i && b < j)) && #[trigger] c.connection(s[a].1, s[b].1)
            is Some && h == faceless_side(c, c.connection(s[a].1, s[b].1)->Some_0)
}

impl<P: Copy> DynamicMesh<P> {
    /// Makes every halfedge that points to `vertex_id2` point to `vertex_id1` instead, and
    /// removes `vertex_id2`. Gives back `vertex_id1`.
    pub fn merge_vertices(&mut self, vertex_id1: &VertexID, vertex_id2: &VertexID) -> (r: Result<VertexID, Error>)
        requires
            old(self).wf(),
            forall|h: HalfEdgeID| #[trigger] old(self).connectivity().has_halfedge(h) ==> old(self).connectivity().halfedge_at(h).vertex is Some,
        ensures
            final(self).wf(),
            r == Ok::<VertexID, Error>(*vertex_id1),
            final(self).connectivity().halfedge_map() == redirected(old(self).connectivity().halfedge_map(), *vertex_id2, *vertex_id1),
            final(self).connectivity().vertex_map() == if vertex_id2.spec_is_null() {
                old(self).connectivity().vertex_map()
            } else {
                old(self).connectivity().vertex_map().remove(vertex_id2.index())
            },
            final(self).connectivity().face_map() == old(self).connectivity().face_map(),
            final(self).position_map() == old(self).position_map(),
            final(self).normal_map() == old(self).normal_map(),
            old(self).connectivity().is_valid() && old(self).connectivity().has_vertex(*vertex_id1) && old(
                self,
            ).connectivity().vertex_at(*vertex_id1).halfedge is Some && *vertex_id1 != *vertex_id2
                ==> final(self).connectivity().is_valid(),
    {
        let ghost c = self.connectivity();
        let halfedges = self.halfedge_iterator();
        let mut i: usize = 0;
        while i < halfedges.len()
            invariant
                self.wf(),
                i <= halfedges@.len(),
                forall|a: int, b: int| 0 <= a < b < halfedges@.len() ==> halfedges@[a].index() < halfedges@[b].index(),
                forall|a: int| 0 <= a < halfedges@.len() ==> #[trigger] c.has_halfedge(halfedges@[a]),
                forall|h: HalfEdgeID| #[trigger] c.has_halfedge(h) ==> halfedges@.contains(h),
                forall|h: HalfEdgeID| #[trigger] c.has_halfedge(h) ==> c.halfedge_at(h).vertex is Some,
                self.connectivity().vertex_map() == c.vertex_map(),
                self.connectivity().face_map() == c.face_map(),
                self.connectivity().halfedge_map().dom() == c.halfedge_map().dom(),
                forall|a: int|
                    0 <= a < i ==> #[trigger] self.connectivity().halfedge_map()[halfedges@[a].index()] == redirected(
                        c.halfedge_map(),
                        *vertex_id2,
                        *vertex_id1,
                    )[halfedges@[a].index()],
                forall|a: int|
                    i <= a < halfedges@.len() ==> #[trigger] self.connectivity().halfedge_map()[halfedges@[a].index()]
                        == c.halfedge_map()[halfedges@[a].index()],
                self.position_map() == old(self).position_map(),
                self.normal_map() == old(self).normal_map(),
            decreases halfedges@.len() - i,
        {
            let halfedge_id = halfedges[i];
            proof {
                assert(c.has_halfedge(halfedges@[i as int]));
                assert(self.connectivity().halfedge_map()[halfedges@[i as int].index()] == c.halfedge_map()[halfedges@[i as int].index()]);
            }
            let walker = self.walker_from_halfedge(&halfedge_id);
            if walker.vertex_id().unwrap() == *vertex_id2 {
                self.connectivity_info_mut().set_halfedge_vertex(&halfedge_id, *vertex_id1);
            }
            proof {
                assert forall|a: int| 0 <= a < halfedges@.len() && a != i implies halfedges@[a].index() != halfedge_id.index() by {
                    if a < i {
                        assert(halfedges@[a].index() < halfedges@[i as int].index());
                    } else {
                        assert(halfedges@[i as int].index() < halfedges@[a].index());
                    }
                }
            }
            i = i + 1;
        }
        proof {
            let target = redirected(c.halfedge_map(), *vertex_id2, *vertex_id1);
            assert forall|k: usize| #[trigger] self.connectivity().halfedge_map().dom().contains(k) implies self.connectivity().halfedge_map()[k] == target[k] by {
                assert(c.has_halfedge(HalfEdgeID::spec_new(k)));
                assert(halfedges@.contains(HalfEdgeID::spec_new(k)));
                let a = choose|a: int| 0 <= a < halfedges@.len() && halfedges@[a] == HalfEdgeID::spec_new(k);
                assert(self.connectivity().halfedge_map()[halfedges@[a].index()] == target[halfedges@[a].index()]);
            }
            assert(self.connectivity().halfedge_map() =~= target);
        }
        self.connectivity_info_mut().remove_vertex(vertex_id2);
        proof {
            if c.is_valid() && c.has_vertex(*vertex_id1) && c.vertex_at(*vertex_id1).halfedge is Some && *vertex_id1 != *vertex_id2 {
                lemma_merged_vertices_valid(c, self.connectivity(), *vertex_id1, *vertex_id2);
            }
        }
        Ok(*vertex_id1)
    }

    /// Merges the edges of two halfedges into one edge. An edge with one face keeps the
    /// halfedge that bounds the face; an edge with none keeps the halfedge that points where
    /// the halfedge kept on the other edge does, or else the twin of the given halfedge. The
    /// twins of the two kept halfedges are removed, the kept halfedges become twins, and the
    /// vertex each of them points to is given the other. Gives back the halfedge kept of the
    /// first edge. Refused, leaving the mesh as it was, where an edge with faces on both sides
    /// would be merged with an edge that has a face. Two edges on the same two vertices of a
    /// valid mesh, one of them with no face or their faces on opposite sides, merge into a
    /// valid mesh: the halfedges kept run opposite ways.
    #[verifier::rlimit(40)]
    pub fn merge_halfedges(&mut self, halfedge_id1: &HalfEdgeID, halfedge_id2: &HalfEdgeID) -> (r: Result<HalfEdgeID, Error>)
        requires
            old(self).wf(),
            old(self).connectivity().is_valid(),
            old(self).connectivity().has_halfedge(*halfedge_id1),
            old(self).connectivity().has_halfedge(*halfedge_id2),
            *halfedge_id2 != *halfedge_id1,
            Some(*halfedge_id2) != old(self).connectivity().twin_of(Some(*halfedge_id1)),
            !(edge_alone(old(self).connectivity(), *halfedge_id1) && edge_interior(old(self).connectivity(), *halfedge_id2)),
            !(edge_interior(old(self).connectivity(), *halfedge_id1) && edge_alone(old(self).connectivity(), *halfedge_id2)),
        ensures
            final(self).wf(),
            r is Err <==> merge_refused(old(self).connectivity(), *halfedge_id1, *halfedge_id2),
            r is Err ==> *final(self) == *old(self) && r->Err_0 is FailedToMergeVertices,
            r is Ok ==> r == Ok::<HalfEdgeID, Error>(merge_survivors(old(self).connectivity(), *halfedge_id1, *halfedge_id2).0),
            r is Ok ==> final(self).connectivity().state() == halfedges_merged(old(self).connectivity(), *halfedge_id1, *halfedge_id2),
            r is Ok && survivors_meet(old(self).connectivity(), *halfedge_id1, *halfedge_id2) ==> final(self).connectivity().is_valid(),
            ({
                let c = old(self).connectivity();
                r is Ok && same_ends(c, *halfedge_id1, *halfedge_id2) && (edge_alone(c, *halfedge_id1) || edge_alone(
                    c,
                    *halfedge_id2,
                ) || c.vertex_of(Some(faced_side(c, *halfedge_id1))) != c.vertex_of(Some(faced_side(c, *halfedge_id2))))
                    ==> final(self).connectivity().is_valid()
            }),
            ({
                let c = old(self).connectivity();
                r matches Ok(kept) ==> (kept == *halfedge_id1 || Some(kept) == c.twin_of(Some(*halfedge_id1))) && (!edge_alone(
                    c,
                    *halfedge_id1,
                ) ==> c.face_of(Some(kept)) is Some)
            }),
            final(self).position_map() == old(self).position_map(),
            final(self).normal_map() == old(self).normal_map(),
    {
        let ghost c = self.connectivity();
        let ghost t1 = c.halfedge_at(*halfedge_id1).twin->Some_0;
        let ghost t2 = c.halfedge_at(*halfedge_id2).twin->Some_0;
        proof {
            c.lemma_valid_halfedge(*halfedge_id1);
            c.lemma_valid_halfedge(*halfedge_id2);
            c.lemma_valid_halfedge(t1);
            c.lemma_valid_halfedge(t2);
        }
        let mut walker1 = self.walker_from_halfedge(halfedge_id1);
        let mut walker2 = self.walker_from_halfedge(halfedge_id2);

        let edge1_alone = walker1.face_id().is_none() && walker1.twin().face_id().is_none();
        let edge1_interior = walker1.face_id().is_some() && walker1.twin().face_id().is_some();
        let edge1_boundary = !edge1_alone && !edge1_interior;

        let edge2_alone = walker2.face_id().is_none() && walker2.twin().face_id().is_none();
        let edge2_interior = walker2.face_id().is_some() && walker2.twin().face_id().is_some();
        let edge2_boundary = !edge2_alone && !edge2_interior;

        if edge1_interior && !edge2_alone || edge2_interior && !edge1_alone {
            return Err(
                Error::FailedToMergeVertices {
                    message: pair_text(
                        "Merging halfedges ",
                        halfedge_id1.to_string(),
                        " and ",
                        halfedge_id2.to_string(),
                        " will create a non-manifold mesh",
                    ),
                },
            );
        }

        let mut halfedge_to_remove1: Option<HalfEdgeID> = None;
        let mut halfedge_to_remove2: Option<HalfEdgeID> = None;
        let mut halfedge_to_survive1: Option<HalfEdgeID> = None;
        let mut halfedge_to_survive2: Option<HalfEdgeID> = None;
        let mut vertex_id1: Option<VertexID> = None;
        let mut vertex_id2: Option<VertexID> = None;

        if edge1_boundary {
            if walker1.face_id().is_none() {
                walker1.twin();
            }
            halfedge_to_remove1 = walker1.twin_id();
            halfedge_to_survive1 = walker1.halfedge_id();
            vertex_id1 = walker1.vertex_id();
        }
        if edge2_boundary {
            if walker2.face_id().is_none() {
                walker2.twin();
            }
            halfedge_to_remove2 = walker2.twin_id();
            halfedge_to_survive2 = walker2.halfedge_id();
            vertex_id2 = walker2.vertex_id();
        }
        if edge1_alone {
            if edge2_interior {
                halfedge_to_remove1 = walker1.twin_id();
                halfedge_to_remove2 = walker1.halfedge_id();

                halfedge_to_survive1 = walker2.halfedge_id();
                vertex_id1 = walker2.vertex_id();
                walker2.twin();
                halfedge_to_survive2 = walker2.halfedge_id();
                vertex_id2 = walker2.vertex_id();
            } else {
                if vertex_id2 == walker1.vertex_id() {
                    walker1.twin();
                }
                halfedge_to_remove1 = walker1.twin_id();
                halfedge_to_survive1 = walker1.halfedge_id();
                vertex_id1 = walker1.vertex_id();
            }
        }
        if edge2_alone {
            if edge1_interior {
                halfedge_to_remove1 = walker2.twin_id();
                halfedge_to_remove2 = walker2.halfedge_id();

                halfedge_to_survive1 = walker1.halfedge_id();
                vertex_id1 = walker1.vertex_id();
                walker1.twin();
                halfedge_to_survive2 = walker1.halfedge_id();
                vertex_id2 = walker1.vertex_id();
            } else {
                if vertex_id1 == walker2.vertex_id() {
                    walker2.twin();
                }
                halfedge_to_remove2 = walker2.twin_id();
                halfedge_to_survive2 = walker2.halfedge_id();
                vertex_id2 = walker2.vertex_id();
            }
        }
        let ghost (s1, s2) = merge_survivors(c, *halfedge_id1, *halfedge_id2);
        proof {
            assert(halfedge_to_survive1 == Some(s1));
            assert(halfedge_to_survive2 == Some(s2));
            assert(halfedge_to_remove1 == c.twin_of(Some(s1)));
            assert(halfedge_to_remove2 == c.twin_of(Some(s2)));
            assert(vertex_id1 == c.vertex_of(Some(s1)));
            assert(vertex_id2 == c.vertex_of(Some(s2)));
        }
        let remove1 = halfedge_to_remove1.unwrap();
        let remove2 = halfedge_to_remove2.unwrap();
        let survive1 = halfedge_to_survive1.unwrap();
        let survive2 = halfedge_to_survive2.unwrap();
        let vertex1 = vertex_id1.unwrap();
        let vertex2 = vertex_id2.unwrap();
        proof {
            c.lemma_valid_halfedge(s1);
            c.lemma_valid_halfedge(s2);
        }
        let info = self.connectivity_info_mut();
        info.remove_halfedge(&remove1);
        info.remove_halfedge(&remove2);
        info.set_halfedge_twin(survive1, survive2);
        info.set_vertex_halfedge(&vertex1, survive2);
        info.set_vertex_halfedge(&vertex2, survive1);
        proof {
            if same_ends(c, *halfedge_id1, *halfedge_id2) && (edge_alone(c, *halfedge_id1) || edge_alone(c, *halfedge_id2)
                || c.vertex_of(Some(faced_side(c, *halfedge_id1))) != c.vertex_of(Some(faced_side(c, *halfedge_id2)))) {
                lemma_lone_edge_survivors_meet(c, *halfedge_id1, *halfedge_id2);
            }
            if survivors_meet(c, *halfedge_id1, *halfedge_id2) {
                lemma_merged_halfedges_valid(c, self.connectivity(), *halfedge_id1, *halfedge_id2);
            }
        }
        Ok(survive1)
    }

    /// Copies halfedge `x` of one of the faces into `info`, gives the vertex it points to the
    /// halfedge after it, and copies its twin too where the twin bounds none of the faces;
    /// a twin that bounds a face left out is copied without its face and next halfedge.
    fn copy_face_halfedge(&self, info: &mut ConnectivityInfo, faces: &Vec<FaceID>, halfedge_id: HalfEdgeID)
        requires
            self.wf(),
            self.connectivity().is_valid(),
            self.connectivity().has_halfedge(halfedge_id),
            bounds_one_of(self.connectivity(), faces@, halfedge_id),
            old(info).wf(),
        ensures
            final(info).wf(),
            ({
                let c = self.connectivity();
                let t = c.twin_of(Some(halfedge_id))->Some_0;
                let hm1 = old(info).halfedge_map().insert(halfedge_id.index(), c.halfedge_at(halfedge_id));
                &&& final(info).halfedge_map() == if bounds_one_of(c, faces@, t) {
                    hm1
                } else {
                    hm1.insert(t.index(), part_halfedge(c, faces@, t))
                }
                &&& final(info).vertex_map() == old(info).vertex_map().insert(
                    c.vertex_of(Some(halfedge_id))->Some_0.index(),
                    Vertex { halfedge: c.next_of(Some(halfedge_id)) },
                )
                &&& final(info).face_map() == old(info).face_map()
            }),
    {
        let ghost c = self.connectivity();
        proof {
            c.lemma_valid_halfedge(halfedge_id);
            c.lemma_valid_halfedge(c.halfedge_at(halfedge_id).twin->Some_0);
            c.lemma_keys_small();
            assert(c.halfedge_map().dom().contains(halfedge_id.index()));
            assert(c.halfedge_map().dom().contains(c.halfedge_at(halfedge_id).twin->Some_0.index()));
            assert(c.vertex_map().dom().contains(c.halfedge_at(halfedge_id).vertex->Some_0.index()));
        }
        let mut walker = self.walker_from_halfedge(&halfedge_id);
        let halfedge = self.connectivity_info().halfedge(&halfedge_id).unwrap();
        info.add_halfedge(halfedge_id, halfedge);

        let vertex_id = walker.vertex_id().unwrap();
        let vertex = self.connectivity_info().vertex(&vertex_id).unwrap();
        info.add_vertex(vertex_id, vertex);
        info.set_vertex_halfedge(&vertex_id, walker.next_id().unwrap());

        walker.twin();
        match walker.face_id() {
            None => {
                let twin_id = walker.halfedge_id().unwrap();
                let twin = self.connectivity_info().halfedge(&twin_id).unwrap();
                info.add_halfedge(twin_id, twin);
            },
            Some(face_id) => {
                if !contains_face(faces, &face_id) {
                    let twin_id = walker.halfedge_id().unwrap();
                    let twin = self.connectivity_info().halfedge(&twin_id).unwrap();
                    info.add_halfedge(twin_id, HalfEdge { face: None, next: None, ..twin });
                }
            },
        }
    }

    /// The part of the mesh made of the given faces: their halfedges, the twins of those
    /// that bound none of the faces (a twin that bounds a face left out is kept without its
    /// face and next halfedge), the vertices their halfedges point to, and those vertices'
    /// positions and normals. Each vertex is given the halfedge after one of the halfedges
    /// of the faces that point to it.
    #[verifier::rlimit(60)]
    pub fn create_sub_mesh(&self, faces: &Vec<FaceID>) -> (r: DynamicMesh<P>)
        requires
            self.wf(),
            self.connectivity().is_valid(),
            forall|i: int| 0 <= i < faces@.len() ==> #[trigger] self.connectivity().has_face(faces@[i]),
            forall|k: usize|
                #[trigger] self.connectivity().vertex_map().dom().contains(k) ==> self.position_map().dom().contains(k),
        ensures
            r.wf(),
            is_part(*self, faces@, r),
            faces_closed(self.connectivity()) ==> r.connectivity().is_valid(),
    {
        let ghost c = self.connectivity();
        let mut info = ConnectivityInfo::new(faces.len(), faces.len());
        proof {
            c.lemma_keys_small();
            assert forall|k: usize| !in_part(c, faces@, 0, HalfEdgeID::spec_new(k)) by {}
            assert forall|k: usize| !part_vertex(c, faces@, 0, VertexID::spec_new(k)) by {}
        }
        let mut a: usize = 0;
        while a < faces.len()
            invariant
                self.wf(),
                c == self.connectivity(),
                c.is_valid(),
                a <= faces@.len(),
                forall|i: int| 0 <= i < faces@.len() ==> #[trigger] c.has_face(faces@[i]),
                forall|k: usize| #[trigger] c.face_map().dom().contains(k) ==> k < usize::MAX - 1,
                info.wf(),
                forall|k: usize|
                    #[trigger] info.halfedge_map().dom().contains(k) <==> in_part(c, faces@, a as int, HalfEdgeID::spec_new(k)),
                forall|k: usize|
                    #[trigger] info.halfedge_map().dom().contains(k) ==> info.halfedge_map()[k] == part_halfedge(
                        c,
                        faces@,
                        HalfEdgeID::spec_new(k),
                    ),
                forall|k: usize|
                    #[trigger] info.face_map().dom().contains(k) <==> (exists|b: int| 0 <= b < a && #[trigger] faces@[b].index() == k),
                forall|k: usize|
                    #[trigger] info.face_map().dom().contains(k) ==> info.face_map()[k] == c.face_at(FaceID::spec_new(k)),
                forall|k: usize|
                    #[trigger] info.vertex_map().dom().contains(k) <==> part_vertex(c, faces@, a as int, VertexID::spec_new(k)),
                forall|k: usize| #[trigger] info.vertex_map().dom().contains(k) ==> c.vertex_map().dom().contains(k),
                forall|k: usize|
                    #[trigger] info.vertex_map().dom().contains(k) ==> exists|x: HalfEdgeID|
                        #[trigger] in_faces(c, faces@, a as int, x) && c.vertex_of(Some(x)) == Some(VertexID::spec_new(k))
                            && info.vertex_map()[k] == (Vertex { halfedge: c.next_of(Some(x)) }),
            decreases faces@.len() - a,
        {
            let face_id = faces[a];
            let ghost before = info;
            let ghost f = faces@[a as int];
            proof {
                assert(c.has_face(f));
                c.lemma_valid_face(face_id);
                let h = c.face_at(face_id).halfedge->Some_0;
                c.lemma_valid_halfedge(h);
                c.lemma_valid_halfedge(c.halfedge_at(h).next->Some_0);
                assert(c.face_map().dom().contains(face_id.index()));
            }
            let face = self.connectivity_info().face(&face_id).unwrap();
            let walker = self.walker_from_face(&face_id);
            let h0 = walker.halfedge_id().unwrap();
            let h1 = walker.next_id().unwrap();
            let h2 = walker.previous_id().unwrap();
            proof {
                assert(bounds_one_of(c, faces@, h0));
                assert(bounds_one_of(c, faces@, h1));
                assert(bounds_one_of(c, faces@, h2));
            }
            let ghost i0 = info;
            self.copy_face_halfedge(&mut info, faces, h0);
            let ghost i1 = info;
            self.copy_face_halfedge(&mut info, faces, h1);
            let ghost i2 = info;
            self.copy_face_halfedge(&mut info, faces, h2);
            let ghost i3 = info;
            info.add_face(face_id, face);
            proof {
                let na = a as int;
                c.lemma_valid_halfedge(h0);
                c.lemma_valid_halfedge(h1);
                c.lemma_valid_halfedge(h2);
                let w0 = c.vertex_of(Some(h0))->Some_0;
                let w1 = c.vertex_of(Some(h1))->Some_0;
                let w2 = c.vertex_of(Some(h2))->Some_0;
                assert(c.has_vertex(w0) && c.has_vertex(w1) && c.has_vertex(w2));
                assert(VertexID::spec_new(w0.index()) == w0);
                assert(VertexID::spec_new(w1.index()) == w1);
                assert(VertexID::spec_new(w2.index()) == w2);
                assert(info.vertex_map() == before.vertex_map().insert(w0.index(), Vertex { halfedge: c.next_of(Some(h0)) }).insert(
                    w1.index(),
                    Vertex { halfedge: c.next_of(Some(h1)) },
                ).insert(w2.index(), Vertex { halfedge: c.next_of(Some(h2)) }));
                assert forall|x: HalfEdgeID| on_face(c, f, x) <==> (x == h0 || x == h1 || x == h2) by {}
                assert forall|x: HalfEdgeID| in_faces(c, faces@, na + 1, x) <==> in_faces(c, faces@, na, x) || (x == h0 || x == h1 || x == h2) by {
                    lemma_in_faces_grow(c, faces@, na, x);
                }
                // halfedges
                assert forall|k: usize|
                    #[trigger] info.halfedge_map().dom().contains(k) <==> in_part(c, faces@, na + 1, HalfEdgeID::spec_new(k)) by {
                    let x = HalfEdgeID::spec_new(k);
                    if in_part(c, faces@, na + 1, x) && !info.halfedge_map().dom().contains(k) {
                        if !in_faces(c, faces@, na + 1, x) {
                            let y = c.twin_of(Some(x))->Some_0;
                            c.lemma_valid_halfedge(x);
                            c.lemma_valid_halfedge(y);
                            assert(c.twin_of(Some(y)) == Some(x));
                            if !in_faces(c, faces@, na, y) {
                                assert(y == h0 || y == h1 || y == h2);
                            }
                        }
                    }
                    if info.halfedge_map().dom().contains(k) && !before.halfedge_map().dom().contains(k) {
                        let t0 = c.twin_of(Some(h0))->Some_0;
                        let t1 = c.twin_of(Some(h1))->Some_0;
                        let t2 = c.twin_of(Some(h2))->Some_0;
                        c.lemma_valid_halfedge(h0);
                        c.lemma_valid_halfedge(h1);
                        c.lemma_valid_halfedge(h2);
                        c.lemma_valid_halfedge(t0);
                        c.lemma_valid_halfedge(t1);
                        c.lemma_valid_halfedge(t2);
                        assert(k == h0.index() || k == h1.index() || k == h2.index() || k == t0.index() || k == t1.index() || k == t2.index());
                    }
                }
                assert forall|k: usize|
                    #[trigger] info.halfedge_map().dom().contains(k) implies info.halfedge_map()[k] == part_halfedge(
                        c,
                        faces@,
                        HalfEdgeID::spec_new(k),
                    ) by {
                    let x = HalfEdgeID::spec_new(k);
                    c.lemma_valid_halfedge(h0);
                    c.lemma_valid_halfedge(h1);
                    c.lemma_valid_halfedge(h2);
                    if k == h0.index() || k == h1.index() || k == h2.index() {
                        assert(x == h0 || x == h1 || x == h2);
                    }
                }
                // faces
                assert forall|k: usize|
                    #[trigger] info.face_map().dom().contains(k) <==> (exists|b: int| 0 <= b < na + 1 && #[trigger] faces@[b].index() == k) by {
                    if info.face_map().dom().contains(k) && k != face_id.index() {
                        let b = choose|b: int| 0 <= b < na && #[trigger] faces@[b].index() == k;
                        assert(faces@[b].index() == k);
                    }
                    if exists|b: int| 0 <= b < na + 1 && #[trigger] faces@[b].index() == k {
                        let b = choose|b: int| 0 <= b < na + 1 && #[trigger] faces@[b].index() == k;
                        if b < na {
                            assert(before.face_map().dom().contains(k));
                        }
                    }
                }
                assert(FaceID::spec_new(face_id.index()) == face_id);
                // vertices
                assert forall|k: usize|
                    #[trigger] info.vertex_map().dom().contains(k) <==> part_vertex(c, faces@, na + 1, VertexID::spec_new(k)) by {
                    let v = VertexID::spec_new(k);
                    if part_vertex(c, faces@, na + 1, v) {
                        let x = choose|x: HalfEdgeID| #[trigger] in_faces(c, faces@, na + 1, x) && c.vertex_of(Some(x)) == Some(v);
                        if in_faces(c, faces@, na, x) {
                            assert(part_vertex(c, faces@, na, v));
                        } else {
                            assert(x == h0 || x == h1 || x == h2);
                        }
                    }
                    if info.vertex_map().dom().contains(k) {
                        if before.vertex_map().dom().contains(k) {
                            let x = choose|x: HalfEdgeID| #[trigger] in_faces(c, faces@, na, x) && c.vertex_of(Some(x)) == Some(v);
                            assert(in_faces(c, faces@, na + 1, x));
                        } else if k == w0.index() {
                            assert(in_faces(c, faces@, na + 1, h0));
                        } else if k == w1.index() {
                            assert(in_faces(c, faces@, na + 1, h1));
                        } else {
                            assert(in_faces(c, faces@, na + 1, h2));
                        }
                    }
                }
                assert forall|k: usize|
                    #[trigger] info.vertex_map().dom().contains(k) implies exists|x: HalfEdgeID|
                        #[trigger] in_faces(c, faces@, na + 1, x) && c.vertex_of(Some(x)) == Some(VertexID::spec_new(k))
                            && info.vertex_map()[k] == (Vertex { halfedge: c.next_of(Some(x)) }) by {
                    let v = VertexID::spec_new(k);
                    if k == w2.index() {
                        assert(in_faces(c, faces@, na + 1, h2));
                    } else if k == w1.index() {
                        assert(in_faces(c, faces@, na + 1, h1));
                    } else if k == w0.index() {
                        assert(in_faces(c, faces@, na + 1, h0));
                    } else {
                        let x = choose|x: HalfEdgeID|
                            #[trigger] in_faces(c, faces@, na, x) && c.vertex_of(Some(x)) == Some(v)
                                && before.vertex_map()[k] == (Vertex { halfedge: c.next_of(Some(x)) });
                        assert(in_faces(c, faces@, na + 1, x));
                    }
                }
            }
            a = a + 1;
        }
        let ghost vm = info.vertex_map();
        let vertices = info.vertex_iterator();
        let mut positions: Arena<P> = Arena::new();
        let mut normals: Arena<P> = Arena::new();
        let mut i: usize = 0;
        while i < vertices.len()
            invariant
                self.wf(),
                c == self.connectivity(),
                vm == info.vertex_map(),
                info.wf(),
                i <= vertices@.len(),
                forall|j: int| 0 <= j < vertices@.len() ==> #[trigger] info.has_vertex(vertices@[j]),
                forall|v: VertexID| #[trigger] info.has_vertex(v) ==> vertices@.contains(v),
                forall|k: usize| #[trigger] vm.dom().contains(k) ==> self.position_map().dom().contains(k),
                forall|k: usize| #[trigger] vm.dom().contains(k) ==> k < usize::MAX - 1,
                positions.wf(),
                normals.wf(),
                forall|k: usize| #[trigger] positions@.dom().contains(k) <==> (exists|j: int| 0 <= j < i && #[trigger] vertices@[j].index() == k),
                forall|k: usize| #[trigger] positions@.dom().contains(k) ==> positions@[k] == self.position_map()[k],
                forall|k: usize|
                    #[trigger] normals@.dom().contains(k) <==> ((exists|j: int| 0 <= j < i && #[trigger] vertices@[j].index() == k)
                        && self.normal_map().dom().contains(k)),
                forall|k: usize| #[trigger] normals@.dom().contains(k) ==> normals@[k] == self.normal_map()[k],
            decreases vertices@.len() - i,
        {
            let vertex_id = vertices[i];
            proof {
                assert(info.has_vertex(vertices@[i as int]));
                assert(vm.dom().contains(vertex_id.index()));
            }
            let p = *self.position(&vertex_id);
            positions.insert(vertex_id.val(), p);
            match self.normal(&vertex_id) {
                Some(n) => {
                    normals.insert(vertex_id.val(), *n);
                },
                None => {},
            }
            proof {
                assert forall|k: usize| #[trigger] positions@.dom().contains(k) <==> (exists|j: int| 0 <= j < i + 1 && #[trigger] vertices@[j].index() == k) by {
                    if exists|j: int| 0 <= j < i + 1 && #[trigger] vertices@[j].index() == k {
                        let j = choose|j: int| 0 <= j < i + 1 && #[trigger] vertices@[j].index() == k;
                        if j < i {
                            assert(vertices@[j].index() == k);
                        }
                    }
                    if positions@.dom().contains(k) && k != vertex_id.index() {
                        let j = choose|j: int| 0 <= j < i && #[trigger] vertices@[j].index() == k;
                        assert(vertices@[j].index() == k);
                    }
                }
                assert forall|k: usize|
                    #[trigger] normals@.dom().contains(k) <==> ((exists|j: int| 0 <= j < i + 1 && #[trigger] vertices@[j].index() == k)
                        && self.normal_map().dom().contains(k)) by {
                    if exists|j: int| 0 <= j < i + 1 && #[trigger] vertices@[j].index() == k {
                        let j = choose|j: int| 0 <= j < i + 1 && #[trigger] vertices@[j].index() == k;
                        if j < i {
                            assert(vertices@[j].index() == k);
                        }
                    }
                    if normals@.dom().contains(k) && k != vertex_id.index() {
                        let j = choose|j: int| 0 <= j < i && #[trigger] vertices@[j].index() == k;
                        assert(vertices@[j].index() == k);
                    }
                }
            }
            i = i + 1;
        }
        proof {
            assert forall|k: usize| #[trigger] positions@.dom().contains(k) <==> vm.dom().contains(k) by {
                if vm.dom().contains(k) {
                    assert(info.has_vertex(VertexID::spec_new(k)));
                    assert(vertices@.contains(VertexID::spec_new(k)));
                    let j = choose|j: int| 0 <= j < vertices@.len() && vertices@[j] == VertexID::spec_new(k);
                    assert(vertices@[j].index() == k);
                }
                if positions@.dom().contains(k) {
                    let j = choose|j: int| 0 <= j < vertices@.len() && #[trigger] vertices@[j].index() == k;
                    assert(info.has_vertex(vertices@[j]));
                }
            }
            assert(positions@ =~= Map::new(|k: usize| vm.dom().contains(k), |k: usize| self.position_map()[k]));
            assert forall|k: usize| #[trigger] normals@.dom().contains(k) <==> (vm.dom().contains(k) && self.normal_map().dom().contains(k)) by {
                assert(positions@.dom().contains(k) <==> vm.dom().contains(k));
            }
            assert(normals@ =~= Map::new(
                |k: usize| vm.dom().contains(k) && self.normal_map().dom().contains(k),
                |k: usize| self.normal_map()[k],
            ));
            assert(info.halfedge_map() =~= part_halfedges(c, faces@));
            assert forall|k: usize| #[trigger] info.face_map().dom().contains(k) <==> faces@.contains(FaceID::spec_new(k)) by {
                if info.face_map().dom().contains(k) {
                    let b = choose|b: int| 0 <= b < faces@.len() && #[trigger] faces@[b].index() == k;
                    assert(c.has_face(faces@[b]));
                    assert(faces@[b] == FaceID::spec_new(k));
                }
                if faces@.contains(FaceID::spec_new(k)) {
                    let b = choose|b: int| 0 <= b < faces@.len() && faces@[b] == FaceID::spec_new(k);
                    assert(faces@[b].index() == k);
                }
            }
            assert(info.face_map() =~= part_faces(c, faces@));
            if faces_closed(c) {
                lemma_part_valid(c, faces@, info);
            }
        }
        DynamicMesh::new_internal(positions, normals, info)
    }

    /// The faces on the two sides of the halfedge where splitting starts (see `split_start`).
    fn split_start_faces(&self, split_edges: &Vec<HalfEdgeID>) -> (r: (Option<FaceID>, Option<FaceID>))
        requires
            self.wf(),
            self.connectivity().is_valid(),
        ensures
            split_start(self.connectivity(), split_edges@, r.0, r.1),
            r.0 matches Some(f) ==> self.connectivity().has_face(f),
            r.1 matches Some(f) ==> self.connectivity().has_face(f),
    {
        let ghost c = self.connectivity();
        let halfedges = self.halfedge_iterator();
        let mut face_id1: Option<FaceID> = None;
        let mut face_id2: Option<FaceID> = None;
        let mut i: usize = 0;
        let ghost mut last: int = -1;
        while i < halfedges.len()
            invariant_except_break
                i <= halfedges@.len(),
                last < i,
                forall|j: int| 0 <= j < i ==> !(at_split(c, split_edges@, #[trigger] halfedges@[j]) && two_sided(c, halfedges@[j])),
            invariant
                self.wf(),
                c == self.connectivity(),
                c.is_valid(),
                forall|a: int, b: int| 0 <= a < b < halfedges@.len() ==> halfedges@[a].index() < halfedges@[b].index(),
                forall|a: int| 0 <= a < halfedges@.len() ==> #[trigger] c.has_halfedge(halfedges@[a]),
                forall|h: HalfEdgeID| #[trigger] c.has_halfedge(h) ==> halfedges@.contains(h),
                -1 <= last <= i,
                last < halfedges@.len(),
                last == -1 ==> face_id1 is None && face_id2 is None,
                last == -1 ==> forall|j: int| 0 <= j < i ==> !at_split(c, split_edges@, #[trigger] halfedges@[j]),
                last >= 0 ==> at_split(c, split_edges@, halfedges@[last]),
                last >= 0 ==> face_id1 == c.face_of(Some(halfedges@[last])) && face_id2 == c.face_of(c.twin_of(Some(halfedges@[last]))),
                last >= 0 ==> forall|j: int| last < j < i ==> !at_split(c, split_edges@, #[trigger] halfedges@[j]),
            ensures
                i < halfedges@.len() ==> last == i && at_split(c, split_edges@, halfedges@[last]) && two_sided(c, halfedges@[last])
                    && forall|j: int| 0 <= j < i ==> !(at_split(c, split_edges@, #[trigger] halfedges@[j]) && two_sided(c, halfedges@[j])),
                i >= halfedges@.len() ==> forall|j: int| 0 <= j < halfedges@.len() ==> !(at_split(c, split_edges@, #[trigger] halfedges@[j]) && two_sided(c, halfedges@[j])),
                i <= halfedges@.len(),
            decreases halfedges@.len() - i,
        {
            let halfedge_id = halfedges[i];
            if contains_halfedge(split_edges, &halfedge_id) {
                proof {
                    assert(c.has_halfedge(halfedges@[i as int]));
                    last = i as int;
                }
                let mut walker = self.walker_from_halfedge(&halfedge_id);
                face_id1 = walker.face_id();
                face_id2 = walker.twin().face_id();
                if face_id1.is_some() && face_id2.is_some() {
                    break;
                }
            }
            i = i + 1;
        }
        proof {
            let sides = |h: HalfEdgeID| face_id1 == c.face_of(Some(h)) && face_id2 == c.face_of(c.twin_of(Some(h)));
            if last >= 0 {
                let h = halfedges@[last];
                c.lemma_valid_halfedge(h);
                c.lemma_valid_halfedge(c.halfedge_at(h).twin->Some_0);
                if c.face_of(Some(h)) is Some {
                    c.lemma_valid_face(c.face_of(Some(h))->Some_0);
                }
            }
            if exists|h: HalfEdgeID| #[trigger] at_split(c, split_edges@, h) && two_sided(c, h) {
                let h0 = choose|h: HalfEdgeID| #[trigger] at_split(c, split_edges@, h) && two_sided(c, h);
                assert(halfedges@.contains(h0));
                let a = choose|a: int| 0 <= a < halfedges@.len() && halfedges@[a] == h0;
                assert(i < halfedges@.len());
                let h = halfedges@[last];
                assert forall|g: HalfEdgeID| #[trigger] at_split(c, split_edges@, g) && two_sided(c, g) implies h.index() <= g.index() by {
                    assert(halfedges@.contains(g));
                    let b = choose|b: int| 0 <= b < halfedges@.len() && halfedges@[b] == g;
                    if b < last {
                        assert(!(at_split(c, split_edges@, halfedges@[b]) && two_sided(c, halfedges@[b])));
                    }
                }
                assert(at_split(c, split_edges@, h) && two_sided(c, h) && sides(h));
            } else if exists|h: HalfEdgeID| #[trigger] at_split(c, split_edges@, h) {
                let h0 = choose|h: HalfEdgeID| #[trigger] at_split(c, split_edges@, h);
                assert(halfedges@.contains(h0));
                let a = choose|a: int| 0 <= a < halfedges@.len() && halfedges@[a] == h0;
                if i < halfedges@.len() {
                    assert(at_split(c, split_edges@, halfedges@[last]) && two_sided(c, halfedges@[last]));
                }
                assert(last >= 0);
                let h = halfedges@[last];
                assert forall|g: HalfEdgeID| #[trigger] at_split(c, split_edges@, g) implies g.index() <= h.index() by {
                    assert(halfedges@.contains(g));
                    let b = choose|b: int| 0 <= b < halfedges@.len() && halfedges@[b] == g;
                    if b > last {
                        assert(!at_split(c, split_edges@, halfedges@[b]));
                    }
                }
                assert(at_split(c, split_edges@, h) && sides(h));
            } else {
                if last >= 0 {
                    assert(at_split(c, split_edges@, halfedges@[last]));
                }
            }
        }
        (face_id1, face_id2)
    }

    /// Splits the mesh in two along the given halfedges: the faces reached, without crossing
    /// one of them, from the faces on the two sides of the halfedge where splitting starts
    /// (see `split_start`) make the two parts. Fails where the two parts do not hold all the
    /// faces between them.
    pub fn split(&self, split_edges: &Vec<HalfEdgeID>) -> (r: Result<(DynamicMesh<P>, DynamicMesh<P>), Error>)
        requires
            self.wf(),
            self.connectivity().is_valid(),
            forall|k: usize|
                #[trigger] self.connectivity().vertex_map().dom().contains(k) ==> self.position_map().dom().contains(k),
        ensures
            exists|f1: Option<FaceID>, f2: Option<FaceID>, cc1: Seq<FaceID>, cc2: Seq<FaceID>|
                #[trigger] split_plan(self.connectivity(), split_edges@, f1, f2, cc1, cc2) && {
                    &&& (r is Err <==> self.connectivity().face_map().dom().len() != cc1.len() + cc2.len())
                    &&& (r matches Ok((m1, m2)) ==> m1.wf() && m2.wf() && is_part(*self, cc1, m1) && is_part(*self, cc2, m2))
                    &&& (r matches Err(e) ==> e is SplittingEdgesDidNotFormAClosesCurve)
                },
    {
        let (face_id1, face_id2) = self.split_start_faces(split_edges);
        let cc1 = match face_id1 {
            Some(face_id) => connected_component_with_limit(self, &face_id, split_edges),
            None => Vec::new(),
        };
        let cc2 = match face_id2 {
            Some(face_id) => connected_component_with_limit(self, &face_id, split_edges),
            None => Vec::new(),
        };
        proof {
            self.connectivity().lemma_bounded_counts();
        }
        let no_faces = self.no_faces();
        if !(cc1.len() <= no_faces && no_faces - cc1.len() == cc2.len()) {
            let r = Err(
                Error::SplittingEdgesDidNotFormAClosesCurve {
                    message: "It was not possible to split a mesh in two parts, the splitting edges and boundary edges did not form a closed curve.".to_owned(),
                },
            );
            proof {
                assert(split_plan(self.connectivity(), split_edges@, face_id1, face_id2, cc1@, cc2@));
            }
            return r;
        }
        let sub_mesh1 = self.create_sub_mesh(&cc1);
        let sub_mesh2 = self.create_sub_mesh(&cc2);
        proof {
            assert(split_plan(self.connectivity(), split_edges@, face_id1, face_id2, cc1@, cc2@));
        }
        Ok((sub_mesh1, sub_mesh2))
    }

}

} // verus!
