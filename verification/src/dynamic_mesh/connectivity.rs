use vstd::prelude::*;
use crate::ids::{VertexID, HalfEdgeID, FaceID, group_id_ext};
use crate::dynamic_mesh::dynamic_mesh::DynamicMesh;
use crate::dynamic_mesh::connectivity_info::ConnectivityInfo;

verus! {

broadcast use group_id_ext;

/// The two vertices of the edge of halfedge `h`, the one of smaller index first.
pub open spec fn edge_key(c: ConnectivityInfo, h: HalfEdgeID) -> (VertexID, VertexID) {
    let a = c.vertex_of(Some(h))->Some_0;
    let b = c.vertex_of(c.twin_of(Some(h)))->Some_0;
    if a.index() < b.index() {
        (a, b)
    } else {
        (b, a)
    }
}

impl<P: Copy> DynamicMesh<P> {
    /// The first halfedge met going around `vertex_id1` that points to `vertex_id2`.
    pub fn connecting_edge(&self, vertex_id1: &VertexID, vertex_id2: &VertexID) -> (r: Option<HalfEdgeID>)
        requires
            self.wf(),
            self.connectivity().is_valid(),
            self.connectivity().has_vertex(*vertex_id1),
            self.connectivity().vertex_at(*vertex_id1).halfedge is Some,
        ensures
            ({
                let c = self.connectivity();
                let start = c.vertex_at(*vertex_id1).halfedge->Some_0;
                &&& r is Some ==> exists|i: nat|
                    {
                        &&& i < c.ring_len(start)
                        &&& #[trigger] c.ring_iter(Some(start), i) == r
                        &&& c.vertex_of(r) == Some(*vertex_id2)
                        &&& forall|j: nat| j < i ==> c.vertex_of(#[trigger] c.ring_iter(Some(start), j)) != Some(*vertex_id2)
                    }
                &&& r is None ==> forall|i: nat|
                    i < c.ring_len(start) ==> c.vertex_of(#[trigger] c.ring_iter(Some(start), i)) != Some(*vertex_id2)
            }),
            r is Some <==> self.connectivity().links(*vertex_id1, *vertex_id2),
            r == self.connectivity().connection(*vertex_id1, *vertex_id2),
    {
        let ghost c = self.connectivity();
        let ghost start = c.vertex_at(*vertex_id1).halfedge->Some_0;
        proof {
            c.lemma_valid_vertex(*vertex_id1);
        }
        let ring = self.vertex_halfedge_iterator(vertex_id1);
        let mut i: usize = 0;
        while i < ring.len()
            invariant
                self.wf(),
                c == self.connectivity(),
                c.is_valid(),
                c.has_halfedge(start),
                start == c.vertex_at(*vertex_id1).halfedge->Some_0,
                i <= ring@.len(),
                ring@.len() == c.ring_len(start),
                forall|a: int|
                    0 <= a < ring@.len() ==> {
                        &&& (#[trigger] ring@[a]).wf()
                        &&& ring@[a].connectivity() == c
                        &&& ring@[a].current() == c.ring_iter(Some(start), a as nat)
                    },
                forall|j: nat| j < i ==> c.vertex_of(#[trigger] c.ring_iter(Some(start), j)) != Some(*vertex_id2),
            decreases ring@.len() - i,
        {
            let walker = ring[i];
            proof {
                c.lemma_ring_item_has_vertex(start, i as nat);
            }
            if walker.vertex_id().unwrap() == *vertex_id2 {
                proof {
                    let w = i as nat;
                    assert(c.ring_iter(Some(start), w) == ring@[i as int].current());
                }
                let result = walker.halfedge_id();
                proof {
                    reveal(ConnectivityInfo::connection);
                    assert(result == c.ring_iter(Some(start), i as nat));
                    let w = i as nat;
                    assert(c.links(*vertex_id1, *vertex_id2));
                    let k = choose|k: nat|
                        k < c.ring_len(start) && c.vertex_of(#[trigger] c.ring_iter(Some(start), k)) == Some(*vertex_id2) && forall|j: nat|
                            j < k ==> c.vertex_of(#[trigger] c.ring_iter(Some(start), j)) != Some(*vertex_id2);
                    if k < w {
                        assert(c.vertex_of(c.ring_iter(Some(start), k)) != Some(*vertex_id2));
                    }
                    if w < k {
                        assert(c.vertex_of(c.ring_iter(Some(start), w)) != Some(*vertex_id2));
                    }
                }
                return result;
            }
            i = i + 1;
        }
        proof {
            reveal(ConnectivityInfo::connection);
        }
        None
    }

    /// The halfedge of smallest index that points to `vertex_id2` and whose twin points to
    /// `vertex_id1`.
    pub fn find_edge(&self, vertex_id1: &VertexID, vertex_id2: &VertexID) -> (r: Option<HalfEdgeID>)
        requires
            self.wf(),
            self.connectivity().is_valid(),
        ensures
            ({
                let c = self.connectivity();
                &&& r matches Some(h) ==> {
                    &&& c.has_halfedge(h)
                    &&& c.runs_between(h, *vertex_id1, *vertex_id2)
                    &&& forall|g: HalfEdgeID|
                        #[trigger] c.has_halfedge(g) && g.index() < h.index() ==> !c.runs_between(g, *vertex_id1, *vertex_id2)
                }
                &&& r is None ==> forall|g: HalfEdgeID|
                    #[trigger] c.has_halfedge(g) ==> !c.runs_between(g, *vertex_id1, *vertex_id2)
            }),
    {
        let ghost c = self.connectivity();
        let halfedges = self.halfedge_iterator();
        let mut i: usize = 0;
        while i < halfedges.len()
            invariant
                self.wf(),
                c == self.connectivity(),
                c.is_valid(),
                i <= halfedges@.len(),
                forall|a: int, b: int| 0 <= a < b < halfedges@.len() ==> halfedges@[a].index() < halfedges@[b].index(),
                forall|a: int| 0 <= a < halfedges@.len() ==> #[trigger] c.has_halfedge(halfedges@[a]),
                forall|id: HalfEdgeID| #[trigger] c.has_halfedge(id) ==> halfedges@.contains(id),
                forall|a: int| 0 <= a < i ==> !c.runs_between(#[trigger] halfedges@[a], *vertex_id1, *vertex_id2),
            decreases halfedges@.len() - i,
        {
            let halfedge_id = halfedges[i];
            let mut walker = self.walker_from_halfedge(&halfedge_id);
            proof {
                assert(c.has_halfedge(halfedges@[i as int]));
                c.lemma_valid_halfedge(halfedge_id);
                c.lemma_valid_halfedge(c.halfedge_at(halfedge_id).twin->Some_0);
            }
            if walker.vertex_id().unwrap() == *vertex_id2 && walker.twin().vertex_id().unwrap() == *vertex_id1 {
                proof {
                    assert forall|g: HalfEdgeID|
                        #[trigger] c.has_halfedge(g) && g.index() < halfedge_id.index() implies !c.runs_between(
                            g,
                            *vertex_id1,
                            *vertex_id2,
                        ) by {
                        assert(halfedges@.contains(g));
                        let a = choose|a: int| 0 <= a < halfedges@.len() && halfedges@[a] == g;
                        if a >= i {
                            if a > i {
                                assert(halfedges@[i as int].index() < halfedges@[a].index());
                            }
                        }
                    }
                }
                return Some(halfedge_id);
            }
            i = i + 1;
        }
        proof {
            assert forall|g: HalfEdgeID| #[trigger] c.has_halfedge(g) implies !c.runs_between(g, *vertex_id1, *vertex_id2) by {
                assert(halfedges@.contains(g));
                let a = choose|a: int| 0 <= a < halfedges@.len() && halfedges@[a] == g;
                assert(!c.runs_between(halfedges@[a], *vertex_id1, *vertex_id2));
            }
        }
        None
    }

    /// Whether a halfedge or its twin bounds no face.
    pub fn on_boundary(&self, halfedge_id: &HalfEdgeID) -> (r: bool)
        ensures
            r == (self.connectivity().face_of(Some(*halfedge_id)) is None || self.connectivity().face_of(
                self.connectivity().twin_of(Some(*halfedge_id)),
            ) is None),
    {
        let mut walker = self.walker_from_halfedge(halfedge_id);
        walker.face_id().is_none() || walker.twin().face_id().is_none()
    }

    /// The vertex a halfedge points to and the vertex its twin points to.
    pub fn edge_vertices(&self, halfedge_id: &HalfEdgeID) -> (r: (VertexID, VertexID))
        requires
            self.wf(),
            self.connectivity().is_valid(),
            self.connectivity().has_halfedge(*halfedge_id),
        ensures
            Some(r.0) == self.connectivity().vertex_of(Some(*halfedge_id)),
            Some(r.1) == self.connectivity().vertex_of(self.connectivity().twin_of(Some(*halfedge_id))),
            self.connectivity().has_vertex(r.0),
            self.connectivity().has_vertex(r.1),
    {
        let ghost c = self.connectivity();
        proof {
            c.lemma_valid_halfedge(*halfedge_id);
            c.lemma_valid_halfedge(c.halfedge_at(*halfedge_id).twin->Some_0);
        }
        let mut walker = self.walker_from_halfedge(halfedge_id);
        let v1 = walker.vertex_id().unwrap();
        let v2 = walker.twin().vertex_id().unwrap();
        (v1, v2)
    }

    /// The two vertices of the edge of a halfedge, the one of smaller index first.
    pub fn ordered_edge_vertices(&self, halfedge_id: &HalfEdgeID) -> (r: (VertexID, VertexID))
        requires
            self.wf(),
            self.connectivity().is_valid(),
            self.connectivity().has_halfedge(*halfedge_id),
        ensures
            r == edge_key(self.connectivity(), *halfedge_id),
            self.connectivity().has_vertex(r.0),
            self.connectivity().has_vertex(r.1),
    {
        let (v1, v2) = self.edge_vertices(halfedge_id);
        if v1.val() < v2.val() {
            (v1, v2)
        } else {
            (v2, v1)
        }
    }

    /// The vertices of a face: where its halfedge points to, then where the next two
    /// halfedges point to.
    pub fn face_vertices(&self, face_id: &FaceID) -> (r: (VertexID, VertexID, VertexID))
        requires
            self.wf(),
            self.connectivity().is_valid(),
            self.connectivity().has_face(*face_id),
        ensures
            ({
                let c = self.connectivity();
                let h = c.face_at(*face_id).halfedge;
                &&& Some(r.0) == c.vertex_of(h)
                &&& Some(r.1) == c.vertex_of(c.next_of(h))
                &&& Some(r.2) == c.vertex_of(c.next_of(c.next_of(h)))
            }),
            self.connectivity().has_vertex(r.0),
            self.connectivity().has_vertex(r.1),
            self.connectivity().has_vertex(r.2),
    {
        let ghost c = self.connectivity();
        proof {
            c.lemma_valid_face(*face_id);
            let h = c.face_at(*face_id).halfedge->Some_0;
            c.lemma_valid_halfedge(h);
            let n = c.halfedge_at(h).next->Some_0;
            c.lemma_valid_halfedge(n);
            let m = c.halfedge_at(n).next->Some_0;
            c.lemma_valid_halfedge(m);
        }
        let mut walker = self.walker_from_face(face_id);
        let v1 = walker.vertex_id().unwrap();
        walker.next();
        let v2 = walker.vertex_id().unwrap();
        walker.next();
        let v3 = walker.vertex_id().unwrap();
        (v1, v2, v3)
    }

    /// Each edge once, as its two vertices with the one of smaller index first, in the order
    /// of the smallest index of a halfedge of the edge.
    pub fn edge_iterator(&self) -> (r: Vec<(VertexID, VertexID)>)
        requires
            self.wf(),
            self.connectivity().is_valid(),
        ensures
            r@.no_duplicates(),
            forall|e: (VertexID, VertexID)|
                #[trigger] r@.contains(e) <==> exists|h: HalfEdgeID| #[trigger] self.connectivity().has_halfedge(h) && edge_key(self.connectivity(), h) == e,
    {
        let ghost c = self.connectivity();
        let halfedges = self.halfedge_iterator();
        let mut r: Vec<(VertexID, VertexID)> = Vec::new();
        let mut i: usize = 0;
        while i < halfedges.len()
            invariant
                self.wf(),
                c == self.connectivity(),
                c.is_valid(),
                i <= halfedges@.len(),
                forall|a: int| 0 <= a < halfedges@.len() ==> #[trigger] c.has_halfedge(halfedges@[a]),
                forall|h: HalfEdgeID| #[trigger] c.has_halfedge(h) ==> halfedges@.contains(h),
                r@.no_duplicates(),
                forall|e: (VertexID, VertexID)| #[trigger] r@.contains(e) <==> exists|a: int| 0 <= a < i && edge_key(c, #[trigger] halfedges@[a]) == e,
            decreases halfedges@.len() - i,
        {
            let halfedge_id = halfedges[i];
            proof {
                assert(c.has_halfedge(halfedges@[i as int]));
            }
            let edge = self.ordered_edge_vertices(&halfedge_id);
            let ghost before = r@;
            if !contains_pair(&r, &edge) {
                r.push(edge);
                proof {
                    assert forall|a: int, b: int| 0 <= a < b < r@.len() implies r@[a] != r@[b] by {
                        if b == before.len() {
                            assert(before.contains(before[a]));
                        }
                    }
                }
            }
            proof {
                assert forall|e: (VertexID, VertexID)| #[trigger] r@.contains(e) <==> exists|a: int| 0 <= a < i + 1 && edge_key(c, #[trigger] halfedges@[a]) == e by {
                    if r@.contains(e) {
                        let k = choose|k: int| 0 <= k < r@.len() && r@[k] == e;
                        if k < before.len() {
                            assert(before[k] == e);
                            assert(before.contains(e));
                        } else {
                            assert(edge_key(c, halfedges@[i as int]) == e);
                        }
                    }
                    if exists|a: int| 0 <= a < i + 1 && edge_key(c, #[trigger] halfedges@[a]) == e {
                        let a = choose|a: int| 0 <= a < i + 1 && edge_key(c, #[trigger] halfedges@[a]) == e;
                        if a < i {
                            assert(before.contains(e));
                            let k = choose|k: int| 0 <= k < before.len() && before[k] == e;
                            assert(r@[k] == e);
                        } else {
                            if before.contains(e) {
                                let k = choose|k: int| 0 <= k < before.len() && before[k] == e;
                                assert(r@[k] == e);
                            } else {
                                assert(r@[before.len() as int] == e);
                            }
                        }
                    }
                }
            }
            i = i + 1;
        }
        proof {
            assert forall|e: (VertexID, VertexID)|
                #[trigger] r@.contains(e) <==> exists|h: HalfEdgeID| #[trigger] c.has_halfedge(h) && edge_key(c, h) == e by {
                if r@.contains(e) {
                    let a = choose|a: int| 0 <= a < halfedges@.len() && edge_key(c, #[trigger] halfedges@[a]) == e;
                    assert(c.has_halfedge(halfedges@[a]));
                }
                if exists|h: HalfEdgeID| #[trigger] c.has_halfedge(h) && edge_key(c, h) == e {
                    let h = choose|h: HalfEdgeID| #[trigger] c.has_halfedge(h) && edge_key(c, h) == e;
                    assert(halfedges@.contains(h));
                    let a = choose|a: int| 0 <= a < halfedges@.len() && halfedges@[a] == h;
                    assert(edge_key(c, halfedges@[a]) == e);
                }
            }
        }
        r
    }

    /// The positions of the two vertices of the edge of a halfedge, the vertex of smaller
    /// index first.
    pub fn edge_positions(&self, halfedge_id: &HalfEdgeID) -> (r: (P, P))
        requires
            self.wf(),
            self.connectivity().is_valid(),
            self.connectivity().has_halfedge(*halfedge_id),
            forall|k: usize| #[trigger] self.connectivity().vertex_map().dom().contains(k) ==> self.position_map().dom().contains(k),
        ensures
            r.0 == self.position_map()[edge_key(self.connectivity(), *halfedge_id).0.index()],
            r.1 == self.position_map()[edge_key(self.connectivity(), *halfedge_id).1.index()],
    {
        let vertices = self.ordered_edge_vertices(halfedge_id);
        (*self.position(&vertices.0), *self.position(&vertices.1))
    }
}

/// Whether `edges` holds the pair.
fn contains_pair(edges: &Vec<(VertexID, VertexID)>, e: &(VertexID, VertexID)) -> (r: bool)
    ensures
        r == edges@.contains(*e),
{
    let mut i: usize = 0;
    while i < edges.len()
        invariant
            i <= edges@.len(),
            forall|j: int| 0 <= j < i ==> edges@[j] != *e,
        decreases edges@.len() - i,
    {
        if edges[i].0 == e.0 && edges[i].1 == e.1 {
            assert(edges@[i as int] == *e);
            return true;
        }
        i = i + 1;
    }
    false
}

} // verus!
