use vstd::prelude::*;
use crate::ids::{VertexID, HalfEdgeID, FaceID, group_id_ext};
use crate::dynamic_mesh::connectivity_info::{ConnectivityInfo, Connectivity, HalfEdge, Vertex, Face};
use crate::dynamic_mesh::dynamic_mesh::DynamicMesh;

verus! {

broadcast use group_id_ext;

/// Why an edge could not be flipped.
#[derive(Debug)]
pub enum Error {
    FailedToFlipEdge { message: String },
}

/// The six halfedges of the two triangles beside the edge of `h`: `h` and the two after it,
/// then its twin and the two after that.
pub open spec fn edge_ring(c: ConnectivityInfo, h: HalfEdgeID) -> (
    HalfEdgeID,
    HalfEdgeID,
    HalfEdgeID,
    HalfEdgeID,
    HalfEdgeID,
    HalfEdgeID,
) {
    let n = c.next_of(Some(h))->Some_0;
    let p = c.next_of(Some(n))->Some_0;
    let t = c.twin_of(Some(h))->Some_0;
    let tn = c.next_of(Some(t))->Some_0;
    let tp = c.next_of(Some(tn))->Some_0;
    (h, n, p, t, tn, tp)
}

/// Whether `x` is one of the six halfedges.
pub open spec fn in_ring(r: (HalfEdgeID, HalfEdgeID, HalfEdgeID, HalfEdgeID, HalfEdgeID, HalfEdgeID), x: HalfEdgeID) -> bool {
    x == r.0 || x == r.1 || x == r.2 || x == r.3 || x == r.4 || x == r.5
}

/// Whether the six halfedges are all different.
pub open spec fn ring_distinct(r: (HalfEdgeID, HalfEdgeID, HalfEdgeID, HalfEdgeID, HalfEdgeID, HalfEdgeID)) -> bool {
    &&& r.0 != r.1 && r.0 != r.2 && r.0 != r.3 && r.0 != r.4 && r.0 != r.5
    &&& r.1 != r.2 && r.1 != r.3 && r.1 != r.4 && r.1 != r.5
    &&& r.2 != r.3 && r.2 != r.4 && r.2 != r.5
    &&& r.3 != r.4 && r.3 != r.5
    &&& r.4 != r.5
}

/// The two triangles beside the edge of `h` are six different halfedges, and no halfedge
/// outside a face leads into them.
pub open spec fn flip_separated(c: ConnectivityInfo, h: HalfEdgeID) -> bool {
    let r = edge_ring(c, h);
    &&& ring_distinct(r)
    &&& forall|x: HalfEdgeID|
        #[trigger] c.has_halfedge(x) && c.halfedge_at(x).face is None && c.halfedge_at(x).next is Some ==> !in_ring(
            r,
            c.halfedge_at(x).next->Some_0,
        )
}

/// The halfedges with halfedge `k` continuing with `v`.
pub open spec fn with_next(hm: Map<usize, HalfEdge>, k: HalfEdgeID, v: HalfEdgeID) -> Map<usize, HalfEdge> {
    hm.insert(k.index(), HalfEdge { next: Some(v), ..hm[k.index()] })
}

/// The halfedges with halfedge `k` pointing to `v`.
pub open spec fn with_vertex(hm: Map<usize, HalfEdge>, k: HalfEdgeID, v: VertexID) -> Map<usize, HalfEdge> {
    hm.insert(k.index(), HalfEdge { vertex: Some(v), ..hm[k.index()] })
}

/// The halfedges with halfedge `k` bounding `f`.
pub open spec fn with_face(hm: Map<usize, HalfEdge>, k: HalfEdgeID, f: FaceID) -> Map<usize, HalfEdge> {
    hm.insert(k.index(), HalfEdge { face: Some(f), ..hm[k.index()] })
}

/// The connectivity after the edge of `h` is flipped. With `h` running from `v1` to `v0` in a
/// triangle whose third corner is `v3`, and its twin running back in a triangle whose third
/// corner is `v2`, the edge comes to run from `v2` to `v3`: `h` then lies in a triangle with
/// the halfedge before it and the one after its twin, and the twin with the other two.
pub open spec fn flipped(c: ConnectivityInfo, h: HalfEdgeID) -> Connectivity {
    let (h, n, p, t, tn, tp) = edge_ring(c, h);
    let f1 = c.face_of(Some(h))->Some_0;
    let f2 = c.face_of(Some(t))->Some_0;
    let v0 = c.vertex_of(Some(h))->Some_0;
    let v1 = c.vertex_of(Some(t))->Some_0;
    let v2 = c.vertex_of(Some(tn))->Some_0;
    let v3 = c.vertex_of(Some(n))->Some_0;
    let fm = c.face_map().insert(f1.index(), Face { halfedge: Some(p) }).insert(
        f2.index(),
        Face { halfedge: Some(tp) },
    );
    let vm = c.vertex_map().insert(v0.index(), Vertex { halfedge: Some(n) }).insert(
        v1.index(),
        Vertex { halfedge: Some(tn) },
    );
    let hm1 = with_next(
        with_next(with_next(with_next(with_next(with_next(c.halfedge_map(), h, p), n, t), p, tn), t, tp), tn, h),
        tp,
        n,
    );
    let hm2 = with_face(with_face(with_vertex(with_vertex(hm1, h, v3), t, v2), n, f2), tn, f1);
    (vm, hm2, fm)
}

/// Flipping the edge between two triangles of a valid mesh, where the two triangles are six
/// different halfedges and no halfedge outside a face leads into them, gives a valid mesh.
#[verifier::rlimit(60)]
pub proof fn lemma_flip_keeps_valid(before: ConnectivityInfo, after: ConnectivityInfo, h: HalfEdgeID)
    requires
        before.is_valid(),
        before.has_halfedge(h),
        before.face_of(Some(h)) is Some,
        before.face_of(before.twin_of(Some(h))) is Some,
        flip_separated(before, h),
        after.state() == flipped(before, h),
    ensures
        after.is_valid(),
{
    let r = edge_ring(before, h);
    let (h, n, p, t, tn, tp) = r;
    before.lemma_valid_halfedge(h);
    let f1 = before.face_of(Some(h))->Some_0;
    assert(before.has_halfedge(n) && before.has_halfedge(p));
    before.lemma_valid_halfedge(t);
    let f2 = before.face_of(Some(t))->Some_0;
    assert(before.has_halfedge(tn) && before.has_halfedge(tp));
    before.lemma_valid_halfedge(n);
    before.lemma_valid_halfedge(p);
    before.lemma_valid_halfedge(tn);
    before.lemma_valid_halfedge(tp);
    let v0 = before.vertex_of(Some(h))->Some_0;
    let v1 = before.vertex_of(Some(t))->Some_0;
    let v2 = before.vertex_of(Some(tn))->Some_0;
    let v3 = before.vertex_of(Some(n))->Some_0;
    assert(h.index() != n.index() && h.index() != p.index() && h.index() != t.index() && h.index() != tn.index() && h.index() != tp.index());
    assert(n.index() != p.index() && n.index() != t.index() && n.index() != tn.index() && n.index() != tp.index());
    assert(p.index() != t.index() && p.index() != tn.index() && p.index() != tp.index());
    assert(t.index() != tn.index() && t.index() != tp.index());
    assert(tn.index() != tp.index());
    // the six halfedges after the flip
    assert(after.halfedge_at(h) == HalfEdge { vertex: Some(v3), next: Some(p), ..before.halfedge_at(h) });
    assert(after.halfedge_at(n) == HalfEdge { next: Some(t), face: Some(f2), ..before.halfedge_at(n) });
    assert(after.halfedge_at(p) == HalfEdge { next: Some(tn), ..before.halfedge_at(p) });
    assert(after.halfedge_at(t) == HalfEdge { vertex: Some(v2), next: Some(tp), ..before.halfedge_at(t) });
    assert(after.halfedge_at(tn) == HalfEdge { next: Some(h), face: Some(f1), ..before.halfedge_at(tn) });
    assert(after.halfedge_at(tp) == HalfEdge { next: Some(n), ..before.halfedge_at(tp) });
    // every other halfedge is left as it was
    assert forall|x: HalfEdgeID| !in_ring(r, x) && !x.spec_is_null() implies #[trigger] after.halfedge_map().dom().contains(x.index())
        == before.halfedge_map().dom().contains(x.index()) && after.halfedge_map()[x.index()] == before.halfedge_map()[x.index()] by {
        assert(x.index() != h.index() && x.index() != n.index() && x.index() != p.index());
        assert(x.index() != t.index() && x.index() != tn.index() && x.index() != tp.index());
    }
    assert(after.halfedge_map().dom() =~= before.halfedge_map().dom());
    assert(after.vertex_map().dom() =~= before.vertex_map().dom());
    assert(after.face_map().dom() =~= before.face_map().dom());
    // a halfedge of a face that leads into the six is one of them
    assert forall|x: HalfEdgeID| #[trigger] before.has_halfedge(x) && before.halfedge_at(x).next is Some && in_ring(r, before.halfedge_at(x).next->Some_0)
        implies in_ring(r, x) by {
        before.lemma_valid_halfedge(x);
        if before.halfedge_at(x).face is Some {
            let y = before.halfedge_at(x).next->Some_0;
            assert(before.halfedge_at(before.halfedge_at(y).next->Some_0).next == Some(x));
        }
    }
    // origins of halfedges outside the six do not change
    assert forall|x: HalfEdgeID| #[trigger] before.has_halfedge(x) && !in_ring(r, x) implies after.origin(x) == before.origin(x) by {
        let y = before.halfedge_at(x).next;
        if y is Some {
            let y1 = y->Some_0;
            assert(!in_ring(r, y1));
            if before.has_halfedge(y1) {
                let z = before.halfedge_at(y1).next;
                if z is Some {
                    assert(!in_ring(r, z->Some_0));
                }
            }
        }
    }
    assert(after.origin(h) == Some(v2));
    assert(after.origin(p) == Some(v3));
    assert(after.origin(tn) == Some(v1));
    assert(after.origin(t) == Some(v3));
    assert(after.origin(tp) == Some(v2));
    assert(after.origin(n) == Some(v0));
    assert forall|x: HalfEdgeID| #[trigger] after.has_halfedge(x) implies after.twin_ok(x) by {
        assert(before.has_halfedge(x));
        before.lemma_valid_halfedge(x);
        let y = before.halfedge_at(x).twin->Some_0;
        before.lemma_valid_halfedge(y);
        if y == h {
            assert(x == t);
        }
        if y == t {
            assert(x == h);
        }
    }
    assert forall|x: HalfEdgeID| #[trigger] after.has_halfedge(x) implies after.halfedge_ok(x) by {
        assert(before.has_halfedge(x));
        before.lemma_valid_halfedge(x);
        let w = before.halfedge_at(x).vertex->Some_0;
        if !in_ring(r, x) {
            if w != v0 && w != v1 {
                assert(after.vertex_at(w) == before.vertex_at(w));
            }
            if before.halfedge_at(x).face is Some {
                let g = before.halfedge_at(x).face->Some_0;
                let y = before.halfedge_at(x).next->Some_0;
                let z = before.halfedge_at(y).next->Some_0;
                assert(!in_ring(r, y));
                assert(!in_ring(r, z));
                assert(after.in_triangle(x, g));
            }
        } else {
            if v3 != v0 && v3 != v1 {
                assert(after.vertex_at(v3) == before.vertex_at(v3));
            }
            if v2 != v0 && v2 != v1 {
                assert(after.vertex_at(v2) == before.vertex_at(v2));
            }
            if w != v0 && w != v1 {
                assert(after.vertex_at(w) == before.vertex_at(w));
            }
            assert(after.in_triangle(h, f1));
            assert(after.in_triangle(p, f1));
            assert(after.in_triangle(tn, f1));
            assert(after.in_triangle(t, f2));
            assert(after.in_triangle(tp, f2));
            assert(after.in_triangle(n, f2));
        }
    }
    assert forall|w: VertexID| #[trigger] after.has_vertex(w) implies after.vertex_ok(w) by {
        assert(before.has_vertex(w));
        before.lemma_valid_vertex(w);
        if w != v0 && w != v1 {
            assert(after.vertex_at(w) == before.vertex_at(w));
            let g = before.vertex_at(w).halfedge;
            if g is Some {
                let g1 = g->Some_0;
                let y = before.halfedge_at(g1).twin->Some_0;
                before.lemma_valid_halfedge(g1);
                if y == h {
                    assert(g1 == t);
                }
                if y == t {
                    assert(g1 == h);
                }
            }
        }
    }
    assert forall|g: FaceID| #[trigger] after.has_face(g) implies after.face_ok(g) by {
        assert(before.has_face(g));
        before.lemma_valid_face(g);
        if g != f1 && g != f2 {
            assert(after.face_at(g) == before.face_at(g));
            let k = before.face_at(g).halfedge->Some_0;
            assert(k != n && k != tn);
            if !in_ring(r, k) {
                assert(after.halfedge_at(k) == before.halfedge_at(k));
            }
        }
    }
    after.lemma_valid_intro();
}

/// A flip turns the edge: after it, the flipped halfedge and its twin are still twins, and
/// they point to the corners of the two triangles that were off the edge (the halfedge to
/// the corner of its own triangle, its twin to the corner of the twin's triangle), so the
/// edge now joins those two corners.
pub proof fn lemma_flip_turns_edge(before: ConnectivityInfo, after: ConnectivityInfo, h: HalfEdgeID)
    requires
        before.is_valid(),
        before.has_halfedge(h),
        before.face_of(Some(h)) is Some,
        before.face_of(before.twin_of(Some(h))) is Some,
        after.state() == flipped(before, h),
    ensures
        after.has_halfedge(h),
        after.twin_of(Some(h)) == before.twin_of(Some(h)),
        after.vertex_of(Some(h)) == before.vertex_of(before.next_of(Some(h))),
        after.vertex_of(after.twin_of(Some(h))) == before.vertex_of(before.next_of(before.twin_of(Some(h)))),
{
    let (h0, n, p, t, tn, tp) = edge_ring(before, h);
    before.lemma_valid_halfedge(h);
    before.lemma_valid_halfedge(t);
    assert(before.has_halfedge(n) && before.has_halfedge(tn));
    before.lemma_valid_halfedge(n);
    before.lemma_valid_halfedge(tn);
    assert(before.next_of(Some(h)) == Some(n));
    assert(before.next_of(before.twin_of(Some(h))) == Some(tn));
    assert(before.vertex_of(Some(n)) is Some && before.vertex_of(Some(tn)) is Some);
    assert(h.index() != t.index());
    let v2 = before.vertex_of(Some(tn))->Some_0;
    let v3 = before.vertex_of(Some(n))->Some_0;
    let hm = after.halfedge_map();
    assert(hm.dom() == before.halfedge_map().dom());
    assert(hm[h.index()].vertex == Some(v3));
    assert(hm[h.index()].twin == Some(t));
    assert(hm[t.index()].vertex == Some(v2));
}

impl<P: Copy> DynamicMesh<P> {
    /// Flips the edge of a halfedge between two triangles: the edge comes to join the two
    /// corners of the triangles that are not on it. Fails on an edge on the boundary, and
    /// where the two corners are joined by an edge already; the mesh is then left as it was.
    #[verifier::rlimit(30)]
    pub fn flip_edge(&mut self, halfedge_id: &HalfEdgeID) -> (r: Result<(), Error>)
        requires
            old(self).wf(),
            old(self).connectivity().is_valid(),
            old(self).connectivity().has_halfedge(*halfedge_id),
        ensures
            final(self).wf(),
            ({
                let c = old(self).connectivity();
                let (h, n, p, t, tn, tp) = edge_ring(c, *halfedge_id);
                let possible = c.face_of(Some(h)) is Some && c.face_of(Some(t)) is Some && !c.links(
                    c.vertex_of(Some(tn))->Some_0,
                    c.vertex_of(Some(n))->Some_0,
                );
                &&& r is Ok <==> possible
                &&& r is Err ==> *final(self) == *old(self)
                &&& r is Ok ==> final(self).connectivity().state() == flipped(c, *halfedge_id)
                &&& r is Ok ==> final(self).position_map() == old(self).position_map()
                &&& r is Ok ==> final(self).normal_map() == old(self).normal_map()
                &&& r is Ok && flip_separated(c, *halfedge_id) ==> final(self).connectivity().is_valid()
            }),
    {
        let ghost c = self.connectivity();
        let ghost ring = edge_ring(c, *halfedge_id);
        proof {
            c.lemma_valid_halfedge(*halfedge_id);
        }
        let mut walker = self.walker_from_halfedge(halfedge_id);
        let face_id = match walker.face_id() {
            Some(f) => f,
            None => {
                return Err(Error::FailedToFlipEdge { message: "Trying to flip edge on boundary".to_owned() });
            },
        };
        proof {
            c.lemma_valid_halfedge(ring.1);
            c.lemma_valid_halfedge(ring.2);
            c.lemma_valid_halfedge(ring.3);
        }
        let next_id = walker.next_id().unwrap();
        let previous_id = walker.previous_id().unwrap();
        let v0 = walker.vertex_id().unwrap();
        walker.next();
        let v3 = walker.vertex_id().unwrap();
        walker.previous();

        walker.twin();
        let twin_id = walker.halfedge_id().unwrap();
        let twin_face_id = match walker.face_id() {
            Some(f) => f,
            None => {
                return Err(Error::FailedToFlipEdge { message: "Trying to flip edge on boundary".to_owned() });
            },
        };
        proof {
            c.lemma_valid_halfedge(ring.4);
            c.lemma_valid_halfedge(ring.5);
        }
        let twin_next_id = walker.next_id().unwrap();
        let twin_previous_id = walker.previous_id().unwrap();
        let v1 = walker.vertex_id().unwrap();
        let v2 = walker.next().vertex_id().unwrap();

        if self.connecting_edge(&v2, &v3).is_some() {
            return Err(
                Error::FailedToFlipEdge {
                    message: "Trying to flip edge which will connect two vertices that are already connected by another edge".to_owned(),
                },
            );
        }
        let h = *halfedge_id;
        let info = self.connectivity_info_mut();
        info.set_face_halfedge(&face_id, previous_id);
        info.set_face_halfedge(&twin_face_id, twin_previous_id);

        info.set_vertex_halfedge(&v0, next_id);
        info.set_vertex_halfedge(&v1, twin_next_id);

        info.set_halfedge_next(&h, previous_id);
        info.set_halfedge_next(&next_id, twin_id);
        info.set_halfedge_next(&previous_id, twin_next_id);
        info.set_halfedge_next(&twin_id, twin_previous_id);
        info.set_halfedge_next(&twin_next_id, h);
        info.set_halfedge_next(&twin_previous_id, next_id);

        info.set_halfedge_vertex(&h, v3);
        info.set_halfedge_vertex(&twin_id, v2);

        info.set_halfedge_face(&next_id, twin_face_id);
        info.set_halfedge_face(&twin_next_id, face_id);
        proof {
            if flip_separated(c, h) {
                lemma_flip_keeps_valid(c, self.connectivity(), h);
            }
        }
        Ok(())
    }
}

} // verus!
