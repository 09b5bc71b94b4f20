use vstd::prelude::*;
use crate::arena::{Arena, fresh_index, lemma_fresh_index};
use crate::ids::{VertexID, HalfEdgeID, FaceID, group_id_ext};

verus! {

broadcast use group_id_ext;

/// The connectivity stored for a vertex: one halfedge that starts at it.
#[derive(Clone, Copy, Debug)]
pub struct Vertex {
    pub halfedge: Option<HalfEdgeID>,
}

/// The connectivity stored for a halfedge: the vertex it points to, its twin,
/// the next halfedge around its face and the face it bounds.
#[derive(Clone, Copy, Debug)]
pub struct HalfEdge {
    pub vertex: Option<VertexID>,
    pub twin: Option<HalfEdgeID>,
    pub next: Option<HalfEdgeID>,
    pub face: Option<FaceID>,
}

/// The connectivity stored for a face: one of its halfedges.
#[derive(Clone, Copy, Debug)]
pub struct Face {
    pub halfedge: Option<HalfEdgeID>,
}

/// The vertices, halfedges and faces of a mesh and how they connect.
#[derive(Clone, Debug)]
pub struct ConnectivityInfo {
    vertices: Arena<Vertex>,
    halfedges: Arena<HalfEdge>,
    faces: Arena<Face>,
}

/// A halfedge that points to `vertex`, bounds `face` and continues with `next`.
pub open spec fn face_halfedge(vertex: VertexID, next: HalfEdgeID, face: FaceID) -> HalfEdge {
    HalfEdge { vertex: Some(vertex), twin: None, next: Some(next), face: Some(face) }
}

/// The indices that a new face gives its three halfedges, in the order the face's
/// first, second and third halfedge; they are created first, third and second.
pub open spec fn new_face_halfedge_indices(used: Set<usize>) -> (usize, usize, usize) {
    let h1 = fresh_index(used);
    let h3 = fresh_index(used.insert(h1));
    let h2 = fresh_index(used.insert(h1).insert(h3));
    (h1, h2, h3)
}


/// The three maps that make up the connectivity: vertices, halfedges and faces, by index.
pub type Connectivity = (Map<usize, Vertex>, Map<usize, HalfEdge>, Map<usize, Face>);

/// Whether the halfedge stored under index `k` points to `v`.
pub open spec fn points_to(hm: Map<usize, HalfEdge>, k: usize, v: VertexID) -> bool {
    hm.dom().contains(k) && hm[k].vertex == Some(v)
}

/// The smallest index of a halfedge that points to `v`, if any does.
pub open spec fn first_incoming(hm: Map<usize, HalfEdge>, v: VertexID) -> Option<usize> {
    if exists|k: usize| #[trigger] points_to(hm, k, v) {
        Some(
            choose|k: usize|
                #[trigger] points_to(hm, k, v) && forall|j: usize| j < k ==> !points_to(hm, j, v),
        )
    } else {
        None
    }
}

/// The vertices after a vertex whose halfedge was removed gets a new one: the twin of
/// the first halfedge that points to it; a vertex that no halfedge points to is removed.
pub open spec fn after_lonely_check(c: Connectivity, v: VertexID) -> Connectivity {
    match first_incoming(c.1, v) {
        Some(k) => (c.0.insert(v.index(), Vertex { halfedge: c.1[k].twin }), c.1, c.2),
        None => (c.0.remove(v.index()), c.1, c.2),
    }
}

/// The halfedge of smallest index that points to `v`, found by looking at the halfedges in
/// increasing index order.
proof fn lemma_first_incoming(hm: Map<usize, HalfEdge>, keys: Seq<usize>, i: int, v: VertexID)
    requires
        0 <= i < keys.len(),
        forall|a: int, b: int| 0 <= a < b < keys.len() ==> keys[a] < keys[b],
        forall|k: usize| hm.dom().contains(k) <==> keys.contains(k),
        forall|a: int| 0 <= a < i ==> !points_to(hm, #[trigger] keys[a], v),
        points_to(hm, keys[i], v),
    ensures
        first_incoming(hm, v) == Some(keys[i]),
{
    let k = keys[i];
    assert forall|j: usize| j < k implies !points_to(hm, j, v) by {
        if points_to(hm, j, v) {
            assert(keys.contains(j));
            let a = choose|a: int| 0 <= a < keys.len() && keys[a] == j;
            if a >= i {
                if a > i {
                    assert(keys[i] < keys[a]);
                }
            }
            assert(!points_to(hm, keys[a], v));
        }
    }
    let c = choose|c: usize| #[trigger] points_to(hm, c, v) && forall|j: usize| j < c ==> !points_to(hm, j, v);
    if c != k {
        if c < k {
        } else {
            assert(!points_to(hm, k, v));
        }
    }
}

/// A property that holds of `n` holds of a least number.
pub proof fn lemma_least(p: spec_fn(nat) -> bool, n: nat)
    requires
        p(n),
    ensures
        exists|i: nat| i <= n && #[trigger] p(i) && forall|j: nat| j < i ==> !#[trigger] p(j),
    decreases n,
{
    if exists|j: nat| j < n && #[trigger] p(j) {
        let j = choose|j: nat| j < n && #[trigger] p(j);
        lemma_least(p, j);
        let i = choose|i: nat| i <= j && #[trigger] p(i) && forall|k: nat| k < i ==> !#[trigger] p(k);
        assert(i <= n && p(i) && forall|k: nat| k < i ==> !#[trigger] p(k));
    } else {
        assert(n <= n && p(n) && forall|k: nat| k < n ==> !#[trigger] p(k));
    }
}

/// A vertex whose halfedge is `h`.
pub open spec fn vertex_uses(c: Connectivity, v: VertexID, h: HalfEdgeID) -> bool {
    c.0.dom().contains(v.index()) && c.0[v.index()].halfedge == Some(h)
}

/// The connectivity right after the edge of halfedge `h` and its twin `t` is cut out:
/// `p`, the halfedge before `h`, is left without a next halfedge, and `h` and `t` are removed.
pub open spec fn edge_cut(c: Connectivity, h: HalfEdgeID, t: HalfEdgeID, p: HalfEdgeID) -> Connectivity {
    let hm0 = if !p.spec_is_null() && c.1.dom().contains(p.index()) {
        c.1.insert(p.index(), HalfEdge { next: None, ..c.1[p.index()] })
    } else {
        c.1
    };
    (c.0, hm0.remove(t.index()).remove(h.index()), c.2)
}

/// Whether the edge of halfedge `h` and its twin `t` can be removed together with the
/// vertices that it leaves alone.
pub open spec fn edge_removal_ok(c: Connectivity, h: HalfEdgeID, t: HalfEdgeID, p: HalfEdgeID) -> bool {
    &&& !h.spec_is_null() && !t.spec_is_null()
    &&& c.1.dom().contains(h.index()) && c.1.dom().contains(t.index())
    &&& c.1[h.index()].vertex is Some && c.1[t.index()].vertex is Some
    &&& {
        let v1 = c.1[h.index()].vertex->Some_0;
        let v2 = c.1[t.index()].vertex->Some_0;
        let c1 = edge_cut(c, h, t, p);
        &&& !v1.spec_is_null() && c1.0.dom().contains(v1.index()) && c1.0[v1.index()].halfedge is Some
        &&& {
            let c2 = if vertex_uses(c1, v1, t) { after_lonely_check(c1, v1) } else { c1 };
            !v2.spec_is_null() && c2.0.dom().contains(v2.index()) && c2.0[v2.index()].halfedge is Some
        }
    }
}

/// The connectivity after removing the edge `h`, `t` with `p` the halfedge before `h`:
/// a vertex whose halfedge went is given another one, or removed when none is left.
pub open spec fn after_edge_removal(c: Connectivity, h: HalfEdgeID, t: HalfEdgeID, p: HalfEdgeID) -> Connectivity {
    let v1 = c.1[h.index()].vertex->Some_0;
    let v2 = c.1[t.index()].vertex->Some_0;
    let c1 = edge_cut(c, h, t, p);
    let c2 = if vertex_uses(c1, v1, t) { after_lonely_check(c1, v1) } else { c1 };
    if vertex_uses(c2, v2, h) { after_lonely_check(c2, v2) } else { c2 }
}

/// The three halfedges of face `f`, starting with the face's own halfedge.
pub open spec fn face_cycle(c: Connectivity, f: FaceID) -> (HalfEdgeID, HalfEdgeID, HalfEdgeID) {
    let e0 = c.2[f.index()].halfedge->Some_0;
    let e1 = c.1[e0.index()].next->Some_0;
    let e2 = c.1[e1.index()].next->Some_0;
    (e0, e1, e2)
}

/// Whether step `i` of removing a face, which looks at halfedge `e` with `p` before it, can be taken.
pub open spec fn face_step_ok(c: Connectivity, e: HalfEdgeID, p: HalfEdgeID) -> bool {
    &&& !e.spec_is_null() && c.1.dom().contains(e.index())
    &&& c.1[e.index()].twin is Some
    &&& {
        let t = c.1[e.index()].twin->Some_0;
        &&& !t.spec_is_null() && c.1.dom().contains(t.index())
        &&& (c.1[e.index()].face is None && c.1[t.index()].face is None) ==> edge_removal_ok(c, e, t, p)
    }
}

/// The connectivity after the step of removing a face that looks at halfedge `e`:
/// when neither `e` nor its twin bounds a face any more, the edge goes.
pub open spec fn after_face_step(c: Connectivity, e: HalfEdgeID, p: HalfEdgeID) -> Connectivity {
    let t = c.1[e.index()].twin->Some_0;
    if c.1[e.index()].face is None && c.1[t.index()].face is None {
        after_edge_removal(c, e, t, p)
    } else {
        c
    }
}

/// The halfedges with halfedge `e` no longer bounding a face.
pub open spec fn without_face(hm: Map<usize, HalfEdge>, e: HalfEdgeID) -> Map<usize, HalfEdge> {
    hm.insert(e.index(), HalfEdge { face: None, ..hm[e.index()] })
}

/// The connectivity right after face `f` is removed and its halfedges stop bounding it.
pub open spec fn face_detached(c: Connectivity, f: FaceID) -> Connectivity {
    let (e0, e1, e2) = face_cycle(c, f);
    (c.0, without_face(without_face(without_face(c.1, e0), e1), e2), c.2.remove(f.index()))
}

/// Whether face `f` can be removed: its three halfedges can be found, and each step of
/// taking its edges away can be taken.
pub open spec fn face_removal_ok(c: Connectivity, f: FaceID) -> bool {
    &&& !f.spec_is_null() && c.2.dom().contains(f.index())
    &&& c.2[f.index()].halfedge is Some
    &&& {
        let e0 = c.2[f.index()].halfedge->Some_0;
        &&& !e0.spec_is_null() && c.1.dom().contains(e0.index()) && c.1[e0.index()].next is Some
        &&& {
            let e1 = c.1[e0.index()].next->Some_0;
            &&& !e1.spec_is_null() && c.1.dom().contains(e1.index()) && c.1[e1.index()].next is Some
            &&& {
                let e2 = c.1[e1.index()].next->Some_0;
                let d = face_detached(c, f);
                &&& !e2.spec_is_null() && c.1.dom().contains(e2.index())
                &&& face_step_ok(d, e0, e2)
                &&& face_step_ok(after_face_step(d, e0, e2), e1, e0)
                &&& face_step_ok(after_face_step(after_face_step(d, e0, e2), e1, e0), e2, e1)
            }
        }
    }
}

/// The connectivity after removing face `f`.
pub open spec fn after_face_removal(c: Connectivity, f: FaceID) -> Connectivity {
    let (e0, e1, e2) = face_cycle(c, f);
    let d = face_detached(c, f);
    after_face_step(after_face_step(after_face_step(d, e0, e2), e1, e0), e2, e1)
}

/// `after` is `before` with face `f` added on the vertices `v1`, `v2`, `v3`: its three
/// halfedges get the indices that new halfedges get, run `v1` to `v2` to `v3` and back,
/// and each vertex is given the halfedge of the face that starts at it.
pub open spec fn face_created(before: Connectivity, after: Connectivity, f: FaceID, v1: VertexID, v2: VertexID, v3: VertexID) -> bool {
    let (h1, h2, h3) = new_face_halfedge_indices(before.1.dom());
    let e1 = HalfEdgeID::spec_new(h1);
    let e2 = HalfEdgeID::spec_new(h2);
    let e3 = HalfEdgeID::spec_new(h3);
    &&& after.2 == before.2.insert(f.index(), Face { halfedge: Some(e1) })
    &&& after.1 == before.1.insert(h1, face_halfedge(v2, e2, f)).insert(h3, face_halfedge(v1, e1, f)).insert(
        h2,
        face_halfedge(v3, e3, f),
    )
    &&& after.0 == before.0.insert(v1.index(), Vertex { halfedge: Some(e1) }).insert(
        v2.index(),
        Vertex { halfedge: Some(e2) },
    ).insert(v3.index(), Vertex { halfedge: Some(e3) })
}

impl ConnectivityInfo {
    /// The vertices, by index.
    pub closed spec fn vertex_map(&self) -> Map<usize, Vertex> {
        self.vertices@
    }

    /// The halfedges, by index.
    pub closed spec fn halfedge_map(&self) -> Map<usize, HalfEdge> {
        self.halfedges@
    }

    /// The faces, by index.
    pub closed spec fn face_map(&self) -> Map<usize, Face> {
        self.faces@
    }

    /// The vertices, halfedges and faces together.
    pub open spec fn state(&self) -> Connectivity {
        (self.vertex_map(), self.halfedge_map(), self.face_map())
    }

    pub closed spec fn wf(&self) -> bool {
        &&& self.vertices.wf()
        &&& self.halfedges.wf()
        &&& self.faces.wf()
    }

    pub open spec fn has_vertex(&self, id: VertexID) -> bool {
        !id.spec_is_null() && self.vertex_map().dom().contains(id.index())
    }

    pub open spec fn has_halfedge(&self, id: HalfEdgeID) -> bool {
        !id.spec_is_null() && self.halfedge_map().dom().contains(id.index())
    }

    pub open spec fn has_face(&self, id: FaceID) -> bool {
        !id.spec_is_null() && self.face_map().dom().contains(id.index())
    }

    pub open spec fn vertex_at(&self, id: VertexID) -> Vertex {
        self.vertex_map()[id.index()]
    }

    pub open spec fn halfedge_at(&self, id: HalfEdgeID) -> HalfEdge {
        self.halfedge_map()[id.index()]
    }

    pub open spec fn face_at(&self, id: FaceID) -> Face {
        self.face_map()[id.index()]
    }

    /// The information of a halfedge, when the identifier names a stored halfedge.
    pub open spec fn info_of(&self, h: Option<HalfEdgeID>) -> Option<HalfEdge> {
        match h {
            Some(id) => if self.has_halfedge(id) { Some(self.halfedge_at(id)) } else { None },
            None => None,
        }
    }

    /// The twin of a halfedge, when there is one.
    pub open spec fn twin_of(&self, h: Option<HalfEdgeID>) -> Option<HalfEdgeID> {
        match self.info_of(h) {
            Some(info) => info.twin,
            None => None,
        }
    }

    /// The next halfedge of a halfedge, when there is one.
    pub open spec fn next_of(&self, h: Option<HalfEdgeID>) -> Option<HalfEdgeID> {
        match self.info_of(h) {
            Some(info) => info.next,
            None => None,
        }
    }

    /// The vertex a halfedge points to, when there is one.
    pub open spec fn vertex_of(&self, h: Option<HalfEdgeID>) -> Option<VertexID> {
        match self.info_of(h) {
            Some(info) => info.vertex,
            None => None,
        }
    }

    /// The face a halfedge bounds, when there is one.
    pub open spec fn face_of(&self, h: Option<HalfEdgeID>) -> Option<FaceID> {
        match self.info_of(h) {
            Some(info) => info.face,
            None => None,
        }
    }

    /// The vertex a halfedge of a triangle starts at: the one that the halfedge two steps
    /// ahead of it points to.
    pub open spec fn origin(&self, h: HalfEdgeID) -> Option<VertexID> {
        self.vertex_of(self.next_of(self.next_of(Some(h))))
    }

    /// Every next halfedge that a halfedge names is stored.
    pub open spec fn next_closed(&self) -> bool {
        forall|h: HalfEdgeID|
            #[trigger] self.has_halfedge(h) && self.halfedge_at(h).next is Some ==> self.has_halfedge(
                self.halfedge_at(h).next->Some_0,
            )
    }

    /// The twin of halfedge `h` is a stored halfedge other than `h` whose twin is `h`, and
    /// when `h` lies in a triangle its twin points to the vertex `h` starts at.
    pub open spec fn twin_ok(&self, h: HalfEdgeID) -> bool {
        &&& self.halfedge_at(h).twin is Some
        &&& {
            let t = self.halfedge_at(h).twin->Some_0;
            &&& self.has_halfedge(t)
            &&& t != h
            &&& self.halfedge_at(t).twin == Some(h)
            &&& self.origin(h) is Some ==> self.halfedge_at(t).vertex == self.origin(h)
        }
    }

    /// Every halfedge without a twin points to a vertex and lies in a triangle, and every
    /// twin that is set is a proper one.
    pub open spec fn twins_ready(&self) -> bool {
        forall|h: HalfEdgeID|
            #[trigger] self.has_halfedge(h) ==> if self.halfedge_at(h).twin is None {
                self.halfedge_at(h).vertex is Some && self.origin(h) is Some
            } else {
                self.twin_ok(h)
            }
    }

    /// Every halfedge has a proper twin.
    pub open spec fn twins_complete(&self) -> bool {
        forall|h: HalfEdgeID| #[trigger] self.has_halfedge(h) ==> self.twin_ok(h)
    }

    /// Every halfedge of `earlier` is still stored, pointing to the same vertex and
    /// continuing with the same halfedge around the same face; halfedges added since
    /// bound no face, have no next halfedge, and are twins of earlier halfedges whose
    /// starting vertex they point to.
    pub open spec fn keeps_links_of(&self, earlier: ConnectivityInfo) -> bool {
        &&& forall|h: HalfEdgeID|
            #[trigger] earlier.has_halfedge(h) ==> {
                &&& self.has_halfedge(h)
                &&& self.halfedge_at(h).vertex == earlier.halfedge_at(h).vertex
                &&& self.halfedge_at(h).next == earlier.halfedge_at(h).next
                &&& self.halfedge_at(h).face == earlier.halfedge_at(h).face
            }
        &&& forall|h: HalfEdgeID|
            #[trigger] self.has_halfedge(h) && !earlier.has_halfedge(h) ==> {
                &&& self.halfedge_at(h).next is None
                &&& self.halfedge_at(h).face is None
                &&& self.halfedge_at(h).twin is Some
                &&& earlier.has_halfedge(self.halfedge_at(h).twin->Some_0)
                &&& self.halfedge_at(h).vertex == earlier.origin(self.halfedge_at(h).twin->Some_0)
            }
    }

    /// Halfedges `h` and `g` run between the same two vertices in opposite directions: `g`
    /// starts where `h` ends and ends where `h` starts.
    pub open spec fn runs_opposite(&self, h: HalfEdgeID, g: HalfEdgeID) -> bool {
        &&& self.halfedge_at(h).vertex is Some
        &&& self.origin(h) is Some
        &&& self.halfedge_at(g).vertex == self.origin(h)
        &&& self.origin(g) == self.halfedge_at(h).vertex
    }

    /// The twin of `h` is a halfedge that `earlier` did not have.
    pub open spec fn twin_outside(&self, earlier: ConnectivityInfo, h: HalfEdgeID) -> bool {
        self.halfedge_at(h).twin matches Some(t) && !earlier.has_halfedge(t)
    }

    /// The twin of `h` is a halfedge that `earlier` had.
    pub open spec fn twin_inside(&self, earlier: ConnectivityInfo, h: HalfEdgeID) -> bool {
        self.halfedge_at(h).twin matches Some(t) && earlier.has_halfedge(t)
    }

    /// Of two halfedges of `earlier` without a twin there that run opposite ways between the
    /// same two vertices, at most one got a new halfedge as its twin: where one has its twin
    /// outside `earlier`, the other has its twin among the halfedges of `earlier`.
    pub open spec fn pairs_opposites_of(&self, earlier: ConnectivityInfo) -> bool {
        forall|h: HalfEdgeID, g: HalfEdgeID|
            #[trigger] earlier.runs_opposite(h, g) && earlier.has_halfedge(h) && earlier.has_halfedge(g) && h != g
                && earlier.halfedge_at(h).twin is None && earlier.halfedge_at(g).twin is None
                && self.twin_outside(earlier, h) ==> self.twin_inside(earlier, g)
    }

    /// Every halfedge of `earlier` that had a twin there still has the same twin.
    pub open spec fn keeps_twins_of(&self, earlier: ConnectivityInfo) -> bool {
        forall|h: HalfEdgeID|
            #[trigger] earlier.has_halfedge(h) && earlier.halfedge_at(h).twin is Some ==> self.halfedge_at(h).twin
                == earlier.halfedge_at(h).twin
    }

    /// Two halfedges that bound faces and run opposite ways between the same two vertices are
    /// not both on the boundary: where the twin of one bounds no face, the twin of the other
    /// bounds one.
    pub open spec fn faces_joined(&self) -> bool {
        forall|h: HalfEdgeID, g: HalfEdgeID|
            #[trigger] self.runs_opposite(h, g) && self.has_halfedge(h) && self.has_halfedge(g) && h != g
                && self.halfedge_at(h).face is Some && self.halfedge_at(g).face is Some
                && self.face_of(self.halfedge_at(h).twin) is None ==> self.face_of(self.halfedge_at(g).twin) is Some
    }

    /// Every halfedge bounds a face or is the twin of one that does.
    pub open spec fn halfedges_on_faces(&self) -> bool {
        forall|h: HalfEdgeID|
            #[trigger] self.has_halfedge(h) ==> self.halfedge_at(h).face is Some || self.face_of(self.halfedge_at(h).twin) is Some
    }

    /// Finding the twins of a mesh of triangles without twins leaves every halfedge bounding a
    /// face or the twin of one that does.
    pub proof fn lemma_twins_on_faces(start: ConnectivityInfo, end: ConnectivityInfo)
        requires
            start.triangles_only(),
            end.keeps_links_of(start),
        ensures
            end.halfedges_on_faces(),
    {
        reveal(ConnectivityInfo::triangles_only);
        assert forall|h: HalfEdgeID| #[trigger] end.has_halfedge(h) implies end.halfedge_at(h).face is Some || end.face_of(
            end.halfedge_at(h).twin,
        ) is Some by {
            if !start.has_halfedge(h) {
                let t = end.halfedge_at(h).twin->Some_0;
                assert(start.has_halfedge(t));
                assert(end.has_halfedge(t));
            }
        }
    }

    /// A halfedge of `earlier` keeps where it starts and ends in a connectivity that keeps the
    /// links of `earlier`.
    pub proof fn lemma_kept_ends(earlier: ConnectivityInfo, later: ConnectivityInfo, h: HalfEdgeID)
        requires
            earlier.next_closed(),
            later.keeps_links_of(earlier),
            earlier.has_halfedge(h),
        ensures
            later.has_halfedge(h),
            later.halfedge_at(h).vertex == earlier.halfedge_at(h).vertex,
            later.halfedge_at(h).face == earlier.halfedge_at(h).face,
            later.origin(h) == earlier.origin(h),
    {
        let n = earlier.halfedge_at(h).next;
        if n is Some {
            assert(earlier.has_halfedge(n->Some_0));
            let m = earlier.halfedge_at(n->Some_0).next;
            if m is Some {
                assert(earlier.has_halfedge(m->Some_0));
            }
        }
    }

    /// Where twins are found for a mesh of triangles without twins, so that of two halfedges
    /// running opposite ways at most one gets a new twin, two faces that share an edge are
    /// joined across it.
    pub proof fn lemma_pairs_join_faces(start: ConnectivityInfo, end: ConnectivityInfo)
        requires
            start.triangles_only(),
            end.keeps_links_of(start),
            end.pairs_opposites_of(start),
            end.twins_complete(),
        ensures
            end.faces_joined(),
    {
        reveal(ConnectivityInfo::triangles_only);
        assert forall|h: HalfEdgeID, g: HalfEdgeID|
            #[trigger] end.runs_opposite(h, g) && end.has_halfedge(h) && end.has_halfedge(g) && h != g
                && end.halfedge_at(h).face is Some && end.halfedge_at(g).face is Some
                && end.face_of(end.halfedge_at(h).twin) is None implies end.face_of(end.halfedge_at(g).twin) is Some by {
            assert(start.has_halfedge(h));
            assert(start.has_halfedge(g));
            ConnectivityInfo::lemma_kept_ends(start, end, h);
            ConnectivityInfo::lemma_kept_ends(start, end, g);
            assert(start.runs_opposite(h, g));
            assert(end.twin_ok(h));
            let t = end.halfedge_at(h).twin->Some_0;
            if start.has_halfedge(t) {
                ConnectivityInfo::lemma_kept_ends(start, end, t);
            }
            assert(end.twin_outside(start, h));
            assert(end.twin_inside(start, g));
            let u = end.halfedge_at(g).twin->Some_0;
            ConnectivityInfo::lemma_kept_ends(start, end, u);
        }
    }

    /// Making two twin-less halfedges each other's twins, where the second runs back the
    /// way the first came or is new on the boundary, keeps twins ready and links kept.
    pub proof fn lemma_twin_set(
        start: ConnectivityInfo,
        before: ConnectivityInfo,
        middle: ConnectivityInfo,
        after: ConnectivityInfo,
        h1: HalfEdgeID,
        h2: HalfEdgeID,
        v1: VertexID,
        v2: VertexID,
    )
        requires
            start.next_closed(),
            start.has_halfedge(h1),
            before.twins_ready(),
            before.next_closed(),
            before.keeps_links_of(start),
            before.has_halfedge(h1),
            before.halfedge_at(h1).twin is None,
            before.halfedge_at(h1).vertex == Some(v1),
            before.origin(h1) == Some(v2),
            ({
                ||| {
                    &&& middle == before
                    &&& before.has_halfedge(h2)
                    &&& h2 != h1
                    &&& before.halfedge_at(h2).twin is None
                    &&& before.halfedge_at(h2).vertex == Some(v2)
                    &&& before.origin(h2) == Some(v1)
                }
                ||| {
                    &&& !h2.spec_is_null()
                    &&& !before.halfedge_map().dom().contains(h2.index())
                    &&& middle.halfedge_map() == before.halfedge_map().insert(
                        h2.index(),
                        HalfEdge { vertex: Some(v2), twin: None, next: None, face: None },
                    )
                    &&& middle.vertex_map() == before.vertex_map()
                    &&& middle.face_map() == before.face_map()
                }
            }),
            middle.has_halfedge(h1),
            middle.has_halfedge(h2),
            after.halfedge_map() == middle.halfedge_map().insert(
                h1.index(),
                HalfEdge { twin: Some(h2), ..middle.halfedge_at(h1) },
            ).insert(
                h2.index(),
                HalfEdge {
                    twin: Some(h1),
                    ..middle.halfedge_map().insert(
                        h1.index(),
                        HalfEdge { twin: Some(h2), ..middle.halfedge_at(h1) },
                    )[h2.index()]
                },
            ),
            after.vertex_map() == middle.vertex_map(),
            after.face_map() == middle.face_map(),
        ensures
            after.twins_ready(),
            after.next_closed(),
            after.keeps_links_of(start),
            after.halfedge_at(h1).twin is Some,
            forall|h: HalfEdgeID| #[trigger] before.has_halfedge(h) ==> after.has_halfedge(h),
            forall|h: HalfEdgeID|
                #[trigger] before.has_halfedge(h) && before.halfedge_at(h).twin is Some ==> after.halfedge_at(h).twin is Some,
            forall|h: HalfEdgeID|
                #[trigger] before.has_halfedge(h) && h != h1 && h != h2 ==> after.halfedge_at(h) == before.halfedge_at(h),
            after.halfedge_at(h1).twin == Some(h2),
            after.halfedge_at(h2).twin == Some(h1),
            after.has_halfedge(h2),
            !before.has_halfedge(h2) ==> !start.has_halfedge(h2),
    {
        assert(h1 != h2);
        assert(h1.index() != h2.index());
        // the halfedges other than h1 and h2 keep everything
        assert forall|h: HalfEdgeID| #[trigger] middle.has_halfedge(h) && h != h1 && h != h2 implies after.has_halfedge(h)
            && after.halfedge_at(h) == middle.halfedge_at(h) by {
            assert(h.index() != h1.index() && h.index() != h2.index());
        }
        // origins of halfedges of `before` do not change
        assert forall|h: HalfEdgeID| #[trigger] before.has_halfedge(h) implies after.origin(h) == before.origin(h)
            && after.halfedge_at(h).vertex == before.halfedge_at(h).vertex
            && after.halfedge_at(h).next == before.halfedge_at(h).next
            && after.halfedge_at(h).face == before.halfedge_at(h).face by {
            let n = before.halfedge_at(h).next;
            if n is Some {
                let n1 = n->Some_0;
                assert(before.has_halfedge(n1));
                let m = before.halfedge_at(n1).next;
                if m is Some {
                    let m1 = m->Some_0;
                    assert(before.has_halfedge(m1));
                    if m1 != h1 && m1 != h2 {
                        assert(middle.has_halfedge(m1));
                    }
                }
                if n1 != h1 && n1 != h2 {
                    assert(middle.has_halfedge(n1));
                }
            }
            if h != h1 && h != h2 {
                assert(middle.has_halfedge(h));
            }
        }
        assert forall|h: HalfEdgeID| #[trigger] after.has_halfedge(h) implies (if after.halfedge_at(h).twin is None {
            after.halfedge_at(h).vertex is Some && after.origin(h) is Some
        } else {
            after.twin_ok(h)
        }) by {
            if h == h1 {
                assert(before.has_halfedge(h1));
                if before.has_halfedge(h2) {
                } else {
                    assert(after.origin(h2) is None);
                }
            } else if h == h2 {
                if before.has_halfedge(h2) {
                } else {
                    assert(after.halfedge_at(h2).next is None);
                    assert(after.origin(h2) is None);
                }
            } else {
                assert(middle.has_halfedge(h));
                assert(before.has_halfedge(h));
                if before.halfedge_at(h).twin is Some {
                    assert(before.twin_ok(h));
                    let t = before.halfedge_at(h).twin->Some_0;
                    if t == h1 {
                        assert(before.twin_ok(t));
                    }
                    if t == h2 {
                        assert(before.has_halfedge(h2));
                        assert(before.twin_ok(t));
                    }
                    assert(t != h1 && t != h2);
                    assert(after.halfedge_at(t) == middle.halfedge_at(t));
                }
            }
        }
        assert forall|h: HalfEdgeID|
            #[trigger] after.has_halfedge(h) && after.halfedge_at(h).next is Some implies after.has_halfedge(
                after.halfedge_at(h).next->Some_0,
            ) by {
            if h != h2 || before.has_halfedge(h2) {
                assert(before.has_halfedge(h));
            }
        }
        assert forall|h: HalfEdgeID| #[trigger] start.has_halfedge(h) implies {
            &&& after.has_halfedge(h)
            &&& after.halfedge_at(h).vertex == start.halfedge_at(h).vertex
            &&& after.halfedge_at(h).next == start.halfedge_at(h).next
            &&& after.halfedge_at(h).face == start.halfedge_at(h).face
        } by {
            assert(before.has_halfedge(h));
        }
        assert forall|h: HalfEdgeID| #[trigger] before.has_halfedge(h) && h != h1 && h != h2 implies after.halfedge_at(h)
            == before.halfedge_at(h) by {
            assert(h.index() != h1.index() && h.index() != h2.index());
            assert(middle.has_halfedge(h));
        }
        // the starting vertex of h1 is the same as at the start
        let n = start.halfedge_at(h1).next->Some_0;
        assert(start.has_halfedge(n));
        let m = start.halfedge_at(n).next->Some_0;
        assert(start.has_halfedge(m));
        assert(start.origin(h1) == before.origin(h1));
        assert forall|h: HalfEdgeID| #[trigger] after.has_halfedge(h) && !start.has_halfedge(h) implies {
            &&& after.halfedge_at(h).next is None
            &&& after.halfedge_at(h).face is None
            &&& after.halfedge_at(h).twin is Some
            &&& start.has_halfedge(after.halfedge_at(h).twin->Some_0)
            &&& after.halfedge_at(h).vertex == start.origin(after.halfedge_at(h).twin->Some_0)
        } by {
            if before.has_halfedge(h) {
                assert(h != h1);
                if h == h2 {
                    assert(false);
                }
            } else {
                assert(h == h2);
            }
        }
    }

    /// Halfedge `h` bounds face `f` together with the two halfedges after it, the third of
    /// which leads back to `h`.
    pub open spec fn in_triangle(&self, h: HalfEdgeID, f: FaceID) -> bool {
        let n = self.halfedge_at(h).next;
        &&& n is Some && self.has_halfedge(n->Some_0)
        &&& {
            let n1 = n->Some_0;
            let m = self.halfedge_at(n1).next;
            &&& m is Some && self.has_halfedge(m->Some_0)
            &&& self.halfedge_at(m->Some_0).next == Some(h)
            &&& self.halfedge_at(n1).face == Some(f)
            &&& self.halfedge_at(m->Some_0).face == Some(f)
        }
    }

    /// A vertex has no halfedge, or one whose twin points back to the vertex.
    pub open spec fn vertex_ok(&self, v: VertexID) -> bool {
        match self.vertex_at(v).halfedge {
            None => true,
            Some(h) => {
                &&& self.has_halfedge(h)
                &&& self.halfedge_at(h).twin is Some
                &&& self.has_halfedge(self.halfedge_at(h).twin->Some_0)
                &&& self.halfedge_at(self.halfedge_at(h).twin->Some_0).vertex == Some(v)
            },
        }
    }

    /// A halfedge points to a stored vertex that has a halfedge, and when it bounds a face,
    /// the face is stored and the halfedge lies in one of its triangles.
    pub open spec fn halfedge_ok(&self, h: HalfEdgeID) -> bool {
        &&& self.halfedge_at(h).vertex is Some
        &&& self.has_vertex(self.halfedge_at(h).vertex->Some_0)
        &&& self.vertex_at(self.halfedge_at(h).vertex->Some_0).halfedge is Some
        &&& self.halfedge_at(h).face matches Some(f) ==> self.has_face(f) && self.in_triangle(h, f)
    }

    /// A face has a stored halfedge that bounds it.
    pub open spec fn face_ok(&self, f: FaceID) -> bool {
        &&& self.face_at(f).halfedge is Some
        &&& self.has_halfedge(self.face_at(f).halfedge->Some_0)
        &&& self.halfedge_at(self.face_at(f).halfedge->Some_0).face == Some(f)
    }

    /// A valid mesh: every halfedge has a proper twin, every vertex, halfedge and face is
    /// consistent with what it refers to, and every face is a triangle.
    #[verifier::opaque]
    pub open spec fn is_valid(&self) -> bool {
        &&& self.twins_complete()
        &&& forall|v: VertexID| #[trigger] self.has_vertex(v) ==> self.vertex_ok(v)
        &&& forall|h: HalfEdgeID| #[trigger] self.has_halfedge(h) ==> self.halfedge_ok(h)
        &&& forall|f: FaceID| #[trigger] self.has_face(f) ==> self.face_ok(f)
    }

    pub proof fn lemma_valid_vertex(&self, v: VertexID)
        requires
            self.is_valid(),
            self.has_vertex(v),
        ensures
            self.vertex_ok(v),
    {
        reveal(ConnectivityInfo::is_valid);
    }

    pub proof fn lemma_valid_halfedge(&self, h: HalfEdgeID)
        requires
            self.is_valid(),
            self.has_halfedge(h),
        ensures
            self.halfedge_ok(h),
            self.twin_ok(h),
    {
        reveal(ConnectivityInfo::is_valid);
    }

    /// In a valid mesh, the twin of the twin of a halfedge is the halfedge, and three steps
    /// along a face from one of its halfedges lead back to it, staying on the face.
    pub proof fn lemma_walk_returns(&self, h: HalfEdgeID)
        requires
            self.is_valid(),
            self.has_halfedge(h),
        ensures
            self.twin_of(self.twin_of(Some(h))) == Some(h),
            self.face_of(Some(h)) is Some ==> self.next_iter(Some(h), 3) == Some(h),
            self.face_of(Some(h)) is Some ==> self.face_of(self.next_of(Some(h))) == self.face_of(Some(h)),
            self.face_of(Some(h)) is Some ==> self.face_of(self.next_of(self.next_of(Some(h)))) == self.face_of(Some(h)),
    {
        self.lemma_valid_halfedge(h);
        let t = self.halfedge_at(h).twin->Some_0;
        if self.face_of(Some(h)) is Some {
            let n = self.halfedge_at(h).next->Some_0;
            let m = self.halfedge_at(n).next->Some_0;
            assert(self.next_iter(Some(h), 0) == Some(h));
            assert(self.next_iter(Some(h), 1) == Some(n));
            assert(self.next_iter(Some(h), 2) == Some(m));
            assert(self.next_iter(Some(h), 3) == Some(h));
        }
    }

    pub proof fn lemma_valid_face(&self, f: FaceID)
        requires
            self.is_valid(),
            self.has_face(f),
        ensures
            self.face_ok(f),
    {
        reveal(ConnectivityInfo::is_valid);
    }

    /// The four parts of a valid mesh make one.
    pub proof fn lemma_valid_intro(&self)
        requires
            self.twins_complete(),
            forall|v: VertexID| #[trigger] self.has_vertex(v) ==> self.vertex_ok(v),
            forall|h: HalfEdgeID| #[trigger] self.has_halfedge(h) ==> self.halfedge_ok(h),
            forall|f: FaceID| #[trigger] self.has_face(f) ==> self.face_ok(f),
        ensures
            self.is_valid(),
    {
        reveal(ConnectivityInfo::is_valid);
    }

    pub proof fn lemma_valid_twins(&self)
        requires
            self.is_valid(),
        ensures
            self.twins_complete(),
    {
        reveal(ConnectivityInfo::is_valid);
    }

    /// A mesh of triangles whose twins are yet to be found: every halfedge bounds a face,
    /// has no twin and is otherwise consistent, and every vertex with a halfedge starts it.
    #[verifier::opaque]
    pub open spec fn triangles_only(&self) -> bool {
        &&& self.next_closed()
        &&& forall|v: VertexID|
            #[trigger] self.has_vertex(v) ==> match self.vertex_at(v).halfedge {
                None => true,
                Some(h) => self.has_halfedge(h) && self.origin(h) == Some(v),
            }
        &&& forall|h: HalfEdgeID|
            #[trigger] self.has_halfedge(h) ==> {
                &&& self.halfedge_ok(h)
                &&& self.halfedge_at(h).twin is None
                &&& self.halfedge_at(h).face is Some
            }
        &&& forall|f: FaceID| #[trigger] self.has_face(f) ==> self.face_ok(f)
    }

    /// What a mesh of triangles whose twins are yet to be found says of one of its halfedges.
    pub proof fn lemma_tri_halfedge(&self, h: HalfEdgeID)
        requires
            self.triangles_only(),
            self.has_halfedge(h),
        ensures
            self.halfedge_ok(h),
            self.halfedge_at(h).twin is None,
            self.halfedge_at(h).face is Some,
    {
        reveal(ConnectivityInfo::triangles_only);
    }

    /// What a mesh of triangles whose twins are yet to be found says of one of its vertices.
    pub proof fn lemma_tri_vertex(&self, v: VertexID)
        requires
            self.triangles_only(),
            self.has_vertex(v),
        ensures
            self.vertex_at(v).halfedge matches Some(h) ==> self.has_halfedge(h) && self.origin(h) == Some(v),
    {
        reveal(ConnectivityInfo::triangles_only);
    }

    /// What a mesh of triangles whose twins are yet to be found says of one of its faces.
    pub proof fn lemma_tri_face(&self, f: FaceID)
        requires
            self.triangles_only(),
            self.has_face(f),
        ensures
            self.face_ok(f),
    {
        reveal(ConnectivityInfo::triangles_only);
    }

    /// A mesh of triangles whose twins are yet to be found is ready for them to be found.
    pub proof fn lemma_tri_twins_ready(&self)
        requires
            self.triangles_only(),
        ensures
            self.next_closed(),
            self.twins_ready(),
    {
        reveal(ConnectivityInfo::triangles_only);
        assert forall|h: HalfEdgeID| #[trigger] self.has_halfedge(h) implies (if self.halfedge_at(h).twin is None {
            self.halfedge_at(h).vertex is Some && self.origin(h) is Some
        } else {
            self.twin_ok(h)
        }) by {
            self.lemma_tri_halfedge(h);
            let n = self.halfedge_at(h).next->Some_0;
            let m = self.halfedge_at(n).next->Some_0;
            self.lemma_tri_halfedge(m);
        }
    }

    /// The four parts of a mesh of triangles whose twins are yet to be found make one.
    pub proof fn lemma_tri_intro(&self)
        requires
            self.next_closed(),
            forall|v: VertexID|
                #[trigger] self.has_vertex(v) ==> match self.vertex_at(v).halfedge {
                    None => true,
                    Some(h) => self.has_halfedge(h) && self.origin(h) == Some(v),
                },
            forall|h: HalfEdgeID|
                #[trigger] self.has_halfedge(h) ==> {
                    &&& self.halfedge_ok(h)
                    &&& self.halfedge_at(h).twin is None
                    &&& self.halfedge_at(h).face is Some
                },
            forall|f: FaceID| #[trigger] self.has_face(f) ==> self.face_ok(f),
        ensures
            self.triangles_only(),
    {
        reveal(ConnectivityInfo::triangles_only);
    }

    /// Adding a face to a mesh of triangles whose twins are yet to be found keeps it so.
    #[verifier::rlimit(30)]
    pub proof fn lemma_face_created_keeps_triangles(
        before: ConnectivityInfo,
        after: ConnectivityInfo,
        f: FaceID,
        v1: VertexID,
        v2: VertexID,
        v3: VertexID,
    )
        requires
            before.wf(),
            before.triangles_only(),
            before.has_vertex(v1),
            before.has_vertex(v2),
            before.has_vertex(v3),
            before.halfedge_map().dom().len() < usize::MAX / 2 - 3,
            before.face_map().dom().len() < usize::MAX / 2,
            !f.spec_is_null(),
            f.index() == fresh_index(before.face_map().dom()),
            face_created(before.state(), after.state(), f, v1, v2, v3),
        ensures
            after.triangles_only(),
            after.halfedge_map().dom().len() == before.halfedge_map().dom().len() + 3,
            after.face_map().dom() == before.face_map().dom().insert(f.index()),
            after.vertex_map().dom() == before.vertex_map().dom(),
    {
        before.lemma_finite();
        let d = before.halfedge_map().dom();
        let (h1, h2, h3) = new_face_halfedge_indices(d);
        lemma_fresh_index(d);
        assert(d.insert(h1).len() == d.len() + 1);
        lemma_fresh_index(d.insert(h1));
        assert(d.insert(h1).insert(h3).len() == d.len() + 2);
        lemma_fresh_index(d.insert(h1).insert(h3));
        lemma_fresh_index(before.face_map().dom());
        let e1 = HalfEdgeID::spec_new(h1);
        let e2 = HalfEdgeID::spec_new(h2);
        let e3 = HalfEdgeID::spec_new(h3);
        assert(h1 != h2 && h1 != h3 && h2 != h3);
        assert(after.halfedge_at(e1) == face_halfedge(v2, e2, f));
        assert(after.halfedge_at(e2) == face_halfedge(v3, e3, f));
        assert(after.halfedge_at(e3) == face_halfedge(v1, e1, f));
        assert(after.halfedge_map().dom() =~= d.insert(h1).insert(h3).insert(h2));
        assert(after.face_map().dom() =~= before.face_map().dom().insert(f.index()));
        assert(after.vertex_map().dom() =~= before.vertex_map().dom());
        // halfedges of `before` keep their connectivity and their starting vertices
        assert forall|h: HalfEdgeID| #[trigger] before.has_halfedge(h) implies after.has_halfedge(h)
            && after.halfedge_at(h) == before.halfedge_at(h) && after.origin(h) == before.origin(h) by {
            before.lemma_tri_halfedge(h);
            assert(h.index() != h1 && h.index() != h2 && h.index() != h3);
            let n = before.halfedge_at(h).next->Some_0;
            assert(n.index() != h1 && n.index() != h2 && n.index() != h3);
            let m = before.halfedge_at(n).next->Some_0;
            assert(m.index() != h1 && m.index() != h2 && m.index() != h3);
        }
        assert(after.origin(e1) == Some(v1));
        assert(after.origin(e2) == Some(v2));
        assert(after.origin(e3) == Some(v3));
        assert forall|h: HalfEdgeID|
            #[trigger] after.has_halfedge(h) && after.halfedge_at(h).next is Some implies after.has_halfedge(
                after.halfedge_at(h).next->Some_0,
            ) by {
            if h != e1 && h != e2 && h != e3 {
                assert(before.has_halfedge(h));
                before.lemma_tri_halfedge(h);
            }
        }
        assert forall|v: VertexID| #[trigger] after.has_vertex(v) implies match after.vertex_at(v).halfedge {
            None => true,
            Some(h) => after.has_halfedge(h) && after.origin(h) == Some(v),
        } by {
            if v != v1 && v != v2 && v != v3 {
                assert(before.has_vertex(v));
                assert(after.vertex_at(v) == before.vertex_at(v));
                before.lemma_tri_vertex(v);
            }
        }
        assert forall|h: HalfEdgeID| #[trigger] after.has_halfedge(h) implies {
            &&& after.halfedge_ok(h)
            &&& after.halfedge_at(h).twin is None
            &&& after.halfedge_at(h).face is Some
        } by {
            if h != e1 && h != e2 && h != e3 {
                assert(before.has_halfedge(h));
                before.lemma_tri_halfedge(h);
                let w = before.halfedge_at(h).vertex->Some_0;
                if w != v1 && w != v2 && w != v3 {
                    assert(after.vertex_at(w) == before.vertex_at(w));
                }
                let g = before.halfedge_at(h).face->Some_0;
                assert(after.has_face(g));
                let n = before.halfedge_at(h).next->Some_0;
                let m = before.halfedge_at(n).next->Some_0;
                assert(before.has_halfedge(n));
                assert(before.has_halfedge(m));
                assert(after.in_triangle(h, g));
            } else {
                assert(after.has_face(f));
            }
        }
        assert forall|g: FaceID| #[trigger] after.has_face(g) implies after.face_ok(g) by {
            if g != f {
                assert(before.has_face(g));
                before.lemma_tri_face(g);
                assert(before.has_halfedge(before.face_at(g).halfedge->Some_0));
            }
        }
        after.lemma_tri_intro();
    }

    /// Whether every halfedge that bounds a face is one of three different halfedges that lead
    /// from the face's own halfedge round to it.
    pub open spec fn faces_are_triangles(&self) -> bool {
        forall|h: HalfEdgeID|
            #[trigger] self.has_halfedge(h) && self.halfedge_at(h).face is Some ==> {
                let s = self.face_at(self.halfedge_at(h).face->Some_0).halfedge;
                let n = self.next_of(s);
                let m = self.next_of(n);
                &&& s matches Some(s1) && self.has_halfedge(s1)
                &&& n matches Some(n1) && self.has_halfedge(n1)
                &&& m matches Some(m1) && self.has_halfedge(m1)
                &&& self.next_of(m) == s
                &&& s != n && n != m && m != s
                &&& Some(h) == s || Some(h) == n || Some(h) == m
            }
    }

    /// Adding a face to a mesh of triangles whose twins are yet to be found keeps every face
    /// one triangle.
    #[verifier::rlimit(30)]
    pub proof fn lemma_face_created_keeps_face_triangles(
        before: ConnectivityInfo,
        after: ConnectivityInfo,
        f: FaceID,
        v1: VertexID,
        v2: VertexID,
        v3: VertexID,
    )
        requires
            before.wf(),
            before.triangles_only(),
            before.faces_are_triangles(),
            before.halfedge_map().dom().len() < usize::MAX / 2 - 3,
            before.face_map().dom().len() < usize::MAX / 2,
            !f.spec_is_null(),
            f.index() == fresh_index(before.face_map().dom()),
            face_created(before.state(), after.state(), f, v1, v2, v3),
        ensures
            after.faces_are_triangles(),
    {
        before.lemma_finite();
        let d = before.halfedge_map().dom();
        let (h1, h2, h3) = new_face_halfedge_indices(d);
        lemma_fresh_index(d);
        assert(d.insert(h1).len() == d.len() + 1);
        lemma_fresh_index(d.insert(h1));
        assert(d.insert(h1).insert(h3).len() == d.len() + 2);
        lemma_fresh_index(d.insert(h1).insert(h3));
        lemma_fresh_index(before.face_map().dom());
        let e1 = HalfEdgeID::spec_new(h1);
        let e2 = HalfEdgeID::spec_new(h2);
        let e3 = HalfEdgeID::spec_new(h3);
        assert(h1 != h2 && h1 != h3 && h2 != h3);
        assert(after.halfedge_at(e1) == face_halfedge(v2, e2, f));
        assert(after.halfedge_at(e2) == face_halfedge(v3, e3, f));
        assert(after.halfedge_at(e3) == face_halfedge(v1, e1, f));
        assert(after.halfedge_map().dom() =~= d.insert(h1).insert(h3).insert(h2));
        assert(after.face_at(f).halfedge == Some(e1));
        assert forall|h: HalfEdgeID| #[trigger] after.has_halfedge(h) && after.halfedge_at(h).face is Some implies {
            let s = after.face_at(after.halfedge_at(h).face->Some_0).halfedge;
            let n = after.next_of(s);
            let m = after.next_of(n);
            &&& s matches Some(s1) && after.has_halfedge(s1)
            &&& n matches Some(n1) && after.has_halfedge(n1)
            &&& m matches Some(m1) && after.has_halfedge(m1)
            &&& after.next_of(m) == s
            &&& s != n && n != m && m != s
            &&& Some(h) == s || Some(h) == n || Some(h) == m
        } by {
            if h != e1 && h != e2 && h != e3 {
                assert(before.has_halfedge(h));
                assert(after.halfedge_at(h) == before.halfedge_at(h));
                let g = before.halfedge_at(h).face->Some_0;
                before.lemma_tri_halfedge(h);
                assert(before.has_face(g));
                assert(g != f);
                assert(after.face_at(g) == before.face_at(g));
                let s1 = before.face_at(g).halfedge->Some_0;
                let n1 = before.halfedge_at(s1).next->Some_0;
                let m1 = before.halfedge_at(n1).next->Some_0;
                assert(s1.index() != h1 && s1.index() != h2 && s1.index() != h3);
                assert(n1.index() != h1 && n1.index() != h2 && n1.index() != h3);
                assert(m1.index() != h1 && m1.index() != h2 && m1.index() != h3);
                assert(after.halfedge_at(s1) == before.halfedge_at(s1));
                assert(after.halfedge_at(n1) == before.halfedge_at(n1));
                assert(after.halfedge_at(m1) == before.halfedge_at(m1));
            }
        }
    }

    /// Finding the twins of a mesh keeps every face one triangle.
    pub proof fn lemma_twins_keep_face_triangles(start: ConnectivityInfo, end: ConnectivityInfo)
        requires
            start.faces_are_triangles(),
            end.keeps_links_of(start),
            end.face_map() == start.face_map(),
        ensures
            end.faces_are_triangles(),
    {
        assert forall|h: HalfEdgeID| #[trigger] end.has_halfedge(h) && end.halfedge_at(h).face is Some implies {
            let s = end.face_at(end.halfedge_at(h).face->Some_0).halfedge;
            let n = end.next_of(s);
            let m = end.next_of(n);
            &&& s matches Some(s1) && end.has_halfedge(s1)
            &&& n matches Some(n1) && end.has_halfedge(n1)
            &&& m matches Some(m1) && end.has_halfedge(m1)
            &&& end.next_of(m) == s
            &&& s != n && n != m && m != s
            &&& Some(h) == s || Some(h) == n || Some(h) == m
        } by {
            assert(start.has_halfedge(h));
            let g = start.halfedge_at(h).face->Some_0;
            let s1 = start.face_at(g).halfedge->Some_0;
            let n1 = start.halfedge_at(s1).next->Some_0;
            let m1 = start.halfedge_at(n1).next->Some_0;
            assert(start.has_halfedge(s1) && start.has_halfedge(n1) && start.has_halfedge(m1));
        }
    }

    /// A mesh of triangles whose twins have all been found is valid.
    pub proof fn lemma_twins_found_make_valid(start: ConnectivityInfo, end: ConnectivityInfo)
        requires
            start.triangles_only(),
            end.twins_complete(),
            end.keeps_links_of(start),
            end.vertex_map() == start.vertex_map(),
            end.face_map() == start.face_map(),
        ensures
            end.is_valid(),
    {
        reveal(ConnectivityInfo::is_valid);
        reveal(ConnectivityInfo::triangles_only);
        assert forall|h: HalfEdgeID| #[trigger] start.has_halfedge(h) implies end.origin(h) == start.origin(h) by {
            let n = start.halfedge_at(h).next->Some_0;
            assert(start.has_halfedge(n));
            let m = start.halfedge_at(n).next;
            if m is Some {
                assert(start.has_halfedge(m->Some_0));
            }
        }
        assert forall|v: VertexID| #[trigger] end.has_vertex(v) implies end.vertex_ok(v) by {
            assert(start.has_vertex(v));
            if start.vertex_at(v).halfedge is Some {
                let h = start.vertex_at(v).halfedge->Some_0;
                assert(start.has_halfedge(h));
                assert(end.has_halfedge(h));
                assert(end.twin_ok(h));
            }
        }
        assert forall|h: HalfEdgeID| #[trigger] end.has_halfedge(h) implies end.halfedge_ok(h) by {
            if start.has_halfedge(h) {
                assert(start.halfedge_ok(h));
                let g = start.halfedge_at(h).face->Some_0;
                let n = start.halfedge_at(h).next->Some_0;
                assert(start.has_halfedge(n));
                let m = start.halfedge_at(n).next->Some_0;
                assert(start.has_halfedge(m));
                assert(end.in_triangle(h, g));
            } else {
                let t = end.halfedge_at(h).twin->Some_0;
                assert(start.has_halfedge(t));
                let n = start.halfedge_at(t).next->Some_0;
                assert(start.has_halfedge(n));
                let m = start.halfedge_at(n).next->Some_0;
                assert(start.has_halfedge(m));
                assert(start.halfedge_ok(m));
            }
        }
        assert forall|g: FaceID| #[trigger] end.has_face(g) implies end.face_ok(g) by {
            assert(start.has_face(g));
            assert(start.face_ok(g));
            assert(start.has_halfedge(start.face_at(g).halfedge->Some_0));
        }
    }

    /// The corners of a triangle face in order: where its halfedge starts, where that
    /// halfedge points to, and where the next halfedge points to.
    pub open spec fn face_corners(&self, f: FaceID) -> (Option<VertexID>, Option<VertexID>, Option<VertexID>) {
        let h = self.face_at(f).halfedge;
        (self.vertex_of(self.next_of(self.next_of(h))), self.vertex_of(h), self.vertex_of(self.next_of(h)))
    }

    pub proof fn lemma_fresh_vertex_small(&self)
        requires
            self.wf(),
            self.vertex_map().dom().len() < usize::MAX / 2,
        ensures
            fresh_index(self.vertex_map().dom()) < usize::MAX / 2 * 2,
    {
        self.vertices.lemma_fresh_key_small();
    }

    /// Adding a face gives it the three corners it was made with, and leaves the corners of
    /// the faces already there alone.
    #[verifier::rlimit(50)]
    pub proof fn lemma_face_created_corners(
        before: ConnectivityInfo,
        after: ConnectivityInfo,
        f: FaceID,
        v1: VertexID,
        v2: VertexID,
        v3: VertexID,
    )
        requires
            before.wf(),
            before.triangles_only(),
            before.halfedge_map().dom().len() < usize::MAX / 2 - 3,
            before.face_map().dom().len() < usize::MAX / 2,
            !f.spec_is_null(),
            f.index() == fresh_index(before.face_map().dom()),
            face_created(before.state(), after.state(), f, v1, v2, v3),
        ensures
            after.face_corners(f) == (Some(v1), Some(v2), Some(v3)),
            forall|g: FaceID| #[trigger] before.has_face(g) ==> after.face_corners(g) == before.face_corners(g),
    {
        before.lemma_finite();
        let d = before.halfedge_map().dom();
        let (h1, h2, h3) = new_face_halfedge_indices(d);
        lemma_fresh_index(d);
        assert(d.insert(h1).len() == d.len() + 1);
        lemma_fresh_index(d.insert(h1));
        assert(d.insert(h1).insert(h3).len() == d.len() + 2);
        lemma_fresh_index(d.insert(h1).insert(h3));
        lemma_fresh_index(before.face_map().dom());
        let e1 = HalfEdgeID::spec_new(h1);
        let e2 = HalfEdgeID::spec_new(h2);
        let e3 = HalfEdgeID::spec_new(h3);
        assert(h1 != h2 && h1 != h3 && h2 != h3);
        assert(after.halfedge_at(e1) == face_halfedge(v2, e2, f));
        assert(after.halfedge_at(e2) == face_halfedge(v3, e3, f));
        assert(after.halfedge_at(e3) == face_halfedge(v1, e1, f));
        assert forall|g: FaceID| #[trigger] before.has_face(g) implies after.face_corners(g) == before.face_corners(g) by {
            assert(g != f);
            before.lemma_tri_face(g);
            let h = before.face_at(g).halfedge->Some_0;
            before.lemma_tri_halfedge(h);
            let n = before.halfedge_at(h).next->Some_0;
            let m = before.halfedge_at(n).next->Some_0;
            assert(h.index() != h1 && h.index() != h2 && h.index() != h3);
            assert(n.index() != h1 && n.index() != h2 && n.index() != h3);
            assert(m.index() != h1 && m.index() != h2 && m.index() != h3);
        }
    }

    /// The three halfedges of face `f` are stored.
    pub open spec fn face_chain_stored(&self, f: FaceID) -> bool {
        let h = self.face_at(f).halfedge;
        &&& self.info_of(h) is Some
        &&& self.info_of(self.next_of(h)) is Some
        &&& self.info_of(self.next_of(self.next_of(h))) is Some
    }

    /// Adding a face leaves every halfedge and face there was alone, gives the new face the
    /// given corners, and gives its three new halfedges no twin.
    pub proof fn lemma_face_created_keeps(
        before: ConnectivityInfo,
        after: ConnectivityInfo,
        f: FaceID,
        v1: VertexID,
        v2: VertexID,
        v3: VertexID,
    )
        requires
            before.wf(),
            before.has_vertex(v1),
            before.has_vertex(v2),
            before.has_vertex(v3),
            before.halfedge_map().dom().len() < usize::MAX / 2 - 3,
            before.face_map().dom().len() < usize::MAX / 2,
            !f.spec_is_null(),
            f.index() == fresh_index(before.face_map().dom()),
            face_created(before.state(), after.state(), f, v1, v2, v3),
        ensures
            forall|x: HalfEdgeID| #[trigger] before.has_halfedge(x) ==> after.has_halfedge(x) && after.halfedge_at(x)
                == before.halfedge_at(x),
            forall|x: HalfEdgeID|
                #[trigger] after.has_halfedge(x) && !before.has_halfedge(x) ==> after.halfedge_at(x).face == Some(f)
                    && after.halfedge_at(x).twin is None,
            forall|g: FaceID| #[trigger] before.has_face(g) ==> after.has_face(g) && after.face_at(g) == before.face_at(g),
            forall|g: FaceID| #[trigger] after.has_face(g) ==> before.has_face(g) || g == f,
            after.has_face(f),
            !before.has_face(f),
            after.face_corners(f) == (Some(v1), Some(v2), Some(v3)),
            after.face_chain_stored(f),
            forall|g: FaceID|
                #[trigger] before.has_face(g) && before.face_chain_stored(g) ==> after.face_corners(g) == before.face_corners(g)
                    && after.face_chain_stored(g),
            after.vertex_map().dom() == before.vertex_map().dom(),
            after.face_map().dom().len() == before.face_map().dom().len() + 1,
    {
        before.lemma_finite();
        let d = before.halfedge_map().dom();
        let (h1, h2, h3) = new_face_halfedge_indices(d);
        lemma_fresh_index(d);
        assert(d.insert(h1).len() == d.len() + 1);
        lemma_fresh_index(d.insert(h1));
        assert(d.insert(h1).insert(h3).len() == d.len() + 2);
        lemma_fresh_index(d.insert(h1).insert(h3));
        lemma_fresh_index(before.face_map().dom());
        let e1 = HalfEdgeID::spec_new(h1);
        let e2 = HalfEdgeID::spec_new(h2);
        let e3 = HalfEdgeID::spec_new(h3);
        assert(h1 != h2 && h1 != h3 && h2 != h3);
        assert(after.halfedge_at(e1) == face_halfedge(v2, e2, f));
        assert(after.halfedge_at(e2) == face_halfedge(v3, e3, f));
        assert(after.halfedge_at(e3) == face_halfedge(v1, e1, f));
        assert forall|x: HalfEdgeID| #[trigger] before.has_halfedge(x) implies after.has_halfedge(x) && after.halfedge_at(x)
            == before.halfedge_at(x) by {
            assert(x.index() != h1 && x.index() != h2 && x.index() != h3);
        }
        assert forall|x: HalfEdgeID|
            #[trigger] after.has_halfedge(x) && !before.has_halfedge(x) implies after.halfedge_at(x).face == Some(f)
                && after.halfedge_at(x).twin is None by {
            assert(x.index() == h1 || x.index() == h2 || x.index() == h3);
        }
        assert forall|g: FaceID| #[trigger] before.has_face(g) implies after.has_face(g) && after.face_at(g) == before.face_at(g) by {
            assert(g.index() != f.index());
        }
        assert forall|g: FaceID|
            #[trigger] before.has_face(g) && before.face_chain_stored(g) implies after.face_corners(g) == before.face_corners(g)
                && after.face_chain_stored(g) by {
            assert(g.index() != f.index());
            let h = before.face_at(g).halfedge->Some_0;
            let n = before.halfedge_at(h).next->Some_0;
            let m = before.halfedge_at(n).next->Some_0;
            assert(before.has_halfedge(h) && before.has_halfedge(n) && before.has_halfedge(m));
            assert(h.index() != h1 && h.index() != h2 && h.index() != h3);
            assert(n.index() != h1 && n.index() != h2 && n.index() != h3);
            assert(m.index() != h1 && m.index() != h2 && m.index() != h3);
        }
        assert(after.vertex_map().dom() =~= before.vertex_map().dom());
        assert(after.face_map().dom() =~= before.face_map().dom().insert(f.index()));
    }

    /// Finding twins leaves alone the corners of a face whose three halfedges are stored.
    pub proof fn lemma_chain_corners_kept(start: ConnectivityInfo, end: ConnectivityInfo, g: FaceID)
        requires
            start.next_closed(),
            end.keeps_links_of(start),
            end.face_map() == start.face_map(),
            start.face_chain_stored(g),
        ensures
            end.face_corners(g) == start.face_corners(g),
            end.face_chain_stored(g),
    {
        let h = start.face_at(g).halfedge->Some_0;
        let n = start.halfedge_at(h).next->Some_0;
        let m = start.halfedge_at(n).next->Some_0;
        assert(start.has_halfedge(h) && start.has_halfedge(n) && start.has_halfedge(m));
    }

    /// Where twins were found so that of two halfedges running opposite ways at most one got a
    /// new twin, and every halfedge without a twin bounded a face, two halfedges that had no
    /// twin and run opposite ways are not both left with a twin outside a face.
    pub proof fn lemma_pairs_join(start: ConnectivityInfo, end: ConnectivityInfo, h: HalfEdgeID, g: HalfEdgeID)
        requires
            start.twins_ready(),
            start.next_closed(),
            end.keeps_links_of(start),
            end.keeps_twins_of(start),
            end.pairs_opposites_of(start),
            end.twins_complete(),
            forall|x: HalfEdgeID|
                #[trigger] start.has_halfedge(x) && start.halfedge_at(x).twin is None ==> start.halfedge_at(x).face is Some,
            start.has_halfedge(h),
            start.has_halfedge(g),
            h != g,
            start.halfedge_at(h).twin is None,
            start.halfedge_at(g).twin is None,
            end.runs_opposite(h, g),
            end.face_of(end.halfedge_at(h).twin) is None,
        ensures
            end.face_of(end.halfedge_at(g).twin) is Some,
    {
        ConnectivityInfo::lemma_kept_ends(start, end, h);
        ConnectivityInfo::lemma_kept_ends(start, end, g);
        assert(start.runs_opposite(h, g));
        assert(end.twin_ok(h));
        assert(end.twin_ok(g));
        let t = end.halfedge_at(h).twin->Some_0;
        if start.has_halfedge(t) {
            ConnectivityInfo::lemma_kept_ends(start, end, t);
            if start.halfedge_at(t).twin is Some {
                assert(start.twin_ok(t));
            }
        }
        assert(end.twin_outside(start, h));
        assert(end.twin_inside(start, g));
        let u = end.halfedge_at(g).twin->Some_0;
        ConnectivityInfo::lemma_kept_ends(start, end, u);
        if start.halfedge_at(u).twin is Some {
            assert(start.twin_ok(u));
        }
    }

    /// Finding twins leaves the corners of every face alone.
    pub proof fn lemma_corners_kept(start: ConnectivityInfo, end: ConnectivityInfo)
        requires
            start.triangles_only(),
            end.keeps_links_of(start),
            end.face_map() == start.face_map(),
        ensures
            forall|g: FaceID| #[trigger] start.has_face(g) ==> end.face_corners(g) == start.face_corners(g),
    {
        reveal(ConnectivityInfo::triangles_only);
        assert forall|g: FaceID| #[trigger] start.has_face(g) implies end.face_corners(g) == start.face_corners(g) by {
            assert(start.face_ok(g));
            let h = start.face_at(g).halfedge->Some_0;
            assert(start.has_halfedge(h));
            assert(start.halfedge_ok(h));
            let n = start.halfedge_at(h).next->Some_0;
            assert(start.has_halfedge(n));
            let m = start.halfedge_at(n).next->Some_0;
            assert(start.has_halfedge(m));
        }
    }

    /// From halfedge `h`, crossing faces by going to the twin of the next halfedge until a
    /// halfedge that bounds no face is reached; gives up (`None`) after `fuel` crossings.
    pub open spec fn hole_walk(&self, h: Option<HalfEdgeID>, fuel: nat) -> Option<HalfEdgeID>
        decreases fuel,
    {
        if self.face_of(h) is None {
            h
        } else if fuel == 0 {
            None
        } else {
            self.hole_walk(self.twin_of(self.next_of(h)), (fuel - 1) as nat)
        }
    }

    /// The halfedge after `h` around the vertex `h` starts at: the twin of the previous
    /// halfedge of its face, or, when `h` bounds no face, the halfedge across the hole.
    pub open spec fn ring_next(&self, h: Option<HalfEdgeID>) -> Option<HalfEdgeID> {
        if self.face_of(h) is Some {
            self.twin_of(self.next_of(self.next_of(h)))
        } else {
            self.twin_of(self.hole_walk(self.twin_of(h), self.halfedge_map().dom().len()))
        }
    }

    /// The halfedge `k` steps around the vertex from `h`.
    pub open spec fn ring_iter(&self, h: Option<HalfEdgeID>, k: nat) -> Option<HalfEdgeID>
        decreases k,
    {
        if k == 0 {
            h
        } else {
            self.ring_next(self.ring_iter(h, (k - 1) as nat))
        }
    }

    /// The walk around a vertex from `start` ends after `k` steps: it is back at `start`,
    /// it has lost its way, or it has taken one more step than there are halfedges.
    pub open spec fn ring_stops(&self, start: HalfEdgeID, k: nat) -> bool {
        k >= 1 && (self.ring_iter(Some(start), k) == Some(start) || self.ring_iter(Some(start), k) is None || k
            == self.halfedge_map().dom().len() + 1)
    }

    /// Whether walking around vertex `from`, starting at its halfedge, meets a halfedge that
    /// points to `to`.
    pub open spec fn links(&self, from: VertexID, to: VertexID) -> bool {
        let start = self.vertex_at(from).halfedge->Some_0;
        exists|i: nat| i < self.ring_len(start) && self.vertex_of(#[trigger] self.ring_iter(Some(start), i)) == Some(to)
    }

    /// The first halfedge met walking around vertex `from`, starting at its halfedge, that
    /// points to `to`, if any is.
    #[verifier::opaque]
    pub open spec fn connection(&self, from: VertexID, to: VertexID) -> Option<HalfEdgeID> {
        let start = self.vertex_at(from).halfedge->Some_0;
        if self.links(from, to) {
            let i = choose|i: nat|
                i < self.ring_len(start) && self.vertex_of(#[trigger] self.ring_iter(Some(start), i)) == Some(to) && forall|j: nat|
                    j < i ==> self.vertex_of(#[trigger] self.ring_iter(Some(start), j)) != Some(to);
            self.ring_iter(Some(start), i)
        } else {
            None
        }
    }

    /// In a valid mesh the halfedge found walking around a vertex is stored and points to
    /// where it was looked for.
    #[verifier::rlimit(30)]
    pub proof fn lemma_connection(&self, from: VertexID, to: VertexID)
        requires
            self.is_valid(),
            self.has_vertex(from),
            self.vertex_at(from).halfedge is Some,
        ensures
            self.connection(from, to) matches Some(e) ==> self.has_halfedge(e) && self.vertex_of(Some(e)) == Some(to)
                && self.vertex_of(self.twin_of(Some(e))) == Some(from),
    {
        let start = self.vertex_at(from).halfedge->Some_0;
        self.lemma_valid_vertex(from);
        if self.links(from, to) {
            let p = |i: nat| i < self.ring_len(start) && self.vertex_of(self.ring_iter(Some(start), i)) == Some(to);
            let w = choose|i: nat| i < self.ring_len(start) && self.vertex_of(#[trigger] self.ring_iter(Some(start), i)) == Some(to);
            assert(p(w));
            lemma_least(p, w);
            let m = choose|i: nat| i <= w && #[trigger] p(i) && forall|j: nat| j < i ==> !#[trigger] p(j);
            assert forall|j: nat| j < m implies self.vertex_of(#[trigger] self.ring_iter(Some(start), j)) != Some(to) by {
                assert(!p(j));
            }
            let i = choose|i: nat|
                i < self.ring_len(start) && self.vertex_of(#[trigger] self.ring_iter(Some(start), i)) == Some(to) && forall|j: nat|
                    j < i ==> self.vertex_of(#[trigger] self.ring_iter(Some(start), j)) != Some(to);
            assert(self.connection(from, to) == self.ring_iter(Some(start), i)) by {
                reveal(ConnectivityInfo::connection);
            }
            self.lemma_ring_stored(start, i);
            self.lemma_ring_starts_at(from, i);
        } else {
            assert(self.connection(from, to) is None) by {
                reveal(ConnectivityInfo::connection);
            }
        }
    }

    /// The number of halfedges visited around a vertex from `start`.
    pub open spec fn ring_len(&self, start: HalfEdgeID) -> nat {
        choose|k: nat| #[trigger] self.ring_stops(start, k) && forall|j: nat| 1 <= j < k ==> !self.ring_stops(start, j)
    }

    /// There are fewer halfedges than the largest index.
    pub proof fn lemma_bounded_counts(&self)
        requires
            self.wf(),
        ensures
            self.halfedge_map().dom().len() < usize::MAX,
            self.vertex_map().dom().len() < usize::MAX,
            self.face_map().dom().len() < usize::MAX,
    {
        self.vertices.lemma_finite();
        self.halfedges.lemma_finite();
        self.faces.lemma_finite();
    }

    /// Stored identifiers have indices below the largest two.
    pub proof fn lemma_keys_small(&self)
        requires
            self.wf(),
        ensures
            forall|k: usize| #[trigger] self.vertex_map().dom().contains(k) ==> k < usize::MAX - 1,
            forall|k: usize| #[trigger] self.halfedge_map().dom().contains(k) ==> k < usize::MAX - 1,
            forall|k: usize| #[trigger] self.face_map().dom().contains(k) ==> k < usize::MAX - 1,
    {
        self.vertices.lemma_finite();
        self.halfedges.lemma_finite();
        self.faces.lemma_finite();
    }

    /// The halfedge `k` steps along next halfedges from `h`.
    pub open spec fn next_iter(&self, h: Option<HalfEdgeID>, k: nat) -> Option<HalfEdgeID>
        decreases k,
    {
        if k == 0 {
            h
        } else {
            self.next_of(self.next_iter(h, (k - 1) as nat))
        }
    }

    /// The walk around a face from `start` ends after `k` steps: it is back at `start`,
    /// it has lost its way, or it has taken one more step than there are halfedges.
    pub open spec fn face_walk_stops(&self, start: HalfEdgeID, k: nat) -> bool {
        k >= 1 && (self.next_iter(Some(start), k) == Some(start) || self.next_iter(Some(start), k) is None || k
            == self.halfedge_map().dom().len() + 1)
    }

    /// The number of halfedges visited around a face from `start`.
    pub open spec fn face_walk_len(&self, start: HalfEdgeID) -> nat {
        choose|k: nat|
            #[trigger] self.face_walk_stops(start, k) && forall|j: nat| 1 <= j < k ==> !self.face_walk_stops(start, j)
    }

    /// In a mesh whose halfedges all have proper twins, a twin that is found is stored.
    pub proof fn lemma_twin_of_stored(&self, h: Option<HalfEdgeID>)
        requires
            self.twins_complete(),
        ensures
            self.twin_of(h) matches Some(t) ==> self.has_halfedge(t),
    {
        if self.twin_of(h) is Some {
            assert(self.twin_ok(h->Some_0));
        }
    }

    /// In a valid mesh every halfedge reached by walking around a vertex is stored.
    pub proof fn lemma_ring_stored(&self, start: HalfEdgeID, k: nat)
        requires
            self.is_valid(),
            self.has_halfedge(start),
        ensures
            self.ring_iter(Some(start), k) matches Some(h) ==> self.has_halfedge(h),
    {
        reveal(ConnectivityInfo::is_valid);
        if k > 0 {
            let x = self.ring_iter(Some(start), (k - 1) as nat);
            if self.face_of(x) is Some {
                self.lemma_twin_of_stored(self.next_of(self.next_of(x)));
            } else {
                self.lemma_twin_of_stored(self.hole_walk(self.twin_of(x), self.halfedge_map().dom().len()));
            }
        }
    }

    /// In a valid mesh, crossing faces from a halfedge that points to `v` ends on a halfedge
    /// that points to `v`.
    pub proof fn lemma_hole_walk_vertex(&self, t: Option<HalfEdgeID>, fuel: nat, v: VertexID)
        requires
            self.is_valid(),
            self.vertex_of(t) == Some(v),
        ensures
            self.hole_walk(t, fuel) matches Some(u) ==> self.vertex_of(Some(u)) == Some(v),
        decreases fuel,
    {
        if self.face_of(t) is Some && fuel > 0 {
            let t1 = t->Some_0;
            self.lemma_valid_halfedge(t1);
            let n = self.halfedge_at(t1).next->Some_0;
            self.lemma_valid_halfedge(n);
            let m = self.halfedge_at(n).next->Some_0;
            self.lemma_valid_halfedge(m);
            let y = self.halfedge_at(n).twin->Some_0;
            assert(self.vertex_of(Some(y)) == Some(v));
            self.lemma_hole_walk_vertex(self.twin_of(self.next_of(t)), (fuel - 1) as nat, v);
        }
    }

    /// In a valid mesh every halfedge met walking around vertex `v` from its halfedge starts
    /// at `v`: its twin points to `v`.
    pub proof fn lemma_ring_starts_at(&self, v: VertexID, k: nat)
        requires
            self.is_valid(),
            self.has_vertex(v),
            self.vertex_at(v).halfedge is Some,
        ensures
            self.ring_iter(self.vertex_at(v).halfedge, k) matches Some(h) ==> self.vertex_of(self.twin_of(Some(h))) == Some(v),
        decreases k,
    {
        let start = self.vertex_at(v).halfedge->Some_0;
        self.lemma_valid_vertex(v);
        if k > 0 {
            self.lemma_ring_starts_at(v, (k - 1) as nat);
            let x = self.ring_iter(Some(start), (k - 1) as nat);
            self.lemma_ring_stored(start, (k - 1) as nat);
            if x is Some {
                let x1 = x->Some_0;
                self.lemma_valid_halfedge(x1);
                let t = self.halfedge_at(x1).twin->Some_0;
                self.lemma_valid_halfedge(t);
                if self.face_of(x) is Some {
                    let n = self.halfedge_at(x1).next->Some_0;
                    self.lemma_valid_halfedge(n);
                    let m = self.halfedge_at(n).next->Some_0;
                    self.lemma_valid_halfedge(m);
                    let y = self.halfedge_at(m).twin->Some_0;
                    self.lemma_valid_halfedge(y);
                } else {
                    let fuel = self.halfedge_map().dom().len();
                    self.lemma_hole_walk_vertex(self.twin_of(x), fuel, v);
                    let u = self.hole_walk(self.twin_of(x), fuel);
                    if u is Some {
                        let u1 = u->Some_0;
                        self.lemma_valid_twins();
                        self.lemma_twin_of_stored(u);
                        if self.twin_of(u) is Some {
                            let w = self.twin_of(u)->Some_0;
                            self.lemma_valid_halfedge(w);
                            if self.has_halfedge(u1) {
                                self.lemma_valid_halfedge(u1);
                            }
                        }
                    }
                }
            }
        }
    }

    /// In a valid mesh every halfedge visited around a vertex points to a vertex.
    pub proof fn lemma_ring_item_has_vertex(&self, start: HalfEdgeID, i: nat)
        requires
            self.is_valid(),
            self.has_halfedge(start),
            i < self.ring_len(start),
        ensures
            self.ring_iter(Some(start), i) is Some,
            self.has_halfedge(self.ring_iter(Some(start), i)->Some_0),
            self.vertex_of(self.ring_iter(Some(start), i)) is Some,
    {
        reveal(ConnectivityInfo::is_valid);
        self.lemma_ring_len(start);
        self.lemma_ring_stored(start, i);
        if i > 0 {
            assert(!self.ring_stops(start, i));
        }
        assert(self.halfedge_ok(self.ring_iter(Some(start), i)->Some_0));
    }

    /// The walk around a vertex stops at its length and not before.
    pub proof fn lemma_ring_len(&self, start: HalfEdgeID)
        ensures
            self.ring_stops(start, self.ring_len(start)),
            forall|j: nat| 1 <= j < self.ring_len(start) ==> !self.ring_stops(start, j),
            1 <= self.ring_len(start) <= self.halfedge_map().dom().len() + 1,
    {
        let n = self.halfedge_map().dom().len() + 1;
        assert(self.ring_stops(start, n));
        self.lemma_least_stop(start, 1, n);
    }

    proof fn lemma_least_stop(&self, start: HalfEdgeID, lo: nat, k: nat)
        requires
            1 <= lo <= k,
            self.ring_stops(start, k),
            forall|j: nat| 1 <= j < lo ==> !self.ring_stops(start, j),
        ensures
            self.ring_stops(start, self.ring_len(start)),
            forall|j: nat| 1 <= j < self.ring_len(start) ==> !self.ring_stops(start, j),
            self.ring_len(start) <= k,
        decreases k - lo,
    {
        if self.ring_stops(start, lo) {
            let c = self.ring_len(start);
            assert(self.ring_stops(start, lo) && forall|j: nat| 1 <= j < lo ==> !self.ring_stops(start, j));
            if c != lo {
                if c < lo {
                    assert(!self.ring_stops(start, c));
                } else {
                    assert(!self.ring_stops(start, lo));
                }
            }
        } else {
            self.lemma_least_stop(start, lo + 1, k);
        }
    }

    /// Halfedge `h` points to `to` and its twin points to `from`.
    pub open spec fn runs_between(&self, h: HalfEdgeID, from: VertexID, to: VertexID) -> bool {
        self.vertex_of(Some(h)) == Some(to) && self.vertex_of(self.twin_of(Some(h))) == Some(from)
    }

    /// The stored maps are finite.
    pub proof fn lemma_finite(&self)
        requires
            self.wf(),
        ensures
            self.vertex_map().dom().finite(),
            self.halfedge_map().dom().finite(),
            self.face_map().dom().finite(),
    {
        self.vertices.lemma_finite();
        self.halfedges.lemma_finite();
        self.faces.lemma_finite();
    }

    pub fn new(no_vertices: usize, no_faces: usize) -> (r: ConnectivityInfo)
        ensures
            r.wf(),
            r.vertex_map() == Map::<usize, Vertex>::empty(),
            r.halfedge_map() == Map::<usize, HalfEdge>::empty(),
            r.face_map() == Map::<usize, Face>::empty(),
    {
        let halfedge_capacity = if no_faces <= usize::MAX / 4 {
            4 * no_faces
        } else {
            usize::MAX
        };
        ConnectivityInfo {
            vertices: Arena::with_capacity(no_vertices),
            halfedges: Arena::with_capacity(halfedge_capacity),
            faces: Arena::with_capacity(no_faces),
        }
    }

    pub fn no_vertices(&self) -> (r: usize)
        requires
            self.wf(),
        ensures
            r == self.vertex_map().dom().len(),
    {
        self.vertices.len()
    }

    pub fn no_halfedges(&self) -> (r: usize)
        requires
            self.wf(),
        ensures
            r == self.halfedge_map().dom().len(),
    {
        self.halfedges.len()
    }

    pub fn no_faces(&self) -> (r: usize)
        requires
            self.wf(),
        ensures
            r == self.face_map().dom().len(),
    {
        self.faces.len()
    }

    /// Adds a vertex with no halfedge under the fresh vertex index.
    pub fn create_vertex(&mut self) -> (r: VertexID)
        requires
            old(self).wf(),
            old(self).vertex_map().dom().len() < usize::MAX / 2,
        ensures
            final(self).wf(),
            !r.spec_is_null(),
            r.index() == fresh_index(old(self).vertex_map().dom()),
            !old(self).vertex_map().dom().contains(r.index()),
            final(self).vertex_map() == old(self).vertex_map().insert(r.index(), Vertex { halfedge: None }),
            final(self).halfedge_map() == old(self).halfedge_map(),
            final(self).face_map() == old(self).face_map(),
    {
        proof {
            self.vertices.lemma_fresh_key();
            self.vertices.lemma_fresh_key_small();
        }
        let k = self.vertices.fresh();
        self.vertices.insert(k, Vertex { halfedge: None });
        VertexID::new(k)
    }

    /// Adds a halfedge with the given connectivity and no twin under the fresh halfedge index.
    pub fn create_halfedge(&mut self, vertex: Option<VertexID>, next: Option<HalfEdgeID>, face: Option<FaceID>) -> (r: HalfEdgeID)
        requires
            old(self).wf(),
            old(self).halfedge_map().dom().len() < usize::MAX / 2,
        ensures
            final(self).wf(),
            !r.spec_is_null(),
            r.index() == fresh_index(old(self).halfedge_map().dom()),
            !old(self).halfedge_map().dom().contains(r.index()),
            final(self).halfedge_map() == old(self).halfedge_map().insert(
                r.index(),
                HalfEdge { vertex, twin: None, next, face },
            ),
            final(self).vertex_map() == old(self).vertex_map(),
            final(self).face_map() == old(self).face_map(),
    {
        proof {
            self.halfedges.lemma_fresh_key();
            self.halfedges.lemma_fresh_key_small();
        }
        let k = self.halfedges.fresh();
        self.halfedges.insert(k, HalfEdge { vertex, twin: None, next, face });
        HalfEdgeID::new(k)
    }

    pub(crate) fn new_face(&mut self) -> (r: FaceID)
        requires
            old(self).wf(),
            old(self).face_map().dom().len() < usize::MAX / 2,
        ensures
            final(self).wf(),
            !r.spec_is_null(),
            r.index() == fresh_index(old(self).face_map().dom()),
            !old(self).face_map().dom().contains(r.index()),
            final(self).face_map() == old(self).face_map().insert(r.index(), Face { halfedge: None }),
            final(self).vertex_map() == old(self).vertex_map(),
            final(self).halfedge_map() == old(self).halfedge_map(),
    {
        proof {
            self.faces.lemma_fresh_key();
            self.faces.lemma_fresh_key_small();
        }
        let k = self.faces.fresh();
        self.faces.insert(k, Face { halfedge: None });
        FaceID::new(k)
    }

    /// Adds a face with the three vertices in this order: its first halfedge points from
    /// the first vertex to the second, the next one to the third and the last back to the first.
    /// Each vertex is given the halfedge of the face that starts at it.
    pub fn create_face(&mut self, vertex_id1: &VertexID, vertex_id2: &VertexID, vertex_id3: &VertexID) -> (r: FaceID)
        requires
            old(self).wf(),
            old(self).has_vertex(*vertex_id1),
            old(self).has_vertex(*vertex_id2),
            old(self).has_vertex(*vertex_id3),
            old(self).halfedge_map().dom().len() < usize::MAX / 2 - 3,
            old(self).face_map().dom().len() < usize::MAX / 2,
        ensures
            final(self).wf(),
            !r.spec_is_null(),
            r.index() == fresh_index(old(self).face_map().dom()),
            face_created(old(self).state(), final(self).state(), r, *vertex_id1, *vertex_id2, *vertex_id3),
    {
        proof {
            self.lemma_finite();
        }
        let id = self.new_face();
        let halfedge1 = self.create_halfedge(Some(*vertex_id2), None, Some(id));
        proof {
            self.lemma_finite();
            assert(self.halfedge_map().dom() =~= old(self).halfedge_map().dom().insert(halfedge1.index()));
        }
        let halfedge3 = self.create_halfedge(Some(*vertex_id1), Some(halfedge1), Some(id));
        proof {
            self.lemma_finite();
            assert(self.halfedge_map().dom() =~= old(self).halfedge_map().dom().insert(halfedge1.index()).insert(
                halfedge3.index(),
            ));
        }
        let halfedge2 = self.create_halfedge(Some(*vertex_id3), Some(halfedge3), Some(id));
        self.set_halfedge_next(&halfedge1, halfedge2);
        self.set_vertex_halfedge(vertex_id1, halfedge1);
        self.set_vertex_halfedge(vertex_id2, halfedge2);
        self.set_vertex_halfedge(vertex_id3, halfedge3);
        self.set_face_halfedge(&id, halfedge1);
        proof {
            let (h1, h2, h3) = new_face_halfedge_indices(old(self).halfedge_map().dom());
            assert(h1 == halfedge1.index());
            assert(h3 == halfedge3.index());
            assert(h2 == halfedge2.index());
            assert(self.halfedge_map() =~= old(self).halfedge_map().insert(
                h1,
                face_halfedge(*vertex_id2, halfedge2, id),
            ).insert(h3, face_halfedge(*vertex_id1, halfedge1, id)).insert(h2, face_halfedge(*vertex_id3, halfedge3, id)));
            assert(self.face_map() =~= old(self).face_map().insert(id.index(), Face { halfedge: Some(halfedge1) }));
            assert(self.vertex_map() =~= old(self).vertex_map().insert(
                vertex_id1.index(),
                Vertex { halfedge: Some(halfedge1) },
            ).insert(vertex_id2.index(), Vertex { halfedge: Some(halfedge2) }).insert(
                vertex_id3.index(),
                Vertex { halfedge: Some(halfedge3) },
            ));
            assert(halfedge1 == HalfEdgeID::spec_new(h1));
            assert(halfedge2 == HalfEdgeID::spec_new(h2));
            assert(halfedge3 == HalfEdgeID::spec_new(h3));
        }
        id
    }

    /// Gives a vertex whose halfedge was removed the twin of the first halfedge that points
    /// to it, or removes the vertex when no halfedge points to it.
    fn remove_vertex_if_lonely(&mut self, vertex_id: &VertexID)
        requires
            old(self).wf(),
            old(self).has_vertex(*vertex_id),
        ensures
            final(self).wf(),
            final(self).state() == after_lonely_check(old(self).state(), *vertex_id),
    {
        proof {
            self.vertices.lemma_finite();
        }
        let ghost hm = self.halfedge_map();
        let keys = self.halfedges.keys();
        let mut i: usize = 0;
        while i < keys.len()
            invariant
                self.wf(),
                self.state() == old(self).state(),
                hm == self.halfedge_map(),
                self.has_vertex(*vertex_id),
                i <= keys@.len(),
                forall|a: int, b: int| 0 <= a < b < keys@.len() ==> keys@[a] < keys@[b],
                forall|k: usize| hm.dom().contains(k) <==> keys@.contains(k),
                forall|a: int| 0 <= a < i ==> !points_to(hm, #[trigger] keys@[a], *vertex_id),
            decreases keys@.len() - i,
        {
            let k = keys[i];
            assert(keys@.contains(k));
            let halfedge = self.halfedges.get(k).unwrap();
            let incoming = match halfedge.vertex {
                Some(v) => v == *vertex_id,
                None => false,
            };
            if incoming {
                proof {
                    lemma_first_incoming(hm, keys@, i as int, *vertex_id);
                    self.vertices.lemma_finite();
                }
                self.vertices.insert(vertex_id.val(), Vertex { halfedge: halfedge.twin });
                return;
            }
            i = i + 1;
        }
        proof {
            assert forall|k: usize| !points_to(hm, k, *vertex_id) by {
                if points_to(hm, k, *vertex_id) {
                    assert(keys@.contains(k));
                    let a = choose|a: int| 0 <= a < keys@.len() && keys@[a] == k;
                    assert(!points_to(hm, keys@[a], *vertex_id));
                }
            }
        }
        self.vertices.remove(vertex_id.val());
    }

    /// Removes a halfedge; its twin is left without a twin.
    pub fn remove_halfedge(&mut self, halfedge_id: &HalfEdgeID)
        requires
            old(self).wf(),
            old(self).has_halfedge(*halfedge_id),
            old(self).halfedge_at(*halfedge_id).twin is Some,
            old(self).has_halfedge(old(self).halfedge_at(*halfedge_id).twin->Some_0),
            old(self).halfedge_at(*halfedge_id).twin->Some_0 != *halfedge_id,
        ensures
            final(self).wf(),
            ({
                let t = old(self).halfedge_at(*halfedge_id).twin->Some_0;
                final(self).halfedge_map() == old(self).halfedge_map().remove(halfedge_id.index()).insert(
                    t.index(),
                    HalfEdge { twin: None, ..old(self).halfedge_at(t) },
                )
            }),
            final(self).vertex_map() == old(self).vertex_map(),
            final(self).face_map() == old(self).face_map(),
    {
        proof {
            self.halfedges.lemma_finite();
        }
        let halfedge = self.halfedges.remove(halfedge_id.val()).unwrap();
        let twin_id = halfedge.twin.unwrap();
        let twin = self.halfedges.get(twin_id.val()).unwrap();
        self.halfedges.insert(twin_id.val(), HalfEdge { twin: None, ..twin });
    }

    /// Removes the edge of halfedge `halfedge_id` and its twin `twin_id`, with `prev_id` the
    /// halfedge before `halfedge_id`, together with the vertices that it leaves alone.
    fn remove_halfedge_and_vertices(&mut self, halfedge_id: &HalfEdgeID, twin_id: &HalfEdgeID, prev_id: &HalfEdgeID)
        requires
            old(self).wf(),
            edge_removal_ok(old(self).state(), *halfedge_id, *twin_id, *prev_id),
        ensures
            final(self).wf(),
            final(self).state() == after_edge_removal(old(self).state(), *halfedge_id, *twin_id, *prev_id),
    {
        proof {
            self.halfedges.lemma_finite();
        }
        let vertex_id1 = self.halfedge_vertex(halfedge_id).unwrap();
        let vertex_id2 = self.halfedge_vertex(twin_id).unwrap();
        if !prev_id.is_null() {
            match self.halfedges.get(prev_id.val()) {
                Some(prev) => {
                    self.halfedges.insert(prev_id.val(), HalfEdge { next: None, ..prev });
                },
                None => {},
            }
        }
        self.halfedges.remove(twin_id.val());
        self.halfedges.remove(halfedge_id.val());
        assert(self.state() == edge_cut(old(self).state(), *halfedge_id, *twin_id, *prev_id));
        if self.vertex_halfedge(&vertex_id1).unwrap() == *twin_id {
            self.remove_vertex_if_lonely(&vertex_id1);
        }
        if self.vertex_halfedge(&vertex_id2).unwrap() == *halfedge_id {
            self.remove_vertex_if_lonely(&vertex_id2);
        }
    }

    /// One step of removing a face: when neither halfedge `halfedge_id` nor its twin bounds
    /// a face, their edge is removed.
    fn remove_face_edge(&mut self, halfedge_id: &HalfEdgeID, prev_id: &HalfEdgeID)
        requires
            old(self).wf(),
            face_step_ok(old(self).state(), *halfedge_id, *prev_id),
        ensures
            final(self).wf(),
            final(self).state() == after_face_step(old(self).state(), *halfedge_id, *prev_id),
    {
        let twin_id = self.halfedge_twin(halfedge_id).unwrap();
        if self.halfedge_face(halfedge_id).is_none() && self.halfedge_face(&twin_id).is_none() {
            self.remove_halfedge_and_vertices(halfedge_id, &twin_id, prev_id);
        }
    }

    /// Removes a face. Its halfedges stop bounding it, and each of its edges that then
    /// bounds no face is removed together with the vertices it leaves alone.
    pub fn remove_face(&mut self, face_id: &FaceID)
        requires
            old(self).wf(),
            face_removal_ok(old(self).state(), *face_id),
        ensures
            final(self).wf(),
            final(self).state() == after_face_removal(old(self).state(), *face_id),
    {
        proof {
            self.halfedges.lemma_finite();
        }
        let e0 = self.face_halfedge(face_id).unwrap();
        let e1 = self.halfedge_next(&e0).unwrap();
        let e2 = self.halfedge_next(&e1).unwrap();
        self.faces.remove(face_id.val());
        let h0 = self.halfedges.get(e0.val()).unwrap();
        self.halfedges.insert(e0.val(), HalfEdge { face: None, ..h0 });
        let h1 = self.halfedges.get(e1.val()).unwrap();
        self.halfedges.insert(e1.val(), HalfEdge { face: None, ..h1 });
        let h2 = self.halfedges.get(e2.val()).unwrap();
        self.halfedges.insert(e2.val(), HalfEdge { face: None, ..h2 });
        assert(self.state() == face_detached(old(self).state(), *face_id));
        self.remove_face_edge(&e0, &e2);
        self.remove_face_edge(&e1, &e0);
        self.remove_face_edge(&e2, &e1);
    }

    /// Stores a vertex under the given identifier, replacing any vertex stored there.
    pub fn add_vertex(&mut self, vertex_id: VertexID, vertex: Vertex)
        requires
            old(self).wf(),
            !vertex_id.spec_is_null(),
            vertex_id.index() < usize::MAX - 1,
        ensures
            final(self).wf(),
            final(self).vertex_map() == old(self).vertex_map().insert(vertex_id.index(), vertex),
            final(self).halfedge_map() == old(self).halfedge_map(),
            final(self).face_map() == old(self).face_map(),
    {
        self.vertices.insert(vertex_id.val(), vertex);
    }

    /// Stores a halfedge under the given identifier, replacing any halfedge stored there.
    pub fn add_halfedge(&mut self, halfedge_id: HalfEdgeID, halfedge: HalfEdge)
        requires
            old(self).wf(),
            !halfedge_id.spec_is_null(),
            halfedge_id.index() < usize::MAX - 1,
        ensures
            final(self).wf(),
            final(self).halfedge_map() == old(self).halfedge_map().insert(halfedge_id.index(), halfedge),
            final(self).vertex_map() == old(self).vertex_map(),
            final(self).face_map() == old(self).face_map(),
    {
        self.halfedges.insert(halfedge_id.val(), halfedge);
    }

    /// Stores a face under the given identifier, replacing any face stored there.
    pub fn add_face(&mut self, face_id: FaceID, face: Face)
        requires
            old(self).wf(),
            !face_id.spec_is_null(),
            face_id.index() < usize::MAX - 1,
        ensures
            final(self).wf(),
            final(self).face_map() == old(self).face_map().insert(face_id.index(), face),
            final(self).vertex_map() == old(self).vertex_map(),
            final(self).halfedge_map() == old(self).halfedge_map(),
    {
        self.faces.insert(face_id.val(), face);
    }

    /// Removes the vertex with the given identifier, if there is one.
    pub fn remove_vertex(&mut self, vertex_id: &VertexID)
        requires
            old(self).wf(),
        ensures
            final(self).wf(),
            final(self).vertex_map() == if vertex_id.spec_is_null() {
                old(self).vertex_map()
            } else {
                old(self).vertex_map().remove(vertex_id.index())
            },
            final(self).halfedge_map() == old(self).halfedge_map(),
            final(self).face_map() == old(self).face_map(),
    {
        if !vertex_id.is_null() {
            self.vertices.remove(vertex_id.val());
        }
    }

    pub fn set_vertex_halfedge(&mut self, id: &VertexID, val: HalfEdgeID)
        requires
            old(self).wf(),
            old(self).has_vertex(*id),
        ensures
            final(self).wf(),
            final(self).vertex_map() == old(self).vertex_map().insert(id.index(), Vertex { halfedge: Some(val) }),
            final(self).halfedge_map() == old(self).halfedge_map(),
            final(self).face_map() == old(self).face_map(),
    {
        proof {
            self.vertices.lemma_finite();
        }
        self.vertices.insert(id.val(), Vertex { halfedge: Some(val) });
    }

    pub fn set_halfedge_next(&mut self, id: &HalfEdgeID, val: HalfEdgeID)
        requires
            old(self).wf(),
            old(self).has_halfedge(*id),
        ensures
            final(self).wf(),
            final(self).halfedge_map() == old(self).halfedge_map().insert(
                id.index(),
                HalfEdge { next: Some(val), ..old(self).halfedge_at(*id) },
            ),
            final(self).vertex_map() == old(self).vertex_map(),
            final(self).face_map() == old(self).face_map(),
    {
        proof {
            self.halfedges.lemma_finite();
        }
        let h = self.halfedges.get(id.val()).unwrap();
        self.halfedges.insert(id.val(), HalfEdge { next: Some(val), ..h });
    }

    /// Makes the two halfedges each other's twins.
    pub fn set_halfedge_twin(&mut self, id1: HalfEdgeID, id2: HalfEdgeID)
        requires
            old(self).wf(),
            old(self).has_halfedge(id1),
            old(self).has_halfedge(id2),
        ensures
            final(self).wf(),
            final(self).halfedge_map() == old(self).halfedge_map().insert(
                id1.index(),
                HalfEdge { twin: Some(id2), ..old(self).halfedge_at(id1) },
            ).insert(
                id2.index(),
                HalfEdge {
                    twin: Some(id1),
                    ..old(self).halfedge_map().insert(
                        id1.index(),
                        HalfEdge { twin: Some(id2), ..old(self).halfedge_at(id1) },
                    )[id2.index()]
                },
            ),
            final(self).vertex_map() == old(self).vertex_map(),
            final(self).face_map() == old(self).face_map(),
    {
        proof {
            self.halfedges.lemma_finite();
        }
        let h1 = self.halfedges.get(id1.val()).unwrap();
        self.halfedges.insert(id1.val(), HalfEdge { twin: Some(id2), ..h1 });
        let h2 = self.halfedges.get(id2.val()).unwrap();
        self.halfedges.insert(id2.val(), HalfEdge { twin: Some(id1), ..h2 });
    }

    pub fn set_halfedge_vertex(&mut self, id: &HalfEdgeID, val: VertexID)
        requires
            old(self).wf(),
            old(self).has_halfedge(*id),
        ensures
            final(self).wf(),
            final(self).halfedge_map() == old(self).halfedge_map().insert(
                id.index(),
                HalfEdge { vertex: Some(val), ..old(self).halfedge_at(*id) },
            ),
            final(self).vertex_map() == old(self).vertex_map(),
            final(self).face_map() == old(self).face_map(),
    {
        proof {
            self.halfedges.lemma_finite();
        }
        let h = self.halfedges.get(id.val()).unwrap();
        self.halfedges.insert(id.val(), HalfEdge { vertex: Some(val), ..h });
    }

    pub fn set_halfedge_face(&mut self, id: &HalfEdgeID, val: FaceID)
        requires
            old(self).wf(),
            old(self).has_halfedge(*id),
        ensures
            final(self).wf(),
            final(self).halfedge_map() == old(self).halfedge_map().insert(
                id.index(),
                HalfEdge { face: Some(val), ..old(self).halfedge_at(*id) },
            ),
            final(self).vertex_map() == old(self).vertex_map(),
            final(self).face_map() == old(self).face_map(),
    {
        proof {
            self.halfedges.lemma_finite();
        }
        let h = self.halfedges.get(id.val()).unwrap();
        self.halfedges.insert(id.val(), HalfEdge { face: Some(val), ..h });
    }

    pub fn set_face_halfedge(&mut self, id: &FaceID, val: HalfEdgeID)
        requires
            old(self).wf(),
            old(self).has_face(*id),
        ensures
            final(self).wf(),
            final(self).face_map() == old(self).face_map().insert(id.index(), Face { halfedge: Some(val) }),
            final(self).vertex_map() == old(self).vertex_map(),
            final(self).halfedge_map() == old(self).halfedge_map(),
    {
        proof {
            self.faces.lemma_finite();
        }
        self.faces.insert(id.val(), Face { halfedge: Some(val) });
    }

    /// The identifiers of all vertices, in increasing index order.
    pub fn vertex_iterator(&self) -> (r: Vec<VertexID>)
        ensures
            forall|i: int, j: int| 0 <= i < j < r@.len() ==> r@[i].index() < r@[j].index(),
            forall|i: int| 0 <= i < r@.len() ==> #[trigger] self.has_vertex(r@[i]),
            r@.len() == self.vertex_map().dom().len(),
            forall|id: VertexID| #[trigger] self.has_vertex(id) ==> r@.contains(id),
    {
        let keys = self.vertices.keys();
        let mut r: Vec<VertexID> = Vec::new();
        let mut i: usize = 0;
        while i < keys.len()
            invariant
                i <= keys@.len(),
                r@.len() == i,
                forall|a: int| 0 <= a < i ==> r@[a] == VertexID::spec_new(keys@[a]),
                forall|a: int, b: int| 0 <= a < b < keys@.len() ==> keys@[a] < keys@[b],
                forall|k: usize| self.vertex_map().dom().contains(k) <==> keys@.contains(k),
            decreases keys@.len() - i,
        {
            r.push(VertexID::new(keys[i]));
            i = i + 1;
        }
        proof {
            assert forall|i: int| 0 <= i < r@.len() implies #[trigger] self.has_vertex(r@[i]) by {
                assert(keys@.contains(keys@[i]));
            }
            assert forall|i: int, j: int| 0 <= i < j < r@.len() implies r@[i].index() < r@[j].index() by {
                assert(keys@[i] < keys@[j]);
            }
            assert forall|id: VertexID| #[trigger] self.has_vertex(id) implies r@.contains(id) by {
                assert(keys@.contains(id.index()));
                let a = choose|a: int| 0 <= a < keys@.len() && keys@[a] == id.index();
                assert(r@[a] == id);
            }
        }
        r
    }
    /// The identifiers of all halfedges, in increasing index order.
    pub fn halfedge_iterator(&self) -> (r: Vec<HalfEdgeID>)
        ensures
            forall|i: int, j: int| 0 <= i < j < r@.len() ==> r@[i].index() < r@[j].index(),
            forall|i: int| 0 <= i < r@.len() ==> #[trigger] self.has_halfedge(r@[i]),
            r@.len() == self.halfedge_map().dom().len(),
            forall|id: HalfEdgeID| #[trigger] self.has_halfedge(id) ==> r@.contains(id),
    {
        let keys = self.halfedges.keys();
        let mut r: Vec<HalfEdgeID> = Vec::new();
        let mut i: usize = 0;
        while i < keys.len()
            invariant
                i <= keys@.len(),
                r@.len() == i,
                forall|a: int| 0 <= a < i ==> r@[a] == HalfEdgeID::spec_new(keys@[a]),
                forall|a: int, b: int| 0 <= a < b < keys@.len() ==> keys@[a] < keys@[b],
                forall|k: usize| self.halfedge_map().dom().contains(k) <==> keys@.contains(k),
            decreases keys@.len() - i,
        {
            r.push(HalfEdgeID::new(keys[i]));
            i = i + 1;
        }
        proof {
            assert forall|i: int| 0 <= i < r@.len() implies #[trigger] self.has_halfedge(r@[i]) by {
                assert(keys@.contains(keys@[i]));
            }
            assert forall|i: int, j: int| 0 <= i < j < r@.len() implies r@[i].index() < r@[j].index() by {
                assert(keys@[i] < keys@[j]);
            }
            assert forall|id: HalfEdgeID| #[trigger] self.has_halfedge(id) implies r@.contains(id) by {
                assert(keys@.contains(id.index()));
                let a = choose|a: int| 0 <= a < keys@.len() && keys@[a] == id.index();
                assert(r@[a] == id);
            }
        }
        r
    }
    /// The identifiers of all faces, in increasing index order.
    pub fn face_iterator(&self) -> (r: Vec<FaceID>)
        ensures
            forall|i: int, j: int| 0 <= i < j < r@.len() ==> r@[i].index() < r@[j].index(),
            forall|i: int| 0 <= i < r@.len() ==> #[trigger] self.has_face(r@[i]),
            r@.len() == self.face_map().dom().len(),
            forall|id: FaceID| #[trigger] self.has_face(id) ==> r@.contains(id),
    {
        let keys = self.faces.keys();
        let mut r: Vec<FaceID> = Vec::new();
        let mut i: usize = 0;
        while i < keys.len()
            invariant
                i <= keys@.len(),
                r@.len() == i,
                forall|a: int| 0 <= a < i ==> r@[a] == FaceID::spec_new(keys@[a]),
                forall|a: int, b: int| 0 <= a < b < keys@.len() ==> keys@[a] < keys@[b],
                forall|k: usize| self.face_map().dom().contains(k) <==> keys@.contains(k),
            decreases keys@.len() - i,
        {
            r.push(FaceID::new(keys[i]));
            i = i + 1;
        }
        proof {
            assert forall|i: int| 0 <= i < r@.len() implies #[trigger] self.has_face(r@[i]) by {
                assert(keys@.contains(keys@[i]));
            }
            assert forall|i: int, j: int| 0 <= i < j < r@.len() implies r@[i].index() < r@[j].index() by {
                assert(keys@[i] < keys@[j]);
            }
            assert forall|id: FaceID| #[trigger] self.has_face(id) implies r@.contains(id) by {
                assert(keys@.contains(id.index()));
                let a = choose|a: int| 0 <= a < keys@.len() && keys@[a] == id.index();
                assert(r@[a] == id);
            }
        }
        r
    }

    pub fn vertex(&self, vertex_id: &VertexID) -> (r: Option<Vertex>)
        ensures
            r == if self.has_vertex(*vertex_id) { Some(self.vertex_at(*vertex_id)) } else { None },
    {
        if vertex_id.is_null() { None } else { self.vertices.get(vertex_id.val()) }
    }

    pub fn halfedge(&self, halfedge_id: &HalfEdgeID) -> (r: Option<HalfEdge>)
        ensures
            r == if self.has_halfedge(*halfedge_id) { Some(self.halfedge_at(*halfedge_id)) } else { None },
    {
        if halfedge_id.is_null() { None } else { self.halfedges.get(halfedge_id.val()) }
    }

    pub fn face(&self, face_id: &FaceID) -> (r: Option<Face>)
        ensures
            r == if self.has_face(*face_id) { Some(self.face_at(*face_id)) } else { None },
    {
        if face_id.is_null() { None } else { self.faces.get(face_id.val()) }
    }

    pub fn vertex_halfedge(&self, vertex_id: &VertexID) -> (r: Option<HalfEdgeID>)
        requires
            self.has_vertex(*vertex_id),
        ensures
            r == self.vertex_at(*vertex_id).halfedge,
    {
        self.vertices.get(vertex_id.val()).unwrap().halfedge
    }

    pub fn halfedge_vertex(&self, halfedge_id: &HalfEdgeID) -> (r: Option<VertexID>)
        requires
            self.has_halfedge(*halfedge_id),
        ensures
            r == self.halfedge_at(*halfedge_id).vertex,
    {
        self.halfedges.get(halfedge_id.val()).unwrap().vertex
    }

    pub fn halfedge_twin(&self, halfedge_id: &HalfEdgeID) -> (r: Option<HalfEdgeID>)
        requires
            self.has_halfedge(*halfedge_id),
        ensures
            r == self.halfedge_at(*halfedge_id).twin,
    {
        self.halfedges.get(halfedge_id.val()).unwrap().twin
    }

    pub fn halfedge_next(&self, halfedge_id: &HalfEdgeID) -> (r: Option<HalfEdgeID>)
        requires
            self.has_halfedge(*halfedge_id),
        ensures
            r == self.halfedge_at(*halfedge_id).next,
    {
        self.halfedges.get(halfedge_id.val()).unwrap().next
    }

    pub fn halfedge_face(&self, halfedge_id: &HalfEdgeID) -> (r: Option<FaceID>)
        requires
            self.has_halfedge(*halfedge_id),
        ensures
            r == self.halfedge_at(*halfedge_id).face,
    {
        self.halfedges.get(halfedge_id.val()).unwrap().face
    }

    pub fn face_halfedge(&self, face_id: &FaceID) -> (r: Option<HalfEdgeID>)
        requires
            self.has_face(*face_id),
        ensures
            r == self.face_at(*face_id).halfedge,
    {
        self.faces.get(face_id.val()).unwrap().halfedge
    }
}

} // verus!
