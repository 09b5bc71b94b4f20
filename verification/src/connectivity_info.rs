use vstd::prelude::*;
use crate::ids::{VertexID, HalfEdgeID, FaceID, group_id_ext};
use crate::dynamic_mesh::connectivity_info as store;
pub use crate::dynamic_mesh::connectivity_info::{Vertex, HalfEdge, Face};

verus! {

broadcast use group_id_ext;

/// Vertices, halfedges and faces whose connectivity is set one link at a time.
#[derive(Debug)]
pub struct ConnectivityInfo {
    inner: store::ConnectivityInfo,
}

/// A list of face identifiers that `face_iterator` gives: in increasing index order, every
/// one stored, every stored one in it.
pub open spec fn face_list(c: store::ConnectivityInfo, r: Seq<FaceID>) -> bool {
    &&& forall|i: int, j: int| 0 <= i < j < r.len() ==> r[i].index() < r[j].index()
    &&& forall|i: int| 0 <= i < r.len() ==> #[trigger] c.has_face(r[i])
    &&& forall|id: FaceID| #[trigger] c.has_face(id) ==> r.contains(id)
    &&& r.len() == c.face_map().dom().len()
}

/// The faces listed are listed once each, and are exactly the faces stored.
pub proof fn lemma_faces_listed_once(c: store::ConnectivityInfo, r: Seq<FaceID>)
    requires
        face_list(c, r),
    ensures
        r.no_duplicates(),
        forall|id: FaceID| #[trigger] r.contains(id) <==> c.has_face(id),
{
    assert forall|i: int, j: int| 0 <= i < r.len() && 0 <= j < r.len() && i != j implies r[i] != r[j] by {
        if i < j {
            assert(r[i].index() < r[j].index());
        } else {
            assert(r[j].index() < r[i].index());
        }
    }
}

/// A face created is listed afterwards together with every face stored before.
pub proof fn lemma_created_face_listed(before: store::ConnectivityInfo, after: store::ConnectivityInfo, f: FaceID, r: Seq<FaceID>)
    requires
        before.wf(),
        !f.spec_is_null(),
        after.face_map() == before.face_map().insert(f.index(), Face { halfedge: None }),
        face_list(after, r),
    ensures
        r.contains(f),
        forall|g: FaceID| #[trigger] before.has_face(g) ==> r.contains(g),
        r.len() == before.face_map().dom().len() + if before.has_face(f) { 0int } else { 1int },
{
    before.lemma_finite();
    assert(after.has_face(f));
    assert forall|g: FaceID| #[trigger] before.has_face(g) implies r.contains(g) by {
        assert(after.has_face(g));
    }
    if !before.has_face(f) {
        assert(after.face_map().dom() =~= before.face_map().dom().insert(f.index()));
    } else {
        assert(after.face_map().dom() =~= before.face_map().dom());
    }
}

impl ConnectivityInfo {
    /// The vertices, halfedges and faces, as the dynamic mesh stores them.
    pub closed spec fn content(&self) -> store::ConnectivityInfo {
        self.inner
    }

    pub open spec fn wf(&self) -> bool {
        self.content().wf()
    }

    /// The vertices, halfedges and faces, as the dynamic mesh stores them.
    pub fn content_ref(&self) -> (r: &store::ConnectivityInfo)
        ensures
            *r == self.content(),
    {
        &self.inner
    }

    /// An empty connectivity; the counts are hints of the sizes to come.
    pub fn new(no_vertices: usize, no_faces: usize) -> (r: ConnectivityInfo)
        ensures
            r.wf(),
            r.content().vertex_map() == Map::<usize, Vertex>::empty(),
            r.content().halfedge_map() == Map::<usize, HalfEdge>::empty(),
            r.content().face_map() == Map::<usize, Face>::empty(),
    {
        ConnectivityInfo { inner: store::ConnectivityInfo::new(no_vertices, no_faces) }
    }

    pub fn no_vertices(&self) -> (r: usize)
        requires
            self.wf(),
        ensures
            r == self.content().vertex_map().dom().len(),
    {
        self.inner.no_vertices()
    }

    pub fn no_faces(&self) -> (r: usize)
        requires
            self.wf(),
        ensures
            r == self.content().face_map().dom().len(),
    {
        self.inner.no_faces()
    }

    /// Adds a vertex with no halfedge under the smallest unused index from the number of
    /// vertices on.
    pub fn create_vertex(&mut self) -> (r: VertexID)
        requires
            old(self).wf(),
            old(self).content().vertex_map().dom().len() < usize::MAX / 2,
        ensures
            final(self).wf(),
            !r.spec_is_null(),
            r.index() == crate::arena::fresh_index(old(self).content().vertex_map().dom()),
            final(self).content().vertex_map() == old(self).content().vertex_map().insert(r.index(), Vertex { halfedge: None }),
            final(self).content().halfedge_map() == old(self).content().halfedge_map(),
            final(self).content().face_map() == old(self).content().face_map(),
    {
        self.inner.create_vertex()
    }

    /// Removes the vertex, if there is one; nothing that refers to it is changed.
    pub fn remove_vertex(&mut self, vertex_id: &VertexID)
        requires
            old(self).wf(),
        ensures
            final(self).wf(),
            final(self).content().vertex_map() == if vertex_id.spec_is_null() {
                old(self).content().vertex_map()
            } else {
                old(self).content().vertex_map().remove(vertex_id.index())
            },
            final(self).content().halfedge_map() == old(self).content().halfedge_map(),
            final(self).content().face_map() == old(self).content().face_map(),
    {
        self.inner.remove_vertex(vertex_id)
    }

    /// Adds a halfedge with no connectivity under the smallest unused index from the number
    /// of halfedges on.
    pub fn create_halfedge(&mut self) -> (r: HalfEdgeID)
        requires
            old(self).wf(),
            old(self).content().halfedge_map().dom().len() < usize::MAX / 2,
        ensures
            final(self).wf(),
            !r.spec_is_null(),
            r.index() == crate::arena::fresh_index(old(self).content().halfedge_map().dom()),
            final(self).content().halfedge_map() == old(self).content().halfedge_map().insert(
                r.index(),
                HalfEdge { vertex: None, twin: None, next: None, face: None },
            ),
            final(self).content().vertex_map() == old(self).content().vertex_map(),
            final(self).content().face_map() == old(self).content().face_map(),
    {
        self.inner.create_halfedge(None, None, None)
    }

    /// Adds a face with no halfedge under the smallest unused index from the number of faces
    /// on.
    pub fn create_face(&mut self) -> (r: FaceID)
        requires
            old(self).wf(),
            old(self).content().face_map().dom().len() < usize::MAX / 2,
        ensures
            final(self).wf(),
            !r.spec_is_null(),
            r.index() == crate::arena::fresh_index(old(self).content().face_map().dom()),
            final(self).content().face_map() == old(self).content().face_map().insert(r.index(), Face { halfedge: None }),
            final(self).content().vertex_map() == old(self).content().vertex_map(),
            final(self).content().halfedge_map() == old(self).content().halfedge_map(),
    {
        self.inner.new_face()
    }

    pub fn set_vertex_halfedge(&mut self, id: &VertexID, val: &HalfEdgeID)
        requires
            old(self).wf(),
            old(self).content().has_vertex(*id),
        ensures
            final(self).wf(),
            final(self).content().vertex_map() == old(self).content().vertex_map().insert(id.index(), Vertex { halfedge: Some(*val) }),
            final(self).content().halfedge_map() == old(self).content().halfedge_map(),
            final(self).content().face_map() == old(self).content().face_map(),
    {
        self.inner.set_vertex_halfedge(id, *val)
    }

    pub fn set_halfedge_vertex(&mut self, id: &HalfEdgeID, val: &VertexID)
        requires
            old(self).wf(),
            old(self).content().has_halfedge(*id),
        ensures
            final(self).wf(),
            final(self).content().halfedge_map() == old(self).content().halfedge_map().insert(
                id.index(),
                HalfEdge { vertex: Some(*val), ..old(self).content().halfedge_at(*id) },
            ),
            final(self).content().vertex_map() == old(self).content().vertex_map(),
            final(self).content().face_map() == old(self).content().face_map(),
    {
        self.inner.set_halfedge_vertex(id, *val)
    }

    pub fn set_halfedge_next(&mut self, id: &HalfEdgeID, val: &HalfEdgeID)
        requires
            old(self).wf(),
            old(self).content().has_halfedge(*id),
        ensures
            final(self).wf(),
            final(self).content().halfedge_map() == old(self).content().halfedge_map().insert(
                id.index(),
                HalfEdge { next: Some(*val), ..old(self).content().halfedge_at(*id) },
            ),
            final(self).content().vertex_map() == old(self).content().vertex_map(),
            final(self).content().face_map() == old(self).content().face_map(),
    {
        self.inner.set_halfedge_next(id, *val)
    }

    /// Sets the twin of halfedge `id` only; the twin's own twin is left as it is.
    pub fn set_halfedge_twin(&mut self, id: &HalfEdgeID, val: &HalfEdgeID)
        requires
            old(self).wf(),
            old(self).content().has_halfedge(*id),
        ensures
            final(self).wf(),
            final(self).content().halfedge_map() == old(self).content().halfedge_map().insert(
                id.index(),
                HalfEdge { twin: Some(*val), ..old(self).content().halfedge_at(*id) },
            ),
            final(self).content().vertex_map() == old(self).content().vertex_map(),
            final(self).content().face_map() == old(self).content().face_map(),
    {
        proof {
            self.inner.lemma_keys_small();
        }
        let h = self.inner.halfedge(id).unwrap();
        self.inner.add_halfedge(*id, HalfEdge { twin: Some(*val), ..h })
    }

    pub fn set_halfedge_face(&mut self, id: &HalfEdgeID, val: &FaceID)
        requires
            old(self).wf(),
            old(self).content().has_halfedge(*id),
        ensures
            final(self).wf(),
            final(self).content().halfedge_map() == old(self).content().halfedge_map().insert(
                id.index(),
                HalfEdge { face: Some(*val), ..old(self).content().halfedge_at(*id) },
            ),
            final(self).content().vertex_map() == old(self).content().vertex_map(),
            final(self).content().face_map() == old(self).content().face_map(),
    {
        self.inner.set_halfedge_face(id, *val)
    }

    pub fn set_face_halfedge(&mut self, id: &FaceID, val: &HalfEdgeID)
        requires
            old(self).wf(),
            old(self).content().has_face(*id),
        ensures
            final(self).wf(),
            final(self).content().face_map() == old(self).content().face_map().insert(id.index(), Face { halfedge: Some(*val) }),
            final(self).content().vertex_map() == old(self).content().vertex_map(),
            final(self).content().halfedge_map() == old(self).content().halfedge_map(),
    {
        self.inner.set_face_halfedge(id, *val)
    }

    /// The identifiers of all vertices, in increasing index order.
    pub fn vertex_iterator(&self) -> (r: Vec<VertexID>)
        ensures
            forall|i: int, j: int| 0 <= i < j < r@.len() ==> r@[i].index() < r@[j].index(),
            forall|i: int| 0 <= i < r@.len() ==> #[trigger] self.content().has_vertex(r@[i]),
            forall|id: VertexID| #[trigger] self.content().has_vertex(id) ==> r@.contains(id),
            r@.len() == self.content().vertex_map().dom().len(),
    {
        self.inner.vertex_iterator()
    }

    /// The identifiers of all halfedges, in increasing index order.
    pub fn halfedge_iterator(&self) -> (r: Vec<HalfEdgeID>)
        ensures
            forall|i: int, j: int| 0 <= i < j < r@.len() ==> r@[i].index() < r@[j].index(),
            forall|i: int| 0 <= i < r@.len() ==> #[trigger] self.content().has_halfedge(r@[i]),
            forall|id: HalfEdgeID| #[trigger] self.content().has_halfedge(id) ==> r@.contains(id),
            r@.len() == self.content().halfedge_map().dom().len(),
    {
        self.inner.halfedge_iterator()
    }

    /// The identifiers of all faces, in increasing index order.
    pub fn face_iterator(&self) -> (r: Vec<FaceID>)
        ensures
            forall|i: int, j: int| 0 <= i < j < r@.len() ==> r@[i].index() < r@[j].index(),
            forall|i: int| 0 <= i < r@.len() ==> #[trigger] self.content().has_face(r@[i]),
            forall|id: FaceID| #[trigger] self.content().has_face(id) ==> r@.contains(id),
            r@.len() == self.content().face_map().dom().len(),
            face_list(self.content(), r@),
    {
        self.inner.face_iterator()
    }

    pub fn vertex_halfedge(&self, vertex_id: &VertexID) -> (r: Option<HalfEdgeID>)
        requires
            self.content().has_vertex(*vertex_id),
        ensures
            r == self.content().vertex_at(*vertex_id).halfedge,
    {
        self.inner.vertex_halfedge(vertex_id)
    }

    pub fn halfedge_vertex(&self, halfedge_id: &HalfEdgeID) -> (r: Option<VertexID>)
        requires
            self.content().has_halfedge(*halfedge_id),
        ensures
            r == self.content().halfedge_at(*halfedge_id).vertex,
    {
        self.inner.halfedge_vertex(halfedge_id)
    }

    pub fn halfedge_twin(&self, halfedge_id: &HalfEdgeID) -> (r: Option<HalfEdgeID>)
        requires
            self.content().has_halfedge(*halfedge_id),
        ensures
            r == self.content().halfedge_at(*halfedge_id).twin,
    {
        self.inner.halfedge_twin(halfedge_id)
    }

    pub fn halfedge_next(&self, halfedge_id: &HalfEdgeID) -> (r: Option<HalfEdgeID>)
        requires
            self.content().has_halfedge(*halfedge_id),
        ensures
            r == self.content().halfedge_at(*halfedge_id).next,
    {
        self.inner.halfedge_next(halfedge_id)
    }

    pub fn halfedge_face(&self, halfedge_id: &HalfEdgeID) -> (r: Option<FaceID>)
        requires
            self.content().has_halfedge(*halfedge_id),
        ensures
            r == self.content().halfedge_at(*halfedge_id).face,
    {
        self.inner.halfedge_face(halfedge_id)
    }

    pub fn face_halfedge(&self, face_id: &FaceID) -> (r: Option<HalfEdgeID>)
        requires
            self.content().has_face(*face_id),
        ensures
            r == self.content().face_at(*face_id).halfedge,
    {
        self.inner.face_halfedge(face_id)
    }

    /// The connectivity of a halfedge, when the identifier names a stored halfedge.
    pub fn halfedge_info(&self, halfedge_id: &HalfEdgeID) -> (r: Option<HalfEdge>)
        ensures
            r == self.content().info_of(Some(*halfedge_id)),
    {
        self.inner.halfedge(halfedge_id)
    }
}

} // verus!
