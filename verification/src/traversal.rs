use vstd::prelude::*;
use crate::ids::{VertexID, HalfEdgeID, FaceID};
use crate::connectivity_info::ConnectivityInfo;
use crate::dynamic_mesh::connectivity_info as store;
use crate::dynamic_mesh::traversal as steps;

verus! {

/// A position on a halfedge of a connectivity from which its neighbours can be reached.
/// A walker that stands on no halfedge stays there.
#[derive(Clone, Copy, Debug)]
pub struct Walker<'a> {
    inner: steps::Walker<'a>,
}

impl<'a> Walker<'a> {
    /// The connectivity the walker moves on.
    pub closed spec fn connectivity(&self) -> store::ConnectivityInfo {
        self.inner.connectivity()
    }

    /// The halfedge the walker stands on.
    pub closed spec fn current(&self) -> Option<HalfEdgeID> {
        self.inner.current()
    }

    pub closed spec fn wf(&self) -> bool {
        self.inner.wf()
    }

    /// A walker on no halfedge.
    pub fn create(connectivity_info: &'a ConnectivityInfo) -> (r: Walker<'a>)
        ensures
            r.wf(),
            r.connectivity() == connectivity_info.content(),
            r.current() == None::<HalfEdgeID>,
    {
        Walker { inner: steps::Walker::new(connectivity_info.content_ref()) }
    }

    /// A walker on the halfedge of a vertex.
    pub fn create_from_vertex(vertex_id: &VertexID, connectivity_info: &'a ConnectivityInfo) -> (r: Walker<'a>)
        requires
            connectivity_info.content().has_vertex(*vertex_id),
        ensures
            r.wf(),
            r.connectivity() == connectivity_info.content(),
            r.current() == connectivity_info.content().vertex_at(*vertex_id).halfedge,
    {
        let mut walker = Walker::create(connectivity_info);
        walker.jump_to_vertex(vertex_id);
        walker
    }

    /// A walker on a halfedge.
    pub fn create_from_halfedge(halfedge_id: &HalfEdgeID, connectivity_info: &'a ConnectivityInfo) -> (r: Walker<'a>)
        ensures
            r.wf(),
            r.connectivity() == connectivity_info.content(),
            r.current() == Some(*halfedge_id),
    {
        let mut walker = Walker::create(connectivity_info);
        walker.jump_to_edge(halfedge_id);
        walker
    }

    /// A walker on the halfedge of a face.
    pub fn create_from_face(face_id: &FaceID, connectivity_info: &'a ConnectivityInfo) -> (r: Walker<'a>)
        requires
            connectivity_info.content().has_face(*face_id),
        ensures
            r.wf(),
            r.connectivity() == connectivity_info.content(),
            r.current() == connectivity_info.content().face_at(*face_id).halfedge,
    {
        let mut walker = Walker::create(connectivity_info);
        walker.jump_to_face(face_id);
        walker
    }

    /// Moves the walker to the halfedge of the vertex.
    pub fn jump_to_vertex(&mut self, vertex_id: &VertexID) -> (r: &mut Walker<'a>)
        requires
            old(self).connectivity().has_vertex(*vertex_id),
        ensures
            r.wf(),
            r.connectivity() == old(self).connectivity(),
            r.current() == old(self).connectivity().vertex_at(*vertex_id).halfedge,
            *final(self) == *final(r),
    {
        self.inner.as_vertex_halfedge_walker(vertex_id);
        self
    }

    /// Moves the walker to the halfedge.
    pub fn jump_to_edge(&mut self, halfedge_id: &HalfEdgeID) -> (r: &mut Walker<'a>)
        ensures
            r.wf(),
            r.connectivity() == old(self).connectivity(),
            r.current() == Some(*halfedge_id),
            *final(self) == *final(r),
    {
        self.inner.as_halfedge_walker(halfedge_id);
        self
    }

    /// Moves the walker to the halfedge of the face.
    pub fn jump_to_face(&mut self, face_id: &FaceID) -> (r: &mut Walker<'a>)
        requires
            old(self).connectivity().has_face(*face_id),
        ensures
            r.wf(),
            r.connectivity() == old(self).connectivity(),
            r.current() == old(self).connectivity().face_at(*face_id).halfedge,
            *final(self) == *final(r),
    {
        self.inner.as_face_halfedge_walker(face_id);
        self
    }

    /// Moves the walker to the twin of its halfedge.
    pub fn twin(&mut self) -> (r: &mut Walker<'a>)
        requires
            old(self).wf(),
        ensures
            r.wf(),
            r.connectivity() == old(self).connectivity(),
            r.current() == old(self).connectivity().twin_of(old(self).current()),
            *final(self) == *final(r),
    {
        self.inner.twin();
        self
    }

    /// The twin of the walker's halfedge.
    pub fn twin_id(&self) -> (r: Option<HalfEdgeID>)
        requires
            self.wf(),
        ensures
            r == self.connectivity().twin_of(self.current()),
    {
        self.inner.twin_id()
    }

    /// Moves the walker to the next halfedge.
    pub fn next(&mut self) -> (r: &mut Walker<'a>)
        requires
            old(self).wf(),
        ensures
            r.wf(),
            r.connectivity() == old(self).connectivity(),
            r.current() == old(self).connectivity().next_of(old(self).current()),
            *final(self) == *final(r),
    {
        self.inner.next();
        self
    }

    /// Moves the walker two halfedges ahead, to the one before it around a triangle.
    pub fn previous(&mut self) -> (r: &mut Walker<'a>)
        requires
            old(self).wf(),
        ensures
            r.wf(),
            r.connectivity() == old(self).connectivity(),
            r.current() == old(self).connectivity().next_of(old(self).connectivity().next_of(old(self).current())),
            *final(self) == *final(r),
    {
        self.inner.previous();
        self
    }

    /// The vertex the walker's halfedge points to.
    pub fn vertex_id(&self) -> (r: Option<VertexID>)
        requires
            self.wf(),
        ensures
            r == self.connectivity().vertex_of(self.current()),
    {
        self.inner.vertex_id()
    }

    /// The walker's halfedge.
    pub fn halfedge_id(&self) -> (r: Option<HalfEdgeID>)
        ensures
            r == self.current(),
    {
        self.inner.halfedge_id()
    }

    /// The face the walker's halfedge bounds.
    pub fn face_id(&self) -> (r: Option<FaceID>)
        requires
            self.wf(),
        ensures
            r == self.connectivity().face_of(self.current()),
    {
        self.inner.face_id()
    }
}

} // verus!
