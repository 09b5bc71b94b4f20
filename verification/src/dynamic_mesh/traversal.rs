use vstd::prelude::*;
use crate::ids::{VertexID, HalfEdgeID, FaceID, group_id_ext};
use crate::dynamic_mesh::connectivity_info::{ConnectivityInfo, HalfEdge};
use crate::dynamic_mesh::dynamic_mesh::DynamicMesh;

verus! {

broadcast use group_id_ext;

/// A position on a halfedge of a mesh from which its neighbours can be reached.
/// A walker that stands on no halfedge stays there.
#[derive(Clone, Copy, Debug)]
pub struct Walker<'a> {
    connectivity_info: &'a ConnectivityInfo,
    current: Option<HalfEdgeID>,
    current_info: Option<HalfEdge>,
}

impl<'a> Walker<'a> {
    /// The connectivity the walker moves on.
    pub closed spec fn connectivity(&self) -> ConnectivityInfo {
        *self.connectivity_info
    }

    /// The halfedge the walker stands on.
    pub closed spec fn current(&self) -> Option<HalfEdgeID> {
        self.current
    }

    pub closed spec fn wf(&self) -> bool {
        self.current_info == self.connectivity().info_of(self.current)
    }

    pub fn new(connectivity_info: &'a ConnectivityInfo) -> (r: Walker<'a>)
        ensures
            r.wf(),
            r.connectivity() == *connectivity_info,
            r.current() == None::<HalfEdgeID>,
    {
        Walker { current: None, current_info: None, connectivity_info }
    }

    fn set_current(&mut self, halfedge_id: Option<HalfEdgeID>)
        ensures
            final(self).wf(),
            final(self).connectivity() == old(self).connectivity(),
            final(self).current() == halfedge_id,
    {
        self.current_info = match halfedge_id {
            Some(id) => self.connectivity_info.halfedge(&id),
            None => None,
        };
        self.current = halfedge_id;
    }

    /// The walker moved to the halfedge of the vertex.
    pub fn into_vertex_halfedge_walker(self, vertex_id: &VertexID) -> (r: Self)
        requires
            self.connectivity().has_vertex(*vertex_id),
        ensures
            r.wf(),
            r.connectivity() == self.connectivity(),
            r.current() == self.connectivity().vertex_at(*vertex_id).halfedge,
    {
        let mut walker = self;
        walker.as_vertex_halfedge_walker(vertex_id);
        walker
    }

    /// The walker moved to the halfedge.
    pub fn into_halfedge_walker(self, halfedge_id: &HalfEdgeID) -> (r: Self)
        ensures
            r.wf(),
            r.connectivity() == self.connectivity(),
            r.current() == Some(*halfedge_id),
    {
        let mut walker = self;
        walker.as_halfedge_walker(halfedge_id);
        walker
    }

    /// The walker moved to the halfedge of the face.
    pub fn into_face_halfedge_walker(self, face_id: &FaceID) -> (r: Self)
        requires
            self.connectivity().has_face(*face_id),
        ensures
            r.wf(),
            r.connectivity() == self.connectivity(),
            r.current() == self.connectivity().face_at(*face_id).halfedge,
    {
        let mut walker = self;
        walker.as_face_halfedge_walker(face_id);
        walker
    }

    /// Moves the walker to the halfedge of the vertex.
    pub fn as_vertex_halfedge_walker(&mut self, vertex_id: &VertexID) -> (r: &mut Self)
        requires
            old(self).connectivity().has_vertex(*vertex_id),
        ensures
            r.wf(),
            r.connectivity() == old(self).connectivity(),
            r.current() == old(self).connectivity().vertex_at(*vertex_id).halfedge,
            *final(self) == *final(r),
    {
        let halfedge_id = self.connectivity_info.vertex_halfedge(vertex_id);
        self.set_current(halfedge_id);
        self
    }

    /// Moves the walker to the halfedge.
    pub fn as_halfedge_walker(&mut self, halfedge_id: &HalfEdgeID) -> (r: &mut Self)
        ensures
            r.wf(),
            r.connectivity() == old(self).connectivity(),
            r.current() == Some(*halfedge_id),
            *final(self) == *final(r),
    {
        self.set_current(Some(*halfedge_id));
        self
    }

    /// Moves the walker to the halfedge of the face.
    pub fn as_face_halfedge_walker(&mut self, face_id: &FaceID) -> (r: &mut Self)
        requires
            old(self).connectivity().has_face(*face_id),
        ensures
            r.wf(),
            r.connectivity() == old(self).connectivity(),
            r.current() == old(self).connectivity().face_at(*face_id).halfedge,
            *final(self) == *final(r),
    {
        let halfedge_id = self.connectivity_info.face_halfedge(face_id);
        self.set_current(halfedge_id);
        self
    }

    /// Moves the walker to the twin of its halfedge.
    pub fn twin(&mut self) -> (r: &mut Self)
        requires
            old(self).wf(),
        ensures
            r.wf(),
            r.connectivity() == old(self).connectivity(),
            r.current() == old(self).connectivity().twin_of(old(self).current()),
            *final(self) == *final(r),
    {
        let halfedge_id = match self.current_info {
            Some(current_info) => current_info.twin,
            None => None,
        };
        self.set_current(halfedge_id);
        self
    }

    /// The twin of the walker's halfedge.
    pub fn twin_id(&self) -> (r: Option<HalfEdgeID>)
        requires
            self.wf(),
        ensures
            r == self.connectivity().twin_of(self.current()),
    {
        match self.current_info {
            Some(halfedge) => halfedge.twin,
            None => None,
        }
    }

    /// Moves the walker to the next halfedge.
    pub fn next(&mut self) -> (r: &mut Self)
        requires
            old(self).wf(),
        ensures
            r.wf(),
            r.connectivity() == old(self).connectivity(),
            r.current() == old(self).connectivity().next_of(old(self).current()),
            *final(self) == *final(r),
    {
        let halfedge_id = match self.current_info {
            Some(current_info) => current_info.next,
            None => None,
        };
        self.set_current(halfedge_id);
        self
    }

    /// The next halfedge after the walker's halfedge.
    pub fn next_id(&self) -> (r: Option<HalfEdgeID>)
        requires
            self.wf(),
        ensures
            r == self.connectivity().next_of(self.current()),
    {
        match self.current_info {
            Some(halfedge) => halfedge.next,
            None => None,
        }
    }

    /// Moves the walker to the previous halfedge, two steps ahead around a triangle.
    pub fn previous(&mut self) -> (r: &mut Self)
        requires
            old(self).wf(),
        ensures
            r.wf(),
            r.connectivity() == old(self).connectivity(),
            r.current() == old(self).connectivity().next_of(old(self).connectivity().next_of(old(self).current())),
            *final(self) == *final(r),
    {
        self.next();
        self.next()
    }

    /// The previous halfedge, two steps ahead around a triangle.
    pub fn previous_id(&self) -> (r: Option<HalfEdgeID>)
        requires
            self.wf(),
        ensures
            r == self.connectivity().next_of(self.connectivity().next_of(self.current())),
    {
        match self.next_id() {
            Some(next_id) => Walker::new(self.connectivity_info).into_halfedge_walker(&next_id).next_id(),
            None => None,
        }
    }

    /// The vertex the walker's halfedge points to.
    pub fn vertex_id(&self) -> (r: Option<VertexID>)
        requires
            self.wf(),
        ensures
            r == self.connectivity().vertex_of(self.current()),
    {
        match self.current_info {
            Some(halfedge) => halfedge.vertex,
            None => None,
        }
    }

    /// The walker's halfedge.
    pub fn halfedge_id(&self) -> (r: Option<HalfEdgeID>)
        ensures
            r == self.current(),
    {
        self.current
    }

    /// Moves the walker to the next halfedge around the vertex its halfedge starts at.
    /// Across a hole it follows twins of next halfedges until it reaches the boundary,
    /// giving up after as many steps as there are halfedges.
    pub fn step_around_vertex(&mut self)
        requires
            old(self).wf(),
            old(self).connectivity().wf(),
        ensures
            final(self).wf(),
            final(self).connectivity() == old(self).connectivity(),
            final(self).current() == old(self).connectivity().ring_next(old(self).current()),
    {
        if self.face_id().is_some() {
            self.previous().twin();
        } else {
            let fuel = self.connectivity_info.no_halfedges();
            self.twin();
            let ghost c = self.connectivity();
            let ghost t = self.current();
            let mut left: usize = fuel;
            while self.face_id().is_some() && left > 0
                invariant
                    self.wf(),
                    self.connectivity() == c,
                    left <= fuel,
                    fuel == c.halfedge_map().dom().len(),
                    c.hole_walk(t, fuel as nat) == c.hole_walk(self.current(), left as nat),
                decreases left,
            {
                self.next().twin();
                left = left - 1;
            }
            if self.face_id().is_some() {
                self.set_current(None);
            }
            self.twin();
        }
    }

    /// The face the walker's halfedge bounds.
    pub fn face_id(&self) -> (r: Option<FaceID>)
        requires
            self.wf(),
        ensures
            r == self.connectivity().face_of(self.current()),
    {
        match self.current_info {
            Some(halfedge) => halfedge.face,
            None => None,
        }
    }
}

impl<P: Copy> DynamicMesh<P> {
    /// A walker on no halfedge of the mesh.
    pub fn walker(&self) -> (r: Walker<'_>)
        ensures
            r.wf(),
            r.connectivity() == self.connectivity(),
            r.current() == None::<HalfEdgeID>,
    {
        Walker::new(self.connectivity_info())
    }

    /// A walker on the halfedge of a vertex.
    pub fn walker_from_vertex(&self, vertex_id: &VertexID) -> (r: Walker<'_>)
        requires
            self.connectivity().has_vertex(*vertex_id),
        ensures
            r.wf(),
            r.connectivity() == self.connectivity(),
            r.current() == self.connectivity().vertex_at(*vertex_id).halfedge,
    {
        Walker::new(self.connectivity_info()).into_vertex_halfedge_walker(vertex_id)
    }

    /// A walker on a halfedge.
    pub fn walker_from_halfedge(&self, halfedge_id: &HalfEdgeID) -> (r: Walker<'_>)
        ensures
            r.wf(),
            r.connectivity() == self.connectivity(),
            r.current() == Some(*halfedge_id),
    {
        Walker::new(self.connectivity_info()).into_halfedge_walker(halfedge_id)
    }

    /// A walker on the halfedge of a face.
    pub fn walker_from_face(&self, face_id: &FaceID) -> (r: Walker<'_>)
        requires
            self.connectivity().has_face(*face_id),
        ensures
            r.wf(),
            r.connectivity() == self.connectivity(),
            r.current() == self.connectivity().face_at(*face_id).halfedge,
    {
        Walker::new(self.connectivity_info()).into_face_halfedge_walker(face_id)
    }

    /// The identifiers of all vertices, in increasing index order.
    pub fn vertex_iterator(&self) -> (r: Vec<VertexID>)
        requires
            self.wf(),
        ensures
            forall|i: int, j: int| 0 <= i < j < r@.len() ==> r@[i].index() < r@[j].index(),
            forall|i: int| 0 <= i < r@.len() ==> #[trigger] self.connectivity().has_vertex(r@[i]),
            forall|id: VertexID| #[trigger] self.connectivity().has_vertex(id) ==> r@.contains(id),
            r@.len() == self.connectivity().vertex_map().dom().len(),
    {
        self.connectivity_info().vertex_iterator()
    }

    /// The identifiers of all halfedges, in increasing index order.
    pub fn halfedge_iterator(&self) -> (r: Vec<HalfEdgeID>)
        requires
            self.wf(),
        ensures
            forall|i: int, j: int| 0 <= i < j < r@.len() ==> r@[i].index() < r@[j].index(),
            forall|i: int| 0 <= i < r@.len() ==> #[trigger] self.connectivity().has_halfedge(r@[i]),
            forall|id: HalfEdgeID| #[trigger] self.connectivity().has_halfedge(id) ==> r@.contains(id),
            r@.len() == self.connectivity().halfedge_map().dom().len(),
    {
        self.connectivity_info().halfedge_iterator()
    }

    /// The identifiers of all faces, in increasing index order.
    pub fn face_iterator(&self) -> (r: Vec<FaceID>)
        requires
            self.wf(),
        ensures
            forall|i: int, j: int| 0 <= i < j < r@.len() ==> r@[i].index() < r@[j].index(),
            forall|i: int| 0 <= i < r@.len() ==> #[trigger] self.connectivity().has_face(r@[i]),
            forall|id: FaceID| #[trigger] self.connectivity().has_face(id) ==> r@.contains(id),
            r@.len() == self.connectivity().face_map().dom().len(),
    {
        self.connectivity_info().face_iterator()
    }

    /// Walkers on the halfedges that start at a vertex, going around it from the vertex's
    /// own halfedge until the walk returns to it (see `ring_len`).
    pub fn vertex_halfedge_iterator(&self, vertex_id: &VertexID) -> (r: Vec<Walker<'_>>)
        requires
            self.wf(),
            self.connectivity().has_vertex(*vertex_id),
            self.connectivity().vertex_at(*vertex_id).halfedge is Some,
        ensures
            ({
                let start = self.connectivity().vertex_at(*vertex_id).halfedge->Some_0;
                &&& r@.len() == self.connectivity().ring_len(start)
                &&& forall|i: int|
                    0 <= i < r@.len() ==> {
                        &&& (#[trigger] r@[i]).wf()
                        &&& r@[i].connectivity() == self.connectivity()
                        &&& r@[i].current() == self.connectivity().ring_iter(Some(start), i as nat)
                    }
            }),
    {
        let mut current = self.walker_from_vertex(vertex_id);
        let start = current.halfedge_id().unwrap();
        let bound = self.connectivity_info().no_halfedges();
        proof {
            self.connectivity().lemma_finite();
            self.connectivity().lemma_bounded_counts();
        }
        let ghost c = self.connectivity();
        let mut result: Vec<Walker<'_>> = Vec::new();
        let mut done = false;
        let mut count: usize = 0;
        while !done
            invariant
                self.wf(),
                c == self.connectivity(),
                bound == c.halfedge_map().dom().len(),
                bound < usize::MAX,
                count <= bound + 1,
                result@.len() == count,
                current.wf(),
                current.connectivity() == c,
                current.current() == c.ring_iter(Some(start), count as nat),
                forall|i: int|
                    0 <= i < result@.len() ==> {
                        &&& (#[trigger] result@[i]).wf()
                        &&& result@[i].connectivity() == c
                        &&& result@[i].current() == c.ring_iter(Some(start), i as nat)
                    },
                forall|j: nat| 1 <= j < count ==> !c.ring_stops(start, j),
                done ==> c.ring_stops(start, count as nat),
                !done ==> (count == 0 || !c.ring_stops(start, count as nat)),
            decreases bound + 1 - count,
        {
            result.push(current);
            current.step_around_vertex();
            count = count + 1;
            let back = match current.halfedge_id() {
                Some(h) => h == start,
                None => true,
            };
            done = back || count == bound + 1;
            assert(current.current() == c.ring_iter(Some(start), count as nat));
        }
        proof {
            let k = c.ring_len(start);
            assert(c.ring_stops(start, count as nat));
            if k != count {
                if k < count {
                    assert(!c.ring_stops(start, k));
                } else {
                    assert(!c.ring_stops(start, count as nat));
                }
            }
        }
        result
    }

    /// Walkers on the halfedges of a face, going around it from the face's own halfedge
    /// until the walk returns to it (see `face_walk_len`).
    pub fn face_halfedge_iterator(&self, face_id: &FaceID) -> (r: Vec<Walker<'_>>)
        requires
            self.wf(),
            self.connectivity().has_face(*face_id),
            self.connectivity().face_at(*face_id).halfedge is Some,
        ensures
            ({
                let start = self.connectivity().face_at(*face_id).halfedge->Some_0;
                &&& r@.len() == self.connectivity().face_walk_len(start)
                &&& forall|i: int|
                    0 <= i < r@.len() ==> {
                        &&& (#[trigger] r@[i]).wf()
                        &&& r@[i].connectivity() == self.connectivity()
                        &&& r@[i].current() == self.connectivity().next_iter(Some(start), i as nat)
                        &&& r@[i].current() is Some
                    }
            }),
    {
        let mut current = self.walker_from_face(face_id);
        let start = current.halfedge_id().unwrap();
        let bound = self.connectivity_info().no_halfedges();
        proof {
            self.connectivity().lemma_bounded_counts();
        }
        let ghost c = self.connectivity();
        let mut result: Vec<Walker<'_>> = Vec::new();
        let mut done = false;
        let mut count: usize = 0;
        while !done
            invariant
                self.wf(),
                c == self.connectivity(),
                bound == c.halfedge_map().dom().len(),
                bound < usize::MAX,
                count <= bound + 1,
                result@.len() == count,
                current.wf(),
                current.connectivity() == c,
                current.current() == c.next_iter(Some(start), count as nat),
                forall|i: int|
                    0 <= i < result@.len() ==> {
                        &&& (#[trigger] result@[i]).wf()
                        &&& result@[i].connectivity() == c
                        &&& result@[i].current() == c.next_iter(Some(start), i as nat)
                        &&& result@[i].current() is Some
                    },
                !done ==> current.current() is Some,
                forall|j: nat| 1 <= j < count ==> !c.face_walk_stops(start, j),
                done ==> c.face_walk_stops(start, count as nat),
                !done ==> (count == 0 || !c.face_walk_stops(start, count as nat)),
            decreases bound + 1 - count,
        {
            result.push(current);
            current.next();
            count = count + 1;
            let back = match current.halfedge_id() {
                Some(h) => h == start,
                None => true,
            };
            done = back || count == bound + 1;
        }
        proof {
            let k = c.face_walk_len(start);
            assert(c.face_walk_stops(start, count as nat));
            if k != count {
                if k < count {
                    assert(!c.face_walk_stops(start, k));
                } else {
                    assert(!c.face_walk_stops(start, count as nat));
                }
            }
        }
        result
    }

    /// Each pair of twin halfedges once, the one with the smaller index first, in
    /// increasing order of that index.
    pub fn halfedge_twins_iterator(&self) -> (r: Vec<(HalfEdgeID, HalfEdgeID)>)
        requires
            self.wf(),
            self.connectivity().twins_complete(),
        ensures
            forall|i: int, j: int| 0 <= i < j < r@.len() ==> r@[i].0.index() < r@[j].0.index(),
            forall|h: HalfEdgeID, t: HalfEdgeID|
                #![trigger r@.contains((h, t))]
                r@.contains((h, t)) <==> {
                    &&& self.connectivity().has_halfedge(h)
                    &&& self.connectivity().halfedge_at(h).twin == Some(t)
                    &&& h.index() < t.index()
                },
    {
        let halfedges = self.halfedge_iterator();
        let mut values: Vec<(HalfEdgeID, HalfEdgeID)> = Vec::new();
        let mut i: usize = 0;
        while i < halfedges.len()
            invariant
                self.wf(),
                self.connectivity().twins_complete(),
                i <= halfedges@.len(),
                forall|a: int, b: int| 0 <= a < b < halfedges@.len() ==> halfedges@[a].index() < halfedges@[b].index(),
                forall|a: int| 0 <= a < halfedges@.len() ==> #[trigger] self.connectivity().has_halfedge(halfedges@[a]),
                forall|id: HalfEdgeID| #[trigger] self.connectivity().has_halfedge(id) ==> halfedges@.contains(id),
                forall|a: int, b: int| 0 <= a < b < values@.len() ==> values@[a].0.index() < values@[b].0.index(),
                forall|a: int|
                    #![trigger values@[a]]
                    0 <= a < values@.len() ==> exists|k: int| #![trigger halfedges@[k]] 0 <= k < i && values@[a].0 == halfedges@[k],
                forall|h: HalfEdgeID, t: HalfEdgeID|
                    #![trigger values@.contains((h, t))]
                    values@.contains((h, t)) <==> {
                        &&& (exists|k: int| #![trigger halfedges@[k]] 0 <= k < i && h == halfedges@[k])
                        &&& self.connectivity().halfedge_at(h).twin == Some(t)
                        &&& h.index() < t.index()
                    },
            decreases halfedges@.len() - i,
        {
            let halfedge_id = halfedges[i];
            assert(self.connectivity().has_halfedge(halfedges@[i as int]));
            assert(self.connectivity().twin_ok(halfedge_id));
            let twin_id = self.walker_from_halfedge(&halfedge_id).twin_id().unwrap();
            let ghost old_values = values@;
            if halfedge_id.val() < twin_id.val() {
                values.push((halfedge_id, twin_id));
            }
            proof {
                assert forall|a: int|
                    #![trigger values@[a]]
                    0 <= a < values@.len() implies exists|k: int| #![trigger halfedges@[k]] 0 <= k < i + 1 && values@[a].0
                        == halfedges@[k] by {
                    if a < old_values.len() {
                        let k = choose|k: int| 0 <= k < i && old_values[a].0 == halfedges@[k];
                    } else {
                        assert(values@[a].0 == halfedges@[i as int]);
                    }
                }
                assert forall|a: int, b: int| 0 <= a < b < values@.len() implies values@[a].0.index() < values@[b].0.index() by {
                    if b == old_values.len() && values@.len() > old_values.len() {
                        let k = choose|k: int| 0 <= k < i && old_values[a].0 == halfedges@[k];
                        assert(halfedges@[k].index() < halfedges@[i as int].index());
                    }
                }
                assert forall|h: HalfEdgeID, t: HalfEdgeID|
                    #![trigger values@.contains((h, t))]
                    values@.contains((h, t)) <==> {
                        &&& (exists|k: int| #![trigger halfedges@[k]] 0 <= k < i + 1 && h == halfedges@[k])
                        &&& self.connectivity().halfedge_at(h).twin == Some(t)
                        &&& h.index() < t.index()
                    } by {
                    if values@.contains((h, t)) {
                        let a = choose|a: int| 0 <= a < values@.len() && values@[a] == (h, t);
                        if a < old_values.len() {
                            assert(old_values.contains((h, t)));
                            let k = choose|k: int| 0 <= k < i && h == halfedges@[k];
                            assert(0 <= k < i + 1 && h == halfedges@[k]);
                        } else {
                            assert(h == halfedges@[i as int]);
                        }
                    }
                    if (exists|k: int| #![trigger halfedges@[k]] 0 <= k < i + 1 && h == halfedges@[k]) && self.connectivity().halfedge_at(h).twin
                        == Some(t) && h.index() < t.index() {
                        let k = choose|k: int| 0 <= k < i + 1 && h == halfedges@[k];
                        if k < i {
                            assert(old_values.contains((h, t)));
                            let a = choose|a: int| 0 <= a < old_values.len() && old_values[a] == (h, t);
                            assert(values@[a] == (h, t));
                        } else {
                            assert(values@[values@.len() - 1] == (h, t));
                        }
                    }
                }
            }
            i = i + 1;
        }
        proof {
            assert forall|h: HalfEdgeID, t: HalfEdgeID|
                #![trigger values@.contains((h, t))]
                values@.contains((h, t)) <==> {
                    &&& self.connectivity().has_halfedge(h)
                    &&& self.connectivity().halfedge_at(h).twin == Some(t)
                    &&& h.index() < t.index()
                } by {
                if self.connectivity().has_halfedge(h) {
                    assert(halfedges@.contains(h));
                    let k = choose|k: int| 0 <= k < halfedges@.len() && halfedges@[k] == h;
                    assert(0 <= k < i && h == halfedges@[k]);
                }
                if values@.contains((h, t)) {
                    let k = choose|k: int| 0 <= k < i && h == halfedges@[k];
                    assert(self.connectivity().has_halfedge(halfedges@[k]));
                }
            }
        }
        values
    }
}

} // verus!
