use vstd::prelude::*;
use crate::arena::{Arena, fresh_index, lemma_fresh_index_of_range};
use crate::ids::{VertexID, HalfEdgeID, FaceID, group_id_ext};
use crate::dynamic_mesh::connectivity_info::{ConnectivityInfo, Vertex, HalfEdge, Face, face_removal_ok, after_face_removal};

verus! {

broadcast use group_id_ext;

/// A triangle mesh whose connectivity can change: vertices, halfedges and faces, with a
/// position and possibly a normal of type `P` for each vertex.
#[derive(Clone, Debug)]
pub struct DynamicMesh<P> {
    positions: Arena<P>,
    normals: Arena<P>,
    connectivity_info: ConnectivityInfo,
}

/// The connectivity with every face turned the other way round: each vertex is given the
/// twin of its halfedge, each halfedge points to the vertex its twin points to, and each
/// halfedge in a triangle continues with the halfedge that came before it.
pub open spec fn reversed(c: ConnectivityInfo) -> (Map<usize, Vertex>, Map<usize, HalfEdge>, Map<usize, Face>) {
    let vm = Map::new(
        |k: usize| c.vertex_map().dom().contains(k),
        |k: usize| Vertex { halfedge: c.twin_of(c.vertex_map()[k].halfedge) },
    );
    let hm = Map::new(
        |k: usize| c.halfedge_map().dom().contains(k),
        |k: usize| reversed_halfedge(c, HalfEdgeID::spec_new(k)),
    );
    (vm, hm, c.face_map())
}

/// Halfedge `h` turned the other way round.
pub open spec fn reversed_halfedge(c: ConnectivityInfo, h: HalfEdgeID) -> HalfEdge {
    let x = c.halfedge_at(h);
    HalfEdge {
        vertex: c.vertex_of(c.twin_of(Some(h))),
        next: match c.next_of(c.next_of(Some(h))) {
            Some(q) => Some(q),
            None => x.next,
        },
        ..x
    }
}

/// Every halfedge that bounds no face has no next halfedge.
pub open spec fn boundary_open(c: ConnectivityInfo) -> bool {
    forall|x: HalfEdgeID| #[trigger] c.has_halfedge(x) && c.halfedge_at(x).face is None ==> c.halfedge_at(x).next is None
}

/// Turning every face of a valid mesh the other way round, where no halfedge outside a face
/// has a next halfedge, gives a valid mesh.
/// Turning every face of a valid mesh the other way round twice, where no halfedge outside a
/// face has a next halfedge, gives back the mesh.
pub proof fn lemma_reversed_twice(before: ConnectivityInfo, middle: ConnectivityInfo, after: ConnectivityInfo)
    requires
        before.is_valid(),
        boundary_open(before),
        middle.state() == reversed(before),
        after.state() == reversed(middle),
    ensures
        after.state() == before.state(),
{
    assert(middle.halfedge_map().dom() =~= before.halfedge_map().dom());
    assert(middle.vertex_map().dom() =~= before.vertex_map().dom());
    assert forall|x: HalfEdgeID| #[trigger] before.has_halfedge(x) implies middle.halfedge_at(x) == reversed_halfedge(before, x) by {
        assert(HalfEdgeID::spec_new(x.index()) == x);
    }
    assert forall|k: usize| #[trigger] after.halfedge_map().dom().contains(k) implies after.halfedge_map()[k]
        == before.halfedge_map()[k] by {
        let x = HalfEdgeID::spec_new(k);
        assert(before.has_halfedge(x));
        assert(after.halfedge_map()[k] == reversed_halfedge(middle, x));
        before.lemma_valid_halfedge(x);
        let y = before.halfedge_at(x).twin->Some_0;
        before.lemma_valid_halfedge(y);
        assert(middle.halfedge_at(x) == reversed_halfedge(before, x));
        assert(middle.halfedge_at(y) == reversed_halfedge(before, y));
        if before.halfedge_at(x).face is Some {
            let a = before.halfedge_at(x).next->Some_0;
            let b = before.halfedge_at(a).next->Some_0;
            before.lemma_valid_halfedge(a);
            before.lemma_valid_halfedge(b);
            assert(middle.halfedge_at(a) == reversed_halfedge(before, a));
            assert(middle.halfedge_at(b) == reversed_halfedge(before, b));
            assert(middle.halfedge_at(x).next == Some(b));
            assert(middle.halfedge_at(b).next == Some(a));
        } else {
            assert(before.halfedge_at(x).next is None);
        }
        assert(before.halfedge_map()[k] == before.halfedge_at(x));
    }
    assert(after.halfedge_map() =~= before.halfedge_map());
    assert forall|k: usize| #[trigger] after.vertex_map().dom().contains(k) implies after.vertex_map()[k]
        == before.vertex_map()[k] by {
        let v = VertexID::spec_new(k);
        assert(before.has_vertex(v));
        before.lemma_valid_vertex(v);
        if before.vertex_at(v).halfedge is Some {
            let g = before.vertex_at(v).halfedge->Some_0;
            before.lemma_valid_halfedge(g);
            let t = before.halfedge_at(g).twin->Some_0;
            before.lemma_valid_halfedge(t);
            assert(middle.vertex_map()[k].halfedge == Some(t));
            assert(middle.halfedge_at(t) == reversed_halfedge(before, t));
        }
        assert(before.vertex_map()[k] == before.vertex_at(v));
    }
    assert(after.vertex_map() =~= before.vertex_map());
}

pub proof fn lemma_reversed_keeps_valid(before: ConnectivityInfo, after: ConnectivityInfo)
    requires
        before.is_valid(),
        boundary_open(before),
        forall|v: VertexID| #[trigger] before.has_vertex(v) ==> before.vertex_at(v).halfedge is Some,
        after.state() == reversed(before),
    ensures
        after.is_valid(),
{
    assert(after.halfedge_map().dom() =~= before.halfedge_map().dom());
    assert(after.vertex_map().dom() =~= before.vertex_map().dom());
    assert forall|x: HalfEdgeID| #[trigger] before.has_halfedge(x) implies after.halfedge_at(x) == reversed_halfedge(before, x) by {
        assert(HalfEdgeID::spec_new(x.index()) == x);
    }
    // every vertex has a halfedge afterwards
    assert forall|v: VertexID| #[trigger] after.has_vertex(v) implies after.vertex_at(v).halfedge is Some
        && after.vertex_ok(v) by {
        before.lemma_valid_vertex(v);
        let g = before.vertex_at(v).halfedge->Some_0;
        before.lemma_valid_halfedge(g);
        let y = before.halfedge_at(g).twin->Some_0;
        before.lemma_valid_halfedge(y);
        assert(after.vertex_at(v).halfedge == Some(y));
        assert(after.halfedge_at(y).twin == Some(g));
        assert(after.halfedge_at(g) == reversed_halfedge(before, g));
    }
    assert forall|x: HalfEdgeID| #[trigger] after.has_halfedge(x) implies after.halfedge_ok(x) && after.twin_ok(x) by {
        before.lemma_valid_halfedge(x);
        let y = before.halfedge_at(x).twin->Some_0;
        before.lemma_valid_halfedge(y);
        let w = before.halfedge_at(y).vertex->Some_0;
        assert(after.has_vertex(w));
        assert(after.halfedge_at(y) == reversed_halfedge(before, y));
        if before.halfedge_at(x).face is Some {
            let g = before.halfedge_at(x).face->Some_0;
            let a = before.halfedge_at(x).next->Some_0;
            let b = before.halfedge_at(a).next->Some_0;
            before.lemma_valid_halfedge(a);
            before.lemma_valid_halfedge(b);
            assert(after.halfedge_at(a) == reversed_halfedge(before, a));
            assert(after.halfedge_at(b) == reversed_halfedge(before, b));
            assert(after.halfedge_at(b).next == Some(a));
            assert(after.halfedge_at(a).next == Some(x));
            assert(after.in_triangle(x, g));
            assert(after.origin(x) == after.halfedge_at(a).vertex);
        } else {
            assert(after.halfedge_at(x).next is None);
        }
    }
    assert forall|g: FaceID| #[trigger] after.has_face(g) implies after.face_ok(g) by {
        before.lemma_valid_face(g);
        let k = before.face_at(g).halfedge->Some_0;
        assert(after.halfedge_at(k) == reversed_halfedge(before, k));
    }
    after.lemma_valid_intro();
}

/// No halfedge at or after position `from` of `edges` has been given a new twin.
pub open spec fn no_new_twin_from(c: ConnectivityInfo, start: ConnectivityInfo, edges: Seq<HalfEdgeID>, from: int) -> bool {
    forall|a: int| from <= a < edges.len() ==> !#[trigger] c.twin_outside(start, edges[a])
}

/// One step of finding twins, in which the halfedge at position `i` of `edges` is paired
/// with `h2`: another twin-less halfedge of `start` running the other way, or else, where no
/// later twin-less halfedge runs the other way, a new one. Of two halfedges running opposite
/// ways at most one still has a new twin, no later halfedge has one, and twins once found stay.
proof fn lemma_pairing_step(
    start: ConnectivityInfo,
    before: ConnectivityInfo,
    after: ConnectivityInfo,
    edges: Seq<HalfEdgeID>,
    i: int,
    h2: HalfEdgeID,
)
    requires
        start.next_closed(),
        before.keeps_links_of(start),
        0 <= i < edges.len(),
        forall|a: int| 0 <= a < edges.len() ==> #[trigger] start.has_halfedge(edges[a]),
        forall|a: int, b: int| 0 <= a < b < edges.len() ==> edges[a].index() < edges[b].index(),
        forall|h: HalfEdgeID| #[trigger] start.has_halfedge(h) ==> edges.contains(h),
        forall|a: int| 0 <= a < i ==> #[trigger] before.halfedge_at(edges[a]).twin is Some,
        before.halfedge_at(edges[i]).twin is None,
        before.pairs_opposites_of(start),
        no_new_twin_from(before, start, edges, i),
        before.keeps_twins_of(start),
        forall|h: HalfEdgeID| #[trigger] before.has_halfedge(h) && h != edges[i] && h != h2 ==> after.halfedge_at(h)
            == before.halfedge_at(h),
        after.halfedge_at(edges[i]).twin == Some(h2),
        after.halfedge_at(h2).twin == Some(edges[i]),
        ({
            ||| start.has_halfedge(h2) && before.halfedge_at(h2).twin is None && h2 != edges[i]
            ||| {
                &&& !before.has_halfedge(h2)
                &&& !start.has_halfedge(h2)
                &&& forall|b: int|
                    i < b < edges.len() ==> !(#[trigger] before.halfedge_at(edges[b]).twin is None
                        && before.halfedge_at(edges[b]).vertex == before.origin(edges[i])
                        && before.origin(edges[b]) == before.halfedge_at(edges[i]).vertex)
            }
        }),
    ensures
        after.pairs_opposites_of(start),
        no_new_twin_from(after, start, edges, i + 1),
        after.keeps_twins_of(start),
{
    let h1 = edges[i];
    assert forall|h: HalfEdgeID, g: HalfEdgeID|
        #[trigger] start.runs_opposite(h, g) && start.has_halfedge(h) && start.has_halfedge(g) && h != g
            && start.halfedge_at(h).twin is None && start.halfedge_at(g).twin is None
            && after.twin_outside(start, h) implies after.twin_inside(start, g) by {
        ConnectivityInfo::lemma_kept_ends(start, before, h);
        ConnectivityInfo::lemma_kept_ends(start, before, g);
        if start.has_halfedge(h2) {
            if h != h1 && h != h2 && g != h1 && g != h2 {
                assert(before.twin_outside(start, h));
            }
        } else if h == h1 {
            // the other halfedge had a twin of `start` already
            assert(edges.contains(g));
            let b = choose|b: int| 0 <= b < edges.len() && edges[b] == g;
            assert(b != i);
            assert(g != h2);
            if before.halfedge_at(g).twin is None {
                assert(b > i);
                assert(!(before.halfedge_at(edges[b]).twin is None
                    && before.halfedge_at(edges[b]).vertex == before.origin(edges[i])
                    && before.origin(edges[b]) == before.halfedge_at(edges[i]).vertex));
                assert(false);
            }
            if before.twin_outside(start, g) {
                if b > i {
                    assert(!before.twin_outside(start, edges[b]));
                } else {
                    assert(start.runs_opposite(g, h));
                    assert(before.twin_inside(start, h));
                }
            }
        } else if g == h1 {
            assert(h != h2);
            assert(before.twin_outside(start, h));
            assert(before.twin_inside(start, g));
        } else {
            assert(h != h2 && g != h2);
            assert(before.twin_outside(start, h));
        }
    }
    assert forall|a: int| i + 1 <= a < edges.len() implies !#[trigger] after.twin_outside(start, edges[a]) by {
        assert(edges[i].index() < edges[a].index());
        assert(start.has_halfedge(edges[a]));
        ConnectivityInfo::lemma_kept_ends(start, before, edges[a]);
        if edges[a] != h2 {
            assert(!before.twin_outside(start, edges[a]));
        }
    }
    assert forall|h: HalfEdgeID|
        #[trigger] start.has_halfedge(h) && start.halfedge_at(h).twin is Some implies after.halfedge_at(h).twin
            == start.halfedge_at(h).twin by {
        ConnectivityInfo::lemma_kept_ends(start, before, h);
        assert(h != h1);
        assert(h != h2);
    }
}

impl<P: Copy> DynamicMesh<P> {
    /// The connectivity of the mesh.
    pub closed spec fn connectivity(&self) -> ConnectivityInfo {
        self.connectivity_info
    }

    /// The vertex positions, by vertex index.
    pub closed spec fn position_map(&self) -> Map<usize, P> {
        self.positions@
    }

    /// The vertex normals, by vertex index.
    pub closed spec fn normal_map(&self) -> Map<usize, P> {
        self.normals@
    }

    pub open spec fn wf(&self) -> bool {
        &&& self.connectivity().wf()
        &&& self.attributes_wf()
    }

    /// The positions and normals are stored consistently.
    pub closed spec fn attributes_wf(&self) -> bool {
        &&& self.positions.wf()
        &&& self.normals.wf()
    }

    /// A mesh made of the given attributes and connectivity.
    pub(crate) fn new_internal(positions: Arena<P>, normals: Arena<P>, connectivity_info: ConnectivityInfo) -> (r: DynamicMesh<P>)
        requires
            positions.wf(),
            normals.wf(),
            connectivity_info.wf(),
        ensures
            r.wf(),
            r.connectivity() == connectivity_info,
            r.position_map() == positions@,
            r.normal_map() == normals@,
    {
        DynamicMesh { positions, normals, connectivity_info }
    }

    /// The connectivity of the mesh.
    pub fn connectivity_info(&self) -> (r: &ConnectivityInfo)
        ensures
            *r == self.connectivity(),
    {
        &self.connectivity_info
    }

    /// The connectivity of the mesh, to change it.
    pub(crate) fn connectivity_info_mut(&mut self) -> (r: &mut ConnectivityInfo)
        requires
            old(self).wf(),
        ensures
            *r == old(self).connectivity(),
            final(self).connectivity() == *final(r),
            final(self).position_map() == old(self).position_map(),
            final(self).normal_map() == old(self).normal_map(),
            final(self).wf() == final(r).wf(),
    {
        &mut self.connectivity_info
    }

    /// Adds a vertex with the given position and normal under the fresh vertex index.
    pub fn create_vertex(&mut self, position: P, normal: Option<P>) -> (r: VertexID)
        requires
            old(self).wf(),
            old(self).connectivity().vertex_map().dom().len() < usize::MAX / 2,
        ensures
            final(self).wf(),
            !r.spec_is_null(),
            r.index() == fresh_index(old(self).connectivity().vertex_map().dom()),
            !old(self).connectivity().vertex_map().dom().contains(r.index()),
            final(self).connectivity().vertex_map() == old(self).connectivity().vertex_map().insert(
                r.index(),
                Vertex { halfedge: None },
            ),
            final(self).connectivity().halfedge_map() == old(self).connectivity().halfedge_map(),
            final(self).connectivity().face_map() == old(self).connectivity().face_map(),
            final(self).position_map() == old(self).position_map().insert(r.index(), position),
            final(self).normal_map() == match normal {
                Some(n) => old(self).normal_map().insert(r.index(), n),
                None => old(self).normal_map(),
            },
    {
        proof {
            self.connectivity_info.lemma_fresh_vertex_small();
        }
        let id = self.connectivity_info.create_vertex();
        self.positions.insert(id.val(), position);
        match normal {
            Some(n) => self.normals.insert(id.val(), n),
            None => {},
        }
        id
    }

    /// Builds a mesh from vertex data and triangles: vertex `i` gets `positions[i]` and, when
    /// normals are given, `normals[i]`; face `k` runs through the vertices `indices[3k]`,
    /// `indices[3k + 1]` and `indices[3k + 2]`. Indices left over after the last whole triangle
    /// are ignored. Halfedges running both ways between two vertices become twins, the others
    /// get a new twin on the boundary.
    pub fn new_with_connectivity(indices: Vec<u32>, positions: Vec<P>, normals: Option<Vec<P>>) -> (r: DynamicMesh<P>)
        requires
            positions@.len() < usize::MAX / 4,
            indices@.len() < usize::MAX / 16,
            forall|i: int| 0 <= i < indices@.len() / 3 * 3 ==> (indices@[i] as int) < positions@.len(),
            normals matches Some(n) ==> n@.len() >= positions@.len(),
        ensures
            r.wf(),
            r.connectivity().is_valid(),
            r.connectivity().faces_are_triangles(),
            r.connectivity().faces_joined(),
            r.connectivity().halfedges_on_faces(),
            boundary_open(r.connectivity()),
            forall|k: usize| r.connectivity().vertex_map().dom().contains(k) <==> k < positions@.len(),
            forall|k: usize| r.connectivity().face_map().dom().contains(k) <==> k < indices@.len() / 3,
            forall|k: usize|
                k < indices@.len() / 3 ==> #[trigger] r.connectivity().face_corners(FaceID::spec_new(k)) == (
                    Some(VertexID::spec_new(indices@[3 * k] as usize)),
                    Some(VertexID::spec_new(indices@[3 * k + 1] as usize)),
                    Some(VertexID::spec_new(indices@[3 * k + 2] as usize)),
                ),
            forall|k: usize|
                k < positions@.len() ==> r.position_map().dom().contains(k) && #[trigger] r.position_map()[k]
                    == positions@[k as int],
            r.position_map().dom().len() == positions@.len(),
            forall|k: usize|
                #[trigger] r.normal_map().dom().contains(k) <==> (normals is Some && k < positions@.len()),
            forall|k: usize|
                k < positions@.len() && normals is Some ==> #[trigger] r.normal_map()[k] == normals->Some_0@[k as int],
    {
        let no_vertices = positions.len();
        let no_faces = indices.len() / 3;
        let mut mesh = DynamicMesh {
            connectivity_info: ConnectivityInfo::new(no_vertices, no_faces),
            positions: Arena::new(),
            normals: Arena::new(),
        };
        let mut i: usize = 0;
        while i < no_vertices
            invariant
                mesh.wf(),
                i <= no_vertices,
                no_vertices == positions@.len(),
                no_vertices < usize::MAX / 4,
                normals matches Some(n) ==> n@.len() >= positions@.len(),
                forall|k: usize| mesh.connectivity().vertex_map().dom().contains(k) <==> k < i,
                forall|k: usize| #[trigger] mesh.connectivity().vertex_map().dom().contains(k)
                    ==> mesh.connectivity().vertex_map()[k].halfedge is None,
                mesh.connectivity().halfedge_map() == Map::<usize, HalfEdge>::empty(),
                mesh.connectivity().face_map() == Map::<usize, Face>::empty(),
                forall|k: usize| mesh.position_map().dom().contains(k) <==> k < i,
                forall|k: usize| k < i ==> #[trigger] mesh.position_map()[k] == positions@[k as int],
                forall|k: usize|
                    #[trigger] mesh.normal_map().dom().contains(k) <==> (normals is Some && k < i),
                forall|k: usize| k < i && normals is Some ==> #[trigger] mesh.normal_map()[k] == normals->Some_0@[k as int],
            decreases no_vertices - i,
        {
            proof {
                lemma_fresh_index_of_range(mesh.connectivity().vertex_map().dom(), i);
            }
            let normal = match &normals {
                Some(data) => Some(data[i]),
                None => None,
            };
            let id = mesh.create_vertex(positions[i], normal);
            proof {
                assert forall|k: usize| mesh.connectivity().vertex_map().dom().contains(k) <==> k < i + 1 by {}
            }
            i = i + 1;
        }
        proof {
            lemma_fresh_index_of_range(mesh.position_map().dom(), no_vertices);
            assert forall|v: VertexID| #[trigger] mesh.connectivity().has_vertex(v) implies mesh.connectivity().vertex_at(v).halfedge is None by {
                assert(mesh.connectivity().vertex_map().dom().contains(v.index()));
            }
            mesh.connectivity().lemma_tri_intro();
            mesh.connectivity().lemma_finite();
            assert forall|h: HalfEdgeID| #[trigger] mesh.connectivity().has_halfedge(h) implies false by {
                assert(mesh.connectivity().halfedge_map().dom().contains(h.index()));
            }
        }
        let mut face: usize = 0;
        while face < no_faces
            invariant
                mesh.wf(),
                face <= no_faces,
                no_faces == indices@.len() / 3,
                indices@.len() < usize::MAX / 16,
                forall|i: int| 0 <= i < indices@.len() / 3 * 3 ==> (indices@[i] as int) < positions@.len(),
                mesh.connectivity().triangles_only(),
                mesh.connectivity().faces_are_triangles(),
                forall|k: usize| mesh.connectivity().vertex_map().dom().contains(k) <==> k < positions@.len(),
                forall|k: usize| mesh.connectivity().face_map().dom().contains(k) <==> k < face,
                mesh.connectivity().halfedge_map().dom().len() == 3 * face,
                forall|k: usize|
                    k < face ==> #[trigger] mesh.connectivity().face_corners(FaceID::spec_new(k)) == (
                        Some(VertexID::spec_new(indices@[3 * k] as usize)),
                        Some(VertexID::spec_new(indices@[3 * k + 1] as usize)),
                        Some(VertexID::spec_new(indices@[3 * k + 2] as usize)),
                    ),
                forall|k: usize| mesh.position_map().dom().contains(k) <==> k < positions@.len(),
                mesh.position_map().dom().len() == positions@.len(),
                forall|k: usize| k < positions@.len() ==> #[trigger] mesh.position_map()[k] == positions@[k as int],
                forall|k: usize|
                    #[trigger] mesh.normal_map().dom().contains(k) <==> (normals is Some && k < positions@.len()),
                forall|k: usize|
                    k < positions@.len() && normals is Some ==> #[trigger] mesh.normal_map()[k] == normals->Some_0@[k as int],
            decreases no_faces - face,
        {
            let v0 = VertexID::new(indices[face * 3] as usize);
            let v1 = VertexID::new(indices[face * 3 + 1] as usize);
            let v2 = VertexID::new(indices[face * 3 + 2] as usize);
            let ghost before = mesh.connectivity_info;
            let ghost nm = mesh.normal_map();
            proof {
                lemma_fresh_index_of_range(mesh.connectivity().face_map().dom(), face);
            }
            let face_id = mesh.connectivity_info.create_face(&v0, &v1, &v2);
            proof {
                ConnectivityInfo::lemma_face_created_keeps_face_triangles(before, mesh.connectivity_info, face_id, v0, v1, v2);
                ConnectivityInfo::lemma_face_created_keeps_triangles(before, mesh.connectivity_info, face_id, v0, v1, v2);
                ConnectivityInfo::lemma_face_created_corners(before, mesh.connectivity_info, face_id, v0, v1, v2);
                assert(face_id == FaceID::spec_new(face));
                assert(mesh.normal_map() == nm);
                assert forall|k: usize|
                    k < face + 1 implies #[trigger] mesh.connectivity().face_corners(FaceID::spec_new(k)) == (
                        Some(VertexID::spec_new(indices@[3 * k] as usize)),
                        Some(VertexID::spec_new(indices@[3 * k + 1] as usize)),
                        Some(VertexID::spec_new(indices@[3 * k + 2] as usize)),
                    ) by {
                    if k < face {
                        assert(before.has_face(FaceID::spec_new(k)));
                    }
                }
            }
            face = face + 1;
        }
        let ghost start = mesh.connectivity_info;
        proof {
            start.lemma_tri_twins_ready();
        }
        mesh.create_twin_connectivity();
        proof {
            ConnectivityInfo::lemma_twins_found_make_valid(start, mesh.connectivity_info);
            ConnectivityInfo::lemma_twins_keep_face_triangles(start, mesh.connectivity_info);
            ConnectivityInfo::lemma_corners_kept(start, mesh.connectivity_info);
            ConnectivityInfo::lemma_pairs_join_faces(start, mesh.connectivity_info);
            ConnectivityInfo::lemma_twins_on_faces(start, mesh.connectivity_info);
            assert forall|x: HalfEdgeID|
                #[trigger] mesh.connectivity().has_halfedge(x) && mesh.connectivity().halfedge_at(x).face is None implies mesh.connectivity().halfedge_at(x).next is None by {
                if start.has_halfedge(x) {
                    start.lemma_tri_halfedge(x);
                }
            }
            assert forall|k: usize|
                k < indices@.len() / 3 implies #[trigger] mesh.connectivity().face_corners(FaceID::spec_new(k)) == (
                    Some(VertexID::spec_new(indices@[3 * k] as usize)),
                    Some(VertexID::spec_new(indices@[3 * k + 1] as usize)),
                    Some(VertexID::spec_new(indices@[3 * k + 2] as usize)),
                ) by {
                assert(start.has_face(FaceID::spec_new(k)));
            }
        }
        mesh
    }

    /// Turns every face the other way round: each vertex takes the twin of its halfedge, each
    /// halfedge comes to point to the vertex its twin points to, and each halfedge in a
    /// triangle continues with the halfedge that came before it.
    pub fn flip_orientation(&mut self)
        requires
            old(self).wf(),
            old(self).connectivity().is_valid(),
            forall|v: VertexID| #[trigger] old(self).connectivity().has_vertex(v) ==> old(self).connectivity().vertex_at(v).halfedge is Some,
        ensures
            final(self).wf(),
            final(self).connectivity().state() == reversed(old(self).connectivity()),
            final(self).position_map() == old(self).position_map(),
            final(self).normal_map() == old(self).normal_map(),
            boundary_open(old(self).connectivity()) ==> final(self).connectivity().is_valid(),
    {
        let ghost c = self.connectivity();
        let ghost target = reversed(c);
        let vertices = self.vertex_iterator();
        let mut i: usize = 0;
        while i < vertices.len()
            invariant
                self.wf(),
                i <= vertices@.len(),
                forall|a: int, b: int| 0 <= a < b < vertices@.len() ==> vertices@[a].index() < vertices@[b].index(),
                forall|a: int| 0 <= a < vertices@.len() ==> #[trigger] c.has_vertex(vertices@[a]),
                forall|v: VertexID| #[trigger] c.has_vertex(v) ==> vertices@.contains(v),
                c.is_valid(),
                forall|v: VertexID| #[trigger] c.has_vertex(v) ==> c.vertex_at(v).halfedge is Some,
                self.connectivity().halfedge_map() == c.halfedge_map(),
                self.connectivity().face_map() == c.face_map(),
                self.connectivity().vertex_map().dom() == c.vertex_map().dom(),
                target == reversed(c),
                forall|a: int| 0 <= a < i ==> #[trigger] self.connectivity().vertex_map()[vertices@[a].index()] == target.0[vertices@[a].index()],
                forall|a: int| i <= a < vertices@.len() ==> #[trigger] self.connectivity().vertex_map()[vertices@[a].index()] == c.vertex_map()[vertices@[a].index()],
                self.position_map() == old(self).position_map(),
                self.normal_map() == old(self).normal_map(),
            decreases vertices@.len() - i,
        {
            let vertex_id = vertices[i];
            proof {
                assert(c.has_vertex(vertices@[i as int]));
                c.lemma_valid_vertex(vertex_id);
                c.lemma_valid_halfedge(c.vertex_at(vertex_id).halfedge->Some_0);
                assert(self.connectivity().has_vertex(vertex_id));
                assert(self.connectivity().vertex_map()[vertices@[i as int].index()] == c.vertex_map()[vertices@[i as int].index()]);
            }
            let ghost mid = self.connectivity();
            let twin_id = self.walker_from_vertex(&vertex_id).twin_id().unwrap();
            proof {
                let g = c.vertex_map()[vertex_id.index()].halfedge;
                assert(mid.vertex_at(vertex_id).halfedge == g);
                assert(Some(twin_id) == mid.twin_of(g));
                assert(mid.info_of(g) == c.info_of(g));
                assert(target.0[vertex_id.index()] == Vertex { halfedge: c.twin_of(g) });
            }
            self.connectivity_info_mut().set_vertex_halfedge(&vertex_id, twin_id);
            proof {
                assert forall|a: int| 0 <= a < vertices@.len() && a != i implies vertices@[a].index() != vertex_id.index() by {
                    if a < i {
                        assert(vertices@[a].index() < vertices@[i as int].index());
                    } else {
                        assert(vertices@[i as int].index() < vertices@[a].index());
                    }
                }
            }
            i = i + 1;
        }
        proof {
            assert forall|k: usize| #[trigger] self.connectivity().vertex_map().dom().contains(k) implies self.connectivity().vertex_map()[k] == target.0[k] by {
                assert(c.has_vertex(VertexID::spec_new(k)));
                assert(vertices@.contains(VertexID::spec_new(k)));
                let a = choose|a: int| 0 <= a < vertices@.len() && vertices@[a] == VertexID::spec_new(k);
                assert(self.connectivity().vertex_map()[vertices@[a].index()] == target.0[vertices@[a].index()]);
            }
            assert(self.connectivity().vertex_map() =~= target.0);
        }
        let halfedges = self.halfedge_iterator();
        proof {
            assert forall|a: int| 0 <= a < halfedges@.len() implies #[trigger] c.has_halfedge(halfedges@[a]) by {
                assert(self.connectivity().has_halfedge(halfedges@[a]));
            }
            assert forall|h: HalfEdgeID| #[trigger] c.has_halfedge(h) implies halfedges@.contains(h) by {
                assert(self.connectivity().has_halfedge(h));
            }
        }
        let mut updates: Vec<(HalfEdgeID, VertexID, Option<HalfEdgeID>)> = Vec::new();
        let mut j: usize = 0;
        while j < halfedges.len()
            invariant
                self.wf(),
                j <= halfedges@.len(),
                forall|a: int| 0 <= a < halfedges@.len() ==> #[trigger] c.has_halfedge(halfedges@[a]),
                c.is_valid(),
                self.connectivity().halfedge_map() == c.halfedge_map(),
                updates@.len() == j,
                forall|a: int|
                    0 <= a < j ==> #[trigger] updates@[a] == (
                        halfedges@[a],
                        c.vertex_of(c.twin_of(Some(halfedges@[a])))->Some_0,
                        c.next_of(c.next_of(Some(halfedges@[a]))),
                    ),
            decreases halfedges@.len() - j,
        {
            let halfedge_id = halfedges[j];
            proof {
                assert(c.has_halfedge(halfedges@[j as int]));
                c.lemma_valid_halfedge(halfedge_id);
                c.lemma_valid_halfedge(c.halfedge_at(halfedge_id).twin->Some_0);
            }
            let mut walker = self.walker_from_halfedge(&halfedge_id);
            let new_next_id = walker.previous_id();
            let new_vertex_id = walker.twin().vertex_id().unwrap();
            updates.push((halfedge_id, new_vertex_id, new_next_id));
            j = j + 1;
        }
        let mut u: usize = 0;
        while u < updates.len()
            invariant
                self.wf(),
                u <= updates@.len(),
                updates@.len() == halfedges@.len(),
                forall|a: int, b: int| 0 <= a < b < halfedges@.len() ==> halfedges@[a].index() < halfedges@[b].index(),
                forall|a: int| 0 <= a < halfedges@.len() ==> #[trigger] c.has_halfedge(halfedges@[a]),
                forall|h: HalfEdgeID| #[trigger] c.has_halfedge(h) ==> halfedges@.contains(h),
                forall|a: int|
                    0 <= a < updates@.len() ==> #[trigger] updates@[a] == (
                        halfedges@[a],
                        c.vertex_of(c.twin_of(Some(halfedges@[a])))->Some_0,
                        c.next_of(c.next_of(Some(halfedges@[a]))),
                    ),
                c.is_valid(),
                self.connectivity().vertex_map() == target.0,
                target == reversed(c),
                self.connectivity().face_map() == c.face_map(),
                self.connectivity().halfedge_map().dom() == c.halfedge_map().dom(),
                forall|a: int| 0 <= a < u ==> #[trigger] self.connectivity().halfedge_map()[halfedges@[a].index()] == reversed_halfedge(c, halfedges@[a]),
                forall|a: int| u <= a < halfedges@.len() ==> #[trigger] self.connectivity().halfedge_map()[halfedges@[a].index()] == c.halfedge_at(halfedges@[a]),
                self.position_map() == old(self).position_map(),
                self.normal_map() == old(self).normal_map(),
            decreases updates@.len() - u,
        {
            let (halfedge_id, new_vertex_id, new_next_id) = updates[u];
            proof {
                assert(updates@[u as int] == (
                    halfedges@[u as int],
                    c.vertex_of(c.twin_of(Some(halfedges@[u as int])))->Some_0,
                    c.next_of(c.next_of(Some(halfedges@[u as int])))));
                assert(c.has_halfedge(halfedges@[u as int]));
                c.lemma_valid_halfedge(halfedge_id);
                c.lemma_valid_halfedge(c.halfedge_at(halfedge_id).twin->Some_0);
                assert(self.connectivity().halfedge_map()[halfedges@[u as int].index()] == c.halfedge_at(halfedges@[u as int]));
            }
            self.connectivity_info_mut().set_halfedge_vertex(&halfedge_id, new_vertex_id);
            match new_next_id {
                Some(next_id) => {
                    self.connectivity_info_mut().set_halfedge_next(&halfedge_id, next_id);
                },
                None => {},
            }
            proof {
                assert forall|a: int| 0 <= a < halfedges@.len() && a != u implies halfedges@[a].index() != halfedge_id.index() by {
                    if a < u {
                        assert(halfedges@[a].index() < halfedges@[u as int].index());
                    } else {
                        assert(halfedges@[u as int].index() < halfedges@[a].index());
                    }
                }
            }
            u = u + 1;
        }
        proof {
            assert forall|k: usize| #[trigger] self.connectivity().halfedge_map().dom().contains(k) implies self.connectivity().halfedge_map()[k] == target.1[k] by {
                assert(c.has_halfedge(HalfEdgeID::spec_new(k)));
                assert(halfedges@.contains(HalfEdgeID::spec_new(k)));
                let a = choose|a: int| 0 <= a < halfedges@.len() && halfedges@[a] == HalfEdgeID::spec_new(k);
                assert(self.connectivity().halfedge_map()[halfedges@[a].index()] == reversed_halfedge(c, halfedges@[a]));
            }
            assert(self.connectivity().halfedge_map() =~= target.1);
            if boundary_open(c) {
                lemma_reversed_keeps_valid(c, self.connectivity());
            }
        }
    }

    /// Removes a face; each of its edges that then bounds no face on either side goes too,
    /// with the vertices left without an edge (see `after_face_removal`).
    pub fn remove_face(&mut self, face_id: &FaceID)
        requires
            old(self).wf(),
            face_removal_ok(old(self).connectivity().state(), *face_id),
        ensures
            final(self).wf(),
            final(self).connectivity().state() == after_face_removal(old(self).connectivity().state(), *face_id),
            final(self).position_map() == old(self).position_map(),
            final(self).normal_map() == old(self).normal_map(),
    {
        self.connectivity_info_mut().remove_face(face_id);
    }

    /// Adds a triangle on three stored vertices: three new halfedges run from the first vertex
    /// to the second, the third and back, and each vertex is given the halfedge that starts
    /// at it. The face has no twins yet.
    pub fn create_face(&mut self, vertex_id1: &VertexID, vertex_id2: &VertexID, vertex_id3: &VertexID) -> (r: FaceID)
        requires
            old(self).wf(),
            old(self).connectivity().has_vertex(*vertex_id1),
            old(self).connectivity().has_vertex(*vertex_id2),
            old(self).connectivity().has_vertex(*vertex_id3),
            old(self).connectivity().halfedge_map().dom().len() < usize::MAX / 2 - 3,
            old(self).connectivity().face_map().dom().len() < usize::MAX / 2,
        ensures
            final(self).wf(),
            !r.spec_is_null(),
            r.index() == crate::arena::fresh_index(old(self).connectivity().face_map().dom()),
            crate::dynamic_mesh::connectivity_info::face_created(
                old(self).connectivity().state(),
                final(self).connectivity().state(),
                r,
                *vertex_id1,
                *vertex_id2,
                *vertex_id3,
            ),
            final(self).position_map() == old(self).position_map(),
            final(self).normal_map() == old(self).normal_map(),
    {
        self.connectivity_info_mut().create_face(vertex_id1, vertex_id2, vertex_id3)
    }

    pub fn no_vertices(&self) -> (r: usize)
        requires
            self.wf(),
        ensures
            r == self.connectivity().vertex_map().dom().len(),
    {
        self.connectivity_info.no_vertices()
    }

    pub fn no_halfedges(&self) -> (r: usize)
        requires
            self.wf(),
        ensures
            r == self.connectivity().halfedge_map().dom().len(),
    {
        self.connectivity_info.no_halfedges()
    }

    pub fn no_faces(&self) -> (r: usize)
        requires
            self.wf(),
        ensures
            r == self.connectivity().face_map().dom().len(),
    {
        self.connectivity_info.no_faces()
    }

    /// The position of a vertex.
    pub fn position(&self, vertex_id: &VertexID) -> (r: &P)
        requires
            !vertex_id.spec_is_null(),
            self.position_map().dom().contains(vertex_id.index()),
        ensures
            *r == self.position_map()[vertex_id.index()],
    {
        self.positions.get_ref(vertex_id.val())
    }

    /// Sets the position of a vertex.
    pub fn set_position(&mut self, vertex_id: VertexID, value: P)
        requires
            old(self).wf(),
            !vertex_id.spec_is_null(),
            vertex_id.index() < usize::MAX - 1,
        ensures
            final(self).wf(),
            final(self).position_map() == old(self).position_map().insert(vertex_id.index(), value),
            final(self).normal_map() == old(self).normal_map(),
            final(self).connectivity() == old(self).connectivity(),
    {
        self.positions.insert(vertex_id.val(), value);
    }

    /// The normal of a vertex, when it has one.
    pub fn normal(&self, vertex_id: &VertexID) -> (r: Option<&P>)
        ensures
            r == if !vertex_id.spec_is_null() && self.normal_map().dom().contains(vertex_id.index()) {
                Some(&self.normal_map()[vertex_id.index()])
            } else {
                None
            },
    {
        if vertex_id.is_null() || !self.normals.contains(vertex_id.val()) {
            None
        } else {
            Some(self.normals.get_ref(vertex_id.val()))
        }
    }

    /// Sets the normal of a vertex.
    pub fn set_normal(&mut self, vertex_id: VertexID, value: P)
        requires
            old(self).wf(),
            !vertex_id.spec_is_null(),
            vertex_id.index() < usize::MAX - 1,
        ensures
            final(self).wf(),
            final(self).normal_map() == old(self).normal_map().insert(vertex_id.index(), value),
            final(self).position_map() == old(self).position_map(),
            final(self).connectivity() == old(self).connectivity(),
    {
        self.normals.insert(vertex_id.val(), value);
    }

    /// The vertex a halfedge of a triangle starts at.
    fn origin_of(&self, halfedge_id: &HalfEdgeID) -> (r: Option<VertexID>)
        requires
            self.connectivity().has_halfedge(*halfedge_id),
            self.connectivity().next_closed(),
        ensures
            r == self.connectivity().origin(*halfedge_id),
    {
        match self.connectivity_info.halfedge_next(halfedge_id) {
            Some(next_id) => match self.connectivity_info.halfedge_next(&next_id) {
                Some(previous_id) => self.connectivity_info.halfedge_vertex(&previous_id),
                None => None,
            },
            None => None,
        }
    }

    /// Gives every halfedge without a twin one: the first later halfedge that runs the
    /// other way between the same two vertices and has no twin yet, or else a new halfedge
    /// on the boundary that points back to where the halfedge starts.
    pub fn create_twin_connectivity(&mut self)
        requires
            old(self).wf(),
            old(self).connectivity().twins_ready(),
            old(self).connectivity().next_closed(),
            old(self).connectivity().halfedge_map().dom().len() < usize::MAX / 4,
        ensures
            final(self).wf(),
            final(self).connectivity().twins_complete(),
            final(self).connectivity().next_closed(),
            final(self).connectivity().keeps_links_of(old(self).connectivity()),
            final(self).connectivity().keeps_twins_of(old(self).connectivity()),
            final(self).connectivity().pairs_opposites_of(old(self).connectivity()),
            final(self).connectivity().halfedge_map().dom().len() <= 2 * old(self).connectivity().halfedge_map().dom().len(),
            final(self).connectivity().vertex_map() == old(self).connectivity().vertex_map(),
            final(self).connectivity().face_map() == old(self).connectivity().face_map(),
            final(self).position_map() == old(self).position_map(),
            final(self).normal_map() == old(self).normal_map(),
    {
        let ghost start = self.connectivity_info;
        let edges = self.connectivity_info.halfedge_iterator();
        proof {
            assert forall|a: int| 0 <= a < edges@.len() implies !#[trigger] start.twin_outside(start, edges@[a]) by {
                assert(start.has_halfedge(edges@[a]));
            }
        }
        let mut i1: usize = 0;
        while i1 < edges.len()
            invariant
                self.wf(),
                i1 <= edges@.len(),
                forall|a: int| 0 <= a < edges@.len() ==> #[trigger] start.has_halfedge(edges@[a]),
                forall|a: int, b: int| 0 <= a < b < edges@.len() ==> edges@[a].index() < edges@[b].index(),
                forall|h: HalfEdgeID| #[trigger] start.has_halfedge(h) ==> edges@.contains(h),
                self.connectivity().twins_ready(),
                self.connectivity().next_closed(),
                self.connectivity().keeps_links_of(start),
                self.connectivity().keeps_twins_of(start),
                self.connectivity().pairs_opposites_of(start),
                no_new_twin_from(self.connectivity(), start, edges@, i1 as int),
                forall|a: int| 0 <= a < i1 ==> #[trigger] self.connectivity().halfedge_at(edges@[a]).twin is Some,
                self.connectivity().halfedge_map().dom().len() <= start.halfedge_map().dom().len() + i1,
                edges@.len() == start.halfedge_map().dom().len(),
                start.next_closed(),
                start.halfedge_map().dom().len() < usize::MAX / 4,
                self.connectivity().vertex_map() == start.vertex_map(),
                self.connectivity().face_map() == start.face_map(),
                self.position_map() == old(self).position_map(),
                self.normal_map() == old(self).normal_map(),
            decreases edges@.len() - i1,
        {
            let halfedge_id1 = edges[i1];
            assert(start.has_halfedge(edges@[i1 as int]));
            if self.connectivity_info.halfedge_twin(&halfedge_id1).is_none() {
                let vertex_id1 = self.connectivity_info.halfedge_vertex(&halfedge_id1).unwrap();
                let vertex_id2 = self.origin_of(&halfedge_id1).unwrap();
                let mut halfedge2: Option<HalfEdgeID> = None;
                let mut i2: usize = i1 + 1;
                let ghost current = self.connectivity_info;
                while i2 < edges.len() && halfedge2.is_none()
                    invariant
                        self.wf(),
                        i1 < i2 <= edges@.len(),
                        halfedge_id1 == edges@[i1 as int],
                        forall|a: int| 0 <= a < edges@.len() ==> #[trigger] start.has_halfedge(edges@[a]),
                        forall|a: int, b: int| 0 <= a < b < edges@.len() ==> edges@[a].index() < edges@[b].index(),
                        self.connectivity().twins_ready(),
                        self.connectivity().next_closed(),
                        self.connectivity().keeps_links_of(start),
                        self.connectivity_info == current,
                        vertex_id1 == current.halfedge_at(halfedge_id1).vertex->Some_0,
                        vertex_id2 == current.origin(halfedge_id1)->Some_0,
                        halfedge2 is None ==> forall|b: int|
                            i1 < b < i2 ==> !(#[trigger] current.halfedge_at(edges@[b]).twin is None
                                && current.halfedge_at(edges@[b]).vertex == current.origin(edges@[i1 as int])
                                && current.origin(edges@[b]) == current.halfedge_at(edges@[i1 as int]).vertex),
                        halfedge2 matches Some(h2) ==> {
                            &&& edges@.contains(h2)
                            &&& h2 != halfedge_id1
                            &&& self.connectivity().has_halfedge(h2)
                            &&& self.connectivity().halfedge_at(h2).twin is None
                            &&& self.connectivity().halfedge_at(h2).vertex == Some(vertex_id2)
                            &&& self.connectivity().origin(h2) == Some(vertex_id1)
                        },
                    decreases edges@.len() - i2,
                {
                    let halfedge_id2 = edges[i2];
                    assert(start.has_halfedge(edges@[i2 as int]));
                    assert(edges@[i1 as int].index() < edges@[i2 as int].index());
                    if self.connectivity_info.halfedge_twin(&halfedge_id2).is_none() {
                        if self.connectivity_info.halfedge_vertex(&halfedge_id2).unwrap() == vertex_id2
                            && self.origin_of(&halfedge_id2).unwrap() == vertex_id1 {
                            assert(edges@.contains(halfedge_id2)) by {
                                assert(edges@[i2 as int] == halfedge_id2);
                            }
                            assert(self.connectivity().has_halfedge(halfedge_id2));
                            assert(halfedge_id2 != halfedge_id1);
                            assert(self.connectivity().halfedge_at(halfedge_id2).vertex == Some(vertex_id2));
                            assert(self.connectivity().origin(halfedge_id2) == Some(vertex_id1));
                            halfedge2 = Some(halfedge_id2);
                        }
                    }
                    i2 = i2 + 1;
                }
                let ghost before = self.connectivity_info;
                let halfedge_id2 = match halfedge2 {
                    Some(h) => h,
                    None => {
                        proof {
                            self.connectivity_info.lemma_finite();
                        }
                        self.connectivity_info.create_halfedge(Some(vertex_id2), None, None)
                    },
                };
                let ghost middle = self.connectivity_info;
                self.connectivity_info.set_halfedge_twin(halfedge_id1, halfedge_id2);
                proof {
                    ConnectivityInfo::lemma_twin_set(
                        start,
                        before,
                        middle,
                        self.connectivity_info,
                        halfedge_id1,
                        halfedge_id2,
                        vertex_id1,
                        vertex_id2,
                    );
                    if halfedge2 is Some {
                        assert(start.has_halfedge(halfedge_id2));
                    }
                    lemma_pairing_step(start, before, self.connectivity_info, edges@, i1 as int, halfedge_id2);
                    assert forall|a: int| 0 <= a < i1 + 1 implies #[trigger] self.connectivity().halfedge_at(edges@[a]).twin is Some by {
                        assert(start.has_halfedge(edges@[a]));
                        if a < i1 {
                            assert(before.has_halfedge(edges@[a]));
                        }
                    }
                    before.lemma_finite();
                }
            }
            assert(forall|a: int| 0 <= a < i1 + 1 ==> #[trigger] self.connectivity().halfedge_at(edges@[a]).twin is Some);
            i1 = i1 + 1;
        }
        proof {
            assert forall|h: HalfEdgeID| #[trigger] self.connectivity().has_halfedge(h) implies self.connectivity().twin_ok(h) by {
                if self.connectivity().halfedge_at(h).twin is None {
                    assert(start.has_halfedge(h));
                    assert(edges@.contains(h));
                    let a = choose|a: int| 0 <= a < edges@.len() && edges@[a] == h;
                    assert(self.connectivity().halfedge_at(edges@[a]).twin is Some);
                }
            }
        }
    }
}

} // verus!
