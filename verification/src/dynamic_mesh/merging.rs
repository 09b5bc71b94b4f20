use vstd::prelude::*;
use crate::ids::{VertexID, HalfEdgeID, FaceID, group_id_ext};
use crate::dynamic_mesh::connectivity_info::{ConnectivityInfo, Vertex, HalfEdge, face_created, face_halfedge, new_face_halfedge_indices};
use crate::arena::{fresh_index, lemma_fresh_index};
use crate::dynamic_mesh::dynamic_mesh::DynamicMesh;
use crate::dynamic_mesh::splitting_and_merging::{
    Error,
    StitchCheck,
    stitch_check,
    stitch_of,
    stitched_side,
    faceless_side,
    pair_text,
    two_sided,
    edge_alone,
    without_halfedge,
    twinnable,
    lemma_valid_twinnable,
    lemma_removal_twinnable,
    lemma_face_created_twinnable,
    lemma_twinnable_same_halfedges,
};
use crate::dynamic_mesh::dynamic_mesh::{boundary_open, reversed, reversed_halfedge};
use crate::connected_components::contains_halfedge;

verus! {

broadcast use group_id_ext;

/// What the stitches ask before they can be checked: they join each vertex of the other mesh
/// at most once, and join it to a vertex of this mesh that has a halfedge.
pub open spec fn stitches_ok(c: ConnectivityInfo, s: Seq<(VertexID, VertexID)>) -> bool {
    &&& forall|a: int, b: int| 0 <= a < b < s.len() ==> s[a].0 != s[b].0
    &&& forall|a: int| 0 <= a < s.len() ==> c.has_vertex(#[trigger] s[a].1) && c.vertex_at(s[a].1).halfedge is Some
}

/// What the check reads of the other mesh, from pair `(i, j)` on: at the first edge of this
/// mesh joining stitched vertices, where that edge bounds a face on one side only, the
/// orientation is looked up in the other mesh from the first vertex of the pair, which must
/// then be a vertex of the other mesh with a halfedge.
pub open spec fn orientation_vertex_ok(c: ConnectivityInfo, o: ConnectivityInfo, s: Seq<(VertexID, VertexID)>, i: int, j: int) -> bool
    decreases s.len() - i, s.len() - j,
{
    if i < 0 || j < 0 || i >= s.len() {
        true
    } else if j >= s.len() {
        orientation_vertex_ok(c, o, s, i + 1, 0)
    } else {
        match c.connection(s[i].1, s[j].1) {
            None => orientation_vertex_ok(c, o, s, i, j + 1),
            Some(e) => two_sided(c, e) || (o.has_vertex(s[i].0) && o.vertex_at(s[i].0).halfedge is Some),
        }
    }
}

/// How a merge maps the vertices of `other` into the merged mesh `merged`, where `base` is the
/// connectivity of the mesh merged into: a vertex stitched to a vertex of that mesh goes to
/// it; any other goes to a vertex that `base` did not have, carrying its position and normal,
/// no two of them to the same vertex. The merged mesh has the vertices of `base` and these.
pub open spec fn vertex_map_ok<P: Copy>(
    vm: Map<VertexID, VertexID>,
    base: ConnectivityInfo,
    s: Seq<(VertexID, VertexID)>,
    other: DynamicMesh<P>,
    merged: DynamicMesh<P>,
) -> bool {
    vertex_map_parts(
        vm,
        base.vertex_map().dom(),
        s,
        other,
        merged.connectivity().vertex_map().dom(),
        merged.position_map(),
        merged.normal_map(),
    )
}

/// `vertex_map_ok` over the vertex indices, positions and normals of the merged mesh.
#[verifier::opaque]
pub open spec fn vertex_map_parts<P: Copy>(
    vm: Map<VertexID, VertexID>,
    bdom: Set<usize>,
    s: Seq<(VertexID, VertexID)>,
    other: DynamicMesh<P>,
    vdom: Set<usize>,
    pos: Map<usize, P>,
    nor: Map<usize, P>,
) -> bool {
    &&& forall|v: VertexID|
        #[trigger] vm.dom().contains(v) ==> match stitch_of(s, v) {
            Some(w) => vm[v] == w,
            None => {
                &&& !vm[v].spec_is_null()
                &&& vdom.contains(vm[v].index())
                &&& !bdom.contains(vm[v].index())
                &&& pos.dom().contains(vm[v].index())
                &&& pos[vm[v].index()] == other.position_map()[v.index()]
                &&& other.normal_map().dom().contains(v.index()) ==> nor.dom().contains(vm[v].index())
                    && nor[vm[v].index()] == other.normal_map()[v.index()]
            },
        }
    &&& forall|v1: VertexID, v2: VertexID|
        #[trigger] vm.dom().contains(v1) && #[trigger] vm.dom().contains(v2) && v1 != v2 && stitch_of(s, v1) is None
            && stitch_of(s, v2) is None ==> vm[v1] != vm[v2]
    &&& forall|k: usize| #[trigger] bdom.contains(k) ==> vdom.contains(k)
    &&& forall|k: usize|
        #[trigger] vdom.contains(k) && !bdom.contains(k) ==> exists|v: VertexID|
            #[trigger] vm.dom().contains(v) && stitch_of(s, v) is None && vm[v].index() == k
}

/// The corners of face `f` of `o` mapped by `vm`, starting at the vertex its halfedge points to.
pub open spec fn mapped_corners(vm: Map<VertexID, VertexID>, o: ConnectivityInfo, f: FaceID) -> (
    Option<VertexID>,
    Option<VertexID>,
    Option<VertexID>,
) {
    let (a, b, c) = o.face_corners(f);
    (Some(vm[b->Some_0]), Some(vm[c->Some_0]), Some(vm[a->Some_0]))
}

/// The faces that `merged` has and `base` did not are those of `o` with their corners mapped
/// by `vm`, and the faces of `base` stay.
#[verifier::opaque]
pub open spec fn faces_added(vm: Map<VertexID, VertexID>, o: ConnectivityInfo, base: ConnectivityInfo, merged: ConnectivityInfo) -> bool {
    &&& forall|f: FaceID|
        #[trigger] o.has_face(f) ==> exists|g: FaceID|
            merged.has_face(g) && !base.has_face(g) && #[trigger] merged.face_corners(g) == mapped_corners(vm, o, f)
    &&& forall|g: FaceID|
        #[trigger] merged.has_face(g) && !base.has_face(g) ==> exists|f: FaceID|
            o.has_face(f) && merged.face_corners(g) == #[trigger] mapped_corners(vm, o, f)
    &&& forall|g: FaceID| #[trigger] base.has_face(g) ==> merged.has_face(g)
}

/// Halfedge `h` of the merged mesh lies in a face the merge added, or is the side with a face
/// of an edge of `base` that joins stitched vertices.
pub open spec fn joinable(base: ConnectivityInfo, s: Seq<(VertexID, VertexID)>, merged: ConnectivityInfo, h: HalfEdgeID) -> bool {
    merged.halfedge_at(h).face matches Some(f) && (!base.has_face(f) || exists|y: HalfEdgeID|
        stitched_side(base, s, s.len() as int, 0, y) && #[trigger] base.halfedge_at(y).twin == Some(h))
}

/// The stitched edges are joined: two halfedges of the merged mesh that run opposite ways
/// between the same two vertices, each in an added face or on the faced side of an edge of
/// `base` between stitched vertices, are not both on the boundary.
#[verifier::opaque]
pub open spec fn stitched_edges_joined(base: ConnectivityInfo, s: Seq<(VertexID, VertexID)>, merged: ConnectivityInfo) -> bool {
    forall|h: HalfEdgeID, g: HalfEdgeID|
        #[trigger] merged.runs_opposite(h, g) && merged.has_halfedge(h) && merged.has_halfedge(g) && h != g && joinable(
            base,
            s,
            merged,
            h,
        ) && joinable(base, s, merged, g) && merged.face_of(merged.halfedge_at(h).twin) is None ==> merged.face_of(
            merged.halfedge_at(g).twin,
        ) is Some
}

/// Every halfedge of the merged mesh is a halfedge of `base` other than the sides without a
/// face of the edges joining stitched vertices, bounds a face that the merge added, or bounds
/// no face and is the twin of a halfedge that bounds one.
#[verifier::opaque]
pub open spec fn halfedges_accounted(base: ConnectivityInfo, s: Seq<(VertexID, VertexID)>, merged: ConnectivityInfo) -> bool {
    forall|x: HalfEdgeID|
        #[trigger] merged.has_halfedge(x) ==> {
            ||| base.has_halfedge(x) && !stitched_side(base, s, s.len() as int, 0, x)
            ||| merged.halfedge_at(x).face matches Some(g) && !base.has_face(g)
            ||| merged.halfedge_at(x).face is None && merged.face_of(merged.halfedge_at(x).twin) is Some
        }
}

/// Halfedge `x` of `base`, turned round where `flip`.
pub open spec fn base_halfedge(base: ConnectivityInfo, flip: bool, x: HalfEdgeID) -> HalfEdge {
    if flip { reversed_halfedge(base, x) } else { base.halfedge_at(x) }
}

/// Every halfedge of `base` but the sides without a face of the edges joining stitched
/// vertices stays, pointing to the same vertex, continuing with the same halfedge and bounding
/// the same face as in `base` (turned round where `flip`), and keeps its twin unless that was
/// such a side.
#[verifier::opaque]
pub open spec fn halfedges_kept(base: ConnectivityInfo, s: Seq<(VertexID, VertexID)>, flip: bool, merged: ConnectivityInfo) -> bool {
    forall|x: HalfEdgeID|
        #[trigger] base.has_halfedge(x) && !stitched_side(base, s, s.len() as int, 0, x) ==> {
            &&& merged.has_halfedge(x)
            &&& merged.halfedge_at(x).vertex == base_halfedge(base, flip, x).vertex
            &&& merged.halfedge_at(x).next == base_halfedge(base, flip, x).next
            &&& merged.halfedge_at(x).face == base_halfedge(base, flip, x).face
            &&& base.halfedge_at(x).twin matches Some(t) ==> (!stitched_side(base, s, s.len() as int, 0, t)
                ==> merged.halfedge_at(x).twin == Some(t))
        }
}

/// The pairs of `mp` start with the stitches, join each vertex of the other mesh at most once,
/// and are what `vm` maps.
spec fn mapping_matches(vm: Map<VertexID, VertexID>, mp: Seq<(VertexID, VertexID)>, s: Seq<(VertexID, VertexID)>) -> bool {
    &&& s.len() <= mp.len()
    &&& forall|a: int| 0 <= a < s.len() ==> #[trigger] mp[a] == s[a]
    &&& forall|a: int, b: int| 0 <= a < b < mp.len() ==> mp[a].0 != mp[b].0
    &&& forall|a: int| 0 <= a < mp.len() ==> vm.dom().contains(#[trigger] mp[a].0) && vm[mp[a].0] == mp[a].1
    &&& forall|v: VertexID| #[trigger] vm.dom().contains(v) ==> exists|a: int| 0 <= a < mp.len() && #[trigger] mp[a].0 == v
}

/// Looking up vertex `v` of the other mesh, or adding a copy of it, keeps the vertex map
/// consistent and maps `v` to the vertex found.
proof fn lemma_vertex_mapped<P: Copy>(
    vm: Map<VertexID, VertexID>,
    mp: Seq<(VertexID, VertexID)>,
    mp2: Seq<(VertexID, VertexID)>,
    base: ConnectivityInfo,
    s: Seq<(VertexID, VertexID)>,
    other: DynamicMesh<P>,
    m1: DynamicMesh<P>,
    m2: DynamicMesh<P>,
    v: VertexID,
    r: VertexID,
) -> (vm2: Map<VertexID, VertexID>)
    requires
        mapping_matches(vm, mp, s),
        vertex_map_ok(vm, base, s, other, m1),
        (exists|a: int| 0 <= a < mp.len() && mp[a].0 == v) ==> {
            &&& mp2 == mp
            &&& m2 == m1
            &&& forall|a: int| 0 <= a < mp.len() && mp[a].0 == v ==> r == mp[a].1
        },
        !(exists|a: int| 0 <= a < mp.len() && mp[a].0 == v) ==> {
            &&& mp2 == mp.push((v, r))
            &&& !r.spec_is_null()
            &&& !m1.connectivity().vertex_map().dom().contains(r.index())
            &&& m2.connectivity().vertex_map() == m1.connectivity().vertex_map().insert(r.index(), Vertex { halfedge: None })
            &&& m2.position_map() == m1.position_map().insert(r.index(), other.position_map()[v.index()])
            &&& m2.normal_map() == if other.normal_map().dom().contains(v.index()) {
                m1.normal_map().insert(r.index(), other.normal_map()[v.index()])
            } else {
                m1.normal_map()
            }
        },
    ensures
        mapping_matches(vm2, mp2, s),
        vertex_map_ok(vm2, base, s, other, m2),
        vm2.dom().contains(v),
        vm2[v] == r,
        forall|u: VertexID| #[trigger] vm.dom().contains(u) ==> vm2.dom().contains(u) && vm2[u] == vm[u],
        forall|u: VertexID| #[trigger] vm2.dom().contains(u) ==> vm.dom().contains(u) || u == v,
{
    reveal(vertex_map_parts);
    if exists|a: int| 0 <= a < mp.len() && mp[a].0 == v {
        let a = choose|a: int| 0 <= a < mp.len() && mp[a].0 == v;
        assert(vm.dom().contains(mp[a].0));
        vm
    } else {
        let vm2 = vm.insert(v, r);
        assert(stitch_of(s, v) is None) by {
            if exists|i: int| 0 <= i < s.len() && #[trigger] s[i].0 == v {
                let i = choose|i: int| 0 <= i < s.len() && #[trigger] s[i].0 == v;
                assert(mp[i] == s[i]);
            }
        }
        assert(!vm.dom().contains(v));
        assert forall|a: int| 0 <= a < mp2.len() implies vm2.dom().contains(#[trigger] mp2[a].0) && vm2[mp2[a].0] == mp2[a].1 by {
            if a < mp.len() {
                assert(mp2[a] == mp[a]);
                assert(mp[a].0 != v);
            }
        }
        assert forall|a: int| 0 <= a < s.len() implies #[trigger] mp2[a] == s[a] by {
            assert(mp2[a] == mp[a]);
        }
        assert forall|u: VertexID| #[trigger] vm2.dom().contains(u) implies exists|a: int| 0 <= a < mp2.len() && #[trigger] mp2[a].0 == u by {
            if u == v {
                assert(mp2[mp.len() as int].0 == v);
            } else {
                let a = choose|a: int| 0 <= a < mp.len() && #[trigger] mp[a].0 == u;
                assert(mp2[a] == mp[a]);
            }
        }
        // vertices mapped before are in the mesh and differ from the new one
        assert forall|u: VertexID| #[trigger] vm2.dom().contains(u) implies match stitch_of(s, u) {
            Some(w) => vm2[u] == w,
            None => {
                &&& m2.connectivity().has_vertex(vm2[u])
                &&& !base.vertex_map().dom().contains(vm2[u].index())
                &&& m2.position_map().dom().contains(vm2[u].index())
                &&& m2.position_map()[vm2[u].index()] == other.position_map()[u.index()]
                &&& other.normal_map().dom().contains(u.index()) ==> m2.normal_map().dom().contains(vm2[u].index())
                    && m2.normal_map()[vm2[u].index()] == other.normal_map()[u.index()]
            },
        } by {
            if u != v {
                assert(vm.dom().contains(u));
                assert(vm2[u] == vm[u]);
                if stitch_of(s, u) is None {
                    assert(m1.connectivity().vertex_map().dom().contains(vm[u].index()));
                    assert(vm[u].index() != r.index());
                    assert(m2.position_map()[vm[u].index()] == m1.position_map()[vm[u].index()]);
                }
            } else {
                assert(base.vertex_map().dom().contains(r.index()) ==> m1.connectivity().vertex_map().dom().contains(r.index()));
                assert(vm2[v] == r);
                assert(m2.connectivity().vertex_map().dom().contains(r.index()));
                assert(m2.position_map()[r.index()] == other.position_map()[v.index()]);
            }
        }
        assert forall|v1: VertexID, v2: VertexID|
            #[trigger] vm2.dom().contains(v1) && #[trigger] vm2.dom().contains(v2) && v1 != v2 && stitch_of(s, v1) is None
                && stitch_of(s, v2) is None implies vm2[v1] != vm2[v2] by {
            if v1 == v {
                assert(m1.connectivity().vertex_map().dom().contains(vm[v2].index()));
            } else if v2 == v {
                assert(m1.connectivity().vertex_map().dom().contains(vm[v1].index()));
            }
        }
        assert forall|k: usize| #[trigger] base.vertex_map().dom().contains(k) implies m2.connectivity().vertex_map().dom().contains(
            k,
        ) by {
            assert(m1.connectivity().vertex_map().dom().contains(k));
        }
        assert forall|k: usize|
            #[trigger] m2.connectivity().vertex_map().dom().contains(k) && !base.vertex_map().dom().contains(k) implies exists|
                u: VertexID,
            | #[trigger] vm2.dom().contains(u) && stitch_of(s, u) is None && vm2[u].index() == k by {
            if k == r.index() {
                assert(vm2.dom().contains(v));
            } else {
                assert(m1.connectivity().vertex_map().dom().contains(k));
                let u = choose|u: VertexID| #[trigger] vm.dom().contains(u) && stitch_of(s, u) is None && vm[u].index() == k;
                assert(vm2.dom().contains(u));
            }
        }
        vm2
    }
}

/// The vertex map of a merge stays consistent while the merged mesh keeps its vertices,
/// positions and normals.
proof fn lemma_vertex_map_same<P: Copy>(
    vm: Map<VertexID, VertexID>,
    base: ConnectivityInfo,
    s: Seq<(VertexID, VertexID)>,
    other: DynamicMesh<P>,
    m1: DynamicMesh<P>,
    m2: DynamicMesh<P>,
)
    requires
        vertex_map_ok(vm, base, s, other, m1),
        m2.connectivity().vertex_map().dom() == m1.connectivity().vertex_map().dom(),
        m2.position_map() == m1.position_map(),
        m2.normal_map() == m1.normal_map(),
    ensures
        vertex_map_ok(vm, base, s, other, m2),
{
}

/// A vertex of the other mesh that a merge has mapped goes to a vertex of the merged mesh.
proof fn lemma_mapped_is_vertex<P: Copy>(
    vm: Map<VertexID, VertexID>,
    base: ConnectivityInfo,
    s: Seq<(VertexID, VertexID)>,
    other: DynamicMesh<P>,
    merged: DynamicMesh<P>,
    v: VertexID,
)
    requires
        vertex_map_ok(vm, base, s, other, merged),
        vm.dom().contains(v),
        forall|a: int| 0 <= a < s.len() ==> base.has_vertex(#[trigger] s[a].1),
    ensures
        merged.connectivity().has_vertex(vm[v]),
{
    reveal(vertex_map_parts);
    if stitch_of(s, v) is Some {
        let i = choose|i: int| 0 <= i < s.len() && #[trigger] s[i].0 == v;
        assert(base.has_vertex(s[i].1));
        assert(merged.connectivity().vertex_map().dom().contains(s[i].1.index()));
    }
}

/// The sides listed in `rem` are halfedges of `c1` that bound no face, each with a twin that
/// bounds one.
spec fn sides_faceless(c1: ConnectivityInfo, rem: Seq<HalfEdgeID>) -> bool {
    forall|m: int| 0 <= m < rem.len() ==> {
        let h = #[trigger] rem[m];
        &&& c1.has_halfedge(h)
        &&& c1.halfedge_at(h).face is None
        &&& c1.halfedge_at(h).twin is Some
        &&& c1.face_of(c1.halfedge_at(h).twin) is Some
    }
}

/// What removing the first `k` sides listed in `rem` from `c1` leaves in `c`: the other
/// halfedges, with what they point to, continue with and bound, and their twins unless
/// removed; the twins of the removed sides, without a twin; and every halfedge without a twin
/// bounds a face.
spec fn sides_removed(c1: ConnectivityInfo, rem: Seq<HalfEdgeID>, k: int, c: ConnectivityInfo) -> bool {
    &&& forall|x: HalfEdgeID|
        #[trigger] c.has_halfedge(x) ==> {
            &&& c1.has_halfedge(x)
            &&& c.halfedge_at(x).vertex == c1.halfedge_at(x).vertex
            &&& c.halfedge_at(x).next == c1.halfedge_at(x).next
            &&& c.halfedge_at(x).face == c1.halfedge_at(x).face
        }
    &&& forall|x: HalfEdgeID| #[trigger] c1.has_halfedge(x) && !rem.contains(x) ==> c.has_halfedge(x)
    &&& forall|x: HalfEdgeID|
        #[trigger] c.has_halfedge(x) ==> (c1.halfedge_at(x).twin matches Some(t) ==> (!rem.contains(t) ==> c.halfedge_at(x).twin
            == Some(t)))
    &&& forall|x: HalfEdgeID| #[trigger] c.has_halfedge(x) && c.halfedge_at(x).twin is None ==> c.halfedge_at(x).face is Some
    &&& forall|m: int|
        0 <= m < k ==> {
            let t = c1.halfedge_at(#[trigger] rem[m]).twin->Some_0;
            &&& c.has_halfedge(t)
            &&& c.halfedge_at(t).twin is None
            &&& !c.has_halfedge(rem[m])
        }
}

/// Removing one more listed side keeps what removing the sides says.
proof fn lemma_side_removed(c1: ConnectivityInfo, rem: Seq<HalfEdgeID>, k: int, before: ConnectivityInfo, after: ConnectivityInfo)
    requires
        c1.is_valid(),
        rem.no_duplicates(),
        sides_faceless(c1, rem),
        0 <= k < rem.len(),
        sides_removed(c1, rem, k, before),
        before.has_halfedge(rem[k]),
        after.halfedge_map() == without_halfedge(before.halfedge_map(), rem[k]),
    ensures
        sides_removed(c1, rem, k + 1, after),
        before.halfedge_at(rem[k]).twin == c1.halfedge_at(rem[k]).twin,
{
    let y = rem[k];
    let t1 = c1.halfedge_at(y).twin->Some_0;
    c1.lemma_valid_halfedge(y);
    c1.lemma_valid_halfedge(t1);
    assert(!rem.contains(t1)) by {
        if rem.contains(t1) {
            let m = choose|m: int| 0 <= m < rem.len() && rem[m] == t1;
            assert(c1.halfedge_at(rem[m]).face is None);
        }
    }
    assert(before.has_halfedge(t1));
    assert(before.halfedge_at(y).twin == Some(t1));
    assert(y.index() != t1.index());
    assert forall|x: HalfEdgeID| #[trigger] after.has_halfedge(x) implies before.has_halfedge(x) && x != y && (x != t1
        ==> after.halfedge_at(x) == before.halfedge_at(x)) && (x == t1 ==> after.halfedge_at(x) == HalfEdge {
        twin: None,
        ..before.halfedge_at(t1)
    }) by {
        if x != t1 {
            assert(x.index() != t1.index());
        }
    }
    assert forall|x: HalfEdgeID| #[trigger] c1.has_halfedge(x) && !rem.contains(x) implies after.has_halfedge(x) by {
        assert(before.has_halfedge(x));
        assert(x != y);
        assert(x.index() != y.index());
    }
    assert forall|x: HalfEdgeID| #[trigger] after.has_halfedge(x) implies (c1.halfedge_at(x).twin matches Some(t) ==> (
    !rem.contains(t) ==> after.halfedge_at(x).twin == Some(t))) by {
        if x == t1 {
            assert(c1.halfedge_at(t1).twin == Some(y));
            assert(rem.contains(y)) by {
                assert(rem[k] == y);
            }
        }
    }
    assert forall|m: int| 0 <= m < k + 1 implies {
        let t = c1.halfedge_at(#[trigger] rem[m]).twin->Some_0;
        &&& after.has_halfedge(t)
        &&& after.halfedge_at(t).twin is None
        &&& !after.has_halfedge(rem[m])
    } by {
        let t = c1.halfedge_at(rem[m]).twin->Some_0;
        if m < k {
            c1.lemma_valid_halfedge(rem[m]);
            assert(c1.halfedge_at(t).face is Some);
            assert(t != y);
            assert(t.index() != y.index());
            if t != t1 {
                assert(t.index() != t1.index());
            }
        }
    }
}

/// A halfedge of the merged mesh in an added face, or on the faced side of an edge joining
/// stitched vertices, was there without a twin just before the twins were found.
proof fn lemma_joinable_twinless(
    c0: ConnectivityInfo,
    c1: ConnectivityInfo,
    cr: ConnectivityInfo,
    c2: ConnectivityInfo,
    cf: ConnectivityInfo,
    s: Seq<(VertexID, VertexID)>,
    rem: Seq<HalfEdgeID>,
    flip: bool,
    h: HalfEdgeID,
)
    requires
        c1.is_valid(),
        c1.face_map() == c0.face_map(),
        c1.halfedge_map().dom() == c0.halfedge_map().dom(),
        forall|x: HalfEdgeID| #[trigger] c0.has_halfedge(x) ==> c1.has_halfedge(x) && c1.halfedge_at(x).twin == c0.halfedge_at(x).twin,
        forall|x: HalfEdgeID| #[trigger] rem.contains(x) <==> stitched_side(c0, s, s.len() as int, 0, x),
        sides_faceless(c1, rem),
        sides_removed(c1, rem, rem.len() as int, cr),
        cr.face_map() == c1.face_map(),
        forall|x: HalfEdgeID| #[trigger] cr.has_halfedge(x) ==> c2.has_halfedge(x) && c2.halfedge_at(x) == cr.halfedge_at(x),
        forall|x: HalfEdgeID|
            #[trigger] c2.has_halfedge(x) && !cr.has_halfedge(x) ==> {
                &&& c2.halfedge_at(x).face matches Some(g) && !cr.has_face(g)
                &&& c2.halfedge_at(x).twin is None
            },
        c2.next_closed(),
        cf.keeps_links_of(c2),
        cf.has_halfedge(h),
        joinable(c0, s, cf, h),
    ensures
        c2.has_halfedge(h),
        c2.halfedge_at(h).twin is None,
{
    if !c2.has_halfedge(h) {
        assert(cf.halfedge_at(h).face is None);
    }
    ConnectivityInfo::lemma_kept_ends(c2, cf, h);
    let f = cf.halfedge_at(h).face->Some_0;
    if !c0.has_face(f) {
        if cr.has_halfedge(h) {
            c1.lemma_valid_halfedge(h);
        }
    } else {
        let y = choose|y: HalfEdgeID| stitched_side(c0, s, s.len() as int, 0, y) && #[trigger] c0.halfedge_at(y).twin == Some(h);
        assert(rem.contains(y));
        let m = choose|m: int| 0 <= m < rem.len() && rem[m] == y;
        assert(c1.has_halfedge(rem[m]));
        assert(c0.has_halfedge(y)) by {
            assert(c1.has_halfedge(y));
        }
        assert(c1.halfedge_at(rem[m]).twin == Some(h));
    }
}

/// Vertex `v` has been given a halfedge that `base` did not have and that starts at `v`, with
/// the two halfedges after it stored.
#[verifier::opaque]
spec fn touched(c: ConnectivityInfo, base: ConnectivityInfo, v: VertexID) -> bool {
    &&& c.has_vertex(v)
    &&& c.vertex_at(v).halfedge matches Some(h) && {
        &&& c.has_halfedge(h)
        &&& !base.has_halfedge(h)
        &&& c.info_of(c.next_of(Some(h))) is Some
        &&& c.info_of(c.next_of(c.next_of(Some(h)))) is Some
        &&& c.origin(h) == Some(v)
    }
}

/// What adding faces to `base` keeps true of the vertices, halfedges and faces added so far.
#[verifier::opaque]
spec fn additions_ok(c: ConnectivityInfo, base: ConnectivityInfo) -> bool {
    &&& forall|v: VertexID|
        #[trigger] c.has_vertex(v) ==> (base.has_vertex(v) && c.vertex_at(v) == base.vertex_at(v)) || touched(c, base, v)
    &&& forall|x: HalfEdgeID| #[trigger] c.has_halfedge(x) && !base.has_halfedge(x) ==> c.halfedge_ok(x)
    &&& forall|g: FaceID| #[trigger] c.has_face(g) && !base.has_face(g) ==> c.face_ok(g)
}

/// Adding a face on three vertices, some of them just added, keeps the additions consistent
/// and leaves the three vertices with a new halfedge of the face.
proof fn lemma_face_step(
    base: ConnectivityInfo,
    head: ConnectivityInfo,
    before: ConnectivityInfo,
    after: ConnectivityInfo,
    f: FaceID,
    v0: VertexID,
    v1: VertexID,
    v2: VertexID,
)
    requires
        additions_ok(head, base),
        forall|x: HalfEdgeID| #[trigger] base.has_halfedge(x) ==> head.has_halfedge(x),
        forall|g: FaceID| #[trigger] base.has_face(g) ==> head.has_face(g),
        before.halfedge_map() == head.halfedge_map(),
        before.face_map() == head.face_map(),
        forall|v: VertexID|
            #[trigger] before.has_vertex(v) ==> (head.has_vertex(v) && before.vertex_at(v) == head.vertex_at(v)) || v == v0
                || v == v1 || v == v2,
        forall|v: VertexID| #[trigger] head.has_vertex(v) ==> before.has_vertex(v) && before.vertex_at(v) == head.vertex_at(v),
        before.wf(),
        before.has_vertex(v0),
        before.has_vertex(v1),
        before.has_vertex(v2),
        before.halfedge_map().dom().len() < usize::MAX / 2 - 3,
        before.face_map().dom().len() < usize::MAX / 2,
        !f.spec_is_null(),
        f.index() == fresh_index(before.face_map().dom()),
        face_created(before.state(), after.state(), f, v0, v1, v2),
    ensures
        additions_ok(after, base),
        touched(after, base, v0),
        touched(after, base, v1),
        touched(after, base, v2),
        forall|v: VertexID| #[trigger] touched(head, base, v) ==> touched(after, base, v),
{
    reveal(touched);
    reveal(additions_ok);
    ConnectivityInfo::lemma_face_created_keeps(before, after, f, v0, v1, v2);
    before.lemma_finite();
    let d = before.halfedge_map().dom();
    let (h1, h2, h3) = new_face_halfedge_indices(d);
    lemma_fresh_index(d);
    assert(d.insert(h1).len() == d.len() + 1);
    lemma_fresh_index(d.insert(h1));
    assert(d.insert(h1).insert(h3).len() == d.len() + 2);
    lemma_fresh_index(d.insert(h1).insert(h3));
    let e1 = HalfEdgeID::spec_new(h1);
    let e2 = HalfEdgeID::spec_new(h2);
    let e3 = HalfEdgeID::spec_new(h3);
    assert(h1 != h2 && h1 != h3 && h2 != h3);
    assert(after.halfedge_at(e1) == face_halfedge(v1, e2, f));
    assert(after.halfedge_at(e2) == face_halfedge(v2, e3, f));
    assert(after.halfedge_at(e3) == face_halfedge(v0, e1, f));
    assert(!before.has_halfedge(e1) && !before.has_halfedge(e2) && !before.has_halfedge(e3));
    assert(!base.has_halfedge(e1) && !base.has_halfedge(e2) && !base.has_halfedge(e3));
    // the vertices of the face get its halfedges
    assert(after.origin(e1) == Some(v0));
    assert(after.origin(e2) == Some(v1));
    assert(after.origin(e3) == Some(v2));
    assert(after.vertex_at(v2).halfedge == Some(e3));
    assert(touched(after, base, v2));
    if v1 != v2 {
        assert(v1.index() != v2.index());
        assert(after.vertex_at(v1).halfedge == Some(e2));
    }
    assert(touched(after, base, v1));
    if v0 != v2 && v0 != v1 {
        assert(v0.index() != v1.index() && v0.index() != v2.index());
        assert(after.vertex_at(v0).halfedge == Some(e1));
    }
    assert(touched(after, base, v0));
    assert forall|v: VertexID| #[trigger] touched(head, base, v) implies touched(after, base, v) by {
        if v != v0 && v != v1 && v != v2 {
            assert(v.index() != v0.index() && v.index() != v1.index() && v.index() != v2.index());
            assert(head.has_vertex(v));
            assert(after.vertex_at(v) == before.vertex_at(v));
            let h = head.vertex_at(v).halfedge->Some_0;
            assert(before.vertex_at(v) == head.vertex_at(v)) by {
                assert(before.has_vertex(v));
            }
            let n = head.halfedge_at(h).next->Some_0;
            let m = head.halfedge_at(n).next->Some_0;
            assert(before.has_halfedge(h) && before.has_halfedge(n) && before.has_halfedge(m));
        }
    }
    assert forall|v: VertexID| #[trigger] after.has_vertex(v) implies (base.has_vertex(v) && after.vertex_at(v) == base.vertex_at(v))
        || touched(after, base, v) by {
        if v != v0 && v != v1 && v != v2 {
            assert(v.index() != v0.index() && v.index() != v1.index() && v.index() != v2.index());
            assert(before.has_vertex(v));
            assert(head.has_vertex(v));
            if touched(head, base, v) {
            }
        }
    }
    assert forall|x: HalfEdgeID| #[trigger] after.has_halfedge(x) && !base.has_halfedge(x) implies after.halfedge_ok(x) by {
        if before.has_halfedge(x) {
            assert(head.has_halfedge(x));
            assert(head.halfedge_ok(x));
            let u = head.halfedge_at(x).vertex->Some_0;
            assert(head.has_vertex(u));
            if u != v0 && u != v1 && u != v2 {
                assert(u.index() != v0.index() && u.index() != v1.index() && u.index() != v2.index());
                assert(before.vertex_at(u) == head.vertex_at(u));
                assert(after.vertex_at(u) == head.vertex_at(u));
            }
            if head.halfedge_at(x).face is Some {
                let g = head.halfedge_at(x).face->Some_0;
                let n = head.halfedge_at(x).next->Some_0;
                let m = head.halfedge_at(n).next->Some_0;
                assert(before.has_halfedge(n) && before.has_halfedge(m));
                assert(after.has_face(g));
            }
        } else {
            assert(x == e1 || x == e2 || x == e3);
        }
    }
    assert forall|g: FaceID| #[trigger] after.has_face(g) && !base.has_face(g) implies after.face_ok(g) by {
        if g != f {
            assert(head.has_face(g));
            assert(head.face_ok(g));
            let h = head.face_at(g).halfedge->Some_0;
            assert(before.has_halfedge(h));
        } else {
            assert(after.face_at(f).halfedge == Some(e1));
        }
    }
}

/// Vertex `v` is the corner of face `f` of `o`.
pub open spec fn corner_of(o: ConnectivityInfo, f: FaceID, v: VertexID) -> bool {
    let (x, y, z) = o.face_corners(f);
    x == Some(v) || y == Some(v) || z == Some(v)
}

/// Every stitched vertex of `o` is a corner of one of its faces.
pub open spec fn stitched_on_faces(o: ConnectivityInfo, s: Seq<(VertexID, VertexID)>) -> bool {
    forall|a: int| #![trigger s[a]] 0 <= a < s.len() ==> exists|f: FaceID| o.has_face(f) && #[trigger] corner_of(o, f, s[a].0)
}

/// The vertices of `o` that `vm` maps are exactly the stitched ones and the corners of the
/// faces of `o`.
#[verifier::opaque]
pub open spec fn mapped_vertices(vm: Map<VertexID, VertexID>, o: ConnectivityInfo, s: Seq<(VertexID, VertexID)>) -> bool {
    forall|v: VertexID|
        #[trigger] vm.dom().contains(v) <==> (stitch_of(s, v) is Some || exists|f: FaceID| o.has_face(f) && #[trigger] corner_of(o, f, v))
}

/// Vertex `w` is one that a stitch joins to.
spec fn stitch_target(s: Seq<(VertexID, VertexID)>, w: VertexID) -> bool {
    exists|a: int| 0 <= a < s.len() && #[trigger] s[a].1 == w
}

/// Both ends of a side of an edge joining stitched vertices are vertices that stitches join to.
proof fn lemma_side_ends(c0: ConnectivityInfo, s: Seq<(VertexID, VertexID)>, h: HalfEdgeID)
    requires
        c0.is_valid(),
        forall|a: int| 0 <= a < s.len() ==> c0.has_vertex(#[trigger] s[a].1) && c0.vertex_at(s[a].1).halfedge is Some,
        stitched_side(c0, s, s.len() as int, 0, h),
    ensures
        c0.vertex_of(Some(h)) matches Some(w) && stitch_target(s, w),
        c0.vertex_of(c0.twin_of(Some(h))) matches Some(w) && stitch_target(s, w),
{
    let (a, b) = choose|a: int, b: int|
        0 <= a < s.len() && 0 <= b < s.len() && (a < s.len() || (a == s.len() && b < 0)) && #[trigger] c0.connection(
            s[a].1,
            s[b].1,
        ) is Some && h == faceless_side(c0, c0.connection(s[a].1, s[b].1)->Some_0);
    let from = s[a].1;
    let to = s[b].1;
    assert(c0.has_vertex(from) && c0.vertex_at(from).halfedge is Some);
    c0.lemma_connection(from, to);
    let e = c0.connection(from, to)->Some_0;
    c0.lemma_valid_halfedge(e);
    let t = c0.halfedge_at(e).twin->Some_0;
    c0.lemma_valid_halfedge(t);
    assert(stitch_target(s, from));
    assert(stitch_target(s, to));
}

/// A stitched vertex of the other mesh goes to the vertex it is stitched to.
proof fn lemma_stitch_of_pair(s: Seq<(VertexID, VertexID)>, a: int)
    requires
        0 <= a < s.len(),
        forall|i: int, j: int| 0 <= i < j < s.len() ==> s[i].0 != s[j].0,
    ensures
        stitch_of(s, s[a].0) == Some(s[a].1),
{
    let i = choose|i: int| 0 <= i < s.len() && #[trigger] s[i].0 == s[a].0;
    if i != a {
        if i < a {
        } else {
        }
    }
}

/// The halfedges of this mesh, turned round where `flip`, keep their twins and point to where
/// their twins pointed.
proof fn lemma_base_halfedges(c0: ConnectivityInfo, c1: ConnectivityInfo, flip: bool)
    requires
        flip ==> c1.state() == reversed(c0),
        !flip ==> c1 == c0,
    ensures
        forall|x: HalfEdgeID| #[trigger] c0.has_halfedge(x) ==> c1.halfedge_at(x).twin == c0.halfedge_at(x).twin,
        forall|x: HalfEdgeID| #[trigger] c0.has_halfedge(x) ==> c1.halfedge_at(x).vertex == if flip {
            c0.vertex_of(c0.twin_of(Some(x)))
        } else {
            c0.halfedge_at(x).vertex
        },
{
    assert forall|x: HalfEdgeID| #[trigger] c0.has_halfedge(x) implies c1.halfedge_at(x).twin == c0.halfedge_at(x).twin
        && c1.halfedge_at(x).vertex == if flip {
        c0.vertex_of(c0.twin_of(Some(x)))
    } else {
        c0.halfedge_at(x).vertex
    } by {
        if flip {
            assert(HalfEdgeID::spec_new(x.index()) == x);
            assert(c1.halfedge_at(x) == reversed_halfedge(c0, x));
        }
    }
}

/// The merged mesh keeps the vertices of the mesh merged into.
proof fn lemma_vertex_map_keeps<P: Copy>(
    vm: Map<VertexID, VertexID>,
    base: ConnectivityInfo,
    s: Seq<(VertexID, VertexID)>,
    other: DynamicMesh<P>,
    merged: DynamicMesh<P>,
)
    requires
        vertex_map_ok(vm, base, s, other, merged),
    ensures
        forall|k: usize| #[trigger] base.vertex_map().dom().contains(k) ==> merged.connectivity().vertex_map().dom().contains(k),
{
    reveal(vertex_map_parts);
}

/// What the vertex map of a merge says of stitched vertices and of the vertices kept.
proof fn lemma_vertex_map_facts<P: Copy>(
    vm: Map<VertexID, VertexID>,
    base: ConnectivityInfo,
    s: Seq<(VertexID, VertexID)>,
    other: DynamicMesh<P>,
    merged: DynamicMesh<P>,
)
    requires
        vertex_map_ok(vm, base, s, other, merged),
    ensures
        forall|v: VertexID| #[trigger] vm.dom().contains(v) && stitch_of(s, v) is Some ==> vm[v] == stitch_of(s, v)->Some_0,
        forall|k: usize| #[trigger] base.vertex_map().dom().contains(k) ==> merged.connectivity().vertex_map().dom().contains(k),
{
    reveal(vertex_map_parts);
}

/// After the sides are removed and the faces added, every halfedge is consistent.
#[verifier::rlimit(40)]
proof fn lemma_added_halfedges_ok(c1: ConnectivityInfo, cr: ConnectivityInfo, c2: ConnectivityInfo, rem: Seq<HalfEdgeID>)
    requires
        c1.is_valid(),
        sides_faceless(c1, rem),
        sides_removed(c1, rem, rem.len() as int, cr),
        cr.vertex_map() == c1.vertex_map(),
        cr.face_map() == c1.face_map(),
        forall|x: HalfEdgeID| #[trigger] cr.has_halfedge(x) ==> c2.has_halfedge(x) && c2.halfedge_at(x) == cr.halfedge_at(x),
        forall|g: FaceID| #[trigger] cr.has_face(g) ==> c2.has_face(g),
        forall|k: usize| #[trigger] cr.vertex_map().dom().contains(k) ==> c2.vertex_map().dom().contains(k),
        additions_ok(c2, cr),
    ensures
        forall|y: HalfEdgeID| #[trigger] c2.has_halfedge(y) ==> c2.halfedge_ok(y),
{
    assert forall|y: HalfEdgeID| #[trigger] c2.has_halfedge(y) implies c2.halfedge_ok(y) by {
        reveal(additions_ok);
        if cr.has_halfedge(y) {
            assert(c1.has_halfedge(y));
            c1.lemma_valid_halfedge(y);
            let u = c1.halfedge_at(y).vertex->Some_0;
            assert(c1.has_vertex(u));
            assert(c2.has_vertex(u));
            if !(cr.has_vertex(u) && c2.vertex_at(u) == cr.vertex_at(u)) {
                reveal(touched);
            }
            if c1.halfedge_at(y).face is Some {
                let g = c1.halfedge_at(y).face->Some_0;
                let n = c1.halfedge_at(y).next->Some_0;
                let m = c1.halfedge_at(n).next->Some_0;
                lemma_faced_kept(c1, cr, rem, n);
                lemma_faced_kept(c1, cr, rem, m);
                assert(cr.has_face(g));
            }
        }
    }
}

/// A halfedge of `c1` that bounds a face is not among the removed sides and stays.
proof fn lemma_faced_kept(c1: ConnectivityInfo, cr: ConnectivityInfo, rem: Seq<HalfEdgeID>, x: HalfEdgeID)
    requires
        sides_faceless(c1, rem),
        sides_removed(c1, rem, rem.len() as int, cr),
        c1.has_halfedge(x),
        c1.halfedge_at(x).face is Some,
    ensures
        !rem.contains(x),
        cr.has_halfedge(x),
{
    if rem.contains(x) {
        let k = choose|k: int| 0 <= k < rem.len() && rem[k] == x;
        assert(c1.halfedge_at(rem[k]).face is None);
    }
}

/// Every vertex of the merged mesh is consistent: where every stitched vertex of the other
/// mesh lies on one of its faces, each stitched vertex whose halfedge was removed has been
/// given one of an added face.
#[verifier::rlimit(60)]
proof fn lemma_merged_vertices_ok(
    c0: ConnectivityInfo,
    c1: ConnectivityInfo,
    cr: ConnectivityInfo,
    c2: ConnectivityInfo,
    cf: ConnectivityInfo,
    s: Seq<(VertexID, VertexID)>,
    rem: Seq<HalfEdgeID>,
    flip: bool,
)
    requires
        c0.is_valid(),
        c1.is_valid(),
        boundary_open(c1),
        forall|a: int| 0 <= a < s.len() ==> c0.has_vertex(#[trigger] s[a].1) && c0.vertex_at(s[a].1).halfedge is Some,
        forall|a: int| 0 <= a < s.len() ==> touched(c2, cr, #[trigger] s[a].1),
        c1.halfedge_map().dom() == c0.halfedge_map().dom(),
        forall|x: HalfEdgeID| #[trigger] c0.has_halfedge(x) ==> c1.halfedge_at(x).twin == c0.halfedge_at(x).twin,
        forall|x: HalfEdgeID| #[trigger] c0.has_halfedge(x) ==> c1.halfedge_at(x).vertex == if flip {
            c0.vertex_of(c0.twin_of(Some(x)))
        } else {
            c0.halfedge_at(x).vertex
        },
        forall|x: HalfEdgeID| #[trigger] rem.contains(x) <==> stitched_side(c0, s, s.len() as int, 0, x),
        sides_faceless(c1, rem),
        sides_removed(c1, rem, rem.len() as int, cr),
        cr.vertex_map() == c1.vertex_map(),
        forall|x: HalfEdgeID| #[trigger] cr.has_halfedge(x) ==> c2.has_halfedge(x) && c2.halfedge_at(x) == cr.halfedge_at(x),
        additions_ok(c2, cr),
        c2.next_closed(),
        cf.twins_complete(),
        cf.keeps_links_of(c2),
        cf.keeps_twins_of(c2),
        cf.vertex_map() == c2.vertex_map(),
    ensures
        forall|v: VertexID| #[trigger] cf.has_vertex(v) ==> cf.vertex_ok(v),
{
    assert forall|v: VertexID| #[trigger] cf.has_vertex(v) implies cf.vertex_ok(v) by {
        assert(c2.has_vertex(v));
        if touched(c2, cr, v) {
            reveal(touched);
            let h = c2.vertex_at(v).halfedge->Some_0;
            ConnectivityInfo::lemma_kept_ends(c2, cf, h);
            assert(cf.twin_ok(h));
        } else {
            assert(cr.has_vertex(v) && c2.vertex_at(v) == cr.vertex_at(v)) by {
                reveal(additions_ok);
            }
            assert(c1.has_vertex(v));
            c1.lemma_valid_vertex(v);
            if c1.vertex_at(v).halfedge is Some {
                let h = c1.vertex_at(v).halfedge->Some_0;
                let t1 = c1.halfedge_at(h).twin->Some_0;
                c1.lemma_valid_halfedge(h);
                if rem.contains(h) {
                    assert(c0.has_halfedge(h));
                    lemma_side_ends(c0, s, h);
                    c0.lemma_valid_halfedge(h);
                    let t0 = c0.halfedge_at(h).twin->Some_0;
                    c0.lemma_valid_halfedge(t0);
                    assert(c1.halfedge_at(t1).vertex == Some(v));
                    let w = if flip { c0.vertex_of(Some(h))->Some_0 } else { c0.vertex_of(c0.twin_of(Some(h)))->Some_0 };
                    assert(v == w);
                    let a = choose|a: int| 0 <= a < s.len() && #[trigger] s[a].1 == w;
                    assert(touched(c2, cr, s[a].1));
                    assert(false);
                }
                assert(cr.has_halfedge(h));
                ConnectivityInfo::lemma_kept_ends(c2, cf, h);
                assert(cf.twin_ok(h));
                if c1.halfedge_at(h).face is Some {
                    let n = c1.halfedge_at(h).next->Some_0;
                    let m = c1.halfedge_at(n).next->Some_0;
                    lemma_faced_kept(c1, cr, rem, n);
                    lemma_faced_kept(c1, cr, rem, m);
                    c1.lemma_valid_halfedge(n);
                    c1.lemma_valid_halfedge(m);
                    assert(c1.origin(h) == Some(v));
                    assert(c2.origin(h) == c1.origin(h));
                    assert(cf.origin(h) == Some(v));
                } else {
                    assert(!rem.contains(t1)) by {
                        if rem.contains(t1) {
                            let k = choose|k: int| 0 <= k < rem.len() && rem[k] == t1;
                            assert(c1.twin_ok(t1));
                        }
                    }
                    assert(cr.halfedge_at(h).twin == Some(t1));
                    assert(cr.has_halfedge(t1));
                    assert(c2.halfedge_at(h).twin == Some(t1));
                    assert(cf.halfedge_at(h).twin == Some(t1));
                    ConnectivityInfo::lemma_kept_ends(c2, cf, t1);
                    assert(cf.halfedge_at(t1).vertex == Some(v));
                }
            }
        }
    }
}

/// Where every stitched vertex of the other mesh lies on one of its faces, every vertex that
/// a stitch joins to is given a halfedge of an added face.
proof fn lemma_stitched_touched(
    cr: ConnectivityInfo,
    c2: ConnectivityInfo,
    o: ConnectivityInfo,
    s: Seq<(VertexID, VertexID)>,
    vm: Map<VertexID, VertexID>,
)
    requires
        forall|i: int, j: int| 0 <= i < j < s.len() ==> s[i].0 != s[j].0,
        stitched_on_faces(o, s),
        forall|f: FaceID| #[trigger] o.has_face(f) ==> {
            let (x, y, z) = o.face_corners(f);
            &&& touched(c2, cr, vm[x->Some_0])
            &&& touched(c2, cr, vm[y->Some_0])
            &&& touched(c2, cr, vm[z->Some_0])
            &&& vm.dom().contains(x->Some_0)
            &&& vm.dom().contains(y->Some_0)
            &&& vm.dom().contains(z->Some_0)
        },
        forall|v: VertexID| #[trigger] vm.dom().contains(v) && stitch_of(s, v) is Some ==> vm[v] == stitch_of(s, v)->Some_0,
    ensures
        forall|a: int| 0 <= a < s.len() ==> touched(c2, cr, #[trigger] s[a].1),
{
    assert forall|a: int| 0 <= a < s.len() implies touched(c2, cr, #[trigger] s[a].1) by {
        let f = choose|f: FaceID| o.has_face(f) && #[trigger] corner_of(o, f, s[a].0);
        lemma_stitch_of_pair(s, a);
        let (x, y, z) = o.face_corners(f);
        if x == Some(s[a].0) {
            assert(vm[x->Some_0] == s[a].1);
        } else if y == Some(s[a].0) {
            assert(vm[y->Some_0] == s[a].1);
        } else {
            assert(vm[z->Some_0] == s[a].1);
        }
    }
}

/// Finding the twins keeps every halfedge consistent and makes the new ones consistent.
proof fn lemma_final_halfedges_ok(c2: ConnectivityInfo, cf: ConnectivityInfo)
    requires
        forall|y: HalfEdgeID| #[trigger] c2.has_halfedge(y) ==> c2.halfedge_ok(y),
        forall|x: HalfEdgeID| #[trigger] c2.has_halfedge(x) && c2.halfedge_at(x).twin is None ==> c2.halfedge_at(x).face is Some,
        c2.next_closed(),
        c2.twins_ready(),
        cf.twins_complete(),
        cf.keeps_links_of(c2),
        cf.keeps_twins_of(c2),
        cf.vertex_map() == c2.vertex_map(),
        cf.face_map() == c2.face_map(),
    ensures
        forall|x: HalfEdgeID| #[trigger] cf.has_halfedge(x) ==> cf.halfedge_ok(x),
{
    assert forall|x: HalfEdgeID| #[trigger] cf.has_halfedge(x) implies cf.halfedge_ok(x) by {
        if c2.has_halfedge(x) {
            ConnectivityInfo::lemma_kept_ends(c2, cf, x);
            assert(c2.halfedge_ok(x));
            if c2.halfedge_at(x).face is Some {
                let n = c2.halfedge_at(x).next->Some_0;
                let m = c2.halfedge_at(n).next->Some_0;
                assert(c2.has_halfedge(n) && c2.has_halfedge(m));
            }
        } else {
            let t = cf.halfedge_at(x).twin->Some_0;
            assert(c2.has_halfedge(t));
            assert(cf.twin_ok(x));
            if c2.halfedge_at(t).twin is Some {
                assert(c2.twin_ok(t));
                assert(cf.halfedge_at(t).twin == c2.halfedge_at(t).twin);
            }
            assert(c2.halfedge_at(t).face is Some);
            assert(c2.halfedge_ok(t));
            let n = c2.halfedge_at(t).next->Some_0;
            let m = c2.halfedge_at(n).next->Some_0;
            assert(c2.halfedge_ok(m));
        }
    }
}

/// Every face of the merged mesh is consistent.
proof fn lemma_final_faces_ok(c1: ConnectivityInfo, cr: ConnectivityInfo, c2: ConnectivityInfo, cf: ConnectivityInfo, rem: Seq<HalfEdgeID>)
    requires
        c1.is_valid(),
        sides_faceless(c1, rem),
        sides_removed(c1, rem, rem.len() as int, cr),
        cr.face_map() == c1.face_map(),
        forall|x: HalfEdgeID| #[trigger] cr.has_halfedge(x) ==> c2.has_halfedge(x) && c2.halfedge_at(x) == cr.halfedge_at(x),
        forall|g: FaceID| #[trigger] cr.has_face(g) ==> c2.face_at(g) == cr.face_at(g),
        additions_ok(c2, cr),
        c2.next_closed(),
        cf.keeps_links_of(c2),
        cf.face_map() == c2.face_map(),
    ensures
        forall|g: FaceID| #[trigger] cf.has_face(g) ==> cf.face_ok(g),
{
    assert forall|g: FaceID| #[trigger] cf.has_face(g) implies cf.face_ok(g) by {
        assert(c2.has_face(g));
        if cr.has_face(g) {
            assert(c1.has_face(g));
            c1.lemma_valid_face(g);
            let h = c1.face_at(g).halfedge->Some_0;
            lemma_faced_kept(c1, cr, rem, h);
            ConnectivityInfo::lemma_kept_ends(c2, cf, h);
        } else {
            assert(c2.face_ok(g)) by {
                reveal(additions_ok);
            }
            let h = c2.face_at(g).halfedge->Some_0;
            ConnectivityInfo::lemma_kept_ends(c2, cf, h);
        }
    }
}

/// The merged mesh is valid where every stitched vertex of the other mesh lies on one of its
/// faces.
#[verifier::rlimit(40)]
proof fn lemma_merge_valid<P: Copy>(
    c0: ConnectivityInfo,
    c1: ConnectivityInfo,
    cr: ConnectivityInfo,
    c2: ConnectivityInfo,
    cf: ConnectivityInfo,
    o: ConnectivityInfo,
    s: Seq<(VertexID, VertexID)>,
    rem: Seq<HalfEdgeID>,
    vm: Map<VertexID, VertexID>,
    flip: bool,
    other: DynamicMesh<P>,
    merged: DynamicMesh<P>,
)
    requires
        c0.is_valid(),
        c1.is_valid(),
        boundary_open(c1),
        stitches_ok(c0, s),
        stitched_on_faces(o, s),
        c1.halfedge_map().dom() == c0.halfedge_map().dom(),
        flip ==> c1.state() == reversed(c0),
        !flip ==> c1 == c0,
        vertex_map_ok(vm, c0, s, other, merged),
        merged.connectivity().vertex_map() == c2.vertex_map(),
        cr.vertex_map().dom() == c0.vertex_map().dom(),
        forall|x: HalfEdgeID| #[trigger] rem.contains(x) <==> stitched_side(c0, s, s.len() as int, 0, x),
        sides_faceless(c1, rem),
        sides_removed(c1, rem, rem.len() as int, cr),
        cr.vertex_map() == c1.vertex_map(),
        cr.face_map() == c1.face_map(),
        forall|x: HalfEdgeID| #[trigger] cr.has_halfedge(x) ==> c2.has_halfedge(x) && c2.halfedge_at(x) == cr.halfedge_at(x),
        forall|g: FaceID| #[trigger] cr.has_face(g) ==> c2.face_at(g) == cr.face_at(g),
        forall|g: FaceID| #[trigger] cr.has_face(g) ==> c2.has_face(g),
        forall|x: HalfEdgeID| #[trigger] c2.has_halfedge(x) && c2.halfedge_at(x).twin is None ==> c2.halfedge_at(x).face is Some,
        additions_ok(c2, cr),
        forall|f: FaceID| #[trigger] o.has_face(f) ==> {
            let (x, y, z) = o.face_corners(f);
            &&& touched(c2, cr, vm[x->Some_0])
            &&& touched(c2, cr, vm[y->Some_0])
            &&& touched(c2, cr, vm[z->Some_0])
            &&& vm.dom().contains(x->Some_0)
            &&& vm.dom().contains(y->Some_0)
            &&& vm.dom().contains(z->Some_0)
        },
        c2.next_closed(),
        c2.twins_ready(),
        cf.twins_complete(),
        cf.keeps_links_of(c2),
        cf.keeps_twins_of(c2),
        cf.vertex_map() == c2.vertex_map(),
        cf.face_map() == c2.face_map(),
    ensures
        cf.is_valid(),
{
    lemma_base_halfedges(c0, c1, flip);
    lemma_vertex_map_facts(vm, c0, s, other, merged);
    assert forall|a: int| 0 <= a < s.len() implies c0.has_vertex(#[trigger] s[a].1) && c0.vertex_at(s[a].1).halfedge is Some by {}
    lemma_stitched_touched(cr, c2, o, s, vm);
    lemma_added_halfedges_ok(c1, cr, c2, rem);
    lemma_merged_vertices_ok(c0, c1, cr, c2, cf, s, rem, flip);
    lemma_final_halfedges_ok(c2, cf);
    lemma_final_faces_ok(c1, cr, c2, cf, rem);
    cf.lemma_valid_intro();
}

/// The sides without a face of the edges joining stitched vertices, among the pairs before
/// pair `(i, j)`, are all in the list once each.
pub open spec fn sides_listed(c: ConnectivityInfo, s: Seq<(VertexID, VertexID)>, i: int, j: int, listed: Seq<HalfEdgeID>) -> bool {
    &&& listed.no_duplicates()
    &&& forall|h: HalfEdgeID| #[trigger] listed.contains(h) <==> stitched_side(c, s, i, j, h)
}

/// The check from the first pair of a row of stitch pairs past the last one is the check
/// from the first pair of the next row.
proof fn lemma_next_row_check(c: ConnectivityInfo, o: ConnectivityInfo, s: Seq<(VertexID, VertexID)>, i: int, oriented: Option<bool>)
    requires
        0 <= i < s.len(),
    ensures
        stitch_check(c, o, s, i, s.len() as int, oriented) == stitch_check(c, o, s, i + 1, 0, oriented),
{
}

/// The sides listed up to the end of a row are those listed up to the start of the next.
proof fn lemma_next_row_sides(c: ConnectivityInfo, s: Seq<(VertexID, VertexID)>, i: int, h: HalfEdgeID)
    requires
        0 <= i < s.len(),
    ensures
        stitched_side(c, s, i, s.len() as int, h) <==> stitched_side(c, s, i + 1, 0, h),
{
    if stitched_side(c, s, i + 1, 0, h) {
        let (a, b) = choose|a: int, b: int|
            0 <= a < s.len() && 0 <= b < s.len() && (a < i + 1 || (a == i + 1 && b < 0)) && #[trigger] c.connection(s[a].1, s[b].1)
                is Some && h == faceless_side(c, c.connection(s[a].1, s[b].1)->Some_0);
        assert(stitched_side(c, s, i, s.len() as int, h));
    }
    if stitched_side(c, s, i, s.len() as int, h) {
        let (a, b) = choose|a: int, b: int|
            0 <= a < s.len() && 0 <= b < s.len() && (a < i || (a == i && b < s.len())) && #[trigger] c.connection(s[a].1, s[b].1)
                is Some && h == faceless_side(c, c.connection(s[a].1, s[b].1)->Some_0);
        assert(stitched_side(c, s, i + 1, 0, h));
    }
}

/// The sides listed up to pair `(i, j + 1)` are those listed up to pair `(i, j)` and the side
/// of the edge of pair `(i, j)`, if it has one.
proof fn lemma_sides_step(c: ConnectivityInfo, s: Seq<(VertexID, VertexID)>, i: int, j: int, h: HalfEdgeID)
    requires
        0 <= i < s.len(),
        0 <= j < s.len(),
    ensures
        stitched_side(c, s, i, j + 1, h) <==> stitched_side(c, s, i, j, h) || (c.connection(s[i].1, s[j].1) is Some && h
            == faceless_side(c, c.connection(s[i].1, s[j].1)->Some_0)),
{
    if stitched_side(c, s, i, j + 1, h) && !stitched_side(c, s, i, j, h) {
        let (a, b) = choose|a: int, b: int|
            0 <= a < s.len() && 0 <= b < s.len() && (a < i || (a == i && b < j + 1)) && #[trigger] c.connection(s[a].1, s[b].1)
                is Some && h == faceless_side(c, c.connection(s[a].1, s[b].1)->Some_0);
        assert(a == i && b == j);
    }
    if stitched_side(c, s, i, j, h) {
        let (a, b) = choose|a: int, b: int|
            0 <= a < s.len() && 0 <= b < s.len() && (a < i || (a == i && b < j)) && #[trigger] c.connection(s[a].1, s[b].1)
                is Some && h == faceless_side(c, c.connection(s[a].1, s[b].1)->Some_0);
        assert(stitched_side(c, s, i, j + 1, h));
    }
    if c.connection(s[i].1, s[j].1) is Some && h == faceless_side(c, c.connection(s[i].1, s[j].1)->Some_0) {
        assert(stitched_side(c, s, i, j + 1, h));
    }
}

/// Where checking the stitches finds them fine, no edge of this mesh joining stitched
/// vertices, from pair `(i, j)` on, has faces on both sides.
proof fn lemma_fine_one_sided(
    c: ConnectivityInfo,
    o: ConnectivityInfo,
    s: Seq<(VertexID, VertexID)>,
    i: int,
    j: int,
    oriented: Option<bool>,
    a: int,
    b: int,
)
    requires
        0 <= i,
        0 <= j,
        stitch_check(c, o, s, i, j, oriented) is Fine,
        0 <= a < s.len(),
        0 <= b < s.len(),
        a > i || (a == i && b >= j),
        c.connection(s[a].1, s[b].1) is Some,
    ensures
        !two_sided(c, c.connection(s[a].1, s[b].1)->Some_0),
    decreases s.len() - i, s.len() - j,
{
    if j >= s.len() {
        lemma_fine_one_sided(c, o, s, i + 1, 0, oriented, a, b);
    } else if a == i && b == j {
    } else {
        match c.connection(s[i].1, s[j].1) {
            None => lemma_fine_one_sided(c, o, s, i, j + 1, oriented, a, b),
            Some(e) => {
                if oriented is None {
                    match o.connection(s[i].0, s[j].0) {
                        None => {},
                        Some(e2) => {
                            let same = stitch_of(s, o.vertex_of(Some(faceless_side(o, e2)))->Some_0) != c.vertex_of(
                                Some(faceless_side(c, e)),
                            );
                            lemma_fine_one_sided(c, o, s, i, j + 1, Some(same), a, b);
                        },
                    }
                } else {
                    lemma_fine_one_sided(c, o, s, i, j + 1, oriented, a, b);
                }
            },
        }
    }
}

/// The vertex of this mesh that a stitch joins to vertex `v` of the other mesh.
pub(crate) fn find_stitch(stitches: &Vec<(VertexID, VertexID)>, v: &VertexID) -> (r: Option<VertexID>)
    requires
        forall|a: int, b: int| 0 <= a < b < stitches@.len() ==> stitches@[a].0 != stitches@[b].0,
    ensures
        r == stitch_of(stitches@, *v),
{
    let mut i: usize = 0;
    while i < stitches.len()
        invariant
            i <= stitches@.len(),
            forall|a: int| 0 <= a < i ==> stitches@[a].0 != *v,
            forall|a: int, b: int| 0 <= a < b < stitches@.len() ==> stitches@[a].0 != stitches@[b].0,
        decreases stitches@.len() - i,
    {
        if stitches[i].0 == *v {
            proof {
                assert(stitches@[i as int].0 == *v);
                let k = choose|k: int| 0 <= k < stitches@.len() && #[trigger] stitches@[k].0 == *v;
                if k != i {
                    if k < i {
                    } else {
                        assert(stitches@[i as int].0 != stitches@[k].0);
                    }
                }
            }
            return Some(stitches[i].1);
        }
        i = i + 1;
    }
    None
}

impl<P: Copy> DynamicMesh<P> {
    /// Checks stitch pair `(i, j)`: where this mesh joins the two stitched vertices by an
    /// edge, lists the side of the edge without a face and, at the first such pair, finds the
    /// orientation (see `stitch_check`).
    #[verifier::rlimit(40)]
    fn check_stitch_pair(
        &self,
        other: &DynamicMesh<P>,
        stitches: &Vec<(VertexID, VertexID)>,
        i: usize,
        j: usize,
        is_same_orientation: &mut Option<bool>,
        halfedges_to_remove: &mut Vec<HalfEdgeID>,
    ) -> (r: Result<(), Error>)
        requires
            self.wf(),
            self.connectivity().is_valid(),
            other.wf(),
            other.connectivity().is_valid(),
            stitches_ok(self.connectivity(), stitches@),
            i < stitches@.len(),
            j < stitches@.len(),
            sides_listed(self.connectivity(), stitches@, i as int, j as int, old(halfedges_to_remove)@),
            *old(is_same_orientation) is None ==> orientation_vertex_ok(
                self.connectivity(),
                other.connectivity(),
                stitches@,
                i as int,
                j as int,
            ),
        ensures
            ({
                let c = self.connectivity();
                let o = other.connectivity();
                let check = stitch_check(c, o, stitches@, i as int, j as int, *old(is_same_orientation));
                match r {
                    Err(e) => (check is NonManifold && e is MergeWillCreateNonManifoldMesh) || (check is Unoriented
                        && e is CannotCheckOrientationOfMesh),
                    Ok(()) => {
                        &&& check == stitch_check(c, o, stitches@, i as int, j + 1, *final(is_same_orientation))
                        &&& sides_listed(c, stitches@, i as int, j + 1, final(halfedges_to_remove)@)
                        &&& *final(is_same_orientation) is None ==> orientation_vertex_ok(c, o, stitches@, i as int, j + 1)
                    },
                }
            }),
    {
        let ghost c = self.connectivity();
        let ghost o = other.connectivity();
        let ghost s = stitches@;
        let ghost before = halfedges_to_remove@;
        let (other_vertex_id1, self_vertex_id1) = stitches[i];
        let (other_vertex_id2, self_vertex_id2) = stitches[j];
        proof {
            assert(c.has_vertex(s[i as int].1));
        }
        match self.connecting_edge(&self_vertex_id1, &self_vertex_id2) {
            Some(self_halfedge_id) => {
                let ghost e = self_halfedge_id;
                proof {
                    c.lemma_valid_halfedge(e);
                    c.lemma_valid_halfedge(c.halfedge_at(e).twin->Some_0);
                }
                let mut walker = self.walker_from_halfedge(&self_halfedge_id);
                if walker.face_id().is_some() {
                    walker.twin();
                }
                if walker.face_id().is_some() {
                    return Err(
                        Error::MergeWillCreateNonManifoldMesh {
                            message: pair_text(
                                "Merge at edge (",
                                self_vertex_id1.to_string(),
                                ", ",
                                self_vertex_id2.to_string(),
                                ") will create non manifold mesh",
                            ),
                        },
                    );
                }
                let halfedge_id_to_remove = walker.halfedge_id().unwrap();
                if !contains_halfedge(halfedges_to_remove, &halfedge_id_to_remove) {
                    halfedges_to_remove.push(halfedge_id_to_remove);
                }
                if is_same_orientation.is_none() {
                    let other_halfedge_id = match other.connecting_edge(&other_vertex_id1, &other_vertex_id2) {
                        Some(h) => h,
                        None => {
                            return Err(
                                Error::CannotCheckOrientationOfMesh {
                                    message: pair_text(
                                        "No edge connecting (",
                                        other_vertex_id1.to_string(),
                                        ", ",
                                        other_vertex_id2.to_string(),
                                        ") exists",
                                    ),
                                },
                            );
                        },
                    };
                    let ghost e2 = other_halfedge_id;
                    proof {
                        o.lemma_valid_halfedge(e2);
                        o.lemma_valid_halfedge(o.halfedge_at(e2).twin->Some_0);
                    }
                    let mut other_walker = other.walker_from_halfedge(&other_halfedge_id);
                    if other_walker.face_id().is_some() {
                        other_walker.twin();
                    }
                    if other_walker.face_id().is_some() {
                        return Err(
                            Error::MergeWillCreateNonManifoldMesh {
                                message: pair_text(
                                    "Merge at edge (",
                                    other_vertex_id1.to_string(),
                                    ", ",
                                    other_vertex_id2.to_string(),
                                    ") will create non manifold mesh",
                                ),
                            },
                        );
                    }
                    let other_vertex = other_walker.vertex_id().unwrap();
                    proof {
                        let start = o.vertex_at(other_vertex_id1).halfedge->Some_0;
                        let k = choose|k: nat|
                            k < o.ring_len(start) && o.vertex_of(#[trigger] o.ring_iter(Some(start), k)) == Some(other_vertex_id2)
                                && forall|j2: nat| j2 < k ==> o.vertex_of(#[trigger] o.ring_iter(Some(start), j2)) != Some(other_vertex_id2);
                        o.lemma_ring_starts_at(other_vertex_id1, k);
                        if other_vertex == other_vertex_id1 {
                            assert(s[i as int].0 == other_vertex);
                        } else {
                            assert(s[j as int].0 == other_vertex);
                        }
                    }
                    let stitched = find_stitch(stitches, &other_vertex).unwrap();
                    *is_same_orientation = Some(stitched != walker.vertex_id().unwrap());
                }
            },
            None => {},
        }
        proof {
            let after = halfedges_to_remove@;
            let linked = c.connection(s[i as int].1, s[j as int].1);
            assert forall|h: HalfEdgeID| #[trigger] after.contains(h) <==> stitched_side(c, s, i as int, j + 1, h) by {
                lemma_sides_step(c, s, i as int, j as int, h);
                if linked is Some {
                    let x = faceless_side(c, linked->Some_0);
                    if after.len() > before.len() {
                        assert(after == before.push(x));
                        if after.contains(h) {
                            let k = choose|k: int| 0 <= k < after.len() && after[k] == h;
                            if k < before.len() {
                                assert(before[k] == h);
                            }
                        }
                        if before.contains(h) {
                            let k = choose|k: int| 0 <= k < before.len() && before[k] == h;
                            assert(after[k] == h);
                        }
                        assert(after[before.len() as int] == x);
                    } else {
                        assert(after == before);
                    }
                }
            }
            if linked is Some {
                let x = faceless_side(c, linked->Some_0);
                if after.len() > before.len() {
                    assert forall|a: int, b: int| 0 <= a < b < after.len() implies after[a] != after[b] by {
                        if b == before.len() {
                            assert(before.contains(before[a]));
                        }
                    }
                }
            }
        }
        Ok(())
    }

    /// Checks the stitches for merging `other` into this mesh (see `stitch_check`), and
    /// gives the sides without a face of the edges of this mesh that join stitched vertices,
    /// each once, with the orientation found.
    fn check_stitches(&self, other: &DynamicMesh<P>, stitches: &Vec<(VertexID, VertexID)>) -> (r: Result<(Vec<HalfEdgeID>, Option<bool>), Error>)
        requires
            self.wf(),
            self.connectivity().is_valid(),
            other.wf(),
            other.connectivity().is_valid(),
            stitches_ok(self.connectivity(), stitches@),
            orientation_vertex_ok(self.connectivity(), other.connectivity(), stitches@, 0, 0),
        ensures
            ({
                let c = self.connectivity();
                let check = stitch_check(c, other.connectivity(), stitches@, 0, 0, None);
                match r {
                    Err(e) => (check is NonManifold && e is MergeWillCreateNonManifoldMesh) || (check is Unoriented
                        && e is CannotCheckOrientationOfMesh),
                    Ok((to_remove, oriented)) => {
                        &&& check == (StitchCheck::Fine { flip: oriented == Some(false) })
                        &&& sides_listed(c, stitches@, stitches@.len() as int, 0, to_remove@)
                    },
                }
            }),
    {
        let ghost c = self.connectivity();
        let ghost o = other.connectivity();
        let ghost s = stitches@;
        let mut is_same_orientation: Option<bool> = None;
        let mut halfedges_to_remove: Vec<HalfEdgeID> = Vec::new();
        proof {
            assert(halfedges_to_remove@ =~= Seq::<HalfEdgeID>::empty());
            assert forall|h: HalfEdgeID| !stitched_side(c, s, 0, 0, h) by {}
        }
        let mut i: usize = 0;
        while i < stitches.len()
            invariant
                self.wf(),
                c == self.connectivity(),
                c.is_valid(),
                other.wf(),
                o == other.connectivity(),
                o.is_valid(),
                s == stitches@,
                i <= s.len(),
                stitches_ok(c, s),
                stitch_check(c, o, s, 0, 0, None) == stitch_check(c, o, s, i as int, 0, is_same_orientation),
                is_same_orientation is None ==> orientation_vertex_ok(c, o, s, i as int, 0),
                sides_listed(c, s, i as int, 0, halfedges_to_remove@),
            decreases s.len() - i,
        {
            let mut j: usize = 0;
            while j < stitches.len()
                invariant
                    self.wf(),
                    c == self.connectivity(),
                    c.is_valid(),
                    other.wf(),
                    o == other.connectivity(),
                    o.is_valid(),
                    s == stitches@,
                    i < s.len(),
                    j <= s.len(),
                    stitches_ok(c, s),
                    stitch_check(c, o, s, 0, 0, None) == stitch_check(c, o, s, i as int, j as int, is_same_orientation),
                    is_same_orientation is None ==> orientation_vertex_ok(c, o, s, i as int, j as int),
                    sides_listed(c, s, i as int, j as int, halfedges_to_remove@),
                decreases s.len() - j,
            {
                match self.check_stitch_pair(other, stitches, i, j, &mut is_same_orientation, &mut halfedges_to_remove) {
                    Ok(()) => {},
                    Err(e) => {
                        return Err(e);
                    },
                }
                j = j + 1;
            }
            proof {
                lemma_next_row_check(c, o, s, i as int, is_same_orientation);
                assert(is_same_orientation is None ==> orientation_vertex_ok(c, o, s, i + 1, 0));
                assert forall|h: HalfEdgeID| #[trigger] halfedges_to_remove@.contains(h) <==> stitched_side(c, s, i + 1, 0, h) by {
                    lemma_next_row_sides(c, s, i as int, h);
                }
            }
            i = i + 1;
        }
        Ok((halfedges_to_remove, is_same_orientation))
    }

    /// The vertex of this mesh that vertex `vertex_id` of `other` is mapped to, adding a copy
    /// of it, with its position and normal, where it has none yet.
    fn get_or_create_vertex(&mut self, other: &DynamicMesh<P>, mapping: &mut Vec<(VertexID, VertexID)>, vertex_id: VertexID) -> (r: VertexID)
        requires
            old(self).wf(),
            !vertex_id.spec_is_null(),
            other.position_map().dom().contains(vertex_id.index()),
            old(self).connectivity().vertex_map().dom().len() < usize::MAX / 2,
            forall|a: int, b: int| 0 <= a < b < old(mapping)@.len() ==> old(mapping)@[a].0 != old(mapping)@[b].0,
        ensures
            final(self).wf(),
            (exists|a: int| 0 <= a < old(mapping)@.len() && old(mapping)@[a].0 == vertex_id) ==> {
                &&& final(mapping)@ == old(mapping)@
                &&& *final(self) == *old(self)
                &&& forall|a: int| 0 <= a < old(mapping)@.len() && old(mapping)@[a].0 == vertex_id ==> r == old(mapping)@[a].1
            },
            !(exists|a: int| 0 <= a < old(mapping)@.len() && old(mapping)@[a].0 == vertex_id) ==> {
                &&& final(mapping)@ == old(mapping)@.push((vertex_id, r))
                &&& !r.spec_is_null()
                &&& !old(self).connectivity().vertex_map().dom().contains(r.index())
                &&& final(self).connectivity().vertex_map() == old(self).connectivity().vertex_map().insert(
                    r.index(),
                    Vertex { halfedge: None },
                )
                &&& final(self).connectivity().halfedge_map() == old(self).connectivity().halfedge_map()
                &&& final(self).connectivity().face_map() == old(self).connectivity().face_map()
                &&& final(self).position_map() == old(self).position_map().insert(r.index(), other.position_map()[vertex_id.index()])
                &&& final(self).normal_map() == if other.normal_map().dom().contains(vertex_id.index()) {
                    old(self).normal_map().insert(r.index(), other.normal_map()[vertex_id.index()])
                } else {
                    old(self).normal_map()
                }
            },
            final(self).connectivity().vertex_map().dom().len() <= old(self).connectivity().vertex_map().dom().len() + 1,
    {
        let mut i: usize = 0;
        while i < mapping.len()
            invariant
                i <= mapping@.len(),
                mapping@ == old(mapping)@,
                *self == *old(self),
                self.wf(),
                forall|a: int| 0 <= a < i ==> mapping@[a].0 != vertex_id,
                forall|a: int, b: int| 0 <= a < b < mapping@.len() ==> mapping@[a].0 != mapping@[b].0,
            decreases mapping@.len() - i,
        {
            if mapping[i].0 == vertex_id {
                proof {
                    assert forall|a: int| 0 <= a < old(mapping)@.len() && old(mapping)@[a].0 == vertex_id implies mapping@[i as int].1
                        == old(mapping)@[a].1 by {
                        if a != i {
                            if a < i {
                            } else {
                                assert(mapping@[i as int].0 != mapping@[a].0);
                            }
                        }
                    }
                }
                return mapping[i].1;
            }
            i = i + 1;
        }
        let p = *other.position(&vertex_id);
        let n = match other.normal(&vertex_id) {
            Some(x) => Some(*x),
            None => None,
        };
        proof {
            self.connectivity().lemma_finite();
        }
        let vid = self.create_vertex(p, n);
        mapping.push((vertex_id, vid));
        vid
    }

    /// Adds the faces of `other` to this mesh, on the vertices that `stitches` joins its
    /// vertices to and on copies of its other vertices, and gives the map of the vertices of
    /// `other` so used. Halfedges already there are left alone; the new ones have no twin.
    #[verifier::rlimit(60)]
    fn add_faces_of(&mut self, other: &DynamicMesh<P>, stitches: &Vec<(VertexID, VertexID)>) -> (vm: Ghost<Map<VertexID, VertexID>>)
        requires
            old(self).wf(),
            twinnable(old(self).connectivity()),
            forall|x: HalfEdgeID|
                #[trigger] old(self).connectivity().has_halfedge(x) ==> (old(self).connectivity().halfedge_at(x).face matches Some(
                    g,
                ) ==> old(self).connectivity().has_face(g)),
            other.wf(),
            other.connectivity().is_valid(),
            forall|k: usize| #[trigger] other.connectivity().vertex_map().dom().contains(k) ==> other.position_map().dom().contains(k),
            forall|a: int, b: int| 0 <= a < b < stitches@.len() ==> stitches@[a].0 != stitches@[b].0,
            forall|a: int| 0 <= a < stitches@.len() ==> old(self).connectivity().has_vertex(#[trigger] stitches@[a].1),
            old(self).connectivity().halfedge_map().dom().len() + 3 * other.connectivity().face_map().dom().len() < usize::MAX / 8,
            old(self).connectivity().face_map().dom().len() + other.connectivity().face_map().dom().len() < usize::MAX / 4,
            old(self).connectivity().vertex_map().dom().len() + 3 * other.connectivity().face_map().dom().len() < usize::MAX / 4,
        ensures
            final(self).wf(),
            twinnable(final(self).connectivity()),
            forall|x: HalfEdgeID|
                #[trigger] old(self).connectivity().has_halfedge(x) ==> final(self).connectivity().has_halfedge(x)
                    && final(self).connectivity().halfedge_at(x) == old(self).connectivity().halfedge_at(x),
            forall|x: HalfEdgeID|
                #[trigger] final(self).connectivity().has_halfedge(x) && !old(self).connectivity().has_halfedge(x) ==> {
                    &&& final(self).connectivity().halfedge_at(x).face matches Some(g) && !old(self).connectivity().has_face(g)
                    &&& final(self).connectivity().halfedge_at(x).twin is None
                },
            final(self).connectivity().face_map().dom().len() == old(self).connectivity().face_map().dom().len()
                + other.connectivity().face_map().dom().len(),
            final(self).connectivity().halfedge_map().dom().len() <= old(self).connectivity().halfedge_map().dom().len() + 3
                * other.connectivity().face_map().dom().len(),
            forall|g: FaceID| #[trigger] old(self).connectivity().has_face(g) ==> final(self).connectivity().has_face(g)
                && final(self).connectivity().face_at(g) == old(self).connectivity().face_at(g),
            forall|g: FaceID|
                #[trigger] final(self).connectivity().has_face(g) && !old(self).connectivity().has_face(g)
                    ==> final(self).connectivity().face_chain_stored(g),
            vertex_map_ok(vm@, old(self).connectivity(), stitches@, *other, *final(self)),
            faces_added(vm@, other.connectivity(), old(self).connectivity(), final(self).connectivity()),
            additions_ok(final(self).connectivity(), old(self).connectivity()),
            mapped_vertices(vm@, other.connectivity(), stitches@),
            forall|f: FaceID| #[trigger] other.connectivity().has_face(f) ==> {
                let (x, y, z) = other.connectivity().face_corners(f);
                &&& touched(final(self).connectivity(), old(self).connectivity(), vm@[x->Some_0])
                &&& touched(final(self).connectivity(), old(self).connectivity(), vm@[y->Some_0])
                &&& touched(final(self).connectivity(), old(self).connectivity(), vm@[z->Some_0])
                &&& vm@.dom().contains(x->Some_0)
                &&& vm@.dom().contains(y->Some_0)
                &&& vm@.dom().contains(z->Some_0)
            },
    {
        let ghost base = self.connectivity();
        let ghost o = other.connectivity();
        let ghost s = stitches@;
        let mut mapping: Vec<(VertexID, VertexID)> = Vec::new();
        let mut m: usize = 0;
        while m < stitches.len()
            invariant
                m <= stitches@.len(),
                s == stitches@,
                mapping@ == s.subrange(0, m as int),
            decreases stitches@.len() - m,
        {
            mapping.push(stitches[m]);
            m = m + 1;
        }
        let ghost mut vm: Map<VertexID, VertexID> = Map::new(|v: VertexID| stitch_of(s, v) is Some, |v: VertexID| stitch_of(s, v)->Some_0);
        proof {
            assert(mapping@ =~= s);
            assert forall|a: int| 0 <= a < mapping@.len() implies vm.dom().contains(#[trigger] mapping@[a].0) && vm[mapping@[a].0]
                == mapping@[a].1 by {
                let i = choose|i: int| 0 <= i < s.len() && #[trigger] s[i].0 == s[a].0;
                if i != a {
                    if i < a {
                    } else {
                    }
                }
            }
            assert forall|v: VertexID| #[trigger] vm.dom().contains(v) implies exists|a: int|
                0 <= a < mapping@.len() && #[trigger] mapping@[a].0 == v by {
                let i = choose|i: int| 0 <= i < s.len() && #[trigger] s[i].0 == v;
                assert(mapping@[i].0 == v);
            }
            assert forall|v: VertexID| #[trigger] vm.dom().contains(v) implies match stitch_of(s, v) {
                Some(w) => vm[v] == w,
                None => false,
            } by {}
            assert forall|k: usize|
                #[trigger] self.connectivity().vertex_map().dom().contains(k) <==> base.vertex_map().dom().contains(k) || exists|
                    v: VertexID,
                | #[trigger] vm.dom().contains(v) && stitch_of(s, v) is None && vm[v].index() == k by {}
            assert(vertex_map_ok(vm, base, s, *other, *self)) by {
                reveal(vertex_map_parts);
            }
            other.connectivity().lemma_bounded_counts();
        }
        let faces = other.face_iterator();
        proof {
            reveal(additions_ok);
        }
        let ghost mut added: Seq<FaceID> = Seq::empty();
        let mut f: usize = 0;
        while f < faces.len()
            invariant
                self.wf(),
                other.wf(),
                o == other.connectivity(),
                o.is_valid(),
                s == stitches@,
                forall|k: usize| #[trigger] o.vertex_map().dom().contains(k) ==> other.position_map().dom().contains(k),
                f <= faces@.len(),
                faces@.len() == o.face_map().dom().len(),
                forall|a: int| 0 <= a < faces@.len() ==> #[trigger] o.has_face(faces@[a]),
                forall|g: FaceID| #[trigger] o.has_face(g) ==> faces@.contains(g),
                twinnable(self.connectivity()),
                forall|x: HalfEdgeID|
                    #[trigger] base.has_halfedge(x) ==> self.connectivity().has_halfedge(x) && self.connectivity().halfedge_at(x)
                        == base.halfedge_at(x),
                forall|x: HalfEdgeID|
                    #[trigger] self.connectivity().has_halfedge(x) && !base.has_halfedge(x) ==> {
                        &&& self.connectivity().halfedge_at(x).face matches Some(g) && !base.has_face(g)
                        &&& self.connectivity().halfedge_at(x).twin is None
                    },
                mapping_matches(vm, mapping@, s),
                vertex_map_ok(vm, base, s, *other, *self),
                forall|a: int| 0 <= a < s.len() ==> base.has_vertex(#[trigger] s[a].1),
                added.len() == f,
                forall|a: int| 0 <= a < f ==> {
                    let g = #[trigger] added[a];
                    &&& self.connectivity().has_face(g)
                    &&& !base.has_face(g)
                    &&& self.connectivity().face_corners(g) == mapped_corners(vm, o, faces@[a])
                    &&& self.connectivity().face_chain_stored(g)
                },
                forall|a: int| 0 <= a < f ==> {
                    let (x, y, z) = o.face_corners(#[trigger] faces@[a]);
                    &&& vm.dom().contains(x->Some_0)
                    &&& vm.dom().contains(y->Some_0)
                    &&& vm.dom().contains(z->Some_0)
                    &&& touched(self.connectivity(), base, vm[x->Some_0])
                    &&& touched(self.connectivity(), base, vm[y->Some_0])
                    &&& touched(self.connectivity(), base, vm[z->Some_0])
                },
                additions_ok(self.connectivity(), base),
                forall|v: VertexID| #[trigger] vm.dom().contains(v) ==> stitch_of(s, v) is Some || exists|a: int|
                    0 <= a < f && #[trigger] corner_of(o, faces@[a], v),
                forall|v: VertexID| stitch_of(s, v) is Some ==> #[trigger] vm.dom().contains(v),
                forall|g: FaceID|
                    #[trigger] self.connectivity().has_face(g) ==> base.has_face(g) || exists|a: int| 0 <= a < f && added[a] == g,
                forall|g: FaceID| #[trigger] base.has_face(g) ==> self.connectivity().has_face(g) && self.connectivity().face_at(g)
                    == base.face_at(g),
                self.connectivity().halfedge_map().dom().len() <= base.halfedge_map().dom().len() + 3 * f,
                self.connectivity().face_map().dom().len() == base.face_map().dom().len() + f,
                self.connectivity().vertex_map().dom().len() <= base.vertex_map().dom().len() + 3 * f,
                base.halfedge_map().dom().len() + 3 * o.face_map().dom().len() < usize::MAX / 8,
                base.face_map().dom().len() + o.face_map().dom().len() < usize::MAX / 4,
                base.vertex_map().dom().len() + 3 * o.face_map().dom().len() < usize::MAX / 4,
            decreases faces@.len() - f,
        {
            let face_id = faces[f];
            let ghost head = self.connectivity();
            let ghost vm_head = vm;
            proof {
                assert(o.has_face(faces@[f as int]));
            }
            let vertex_ids = other.face_vertices(&face_id);
            proof {
                o.lemma_keys_small();
                o.lemma_valid_face(face_id);
                assert(o.vertex_map().dom().contains(vertex_ids.0.index()));
                assert(o.vertex_map().dom().contains(vertex_ids.1.index()));
                assert(o.vertex_map().dom().contains(vertex_ids.2.index()));
            }
            let ghost m0 = *self;
            let ghost mp0 = mapping@;
            let vertex_id0 = self.get_or_create_vertex(other, &mut mapping, vertex_ids.0);
            proof {
                vm = lemma_vertex_mapped(vm, mp0, mapping@, base, s, *other, m0, *self, vertex_ids.0, vertex_id0);
            }
            let ghost vm_a = vm;
            let ghost m1 = *self;
            let ghost mp1 = mapping@;
            let vertex_id1 = self.get_or_create_vertex(other, &mut mapping, vertex_ids.1);
            proof {
                vm = lemma_vertex_mapped(vm, mp1, mapping@, base, s, *other, m1, *self, vertex_ids.1, vertex_id1);
            }
            let ghost vm_b = vm;
            let ghost m2 = *self;
            let ghost mp2 = mapping@;
            let vertex_id2 = self.get_or_create_vertex(other, &mut mapping, vertex_ids.2);
            proof {
                vm = lemma_vertex_mapped(vm, mp2, mapping@, base, s, *other, m2, *self, vertex_ids.2, vertex_id2);
                lemma_twinnable_same_halfedges(m0.connectivity(), self.connectivity());
                lemma_mapped_is_vertex(vm, base, s, *other, *self, vertex_ids.0);
                lemma_mapped_is_vertex(vm, base, s, *other, *self, vertex_ids.1);
                lemma_mapped_is_vertex(vm, base, s, *other, *self, vertex_ids.2);
            }
            let ghost before = self.connectivity();
            let ghost m3 = *self;
            proof {
                assert(before.halfedge_map() == head.halfedge_map());
                assert(before.face_map() == head.face_map());
                assert forall|v: VertexID| #[trigger] head.has_vertex(v) implies before.has_vertex(v) && before.vertex_at(v)
                    == head.vertex_at(v) by {
                    assert(m1.connectivity().has_vertex(v));
                    assert(m2.connectivity().has_vertex(v));
                }
                assert forall|v: VertexID| #[trigger] before.has_vertex(v) implies (head.has_vertex(v) && before.vertex_at(v)
                    == head.vertex_at(v)) || v == vertex_id0 || v == vertex_id1 || v == vertex_id2 by {
                    if v != vertex_id0 && v != vertex_id1 && v != vertex_id2 {
                        assert(v.index() != vertex_id2.index());
                        assert(m2.connectivity().has_vertex(v));
                        assert(v.index() != vertex_id1.index());
                        assert(m1.connectivity().has_vertex(v));
                        assert(v.index() != vertex_id0.index());
                    }
                }
            }
            let new_face = self.connectivity_info_mut().create_face(&vertex_id0, &vertex_id1, &vertex_id2);
            proof {
                lemma_face_created_twinnable(before, self.connectivity(), new_face, vertex_id0, vertex_id1, vertex_id2);
                ConnectivityInfo::lemma_face_created_keeps(before, self.connectivity(), new_face, vertex_id0, vertex_id1, vertex_id2);
                lemma_face_step(base, head, before, self.connectivity(), new_face, vertex_id0, vertex_id1, vertex_id2);
                lemma_vertex_map_same(vm, base, s, *other, m3, *self);
                assert(!base.has_face(new_face));
                let after = self.connectivity();
                assert forall|x: HalfEdgeID| #[trigger] after.has_halfedge(x) && !base.has_halfedge(x) implies {
                    &&& after.halfedge_at(x).face matches Some(g) && !base.has_face(g)
                    &&& after.halfedge_at(x).twin is None
                } by {
                    if before.has_halfedge(x) {
                        assert(after.halfedge_at(x) == before.halfedge_at(x));
                        assert(head.has_halfedge(x));
                    }
                }
                assert forall|x: HalfEdgeID| #[trigger] base.has_halfedge(x) implies after.has_halfedge(x) && after.halfedge_at(x)
                    == base.halfedge_at(x) by {
                    assert(head.has_halfedge(x));
                    assert(before.has_halfedge(x));
                }
                let added0 = added;
                added = added.push(new_face);
                assert forall|a: int| 0 <= a < f + 1 implies {
                    let g = #[trigger] added[a];
                    &&& after.has_face(g)
                    &&& !base.has_face(g)
                    &&& after.face_corners(g) == mapped_corners(vm, o, faces@[a])
                    &&& after.face_chain_stored(g)
                } by {
                    if a < f {
                        let g = added0[a];
                        assert(added[a] == g);
                        assert(head.face_corners(g) == mapped_corners(vm_head, o, faces@[a]));
                        let (x, y, z) = o.face_corners(faces@[a]);
                        assert(vm_head.dom().contains(x->Some_0));
                        assert(vm_head.dom().contains(y->Some_0));
                        assert(vm_head.dom().contains(z->Some_0));
                        assert(mapped_corners(vm, o, faces@[a]) == mapped_corners(vm_head, o, faces@[a]));
                        assert(before.face_corners(g) == head.face_corners(g));
                        assert(before.face_chain_stored(g));
                        assert(before.has_face(g));
                    }
                }
                assert forall|v: VertexID| stitch_of(s, v) is Some implies #[trigger] vm.dom().contains(v) by {
                    assert(vm_head.dom().contains(v));
                    assert(vm_a.dom().contains(v));
                    assert(vm_b.dom().contains(v));
                }
                assert forall|v: VertexID| #[trigger] vm.dom().contains(v) implies stitch_of(s, v) is Some || exists|a: int|
                    0 <= a < f + 1 && #[trigger] corner_of(o, faces@[a], v) by {
                    if !vm_head.dom().contains(v) {
                        if v != vertex_ids.2 {
                            assert(vm_b.dom().contains(v));
                            if v != vertex_ids.1 {
                                assert(vm_a.dom().contains(v));
                            }
                        }
                        assert(v == vertex_ids.0 || v == vertex_ids.1 || v == vertex_ids.2);
                        assert(corner_of(o, faces@[f as int], v));
                    } else if stitch_of(s, v) is None {
                        let a = choose|a: int| 0 <= a < f && #[trigger] corner_of(o, faces@[a], v);
                        assert(corner_of(o, faces@[a], v));
                    }
                }
                assert forall|a: int| 0 <= a < f + 1 implies {
                    let (x, y, z) = o.face_corners(#[trigger] faces@[a]);
                    &&& vm.dom().contains(x->Some_0)
                    &&& vm.dom().contains(y->Some_0)
                    &&& vm.dom().contains(z->Some_0)
                    &&& touched(after, base, vm[x->Some_0])
                    &&& touched(after, base, vm[y->Some_0])
                    &&& touched(after, base, vm[z->Some_0])
                } by {
                    let (x, y, z) = o.face_corners(faces@[a]);
                    if a < f {
                        assert(touched(head, base, vm_head[x->Some_0]));
                        assert(touched(head, base, vm_head[y->Some_0]));
                        assert(touched(head, base, vm_head[z->Some_0]));
                    } else {
                        assert(mapped_corners(vm, o, faces@[f as int]) == (Some(vertex_id0), Some(vertex_id1), Some(vertex_id2)));
                    }
                }
                assert forall|g: FaceID| #[trigger] after.has_face(g) implies base.has_face(g) || exists|a: int|
                    0 <= a < f + 1 && added[a] == g by {
                    if g == new_face {
                        assert(added[f as int] == g);
                    } else {
                        assert(before.has_face(g));
                        assert(head.has_face(g));
                        if !base.has_face(g) {
                            let a = choose|a: int| 0 <= a < f && added0[a] == g;
                            assert(added[a] == g);
                        }
                    }
                }
                assert(mapped_corners(vm, o, faces@[f as int]) == (Some(vertex_id0), Some(vertex_id1), Some(vertex_id2)));
            }
            f = f + 1;
        }
        proof {
            assert forall|g: FaceID| #[trigger] o.has_face(g) implies {
                let (x, y, z) = o.face_corners(g);
                &&& touched(self.connectivity(), base, vm[x->Some_0])
                &&& touched(self.connectivity(), base, vm[y->Some_0])
                &&& touched(self.connectivity(), base, vm[z->Some_0])
                &&& vm.dom().contains(x->Some_0)
                &&& vm.dom().contains(y->Some_0)
                &&& vm.dom().contains(z->Some_0)
            } by {
                let a = choose|a: int| 0 <= a < faces@.len() && faces@[a] == g;
                assert(o.face_corners(faces@[a]) == o.face_corners(g));
            }
            assert(mapped_vertices(vm, o, s)) by {
                reveal(mapped_vertices);
                assert forall|v: VertexID| #[trigger] vm.dom().contains(v) <==> (stitch_of(s, v) is Some || exists|g: FaceID|
                    o.has_face(g) && #[trigger] corner_of(o, g, v)) by {
                    if vm.dom().contains(v) && stitch_of(s, v) is None {
                        let a = choose|a: int| 0 <= a < f && #[trigger] corner_of(o, faces@[a], v);
                        assert(o.has_face(faces@[a]));
                    }
                    if exists|g: FaceID| o.has_face(g) && #[trigger] corner_of(o, g, v) {
                        let g = choose|g: FaceID| o.has_face(g) && #[trigger] corner_of(o, g, v);
                        let a = choose|a: int| 0 <= a < faces@.len() && faces@[a] == g;
                        assert(o.face_corners(faces@[a]) == o.face_corners(g));
                    }
                }
            }
            assert(faces_added(vm, o, base, self.connectivity())) by {
                reveal(faces_added);
                assert forall|g: FaceID| #[trigger] o.has_face(g) implies exists|g2: FaceID|
                    self.connectivity().has_face(g2) && !base.has_face(g2) && #[trigger] self.connectivity().face_corners(g2)
                        == mapped_corners(vm, o, g) by {
                    let a = choose|a: int| 0 <= a < faces@.len() && faces@[a] == g;
                    assert(self.connectivity().face_corners(added[a]) == mapped_corners(vm, o, faces@[a]));
                }
                assert forall|g: FaceID| #[trigger] self.connectivity().has_face(g) && !base.has_face(g) implies exists|f2: FaceID|
                    o.has_face(f2) && self.connectivity().face_corners(g) == #[trigger] mapped_corners(vm, o, f2) by {
                    let a = choose|a: int| 0 <= a < faces@.len() && added[a] == g;
                    assert(o.has_face(faces@[a]));
                    assert(self.connectivity().face_corners(added[a]) == mapped_corners(vm, o, faces@[a]));
                }
            }
        }
        Ghost(vm)
    }

    /// Merges `other` into this mesh, joining vertex `stitches[k].0` of `other` to vertex
    /// `stitches[k].1` of this mesh. The stitches are checked first (see `stitch_check`); a
    /// refusal leaves the mesh as it was. Where the two meshes are oriented differently, this
    /// mesh is turned round first. The sides without a face of the edges of this mesh that
    /// join stitched vertices are removed, the faces of `other` are added on the stitched
    /// vertices and on copies of its other vertices, and the missing twins are found.
    #[verifier::rlimit(60)]
    pub fn merge_with(&mut self, other: &DynamicMesh<P>, stitches: &Vec<(VertexID, VertexID)>) -> (r: Result<(), Error>)
        requires
            old(self).wf(),
            old(self).connectivity().is_valid(),
            stitch_check(old(self).connectivity(), other.connectivity(), stitches@, 0, 0, None) is Fine ==> boundary_open(
                old(self).connectivity(),
            ),
            other.wf(),
            other.connectivity().is_valid(),
            stitches_ok(old(self).connectivity(), stitches@),
            orientation_vertex_ok(old(self).connectivity(), other.connectivity(), stitches@, 0, 0),
            stitch_check(old(self).connectivity(), other.connectivity(), stitches@, 0, 0, None) is Fine ==> forall|a: int, b: int|
                0 <= a < stitches@.len() && 0 <= b < stitches@.len() && #[trigger] old(self).connectivity().connection(
                    stitches@[a].1,
                    stitches@[b].1,
                ) is Some ==> !edge_alone(
                    old(self).connectivity(),
                    old(self).connectivity().connection(stitches@[a].1, stitches@[b].1)->Some_0,
                ),
            stitch_check(old(self).connectivity(), other.connectivity(), stitches@, 0, 0, None) == (StitchCheck::Fine {
                flip: true,
            }) ==> forall|v: VertexID|
                #[trigger] old(self).connectivity().has_vertex(v) ==> old(self).connectivity().vertex_at(v).halfedge is Some,
            forall|k: usize| #[trigger] other.connectivity().vertex_map().dom().contains(k) ==> other.position_map().dom().contains(k),
            old(self).connectivity().halfedge_map().dom().len() + 3 * other.connectivity().face_map().dom().len() < usize::MAX / 8,
            old(self).connectivity().face_map().dom().len() + other.connectivity().face_map().dom().len() < usize::MAX / 4,
            old(self).connectivity().vertex_map().dom().len() + 3 * other.connectivity().face_map().dom().len() < usize::MAX / 4,
        ensures
            final(self).wf(),
            ({
                let check = stitch_check(old(self).connectivity(), other.connectivity(), stitches@, 0, 0, None);
                &&& r is Ok <==> check is Fine
                &&& r matches Err(e) ==> (check is NonManifold && e is MergeWillCreateNonManifoldMesh) || (check is Unoriented
                    && e is CannotCheckOrientationOfMesh)
                &&& r is Err ==> *final(self) == *old(self)
            }),
            r is Ok ==> final(self).connectivity().twins_complete() && final(self).connectivity().next_closed(),
            r is Ok ==> final(self).connectivity().face_map().dom().len() == old(self).connectivity().face_map().dom().len()
                + other.connectivity().face_map().dom().len(),
            r is Ok ==> forall|k: usize|
                #[trigger] old(self).connectivity().vertex_map().dom().contains(k) ==> final(self).connectivity().vertex_map().dom().contains(k),
            r is Ok ==> exists|vm: Map<VertexID, VertexID>|
                vertex_map_ok(vm, old(self).connectivity(), stitches@, *other, *final(self)) && mapped_vertices(
                    vm,
                    other.connectivity(),
                    stitches@,
                ) && faces_added(vm, other.connectivity(), old(self).connectivity(), final(self).connectivity()),
            r is Ok ==> halfedges_kept(
                old(self).connectivity(),
                stitches@,
                stitch_check(old(self).connectivity(), other.connectivity(), stitches@, 0, 0, None)->flip,
                final(self).connectivity(),
            ),
            r is Ok ==> stitched_edges_joined(old(self).connectivity(), stitches@, final(self).connectivity()),
            r is Ok ==> halfedges_accounted(old(self).connectivity(), stitches@, final(self).connectivity()),
            r is Ok && stitched_on_faces(other.connectivity(), stitches@) ==> final(self).connectivity().is_valid(),
    {
        let ghost c0 = self.connectivity();
        let ghost o = other.connectivity();
        let ghost s = stitches@;
        let (halfedges_to_remove, is_same_orientation) = match self.check_stitches(other, stitches) {
            Ok(x) => x,
            Err(e) => {
                return Err(e);
            },
        };
        proof {
            lemma_valid_twinnable(c0);
        }
        match is_same_orientation {
            Some(false) => {
                self.flip_orientation();
                proof {
                    let c1 = self.connectivity();
                    assert forall|x: HalfEdgeID| #[trigger] c1.has_halfedge(x) && c1.halfedge_at(x).face is None implies c1.halfedge_at(x).next is None by {
                        assert(HalfEdgeID::spec_new(x.index()) == x);
                        assert(c1.halfedge_at(x) == reversed_halfedge(c0, x));
                    }
                    lemma_valid_twinnable(c1);
                }
            },
            _ => {},
        }
        let ghost c1 = self.connectivity();
        proof {
            assert(c1.halfedge_map().dom() =~= c0.halfedge_map().dom());
            assert(c1.vertex_map().dom() =~= c0.vertex_map().dom());
            assert(c1.face_map() == c0.face_map());
            // the sides to remove still bound no face, and their twins still do
            assert forall|k: int| 0 <= k < halfedges_to_remove@.len() implies {
                let h = #[trigger] halfedges_to_remove@[k];
                &&& c1.has_halfedge(h)
                &&& c1.halfedge_at(h).face is None
                &&& c1.halfedge_at(h).twin is Some
                &&& c1.face_of(c1.halfedge_at(h).twin) is Some
            } by {
                let h = halfedges_to_remove@[k];
                assert(halfedges_to_remove@.contains(h));
                let (a, b) = choose|a: int, b: int|
                    0 <= a < s.len() && 0 <= b < s.len() && (a < s.len() || (a == s.len() && b < 0)) && #[trigger] c0.connection(
                        s[a].1,
                        s[b].1,
                    ) is Some && h == faceless_side(c0, c0.connection(s[a].1, s[b].1)->Some_0);
                let e = c0.connection(s[a].1, s[b].1)->Some_0;
                assert(!edge_alone(c0, e));
                lemma_fine_one_sided(c0, o, s, 0, 0, None, a, b);
                assert(c0.has_vertex(s[a].1));
                c0.lemma_connection(s[a].1, s[b].1);
                c0.lemma_valid_halfedge(e);
                c0.lemma_valid_halfedge(c0.halfedge_at(e).twin->Some_0);
                if c1 != c0 {
                    assert(HalfEdgeID::spec_new(h.index()) == h);
                    assert(c1.halfedge_at(h) == reversed_halfedge(c0, h));
                    let t = c0.halfedge_at(h).twin->Some_0;
                    assert(HalfEdgeID::spec_new(t.index()) == t);
                    assert(c1.halfedge_at(t) == reversed_halfedge(c0, t));
                }
            }
        }
        let ghost flip = is_same_orientation == Some(false);
        proof {
            assert(sides_faceless(c1, halfedges_to_remove@));
            if flip {
                assert(c1.state() == reversed(c0));
            } else {
                assert(c1 == c0);
            }
            assert forall|x: HalfEdgeID| #[trigger] c1.has_halfedge(x) && c1.halfedge_at(x).twin is None implies c1.halfedge_at(
                x,
            ).face is Some by {
                c1.lemma_valid_halfedge(x);
            }
            assert(sides_removed(c1, halfedges_to_remove@, 0, c1));
        }
        let mut k: usize = 0;
        while k < halfedges_to_remove.len()
            invariant
                self.wf(),
                k <= halfedges_to_remove@.len(),
                halfedges_to_remove@.no_duplicates(),
                c1.is_valid(),
                sides_faceless(c1, halfedges_to_remove@),
                sides_removed(c1, halfedges_to_remove@, k as int, self.connectivity()),
                twinnable(self.connectivity()),
                forall|m: int| k <= m < halfedges_to_remove@.len() ==> {
                    let h = #[trigger] halfedges_to_remove@[m];
                    &&& self.connectivity().has_halfedge(h)
                    &&& self.connectivity().halfedge_at(h).face is None
                    &&& self.connectivity().halfedge_at(h).twin is Some
                    &&& self.connectivity().face_of(self.connectivity().halfedge_at(h).twin) is Some
                },
                self.connectivity().vertex_map() == c1.vertex_map(),
                self.connectivity().face_map() == c1.face_map(),
                self.connectivity().halfedge_map().dom().len() <= c1.halfedge_map().dom().len(),
            decreases halfedges_to_remove@.len() - k,
        {
            let h = halfedges_to_remove[k];
            let ghost before = self.connectivity();
            proof {
                let t = before.halfedge_at(h).twin->Some_0;
                assert(before.twin_ok(h));
            }
            self.connectivity_info_mut().remove_halfedge(&h);
            proof {
                let after = self.connectivity();
                lemma_removal_twinnable(before, after, h);
                lemma_side_removed(c1, halfedges_to_remove@, k as int, before, after);
                let t = before.halfedge_at(h).twin->Some_0;
                before.lemma_finite();
                assert(after.halfedge_map().dom() =~= before.halfedge_map().dom().remove(h.index()));
                assert forall|m: int| k + 1 <= m < halfedges_to_remove@.len() implies {
                    let g = #[trigger] halfedges_to_remove@[m];
                    &&& after.has_halfedge(g)
                    &&& after.halfedge_at(g).face is None
                    &&& after.halfedge_at(g).twin is Some
                    &&& after.face_of(after.halfedge_at(g).twin) is Some
                } by {
                    let g = halfedges_to_remove@[m];
                    assert(g != h);
                    assert(g != t);
                    assert(g.index() != h.index() && g.index() != t.index());
                    let u = before.halfedge_at(g).twin->Some_0;
                    assert(before.twin_ok(g));
                    assert(u != h);
                    if u == t {
                        assert(before.twin_ok(t));
                    }
                    assert(u.index() != h.index() && u.index() != t.index());
                }
            }
            k = k + 1;
        }
        let ghost cr = self.connectivity();
        proof {
            assert forall|x: HalfEdgeID| #[trigger] cr.has_halfedge(x) implies (cr.halfedge_at(x).face matches Some(g)
                ==> cr.has_face(g)) by {
                c1.lemma_valid_halfedge(x);
            }
            assert forall|a: int| 0 <= a < s.len() implies cr.has_vertex(#[trigger] s[a].1) by {
                assert(c0.has_vertex(s[a].1));
            }
        }
        let vm = self.add_faces_of(other, stitches);
        let ghost c2 = self.connectivity();
        self.create_twin_connectivity();
        proof {
            let cf = self.connectivity();
            let rem = halfedges_to_remove@;
            assert(cr.vertex_map().dom() =~= c0.vertex_map().dom());
            assert(cr.face_map() == c0.face_map());
            // every halfedge without a twin before the twins were found bounds a face
            assert forall|x: HalfEdgeID| #[trigger] c2.has_halfedge(x) && c2.halfedge_at(x).twin is None implies c2.halfedge_at(
                x,
            ).face is Some by {
                if cr.has_halfedge(x) {
                    assert(c2.halfedge_at(x) == cr.halfedge_at(x));
                }
            }
            // the vertices and faces of the other mesh
            assert(cr.vertex_map().dom() == c0.vertex_map().dom());
            assert(vertex_map_ok(vm@, c0, s, *other, *self));
            lemma_vertex_map_keeps(vm@, c0, s, *other, *self);
            assert forall|g: FaceID| #[trigger] c2.has_face(g) && !cr.has_face(g) implies cf.face_corners(g) == c2.face_corners(g) by {
                ConnectivityInfo::lemma_chain_corners_kept(c2, cf, g);
            }
            assert(cf.face_map() == c2.face_map());
            assert forall|g: FaceID| #[trigger] c0.has_face(g) implies cf.has_face(g) by {
                assert(cr.has_face(g));
                assert(c2.has_face(g));
            }
            assert(faces_added(vm@, o, c0, cf)) by {
                reveal(faces_added);
                assert forall|f: FaceID| #[trigger] o.has_face(f) implies exists|g: FaceID|
                    cf.has_face(g) && !c0.has_face(g) && #[trigger] cf.face_corners(g) == mapped_corners(vm@, o, f) by {
                    let g = choose|g: FaceID|
                        c2.has_face(g) && !cr.has_face(g) && #[trigger] c2.face_corners(g) == mapped_corners(vm@, o, f);
                    assert(cf.face_corners(g) == c2.face_corners(g));
                    assert(cf.has_face(g) && !c0.has_face(g));
                }
                assert forall|g: FaceID| #[trigger] cf.has_face(g) && !c0.has_face(g) implies exists|f: FaceID|
                    o.has_face(f) && cf.face_corners(g) == #[trigger] mapped_corners(vm@, o, f) by {
                    assert(c2.has_face(g) && !cr.has_face(g));
                    let f = choose|f: FaceID| o.has_face(f) && c2.face_corners(g) == #[trigger] mapped_corners(vm@, o, f);
                    assert(cf.face_corners(g) == c2.face_corners(g));
                }
            }
            assert(halfedges_kept(c0, s, flip, cf)) by {
                reveal(halfedges_kept);
                // the halfedges of this mesh that stay
                assert forall|x: HalfEdgeID| #[trigger] c0.has_halfedge(x) && !stitched_side(c0, s, s.len() as int, 0, x) implies {
                    &&& cf.has_halfedge(x)
                    &&& cf.halfedge_at(x).vertex == base_halfedge(c0, flip, x).vertex
                    &&& cf.halfedge_at(x).next == base_halfedge(c0, flip, x).next
                    &&& cf.halfedge_at(x).face == base_halfedge(c0, flip, x).face
                    &&& c0.halfedge_at(x).twin matches Some(t) ==> (!stitched_side(c0, s, s.len() as int, 0, t)
                        ==> cf.halfedge_at(x).twin == Some(t))
                } by {
                    assert(!rem.contains(x));
                    assert(c1.has_halfedge(x));
                    if flip {
                        assert(HalfEdgeID::spec_new(x.index()) == x);
                        assert(c1.halfedge_at(x) == reversed_halfedge(c0, x));
                    }
                    assert(cr.has_halfedge(x));
                    ConnectivityInfo::lemma_kept_ends(c2, cf, x);
                    if c0.halfedge_at(x).twin is Some {
                        let t = c0.halfedge_at(x).twin->Some_0;
                        if !stitched_side(c0, s, s.len() as int, 0, t) {
                            assert(!rem.contains(t));
                            assert(cr.halfedge_at(x).twin == Some(t));
                        }
                    }
                }
            }
            // the stitched edges are joined
            assert(stitched_edges_joined(c0, s, cf)) by {
                reveal(stitched_edges_joined);
                assert forall|h: HalfEdgeID, g: HalfEdgeID|
                    #[trigger] cf.runs_opposite(h, g) && cf.has_halfedge(h) && cf.has_halfedge(g) && h != g && joinable(c0, s, cf, h)
                        && joinable(c0, s, cf, g) && cf.face_of(cf.halfedge_at(h).twin) is None implies cf.face_of(
                        cf.halfedge_at(g).twin,
                    ) is Some by {
                    lemma_joinable_twinless(c0, c1, cr, c2, cf, s, rem, flip, h);
                    lemma_joinable_twinless(c0, c1, cr, c2, cf, s, rem, flip, g);
                    ConnectivityInfo::lemma_pairs_join(c2, cf, h, g);
                }
            }
            assert(halfedges_accounted(c0, s, cf)) by {
                reveal(halfedges_accounted);
                assert forall|x: HalfEdgeID| #[trigger] cf.has_halfedge(x) implies {
                    ||| c0.has_halfedge(x) && !stitched_side(c0, s, s.len() as int, 0, x)
                    ||| cf.halfedge_at(x).face matches Some(g) && !c0.has_face(g)
                    ||| cf.halfedge_at(x).face is None && cf.face_of(cf.halfedge_at(x).twin) is Some
                } by {
                    if c2.has_halfedge(x) {
                        ConnectivityInfo::lemma_kept_ends(c2, cf, x);
                        if cr.has_halfedge(x) {
                            assert(c1.has_halfedge(x));
                            assert(!rem.contains(x)) by {
                                if rem.contains(x) {
                                    let m = choose|m: int| 0 <= m < rem.len() && rem[m] == x;
                                    assert(!cr.has_halfedge(rem[m]));
                                }
                            }
                        }
                    } else {
                        let t = cf.halfedge_at(x).twin->Some_0;
                        assert(c2.has_halfedge(t));
                        assert(cf.twin_ok(x));
                        if c2.halfedge_at(t).twin is Some {
                            assert(c2.twin_ok(t));
                        }
                        ConnectivityInfo::lemma_kept_ends(c2, cf, t);
                    }
                }
            }
            if stitched_on_faces(o, s) {
                lemma_merge_valid(c0, c1, cr, c2, cf, o, s, rem, vm@, flip, *other, *self);
            }
        }
        Ok(())
    }
}

impl<P: Copy> DynamicMesh<P> {
    /// Adds the faces of `other` to this mesh on copies of its vertices, and finds the missing
    /// twins: a merge with no stitches.
    pub fn append(&mut self, other: &DynamicMesh<P>)
        requires
            old(self).wf(),
            old(self).connectivity().is_valid(),
            boundary_open(old(self).connectivity()),
            other.wf(),
            other.connectivity().is_valid(),
            forall|k: usize| #[trigger] other.connectivity().vertex_map().dom().contains(k) ==> other.position_map().dom().contains(k),
            old(self).connectivity().halfedge_map().dom().len() + 3 * other.connectivity().face_map().dom().len() < usize::MAX / 8,
            old(self).connectivity().face_map().dom().len() + other.connectivity().face_map().dom().len() < usize::MAX / 4,
            old(self).connectivity().vertex_map().dom().len() + 3 * other.connectivity().face_map().dom().len() < usize::MAX / 4,
        ensures
            final(self).wf(),
            final(self).connectivity().twins_complete() && final(self).connectivity().next_closed(),
            final(self).connectivity().face_map().dom().len() == old(self).connectivity().face_map().dom().len()
                + other.connectivity().face_map().dom().len(),
            forall|k: usize|
                #[trigger] old(self).connectivity().vertex_map().dom().contains(k) ==> final(self).connectivity().vertex_map().dom().contains(k),
            exists|vm: Map<VertexID, VertexID>|
                vertex_map_ok(vm, old(self).connectivity(), Seq::empty(), *other, *final(self)) && mapped_vertices(
                    vm,
                    other.connectivity(),
                    Seq::empty(),
                ) && faces_added(
                    vm,
                    other.connectivity(),
                    old(self).connectivity(),
                    final(self).connectivity(),
                ),
            halfedges_kept(old(self).connectivity(), Seq::empty(), false, final(self).connectivity()),
            halfedges_accounted(old(self).connectivity(), Seq::empty(), final(self).connectivity()),
            final(self).connectivity().is_valid(),
    {
        let stitches: Vec<(VertexID, VertexID)> = Vec::new();
        proof {
            assert(stitch_check(self.connectivity(), other.connectivity(), stitches@, 0, 0, None) == (StitchCheck::Fine {
                flip: false,
            }));
            assert(stitches@ =~= Seq::<(VertexID, VertexID)>::empty());
            assert(stitched_on_faces(other.connectivity(), stitches@));
        }
        let r = self.merge_with(other, &stitches);
        assert(r is Ok);
    }
}

/// Merges `mesh2` into `mesh1` (see `DynamicMesh::merge_with`), joining vertex
/// `stitches[k].0` of `mesh2` to vertex `stitches[k].1` of `mesh1`, and gives the merged mesh.
pub fn merge<P: Copy>(mesh1: DynamicMesh<P>, mesh2: &DynamicMesh<P>, stitches: &Vec<(VertexID, VertexID)>) -> (r: Result<DynamicMesh<P>, Error>)
    requires
        mesh1.wf(),
        mesh1.connectivity().is_valid(),
        stitch_check(mesh1.connectivity(), mesh2.connectivity(), stitches@, 0, 0, None) is Fine ==> boundary_open(mesh1.connectivity()),
        mesh2.wf(),
        mesh2.connectivity().is_valid(),
        stitches_ok(mesh1.connectivity(), stitches@),
        orientation_vertex_ok(mesh1.connectivity(), mesh2.connectivity(), stitches@, 0, 0),
        stitch_check(mesh1.connectivity(), mesh2.connectivity(), stitches@, 0, 0, None) is Fine ==> forall|a: int, b: int|
            0 <= a < stitches@.len() && 0 <= b < stitches@.len() && #[trigger] mesh1.connectivity().connection(
                stitches@[a].1,
                stitches@[b].1,
            ) is Some ==> !edge_alone(mesh1.connectivity(), mesh1.connectivity().connection(stitches@[a].1, stitches@[b].1)->Some_0),
        stitch_check(mesh1.connectivity(), mesh2.connectivity(), stitches@, 0, 0, None) == (StitchCheck::Fine { flip: true })
            ==> forall|v: VertexID| #[trigger] mesh1.connectivity().has_vertex(v) ==> mesh1.connectivity().vertex_at(v).halfedge is Some,
        forall|k: usize| #[trigger] mesh2.connectivity().vertex_map().dom().contains(k) ==> mesh2.position_map().dom().contains(k),
        mesh1.connectivity().halfedge_map().dom().len() + 3 * mesh2.connectivity().face_map().dom().len() < usize::MAX / 8,
        mesh1.connectivity().face_map().dom().len() + mesh2.connectivity().face_map().dom().len() < usize::MAX / 4,
        mesh1.connectivity().vertex_map().dom().len() + 3 * mesh2.connectivity().face_map().dom().len() < usize::MAX / 4,
    ensures
        ({
            let check = stitch_check(mesh1.connectivity(), mesh2.connectivity(), stitches@, 0, 0, None);
            &&& r is Ok <==> check is Fine
            &&& r matches Err(e) ==> (check is NonManifold && e is MergeWillCreateNonManifoldMesh) || (check is Unoriented
                && e is CannotCheckOrientationOfMesh)
        }),
        r matches Ok(m) ==> {
            &&& m.wf()
            &&& m.connectivity().twins_complete()
            &&& m.connectivity().next_closed()
            &&& m.connectivity().face_map().dom().len() == mesh1.connectivity().face_map().dom().len()
                + mesh2.connectivity().face_map().dom().len()
            &&& forall|k: usize| #[trigger] mesh1.connectivity().vertex_map().dom().contains(k) ==> m.connectivity().vertex_map().dom().contains(k)
            &&& exists|vm: Map<VertexID, VertexID>|
                vertex_map_ok(vm, mesh1.connectivity(), stitches@, *mesh2, m) && mapped_vertices(vm, mesh2.connectivity(), stitches@)
                    && faces_added(
                    vm,
                    mesh2.connectivity(),
                    mesh1.connectivity(),
                    m.connectivity(),
                )
            &&& halfedges_kept(
                mesh1.connectivity(),
                stitches@,
                stitch_check(mesh1.connectivity(), mesh2.connectivity(), stitches@, 0, 0, None)->flip,
                m.connectivity(),
            )
            &&& stitched_edges_joined(mesh1.connectivity(), stitches@, m.connectivity())
            &&& halfedges_accounted(mesh1.connectivity(), stitches@, m.connectivity())
            &&& stitched_on_faces(mesh2.connectivity(), stitches@) ==> m.connectivity().is_valid()
        },
{
    let mut mesh = mesh1;
    let ghost joined_on_faces = stitched_on_faces(mesh2.connectivity(), stitches@);
    match mesh.merge_with(mesh2, stitches) {
        Ok(()) => {
            proof {
                if joined_on_faces {
                    assert(mesh.connectivity().is_valid());
                }
            }
            Ok(mesh)
        },
        Err(e) => Err(e),
    }
}

} // verus!
