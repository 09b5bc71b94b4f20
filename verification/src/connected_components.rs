use vstd::prelude::*;
use crate::ids::{HalfEdgeID, FaceID, group_id_ext};
use crate::dynamic_mesh::connectivity_info::ConnectivityInfo;
use crate::dynamic_mesh::dynamic_mesh::DynamicMesh;

verus! {

broadcast use group_id_ext;

/// Whether walking around a face reaches, at halfedge `x` that is not one of `limit`, a twin
/// that bounds face `g`.
pub open spec fn crossing(c: ConnectivityInfo, limit: Seq<HalfEdgeID>, x: Option<HalfEdgeID>, g: FaceID) -> bool {
    &&& x is Some
    &&& !limit.contains(x->Some_0)
    &&& c.face_of(c.twin_of(x)) == Some(g)
}

/// Whether face `g` lies across a halfedge of face `f` that is not one of `limit`.
pub open spec fn crosses(c: ConnectivityInfo, limit: Seq<HalfEdgeID>, f: FaceID, g: FaceID) -> bool {
    let start = c.face_at(f).halfedge->Some_0;
    exists|i: nat| i < c.face_walk_len(start) && #[trigger] crossing(c, limit, c.next_iter(Some(start), i), g)
}

/// Whether `path` is a walk over faces from `from` to `to` that crosses, from each face to
/// the next, a halfedge that is not one of `limit`.
pub open spec fn is_path(c: ConnectivityInfo, limit: Seq<HalfEdgeID>, path: Seq<FaceID>, from: FaceID, to: FaceID) -> bool {
    &&& path.len() >= 1
    &&& path[0] == from
    &&& path.last() == to
    &&& forall|i: int| 0 <= i < path.len() - 1 ==> #[trigger] crosses(c, limit, path[i], path[i + 1])
}

/// Whether `faces` is the component of face `start` bounded by `limit`: it holds `start`
/// once, holds each face only once, holds every face that lies across a halfedge of one of
/// its faces that is not one of `limit`, and holds only faces reached from `start` so.
pub open spec fn is_component(c: ConnectivityInfo, limit: Seq<HalfEdgeID>, faces: Seq<FaceID>, start: FaceID) -> bool {
    &&& faces.no_duplicates()
    &&& faces.len() > 0 && faces[0] == start
    &&& forall|f: FaceID, g: FaceID| #[trigger] faces.contains(f) && #[trigger] crosses(c, limit, f, g) ==> faces.contains(g)
    &&& forall|g: FaceID| #[trigger] faces.contains(g) ==> exists|path: Seq<FaceID>| #[trigger] is_path(c, limit, path, start, g)
}

/// A walk to face `f` followed by a crossing from `f` to `g` is a walk to `g`.
pub proof fn lemma_path_step(c: ConnectivityInfo, limit: Seq<HalfEdgeID>, path: Seq<FaceID>, from: FaceID, f: FaceID, g: FaceID)
    requires
        is_path(c, limit, path, from, f),
        crosses(c, limit, f, g),
    ensures
        is_path(c, limit, path.push(g), from, g),
{
    let q = path.push(g);
    assert forall|i: int| 0 <= i < q.len() - 1 implies #[trigger] crosses(c, limit, q[i], q[i + 1]) by {
        if i < path.len() - 1 {
            assert(q[i] == path[i] && q[i + 1] == path[i + 1]);
        } else {
            assert(q[i] == f && q[i + 1] == g);
        }
    }
}

/// Whether every halfedge that bounds a face is met walking around the face from the face's
/// own halfedge.
pub open spec fn faces_single(c: ConnectivityInfo) -> bool {
    forall|h: HalfEdgeID|
        #[trigger] c.has_halfedge(h) && c.halfedge_at(h).face is Some ==> {
            let start = c.face_at(c.halfedge_at(h).face->Some_0).halfedge->Some_0;
            exists|i: nat| i < c.face_walk_len(start) && #[trigger] c.next_iter(Some(start), i) == Some(h)
        }
}

/// In a valid mesh, walking around a face from its halfedge stays on stored halfedges of the
/// face.
proof fn lemma_walk_on_face(c: ConnectivityInfo, f: FaceID, i: nat)
    requires
        c.is_valid(),
        c.has_face(f),
    ensures
        c.next_iter(Some(c.face_at(f).halfedge->Some_0), i) matches Some(x) && c.has_halfedge(x) && c.face_of(Some(x))
            == Some(f),
    decreases i,
{
    let start = c.face_at(f).halfedge->Some_0;
    c.lemma_valid_face(f);
    if i > 0 {
        lemma_walk_on_face(c, f, (i - 1) as nat);
        let x = c.next_iter(Some(start), (i - 1) as nat)->Some_0;
        c.lemma_walk_returns(x);
        c.lemma_valid_halfedge(x);
    }
}

/// In a valid mesh, a face that lies across a halfedge of some face is stored.
proof fn lemma_crossed_face_stored(c: ConnectivityInfo, f: FaceID, g: FaceID)
    requires
        c.is_valid(),
        crosses(c, Seq::empty(), f, g),
    ensures
        c.has_face(g),
{
    let start = c.face_at(f).halfedge->Some_0;
    let i = choose|i: nat| i < c.face_walk_len(start) && #[trigger] crossing(c, Seq::empty(), c.next_iter(Some(start), i), g);
    let x = c.next_iter(Some(start), i)->Some_0;
    assert(c.has_halfedge(x));
    c.lemma_valid_halfedge(x);
    let t = c.halfedge_at(x).twin->Some_0;
    c.lemma_valid_halfedge(t);
}

/// Where every halfedge of a face is met walking around the face, a face across a halfedge
/// of another has that other across one of its own halfedges.
proof fn lemma_crosses_symmetric(c: ConnectivityInfo, f: FaceID, g: FaceID)
    requires
        c.is_valid(),
        faces_single(c),
        c.has_face(f),
        crosses(c, Seq::empty(), f, g),
    ensures
        crosses(c, Seq::empty(), g, f),
{
    let start = c.face_at(f).halfedge->Some_0;
    let i = choose|i: nat| i < c.face_walk_len(start) && #[trigger] crossing(c, Seq::empty(), c.next_iter(Some(start), i), g);
    lemma_walk_on_face(c, f, i);
    let x = c.next_iter(Some(start), i)->Some_0;
    c.lemma_valid_halfedge(x);
    let t = c.halfedge_at(x).twin->Some_0;
    c.lemma_valid_halfedge(t);
    assert(c.has_halfedge(t) && c.halfedge_at(t).face == Some(g));
    let gstart = c.face_at(g).halfedge->Some_0;
    let j = choose|j: nat| j < c.face_walk_len(gstart) && #[trigger] c.next_iter(Some(gstart), j) == Some(t);
    assert(crossing(c, Seq::empty(), c.next_iter(Some(gstart), j), f));
}

/// Where every halfedge of a face is met walking around the face, a list of faces that holds
/// every face across a halfedge of one of its faces, and holds the end of a walk over faces,
/// holds its start.
proof fn lemma_path_back(c: ConnectivityInfo, comp: Seq<FaceID>, path: Seq<FaceID>, from: FaceID, to: FaceID)
    requires
        c.is_valid(),
        faces_single(c),
        c.has_face(from),
        is_path(c, Seq::empty(), path, from, to),
        forall|f: FaceID, g: FaceID| #[trigger] comp.contains(f) && #[trigger] crosses(c, Seq::empty(), f, g) ==> comp.contains(g),
        comp.contains(to),
    ensures
        comp.contains(from),
    decreases path.len(),
{
    if path.len() > 1 {
        let n = path.len() as int;
        let k = n - 2;
        let prev = path[k];
        assert(crosses(c, Seq::empty(), path[k], path[k + 1]));
        assert(path[k + 1] == to);
        if n > 2 {
            let k0 = n - 3;
            assert(crosses(c, Seq::empty(), path[k0], path[k0 + 1]));
            lemma_crossed_face_stored(c, path[k0], prev);
        }
        lemma_crosses_symmetric(c, prev, to);
        let rest = path.drop_last();
        assert forall|i: int| 0 <= i < rest.len() - 1 implies #[trigger] crosses(c, Seq::empty(), rest[i], rest[i + 1]) by {
            assert(crosses(c, Seq::empty(), path[i], path[i + 1]));
        }
        assert(is_path(c, Seq::empty(), rest, from, prev));
        lemma_path_back(c, comp, rest, from, prev);
    }
}

/// In a valid mesh whose every face is one triangle, every halfedge of a face is met walking
/// around the face.
proof fn lemma_triangles_single(c: ConnectivityInfo)
    requires
        c.wf(),
        c.is_valid(),
        c.faces_are_triangles(),
    ensures
        faces_single(c),
{
    c.lemma_finite();
    let dom = c.halfedge_map().dom();
    assert forall|h: HalfEdgeID| #[trigger] c.has_halfedge(h) && c.halfedge_at(h).face is Some implies {
        let start = c.face_at(c.halfedge_at(h).face->Some_0).halfedge->Some_0;
        exists|i: nat| i < c.face_walk_len(start) && #[trigger] c.next_iter(Some(start), i) == Some(h)
    } by {
        let f = c.halfedge_at(h).face->Some_0;
        let start = c.face_at(f).halfedge->Some_0;
        let n = c.halfedge_at(start).next->Some_0;
        let m = c.halfedge_at(n).next->Some_0;
        assert(c.next_iter(Some(start), 0) == Some(start));
        assert(c.next_iter(Some(start), 1) == Some(n));
        assert(c.next_iter(Some(start), 2) == Some(m));
        assert(c.next_iter(Some(start), 3) == Some(start));
        assert(start.index() != n.index()) by {
            assert(!start.spec_is_null() && !n.spec_is_null());
        }
        let pair = Set::<usize>::empty().insert(start.index()).insert(n.index());
        assert(pair.len() == 2);
        assert(pair.subset_of(dom));
        vstd::set_lib::lemma_len_subset(pair, dom);
        assert(!c.face_walk_stops(start, 1));
        assert(!c.face_walk_stops(start, 2));
        assert(c.face_walk_stops(start, 3));
        assert(forall|j: nat| 1 <= j < 3 ==> !c.face_walk_stops(start, j)) by {
            assert forall|j: nat| 1 <= j < 3 implies !c.face_walk_stops(start, j) by {
                if j == 1 {
                } else {
                    assert(j == 2);
                }
            }
        }
        let k = c.face_walk_len(start);
        assert(c.face_walk_stops(start, k) && forall|j: nat| 1 <= j < k ==> !c.face_walk_stops(start, j));
        if k != 3 {
            if k < 3 {
                assert(k >= 1);
                assert(!c.face_walk_stops(start, k));
            } else {
                assert(!c.face_walk_stops(start, 3));
            }
        }
        if h == start {
            assert(c.next_iter(Some(start), 0) == Some(h));
        } else if h == n {
            assert(c.next_iter(Some(start), 1) == Some(h));
        } else {
            assert(c.next_iter(Some(start), 2) == Some(h));
        }
    }
}

/// In a valid mesh whose every face is one triangle, components of the mesh, no one of which
/// holds the first face of a later one, share no face.
pub proof fn lemma_components_disjoint(c: ConnectivityInfo, comps: Seq<Seq<FaceID>>)
    requires
        c.wf(),
        c.is_valid(),
        c.faces_are_triangles(),
        forall|i: int| 0 <= i < comps.len() ==> #[trigger] is_component(c, Seq::<HalfEdgeID>::empty(), comps[i], comps[i][0]),
        forall|i: int| 0 <= i < comps.len() ==> c.has_face(#[trigger] comps[i][0]),
        forall|i: int, j: int| 0 <= j < i < comps.len() ==> !(#[trigger] comps[j].contains(#[trigger] comps[i][0])),
    ensures
        forall|i: int, j: int, f: FaceID|
            0 <= i < comps.len() && 0 <= j < comps.len() && i != j && #[trigger] comps[i].contains(f) ==> !#[trigger] comps[j].contains(f),
{
    lemma_triangles_single(c);
    assert forall|i: int, j: int, f: FaceID|
        0 <= i < comps.len() && 0 <= j < comps.len() && i != j && #[trigger] comps[i].contains(f) implies !#[trigger] comps[j].contains(f) by {
        if comps[j].contains(f) {
            let (hi, lo) = if i > j { (i, j) } else { (j, i) };
            assert(is_component(c, Seq::<HalfEdgeID>::empty(), comps[hi], comps[hi][0]));
            assert(is_component(c, Seq::<HalfEdgeID>::empty(), comps[lo], comps[lo][0]));
            let path = choose|path: Seq<FaceID>| #[trigger] is_path(c, Seq::<HalfEdgeID>::empty(), path, comps[hi][0], f);
            lemma_path_back(c, comps[lo], path, comps[hi][0], f);
            assert(comps[lo].contains(comps[hi][0]));
        }
    }
}

/// A list of different faces of a mesh is no longer than the mesh has faces.
proof fn lemma_faces_fewer(c: ConnectivityInfo, s: Seq<FaceID>)
    requires
        c.wf(),
        s.no_duplicates(),
        forall|i: int| 0 <= i < s.len() ==> #[trigger] c.has_face(s[i]),
    ensures
        s.len() <= c.face_map().dom().len(),
    decreases s.len(),
{
    c.lemma_finite();
    let m = s.map_values(|f: FaceID| f.index());
    assert forall|i: int, j: int| 0 <= i < j < m.len() implies m[i] != m[j] by {
        assert(c.has_face(s[i]) && c.has_face(s[j]));
        assert(s[i] != s[j]);
    }
    assert(m.no_duplicates());
    m.unique_seq_to_set();
    assert forall|k: usize| #[trigger] m.to_set().contains(k) implies c.face_map().dom().contains(k) by {
        let i = choose|i: int| 0 <= i < m.len() && m[i] == k;
        assert(c.has_face(s[i]));
    }
    vstd::set_lib::lemma_len_subset(m.to_set(), c.face_map().dom());
}

/// Whether `hs` holds halfedge `h`.
pub(crate) fn contains_halfedge(hs: &Vec<HalfEdgeID>, h: &HalfEdgeID) -> (r: bool)
    ensures
        r == hs@.contains(*h),
{
    let mut i: usize = 0;
    while i < hs.len()
        invariant
            i <= hs@.len(),
            forall|j: int| 0 <= j < i ==> hs@[j] != *h,
        decreases hs@.len() - i,
    {
        if hs[i] == *h {
            assert(hs@[i as int] == *h);
            return true;
        }
        i = i + 1;
    }
    false
}

/// Whether `fs` holds face `f`.
pub(crate) fn contains_face(fs: &Vec<FaceID>, f: &FaceID) -> (r: bool)
    ensures
        r == fs@.contains(*f),
{
    let mut i: usize = 0;
    while i < fs.len()
        invariant
            i <= fs@.len(),
            forall|j: int| 0 <= j < i ==> fs@[j] != *f,
        decreases fs@.len() - i,
    {
        if fs[i] == *f {
            assert(fs@[i as int] == *f);
            return true;
        }
        i = i + 1;
    }
    false
}

/// The faces reached from `face_id` by crossing halfedges that are not one of `limit`, with
/// `face_id` first.
#[verifier::rlimit(60)]
pub fn connected_component_with_limit<P: Copy>(mesh: &DynamicMesh<P>, face_id: &FaceID, limit: &Vec<HalfEdgeID>) -> (r: Vec<FaceID>)
    requires
        mesh.wf(),
        mesh.connectivity().is_valid(),
        mesh.connectivity().has_face(*face_id),
    ensures
        is_component(mesh.connectivity(), limit@, r@, *face_id),
        forall|i: int| 0 <= i < r@.len() ==> #[trigger] mesh.connectivity().has_face(r@[i]),
{
    let ghost c = mesh.connectivity();
    let ghost nf = c.face_map().dom().len();
    let mut component: Vec<FaceID> = Vec::new();
    component.push(*face_id);
    let mut to_be_tested: Vec<FaceID> = Vec::new();
    to_be_tested.push(*face_id);
    proof {
        assert(is_path(c, limit@, seq![*face_id], *face_id, *face_id));
        assert(component@[0] == *face_id);
        lemma_faces_fewer(c, component@);
    }
    while to_be_tested.len() > 0
        invariant
            mesh.wf(),
            c == mesh.connectivity(),
            c.is_valid(),
            nf == c.face_map().dom().len(),
            component@.no_duplicates(),
            component@.len() > 0 && component@[0] == *face_id,
            component@.len() <= nf,
            forall|i: int| 0 <= i < component@.len() ==> #[trigger] c.has_face(component@[i]),
            forall|f: FaceID| #[trigger] to_be_tested@.contains(f) ==> component@.contains(f),
            forall|f: FaceID, g: FaceID|
                #[trigger] component@.contains(f) && !to_be_tested@.contains(f) && #[trigger] crosses(c, limit@, f, g)
                    ==> component@.contains(g),
            forall|g: FaceID| #[trigger] component@.contains(g) ==> exists|path: Seq<FaceID>| #[trigger] is_path(c, limit@, path, *face_id, g),
        decreases nf - component@.len(), to_be_tested@.len(),
    {
        let ghost tbt0 = to_be_tested@;
        let test_face = to_be_tested.pop().unwrap();
        let ghost old_component = component@;
        let ghost tested = to_be_tested@;
        proof {
            assert(tbt0[tbt0.len() - 1] == test_face);
            assert(tbt0.contains(test_face));
            assert forall|f: FaceID| #[trigger] tested.contains(f) implies tbt0.contains(f) by {
                let k = choose|k: int| 0 <= k < tested.len() && tested[k] == f;
                assert(tbt0[k] == f);
            }
            assert(tbt0 == tested.push(test_face));
            assert forall|f: FaceID| #[trigger] tbt0.contains(f) implies tested.contains(f) || f == test_face by {
                let k = choose|k: int| 0 <= k < tbt0.len() && tbt0[k] == f;
                if k < tested.len() {
                    assert(tested[k] == f);
                }
            }
            let i = choose|i: int| 0 <= i < old_component.len() && old_component[i] == test_face;
            assert(c.has_face(old_component[i]));
            c.lemma_valid_face(test_face);
        }
        let ghost start = c.face_at(test_face).halfedge->Some_0;
        let ghost p0 = choose|path: Seq<FaceID>| #[trigger] is_path(c, limit@, path, *face_id, test_face);
        let walkers = mesh.face_halfedge_iterator(&test_face);
        let mut i: usize = 0;
        while i < walkers.len()
            invariant
                mesh.wf(),
                c == mesh.connectivity(),
                c.is_valid(),
                nf == c.face_map().dom().len(),
                i <= walkers@.len(),
                walkers@.len() == c.face_walk_len(start),
                start == c.face_at(test_face).halfedge->Some_0,
                forall|j: int|
                    0 <= j < walkers@.len() ==> {
                        &&& (#[trigger] walkers@[j]).wf()
                        &&& walkers@[j].connectivity() == c
                        &&& walkers@[j].current() == c.next_iter(Some(start), j as nat)
                        &&& walkers@[j].current() is Some
                    },
                is_path(c, limit@, p0, *face_id, test_face),
                component@.no_duplicates(),
                component@.len() > 0 && component@[0] == *face_id,
                component@.len() <= nf,
                component@.len() >= old_component.len(),
                forall|f: FaceID| #[trigger] old_component.contains(f) ==> component@.contains(f),
                forall|i: int| 0 <= i < component@.len() ==> #[trigger] c.has_face(component@[i]),
                forall|f: FaceID| #[trigger] to_be_tested@.contains(f) ==> component@.contains(f),
                forall|f: FaceID| #[trigger] tested.contains(f) ==> to_be_tested@.contains(f),
                to_be_tested@.len() == tested.len() + (component@.len() - old_component.len()),
                forall|f: FaceID| #[trigger] component@.contains(f) && !old_component.contains(f) ==> to_be_tested@.contains(f),
                forall|f: FaceID, g: FaceID|
                    #[trigger] old_component.contains(f) && !tested.contains(f) && f != test_face && #[trigger] crosses(c, limit@, f, g)
                        ==> old_component.contains(g),
                forall|g: FaceID| #[trigger] component@.contains(g) ==> exists|path: Seq<FaceID>| #[trigger] is_path(c, limit@, path, *face_id, g),
                forall|j: nat, g: FaceID| j < i && #[trigger] crossing(c, limit@, c.next_iter(Some(start), j), g) ==> component@.contains(g),
            decreases walkers@.len() - i,
        {
            let mut walker = walkers[i];
            let halfedge_id = walker.halfedge_id().unwrap();
            if !contains_halfedge(limit, &halfedge_id) {
                match walker.twin().face_id() {
                    Some(f) => {
                        if !contains_face(&component, &f) {
                            proof {
                                let g = f;
                                c.lemma_valid_halfedge(halfedge_id);
                                let t = c.halfedge_at(halfedge_id).twin->Some_0;
                                c.lemma_valid_halfedge(t);
                                assert(c.has_face(g));
                                assert(crossing(c, limit@, c.next_iter(Some(start), i as nat), g));
                                assert(crosses(c, limit@, test_face, g));
                                lemma_path_step(c, limit@, p0, *face_id, test_face, g);
                            }
                            let ghost before_push = component@;
                            let ghost before_tbt = to_be_tested@;
                            component.push(f);
                            to_be_tested.push(f);
                            proof {
                                assert(component@ == before_push.push(f));
                                assert(to_be_tested@ == before_tbt.push(f));
                                assert forall|g: FaceID| #[trigger] before_push.contains(g) implies component@.contains(g) by {
                                    let k = choose|k: int| 0 <= k < before_push.len() && before_push[k] == g;
                                    assert(component@[k] == g);
                                }
                                assert forall|g: FaceID| #[trigger] before_tbt.contains(g) implies to_be_tested@.contains(g) by {
                                    let k = choose|k: int| 0 <= k < before_tbt.len() && before_tbt[k] == g;
                                    assert(to_be_tested@[k] == g);
                                }
                                assert(component@[component@.len() - 1] == f);
                                assert(to_be_tested@[to_be_tested@.len() - 1] == f);
                                assert forall|g: FaceID| #[trigger] to_be_tested@.contains(g) implies g == f || before_tbt.contains(g) by {
                                    let k = choose|k: int| 0 <= k < to_be_tested@.len() && to_be_tested@[k] == g;
                                    if k < before_tbt.len() {
                                        assert(before_tbt[k] == g);
                                    }
                                }
                                assert forall|g: FaceID| #[trigger] component@.contains(g) implies g == f || before_push.contains(g) by {
                                    let k = choose|k: int| 0 <= k < component@.len() && component@[k] == g;
                                    if k < before_push.len() {
                                        assert(before_push[k] == g);
                                    }
                                }
                                assert forall|a: int, b: int| 0 <= a < b < component@.len() implies component@[a] != component@[b] by {
                                    if b == component@.len() - 1 {
                                        assert(component@[a] == before_push[a]);
                                        assert(before_push.contains(before_push[a]));
                                    }
                                }
                                lemma_faces_fewer(c, component@);
                            }
                        }
                    },
                    None => {},
                }
            }
            proof {
                assert forall|j: nat, g: FaceID| j < i + 1 && #[trigger] crossing(c, limit@, c.next_iter(Some(start), j), g) implies component@.contains(g) by {
                    if j == i {
                        assert(walkers@[i as int].current() == c.next_iter(Some(start), i as nat));
                    }
                }
            }
            i = i + 1;
        }
        proof {
            assert forall|f: FaceID, g: FaceID|
                #[trigger] component@.contains(f) && !to_be_tested@.contains(f) && #[trigger] crosses(c, limit@, f, g) implies component@.contains(g) by {
                if f == test_face {
                    let j = choose|j: nat| j < c.face_walk_len(start) && #[trigger] crossing(c, limit@, c.next_iter(Some(start), j), g);
                } else {
                    assert(old_component.contains(f));
                    assert(!tested.contains(f));
                    assert(old_component.contains(g));
                }
            }
        }
    }
    component
}

/// The faces reached from `face_id` by crossing halfedges, with `face_id` first.
pub fn connected_component<P: Copy>(mesh: &DynamicMesh<P>, face_id: &FaceID) -> (r: Vec<FaceID>)
    requires
        mesh.wf(),
        mesh.connectivity().is_valid(),
        mesh.connectivity().has_face(*face_id),
    ensures
        is_component(mesh.connectivity(), Seq::<HalfEdgeID>::empty(), r@, *face_id),
        forall|i: int| 0 <= i < r@.len() ==> #[trigger] mesh.connectivity().has_face(r@[i]),
{
    let limit: Vec<HalfEdgeID> = Vec::new();
    proof {
        assert(limit@ =~= Seq::<HalfEdgeID>::empty());
    }
    connected_component_with_limit(mesh, face_id, &limit)
}

/// Whether one of the lists holds face `f`.
pub open spec fn covered(sets: Seq<Vec<FaceID>>, f: FaceID) -> bool {
    exists|i: int| 0 <= i < sets.len() && #[trigger] sets[i]@.contains(f)
}

/// Whether one of the lists holds face `f`.
pub(crate) fn in_some(sets: &Vec<Vec<FaceID>>, f: &FaceID) -> (r: bool)
    ensures
        r == covered(sets@, *f),
{
    let mut i: usize = 0;
    while i < sets.len()
        invariant
            i <= sets@.len(),
            forall|j: int| 0 <= j < i ==> !(#[trigger] sets@[j]@.contains(*f)),
        decreases sets@.len() - i,
    {
        if contains_face(&sets[i], f) {
            return true;
        }
        i = i + 1;
    }
    false
}

/// The connected components of the mesh: each is the component of its first face, which no
/// component before it holds, and every face is in one of them. Where every face is one
/// triangle, no face is in two of them.
pub fn connected_components<P: Copy>(mesh: &DynamicMesh<P>) -> (r: Vec<Vec<FaceID>>)
    requires
        mesh.wf(),
        mesh.connectivity().is_valid(),
    ensures
        forall|f: FaceID| #[trigger] mesh.connectivity().has_face(f) ==> covered(r@, f),
        forall|i: int|
            0 <= i < r@.len() ==> #[trigger] is_component(mesh.connectivity(), Seq::<HalfEdgeID>::empty(), r@[i]@, r@[i]@[0]),
        forall|i: int, j: int| 0 <= j < i < r@.len() ==> !(#[trigger] r@[j]@.contains(#[trigger] r@[i]@[0])),
        forall|i: int, m: int| 0 <= i < r@.len() && 0 <= m < r@[i]@.len() ==> mesh.connectivity().has_face(#[trigger] r@[i]@[m]),
        mesh.connectivity().faces_are_triangles() ==> forall|i: int, j: int, f: FaceID|
            0 <= i < r@.len() && 0 <= j < r@.len() && i != j && #[trigger] r@[i]@.contains(f) ==> !#[trigger] r@[j]@.contains(f),
{
    let ghost c = mesh.connectivity();
    let faces = mesh.face_iterator();
    let mut result: Vec<Vec<FaceID>> = Vec::new();
    let mut k: usize = 0;
    while k < faces.len()
        invariant
            mesh.wf(),
            c == mesh.connectivity(),
            c.is_valid(),
            k <= faces@.len(),
            forall|a: int| 0 <= a < faces@.len() ==> #[trigger] c.has_face(faces@[a]),
            forall|f: FaceID| #[trigger] c.has_face(f) ==> faces@.contains(f),
            forall|a: int| 0 <= a < k ==> #[trigger] covered(result@, faces@[a]),
            forall|i: int| 0 <= i < result@.len() ==> #[trigger] is_component(c, Seq::<HalfEdgeID>::empty(), result@[i]@, result@[i]@[0]),
            forall|i: int, j: int| 0 <= j < i < result@.len() ==> !(#[trigger] result@[j]@.contains(#[trigger] result@[i]@[0])),
            forall|i: int, m: int| 0 <= i < result@.len() && 0 <= m < result@[i]@.len() ==> c.has_face(#[trigger] result@[i]@[m]),
        decreases faces@.len() - k,
    {
        let face_id = faces[k];
        if !in_some(&result, &face_id) {
            proof {
                assert(c.has_face(faces@[k as int]));
            }
            let component = connected_component(mesh, &face_id);
            let ghost before = result@;
            result.push(component);
            proof {
                assert(result@ == before.push(component));
                assert forall|f: FaceID| #[trigger] covered(before, f) implies covered(result@, f) by {
                    let i = choose|i: int| 0 <= i < before.len() && #[trigger] before[i]@.contains(f);
                    assert(result@[i] == before[i]);
                }
                assert(result@[before.len() as int] == component);
                assert(component@.contains(face_id));
                assert(covered(result@, face_id));
                assert forall|a: int| 0 <= a < k + 1 implies #[trigger] covered(result@, faces@[a]) by {
                    if a < k {
                        assert(covered(before, faces@[a]));
                    }
                }
                assert forall|i: int| 0 <= i < result@.len() implies #[trigger] is_component(c, Seq::<HalfEdgeID>::empty(), result@[i]@, result@[i]@[0]) by {
                    if i < before.len() {
                        assert(result@[i] == before[i]);
                    }
                }
                assert forall|i: int, m: int| 0 <= i < result@.len() && 0 <= m < result@[i]@.len() implies c.has_face(#[trigger] result@[i]@[m]) by {
                    if i < before.len() {
                        assert(result@[i] == before[i]);
                    }
                }
                assert forall|i: int, j: int| 0 <= j < i < result@.len() implies !(#[trigger] result@[j]@.contains(#[trigger] result@[i]@[0])) by {
                    assert(result@[j] == before[j]);
                    if i < before.len() {
                        assert(result@[i] == before[i]);
                    } else {
                        assert(result@[i]@[0] == face_id);
                        if before[j]@.contains(face_id) {
                            assert(covered(before, face_id));
                        }
                    }
                }
            }
        }
        k = k + 1;
    }
    proof {
        assert forall|f: FaceID| #[trigger] c.has_face(f) implies covered(result@, f) by {
            assert(faces@.contains(f));
            let a = choose|a: int| 0 <= a < faces@.len() && faces@[a] == f;
            assert(covered(result@, faces@[a]));
        }
        if c.faces_are_triangles() {
            let comps = result@.map_values(|v: Vec<FaceID>| v@);
            assert forall|i: int| 0 <= i < comps.len() implies #[trigger] is_component(c, Seq::<HalfEdgeID>::empty(), comps[i], comps[i][0]) by {
                assert(comps[i] == result@[i]@);
            }
            assert forall|i: int| 0 <= i < comps.len() implies c.has_face(#[trigger] comps[i][0]) by {
                assert(comps[i] == result@[i]@);
                assert(is_component(c, Seq::<HalfEdgeID>::empty(), result@[i]@, result@[i]@[0]));
                assert(c.has_face(result@[i]@[0]));
            }
            assert forall|i: int, j: int| 0 <= j < i < comps.len() implies !(#[trigger] comps[j].contains(#[trigger] comps[i][0])) by {
                assert(comps[i] == result@[i]@);
                assert(comps[j] == result@[j]@);
            }
            lemma_components_disjoint(c, comps);
            assert forall|i: int, j: int, f: FaceID|
                0 <= i < result@.len() && 0 <= j < result@.len() && i != j && #[trigger] result@[i]@.contains(f) implies !#[trigger] result@[j]@.contains(f) by {
                assert(comps[i] == result@[i]@);
                assert(comps[j] == result@[j]@);
                assert(comps[i].contains(f));
            }
        }
    }
    result
}

} // verus!
