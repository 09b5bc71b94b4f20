use vstd::prelude::*;
use crate::ids::{VertexID, HalfEdgeID, FaceID, group_id_ext};
use crate::dynamic_mesh::dynamic_mesh::DynamicMesh;
use crate::dynamic_mesh::connectivity_info::{ConnectivityInfo, Connectivity, face_removal_ok, after_face_removal};
use crate::dynamic_mesh::overlapping::{
    group_seqs,
    disjoint_groups,
    overlapping_face_groups,
    overlapping_edge_groups,
    complete_edge_groups,
    mutual_overlaps_grouped,
};
use crate::dynamic_mesh::splitting_and_merging::{
    Error,
    redirected,
    edge_alone,
    edge_interior,
    merge_refused,
    merge_survivors,
    halfedges_merged,
};

verus! {

broadcast use group_id_ext;

/// All but the first element of a sequence (nothing for an empty one).
pub open spec fn rest_of<A>(g: Seq<A>) -> Seq<A> {
    if g.len() == 0 {
        Seq::empty()
    } else {
        g.subrange(1, g.len() as int)
    }
}

/// The faces that merging removes: all but the first face of each group, group by group.
pub open spec fn extra_faces(fg: Seq<Seq<FaceID>>) -> Seq<FaceID>
    decreases fg.len(),
{
    if fg.len() == 0 {
        Seq::empty()
    } else {
        extra_faces(fg.drop_last()) + rest_of(fg.last())
    }
}

/// The merges of vertices, group by group: the first vertex of a group with each later one.
pub open spec fn vertex_pairs(gs: Seq<Seq<VertexID>>) -> Seq<(VertexID, VertexID)>
    decreases gs.len(),
{
    if gs.len() == 0 {
        Seq::empty()
    } else {
        vertex_pairs(gs.drop_last()) + rest_of(gs.last()).map_values(|v: VertexID| (gs.last()[0], v))
    }
}

/// The halfedges of the edge groups in order, each marked where it starts a group.
pub open spec fn edge_ops(eg: Seq<Seq<HalfEdgeID>>) -> Seq<(bool, HalfEdgeID)>
    decreases eg.len(),
{
    if eg.len() == 0 {
        Seq::empty()
    } else {
        edge_ops(eg.drop_last()) + Seq::new(eg.last().len(), |i: int| (i == 0, eg.last()[i]))
    }
}

/// The connectivity after removing face `f`.
#[verifier::opaque]
pub open spec fn removal_step(s: Connectivity, f: FaceID) -> Connectivity {
    after_face_removal(s, f)
}

/// Whether face `f` can be removed.
#[verifier::opaque]
pub open spec fn removal_allowed(s: Connectivity, f: FaceID) -> bool {
    face_removal_ok(s, f)
}

/// The connectivity after removing the faces one after another.
pub open spec fn faces_removed(s: Connectivity, fs: Seq<FaceID>) -> Connectivity
    decreases fs.len(),
{
    if fs.len() == 0 {
        s
    } else {
        removal_step(faces_removed(s, fs.drop_last()), fs.last())
    }
}

/// Whether each face can be removed when its turn comes.
pub open spec fn faces_removable(s: Connectivity, fs: Seq<FaceID>) -> bool
    decreases fs.len(),
{
    fs.len() == 0 || (faces_removable(s, fs.drop_last()) && removal_allowed(faces_removed(s, fs.drop_last()), fs.last()))
}

/// Every stored halfedge points to a vertex.
pub open spec fn all_pointed(s: Connectivity) -> bool {
    forall|k: usize| #[trigger] s.1.dom().contains(k) ==> s.1[k].vertex is Some
}

/// The connectivity after vertex `v2` is merged into `v1`.
pub open spec fn vertices_joined(s: Connectivity, v1: VertexID, v2: VertexID) -> Connectivity {
    (if v2.spec_is_null() {
        s.0
    } else {
        s.0.remove(v2.index())
    }, redirected(s.1, v2, v1), s.2)
}

/// The connectivity after the merges of vertices one after another.
pub open spec fn all_joined(s: Connectivity, ps: Seq<(VertexID, VertexID)>) -> Connectivity
    decreases ps.len(),
{
    if ps.len() == 0 {
        s
    } else {
        let t = all_joined(s, ps.drop_last());
        vertices_joined(t, ps.last().0, ps.last().1)
    }
}

/// Whether every halfedge points to a vertex before each merge of vertices.
pub open spec fn joins_ok(s: Connectivity, ps: Seq<(VertexID, VertexID)>) -> bool
    decreases ps.len(),
{
    ps.len() == 0 || (joins_ok(s, ps.drop_last()) && all_pointed(all_joined(s, ps.drop_last())))
}

/// Whether the edges of two halfedges may be handed to a merge in mesh `c`.
pub open spec fn merge_allowed(c: ConnectivityInfo, h1: HalfEdgeID, h2: HalfEdgeID) -> bool {
    &&& c.is_valid()
    &&& c.has_halfedge(h1)
    &&& c.has_halfedge(h2)
    &&& h2 != h1
    &&& Some(h2) != c.twin_of(Some(h1))
    &&& !(edge_alone(c, h1) && edge_interior(c, h2))
    &&& !(edge_interior(c, h1) && edge_alone(c, h2))
}

/// Whether, from mesh `c` with `e1` the halfedge kept so far, each merge of the steps `ops`
/// may be made when its turn comes (steps are taken as `edge_merges_result` describes); a
/// refused merge ends the steps.
pub open spec fn edge_merges_ok(c: ConnectivityInfo, e1: HalfEdgeID, ops: Seq<(bool, HalfEdgeID)>) -> bool
    decreases ops.len(),
{
    if ops.len() == 0 {
        true
    } else if ops[0].0 || !c.has_halfedge(e1) {
        edge_merges_ok(c, ops[0].1, ops.drop_first())
    } else if !c.has_halfedge(ops[0].1) {
        edge_merges_ok(c, e1, ops.drop_first())
    } else {
        &&& merge_allowed(c, e1, ops[0].1)
        &&& !merge_refused(c, e1, ops[0].1) ==> forall|c2: ConnectivityInfo|
            #[trigger] c2.state() == halfedges_merged(c, e1, ops[0].1) ==> edge_merges_ok(
                c2,
                merge_survivors(c, e1, ops[0].1).0,
                ops.drop_first(),
            )
    }
}

/// What the merges of the steps `ops` give from mesh `c`, `e1` being the halfedge kept so
/// far: at a halfedge that starts a group, or where the halfedge kept is no longer in the
/// mesh, it is kept; a halfedge no longer in the mesh (it went with a removed face) is passed
/// over; at another one its edge is merged with that of the halfedge kept, which becomes the
/// halfedge the merge keeps of the first edge.
/// At the first refused merge the steps end with its error, the mesh as it was then;
/// otherwise they end with `Ok` and the mesh after the last merge.
pub open spec fn edge_merges_result(
    c: ConnectivityInfo,
    e1: HalfEdgeID,
    ops: Seq<(bool, HalfEdgeID)>,
    r: Result<(), Error>,
    fin: ConnectivityInfo,
) -> bool
    decreases ops.len(),
{
    if ops.len() == 0 {
        r is Ok && fin == c
    } else if ops[0].0 || !c.has_halfedge(e1) {
        edge_merges_result(c, ops[0].1, ops.drop_first(), r, fin)
    } else if !c.has_halfedge(ops[0].1) {
        edge_merges_result(c, e1, ops.drop_first(), r, fin)
    } else if merge_refused(c, e1, ops[0].1) {
        r is Err && r->Err_0 is FailedToMergeVertices && fin == c
    } else {
        exists|c2: ConnectivityInfo|
            #[trigger] c2.state() == halfedges_merged(c, e1, ops[0].1) && edge_merges_result(
                c2,
                merge_survivors(c, e1, ops[0].1).0,
                ops.drop_first(),
                r,
                fin,
            )
    }
}

/// The face and edge groups that the searches for overlapping faces and edges may give.
pub open spec fn found_groups(c: ConnectivityInfo, gs: Seq<Seq<VertexID>>, fg: Seq<Seq<FaceID>>, eg: Seq<Seq<HalfEdgeID>>) -> bool {
    &&& overlapping_face_groups(c, gs, fg)
    &&& overlapping_edge_groups(c, gs, eg)
    &&& disjoint_groups(gs) ==> complete_edge_groups(c, gs, eg)
    &&& mutual_overlaps_grouped(c, gs, eg)
}

/// The connectivity after the faces are removed and the vertices merged.
pub open spec fn state_before_edges(c: ConnectivityInfo, gs: Seq<Seq<VertexID>>, fg: Seq<Seq<FaceID>>) -> Connectivity {
    all_joined(faces_removed(c.state(), extra_faces(fg)), vertex_pairs(gs))
}

/// The halfedge kept before the first group of edges starts; no merge reads it.
pub open spec fn no_halfedge() -> HalfEdgeID {
    HalfEdgeID::spec_new(0)
}

/// Whether, with these groups, every step of merging can be taken: no vertex group is
/// empty, each face can be removed in turn, every halfedge points to a vertex before each
/// merge of vertices, and each merge of edges is allowed in turn.
pub open spec fn merges_ok(c: ConnectivityInfo, gs: Seq<Seq<VertexID>>, fg: Seq<Seq<FaceID>>, eg: Seq<Seq<HalfEdgeID>>) -> bool {
    &&& forall|k: int| 0 <= k < gs.len() ==> #[trigger] gs[k].len() >= 1
    &&& faces_removable(c.state(), extra_faces(fg))
    &&& joins_ok(faces_removed(c.state(), extra_faces(fg)), vertex_pairs(gs))
    &&& forall|c2: ConnectivityInfo|
        #[trigger] c2.state() == state_before_edges(c, gs, fg) ==> edge_merges_ok(c2, no_halfedge(), edge_ops(eg))
}

/// Whether every step can be taken, whichever groups the searches give.
pub open spec fn primitives_merge_ok(c: ConnectivityInfo, gs: Seq<Seq<VertexID>>) -> bool {
    forall|fg: Seq<Seq<FaceID>>, eg: Seq<Seq<HalfEdgeID>>| #[trigger] found_groups(c, gs, fg, eg) ==> merges_ok(c, gs, fg, eg)
}

/// What merging the primitives at the vertex groups `gs` gives: for groups of faces and
/// edges that the searches give, all but the first face of each face group is removed, the
/// vertices of each vertex group are merged into its first, and then the edges of each edge
/// group are merged in turn, with the result and mesh `fin` of those merges.
pub open spec fn merged_primitives(c: ConnectivityInfo, gs: Seq<Seq<VertexID>>, r: Result<(), Error>, fin: ConnectivityInfo) -> bool {
    exists|fg: Seq<Seq<FaceID>>, eg: Seq<Seq<HalfEdgeID>>|
        #[trigger] found_groups(c, gs, fg, eg) && exists|c2: ConnectivityInfo|
            #[trigger] c2.state() == state_before_edges(c, gs, fg) && edge_merges_result(c2, no_halfedge(), edge_ops(eg), r, fin)
}

proof fn lemma_removable_prefix(s: Connectivity, fs: Seq<FaceID>, n: int)
    requires
        faces_removable(s, fs),
        0 <= n <= fs.len(),
    ensures
        faces_removable(s, fs.take(n)),
    decreases fs.len(),
{
    if n == fs.len() {
        assert(fs.take(n) =~= fs);
    } else {
        assert(fs.drop_last().take(n) =~= fs.take(n));
        lemma_removable_prefix(s, fs.drop_last(), n);
    }
}

proof fn lemma_joins_prefix(s: Connectivity, ps: Seq<(VertexID, VertexID)>, n: int)
    requires
        joins_ok(s, ps),
        0 <= n <= ps.len(),
    ensures
        joins_ok(s, ps.take(n)),
    decreases ps.len(),
{
    if n == ps.len() {
        assert(ps.take(n) =~= ps);
    } else {
        assert(ps.drop_last().take(n) =~= ps.take(n));
        lemma_joins_prefix(s, ps.drop_last(), n);
    }
}

/// The faces all but the first of each group, in order.
fn extra_face_list(groups: &Vec<Vec<FaceID>>) -> (r: Vec<FaceID>)
    ensures
        r@ == extra_faces(groups@.map_values(|g: Vec<FaceID>| g@)),
{
    let ghost fg = groups@.map_values(|g: Vec<FaceID>| g@);
    let mut r: Vec<FaceID> = Vec::new();
    let mut k: usize = 0;
    while k < groups.len()
        invariant
            k <= groups@.len(),
            fg == groups@.map_values(|g: Vec<FaceID>| g@),
            r@ == extra_faces(fg.take(k as int)),
        decreases groups@.len() - k,
    {
        let g = &groups[k];
        let ghost before = r@;
        let mut m: usize = 1;
        while m < g.len()
            invariant
                1 <= m,
                m <= g@.len() || g@.len() == 0,
                g@.len() > 0 ==> r@ == before + g@.subrange(1, m as int),
                g@.len() == 0 ==> r@ == before,
            decreases g@.len() - m,
        {
            r.push(g[m]);
            proof {
                assert(r@ =~= before + g@.subrange(1, m + 1));
            }
            m = m + 1;
        }
        proof {
            assert(fg.take(k + 1).drop_last() =~= fg.take(k as int));
            assert(fg.take(k + 1).last() == g@);
            assert(r@ =~= before + rest_of(g@));
        }
        k = k + 1;
    }
    proof {
        assert(fg.take(groups@.len() as int) =~= fg);
    }
    r
}

/// The merges of vertices, the first of each group with each later one, in order.
fn vertex_pair_list(groups: &Vec<Vec<VertexID>>) -> (r: Vec<(VertexID, VertexID)>)
    ensures
        r@ == vertex_pairs(group_seqs(groups@)),
{
    let ghost gs = group_seqs(groups@);
    let mut r: Vec<(VertexID, VertexID)> = Vec::new();
    let mut k: usize = 0;
    while k < groups.len()
        invariant
            k <= groups@.len(),
            gs == group_seqs(groups@),
            r@ == vertex_pairs(gs.take(k as int)),
        decreases groups@.len() - k,
    {
        let g = &groups[k];
        let ghost before = r@;
        let mut m: usize = 1;
        while m < g.len()
            invariant
                1 <= m,
                m <= g@.len() || g@.len() == 0,
                g@.len() > 0 ==> r@ == before + g@.subrange(1, m as int).map_values(|v: VertexID| (g@[0], v)),
                g@.len() == 0 ==> r@ == before,
            decreases g@.len() - m,
        {
            r.push((g[0], g[m]));
            proof {
                assert(r@ =~= before + g@.subrange(1, m + 1).map_values(|v: VertexID| (g@[0], v)));
            }
            m = m + 1;
        }
        proof {
            assert(gs.take(k + 1).drop_last() =~= gs.take(k as int));
            assert(gs.take(k + 1).last() == g@);
            if g@.len() == 0 {
                assert(rest_of(g@).map_values(|v: VertexID| (g@[0], v)) =~= Seq::<(VertexID, VertexID)>::empty());
                assert(r@ =~= before + rest_of(g@).map_values(|v: VertexID| (g@[0], v)));
            } else {
                assert(g@.subrange(1, g@.len() as int) == rest_of(g@));
            }
        }
        k = k + 1;
    }
    proof {
        assert(gs.take(groups@.len() as int) =~= gs);
    }
    r
}

/// The halfedges of the groups in order, each marked where it starts its group.
fn edge_op_list(groups: &Vec<Vec<HalfEdgeID>>) -> (r: Vec<(bool, HalfEdgeID)>)
    ensures
        r@ == edge_ops(groups@.map_values(|g: Vec<HalfEdgeID>| g@)),
{
    let ghost eg = groups@.map_values(|g: Vec<HalfEdgeID>| g@);
    let mut r: Vec<(bool, HalfEdgeID)> = Vec::new();
    let mut k: usize = 0;
    while k < groups.len()
        invariant
            k <= groups@.len(),
            eg == groups@.map_values(|g: Vec<HalfEdgeID>| g@),
            r@ == edge_ops(eg.take(k as int)),
        decreases groups@.len() - k,
    {
        let g = &groups[k];
        let ghost before = r@;
        let mut m: usize = 0;
        while m < g.len()
            invariant
                m <= g@.len(),
                r@ == before + Seq::new(m as nat, |i: int| (i == 0, g@[i])),
            decreases g@.len() - m,
        {
            r.push((m == 0, g[m]));
            proof {
                assert(r@ =~= before + Seq::new((m + 1) as nat, |i: int| (i == 0, g@[i])));
            }
            m = m + 1;
        }
        proof {
            assert(eg.take(k + 1).drop_last() =~= eg.take(k as int));
            assert(eg.take(k + 1).last() == g@);
        }
        k = k + 1;
    }
    proof {
        assert(eg.take(groups@.len() as int) =~= eg);
    }
    r
}

impl<P: Copy> DynamicMesh<P> {
    /// Merges what lies at one place, given the groups of vertices at one place: all but the
    /// first face of each group of overlapping faces is removed, the vertices of each group
    /// are merged into the first one, and then the edges of each group of overlapping edges
    /// are merged in turn into the first, passing over the halfedges that went with the
    /// removed faces. A refused merge of edges ends the work with its error, leaving what was
    /// done before it.
    pub fn merge_overlapping_primitives(&mut self, set_of_vertices_to_merge: &Vec<Vec<VertexID>>) -> (r: Result<(), Error>)
        requires
            old(self).wf(),
            old(self).connectivity().is_valid(),
            primitives_merge_ok(old(self).connectivity(), group_seqs(set_of_vertices_to_merge@)),
        ensures
            final(self).wf(),
            final(self).position_map() == old(self).position_map(),
            final(self).normal_map() == old(self).normal_map(),
            merged_primitives(old(self).connectivity(), group_seqs(set_of_vertices_to_merge@), r, final(self).connectivity()),
    {
        let ghost c = self.connectivity();
        let ghost gs = group_seqs(set_of_vertices_to_merge@);
        let edge_groups = self.find_overlapping_edges(set_of_vertices_to_merge);
        let face_groups = self.find_overlapping_faces(set_of_vertices_to_merge);
        let ghost fg = face_groups@.map_values(|g: Vec<FaceID>| g@);
        let ghost eg = edge_groups@.map_values(|g: Vec<HalfEdgeID>| g@);
        proof {
            assert(found_groups(c, gs, fg, eg));
            assert(merges_ok(c, gs, fg, eg));
        }
        let faces = extra_face_list(&face_groups);
        let pairs = vertex_pair_list(set_of_vertices_to_merge);
        let ops = edge_op_list(&edge_groups);

        let mut i: usize = 0;
        while i < faces.len()
            invariant
                self.wf(),
                i <= faces@.len(),
                faces@ == extra_faces(fg),
                faces_removable(c.state(), faces@),
                self.connectivity().state() == faces_removed(c.state(), faces@.take(i as int)),
                self.position_map() == old(self).position_map(),
                self.normal_map() == old(self).normal_map(),
            decreases faces@.len() - i,
        {
            proof {
                lemma_removable_prefix(c.state(), faces@, i + 1);
                assert(faces@.take(i + 1).drop_last() =~= faces@.take(i as int));
                assert(faces@.take(i + 1).last() == faces@[i as int]);
                reveal(removal_allowed);
                reveal(removal_step);
            }
            self.remove_face(&faces[i]);
            i = i + 1;
        }
        let ghost s1 = self.connectivity().state();
        proof {
            assert(faces@.take(faces@.len() as int) =~= faces@);
        }

        let mut j: usize = 0;
        while j < pairs.len()
            invariant
                self.wf(),
                j <= pairs@.len(),
                pairs@ == vertex_pairs(gs),
                joins_ok(s1, pairs@),
                self.connectivity().state() == all_joined(s1, pairs@.take(j as int)),
                self.position_map() == old(self).position_map(),
                self.normal_map() == old(self).normal_map(),
            decreases pairs@.len() - j,
        {
            let ghost before = self.connectivity();
            proof {
                lemma_joins_prefix(s1, pairs@, j + 1);
                assert(pairs@.take(j + 1).drop_last() =~= pairs@.take(j as int));
                assert(pairs@.take(j + 1).last() == pairs@[j as int]);
                assert forall|h: HalfEdgeID| #[trigger] before.has_halfedge(h) implies before.halfedge_at(h).vertex is Some by {
                    assert(before.state().1.dom().contains(h.index()));
                }
            }
            let (v1, v2) = pairs[j];
            let _ = self.merge_vertices(&v1, &v2);
            proof {
                assert(self.connectivity().state() == vertices_joined(before.state(), v1, v2));
            }
            j = j + 1;
        }
        proof {
            assert(pairs@.take(pairs@.len() as int) =~= pairs@);
        }

        let ghost cv = self.connectivity();
        let ghost e0 = no_halfedge();
        let mut e1 = HalfEdgeID::new(0);
        proof {
            assert(cv.state() == state_before_edges(c, gs, fg));
            assert(edge_merges_ok(cv, e0, edge_ops(eg)));
            assert(ops@.skip(0) =~= ops@);
        }
        let mut k: usize = 0;
        while k < ops.len()
            invariant
                self.wf(),
                k <= ops@.len(),
                ops@ == edge_ops(eg),
                cv.state() == state_before_edges(c, gs, fg),
                found_groups(c, gs, fg, eg),
                e0 == no_halfedge(),
                c == old(self).connectivity(),
                gs == group_seqs(set_of_vertices_to_merge@),
                edge_merges_ok(self.connectivity(), e1, ops@.skip(k as int)),
                forall|r: Result<(), Error>, fin: ConnectivityInfo|
                    edge_merges_result(self.connectivity(), e1, ops@.skip(k as int), r, fin) ==> #[trigger] edge_merges_result(
                        cv,
                        e0,
                        ops@,
                        r,
                        fin,
                    ),
                self.position_map() == old(self).position_map(),
                self.normal_map() == old(self).normal_map(),
            decreases ops@.len() - k,
        {
            let ghost cur = self.connectivity();
            let ghost e_cur = e1;
            let ghost rest = ops@.skip(k as int);
            proof {
                assert(rest[0] == ops@[k as int]);
                assert(rest.drop_first() =~= ops@.skip(k + 1));
            }
            let (first, h) = ops[k];
            let kept_there = self.connectivity_info().halfedge(&e1).is_some();
            let next_there = self.connectivity_info().halfedge(&h).is_some();
            if first || !kept_there {
                e1 = h;
                proof {
                    assert forall|r: Result<(), Error>, fin: ConnectivityInfo|
                        edge_merges_result(self.connectivity(), e1, ops@.skip(k + 1), r, fin) implies #[trigger] edge_merges_result(
                            cv,
                            e0,
                            ops@,
                            r,
                            fin,
                        ) by {
                        assert(edge_merges_result(cur, e_cur, rest, r, fin));
                    }
                }
            } else if !next_there {
                proof {
                    assert forall|r: Result<(), Error>, fin: ConnectivityInfo|
                        edge_merges_result(self.connectivity(), e1, ops@.skip(k + 1), r, fin) implies #[trigger] edge_merges_result(
                            cv,
                            e0,
                            ops@,
                            r,
                            fin,
                        ) by {
                        assert(edge_merges_result(cur, e_cur, rest, r, fin));
                    }
                }
            } else {
                match self.merge_halfedges(&e1, &h) {
                    Ok(survivor) => {
                        e1 = survivor;
                        proof {
                            let now = self.connectivity();
                            assert(now.state() == halfedges_merged(cur, e_cur, h));
                            assert(edge_merges_ok(now, e1, ops@.skip(k + 1)));
                            assert forall|r: Result<(), Error>, fin: ConnectivityInfo|
                                edge_merges_result(now, e1, ops@.skip(k + 1), r, fin) implies #[trigger] edge_merges_result(
                                    cv,
                                    e0,
                                    ops@,
                                    r,
                                    fin,
                                ) by {
                                assert(edge_merges_result(cur, e_cur, rest, r, fin));
                            }
                        }
                    },
                    Err(e) => {
                        proof {
                            assert(self.connectivity() == cur);
                            assert(edge_merges_result(cur, e_cur, rest, Err::<(), Error>(e), cur));
                            assert(edge_merges_result(cv, e0, edge_ops(eg), Err::<(), Error>(e), self.connectivity()));
                            assert(found_groups(c, gs, fg, eg));
                            assert(merged_primitives(c, gs, Err::<(), Error>(e), self.connectivity()));
                        }
                        return Err(e);
                    },
                }
            }
            k = k + 1;
        }
        proof {
            assert(ops@.skip(k as int) =~= Seq::<(bool, HalfEdgeID)>::empty());
            assert(edge_merges_result(self.connectivity(), e1, ops@.skip(k as int), Ok::<(), Error>(()), self.connectivity()));
            assert(edge_merges_result(cv, e0, edge_ops(eg), Ok::<(), Error>(()), self.connectivity()));
            assert(found_groups(c, gs, fg, eg));
        }
        Ok(())
    }
}

} // verus!
