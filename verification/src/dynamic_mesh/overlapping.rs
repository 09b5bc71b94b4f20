use vstd::prelude::*;
use crate::ids::{VertexID, HalfEdgeID, FaceID, group_id_ext};
use crate::dynamic_mesh::dynamic_mesh::DynamicMesh;
use crate::dynamic_mesh::connectivity_info::ConnectivityInfo;
use crate::dynamic_mesh::connectivity::edge_key;

verus! {

broadcast use group_id_ext;

/// The groups of vertices, each as the sequence of its vertices.
pub open spec fn group_seqs(groups: Seq<Vec<VertexID>>) -> Seq<Seq<VertexID>> {
    groups.map_values(|g: Vec<VertexID>| g@)
}

/// The index of the first group from `g` on that holds vertex `v`, or the number of groups
/// where none does.
pub open spec fn group_from(groups: Seq<Seq<VertexID>>, v: VertexID, g: nat) -> nat
    decreases groups.len() - g,
{
    if g >= groups.len() {
        groups.len()
    } else if groups[g as int].contains(v) {
        g
    } else {
        group_from(groups, v, g + 1)
    }
}

/// The index of the first group that holds vertex `v`, or the number of groups where none
/// does.
pub open spec fn group_of(groups: Seq<Seq<VertexID>>, v: VertexID) -> nat {
    group_from(groups, v, 0)
}

/// Whether some group holds vertex `v`.
pub open spec fn grouped(groups: Seq<Seq<VertexID>>, v: VertexID) -> bool {
    group_of(groups, v) < groups.len()
}

/// No vertex is in two groups.
pub open spec fn disjoint_groups(groups: Seq<Seq<VertexID>>) -> bool {
    forall|g1: int, g2: int, v: VertexID|
        0 <= g1 < groups.len() && 0 <= g2 < groups.len() && g1 != g2 && #[trigger] groups[g1].contains(v)
            ==> !#[trigger] groups[g2].contains(v)
}

/// Whether edge `e` joins a vertex of group `ga` to a vertex of group `gb`, either way round.
pub open spec fn joins(groups: Seq<Seq<VertexID>>, ga: nat, gb: nat, e: (VertexID, VertexID)) -> bool {
    ||| groups[ga as int].contains(e.0) && groups[gb as int].contains(e.1)
    ||| groups[gb as int].contains(e.0) && groups[ga as int].contains(e.1)
}

/// Whether both vertices of edge `e1` are in groups and edge `e2` joins the groups that
/// first hold them.
pub open spec fn edge_overlaps(groups: Seq<Seq<VertexID>>, e1: (VertexID, VertexID), e2: (VertexID, VertexID)) -> bool {
    &&& grouped(groups, e1.0)
    &&& grouped(groups, e1.1)
    &&& joins(groups, group_of(groups, e1.0), group_of(groups, e1.1), e2)
}

/// Whether halfedge `h` points to the vertex of larger index of its edge.
pub open spec fn points_up(c: ConnectivityInfo, h: HalfEdgeID) -> bool {
    c.vertex_of(Some(h)) == Some(edge_key(c, h).1)
}

proof fn lemma_group_from(groups: Seq<Seq<VertexID>>, v: VertexID, g: nat)
    requires
        g <= groups.len(),
    ensures
        g <= group_from(groups, v, g) <= groups.len(),
        group_from(groups, v, g) < groups.len() ==> groups[group_from(groups, v, g) as int].contains(v),
        forall|k: int| g <= k < group_from(groups, v, g) ==> !#[trigger] groups[k].contains(v),
    decreases groups.len() - g,
{
    if g < groups.len() && !groups[g as int].contains(v) {
        lemma_group_from(groups, v, g + 1);
    }
}

/// The group found for a vertex holds it, no group before it does, and a vertex in some group
/// is found in one; where no vertex is in two groups, the group found is the one that holds it.
pub proof fn lemma_group_of(groups: Seq<Seq<VertexID>>, v: VertexID)
    ensures
        group_of(groups, v) <= groups.len(),
        grouped(groups, v) ==> groups[group_of(groups, v) as int].contains(v),
        forall|k: int| 0 <= k < group_of(groups, v) ==> !#[trigger] groups[k].contains(v),
        forall|k: int| 0 <= k < groups.len() && #[trigger] groups[k].contains(v) ==> grouped(groups, v),
        disjoint_groups(groups) ==> forall|k: int|
            0 <= k < groups.len() && #[trigger] groups[k].contains(v) ==> group_of(groups, v) == k,
{
    lemma_group_from(groups, v, 0);
    assert forall|k: int| 0 <= k < groups.len() && #[trigger] groups[k].contains(v) implies grouped(groups, v) by {
        if !grouped(groups, v) {
            assert(!groups[k].contains(v));
        }
    }
    if disjoint_groups(groups) {
        assert forall|k: int| 0 <= k < groups.len() && #[trigger] groups[k].contains(v) implies group_of(
            groups,
            v,
        ) == k by {
            let g = group_of(groups, v) as int;
            if g < k {
                assert(groups[g].contains(v));
            } else if g > k {
                assert(!groups[k].contains(v));
            }
        }
    }
}

/// Where no vertex is in two groups, one edge overlaps another exactly when the vertices of
/// both are in groups and the two edges join the same two groups.
pub proof fn lemma_overlap_class(groups: Seq<Seq<VertexID>>, e1: (VertexID, VertexID), e2: (VertexID, VertexID))
    requires
        disjoint_groups(groups),
    ensures
        edge_overlaps(groups, e1, e2) <==> {
            &&& grouped(groups, e1.0)
            &&& grouped(groups, e1.1)
            &&& grouped(groups, e2.0)
            &&& grouped(groups, e2.1)
            &&& {
                ||| group_of(groups, e1.0) == group_of(groups, e2.0) && group_of(groups, e1.1) == group_of(groups, e2.1)
                ||| group_of(groups, e1.0) == group_of(groups, e2.1) && group_of(groups, e1.1) == group_of(groups, e2.0)
            }
        },
{
    lemma_group_of(groups, e1.0);
    lemma_group_of(groups, e1.1);
    lemma_group_of(groups, e2.0);
    lemma_group_of(groups, e2.1);
}

/// Where no vertex is in two groups, overlapping is symmetric and transitive.
pub proof fn lemma_overlap_equivalence(
    groups: Seq<Seq<VertexID>>,
    e1: (VertexID, VertexID),
    e2: (VertexID, VertexID),
    e3: (VertexID, VertexID),
)
    requires
        disjoint_groups(groups),
    ensures
        edge_overlaps(groups, e1, e2) ==> edge_overlaps(groups, e2, e1),
        edge_overlaps(groups, e1, e2) && edge_overlaps(groups, e2, e3) ==> edge_overlaps(groups, e1, e3),
        grouped(groups, e1.0) && grouped(groups, e1.1) ==> edge_overlaps(groups, e1, e1),
{
    lemma_overlap_class(groups, e1, e2);
    lemma_overlap_class(groups, e2, e1);
    lemma_overlap_class(groups, e2, e3);
    lemma_overlap_class(groups, e1, e3);
    lemma_overlap_class(groups, e1, e1);
}

/// An edge whose vertices are in groups overlaps itself.
proof fn lemma_overlaps_itself(groups: Seq<Seq<VertexID>>, e: (VertexID, VertexID))
    requires
        grouped(groups, e.0),
        grouped(groups, e.1),
    ensures
        edge_overlaps(groups, e, e),
{
    lemma_group_of(groups, e.0);
    lemma_group_of(groups, e.1);
}

/// Whether `r` groups halfedges of overlapping edges: each group has at least two
/// halfedges, each halfedge is stored and points to the vertex of larger index of its edge,
/// the edge of each halfedge of a group overlaps the edge of the last halfedge of the group,
/// and no edge is listed twice.
pub open spec fn overlapping_edge_groups(c: ConnectivityInfo, groups: Seq<Seq<VertexID>>, r: Seq<Seq<HalfEdgeID>>) -> bool {
    &&& forall|k: int| 0 <= k < r.len() ==> #[trigger] r[k].len() >= 2
    &&& forall|k: int, m: int|
        0 <= k < r.len() && 0 <= m < r[k].len() ==> {
            &&& c.has_halfedge(#[trigger] r[k][m])
            &&& points_up(c, r[k][m])
            &&& edge_overlaps(groups, edge_key(c, r[k].last()), edge_key(c, r[k][m]))
        }
    &&& forall|k1: int, m1: int, k2: int, m2: int|
        0 <= k1 < r.len() && 0 <= m1 < r[k1].len() && 0 <= k2 < r.len() && 0 <= m2 < r[k2].len() && (k1 != k2 || m1
            != m2) ==> edge_key(c, #[trigger] r[k1][m1]) != edge_key(c, #[trigger] r[k2][m2])
}

/// Whether any two different edges of the mesh that overlap are in one group of `r`.
pub open spec fn complete_edge_groups(c: ConnectivityInfo, groups: Seq<Seq<VertexID>>, r: Seq<Seq<HalfEdgeID>>) -> bool {
    forall|h1: HalfEdgeID, h2: HalfEdgeID|
        c.has_halfedge(h1) && c.has_halfedge(h2) && edge_key(c, h1) != edge_key(c, h2) && #[trigger] edge_overlaps(
            groups,
            edge_key(c, h1),
            edge_key(c, h2),
        ) ==> exists|k: int, m1: int, m2: int|
            0 <= k < r.len() && 0 <= m1 < r[k].len() && 0 <= m2 < r[k].len() && edge_key(c, #[trigger] r[k][m1])
                == edge_key(c, h1) && edge_key(c, #[trigger] r[k][m2]) == edge_key(c, h2)
}

/// Of two different edges of the mesh each of which joins the groups that first hold the
/// vertices of the other, at least one is in a group of `r`; this holds also where a vertex is
/// in more than one group, each vertex counting in the first group that holds it.
pub open spec fn mutual_overlaps_grouped(c: ConnectivityInfo, groups: Seq<Seq<VertexID>>, r: Seq<Seq<HalfEdgeID>>) -> bool {
    forall|h1: HalfEdgeID, h2: HalfEdgeID|
        c.has_halfedge(h1) && c.has_halfedge(h2) && edge_key(c, h1) != edge_key(c, h2) && #[trigger] edge_overlaps(
            groups,
            edge_key(c, h1),
            edge_key(c, h2),
        ) && edge_overlaps(groups, edge_key(c, h2), edge_key(c, h1)) ==> exists|k: int, m: int|
            0 <= k < r.len() && 0 <= m < r[k].len() && (edge_key(c, #[trigger] r[k][m]) == edge_key(c, h1) || edge_key(
                c,
                r[k][m],
            ) == edge_key(c, h2))
}

/// The state of the grouping of the edges at indices below `i` of the representatives with
/// keys `ks`: which are taken, the groups `rs` found with the indices `mem` of their members,
/// and the group `owner` each index is in (or -1).
spec fn grouping_inv(
    gs: Seq<Seq<VertexID>>,
    reps: Seq<HalfEdgeID>,
    ks: Seq<(VertexID, VertexID)>,
    i: int,
    taken: Seq<bool>,
    rs: Seq<Seq<HalfEdgeID>>,
    mem: Seq<Seq<int>>,
    owner: Seq<int>,
) -> bool {
    let n = reps.len();
    &&& ks.len() == n && taken.len() == n && owner.len() == n && rs.len() == mem.len() && 0 <= i <= n
    &&& forall|j: int| 0 <= j < i ==> #[trigger] taken[j]
    &&& forall|j: int|
        0 <= j < n && #[trigger] owner[j] >= 0 ==> owner[j] < mem.len() && taken[j] && exists|m: int|
            0 <= m < mem[owner[j]].len() && #[trigger] mem[owner[j]][m] == j
    &&& forall|j: int| i <= j < n && #[trigger] taken[j] ==> owner[j] >= 0
    &&& forall|k: int|
        0 <= k < mem.len() ==> #[trigger] mem[k].len() >= 2 && rs[k].len() == mem[k].len() && mem[k].last() < i
    &&& forall|k: int, m: int|
        0 <= k < mem.len() && 0 <= m < mem[k].len() ==> {
            &&& 0 <= #[trigger] mem[k][m] < n
            &&& owner[mem[k][m]] == k
            &&& rs[k][m] == reps[mem[k][m]]
            &&& edge_overlaps(gs, ks[mem[k].last()], ks[mem[k][m]])
        }
    &&& forall|k: int, m1: int, m2: int|
        0 <= k < mem.len() && 0 <= m1 < mem[k].len() && 0 <= m2 < mem[k].len() && m1 != m2 ==> #[trigger] mem[k][m1]
            != #[trigger] mem[k][m2]
    &&& disjoint_groups(gs) ==> forall|p: int, q: int|
        0 <= p < i && 0 <= q < n && p != q && #[trigger] edge_overlaps(gs, ks[p], ks[q]) ==> owner[p] >= 0
            && owner[p] == owner[q]
    &&& forall|p: int, q: int|
        0 <= p < i && 0 <= q < n && p != q && #[trigger] edge_overlaps(gs, ks[p], ks[q]) && edge_overlaps(gs, ks[q], ks[p])
            ==> owner[p] >= 0 || owner[q] >= 0
}

proof fn lemma_grouping_start(gs: Seq<Seq<VertexID>>, reps: Seq<HalfEdgeID>, ks: Seq<(VertexID, VertexID)>)
    requires
        ks.len() == reps.len(),
    ensures
        grouping_inv(
            gs,
            reps,
            ks,
            0,
            Seq::new(reps.len(), |j: int| false),
            Seq::empty(),
            Seq::empty(),
            Seq::new(reps.len(), |j: int| -1int),
        ),
{
}

/// An index already taken is passed over.
proof fn lemma_grouping_skip(
    gs: Seq<Seq<VertexID>>,
    reps: Seq<HalfEdgeID>,
    ks: Seq<(VertexID, VertexID)>,
    i: int,
    taken: Seq<bool>,
    rs: Seq<Seq<HalfEdgeID>>,
    mem: Seq<Seq<int>>,
    owner: Seq<int>,
)
    requires
        grouping_inv(gs, reps, ks, i, taken, rs, mem, owner),
        i < reps.len(),
        taken[i],
    ensures
        grouping_inv(gs, reps, ks, i + 1, taken, rs, mem, owner),
{
    let n = reps.len() as int;
    assert(owner[i] >= 0);
    if disjoint_groups(gs) {
        let k = owner[i];
        let last = mem[k].last();
        assert(mem[k].len() >= 2);
        assert(owner[mem[k][mem[k].len() - 1]] == k);
        let mi = choose|m: int| 0 <= m < mem[k].len() && #[trigger] mem[k][m] == i;
        assert(edge_overlaps(gs, ks[last], ks[mem[k][mi]]));
        assert forall|p: int, q: int|
            0 <= p < i + 1 && 0 <= q < n && p != q && #[trigger] edge_overlaps(gs, ks[p], ks[q]) implies owner[p] >= 0
            && owner[p] == owner[q] by {
            if p == i {
                lemma_overlap_equivalence(gs, ks[last], ks[i], ks[q]);
                if q != last {
                    assert(edge_overlaps(gs, ks[last], ks[q]));
                }
            }
        }
    }
}

/// An index with no partner left is taken alone.
proof fn lemma_grouping_drop(
    gs: Seq<Seq<VertexID>>,
    reps: Seq<HalfEdgeID>,
    ks: Seq<(VertexID, VertexID)>,
    i: int,
    taken: Seq<bool>,
    rs: Seq<Seq<HalfEdgeID>>,
    mem: Seq<Seq<int>>,
    owner: Seq<int>,
)
    requires
        grouping_inv(gs, reps, ks, i, taken, rs, mem, owner),
        i < reps.len(),
        !taken[i],
        forall|q: int| i < q < reps.len() && !taken[q] ==> !edge_overlaps(gs, ks[i], #[trigger] ks[q]),
    ensures
        grouping_inv(gs, reps, ks, i + 1, taken.update(i, true), rs, mem, owner),
{
    let n = reps.len() as int;
    let taken2 = taken.update(i, true);
    assert(owner[i] < 0);
    if disjoint_groups(gs) {
        assert forall|p: int, q: int|
            0 <= p < i + 1 && 0 <= q < n && p != q && #[trigger] edge_overlaps(gs, ks[p], ks[q]) implies owner[p] >= 0
            && owner[p] == owner[q] by {
            if p == i {
                lemma_overlap_equivalence(gs, ks[i], ks[q], ks[i]);
                if q < i {
                    assert(edge_overlaps(gs, ks[q], ks[i]));
                    assert(false);
                } else {
                    assert(taken[q]);
                    let k = owner[q];
                    let last = mem[k].last();
                    assert(owner[mem[k][mem[k].len() - 1]] == k);
                    let mq = choose|m: int| 0 <= m < mem[k].len() && #[trigger] mem[k][m] == q;
                    assert(edge_overlaps(gs, ks[last], ks[mem[k][mq]]));
                    lemma_overlap_equivalence(gs, ks[last], ks[q], ks[i]);
                    assert(edge_overlaps(gs, ks[last], ks[i]));
                    assert(false);
                }
            }
        }
    }
    assert forall|j: int| 0 <= j < n && #[trigger] owner[j] >= 0 implies owner[j] < mem.len() && taken2[j] && exists|m: int|
        0 <= m < mem[owner[j]].len() && #[trigger] mem[owner[j]][m] == j by {
    }
    assert forall|p: int, q: int|
        0 <= p < i + 1 && 0 <= q < n && p != q && #[trigger] edge_overlaps(gs, ks[p], ks[q]) && edge_overlaps(gs, ks[q], ks[p])
            implies owner[p] >= 0 || owner[q] >= 0 by {
        if p == i {
            if q < i {
                assert(edge_overlaps(gs, ks[q], ks[p]));
            } else if !taken[q] {
                assert(!edge_overlaps(gs, ks[i], ks[q]));
            }
        }
    }
}

/// The indices in `idx` and then `i` become a new group.
proof fn lemma_grouping_new(
    gs: Seq<Seq<VertexID>>,
    reps: Seq<HalfEdgeID>,
    ks: Seq<(VertexID, VertexID)>,
    i: int,
    taken: Seq<bool>,
    rs: Seq<Seq<HalfEdgeID>>,
    mem: Seq<Seq<int>>,
    owner: Seq<int>,
    idx: Seq<int>,
    group: Seq<HalfEdgeID>,
)
    requires
        grouping_inv(gs, reps, ks, i, taken, rs, mem, owner),
        i < reps.len(),
        !taken[i],
        grouped(gs, ks[i].0),
        grouped(gs, ks[i].1),
        idx.len() >= 1,
        forall|a: int, b: int| 0 <= a < b < idx.len() ==> #[trigger] idx[a] < #[trigger] idx[b],
        forall|t: int|
            0 <= t < idx.len() ==> i < #[trigger] idx[t] < reps.len() && !taken[idx[t]] && edge_overlaps(gs, ks[i], ks[idx[t]]),
        forall|q: int| i < q < reps.len() && !taken[q] && edge_overlaps(gs, ks[i], #[trigger] ks[q]) ==> idx.contains(q),
        group.len() == idx.len() + 1,
        forall|t: int| 0 <= t < idx.len() ==> #[trigger] group[t] == reps[idx[t]],
        group.last() == reps[i],
    ensures
        grouping_inv(
            gs,
            reps,
            ks,
            i + 1,
            Seq::new(reps.len(), |j: int| taken[j] || idx.push(i).contains(j)),
            rs.push(group),
            mem.push(idx.push(i)),
            Seq::new(reps.len(), |j: int| if idx.push(i).contains(j) { mem.len() as int } else { owner[j] }),
        ),
{
    let n = reps.len() as int;
    let members = idx.push(i);
    let k0 = mem.len() as int;
    let taken2 = Seq::new(reps.len(), |j: int| taken[j] || members.contains(j));
    let rs2 = rs.push(group);
    let mem2 = mem.push(members);
    let owner2 = Seq::new(reps.len(), |j: int| if members.contains(j) { k0 } else { owner[j] });
    lemma_overlaps_itself(gs, ks[i]);
    assert(members.last() == i);
    assert forall|t: int| 0 <= t < members.len() implies owner[#[trigger] members[t]] < 0 by {
        if t < idx.len() {
            assert(!taken[idx[t]]);
        }
    }
    assert forall|j: int| 0 <= j < n && #[trigger] owner2[j] >= 0 implies owner2[j] < mem2.len() && taken2[j] && exists|m: int|
        0 <= m < mem2[owner2[j]].len() && #[trigger] mem2[owner2[j]][m] == j by {
        if members.contains(j) {
            let m = choose|m: int| 0 <= m < members.len() && members[m] == j;
            assert(mem2[k0][m] == j);
        } else {
            let m = choose|m: int| 0 <= m < mem[owner[j]].len() && #[trigger] mem[owner[j]][m] == j;
            assert(mem2[owner2[j]][m] == j);
        }
    }
    assert forall|j: int| i + 1 <= j < n && #[trigger] taken2[j] implies owner2[j] >= 0 by {
    }
    assert forall|k: int, m: int| 0 <= k < mem2.len() && 0 <= m < mem2[k].len() implies {
        &&& 0 <= #[trigger] mem2[k][m] < n
        &&& owner2[mem2[k][m]] == k
        &&& rs2[k][m] == reps[mem2[k][m]]
        &&& edge_overlaps(gs, ks[mem2[k].last()], ks[mem2[k][m]])
    } by {
        if k == k0 {
            assert(members.contains(members[m]));
            if m < idx.len() {
                assert(members[m] == idx[m]);
            }
        } else {
            let j = mem[k][m];
            if members.contains(j) {
                let t = choose|t: int| 0 <= t < members.len() && members[t] == j;
                assert(owner[members[t]] < 0);
            }
        }
    }
    assert forall|k: int, m1: int, m2: int|
        0 <= k < mem2.len() && 0 <= m1 < mem2[k].len() && 0 <= m2 < mem2[k].len() && m1 != m2 implies #[trigger] mem2[k][m1]
        != #[trigger] mem2[k][m2] by {
        if k == k0 {
            if m1 < idx.len() && m2 < idx.len() {
                if m1 < m2 {
                    assert(idx[m1] < idx[m2]);
                } else {
                    assert(idx[m2] < idx[m1]);
                }
            } else if m1 < idx.len() {
                assert(i < idx[m1]);
            } else if m2 < idx.len() {
                assert(i < idx[m2]);
            }
        }
    }
    if disjoint_groups(gs) {
        assert forall|p: int, q: int|
            0 <= p < i + 1 && 0 <= q < n && p != q && #[trigger] edge_overlaps(gs, ks[p], ks[q]) implies owner2[p] >= 0
            && owner2[p] == owner2[q] by {
            if p == i {
                lemma_overlap_equivalence(gs, ks[i], ks[q], ks[i]);
                if q < i {
                    assert(edge_overlaps(gs, ks[q], ks[i]));
                    assert(false);
                } else if taken[q] {
                    let k = owner[q];
                    let last = mem[k].last();
                    assert(owner[mem[k][mem[k].len() - 1]] == k);
                    let mq = choose|m: int| 0 <= m < mem[k].len() && #[trigger] mem[k][m] == q;
                    assert(edge_overlaps(gs, ks[last], ks[mem[k][mq]]));
                    lemma_overlap_equivalence(gs, ks[last], ks[q], ks[i]);
                    assert(edge_overlaps(gs, ks[last], ks[i]));
                    assert(false);
                } else {
                    assert(idx.contains(q));
                    let t = choose|t: int| 0 <= t < idx.len() && idx[t] == q;
                    assert(members[t] == q);
                    assert(members.contains(q));
                    assert(members[members.len() - 1] == i);
                    assert(members.contains(i));
                }
            } else {
                assert(owner[p] >= 0 && owner[p] == owner[q]);
                if members.contains(p) {
                    let t = choose|t: int| 0 <= t < members.len() && members[t] == p;
                    assert(owner[members[t]] < 0);
                }
                if members.contains(q) {
                    let t = choose|t: int| 0 <= t < members.len() && members[t] == q;
                    assert(owner[members[t]] < 0);
                }
            }
        }
    }
    assert forall|p: int, q: int|
        0 <= p < i + 1 && 0 <= q < n && p != q && #[trigger] edge_overlaps(gs, ks[p], ks[q]) && edge_overlaps(gs, ks[q], ks[p])
            implies owner2[p] >= 0 || owner2[q] >= 0 by {
        if p != i {
            assert(owner[p] >= 0 || owner[q] >= 0);
        }
    }
}

/// When all indices are handled, the groups found are the groups of overlapping edges.
proof fn lemma_grouping_done(
    c: ConnectivityInfo,
    gs: Seq<Seq<VertexID>>,
    reps: Seq<HalfEdgeID>,
    ks: Seq<(VertexID, VertexID)>,
    taken: Seq<bool>,
    rs: Seq<Seq<HalfEdgeID>>,
    mem: Seq<Seq<int>>,
    owner: Seq<int>,
)
    requires
        grouping_inv(gs, reps, ks, reps.len() as int, taken, rs, mem, owner),
        forall|j: int| 0 <= j < reps.len() ==> #[trigger] ks[j] == edge_key(c, reps[j]),
        forall|j: int| 0 <= j < reps.len() ==> #[trigger] c.has_halfedge(reps[j]) && points_up(c, reps[j]),
        forall|a: int, b: int| 0 <= a < b < reps.len() ==> edge_key(c, #[trigger] reps[a]) != edge_key(c, #[trigger] reps[b]),
        forall|h: HalfEdgeID|
            #[trigger] c.has_halfedge(h) ==> exists|j: int| 0 <= j < reps.len() && edge_key(c, #[trigger] reps[j]) == edge_key(c, h),
    ensures
        overlapping_edge_groups(c, gs, rs),
        disjoint_groups(gs) ==> complete_edge_groups(c, gs, rs),
        mutual_overlaps_grouped(c, gs, rs),
{
    let n = reps.len() as int;
    assert forall|h1: HalfEdgeID, h2: HalfEdgeID|
        c.has_halfedge(h1) && c.has_halfedge(h2) && edge_key(c, h1) != edge_key(c, h2) && #[trigger] edge_overlaps(
            gs,
            edge_key(c, h1),
            edge_key(c, h2),
        ) && edge_overlaps(gs, edge_key(c, h2), edge_key(c, h1)) implies exists|k: int, m: int|
        0 <= k < rs.len() && 0 <= m < rs[k].len() && (edge_key(c, #[trigger] rs[k][m]) == edge_key(c, h1) || edge_key(
            c,
            rs[k][m],
        ) == edge_key(c, h2)) by {
        let j1 = choose|j: int| 0 <= j < n && edge_key(c, #[trigger] reps[j]) == edge_key(c, h1);
        let j2 = choose|j: int| 0 <= j < n && edge_key(c, #[trigger] reps[j]) == edge_key(c, h2);
        assert(ks[j1] == edge_key(c, h1));
        assert(ks[j2] == edge_key(c, h2));
        assert(edge_overlaps(gs, ks[j1], ks[j2]));
        let j = if owner[j1] >= 0 { j1 } else { j2 };
        assert(owner[j] >= 0);
        let k = owner[j];
        let m = choose|m: int| 0 <= m < mem[owner[j]].len() && #[trigger] mem[owner[j]][m] == j;
        assert(rs[k][m] == reps[j]);
    }
    assert forall|k: int| 0 <= k < rs.len() implies #[trigger] rs[k].len() >= 2 by {
        assert(mem[k].len() >= 2);
    }
    assert forall|k: int, m: int| 0 <= k < rs.len() && 0 <= m < rs[k].len() implies {
        &&& c.has_halfedge(#[trigger] rs[k][m])
        &&& points_up(c, rs[k][m])
        &&& edge_overlaps(gs, edge_key(c, rs[k].last()), edge_key(c, rs[k][m]))
    } by {
        let l = mem[k].len() - 1;
        assert(rs[k][l] == reps[mem[k][l]]);
        assert(0 <= mem[k][m] < n);
        assert(ks[mem[k][m]] == edge_key(c, reps[mem[k][m]]));
        assert(0 <= mem[k][l] < n);
        assert(ks[mem[k][l]] == edge_key(c, reps[mem[k][l]]));
        assert(rs[k].last() == rs[k][l]);
        assert(mem[k].last() == mem[k][l]);
    }
    assert forall|k1: int, m1: int, k2: int, m2: int|
        0 <= k1 < rs.len() && 0 <= m1 < rs[k1].len() && 0 <= k2 < rs.len() && 0 <= m2 < rs[k2].len() && (k1 != k2 || m1
            != m2) implies edge_key(c, #[trigger] rs[k1][m1]) != edge_key(c, #[trigger] rs[k2][m2]) by {
        let j1 = mem[k1][m1];
        let j2 = mem[k2][m2];
        assert(rs[k1][m1] == reps[j1]);
        assert(rs[k2][m2] == reps[j2]);
        if j1 == j2 {
            assert(owner[j1] == k1 && owner[j2] == k2);
            assert(mem[k1][m1] != mem[k1][m2]);
        } else if j1 < j2 {
            assert(edge_key(c, reps[j1]) != edge_key(c, reps[j2]));
        } else {
            assert(edge_key(c, reps[j2]) != edge_key(c, reps[j1]));
        }
    }
    if disjoint_groups(gs) {
        assert forall|h1: HalfEdgeID, h2: HalfEdgeID|
            c.has_halfedge(h1) && c.has_halfedge(h2) && edge_key(c, h1) != edge_key(c, h2) && #[trigger] edge_overlaps(
                gs,
                edge_key(c, h1),
                edge_key(c, h2),
            ) implies exists|k: int, m1: int, m2: int|
            0 <= k < rs.len() && 0 <= m1 < rs[k].len() && 0 <= m2 < rs[k].len() && edge_key(c, #[trigger] rs[k][m1])
                == edge_key(c, h1) && edge_key(c, #[trigger] rs[k][m2]) == edge_key(c, h2) by {
            let j1 = choose|j: int| 0 <= j < n && edge_key(c, #[trigger] reps[j]) == edge_key(c, h1);
            let j2 = choose|j: int| 0 <= j < n && edge_key(c, #[trigger] reps[j]) == edge_key(c, h2);
            assert(ks[j1] == edge_key(c, h1));
            assert(ks[j2] == edge_key(c, h2));
            assert(edge_overlaps(gs, ks[j1], ks[j2]));
            let k = owner[j1];
            assert(owner[j2] == k);
            let m1 = choose|m: int| 0 <= m < mem[owner[j1]].len() && #[trigger] mem[owner[j1]][m] == j1;
            let m2 = choose|m: int| 0 <= m < mem[owner[j2]].len() && #[trigger] mem[owner[j2]][m] == j2;
            assert(rs[k][m1] == reps[j1]);
            assert(rs[k][m2] == reps[j2]);
        }
    }
}

/// The corners of face `f`: where its halfedge points to, then where the next two halfedges
/// point to.
pub open spec fn corners(c: ConnectivityInfo, f: FaceID) -> (VertexID, VertexID, VertexID) {
    let h = c.face_at(f).halfedge;
    (c.vertex_of(h)->Some_0, c.vertex_of(c.next_of(h))->Some_0, c.vertex_of(c.next_of(c.next_of(h)))->Some_0)
}

/// Whether every corner of face `f` is in a group.
pub open spec fn face_grouped(c: ConnectivityInfo, groups: Seq<Seq<VertexID>>, f: FaceID) -> bool {
    let (a, b, d) = corners(c, f);
    grouped(groups, a) && grouped(groups, b) && grouped(groups, d)
}

/// Whether vertex `v` is in one of the groups that first hold the corners of face `f`.
pub open spec fn near_face(c: ConnectivityInfo, groups: Seq<Seq<VertexID>>, f: FaceID, v: VertexID) -> bool {
    let (a, b, d) = corners(c, f);
    ||| groups[group_of(groups, a) as int].contains(v)
    ||| groups[group_of(groups, b) as int].contains(v)
    ||| groups[group_of(groups, d) as int].contains(v)
}

/// Whether every corner of face `f1` is in a group and every corner of face `f2` is in one
/// of those groups.
pub open spec fn face_overlaps(c: ConnectivityInfo, groups: Seq<Seq<VertexID>>, f1: FaceID, f2: FaceID) -> bool {
    let (a, b, d) = corners(c, f2);
    &&& face_grouped(c, groups, f1)
    &&& near_face(c, groups, f1, a)
    &&& near_face(c, groups, f1, b)
    &&& near_face(c, groups, f1, d)
}

/// Whether `r` lists, in increasing order of their first faces, one group for each face
/// whose corners are in groups and that a face of larger index overlaps: the face, then
/// every face of larger index that overlaps it, in increasing order.
pub open spec fn overlapping_face_groups(c: ConnectivityInfo, groups: Seq<Seq<VertexID>>, r: Seq<Seq<FaceID>>) -> bool {
    &&& forall|k: int|
        0 <= k < r.len() ==> #[trigger] r[k].len() >= 2 && c.has_face(r[k][0]) && face_grouped(c, groups, r[k][0])
    &&& forall|k: int, m: int|
        0 <= k < r.len() && 1 <= m < r[k].len() ==> c.has_face(#[trigger] r[k][m]) && r[k][m].index() > r[k][0].index()
            && face_overlaps(c, groups, r[k][0], r[k][m])
    &&& forall|k: int, a: int, b: int|
        0 <= k < r.len() && 0 <= a < b < r[k].len() ==> (#[trigger] r[k][a]).index() < (#[trigger] r[k][b]).index()
    &&& forall|k: int, f: FaceID|
        0 <= k < r.len() && c.has_face(f) && f.index() > r[k][0].index() && #[trigger] face_overlaps(c, groups, r[k][0], f)
            ==> r[k].contains(f)
    &&& forall|k1: int, k2: int| 0 <= k1 < k2 < r.len() ==> (#[trigger] r[k1][0]).index() < (#[trigger] r[k2][0]).index()
    &&& forall|f1: FaceID, f2: FaceID|
        c.has_face(f1) && c.has_face(f2) && f2.index() > f1.index() && #[trigger] face_overlaps(c, groups, f1, f2)
            ==> exists|k: int| 0 <= k < r.len() && #[trigger] r[k][0] == f1
}

/// Whether vertex `v` is in `group`.
fn vertex_in(group: &Vec<VertexID>, v: &VertexID) -> (r: bool)
    ensures
        r == group@.contains(*v),
{
    let mut i: usize = 0;
    while i < group.len()
        invariant
            i <= group@.len(),
            forall|k: int| 0 <= k < i ==> group@[k] != *v,
        decreases group@.len() - i,
    {
        if group[i] == *v {
            return true;
        }
        i = i + 1;
    }
    false
}

/// The index of the first group that holds vertex `v`, or the number of groups where none
/// does.
fn find_group(groups: &Vec<Vec<VertexID>>, v: &VertexID) -> (r: usize)
    ensures
        r == group_of(group_seqs(groups@), *v),
{
    let ghost gs = group_seqs(groups@);
    let mut g: usize = 0;
    while g < groups.len()
        invariant
            gs == group_seqs(groups@),
            g <= groups@.len(),
            group_from(gs, *v, g as nat) == group_of(gs, *v),
        decreases groups@.len() - g,
    {
        if vertex_in(&groups[g], v) {
            return g;
        }
        g = g + 1;
    }
    g
}

/// Where each edge of a halfedge pointing to the vertex of larger index has its key listed,
/// with a representative of that key, every halfedge has a representative of its edge.
proof fn lemma_representatives_cover(
    c: ConnectivityInfo,
    halfedges: Seq<HalfEdgeID>,
    keys: Seq<(VertexID, VertexID)>,
    reps: Seq<HalfEdgeID>,
)
    requires
        c.is_valid(),
        forall|h: HalfEdgeID| #[trigger] c.has_halfedge(h) ==> halfedges.contains(h),
        keys.len() == reps.len(),
        forall|j: int| 0 <= j < reps.len() ==> #[trigger] keys[j] == edge_key(c, reps[j]),
        forall|a: int| 0 <= a < halfedges.len() && points_up(c, halfedges[a]) ==> #[trigger] keys.contains(edge_key(c, halfedges[a])),
    ensures
        forall|h: HalfEdgeID|
            #[trigger] c.has_halfedge(h) ==> exists|j: int| 0 <= j < reps.len() && edge_key(c, #[trigger] reps[j]) == edge_key(c, h),
{
    assert forall|h: HalfEdgeID| #[trigger] c.has_halfedge(h) implies exists|j: int|
        0 <= j < reps.len() && edge_key(c, #[trigger] reps[j]) == edge_key(c, h) by {
        c.lemma_valid_halfedge(h);
        let t = c.halfedge_at(h).twin->Some_0;
        c.lemma_valid_halfedge(t);
        assert(edge_key(c, t) == edge_key(c, h));
        let up = if points_up(c, h) { h } else { t };
        assert(points_up(c, up));
        assert(c.has_halfedge(up));
        assert(halfedges.contains(up));
        let a = choose|a: int| 0 <= a < halfedges.len() && halfedges[a] == up;
        assert(keys.contains(edge_key(c, halfedges[a])));
        let j = choose|j: int| 0 <= j < keys.len() && keys[j] == edge_key(c, up);
        assert(keys[j] == edge_key(c, reps[j]));
    }
}

/// Whether `key` is among `keys`.
fn key_seen(keys: &Vec<(VertexID, VertexID)>, key: &(VertexID, VertexID)) -> (r: bool)
    ensures
        r == keys@.contains(*key),
{
    let mut j: usize = 0;
    while j < keys.len()
        invariant
            j <= keys@.len(),
            forall|a: int| 0 <= a < j ==> keys@[a] != *key,
        decreases keys@.len() - j,
    {
        if keys[j].0 == key.0 && keys[j].1 == key.1 {
            assert(keys@[j as int] == *key);
            return true;
        }
        j = j + 1;
    }
    false
}

impl<P: Copy> DynamicMesh<P> {
    /// One halfedge of each edge, the one pointing to the vertex of larger index (where both
    /// vertices are the same, the first), in increasing order of halfedge index.
    fn edge_representatives(&self) -> (r: Vec<HalfEdgeID>)
        requires
            self.wf(),
            self.connectivity().is_valid(),
        ensures
            forall|j: int| 0 <= j < r@.len() ==> #[trigger] self.connectivity().has_halfedge(r@[j]) && points_up(self.connectivity(), r@[j]),
            forall|a: int, b: int|
                0 <= a < b < r@.len() ==> edge_key(self.connectivity(), #[trigger] r@[a]) != edge_key(self.connectivity(), #[trigger] r@[b]),
            forall|h: HalfEdgeID|
                #[trigger] self.connectivity().has_halfedge(h) ==> exists|j: int|
                    0 <= j < r@.len() && edge_key(self.connectivity(), #[trigger] r@[j]) == edge_key(self.connectivity(), h),
    {
        let ghost c = self.connectivity();
        let halfedges = self.halfedge_iterator();
        let mut keys: Vec<(VertexID, VertexID)> = Vec::new();
        let mut reps: Vec<HalfEdgeID> = Vec::new();
        let mut i: usize = 0;
        while i < halfedges.len()
            invariant
                self.wf(),
                c == self.connectivity(),
                c.is_valid(),
                i <= halfedges@.len(),
                forall|a: int| 0 <= a < halfedges@.len() ==> #[trigger] c.has_halfedge(halfedges@[a]),
                forall|h: HalfEdgeID| #[trigger] c.has_halfedge(h) ==> halfedges@.contains(h),
                keys@.len() == reps@.len(),
                forall|j: int| 0 <= j < reps@.len() ==> #[trigger] keys@[j] == edge_key(c, reps@[j]),
                forall|j: int| 0 <= j < reps@.len() ==> #[trigger] c.has_halfedge(reps@[j]) && points_up(c, reps@[j]),
                forall|a: int, b: int| 0 <= a < b < keys@.len() ==> #[trigger] keys@[a] != #[trigger] keys@[b],
                forall|a: int|
                    0 <= a < i && points_up(c, halfedges@[a]) ==> #[trigger] keys@.contains(edge_key(c, halfedges@[a])),
            decreases halfedges@.len() - i,
        {
            let halfedge_id = halfedges[i];
            proof {
                assert(c.has_halfedge(halfedges@[i as int]));
                c.lemma_valid_halfedge(halfedge_id);
            }
            let (v1, v2) = self.edge_vertices(&halfedge_id);
            let key = self.ordered_edge_vertices(&halfedge_id);
            let ghost keys0 = keys@;
            if v1 == key.1 && !key_seen(&keys, &key) {
                keys.push(key);
                reps.push(halfedge_id);
            }
            proof {
                assert forall|x: (VertexID, VertexID)| keys0.contains(x) implies #[trigger] keys@.contains(x) by {
                    let a = choose|a: int| 0 <= a < keys0.len() && keys0[a] == x;
                    assert(keys@[a] == x);
                }
                assert(keys@.contains(key) || !points_up(c, halfedge_id)) by {
                    if points_up(c, halfedge_id) && !keys0.contains(key) {
                        assert(keys@[keys@.len() - 1] == key);
                    }
                }
                assert forall|a: int|
                    0 <= a < i + 1 && points_up(c, halfedges@[a]) implies #[trigger] keys@.contains(edge_key(c, halfedges@[a])) by {
                    if a < i {
                        assert(keys0.contains(edge_key(c, halfedges@[a])));
                    }
                }
            }
            i = i + 1;
        }
        proof {
            lemma_representatives_cover(c, halfedges@, keys@, reps@);
            assert forall|a: int, b: int| 0 <= a < b < reps@.len() implies edge_key(c, #[trigger] reps@[a]) != edge_key(
                c,
                #[trigger] reps@[b],
            ) by {
                assert(keys@[a] == edge_key(c, reps@[a]));
                assert(keys@[b] == edge_key(c, reps@[b]));
            }
        }
        reps
    }

    /// Groups the edges that join the same two groups of vertices (vertices at one place, to
    /// be merged). Each edge not yet taken whose vertices are both in groups is taken in turn,
    /// in the order of the representatives, with the edges not yet taken that join the groups
    /// that first hold its vertices; where there are any, they make a group that lists a
    /// halfedge of each such edge and, last, one of the edge taken. The halfedge listed is the
    /// one pointing to the vertex of larger index.
    pub fn find_overlapping_edges(&self, set_of_vertices_to_merge: &Vec<Vec<VertexID>>) -> (r: Vec<Vec<HalfEdgeID>>)
        requires
            self.wf(),
            self.connectivity().is_valid(),
        ensures
            overlapping_edge_groups(
                self.connectivity(),
                group_seqs(set_of_vertices_to_merge@),
                r@.map_values(|g: Vec<HalfEdgeID>| g@),
            ),
            disjoint_groups(group_seqs(set_of_vertices_to_merge@)) ==> complete_edge_groups(
                self.connectivity(),
                group_seqs(set_of_vertices_to_merge@),
                r@.map_values(|g: Vec<HalfEdgeID>| g@),
            ),
            mutual_overlaps_grouped(
                self.connectivity(),
                group_seqs(set_of_vertices_to_merge@),
                r@.map_values(|g: Vec<HalfEdgeID>| g@),
            ),
    {
        let ghost c = self.connectivity();
        let groups = set_of_vertices_to_merge;
        let ghost gs = group_seqs(groups@);
        let reps = self.edge_representatives();
        let n = reps.len();
        let ghost ks = Seq::new(n as nat, |j: int| edge_key(c, reps@[j]));
        let mut taken: Vec<bool> = Vec::new();
        let mut t: usize = 0;
        while t < n
            invariant
                t <= n,
                taken@ == Seq::new(t as nat, |j: int| false),
            decreases n - t,
        {
            taken.push(false);
            proof {
                assert(taken@ =~= Seq::new((t + 1) as nat, |j: int| false));
            }
            t = t + 1;
        }
        let mut result: Vec<Vec<HalfEdgeID>> = Vec::new();
        let ghost mut mem: Seq<Seq<int>> = Seq::empty();
        let ghost mut owner: Seq<int> = Seq::new(n as nat, |j: int| -1int);
        proof {
            lemma_grouping_start(gs, reps@, ks);
            assert(result@.map_values(|g: Vec<HalfEdgeID>| g@) =~= Seq::<Seq<HalfEdgeID>>::empty());
        }
        let mut i: usize = 0;
        while i < n
            invariant
                self.wf(),
                c == self.connectivity(),
                c.is_valid(),
                gs == group_seqs(groups@),
                n == reps@.len(),
                ks == Seq::new(n as nat, |j: int| edge_key(c, reps@[j])),
                forall|j: int| 0 <= j < reps@.len() ==> #[trigger] c.has_halfedge(reps@[j]) && points_up(c, reps@[j]),
                i <= n,
                grouping_inv(gs, reps@, ks, i as int, taken@, result@.map_values(|g: Vec<HalfEdgeID>| g@), mem, owner),
            decreases n - i,
        {
            let ghost rs = result@.map_values(|g: Vec<HalfEdgeID>| g@);
            let ghost taken0 = taken@;
            if taken[i] {
                proof {
                    lemma_grouping_skip(gs, reps@, ks, i as int, taken@, rs, mem, owner);
                }
            } else {
                proof {
                    assert(c.has_halfedge(reps@[i as int]));
                }
                let key = self.ordered_edge_vertices(&reps[i]);
                let ga = find_group(groups, &key.0);
                let gb = find_group(groups, &key.1);
                let mut idx: Vec<usize> = Vec::new();
                if ga < groups.len() && gb < groups.len() {
                    let mut j: usize = i + 1;
                    while j < n
                        invariant
                            self.wf(),
                            c == self.connectivity(),
                            c.is_valid(),
                            gs == group_seqs(groups@),
                            n == reps@.len(),
                            ks == Seq::new(n as nat, |j: int| edge_key(c, reps@[j])),
                            forall|j: int| 0 <= j < reps@.len() ==> #[trigger] c.has_halfedge(reps@[j]) && points_up(c, reps@[j]),
                            taken@ == taken0,
                            taken@.len() == n,
                            i < j <= n,
                            key == ks[i as int],
                            ga as nat == group_of(gs, key.0),
                            gb as nat == group_of(gs, key.1),
                            ga < groups@.len(),
                            gb < groups@.len(),
                            forall|a: int, b: int| 0 <= a < b < idx@.len() ==> #[trigger] idx@[a] < #[trigger] idx@[b],
                            forall|u: int|
                                0 <= u < idx@.len() ==> i < #[trigger] idx@[u] < j && !taken@[idx@[u] as int] && edge_overlaps(
                                    gs,
                                    ks[i as int],
                                    ks[idx@[u] as int],
                                ),
                            forall|q: int|
                                i < q < j && !taken@[q] && edge_overlaps(gs, ks[i as int], #[trigger] ks[q]) ==> idx@.contains(
                                    q as usize,
                                ),
                        decreases n - j,
                    {
                        if !taken[j] {
                            proof {
                                assert(c.has_halfedge(reps@[j as int]));
                            }
                            let kj = self.ordered_edge_vertices(&reps[j]);
                            let hit = (vertex_in(&groups[ga], &kj.0) && vertex_in(&groups[gb], &kj.1)) || (vertex_in(
                                &groups[gb],
                                &kj.0,
                            ) && vertex_in(&groups[ga], &kj.1));
                            proof {
                                assert(gs[ga as int] == groups@[ga as int]@);
                                assert(gs[gb as int] == groups@[gb as int]@);
                                assert(hit == edge_overlaps(gs, ks[i as int], ks[j as int]));
                            }
                            if hit {
                                let ghost idx0 = idx@;
                                idx.push(j);
                                proof {
                                    assert forall|q: int|
                                        i < q < j + 1 && !taken@[q] && edge_overlaps(gs, ks[i as int], #[trigger] ks[q]) implies idx@.contains(
                                        q as usize,
                                    ) by {
                                        if q < j {
                                            let a = choose|a: int| 0 <= a < idx0.len() && idx0[a] == q as usize;
                                            assert(idx@[a] == q as usize);
                                        } else {
                                            assert(idx@[idx@.len() - 1] == q as usize);
                                        }
                                    }
                                }
                            }
                        }
                        j = j + 1;
                    }
                } else {
                    proof {
                        assert forall|q: int| i < q < n && !taken@[q] implies !edge_overlaps(gs, ks[i as int], #[trigger] ks[q]) by {
                            if grouped(gs, ks[i as int].0) {
                                assert(ga as nat == group_of(gs, key.0));
                            }
                        }
                    }
                }
                if idx.len() > 0 {
                    let ghost idxi = idx@.map_values(|x: usize| x as int);
                    let mut group: Vec<HalfEdgeID> = Vec::new();
                    let mut u: usize = 0;
                    while u < idx.len()
                        invariant
                            n == reps@.len(),
                            taken@.len() == n,
                            u <= idx@.len(),
                            idxi == idx@.map_values(|x: usize| x as int),
                            forall|a: int| 0 <= a < idx@.len() ==> i < #[trigger] idx@[a] < n,
                            group@.len() == u,
                            forall|a: int| 0 <= a < u ==> #[trigger] group@[a] == reps@[idxi[a]],
                            forall|q: int|
                                0 <= q < n ==> #[trigger] taken@[q] == (taken0[q] || exists|a: int| 0 <= a < u && idxi[a] == q),
                        decreases idx@.len() - u,
                    {
                        let q = idx[u];
                        group.push(reps[q]);
                        taken.set(q, true);
                        proof {
                            assert forall|p: int| 0 <= p < n implies #[trigger] taken@[p] == (taken0[p] || exists|a: int|
                                0 <= a < u + 1 && idxi[a] == p) by {
                                if p == q as int {
                                    assert(idxi[u as int] == p);
                                }
                            }
                        }
                        u = u + 1;
                    }
                    group.push(reps[i]);
                    let ghost taken1 = taken@;
                    taken.set(i, true);
                    proof {
                        let members = idxi.push(i as int);
                        assert forall|a: int, b: int| 0 <= a < b < idxi.len() implies #[trigger] idxi[a] < #[trigger] idxi[b] by {
                            assert(idx@[a] < idx@[b]);
                        }
                        assert forall|q: int| i < q < n && !taken0[q] && edge_overlaps(gs, ks[i as int], #[trigger] ks[q]) implies idxi.contains(q) by {
                            assert(idx@.contains(q as usize));
                            let a = choose|a: int| 0 <= a < idx@.len() && idx@[a] == q as usize;
                            assert(idxi[a] == q);
                        }
                        assert forall|a: int| 0 <= a < idxi.len() implies i < #[trigger] idxi[a] < n && !taken0[idxi[a]] && edge_overlaps(
                            gs,
                            ks[i as int],
                            ks[idxi[a]],
                        ) by {
                            assert(idxi[a] == idx@[a] as int);
                        }
                        lemma_overlaps_itself(gs, ks[i as int]);
                        lemma_grouping_new(gs, reps@, ks, i as int, taken0, rs, mem, owner, idxi, group@);
                        assert(taken@ =~= Seq::new(n as nat, |q: int| taken0[q] || members.contains(q))) by {
                            assert forall|q: int| 0 <= q < n implies taken@[q] == (taken0[q] || members.contains(q)) by {
                                if q == i as int {
                                    assert(members[members.len() - 1] == q);
                                } else {
                                    assert(taken@[q] == taken1[q]);
                                }
                                if exists|a: int| 0 <= a < idx@.len() && idxi[a] == q {
                                    let a = choose|a: int| 0 <= a < idx@.len() && idxi[a] == q;
                                    assert(members[a] == q);
                                }
                                if members.contains(q) && q != i {
                                    let a = choose|a: int| 0 <= a < members.len() && members[a] == q;
                                    assert(a < idxi.len());
                                    assert(idxi[a] == q);
                                }
                            }
                        }
                        owner = Seq::new(n as nat, |q: int| if members.contains(q) { mem.len() as int } else { owner[q] });
                        mem = mem.push(members);
                    }
                    result.push(group);
                    proof {
                        assert(result@.map_values(|g: Vec<HalfEdgeID>| g@) =~= rs.push(group@));
                    }
                } else {
                    taken.set(i, true);
                    proof {
                        if ga < groups.len() && gb < groups.len() {
                            assert forall|q: int| i < q < n && !taken0[q] implies !edge_overlaps(gs, ks[i as int], #[trigger] ks[q]) by {
                                if edge_overlaps(gs, ks[i as int], ks[q]) {
                                    assert(idx@.contains(q as usize));
                                }
                            }
                        }
                        lemma_grouping_drop(gs, reps@, ks, i as int, taken0, rs, mem, owner);
                    }
                }
            }
            i = i + 1;
        }
        proof {
            lemma_grouping_done(c, gs, reps@, ks, taken@, result@.map_values(|g: Vec<HalfEdgeID>| g@), mem, owner);
        }
        result
    }

    /// Groups each face whose corners are in groups of vertices (vertices at one place, to be
    /// merged) with the faces of larger index whose corners are all in the groups that first
    /// hold its corners, where there are any.
    pub fn find_overlapping_faces(&self, set_of_vertices_to_merge: &Vec<Vec<VertexID>>) -> (r: Vec<Vec<FaceID>>)
        requires
            self.wf(),
            self.connectivity().is_valid(),
        ensures
            overlapping_face_groups(
                self.connectivity(),
                group_seqs(set_of_vertices_to_merge@),
                r@.map_values(|g: Vec<FaceID>| g@),
            ),
    {
        let ghost c = self.connectivity();
        let groups = set_of_vertices_to_merge;
        let ghost gs = group_seqs(groups@);
        let faces = self.face_iterator();
        let mut result: Vec<Vec<FaceID>> = Vec::new();
        let mut i: usize = 0;
        while i < faces.len()
            invariant
                self.wf(),
                c == self.connectivity(),
                c.is_valid(),
                gs == group_seqs(groups@),
                i <= faces@.len(),
                forall|a: int, b: int| 0 <= a < b < faces@.len() ==> (#[trigger] faces@[a]).index() < (#[trigger] faces@[b]).index(),
                forall|a: int| 0 <= a < faces@.len() ==> #[trigger] c.has_face(faces@[a]),
                forall|f: FaceID| #[trigger] c.has_face(f) ==> faces@.contains(f),
                forall|k: int|
                    0 <= k < result@.len() ==> #[trigger] result@[k]@.len() >= 2 && c.has_face(result@[k]@[0])
                        && face_grouped(c, gs, result@[k]@[0]),
                forall|k: int, m: int|
                    0 <= k < result@.len() && 1 <= m < result@[k]@.len() ==> c.has_face(#[trigger] result@[k]@[m])
                        && result@[k]@[m].index() > result@[k]@[0].index() && face_overlaps(c, gs, result@[k]@[0], result@[k]@[m]),
                forall|k: int, a: int, b: int|
                    0 <= k < result@.len() && 0 <= a < b < result@[k]@.len() ==> (#[trigger] result@[k]@[a]).index()
                        < (#[trigger] result@[k]@[b]).index(),
                forall|k: int, f: FaceID|
                    0 <= k < result@.len() && c.has_face(f) && f.index() > result@[k]@[0].index() && #[trigger] face_overlaps(
                        c,
                        gs,
                        result@[k]@[0],
                        f,
                    ) ==> result@[k]@.contains(f),
                forall|k: int| 0 <= k < result@.len() ==> exists|a: int| 0 <= a < i && #[trigger] result@[k]@[0] == faces@[a],
                forall|k1: int, k2: int|
                    0 <= k1 < k2 < result@.len() ==> (#[trigger] result@[k1]@[0]).index() < (#[trigger] result@[k2]@[0]).index(),
                forall|a: int, f2: FaceID|
                    0 <= a < i && c.has_face(f2) && f2.index() > faces@[a].index() && #[trigger] face_overlaps(c, gs, faces@[a], f2)
                        ==> exists|k: int| 0 <= k < result@.len() && #[trigger] result@[k]@[0] == faces@[a],
            decreases faces@.len() - i,
        {
            let face_id1 = faces[i];
            proof {
                assert(c.has_face(faces@[i as int]));
            }
            let (v0, v1, v2) = self.face_vertices(&face_id1);
            let g0 = find_group(groups, &v0);
            let g1 = find_group(groups, &v1);
            let g2 = find_group(groups, &v2);
            let ghost result0 = result@;
            if g0 < groups.len() && g1 < groups.len() && g2 < groups.len() {
                let mut group: Vec<FaceID> = Vec::new();
                group.push(face_id1);
                let ghost mut pos: Seq<int> = seq![i as int];
                let mut j: usize = 0;
                while j < faces.len()
                    invariant
                        self.wf(),
                        c == self.connectivity(),
                        c.is_valid(),
                        gs == group_seqs(groups@),
                        i < faces@.len(),
                        j <= faces@.len(),
                        face_id1 == faces@[i as int],
                        corners(c, face_id1) == (v0, v1, v2),
                        g0 as nat == group_of(gs, v0),
                        g1 as nat == group_of(gs, v1),
                        g2 as nat == group_of(gs, v2),
                        g0 < groups@.len(),
                        g1 < groups@.len(),
                        g2 < groups@.len(),
                        forall|a: int, b: int|
                            0 <= a < b < faces@.len() ==> (#[trigger] faces@[a]).index() < (#[trigger] faces@[b]).index(),
                        forall|a: int| 0 <= a < faces@.len() ==> #[trigger] c.has_face(faces@[a]),
                        forall|f: FaceID| #[trigger] c.has_face(f) ==> faces@.contains(f),
                        group@.len() >= 1,
                        group@[0] == face_id1,
                        pos.len() == group@.len(),
                        pos[0] == i,
                        forall|t: int| 1 <= t < pos.len() ==> 0 <= #[trigger] pos[t] < j && pos[t] > i,
                        forall|t: int| 0 <= t < pos.len() ==> #[trigger] group@[t] == faces@[pos[t]],
                        forall|a: int, b: int| 1 <= a < b < pos.len() ==> #[trigger] pos[a] < #[trigger] pos[b],
                        forall|t: int| 1 <= t < group@.len() ==> face_overlaps(c, gs, face_id1, #[trigger] group@[t]),
                        forall|b: int|
                            0 <= b < j && faces@[b].index() > face_id1.index() && face_overlaps(c, gs, face_id1, #[trigger] faces@[b])
                                ==> group@.contains(faces@[b]),
                    decreases faces@.len() - j,
                {
                    let face_id2 = faces[j];
                    proof {
                        assert(c.has_face(faces@[j as int]));
                        assert(c.has_face(faces@[i as int]));
                    }
                    if face_id1.val() < face_id2.val() {
                        let (w0, w1, w2) = self.face_vertices(&face_id2);
                        let near0 = vertex_in(&groups[g0], &w0) || vertex_in(&groups[g1], &w0) || vertex_in(&groups[g2], &w0);
                        let near1 = vertex_in(&groups[g0], &w1) || vertex_in(&groups[g1], &w1) || vertex_in(&groups[g2], &w1);
                        let near2 = vertex_in(&groups[g0], &w2) || vertex_in(&groups[g1], &w2) || vertex_in(&groups[g2], &w2);
                        proof {
                            assert(gs[g0 as int] == groups@[g0 as int]@);
                            assert(gs[g1 as int] == groups@[g1 as int]@);
                            assert(gs[g2 as int] == groups@[g2 as int]@);
                            assert(corners(c, face_id2) == (w0, w1, w2));
                            assert((near0 && near1 && near2) == face_overlaps(c, gs, face_id1, face_id2));
                            if j <= i {
                                if j < i {
                                    assert(faces@[j as int].index() < faces@[i as int].index());
                                }
                                assert(false);
                            }
                        }
                        if near0 && near1 && near2 {
                            let ghost group0 = group@;
                            group.push(face_id2);
                            proof {
                                pos = pos.push(j as int);
                                assert forall|b: int|
                                    0 <= b < j + 1 && faces@[b].index() > face_id1.index() && face_overlaps(
                                        c,
                                        gs,
                                        face_id1,
                                        #[trigger] faces@[b],
                                    ) implies group@.contains(faces@[b]) by {
                                    if b < j {
                                        let t = choose|t: int| 0 <= t < group0.len() && group0[t] == faces@[b];
                                        assert(group@[t] == faces@[b]);
                                    } else {
                                        assert(group@[group@.len() - 1] == faces@[b]);
                                    }
                                }
                            }
                        }
                    } else {
                        proof {
                            if j > i {
                                assert(faces@[i as int].index() < faces@[j as int].index());
                            }
                        }
                    }
                    j = j + 1;
                }
                proof {
                    assert forall|f: FaceID| c.has_face(f) && f.index() > face_id1.index() && face_overlaps(c, gs, face_id1, f) implies group@.contains(f) by {
                        let b = choose|b: int| 0 <= b < faces@.len() && faces@[b] == f;
                        assert(faces@[b].index() > face_id1.index() && face_overlaps(c, gs, face_id1, faces@[b]));
                    }
                    assert forall|a: int, b: int| 0 <= a < b < group@.len() implies (#[trigger] group@[a]).index()
                        < (#[trigger] group@[b]).index() by {
                        if a == 0 {
                            assert(pos[b] > i);
                            assert(faces@[i as int].index() < faces@[pos[b]].index());
                        } else {
                            assert(pos[a] < pos[b]);
                            assert(faces@[pos[a]].index() < faces@[pos[b]].index());
                        }
                    }
                    assert forall|t: int| 1 <= t < group@.len() implies c.has_face(#[trigger] group@[t]) && group@[t].index()
                        > group@[0].index() by {
                        assert(pos[t] > i);
                        assert(faces@[i as int].index() < faces@[pos[t]].index());
                    }
                }
                if group.len() > 1 {
                    result.push(group);
                    proof {
                        let k0 = result0.len() as int;
                        assert(result@[k0]@ == group@);
                        assert forall|k: int| 0 <= k < result@.len() implies exists|a: int| 0 <= a < i + 1 && #[trigger] result@[k]@[0] == faces@[a] by {
                            if k < k0 {
                                assert(result@[k] == result0[k]);
                                let a = choose|a: int| 0 <= a < i && #[trigger] result0[k]@[0] == faces@[a];
                            } else {
                                assert(result@[k]@[0] == faces@[i as int]);
                            }
                        }
                        assert forall|k1: int, k2: int| 0 <= k1 < k2 < result@.len() implies (#[trigger] result@[k1]@[0]).index()
                            < (#[trigger] result@[k2]@[0]).index() by {
                            if k2 == k0 {
                                assert(result@[k1] == result0[k1]);
                                let a = choose|a: int| 0 <= a < i && #[trigger] result0[k1]@[0] == faces@[a];
                                assert(faces@[a].index() < faces@[i as int].index());
                            } else {
                                assert(result@[k1] == result0[k1]);
                                assert(result@[k2] == result0[k2]);
                            }
                        }
                        assert forall|a: int, f2: FaceID|
                            0 <= a < i + 1 && c.has_face(f2) && f2.index() > faces@[a].index() && #[trigger] face_overlaps(
                                c,
                                gs,
                                faces@[a],
                                f2,
                            ) implies exists|k: int| 0 <= k < result@.len() && #[trigger] result@[k]@[0] == faces@[a] by {
                            if a < i {
                                let k = choose|k: int| 0 <= k < result0.len() && #[trigger] result0[k]@[0] == faces@[a];
                                assert(result@[k] == result0[k]);
                            } else {
                                assert(result@[k0]@[0] == faces@[a]);
                            }
                        }
                        assert forall|k: int, m: int|
                            0 <= k < result@.len() && 1 <= m < result@[k]@.len() implies c.has_face(#[trigger] result@[k]@[m])
                            && result@[k]@[m].index() > result@[k]@[0].index() && face_overlaps(c, gs, result@[k]@[0], result@[k]@[m]) by {
                            if k < k0 {
                                assert(result@[k] == result0[k]);
                            }
                        }
                        assert forall|k: int, f: FaceID|
                            0 <= k < result@.len() && c.has_face(f) && f.index() > result@[k]@[0].index() && #[trigger] face_overlaps(
                                c,
                                gs,
                                result@[k]@[0],
                                f,
                            ) implies result@[k]@.contains(f) by {
                            if k < k0 {
                                assert(result@[k] == result0[k]);
                            }
                        }
                    }
                } else {
                    proof {
                        assert forall|a: int, f2: FaceID|
                            0 <= a < i + 1 && c.has_face(f2) && f2.index() > faces@[a].index() && #[trigger] face_overlaps(
                                c,
                                gs,
                                faces@[a],
                                f2,
                            ) implies exists|k: int| 0 <= k < result@.len() && #[trigger] result@[k]@[0] == faces@[a] by {
                            if a == i {
                                assert(group@.contains(f2));
                                let t = choose|t: int| 0 <= t < group@.len() && group@[t] == f2;
                                assert(false);
                            }
                        }
                        assert forall|k: int| 0 <= k < result@.len() implies exists|a: int| 0 <= a < i + 1 && #[trigger] result@[k]@[0] == faces@[a] by {
                            let a = choose|a: int| 0 <= a < i && #[trigger] result@[k]@[0] == faces@[a];
                        }
                    }
                }
            } else {
                proof {
                    assert(corners(c, face_id1) == (v0, v1, v2));
                    assert(!face_grouped(c, gs, face_id1));
                    assert forall|k: int| 0 <= k < result@.len() implies exists|a: int| 0 <= a < i + 1 && #[trigger] result@[k]@[0] == faces@[a] by {
                        let a = choose|a: int| 0 <= a < i && #[trigger] result@[k]@[0] == faces@[a];
                    }
                }
            }
            i = i + 1;
        }
        proof {
            let rs = result@.map_values(|g: Vec<FaceID>| g@);
            assert forall|f1: FaceID, f2: FaceID|
                c.has_face(f1) && c.has_face(f2) && f2.index() > f1.index() && #[trigger] face_overlaps(c, gs, f1, f2) implies exists|k: int|
                0 <= k < rs.len() && #[trigger] rs[k][0] == f1 by {
                let a = choose|a: int| 0 <= a < faces@.len() && faces@[a] == f1;
                assert(face_overlaps(c, gs, faces@[a], f2));
                let k = choose|k: int| 0 <= k < result@.len() && #[trigger] result@[k]@[0] == faces@[a];
                assert(rs[k] == result@[k]@);
            }
            assert forall|k1: int, k2: int| 0 <= k1 < k2 < rs.len() implies (#[trigger] rs[k1][0]).index() < (#[trigger] rs[k2][0]).index() by {
                assert(rs[k1] == result@[k1]@);
                assert(rs[k2] == result@[k2]@);
            }
            assert forall|k: int| 0 <= k < rs.len() implies #[trigger] rs[k].len() >= 2 && c.has_face(rs[k][0]) && face_grouped(c, gs, rs[k][0]) by {
                assert(rs[k] == result@[k]@);
            }
            assert forall|k: int, m: int|
                0 <= k < rs.len() && 1 <= m < rs[k].len() implies c.has_face(#[trigger] rs[k][m]) && rs[k][m].index() > rs[k][0].index()
                && face_overlaps(c, gs, rs[k][0], rs[k][m]) by {
                assert(rs[k] == result@[k]@);
            }
            assert forall|k: int, a: int, b: int| 0 <= k < rs.len() && 0 <= a < b < rs[k].len() implies (#[trigger] rs[k][a]).index()
                < (#[trigger] rs[k][b]).index() by {
                assert(rs[k] == result@[k]@);
            }
            assert forall|k: int, f: FaceID|
                0 <= k < rs.len() && c.has_face(f) && f.index() > rs[k][0].index() && #[trigger] face_overlaps(c, gs, rs[k][0], f)
                implies rs[k].contains(f) by {
                assert(rs[k] == result@[k]@);
            }
        }
        result
    }
}

} // verus!
