use vstd::prelude::*;
use crate::ids::{VertexID, HalfEdgeID};
use crate::dynamic_mesh::dynamic_mesh::DynamicMesh;
use crate::dynamic_mesh::splitting_and_merging::stitch_of;
use crate::dynamic_mesh::merging::find_stitch;
use crate::connectivity::connecting_edge;

verus! {

/// Whether the edge of `halfedge_id` in `mesh1` lies on the seam: the seam joins both of its
/// vertices to vertices of `mesh2`, and an edge of `mesh2` connects those two.
pub fn is_at_seam<P: Copy>(
    mesh1: &DynamicMesh<P>,
    mesh2: &DynamicMesh<P>,
    seam: &Vec<(VertexID, VertexID)>,
    halfedge_id: &HalfEdgeID,
) -> (r: bool)
    requires
        mesh1.wf(),
        mesh1.connectivity().is_valid(),
        mesh1.connectivity().has_halfedge(*halfedge_id),
        mesh2.wf(),
        mesh2.connectivity().is_valid(),
        forall|a: int, b: int| 0 <= a < b < seam@.len() ==> seam@[a].0 != seam@[b].0,
        forall|a: int|
            0 <= a < seam@.len() ==> mesh2.connectivity().has_vertex(#[trigger] seam@[a].1)
                && mesh2.connectivity().vertex_at(seam@[a].1).halfedge is Some,
    ensures
        r == ({
            let c = mesh1.connectivity();
            let v0 = c.vertex_of(Some(*halfedge_id))->Some_0;
            let v1 = c.vertex_of(c.twin_of(Some(*halfedge_id)))->Some_0;
            match (stitch_of(seam@, v0), stitch_of(seam@, v1)) {
                (Some(a), Some(b)) => mesh2.connectivity().connection(a, b) is Some,
                _ => false,
            }
        }),
{
    let vertices = mesh1.edge_vertices(halfedge_id);
    match find_stitch(seam, &vertices.0) {
        Some(vertex_id1) => match find_stitch(seam, &vertices.1) {
            Some(vertex_id2) => {
                proof {
                    let i = choose|i: int| 0 <= i < seam@.len() && #[trigger] seam@[i].0 == vertices.0;
                    assert(mesh2.connectivity().has_vertex(seam@[i].1));
                }
                connecting_edge(mesh2, &vertex_id1, &vertex_id2).is_some()
            },
            None => false,
        },
        None => false,
    }
}

} // verus!
