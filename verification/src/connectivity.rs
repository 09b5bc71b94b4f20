use vstd::prelude::*;
use crate::ids::{VertexID, HalfEdgeID};
use crate::dynamic_mesh::dynamic_mesh::DynamicMesh;

verus! {

/// The first halfedge met going around `vertex_id1`, from its own halfedge, that points to
/// `vertex_id2`, if any does.
pub fn connecting_edge<P: Copy>(mesh: &DynamicMesh<P>, vertex_id1: &VertexID, vertex_id2: &VertexID) -> (r: Option<HalfEdgeID>)
    requires
        mesh.wf(),
        mesh.connectivity().is_valid(),
        mesh.connectivity().has_vertex(*vertex_id1),
        mesh.connectivity().vertex_at(*vertex_id1).halfedge is Some,
    ensures
        r is Some <==> mesh.connectivity().links(*vertex_id1, *vertex_id2),
        r == mesh.connectivity().connection(*vertex_id1, *vertex_id2),
{
    mesh.connecting_edge(vertex_id1, vertex_id2)
}

} // verus!
