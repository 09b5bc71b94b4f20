# geo_proc

Geometry processing on half-edge triangle meshes, written in Verus: the connectivity
operations are executable Rust whose behaviour is stated in `requires`/`ensures` contracts
and proved.

## Layout

- `src/` — the verified library.
  - `ids.rs`: vertex, halfedge and face identifiers and their text.
  - `arena.rs`: values stored under small integer keys, with the rule that gives new keys.
  - `dynamic_mesh/`: the half-edge mesh.
    - `connectivity_info.rs`: vertices, halfedges and faces, the validity of a mesh, walks
      around faces and vertices.
    - `dynamic_mesh.rs`: building a mesh from triangles, positions and normals, finding twins,
      turning every face round, removing a face.
    - `traversal.rs`: walkers and the lists of vertices, halfedges and faces.
    - `connectivity.rs`: edges between vertices, the vertices of edges and faces.
    - `basic_operations.rs`: flipping an edge.
    - `splitting_and_merging.rs`: merging vertices and edges, sub-meshes, splitting a mesh.
    - `merging.rs`: joining two meshes at stitched vertices.
    - `overlapping.rs`: grouping the edges and faces that lie on groups of vertices at one
      place.
    - `primitive_merging.rs`: merging the faces, vertices and edges at one place, given the
      groups of vertices.
    - `mesh_conversion.rs`: the index buffer of a mesh.
  - `connected_components.rs`: the faces reached from a face, and the components of a mesh.
  - `split.rs`: cutting a mesh into the parts that given halfedges separate, and splitting
    it in two at them.
  - `connectivity.rs`: the halfedge between two vertices.
  - `connectivity_info.rs`, `traversal.rs`: connectivity set one link at a time, and its walker.
  - `static_mesh.rs`: a mesh of index and attribute buffers.
  - `exporter.rs`: the file format a path names.
  - `attribute.rs`: named values stored per vertex.
  - `stitching.rs`: whether an edge lies on the seam between two meshes.
- `tests/` — tests of the library.
- `app/` — the parts on floating point positions (normals, areas, finding the vertices at
  one place, edge flips by triangle quality), reading OBJ files and text, and writing files.

Positions are a type parameter of the mesh; `app/` uses `cgmath` vectors.

Vertices, halfedges and faces are stored in `arena.rs`, a vector of slots indexed by the
identifier's number, rather than in a hash map. The contracts promise two things a hash map
does not give: the lists of vertices, halfedges and faces come in increasing order of index
(vstd leaves the order in which a `HashMap` is walked unspecified), and a new element takes
the first free index at or above the number of stored elements, so the identifiers a mesh
hands out are stated exactly.
