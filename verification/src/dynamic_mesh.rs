pub mod connectivity_info;
pub mod traversal;
pub mod dynamic_mesh;
pub mod connectivity;
pub mod basic_operations;
pub mod splitting_and_merging;
pub mod merging;
pub mod overlapping;
pub mod primitive_merging;
pub mod mesh_conversion;
