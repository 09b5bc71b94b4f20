pub mod ids;
pub mod arena;
pub mod dynamic_mesh;
pub mod connected_components;
pub mod connectivity_info;
pub mod traversal;
pub mod static_mesh;
pub mod exporter;
pub mod split;
pub mod connectivity;
pub mod stitching;
pub mod attribute;
