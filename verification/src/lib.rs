//! Reading Valve SMD model files into per-texture meshes, and the small
//! decisions of the viewer that surround them.

pub mod error;
pub mod number;
pub mod text;
pub mod smd;
pub mod ascii;
pub mod mesh;
pub mod assets;
pub mod controls;
pub mod mesh_laws;
pub mod extension;
pub mod vertex_fields;
pub mod file_order;
