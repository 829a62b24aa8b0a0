//! Scene-graph resource model, asset import and geometry flattening for a
//! small rendering engine, with every operation carrying a machine-checked
//! contract.

pub mod gltf;
pub mod graph;
pub mod ident;
pub mod integrity;
pub mod renaming;
pub mod resource;
pub mod scalar;
pub mod scene;
pub mod store;
