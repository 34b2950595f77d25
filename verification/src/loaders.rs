//! Decoding model files.

pub mod gltf;
pub mod obj;
