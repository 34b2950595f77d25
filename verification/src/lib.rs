//! The integer core of a text-mode 3D viewer: a surface of character cells
//! with the primitives that draw on it, readers of binary data, the decoding
//! of model files into meshes and materials, and the reading of mouse gestures.

pub mod display;
pub mod input;
pub mod loaders;
pub mod material;
pub mod mesh;
pub mod plane;
pub mod reader;
pub mod scene;
pub mod strings;
pub mod uv;
