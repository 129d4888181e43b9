//! Translation of the vertex positions of Wavefront `.obj` meshes by a fixed
//! offset: the text handling, the progress accounting and the per-file
//! conversion protocol.

pub mod board;
pub mod convert;
pub mod discover;
pub mod error;
pub mod line;
pub mod metadata;
pub mod names;
pub mod progress;
pub mod text;
