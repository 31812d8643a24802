//! Verified core of the hodu model-serialization layer: the `.hodu` container codec, the GGUF
//! reader and GGML block unpacking, safetensors import, the model <-> tensor-row bridge, the
//! runnable-artifact input resolution, and the shape/dtype rules of the tensor frontend.
pub mod bind;
pub mod container;
pub mod frontend;
pub mod gguf;
pub mod model;
pub mod rng;
pub mod runnable;
pub mod st_import;
pub mod wire;
