//! Frame-level draw batching and GPU resource caching.
//!
//! The crate decides, for each frame, how few distinct GPU objects
//! (pipelines, uniform-buffer bindings) are needed to satisfy a set of draw
//! requests, and how the requests' mesh data is packed into shared
//! vertex/index buffers.  Device, queue, surface and the other GPU-side
//! collaborators are left to the embedding application: this crate plans a
//! frame, the application replays the plan against the GPU.

pub mod batch;
pub mod error;
pub mod mesh;
pub mod renderer;
pub mod shader;
pub mod uniform;
