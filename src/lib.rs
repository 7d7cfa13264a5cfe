//! Progressive path tracing: the integer side of the engine.
//!
//! Frame layout and band partitioning of the accumulation buffer, the task
//! queue that feeds the worker pool, the accumulation bookkeeping between
//! frames, the bounce budget of the integrator, the scene container, and the
//! triangle faces of indexed meshes.
pub mod bounce;
pub mod faces;
pub mod layout;
pub mod pool;
pub mod progress;
pub mod scene;
