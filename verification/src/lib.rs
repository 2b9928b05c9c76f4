//! A double-buffered Game-of-Life core.
//!
//! The simulation state is a pair of equally sized single-channel byte
//! grids (the generation buffers) plus a selector that says which of the
//! two is the current generation. A mutate pass computes the next
//! generation from the current one into the other buffer, a step flips the
//! selector, and a render pass resamples the current buffer onto an output
//! surface of independent size. The GPU shell that submits these passes to
//! a graphics backend lives outside this crate; the crate holds the rules
//! the passes follow and proves them.

pub mod controller;
pub mod coords;
pub mod error;
pub mod life;

pub use controller::Core;
pub use controller::GenBuffer;
pub use controller::ScaleRatio;
pub use controller::Slot;
pub use error::CoreError;
