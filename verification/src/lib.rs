//! A dynamically growing texture atlas.
//!
//! Consumers submit pixel surfaces over time; the atlas batches the
//! submissions and, on demand, recomputes a packing of every known image,
//! describes a new backing texture sized to that packing, and emits the
//! draw steps that migrate each image into its new slot. The placement
//! engine and the bookkeeping are verified; the GPU work itself is carried
//! out by the caller from the emitted plan.

pub mod atlas;
pub mod debugger;
pub mod placement;
pub mod rect;
