//! Structure-aware extraction of translatable prose from parsed HTML pages,
//! newline segmentation of the extracted buffer, and the per-segment state
//! machine that drives a primary translation call plus refinement passes.

pub mod extract;
pub mod pipeline;
pub mod segment;
