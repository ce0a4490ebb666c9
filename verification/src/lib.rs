//! Dense integer matrix multiplication whose output rows are split into
//! contiguous ranges, one per worker, and gathered into a single result.
//!
//! The partitions are planned in [`partition`], each worker's rows are computed
//! in [`worker`], written into the output in [`aggregate`] and kept track of in
//! [`orchestrator`]. [`product`] says what the product is and proves its
//! algebra. [`numbers`] and [`config`] read the two operands out of a text, and
//! [`render`] writes a matrix as text.

pub mod aggregate;
pub mod config;
pub mod matrix;
pub mod numbers;
pub mod orchestrator;
pub mod partition;
pub mod product;
pub mod render;
pub mod worker;
