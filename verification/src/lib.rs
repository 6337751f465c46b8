//! A fixed-size worker-pool engine for dense integer matrix multiplication.
//!
//! The product of two row-major matrices is decomposed into one dot-product
//! job per output cell.  Jobs are assigned to a small, fixed set of workers
//! by an index-based round-robin rule; each worker drains its private queue
//! in order, and the orchestrator places every result at its target index
//! in the output buffer.  The contracts pin the result down exactly: every
//! cell of a successful product equals the mathematical dot product of its
//! row and column, whatever the worker count and whatever order the results
//! are collected in.  A runtime shell that moves the same jobs and results
//! between actual worker threads therefore computes the same matrix, as
//! long as every result lands at its own index.

mod matrix;
mod pool;
mod text;
mod vector;

pub use matrix::lemma_product_unique;
pub use matrix::multiply;
pub use matrix::multiply_with_workers;
pub use matrix::Matrix;
pub use matrix::MatrixError;
pub use pool::col_vector;
pub use pool::row_vector;
pub use pool::run_worker;
pub use pool::worker_jobs;
pub use pool::Job;
pub use pool::JobResult;
pub use text::lemma_text_stable;
pub use vector::dot_product;
pub use vector::Vector;
