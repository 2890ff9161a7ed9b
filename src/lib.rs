//! A verified tensor engine for training sparse-input evaluation networks: shapes and
//! their rules, bounds-checked buffers, the block submatrix product with its gradient,
//! a computation graph in build order, and Ataxx feature extraction.

pub mod ataxx147;
pub mod buffer;
pub mod graph;
pub mod kernels;
pub mod schedule;
pub mod shape;
pub mod submatrix_product;
pub mod tensor;
