//! Commitment-tree nodes and spend authorization for a shielded pool.

pub mod field;
pub mod merkle;
pub mod node;
pub mod repr;
pub mod roots;
pub mod spend;
