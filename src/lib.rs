//! Approximate distinct counting with HyperLogLog sketches.
//!
//! A sketch keeps `2^p` small registers. Each value is hashed to 64 bits;
//! the low `p` bits choose a register and the rank of the remaining bits
//! (the position of their lowest set bit) is folded into it by maximum.
//! The cardinality read-out is computed from the registers.
pub mod error;
pub mod registers;
pub mod estimator;
pub mod estimator_set;
pub mod laws;
