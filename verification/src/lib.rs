//! Position-index tables for multi-dimensional rotary position embedding.
//!
//! A table is a flat sequence of unsigned 32-bit positions, one fixed-size
//! tuple per token, in the order in which the tokens reach attention.
//! [`spatial`] builds the table of `(row, col)` pairs of a patch grid that is
//! walked in 2×2 merge blocks; [`spatiotemporal`] builds the table of
//! `(temporal, height, width)` triples of a text / vision / text sequence.

pub mod error;
pub mod spatial;
pub mod spatiotemporal;
pub mod table;
