//! A sparse matrix storage engine: shape metadata that is written once and
//! verified thereafter, compressed sparse column and row index blocks built
//! from coordinate lists or dense cells, triplet accessors over those blocks
//! and over ranges read from a store, name composition, coordinate-list
//! parsing and export, and the chunking rules of stored vectors.
//!
//! Stored values are carried as the 32-bit IEEE-754 encoding of each value;
//! the library never computes with them, it only moves them (and tells the
//! two encodings of zero apart from the rest).

pub mod error;
pub mod shape;
pub mod block;
pub mod access;
pub mod matrix;
pub mod laws;
pub mod codec;
pub mod names;
pub mod coordinate;
pub mod dense;
