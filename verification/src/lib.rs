//! A toolbox for classical and quantum low-density parity-check codes.
//!
//! The crate models words and matrices over GF(2), builds linear codes
//! from either side of the parity-check/generator duality, composes pairs
//! of orthogonal codes into quantum CSS codes with canonically paired
//! logical operators, and decodes with a greedy bit-flip decoder and a
//! rank-based erasure decoder. Every function is verified against its
//! contract; the sparse linear-algebra and graph-sampling crates sit
//! behind a small trusted boundary.

pub mod backend;
pub mod code;
pub mod css;
pub mod css_code;
pub mod decoder;
pub mod erasure;
pub mod matrix;
pub mod random_code;
pub mod vector;
