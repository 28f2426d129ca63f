//! Fixed-size chunking of byte data with per-chunk SHA-256 digests.
//!
//! The library models a file as a vector of bytes and provides the four
//! operations the tool is built on: computing the digest line for every
//! chunk, checking a list of digest lines against the data, extracting a
//! single chunk, and overwriting a single chunk with donor bytes.

pub mod chunking;
pub mod digests;
pub mod hex;
pub mod repair;
pub mod sha256;
