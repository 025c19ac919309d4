//! Decoder for the IDX binary container format used to store handwritten-digit
//! images and their labels, together with the per-label aggregation that turns
//! a set of labelled images into averaged composites.
//!
//! The decoder works on in-memory byte strings: callers read a file into a
//! `Vec<u8>` and hand the bytes over. Every structural rule of the format
//! (magic number, declared counts, exact file size) is checked before any data
//! is returned, and each decoding function's contract states exactly which
//! input yields which result.

pub mod aggregate;
pub mod idx;
pub mod image;
