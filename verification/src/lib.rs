//! Merges simplified line-oriented `key:value` source files into a single
//! `KEY=VALUE` environment file.
//!
//! The library is the pure part of the pipeline: manifest line splitting,
//! path-extension validation, per-line key/value extraction, last-write-wins
//! merging, and output serialization. Reading the manifest and source files
//! and writing the output file belong to the surrounding binary.

pub mod entry;
pub mod env_map;
pub mod errors;
pub mod lines;
pub mod merge;
pub mod paths;
pub mod scan;
pub mod serialize;
