//! Reader and writer for BioWare's Generic File Format (GFF) V3.2, the
//! binary container that Neverwinter Nights and related titles use to
//! persist structured game objects.
//!
//! The crate converts between a byte buffer laid out as a 56-byte header
//! and six offset-indexed blocks and an in-memory tree of typed fields,
//! in both directions.  The packer's output and the parser's reading of
//! it are pinned byte for byte to one mathematical model, and the two
//! directions are proved to invert each other on trees of leaf fields.

pub mod common;
pub mod convert;
pub mod enc;
pub mod laws;
pub mod model;
pub mod packer;
pub mod parser;
pub mod raw;
pub mod value;
