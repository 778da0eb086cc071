//! A lossless codec for a tree-structured binary save format.
//!
//! The crate decodes a byte buffer into a [`model::Document`] — an ordered
//! tree of named, typed properties — re-encodes it byte-exactly, and offers a
//! reversible text projection of the same tree.

pub mod codec;
pub mod dec;
pub mod enc;
pub mod laws;
pub mod model;
pub mod num;
pub mod roundtrip;
pub mod text;
