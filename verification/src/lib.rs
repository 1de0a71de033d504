//! Content-aware directory archiver core: a dictionary miner built from a
//! content-defined chunker, a count-min sketch and a bounded top-K store, a
//! locality-sensitive content fingerprint, and an append-only archive object
//! writer with byte-offset back-references.
pub mod chunker;
pub mod content_hash;
pub mod diar_builder;
pub mod dir_tree;
pub mod errors;
pub mod hashes;
pub mod miner;
pub mod object_io;
pub mod objects;
pub mod ranker;
pub mod reader;
pub mod sampler;
pub mod varint;
