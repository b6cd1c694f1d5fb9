//! An HTTP image-transformation pipeline library.
//!
//! A request URL encodes a tree of image operations.  This crate holds
//! the engine behind such a service: the pipeline grammar and its
//! renderer (`pipeline`), full request parsing with percent-decoding
//! and HMAC signature checking (`url`, `hashes`), alias expansion
//! (`alias`), the argument binder that resolves image-relative units
//! (`filter`), the bounded LRU index behind each named disk cache with
//! its sidecar format (`lru`), the cache filter's fingerprints,
//! metadata records and value framing (`cache`), the download filter's
//! domain rewriting (`download`), the bundled filters' dimension
//! arithmetic (`base`), the fixed argument vocabularies (`img`), and
//! the request-to-response decisions of the HTTP front end (`http`).
//!
//! Parsing inverts rendering (`pipeline::lemma_parse_render`), reopening
//! an exported cache index restores it (`lru::lemma_export_import`), and
//! a stored cache value reads back exactly (`cache::lemma_meta_roundtrip`
//! with `cache::lemma_entry_roundtrip`).

pub mod alias;
pub mod base;
pub mod cache;
pub mod cfg;
pub mod download;
pub mod error;
pub mod filter;
pub mod hashes;
pub mod http;
pub mod img;
pub mod lru;
pub mod pipeline;
pub mod text;
pub mod url;

pub use text::bytes_eq;
