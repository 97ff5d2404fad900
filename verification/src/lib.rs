//! A local, single-user store for notes: the metadata index, the tags and
//! links derived from a note's text, the bounded history of its versions, and
//! the search language over all of them.
//!
//! The library decides; it does not touch the file system. Each operation
//! takes the index and the outside values it needs, and returns what is to be
//! written.

pub mod text;
pub mod order;
pub mod models;
pub mod sandbox;
pub mod annotate;
pub mod clock;
pub mod ident;
pub mod versions;
pub mod query;
pub mod storage;
pub mod tagging;
pub mod batch;
pub mod attachments;
pub mod notebooks;
pub mod export;
pub mod daily;
pub mod templates;
