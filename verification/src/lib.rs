//! Codec for a binary, tree-structured application-metadata document: a
//! length-framed section list headed by a magic constant, where each section
//! carries fixed scalar fields and a sentinel-terminated tree of named nodes.
//! The library decodes such a document, re-encodes it with byte-exact length
//! fields, and offers pure tree-rewrite operations on the decoded form.

pub mod laws;
pub mod model;
pub mod reader;
pub mod writer;
pub mod updater;
pub mod vdf;
