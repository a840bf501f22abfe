//! File hashes: exact digests, fuzzy signatures and the databases that list them.

pub mod columns;
pub mod distance;
pub mod distance_laws;
pub mod error;
pub mod files;
pub mod format_laws;
pub mod fuzzy;
pub mod laws;
pub mod document_laws;
pub mod documents;
pub mod lines;
pub mod matcher;
pub mod similarity;
pub mod tables;
