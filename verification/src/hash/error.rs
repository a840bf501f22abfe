//! What can be wrong with a hash or a database of hashes.

use vstd::prelude::*;

verus! {

/// Why a table cannot be read.
#[verifier::external_type_specification]
#[verifier::external_body]
pub struct ExCsvError(csv::Error);

#[derive(Debug)]
pub enum HashError {
    /// The text is not a supported exact hash.
    InvalidHashFormat { value: String },
    /// The text is neither a standard nor a legacy fuzzy signature.
    InvalidFuzzyHash { value: String },
    /// A CSV database cannot be read.
    Csv(csv::Error),
    /// A JSON database is no document.
    Json(serde_json::Error),
    /// A text database is not UTF-8.
    NotText,
    /// A database lacks a required column.
    MissingHeader { field: String },
    /// A replacement database holds no valid hash.
    EmptyDatabase,
}

} // verus!
