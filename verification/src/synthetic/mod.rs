//! Inert synthetic executables for evaluating detectors.
//!
//! Every image is data only: its entry point is a single `RET`, and a marker that
//! names it as a corpus sample stands near the entry point.

pub mod corpus;
pub mod corpus_laws;
pub mod image;
pub mod imports;
pub mod rng;
pub mod template;
