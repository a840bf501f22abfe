//! Explainable static and dynamic heuristics.

pub mod analysis;
pub mod chain_laws;
pub mod context;
pub mod context_laws;
pub mod image_laws;
pub mod laws;
pub mod note_laws;
pub mod rule_laws;
pub mod rulebook;
