//! Model inference around an ONNX runtime: which models take part, what they are fed, how
//! their answers are put together, and what is done when they fail. The runtime itself is
//! the caller's.

pub mod config;
pub mod ensemble;
pub mod ensemble_laws;
pub mod feature_laws;
pub mod features;
pub mod inference;
pub mod model;
pub mod queue;
pub mod registry;
pub mod registry_laws;
pub mod report;
pub mod sidecar;
