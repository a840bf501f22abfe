//! Detection layers of an endpoint scanner: behaviour scoring, evidence fusion,
//! signature stores, static image analysis and the state machines around them.

pub mod ai;
pub mod behavior;
pub mod bytes;
pub mod cache;
pub mod cache_laws;
pub mod calendar;
pub mod calendar_laws;
pub mod capability_laws;
pub mod clamav;
pub mod clamav_laws;
pub mod clock;
pub mod cookie_guard;
pub mod cookie_laws;
pub mod digest;
pub mod fusion;
pub mod fusion_laws;
pub mod hash;
pub mod heuristic;
pub mod json;
pub mod memory_laws;
pub mod memory_snapshot;
pub mod monotone;
pub mod net;
pub mod net_laws;
pub mod object_fields;
pub mod objects;
pub mod order;
pub mod path_laws;
pub mod paths;
pub mod process_state;
pub mod rollback;
pub mod rule_text;
pub mod sandbox;
pub mod sandbox_laws;
pub mod score;
pub mod score_laws;
pub mod sequence;
pub mod sequence_laws;
pub mod state_laws;
pub mod static_sandbox;
pub mod synthetic;
pub mod text;
pub mod text_laws;
pub mod threat_intel;
pub mod threat_laws;
pub mod total;
pub mod unpacking;
pub mod unpacking_laws;
pub mod yara;
pub mod yara_laws;
