//! What a sandbox run reports.

use crate::memory_snapshot::SandboxUnpackingReport;
use vstd::prelude::*;

verus! {

#[derive(Debug)]
pub struct SandboxReport {
    pub target: String,
    pub exit_code: Option<i32>,
    pub target_pid: Option<u32>,
    pub files_changed: Vec<String>,
    pub registry_writes: Vec<String>,
    pub network_connections: Vec<String>,
    pub processes: Vec<String>,
    pub api_calls: Vec<String>,
    pub timed_out: bool,
    pub isolation_backend: String,
    pub isolation_verified: bool,
    pub cleanup_verified: bool,
    pub resource_limits: Vec<String>,
    pub unpacking: SandboxUnpackingReport,
    pub duration_ms: u64,
}

} // verus!
