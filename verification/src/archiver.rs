//! App archival — preserves user data while removing the binary.
//!
//! Like Android's auto-archive feature: the app icon stays with a cloud
//! indicator, user data is preserved, but the binary is removed to free
//! space. Re-installing restores everything.

use vstd::prelude::*;

verus! {

/// Archive action for an app.
#[derive(Debug, Clone)]
pub struct ArchiveAction {
    pub app_id: String,
    pub binary_path: String,
    pub data_paths: Vec<String>,
    pub space_freed_bytes: u64,
}

} // verus!
