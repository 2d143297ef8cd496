//! What an export of a project's data records: the manifest describing
//! the copied sections, and the feature summary computed from the task
//! list. The copying itself is file work done by thin callers.

use vstd::prelude::*;

use crate::features::count_with_status;
use crate::features::FeatureList;
use crate::features::FeatureStatus;

verus! {

/// The manifest written beside an export.
#[derive(Debug, Clone, PartialEq)]
pub struct ExportManifest {
    pub forge_version: String,
    pub exported_at: String,
    pub project_dir: String,
    pub project_name: String,
    pub features: FeatureSummary,
    pub context_counts: Vec<(String, usize)>,
    pub logs: Vec<String>,
    pub transcripts: Vec<TranscriptInfo>,
    pub git: Option<GitInfo>,
    pub sections: Vec<String>,
}

/// Feature counts recorded in the manifest.
#[derive(Debug, Clone, PartialEq, Eq, Structural)]
pub struct FeatureSummary {
    pub total: usize,
    pub done: usize,
    pub pending: usize,
    pub claimed: usize,
    pub blocked: usize,
}

/// One copied session transcript.
#[derive(Debug, Clone, PartialEq)]
pub struct TranscriptInfo {
    pub session_id: String,
    pub size_bytes: u64,
    pub path: String,
}

/// The version-control state recorded in the manifest.
#[derive(Debug, Clone, PartialEq)]
pub struct GitInfo {
    pub commits_included: usize,
    pub branch: String,
    pub latest_commit: String,
}

/// Summarize the task list for the manifest: one count per status, with
/// `total` their sum.
pub fn build_feature_summary(features: &FeatureList) -> (r: FeatureSummary)
    ensures
        r.total == features.features@.len(),
        r.done == count_with_status(
            features.features@,
            features.features@.len() as int,
            FeatureStatus::Done,
        ),
        r.pending == count_with_status(
            features.features@,
            features.features@.len() as int,
            FeatureStatus::Pending,
        ),
        r.claimed == count_with_status(
            features.features@,
            features.features@.len() as int,
            FeatureStatus::Claimed,
        ),
        r.blocked == count_with_status(
            features.features@,
            features.features@.len() as int,
            FeatureStatus::Blocked,
        ),
        r.done + r.pending + r.claimed + r.blocked == r.total,
{
    let c = features.status_counts();
    FeatureSummary {
        total: c.total,
        done: c.done,
        pending: c.pending,
        claimed: c.claimed,
        blocked: c.blocked,
    }
}

} // verus!
