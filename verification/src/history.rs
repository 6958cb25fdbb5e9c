//! The recorded cycles of a benchmark, as the history screen reads them.

use vstd::prelude::*;

use crate::browser_lab::Engine;
use crate::comparison::ComparisonSummary;
use crate::history_artifacts::DisplayRoot;

verus! {

/// What a retained artifact holds.
#[derive(Clone, Copy, Debug, Eq, PartialEq, Structural)]
pub enum HistoryArtifactKind {
    CpuProfile,
    Flamegraph,
    HeapSnapshot,
    Comparison,
    Sampling,
}

/// A retained artifact of a cycle.
#[derive(Clone, Debug)]
pub struct HistoryArtifact {
    pub kind: HistoryArtifactKind,
    pub engine: Option<Engine>,
    pub capture_scope: Option<String>,
    pub path: String,
}

/// How much source a cycle changed.
#[derive(Clone, Copy, Debug, Eq, PartialEq, Structural)]
pub struct HistoryChangeSummary {
    pub files_changed: u64,
    pub additions: u64,
    pub deletions: u64,
    pub binary_files: u64,
}

/// Whether a cycle can become the baseline.
#[derive(Clone, Copy, Debug, Eq, PartialEq, Structural)]
pub struct HistoryPromotionSummary {
    pub ready: bool,
    pub confirmation_required: bool,
    pub searched_candidates: u64,
    pub search_threshold: u64,
    pub confirmations: u64,
}

/// The version of a browser.
#[derive(Clone, Debug)]
pub struct BrowserVersion {
    pub engine: Engine,
    pub version: String,
}

/// Where a cycle was measured.
#[derive(Clone, Debug)]
pub struct EnvironmentSummary {
    pub recorded_at_unix_ms: u64,
    pub fingerprint: String,
    pub platform: String,
    pub arch: String,
    pub os_release: String,
    pub browser_versions: Vec<BrowserVersion>,
}

/// A cycle in the list.
#[derive(Clone, Debug)]
pub struct HistoryCycleSummary {
    pub cycle_id: String,
    pub selector: String,
    pub recorded_at_unix_ms: u64,
    pub message: String,
    pub outcome: String,
    pub baseline_label: Option<String>,
    pub baseline_cycle_id: Option<String>,
    pub accepted_label: Option<String>,
    pub accepted: bool,
    pub comparison: Option<ComparisonSummary>,
    /// The least improvement of wall time over the engines, where one was computed.
    pub headline_effect: Option<String>,
}

/// A cycle in full.
#[derive(Clone, Debug)]
pub struct HistoryCycle {
    pub cycle_id: String,
    pub selector: String,
    pub recorded_at_unix_ms: u64,
    pub message: String,
    pub outcome: String,
    pub baseline_label: Option<String>,
    pub accepted_label: Option<String>,
    pub accepted: bool,
    pub case_ids: Vec<String>,
    pub environment: EnvironmentSummary,
    pub comparison: Option<ComparisonSummary>,
    pub change: HistoryChangeSummary,
    pub promotion: HistoryPromotionSummary,
    pub artifacts: Vec<HistoryArtifact>,
    /// The outcome is one that can become the baseline.
    pub promotable: bool,
    /// The command that accepts the cycle.
    pub accept_command: String,
    /// The command that confirms the cycle.
    pub confirm_command: String,
}

/// A baseline of a benchmark.
#[derive(Clone, Debug)]
pub struct HistoryBaseline {
    pub label: String,
    pub cycle_id: String,
    pub current: bool,
}

/// The cycles of one benchmark, the latest first, and its baselines.
#[derive(Clone, Debug)]
pub struct HistoryOverview {
    pub benchmark_id: String,
    pub cycles: Vec<HistoryCycleSummary>,
    pub baselines: Vec<HistoryBaseline>,
    pub current_baseline_label: Option<String>,
}

/// A benchmark that has a history.
#[derive(Clone, Debug)]
pub struct HistoryIndexEntry {
    pub benchmark_id: String,
    pub cycle_count: u64,
    pub latest_recorded_at_unix_ms: u64,
}

/// The benchmarks that have a history.
#[derive(Clone, Debug)]
pub struct HistoryIndex {
    pub benchmarks: Vec<HistoryIndexEntry>,
    pub latest_benchmark_id: String,
}

/// A cycle that was read in full, under the name it was asked for.
#[derive(Clone, Debug)]
pub struct LoadedCycle {
    pub cycle_id: String,
    pub cycle: HistoryCycle,
}

/// What the history screen shows.
#[derive(Clone, Debug)]
pub struct HistoryData {
    /// The directory that paths are shown from.
    pub display_root: DisplayRoot,
    pub index: HistoryIndex,
    pub overview: HistoryOverview,
    pub details: Vec<LoadedCycle>,
}

} // verus!
