//! The outcome of comparing a candidate measurement with a baseline, as the history and the
//! screens read it. Numbers stand here as the texts that are shown.

use vstd::prelude::*;

use crate::browser_lab::Engine;

verus! {

/// One metric of one engine.
#[derive(Clone, Debug)]
pub struct MetricSummary {
    /// The metric's key, such as `workload.wall_ms`.
    pub name: String,
    /// The improvement in percent with its sign, where one was computed.
    pub improvement: Option<String>,
    /// The confidence interval of the improvement, as `low, high`.
    pub interval: Option<String>,
    pub classification: String,
    /// The baseline and candidate values, where both are known.
    pub values: Option<String>,
    /// The candidate value alone, where it is known.
    pub candidate: Option<String>,
}

/// How far the runtime anchor of an engine drifted between the two measurements.
#[derive(Clone, Debug)]
pub struct AnchorSummary {
    pub status: String,
    /// The drift in percent with its sign, where one was computed.
    pub drift: Option<String>,
    /// The confidence interval of the drift, as `low, high`.
    pub interval: Option<String>,
}

/// The outcome of one engine.
#[derive(Clone, Debug)]
pub struct EngineSummary {
    pub engine: Engine,
    pub verdict: String,
    pub correctness: String,
    pub anchor: Option<AnchorSummary>,
    pub metrics: Vec<MetricSummary>,
}

/// The outcome of a comparison.
#[derive(Clone, Debug)]
pub struct ComparisonSummary {
    pub comparison_id: String,
    pub report_path: Option<String>,
    pub baseline_measurement_set: String,
    pub candidate_measurement_set: String,
    pub environment_fingerprint: Option<String>,
    pub policy: String,
    pub verdict: String,
    pub engines: Vec<EngineSummary>,
    pub warnings: Vec<String>,
    /// The comparison's own account of its decision, one line or more.
    pub decision_summary: String,
}

} // verus!
