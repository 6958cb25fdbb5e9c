//! Measurement sets: their identity, their recorded trials, and what is left to run.

use vstd::prelude::*;
use vstd::string::*;
use vstd::utf8::*;

use crate::artifact_retention;
use crate::artifact_retention::ArtifactRetention;
use crate::browser_lab;
use crate::browser_lab::{
    ArtifactEvidence, ArtifactFile, Engine, EvidenceError, MetricValue, TrialBatchConfig,
};
use crate::manifest::{AnalysisPolicy, BenchmarkManifest, MetricPolicy, VariantDescriptor};
use crate::number;
use crate::number::Number;
use crate::ordered;
use crate::schedule;
use crate::schedule::{
    MeasurementSchedule, SamplingDecision, SamplingSchedule, ScheduledTrial, TrialPhase,
    MEASUREMENT_SCHEMA_VERSION,
};
use crate::text;

verus! {

/// One attempt at a trial.
#[derive(Clone, Debug)]
pub struct TrialResult {
    pub schema_version: u32,
    pub measurement_set_id: String,
    pub trial_id: String,
    pub attempt: u32,
    pub workload_id: String,
    pub engine: Engine,
    pub phase: TrialPhase,
    pub sample_index: u32,
    pub environment_fingerprint: String,
    /// The attempt measured what it was meant to.
    pub valid: bool,
    /// The workload gave the right results.
    pub success: bool,
    pub failure_category: Option<String>,
    pub failure_detail: Option<String>,
    pub invalidation_reason: Option<String>,
    pub metrics: Vec<MetricValue>,
    pub artifacts: Vec<ArtifactEvidence>,
}

/// Why a recorded attempt is refused.
#[derive(Clone, Copy, Debug, Eq, PartialEq, Structural)]
pub enum ResultError {
    /// A line, counted from one, does not hold a result.
    InvalidLine(usize),
    Schema(u32),
    /// The result belongs to another measurement set.
    OtherSet,
    /// Attempts are counted from one.
    AttemptZero,
    /// The schedule has no such trial.
    UnknownTrial,
    /// The result is not that of its scheduled trial.
    OtherTrial,
    DuplicateAttempt,
    NoEnvironment,
    /// An invalid result gives no reason.
    NoInvalidationReason,
    /// A valid result gives a reason for being invalid.
    UnexpectedInvalidationReason,
    /// A valid failure has no category.
    NoFailureCategory,
    /// A success has a failure category.
    UnexpectedFailureCategory,
    /// A success has a failure detail.
    UnexpectedFailureDetail,
    /// The metric with this index is negative or not finite.
    InvalidMetric(usize),
    /// The primary metric with this index is missing from a success.
    NoPrimaryMetric(usize),
    /// The primary metric with this index is zero in a success.
    PrimaryMetricNotPositive(usize),
    /// The artifacts of a valid result are refused.
    Artifacts(EvidenceError),
    /// An invalid result has artifacts.
    UnexpectedArtifacts,
    /// Results come from more than one environment.
    SeveralEnvironments,
    /// The attempts at a trial are not numbered without gaps: going through them by number, one was
    /// expected and another found.
    AttemptsNotContiguous { expected: u32, found: u32 },
    /// A trial was attempted again after a valid result.
    AttemptsAfterTerminal,
}

/// Why recorded lines are refused, and on account of which of them.
#[derive(Clone, Copy, Debug, Eq, PartialEq, Structural)]
pub struct Refusal {
    /// The index of the line.
    pub line: usize,
    pub error: ResultError,
}

// Single results.

/// The text is present and not blank.
pub open spec fn told(value: Option<String>) -> bool {
    value is Some && !text::blank(value->0@)
}

/// Why the first `n` metrics are refused, if they are.
pub open spec fn metrics_failure(metrics: Seq<MetricValue>, n: int) -> Option<ResultError>
    decreases n,
{
    if n <= 0 {
        None
    } else if metrics_failure(metrics, n - 1) is Some {
        metrics_failure(metrics, n - 1)
    } else if !number::finite_non_negative(metrics[n - 1].value) {
        Some(ResultError::InvalidMetric((n - 1) as usize))
    } else {
        None
    }
}

/// Why a success is refused for its first `n` primary metrics, if it is.
pub open spec fn primary_failure(
    metrics: Seq<MetricValue>,
    policy: Seq<MetricPolicy>,
    n: int,
) -> Option<ResultError>
    decreases n,
{
    if n <= 0 {
        None
    } else if primary_failure(metrics, policy, n - 1) is Some {
        primary_failure(metrics, policy, n - 1)
    } else {
        match browser_lab::metric(metrics, policy[n - 1].name@) {
            None => Some(ResultError::NoPrimaryMetric((n - 1) as usize)),
            Some(value) => if value.at_most(number::zero()) {
                Some(ResultError::PrimaryMetricNotPositive((n - 1) as usize))
            } else {
                None
            },
        }
    }
}

/// Why a result contradicts itself, if it does.
pub open spec fn result_failure(result: TrialResult, policy: Seq<MetricPolicy>) -> Option<
    ResultError,
> {
    if text::blank(result.environment_fingerprint@) {
        Some(ResultError::NoEnvironment)
    } else if !result.valid && !told(result.invalidation_reason) {
        Some(ResultError::NoInvalidationReason)
    } else if result.valid && result.invalidation_reason is Some {
        Some(ResultError::UnexpectedInvalidationReason)
    } else if !result.success && result.valid && !told(result.failure_category) {
        Some(ResultError::NoFailureCategory)
    } else if result.success && result.failure_category is Some {
        Some(ResultError::UnexpectedFailureCategory)
    } else if result.success && result.failure_detail is Some {
        Some(ResultError::UnexpectedFailureDetail)
    } else if metrics_failure(result.metrics@, result.metrics@.len() as int) is Some {
        metrics_failure(result.metrics@, result.metrics@.len() as int)
    } else if result.valid && result.success {
        primary_failure(result.metrics@, policy, policy.len() as int)
    } else {
        None
    }
}

/// Why the artifacts of a result are refused, if they are.
pub open spec fn result_artifacts_failure(
    result: TrialResult,
    files: Seq<ArtifactFile>,
    retention_finalized: bool,
) -> Option<ResultError> {
    if result.valid {
        let set = browser_lab::artifact_set_failure(result.artifacts@);
        let found = browser_lab::files_failure(
            result.artifacts@,
            files,
            result.artifacts@.len() as int,
        );
        if set is Some {
            Some(ResultError::Artifacts(set->0))
        } else if !retention_finalized && found is Some {
            Some(ResultError::Artifacts(found->0))
        } else {
            None
        }
    } else if result.artifacts@.len() > 0 {
        Some(ResultError::UnexpectedArtifacts)
    } else {
        None
    }
}

/// The result is that of the scheduled trial.
pub open spec fn is_result_of(trial: ScheduledTrial, result: TrialResult) -> bool {
    &&& result.workload_id@ == trial.workload_id@
    &&& result.engine == trial.engine
    &&& result.phase == trial.phase
    &&& result.sample_index == trial.sample_index
}

fn is_told(value: &Option<String>) -> (r: bool)
    ensures
        r == told(*value),
{
    match value {
        Some(text) => {
            proof {
                text::lemma_trimmed_blank(text@);
            }
            !text::trim(text).as_str().is_empty()
        },
        None => false,
    }
}

proof fn lemma_metrics_failure(metrics: Seq<MetricValue>, n: int, m: int)
    requires
        0 <= n <= m,
        metrics_failure(metrics, n) is Some,
    ensures
        metrics_failure(metrics, m) == metrics_failure(metrics, n),
    decreases m - n,
{
    if n < m {
        lemma_metrics_failure(metrics, n, m - 1);
    }
}

fn check_metrics(metrics: &Vec<MetricValue>) -> (r: Option<ResultError>)
    ensures
        r == metrics_failure(metrics@, metrics@.len() as int),
{
    let mut i: usize = 0;
    while i < metrics.len()
        invariant
            i <= metrics@.len(),
            metrics_failure(metrics@, i as int) is None,
        decreases metrics@.len() - i,
    {
        if !number::is_finite_non_negative(metrics[i].value) {
            proof {
                lemma_metrics_failure(metrics@, i + 1, metrics@.len() as int);
            }
            return Some(ResultError::InvalidMetric(i));
        }
        i += 1;
    }
    None
}

proof fn lemma_primary_failure(metrics: Seq<MetricValue>, policy: Seq<MetricPolicy>, n: int, m: int)
    requires
        0 <= n <= m,
        primary_failure(metrics, policy, n) is Some,
    ensures
        primary_failure(metrics, policy, m) == primary_failure(metrics, policy, n),
    decreases m - n,
{
    if n < m {
        lemma_primary_failure(metrics, policy, n, m - 1);
    }
}

fn check_primary(metrics: &Vec<MetricValue>, policy: &Vec<MetricPolicy>) -> (r: Option<ResultError>)
    ensures
        r == primary_failure(metrics@, policy@, policy@.len() as int),
{
    let mut i: usize = 0;
    while i < policy.len()
        invariant
            i <= policy@.len(),
            primary_failure(metrics@, policy@, i as int) is None,
        decreases policy@.len() - i,
    {
        proof {
            if primary_failure(metrics@, policy@, i + 1) is Some {
                lemma_primary_failure(metrics@, policy@, i + 1, policy@.len() as int);
            }
        }
        match browser_lab::metric_value(metrics, &policy[i].name) {
            None => {
                return Some(ResultError::NoPrimaryMetric(i));
            },
            Some(value) => {
                if value.is_at_most(Number { bits: 0 }) {
                    return Some(ResultError::PrimaryMetricNotPositive(i));
                }
            },
        }
        i += 1;
    }
    None
}

/// Checks that a result does not contradict itself: reasons and categories stand where they must,
/// metrics are proper numbers, and a success has every primary metric.
pub fn validate_result(result: &TrialResult, policy: &AnalysisPolicy) -> (r: Result<
    (),
    ResultError,
>)
    ensures
        match result_failure(*result, policy.primary_metrics@) {
            Some(error) => r == Err::<(), ResultError>(error),
            None => r == Ok::<(), ResultError>(()),
        },
{
    proof {
        text::lemma_trimmed_blank(result.environment_fingerprint@);
    }
    if text::trim(&result.environment_fingerprint).as_str().is_empty() {
        return Err(ResultError::NoEnvironment);
    }
    if !result.valid && !is_told(&result.invalidation_reason) {
        return Err(ResultError::NoInvalidationReason);
    }
    if result.valid && result.invalidation_reason.is_some() {
        return Err(ResultError::UnexpectedInvalidationReason);
    }
    if !result.success && result.valid && !is_told(&result.failure_category) {
        return Err(ResultError::NoFailureCategory);
    }
    if result.success && result.failure_category.is_some() {
        return Err(ResultError::UnexpectedFailureCategory);
    }
    if result.success && result.failure_detail.is_some() {
        return Err(ResultError::UnexpectedFailureDetail);
    }
    if let Some(error) = check_metrics(&result.metrics) {
        return Err(error);
    }
    if result.valid && result.success {
        if let Some(error) = check_primary(&result.metrics, &policy.primary_metrics) {
            return Err(error);
        }
    }
    Ok(())
}

/// Checks the artifacts of a result: a valid one has them all, an invalid one has none. The files
/// themselves are checked until the artifacts to be kept have been chosen.
pub fn validate_result_artifacts(
    result: &TrialResult,
    files: &Vec<ArtifactFile>,
    retention_finalized: bool,
) -> (r: Result<(), ResultError>)
    requires
        !retention_finalized ==> files@.len() == result.artifacts@.len(),
    ensures
        match result_artifacts_failure(*result, files@, retention_finalized) {
            Some(error) => r == Err::<(), ResultError>(error),
            None => r == Ok::<(), ResultError>(()),
        },
{
    if result.valid {
        if let Err(error) = browser_lab::validate_artifact_set(&result.artifacts) {
            return Err(ResultError::Artifacts(error));
        }
        if !retention_finalized {
            if let Err(error) = browser_lab::validate_artifact_files(&result.artifacts, files) {
                return Err(ResultError::Artifacts(error));
            }
        }
        Ok(())
    } else if result.artifacts.len() > 0 {
        Err(ResultError::UnexpectedArtifacts)
    } else {
        Ok(())
    }
}

/// Checks that a result is that of the scheduled trial.
pub fn validate_trial_identity(expected: &ScheduledTrial, result: &TrialResult) -> (r: Result<
    (),
    ResultError,
>)
    ensures
        r == if is_result_of(*expected, *result) {
            Ok::<(), ResultError>(())
        } else {
            Err::<(), ResultError>(ResultError::OtherTrial)
        },
{
    if !text::same(&result.workload_id, &expected.workload_id) || result.engine != expected.engine
        || result.phase != expected.phase || result.sample_index != expected.sample_index {
        return Err(ResultError::OtherTrial);
    }
    Ok(())
}

// Recorded results.

/// A line of the trial log that is not blank: its number, counted from one, its result where it
/// could be decoded, and what was found where each artifact is said to be.
#[derive(Clone, Debug)]
pub struct DecodedResult {
    pub number: usize,
    pub result: Option<TrialResult>,
    pub files: Vec<ArtifactFile>,
}

/// Every attempt that was recorded, and the environment that all of them ran in.
#[derive(Clone, Debug)]
pub struct IngestedResults {
    pub attempts: Vec<TrialResult>,
    pub environment_fingerprint: Option<String>,
}

/// Some earlier attempt has the trial and the number of the result.
pub open spec fn attempted(earlier: Seq<TrialResult>, result: TrialResult) -> bool {
    exists|i: int|
        0 <= i < earlier.len() && (#[trigger] earlier[i]).trial_id@ == result.trial_id@
            && earlier[i].attempt == result.attempt
}

/// Why a line cannot follow some attempts, if it cannot.
pub open spec fn line_failure(
    earlier: Seq<TrialResult>,
    line: DecodedResult,
    measurement: MeasurementSchedule,
    policy: Seq<MetricPolicy>,
    retention_finalized: bool,
) -> Option<ResultError> {
    match line.result {
        None => Some(ResultError::InvalidLine(line.number)),
        Some(result) => {
            let trial = schedule::trial_with(measurement.trials@, result.trial_id@);
            if result.schema_version != MEASUREMENT_SCHEMA_VERSION {
                Some(ResultError::Schema(result.schema_version))
            } else if result.measurement_set_id@ != measurement.measurement_set_id@ {
                Some(ResultError::OtherSet)
            } else if result.attempt == 0 {
                Some(ResultError::AttemptZero)
            } else if trial is None {
                Some(ResultError::UnknownTrial)
            } else if !is_result_of(trial->0, result) {
                Some(ResultError::OtherTrial)
            } else if attempted(earlier, result) {
                Some(ResultError::DuplicateAttempt)
            } else if result_failure(result, policy) is Some {
                result_failure(result, policy)
            } else {
                result_artifacts_failure(result, line.files@, retention_finalized)
            }
        },
    }
}

/// The attempts on some lines, or why the first line that is wrong is refused.
pub open spec fn reading(
    lines: Seq<DecodedResult>,
    measurement: MeasurementSchedule,
    policy: Seq<MetricPolicy>,
    retention_finalized: bool,
) -> Result<Seq<TrialResult>, Refusal>
    decreases lines.len(),
{
    if lines.len() == 0 {
        Ok(Seq::empty())
    } else {
        match reading(lines.drop_last(), measurement, policy, retention_finalized) {
            Err(refusal) => Err(refusal),
            Ok(earlier) => match line_failure(
                earlier,
                lines.last(),
                measurement,
                policy,
                retention_finalized,
            ) {
                Some(error) => Err(Refusal { line: (lines.len() - 1) as usize, error }),
                None => Ok(earlier.push(lines.last().result->0)),
            },
        }
    }
}

/// All attempts ran in one environment.
pub open spec fn one_environment(attempts: Seq<TrialResult>) -> bool {
    forall|i: int|
        0 <= i < attempts.len() ==> (#[trigger] attempts[i]).environment_fingerprint@
            == attempts[0].environment_fingerprint@
}

/// How many attempts at a trial were made.
pub open spec fn attempt_count(attempts: Seq<TrialResult>, trial_id: Seq<char>) -> nat
    decreases attempts.len(),
{
    if attempts.len() == 0 {
        0
    } else {
        attempt_count(attempts.drop_last(), trial_id) + if attempts.last().trial_id@ == trial_id {
            1nat
        } else {
            0nat
        }
    }
}

/// Some attempt at a trial has this number.
pub open spec fn present(attempts: Seq<TrialResult>, trial_id: Seq<char>, number: int) -> bool {
    exists|i: int|
        0 <= i < attempts.len() && (#[trigger] attempts[i]).trial_id@ == trial_id
            && attempts[i].attempt == number
}

/// Every number from one up to `n` is that of an attempt at the trial.
pub open spec fn numbered(attempts: Seq<TrialResult>, trial_id: Seq<char>, n: int) -> bool {
    forall|number: int| 1 <= number <= n ==> #[trigger] present(attempts, trial_id, number)
}

/// The attempts at a trial are numbered from one without gaps.
pub open spec fn contiguous(attempts: Seq<TrialResult>, trial_id: Seq<char>) -> bool {
    &&& numbered(attempts, trial_id, attempt_count(attempts, trial_id) as int)
    &&& forall|i: int|
        0 <= i < attempts.len() && (#[trigger] attempts[i]).trial_id@ == trial_id
            ==> attempts[i].attempt <= attempt_count(attempts, trial_id)
}

/// The attempt is valid, and is followed by others.
pub open spec fn ends_early(attempts: Seq<TrialResult>, trial_id: Seq<char>, i: int) -> bool {
    &&& attempts[i].trial_id@ == trial_id
    &&& attempts[i].valid
    &&& attempts[i].attempt < attempt_count(attempts, trial_id)
    &&& numbered(attempts, trial_id, attempts[i].attempt as int)
}

/// Some attempt at a trial is valid, and is followed by others.
pub open spec fn goes_on(attempts: Seq<TrialResult>, trial_id: Seq<char>) -> bool {
    exists|i: int| 0 <= i < attempts.len() && #[trigger] ends_early(attempts, trial_id, i)
}

/// The attempts at a trial bear every number below `n`, and none bears `n`.
pub open spec fn first_missing(attempts: Seq<TrialResult>, trial_id: Seq<char>, n: int) -> bool {
    &&& 1 <= n
    &&& numbered(attempts, trial_id, n - 1)
    &&& !present(attempts, trial_id, n)
}

/// The least number above `gap` that an attempt at a trial bears is `n`.
pub open spec fn next_present(
    attempts: Seq<TrialResult>,
    trial_id: Seq<char>,
    gap: int,
    n: int,
) -> bool {
    &&& gap < n
    &&& present(attempts, trial_id, n)
    &&& forall|m: int| gap < m < n ==> !#[trigger] present(attempts, trial_id, m)
}

/// The first gap in the numbers of the attempts at a trial.
pub open spec fn gap_of(attempts: Seq<TrialResult>, trial_id: Seq<char>) -> ResultError {
    let expected = choose|n: int| first_missing(attempts, trial_id, n);
    let found = choose|n: int| next_present(attempts, trial_id, expected, n);
    ResultError::AttemptsNotContiguous { expected: expected as u32, found: found as u32 }
}

/// Why the attempts at a trial are refused, if they are: going through them by number, whether a
/// gap or a valid attempt that is not the last comes first.
pub open spec fn attempts_failure(attempts: Seq<TrialResult>, trial_id: Seq<char>) -> Option<
    ResultError,
> {
    if goes_on(attempts, trial_id) {
        Some(ResultError::AttemptsAfterTerminal)
    } else if !contiguous(attempts, trial_id) {
        Some(gap_of(attempts, trial_id))
    } else {
        None
    }
}

/// The attempts at every trial are numbered without gaps, and end with the first valid one.
pub open spec fn terminated(attempts: Seq<TrialResult>) -> bool {
    forall|i: int|
        0 <= i < attempts.len() ==> attempts_failure(
            attempts,
            (#[trigger] attempts[i]).trial_id@,
        ) is None
}

/// The attempts at one trial have different numbers, and none has number zero.
pub open spec fn told_apart(attempts: Seq<TrialResult>) -> bool {
    &&& forall|a: int, b: int|
        0 <= a < b < attempts.len() && (#[trigger] attempts[a]).trial_id@ == (
        #[trigger] attempts[b]).trial_id@ ==> attempts[a].attempt != attempts[b].attempt
    &&& forall|a: int| 0 <= a < attempts.len() ==> (#[trigger] attempts[a]).attempt > 0
}

/// The environment of some attempts.
pub open spec fn environment_of(attempts: Seq<TrialResult>) -> Option<Seq<char>> {
    if attempts.len() == 0 {
        None
    } else {
        Some(attempts[0].environment_fingerprint@)
    }
}

fn was_attempted(earlier: &Vec<TrialResult>, result: &TrialResult) -> (r: bool)
    ensures
        r == attempted(earlier@, *result),
{
    let mut i: usize = 0;
    while i < earlier.len()
        invariant
            i <= earlier@.len(),
            forall|j: int|
                0 <= j < i ==> !((#[trigger] earlier@[j]).trial_id@ == result.trial_id@
                    && earlier@[j].attempt == result.attempt),
        decreases earlier@.len() - i,
    {
        if earlier[i].attempt == result.attempt && text::same(
            &earlier[i].trial_id,
            &result.trial_id,
        ) {
            return true;
        }
        i += 1;
    }
    false
}

fn check_line(
    earlier: &Vec<TrialResult>,
    line: &DecodedResult,
    measurement: &MeasurementSchedule,
    policy: &AnalysisPolicy,
    retention_finalized: bool,
) -> (r: Option<ResultError>)
    requires
        !retention_finalized && line.result is Some ==> line.files@.len()
            == line.result->0.artifacts@.len(),
    ensures
        r == line_failure(
            earlier@,
            *line,
            *measurement,
            policy.primary_metrics@,
            retention_finalized,
        ),
{
    match &line.result {
        None => Some(ResultError::InvalidLine(line.number)),
        Some(result) => {
            if result.schema_version != MEASUREMENT_SCHEMA_VERSION {
                return Some(ResultError::Schema(result.schema_version));
            }
            if !text::same(&result.measurement_set_id, &measurement.measurement_set_id) {
                return Some(ResultError::OtherSet);
            }
            if result.attempt == 0 {
                return Some(ResultError::AttemptZero);
            }
            match schedule::find_trial(&measurement.trials, &result.trial_id) {
                None => {
                    return Some(ResultError::UnknownTrial);
                },
                Some(trial) => {
                    if let Err(error) = validate_trial_identity(trial, result) {
                        return Some(error);
                    }
                },
            }
            if was_attempted(earlier, result) {
                return Some(ResultError::DuplicateAttempt);
            }
            if let Err(error) = validate_result(result, policy) {
                return Some(error);
            }
            match validate_result_artifacts(result, &line.files, retention_finalized) {
                Err(error) => Some(error),
                Ok(_) => None,
            }
        },
    }
}

proof fn lemma_reading_prefix(
    lines: Seq<DecodedResult>,
    measurement: MeasurementSchedule,
    policy: Seq<MetricPolicy>,
    retention_finalized: bool,
    n: int,
)
    requires
        0 <= n <= lines.len(),
        reading(lines.take(n), measurement, policy, retention_finalized) is Err,
    ensures
        reading(lines, measurement, policy, retention_finalized) == reading(
            lines.take(n),
            measurement,
            policy,
            retention_finalized,
        ),
    decreases lines.len() - n,
{
    if n == lines.len() {
        assert(lines.take(n) == lines);
    } else {
        assert(lines.take(n + 1).drop_last() == lines.take(n));
        lemma_reading_prefix(lines, measurement, policy, retention_finalized, n + 1);
    }
}

proof fn lemma_reading_length(
    lines: Seq<DecodedResult>,
    measurement: MeasurementSchedule,
    policy: Seq<MetricPolicy>,
    retention_finalized: bool,
)
    ensures
        reading(lines, measurement, policy, retention_finalized) matches Ok(attempts)
            ==> attempts.len() == lines.len(),
    decreases lines.len(),
{
    if lines.len() > 0 {
        lemma_reading_length(lines.drop_last(), measurement, policy, retention_finalized);
    }
}

/// The attempts on lines that were read are told apart.
pub proof fn lemma_read_numbers(
    lines: Seq<DecodedResult>,
    measurement: MeasurementSchedule,
    policy: Seq<MetricPolicy>,
    retention_finalized: bool,
    attempts: Seq<TrialResult>,
)
    requires
        reading(lines, measurement, policy, retention_finalized) == Ok::<
            Seq<TrialResult>,
            Refusal,
        >(attempts),
    ensures
        told_apart(attempts),
    decreases lines.len(),
{
    if lines.len() > 0 {
        let earlier = reading(
            lines.drop_last(),
            measurement,
            policy,
            retention_finalized,
        )->Ok_0;
        lemma_read_numbers(lines.drop_last(), measurement, policy, retention_finalized, earlier);
        assert(attempts == earlier.push(lines.last().result->0));
        assert forall|a: int, b: int|
            0 <= a < b < attempts.len() && (#[trigger] attempts[a]).trial_id@ == (
            #[trigger] attempts[b]).trial_id@ implies attempts[a].attempt
            != attempts[b].attempt by {
            assert(attempts[a] == earlier[a]);
            if b < earlier.len() {
                assert(attempts[b] == earlier[b]);
            }
        }
        assert forall|a: int| 0 <= a < attempts.len() implies (
        #[trigger] attempts[a]).attempt > 0 by {
            if a < earlier.len() {
                assert(attempts[a] == earlier[a]);
            }
        }
    }
}

fn read_lines(
    lines: Vec<DecodedResult>,
    measurement: &MeasurementSchedule,
    policy: &AnalysisPolicy,
    retention_finalized: bool,
) -> (r: Result<Vec<TrialResult>, Refusal>)
    requires
        !retention_finalized ==> forall|i: int|
            0 <= i < lines@.len() && (#[trigger] lines@[i]).result is Some
                ==> lines@[i].files@.len() == lines@[i].result->0.artifacts@.len(),
    ensures
        match reading(lines@, *measurement, policy.primary_metrics@, retention_finalized) {
            Err(refusal) => r == Err::<Vec<TrialResult>, Refusal>(refusal),
            Ok(attempts) => r is Ok && r->Ok_0@ == attempts,
        },
{
    let ghost all = lines@;
    let mut attempts: Vec<TrialResult> = Vec::new();
    assert(all.take(0) == Seq::<DecodedResult>::empty());
    for line in it: lines
        invariant
            all == lines@,
            it.seq() == all,
            !retention_finalized ==> forall|i: int|
                0 <= i < all.len() && (#[trigger] all[i]).result is Some ==> all[i].files@.len()
                    == all[i].result->0.artifacts@.len(),
            reading(
                all.take(it.index()),
                *measurement,
                policy.primary_metrics@,
                retention_finalized,
            ) == Ok::<Seq<TrialResult>, Refusal>(attempts@),
            attempts@.len() == it.index(),
    {
        proof {
            assert(all[it.index()] == line);
            assert(all.take(it.index() + 1).drop_last() == all.take(it.index()));
            assert(all.take(it.index() + 1).last() == line);
        }
        if let Some(error) = check_line(&attempts, &line, measurement, policy, retention_finalized) {
            proof {
                lemma_reading_prefix(
                    all,
                    *measurement,
                    policy.primary_metrics@,
                    retention_finalized,
                    it.index() + 1,
                );
            }
            return Err(Refusal { line: attempts.len(), error });
        }
        match line.result {
            Some(result) => attempts.push(result),
            None => {},
        }
    }
    assert(all.take(all.len() as int) == all);
    Ok(attempts)
}

/// Counts the attempts at a trial.
pub fn count_attempts(attempts: &Vec<TrialResult>, trial_id: &str) -> (r: usize)
    ensures
        r == attempt_count(attempts@, trial_id@),
        r <= attempts@.len(),
{
    let mut count: usize = 0;
    let mut i: usize = 0;
    assert(attempts@.take(0) == Seq::<TrialResult>::empty());
    while i < attempts.len()
        invariant
            i <= attempts@.len(),
            count <= i,
            count == attempt_count(attempts@.take(i as int), trial_id@),
        decreases attempts@.len() - i,
    {
        assert(attempts@.take(i + 1).drop_last() == attempts@.take(i as int));
        if text::same(&attempts[i].trial_id, trial_id) {
            count += 1;
        }
        i += 1;
    }
    assert(attempts@.take(attempts@.len() as int) == attempts@);
    count
}

fn number_present(attempts: &Vec<TrialResult>, trial_id: &str, number: u32) -> (r: bool)
    ensures
        r == present(attempts@, trial_id@, number as int),
{
    let mut i: usize = 0;
    while i < attempts.len()
        invariant
            i <= attempts@.len(),
            forall|j: int|
                0 <= j < i ==> !((#[trigger] attempts@[j]).trial_id@ == trial_id@
                    && attempts@[j].attempt == number),
        decreases attempts@.len() - i,
    {
        if attempts[i].attempt == number && text::same(&attempts[i].trial_id, trial_id) {
            return true;
        }
        i += 1;
    }
    false
}

fn all_numbered(attempts: &Vec<TrialResult>, trial_id: &str, n: u32) -> (r: bool)
    ensures
        r == numbered(attempts@, trial_id@, n as int),
{
    let mut number: u32 = 0;
    while number < n
        invariant
            number <= n,
            numbered(attempts@, trial_id@, number as int),
        decreases n - number,
    {
        if !number_present(attempts, trial_id, number + 1) {
            return false;
        }
        number += 1;
    }
    true
}

/// The numbers of the attempts at a trial.
spec fn numbers(attempts: Seq<TrialResult>, trial_id: Seq<char>) -> Set<int>
    decreases attempts.len(),
{
    if attempts.len() == 0 {
        Set::empty()
    } else if attempts.last().trial_id@ == trial_id {
        numbers(attempts.drop_last(), trial_id).insert(attempts.last().attempt as int)
    } else {
        numbers(attempts.drop_last(), trial_id)
    }
}

proof fn lemma_numbers(attempts: Seq<TrialResult>, trial_id: Seq<char>)
    ensures
        numbers(attempts, trial_id).finite(),
        numbers(attempts, trial_id).len() <= attempt_count(attempts, trial_id),
        told_apart(attempts) ==> numbers(attempts, trial_id).len() == attempt_count(
            attempts,
            trial_id,
        ),
        forall|n: int| #[trigger]
            numbers(attempts, trial_id).contains(n) <==> present(attempts, trial_id, n),
    decreases attempts.len(),
{
    if attempts.len() > 0 {
        let earlier = attempts.drop_last();
        lemma_numbers(earlier, trial_id);
        assert forall|n: int| #[trigger]
            numbers(attempts, trial_id).contains(n) <==> present(attempts, trial_id, n) by {
            if numbers(attempts, trial_id).contains(n) {
                if numbers(earlier, trial_id).contains(n) {
                    assert(present(earlier, trial_id, n));
                    let i = choose|i: int|
                        0 <= i < earlier.len() && (#[trigger] earlier[i]).trial_id@ == trial_id
                            && earlier[i].attempt == n;
                    assert(attempts[i] == earlier[i]);
                } else {
                    assert(attempts[attempts.len() - 1].attempt == n);
                }
            }
            if present(attempts, trial_id, n) {
                let i = choose|i: int|
                    0 <= i < attempts.len() && (#[trigger] attempts[i]).trial_id@ == trial_id
                        && attempts[i].attempt == n;
                if i < earlier.len() {
                    assert(earlier[i] == attempts[i]);
                    assert(present(earlier, trial_id, n));
                    assert(numbers(earlier, trial_id).contains(n));
                }
            }
        }
        if told_apart(attempts) {
            assert(told_apart(earlier)) by {
                assert forall|a: int, b: int|
                    0 <= a < b < earlier.len() && (#[trigger] earlier[a]).trial_id@ == (
                    #[trigger] earlier[b]).trial_id@ implies earlier[a].attempt
                    != earlier[b].attempt by {
                    assert(attempts[a] == earlier[a] && attempts[b] == earlier[b]);
                }
                assert forall|a: int| 0 <= a < earlier.len() implies (
                #[trigger] earlier[a]).attempt > 0 by {
                    assert(attempts[a] == earlier[a]);
                }
            }
            if attempts.last().trial_id@ == trial_id {
                assert(!numbers(earlier, trial_id).contains(attempts.last().attempt as int)) by {
                    let n = attempts.last().attempt as int;
                    if present(earlier, trial_id, n) {
                        let i = choose|i: int|
                            0 <= i < earlier.len() && (#[trigger] earlier[i]).trial_id@ == trial_id
                                && earlier[i].attempt == n;
                        assert(attempts[i] == earlier[i]);
                        assert(attempts[attempts.len() - 1].attempt == n);
                    }
                }
            }
        }
    }
}

/// Attempts that are told apart and are not numbered without gaps leave a number out, and bear one
/// above it.
proof fn lemma_gap(attempts: Seq<TrialResult>, trial_id: Seq<char>, expected: int)
    requires
        told_apart(attempts),
        !contiguous(attempts, trial_id),
        1 <= expected,
        numbered(attempts, trial_id, expected - 1),
    ensures
        expected <= attempt_count(attempts, trial_id),
        !present(attempts, trial_id, expected) ==> exists|n: int|
            expected < n <= u32::MAX && #[trigger] present(attempts, trial_id, n),
{
    let count = attempt_count(attempts, trial_id) as int;
    let all = numbers(attempts, trial_id);
    lemma_numbers(attempts, trial_id);
    if !present(attempts, trial_id, expected) && forall|n: int|
        expected < n <= u32::MAX ==> !#[trigger] present(attempts, trial_id, n) {
        assert forall|n: int| all.contains(n) implies vstd::set_lib::set_int_range(
            1,
            expected,
        ).contains(n) by {
            assert(present(attempts, trial_id, n));
        }
        vstd::set_lib::lemma_int_range(1, expected);
        vstd::set_lib::lemma_len_subset(all, vstd::set_lib::set_int_range(1, expected));
        assert(count <= expected - 1);
    }
    if expected > count {
        assert(numbered(attempts, trial_id, count)) by {
            assert forall|n: int| 1 <= n <= count implies #[trigger] present(
                attempts,
                trial_id,
                n,
            ) by {}
        }
        let i = choose|i: int|
            0 <= i < attempts.len() && (#[trigger] attempts[i]).trial_id@ == trial_id
                && attempts[i].attempt > count;
        let above = attempts[i].attempt as int;
        assert(present(attempts, trial_id, above));
        let low = vstd::set_lib::set_int_range(1, count + 1);
        vstd::set_lib::lemma_int_range(1, count + 1);
        assert(!low.contains(above));
        assert forall|n: int| low.insert(above).contains(n) implies all.contains(n) by {
            if n != above {
                assert(present(attempts, trial_id, n));
            }
        }
        vstd::set_lib::lemma_len_subset(low.insert(above), all);
    }
}

/// Only one number can be the first that is left out, or the next that is borne.
proof fn lemma_gap_is_unique(attempts: Seq<TrialResult>, trial_id: Seq<char>, gap: int, n: int)
    requires
        first_missing(attempts, trial_id, gap),
        next_present(attempts, trial_id, gap, n),
    ensures
        gap_of(attempts, trial_id) == (ResultError::AttemptsNotContiguous {
            expected: gap as u32,
            found: n as u32,
        }),
{
    let expected = choose|m: int| first_missing(attempts, trial_id, m);
    assert(first_missing(attempts, trial_id, expected));
    if expected < gap {
        assert(present(attempts, trial_id, expected));
    }
    if gap < expected {
        assert(present(attempts, trial_id, gap));
    }
    let found = choose|m: int| next_present(attempts, trial_id, expected, m);
    assert(next_present(attempts, trial_id, expected, found));
    if found < n {
        assert(present(attempts, trial_id, found));
    }
    if n < found {
        assert(present(attempts, trial_id, n));
    }
}

/// The first gap in the numbers of the attempts at a trial.
fn find_gap(attempts: &Vec<TrialResult>, trial_id: &str) -> (r: ResultError)
    requires
        told_apart(attempts@),
        !contiguous(attempts@, trial_id@),
        attempts@.len() <= u32::MAX,
    ensures
        r == gap_of(attempts@, trial_id@),
{
    let total = count_attempts(attempts, trial_id);
    let count: u32 = total as u32;
    let mut expected: u32 = 1;
    proof {
        lemma_gap(attempts@, trial_id@, 1);
    }
    while number_present(attempts, trial_id, expected)
        invariant
            told_apart(attempts@),
            !contiguous(attempts@, trial_id@),
            count == attempt_count(attempts@, trial_id@),
            1 <= expected <= count,
            numbered(attempts@, trial_id@, expected - 1),
        decreases count - expected,
    {
        assert forall|n: int| 1 <= n <= expected implies #[trigger] present(
            attempts@,
            trial_id@,
            n,
        ) by {}
        proof {
            lemma_gap(attempts@, trial_id@, expected + 1);
        }
        expected += 1;
    }
    proof {
        lemma_gap(attempts@, trial_id@, expected as int);
    }
    let ghost beyond = choose|n: int|
        expected < n <= u32::MAX && #[trigger] present(attempts@, trial_id@, n);
    let mut found: u32 = expected + 1;
    while !number_present(attempts, trial_id, found)
        invariant
            expected < found <= beyond <= u32::MAX,
            present(attempts@, trial_id@, beyond),
            forall|m: int| expected < m < found ==> !#[trigger] present(attempts@, trial_id@, m),
        decreases u32::MAX - found,
    {
        found += 1;
    }
    proof {
        lemma_gap_is_unique(attempts@, trial_id@, expected as int, found as int);
    }
    ResultError::AttemptsNotContiguous { expected, found }
}

fn check_trial_attempts(attempts: &Vec<TrialResult>, trial_id: &str) -> (r: Option<ResultError>)
    requires
        attempts@.len() <= u32::MAX,
        told_apart(attempts@),
    ensures
        r == attempts_failure(attempts@, trial_id@),
{
    let total = count_attempts(attempts, trial_id);
    let count: u32 = total as u32;
    let mut above = false;
    let mut i: usize = 0;
    while i < attempts.len()
        invariant
            i <= attempts@.len(),
            count == attempt_count(attempts@, trial_id@),
            above == exists|j: int|
                0 <= j < i && (#[trigger] attempts@[j]).trial_id@ == trial_id@
                    && attempts@[j].attempt > count,
            forall|j: int| 0 <= j < i ==> !(#[trigger] ends_early(attempts@, trial_id@, j)),
        decreases attempts@.len() - i,
    {
        if text::same(&attempts[i].trial_id, trial_id) {
            if attempts[i].attempt > count {
                assert(attempts@[i as int].attempt > count);
                above = true;
            } else if attempts[i].valid && attempts[i].attempt < count && all_numbered(
                attempts,
                trial_id,
                attempts[i].attempt,
            ) {
                assert(ends_early(attempts@, trial_id@, i as int));
                return Some(ResultError::AttemptsAfterTerminal);
            }
        }
        i += 1;
    }
    if above || !all_numbered(attempts, trial_id, count) {
        return Some(find_gap(attempts, trial_id));
    }
    None
}

/// Attempts that are right in themselves are refused together: on account of the first that ran in
/// another environment than the first one, or else of the first whose trial was not attempted
/// without gaps up to the first valid attempt.
pub open spec fn refused_together(attempts: Seq<TrialResult>, refusal: Refusal) -> bool {
    let at = refusal.line as int;
    &&& at < attempts.len()
    &&& if one_environment(attempts) {
        &&& attempts_failure(attempts, attempts[at].trial_id@) == Some(refusal.error)
        &&& forall|j: int|
            0 <= j < at ==> attempts_failure(attempts, (#[trigger] attempts[j]).trial_id@) is None
    } else {
        &&& refusal.error == ResultError::SeveralEnvironments
        &&& attempts[at].environment_fingerprint@ != attempts[0].environment_fingerprint@
        &&& forall|j: int|
            0 <= j < at ==> (#[trigger] attempts[j]).environment_fingerprint@
                == attempts[0].environment_fingerprint@
    }
}

/// Whether recorded lines form the results of a measurement set, and if not, why.
///
/// Lines are checked in order. Where every line is in itself right, all attempts have to come from
/// one environment, and the attempts at each trial have to be numbered without gaps and to end with
/// the first valid one.
pub fn ingest(
    measurement: &MeasurementSchedule,
    policy: &AnalysisPolicy,
    lines: Vec<DecodedResult>,
    retention_finalized: bool,
) -> (r: Result<IngestedResults, Refusal>)
    requires
        lines@.len() <= u32::MAX,
        !retention_finalized ==> forall|i: int|
            0 <= i < lines@.len() && (#[trigger] lines@[i]).result is Some
                ==> lines@[i].files@.len() == lines@[i].result->0.artifacts@.len(),
    ensures
        match reading(lines@, *measurement, policy.primary_metrics@, retention_finalized) {
            Err(refusal) => r == Err::<IngestedResults, Refusal>(refusal),
            Ok(attempts) => match r {
                Ok(results) => {
                    &&& one_environment(attempts)
                    &&& terminated(attempts)
                    &&& results.attempts@ == attempts
                    &&& text::opt(results.environment_fingerprint) == environment_of(attempts)
                },
                Err(refusal) => refused_together(attempts, refusal),
            },
        },
{
    let attempts = match read_lines(lines, measurement, policy, retention_finalized) {
        Err(refusal) => {
            return Err(refusal);
        },
        Ok(attempts) => attempts,
    };
    let mut i: usize = 0;
    while i < attempts.len()
        invariant
            i <= attempts@.len(),
            reading(lines@, *measurement, policy.primary_metrics@, retention_finalized) == Ok::<
                Seq<TrialResult>,
                Refusal,
            >(attempts@),
            forall|j: int|
                0 <= j < i ==> (#[trigger] attempts@[j]).environment_fingerprint@
                    == attempts@[0].environment_fingerprint@,
        decreases attempts@.len() - i,
    {
        if !text::same(&attempts[i].environment_fingerprint, &attempts[0].environment_fingerprint) {
            return Err(Refusal { line: i, error: ResultError::SeveralEnvironments });
        }
        i += 1;
    }
    proof {
        lemma_reading_length(lines@, *measurement, policy.primary_metrics@, retention_finalized);
        lemma_read_numbers(
            lines@,
            *measurement,
            policy.primary_metrics@,
            retention_finalized,
            attempts@,
        );
    }
    let mut k: usize = 0;
    while k < attempts.len()
        invariant
            k <= attempts@.len(),
            attempts@.len() <= u32::MAX,
            told_apart(attempts@),
            reading(lines@, *measurement, policy.primary_metrics@, retention_finalized) == Ok::<
                Seq<TrialResult>,
                Refusal,
            >(attempts@),
            one_environment(attempts@),
            forall|j: int|
                0 <= j < k ==> attempts_failure(
                    attempts@,
                    (#[trigger] attempts@[j]).trial_id@,
                ) is None,
        decreases attempts@.len() - k,
    {
        if let Some(error) = check_trial_attempts(&attempts, &attempts[k].trial_id) {
            return Err(Refusal { line: k, error });
        }
        k += 1;
    }
    let environment_fingerprint: Option<String> = if attempts.len() == 0 {
        None
    } else {
        Some(attempts[0].environment_fingerprint.clone())
    };
    Ok(IngestedResults { attempts, environment_fingerprint })
}

// Measurement sets.

/// A measurement set: its definitions, its schedule, and what was recorded of it.
#[derive(Clone, Debug)]
pub struct MeasurementSet {
    pub root: String,
    pub benchmark: BenchmarkManifest,
    pub variant: VariantDescriptor,
    pub schedule: MeasurementSchedule,
    pub sampling: Option<SamplingDecision>,
    pub results: IngestedResults,
    pub retention: Option<ArtifactRetention>,
}

/// A workload and an engine whose pilots are judged together.
#[derive(Clone, Debug)]
pub struct PilotStratum {
    pub workload_id: String,
    pub engine: Engine,
}

/// Some valid attempt at a trial was recorded.
pub open spec fn completed(attempts: Seq<TrialResult>, trial_id: Seq<char>) -> bool {
    exists|i: int|
        0 <= i < attempts.len() && (#[trigger] attempts[i]).valid && attempts[i].trial_id@
            == trial_id
}

/// The first valid attempt at a trial.
pub open spec fn completed_at(attempts: Seq<TrialResult>, trial_id: Seq<char>, place: int) -> bool {
    &&& 0 <= place < attempts.len()
    &&& attempts[place].valid
    &&& attempts[place].trial_id@ == trial_id
    &&& forall|j: int|
        0 <= j < place ==> !((#[trigger] attempts[j]).valid && attempts[j].trial_id@ == trial_id)
}

/// Finds the first valid attempt at a trial.
pub fn find_completed(attempts: &Vec<TrialResult>, trial_id: &str) -> (r: Option<usize>)
    ensures
        match r {
            Some(place) => completed_at(attempts@, trial_id@, place as int) && completed(
                attempts@,
                trial_id@,
            ),
            None => !completed(attempts@, trial_id@),
        },
{
    let mut i: usize = 0;
    while i < attempts.len()
        invariant
            i <= attempts@.len(),
            forall|j: int|
                0 <= j < i ==> !((#[trigger] attempts@[j]).valid && attempts@[j].trial_id@
                    == trial_id@),
        decreases attempts@.len() - i,
    {
        if attempts[i].valid && text::same(&attempts[i].trial_id, trial_id) {
            return Some(i);
        }
        i += 1;
    }
    None
}

/// A trial is to be run: always in a fixed schedule; in an adaptive one the final trials wait for a
/// decision, which then says how many pilots and how many final trials there are.
pub open spec fn active(
    sampling: SamplingSchedule,
    decision: Option<SamplingDecision>,
    trial: ScheduledTrial,
) -> bool {
    match sampling {
        SamplingSchedule::Fixed => true,
        SamplingSchedule::Adaptive { .. } => match decision {
            None => trial.phase != TrialPhase::Final,
            Some(decision) => {
                let stratum = schedule::stratum_of(
                    decision.strata@,
                    trial.workload_id@,
                    trial.engine,
                );
                match trial.phase {
                    TrialPhase::Warmup => true,
                    TrialPhase::Pilot => stratum is Some && trial.sample_index
                        <= stratum->0.pilot_samples,
                    TrialPhase::Final => stratum is Some && trial.sample_index
                        <= stratum->0.final_samples,
                }
            },
        },
    }
}

/// The pilot is one of a stratum.
pub open spec fn is_pilot_of(trial: ScheduledTrial, workload: Seq<char>, engine: Engine) -> bool {
    trial.phase == TrialPhase::Pilot && trial.workload_id@ == workload && trial.engine == engine
}

/// How many pilots of a stratum have a valid result.
pub open spec fn pilots_done(
    trials: Seq<ScheduledTrial>,
    attempts: Seq<TrialResult>,
    workload: Seq<char>,
    engine: Engine,
) -> Seq<int> {
    schedule::chosen(
        trials.len() as int,
        |i: int| is_pilot_of(trials[i], workload, engine) && completed(attempts, trials[i].trial_id@),
    )
}

/// Some stratum of the list is that of a workload and an engine.
pub open spec fn in_strata(strata: Seq<PilotStratum>, workload: Seq<char>, engine: Engine) -> bool {
    exists|i: int|
        0 <= i < strata.len() && (#[trigger] strata[i]).workload_id@ == workload
            && strata[i].engine == engine
}

impl MeasurementSet {
    /// The decision on the number of trials is still to be made.
    pub open spec fn undecided(self) -> bool {
        self.schedule.sampling is Adaptive && self.sampling is None
    }

    /// The trial with an index is to be run.
    pub open spec fn runs(self, i: int) -> bool {
        active(self.schedule.sampling, self.sampling, self.schedule.trials@[i])
    }

    /// The trial with an index has a valid result.
    pub open spec fn done(self, i: int) -> bool {
        completed(self.results.attempts@, self.schedule.trials@[i].trial_id@)
    }

    /// The trials that are wanted, in order.
    pub open spec fn trials_where(self, wanted: spec_fn(int) -> bool) -> Seq<int> {
        schedule::chosen(self.schedule.trials@.len() as int, wanted)
    }

    /// The warm-up with an index is still to be run.
    pub open spec fn warmup_left(self, i: int) -> bool {
        self.schedule.trials@[i].phase == TrialPhase::Warmup && !self.done(i)
    }

    /// The trial with an index is the next pilot of a stratum that continues.
    pub open spec fn next_pilot(self, continuing: Seq<PilotStratum>, i: int) -> bool {
        let trial = self.schedule.trials@[i];
        &&& trial.phase == TrialPhase::Pilot
        &&& in_strata(continuing, trial.workload_id@, trial.engine)
        &&& trial.sample_index == pilots_done(
            self.schedule.trials@,
            self.results.attempts@,
            trial.workload_id@,
            trial.engine,
        ).len() + 1
    }

    /// The trials that are to be run now. Before the decision these are the warm-ups, and after
    /// them the next pilot of every stratum that continues; then every active trial without a valid
    /// result.
    pub open spec fn pending(self, continuing: Seq<PilotStratum>) -> Seq<int> {
        if self.undecided() {
            let warmups = self.trials_where(|i: int| self.warmup_left(i));
            if warmups.len() > 0 {
                warmups
            } else {
                self.trials_where(|i: int| self.next_pilot(continuing, i))
            }
        } else {
            self.trials_where(|i: int| self.runs(i) && !self.done(i))
        }
    }

    /// Tells whether the decision on the number of trials is still to be made.
    pub fn needs_sampling_decision(&self) -> (r: bool)
        ensures
            r == self.undecided(),
    {
        match self.schedule.sampling {
            SamplingSchedule::Fixed => false,
            SamplingSchedule::Adaptive { .. } => self.sampling.is_none(),
        }
    }

    /// Tells whether a trial is to be run.
    pub fn trial_is_active(&self, trial: &ScheduledTrial) -> (r: bool)
        ensures
            r == active(self.schedule.sampling, self.sampling, *trial),
    {
        match self.schedule.sampling {
            SamplingSchedule::Fixed => true,
            SamplingSchedule::Adaptive { .. } => match &self.sampling {
                None => trial.phase != TrialPhase::Final,
                Some(decision) => match trial.phase {
                    TrialPhase::Warmup => true,
                    TrialPhase::Pilot => match decision.stratum(&trial.workload_id, trial.engine) {
                        Some(stratum) => trial.sample_index <= stratum.pilot_samples,
                        None => false,
                    },
                    TrialPhase::Final => match decision.stratum(&trial.workload_id, trial.engine) {
                        Some(stratum) => trial.sample_index <= stratum.final_samples,
                        None => false,
                    },
                },
            },
        }
    }

    fn is_done(&self, i: usize) -> (r: bool)
        requires
            i < self.schedule.trials@.len(),
        ensures
            r == self.done(i as int),
    {
        find_completed(&self.results.attempts, &self.schedule.trials[i].trial_id).is_some()
    }

    fn count_pilots(&self, workload_id: &str, engine: Engine) -> (r: usize)
        ensures
            r == pilots_done(
                self.schedule.trials@,
                self.results.attempts@,
                workload_id@,
                engine,
            ).len(),
            r <= self.schedule.trials@.len(),
    {
        let ghost wanted = |i: int|
            is_pilot_of(self.schedule.trials@[i], workload_id@, engine) && completed(
                self.results.attempts@,
                self.schedule.trials@[i].trial_id@,
            );
        let mut count: usize = 0;
        let mut i: usize = 0;
        while i < self.schedule.trials.len()
            invariant
                i <= self.schedule.trials@.len(),
                count <= i,
                wanted == (|i: int|
                    is_pilot_of(self.schedule.trials@[i], workload_id@, engine) && completed(
                        self.results.attempts@,
                        self.schedule.trials@[i].trial_id@,
                    )),
                count == schedule::chosen(i as int, wanted).len(),
            decreases self.schedule.trials@.len() - i,
        {
            let trial = &self.schedule.trials[i];
            if trial.phase == TrialPhase::Pilot && trial.engine == engine && text::same(
                &trial.workload_id,
                workload_id,
            ) && self.is_done(i) {
                count += 1;
            }
            i += 1;
        }
        count
    }

    /// The next pilot of every stratum that continues.
    fn next_pilot_trials(&self, continuing: &Vec<PilotStratum>) -> (r: Vec<usize>)
        ensures
            schedule::ints(r@) == self.trials_where(|i: int| self.next_pilot(continuing@, i)),
    {
        let ghost wanted = |i: int| self.next_pilot(continuing@, i);
        let mut out: Vec<usize> = Vec::new();
        let mut i: usize = 0;
        assert(schedule::ints(out@) == schedule::chosen(0, wanted));
        while i < self.schedule.trials.len()
            invariant
                i <= self.schedule.trials@.len(),
                wanted == (|i: int| self.next_pilot(continuing@, i)),
                schedule::ints(out@) == schedule::chosen(i as int, wanted),
            decreases self.schedule.trials@.len() - i,
        {
            let trial = &self.schedule.trials[i];
            let ghost before = schedule::ints(out@);
            let is_next = trial.phase == TrialPhase::Pilot && strata_hold(
                continuing,
                &trial.workload_id,
                trial.engine,
            ) && trial.sample_index > 0 && (trial.sample_index - 1) as u64 == self.count_pilots(
                &trial.workload_id,
                trial.engine,
            ) as u64;
            assert(is_next == wanted(i as int));
            if is_next {
                out.push(i);
                assert(schedule::ints(out@) == before.push(i as int));
            }
            i += 1;
        }
        out
    }

    /// The warm-ups that are still to be run.
    fn warmups_left(&self) -> (r: Vec<usize>)
        ensures
            schedule::ints(r@) == self.trials_where(|i: int| self.warmup_left(i)),
    {
        let ghost wanted = |i: int| self.warmup_left(i);
        let mut out: Vec<usize> = Vec::new();
        let mut i: usize = 0;
        assert(schedule::ints(out@) == schedule::chosen(0, wanted));
        while i < self.schedule.trials.len()
            invariant
                i <= self.schedule.trials@.len(),
                wanted == (|i: int| self.warmup_left(i)),
                schedule::ints(out@) == schedule::chosen(i as int, wanted),
            decreases self.schedule.trials@.len() - i,
        {
            let ghost before = schedule::ints(out@);
            let left = self.schedule.trials[i].phase == TrialPhase::Warmup && !self.is_done(i);
            assert(left == wanted(i as int));
            if left {
                out.push(i);
                assert(schedule::ints(out@) == before.push(i as int));
            }
            i += 1;
        }
        out
    }

    /// The places of the trials that are to be run now, given the strata whose pilots continue.
    pub fn pending_trials(&self, continuing: &Vec<PilotStratum>) -> (r: Vec<usize>)
        ensures
            schedule::ints(r@) == self.pending(continuing@),
    {
        if self.needs_sampling_decision() {
            let warmups = self.warmups_left();
            assert(schedule::ints(warmups@).len() == warmups@.len());
            if warmups.len() > 0 {
                return warmups;
            }
            return self.next_pilot_trials(continuing);
        }
        let ghost wanted = |i: int| self.runs(i) && !self.done(i);
        let mut out: Vec<usize> = Vec::new();
        let mut i: usize = 0;
        assert(schedule::ints(out@) == schedule::chosen(0, wanted));
        while i < self.schedule.trials.len()
            invariant
                i <= self.schedule.trials@.len(),
                wanted == (|i: int| self.runs(i) && !self.done(i)),
                schedule::ints(out@) == schedule::chosen(i as int, wanted),
            decreases self.schedule.trials@.len() - i,
        {
            let ghost before = schedule::ints(out@);
            let left = self.trial_is_active(&self.schedule.trials[i]) && !self.is_done(i);
            assert(left == wanted(i as int));
            if left {
                out.push(i);
                assert(schedule::ints(out@) == before.push(i as int));
            }
            i += 1;
        }
        out
    }

    /// The final trials are all done.
    pub open spec fn finished(self) -> bool {
        &&& !self.undecided()
        &&& forall|i: int|
            0 <= i < self.schedule.trials@.len() && (#[trigger] self.schedule.trials@[i]).phase
                == TrialPhase::Final && self.runs(i) ==> self.done(i)
    }

    /// Tells whether the final trials are all done.
    pub fn final_is_complete(&self) -> (r: bool)
        ensures
            r == self.finished(),
    {
        if self.needs_sampling_decision() {
            return false;
        }
        let mut i: usize = 0;
        while i < self.schedule.trials.len()
            invariant
                i <= self.schedule.trials@.len(),
                !self.undecided(),
                forall|j: int|
                    0 <= j < i && (#[trigger] self.schedule.trials@[j]).phase == TrialPhase::Final
                        && self.runs(j) ==> self.done(j),
            decreases self.schedule.trials@.len() - i,
        {
            let trial = &self.schedule.trials[i];
            if trial.phase == TrialPhase::Final && self.trial_is_active(trial) && !self.is_done(i) {
                return false;
            }
            i += 1;
        }
        true
    }

    /// How many final trials of an engine are to be run.
    pub fn expected_final_trials(&self, engine: Engine) -> (r: usize)
        ensures
            r == self.trials_where(
                |i: int|
                    self.schedule.trials@[i].phase == TrialPhase::Final
                        && self.schedule.trials@[i].engine == engine && self.runs(i),
            ).len(),
    {
        let ghost wanted = |i: int|
            self.schedule.trials@[i].phase == TrialPhase::Final && self.schedule.trials@[i].engine
                == engine && self.runs(i);
        let mut count: usize = 0;
        let mut i: usize = 0;
        while i < self.schedule.trials.len()
            invariant
                i <= self.schedule.trials@.len(),
                count <= i,
                wanted == (|i: int|
                    self.schedule.trials@[i].phase == TrialPhase::Final
                        && self.schedule.trials@[i].engine == engine && self.runs(i)),
                count == schedule::chosen(i as int, wanted).len(),
            decreases self.schedule.trials@.len() - i,
        {
            let trial = &self.schedule.trials[i];
            if trial.phase == TrialPhase::Final && trial.engine == engine && self.trial_is_active(
                trial,
            ) {
                count += 1;
            }
            i += 1;
        }
        count
    }

    /// How many trials are to be run in all.
    pub fn active_trial_count(&self) -> (r: usize)
        ensures
            r == self.trials_where(|i: int| self.runs(i)).len(),
    {
        let ghost wanted = |i: int| self.runs(i);
        let mut count: usize = 0;
        let mut i: usize = 0;
        while i < self.schedule.trials.len()
            invariant
                i <= self.schedule.trials@.len(),
                count <= i,
                wanted == (|i: int| self.runs(i)),
                count == schedule::chosen(i as int, wanted).len(),
            decreases self.schedule.trials@.len() - i,
        {
            if self.trial_is_active(&self.schedule.trials[i]) {
                count += 1;
            }
            i += 1;
        }
        count
    }

    /// How many of the trials that are to be run have a valid result.
    pub fn completed_active_trial_count(&self) -> (r: usize)
        ensures
            r == self.trials_where(|i: int| self.runs(i) && self.done(i)).len(),
    {
        let ghost wanted = |i: int| self.runs(i) && self.done(i);
        let mut count: usize = 0;
        let mut i: usize = 0;
        while i < self.schedule.trials.len()
            invariant
                i <= self.schedule.trials@.len(),
                count <= i,
                wanted == (|i: int| self.runs(i) && self.done(i)),
                count == schedule::chosen(i as int, wanted).len(),
            decreases self.schedule.trials@.len() - i,
        {
            if self.trial_is_active(&self.schedule.trials[i]) && self.is_done(i) {
                count += 1;
            }
            i += 1;
        }
        count
    }

    /// Tells whether the decision on the number of trials can be made: every warm-up has a valid
    /// result, and the pilots of no stratum continue.
    pub fn calibration_is_complete(&self, continuing: &Vec<PilotStratum>) -> (r: bool)
        ensures
            r == (self.trials_where(|i: int| self.warmup_left(i)).len() == 0 && continuing@.len()
                == 0),
    {
        let warmups = self.warmups_left();
        assert(schedule::ints(warmups@).len() == warmups@.len());
        warmups.len() == 0 && continuing.len() == 0
    }

    pub fn measurement_set_id(&self) -> (r: &str)
        ensures
            r@ == self.schedule.measurement_set_id@,
    {
        self.schedule.measurement_set_id.as_str()
    }

    pub fn root(&self) -> (r: &str)
        ensures
            r@ == self.root@,
    {
        self.root.as_str()
    }

    pub fn benchmark_id(&self) -> (r: &str)
        ensures
            r@ == self.benchmark.benchmark.id@,
    {
        self.benchmark.benchmark_id()
    }

    pub fn subject_id(&self) -> (r: &str)
        ensures
            r@ == self.benchmark.benchmark.subject@,
    {
        self.benchmark.subject_id()
    }

    pub fn variant_id(&self) -> (r: &str)
        ensures
            r@ == self.variant.id@,
    {
        self.variant.id()
    }

    pub fn benchmark_sha256(&self) -> (r: &str)
        ensures
            r@ == self.benchmark.source_sha256@,
    {
        self.benchmark.source_sha256()
    }

    pub fn variant_sha256(&self) -> (r: &str)
        ensures
            r@ == self.variant.source_sha256@,
    {
        self.variant.source_sha256()
    }

    pub fn environment_fingerprint(&self) -> (r: Option<&str>)
        ensures
            text::opt(self.results.environment_fingerprint) == (match r {
                Some(fingerprint) => Some(fingerprint@),
                None => None,
            }),
    {
        match &self.results.environment_fingerprint {
            Some(fingerprint) => Some(fingerprint.as_str()),
            None => None,
        }
    }

    /// The number of the next attempt at a trial.
    pub fn next_attempt(&self, trial_id: &str) -> (r: u32)
        requires
            self.results.attempts@.len() < u32::MAX,
        ensures
            r == attempt_count(self.results.attempts@, trial_id@) + 1,
    {
        count_attempts(&self.results.attempts, trial_id) as u32 + 1
    }

    /// How many invalid attempts an engine made.
    pub fn invalid_attempts(&self, engine: Engine) -> (r: usize)
        ensures
            r == schedule::chosen(
                self.results.attempts@.len() as int,
                |i: int|
                    self.results.attempts@[i].engine == engine && !self.results.attempts@[i].valid,
            ).len(),
    {
        let attempts = &self.results.attempts;
        let ghost wanted = |i: int|
            self.results.attempts@[i].engine == engine && !self.results.attempts@[i].valid;
        let mut count: usize = 0;
        let mut i: usize = 0;
        while i < attempts.len()
            invariant
                i <= attempts@.len(),
                *attempts == self.results.attempts,
                count <= i,
                wanted == (|i: int|
                    self.results.attempts@[i].engine == engine && !self.results.attempts@[i].valid),
                count == schedule::chosen(i as int, wanted).len(),
            decreases attempts@.len() - i,
        {
            if attempts[i].engine == engine && !attempts[i].valid {
                count += 1;
            }
            i += 1;
        }
        count
    }

    /// How many runs a trial puts together: pilots find out, final trials use what was found.
    pub fn trial_batches(&self, trial: &ScheduledTrial, target_ms: Number, max_size: u32) -> (r:
        TrialBatchConfig)
        ensures
            r == if trial.phase != TrialPhase::Final {
                TrialBatchConfig { size: 1, target_ms: Some(target_ms), max_size }
            } else {
                let stratum = match self.sampling {
                    Some(decision) => schedule::stratum_of(
                        decision.strata@,
                        trial.workload_id@,
                        trial.engine,
                    ),
                    None => None,
                };
                let size = match stratum {
                    Some(stratum) => stratum.batch_size,
                    None => 1,
                };
                TrialBatchConfig { size, target_ms: None, max_size: size }
            },
    {
        if trial.phase != TrialPhase::Final {
            return TrialBatchConfig::calibrating(target_ms, max_size);
        }
        let size: u32 = match &self.sampling {
            Some(decision) => match decision.stratum(&trial.workload_id, trial.engine) {
                Some(stratum) => stratum.batch_size,
                None => 1,
            },
            None => 1,
        };
        TrialBatchConfig::fixed(size)
    }
}

fn strata_hold(strata: &Vec<PilotStratum>, workload_id: &str, engine: Engine) -> (r: bool)
    ensures
        r == in_strata(strata@, workload_id@, engine),
{
    let mut i: usize = 0;
    while i < strata.len()
        invariant
            i <= strata@.len(),
            forall|j: int|
                0 <= j < i ==> !((#[trigger] strata@[j]).workload_id@ == workload_id@
                    && strata@[j].engine == engine),
        decreases strata@.len() - i,
    {
        if strata[i].engine == engine && text::same(&strata[i].workload_id, workload_id) {
            return true;
        }
        i += 1;
    }
    false
}

// Queries.

/// Some pilot of the schedule is one of a stratum.
pub open spec fn has_pilot(trials: Seq<ScheduledTrial>, workload: Seq<char>, engine: Engine) -> bool {
    exists|i: int| 0 <= i < trials.len() && is_pilot_of(#[trigger] trials[i], workload, engine)
}

/// One stratum comes before another: by workload, then by engine.
pub open spec fn stratum_before(a: PilotStratum, b: PilotStratum) -> bool {
    ||| text::precedes(a.workload_id@, b.workload_id@)
    ||| (a.workload_id@ == b.workload_id@ && artifact_retention::engine_place(a.engine)
        < artifact_retention::engine_place(b.engine))
}

/// The strata are those of all pilots of a schedule, each once, in order.
pub open spec fn is_pilot_strata(strata: Seq<PilotStratum>, trials: Seq<ScheduledTrial>) -> bool {
    &&& forall|s: int|
        0 <= s < strata.len() ==> has_pilot(
            trials,
            (#[trigger] strata[s]).workload_id@,
            strata[s].engine,
        )
    &&& forall|s: int, t: int|
        0 <= s < t < strata.len() ==> stratum_before(#[trigger] strata[s], #[trigger] strata[t])
    &&& forall|i: int|
        0 <= i < trials.len() && (#[trigger] trials[i]).phase == TrialPhase::Pilot ==> in_strata(
            strata,
            trials[i].workload_id@,
            trials[i].engine,
        )
}

fn pilot_exists(trials: &Vec<ScheduledTrial>, workload_id: &str, engine: Engine) -> (r: bool)
    ensures
        r == has_pilot(trials@, workload_id@, engine),
{
    let mut i: usize = 0;
    while i < trials.len()
        invariant
            i <= trials@.len(),
            forall|j: int|
                0 <= j < i ==> !is_pilot_of(#[trigger] trials@[j], workload_id@, engine),
        decreases trials@.len() - i,
    {
        if trials[i].phase == TrialPhase::Pilot && trials[i].engine == engine && text::same(
            &trials[i].workload_id,
            workload_id,
        ) {
            return true;
        }
        i += 1;
    }
    false
}

fn pilot_workloads(trials: &Vec<ScheduledTrial>) -> (r: Vec<String>)
    ensures
        ordered::sorted(text::views(r@)),
        forall|i: int|
            0 <= i < trials@.len() && (#[trigger] trials@[i]).phase == TrialPhase::Pilot
                ==> text::views(r@).contains(trials@[i].workload_id@),
{
    let mut out: Vec<String> = Vec::new();
    let mut i: usize = 0;
    while i < trials.len()
        invariant
            i <= trials@.len(),
            ordered::sorted(text::views(out@)),
            forall|j: int|
                0 <= j < i && (#[trigger] trials@[j]).phase == TrialPhase::Pilot ==> text::views(
                    out@,
                ).contains(trials@[j].workload_id@),
        decreases trials@.len() - i,
    {
        if trials[i].phase == TrialPhase::Pilot {
            ordered::insert(&mut out, &trials[i].workload_id);
        }
        i += 1;
    }
    out
}

/// The strata before place `w` of some workloads that have a pilot are all listed.
pub open spec fn listed(
    strata: Seq<PilotStratum>,
    trials: Seq<ScheduledTrial>,
    workloads: Seq<String>,
    w: int,
) -> bool {
    forall|v: int, engine: Engine|
        0 <= v < w && has_pilot(trials, #[trigger] workloads[v]@, engine) ==> #[trigger] in_strata(
            strata,
            workloads[v]@,
            engine,
        )
}

proof fn lemma_in_strata_push(strata: Seq<PilotStratum>, stratum: PilotStratum)
    ensures
        forall|workload: Seq<char>, engine: Engine| #[trigger]
            in_strata(strata, workload, engine) ==> in_strata(
                strata.push(stratum),
                workload,
                engine,
            ),
        in_strata(strata.push(stratum), stratum.workload_id@, stratum.engine),
{
    let longer = strata.push(stratum);
    assert forall|workload: Seq<char>, engine: Engine| #[trigger]
        in_strata(strata, workload, engine) implies in_strata(longer, workload, engine) by {
        let i = choose|i: int|
            0 <= i < strata.len() && (#[trigger] strata[i]).workload_id@ == workload
                && strata[i].engine == engine;
        assert(longer[i] == strata[i]);
    }
    assert(longer[strata.len() as int] == stratum);
}

impl MeasurementSet {
    /// The workloads and engines that have pilots, in order.
    pub fn pilot_strata(&self) -> (r: Vec<PilotStratum>)
        ensures
            is_pilot_strata(r@, self.schedule.trials@),
    {
        let trials = &self.schedule.trials;
        let workloads = pilot_workloads(trials);
        let engines = Engine::all();
        let mut out: Vec<PilotStratum> = Vec::new();
        let mut w: usize = 0;
        while w < workloads.len()
            invariant
                w <= workloads@.len(),
                *trials == self.schedule.trials,
                engines@ == browser_lab::all_engines(),
                ordered::sorted(text::views(workloads@)),
                forall|s: int|
                    0 <= s < out@.len() ==> has_pilot(
                        trials@,
                        (#[trigger] out@[s]).workload_id@,
                        out@[s].engine,
                    ),
                forall|s: int|
                    0 <= s < out@.len() ==> exists|v: int|
                        0 <= v < w && workloads@[v]@ == (#[trigger] out@[s]).workload_id@,
                forall|s: int, t: int|
                    0 <= s < t < out@.len() ==> stratum_before(
                        #[trigger] out@[s],
                        #[trigger] out@[t],
                    ),
                listed(out@, trials@, workloads@, w as int),
            decreases workloads@.len() - w,
        {
            let mut e: usize = 0;
            while e < engines.len()
                invariant
                    w < workloads@.len(),
                    e <= engines@.len(),
                    *trials == self.schedule.trials,
                    engines@ == browser_lab::all_engines(),
                    ordered::sorted(text::views(workloads@)),
                    forall|s: int|
                        0 <= s < out@.len() ==> has_pilot(
                            trials@,
                            (#[trigger] out@[s]).workload_id@,
                            out@[s].engine,
                        ),
                    forall|s: int|
                        0 <= s < out@.len() ==> ((exists|v: int|
                            0 <= v < w && workloads@[v]@ == (#[trigger] out@[s]).workload_id@) || (
                        out@[s].workload_id@ == workloads@[w as int]@
                            && artifact_retention::engine_place(out@[s].engine) < e)),
                    forall|s: int, t: int|
                        0 <= s < t < out@.len() ==> stratum_before(
                            #[trigger] out@[s],
                            #[trigger] out@[t],
                        ),
                    listed(out@, trials@, workloads@, w as int),
                    forall|engine: Engine|
                        artifact_retention::engine_place(engine) < e && has_pilot(
                            trials@,
                            workloads@[w as int]@,
                            engine,
                        ) ==> #[trigger] in_strata(out@, workloads@[w as int]@, engine),
                decreases engines@.len() - e,
            {
                let engine = engines[e];
                assert(artifact_retention::engine_place(engine) == e);
                let ghost before = out@;
                if pilot_exists(trials, &workloads[w], engine) {
                    let stratum = PilotStratum { workload_id: workloads[w].clone(), engine };
                    proof {
                        lemma_in_strata_push(out@, stratum);
                    }
                    out.push(stratum);
                    proof {
                        assert forall|s: int, t: int|
                            0 <= s < t < out@.len() implies stratum_before(
                            #[trigger] out@[s],
                            #[trigger] out@[t],
                        ) by {
                            if t == before.len() {
                                assert(out@[s] == before[s]);
                                if exists|v: int|
                                    0 <= v < w && workloads@[v]@ == before[s].workload_id@ {
                                    let v = choose|v: int|
                                        0 <= v < w && workloads@[v]@ == before[s].workload_id@;
                                    let all = text::views(workloads@);
                                    assert(text::precedes(all[v], all[w as int]));
                                }
                            } else {
                                assert(out@[s] == before[s] && out@[t] == before[t]);
                            }
                        }
                        assert forall|s: int| 0 <= s < out@.len() implies ((exists|v: int|
                            0 <= v < w && workloads@[v]@ == (#[trigger] out@[s]).workload_id@) || (
                        out@[s].workload_id@ == workloads@[w as int]@
                            && artifact_retention::engine_place(out@[s].engine) < e + 1)) by {
                            if s < before.len() {
                                assert(out@[s] == before[s]);
                            }
                        }
                    }
                }
                proof {
                    assert(listed(before, trials@, workloads@, w as int));
                    assert forall|v: int, other: Engine|
                        0 <= v < w && has_pilot(
                            trials@,
                            #[trigger] workloads@[v]@,
                            other,
                        ) implies #[trigger] in_strata(out@, workloads@[v]@, other) by {
                        assert(in_strata(before, workloads@[v]@, other));
                    }
                    assert forall|other: Engine|
                        artifact_retention::engine_place(other) < e + 1 && has_pilot(
                            trials@,
                            workloads@[w as int]@,
                            other,
                        ) implies #[trigger] in_strata(out@, workloads@[w as int]@, other) by {
                        if artifact_retention::engine_place(other) < e {
                            assert(in_strata(before, workloads@[w as int]@, other));
                        } else {
                            assert(other == engine);
                        }
                    }
                }
                e += 1;
            }
            proof {
                assert forall|v: int, other: Engine|
                    0 <= v < w + 1 && has_pilot(
                        trials@,
                        #[trigger] workloads@[v]@,
                        other,
                    ) implies #[trigger] in_strata(out@, workloads@[v]@, other) by {
                    assert(artifact_retention::engine_place(other) < 3);
                }
            }
            w += 1;
        }
        proof {
            assert forall|i: int|
                0 <= i < trials@.len() && (#[trigger] trials@[i]).phase
                    == TrialPhase::Pilot implies in_strata(
                out@,
                trials@[i].workload_id@,
                trials@[i].engine,
            ) by {
                let all = text::views(workloads@);
                assert(all.contains(trials@[i].workload_id@));
                let v = choose|v: int| 0 <= v < all.len() && all[v] == trials@[i].workload_id@;
                assert(is_pilot_of(trials@[i], workloads@[v]@, trials@[i].engine));
                assert(in_strata(out@, workloads@[v]@, trials@[i].engine));
            }
        }
        out
    }

    /// The valid result of the trial at a place of the schedule.
    pub fn result_of(&self, trial: usize) -> (r: Option<&TrialResult>)
        requires
            trial < self.schedule.trials@.len(),
        ensures
            match r {
                Some(result) => self.done(trial as int) && exists|place: int|
                    completed_at(
                        self.results.attempts@,
                        self.schedule.trials@[trial as int].trial_id@,
                        place,
                    ) && #[trigger] self.results.attempts@[place] == *result,
                None => !self.done(trial as int),
            },
    {
        match find_completed(&self.results.attempts, &self.schedule.trials[trial].trial_id) {
            Some(place) => Some(&self.results.attempts[place]),
            None => None,
        }
    }

    /// The pilot at one place comes before that at another: by number, then by place.
    pub open spec fn pilot_before(self, a: int, b: int) -> bool {
        let trials = self.schedule.trials@;
        ||| trials[a].sample_index < trials[b].sample_index
        ||| (trials[a].sample_index == trials[b].sample_index && a < b)
    }

    /// The places of a stratum's pilots that have a result, by number.
    pub fn pilot_results(&self, workload_id: &str, engine: Engine) -> (r: Vec<usize>)
        ensures
            forall|a: int, b: int|
                0 <= a < b < r@.len() ==> #[trigger] self.pilot_before(
                    r@[a] as int,
                    r@[b] as int,
                ),
            forall|i: int| #[trigger]
                schedule::ints(r@).contains(i) <==> pilots_done(
                    self.schedule.trials@,
                    self.results.attempts@,
                    workload_id@,
                    engine,
                ).contains(i),
    {
        let trials = &self.schedule.trials;
        let ghost wanted = |i: int|
            is_pilot_of(self.schedule.trials@[i], workload_id@, engine) && completed(
                self.results.attempts@,
                self.schedule.trials@[i].trial_id@,
            );
        let mut out: Vec<usize> = Vec::new();
        let mut i: usize = 0;
        while i < trials.len()
            invariant
                i <= trials@.len(),
                *trials == self.schedule.trials,
                wanted == (|i: int|
                    is_pilot_of(self.schedule.trials@[i], workload_id@, engine) && completed(
                        self.results.attempts@,
                        self.schedule.trials@[i].trial_id@,
                    )),
                forall|k: int| 0 <= k < out@.len() ==> (#[trigger] out@[k]) < i,
                forall|a: int, b: int|
                    0 <= a < b < out@.len() ==> #[trigger] self.pilot_before(
                        out@[a] as int,
                        out@[b] as int,
                    ),
                forall|j: int| #[trigger]
                    schedule::ints(out@).contains(j) <==> (0 <= j < i && wanted(j)),
            decreases trials@.len() - i,
        {
            let trial = &trials[i];
            let ghost before = out@;
            let is_wanted = trial.phase == TrialPhase::Pilot && trial.engine == engine
                && text::same(&trial.workload_id, workload_id) && self.is_done(i);
            assert(is_wanted == wanted(i as int));
            if is_wanted {
                let mut at: usize = 0;
                while at < out.len() && trials[out[at]].sample_index <= trial.sample_index
                    invariant
                        at <= out@.len(),
                        i < trials@.len(),
                        *trials == self.schedule.trials,
                        *trial == trials@[i as int],
                        forall|k: int| 0 <= k < out@.len() ==> (#[trigger] out@[k]) < i,
                        forall|k: int|
                            0 <= k < at ==> trials@[(#[trigger] out@[k]) as int].sample_index
                                <= trial.sample_index,
                    decreases out@.len() - at,
                {
                    at += 1;
                }
                out.insert(at, i);
                proof {
                    assert forall|a: int, b: int|
                        0 <= a < b < out@.len() implies #[trigger] self.pilot_before(
                        out@[a] as int,
                        out@[b] as int,
                    ) by {
                        if at < before.len() {
                            assert(trials@[before[at as int] as int].sample_index
                                > trial.sample_index);
                        }
                        if a < at && b < at {
                            assert(self.pilot_before(before[a] as int, before[b] as int));
                        } else if a < at && b > at {
                            assert(self.pilot_before(before[a] as int, before[b - 1] as int));
                        } else if a < at && b == at {
                            assert(before[a] < i);
                        } else if a == at && b > at {
                            if b - 1 > at {
                                assert(self.pilot_before(
                                    before[at as int] as int,
                                    before[b - 1] as int,
                                ));
                            }
                        } else {
                            assert(self.pilot_before(before[a - 1] as int, before[b - 1] as int));
                        }
                    }
                    let now = schedule::ints(out@);
                    let then = schedule::ints(before);
                    assert forall|j: int| #[trigger] now.contains(j) <==> (0 <= j < i + 1 && wanted(
                        j,
                    )) by {
                        assert(then.contains(j) <==> (0 <= j < i && wanted(j)));
                        if now.contains(j) {
                            let k = choose|k: int| 0 <= k < now.len() && now[k] == j;
                            if k < at {
                                assert(then[k] == j);
                            } else if k > at {
                                assert(then[k - 1] == j);
                            }
                        }
                        if then.contains(j) {
                            let k = choose|k: int| 0 <= k < then.len() && then[k] == j;
                            if k < at {
                                assert(now[k] == j);
                            } else {
                                assert(now[k + 1] == j);
                            }
                        }
                        assert(now[at as int] == i);
                    }
                }
            }
            i += 1;
        }
        proof {
            schedule::lemma_chosen(trials@.len() as int, wanted);
        }
        out
    }

    /// The places of the warm-ups and pilots that have a result.
    pub fn calibration_results(&self) -> (r: Vec<usize>)
        ensures
            schedule::ints(r@) == self.trials_where(
                |i: int| self.schedule.trials@[i].phase != TrialPhase::Final && self.done(i),
            ),
    {
        let ghost wanted = |i: int|
            self.schedule.trials@[i].phase != TrialPhase::Final && self.done(i);
        let mut out: Vec<usize> = Vec::new();
        let mut i: usize = 0;
        assert(schedule::ints(out@) == schedule::chosen(0, wanted));
        while i < self.schedule.trials.len()
            invariant
                i <= self.schedule.trials@.len(),
                wanted == (|i: int|
                    self.schedule.trials@[i].phase != TrialPhase::Final && self.done(i)),
                schedule::ints(out@) == schedule::chosen(i as int, wanted),
            decreases self.schedule.trials@.len() - i,
        {
            let ghost before = schedule::ints(out@);
            let is_wanted = self.schedule.trials[i].phase != TrialPhase::Final && self.is_done(i);
            assert(is_wanted == wanted(i as int));
            if is_wanted {
                out.push(i);
                assert(schedule::ints(out@) == before.push(i as int));
            }
            i += 1;
        }
        out
    }

    /// The places of an engine's final trials that are to be run and have a result.
    pub fn final_results(&self, engine: Engine) -> (r: Vec<usize>)
        ensures
            schedule::ints(r@) == self.trials_where(
                |i: int|
                    self.schedule.trials@[i].phase == TrialPhase::Final
                        && self.schedule.trials@[i].engine == engine && self.runs(i) && self.done(
                        i,
                    ),
            ),
    {
        let ghost wanted = |i: int|
            self.schedule.trials@[i].phase == TrialPhase::Final && self.schedule.trials@[i].engine
                == engine && self.runs(i) && self.done(i);
        let mut out: Vec<usize> = Vec::new();
        let mut i: usize = 0;
        assert(schedule::ints(out@) == schedule::chosen(0, wanted));
        while i < self.schedule.trials.len()
            invariant
                i <= self.schedule.trials@.len(),
                wanted == (|i: int|
                    self.schedule.trials@[i].phase == TrialPhase::Final
                        && self.schedule.trials@[i].engine == engine && self.runs(i) && self.done(
                        i,
                    )),
                schedule::ints(out@) == schedule::chosen(i as int, wanted),
            decreases self.schedule.trials@.len() - i,
        {
            let ghost before = schedule::ints(out@);
            let trial = &self.schedule.trials[i];
            let is_wanted = trial.phase == TrialPhase::Final && trial.engine == engine
                && self.trial_is_active(trial) && self.is_done(i);
            assert(is_wanted == wanted(i as int));
            if is_wanted {
                out.push(i);
                assert(schedule::ints(out@) == before.push(i as int));
            }
            i += 1;
        }
        out
    }

    /// Nothing is left to settle or to run.
    pub open spec fn exhausted(self, continuing: Seq<PilotStratum>) -> bool {
        !self.undecided() && self.pending(continuing).len() == 0
    }

    /// Tells whether nothing is left to settle or to run.
    pub fn is_exhausted(&self, continuing: &Vec<PilotStratum>) -> (r: bool)
        ensures
            r == self.exhausted(continuing@),
    {
        if self.needs_sampling_decision() {
            return false;
        }
        let pending = self.pending_trials(continuing);
        assert(schedule::ints(pending@).len() == pending@.len());
        pending.len() == 0
    }

    /// What follows from an outcome: a set that is not exhausted keeps what it needs to go on, an
    /// exhausted one discards it, but not before what is kept of it is settled.
    pub fn commit_outcome(&self, continuing: &Vec<PilotStratum>) -> (r: Result<
        CommitStep,
        RetentionMissing,
    >)
        ensures
            r == if !self.exhausted(continuing@) {
                Ok::<CommitStep, RetentionMissing>(CommitStep::KeepScratch)
            } else if self.retention is Some {
                Ok::<CommitStep, RetentionMissing>(CommitStep::DiscardScratch)
            } else {
                Err::<CommitStep, RetentionMissing>(RetentionMissing)
            },
    {
        let complete = self.is_exhausted(continuing);
        if complete && self.retention.is_none() {
            return Err(RetentionMissing);
        }
        if complete {
            Ok(CommitStep::DiscardScratch)
        } else {
            Ok(CommitStep::KeepScratch)
        }
    }
}

/// What is done with resume-only data once an outcome is written.
#[derive(Clone, Copy, Debug, Eq, PartialEq, Structural)]
pub enum CommitStep {
    KeepScratch,
    DiscardScratch,
}

/// A set is complete, but what is kept of it is not settled.
#[derive(Clone, Copy, Debug, Eq, PartialEq, Structural)]
pub struct RetentionMissing;

impl RetentionMissing {
    /// What is said of it.
    pub fn message(&self) -> (r: String)
        ensures
            r@ == "cannot commit completion before artifact retention is finalized"@,
    {
        "cannot commit completion before artifact retention is finalized".to_owned()
    }
}

/// A directory of resume-only data, as it was found.
#[derive(Clone, Copy, Debug, Eq, PartialEq, Structural)]
pub struct ScratchDirectory {
    pub exists: bool,
    pub symbolic_link: bool,
    pub directory: bool,
    /// Its parent is the directory of the measurement set.
    pub below_root: bool,
}

/// Why a directory of resume-only data is not removed.
#[derive(Clone, Copy, Debug, Eq, PartialEq, Structural)]
pub enum ScratchError {
    NotADirectory,
    Escaped,
}

/// Whether a directory of resume-only data is to be removed: a missing one is not, and neither
/// links nor what lies elsewhere are touched.
pub fn remove_measurement_directory(found: ScratchDirectory) -> (r: Result<bool, ScratchError>)
    ensures
        r == if !found.exists {
            Ok::<bool, ScratchError>(false)
        } else if found.symbolic_link || !found.directory {
            Err::<bool, ScratchError>(ScratchError::NotADirectory)
        } else if !found.below_root {
            Err::<bool, ScratchError>(ScratchError::Escaped)
        } else {
            Ok::<bool, ScratchError>(true)
        },
{
    if !found.exists {
        return Ok(false);
    }
    if found.symbolic_link || !found.directory {
        return Err(ScratchError::NotADirectory);
    }
    if !found.below_root {
        return Err(ScratchError::Escaped);
    }
    Ok(true)
}

} // verus!
