//! How measurement sets are opened, and what may be added to them.

use vstd::prelude::*;
use vstd::string::*;

use crate::artifact_retention::ArtifactRetention;
use crate::browser_lab::ArtifactFile;
use crate::manifest;
use crate::manifest::{BenchmarkManifest, MetricPolicy, VariantDescriptor};
use crate::measurement;
use crate::measurement::{
    DecodedResult, MeasurementSet, PilotStratum, Refusal, ResultError, TrialResult,
};
use crate::preparation;
use crate::preparation::ScheduleError;
use crate::schedule;
use crate::schedule::{
    MeasurementSchedule, SamplingDecision, SamplingSchedule, SamplingStratum, ScheduledTrial,
    TrialPhase, MEASUREMENT_SCHEMA_VERSION,
};
use crate::text;

verus! {

// Sampling decisions.

/// Why a decision does not follow from the recorded trials.
#[derive(Clone, Copy, Debug, Eq, PartialEq, Structural)]
pub enum SamplingError {
    /// The set needs no decision.
    NotNeeded,
    /// Warm-ups or pilots are left to be run.
    CalibrationIncomplete,
    /// The warm-up with this index has no result.
    Warmup(usize),
    /// The decision says nothing on the pilot with this index.
    NoPilotCount(usize),
    /// The pilot with this index has a result and should not, or has none and should.
    PilotPrefix(usize),
    /// The pilots of the stratum with this index did not stop for the recorded reason.
    StopReason(usize),
    /// A set with a fixed number of trials has a decision.
    FixedSet,
}

/// Why the first `n` trials do not agree with a decision, if they do not.
pub open spec fn prefix_failure(
    trials: Seq<ScheduledTrial>,
    attempts: Seq<TrialResult>,
    strata: Seq<SamplingStratum>,
    n: int,
) -> Option<SamplingError>
    decreases n,
{
    if n <= 0 {
        None
    } else if prefix_failure(trials, attempts, strata, n - 1) is Some {
        prefix_failure(trials, attempts, strata, n - 1)
    } else {
        let trial = trials[n - 1];
        let done = measurement::completed(attempts, trial.trial_id@);
        match trial.phase {
            TrialPhase::Warmup => if done {
                None
            } else {
                Some(SamplingError::Warmup((n - 1) as usize))
            },
            TrialPhase::Pilot => match schedule::stratum_of(
                strata,
                trial.workload_id@,
                trial.engine,
            ) {
                None => Some(SamplingError::NoPilotCount((n - 1) as usize)),
                Some(stratum) => if done != (trial.sample_index <= stratum.pilot_samples) {
                    Some(SamplingError::PilotPrefix((n - 1) as usize))
                } else {
                    None
                },
            },
            TrialPhase::Final => None,
        }
    }
}

/// Why the reasons for which pilots stopped do not agree with the first `n` strata, if they do not.
pub open spec fn reasons_failure(
    strata: Seq<SamplingStratum>,
    reasons: Seq<Option<String>>,
    n: int,
) -> Option<SamplingError>
    decreases n,
{
    if n <= 0 {
        None
    } else if reasons_failure(strata, reasons, n - 1) is Some {
        reasons_failure(strata, reasons, n - 1)
    } else if text::opt(reasons[n - 1]) != Some(strata[n - 1].pilot_stop_reason@) {
        Some(SamplingError::StopReason((n - 1) as usize))
    } else {
        None
    }
}

/// Why a decision does not follow from the recorded trials, if it does not.
pub open spec fn sampling_failure(
    trials: Seq<ScheduledTrial>,
    attempts: Seq<TrialResult>,
    strata: Seq<SamplingStratum>,
    reasons: Seq<Option<String>>,
) -> Option<SamplingError> {
    if prefix_failure(trials, attempts, strata, trials.len() as int) is Some {
        prefix_failure(trials, attempts, strata, trials.len() as int)
    } else {
        reasons_failure(strata, reasons, strata.len() as int)
    }
}

proof fn lemma_prefix_failure(
    trials: Seq<ScheduledTrial>,
    attempts: Seq<TrialResult>,
    strata: Seq<SamplingStratum>,
    n: int,
    m: int,
)
    requires
        0 <= n <= m,
        prefix_failure(trials, attempts, strata, n) is Some,
    ensures
        prefix_failure(trials, attempts, strata, m) == prefix_failure(trials, attempts, strata, n),
    decreases m - n,
{
    if n < m {
        lemma_prefix_failure(trials, attempts, strata, n, m - 1);
    }
}

proof fn lemma_reasons_failure(
    strata: Seq<SamplingStratum>,
    reasons: Seq<Option<String>>,
    n: int,
    m: int,
)
    requires
        0 <= n <= m,
        reasons_failure(strata, reasons, n) is Some,
    ensures
        reasons_failure(strata, reasons, m) == reasons_failure(strata, reasons, n),
    decreases m - n,
{
    if n < m {
        lemma_reasons_failure(strata, reasons, n, m - 1);
    }
}

fn check_prefixes(
    trials: &Vec<ScheduledTrial>,
    attempts: &Vec<TrialResult>,
    decision: &SamplingDecision,
) -> (r: Option<SamplingError>)
    ensures
        r == prefix_failure(trials@, attempts@, decision.strata@, trials@.len() as int),
{
    let mut i: usize = 0;
    while i < trials.len()
        invariant
            i <= trials@.len(),
            prefix_failure(trials@, attempts@, decision.strata@, i as int) is None,
        decreases trials@.len() - i,
    {
        proof {
            if prefix_failure(trials@, attempts@, decision.strata@, i + 1) is Some {
                lemma_prefix_failure(
                    trials@,
                    attempts@,
                    decision.strata@,
                    i + 1,
                    trials@.len() as int,
                );
            }
        }
        let trial = &trials[i];
        let done = measurement::find_completed(attempts, &trial.trial_id).is_some();
        match trial.phase {
            TrialPhase::Warmup => {
                if !done {
                    return Some(SamplingError::Warmup(i));
                }
            },
            TrialPhase::Pilot => match decision.stratum(&trial.workload_id, trial.engine) {
                None => {
                    return Some(SamplingError::NoPilotCount(i));
                },
                Some(stratum) => {
                    if done != (trial.sample_index <= stratum.pilot_samples) {
                        return Some(SamplingError::PilotPrefix(i));
                    }
                },
            },
            TrialPhase::Final => {},
        }
        i += 1;
    }
    None
}

fn check_reasons(decision: &SamplingDecision, reasons: &Vec<Option<String>>) -> (r: Option<
    SamplingError,
>)
    requires
        reasons@.len() == decision.strata@.len(),
    ensures
        r == reasons_failure(decision.strata@, reasons@, decision.strata@.len() as int),
{
    let mut i: usize = 0;
    while i < reasons.len()
        invariant
            i <= reasons@.len(),
            reasons@.len() == decision.strata@.len(),
            reasons_failure(decision.strata@, reasons@, i as int) is None,
        decreases reasons@.len() - i,
    {
        proof {
            if reasons_failure(decision.strata@, reasons@, i + 1) is Some {
                lemma_reasons_failure(
                    decision.strata@,
                    reasons@,
                    i + 1,
                    decision.strata@.len() as int,
                );
            }
        }
        let agrees = match &reasons[i] {
            Some(reason) => text::same(reason, &decision.strata[i].pilot_stop_reason),
            None => false,
        };
        if !agrees {
            return Some(SamplingError::StopReason(i));
        }
        i += 1;
    }
    None
}

/// Checks that a decision follows from the recorded trials: every warm-up is done, of every stratum
/// just the pilots that it counts, and these stopped for the reason that it gives. `reasons` says of
/// every stratum of the decision for which reason its pilots stop, if they do.
pub fn validate_sampling_results(
    measurement: &MeasurementSchedule,
    decision: &SamplingDecision,
    attempts: &Vec<TrialResult>,
    reasons: &Vec<Option<String>>,
) -> (r: Result<(), SamplingError>)
    requires
        reasons@.len() == decision.strata@.len(),
    ensures
        match sampling_failure(measurement.trials@, attempts@, decision.strata@, reasons@) {
            Some(error) => r == Err::<(), SamplingError>(error),
            None => r == Ok::<(), SamplingError>(()),
        },
{
    if let Some(error) = check_prefixes(&measurement.trials, attempts, decision) {
        return Err(error);
    }
    match check_reasons(decision, reasons) {
        Some(error) => Err(error),
        None => Ok(()),
    }
}

impl MeasurementSet {
    /// Why a decision cannot be recorded, if it cannot.
    pub open spec fn decision_failure(
        self,
        decision: SamplingDecision,
        continuing: Seq<PilotStratum>,
        reasons: Seq<Option<String>>,
    ) -> Option<SamplingError> {
        if !self.undecided() {
            Some(SamplingError::NotNeeded)
        } else if self.trials_where(|i: int| self.warmup_left(i)).len() > 0 || continuing.len()
            > 0 {
            Some(SamplingError::CalibrationIncomplete)
        } else {
            sampling_failure(
                self.schedule.trials@,
                self.results.attempts@,
                decision.strata@,
                reasons,
            )
        }
    }

    /// Checks that a decision may be recorded: the set needs one, nothing is left to calibrate, and
    /// the decision follows from the recorded trials.
    pub fn record_sampling_decision(
        &self,
        decision: &SamplingDecision,
        continuing: &Vec<PilotStratum>,
        reasons: &Vec<Option<String>>,
    ) -> (r: Result<(), SamplingError>)
        requires
            reasons@.len() == decision.strata@.len(),
        ensures
            match self.decision_failure(*decision, continuing@, reasons@) {
                Some(error) => r == Err::<(), SamplingError>(error),
                None => r == Ok::<(), SamplingError>(()),
            },
    {
        if !self.needs_sampling_decision() {
            return Err(SamplingError::NotNeeded);
        }
        if !self.calibration_is_complete(continuing) {
            return Err(SamplingError::CalibrationIncomplete);
        }
        validate_sampling_results(&self.schedule, decision, &self.results.attempts, reasons)
    }

    /// Checks the decision of an opened set against its recorded trials.
    pub fn check_sampling(&self, reasons: &Vec<Option<String>>) -> (r: Result<(), SamplingError>)
        requires
            self.sampling is Some ==> reasons@.len() == self.sampling->0.strata@.len(),
        ensures
            match self.sampling {
                Some(decision) => match sampling_failure(
                    self.schedule.trials@,
                    self.results.attempts@,
                    decision.strata@,
                    reasons@,
                ) {
                    Some(error) => r == Err::<(), SamplingError>(error),
                    None => r == Ok::<(), SamplingError>(()),
                },
                None => r == Ok::<(), SamplingError>(()),
            },
    {
        match &self.sampling {
            Some(decision) => validate_sampling_results(
                &self.schedule,
                decision,
                &self.results.attempts,
                reasons,
            ),
            None => Ok(()),
        }
    }
}

// Opening.

/// Why a measurement set is refused.
#[derive(Clone, Copy, Debug, Eq, PartialEq, Structural)]
pub enum OpenError {
    /// The variant is one of another subject.
    Subject,
    Schedule(ScheduleError),
    Sampling(SamplingError),
    Result(Refusal),
}

/// The files of a measurement set, decoded.
#[derive(Clone, Debug)]
pub struct SetParts {
    pub root: String,
    pub benchmark: BenchmarkManifest,
    pub variant: VariantDescriptor,
    pub schedule: MeasurementSchedule,
    pub sampling: Option<SamplingDecision>,
    pub lines: Vec<DecodedResult>,
    pub retention: Option<ArtifactRetention>,
}

/// Why the files of a set other than its results are refused, if they are.
pub open spec fn parts_failure(parts: SetParts) -> Option<OpenError> {
    let refused = preparation::schedule_failure(parts.benchmark, parts.variant, parts.schedule);
    if parts.variant.subject@ != parts.benchmark.benchmark.subject@ {
        Some(OpenError::Subject)
    } else if refused is Some {
        Some(OpenError::Schedule(refused->0))
    } else if parts.schedule.sampling == SamplingSchedule::Fixed && parts.sampling is Some {
        Some(OpenError::Sampling(SamplingError::FixedSet))
    } else {
        None
    }
}

/// The metrics of a benchmark, with the smallest effects that count.
pub open spec fn is_policy(policy: Seq<MetricPolicy>, benchmark: BenchmarkManifest) -> bool {
    &&& policy.len() == benchmark.statistics.primary_metrics@.len()
    &&& forall|i: int|
        0 <= i < policy.len() ==> (#[trigger] policy[i]).name@
            == benchmark.statistics.primary_metrics@[i]@
}

/// Whether a result is right depends on the names of the metrics alone.
proof fn lemma_result_failure(
    result: TrialResult,
    a: Seq<MetricPolicy>,
    b: Seq<MetricPolicy>,
    benchmark: BenchmarkManifest,
)
    requires
        is_policy(a, benchmark),
        is_policy(b, benchmark),
    ensures
        measurement::result_failure(result, a) == measurement::result_failure(result, b),
{
    lemma_primary_failure(result, a, b, benchmark, a.len() as int);
}

proof fn lemma_primary_failure(
    result: TrialResult,
    a: Seq<MetricPolicy>,
    b: Seq<MetricPolicy>,
    benchmark: BenchmarkManifest,
    n: int,
)
    requires
        is_policy(a, benchmark),
        is_policy(b, benchmark),
        n <= a.len(),
    ensures
        measurement::primary_failure(result.metrics@, a, n) == measurement::primary_failure(
            result.metrics@,
            b,
            n,
        ),
    decreases n,
{
    if n > 0 {
        assert(a[n - 1].name@ == b[n - 1].name@);
        lemma_primary_failure(result, a, b, benchmark, n - 1);
    }
}

proof fn lemma_reading(
    lines: Seq<DecodedResult>,
    measurement: MeasurementSchedule,
    finalized: bool,
    a: Seq<MetricPolicy>,
    b: Seq<MetricPolicy>,
    benchmark: BenchmarkManifest,
)
    requires
        is_policy(a, benchmark),
        is_policy(b, benchmark),
    ensures
        measurement::reading(lines, measurement, a, finalized) == measurement::reading(
            lines,
            measurement,
            b,
            finalized,
        ),
    decreases lines.len(),
{
    if lines.len() > 0 {
        lemma_reading(lines.drop_last(), measurement, finalized, a, b, benchmark);
        if lines.last().result is Some {
            lemma_result_failure(lines.last().result->0, a, b, benchmark);
        }
    }
}

impl MeasurementSet {
    /// The results of the set are what was recorded on some lines.
    pub open spec fn holds(self, parts: SetParts, attempts: Seq<TrialResult>) -> bool {
        &&& self.root == parts.root
        &&& self.benchmark == parts.benchmark
        &&& self.variant == parts.variant
        &&& self.schedule == parts.schedule
        &&& self.sampling == parts.sampling
        &&& self.retention == parts.retention
        &&& self.results.attempts@ == attempts
        &&& text::opt(self.results.environment_fingerprint) == measurement::environment_of(attempts)
        &&& measurement::one_environment(attempts)
        &&& measurement::terminated(attempts)
    }

    /// Opens a measurement set from its files. A decision and a retention manifest that it has are
    /// checked against its results afterwards.
    pub fn open(parts: SetParts) -> (r: Result<MeasurementSet, OpenError>)
        requires
            manifest::benchmark_failure(parts.benchmark) is None,
            parts.lines@.len() <= u32::MAX,
            parts.retention is None ==> forall|i: int|
                0 <= i < parts.lines@.len() && (#[trigger] parts.lines@[i]).result is Some
                    ==> parts.lines@[i].files@.len()
                    == parts.lines@[i].result->0.artifacts@.len(),
        ensures
            match parts_failure(parts) {
                Some(error) => r == Err::<MeasurementSet, OpenError>(error),
                None => forall|policy: Seq<MetricPolicy>|
                    is_policy(policy, parts.benchmark) ==> match #[trigger] measurement::reading(
                        parts.lines@,
                        parts.schedule,
                        policy,
                        parts.retention is Some,
                    ) {
                        Err(refusal) => r == Err::<MeasurementSet, OpenError>(
                            OpenError::Result(refusal),
                        ),
                        Ok(attempts) => match r {
                            Ok(set) => set.holds(parts, attempts),
                            Err(error) => error is Result && measurement::refused_together(
                                attempts,
                                error->Result_0,
                            ),
                        },
                    },
            },
    {
        let ghost given = parts;
        if parts.benchmark.validate_variant(&parts.variant).is_err() {
            return Err(OpenError::Subject);
        }
        if let Err(error) = preparation::validate_schedule(
            &parts.benchmark,
            &parts.variant,
            &parts.schedule,
        ) {
            return Err(OpenError::Schedule(error));
        }
        if parts.schedule.sampling == SamplingSchedule::Fixed && parts.sampling.is_some() {
            return Err(OpenError::Sampling(SamplingError::FixedSet));
        }
        let policy = parts.benchmark.analysis_policy();
        let finalized = parts.retention.is_some();
        let SetParts { root, benchmark, variant, schedule, sampling, lines, retention } = parts;
        proof {
            assert(is_policy(policy.primary_metrics@, given.benchmark));
            assert forall|other: Seq<MetricPolicy>|
                is_policy(other, given.benchmark) implies #[trigger] measurement::reading(
                given.lines@,
                given.schedule,
                other,
                finalized,
            ) == measurement::reading(
                given.lines@,
                given.schedule,
                policy.primary_metrics@,
                finalized,
            ) by {
                lemma_reading(
                    given.lines@,
                    given.schedule,
                    finalized,
                    other,
                    policy.primary_metrics@,
                    given.benchmark,
                );
            }
        }
        match measurement::ingest(&schedule, &policy, lines, finalized) {
            Err(refusal) => Err(OpenError::Result(refusal)),
            Ok(results) => Ok(
                MeasurementSet { root, benchmark, variant, schedule, sampling, results, retention },
            ),
        }
    }
}

// Adding results.

/// Why a result cannot be added.
#[derive(Clone, Copy, Debug, Eq, PartialEq, Structural)]
pub enum AppendError {
    /// What is kept of the set is settled.
    Finalized,
    OtherSet,
    /// The trial has a valid result.
    Completed,
    OtherEnvironment,
    UnknownTrial,
    Result(ResultError),
    /// The attempt has another number than the next one.
    Attempt { expected: u32, received: u32 },
}

impl MeasurementSet {
    /// Why a result cannot be added, if it cannot.
    pub open spec fn append_failure(
        self,
        result: TrialResult,
        files: Seq<ArtifactFile>,
        policy: Seq<MetricPolicy>,
    ) -> Option<AppendError> {
        let attempts = self.results.attempts@;
        let trial = schedule::trial_with(self.schedule.trials@, result.trial_id@);
        let expected = measurement::attempt_count(attempts, result.trial_id@) + 1;
        if self.retention is Some {
            Some(AppendError::Finalized)
        } else if result.measurement_set_id@ != self.schedule.measurement_set_id@ {
            Some(AppendError::OtherSet)
        } else if measurement::completed(attempts, result.trial_id@) {
            Some(AppendError::Completed)
        } else if self.results.environment_fingerprint is Some
            && self.results.environment_fingerprint->0@ != result.environment_fingerprint@ {
            Some(AppendError::OtherEnvironment)
        } else if trial is None {
            Some(AppendError::UnknownTrial)
        } else if !measurement::is_result_of(trial->0, result) {
            Some(AppendError::Result(ResultError::OtherTrial))
        } else if measurement::result_failure(result, policy) is Some {
            Some(AppendError::Result(measurement::result_failure(result, policy)->0))
        } else if measurement::result_artifacts_failure(result, files, false) is Some {
            Some(AppendError::Result(measurement::result_artifacts_failure(result, files, false)->0))
        } else if result.attempt != expected {
            Some(AppendError::Attempt { expected: expected as u32, received: result.attempt })
        } else {
            None
        }
    }

    /// Checks that a result may be added to the set's log: it is the next attempt at a scheduled
    /// trial that has no valid result yet, from the environment of all others, and right in itself.
    pub fn append_result(&self, result: &TrialResult, files: &Vec<ArtifactFile>) -> (r: Result<
        (),
        AppendError,
    >)
        requires
            manifest::benchmark_failure(self.benchmark) is None,
            self.results.attempts@.len() < u32::MAX,
            files@.len() == result.artifacts@.len(),
        ensures
            forall|policy: Seq<MetricPolicy>|
                is_policy(policy, self.benchmark) ==> match #[trigger] self.append_failure(
                    *result,
                    files@,
                    policy,
                ) {
                    Some(error) => r == Err::<(), AppendError>(error),
                    None => r == Ok::<(), AppendError>(()),
                },
    {
        let policy = self.benchmark.analysis_policy();
        proof {
            assert(is_policy(policy.primary_metrics@, self.benchmark));
            assert forall|other: Seq<MetricPolicy>|
                is_policy(other, self.benchmark) implies #[trigger] self.append_failure(
                *result,
                files@,
                other,
            ) == self.append_failure(*result, files@, policy.primary_metrics@) by {
                lemma_result_failure(*result, other, policy.primary_metrics@, self.benchmark);
            }
        }
        if self.retention.is_some() {
            return Err(AppendError::Finalized);
        }
        if !text::same(&result.measurement_set_id, self.measurement_set_id()) {
            return Err(AppendError::OtherSet);
        }
        if measurement::find_completed(&self.results.attempts, &result.trial_id).is_some() {
            return Err(AppendError::Completed);
        }
        if let Some(expected) = &self.results.environment_fingerprint {
            if !text::same(expected, &result.environment_fingerprint) {
                return Err(AppendError::OtherEnvironment);
            }
        }
        match schedule::find_trial(&self.schedule.trials, &result.trial_id) {
            None => {
                return Err(AppendError::UnknownTrial);
            },
            Some(trial) => {
                if let Err(error) = measurement::validate_trial_identity(trial, result) {
                    return Err(AppendError::Result(error));
                }
            },
        }
        if let Err(error) = measurement::validate_result(result, &policy) {
            return Err(AppendError::Result(error));
        }
        if let Err(error) = measurement::validate_result_artifacts(result, files, false) {
            return Err(AppendError::Result(error));
        }
        let expected: u32 = self.next_attempt(&result.trial_id);
        if result.attempt != expected {
            return Err(AppendError::Attempt { expected, received: result.attempt });
        }
        Ok(())
    }
}

/// An attempt that may be added leaves a log that can be read again: read as its next line, it
/// becomes the next attempt, and all attempts together are accepted.
pub proof fn an_accepted_result_keeps_the_log_readable(
    set: MeasurementSet,
    line: DecodedResult,
    policy: Seq<MetricPolicy>,
)
    requires
        measurement::terminated(set.results.attempts@),
        measurement::one_environment(set.results.attempts@),
        text::opt(set.results.environment_fingerprint) == measurement::environment_of(
            set.results.attempts@,
        ),
        line.result is Some,
        line.result->0.schema_version == MEASUREMENT_SCHEMA_VERSION,
        set.append_failure(line.result->0, line.files@, policy) is None,
    ensures
        measurement::line_failure(
            set.results.attempts@,
            line,
            set.schedule,
            policy,
            false,
        ) is None,
        measurement::one_environment(set.results.attempts@.push(line.result->0)),
        measurement::terminated(set.results.attempts@.push(line.result->0)),
{
    let attempts = set.results.attempts@;
    let result = line.result->0;
    let longer = attempts.push(result);
    let id = result.trial_id@;
    let count = measurement::attempt_count(attempts, id) as int;
    assert(result.attempt == count + 1);
    assert(longer.drop_last() == attempts);
    assert(!measurement::attempted(attempts, result)) by {
        if measurement::attempted(attempts, result) {
            let i = choose|i: int|
                0 <= i < attempts.len() && (#[trigger] attempts[i]).trial_id@ == id
                    && attempts[i].attempt == result.attempt;
            assert(measurement::attempts_failure(attempts, attempts[i].trial_id@) is None);
            assert(measurement::contiguous(attempts, id));
            assert(attempts[i].attempt <= count);
        }
    }
    assert(measurement::one_environment(longer)) by {
        assert forall|i: int| 0 <= i < longer.len() implies (
        #[trigger] longer[i]).environment_fingerprint@ == longer[0].environment_fingerprint@ by {
            if i < attempts.len() {
                assert(longer[i] == attempts[i]);
                assert(longer[0] == attempts[0]);
            } else if attempts.len() > 0 {
                assert(longer[0] == attempts[0]);
            }
        }
    }
    assert forall|i: int| 0 <= i < longer.len() implies measurement::attempts_failure(
        longer,
        (#[trigger] longer[i]).trial_id@,
    ) is None by {
        let other = longer[i].trial_id@;
        if other == id {
            lemma_next_attempt(attempts, result);
        } else {
            assert(longer[i] == attempts[i]);
            assert(measurement::attempts_failure(attempts, attempts[i].trial_id@) is None);
            lemma_other_trial(attempts, result, other);
        }
    }
}

/// A trial that has a valid result keeps it, whatever is added; and a valid result completes its
/// trial.
pub proof fn a_completed_trial_stays_completed(
    attempts: Seq<TrialResult>,
    result: TrialResult,
    trial_id: Seq<char>,
)
    requires
        measurement::completed(attempts, trial_id) || (result.valid && result.trial_id@
            == trial_id),
    ensures
        measurement::completed(attempts.push(result), trial_id),
{
    let longer = attempts.push(result);
    if measurement::completed(attempts, trial_id) {
        let i = choose|i: int|
            0 <= i < attempts.len() && (#[trigger] attempts[i]).valid && attempts[i].trial_id@
                == trial_id;
        assert(longer[i] == attempts[i]);
    } else {
        assert(longer[attempts.len() as int] == result);
    }
}

/// Another trial's attempts are accepted as before.
proof fn lemma_other_trial(attempts: Seq<TrialResult>, result: TrialResult, other: Seq<char>)
    requires
        result.trial_id@ != other,
        measurement::attempts_failure(attempts, other) is None,
    ensures
        measurement::attempts_failure(attempts.push(result), other) is None,
{
    let longer = attempts.push(result);
    assert(longer.drop_last() == attempts);
    assert(measurement::attempt_count(longer, other) == measurement::attempt_count(
        attempts,
        other,
    ));
    assert forall|number: int| #[trigger]
        measurement::present(longer, other, number) == measurement::present(
            attempts,
            other,
            number,
        ) by {
        if measurement::present(longer, other, number) {
            let i = choose|i: int|
                0 <= i < longer.len() && (#[trigger] longer[i]).trial_id@ == other
                    && longer[i].attempt == number;
            assert(longer[i] == attempts[i]);
        }
        if measurement::present(attempts, other, number) {
            let i = choose|i: int|
                0 <= i < attempts.len() && (#[trigger] attempts[i]).trial_id@ == other
                    && attempts[i].attempt == number;
            assert(longer[i] == attempts[i]);
        }
    }
    assert forall|i: int| 0 <= i < longer.len() implies !(#[trigger] measurement::ends_early(
        longer,
        other,
        i,
    )) by {
        if measurement::ends_early(longer, other, i) {
            assert(longer[i] == attempts[i]);
            assert forall|number: int|
                1 <= number <= attempts[i].attempt implies #[trigger] measurement::present(
                attempts,
                other,
                number,
            ) by {
                assert(measurement::present(longer, other, number));
            }
            assert(measurement::ends_early(attempts, other, i));
        }
    }
    assert forall|number: int|
        1 <= number <= measurement::attempt_count(
            longer,
            other,
        ) implies #[trigger] measurement::present(longer, other, number) by {
        assert(measurement::present(attempts, other, number));
    }
}

/// The next attempt at a trial without a valid result is accepted.
proof fn lemma_next_attempt(attempts: Seq<TrialResult>, result: TrialResult)
    requires
        measurement::terminated(attempts),
        !measurement::completed(attempts, result.trial_id@),
        result.attempt == measurement::attempt_count(attempts, result.trial_id@) + 1,
    ensures
        measurement::attempts_failure(attempts.push(result), result.trial_id@) is None,
{
    let longer = attempts.push(result);
    let id = result.trial_id@;
    let count = measurement::attempt_count(attempts, id) as int;
    assert(longer.drop_last() == attempts);
    assert(measurement::attempt_count(longer, id) == count + 1);
    if count > 0 {
        lemma_attempted(attempts, id);
        let i = choose|i: int| 0 <= i < attempts.len() && (#[trigger] attempts[i]).trial_id@ == id;
        assert(measurement::attempts_failure(attempts, attempts[i].trial_id@) is None);
        assert(measurement::contiguous(attempts, id));
    } else {
        assert forall|i: int| 0 <= i < attempts.len() implies (
        #[trigger] attempts[i]).trial_id@ != id by {
            if attempts[i].trial_id@ == id {
                lemma_counted(attempts, id, i);
            }
        }
    }
    assert forall|number: int| 1 <= number <= count + 1 implies #[trigger] measurement::present(
        longer,
        id,
        number,
    ) by {
        if number <= count {
            assert(measurement::present(attempts, id, number));
            let i = choose|i: int|
                0 <= i < attempts.len() && (#[trigger] attempts[i]).trial_id@ == id
                    && attempts[i].attempt == number;
            assert(longer[i] == attempts[i]);
        } else {
            assert(longer[attempts.len() as int].attempt == number);
        }
    }
    assert forall|i: int|
        0 <= i < longer.len() && (#[trigger] longer[i]).trial_id@ == id implies longer[i].attempt
        <= count + 1 by {
        if i < attempts.len() {
            assert(longer[i] == attempts[i]);
        }
    }
    assert forall|i: int| 0 <= i < longer.len() implies !(#[trigger] measurement::ends_early(
        longer,
        id,
        i,
    )) by {
        if i < attempts.len() {
            assert(longer[i] == attempts[i]);
        }
    }
}

/// A trial that was counted was attempted.
proof fn lemma_attempted(attempts: Seq<TrialResult>, trial_id: Seq<char>)
    requires
        measurement::attempt_count(attempts, trial_id) > 0,
    ensures
        exists|i: int|
            0 <= i < attempts.len() && (#[trigger] attempts[i]).trial_id@ == trial_id,
    decreases attempts.len(),
{
    if attempts.last().trial_id@ == trial_id {
        assert(attempts[attempts.len() - 1].trial_id@ == trial_id);
    } else {
        lemma_attempted(attempts.drop_last(), trial_id);
        let i = choose|i: int|
            0 <= i < attempts.drop_last().len() && (
            #[trigger] attempts.drop_last()[i]).trial_id@ == trial_id;
        assert(attempts[i].trial_id@ == trial_id);
    }
}

/// A trial that was attempted is counted.
proof fn lemma_counted(attempts: Seq<TrialResult>, trial_id: Seq<char>, i: int)
    requires
        0 <= i < attempts.len(),
        attempts[i].trial_id@ == trial_id,
    ensures
        measurement::attempt_count(attempts, trial_id) > 0,
    decreases attempts.len(),
{
    if i < attempts.len() - 1 {
        assert(attempts.drop_last()[i] == attempts[i]);
        lemma_counted(attempts.drop_last(), trial_id, i);
    }
}

/// No trial of a log that was accepted has two valid attempts.
pub proof fn a_trial_has_one_valid_attempt(
    lines: Seq<DecodedResult>,
    measurement: MeasurementSchedule,
    policy: Seq<MetricPolicy>,
    finalized: bool,
    attempts: Seq<TrialResult>,
    i: int,
    j: int,
)
    requires
        measurement::reading(lines, measurement, policy, finalized) == Ok::<
            Seq<TrialResult>,
            Refusal,
        >(attempts),
        measurement::terminated(attempts),
        0 <= i < attempts.len(),
        0 <= j < attempts.len(),
        attempts[i].valid,
        attempts[j].valid,
        attempts[i].trial_id@ == attempts[j].trial_id@,
    ensures
        i == j,
{
    measurement::lemma_read_numbers(lines, measurement, policy, finalized, attempts);
    let id = attempts[i].trial_id@;
    assert(measurement::attempts_failure(attempts, attempts[i].trial_id@) is None);
    assert(measurement::contiguous(attempts, id));
    let count = measurement::attempt_count(attempts, id) as int;
    assert(attempts[i].attempt <= count && attempts[j].attempt <= count);
    if attempts[i].attempt < count {
        assert(measurement::numbered(attempts, id, attempts[i].attempt as int));
        assert(measurement::ends_early(attempts, id, i));
    }
    if attempts[j].attempt < count {
        assert(measurement::numbered(attempts, id, attempts[j].attempt as int));
        assert(measurement::ends_early(attempts, id, j));
    }
}

/// Once the number of trials is settled and nothing is left to run, the final trials are complete.
pub proof fn nothing_pending_means_complete(set: MeasurementSet, continuing: Seq<PilotStratum>)
    requires
        !set.undecided(),
        set.pending(continuing).len() == 0,
    ensures
        set.finished(),
{
    let wanted = |i: int| set.runs(i) && !set.done(i);
    schedule::lemma_chosen(set.schedule.trials@.len() as int, wanted);
    assert forall|i: int|
        0 <= i < set.schedule.trials@.len() && (#[trigger] set.schedule.trials@[i]).phase
            == TrialPhase::Final && set.runs(i) implies set.done(i) by {
        if !set.done(i) {
            assert(wanted(i));
            assert(set.pending(continuing) == schedule::chosen(
                set.schedule.trials@.len() as int,
                wanted,
            ));
            assert(set.pending(continuing).contains(i));
        }
    }
}

/// A trial that is pending never has a valid result.
pub proof fn pending_trials_have_no_result(set: MeasurementSet, continuing: Seq<PilotStratum>, i: int)
    requires
        !set.undecided() || set.trials_where(|i: int| set.warmup_left(i)).len() > 0,
        set.pending(continuing).contains(i),
    ensures
        0 <= i < set.schedule.trials@.len(),
        !set.done(i),
{
    let n = set.schedule.trials@.len() as int;
    if set.undecided() {
        let wanted = |i: int| set.warmup_left(i);
        schedule::lemma_chosen(n, wanted);
        assert(set.pending(continuing) == schedule::chosen(n, wanted));
        assert(wanted(i));
    } else {
        let wanted = |i: int| set.runs(i) && !set.done(i);
        schedule::lemma_chosen(n, wanted);
        assert(set.pending(continuing) == schedule::chosen(n, wanted));
        assert(wanted(i));
    }
}

} // verus!
