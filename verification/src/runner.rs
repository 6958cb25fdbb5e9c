//! The course of a measurement: what is done next, and what is reported of it.

use vstd::prelude::*;
use vstd::string::*;

use crate::artifact_retention::RetentionSummary;
use crate::browser_lab;
use crate::browser_lab::{ArtifactFile, Engine};
use crate::manifest::MetricPolicy;
use crate::measurement;
use crate::measurement::{MeasurementSet, PilotStratum, TrialResult};
use crate::paths;
use crate::schedule;
use crate::schedule::{
    SamplingDecision, SamplingStratum, ScheduledTrial, MEASUREMENT_SCHEMA_VERSION,
};
use crate::text;

verus! {

// The course.

/// What a measurement does next.
#[derive(Clone, Debug)]
pub enum RunStep {
    /// Decide how many trials there are, record it, and open the set again.
    LockSampling,
    /// Start the browsers, and check that the environment is the one of the set.
    Start,
    /// Run the trials at these places, and open the set again.
    Measure(Vec<usize>),
    /// Settle what is kept, and report.
    Finish,
}

/// The decision on the number of trials can be made.
pub open spec fn ready_to_lock(set: MeasurementSet, continuing: Seq<PilotStratum>) -> bool {
    &&& set.undecided()
    &&& set.trials_where(|i: int| set.warmup_left(i)).len() == 0
    &&& continuing.len() == 0
}

/// The step is the next one of an opened set. `locked` says that the set was opened again because a
/// decision was recorded, `started` that the browsers run.
pub open spec fn is_next(
    step: RunStep,
    set: MeasurementSet,
    continuing: Seq<PilotStratum>,
    locked: bool,
    started: bool,
) -> bool {
    if !locked && ready_to_lock(set, continuing) {
        step == RunStep::LockSampling
    } else if started {
        let pending = set.pending(continuing);
        if pending.len() == 0 {
            step == RunStep::Finish
        } else {
            step is Measure && schedule::ints(step->Measure_0@) == pending
        }
    } else if set.exhausted(continuing) {
        step == RunStep::Finish
    } else {
        step == RunStep::Start
    }
}

/// Tells what a measurement does next.
pub fn next_step(
    set: &MeasurementSet,
    continuing: &Vec<PilotStratum>,
    locked: bool,
    started: bool,
) -> (r: RunStep)
    ensures
        is_next(r, *set, continuing@, locked, started),
{
    if !locked && set.needs_sampling_decision() && set.calibration_is_complete(continuing) {
        return RunStep::LockSampling;
    }
    if started {
        let pending = set.pending_trials(continuing);
        assert(schedule::ints(pending@).len() == pending@.len());
        if pending.len() == 0 {
            return RunStep::Finish;
        }
        return RunStep::Measure(pending);
    }
    if set.is_exhausted(continuing) {
        RunStep::Finish
    } else {
        RunStep::Start
    }
}

/// A set whose number of trials is decided is never decided on again.
pub proof fn sampling_is_locked_once(
    set: MeasurementSet,
    continuing: Seq<PilotStratum>,
    locked: bool,
    started: bool,
    step: RunStep,
)
    requires
        set.sampling is Some,
        is_next(step, set, continuing, locked, started),
    ensures
        step != RunStep::LockSampling,
{
}

/// No trial runs before the browsers do, and every trial that runs is one that is left to be run.
pub proof fn nothing_is_measured_before_the_start(
    set: MeasurementSet,
    continuing: Seq<PilotStratum>,
    locked: bool,
    started: bool,
    step: RunStep,
)
    requires
        is_next(step, set, continuing, locked, started),
        step is Measure,
    ensures
        started,
        schedule::ints(step->Measure_0@) == set.pending(continuing),
{
}

/// A set that finishes with its number of trials decided has a valid result for every final trial.
pub proof fn a_finished_measurement_is_complete(
    set: MeasurementSet,
    continuing: Seq<PilotStratum>,
    locked: bool,
    started: bool,
)
    requires
        !set.undecided(),
        is_next(RunStep::Finish, set, continuing, locked, started),
    ensures
        set.finished(),
{
    crate::measurement_log::nothing_pending_means_complete(set, continuing);
}

/// The environment is another one than that of the measurement set.
#[derive(Clone, Copy, Debug, Eq, PartialEq, Structural)]
pub struct EnvironmentChanged;

impl EnvironmentChanged {
    /// Says which environments differ.
    pub fn message(&self, existing: &str, current: &str) -> (r: String)
        ensures
            r@ == "current browser environment does not match this measurement set ("@ + existing@
                + " != "@ + current@ + ")"@,
    {
        let mut out = "current browser environment does not match this measurement set (".to_owned();
        out.append(existing);
        out.append(" != ");
        out.append(current);
        out.append(")");
        out
    }
}

/// Checks that the current environment is the one of the measurement set, where it has one.
pub fn check_environment(set: &MeasurementSet, current: &str) -> (r: Result<(), EnvironmentChanged>)
    ensures
        r == if set.results.environment_fingerprint is Some
            && set.results.environment_fingerprint->0@ != current@ {
            Err::<(), EnvironmentChanged>(EnvironmentChanged)
        } else {
            Ok::<(), EnvironmentChanged>(())
        },
{
    if let Some(existing) = &set.results.environment_fingerprint {
        if !text::same(existing, current) {
            return Err(EnvironmentChanged);
        }
    }
    Ok(())
}

/// The result of an attempt that failed before it measured anything.
pub open spec fn is_invalid_result(
    result: TrialResult,
    set: MeasurementSet,
    trial: ScheduledTrial,
    attempt: u32,
    environment: Seq<char>,
    reason: Seq<char>,
) -> bool {
    &&& result.schema_version == MEASUREMENT_SCHEMA_VERSION
    &&& result.measurement_set_id@ == set.schedule.measurement_set_id@
    &&& result.trial_id@ == trial.trial_id@
    &&& result.attempt == attempt
    &&& measurement::is_result_of(trial, result)
    &&& result.environment_fingerprint@ == environment
    &&& !result.valid
    &&& !result.success
    &&& result.failure_category is None
    &&& result.failure_detail is None
    &&& text::opt(result.invalidation_reason) == Some(reason)
    &&& result.metrics@.len() == 0
    &&& result.artifacts@.len() == 0
}

/// The result of an attempt that failed before it measured anything.
pub fn invalid_result(
    set: &MeasurementSet,
    trial: &ScheduledTrial,
    attempt: u32,
    environment_fingerprint: &str,
    reason: &str,
) -> (r: TrialResult)
    ensures
        is_invalid_result(r, *set, *trial, attempt, environment_fingerprint@, reason@),
{
    TrialResult {
        schema_version: MEASUREMENT_SCHEMA_VERSION,
        measurement_set_id: set.measurement_set_id().to_owned(),
        trial_id: trial.trial_id.clone(),
        attempt,
        workload_id: trial.workload_id.clone(),
        engine: trial.engine,
        phase: trial.phase,
        sample_index: trial.sample_index,
        environment_fingerprint: environment_fingerprint.to_owned(),
        valid: false,
        success: false,
        failure_category: None,
        failure_detail: None,
        invalidation_reason: Some(reason.to_owned()),
        metrics: Vec::new(),
        artifacts: Vec::new(),
    }
}

/// An attempt that failed can be recorded, so that the measurement can be resumed: it needs only a
/// reason, and to be the next attempt at a scheduled trial without a valid result.
pub proof fn a_failed_attempt_can_be_recorded(
    set: MeasurementSet,
    result: TrialResult,
    trial: ScheduledTrial,
    attempt: u32,
    environment: Seq<char>,
    reason: Seq<char>,
    files: Seq<ArtifactFile>,
    policy: Seq<MetricPolicy>,
)
    requires
        set.retention is None,
        schedule::trial_with(set.schedule.trials@, trial.trial_id@) == Some(trial),
        !measurement::completed(set.results.attempts@, trial.trial_id@),
        set.results.environment_fingerprint is Some
            ==> set.results.environment_fingerprint->0@ == environment,
        attempt == measurement::attempt_count(set.results.attempts@, trial.trial_id@) + 1,
        !text::blank(environment),
        !text::blank(reason),
        is_invalid_result(result, set, trial, attempt, environment, reason),
    ensures
        set.append_failure(result, files, policy) is None,
{
    assert(measurement::metrics_failure(result.metrics@, 0) is None);
}

// Reports.

/// Whether an engine's final trials gave the right results.
#[derive(Clone, Copy, Debug, Eq, PartialEq, Structural)]
pub enum Correctness {
    Inconclusive,
    Pass,
    Fail,
}

/// Whether an engine's final trials gave the right results: open while some are missing.
pub open spec fn judged(expected: int, recorded: int, successful: int) -> Correctness {
    if expected == 0 || recorded < expected {
        Correctness::Inconclusive
    } else if successful == expected {
        Correctness::Pass
    } else {
        Correctness::Fail
    }
}

/// The name of a judgement.
pub open spec fn correctness_name(correctness: Correctness) -> Seq<char> {
    match correctness {
        Correctness::Inconclusive => "inconclusive"@,
        Correctness::Pass => "pass"@,
        Correctness::Fail => "fail"@,
    }
}

impl Correctness {
    pub fn as_str(self) -> (r: &'static str)
        ensures
            r@ == correctness_name(self),
    {
        match self {
            Correctness::Inconclusive => "inconclusive",
            Correctness::Pass => "pass",
            Correctness::Fail => "fail",
        }
    }
}

/// What is said of an engine's final trials.
pub open spec fn engine_line(
    engine: Engine,
    expected: nat,
    recorded: nat,
    successful: nat,
    invalid: nat,
) -> Seq<char> {
    "  "@ + browser_lab::engine_name(engine) + ": measured correctness="@ + correctness_name(
        judged(expected as int, recorded as int, successful as int),
    ) + " final="@ + text::decimal(recorded) + "/"@ + text::decimal(expected)
        + " invalid_attempts="@ + text::decimal(invalid)
}

/// What is said of an engine's final trials.
pub fn engine_result(
    engine: Engine,
    expected: usize,
    recorded: usize,
    successful: usize,
    invalid: usize,
) -> (r: String)
    ensures
        r@ == engine_line(
            engine,
            expected as nat,
            recorded as nat,
            successful as nat,
            invalid as nat,
        ),
{
    let correctness = if expected == 0 || recorded < expected {
        Correctness::Inconclusive
    } else if successful == expected {
        Correctness::Pass
    } else {
        Correctness::Fail
    };
    let mut out = "  ".to_owned();
    out.append(engine.as_str());
    out.append(": measured correctness=");
    out.append(correctness.as_str());
    out.append(" final=");
    out.append(&text::decimal_text(recorded as u64));
    out.append("/");
    out.append(&text::decimal_text(expected as u64));
    out.append(" invalid_attempts=");
    out.append(&text::decimal_text(invalid as u64));
    out
}

/// What a measurement came to.
#[derive(Clone, Debug)]
pub struct MeasurementOutcome {
    pub schema_version: u32,
    /// Nothing is left to settle or to run.
    pub complete: bool,
    pub measurement_set_id: String,
    pub measurement_root: String,
    pub benchmark_id: String,
    pub variant_id: String,
    pub completed_trials: usize,
    pub total_trials: usize,
    pub final_complete: bool,
    pub environment_fingerprint: Option<String>,
    pub sampling: Option<SamplingDecision>,
    pub artifact_retention: Option<RetentionSummary>,
}

/// The outcome is that of a set and of what is kept of it.
pub open spec fn is_outcome(
    outcome: MeasurementOutcome,
    set: MeasurementSet,
    continuing: Seq<PilotStratum>,
) -> bool {
    &&& outcome.schema_version == MEASUREMENT_SCHEMA_VERSION
    &&& outcome.complete == set.exhausted(continuing)
    &&& outcome.measurement_set_id@ == set.schedule.measurement_set_id@
    &&& outcome.measurement_root@ == set.root@
    &&& outcome.benchmark_id@ == set.benchmark.benchmark.id@
    &&& outcome.variant_id@ == set.variant.id@
    &&& outcome.completed_trials == set.trials_where(|i: int| set.runs(i) && set.done(i)).len()
    &&& outcome.total_trials == set.trials_where(|i: int| set.runs(i)).len()
    &&& outcome.final_complete == set.finished()
    &&& text::opt(outcome.environment_fingerprint) == text::opt(set.results.environment_fingerprint)
    &&& same_sampling(outcome.sampling, set.sampling)
}

/// Two strata of a decision are the same.
pub open spec fn same_stratum(a: SamplingStratum, b: SamplingStratum) -> bool {
    &&& a.workload_id@ == b.workload_id@
    &&& a.engine == b.engine
    &&& a.pilot_samples == b.pilot_samples
    &&& a.final_samples == b.final_samples
    &&& a.batch_size == b.batch_size
    &&& a.pilot_stop_reason@ == b.pilot_stop_reason@
}

/// Two decisions are the same.
pub open spec fn same_decision(a: SamplingDecision, b: SamplingDecision) -> bool {
    &&& a.strata@.len() == b.strata@.len()
    &&& forall|i: int|
        0 <= i < a.strata@.len() ==> same_stratum(#[trigger] a.strata@[i], b.strata@[i])
    &&& a.selected_final_trials == b.selected_final_trials
    &&& a.required_final_trials == b.required_final_trials
    &&& a.budget_limited == b.budget_limited
}

/// Two decisions are the same, or there is none.
pub open spec fn same_sampling(a: Option<SamplingDecision>, b: Option<SamplingDecision>) -> bool {
    match (a, b) {
        (Some(a), Some(b)) => same_decision(a, b),
        (None, None) => true,
        _ => false,
    }
}

fn copy_decision(decision: &SamplingDecision) -> (r: SamplingDecision)
    ensures
        same_decision(r, *decision),
{
    let mut strata: Vec<SamplingStratum> = Vec::new();
    let mut i: usize = 0;
    while i < decision.strata.len()
        invariant
            i <= decision.strata@.len(),
            strata@.len() == i,
            forall|j: int|
                0 <= j < i ==> same_stratum(#[trigger] strata@[j], decision.strata@[j]),
        decreases decision.strata@.len() - i,
    {
        let stratum = &decision.strata[i];
        strata.push(
            SamplingStratum {
                workload_id: stratum.workload_id.clone(),
                engine: stratum.engine,
                pilot_samples: stratum.pilot_samples,
                final_samples: stratum.final_samples,
                batch_size: stratum.batch_size,
                pilot_stop_reason: stratum.pilot_stop_reason.clone(),
            },
        );
        i += 1;
    }
    SamplingDecision {
        strata,
        selected_final_trials: decision.selected_final_trials,
        required_final_trials: decision.required_final_trials,
        budget_limited: decision.budget_limited,
    }
}

/// What a measurement came to, given what is kept of it.
pub fn finish(
    set: &MeasurementSet,
    continuing: &Vec<PilotStratum>,
    artifact_retention: Option<RetentionSummary>,
) -> (r: MeasurementOutcome)
    ensures
        is_outcome(r, *set, continuing@),
        r.artifact_retention == artifact_retention,
{
    let environment_fingerprint: Option<String> = match &set.results.environment_fingerprint {
        Some(fingerprint) => Some(fingerprint.clone()),
        None => None,
    };
    let sampling: Option<SamplingDecision> = match &set.sampling {
        Some(decision) => Some(copy_decision(decision)),
        None => None,
    };
    MeasurementOutcome {
        schema_version: MEASUREMENT_SCHEMA_VERSION,
        complete: set.is_exhausted(continuing),
        measurement_set_id: set.measurement_set_id().to_owned(),
        measurement_root: set.root.clone(),
        benchmark_id: set.benchmark_id().to_owned(),
        variant_id: set.variant_id().to_owned(),
        completed_trials: set.completed_active_trial_count(),
        total_trials: set.active_trial_count(),
        final_complete: set.final_is_complete(),
        environment_fingerprint,
        sampling,
        artifact_retention,
    }
}

/// How many pilots the first `n` strata have in all.
pub open spec fn pilot_total(strata: Seq<SamplingStratum>, n: int) -> int
    decreases n,
{
    if n <= 0 {
        0
    } else {
        pilot_total(strata, n - 1) + strata[n - 1].pilot_samples
    }
}

/// How many of the first `n` strata stopped because they were stable.
pub open spec fn stable_total(strata: Seq<SamplingStratum>, n: int) -> int
    decreases n,
{
    if n <= 0 {
        0
    } else {
        stable_total(strata, n - 1) + if strata[n - 1].pilot_stop_reason@ == "stable"@ {
            1int
        } else {
            0
        }
    }
}

/// What is reported of how many trials were chosen.
pub open spec fn sampling_lines(decision: SamplingDecision) -> Seq<Seq<char>> {
    let n = decision.strata@.len() as int;
    seq![
        "  adaptive calibration: "@ + text::decimal(pilot_total(decision.strata@, n) as nat)
            + " pilot trials; "@ + text::decimal(stable_total(decision.strata@, n) as nat) + "/"@
            + text::decimal(n as nat) + " strata met the stability rule"@,
        "  adaptive sampling: "@ + text::decimal(decision.selected_final_trials as nat)
            + " final trials"@ + if decision.budget_limited {
            " (budget-limited)"@
        } else {
            ""@
        },
    ]
}

/// What is reported of an outcome.
pub open spec fn detail_lines(outcome: MeasurementOutcome) -> Seq<Seq<char>> {
    let root = outcome.measurement_root@;
    let trials = seq![
        "  "@ + text::decimal(outcome.completed_trials as nat) + "/"@ + text::decimal(
            outcome.total_trials as nat,
        ) + " trials recorded"@,
    ];
    let chosen = match outcome.sampling {
        Some(decision) => sampling_lines(decision),
        None => Seq::empty(),
    };
    let kept = match outcome.artifact_retention {
        Some(kept) => seq![
            "  artifacts: "@ + text::decimal(kept.retained_artifacts as nat)
                + " representative retained, "@ + text::decimal(kept.discarded_artifacts as nat)
                + " discarded"@,
            "  profiles: "@ + paths::joined(root, "artifact-retention.json"@),
        ],
        None => Seq::empty(),
    };
    let decided = if outcome.sampling is Some {
        seq!["  sampling: "@ + paths::joined(root, "sampling.json"@)]
    } else {
        Seq::empty()
    };
    trials + chosen + kept + decided + seq!["  measurement: "@ + paths::joined(
        root,
        "summary.json"@,
    )]
}

proof fn lemma_pilot_total(strata: Seq<SamplingStratum>, n: int, m: int)
    requires
        0 <= n <= m <= strata.len(),
    ensures
        0 <= pilot_total(strata, n) <= pilot_total(strata, m),
    decreases m,
{
    if n < m {
        lemma_pilot_total(strata, n, m - 1);
    } else if n > 0 {
        lemma_pilot_total(strata, n - 1, n - 1);
    }
}

fn describe_sampling(decision: &SamplingDecision) -> (r: Vec<String>)
    requires
        pilot_total(decision.strata@, decision.strata@.len() as int) <= u64::MAX,
    ensures
        text::views(r@) == sampling_lines(*decision),
{
    let mut pilots: u64 = 0;
    let mut stable: u64 = 0;
    let mut i: usize = 0;
    while i < decision.strata.len()
        invariant
            i <= decision.strata@.len(),
            pilot_total(decision.strata@, decision.strata@.len() as int) <= u64::MAX,
            pilots == pilot_total(decision.strata@, i as int),
            stable == stable_total(decision.strata@, i as int),
            stable <= i,
        decreases decision.strata@.len() - i,
    {
        proof {
            lemma_pilot_total(decision.strata@, i + 1, decision.strata@.len() as int);
        }
        pilots = pilots + decision.strata[i].pilot_samples as u64;
        if text::same(&decision.strata[i].pilot_stop_reason, "stable") {
            stable = stable + 1;
        }
        i += 1;
    }
    let mut calibration = "  adaptive calibration: ".to_owned();
    calibration.append(&text::decimal_text(pilots));
    calibration.append(" pilot trials; ");
    calibration.append(&text::decimal_text(stable));
    calibration.append("/");
    calibration.append(&text::decimal_text(decision.strata.len() as u64));
    calibration.append(" strata met the stability rule");
    let mut sampling = "  adaptive sampling: ".to_owned();
    sampling.append(&text::decimal_text(decision.selected_final_trials));
    sampling.append(" final trials");
    if decision.budget_limited {
        sampling.append(" (budget-limited)");
    } else {
        sampling.append("");
    }
    let mut out: Vec<String> = Vec::new();
    out.push(calibration);
    out.push(sampling);
    assert(text::views(out@) == sampling_lines(*decision));
    out
}

fn push_all(out: &mut Vec<String>, lines: Vec<String>)
    ensures
        text::views(final(out)@) == text::views(old(out)@) + text::views(lines@),
{
    let mut i: usize = 0;
    let ghost before = text::views(out@);
    assert(text::views(lines@).take(0) == Seq::<Seq<char>>::empty());
    while i < lines.len()
        invariant
            i <= lines@.len(),
            text::views(out@) == before + text::views(lines@).take(i as int),
        decreases lines@.len() - i,
    {
        let ghost earlier = text::views(out@);
        out.push(lines[i].clone());
        assert(text::views(out@) == earlier.push(lines@[i as int]@));
        assert(text::views(lines@).take(i + 1) == text::views(lines@).take(i as int).push(
            lines@[i as int]@,
        ));
        i += 1;
    }
    assert(text::views(lines@).take(lines@.len() as int) == text::views(lines@));
}

impl MeasurementOutcome {
    /// The word for how far the measurement came.
    pub fn status(&self) -> (r: &'static str)
        ensures
            r@ == if self.complete {
                "complete"@
            } else {
                "open"@
            },
    {
        if self.complete {
            "complete"
        } else {
            "open"
        }
    }

    /// What is reported of the outcome, line by line.
    pub fn report_details(&self) -> (r: Vec<String>)
        requires
            self.sampling is Some ==> pilot_total(
                self.sampling->0.strata@,
                self.sampling->0.strata@.len() as int,
            ) <= u64::MAX,
        ensures
            text::views(r@) == detail_lines(*self),
    {
        let root = self.measurement_root.as_str();
        let mut out: Vec<String> = Vec::new();
        let mut trials = "  ".to_owned();
        trials.append(&text::decimal_text(self.completed_trials as u64));
        trials.append("/");
        trials.append(&text::decimal_text(self.total_trials as u64));
        trials.append(" trials recorded");
        out.push(trials);
        let ghost first = text::views(out@);
        assert(first == seq![trials@]);
        if let Some(decision) = &self.sampling {
            push_all(&mut out, describe_sampling(decision));
        }
        let ghost second = text::views(out@);
        assert(second == first + match self.sampling {
            Some(decision) => sampling_lines(decision),
            None => Seq::empty(),
        });
        if let Some(kept) = &self.artifact_retention {
            let mut artifacts = "  artifacts: ".to_owned();
            artifacts.append(&text::decimal_text(kept.retained_artifacts as u64));
            artifacts.append(" representative retained, ");
            artifacts.append(&text::decimal_text(kept.discarded_artifacts as u64));
            artifacts.append(" discarded");
            let mut profiles = "  profiles: ".to_owned();
            profiles.append(&paths::join(root, "artifact-retention.json"));
            out.push(artifacts);
            out.push(profiles);
            assert(text::views(out@) == second + seq![artifacts@, profiles@]);
        }
        let ghost third = text::views(out@);
        if self.sampling.is_some() {
            let mut decided = "  sampling: ".to_owned();
            decided.append(&paths::join(root, "sampling.json"));
            out.push(decided);
            assert(text::views(out@) == third + seq![decided@]);
        }
        let ghost fourth = text::views(out@);
        let mut summary = "  measurement: ".to_owned();
        summary.append(&paths::join(root, "summary.json"));
        out.push(summary);
        assert(text::views(out@) == fourth + seq![summary@]);
        out
    }
}

/// How many of an engine's final results are successes.
pub open spec fn success_total(set: MeasurementSet, places: Seq<int>, n: int) -> int
    decreases n,
{
    if n <= 0 {
        0
    } else {
        success_total(set, places, n - 1) + if is_success(set, places[n - 1]) {
            1int
        } else {
            0
        }
    }
}

/// The valid result of the trial at a place is a success.
pub open spec fn is_success(set: MeasurementSet, trial: int) -> bool {
    exists|place: int|
        measurement::completed_at(
            set.results.attempts@,
            set.schedule.trials@[trial].trial_id@,
            place,
        ) && #[trigger] set.results.attempts@[place].success
}

/// The final trials of an engine that are to be run and have a result.
pub open spec fn final_places(set: MeasurementSet, engine: Engine) -> Seq<int> {
    set.trials_where(
        |i: int|
            set.schedule.trials@[i].phase == schedule::TrialPhase::Final
                && set.schedule.trials@[i].engine == engine && set.runs(i) && set.done(i),
    )
}

/// The final trials of an engine that are to be run.
pub open spec fn expected_places(set: MeasurementSet, engine: Engine) -> Seq<int> {
    set.trials_where(
        |i: int|
            set.schedule.trials@[i].phase == schedule::TrialPhase::Final
                && set.schedule.trials@[i].engine == engine && set.runs(i),
    )
}

/// The attempts of an engine that were invalid.
pub open spec fn invalid_places(set: MeasurementSet, engine: Engine) -> Seq<int> {
    schedule::chosen(
        set.results.attempts@.len() as int,
        |i: int| set.results.attempts@[i].engine == engine && !set.results.attempts@[i].valid,
    )
}

fn count_successes(set: &MeasurementSet, engine: Engine) -> (r: (usize, usize))
    ensures
        r.0 == final_places(*set, engine).len(),
        r.1 == success_total(
            *set,
            final_places(*set, engine),
            final_places(*set, engine).len() as int,
        ),
{
    let places = set.final_results(engine);
    let ghost all = final_places(*set, engine);
    assert(schedule::ints(places@) == all);
    proof {
        let wanted = |i: int|
            set.schedule.trials@[i].phase == schedule::TrialPhase::Final
                && set.schedule.trials@[i].engine == engine && set.runs(i) && set.done(i);
        schedule::lemma_chosen(set.schedule.trials@.len() as int, wanted);
        assert(all == schedule::chosen(set.schedule.trials@.len() as int, wanted));
        assert forall|k: int| 0 <= k < all.len() implies 0 <= #[trigger] all[k]
            < set.schedule.trials@.len() by {
            assert(all.contains(all[k]));
        }
    }
    let mut count: usize = 0;
    let mut k: usize = 0;
    while k < places.len()
        invariant
            k <= places@.len(),
            count <= k,
            schedule::ints(places@) == all,
            forall|j: int| 0 <= j < all.len() ==> 0 <= #[trigger] all[j] < set.schedule.trials@.len(),
            count == success_total(*set, all, k as int),
        decreases places@.len() - k,
    {
        assert(all[k as int] == places@[k as int]);
        let ghost id = set.schedule.trials@[places@[k as int] as int].trial_id@;
        match set.result_of(places[k]) {
            Some(result) => {
                proof {
                    let place = choose|place: int|
                        measurement::completed_at(set.results.attempts@, id, place)
                            && #[trigger] set.results.attempts@[place] == *result;
                    assert(set.results.attempts@[place] == *result);
                    assert forall|other: int|
                        measurement::completed_at(set.results.attempts@, id, other) implies other
                        == place by {
                        if other < place {
                            assert(set.results.attempts@[other].valid);
                        } else if place < other {
                            assert(set.results.attempts@[place].valid);
                        }
                    }
                    assert(is_success(*set, all[k as int]) == result.success) by {
                        if result.success {
                            assert(set.results.attempts@[place].success);
                        }
                    }
                }
                if result.success {
                    count += 1;
                }
            },
            None => {
                assert(!is_success(*set, all[k as int])) by {
                    if is_success(*set, all[k as int]) {
                        let place = choose|place: int|
                            measurement::completed_at(set.results.attempts@, id, place)
                                && #[trigger] set.results.attempts@[place].success;
                        assert(measurement::completed(set.results.attempts@, id));
                    }
                }
            },
        }
        k += 1;
    }
    (places.len(), count)
}

/// What is said of every engine's final trials.
pub fn report_engine_results(set: &MeasurementSet) -> (r: Vec<String>)
    ensures
        r@.len() == 3,
        forall|k: int|
            0 <= k < 3 ==> (#[trigger] r@[k])@ == engine_line(
                browser_lab::all_engines()[k],
                expected_places(*set, browser_lab::all_engines()[k]).len(),
                final_places(*set, browser_lab::all_engines()[k]).len(),
                success_total(
                    *set,
                    final_places(*set, browser_lab::all_engines()[k]),
                    final_places(*set, browser_lab::all_engines()[k]).len() as int,
                ) as nat,
                invalid_places(*set, browser_lab::all_engines()[k]).len(),
            ),
{
    let engines = Engine::all();
    let mut out: Vec<String> = Vec::new();
    let mut e: usize = 0;
    while e < engines.len()
        invariant
            e <= engines@.len(),
            engines@ == browser_lab::all_engines(),
            out@.len() == e,
            forall|k: int|
                0 <= k < e ==> (#[trigger] out@[k])@ == engine_line(
                    browser_lab::all_engines()[k],
                    expected_places(*set, browser_lab::all_engines()[k]).len(),
                    final_places(*set, browser_lab::all_engines()[k]).len(),
                    success_total(
                        *set,
                        final_places(*set, browser_lab::all_engines()[k]),
                        final_places(*set, browser_lab::all_engines()[k]).len() as int,
                    ) as nat,
                    invalid_places(*set, browser_lab::all_engines()[k]).len(),
                ),
        decreases engines@.len() - e,
    {
        let engine = engines[e];
        let expected = set.expected_final_trials(engine);
        let (recorded, successful) = count_successes(set, engine);
        out.push(engine_result(engine, expected, recorded, successful, set.invalid_attempts(engine)));
        e += 1;
    }
    out
}

} // verus!
