//! What holds of every measurement that is planned, opened, and added to.

use vstd::prelude::*;
use vstd::string::*;

use crate::browser_lab;
use crate::browser_lab::ArtifactFile;
use crate::manifest;
use crate::manifest::{BenchmarkManifest, MetricPolicy, SamplesError, VariantDescriptor};
use crate::measurement;
use crate::measurement::{MeasurementSet, PilotStratum, ResultError, TrialResult};
use crate::measurement_log;
use crate::measurement_log::SetParts;
use crate::preparation;
use crate::preparation::{PlannedSampling, PlannedSet, SamplingRequest};
use crate::schedule;
use crate::schedule::{
    MeasurementSchedule, SamplingDecision, SamplingSchedule, SamplingStratum, ScheduledTrial,
    TrialPhase,
};
use crate::text;

verus! {

// Plans.

/// A measurement can be planned exactly if the variant is one of the benchmark's subject, and its
/// number of final samples is settled, or left to a budget in a way that the benchmark allows, for a
/// cohort that has a name where there is one.
pub proof fn only_a_fitting_measurement_is_planned(
    benchmark: BenchmarkManifest,
    variant: VariantDescriptor,
    request: SamplingRequest,
)
    ensures
        preparation::prepare_failure(benchmark, variant, request) is None <==> {
            &&& variant.subject@ == benchmark.benchmark.subject@
            &&& match request {
                SamplingRequest::Fixed(requested) => manifest::final_samples(
                    benchmark.trials,
                    requested,
                ) is Ok,
                SamplingRequest::Adaptive { cohort, .. } => {
                    &&& manifest::adaptive_range(benchmark.trials) is Ok
                    &&& cohort matches Some(name) ==> exists|i: int|
                        0 <= i < name@.len() && !text::is_white(#[trigger] name@[i])
                },
            }
        },
{
}

/// What is planned is what was asked for: a fixed number of final samples, or a budget with the
/// benchmark's range and the cohort.
pub proof fn a_plan_is_what_was_asked_for(
    planned: PlannedSet,
    benchmark: BenchmarkManifest,
    variant: VariantDescriptor,
    request: SamplingRequest,
)
    requires
        preparation::is_planned(planned, benchmark, variant, request),
    ensures
        match request {
            SamplingRequest::Fixed(requested) => {
                &&& planned.sampling matches PlannedSampling::Fixed { final_samples }
                &&& manifest::final_samples(benchmark.trials, requested) == Ok::<u32, SamplesError>(
                    final_samples,
                )
                &&& planned.measurement_set_id@ == preparation::fixed_set_id(
                    benchmark,
                    variant,
                    final_samples,
                )
            },
            SamplingRequest::Adaptive { budget_ms: asked_ms, cohort: asked } => {
                &&& planned.sampling matches PlannedSampling::Adaptive {
                    budget_ms,
                    min_final_samples,
                    max_final_samples,
                    cohort,
                }
                &&& budget_ms == asked_ms
                &&& text::opt(cohort) == text::opt(asked)
                &&& min_final_samples == benchmark.trials.min_final_samples
                &&& max_final_samples == benchmark.trials.max_final_samples
                &&& planned.measurement_set_id@ == preparation::adaptive_set_id(
                    benchmark,
                    variant,
                    asked_ms,
                    text::opt(asked),
                )
            },
        },
{
}

/// The name of a set begins with the digests of what it measures, as far as it shows them: two sets
/// with one name have the same benchmark and the same variant, up to twelve digits.
pub proof fn a_set_is_named_after_what_it_measures(
    benchmark_a: BenchmarkManifest,
    variant_a: VariantDescriptor,
    rest_a: Seq<char>,
    benchmark_b: BenchmarkManifest,
    variant_b: VariantDescriptor,
    rest_b: Seq<char>,
)
    requires
        benchmark_a.source_sha256@.len() >= 12,
        benchmark_b.source_sha256@.len() >= 12,
        variant_a.source_sha256@.len() >= 12,
        variant_b.source_sha256@.len() >= 12,
        preparation::set_front(benchmark_a, variant_a) + rest_a == preparation::set_front(
            benchmark_b,
            variant_b,
        ) + rest_b,
    ensures
        benchmark_a.source_sha256@.take(12) == benchmark_b.source_sha256@.take(12),
        variant_a.source_sha256@.take(12) == variant_b.source_sha256@.take(12),
{
    let x = preparation::set_front(benchmark_a, variant_a) + rest_a;
    let y = preparation::set_front(benchmark_b, variant_b) + rest_b;
    let front = "measure-v"@ + text::decimal(7) + "-"@;
    let n = front.len() as int;
    reveal_strlit("-");
    let p = benchmark_a.source_sha256@.take(12);
    let q = benchmark_b.source_sha256@.take(12);
    let u = variant_a.source_sha256@.take(12);
    let v = variant_b.source_sha256@.take(12);
    assert(x.subrange(n, n + 12) == p);
    assert(y.subrange(n, n + 12) == q);
    assert(x.subrange(n + 13, n + 25) == u);
    assert(y.subrange(n + 13, n + 25) == v);
}

/// Two fixed numbers of samples of the same inputs make two sets, and so do two budgets.
pub proof fn other_samples_make_another_set(
    benchmark: BenchmarkManifest,
    variant: VariantDescriptor,
    a: u32,
    b: u32,
    budget_a: u64,
    budget_b: u64,
)
    ensures
        preparation::fixed_set_id(benchmark, variant, a) == preparation::fixed_set_id(
            benchmark,
            variant,
            b,
        ) ==> a == b,
        preparation::adaptive_set_id(benchmark, variant, budget_a, None)
            == preparation::adaptive_set_id(benchmark, variant, budget_b, None) ==> budget_a
            == budget_b,
        preparation::fixed_set_id(benchmark, variant, a) != preparation::adaptive_set_id(
            benchmark,
            variant,
            budget_a,
            None,
        ),
{
    let front = preparation::set_front(benchmark, variant);
    let n = front.len() as int;
    reveal_strlit("-n");
    reveal_strlit("-b");
    let x = preparation::fixed_set_id(benchmark, variant, a);
    let y = preparation::fixed_set_id(benchmark, variant, b);
    let u = preparation::adaptive_set_id(benchmark, variant, budget_a, None);
    let v = preparation::adaptive_set_id(benchmark, variant, budget_b, None);
    assert(x.skip(n + 2) == text::decimal(a as nat));
    assert(y.skip(n + 2) == text::decimal(b as nat));
    assert(u.skip(n + 2) == text::decimal(budget_a as nat));
    assert(v.skip(n + 2) == text::decimal(budget_b as nat));
    text::a_written_number_is_read_back(a as nat);
    text::a_written_number_is_read_back(b as nat);
    text::a_written_number_is_read_back(budget_a as nat);
    text::a_written_number_is_read_back(budget_b as nat);
    assert(x[n + 1] == 'n');
    assert(u[n + 1] == 'b');
}

/// A schedule is accepted exactly if it is of the known version, of this benchmark and this variant as
/// they are now, keeps to the benchmark's range and has a budget where the number of samples is open,
/// and no two of its trials have the same identity.
pub proof fn only_the_schedule_of_its_inputs_is_accepted(
    benchmark: BenchmarkManifest,
    variant: VariantDescriptor,
    measurement: MeasurementSchedule,
)
    ensures
        preparation::schedule_failure(benchmark, variant, measurement) is None <==> {
            &&& measurement.schema_version == 7
            &&& measurement.benchmark_id@ == benchmark.benchmark.id@
            &&& measurement.subject_id@ == benchmark.benchmark.subject@
            &&& measurement.benchmark_sha256@ == benchmark.source_sha256@
            &&& measurement.variant_id@ == variant.id@
            &&& measurement.variant_sha256@ == variant.source_sha256@
            &&& measurement.sampling matches SamplingSchedule::Adaptive {
                budget_ms,
                min_final_samples,
            } ==> {
                &&& manifest::adaptive_range(benchmark.trials) is Ok
                &&& budget_ms > 0
                &&& min_final_samples == benchmark.trials.min_final_samples
                &&& measurement.final_samples == benchmark.trials.max_final_samples
            }
            &&& forall|i: int, j: int|
                0 <= i < j < measurement.trials@.len() ==> (
                #[trigger] measurement.trials@[i]).trial_id@ != (
                #[trigger] measurement.trials@[j]).trial_id@
        },
{
}

/// The parts of a set fit together exactly if the variant is one of the benchmark's subject, the
/// schedule is theirs, and there is a decision on the number of samples only where it was open.
pub proof fn only_fitting_parts_make_a_set(parts: SetParts)
    ensures
        measurement_log::parts_failure(parts) is None <==> {
            &&& parts.variant.subject@ == parts.benchmark.benchmark.subject@
            &&& preparation::schedule_failure(
                parts.benchmark,
                parts.variant,
                parts.schedule,
            ) is None
            &&& parts.sampling is Some ==> parts.schedule.sampling is Adaptive
        },
{
}

// Decisions.

/// The trial has a valid result.
pub open spec fn has_result(attempts: Seq<TrialResult>, trial: ScheduledTrial) -> bool {
    exists|k: int|
        0 <= k < attempts.len() && (#[trigger] attempts[k]).valid && attempts[k].trial_id@
            == trial.trial_id@
}

/// What the decision says of the trial is what was run: every warmup, and of the pilots of its case
/// and engine the first ones, as many as the decision counts.
pub open spec fn ran_as_decided(
    attempts: Seq<TrialResult>,
    strata: Seq<SamplingStratum>,
    trial: ScheduledTrial,
) -> bool {
    &&& trial.phase == TrialPhase::Warmup ==> has_result(attempts, trial)
    &&& trial.phase == TrialPhase::Pilot ==> {
        let stratum = schedule::stratum_of(strata, trial.workload_id@, trial.engine);
        stratum is Some && (has_result(attempts, trial) <==> trial.sample_index
            <= stratum->0.pilot_samples)
    }
}

proof fn lemma_prefix(
    trials: Seq<ScheduledTrial>,
    attempts: Seq<TrialResult>,
    strata: Seq<SamplingStratum>,
    n: int,
)
    requires
        0 <= n <= trials.len(),
    ensures
        measurement_log::prefix_failure(trials, attempts, strata, n) is None <==> forall|i: int|
            0 <= i < n ==> ran_as_decided(attempts, strata, #[trigger] trials[i]),
    decreases n,
{
    if n > 0 {
        lemma_prefix(trials, attempts, strata, n - 1);
        let trial = trials[n - 1];
        assert(measurement::completed(attempts, trial.trial_id@) == has_result(attempts, trial));
    }
}

/// The reason at the place is the recorded one.
pub open spec fn reason_agrees(
    strata: Seq<SamplingStratum>,
    reasons: Seq<Option<String>>,
    i: int,
) -> bool {
    reasons[i] matches Some(reason) && reason@ == strata[i].pilot_stop_reason@
}

proof fn lemma_reasons(strata: Seq<SamplingStratum>, reasons: Seq<Option<String>>, n: int)
    requires
        0 <= n <= strata.len(),
    ensures
        measurement_log::reasons_failure(strata, reasons, n) is None <==> forall|i: int|
            0 <= i < n ==> #[trigger] reason_agrees(strata, reasons, i),
    decreases n,
{
    if n > 0 {
        lemma_reasons(strata, reasons, n - 1);
        assert(reason_agrees(strata, reasons, n - 1) <==> text::opt(reasons[n - 1]) == Some(
            strata[n - 1].pilot_stop_reason@,
        ));
    }
}

/// A decision on the number of samples agrees with the results exactly if every warmup ran, the pilots
/// that ran are those that it counts, and the pilots of each case and engine stopped for the reason
/// that it gives.
pub proof fn a_decision_agrees_with_its_pilots(
    trials: Seq<ScheduledTrial>,
    attempts: Seq<TrialResult>,
    strata: Seq<SamplingStratum>,
    reasons: Seq<Option<String>>,
)
    ensures
        measurement_log::sampling_failure(trials, attempts, strata, reasons) is None <==> {
            &&& forall|i: int|
                0 <= i < trials.len() ==> ran_as_decided(attempts, strata, #[trigger] trials[i])
            &&& forall|i: int|
                0 <= i < strata.len() ==> #[trigger] reason_agrees(strata, reasons, i)
        },
{
    lemma_prefix(trials, attempts, strata, trials.len() as int);
    lemma_reasons(strata, reasons, strata.len() as int);
}

/// A decision is recorded exactly if none was and the number of samples is open, nothing is left to
/// calibrate, and it agrees with the results.
pub proof fn a_decision_is_recorded_once_calibration_ends(
    set: MeasurementSet,
    decision: SamplingDecision,
    continuing: Seq<PilotStratum>,
    reasons: Seq<Option<String>>,
)
    ensures
        set.decision_failure(decision, continuing, reasons) is None <==> {
            &&& set.schedule.sampling is Adaptive
            &&& set.sampling is None
            &&& continuing.len() == 0
            &&& measurement_log::sampling_failure(
                set.schedule.trials@,
                set.results.attempts@,
                decision.strata@,
                reasons,
            ) is None
        },
{
    let n = set.schedule.trials@.len() as int;
    let warmup = |i: int| set.warmup_left(i);
    let left = set.trials_where(warmup);
    assert(left == set.trials_where(|i: int| set.warmup_left(i)));
    schedule::lemma_chosen(n, warmup);
    a_decision_agrees_with_its_pilots(
        set.schedule.trials@,
        set.results.attempts@,
        decision.strata@,
        reasons,
    );
    if left.len() > 0 {
        assert(left.contains(left[0]));
        assert(warmup(left[0]));
        let trial = set.schedule.trials@[left[0]];
        assert(!has_result(set.results.attempts@, trial));
        assert(!ran_as_decided(set.results.attempts@, decision.strata@, trial));
    }
}

// Results.

/// A result is added exactly if what is kept is not settled, it belongs to the set, its trial has no
/// valid result yet, it comes from the environment of the others, it is the result of its trial and
/// consistent, its artifacts are complete where it is valid and none where it is not, and it is the
/// next attempt.
pub proof fn only_the_next_attempt_at_an_open_trial_is_added(
    set: MeasurementSet,
    result: TrialResult,
    files: Seq<ArtifactFile>,
    policy: Seq<MetricPolicy>,
)
    ensures
        set.append_failure(result, files, policy) is None <==> {
            let attempts = set.results.attempts@;
            let trial = schedule::trial_with(set.schedule.trials@, result.trial_id@);
            &&& set.retention is None
            &&& result.measurement_set_id@ == set.schedule.measurement_set_id@
            &&& forall|k: int|
                0 <= k < attempts.len() && (#[trigger] attempts[k]).valid ==> attempts[k].trial_id@
                    != result.trial_id@
            &&& set.results.environment_fingerprint matches Some(environment)
                ==> result.environment_fingerprint@ == environment@
            &&& trial is Some
            &&& result.workload_id@ == trial->0.workload_id@
            &&& result.engine == trial->0.engine
            &&& result.phase == trial->0.phase
            &&& result.sample_index == trial->0.sample_index
            &&& measurement::result_failure(result, policy) is None
            &&& result.valid ==> browser_lab::artifacts_failure(result.artifacts@, files) is None
            &&& !result.valid ==> result.artifacts@.len() == 0
            &&& result.attempt == measurement::attempt_count(attempts, result.trial_id@) + 1
        },
{
}

/// Attempts at a trial that are accepted are numbered from one without a gap, and none follows a valid
/// one.
pub proof fn attempts_are_in_order(attempts: Seq<TrialResult>, trial_id: Seq<char>, n: int)
    requires
        measurement::attempts_failure(attempts, trial_id) is None,
    ensures
        forall|i: int|
            0 <= i < attempts.len() && (#[trigger] attempts[i]).trial_id@ == trial_id ==> {
                &&& attempts[i].attempt <= measurement::attempt_count(attempts, trial_id)
                &&& attempts[i].valid && attempts[i].attempt >= 1 ==> attempts[i].attempt
                    == measurement::attempt_count(attempts, trial_id)
            },
        1 <= n <= measurement::attempt_count(attempts, trial_id) ==> exists|i: int|
            0 <= i < attempts.len() && (#[trigger] attempts[i]).trial_id@ == trial_id
                && attempts[i].attempt == n,
{
    let count = measurement::attempt_count(attempts, trial_id) as int;
    assert(measurement::contiguous(attempts, trial_id));
    assert forall|i: int| 0 <= i < attempts.len() && (#[trigger] attempts[i]).trial_id@
        == trial_id implies {
        &&& attempts[i].attempt <= count
        &&& attempts[i].valid && attempts[i].attempt >= 1 ==> attempts[i].attempt == count
    } by {
        if attempts[i].valid && attempts[i].attempt >= 1 && attempts[i].attempt < count {
            assert(measurement::numbered(attempts, trial_id, attempts[i].attempt as int));
            assert(measurement::ends_early(attempts, trial_id, i));
        }
    }
    if 1 <= n <= count {
        assert(measurement::present(attempts, trial_id, n));
    }
}

/// Attempts at a trial that are numbered from one without a gap, with none after a valid one, are
/// accepted.
pub proof fn orderly_attempts_are_accepted(attempts: Seq<TrialResult>, trial_id: Seq<char>)
    requires
        forall|n: int|
            1 <= n <= measurement::attempt_count(attempts, trial_id) ==> #[trigger]
                measurement::present(attempts, trial_id, n),
        forall|i: int|
            0 <= i < attempts.len() && (#[trigger] attempts[i]).trial_id@ == trial_id
                ==> attempts[i].attempt <= measurement::attempt_count(attempts, trial_id) && (
            attempts[i].valid ==> attempts[i].attempt == measurement::attempt_count(
                attempts,
                trial_id,
            )),
    ensures
        measurement::attempts_failure(attempts, trial_id) is None,
{
    assert(measurement::contiguous(attempts, trial_id));
    if measurement::goes_on(attempts, trial_id) {
        let i = choose|i: int|
            0 <= i < attempts.len() && #[trigger] measurement::ends_early(attempts, trial_id, i);
        assert(attempts[i].trial_id@ == trial_id);
    }
}

/// An attempt is present if a result of the trial has its number.
pub proof fn an_attempt_is_present_by_its_number(
    attempts: Seq<TrialResult>,
    trial_id: Seq<char>,
    n: int,
)
    ensures
        measurement::present(attempts, trial_id, n) <==> exists|i: int|
            0 <= i < attempts.len() && (#[trigger] attempts[i]).trial_id@ == trial_id
                && attempts[i].attempt == n,
{
}

/// Where numbers are left out, the first that is left out is told, with the next that is there.
pub proof fn a_gap_is_told_by_its_numbers(
    attempts: Seq<TrialResult>,
    trial_id: Seq<char>,
    gap: int,
    next: int,
)
    requires
        1 <= gap < next,
        forall|n: int| 1 <= n < gap ==> #[trigger] measurement::present(attempts, trial_id, n),
        forall|n: int| gap <= n < next ==> !#[trigger] measurement::present(attempts, trial_id, n),
        measurement::present(attempts, trial_id, next),
        gap <= measurement::attempt_count(attempts, trial_id),
        forall|i: int|
            0 <= i < attempts.len() && (#[trigger] attempts[i]).trial_id@ == trial_id
                && attempts[i].valid ==> attempts[i].attempt >= gap,
    ensures
        measurement::attempts_failure(attempts, trial_id) == Some(
            ResultError::AttemptsNotContiguous { expected: gap as u32, found: next as u32 },
        ),
{
    assert(!measurement::present(attempts, trial_id, gap));
    assert(measurement::first_missing(attempts, trial_id, gap));
    assert(measurement::next_present(attempts, trial_id, gap, next));
    let expected = choose|n: int| measurement::first_missing(attempts, trial_id, n);
    assert(measurement::first_missing(attempts, trial_id, expected));
    if expected < gap {
        assert(measurement::present(attempts, trial_id, expected));
    }
    if gap < expected {
        assert(measurement::present(attempts, trial_id, gap));
    }
    let found = choose|n: int| measurement::next_present(attempts, trial_id, expected, n);
    assert(measurement::next_present(attempts, trial_id, expected, found));
    if found < next {
        assert(measurement::present(attempts, trial_id, found));
    }
    if next < found {
        assert(measurement::present(attempts, trial_id, next));
    }
    if measurement::goes_on(attempts, trial_id) {
        let i = choose|i: int|
            0 <= i < attempts.len() && #[trigger] measurement::ends_early(attempts, trial_id, i);
        assert(attempts[i].attempt >= gap);
        assert(measurement::present(attempts, trial_id, gap));
    }
    assert(!measurement::contiguous(attempts, trial_id));
}

} // verus!
