//! What holds of every measurement.

use vstd::prelude::*;
use vstd::string::*;

use crate::browser_lab;
use crate::browser_lab::{Engine, MetricValue};
use crate::manifest::MetricPolicy;
use crate::measurement;
use crate::measurement::{DecodedResult, MeasurementSet, PilotStratum, TrialResult};
use crate::number;
use crate::runner;
use crate::runner::{Correctness, RunStep};
use crate::schedule;
use crate::schedule::{
    MeasurementSchedule, SamplingStratum, ScheduledTrial, TrialPhase,
};
use crate::text;

verus! {

// Lists.

/// The places that are chosen are exactly the wanted ones, each once and in order.
pub proof fn chosen_places_are_the_wanted_ones(n: int, wanted: spec_fn(int) -> bool)
    ensures
        forall|i: int| #[trigger]
            schedule::chosen(n, wanted).contains(i) <==> (0 <= i < n && wanted(i)),
        forall|a: int, b: int|
            0 <= a < b < schedule::chosen(n, wanted).len() ==> #[trigger] schedule::chosen(
                n,
                wanted,
            )[a] < #[trigger] schedule::chosen(n, wanted)[b],
    decreases n,
{
    schedule::lemma_chosen(n, wanted);
    if n > 0 {
        chosen_places_are_the_wanted_ones(n - 1, wanted);
        let before = schedule::chosen(n - 1, wanted);
        assert forall|a: int| 0 <= a < before.len() implies #[trigger] before[a] < n - 1 by {
            assert(before.contains(before[a]));
        }
    }
}

/// What is chosen by more conditions is no more.
pub proof fn fewer_are_chosen_by_more_conditions(
    n: int,
    strict: spec_fn(int) -> bool,
    wide: spec_fn(int) -> bool,
)
    requires
        forall|i: int| 0 <= i < n && #[trigger] strict(i) ==> wide(i),
    ensures
        schedule::chosen(n, strict).len() <= schedule::chosen(n, wide).len(),
    decreases n,
{
    if n > 0 {
        fewer_are_chosen_by_more_conditions(n - 1, strict, wide);
        if strict(n - 1) {
            assert(wide(n - 1));
        }
    }
}

/// The trial that is found by an identity is the first that has it.
pub proof fn a_trial_is_found_by_its_identity(trials: Seq<ScheduledTrial>, id: Seq<char>)
    ensures
        match schedule::trial_with(trials, id) {
            Some(trial) => exists|i: int|
                0 <= i < trials.len() && #[trigger] trials[i] == trial && trial.trial_id@ == id
                    && forall|j: int| 0 <= j < i ==> (#[trigger] trials[j]).trial_id@ != id,
            None => forall|i: int|
                0 <= i < trials.len() ==> (#[trigger] trials[i]).trial_id@ != id,
        },
    decreases trials.len(),
{
    if trials.len() > 0 && trials[0].trial_id@ != id {
        let rest = trials.drop_first();
        a_trial_is_found_by_its_identity(rest, id);
        match schedule::trial_with(trials, id) {
            Some(trial) => {
                let i = choose|i: int|
                    0 <= i < rest.len() && #[trigger] rest[i] == trial && trial.trial_id@ == id
                        && forall|j: int| 0 <= j < i ==> (#[trigger] rest[j]).trial_id@ != id;
                assert(trials[i + 1] == trial);
                assert forall|j: int| 0 <= j < i + 1 implies (#[trigger] trials[j]).trial_id@
                    != id by {
                    if j > 0 {
                        assert(rest[j - 1] == trials[j]);
                    }
                }
            },
            None => {
                assert forall|i: int| 0 <= i < trials.len() implies (#[trigger] trials[i]).trial_id@
                    != id by {
                    if i > 0 {
                        assert(rest[i - 1] == trials[i]);
                    }
                }
            },
        }
    }
}

/// The stratum of a case and an engine is the first of the decision that is about both.
pub proof fn a_stratum_is_found_by_case_and_engine(
    strata: Seq<SamplingStratum>,
    workload: Seq<char>,
    engine: Engine,
)
    ensures
        match schedule::stratum_of(strata, workload, engine) {
            Some(stratum) => exists|i: int|
                0 <= i < strata.len() && #[trigger] strata[i] == stratum && stratum.workload_id@
                    == workload && stratum.engine == engine && forall|j: int|
                    0 <= j < i ==> (#[trigger] strata[j]).workload_id@ != workload
                        || strata[j].engine != engine,
            None => forall|i: int|
                0 <= i < strata.len() ==> (#[trigger] strata[i]).workload_id@ != workload
                    || strata[i].engine != engine,
        },
    decreases strata.len(),
{
    if strata.len() > 0 && !(strata[0].workload_id@ == workload && strata[0].engine == engine) {
        let rest = strata.drop_first();
        a_stratum_is_found_by_case_and_engine(rest, workload, engine);
        match schedule::stratum_of(strata, workload, engine) {
            Some(stratum) => {
                let i = choose|i: int|
                    0 <= i < rest.len() && #[trigger] rest[i] == stratum && stratum.workload_id@
                        == workload && stratum.engine == engine && forall|j: int|
                        0 <= j < i ==> (#[trigger] rest[j]).workload_id@ != workload
                            || rest[j].engine != engine;
                assert(strata[i + 1] == stratum);
                assert forall|j: int| 0 <= j < i + 1 implies (#[trigger] strata[j]).workload_id@
                    != workload || strata[j].engine != engine by {
                    if j > 0 {
                        assert(rest[j - 1] == strata[j]);
                    }
                }
            },
            None => {
                assert forall|i: int| 0 <= i < strata.len() implies (
                #[trigger] strata[i]).workload_id@ != workload || strata[i].engine != engine by {
                    if i > 0 {
                        assert(rest[i - 1] == strata[i]);
                    }
                }
            },
        }
    }
}

// Which trials run.

/// A trial runs exactly if the schedule is fixed, or it is a warmup, or its case and engine are still
/// being calibrated and it is a pilot, or the decision for its case and engine includes its number.
pub proof fn a_trial_runs_as_decided(set: MeasurementSet, i: int)
    requires
        0 <= i < set.schedule.trials@.len(),
    ensures
        ({
            let trial = set.schedule.trials@[i];
            let stratum = schedule::stratum_of(
                set.sampling->0.strata@,
                trial.workload_id@,
                trial.engine,
            );
            &&& set.schedule.sampling is Fixed ==> set.runs(i)
            &&& trial.phase == TrialPhase::Warmup ==> set.runs(i)
            &&& set.schedule.sampling is Adaptive && set.sampling is None ==> (set.runs(i)
                <==> trial.phase != TrialPhase::Final)
            &&& set.schedule.sampling is Adaptive && set.sampling is Some && trial.phase
                == TrialPhase::Pilot ==> (set.runs(i) <==> stratum is Some && trial.sample_index
                <= stratum->0.pilot_samples)
            &&& set.schedule.sampling is Adaptive && set.sampling is Some && trial.phase
                == TrialPhase::Final ==> (set.runs(i) <==> stratum is Some && trial.sample_index
                <= stratum->0.final_samples)
        }),
{
}

/// A valid result of the trial was recorded.
pub open spec fn has_valid_result(set: MeasurementSet, i: int) -> bool {
    exists|k: int|
        0 <= k < set.results.attempts@.len() && (#[trigger] set.results.attempts@[k]).valid
            && set.results.attempts@[k].trial_id@ == set.schedule.trials@[i].trial_id@
}

/// Once the number of trials is settled, what is left to run is exactly every trial that runs and has
/// no valid result: an interrupted measurement goes on where it stopped, and repeats nothing.
pub proof fn what_is_left_is_what_has_no_valid_result(
    set: MeasurementSet,
    continuing: Seq<PilotStratum>,
)
    requires
        set.schedule.sampling is Fixed || set.sampling is Some,
    ensures
        forall|i: int| #[trigger]
            set.pending(continuing).contains(i) <==> (0 <= i < set.schedule.trials@.len()
                && set.runs(i) && !has_valid_result(set, i)),
        set.exhausted(continuing) <==> forall|i: int|
            0 <= i < set.schedule.trials@.len() && #[trigger] set.runs(i) ==> has_valid_result(
                set,
                i,
            ),
{
    let n = set.schedule.trials@.len() as int;
    let wanted = |i: int| set.runs(i) && !set.done(i);
    assert(set.pending(continuing) == schedule::chosen(n, wanted));
    schedule::lemma_chosen(n, wanted);
    let left = set.pending(continuing);
    assert forall|i: int| set.done(i) == #[trigger] has_valid_result(set, i) by {}
    assert forall|i: int| #[trigger] left.contains(i) <==> (0 <= i < n && set.runs(i)
        && !has_valid_result(set, i)) by {
        assert(set.done(i) == has_valid_result(set, i));
    }
    if left.len() == 0 {
        assert forall|i: int| 0 <= i < n && #[trigger] set.runs(i) implies has_valid_result(set, i) by {
            if !has_valid_result(set, i) {
                assert(left.contains(i));
            }
        }
    } else {
        assert(left.contains(left[0]));
        assert(set.runs(left[0]));
    }
}

/// While the number of trials is open, the warmups without a valid result come first, and then, for
/// each case and engine that is still being calibrated, the pilot that follows those with one.
pub proof fn calibration_runs_warmups_and_then_the_next_pilots(
    set: MeasurementSet,
    continuing: Seq<PilotStratum>,
    i: int,
)
    requires
        set.schedule.sampling is Adaptive,
        set.sampling is None,
    ensures
        ({
            let trials = set.schedule.trials@;
            let warmups_left = exists|k: int|
                0 <= k < trials.len() && (#[trigger] trials[k]).phase == TrialPhase::Warmup
                    && !has_valid_result(set, k);
            set.pending(continuing).contains(i) <==> {
                &&& 0 <= i < trials.len()
                &&& if warmups_left {
                    trials[i].phase == TrialPhase::Warmup && !has_valid_result(set, i)
                } else {
                    &&& trials[i].phase == TrialPhase::Pilot
                    &&& exists|s: int|
                        0 <= s < continuing.len() && (#[trigger] continuing[s]).workload_id@
                            == trials[i].workload_id@ && continuing[s].engine == trials[i].engine
                    &&& trials[i].sample_index == measurement::pilots_done(
                        trials,
                        set.results.attempts@,
                        trials[i].workload_id@,
                        trials[i].engine,
                    ).len() + 1
                }
            }
        }),
{
    let trials = set.schedule.trials@;
    let n = trials.len() as int;
    let warmup = |k: int| set.warmup_left(k);
    let pilot = |k: int| set.next_pilot(continuing, k);
    let warmups = schedule::chosen(n, warmup);
    assert(set.trials_where(warmup) == warmups);
    schedule::lemma_chosen(n, warmup);
    schedule::lemma_chosen(n, pilot);
    assert forall|k: int| set.done(k) == #[trigger] has_valid_result(set, k) by {}
    if warmups.len() > 0 {
        assert(warmups.contains(warmups[0]));
        assert(trials[warmups[0]].phase == TrialPhase::Warmup);
        assert(!has_valid_result(set, warmups[0]));
        assert(set.pending(continuing) == warmups);
        assert(warmups.contains(i) <==> (0 <= i < n && warmup(i)));
        assert(set.done(i) == has_valid_result(set, i));
    } else {
        assert forall|k: int| 0 <= k < n && (#[trigger] trials[k]).phase
            == TrialPhase::Warmup implies has_valid_result(set, k) by {
            if !has_valid_result(set, k) {
                assert(set.done(k) == has_valid_result(set, k));
                assert(warmup(k));
                assert(warmups.contains(k));
            }
        }
        assert(set.pending(continuing) == schedule::chosen(n, pilot));
        assert(schedule::chosen(n, pilot).contains(i) <==> (0 <= i < n && pilot(i)));
    }
}

/// The pilots that count for a case and an engine are its own with a valid result.
pub proof fn pilots_count_for_their_case_and_engine(
    trials: Seq<ScheduledTrial>,
    attempts: Seq<TrialResult>,
    workload: Seq<char>,
    engine: Engine,
    i: int,
)
    ensures
        measurement::pilots_done(trials, attempts, workload, engine).contains(i) <==> {
            &&& 0 <= i < trials.len()
            &&& trials[i].phase == TrialPhase::Pilot
            &&& trials[i].workload_id@ == workload
            &&& trials[i].engine == engine
            &&& exists|k: int|
                0 <= k < attempts.len() && (#[trigger] attempts[k]).valid && attempts[k].trial_id@
                    == trials[i].trial_id@
        },
{
    let wanted = |k: int|
        measurement::is_pilot_of(trials[k], workload, engine) && measurement::completed(
            attempts,
            trials[k].trial_id@,
        );
    schedule::lemma_chosen(trials.len() as int, wanted);
    assert(measurement::pilots_done(trials, attempts, workload, engine) == schedule::chosen(
        trials.len() as int,
        wanted,
    ));
    assert(schedule::chosen(trials.len() as int, wanted).contains(i) <==> (0 <= i < trials.len()
        && wanted(i)));
}

/// The number of attempts at a trial is that of the recorded results with its identity.
pub proof fn attempts_are_counted_by_trial(attempts: Seq<TrialResult>, id: Seq<char>)
    ensures
        measurement::attempt_count(attempts, id) == attempts.filter(
            |result: TrialResult| result.trial_id@ == id,
        ).len(),
    decreases attempts.len(),
{
    reveal(Seq::filter);
    if attempts.len() > 0 {
        attempts_are_counted_by_trial(attempts.drop_last(), id);
    }
}

// What a measurement does next.

/// Trials run only in started browsers, and only those that are left; a measurement ends only when
/// nothing is left; browsers are started only when something is; and the number of trials is settled
/// only once every warmup ran and no case and engine is still being calibrated.
pub proof fn a_measurement_takes_the_step_that_is_due(
    step: RunStep,
    set: MeasurementSet,
    continuing: Seq<PilotStratum>,
    locked: bool,
    started: bool,
)
    requires
        runner::is_next(step, set, continuing, locked, started),
    ensures
        step == RunStep::LockSampling <==> {
            &&& !locked
            &&& set.schedule.sampling is Adaptive
            &&& set.sampling is None
            &&& continuing.len() == 0
            &&& forall|i: int|
                0 <= i < set.schedule.trials@.len() && (
                #[trigger] set.schedule.trials@[i]).phase == TrialPhase::Warmup
                    ==> has_valid_result(set, i)
        },
        step == RunStep::Start ==> !started,
        step is Measure ==> started && step->Measure_0@.len() > 0 && forall|k: int|
            0 <= k < step->Measure_0@.len() ==> set.pending(continuing).contains(
                (#[trigger] step->Measure_0@[k]) as int,
            ),
        step == RunStep::Finish && started ==> set.pending(continuing).len() == 0,
        step == RunStep::Finish && !started ==> set.exhausted(continuing),
        started && set.pending(continuing).len() > 0 && step != RunStep::LockSampling
            ==> step is Measure && step->Measure_0@.len() == set.pending(continuing).len(),
{
    let n = set.schedule.trials@.len() as int;
    let warmup = |k: int| set.warmup_left(k);
    let warmups = schedule::chosen(n, warmup);
    assert(set.trials_where(|i: int| set.warmup_left(i)) == warmups);
    schedule::lemma_chosen(n, warmup);
    assert forall|k: int| set.done(k) == #[trigger] has_valid_result(set, k) by {}
    if warmups.len() > 0 {
        assert(warmups.contains(warmups[0]));
        assert(set.schedule.trials@[warmups[0]].phase == TrialPhase::Warmup);
        assert(!has_valid_result(set, warmups[0]));
    } else {
        assert forall|k: int| 0 <= k < n && (#[trigger] set.schedule.trials@[k]).phase
            == TrialPhase::Warmup implies has_valid_result(set, k) by {
            if !has_valid_result(set, k) {
                assert(set.done(k) == has_valid_result(set, k));
                assert(warmup(k));
                assert(warmups.contains(k));
            }
        }
    }
    if step is Measure {
        let places = step->Measure_0@;
        assert(schedule::ints(places).len() == places.len());
        assert forall|k: int| 0 <= k < places.len() implies set.pending(continuing).contains(
            (#[trigger] places[k]) as int,
        ) by {
            assert(schedule::ints(places)[k] == places[k]);
        }
    }
}

// Reports.

/// The trial at the place is a final one of the engine that is to run.
pub open spec fn is_final_of(set: MeasurementSet, engine: Engine, i: int) -> bool {
    &&& 0 <= i < set.schedule.trials@.len()
    &&& set.schedule.trials@[i].phase == TrialPhase::Final
    &&& set.schedule.trials@[i].engine == engine
    &&& set.runs(i)
}

/// A pass is claimed exactly where final trials are expected, as many as expected were recorded, and
/// all of them were successes. One that was recorded and is no success makes it a failure.
pub proof fn a_pass_needs_every_expected_success(expected: int, recorded: int, successful: int)
    requires
        expected >= 0,
    ensures
        runner::judged(expected, recorded, successful) == Correctness::Pass <==> (expected > 0
            && recorded >= expected && successful == expected),
        runner::judged(expected, recorded, successful) == Correctness::Fail <==> (expected > 0
            && recorded >= expected && successful != expected),
        runner::judged(expected, recorded, successful) == Correctness::Inconclusive <==> (expected
            == 0 || recorded < expected),
{
}

/// What is said of an engine names the engine, says `pass` exactly where every expected final trial is
/// a recorded success, and gives the counts.
pub proof fn an_engine_is_said_to_pass_only_if_it_does(
    engine: Engine,
    expected: nat,
    recorded: nat,
    successful: nat,
    invalid: nat,
)
    ensures
        ({
            let line = runner::engine_line(engine, expected, recorded, successful, invalid);
            let said = |verdict: Seq<char>|
                "  "@ + (match engine {
                    Engine::Chromium => "chromium"@,
                    Engine::Firefox => "firefox"@,
                    Engine::Webkit => "webkit"@,
                }) + ": measured correctness="@ + verdict + " final="@ + text::decimal(recorded)
                    + "/"@ + text::decimal(expected) + " invalid_attempts="@ + text::decimal(
                    invalid,
                );
            &&& expected > 0 && recorded >= expected && successful == expected ==> line == said(
                "pass"@,
            )
            &&& expected > 0 && recorded >= expected && successful != expected ==> line == said(
                "fail"@,
            )
            &&& expected == 0 || recorded < expected ==> line == said("inconclusive"@)
        }),
{
}

proof fn lemma_success_total(set: MeasurementSet, places: Seq<int>, n: int)
    requires
        0 <= n <= places.len(),
    ensures
        0 <= runner::success_total(set, places, n) <= n,
        runner::success_total(set, places, n) == n <==> forall|k: int|
            0 <= k < n ==> runner::is_success(set, #[trigger] places[k]),
    decreases n,
{
    if n > 0 {
        lemma_success_total(set, places, n - 1);
        if runner::success_total(set, places, n) == n {
            assert(runner::is_success(set, places[n - 1]));
        }
    }
}

proof fn lemma_increasing_subset(a: Seq<int>, b: Seq<int>)
    requires
        forall|i: int, j: int| 0 <= i < j < a.len() ==> #[trigger] a[i] < #[trigger] a[j],
        forall|i: int, j: int| 0 <= i < j < b.len() ==> #[trigger] b[i] < #[trigger] b[j],
        forall|x: int| #[trigger] a.contains(x) ==> b.contains(x),
    ensures
        a.len() <= b.len(),
        a.len() == b.len() ==> forall|x: int| #[trigger] b.contains(x) ==> a.contains(x),
{
    assert(a.no_duplicates());
    assert(b.no_duplicates());
    a.unique_seq_to_set();
    b.unique_seq_to_set();
    vstd::seq_lib::seq_to_set_is_finite(a);
    vstd::seq_lib::seq_to_set_is_finite(b);
    assert(a.to_set().subset_of(b.to_set())) by {
        assert forall|x: int| #[trigger] a.to_set().contains(x) implies b.to_set().contains(x) by {
            assert(a.contains(x));
            assert(b.contains(x));
        }
    }
    vstd::set_lib::lemma_len_subset(a.to_set(), b.to_set());
    if a.len() == b.len() {
        vstd::set_lib::lemma_subset_equality(a.to_set(), b.to_set());
        assert forall|x: int| #[trigger] b.contains(x) implies a.contains(x) by {
            assert(b.to_set().contains(x));
            assert(a.to_set().contains(x));
        }
    }
}

/// A report says that an engine passed exactly if the engine has final trials to run and every one of
/// them has a valid result that is a success: one wrong or missing result keeps it from passing.
pub proof fn an_engine_passes_exactly_if_every_final_trial_is_right(
    set: MeasurementSet,
    engine: Engine,
)
    ensures
        ({
            let expected = runner::expected_places(set, engine);
            let recorded = runner::final_places(set, engine);
            let verdict = runner::judged(
                expected.len() as int,
                recorded.len() as int,
                runner::success_total(set, recorded, recorded.len() as int),
            );
            &&& verdict == Correctness::Pass <==> (exists|i: int| is_final_of(set, engine, i))
                && forall|i: int| #[trigger]
                is_final_of(set, engine, i) ==> runner::is_success(set, i)
            &&& verdict == Correctness::Fail <==> (exists|i: int| is_final_of(set, engine, i)) && (
            forall|i: int| #[trigger] is_final_of(set, engine, i) ==> has_valid_result(set, i))
                && exists|i: int| #[trigger]
                is_final_of(set, engine, i) && !runner::is_success(set, i)
        }),
{
    let n = set.schedule.trials@.len() as int;
    let due = |i: int|
        set.schedule.trials@[i].phase == TrialPhase::Final && set.schedule.trials@[i].engine
            == engine && set.runs(i);
    let got = |i: int|
        set.schedule.trials@[i].phase == TrialPhase::Final && set.schedule.trials@[i].engine
            == engine && set.runs(i) && set.done(i);
    let expected = runner::expected_places(set, engine);
    let recorded = runner::final_places(set, engine);
    assert(expected == schedule::chosen(n, due));
    assert(recorded == schedule::chosen(n, got));
    chosen_places_are_the_wanted_ones(n, due);
    chosen_places_are_the_wanted_ones(n, got);
    assert forall|i: int| #[trigger] expected.contains(i) <==> is_final_of(set, engine, i) by {}
    assert forall|i: int| #[trigger] recorded.contains(i) <==> (is_final_of(set, engine, i)
        && has_valid_result(set, i)) by {
        assert(recorded.contains(i) <==> (0 <= i < n && got(i)));
    }
    assert forall|i: int| #[trigger] recorded.contains(i) implies expected.contains(i) by {}
    lemma_increasing_subset(recorded, expected);
    lemma_success_total(set, recorded, recorded.len() as int);
    assert forall|i: int| runner::is_success(set, i) implies #[trigger] has_valid_result(set, i) by {
        let place = choose|place: int|
            measurement::completed_at(
                set.results.attempts@,
                set.schedule.trials@[i].trial_id@,
                place,
            ) && #[trigger] set.results.attempts@[place].success;
        assert(set.results.attempts@[place].valid);
    }
    if expected.len() > 0 {
        assert(expected.contains(expected[0]));
        assert(is_final_of(set, engine, expected[0]));
    }
    if exists|i: int| is_final_of(set, engine, i) {
        let i = choose|i: int| is_final_of(set, engine, i);
        assert(expected.contains(i));
    }
    if recorded.len() == expected.len() {
        assert forall|i: int| #[trigger] is_final_of(set, engine, i) implies has_valid_result(
            set,
            i,
        ) by {
            assert(expected.contains(i));
            assert(recorded.contains(i));
        }
        if runner::success_total(set, recorded, recorded.len() as int) == recorded.len() {
            assert forall|i: int| #[trigger] is_final_of(set, engine, i) implies runner::is_success(
                set,
                i,
            ) by {
                assert(expected.contains(i));
                assert(recorded.contains(i));
                let k = choose|k: int| 0 <= k < recorded.len() && recorded[k] == i;
                assert(runner::is_success(set, recorded[k]));
            }
        } else {
            let k = choose|k: int|
                0 <= k < recorded.len() && !runner::is_success(set, #[trigger] recorded[k]);
            assert(recorded.contains(recorded[k]));
            assert(is_final_of(set, engine, recorded[k]));
        }
    } else {
        if forall|i: int| #[trigger] is_final_of(set, engine, i) ==> has_valid_result(set, i) {
            assert forall|x: int| #[trigger] expected.contains(x) implies recorded.contains(x) by {
                assert(is_final_of(set, engine, x));
            }
            lemma_increasing_subset(expected, recorded);
            assert(false);
        }
    }
}

/// The valid result that counts for a trial is the first, and a trial counts as a success exactly if
/// that result is one.
pub proof fn the_first_valid_result_counts(set: MeasurementSet, i: int, place: int)
    requires
        0 <= place < set.results.attempts@.len(),
        set.results.attempts@[place].valid,
        set.results.attempts@[place].trial_id@ == set.schedule.trials@[i].trial_id@,
        forall|k: int|
            0 <= k < place && (#[trigger] set.results.attempts@[k]).valid
                ==> set.results.attempts@[k].trial_id@ != set.schedule.trials@[i].trial_id@,
    ensures
        runner::is_success(set, i) <==> set.results.attempts@[place].success,
{
    let attempts = set.results.attempts@;
    let id = set.schedule.trials@[i].trial_id@;
    assert(measurement::completed_at(attempts, id, place));
    if runner::is_success(set, i) {
        let other = choose|other: int|
            measurement::completed_at(attempts, id, other) && #[trigger] attempts[other].success;
        if other < place {
            assert(attempts[other].valid);
        } else if place < other {
            assert(attempts[place].valid);
        }
    }
    if attempts[place].success {
        assert(measurement::completed_at(attempts, id, place) && attempts[place].success);
    }
}

// Results.

/// The text has a character that is not white space.
pub open spec fn says_something(value: Option<String>) -> bool {
    value is Some && exists|i: int|
        0 <= i < value->0@.len() && !text::is_white(#[trigger] value->0@[i])
}

proof fn lemma_says_something(value: Option<String>)
    ensures
        says_something(value) <==> measurement::told(value),
{
}

proof fn lemma_metrics(metrics: Seq<MetricValue>, n: int)
    requires
        0 <= n <= metrics.len(),
    ensures
        measurement::metrics_failure(metrics, n) is None <==> forall|i: int|
            0 <= i < n ==> number::finite_non_negative((#[trigger] metrics[i]).value),
    decreases n,
{
    if n > 0 {
        lemma_metrics(metrics, n - 1);
    }
}

proof fn lemma_primary(metrics: Seq<MetricValue>, policy: Seq<MetricPolicy>, n: int)
    requires
        0 <= n <= policy.len(),
    ensures
        measurement::primary_failure(metrics, policy, n) is None <==> forall|i: int|
            0 <= i < n ==> (browser_lab::metric(
                metrics,
                (#[trigger] policy[i]).name@,
            ) matches Some(value) && !value.at_most(number::zero())),
    decreases n,
{
    if n > 0 {
        lemma_primary(metrics, policy, n - 1);
    }
}

/// A result is accepted exactly if it names its environment; if it is invalid, says why, and if it is
/// valid, says no such thing; if it is a valid failure, names its category, and if it is a success,
/// neither a category nor a detail; and every metric is finite and not negative, with every primary
/// metric of a valid success there and above zero.
pub proof fn an_accepted_result_is_consistent(result: TrialResult, policy: Seq<MetricPolicy>)
    ensures
        measurement::result_failure(result, policy) is None <==> {
            &&& says_something(Some(result.environment_fingerprint))
            &&& !result.valid ==> says_something(result.invalidation_reason)
            &&& result.valid ==> result.invalidation_reason is None
            &&& result.valid && !result.success ==> says_something(result.failure_category)
            &&& result.success ==> result.failure_category is None && result.failure_detail is None
            &&& forall|i: int|
                0 <= i < result.metrics@.len() ==> number::finite_non_negative(
                    (#[trigger] result.metrics@[i]).value,
                )
            &&& result.valid && result.success ==> forall|i: int|
                0 <= i < policy.len() ==> (browser_lab::metric(
                    result.metrics@,
                    (#[trigger] policy[i]).name@,
                ) matches Some(value) && !value.at_most(number::zero()))
        },
{
    lemma_says_something(Some(result.environment_fingerprint));
    lemma_says_something(result.invalidation_reason);
    lemma_says_something(result.failure_category);
    lemma_metrics(result.metrics@, result.metrics@.len() as int);
    lemma_primary(result.metrics@, policy, policy.len() as int);
}

/// A recorded line is accepted exactly if it holds a result of this measurement set and of the trial
/// that it names, with a number of its own from one on, that is consistent, and whose artifacts are
/// complete where it is valid and none where it is not.
pub proof fn an_accepted_line_belongs_to_its_trial(
    earlier: Seq<TrialResult>,
    line: DecodedResult,
    measurement: MeasurementSchedule,
    policy: Seq<MetricPolicy>,
    finalized: bool,
)
    ensures
        measurement::line_failure(earlier, line, measurement, policy, finalized) is None <==> {
            &&& line.result is Some
            &&& ({
                let result = line.result->0;
                let trial = schedule::trial_with(measurement.trials@, result.trial_id@);
                &&& result.schema_version == 7
                &&& result.measurement_set_id@ == measurement.measurement_set_id@
                &&& result.attempt >= 1
                &&& trial is Some
                &&& result.workload_id@ == trial->0.workload_id@
                &&& result.engine == trial->0.engine
                &&& result.phase == trial->0.phase
                &&& result.sample_index == trial->0.sample_index
                &&& forall|i: int|
                    0 <= i < earlier.len() && (#[trigger] earlier[i]).trial_id@ == result.trial_id@
                        ==> earlier[i].attempt != result.attempt
                &&& measurement::result_failure(result, policy) is None
                &&& result.valid ==> browser_lab::artifact_set_failure(result.artifacts@) is None
                    && (finalized || browser_lab::files_failure(
                    result.artifacts@,
                    line.files@,
                    result.artifacts@.len() as int,
                ) is None)
                &&& !result.valid ==> result.artifacts@.len() == 0
            })
        },
{
}

/// What is read are the results of all lines, in order, and each was accepted after those before it.
pub proof fn every_line_is_read(
    lines: Seq<DecodedResult>,
    measurement: MeasurementSchedule,
    policy: Seq<MetricPolicy>,
    finalized: bool,
)
    ensures
        match measurement::reading(lines, measurement, policy, finalized) {
            Ok(attempts) => {
                &&& attempts.len() == lines.len()
                &&& forall|i: int|
                    0 <= i < lines.len() ==> (#[trigger] lines[i]).result == Some(attempts[i])
                &&& forall|i: int|
                    0 <= i < lines.len() ==> measurement::line_failure(
                        attempts.take(i),
                        #[trigger] lines[i],
                        measurement,
                        policy,
                        finalized,
                    ) is None
            },
            Err(refusal) => lines.len() <= usize::MAX ==> {
                &&& 0 <= refusal.line < lines.len()
                &&& measurement::reading(
                    lines.take(refusal.line as int),
                    measurement,
                    policy,
                    finalized,
                ) is Ok
                &&& measurement::line_failure(
                    measurement::reading(
                        lines.take(refusal.line as int),
                        measurement,
                        policy,
                        finalized,
                    )->Ok_0,
                    lines[refusal.line as int],
                    measurement,
                    policy,
                    finalized,
                ) == Some(refusal.error)
            },
        },
    decreases lines.len(),
{
    if lines.len() > 0 {
        let shorter = lines.drop_last();
        every_line_is_read(shorter, measurement, policy, finalized);
        match measurement::reading(lines, measurement, policy, finalized) {
            Ok(attempts) => {
                let earlier = measurement::reading(shorter, measurement, policy, finalized)->Ok_0;
                assert(attempts == earlier.push(lines.last().result->0));
                assert forall|i: int| 0 <= i < lines.len() implies (#[trigger] lines[i]).result
                    == Some(attempts[i]) && measurement::line_failure(
                    attempts.take(i),
                    lines[i],
                    measurement,
                    policy,
                    finalized,
                ) is None by {
                    if i < shorter.len() {
                        assert(shorter[i] == lines[i]);
                        assert(attempts.take(i) == earlier.take(i));
                    } else {
                        assert(attempts.take(i) == earlier);
                    }
                }
            },
            Err(refusal) => {
                if measurement::reading(shorter, measurement, policy, finalized) is Err {
                    if lines.len() <= usize::MAX {
                        assert(shorter.take(refusal.line as int) == lines.take(
                            refusal.line as int,
                        ));
                        assert(shorter[refusal.line as int] == lines[refusal.line as int]);
                    }
                } else if lines.len() <= usize::MAX {
                    assert(lines.take(lines.len() - 1) == shorter);
                }
            },
        }
    }
}

/// A measurement is finished exactly if its sampling is decided and every final trial that runs has its
/// valid result.
pub proof fn a_measurement_is_finished_by_its_final_trials(set: MeasurementSet)
    ensures
        set.finished() <==> {
            &&& !set.undecided()
            &&& forall|i: int|
                0 <= i < set.schedule.trials@.len() ==> (
                #[trigger] set.schedule.trials@[i]).phase != TrialPhase::Final || !set.runs(i)
                    || set.done(i)
        },
{
}

/// Results share one environment exactly if any two of them have the same.
pub proof fn results_share_one_environment(attempts: Seq<TrialResult>)
    ensures
        measurement::one_environment(attempts) <==> forall|i: int, j: int|
            0 <= i < attempts.len() && 0 <= j < attempts.len() ==> (
            #[trigger] attempts[i]).environment_fingerprint@ == (
            #[trigger] attempts[j]).environment_fingerprint@,
{
    if forall|i: int, j: int|
        0 <= i < attempts.len() && 0 <= j < attempts.len() ==> (
        #[trigger] attempts[i]).environment_fingerprint@ == (
        #[trigger] attempts[j]).environment_fingerprint@ {
        assert forall|i: int| 0 <= i < attempts.len() implies (
        #[trigger] attempts[i]).environment_fingerprint@ == attempts[0].environment_fingerprint@ by {
            assert(attempts[i].environment_fingerprint@ == attempts[0].environment_fingerprint@);
        }
    }
}

} // verus!
