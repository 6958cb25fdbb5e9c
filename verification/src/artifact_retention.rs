//! Which diagnostic artifacts of a measurement are kept.

use vstd::prelude::*;
use vstd::string::*;

use crate::browser_lab;
use crate::browser_lab::{ArtifactEvidence, ArtifactFile, ArtifactKind, Engine, EvidenceError};
use crate::measurement;
use crate::measurement::TrialResult;
use crate::number;
use crate::number::Number;
use crate::ordered;
use crate::schedule;
use crate::schedule::{MeasurementSchedule, ScheduledTrial, TrialPhase};
use crate::text;

verus! {

/// The artifacts that are kept of a measurement.
#[derive(Clone, Debug)]
pub struct ArtifactRetention {
    pub schema_version: u32,
    pub policy: String,
    pub measurement_set_id: String,
    pub selections: Vec<RetainedArtifact>,
    pub summary: RetentionSummary,
}

/// An artifact that is kept, and why it represents its workload and engine.
#[derive(Clone, Debug)]
pub struct RetainedArtifact {
    pub workload_id: String,
    pub engine: Engine,
    pub trial_id: String,
    pub attempt: u32,
    pub representative_metric: String,
    pub median_value: Number,
    pub observed_value: Number,
    pub artifact: ArtifactEvidence,
}

/// How much was kept, and how much was not.
#[derive(Clone, Debug)]
pub struct RetentionSummary {
    pub policy: String,
    pub retained_artifacts: usize,
    pub discarded_artifacts: usize,
    pub retained_bytes: u64,
    pub discarded_bytes: u64,
}

// Groups of results.

/// The results of one workload and engine from which representatives are chosen.
#[derive(Clone, Debug)]
pub struct RetentionGroup {
    pub workload_id: String,
    pub engine: Engine,
    /// The places of the results among the recorded attempts.
    pub results: Vec<usize>,
}

/// The place of an engine in the order of engines.
pub open spec fn engine_place(engine: Engine) -> int {
    match engine {
        Engine::Chromium => 0,
        Engine::Firefox => 1,
        Engine::Webkit => 2,
    }
}

/// The trial belongs to a workload and an engine, and has a valid result.
pub open spec fn has_result(
    trial: ScheduledTrial,
    attempts: Seq<TrialResult>,
    workload: Seq<char>,
    engine: Engine,
) -> bool {
    &&& trial.workload_id@ == workload
    &&& trial.engine == engine
    &&& measurement::completed(attempts, trial.trial_id@)
}

/// The trials of a workload, an engine, and a phase that have a valid result.
pub open spec fn phase_trials(
    trials: Seq<ScheduledTrial>,
    attempts: Seq<TrialResult>,
    workload: Seq<char>,
    engine: Engine,
    phase: TrialPhase,
) -> Seq<int> {
    schedule::chosen(
        trials.len() as int,
        |i: int| has_result(trials[i], attempts, workload, engine) && trials[i].phase == phase,
    )
}

/// The trials that speak for a workload and an engine: the final ones, or where there are none the
/// pilots, or where there are none the warm-ups.
pub open spec fn preferred(
    trials: Seq<ScheduledTrial>,
    attempts: Seq<TrialResult>,
    workload: Seq<char>,
    engine: Engine,
) -> Seq<int> {
    let last = phase_trials(trials, attempts, workload, engine, TrialPhase::Final);
    let pilots = phase_trials(trials, attempts, workload, engine, TrialPhase::Pilot);
    if last.len() > 0 {
        last
    } else if pilots.len() > 0 {
        pilots
    } else {
        phase_trials(trials, attempts, workload, engine, TrialPhase::Warmup)
    }
}

/// The places are those of the results of some trials, in order.
pub open spec fn results_of(
    places: Seq<usize>,
    chosen: Seq<int>,
    trials: Seq<ScheduledTrial>,
    attempts: Seq<TrialResult>,
) -> bool {
    &&& places.len() == chosen.len()
    &&& forall|k: int|
        0 <= k < places.len() ==> measurement::completed_at(
            attempts,
            trials[chosen[k]].trial_id@,
            #[trigger] places[k] as int,
        )
}

/// The group holds the results that speak for its workload and engine, of which there are some.
pub open spec fn is_group(
    group: RetentionGroup,
    trials: Seq<ScheduledTrial>,
    attempts: Seq<TrialResult>,
) -> bool {
    &&& group.results@.len() > 0
    &&& results_of(
        group.results@,
        preferred(trials, attempts, group.workload_id@, group.engine),
        trials,
        attempts,
    )
}

/// One group comes before another: by workload, then by engine.
pub open spec fn group_before(a: RetentionGroup, b: RetentionGroup) -> bool {
    ||| text::precedes(a.workload_id@, b.workload_id@)
    ||| (a.workload_id@ == b.workload_id@ && engine_place(a.engine) < engine_place(b.engine))
}

/// Some group is that of a workload and an engine.
pub open spec fn has_group(groups: Seq<RetentionGroup>, workload: Seq<char>, engine: Engine) -> bool {
    exists|g: int|
        0 <= g < groups.len() && (#[trigger] groups[g]).workload_id@ == workload && groups[g].engine
            == engine
}

/// The groups are those of all workloads and engines that have a result, in order.
pub open spec fn is_grouping(
    groups: Seq<RetentionGroup>,
    trials: Seq<ScheduledTrial>,
    attempts: Seq<TrialResult>,
) -> bool {
    &&& forall|g: int| 0 <= g < groups.len() ==> is_group(#[trigger] groups[g], trials, attempts)
    &&& forall|g: int, h: int|
        0 <= g < h < groups.len() ==> group_before(#[trigger] groups[g], #[trigger] groups[h])
    &&& forall|i: int|
        0 <= i < trials.len() && measurement::completed(
            attempts,
            (#[trigger] trials[i]).trial_id@,
        ) ==> has_group(groups, trials[i].workload_id@, trials[i].engine)
}

/// The results of a workload, an engine, and a phase.
fn phase_results(
    trials: &Vec<ScheduledTrial>,
    attempts: &Vec<TrialResult>,
    workload_id: &str,
    engine: Engine,
    phase: TrialPhase,
) -> (r: Vec<usize>)
    ensures
        results_of(
            r@,
            phase_trials(trials@, attempts@, workload_id@, engine, phase),
            trials@,
            attempts@,
        ),
{
    let ghost wanted = |i: int|
        has_result(trials@[i], attempts@, workload_id@, engine) && trials@[i].phase == phase;
    let mut out: Vec<usize> = Vec::new();
    let mut i: usize = 0;
    while i < trials.len()
        invariant
            i <= trials@.len(),
            wanted == (|i: int|
                has_result(trials@[i], attempts@, workload_id@, engine) && trials@[i].phase
                    == phase),
            results_of(out@, schedule::chosen(i as int, wanted), trials@, attempts@),
        decreases trials@.len() - i,
    {
        let trial = &trials[i];
        let ghost before = out@;
        let ghost earlier = schedule::chosen(i as int, wanted);
        if trial.phase == phase && trial.engine == engine && text::same(
            &trial.workload_id,
            workload_id,
        ) {
            if let Some(place) = measurement::find_completed(attempts, &trial.trial_id) {
                out.push(place);
                proof {
                    assert(wanted(i as int));
                    let now = schedule::chosen(i + 1, wanted);
                    assert(now == earlier.push(i as int));
                    assert forall|k: int| 0 <= k < out@.len() implies measurement::completed_at(
                        attempts@,
                        trials@[now[k]].trial_id@,
                        #[trigger] out@[k] as int,
                    ) by {
                        if k < before.len() {
                            assert(out@[k] == before[k]);
                            assert(now[k] == earlier[k]);
                        }
                    }
                }
            } else {
                assert(!wanted(i as int));
            }
        } else {
            assert(!wanted(i as int));
        }
        i += 1;
    }
    out
}

/// The results that speak for a workload and an engine.
fn preferred_results(
    trials: &Vec<ScheduledTrial>,
    attempts: &Vec<TrialResult>,
    workload_id: &str,
    engine: Engine,
) -> (r: Vec<usize>)
    ensures
        results_of(
            r@,
            preferred(trials@, attempts@, workload_id@, engine),
            trials@,
            attempts@,
        ),
{
    let last = phase_results(trials, attempts, workload_id, engine, TrialPhase::Final);
    if last.len() > 0 {
        return last;
    }
    let pilots = phase_results(trials, attempts, workload_id, engine, TrialPhase::Pilot);
    if pilots.len() > 0 {
        return pilots;
    }
    phase_results(trials, attempts, workload_id, engine, TrialPhase::Warmup)
}

/// A trial with a result makes some trial speak for its workload and engine.
proof fn lemma_preferred(trials: Seq<ScheduledTrial>, attempts: Seq<TrialResult>, i: int)
    requires
        0 <= i < trials.len(),
        measurement::completed(attempts, trials[i].trial_id@),
    ensures
        preferred(trials, attempts, trials[i].workload_id@, trials[i].engine).len() > 0,
{
    let workload = trials[i].workload_id@;
    let engine = trials[i].engine;
    let phase = trials[i].phase;
    let wanted = |i: int|
        has_result(trials[i], attempts, workload, engine) && trials[i].phase == phase;
    schedule::lemma_chosen(trials.len() as int, wanted);
    assert(wanted(i));
    assert(phase_trials(trials, attempts, workload, engine, phase) == schedule::chosen(
        trials.len() as int,
        wanted,
    ));
    assert(schedule::chosen(trials.len() as int, wanted).contains(i));
}

/// The workloads that have a result, in order.
fn workloads_with_results(trials: &Vec<ScheduledTrial>, attempts: &Vec<TrialResult>) -> (r: Vec<
    String,
>)
    ensures
        ordered::sorted(text::views(r@)),
        forall|i: int|
            0 <= i < trials@.len() && measurement::completed(
                attempts@,
                (#[trigger] trials@[i]).trial_id@,
            ) ==> text::views(r@).contains(trials@[i].workload_id@),
{
    let mut out: Vec<String> = Vec::new();
    let mut i: usize = 0;
    while i < trials.len()
        invariant
            i <= trials@.len(),
            ordered::sorted(text::views(out@)),
            forall|j: int|
                0 <= j < i && measurement::completed(attempts@, (#[trigger] trials@[j]).trial_id@)
                    ==> text::views(out@).contains(trials@[j].workload_id@),
        decreases trials@.len() - i,
    {
        if measurement::find_completed(attempts, &trials[i].trial_id).is_some() {
            ordered::insert(&mut out, &trials[i].workload_id);
        }
        i += 1;
    }
    out
}

/// The groups of results from which representatives are chosen.
pub fn groups(measurement: &MeasurementSchedule, attempts: &Vec<TrialResult>) -> (r: Vec<
    RetentionGroup,
>)
    ensures
        is_grouping(r@, measurement.trials@, attempts@),
{
    let trials = &measurement.trials;
    let workloads = workloads_with_results(trials, attempts);
    let engines = Engine::all();
    let mut out: Vec<RetentionGroup> = Vec::new();
    let mut w: usize = 0;
    while w < workloads.len()
        invariant
            w <= workloads@.len(),
            *trials == measurement.trials,
            engines@ == browser_lab::all_engines(),
            ordered::sorted(text::views(workloads@)),
            forall|g: int|
                0 <= g < out@.len() ==> is_group(#[trigger] out@[g], trials@, attempts@),
            forall|g: int|
                0 <= g < out@.len() ==> exists|v: int|
                    0 <= v < w && workloads@[v]@ == (#[trigger] out@[g]).workload_id@,
            forall|g: int, h: int|
                0 <= g < h < out@.len() ==> group_before(#[trigger] out@[g], #[trigger] out@[h]),
            forall|v: int, engine: Engine|
                0 <= v < w && preferred(
                    trials@,
                    attempts@,
                    #[trigger] workloads@[v]@,
                    engine,
                ).len() > 0 ==> #[trigger] has_group(out@, workloads@[v]@, engine),
        decreases workloads@.len() - w,
    {
        let mut e: usize = 0;
        while e < engines.len()
            invariant
                w < workloads@.len(),
                e <= engines@.len(),
                *trials == measurement.trials,
                engines@ == browser_lab::all_engines(),
                ordered::sorted(text::views(workloads@)),
                forall|g: int|
                    0 <= g < out@.len() ==> is_group(#[trigger] out@[g], trials@, attempts@),
                forall|g: int|
                    0 <= g < out@.len() ==> ((exists|v: int|
                        0 <= v < w && workloads@[v]@ == (#[trigger] out@[g]).workload_id@) || (
                    out@[g].workload_id@ == workloads@[w as int]@ && engine_place(out@[g].engine)
                        < e)),
                forall|g: int, h: int|
                    0 <= g < h < out@.len() ==> group_before(
                        #[trigger] out@[g],
                        #[trigger] out@[h],
                    ),
                forall|v: int, engine: Engine|
                    0 <= v < w && preferred(
                        trials@,
                        attempts@,
                        #[trigger] workloads@[v]@,
                        engine,
                    ).len() > 0 ==> #[trigger] has_group(out@, workloads@[v]@, engine),
                forall|engine: Engine|
                    engine_place(engine) < e && preferred(
                        trials@,
                        attempts@,
                        workloads@[w as int]@,
                        engine,
                    ).len() > 0 ==> #[trigger] has_group(out@, workloads@[w as int]@, engine),
            decreases engines@.len() - e,
        {
            let engine = engines[e];
            assert(engine_place(engine) == e);
            let results = preferred_results(trials, attempts, &workloads[w], engine);
            let ghost before = out@;
            if results.len() > 0 {
                let group = RetentionGroup { workload_id: workloads[w].clone(), engine, results };
                out.push(group);
                proof {
                    assert forall|g: int, h: int| 0 <= g < h < out@.len() implies group_before(
                        #[trigger] out@[g],
                        #[trigger] out@[h],
                    ) by {
                        if h == before.len() {
                            assert(out@[g] == before[g]);
                            if exists|v: int| 0 <= v < w && workloads@[v]@ == before[g].workload_id@ {
                                let v = choose|v: int|
                                    0 <= v < w && workloads@[v]@ == before[g].workload_id@;
                                let all = text::views(workloads@);
                                assert(text::precedes(all[v], all[w as int]));
                            }
                        } else {
                            assert(out@[g] == before[g] && out@[h] == before[h]);
                        }
                    }
                    assert forall|workload: Seq<char>, other: Engine| #[trigger]
                        has_group(before, workload, other) implies has_group(
                        out@,
                        workload,
                        other,
                    ) by {
                        let g = choose|g: int|
                            0 <= g < before.len() && (#[trigger] before[g]).workload_id@
                                == workload && before[g].engine == other;
                        assert(out@[g] == before[g]);
                    }
                    assert(out@[before.len() as int].engine == engine);
                    assert(has_group(out@, workloads@[w as int]@, engine));
                    assert forall|g: int| 0 <= g < out@.len() implies ((exists|v: int|
                        0 <= v < w && workloads@[v]@ == (#[trigger] out@[g]).workload_id@) || (
                    out@[g].workload_id@ == workloads@[w as int]@ && engine_place(out@[g].engine)
                        < e + 1)) by {
                        if g < before.len() {
                            assert(out@[g] == before[g]);
                        }
                    }
                    assert forall|v: int, other: Engine|
                        0 <= v < w && preferred(
                            trials@,
                            attempts@,
                            #[trigger] workloads@[v]@,
                            other,
                        ).len() > 0 implies #[trigger] has_group(out@, workloads@[v]@, other) by {
                        assert(has_group(before, workloads@[v]@, other));
                    }
                }
            }
            proof {
                assert forall|other: Engine|
                    engine_place(other) < e + 1 && preferred(
                        trials@,
                        attempts@,
                        workloads@[w as int]@,
                        other,
                    ).len() > 0 implies #[trigger] has_group(
                    out@,
                    workloads@[w as int]@,
                    other,
                ) by {
                    if engine_place(other) < e {
                        assert(has_group(before, workloads@[w as int]@, other));
                    } else {
                        assert(other == engine);
                    }
                }
            }
            e += 1;
        }
        proof {
            assert forall|v: int, other: Engine|
                0 <= v < w + 1 && preferred(
                    trials@,
                    attempts@,
                    #[trigger] workloads@[v]@,
                    other,
                ).len() > 0 implies #[trigger] has_group(out@, workloads@[v]@, other) by {
                assert(engine_place(other) < 3);
            }
        }
        w += 1;
    }
    proof {
        assert forall|i: int|
            0 <= i < trials@.len() && measurement::completed(
                attempts@,
                (#[trigger] trials@[i]).trial_id@,
            ) implies has_group(out@, trials@[i].workload_id@, trials@[i].engine) by {
            lemma_preferred(trials@, attempts@, i);
            let all = text::views(workloads@);
            assert(all.contains(trials@[i].workload_id@));
            let v = choose|v: int| 0 <= v < all.len() && all[v] == trials@[i].workload_id@;
            assert(workloads@[v]@ == trials@[i].workload_id@);
            assert(has_group(out@, workloads@[v]@, trials@[i].engine));
        }
    }
    out
}

// Representatives.

/// The version of retention manifests.
pub const SCHEMA_VERSION: u32 = 1;

/// The measurement by which a representative is chosen.
#[derive(Clone, Copy, Debug, Eq, PartialEq, Structural)]
pub enum Diagnostic {
    Cpu,
    Heap,
}

/// The metric of a diagnostic.
pub open spec fn diagnostic_metric(diagnostic: Diagnostic) -> Seq<char> {
    match diagnostic {
        Diagnostic::Cpu => "browser.cpu_profile.active_ms"@,
        Diagnostic::Heap => "browser.js_heap.live_bytes"@,
    }
}

impl Diagnostic {
    /// The name of the metric.
    pub fn metric(self) -> (r: &'static str)
        ensures
            r@ == diagnostic_metric(self),
    {
        match self {
            Diagnostic::Cpu => "browser.cpu_profile.active_ms",
            Diagnostic::Heap => "browser.js_heap.live_bytes",
        }
    }
}

/// Arithmetic on the values of a group: the mean of the two middle ones, and how far each value is
/// from the median.
#[derive(Clone, Debug)]
pub struct Spread {
    pub mean: Number,
    pub distances: Vec<Number>,
}

/// Arithmetic on both measurements of a group.
#[derive(Clone, Debug)]
pub struct GroupSpread {
    pub cpu: Spread,
    pub heap: Spread,
}

/// The arithmetic on one of the measurements.
pub open spec fn spread_of(spread: GroupSpread, diagnostic: Diagnostic) -> Spread {
    match diagnostic {
        Diagnostic::Cpu => spread.cpu,
        Diagnostic::Heap => spread.heap,
    }
}

/// Why no manifest can be made.
#[derive(Clone, Copy, Debug, Eq, PartialEq, Structural)]
pub enum RetentionError {
    /// A result of a group lacks a measurement.
    NoMetric { group: usize, member: usize, diagnostic: Diagnostic },
    /// The representative of a group lacks an artifact.
    NoArtifact { group: usize, member: usize, kind: ArtifactKind },
    BytesOverflow,
    /// More would be kept than was captured.
    ExceedsCaptured,
}

/// The measurement of a result.
pub open spec fn value_of(result: TrialResult, diagnostic: Diagnostic) -> Option<Number> {
    browser_lab::metric(result.metrics@, diagnostic_metric(diagnostic))
}

/// The measurements of the results of a group.
pub open spec fn group_values(
    group: RetentionGroup,
    attempts: Seq<TrialResult>,
    diagnostic: Diagnostic,
) -> Seq<Number> {
    Seq::new(
        group.results@.len(),
        |k: int| value_of(attempts[group.results@[k] as int], diagnostic)->0,
    )
}

/// The first of the first `n` results of a group that lacks a measurement.
pub open spec fn first_without(
    group: RetentionGroup,
    attempts: Seq<TrialResult>,
    diagnostic: Diagnostic,
    n: int,
) -> Option<int>
    decreases n,
{
    if n <= 0 {
        None
    } else if first_without(group, attempts, diagnostic, n - 1) is Some {
        first_without(group, attempts, diagnostic, n - 1)
    } else if value_of(attempts[group.results@[n - 1] as int], diagnostic) is None {
        Some(n - 1)
    } else {
        None
    }
}

/// The places of a group's results lie among the attempts.
pub open spec fn places_valid(group: RetentionGroup, attempts: Seq<TrialResult>) -> bool {
    forall|k: int|
        0 <= k < group.results@.len() ==> (#[trigger] group.results@[k]) < attempts.len()
}

proof fn lemma_first_without(
    group: RetentionGroup,
    attempts: Seq<TrialResult>,
    diagnostic: Diagnostic,
    n: int,
    m: int,
)
    requires
        0 <= n <= m,
        first_without(group, attempts, diagnostic, n) is Some,
    ensures
        first_without(group, attempts, diagnostic, m) == first_without(
            group,
            attempts,
            diagnostic,
            n,
        ),
    decreases m - n,
{
    if n < m {
        lemma_first_without(group, attempts, diagnostic, n, m - 1);
    }
}

impl RetentionGroup {
    /// The measurements of the group's results, or the first result that lacks its measurement.
    pub fn values(&self, attempts: &Vec<TrialResult>, diagnostic: Diagnostic) -> (r: Result<
        Vec<Number>,
        usize,
    >)
        requires
            places_valid(*self, attempts@),
        ensures
            match first_without(*self, attempts@, diagnostic, self.results@.len() as int) {
                Some(member) => r is Err && r->Err_0 == member,
                None => r is Ok && r->Ok_0@ == group_values(*self, attempts@, diagnostic),
            },
    {
        let mut out: Vec<Number> = Vec::new();
        let mut k: usize = 0;
        while k < self.results.len()
            invariant
                k <= self.results@.len(),
                places_valid(*self, attempts@),
                first_without(*self, attempts@, diagnostic, k as int) is None,
                out@ == group_values(*self, attempts@, diagnostic).take(k as int),
            decreases self.results@.len() - k,
        {
            match browser_lab::metric_value(&attempts[self.results[k]].metrics, diagnostic.metric()) {
                Some(value) => {
                    out.push(value);
                    assert(out@ == group_values(*self, attempts@, diagnostic).take(k + 1));
                },
                None => {
                    proof {
                        lemma_first_without(
                            *self,
                            attempts@,
                            diagnostic,
                            k + 1,
                            self.results@.len() as int,
                        );
                    }
                    return Err(k);
                },
            }
            k += 1;
        }
        assert(group_values(*self, attempts@, diagnostic).take(self.results@.len() as int)
            == group_values(*self, attempts@, diagnostic));
        Ok(out)
    }
}

/// The median of some numbers, given the mean of the two middle ones: the middle one where there is
/// one.
pub open spec fn median_of(values: Seq<Number>, mean: Number) -> Number {
    if values.len() % 2 == 0 {
        mean
    } else {
        number::arranged(values)[values.len() as int / 2]
    }
}

/// The two middle numbers of a group, which are the same where it has an odd number of them.
pub fn middle_values(values: &Vec<Number>) -> (r: (Number, Number))
    requires
        values@.len() > 0,
    ensures
        r.0 == number::arranged(values@)[(values@.len() - 1) / 2],
        r.1 == number::arranged(values@)[values@.len() as int / 2],
{
    proof {
        number::lemma_arranged_length(values@);
    }
    let in_order = number::arrange(values);
    let n: usize = in_order.len();
    (in_order[(n - 1) / 2], in_order[n / 2])
}

/// The median of some numbers, given the mean of the two middle ones.
pub fn median(values: &Vec<Number>, mean: Number) -> (r: Number)
    requires
        values@.len() > 0,
    ensures
        r == median_of(values@, mean),
{
    if values.len() % 2 == 0 {
        mean
    } else {
        middle_values(values).1
    }
}

/// Member `j` of a group represents it better than member `k`: it is nearer to the median, or
/// equally near with an identifier that comes first.
pub open spec fn nearer(
    group: RetentionGroup,
    attempts: Seq<TrialResult>,
    distances: Seq<Number>,
    j: int,
    k: int,
) -> bool {
    ||| distances[j].place() < distances[k].place()
    ||| (distances[j].place() == distances[k].place() && text::precedes(
        attempts[group.results@[j] as int].trial_id@,
        attempts[group.results@[k] as int].trial_id@,
    ))
}

/// Member `k` represents the group: no member represents it better, and no earlier member as well.
pub open spec fn represents(
    group: RetentionGroup,
    attempts: Seq<TrialResult>,
    distances: Seq<Number>,
    k: int,
) -> bool {
    &&& 0 <= k < group.results@.len()
    &&& forall|j: int|
        0 <= j < group.results@.len() ==> !#[trigger] nearer(group, attempts, distances, j, k)
    &&& forall|j: int| 0 <= j < k ==> #[trigger] nearer(group, attempts, distances, k, j)
}

fn is_nearer(
    group: &RetentionGroup,
    attempts: &Vec<TrialResult>,
    distances: &Vec<Number>,
    j: usize,
    k: usize,
) -> (r: bool)
    requires
        places_valid(*group, attempts@),
        j < group.results@.len(),
        k < group.results@.len(),
        distances@.len() == group.results@.len(),
    ensures
        r == nearer(*group, attempts@, distances@, j as int, k as int),
{
    distances[j].comes_before(distances[k]) || (!distances[k].comes_before(distances[j])
        && text::before(
        &attempts[group.results[j]].trial_id,
        &attempts[group.results[k]].trial_id,
    ))
}

proof fn lemma_nearer_transitive(
    group: RetentionGroup,
    attempts: Seq<TrialResult>,
    distances: Seq<Number>,
    i: int,
    j: int,
    k: int,
)
    requires
        nearer(group, attempts, distances, i, j),
        !nearer(group, attempts, distances, k, j),
    ensures
        nearer(group, attempts, distances, i, k),
        !nearer(group, attempts, distances, k, i),
{
    let a = attempts[group.results@[i] as int].trial_id@;
    let b = attempts[group.results@[j] as int].trial_id@;
    let c = attempts[group.results@[k] as int].trial_id@;
    text::lemma_precedes_total(b, c);
    text::lemma_precedes_total(a, c);
    if text::precedes(a, b) && text::precedes(b, c) {
        text::lemma_precedes_transitive(a, b, c);
    }
    if text::precedes(c, a) && text::precedes(a, b) {
        text::lemma_precedes_transitive(c, a, b);
    }
}

/// The member that represents a group.
pub fn representative(
    group: &RetentionGroup,
    attempts: &Vec<TrialResult>,
    distances: &Vec<Number>,
) -> (r: usize)
    requires
        places_valid(*group, attempts@),
        group.results@.len() > 0,
        distances@.len() == group.results@.len(),
    ensures
        represents(*group, attempts@, distances@, r as int),
{
    let mut best: usize = 0;
    let mut j: usize = 1;
    proof {
        let id = attempts@[group.results@[0] as int].trial_id@;
        text::lemma_precedes_total(id, id);
    }
    while j < group.results.len()
        invariant
            places_valid(*group, attempts@),
            best < j <= group.results@.len(),
            distances@.len() == group.results@.len(),
            forall|i: int|
                0 <= i < j ==> !#[trigger] nearer(
                    *group,
                    attempts@,
                    distances@,
                    i,
                    best as int,
                ),
            forall|i: int|
                0 <= i < best ==> #[trigger] nearer(
                    *group,
                    attempts@,
                    distances@,
                    best as int,
                    i,
                ),
        decreases group.results@.len() - j,
    {
        if is_nearer(group, attempts, distances, j, best) {
            proof {
                let id = attempts@[group.results@[j as int] as int].trial_id@;
                text::lemma_precedes_total(id, id);
                assert forall|i: int| 0 <= i < j implies #[trigger] nearer(
                    *group,
                    attempts@,
                    distances@,
                    j as int,
                    i,
                ) by {
                    assert(!nearer(*group, attempts@, distances@, i, best as int));
                    lemma_nearer_transitive(
                        *group,
                        attempts@,
                        distances@,
                        j as int,
                        best as int,
                        i,
                    );
                }
                assert forall|i: int| 0 <= i < j + 1 implies !#[trigger] nearer(
                    *group,
                    attempts@,
                    distances@,
                    i,
                    j as int,
                ) by {
                    if i < j {
                        assert(!nearer(*group, attempts@, distances@, i, best as int));
                        lemma_nearer_transitive(
                            *group,
                            attempts@,
                            distances@,
                            j as int,
                            best as int,
                            i,
                        );
                    }
                }
            }
            best = j;
        }
        j += 1;
    }
    best
}

/// Only one member can represent a group.
pub proof fn representative_is_unique(
    group: RetentionGroup,
    attempts: Seq<TrialResult>,
    distances: Seq<Number>,
    j: int,
    k: int,
)
    requires
        represents(group, attempts, distances, j),
        represents(group, attempts, distances, k),
    ensures
        j == k,
{
    if j < k {
        assert(nearer(group, attempts, distances, k, j));
    } else if k < j {
        assert(nearer(group, attempts, distances, j, k));
    }
}

// Manifests.

/// The first artifact of a kind.
pub open spec fn artifact_with(artifacts: Seq<ArtifactEvidence>, kind: ArtifactKind) -> Option<
    ArtifactEvidence,
>
    decreases artifacts.len(),
{
    if artifacts.len() == 0 {
        None
    } else if artifacts[0].kind == kind {
        Some(artifacts[0])
    } else {
        artifact_with(artifacts.drop_first(), kind)
    }
}

/// Two descriptions of an artifact say the same.
pub open spec fn same_artifact(a: ArtifactEvidence, b: ArtifactEvidence) -> bool {
    &&& a.kind == b.kind
    &&& a.path@ == b.path@
    &&& a.size_bytes == b.size_bytes
    &&& a.sha256@ == b.sha256@
    &&& a.format@ == b.format@
}

/// The member that represents a group.
pub open spec fn member(group: RetentionGroup, attempts: Seq<TrialResult>, spread: Spread) -> int {
    choose|k: int| represents(group, attempts, spread.distances@, k)
}

/// The artifact of a kind that the representative of a group left.
pub open spec fn picked(
    group: RetentionGroup,
    attempts: Seq<TrialResult>,
    spread: Spread,
    kind: ArtifactKind,
) -> Option<ArtifactEvidence> {
    artifact_with(
        attempts[group.results@[member(group, attempts, spread)] as int].artifacts@,
        kind,
    )
}

/// Why no artifact can be chosen by a measurement, if none can.
pub open spec fn pick_failure(
    group: RetentionGroup,
    attempts: Seq<TrialResult>,
    spread: GroupSpread,
    g: int,
    diagnostic: Diagnostic,
    kind: ArtifactKind,
) -> Option<RetentionError> {
    let missing = first_without(group, attempts, diagnostic, group.results@.len() as int);
    if missing is Some {
        Some(
            RetentionError::NoMetric { group: g as usize, member: missing->0 as usize, diagnostic },
        )
    } else if picked(group, attempts, spread_of(spread, diagnostic), kind) is None {
        Some(
            RetentionError::NoArtifact {
                group: g as usize,
                member: member(group, attempts, spread_of(spread, diagnostic)) as usize,
                kind,
            },
        )
    } else {
        None
    }
}

/// Why the artifacts of a group cannot be chosen, if they cannot.
pub open spec fn group_failure(
    group: RetentionGroup,
    attempts: Seq<TrialResult>,
    spread: GroupSpread,
    g: int,
) -> Option<RetentionError> {
    let profile = pick_failure(
        group,
        attempts,
        spread,
        g,
        Diagnostic::Cpu,
        ArtifactKind::CpuProfile,
    );
    let flamegraph = pick_failure(
        group,
        attempts,
        spread,
        g,
        Diagnostic::Cpu,
        ArtifactKind::Flamegraph,
    );
    if profile is Some {
        profile
    } else if flamegraph is Some {
        flamegraph
    } else {
        pick_failure(group, attempts, spread, g, Diagnostic::Heap, ArtifactKind::JsHeap)
    }
}

/// Why the artifacts of the first `n` groups cannot be chosen, if they cannot.
pub open spec fn groups_failure(
    groups: Seq<RetentionGroup>,
    attempts: Seq<TrialResult>,
    spreads: Seq<GroupSpread>,
    n: int,
) -> Option<RetentionError>
    decreases n,
{
    if n <= 0 {
        None
    } else if groups_failure(groups, attempts, spreads, n - 1) is Some {
        groups_failure(groups, attempts, spreads, n - 1)
    } else {
        group_failure(groups[n - 1], attempts, spreads[n - 1], n - 1)
    }
}

/// The size of the artifacts that are kept of a group.
pub open spec fn group_bytes(
    group: RetentionGroup,
    attempts: Seq<TrialResult>,
    spread: GroupSpread,
) -> int {
    picked(group, attempts, spread.cpu, ArtifactKind::CpuProfile)->0.size_bytes + picked(
        group,
        attempts,
        spread.heap,
        ArtifactKind::JsHeap,
    )->0.size_bytes + picked(
        group,
        attempts,
        spread.cpu,
        ArtifactKind::Flamegraph,
    )->0.size_bytes
}

/// The size of the artifacts that are kept of the first `n` groups.
pub open spec fn kept_bytes(
    groups: Seq<RetentionGroup>,
    attempts: Seq<TrialResult>,
    spreads: Seq<GroupSpread>,
    n: int,
) -> int
    decreases n,
{
    if n <= 0 {
        0
    } else {
        kept_bytes(groups, attempts, spreads, n - 1) + group_bytes(
            groups[n - 1],
            attempts,
            spreads[n - 1],
        )
    }
}

/// The size of some artifacts.
pub open spec fn bytes_of(artifacts: Seq<ArtifactEvidence>) -> int
    decreases artifacts.len(),
{
    if artifacts.len() == 0 {
        0
    } else {
        bytes_of(artifacts.drop_last()) + artifacts.last().size_bytes
    }
}

/// The size of the artifacts of all valid attempts.
pub open spec fn captured_bytes(attempts: Seq<TrialResult>) -> int
    decreases attempts.len(),
{
    if attempts.len() == 0 {
        0
    } else {
        captured_bytes(attempts.drop_last()) + if attempts.last().valid {
            bytes_of(attempts.last().artifacts@)
        } else {
            0
        }
    }
}

/// How many artifacts all valid attempts left.
pub open spec fn captured_count(attempts: Seq<TrialResult>) -> int
    decreases attempts.len(),
{
    if attempts.len() == 0 {
        0
    } else {
        captured_count(attempts.drop_last()) + if attempts.last().valid {
            attempts.last().artifacts@.len() as int
        } else {
            0
        }
    }
}

/// Why no manifest can be made, if none can.
pub open spec fn manifest_failure(
    groups: Seq<RetentionGroup>,
    attempts: Seq<TrialResult>,
    spreads: Seq<GroupSpread>,
) -> Option<RetentionError> {
    let n = groups.len() as int;
    if groups_failure(groups, attempts, spreads, n) is Some {
        groups_failure(groups, attempts, spreads, n)
    } else if kept_bytes(groups, attempts, spreads, n) > u64::MAX || captured_bytes(attempts)
        > u64::MAX {
        Some(RetentionError::BytesOverflow)
    } else if 3 * n > captured_count(attempts) || kept_bytes(groups, attempts, spreads, n)
        > captured_bytes(attempts) {
        Some(RetentionError::ExceedsCaptured)
    } else {
        None
    }
}

/// The retained artifact is the one that a group's representative left.
pub open spec fn is_selection(
    retained: RetainedArtifact,
    group: RetentionGroup,
    attempts: Seq<TrialResult>,
    spread: GroupSpread,
    diagnostic: Diagnostic,
    kind: ArtifactKind,
) -> bool {
    let spread = spread_of(spread, diagnostic);
    let values = group_values(group, attempts, diagnostic);
    let k = member(group, attempts, spread);
    let result = attempts[group.results@[k] as int];
    &&& retained.workload_id@ == group.workload_id@
    &&& retained.engine == group.engine
    &&& retained.trial_id@ == result.trial_id@
    &&& retained.attempt == result.attempt
    &&& retained.representative_metric@ == diagnostic_metric(diagnostic)
    &&& retained.median_value == median_of(values, spread.mean)
    &&& retained.observed_value == values[k]
    &&& picked(group, attempts, spread, kind) is Some
    &&& same_artifact(retained.artifact, picked(group, attempts, spread, kind)->0)
}

/// The retained artifacts are those of a group, in the order of their kinds.
pub open spec fn are_selections(
    selections: Seq<RetainedArtifact>,
    g: int,
    group: RetentionGroup,
    attempts: Seq<TrialResult>,
    spread: GroupSpread,
) -> bool {
    &&& is_selection(
        selections[3 * g],
        group,
        attempts,
        spread,
        Diagnostic::Cpu,
        ArtifactKind::CpuProfile,
    )
    &&& is_selection(
        selections[3 * g + 1],
        group,
        attempts,
        spread,
        Diagnostic::Heap,
        ArtifactKind::JsHeap,
    )
    &&& is_selection(
        selections[3 * g + 2],
        group,
        attempts,
        spread,
        Diagnostic::Cpu,
        ArtifactKind::Flamegraph,
    )
}

/// The manifest keeps the artifacts of every group's representatives, and counts what it keeps and
/// what it does not.
pub open spec fn is_manifest(
    manifest: ArtifactRetention,
    set_id: Seq<char>,
    groups: Seq<RetentionGroup>,
    attempts: Seq<TrialResult>,
    spreads: Seq<GroupSpread>,
) -> bool {
    let n = groups.len() as int;
    &&& manifest.schema_version == SCHEMA_VERSION
    &&& manifest.policy@ == "representative_per_workload_engine_v1"@
    &&& manifest.measurement_set_id@ == set_id
    &&& manifest.selections@.len() == 3 * n
    &&& forall|g: int|
        0 <= g < n ==> are_selections(
            manifest.selections@,
            g,
            #[trigger] groups[g],
            attempts,
            spreads[g],
        )
    &&& manifest.summary.policy@ == "representative_per_workload_engine_v1"@
    &&& manifest.summary.retained_artifacts == 3 * n
    &&& manifest.summary.discarded_artifacts == captured_count(attempts) - 3 * n
    &&& manifest.summary.retained_bytes == kept_bytes(groups, attempts, spreads, n)
    &&& manifest.summary.discarded_bytes == captured_bytes(attempts) - kept_bytes(
        groups,
        attempts,
        spreads,
        n,
    )
}

/// There is arithmetic on the values of every group.
pub open spec fn measured(
    groups: Seq<RetentionGroup>,
    attempts: Seq<TrialResult>,
    spreads: Seq<GroupSpread>,
) -> bool {
    &&& spreads.len() == groups.len()
    &&& forall|g: int|
        0 <= g < groups.len() ==> {
            &&& (#[trigger] groups[g]).results@.len() > 0
            &&& places_valid(groups[g], attempts)
            &&& spreads[g].cpu.distances@.len() == groups[g].results@.len()
            &&& spreads[g].heap.distances@.len() == groups[g].results@.len()
        }
}

/// Every group that the results fall into has a result, and its results lie among the attempts: its
/// values have a median.
pub proof fn every_group_has_results(
    groups: Seq<RetentionGroup>,
    trials: Seq<ScheduledTrial>,
    attempts: Seq<TrialResult>,
    g: int,
)
    requires
        is_grouping(groups, trials, attempts),
        0 <= g < groups.len(),
    ensures
        groups[g].results@.len() > 0,
        places_valid(groups[g], attempts),
{
    assert(is_group(groups[g], trials, attempts));
}

fn find_artifact(artifacts: &Vec<ArtifactEvidence>, kind: ArtifactKind) -> (r: Option<
    &ArtifactEvidence,
>)
    ensures
        match artifact_with(artifacts@, kind) {
            Some(artifact) => r == Some(&artifact),
            None => r is None,
        },
{
    let mut i: usize = 0;
    assert(artifacts@.skip(0) == artifacts@);
    while i < artifacts.len()
        invariant
            i <= artifacts@.len(),
            artifact_with(artifacts@, kind) == artifact_with(artifacts@.skip(i as int), kind),
        decreases artifacts@.len() - i,
    {
        assert(artifacts@.skip(i as int)[0] == artifacts@[i as int]);
        assert(artifacts@.skip(i as int).drop_first() == artifacts@.skip(i + 1));
        if artifacts[i].kind == kind {
            return Some(&artifacts[i]);
        }
        i += 1;
    }
    None
}

fn copy_artifact(artifact: &ArtifactEvidence) -> (r: ArtifactEvidence)
    ensures
        same_artifact(r, *artifact),
{
    ArtifactEvidence {
        kind: artifact.kind,
        path: artifact.path.clone(),
        size_bytes: artifact.size_bytes,
        sha256: artifact.sha256.clone(),
        format: artifact.format.clone(),
    }
}

/// Chooses an artifact of a group by a measurement.
fn select(
    group: &RetentionGroup,
    attempts: &Vec<TrialResult>,
    spread: &GroupSpread,
    g: usize,
    diagnostic: Diagnostic,
    kind: ArtifactKind,
) -> (r: Result<RetainedArtifact, RetentionError>)
    requires
        group.results@.len() > 0,
        places_valid(*group, attempts@),
        spread_of(*spread, diagnostic).distances@.len() == group.results@.len(),
    ensures
        match pick_failure(*group, attempts@, *spread, g as int, diagnostic, kind) {
            Some(error) => r == Err::<RetainedArtifact, RetentionError>(error),
            None => r is Ok && is_selection(
                r->Ok_0,
                *group,
                attempts@,
                *spread,
                diagnostic,
                kind,
            ),
        },
{
    let values = match group.values(attempts, diagnostic) {
        Err(member) => {
            return Err(RetentionError::NoMetric { group: g, member, diagnostic });
        },
        Ok(values) => values,
    };
    let arithmetic = match diagnostic {
        Diagnostic::Cpu => &spread.cpu,
        Diagnostic::Heap => &spread.heap,
    };
    let k: usize = representative(group, attempts, &arithmetic.distances);
    proof {
        representative_is_unique(
            *group,
            attempts@,
            arithmetic.distances@,
            k as int,
            member(*group, attempts@, *arithmetic),
        );
    }
    let result = &attempts[group.results[k]];
    match find_artifact(&result.artifacts, kind) {
        None => Err(RetentionError::NoArtifact { group: g, member: k, kind }),
        Some(artifact) => Ok(
            RetainedArtifact {
                workload_id: group.workload_id.clone(),
                engine: group.engine,
                trial_id: result.trial_id.clone(),
                attempt: result.attempt,
                representative_metric: diagnostic.metric().to_owned(),
                median_value: median(&values, arithmetic.mean),
                observed_value: values[k],
                artifact: copy_artifact(artifact),
            },
        ),
    }
}

proof fn lemma_groups_failure(
    groups: Seq<RetentionGroup>,
    attempts: Seq<TrialResult>,
    spreads: Seq<GroupSpread>,
    n: int,
    m: int,
)
    requires
        0 <= n <= m,
        groups_failure(groups, attempts, spreads, n) is Some,
    ensures
        groups_failure(groups, attempts, spreads, m) == groups_failure(
            groups,
            attempts,
            spreads,
            n,
        ),
    decreases m - n,
{
    if n < m {
        lemma_groups_failure(groups, attempts, spreads, n, m - 1);
    }
}

/// The artifacts that are kept of a group.
fn select_group(
    group: &RetentionGroup,
    attempts: &Vec<TrialResult>,
    spread: &GroupSpread,
    g: usize,
) -> (r: Result<(RetainedArtifact, RetainedArtifact, RetainedArtifact), RetentionError>)
    requires
        group.results@.len() > 0,
        places_valid(*group, attempts@),
        spread.cpu.distances@.len() == group.results@.len(),
        spread.heap.distances@.len() == group.results@.len(),
    ensures
        match group_failure(*group, attempts@, *spread, g as int) {
            Some(error) => r is Err && r->Err_0 == error,
            None => {
                &&& r is Ok
                &&& is_selection(
                    r->Ok_0.0,
                    *group,
                    attempts@,
                    *spread,
                    Diagnostic::Cpu,
                    ArtifactKind::CpuProfile,
                )
                &&& is_selection(
                    r->Ok_0.1,
                    *group,
                    attempts@,
                    *spread,
                    Diagnostic::Heap,
                    ArtifactKind::JsHeap,
                )
                &&& is_selection(
                    r->Ok_0.2,
                    *group,
                    attempts@,
                    *spread,
                    Diagnostic::Cpu,
                    ArtifactKind::Flamegraph,
                )
            },
        },
{
    let profile = match select(
        group,
        attempts,
        spread,
        g,
        Diagnostic::Cpu,
        ArtifactKind::CpuProfile,
    ) {
        Ok(retained) => retained,
        Err(error) => {
            return Err(error);
        },
    };
    let flamegraph = match select(
        group,
        attempts,
        spread,
        g,
        Diagnostic::Cpu,
        ArtifactKind::Flamegraph,
    ) {
        Ok(retained) => retained,
        Err(error) => {
            return Err(error);
        },
    };
    match select(group, attempts, spread, g, Diagnostic::Heap, ArtifactKind::JsHeap) {
        Ok(heap) => Ok((profile, heap, flamegraph)),
        Err(error) => Err(error),
    }
}

/// The sum of some sizes, where it can be written in 64 bits.
fn add_bytes(total: Option<u64>, size: u64) -> (r: Option<u64>)
    ensures
        r == match total {
            Some(total) => if total + size <= u64::MAX {
                Some((total + size) as u64)
            } else {
                None
            },
            None => None,
        },
{
    match total {
        Some(total) => total.checked_add(size),
        None => None,
    }
}

/// The value is a sum, where it can be written in 64 bits.
pub open spec fn is_total(value: Option<u64>, sum: int) -> bool {
    match value {
        Some(total) => total == sum,
        None => sum > u64::MAX,
    }
}

fn artifacts_size(artifacts: &Vec<ArtifactEvidence>) -> (r: Option<u64>)
    ensures
        is_total(r, bytes_of(artifacts@)),
        bytes_of(artifacts@) >= 0,
{
    let mut total: Option<u64> = Some(0);
    let mut i: usize = 0;
    assert(artifacts@.take(0) == Seq::<ArtifactEvidence>::empty());
    while i < artifacts.len()
        invariant
            i <= artifacts@.len(),
            is_total(total, bytes_of(artifacts@.take(i as int))),
            bytes_of(artifacts@.take(i as int)) >= 0,
        decreases artifacts@.len() - i,
    {
        assert(artifacts@.take(i + 1).drop_last() == artifacts@.take(i as int));
        total = add_bytes(total, artifacts[i].size_bytes);
        i += 1;
    }
    assert(artifacts@.take(artifacts@.len() as int) == artifacts@);
    total
}

proof fn lemma_captured_count(attempts: Seq<TrialResult>, n: int)
    requires
        0 <= n <= attempts.len(),
    ensures
        0 <= captured_count(attempts.take(n)) <= captured_count(attempts),
    decreases attempts.len(),
{
    if attempts.len() > 0 {
        if n == attempts.len() {
            assert(attempts.take(n) == attempts);
            lemma_captured_count(attempts.drop_last(), n - 1);
        } else {
            assert(attempts.drop_last().take(n) == attempts.take(n));
            lemma_captured_count(attempts.drop_last(), n);
        }
    } else {
        assert(attempts.take(n) == attempts);
    }
}

/// How many artifacts all valid attempts left, and their size.
fn captured(attempts: &Vec<TrialResult>) -> (r: (usize, Option<u64>))
    requires
        captured_count(attempts@) <= usize::MAX,
    ensures
        r.0 == captured_count(attempts@),
        is_total(r.1, captured_bytes(attempts@)),
{
    let mut count: usize = 0;
    let mut total: Option<u64> = Some(0);
    let mut i: usize = 0;
    assert(attempts@.take(0) == Seq::<TrialResult>::empty());
    while i < attempts.len()
        invariant
            i <= attempts@.len(),
            captured_count(attempts@) <= usize::MAX,
            count == captured_count(attempts@.take(i as int)),
            is_total(total, captured_bytes(attempts@.take(i as int))),
            captured_bytes(attempts@.take(i as int)) >= 0,
        decreases attempts@.len() - i,
    {
        assert(attempts@.take(i + 1).drop_last() == attempts@.take(i as int));
        proof {
            lemma_captured_count(attempts@, i + 1);
        }
        if attempts[i].valid {
            count = count + attempts[i].artifacts.len();
            let size = artifacts_size(&attempts[i].artifacts);
            total = match size {
                Some(size) => add_bytes(total, size),
                None => None,
            };
        }
        i += 1;
    }
    assert(attempts@.take(attempts@.len() as int) == attempts@);
    (count, total)
}

/// Chooses the artifacts that are kept of a measurement: of every workload and engine the CPU
/// profile, the flamegraph, and the heap of the results nearest to the median.
pub fn build_manifest_from(
    measurement: &MeasurementSchedule,
    attempts: &Vec<TrialResult>,
    groups: &Vec<RetentionGroup>,
    spreads: &Vec<GroupSpread>,
) -> (r: Result<ArtifactRetention, RetentionError>)
    requires
        measured(groups@, attempts@, spreads@),
        captured_count(attempts@) <= usize::MAX,
    ensures
        match manifest_failure(groups@, attempts@, spreads@) {
            Some(error) => r == Err::<ArtifactRetention, RetentionError>(error),
            None => r is Ok && is_manifest(
                r->Ok_0,
                measurement.measurement_set_id@,
                groups@,
                attempts@,
                spreads@,
            ),
        },
{
    let mut selections: Vec<RetainedArtifact> = Vec::new();
    let mut kept: Option<u64> = Some(0);
    let mut g: usize = 0;
    while g < groups.len()
        invariant
            g <= groups@.len(),
            measured(groups@, attempts@, spreads@),
            groups_failure(groups@, attempts@, spreads@, g as int) is None,
            selections@.len() == 3 * g,
            forall|h: int|
                0 <= h < g ==> are_selections(
                    selections@,
                    h,
                    #[trigger] groups@[h],
                    attempts@,
                    spreads@[h],
                ),
            is_total(kept, kept_bytes(groups@, attempts@, spreads@, g as int)),
            kept_bytes(groups@, attempts@, spreads@, g as int) >= 0,
        decreases groups@.len() - g,
    {
        let ghost before = selections@;
        match select_group(&groups[g], attempts, &spreads[g], g) {
            Err(error) => {
                proof {
                    lemma_groups_failure(
                        groups@,
                        attempts@,
                        spreads@,
                        g + 1,
                        groups@.len() as int,
                    );
                }
                return Err(error);
            },
            Ok((profile, heap, flamegraph)) => {
                kept = add_bytes(kept, profile.artifact.size_bytes);
                kept = add_bytes(kept, heap.artifact.size_bytes);
                kept = add_bytes(kept, flamegraph.artifact.size_bytes);
                selections.push(profile);
                selections.push(heap);
                selections.push(flamegraph);
                proof {
                    assert forall|h: int| 0 <= h < g + 1 implies are_selections(
                        selections@,
                        h,
                        #[trigger] groups@[h],
                        attempts@,
                        spreads@[h],
                    ) by {
                        if h < g {
                            assert(are_selections(
                                before,
                                h,
                                groups@[h],
                                attempts@,
                                spreads@[h],
                            ));
                            assert(selections@[3 * h] == before[3 * h]);
                            assert(selections@[3 * h + 1] == before[3 * h + 1]);
                            assert(selections@[3 * h + 2] == before[3 * h + 2]);
                        }
                    }
                }
            },
        }
        g += 1;
    }
    let retained_artifacts: usize = selections.len();
    let (total_artifacts, captured_size) = captured(attempts);
    let retained_bytes: u64 = match kept {
        Some(kept) => kept,
        None => {
            return Err(RetentionError::BytesOverflow);
        },
    };
    let total_bytes: u64 = match captured_size {
        Some(size) => size,
        None => {
            return Err(RetentionError::BytesOverflow);
        },
    };
    if retained_artifacts > total_artifacts || retained_bytes > total_bytes {
        return Err(RetentionError::ExceedsCaptured);
    }
    Ok(
        ArtifactRetention {
            schema_version: SCHEMA_VERSION,
            policy: "representative_per_workload_engine_v1".to_owned(),
            measurement_set_id: measurement.measurement_set_id.clone(),
            selections,
            summary: RetentionSummary {
                policy: "representative_per_workload_engine_v1".to_owned(),
                retained_artifacts,
                discarded_artifacts: total_artifacts - retained_artifacts,
                retained_bytes,
                discarded_bytes: total_bytes - retained_bytes,
            },
        },
    )
}

/// What is kept and what is not together make up what was captured.
pub proof fn kept_and_discarded_make_up_the_captured(
    manifest: ArtifactRetention,
    set_id: Seq<char>,
    groups: Seq<RetentionGroup>,
    attempts: Seq<TrialResult>,
    spreads: Seq<GroupSpread>,
)
    requires
        is_manifest(manifest, set_id, groups, attempts, spreads),
    ensures
        manifest.summary.retained_artifacts + manifest.summary.discarded_artifacts
            == captured_count(attempts),
        manifest.summary.retained_bytes + manifest.summary.discarded_bytes == captured_bytes(
            attempts,
        ),
        manifest.summary.retained_artifacts == manifest.selections@.len(),
{
}

/// Of every workload and engine that has a result, a CPU profile, a heap, and a flamegraph are kept.
pub proof fn every_workload_and_engine_keeps_its_artifacts(
    manifest: ArtifactRetention,
    set_id: Seq<char>,
    groups: Seq<RetentionGroup>,
    trials: Seq<ScheduledTrial>,
    attempts: Seq<TrialResult>,
    spreads: Seq<GroupSpread>,
    i: int,
    kind: ArtifactKind,
)
    requires
        is_grouping(groups, trials, attempts),
        is_manifest(manifest, set_id, groups, attempts, spreads),
        0 <= i < trials.len(),
        measurement::completed(attempts, trials[i].trial_id@),
    ensures
        exists|s: int|
            0 <= s < manifest.selections@.len() && (
            #[trigger] manifest.selections@[s]).workload_id@ == trials[i].workload_id@
                && manifest.selections@[s].engine == trials[i].engine
                && manifest.selections@[s].artifact.kind == kind,
{
    assert(has_group(groups, trials[i].workload_id@, trials[i].engine));
    let g = choose|g: int|
        0 <= g < groups.len() && (#[trigger] groups[g]).workload_id@ == trials[i].workload_id@
            && groups[g].engine == trials[i].engine;
    assert(are_selections(manifest.selections@, g, groups[g], attempts, spreads[g]));
    let at = match kind {
        ArtifactKind::CpuProfile => 3 * g,
        ArtifactKind::JsHeap => 3 * g + 1,
        ArtifactKind::Flamegraph => 3 * g + 2,
    };
    let artifacts = attempts[groups[g].results@[member(
        groups[g],
        attempts,
        spread_of(
            spreads[g],
            if kind == ArtifactKind::JsHeap {
                Diagnostic::Heap
            } else {
                Diagnostic::Cpu
            },
        ),
    )] as int].artifacts@;
    lemma_artifact_kind(artifacts, kind);
    assert(manifest.selections@[at].artifact.kind == kind);
}

proof fn lemma_artifact_kind(artifacts: Seq<ArtifactEvidence>, kind: ArtifactKind)
    ensures
        artifact_with(artifacts, kind) is Some ==> artifact_with(artifacts, kind)->0.kind == kind,
    decreases artifacts.len(),
{
    if artifacts.len() > 0 && artifacts[0].kind != kind {
        lemma_artifact_kind(artifacts.drop_first(), kind);
    }
}

/// The place of a kind in the order of kinds.
pub open spec fn kind_place(kind: ArtifactKind) -> int {
    match kind {
        ArtifactKind::CpuProfile => 0,
        ArtifactKind::JsHeap => 1,
        ArtifactKind::Flamegraph => 2,
    }
}

/// One retained artifact comes before another: by workload, then by engine, then by kind.
pub open spec fn retained_before(a: RetainedArtifact, b: RetainedArtifact) -> bool {
    ||| text::precedes(a.workload_id@, b.workload_id@)
    ||| (a.workload_id@ == b.workload_id@ && engine_place(a.engine) < engine_place(b.engine))
    ||| (a.workload_id@ == b.workload_id@ && a.engine == b.engine && kind_place(a.artifact.kind)
        < kind_place(b.artifact.kind))
}

/// The retained artifacts are listed by workload, then by engine, then by kind, each once.
pub proof fn retained_artifacts_are_in_order(
    manifest: ArtifactRetention,
    set_id: Seq<char>,
    groups: Seq<RetentionGroup>,
    trials: Seq<ScheduledTrial>,
    attempts: Seq<TrialResult>,
    spreads: Seq<GroupSpread>,
    s: int,
    t: int,
)
    requires
        is_grouping(groups, trials, attempts),
        is_manifest(manifest, set_id, groups, attempts, spreads),
        0 <= s < t < manifest.selections@.len(),
    ensures
        retained_before(manifest.selections@[s], manifest.selections@[t]),
{
    let g = s / 3;
    let h = t / 3;
    lemma_selection_of_group(manifest, set_id, groups, attempts, spreads, s);
    lemma_selection_of_group(manifest, set_id, groups, attempts, spreads, t);
    if g < h {
        assert(group_before(groups[g], groups[h]));
    }
}

proof fn lemma_selection_of_group(
    manifest: ArtifactRetention,
    set_id: Seq<char>,
    groups: Seq<RetentionGroup>,
    attempts: Seq<TrialResult>,
    spreads: Seq<GroupSpread>,
    s: int,
)
    requires
        is_manifest(manifest, set_id, groups, attempts, spreads),
        0 <= s < manifest.selections@.len(),
    ensures
        0 <= s / 3 < groups.len(),
        manifest.selections@[s].workload_id@ == groups[s / 3].workload_id@,
        manifest.selections@[s].engine == groups[s / 3].engine,
        kind_place(manifest.selections@[s].artifact.kind) == s % 3,
{
    let g = s / 3;
    assert(are_selections(manifest.selections@, g, groups[g], attempts, spreads[g]));
    let kind = if s % 3 == 0 {
        ArtifactKind::CpuProfile
    } else if s % 3 == 1 {
        ArtifactKind::JsHeap
    } else {
        ArtifactKind::Flamegraph
    };
    let diagnostic = if s % 3 == 1 {
        Diagnostic::Heap
    } else {
        Diagnostic::Cpu
    };
    let k = member(groups[g], attempts, spread_of(spreads[g], diagnostic));
    lemma_artifact_kind(attempts[groups[g].results@[k] as int].artifacts@, kind);
    assert(s == 3 * g + s % 3);
}

// Stored manifests.

/// The manifest has the version and the policy that are supported.
pub open spec fn supported(manifest: ArtifactRetention) -> bool {
    manifest.schema_version == SCHEMA_VERSION && manifest.policy@
        == "representative_per_workload_engine_v1"@
}

/// Tells whether a stored manifest has the version and the policy that are supported.
pub fn is_supported(manifest: &ArtifactRetention) -> (r: bool)
    ensures
        r == supported(*manifest),
{
    manifest.schema_version == SCHEMA_VERSION && text::same(
        &manifest.policy,
        "representative_per_workload_engine_v1",
    )
}

/// In what a stored manifest differs from one made anew.
#[derive(Clone, Copy, Debug, Eq, PartialEq, Structural)]
pub enum Mismatch {
    Header,
    Totals,
    Count,
    /// The representative with this index is another one.
    Representative(usize),
    /// The measurements of the representative with this index are others.
    Values(usize),
}

/// Two summaries say the same.
pub open spec fn same_summary(a: RetentionSummary, b: RetentionSummary) -> bool {
    &&& a.policy@ == b.policy@
    &&& a.retained_artifacts == b.retained_artifacts
    &&& a.discarded_artifacts == b.discarded_artifacts
    &&& a.retained_bytes == b.retained_bytes
    &&& a.discarded_bytes == b.discarded_bytes
}

/// Two retained artifacts are the same, but for their measurements.
pub open spec fn same_retained(a: RetainedArtifact, b: RetainedArtifact) -> bool {
    &&& a.workload_id@ == b.workload_id@
    &&& a.engine == b.engine
    &&& a.trial_id@ == b.trial_id@
    &&& a.attempt == b.attempt
    &&& a.representative_metric@ == b.representative_metric@
    &&& same_artifact(a.artifact, b.artifact)
}

/// In what the first `n` retained artifacts differ, if they do.
pub open spec fn selections_mismatch(
    stored: Seq<RetainedArtifact>,
    rebuilt: Seq<RetainedArtifact>,
    close: Seq<bool>,
    n: int,
) -> Option<Mismatch>
    decreases n,
{
    if n <= 0 {
        None
    } else if selections_mismatch(stored, rebuilt, close, n - 1) is Some {
        selections_mismatch(stored, rebuilt, close, n - 1)
    } else if !same_retained(stored[n - 1], rebuilt[n - 1]) {
        Some(Mismatch::Representative((n - 1) as usize))
    } else if !close[n - 1] {
        Some(Mismatch::Values((n - 1) as usize))
    } else {
        None
    }
}

/// In what a stored manifest differs from one made anew, if it does.
pub open spec fn mismatch(stored: ArtifactRetention, rebuilt: ArtifactRetention, close: Seq<bool>) -> Option<
    Mismatch,
> {
    if stored.schema_version != rebuilt.schema_version || stored.policy@ != rebuilt.policy@
        || stored.measurement_set_id@ != rebuilt.measurement_set_id@ {
        Some(Mismatch::Header)
    } else if !same_summary(stored.summary, rebuilt.summary) {
        Some(Mismatch::Totals)
    } else if stored.selections@.len() != rebuilt.selections@.len() {
        Some(Mismatch::Count)
    } else {
        selections_mismatch(
            stored.selections@,
            rebuilt.selections@,
            close,
            rebuilt.selections@.len() as int,
        )
    }
}

proof fn lemma_selections_mismatch(
    stored: Seq<RetainedArtifact>,
    rebuilt: Seq<RetainedArtifact>,
    close: Seq<bool>,
    n: int,
    m: int,
)
    requires
        0 <= n <= m,
        selections_mismatch(stored, rebuilt, close, n) is Some,
    ensures
        selections_mismatch(stored, rebuilt, close, m) == selections_mismatch(
            stored,
            rebuilt,
            close,
            n,
        ),
    decreases m - n,
{
    if n < m {
        lemma_selections_mismatch(stored, rebuilt, close, n, m - 1);
    }
}

fn retained_alike(a: &RetainedArtifact, b: &RetainedArtifact) -> (r: bool)
    ensures
        r == same_retained(*a, *b),
{
    a.engine == b.engine && a.attempt == b.attempt && a.artifact.kind == b.artifact.kind
        && a.artifact.size_bytes == b.artifact.size_bytes && text::same(
        &a.workload_id,
        &b.workload_id,
    ) && text::same(&a.trial_id, &b.trial_id) && text::same(
        &a.representative_metric,
        &b.representative_metric,
    ) && text::same(&a.artifact.path, &b.artifact.path) && text::same(
        &a.artifact.sha256,
        &b.artifact.sha256,
    ) && text::same(&a.artifact.format, &b.artifact.format)
}

/// In what a stored manifest differs from one made anew; `close` says of each retained artifact
/// whether its measurements are nearly the same.
pub fn manifest_mismatch(
    stored: &ArtifactRetention,
    rebuilt: &ArtifactRetention,
    close: &Vec<bool>,
) -> (r: Option<Mismatch>)
    requires
        stored.selections@.len() == rebuilt.selections@.len() ==> close@.len()
            == rebuilt.selections@.len(),
    ensures
        r == mismatch(*stored, *rebuilt, close@),
{
    if stored.schema_version != rebuilt.schema_version || !text::same(
        &stored.policy,
        &rebuilt.policy,
    ) || !text::same(&stored.measurement_set_id, &rebuilt.measurement_set_id) {
        return Some(Mismatch::Header);
    }
    let (a, b) = (&stored.summary, &rebuilt.summary);
    if !text::same(&a.policy, &b.policy) || a.retained_artifacts != b.retained_artifacts
        || a.discarded_artifacts != b.discarded_artifacts || a.retained_bytes != b.retained_bytes
        || a.discarded_bytes != b.discarded_bytes {
        return Some(Mismatch::Totals);
    }
    if stored.selections.len() != rebuilt.selections.len() {
        return Some(Mismatch::Count);
    }
    let mut i: usize = 0;
    while i < rebuilt.selections.len()
        invariant
            i <= rebuilt.selections@.len(),
            stored.selections@.len() == rebuilt.selections@.len(),
            close@.len() == rebuilt.selections@.len(),
            selections_mismatch(
                stored.selections@,
                rebuilt.selections@,
                close@,
                i as int,
            ) is None,
            mismatch(*stored, *rebuilt, close@) == selections_mismatch(
                stored.selections@,
                rebuilt.selections@,
                close@,
                rebuilt.selections@.len() as int,
            ),
        decreases rebuilt.selections@.len() - i,
    {
        proof {
            if selections_mismatch(
                stored.selections@,
                rebuilt.selections@,
                close@,
                i + 1,
            ) is Some {
                lemma_selections_mismatch(
                    stored.selections@,
                    rebuilt.selections@,
                    close@,
                    i + 1,
                    rebuilt.selections@.len() as int,
                );
            }
        }
        if !retained_alike(&stored.selections[i], &rebuilt.selections[i]) {
            return Some(Mismatch::Representative(i));
        }
        if !close[i] {
            return Some(Mismatch::Values(i));
        }
        i += 1;
    }
    None
}

/// What is said of a mismatch; representatives are counted from one.
pub open spec fn mismatch_text(mismatch: Mismatch) -> Seq<char> {
    match mismatch {
        Mismatch::Header => "header changed"@,
        Mismatch::Totals => "artifact totals changed"@,
        Mismatch::Count => "representative count changed"@,
        Mismatch::Representative(i) => "representative "@ + text::decimal((i + 1) as nat)
            + " changed"@,
        Mismatch::Values(i) => "representative "@ + text::decimal((i + 1) as nat)
            + " metric values changed"@,
    }
}

impl Mismatch {
    /// What is said of the mismatch.
    pub fn message(&self) -> (r: String)
        requires
            self is Representative ==> self->Representative_0 < usize::MAX,
            self is Values ==> self->Values_0 < usize::MAX,
        ensures
            r@ == mismatch_text(*self),
    {
        match self {
            Mismatch::Header => "header changed".to_owned(),
            Mismatch::Totals => "artifact totals changed".to_owned(),
            Mismatch::Count => "representative count changed".to_owned(),
            Mismatch::Representative(i) => {
                let mut out = "representative ".to_owned();
                out.append(text::decimal_text(*i as u64 + 1).as_str());
                out.append(" changed");
                out
            },
            Mismatch::Values(i) => {
                let mut out = "representative ".to_owned();
                out.append(text::decimal_text(*i as u64 + 1).as_str());
                out.append(" metric values changed");
                out
            },
        }
    }
}

/// The artifacts that a manifest keeps.
pub open spec fn kept_artifacts(manifest: ArtifactRetention) -> Seq<ArtifactEvidence> {
    Seq::new(manifest.selections@.len(), |i: int| manifest.selections@[i].artifact)
}

proof fn lemma_files_failure(
    artifacts: Seq<ArtifactEvidence>,
    files: Seq<ArtifactFile>,
    n: int,
    m: int,
)
    requires
        0 <= n <= m,
        browser_lab::files_failure(artifacts, files, n) is Some,
    ensures
        browser_lab::files_failure(artifacts, files, m) == browser_lab::files_failure(
            artifacts,
            files,
            n,
        ),
    decreases m - n,
{
    if n < m {
        lemma_files_failure(artifacts, files, n, m - 1);
    }
}

/// Checks the files of the artifacts that a manifest keeps; an error says which of them is wrong.
pub fn validate_retained_files(manifest: &ArtifactRetention, files: &Vec<ArtifactFile>) -> (r:
    Result<(), EvidenceError>)
    requires
        files@.len() == manifest.selections@.len(),
    ensures
        match browser_lab::files_failure(
            kept_artifacts(*manifest),
            files@,
            files@.len() as int,
        ) {
            Some(error) => r == Err::<(), EvidenceError>(error),
            None => r == Ok::<(), EvidenceError>(()),
        },
{
    let ghost artifacts = kept_artifacts(*manifest);
    let mut i: usize = 0;
    while i < files.len()
        invariant
            i <= files@.len(),
            files@.len() == manifest.selections@.len(),
            artifacts == kept_artifacts(*manifest),
            browser_lab::files_failure(artifacts, files@, i as int) is None,
        decreases files@.len() - i,
    {
        proof {
            if browser_lab::files_failure(artifacts, files@, i + 1) is Some {
                lemma_files_failure(artifacts, files@, i + 1, files@.len() as int);
            }
        }
        let artifact = &manifest.selections[i].artifact;
        let file = &files[i];
        if !file.exists {
            return Err(EvidenceError::ArtifactMissing(i));
        }
        if !file.contained {
            return Err(EvidenceError::ArtifactEscaped(i));
        }
        if file.size_bytes == 0 || file.size_bytes != artifact.size_bytes {
            return Err(EvidenceError::ArtifactSize(i));
        }
        if !text::same(&file.sha256, &artifact.sha256) {
            return Err(EvidenceError::ArtifactHash(i));
        }
        i += 1;
    }
    Ok(())
}

impl RetainedArtifact {
    /// Says that the artifact is not what it should be.
    pub fn refusal(&self) -> (r: String)
        ensures
            r@ == "retained artifact "@ + self.artifact.path@ + " for trial "@ + self.trial_id@
                + " is invalid"@,
    {
        let mut out = "retained artifact ".to_owned();
        out.append(&self.artifact.path);
        out.append(" for trial ");
        out.append(&self.trial_id);
        out.append(" is invalid");
        out
    }
}

/// Why a retention cannot be settled, or a stored one is not accepted.
#[derive(Clone, Copy, Debug, Eq, PartialEq, Structural)]
pub enum SettleError {
    /// The stored manifest is not the one that the trial evidence gives.
    Mismatch(Mismatch),
    /// The file of a kept artifact is not what it should be.
    File(EvidenceError),
}

/// Checks a stored manifest against the one that the trial evidence gives, and the files that it
/// keeps.
pub fn validate(
    stored: &ArtifactRetention,
    rebuilt: &ArtifactRetention,
    close: &Vec<bool>,
    files: &Vec<ArtifactFile>,
) -> (r: Result<(), SettleError>)
    requires
        stored.selections@.len() == rebuilt.selections@.len() ==> close@.len()
            == rebuilt.selections@.len(),
        files@.len() == stored.selections@.len(),
    ensures
        r == match mismatch(*stored, *rebuilt, close@) {
            Some(mismatch) => Err::<(), SettleError>(SettleError::Mismatch(mismatch)),
            None => match browser_lab::files_failure(
                kept_artifacts(*stored),
                files@,
                files@.len() as int,
            ) {
                Some(error) => Err::<(), SettleError>(SettleError::File(error)),
                None => Ok::<(), SettleError>(()),
            },
        },
{
    if let Some(mismatch) = manifest_mismatch(stored, rebuilt, close) {
        return Err(SettleError::Mismatch(mismatch));
    }
    match validate_retained_files(stored, files) {
        Err(error) => Err(SettleError::File(error)),
        Ok(_) => Ok(()),
    }
}

/// Whether a manifest is still to be written before everything else is discarded.
#[derive(Clone, Copy, Debug, Eq, PartialEq, Structural)]
pub enum Settlement {
    Write,
    Stored,
}

/// Settles what is kept: where a manifest is stored already it has to be the right one; where none
/// is, the files that it keeps have to be right, and it is written.
pub fn settle(
    stored: &Option<ArtifactRetention>,
    expected: &ArtifactRetention,
    close: &Vec<bool>,
    files: &Vec<ArtifactFile>,
) -> (r: Result<Settlement, SettleError>)
    requires
        stored is Some && stored->0.selections@.len() == expected.selections@.len() ==> close@.len()
            == expected.selections@.len(),
        stored is None ==> files@.len() == expected.selections@.len(),
    ensures
        r == match stored {
            Some(stored) => match mismatch(*stored, *expected, close@) {
                Some(mismatch) => Err::<Settlement, SettleError>(SettleError::Mismatch(mismatch)),
                None => Ok::<Settlement, SettleError>(Settlement::Stored),
            },
            None => match browser_lab::files_failure(
                kept_artifacts(*expected),
                files@,
                files@.len() as int,
            ) {
                Some(error) => Err::<Settlement, SettleError>(SettleError::File(error)),
                None => Ok::<Settlement, SettleError>(Settlement::Write),
            },
        },
{
    match stored {
        Some(stored) => match manifest_mismatch(stored, expected, close) {
            Some(mismatch) => Err(SettleError::Mismatch(mismatch)),
            None => Ok(Settlement::Stored),
        },
        None => match validate_retained_files(expected, files) {
            Err(error) => Err(SettleError::File(error)),
            Ok(_) => Ok(Settlement::Write),
        },
    }
}

// Discarding.

/// An entry of the artifact directory.
#[derive(Clone, Copy, Debug, Eq, PartialEq, Structural)]
pub struct ArtifactEntry {
    pub symbolic_link: bool,
    pub directory: bool,
    /// The entry lies below the artifact directory.
    pub contained: bool,
    /// The entry is the file of an artifact that is kept.
    pub retained: bool,
}

/// What is done with an entry of the artifact directory.
#[derive(Clone, Copy, Debug, Eq, PartialEq, Structural)]
pub enum EntryAction {
    /// Go through its entries, and remove it where none is left.
    Descend,
    Remove,
    Keep,
}

/// Why an entry stops the discarding.
#[derive(Clone, Copy, Debug, Eq, PartialEq, Structural)]
pub enum EntryError {
    SymbolicLink,
    Escaped,
}

/// What is done with an entry of the artifact directory: what is kept stays, other files go, and
/// neither links nor what lies elsewhere are touched.
pub fn prune(entry: ArtifactEntry) -> (r: Result<EntryAction, EntryError>)
    ensures
        r == if entry.symbolic_link {
            Err::<EntryAction, EntryError>(EntryError::SymbolicLink)
        } else if !entry.contained {
            Err::<EntryAction, EntryError>(EntryError::Escaped)
        } else if entry.directory {
            Ok::<EntryAction, EntryError>(EntryAction::Descend)
        } else if entry.retained {
            Ok::<EntryAction, EntryError>(EntryAction::Keep)
        } else {
            Ok::<EntryAction, EntryError>(EntryAction::Remove)
        },
{
    if entry.symbolic_link {
        Err(EntryError::SymbolicLink)
    } else if !entry.contained {
        Err(EntryError::Escaped)
    } else if entry.directory {
        Ok(EntryAction::Descend)
    } else if entry.retained {
        Ok(EntryAction::Keep)
    } else {
        Ok(EntryAction::Remove)
    }
}

} // verus!
