//! What holds of every choice of what is kept of a measurement.

use vstd::prelude::*;
use vstd::string::*;

use crate::artifact_retention;
use crate::artifact_retention::{
    ArtifactRetention, Diagnostic, GroupSpread, RetainedArtifact, RetentionGroup,
};
use crate::browser_lab;
use crate::browser_lab::{ArtifactEvidence, ArtifactKind, Engine};
use crate::measurement;
use crate::measurement::TrialResult;
use crate::number;
use crate::number::Number;
use crate::schedule;
use crate::schedule::{ScheduledTrial, TrialPhase};
use crate::text;

verus! {

// Groups.

/// The trial belongs to the case and the engine, ran in the phase, and has a valid result.
pub open spec fn measured_in(
    trials: Seq<ScheduledTrial>,
    attempts: Seq<TrialResult>,
    workload: Seq<char>,
    engine: Engine,
    phase: TrialPhase,
    i: int,
) -> bool {
    &&& 0 <= i < trials.len()
    &&& trials[i].workload_id@ == workload
    &&& trials[i].engine == engine
    &&& trials[i].phase == phase
    &&& exists|k: int|
        0 <= k < attempts.len() && (#[trigger] attempts[k]).valid && attempts[k].trial_id@
            == trials[i].trial_id@
}

/// Some trial of the case and the engine has a valid result in the phase.
pub open spec fn any_in(
    trials: Seq<ScheduledTrial>,
    attempts: Seq<TrialResult>,
    workload: Seq<char>,
    engine: Engine,
    phase: TrialPhase,
) -> bool {
    exists|i: int| measured_in(trials, attempts, workload, engine, phase, i)
}

proof fn lemma_phase(
    trials: Seq<ScheduledTrial>,
    attempts: Seq<TrialResult>,
    workload: Seq<char>,
    engine: Engine,
    phase: TrialPhase,
)
    ensures
        forall|i: int| #[trigger]
            artifact_retention::phase_trials(trials, attempts, workload, engine, phase).contains(i)
                <==> measured_in(trials, attempts, workload, engine, phase, i),
        artifact_retention::phase_trials(trials, attempts, workload, engine, phase).len() > 0
            <==> any_in(trials, attempts, workload, engine, phase),
{
    let wanted = |i: int|
        artifact_retention::has_result(trials[i], attempts, workload, engine) && trials[i].phase
            == phase;
    let found = artifact_retention::phase_trials(trials, attempts, workload, engine, phase);
    assert(found == schedule::chosen(trials.len() as int, wanted));
    schedule::lemma_chosen(trials.len() as int, wanted);
    assert forall|i: int| #[trigger] found.contains(i) <==> measured_in(
        trials,
        attempts,
        workload,
        engine,
        phase,
        i,
    ) by {
        assert(found.contains(i) <==> (0 <= i < trials.len() && wanted(i)));
    }
    if found.len() > 0 {
        assert(found.contains(found[0]));
        assert(measured_in(trials, attempts, workload, engine, phase, found[0]));
    }
    if any_in(trials, attempts, workload, engine, phase) {
        let i = choose|i: int| measured_in(trials, attempts, workload, engine, phase, i);
        assert(found.contains(i));
    }
}

/// What stands for a case and an engine are its final trials with a valid result; only where there are
/// none of them its pilots, and only where there are none of those its warmups.
pub proof fn final_results_stand_for_their_case_first(
    trials: Seq<ScheduledTrial>,
    attempts: Seq<TrialResult>,
    workload: Seq<char>,
    engine: Engine,
    i: int,
)
    ensures
        artifact_retention::preferred(trials, attempts, workload, engine).contains(i)
            <==> measured_in(
            trials,
            attempts,
            workload,
            engine,
            if any_in(trials, attempts, workload, engine, TrialPhase::Final) {
                TrialPhase::Final
            } else if any_in(trials, attempts, workload, engine, TrialPhase::Pilot) {
                TrialPhase::Pilot
            } else {
                TrialPhase::Warmup
            },
            i,
        ),
{
    lemma_phase(trials, attempts, workload, engine, TrialPhase::Final);
    lemma_phase(trials, attempts, workload, engine, TrialPhase::Pilot);
    lemma_phase(trials, attempts, workload, engine, TrialPhase::Warmup);
}

/// The results of a group are valid ones of its own case and engine.
pub proof fn a_group_holds_valid_results_of_its_case(
    groups: Seq<RetentionGroup>,
    trials: Seq<ScheduledTrial>,
    attempts: Seq<TrialResult>,
    g: int,
    k: int,
) -> (i: int)
    requires
        artifact_retention::is_grouping(groups, trials, attempts),
        0 <= g < groups.len(),
        0 <= k < groups[g].results@.len(),
    ensures
        0 <= i < trials.len(),
        trials[i].workload_id@ == groups[g].workload_id@,
        trials[i].engine == groups[g].engine,
        groups[g].results@[k] < attempts.len(),
        attempts[groups[g].results@[k] as int].valid,
        attempts[groups[g].results@[k] as int].trial_id@ == trials[i].trial_id@,
{
    let group = groups[g];
    assert(artifact_retention::is_group(group, trials, attempts));
    let chosen = artifact_retention::preferred(trials, attempts, group.workload_id@, group.engine);
    assert(measurement::completed_at(
        attempts,
        trials[chosen[k]].trial_id@,
        group.results@[k] as int,
    ));
    assert(chosen.contains(chosen[k]));
    final_results_stand_for_their_case_first(
        trials,
        attempts,
        group.workload_id@,
        group.engine,
        chosen[k],
    );
    chosen[k]
}

/// There is a group for every case and engine with a valid result, and no two groups are about the
/// same case and engine.
pub proof fn every_measured_case_and_engine_has_one_group(
    groups: Seq<RetentionGroup>,
    trials: Seq<ScheduledTrial>,
    attempts: Seq<TrialResult>,
)
    requires
        artifact_retention::is_grouping(groups, trials, attempts),
    ensures
        forall|g: int, h: int|
            0 <= g < h < groups.len() ==> (#[trigger] groups[g]).workload_id@ != (
            #[trigger] groups[h]).workload_id@ || groups[g].engine != groups[h].engine,
        forall|i: int, k: int|
            0 <= i < trials.len() && 0 <= k < attempts.len() && (#[trigger] attempts[k]).valid
                && attempts[k].trial_id@ == (#[trigger] trials[i]).trial_id@
                ==> artifact_retention::has_group(groups, trials[i].workload_id@, trials[i].engine),
{
    assert forall|g: int, h: int| 0 <= g < h < groups.len() implies (
    #[trigger] groups[g]).workload_id@ != (#[trigger] groups[h]).workload_id@ || groups[g].engine
        != groups[h].engine by {
        assert(artifact_retention::group_before(groups[g], groups[h]));
        text::lemma_precedes_total(groups[g].workload_id@, groups[h].workload_id@);
    }
}

// Representatives.

/// The median of an odd number of values is the one in the middle once they are in order.
pub proof fn the_median_stands_in_the_middle(values: Seq<Number>, mean: Number) -> (ordered: Seq<
    Number,
>)
    requires
        values.len() > 0,
    ensures
        ordered.to_multiset() == values.to_multiset(),
        ordered.len() == values.len(),
        forall|i: int, j: int|
            0 <= i < j < ordered.len() ==> !(#[trigger] ordered[j]).less(#[trigger] ordered[i]),
        values.len() % 2 == 1 ==> artifact_retention::median_of(values, mean) == ordered[(
        values.len() - 1) / 2],
        values.len() % 2 == 0 ==> artifact_retention::median_of(values, mean) == mean,
{
    crate::capture_laws::arranged_numbers_are_in_order(values);
    number::lemma_arranged_length(values);
    number::arranged(values)
}

/// The representative of a group is its result nearest to the median: none is nearer, and of those as
/// near it has the first identity.
pub proof fn the_representative_is_nearest_to_the_median(
    group: RetentionGroup,
    attempts: Seq<TrialResult>,
    distances: Seq<Number>,
    k: int,
    j: int,
)
    requires
        artifact_retention::represents(group, attempts, distances, k),
        0 <= j < group.results@.len(),
        distances.len() == group.results@.len(),
    ensures
        0 <= k < group.results@.len(),
        !distances[j].less(distances[k]),
        distances[j] == distances[k] ==> !text::precedes(
            attempts[group.results@[j] as int].trial_id@,
            attempts[group.results@[k] as int].trial_id@,
        ),
        distances[j] == distances[k] && attempts[group.results@[j] as int].trial_id@
            == attempts[group.results@[k] as int].trial_id@ ==> k <= j,
{
    assert(!artifact_retention::nearer(group, attempts, distances, j, k));
    if j < k {
        assert(artifact_retention::nearer(group, attempts, distances, k, j));
    }
    text::lemma_precedes_total(
        attempts[group.results@[j] as int].trial_id@,
        attempts[group.results@[k] as int].trial_id@,
    );
}

/// The artifact of a kind is the first of that kind.
pub proof fn an_artifact_is_found_by_its_kind(artifacts: Seq<ArtifactEvidence>, kind: ArtifactKind)
    ensures
        match artifact_retention::artifact_with(artifacts, kind) {
            Some(found) => exists|i: int|
                0 <= i < artifacts.len() && #[trigger] artifacts[i] == found && found.kind == kind
                    && forall|j: int| 0 <= j < i ==> (#[trigger] artifacts[j]).kind != kind,
            None => forall|i: int|
                0 <= i < artifacts.len() ==> (#[trigger] artifacts[i]).kind != kind,
        },
    decreases artifacts.len(),
{
    if artifacts.len() > 0 && artifacts[0].kind != kind {
        let rest = artifacts.drop_first();
        an_artifact_is_found_by_its_kind(rest, kind);
        match artifact_retention::artifact_with(rest, kind) {
            Some(found) => {
                let i = choose|i: int|
                    0 <= i < rest.len() && #[trigger] rest[i] == found && found.kind == kind
                        && forall|j: int| 0 <= j < i ==> (#[trigger] rest[j]).kind != kind;
                assert(artifacts[i + 1] == found);
                assert forall|j: int| 0 <= j < i + 1 implies (#[trigger] artifacts[j]).kind
                    != kind by {
                    if j > 0 {
                        assert(rest[j - 1] == artifacts[j]);
                    }
                }
            },
            None => {
                assert forall|j: int| 0 <= j < artifacts.len() implies (
                #[trigger] artifacts[j]).kind != kind by {
                    if j > 0 {
                        assert(rest[j - 1] == artifacts[j]);
                    }
                }
            },
        }
    }
}

/// What is kept for a group is a profile and a flamegraph of the result whose CPU time represents it,
/// and a heap snapshot of the one whose live heap does; each with its trial, its attempt, the metric
/// that chose it, the median and what was observed.
pub proof fn what_is_kept_represents_its_group(
    retained: RetainedArtifact,
    group: RetentionGroup,
    attempts: Seq<TrialResult>,
    spread: GroupSpread,
    diagnostic: Diagnostic,
    kind: ArtifactKind,
    k: int,
) -> (a: int)
    requires
        artifact_retention::is_selection(retained, group, attempts, spread, diagnostic, kind),
        diagnostic == Diagnostic::Cpu ==> artifact_retention::represents(
            group,
            attempts,
            spread.cpu.distances@,
            k,
        ),
        diagnostic == Diagnostic::Heap ==> artifact_retention::represents(
            group,
            attempts,
            spread.heap.distances@,
            k,
        ),
    ensures
        retained.workload_id@ == group.workload_id@,
        retained.engine == group.engine,
        retained.artifact.kind == kind,
        diagnostic == Diagnostic::Cpu ==> retained.representative_metric@
            == "browser.cpu_profile.active_ms"@,
        diagnostic == Diagnostic::Heap ==> retained.representative_metric@
            == "browser.js_heap.live_bytes"@,
        ({
            let result = attempts[group.results@[k] as int];
            &&& retained.trial_id@ == result.trial_id@
            &&& retained.attempt == result.attempt
            &&& browser_lab::metric(result.metrics@, retained.representative_metric@) is Some
                ==> browser_lab::metric(result.metrics@, retained.representative_metric@) == Some(
                retained.observed_value,
            )
            &&& 0 <= a < result.artifacts@.len()
            &&& retained.artifact.path@ == result.artifacts@[a].path@
            &&& retained.artifact.sha256@ == result.artifacts@[a].sha256@
            &&& retained.artifact.size_bytes == result.artifacts@[a].size_bytes
            &&& retained.artifact.format@ == result.artifacts@[a].format@
        }),
{
    let own = artifact_retention::spread_of(spread, diagnostic);
    let m = artifact_retention::member(group, attempts, own);
    assert(artifact_retention::represents(group, attempts, own.distances@, k));
    assert(artifact_retention::represents(group, attempts, own.distances@, m));
    artifact_retention::representative_is_unique(group, attempts, own.distances@, k, m);
    let result = attempts[group.results@[k] as int];
    an_artifact_is_found_by_its_kind(result.artifacts@, kind);
    let found = artifact_retention::picked(group, attempts, own, kind)->0;
    choose|a: int|
        0 <= a < result.artifacts@.len() && #[trigger] result.artifacts@[a] == found && found.kind
            == kind && forall|j: int| 0 <= j < a ==> (#[trigger] result.artifacts@[j]).kind != kind
}

/// A manifest keeps exactly a profile, a heap snapshot, and a flamegraph for each group.
pub proof fn three_artifacts_are_kept_for_each_group(
    manifest: ArtifactRetention,
    set_id: Seq<char>,
    groups: Seq<RetentionGroup>,
    attempts: Seq<TrialResult>,
    spreads: Seq<GroupSpread>,
    g: int,
)
    requires
        artifact_retention::is_manifest(manifest, set_id, groups, attempts, spreads),
        0 <= g < groups.len(),
    ensures
        manifest.schema_version == 1,
        manifest.policy@ == "representative_per_workload_engine_v1"@,
        manifest.measurement_set_id@ == set_id,
        manifest.selections@.len() == 3 * groups.len(),
        manifest.summary.policy@ == "representative_per_workload_engine_v1"@,
        manifest.summary.retained_artifacts == 3 * groups.len(),
        manifest.summary.retained_artifacts + manifest.summary.discarded_artifacts
            == artifact_retention::captured_count(attempts),
        manifest.summary.retained_bytes + manifest.summary.discarded_bytes
            == artifact_retention::captured_bytes(attempts),
        manifest.summary.retained_bytes == artifact_retention::kept_bytes(
            groups,
            attempts,
            spreads,
            groups.len() as int,
        ),
        artifact_retention::is_selection(
            manifest.selections@[3 * g],
            groups[g],
            attempts,
            spreads[g],
            Diagnostic::Cpu,
            ArtifactKind::CpuProfile,
        ),
        artifact_retention::is_selection(
            manifest.selections@[3 * g + 1],
            groups[g],
            attempts,
            spreads[g],
            Diagnostic::Heap,
            ArtifactKind::JsHeap,
        ),
        artifact_retention::is_selection(
            manifest.selections@[3 * g + 2],
            groups[g],
            attempts,
            spreads[g],
            Diagnostic::Cpu,
            ArtifactKind::Flamegraph,
        ),
{
    assert(artifact_retention::are_selections(
        manifest.selections@,
        g,
        groups[g],
        attempts,
        spreads[g],
    ));
}

/// What was captured are the artifacts of the valid results, and of no others.
pub proof fn only_valid_results_count_as_captured(earlier: Seq<TrialResult>, result: TrialResult)
    ensures
        artifact_retention::captured_count(Seq::<TrialResult>::empty()) == 0,
        artifact_retention::captured_bytes(Seq::<TrialResult>::empty()) == 0,
        artifact_retention::captured_count(earlier.push(result)) - artifact_retention::captured_count(
            earlier,
        ) == if result.valid {
            result.artifacts@.len() as int
        } else {
            0
        },
        !result.valid ==> artifact_retention::captured_bytes(earlier.push(result))
            == artifact_retention::captured_bytes(earlier),
        result.valid && result.artifacts@.len() == 1 ==> artifact_retention::captured_bytes(
            earlier.push(result),
        ) - artifact_retention::captured_bytes(earlier) == result.artifacts@[0].size_bytes,
{
    assert(earlier.push(result).drop_last() == earlier);
    if result.artifacts@.len() == 1 {
        assert(result.artifacts@.drop_last() == Seq::<ArtifactEvidence>::empty());
        assert(artifact_retention::bytes_of(result.artifacts@.drop_last()) == 0);
    }
}

// Stored manifests.

/// The stored artifact at the place is the rebuilt one, with values as close as they have to be.
pub open spec fn agrees_at(
    stored: Seq<RetainedArtifact>,
    rebuilt: Seq<RetainedArtifact>,
    close: Seq<bool>,
    i: int,
) -> bool {
    close[i] && is_the_same(stored[i], rebuilt[i])
}

proof fn lemma_selections(
    stored: Seq<RetainedArtifact>,
    rebuilt: Seq<RetainedArtifact>,
    close: Seq<bool>,
    n: int,
)
    requires
        0 <= n,
    ensures
        artifact_retention::selections_mismatch(stored, rebuilt, close, n) is None <==> forall|
            i: int,
        |
            0 <= i < n ==> #[trigger] agrees_at(stored, rebuilt, close, i),
    decreases n,
{
    if n > 0 {
        lemma_selections(stored, rebuilt, close, n - 1);
        let a = stored[n - 1];
        let b = rebuilt[n - 1];
        assert(artifact_retention::same_retained(a, b) <==> is_the_same(a, b));
        assert(agrees_at(stored, rebuilt, close, n - 1) <==> close[n - 1] && is_the_same(a, b));
    }
}

/// Both keep the same artifact of the same trial, for the same reason.
pub open spec fn is_the_same(a: RetainedArtifact, b: RetainedArtifact) -> bool {
    &&& a.workload_id@ == b.workload_id@ && a.engine == b.engine
    &&& a.trial_id@ == b.trial_id@ && a.attempt == b.attempt
    &&& a.representative_metric@ == b.representative_metric@
    &&& a.artifact.kind == b.artifact.kind && a.artifact.path@ == b.artifact.path@
    &&& a.artifact.size_bytes == b.artifact.size_bytes
    &&& a.artifact.sha256@ == b.artifact.sha256@
    &&& a.artifact.format@ == b.artifact.format@
}

/// A stored manifest is accepted exactly if it is the one that the recorded results give: the same
/// set, the same totals, and the same artifacts with values as close as they have to be.
pub proof fn only_the_rebuilt_manifest_is_accepted(
    stored: ArtifactRetention,
    rebuilt: ArtifactRetention,
    close: Seq<bool>,
)
    ensures
        artifact_retention::mismatch(stored, rebuilt, close) is None <==> {
            &&& stored.schema_version == rebuilt.schema_version
            &&& stored.policy@ == rebuilt.policy@
            &&& stored.measurement_set_id@ == rebuilt.measurement_set_id@
            &&& stored.summary.policy@ == rebuilt.summary.policy@
            &&& stored.summary.retained_artifacts == rebuilt.summary.retained_artifacts
            &&& stored.summary.discarded_artifacts == rebuilt.summary.discarded_artifacts
            &&& stored.summary.retained_bytes == rebuilt.summary.retained_bytes
            &&& stored.summary.discarded_bytes == rebuilt.summary.discarded_bytes
            &&& stored.selections@.len() == rebuilt.selections@.len()
            &&& forall|i: int|
                0 <= i < stored.selections@.len() ==> #[trigger] agrees_at(
                    stored.selections@,
                    rebuilt.selections@,
                    close,
                    i,
                )
        },
{
    lemma_selections(
        stored.selections@,
        rebuilt.selections@,
        close,
        rebuilt.selections@.len() as int,
    );
}

} // verus!
