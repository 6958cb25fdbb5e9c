//! What holds of every answer, every refusal, and every outcome.

use vstd::prelude::*;
use vstd::string::*;

use crate::artifact_retention;
use crate::artifact_retention::{Diagnostic, GroupSpread, RetentionError, RetentionGroup};
use crate::benchmark_host;
use crate::benchmark_preview::ParsedBenchmark;
use crate::benchmark_runtime;
use crate::browser_lab;
use crate::browser_lab::{
    ArtifactEvidence, ArtifactKind, Engine, WireFailure, WireResponse, PROTOCOL_VERSION,
};
use crate::commands;
use crate::commands::BrowserName;
use crate::errors;
use crate::json;
use crate::json::JsonValue;
use crate::lineage;
use crate::lineage::LineageEvent;
use crate::manifest;
use crate::manifest::{BenchmarkManifest, VariantDescriptor, WorkloadInvocation, WorkloadSpec};
use crate::measurement;
use crate::measurement::{MeasurementSet, PilotStratum, TrialResult};
use crate::measurement_laws;
use crate::paths;
use crate::project_modules;
use crate::run_tui;
use crate::runner;
use crate::runner::MeasurementOutcome;
use crate::schedule;
use crate::schedule::{
    SamplingStratum, ScheduledTrial, TrialPhase, MEASUREMENT_SCHEMA_VERSION,
};
use crate::source_state;
use crate::source_state::{IdPlace, SourceChange, SourceContent, SourceError, SourceState};
use crate::text;

verus! {

// The laboratory's answers.

/// An answer is taken only if it speaks the same version, answers the same request, reports success,
/// and brings a result; otherwise the first of these that fails is told.
pub proof fn only_the_answer_to_its_request_is_taken(request_id: u64, response: WireResponse)
    ensures
        browser_lab::wire_failure(request_id, response) is None <==> response.protocol_version
            == PROTOCOL_VERSION && response.id == request_id && response.ok && response.has_result,
        browser_lab::wire_failure(request_id, response) == Some(
            WireFailure::Protocol(response.protocol_version),
        ) <==> response.protocol_version != PROTOCOL_VERSION,
        browser_lab::wire_failure(request_id, response) == Some(
            WireFailure::OtherRequest(response.id),
        ) <==> response.protocol_version == PROTOCOL_VERSION && response.id != request_id,
        browser_lab::wire_failure(request_id, response) == Some(WireFailure::Refused)
            <==> response.protocol_version == PROTOCOL_VERSION && response.id == request_id
            && !response.ok,
{
}

/// What the laboratory said is told line by line.
pub proof fn every_line_is_told(lines: Seq<Seq<char>>, line: Seq<char>)
    ensures
        browser_lab::joined_lines(seq![line]) == line,
        lines.len() > 0 ==> browser_lab::joined_lines(lines.push(line))
            == browser_lab::joined_lines(lines) + seq!['\n'] + line,
        browser_lab::stderr_text(Seq::empty()).len() == 0,
        lines.len() > 0 ==> browser_lab::joined_lines(lines).is_suffix_of(
            browser_lab::stderr_text(lines),
        ),
{
    assert(lines.push(line).drop_last() == lines);
    let before = browser_lab::joined_lines(lines);
    assert(before.push('\n') == before + seq!['\n']);
    if lines.len() > 0 {
        let told = browser_lab::stderr_text(lines);
        assert(told.skip(told.len() - before.len()) == before);
    }
}

/// The kinds that are told of are those of the artifacts, each once.
pub proof fn every_found_kind_is_told_once(
    artifacts: Seq<ArtifactEvidence>,
    n: int,
    kind: ArtifactKind,
)
    requires
        n <= artifacts.len(),
    ensures
        browser_lab::found_kinds(artifacts, n).no_duplicates(),
        browser_lab::found_kinds(artifacts, n).contains(kind) <==> exists|i: int|
            0 <= i < n && (#[trigger] artifacts[i]).kind == kind,
    decreases n,
{
    if n > 0 {
        every_found_kind_is_told_once(artifacts, n - 1, kind);
        let before = browser_lab::found_kinds(artifacts, n - 1);
        let all = browser_lab::found_kinds(artifacts, n);
        let last = artifacts[n - 1].kind;
        if all.contains(kind) && !before.contains(kind) {
            let k = choose|k: int| 0 <= k < all.len() && all[k] == kind;
            assert(k < before.len() ==> before[k] == kind);
            assert(artifacts[n - 1].kind == kind);
        }
        if before.contains(kind) {
            let k = choose|k: int| 0 <= k < before.len() && before[k] == kind;
            assert(all[k] == kind);
        }
        if last == kind && !before.contains(kind) {
            assert(all[before.len() as int] == kind);
        }
    }
}

/// Each engine is run by its own browser.
pub proof fn each_engine_has_its_browser(engine: Engine)
    ensures
        commands::browser_of(engine) == BrowserName::ChromiumHeadlessShell <==> engine
            == Engine::Chromium,
        commands::browser_of(engine) == BrowserName::Firefox <==> engine == Engine::Firefox,
        commands::browser_of(engine) == BrowserName::Webkit <==> engine == Engine::Webkit,
{
}

/// A parameter of a request is the first of its name.
pub proof fn a_parameter_is_found_by_its_name(
    pairs: Seq<(Seq<char>, Seq<char>)>,
    name: Seq<char>,
)
    ensures
        match benchmark_host::parameter(pairs, name) {
            Some(value) => exists|i: int|
                0 <= i < pairs.len() && (#[trigger] pairs[i]).0 == name && pairs[i].1 == value
                    && forall|j: int| 0 <= j < i ==> (#[trigger] pairs[j]).0 != name,
            None => forall|i: int| 0 <= i < pairs.len() ==> (#[trigger] pairs[i]).0 != name,
        },
    decreases pairs.len(),
{
    if pairs.len() > 0 {
        if pairs[0].0 != name {
            let rest = pairs.drop_first();
            a_parameter_is_found_by_its_name(rest, name);
            match benchmark_host::parameter(pairs, name) {
                Some(value) => {
                    let i = choose|i: int|
                        0 <= i < rest.len() && (#[trigger] rest[i]).0 == name && rest[i].1 == value
                            && forall|j: int| 0 <= j < i ==> (#[trigger] rest[j]).0 != name;
                    assert(pairs[i + 1].0 == name && pairs[i + 1].1 == value);
                    assert forall|j: int| 0 <= j < i + 1 implies (#[trigger] pairs[j]).0 != name by {
                        if j > 0 {
                            assert(rest[j - 1] == pairs[j]);
                        }
                    }
                },
                None => {
                    assert forall|i: int| 0 <= i < pairs.len() implies (#[trigger] pairs[i]).0
                        != name by {
                        if i > 0 {
                            assert(rest[i - 1] == pairs[i]);
                        }
                    }
                },
            }
        } else {
            assert(pairs[0].1 == benchmark_host::parameter(pairs, name)->0);
        }
    }
}

/// A case is named by its written name; without one by its number, counted from one.
pub proof fn a_case_is_named_or_numbered(operation: JsonValue, index: int, name: String)
    requires
        index >= 0,
    ensures
        json::field(operation, "case_id"@) == Some(JsonValue::Text(name))
            ==> benchmark_runtime::case_name(operation, index) == name@,
        json::field(operation, "case_id"@) is None ==> benchmark_runtime::case_name(
            operation,
            index,
        ) == text::decimal((index + 1) as nat),
        (json::field(operation, "case_id"@) is Some && !(json::field(
            operation,
            "case_id"@,
        )->0 is Text)) ==> benchmark_runtime::case_name(operation, index) == text::decimal(
            (index + 1) as nat,
        ),
{
}

// What is kept of a measurement.

/// A result of a group lacks a measurement.
pub open spec fn lacks(
    group: RetentionGroup,
    attempts: Seq<TrialResult>,
    diagnostic: Diagnostic,
    k: int,
) -> bool {
    browser_lab::metric(
        attempts[group.results@[k] as int].metrics@,
        match diagnostic {
            Diagnostic::Cpu => "browser.cpu_profile.active_ms"@,
            Diagnostic::Heap => "browser.js_heap.live_bytes"@,
        },
    ) is None
}

/// The result that is said to lack a measurement is the first that does.
pub proof fn the_first_result_without_a_measurement_is_told(
    group: RetentionGroup,
    attempts: Seq<TrialResult>,
    diagnostic: Diagnostic,
    n: int,
)
    ensures
        match artifact_retention::first_without(group, attempts, diagnostic, n) {
            Some(k) => 0 <= k < n && lacks(group, attempts, diagnostic, k) && forall|j: int|
                0 <= j < k ==> !#[trigger] lacks(group, attempts, diagnostic, j),
            None => forall|j: int| 0 <= j < n ==> !#[trigger] lacks(group, attempts, diagnostic, j),
        },
    decreases n,
{
    if n > 0 {
        the_first_result_without_a_measurement_is_told(group, attempts, diagnostic, n - 1);
        assert(lacks(group, attempts, diagnostic, n - 1) <==> artifact_retention::value_of(
            attempts[group.results@[n - 1] as int],
            diagnostic,
        ) is None);
    }
}

/// Every result of a group was measured, and its representatives have their artifacts.
pub open spec fn can_be_kept(
    group: RetentionGroup,
    attempts: Seq<TrialResult>,
    spread: GroupSpread,
) -> bool {
    &&& forall|k: int|
        0 <= k < group.results@.len() ==> !#[trigger] lacks(group, attempts, Diagnostic::Cpu, k)
    &&& forall|k: int|
        0 <= k < group.results@.len() ==> !#[trigger] lacks(group, attempts, Diagnostic::Heap, k)
    &&& artifact_retention::picked(
        group,
        attempts,
        spread.cpu,
        ArtifactKind::CpuProfile,
    ) is Some
    &&& artifact_retention::picked(
        group,
        attempts,
        spread.cpu,
        ArtifactKind::Flamegraph,
    ) is Some
    &&& artifact_retention::picked(group, attempts, spread.heap, ArtifactKind::JsHeap) is Some
}

proof fn lemma_group_failure(
    group: RetentionGroup,
    attempts: Seq<TrialResult>,
    spread: GroupSpread,
    g: int,
)
    ensures
        artifact_retention::group_failure(group, attempts, spread, g) is None <==> can_be_kept(
            group,
            attempts,
            spread,
        ),
{
    let n = group.results@.len() as int;
    the_first_result_without_a_measurement_is_told(group, attempts, Diagnostic::Cpu, n);
    the_first_result_without_a_measurement_is_told(group, attempts, Diagnostic::Heap, n);
}

proof fn lemma_groups_failure(
    groups: Seq<RetentionGroup>,
    attempts: Seq<TrialResult>,
    spreads: Seq<GroupSpread>,
    n: int,
)
    requires
        n <= groups.len(),
        n <= spreads.len(),
    ensures
        artifact_retention::groups_failure(groups, attempts, spreads, n) is None <==> forall|g: int|
            0 <= g < n ==> can_be_kept(#[trigger] groups[g], attempts, spreads[g]),
    decreases n,
{
    if n > 0 {
        lemma_groups_failure(groups, attempts, spreads, n - 1);
        lemma_group_failure(groups[n - 1], attempts, spreads[n - 1], n - 1);
    }
}

/// What is kept is accepted only if every group can be kept, and no more is kept than was captured.
pub proof fn only_what_was_captured_is_kept(
    groups: Seq<RetentionGroup>,
    attempts: Seq<TrialResult>,
    spreads: Seq<GroupSpread>,
)
    requires
        groups.len() == spreads.len(),
    ensures
        ({
            let n = groups.len() as int;
            let kept = artifact_retention::kept_bytes(groups, attempts, spreads, n);
            let captured = artifact_retention::captured_bytes(attempts);
            let all = forall|g: int|
                0 <= g < n ==> can_be_kept(#[trigger] groups[g], attempts, spreads[g]);
            let failure = artifact_retention::manifest_failure(groups, attempts, spreads);
            &&& failure is None <==> all && kept <= captured <= u64::MAX && 3 * n
                <= artifact_retention::captured_count(attempts)
            &&& all && (kept > u64::MAX || captured > u64::MAX) ==> failure == Some(
                RetentionError::BytesOverflow,
            )
        }),
{
    lemma_groups_failure(groups, attempts, spreads, groups.len() as int);
}

// Records.

/// A promotion that was recorded is found where it was first recorded; one that was not is not found.
pub proof fn a_promotion_is_found_where_it_was_recorded(events: Seq<LineageEvent>, id: Seq<char>)
    ensures
        lineage::has_promotion(events, id) <==> exists|i: int| #[trigger]
            lineage::first_promotion(events, id, i),
        forall|i: int| #[trigger]
            lineage::first_promotion(events, id, i) ==> 0 <= i < events.len() && events[i] is Promotion
                && events[i]->Promotion_0.promotion_id@ == id,
        forall|i: int, j: int|
            #[trigger] lineage::first_promotion(events, id, i)
                && #[trigger] lineage::first_promotion(events, id, j) ==> i == j,
{
    if lineage::has_promotion(events, id) {
        lemma_first_promotion(events, id, events.len() as int);
    }
}

proof fn lemma_first_promotion(events: Seq<LineageEvent>, id: Seq<char>, n: int)
    requires
        0 <= n <= events.len(),
        exists|i: int|
            0 <= i < n && (#[trigger] events[i] matches LineageEvent::Promotion(p)
                && p.promotion_id@ == id),
    ensures
        exists|i: int| #[trigger] lineage::first_promotion(events, id, i),
    decreases n,
{
    if exists|i: int|
        0 <= i < n - 1 && (#[trigger] events[i] matches LineageEvent::Promotion(p)
            && p.promotion_id@ == id) {
        lemma_first_promotion(events, id, n - 1);
    } else {
        assert(lineage::first_promotion(events, id, n - 1));
    }
}

/// A confirmation that is found has the identity that was looked for, and none before it has.
pub proof fn a_confirmation_is_found_by_its_identity(
    events: Seq<LineageEvent>,
    id: Seq<char>,
    i: int,
)
    requires
        lineage::first_confirmation(events, id, i),
    ensures
        0 <= i < events.len(),
        events[i] is Confirmation,
        events[i]->Confirmation_0.confirmation_id@ == id,
        forall|j: int|
            0 <= j < i && (#[trigger] events[j]) is Confirmation
                ==> events[j]->Confirmation_0.confirmation_id@ != id,
{
}

// Resolved manifests.

/// A resolved benchmark says what was written; only its files are named from its directory.
pub proof fn a_resolved_benchmark_says_what_was_written(
    written: BenchmarkManifest,
    source_path: Seq<char>,
    resolved: BenchmarkManifest,
    i: int,
)
    requires
        manifest::resolves_benchmark(written, source_path, resolved),
        0 <= i < written.workloads@.len(),
    ensures
        resolved.benchmark == written.benchmark,
        resolved.browser == written.browser,
        resolved.captures == written.captures,
        resolved.trials == written.trials,
        resolved.statistics == written.statistics,
        resolved.schema_version == written.schema_version,
        resolved.source_path@ == source_path,
        resolved.source_sha256@.len() == 0,
        resolved.workloads@.len() == written.workloads@.len(),
        ({
            let base = paths::directory(source_path);
            let a = written.workloads@[i];
            let b = resolved.workloads@[i];
            &&& b.id@ == a.id@
            &&& b.trace_file@ == paths::joined(base, a.trace_file@)
            &&& b.identity_files@.len() == a.identity_files@.len()
            &&& forall|k: int|
                0 <= k < a.identity_files@.len() ==> (#[trigger] b.identity_files@[k])@
                    == paths::joined(base, a.identity_files@[k]@)
            &&& b.verifier is Process <==> a.verifier is Process
            &&& a.verifier is Process ==> {
                let p = a.verifier->Process_0;
                let q = b.verifier->Process_0;
                &&& q.timeout_seconds == p.timeout_seconds
                &&& q.command@.len() == p.command@.len()
                &&& forall|k: int|
                    0 <= k < p.command@.len() ==> (#[trigger] q.command@[k])@ == p.command@[k]@
                &&& q.identity_files@.len() == p.identity_files@.len()
                &&& forall|k: int|
                    0 <= k < p.identity_files@.len() ==> (#[trigger] q.identity_files@[k])@
                        == paths::joined(base, p.identity_files@[k]@)
            }
        }),
{
    let base = paths::directory(source_path);
    let a = written.workloads@[i];
    let b = resolved.workloads@[i];
    assert(manifest::resolves_workload(base, a, b));
    lemma_below(base, a.identity_files@, b.identity_files@);
    if a.verifier is Process {
        let p = a.verifier->Process_0;
        let q = b.verifier->Process_0;
        lemma_below(base, p.identity_files@, q.identity_files@);
        lemma_same_texts(p.command@, q.command@);
    }
}

proof fn lemma_below(base: Seq<char>, written: Seq<String>, resolved: Seq<String>)
    requires
        text::views(resolved) == manifest::below(base, written),
    ensures
        resolved.len() == written.len(),
        forall|k: int|
            0 <= k < written.len() ==> (#[trigger] resolved[k])@ == paths::joined(
                base,
                written[k]@,
            ),
{
    assert(text::views(resolved).len() == resolved.len());
    assert(manifest::below(base, written).len() == written.len());
    assert forall|k: int| 0 <= k < written.len() implies (#[trigger] resolved[k])@
        == paths::joined(base, written[k]@) by {
        assert(text::views(resolved)[k] == resolved[k]@);
        assert(manifest::below(base, written)[k] == paths::joined(base, written[k]@));
    }
}

proof fn lemma_same_texts(a: Seq<String>, b: Seq<String>)
    requires
        text::views(b) == text::views(a),
    ensures
        a.len() == b.len(),
        forall|k: int| 0 <= k < a.len() ==> (#[trigger] b[k])@ == a[k]@,
{
    assert(text::views(a).len() == a.len());
    assert(text::views(b).len() == b.len());
    assert forall|k: int| 0 <= k < a.len() implies (#[trigger] b[k])@ == a[k]@ by {
        assert(text::views(b)[k] == b[k]@);
        assert(text::views(a)[k] == a[k]@);
    }
}

/// A resolved variant says what was written; only its files are named from its directory.
pub proof fn a_resolved_variant_says_what_was_written(
    written: VariantDescriptor,
    source_path: Seq<char>,
    resolved: VariantDescriptor,
)
    requires
        manifest::resolves_variant(written, source_path, resolved),
    ensures
        resolved.schema_version == written.schema_version,
        resolved.id == written.id,
        resolved.subject == written.subject,
        resolved.adapter == written.adapter,
        resolved.source_path@ == source_path,
        resolved.source_sha256@.len() == 0,
        resolved.implementation_files@.len() == written.implementation_files@.len(),
        forall|k: int|
            0 <= k < written.implementation_files@.len() ==> (
            #[trigger] resolved.implementation_files@[k])@ == paths::joined(
                paths::directory(source_path),
                written.implementation_files@[k]@,
            ),
{
    lemma_below(
        paths::directory(source_path),
        written.implementation_files@,
        resolved.implementation_files@,
    );
}

/// A workload is invoked with its trace and checked as it says: by what is built in, or by its own
/// command in the manifest's directory.
pub proof fn a_workload_is_checked_as_it_says(
    invocation: WorkloadInvocation,
    workload: WorkloadSpec,
    source_path: Seq<char>,
)
    requires
        manifest::invokes(invocation, workload, source_path),
    ensures
        invocation.trace_file@ == workload.trace_file@,
        invocation.verifier is Exact <==> workload.verifier is BuiltIn,
        workload.verifier is Process ==> invocation.verifier is Process
            && *invocation.verifier->command == workload.verifier->Process_0.command
            && invocation.verifier->timeout_seconds
            == workload.verifier->Process_0.timeout_seconds
            && invocation.verifier->working_directory@ == paths::directory(source_path),
{
}

// Measurements.

/// The strata of the pilots are the pairs of case and engine that have a pilot, each once, by case and
/// then by engine.
pub proof fn each_piloted_case_and_engine_is_one_stratum(
    strata: Seq<PilotStratum>,
    trials: Seq<ScheduledTrial>,
    workload: Seq<char>,
    engine: Engine,
)
    requires
        measurement::is_pilot_strata(strata, trials),
    ensures
        (exists|i: int|
            0 <= i < trials.len() && (#[trigger] trials[i]).phase == TrialPhase::Pilot
                && trials[i].workload_id@ == workload && trials[i].engine == engine) <==> exists|s:
            int|
            0 <= s < strata.len() && (#[trigger] strata[s]).workload_id@ == workload
                && strata[s].engine == engine,
        forall|s: int, t: int|
            0 <= s < t < strata.len() ==> text::precedes(
                (#[trigger] strata[s]).workload_id@,
                (#[trigger] strata[t]).workload_id@,
            ) || strata[s].workload_id@ == strata[t].workload_id@ && (strata[s].engine
                == Engine::Chromium && strata[t].engine != Engine::Chromium || strata[s].engine
                == Engine::Firefox && strata[t].engine == Engine::Webkit),
{
    if exists|s: int|
        0 <= s < strata.len() && (#[trigger] strata[s]).workload_id@ == workload && strata[s].engine
            == engine {
        let s = choose|s: int|
            0 <= s < strata.len() && (#[trigger] strata[s]).workload_id@ == workload
                && strata[s].engine == engine;
        assert(measurement::has_pilot(trials, strata[s].workload_id@, strata[s].engine));
        let i = choose|i: int|
            0 <= i < trials.len() && measurement::is_pilot_of(
                #[trigger] trials[i],
                workload,
                engine,
            );
        assert(trials[i].phase == TrialPhase::Pilot);
    }
    if exists|i: int|
        0 <= i < trials.len() && (#[trigger] trials[i]).phase == TrialPhase::Pilot
            && trials[i].workload_id@ == workload && trials[i].engine == engine {
        let i = choose|i: int|
            0 <= i < trials.len() && (#[trigger] trials[i]).phase == TrialPhase::Pilot
                && trials[i].workload_id@ == workload && trials[i].engine == engine;
        assert(measurement::in_strata(strata, trials[i].workload_id@, trials[i].engine));
    }
    assert forall|s: int, t: int| 0 <= s < t < strata.len() implies text::precedes(
        (#[trigger] strata[s]).workload_id@,
        (#[trigger] strata[t]).workload_id@,
    ) || strata[s].workload_id@ == strata[t].workload_id@ && (strata[s].engine == Engine::Chromium
        && strata[t].engine != Engine::Chromium || strata[s].engine == Engine::Firefox
        && strata[t].engine == Engine::Webkit) by {
        assert(measurement::stratum_before(strata[s], strata[t]));
    }
}

/// The pilots that are told are those of all strata together, and a stratum is stable exactly if its
/// pilots stopped for that reason.
pub proof fn every_stratum_counts(strata: Seq<SamplingStratum>, stratum: SamplingStratum)
    ensures
        ({
            let n = strata.len() as int;
            let more = strata.push(stratum);
            &&& runner::pilot_total(more, n + 1) == runner::pilot_total(strata, n)
                + stratum.pilot_samples
            &&& runner::stable_total(more, n + 1) == runner::stable_total(strata, n) + if
            stratum.pilot_stop_reason@ == "stable"@ {
                1int
            } else {
                0
            }
        }),
        runner::pilot_total(Seq::empty(), 0) == 0,
        runner::stable_total(Seq::empty(), 0) == 0,
{
    lemma_totals(strata, strata.push(stratum), strata.len() as int);
}

proof fn lemma_totals(a: Seq<SamplingStratum>, b: Seq<SamplingStratum>, n: int)
    requires
        n <= a.len(),
        n <= b.len(),
        forall|i: int| 0 <= i < n ==> #[trigger] a[i] == b[i],
    ensures
        runner::pilot_total(a, n) == runner::pilot_total(b, n),
        runner::stable_total(a, n) == runner::stable_total(b, n),
    decreases n,
{
    if n > 0 {
        assert(a[n - 1] == b[n - 1]);
        lemma_totals(a, b, n - 1);
    }
}

/// The invalid attempts of an engine are its own, and those that were not valid.
pub proof fn invalid_attempts_are_those_of_the_engine(set: MeasurementSet, engine: Engine, i: int)
    ensures
        runner::invalid_places(set, engine).contains(i) <==> (0 <= i
            < set.results.attempts@.len() && set.results.attempts@[i].engine == engine
            && !set.results.attempts@[i].valid),
{
    measurement_laws::chosen_places_are_the_wanted_ones(
        set.results.attempts@.len() as int,
        |i: int| set.results.attempts@[i].engine == engine && !set.results.attempts@[i].valid,
    );
}

/// An outcome tells of its own measurement, and tells the decision as it was made.
pub proof fn an_outcome_tells_of_its_measurement(
    outcome: MeasurementOutcome,
    set: MeasurementSet,
    continuing: Seq<PilotStratum>,
)
    requires
        runner::is_outcome(outcome, set, continuing),
    ensures
        outcome.schema_version == MEASUREMENT_SCHEMA_VERSION,
        text::opt(outcome.environment_fingerprint) == text::opt(
            set.results.environment_fingerprint,
        ),
        outcome.completed_trials <= outcome.total_trials,
        outcome.measurement_set_id@ == set.schedule.measurement_set_id@,
        outcome.measurement_root@ == set.root@,
        outcome.benchmark_id@ == set.benchmark.benchmark.id@,
        outcome.variant_id@ == set.variant.id@,
        outcome.complete == set.exhausted(continuing),
        outcome.final_complete == set.finished(),
        outcome.sampling is Some <==> set.sampling is Some,
        outcome.sampling is Some ==> {
            let told = outcome.sampling->0;
            let made = set.sampling->0;
            &&& told.selected_final_trials == made.selected_final_trials
            &&& told.required_final_trials == made.required_final_trials
            &&& told.budget_limited == made.budget_limited
            &&& told.strata@.len() == made.strata@.len()
            &&& forall|i: int|
                0 <= i < told.strata@.len() ==> (#[trigger] told.strata@[i]).workload_id@
                    == made.strata@[i].workload_id@ && told.strata@[i].engine
                    == made.strata@[i].engine && told.strata@[i].pilot_samples
                    == made.strata@[i].pilot_samples && told.strata@[i].final_samples
                    == made.strata@[i].final_samples && told.strata@[i].batch_size
                    == made.strata@[i].batch_size && told.strata@[i].pilot_stop_reason@
                    == made.strata@[i].pilot_stop_reason@
        },
{
    let n = set.schedule.trials@.len() as int;
    measurement_laws::fewer_are_chosen_by_more_conditions(
        n,
        |i: int| set.runs(i) && set.done(i),
        |i: int| set.runs(i),
    );
    if outcome.sampling is Some {
        let told = outcome.sampling->0;
        let made = set.sampling->0;
        assert(runner::same_decision(told, made));
        assert forall|i: int| 0 <= i < told.strata@.len() implies runner::same_stratum(
            #[trigger] told.strata@[i],
            made.strata@[i],
        ) by {}
    }
}

// Sources.

/// A checkpoint is taken only of files below the root, each recorded once; otherwise the first file
/// that is not is told.
pub proof fn only_files_recorded_once_make_a_checkpoint(
    root: Seq<char>,
    sources: Seq<SourceContent>,
    n: int,
)
    requires
        0 <= n <= sources.len(),
    ensures
        source_state::snapshot_failure(root, sources, n) is None <==> {
            &&& forall|i: int|
                0 <= i < n ==> paths::portable_below(root, (#[trigger] sources[i]).path@) is Ok
            &&& forall|i: int, j: int|
                0 <= i < j < n ==> paths::portable_below(root, (#[trigger] sources[i]).path@)
                    != paths::portable_below(root, (#[trigger] sources[j]).path@)
        },
    decreases n,
{
    if n > 0 {
        only_files_recorded_once_make_a_checkpoint(root, sources, n - 1);
        let last = sources[n - 1];
        if source_state::snapshot_failure(root, sources, n) is None {
            assert forall|i: int, j: int| 0 <= i < j < n implies paths::portable_below(
                root,
                (#[trigger] sources[i]).path@,
            ) != paths::portable_below(root, (#[trigger] sources[j]).path@) by {
                if j == n - 1 {
                    let path = source_state::recorded_path(root, last)->Ok_0;
                    assert(source_state::recorded_path(root, sources[i]) != Ok::<
                        Seq<char>,
                        paths::PathError,
                    >(path));
                }
            }
        }
    }
}

/// A refused checkpoint is told by what is wrong in it.
pub proof fn a_refused_checkpoint_names_what_is_wrong(
    state: SourceState,
    id: Seq<char>,
    i: usize,
)
    requires
        i < state.files@.len(),
    ensures
        errors::about_state(SourceError::InvalidFileDigest(i), state, id)
            == state.files@[i as int].sha256@,
        errors::about_state(SourceError::InvalidPath(i), state, id) == state.files@[i as int].path@,
        errors::about_state(SourceError::IncompatibleIdentity, state, id) == id,
{
}

/// A refused change is told by what is wrong in it.
pub proof fn a_refused_change_names_what_is_wrong(
    change: SourceChange,
    id: Seq<char>,
    i: usize,
)
    requires
        i < change.files@.len(),
    ensures
        errors::about_change(SourceError::InvalidPath(i), change, id)
            == change.files@[i as int].path@,
        errors::about_change(SourceError::InvalidId(IdPlace::After), change, id)
            == change.source_after@,
        change.source_before is Some ==> errors::about_change(
            SourceError::InvalidId(IdPlace::Before),
            change,
            id,
        ) == change.source_before->0@,
        change.files@[i as int].before_sha256 is None && change.files@[i as int].after_sha256 is Some
            ==> errors::about_change(SourceError::InvalidFileDigest(i), change, id)
            == change.files@[i as int].after_sha256->0@,
        change.files@[i as int].before_sha256 is Some && change.files@[i as int].after_sha256 is None
            ==> errors::about_change(SourceError::InvalidFileDigest(i), change, id)
            == change.files@[i as int].before_sha256->0@,
        errors::about_change(SourceError::IncompatibleIdentity, change, id) == id,
{
}

/// A source of a bundle is named as the library's own module, or by its path below the root.
pub proof fn a_source_is_named_below_the_root(
    root: Seq<char>,
    sdk: Seq<char>,
    alias: Seq<char>,
    source: Seq<char>,
    relative: Seq<char>,
)
    ensures
        project_modules::mapped_name(root, sdk, alias, sdk) == "bperf/browser"@,
        project_modules::mapped_name(root, sdk, alias, alias) == "bperf/browser"@,
        paths::parts(source) != paths::parts(sdk) && paths::parts(source) != paths::parts(alias)
            && paths::portable_below(root, source) == Ok::<Seq<char>, paths::PathError>(relative)
            ==> project_modules::mapped_name(root, sdk, alias, source) == text::replaced(
            relative,
            '\\',
            '/',
        ),
        paths::parts(source) != paths::parts(sdk) && paths::parts(source) != paths::parts(alias)
            && paths::portable_below(root, source) == Err::<Seq<char>, paths::PathError>(
            paths::PathError::Outside,
        ) ==> project_modules::mapped_name(root, sdk, alias, source) == source,
        paths::parts(source) != paths::parts(sdk) && paths::parts(source) != paths::parts(alias)
            && paths::portable_below(root, source) == Err::<Seq<char>, paths::PathError>(
            paths::PathError::Empty,
        ) ==> project_modules::mapped_name(root, sdk, alias, source).len() == 0,
{
    reveal_strlit("");
}

/// The run of a module is found by its written identity first, and by its file's name otherwise.
pub proof fn a_run_is_found_by_identity_or_by_file(
    runs: Seq<String>,
    parsed: ParsedBenchmark,
    path: Seq<char>,
)
    ensures
        parsed.id is Some && run_tui::run_with(runs, parsed.id->0@) is Some ==> run_tui::run_of(
            runs,
            parsed,
            path,
        ) == run_tui::run_with(runs, parsed.id->0@),
        parsed.id is Some && run_tui::run_with(runs, parsed.id->0@) is None ==> run_tui::run_of(
            runs,
            parsed,
            path,
        ) == run_tui::run_with(runs, run_tui::fallback_name(path)),
        parsed.id is None ==> run_tui::run_of(runs, parsed, path) == run_tui::run_with(
            runs,
            run_tui::fallback_name(path),
        ),
{
}

/// Upper case changes the small letters of ASCII into their capitals, and nothing else.
pub proof fn upper_case_changes_small_letters(s: Seq<char>, i: int)
    requires
        0 <= i < s.len(),
    ensures
        text::upper_cased(s).len() == s.len(),
        'a' <= s[i] <= 'z' ==> text::upper_cased(s)[i] as int == s[i] as int - 'a' as int
            + 'A' as int,
        !('a' <= s[i] <= 'z') ==> text::upper_cased(s)[i] == s[i],
{
}

} // verus!
