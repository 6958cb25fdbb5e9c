//! What holds of every run, confirmation, and report.

use vstd::prelude::*;
use vstd::string::*;

use crate::benchmark_runtime;
use crate::benchmark_runtime::{AdapterReady, VerifierVerdict, WorkloadLine};
use crate::browser_lab::Engine;
use crate::comparison::ComparisonSummary;
use crate::json::JsonValue;
use crate::json_laws;
use crate::json_laws::Meaning;
use crate::lineage::{ConfirmationRecord, CycleRecord, LineageEvent, PromotionRecord};
use crate::managed_benchmark;
use crate::managed_benchmark::{
    ManagedDescription, ManagedPlaces, MaterializedInputs, MeasurementIndexOptions,
    MeasurementIndexRecord, TraceFile, TrialPolicy,
};
use crate::manifest::{
    BenchmarkManifest, BuiltInVerifier, VariantDescriptor, VerifierSpec, WorkloadSpec,
};
use crate::measurement::{MeasurementSet, TrialResult};
use crate::paths;
use crate::project_modules;
use crate::project_modules::{BundleMetadata, ResolvedFile};
use crate::promotion;
use crate::promotion::{CycleChoice, MeasuredInputs};
use crate::reports;
use crate::runner;
use crate::schedule::{ScheduledTrial, MEASUREMENT_SCHEMA_VERSION};
use crate::sidecar_runtime;
use crate::sidecar_runtime::HostPlatform;
use crate::text;

verus! {

// Outcomes.

/// A run ends with 0 exactly if it was only measured or came out positive or equivalent, with 1
/// exactly if it came out negative, and with 2 exactly if it came out inconclusive.
pub proof fn outcomes_have_their_exit_codes(comparison: Option<ComparisonSummary>)
    ensures
        ({
            let code = managed_benchmark::run_code(comparison);
            &&& code == Some(0u8) <==> (comparison matches Some(compared) ==> compared.verdict@
                == "positive"@ || compared.verdict@ == "equivalent"@)
            &&& code == Some(1u8) <==> (comparison matches Some(compared) && compared.verdict@
                == "negative"@)
            &&& code == Some(2u8) <==> (comparison matches Some(compared) && compared.verdict@
                == "inconclusive"@)
            &&& code matches Some(n) ==> n <= 2
        }),
{
    reveal_strlit("positive");
    reveal_strlit("equivalent");
    reveal_strlit("negative");
    reveal_strlit("inconclusive");
    assert("inconclusive"@.len() == 12 && "equivalent"@.len() == 10);
    assert("positive"@.len() == 8 && "negative"@.len() == 8);
    assert("positive"@[0] != "negative"@[0]);
}

/// A receipt is written exactly if it has a time and one of the three exit codes, and its measurement
/// has a summary and lies in a directory.
pub proof fn only_a_finished_measurement_gets_a_receipt(
    options: MeasurementIndexOptions,
    summary_exists: bool,
)
    ensures
        managed_benchmark::index_failure(options, summary_exists) is None <==> {
            &&& options.recorded_at_unix_ms > 0
            &&& options.exit_code == 0 || options.exit_code == 1 || options.exit_code == 2
            &&& summary_exists
            &&& paths::parent(options.measurement_root@) is Some
        },
{
}

/// A receipt says what came of the measurement, and where it lies.
pub proof fn a_receipt_says_what_came_of_it(
    record: MeasurementIndexRecord,
    options: MeasurementIndexOptions,
)
    requires
        managed_benchmark::is_receipt(record, options),
    ensures
        record.schema_version == 1,
        record.recorded_at_unix_ms == options.recorded_at_unix_ms,
        record.exit_code == options.exit_code,
        record.outcome@ == options.outcome@,
        record.event@ == options.event@,
        record.record_id@ == options.record_id@,
        record.benchmark_id@ == options.benchmark_id@,
        record.measurement_set_id@ == options.measurement_set_id@,
        record.measurement_path@ == options.measurement_root@,
        record.measurement_summary@ == paths::joined(options.measurement_root@, "summary.json"@),
        text::opt(record.comparison_path) == text::opt(options.comparison_path),
{
}

// Managed benchmarks.

proof fn lemma_description(
    description: ManagedDescription,
    lock_exists: bool,
    files_exist: Seq<bool>,
    n: int,
)
    requires
        0 <= n <= files_exist.len(),
    ensures
        managed_benchmark::description_failure(description, lock_exists, files_exist, n) is None
            <==> {
            &&& description.schema_version == 1
            &&& description.cases@.len() > 0
            &&& description.source_files@.len() > 0
            &&& lock_exists
            &&& forall|i: int| 0 <= i < n ==> #[trigger] files_exist[i]
        },
    decreases n,
{
    if n > 0 {
        lemma_description(description, lock_exists, files_exist, n - 1);
    }
}

/// A description of a benchmark is accepted exactly if it is of the known version, has cases and
/// sources, its fixtures are pinned, and every file that it names is there.
pub proof fn only_a_whole_description_is_accepted(
    description: ManagedDescription,
    lock_exists: bool,
    files_exist: Seq<bool>,
)
    ensures
        managed_benchmark::description_failure(
            description,
            lock_exists,
            files_exist,
            files_exist.len() as int,
        ) is None <==> {
            &&& description.schema_version == 1
            &&& description.cases@.len() > 0
            &&& description.source_files@.len() > 0
            &&& lock_exists
            &&& forall|i: int| 0 <= i < files_exist.len() ==> #[trigger] files_exist[i]
        },
{
    lemma_description(description, lock_exists, files_exist, files_exist.len() as int);
}

/// Every case of a benchmark is measured, in Chromium, Firefox, and WebKit, and its result is compared
/// with what the case expects.
pub proof fn every_case_is_measured_in_every_engine(
    inputs: MaterializedInputs,
    places: ManagedPlaces,
    description: ManagedDescription,
    policy: TrialPolicy,
    i: int,
    engine: Engine,
)
    requires
        managed_benchmark::is_materialized(inputs, places, description, policy),
        0 <= i < description.cases@.len(),
    ensures
        inputs.benchmark.workloads@.len() == description.cases@.len(),
        inputs.benchmark.workloads@[i].id@ == description.cases@[i].id@,
        inputs.benchmark.workloads@[i].verifier is BuiltIn,
        inputs.benchmark.browser.engines@.contains(engine),
        inputs.traces@.len() == description.cases@.len(),
        benchmark_runtime::promises(
            inputs.traces@[i].record,
            "expected"@,
            description.cases@[i].expected,
        ),
        json_laws::meaning(inputs.traces@[i].record) matches Meaning::Names(names)
            && names.dom().contains("case_id"@) && names["case_id"@] == Meaning::Text(
            description.cases@[i].id@,
        ),
{
    assert(managed_benchmark::is_workload(
        inputs.benchmark.workloads@[i],
        places,
        description,
        description.cases@[i].id@,
    ));
    let engines = inputs.benchmark.browser.engines@;
    assert(engines[0] == Engine::Chromium && engines[1] == Engine::Firefox && engines[2]
        == Engine::Webkit);
    let trace = inputs.traces@[i];
    assert(managed_benchmark::is_trace(
        trace,
        places,
        description.cases@[i].id@,
        description.cases@[i].expected,
    ));
    reveal_strlit("case_id");
    reveal_strlit("expected");
    assert("case_id"@.len() != "expected"@.len());
    let members = trace.record->Object_0@;
    let names = json_laws::meaning(trace.record)->Names_0;
    assert(json_laws::named_at(members, "expected"@, 1));
    assert(json_laws::named_at(members, "case_id"@, 0));
    let k = choose|k: int| json_laws::named_at(members, "expected"@, k);
    assert(k == 1);
    let m = choose|m: int| json_laws::named_at(members, "case_id"@, m);
    assert(m == 0);
    assert(names["case_id"@] == json_laws::meaning(members[0].value));
}

// Trials.

/// A verdict is accepted exactly if a success names no category and no detail, and a failure names its
/// category.
pub proof fn only_a_consistent_verdict_is_accepted(verdict: VerifierVerdict)
    ensures
        benchmark_runtime::verdict_failure(verdict) is None <==> {
            &&& verdict.success ==> verdict.failure_category is None && verdict.detail is None
            &&& !verdict.success ==> verdict.failure_category is Some
        },
{
}

/// What is recorded of an attempt that measured something is valid, belongs to its trial, and is a
/// success exactly if the verdict is, with the category and the detail of the verdict.
pub proof fn a_measured_attempt_records_its_verdict(
    result: TrialResult,
    set: MeasurementSet,
    trial: ScheduledTrial,
    attempt: u32,
    environment: Seq<char>,
    verdict: VerifierVerdict,
)
    requires
        benchmark_runtime::is_measured_result(result, set, trial, attempt, environment, verdict),
    ensures
        result.valid,
        result.success == verdict.success,
        text::opt(result.failure_category) == text::opt(verdict.failure_category),
        text::opt(result.failure_detail) == text::opt(verdict.detail),
        result.invalidation_reason is None,
        result.schema_version == 7,
        result.measurement_set_id@ == set.schedule.measurement_set_id@,
        result.trial_id@ == trial.trial_id@,
        result.attempt == attempt,
        result.workload_id@ == trial.workload_id@,
        result.engine == trial.engine,
        result.phase == trial.phase,
        result.sample_index == trial.sample_index,
        result.environment_fingerprint@ == environment,
{
}

/// What is recorded of an attempt that failed is not valid and no success, and says why; it measured
/// nothing and left nothing.
pub proof fn a_failed_attempt_records_its_reason(
    result: TrialResult,
    set: MeasurementSet,
    trial: ScheduledTrial,
    attempt: u32,
    environment: Seq<char>,
    reason: Seq<char>,
)
    requires
        runner::is_invalid_result(result, set, trial, attempt, environment, reason),
    ensures
        result.schema_version == MEASUREMENT_SCHEMA_VERSION,
        !result.valid,
        !result.success,
        result.failure_category is None,
        result.failure_detail is None,
        text::opt(result.invalidation_reason) == Some(reason),
        result.metrics@.len() == 0,
        result.artifacts@.len() == 0,
        result.trial_id@ == trial.trial_id@,
        result.attempt == attempt,
        result.workload_id@ == trial.workload_id@,
        result.engine == trial.engine,
        result.phase == trial.phase,
        result.sample_index == trial.sample_index,
        result.environment_fingerprint@ == environment,
        result.measurement_set_id@ == set.schedule.measurement_set_id@,
{
}

proof fn lemma_lines(lines: Seq<WorkloadLine>, n: int)
    requires
        0 <= n <= lines.len(),
    ensures
        benchmark_runtime::lines_failure(lines, n) is None <==> forall|i: int|
            0 <= i < n ==> (#[trigger] lines[i]).blank || lines[i].read,
    decreases n,
{
    if n > 0 {
        lemma_lines(lines, n - 1);
    }
}

/// A workload is accepted exactly if it has an operation, and every line that is not blank is one.
pub proof fn only_a_workload_with_operations_is_accepted(lines: Seq<WorkloadLine>)
    ensures
        benchmark_runtime::workload_failure(lines) is None <==> {
            &&& exists|i: int| 0 <= i < lines.len() && !(#[trigger] lines[i]).blank
            &&& forall|i: int|
                0 <= i < lines.len() ==> (#[trigger] lines[i]).blank || lines[i].read
        },
{
    lemma_lines(lines, lines.len() as int);
}

/// An adapter is ready exactly if it speaks the known protocol and says where it listens.
pub proof fn only_a_reachable_adapter_is_ready(ready: AdapterReady)
    ensures
        benchmark_runtime::readiness_failure(ready) is None <==> ready.protocol_version == 2
            && exists|i: int|
            0 <= i < ready.url@.len() && !text::is_white(#[trigger] ready.url@[i]),
{
}

// Projects.

/// A file belongs to the project exactly if its path leads through the root, and it is a file.
pub proof fn only_files_below_the_root_belong_to_it(root: Seq<char>, file: ResolvedFile)
    ensures
        project_modules::location_failure(root, file) is None <==> {
            let base = paths::parts(root);
            let full = paths::parts(file.path@);
            &&& file.is_file
            &&& base.len() <= full.len()
            &&& full.take(base.len() as int) == base
        },
{
    let base = paths::parts(root);
    let full = paths::parts(file.path@);
    if base.is_prefix_of(full) {
        assert(full.take(base.len() as int) == base);
    }
}

proof fn lemma_sources(root: Seq<char>, sources: Seq<String>, files: Seq<ResolvedFile>, n: int)
    requires
        0 <= n,
    ensures
        project_modules::sources_failure(root, sources, files, n) is None <==> forall|i: int|
            0 <= i < n ==> #[trigger] belongs(root, sources, files, i),
    decreases n,
{
    if n > 0 {
        lemma_sources(root, sources, files, n - 1);
        assert(belongs(root, sources, files, n - 1) <==> project_modules::metadata_failure(
            root,
            sources[n - 1]@,
            files[n - 1],
        ) is None);
    }
}

/// The source at the place is named relative to the project, and its file belongs to the project.
pub open spec fn belongs(
    root: Seq<char>,
    sources: Seq<String>,
    files: Seq<ResolvedFile>,
    i: int,
) -> bool {
    &&& exists|k: int|
        0 <= k < sources[i]@.len() && !text::is_white(#[trigger] sources[i]@[k])
    &&& sources[i]@[0] != '/'
    &&& project_modules::location_failure(root, files[i]) is None
}

/// A bundle is accepted exactly if it was made by the known bundler for the module in question, from
/// some sources that all belong to the project, none of them twice.
pub proof fn only_a_bundle_of_the_project_is_accepted(
    root: Seq<char>,
    entry: Seq<char>,
    metadata: BundleMetadata,
    entry_file: ResolvedFile,
    files: Seq<ResolvedFile>,
)
    requires
        files.len() == metadata.source_files@.len(),
    ensures
        project_modules::bundle_failure(root, entry, metadata, entry_file, files) is None <==> {
            &&& metadata.schema_version == 1
            &&& metadata.bundler_name@ == "rolldown"@
            &&& exists|k: int|
                0 <= k < metadata.bundler_version@.len() && !text::is_white(
                    #[trigger] metadata.bundler_version@[k],
                )
            &&& exists|k: int|
                0 <= k < metadata.entry_path@.len() && !text::is_white(
                    #[trigger] metadata.entry_path@[k],
                )
            &&& metadata.entry_path@[0] != '/'
            &&& project_modules::location_failure(root, entry_file) is None
            &&& paths::parts(entry_file.path@) == paths::parts(entry)
            &&& files.len() > 0
            &&& forall|i: int|
                0 <= i < files.len() ==> #[trigger] belongs(
                    root,
                    metadata.source_files@,
                    files,
                    i,
                )
            &&& forall|i: int, j: int|
                0 <= i < j < files.len() ==> paths::parts((#[trigger] files[i]).path@)
                    != paths::parts((#[trigger] files[j]).path@)
        },
{
    lemma_sources(root, metadata.source_files@, files, files.len() as int);
}

// Comparisons.

/// A comparison belongs to a measurement exactly if it is about that measurement and its environment,
/// and has one result for each of Chromium, Firefox, and WebKit.
pub proof fn only_a_comparison_of_every_engine_is_accepted(
    measurement_set: Seq<char>,
    environment: Option<Seq<char>>,
    comparison: ComparisonSummary,
)
    ensures
        promotion::comparison_failure(measurement_set, environment, comparison) is None <==> {
            let engines = comparison.engines@;
            &&& comparison.candidate_measurement_set@ == measurement_set
            &&& text::opt(comparison.environment_fingerprint) == environment
            &&& engines.len() == 3
            &&& forall|engine: Engine| #[trigger]
                promotion::covers(engines, engine)
        },
        forall|engine: Engine|
            #![auto]
            promotion::covers(comparison.engines@, engine) <==> exists|i: int|
                0 <= i < comparison.engines@.len() && (#[trigger] comparison.engines@[i]).engine
                    == engine,
{
    let engines = comparison.engines@;
    assert(promotion::covers_all(engines) <==> engines.len() == 3 && forall|engine: Engine| #[trigger]
        promotion::covers(engines, engine)) by {
        if promotion::covers_all(engines) {
            assert forall|engine: Engine| #[trigger] promotion::covers(engines, engine) by {
                match engine {
                    Engine::Chromium => {},
                    Engine::Firefox => {},
                    Engine::Webkit => {},
                }
            }
        }
    }
}

/// A confirmation belongs to a cycle exactly if it measured the same benchmark and the same variant,
/// and was compared with the baseline that the cycle was compared with.
pub proof fn only_the_same_source_confirms_a_cycle(
    cycle: CycleRecord,
    original: MeasuredInputs,
    measured: MeasuredInputs,
    comparison: ComparisonSummary,
)
    ensures
        promotion::confirmation_failure(cycle, original, measured, comparison) is None <==> {
            &&& measured.benchmark_sha256@ == original.benchmark_sha256@
            &&& measured.variant_sha256@ == original.variant_sha256@
            &&& cycle.baseline_measurement_set matches Some(baseline)
            &&& comparison.baseline_measurement_set@ == baseline@
        },
{
}

// Selections.

/// A text names a cycle exactly if the cycle's identity begins with it.
pub proof fn a_beginning_names_a_cycle(requested: Seq<char>, choice: CycleChoice)
    ensures
        promotion::names(requested, choice) <==> requested.len() <= choice.cycle_id@.len()
            && choice.cycle_id@.take(requested.len() as int) == requested,
{
    if requested.is_prefix_of(choice.cycle_id@) {
        assert(choice.cycle_id@.take(requested.len() as int) == requested);
    }
}

/// The latest cycle was recorded after every other one, or at the same time and behind it in the list.
pub proof fn the_latest_cycle_was_recorded_last(choices: Seq<CycleChoice>, i: int, j: int)
    requires
        promotion::is_latest(choices, i),
        0 <= j < choices.len(),
    ensures
        0 <= i < choices.len(),
        choices[j].recorded_at_unix_ms <= choices[i].recorded_at_unix_ms,
        choices[j].recorded_at_unix_ms == choices[i].recorded_at_unix_ms ==> j <= i,
{
}

/// Among all choices one is the latest.
pub proof fn some_cycle_is_the_latest(choices: Seq<CycleChoice>) -> (i: int)
    requires
        choices.len() > 0,
    ensures
        promotion::is_latest(choices, i),
    decreases choices.len(),
{
    let last = choices.len() - 1;
    if last == 0 {
        0
    } else {
        let rest = choices.drop_last();
        let i = some_cycle_is_the_latest(rest);
        assert forall|j: int| 0 <= j < rest.len() implies #[trigger] choices[j] == rest[j] by {}
        let found = if choices[last].recorded_at_unix_ms >= rest[i].recorded_at_unix_ms {
            last
        } else {
            i
        };
        assert forall|j: int| 0 <= j < choices.len() implies (
        #[trigger] choices[j]).recorded_at_unix_ms < choices[found].recorded_at_unix_ms || (
        choices[j].recorded_at_unix_ms == choices[found].recorded_at_unix_ms && j <= found) by {
            if j < last {
                assert(choices[j] == rest[j]);
            }
        }
        found
    }
}

/// The promotions and the confirmations that are listed for a cycle are those of the cycle.
pub proof fn records_are_listed_for_their_cycle(events: Seq<LineageEvent>, id: Seq<char>)
    ensures
        forall|i: int| #[trigger]
            promotion::promotion_places(events, id).contains(i) <==> (0 <= i < events.len()
                && events[i] is Promotion && events[i]->Promotion_0.cycle_id@ == id),
        forall|i: int| #[trigger]
            promotion::confirmation_places(events, id).contains(i) <==> (0 <= i < events.len()
                && events[i] is Confirmation && events[i]->Confirmation_0.cycle_id@ == id),
    decreases events.len(),
{
    if events.len() > 0 {
        let rest = events.drop_last();
        let last = events.len() - 1;
        records_are_listed_for_their_cycle(rest, id);
        let p = promotion::promotion_places(rest, id);
        let q = promotion::confirmation_places(rest, id);
        assert forall|i: int| #[trigger]
            promotion::promotion_places(events, id).contains(i) <==> (0 <= i < events.len()
                && events[i] is Promotion && events[i]->Promotion_0.cycle_id@ == id) by {
            let all = promotion::promotion_places(events, id);
            if all != p {
                assert(all == p.push(last));
                assert(all[p.len() as int] == last);
                if all.contains(i) && i != last {
                    let k = choose|k: int| 0 <= k < all.len() && all[k] == i;
                    assert(p[k] == i);
                }
                if p.contains(i) {
                    let k = choose|k: int| 0 <= k < p.len() && p[k] == i;
                    assert(all[k] == i);
                }
            }
            if 0 <= i < last {
                assert(rest[i] == events[i]);
            }
            assert(p.contains(i) ==> i < last);
        }
        assert forall|i: int| #[trigger]
            promotion::confirmation_places(events, id).contains(i) <==> (0 <= i < events.len()
                && events[i] is Confirmation && events[i]->Confirmation_0.cycle_id@ == id) by {
            let all = promotion::confirmation_places(events, id);
            if all != q {
                assert(all == q.push(last));
                assert(all[q.len() as int] == last);
                if all.contains(i) && i != last {
                    let k = choose|k: int| 0 <= k < all.len() && all[k] == i;
                    assert(q[k] == i);
                }
                if q.contains(i) {
                    let k = choose|k: int| 0 <= k < q.len() && q[k] == i;
                    assert(all[k] == i);
                }
            }
            if 0 <= i < last {
                assert(rest[i] == events[i]);
            }
            assert(q.contains(i) ==> i < last);
        }
    }
}

// Reports.

proof fn lemma_accepted(promotions: Seq<PromotionRecord>, i: int, n: int)
    requires
        0 <= i < n,
    ensures
        text::includes(
            reports::accepted(promotions, n),
            "  accepted: "@ + promotions[i].baseline_measurement_set@ + "\n"@,
        ),
    decreases n,
{
    let part = "  accepted: "@ + promotions[i].baseline_measurement_set@ + "\n"@;
    let all = reports::accepted(promotions, n);
    let before = reports::accepted(promotions, n - 1);
    if i == n - 1 {
        assert(all.subrange(before.len() as int, (before.len() + part.len()) as int) == part);
        assert(text::stands_at(all, part, before.len() as int));
    } else {
        lemma_accepted(promotions, i, n - 1);
        let at = choose|at: int| #[trigger] text::stands_at(before, part, at);
        assert(all.subrange(at, at + part.len()) == before.subrange(at, at + part.len()));
        assert(text::stands_at(all, part, at));
    }
}

proof fn lemma_confirmed(confirmations: Seq<ConfirmationRecord>, i: int, n: int)
    requires
        0 <= i < n,
    ensures
        text::includes(
            reports::confirmed(confirmations, n),
            "  confirmation: "@ + confirmations[i].confirmation_measurement_set@ + " ("@
                + confirmations[i].outcome@ + ")\n"@,
        ),
    decreases n,
{
    let part = "  confirmation: "@ + confirmations[i].confirmation_measurement_set@ + " ("@
        + confirmations[i].outcome@ + ")\n"@;
    let all = reports::confirmed(confirmations, n);
    let before = reports::confirmed(confirmations, n - 1);
    if i == n - 1 {
        assert(all.subrange(before.len() as int, (before.len() + part.len()) as int) == part);
        assert(text::stands_at(all, part, before.len() as int));
    } else {
        lemma_confirmed(confirmations, i, n - 1);
        let at = choose|at: int| #[trigger] text::stands_at(before, part, at);
        assert(all.subrange(at, at + part.len()) == before.subrange(at, at + part.len()));
        assert(text::stands_at(all, part, at));
    }
}

/// What is shown of a cycle says whether it may be promoted, lists every promotion and every
/// confirmation of it, and ends with the change where that is asked for.
pub proof fn a_shown_cycle_says_what_became_of_it(
    cycle: CycleRecord,
    ready: bool,
    promotions: Seq<PromotionRecord>,
    confirmations: Seq<ConfirmationRecord>,
    diff: Option<String>,
)
    ensures
        ({
            let shown = reports::shown(cycle, ready, promotions, confirmations, diff);
            &&& ready ==> text::includes(shown, "  promotion readiness: "@ + "ready\n"@)
            &&& !ready ==> text::includes(
                shown,
                "  promotion readiness: "@ + "confirmation required\n"@,
            )
            &&& forall|i: int|
                0 <= i < promotions.len() ==> text::includes(
                    shown,
                    "  accepted: "@ + (#[trigger] promotions[i]).baseline_measurement_set@ + "\n"@,
                )
            &&& forall|i: int|
                0 <= i < confirmations.len() ==> text::includes(
                    shown,
                    "  confirmation: "@ + (#[trigger] confirmations[i]).confirmation_measurement_set@
                        + " ("@ + confirmations[i].outcome@ + ")\n"@,
                )
            &&& diff matches Some(diff) ==> shown.skip(shown.len() - diff@.len()) == diff@
        }),
{
    let shown = reports::shown(cycle, ready, promotions, confirmations, diff);
    let head = crate::lineage_text::cycle_text(cycle);
    let said = if ready {
        "ready\n"@
    } else {
        "confirmation required\n"@
    };
    let line = "  promotion readiness: "@ + said;
    let kept = reports::accepted(promotions, promotions.len() as int);
    let seen = reports::confirmed(confirmations, confirmations.len() as int);
    let tail = match diff {
        Some(diff) => diff@,
        None => ""@,
    };
    assert(shown == head + line + kept + seen + tail);
    assert(shown.subrange(head.len() as int, (head.len() + line.len()) as int) == line);
    assert(text::stands_at(shown, line, head.len() as int));
    let a = (head.len() + line.len()) as int;
    let b = a + kept.len();
    assert(shown.subrange(a, b) == kept);
    assert(shown.subrange(b, b + seen.len()) == seen);
    assert forall|i: int| 0 <= i < promotions.len() implies text::includes(
        shown,
        "  accepted: "@ + (#[trigger] promotions[i]).baseline_measurement_set@ + "\n"@,
    ) by {
        let part = "  accepted: "@ + promotions[i].baseline_measurement_set@ + "\n"@;
        lemma_accepted(promotions, i, promotions.len() as int);
        let at = choose|at: int| #[trigger] text::stands_at(kept, part, at);
        assert(shown.subrange(a + at, a + at + part.len()) == kept.subrange(at, at + part.len()));
        assert(text::stands_at(shown, part, a + at));
    }
    assert forall|i: int| 0 <= i < confirmations.len() implies text::includes(
        shown,
        "  confirmation: "@ + (#[trigger] confirmations[i]).confirmation_measurement_set@ + " ("@
            + confirmations[i].outcome@ + ")\n"@,
    ) by {
        let part = "  confirmation: "@ + confirmations[i].confirmation_measurement_set@ + " ("@
            + confirmations[i].outcome@ + ")\n"@;
        lemma_confirmed(confirmations, i, confirmations.len() as int);
        let at = choose|at: int| #[trigger] text::stands_at(seen, part, at);
        assert(shown.subrange(b + at, b + at + part.len()) == seen.subrange(at, at + part.len()));
        assert(text::stands_at(shown, part, b + at));
    }
    if diff is Some {
        assert(shown.skip(shown.len() - tail.len()) == tail);
    }
}

/// A managed benchmark is measured under fixed conditions: in a fresh headless browser of every engine,
/// with a cold cache and no network, for its profiles and heaps, as often as the policy says, and it is
/// judged strictly in every engine.
pub proof fn a_managed_benchmark_is_measured_under_fixed_conditions(
    benchmark: BenchmarkManifest,
    places: ManagedPlaces,
    description: ManagedDescription,
    policy: TrialPolicy,
)
    requires
        managed_benchmark::is_managed_benchmark(benchmark, places, description, policy),
    ensures
        benchmark.schema_version == 1,
        benchmark.benchmark.id@ == description.benchmark_id@,
        benchmark.benchmark.subject@ == description.benchmark_id@,
        benchmark.browser.engines@ == seq![Engine::Chromium, Engine::Firefox, Engine::Webkit],
        benchmark.browser.mode@ == "headless"@,
        benchmark.browser.viewport.width == 1440,
        benchmark.browser.viewport.height == 900,
        benchmark.browser.locale@ == "en-US"@,
        benchmark.browser.timezone@ == "UTC"@,
        benchmark.browser.color_scheme@ == "light"@,
        benchmark.browser.cache@ == "cold"@,
        benchmark.browser.network_policy@ == "local-only"@,
        benchmark.browser.fresh_profile_per_trial,
        benchmark.captures.cpu_profile,
        benchmark.captures.js_heap,
        benchmark.trials.mode is Label,
        benchmark.trials.mode->Label_0@ == "auto"@,
        benchmark.trials.randomize_order,
        benchmark.trials.schedule_seed == 730241,
        benchmark.trials.warmup_samples == policy.warmup_samples,
        benchmark.trials.pilot_samples == policy.pilot_samples,
        benchmark.trials.min_final_samples == policy.min_final_samples,
        benchmark.trials.max_final_samples == policy.max_final_samples,
        benchmark.statistics.bootstrap_samples == 10000,
        benchmark.statistics.cross_engine_policy@ == "strict_all"@,
        benchmark.statistics.primary_metrics@.len() == 3,
        benchmark.statistics.primary_metrics@[0]@ == "workload.wall_ms"@,
        benchmark.statistics.primary_metrics@[1]@ == "browser.cpu_profile.active_ms"@,
        benchmark.statistics.primary_metrics@[2]@ == "browser.js_heap.live_bytes"@,
        benchmark.statistics.minimum_effect_pct@.len() == 3,
        forall|i: int|
            0 <= i < 3 ==> (#[trigger] benchmark.statistics.minimum_effect_pct@[i]).name@
                == benchmark.statistics.primary_metrics@[i]@
                && benchmark.statistics.minimum_effect_pct@[i].minimum_effect_pct.bits
                == 0x4014_0000_0000_0000,
        benchmark.statistics.confidence.bits == 0x3fee_6666_6666_6666,
        benchmark.statistics.minimum_success_rate.bits == 0x3fee_6666_6666_6666,
        benchmark.statistics.max_regression_percentage_points.bits == 0x3ff0_0000_0000_0000,
        benchmark.statistics.protected_metric_max_regression_pct.bits == 0x4008_0000_0000_0000,
{
    let statistics = benchmark.statistics;
    let named = text::views(statistics.primary_metrics@);
    assert(named.len() == statistics.primary_metrics@.len());
    assert(managed_benchmark::managed_metrics().len() == 3);
    assert forall|i: int| 0 <= i < 3 implies #[trigger] named[i]
        == statistics.primary_metrics@[i]@ by {}
    assert(named[0] == "workload.wall_ms"@);
    assert(named[1] == "browser.cpu_profile.active_ms"@);
    assert(named[2] == "browser.js_heap.live_bytes"@);
    assert forall|i: int| 0 <= i < 3 implies (
    #[trigger] statistics.minimum_effect_pct@[i]).name@ == statistics.primary_metrics@[i]@ by {
        assert(named[i] == statistics.primary_metrics@[i]@);
    }
}

/// The workload of a case is checked exactly, against the trace written for the case; its identity is
/// that of the module, the fixture lock, and the fixtures.
pub proof fn a_managed_workload_reads_its_trace(
    workload: WorkloadSpec,
    trace: TraceFile,
    places: ManagedPlaces,
    description: ManagedDescription,
    case_id: Seq<char>,
    expected: JsonValue,
    file: Seq<char>,
)
    requires
        managed_benchmark::is_workload(workload, places, description, case_id),
        managed_benchmark::is_trace(trace, places, case_id, expected),
    ensures
        workload.id@ == case_id,
        workload.trace_file@ == sidecar_runtime::for_node(trace.path@, places.platform),
        trace.path@ == paths::joined(
            paths::joined(places.generated_root@, "workloads"@),
            case_id + ".jsonl"@,
        ),
        workload.verifier == VerifierSpec::BuiltIn(BuiltInVerifier::Exact),
        text::views(workload.identity_files@).contains(file) <==> {
            ||| file == sidecar_runtime::for_node(places.benchmark_module@, places.platform)
            ||| file == sidecar_runtime::for_node(description.fixture_lock@, places.platform)
            ||| exists|k: int|
                0 <= k < description.fixture_files@.len() && file == sidecar_runtime::for_node(
                    (#[trigger] description.fixture_files@[k])@,
                    places.platform,
                )
        },
{
    lemma_node_paths(description.fixture_files@, places.platform, file);
}

proof fn lemma_node_paths(files: Seq<String>, platform: HostPlatform, file: Seq<char>)
    ensures
        managed_benchmark::node_paths(files, platform).contains(file) <==> exists|k: int|
            0 <= k < files.len() && file == sidecar_runtime::for_node(
                (#[trigger] files[k])@,
                platform,
            ),
{
    let listed = managed_benchmark::node_paths(files, platform);
    assert(listed.len() == files.len());
    if listed.contains(file) {
        let k = choose|k: int| 0 <= k < listed.len() && listed[k] == file;
        assert(file == sidecar_runtime::for_node(files[k]@, platform));
    }
    if exists|k: int|
        0 <= k < files.len() && file == sidecar_runtime::for_node(
            (#[trigger] files[k])@,
            platform,
        ) {
        let k = choose|k: int|
            0 <= k < files.len() && file == sidecar_runtime::for_node(
                (#[trigger] files[k])@,
                platform,
            );
        assert(listed[k] == file);
    }
}

/// The variant of a managed benchmark serves its module from its root with its fixture lock; its
/// identity is that of the module, the sidecar, and the sources.
pub proof fn a_managed_variant_serves_its_module(
    variant: VariantDescriptor,
    places: ManagedPlaces,
    description: ManagedDescription,
    file: Seq<char>,
)
    requires
        managed_benchmark::is_managed_variant(variant, places, description),
    ensures
        variant.schema_version == 1,
        variant.id@ == "worktree"@,
        variant.subject@ == description.benchmark_id@,
        variant.adapter.ready_protocol@ == "stdio-json"@,
        variant.adapter.ready_timeout_seconds == 15,
        variant.adapter.command@.len() == 9,
        variant.adapter.command@[0]@ == sidecar_runtime::for_node(places.node@, places.platform),
        variant.adapter.command@[3]@ == "serve"@,
        variant.adapter.command@[4]@ == sidecar_runtime::for_node(
            places.benchmark_module@,
            places.platform,
        ),
        variant.adapter.command@[5]@ == "--root"@,
        variant.adapter.command@[6]@ == sidecar_runtime::for_node(places.root@, places.platform),
        variant.adapter.command@[7]@ == "--lock"@,
        variant.adapter.command@[8]@ == sidecar_runtime::for_node(
            description.fixture_lock@,
            places.platform,
        ),
        text::views(variant.implementation_files@).contains(file) <==> {
            ||| file == sidecar_runtime::for_node(places.benchmark_module@, places.platform)
            ||| exists|k: int|
                0 <= k < places.sidecar_files@.len() && file == sidecar_runtime::for_node(
                    (#[trigger] places.sidecar_files@[k])@,
                    places.platform,
                )
            ||| exists|k: int|
                0 <= k < description.source_files@.len() && file == sidecar_runtime::for_node(
                    (#[trigger] description.source_files@[k])@,
                    places.platform,
                )
        },
{
    lemma_node_paths(places.sidecar_files@, places.platform, file);
    lemma_node_paths(description.source_files@, places.platform, file);
    let command = text::views(variant.adapter.command@);
    assert(command.len() == variant.adapter.command@.len());
    assert(managed_benchmark::serve_command(places, description).len() == 9);
    assert forall|k: int| 0 <= k < 9 implies #[trigger] variant.adapter.command@[k]@
        == managed_benchmark::serve_command(places, description)[k] by {
        assert(command[k] == variant.adapter.command@[k]@);
    }
}

/// What is written for a benchmark lies in its generated root, and the sources are its own.
pub proof fn what_is_written_lies_in_the_generated_root(
    inputs: MaterializedInputs,
    places: ManagedPlaces,
    description: ManagedDescription,
    policy: TrialPolicy,
)
    requires
        managed_benchmark::is_materialized(inputs, places, description, policy),
    ensures
        inputs.benchmark_path@ == paths::joined(places.generated_root@, "benchmark.json"@),
        inputs.variant_path@ == paths::joined(places.generated_root@, "variant.json"@),
        inputs.workspace_root@ == places.root@,
        inputs.source_files == description.source_files,
        managed_benchmark::is_managed_benchmark(inputs.benchmark, places, description, policy),
        managed_benchmark::is_managed_variant(inputs.variant, places, description),
{
}

} // verus!
