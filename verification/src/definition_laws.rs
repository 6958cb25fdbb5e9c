//! What holds of every benchmark, variant, and environment that is accepted.

use vstd::prelude::*;
use vstd::string::*;
use vstd::utf8::*;

use crate::browser_lab;
use crate::browser_lab::{CaptureEvidence, Engine};
use crate::commands;
use crate::commands::EngineSelection;
use crate::digest;
use crate::environment;
use crate::environment::{EnvironmentIdentity, EnvironmentRecord};
use crate::manifest;
use crate::manifest::{
    BenchmarkManifest, BrowserSpec, MetricPolicy, SamplesError, StatisticsSpec, TrialCount,
    TrialsSpec, VariantDescriptor, VerifierSpec, WorkloadSpec,
};
use crate::number;
use crate::number::Number;
use crate::paths;
use crate::text;

verus! {

// Benchmarks.

/// The text is one or more letters, digits, hyphens, underscores, and dots.
pub open spec fn is_plain_name(s: Seq<char>) -> bool {
    s.len() > 0 && forall|i: int|
        0 <= i < s.len() ==> {
            ||| 'a' <= (#[trigger] s[i]) <= 'z'
            ||| 'A' <= s[i] <= 'Z'
            ||| '0' <= s[i] <= '9'
            ||| s[i] == '-'
            ||| s[i] == '_'
            ||| s[i] == '.'
        }
}

/// The text has a character that is not white space.
pub open spec fn has_content(s: Seq<char>) -> bool {
    exists|i: int| 0 <= i < s.len() && !text::is_white(#[trigger] s[i])
}

proof fn lemma_content(s: Seq<char>)
    ensures
        text::blank(s) <==> !has_content(s),
{
}

/// A name is accepted exactly if it is a plain one; a blank one is refused as such.
pub proof fn only_plain_names_are_accepted(field: manifest::Field, value: Seq<char>)
    ensures
        manifest::identifier_failure(field, value) is None <==> is_plain_name(value),
        !has_content(value) ==> manifest::identifier_failure(field, value) == Some(
            manifest::ManifestError::Blank(field),
        ),
{
    lemma_content(value);
    assert(text::is_identifier(value) <==> is_plain_name(value)) by {
        if is_plain_name(value) {
            assert forall|i: int| 0 <= i < value.len() implies text::is_identifier_char(
                #[trigger] value[i],
            ) by {}
        }
        if text::is_identifier(value) {
            assert forall|i: int| 0 <= i < value.len() implies {
                ||| 'a' <= (#[trigger] value[i]) <= 'z'
                ||| 'A' <= value[i] <= 'Z'
                ||| '0' <= value[i] <= '9'
                ||| value[i] == '-'
                ||| value[i] == '_'
                ||| value[i] == '.'
            } by {
                assert(text::is_identifier_char(value[i]));
            }
        }
    }
    if is_plain_name(value) {
        assert(!text::is_white(value[0]));
    }
}

/// A process is named with its command, no part of which is empty, the files that it is made of, none
/// of them twice, and a time limit.
pub open spec fn is_runnable(verifier: VerifierSpec) -> bool {
    verifier matches VerifierSpec::Process(process) ==> {
        &&& process.command@.len() > 0
        &&& forall|i: int|
            0 <= i < process.command@.len() ==> (#[trigger] process.command@[i])@.len() > 0
        &&& process.identity_files@.len() > 0
        &&& paths::distinct(process.identity_files@)
        &&& process.timeout_seconds > 0
    }
}

proof fn lemma_workloads(workloads: Seq<WorkloadSpec>, n: int)
    requires
        0 <= n <= workloads.len(),
    ensures
        manifest::workloads_failure(workloads, n) is None <==> {
            &&& forall|i: int|
                0 <= i < n ==> is_plain_name((#[trigger] workloads[i]).id@) && paths::distinct(
                    workloads[i].identity_files@,
                ) && is_runnable(workloads[i].verifier)
            &&& forall|i: int, j: int|
                0 <= i < j < n ==> (#[trigger] workloads[i]).id@ != (#[trigger] workloads[j]).id@
        },
    decreases n,
{
    if n > 0 {
        lemma_workloads(workloads, n - 1);
        let last = workloads[n - 1];
        only_plain_names_are_accepted(
            manifest::Field::WorkloadId((n - 1) as usize),
            last.id@,
        );
        assert(manifest::verifier_failure(last.verifier) is None <==> is_runnable(last.verifier));
        if manifest::names_workload(workloads, n - 1, last.id@) {
            let i = choose|i: int| 0 <= i < n - 1 && (#[trigger] workloads[i]).id@ == last.id@;
            assert(workloads[i].id@ == workloads[n - 1].id@);
        }
    }
}

/// The browser is one that is measured: some engines, none twice, headless, with a viewport, a locale,
/// a time zone, a color scheme, a cold cache, no network but the local one, and a fresh profile for
/// every trial.
pub open spec fn is_measurable(browser: BrowserSpec) -> bool {
    &&& browser.engines@.len() > 0
    &&& forall|i: int, j: int|
        0 <= i < j < browser.engines@.len() ==> (#[trigger] browser.engines@[i]) != (
        #[trigger] browser.engines@[j])
    &&& browser.mode@ == "headless"@
    &&& browser.viewport.width > 0 && browser.viewport.height > 0
    &&& has_content(browser.locale@)
    &&& has_content(browser.timezone@)
    &&& browser.color_scheme@ == "light"@ || browser.color_scheme@ == "dark"@
        || browser.color_scheme@ == "no-preference"@
    &&& browser.cache@ == "cold"@
    &&& browser.network_policy@ == "local-only"@
    &&& browser.fresh_profile_per_trial
}

proof fn lemma_browser(browser: BrowserSpec)
    ensures
        manifest::browser_failure(browser) is None <==> is_measurable(browser),
{
    lemma_content(browser.locale@);
    lemma_content(browser.timezone@);
    lemma_content(browser.mode@);
    lemma_content(browser.color_scheme@);
    lemma_content(browser.cache@);
    lemma_content(browser.network_policy@);
    reveal_strlit("headless");
    reveal_strlit("light");
    reveal_strlit("dark");
    reveal_strlit("no-preference");
    reveal_strlit("cold");
    reveal_strlit("local-only");
    assert(!text::is_white("headless"@[0]));
    assert(!text::is_white("light"@[0]));
    assert(!text::is_white("dark"@[0]));
    assert(!text::is_white("no-preference"@[0]));
    assert(!text::is_white("cold"@[0]));
    assert(!text::is_white("local-only"@[0]));
    let engines = browser.engines@;
    assert(engines.no_duplicates() <==> forall|i: int, j: int|
        0 <= i < j < engines.len() ==> (#[trigger] engines[i]) != (#[trigger] engines[j])) by {
        if forall|i: int, j: int|
            0 <= i < j < engines.len() ==> (#[trigger] engines[i]) != (#[trigger] engines[j]) {
            assert forall|i: int, j: int|
                0 <= i < engines.len() && 0 <= j < engines.len() && i != j implies engines[i]
                != engines[j] by {
                if j < i {
                    assert(engines[j] != engines[i]);
                }
            }
        }
    }
}

/// The number of final samples lies in a range that is not empty, and where it is fixed, in that range.
pub open spec fn has_sample_range(trials: TrialsSpec) -> bool {
    &&& 1 <= trials.min_final_samples <= trials.max_final_samples
    &&& trials.mode matches TrialCount::Count(count) ==> trials.min_final_samples <= count
        <= trials.max_final_samples
}

/// The metric can decide: it is one that every trial measures and a benchmark may ask for, with a
/// smallest effect that is finite and not negative.
pub open spec fn can_decide(statistics: StatisticsSpec, metric: Seq<char>) -> bool {
    &&& metric == "workload.wall_ms"@ || metric == "variant.call_wall_ms"@ || metric
        == "browser.cpu_profile.active_ms"@ || metric == "browser.js_heap.live_bytes"@
    &&& manifest::minimum_effect(statistics.minimum_effect_pct@, metric) matches Some(effect)
        && number::finite_non_negative(effect)
}

proof fn lemma_metrics(statistics: StatisticsSpec, n: int)
    requires
        0 <= n <= statistics.primary_metrics@.len(),
    ensures
        manifest::metrics_failure(statistics, n) is None <==> forall|i: int|
            0 <= i < n ==> can_decide(statistics, (#[trigger] statistics.primary_metrics@[i])@),
    decreases n,
{
    if n > 0 {
        lemma_metrics(statistics, n - 1);
        let metric = statistics.primary_metrics@[n - 1]@;
        lemma_content(metric);
        reveal_strlit("workload.wall_ms");
        reveal_strlit("variant.call_wall_ms");
        reveal_strlit("browser.cpu_profile.active_ms");
        reveal_strlit("browser.js_heap.live_bytes");
        if can_decide(statistics, metric) {
            assert(metric.len() > 0);
            assert(!text::is_white(metric[0]));
        }
    }
}

/// The effects are decided with a confidence from zero up to but not including one, with enough
/// samples, by primary metrics that can decide, and with bounds that are in their ranges; and one
/// engine that regressed decides for all.
pub open spec fn can_be_decided(statistics: StatisticsSpec) -> bool {
    &&& number::zero().at_most(statistics.confidence)
    &&& statistics.confidence.less(Number { bits: 0x3ff0_0000_0000_0000 })
    &&& statistics.bootstrap_samples >= 1_000
    &&& statistics.primary_metrics@.len() > 0
    &&& forall|i: int|
        0 <= i < statistics.primary_metrics@.len() ==> can_decide(
            statistics,
            (#[trigger] statistics.primary_metrics@[i])@,
        )
    &&& number::zero().at_most(statistics.minimum_success_rate)
    &&& statistics.minimum_success_rate.at_most(Number { bits: 0x3ff0_0000_0000_0000 })
    &&& number::zero().at_most(statistics.max_regression_percentage_points)
    &&& statistics.max_regression_percentage_points.at_most(
        Number { bits: 0x4059_0000_0000_0000 },
    )
    &&& statistics.cross_engine_policy@ == "strict_all"@
    &&& number::finite_non_negative(statistics.protected_metric_max_regression_pct)
}

/// A benchmark is accepted exactly if it is of the known version, has plain names, some workloads, none
/// twice and each with a verifier that can run, a browser that is measured, both captures, a range of
/// final samples, and statistics that can decide.
pub proof fn only_a_sound_benchmark_is_accepted(benchmark: BenchmarkManifest)
    ensures
        manifest::benchmark_failure(benchmark) is None <==> {
            let workloads = benchmark.workloads@;
            &&& benchmark.schema_version == 1
            &&& is_plain_name(benchmark.benchmark.id@)
            &&& is_plain_name(benchmark.benchmark.subject@)
            &&& workloads.len() > 0
            &&& forall|i: int|
                0 <= i < workloads.len() ==> is_plain_name((#[trigger] workloads[i]).id@)
                    && paths::distinct(workloads[i].identity_files@) && is_runnable(
                    workloads[i].verifier,
                )
            &&& forall|i: int, j: int|
                0 <= i < j < workloads.len() ==> (#[trigger] workloads[i]).id@ != (
                #[trigger] workloads[j]).id@
            &&& is_measurable(benchmark.browser)
            &&& benchmark.captures.cpu_profile && benchmark.captures.js_heap
            &&& has_sample_range(benchmark.trials)
            &&& can_be_decided(benchmark.statistics)
        },
{
    only_plain_names_are_accepted(manifest::Field::BenchmarkId, benchmark.benchmark.id@);
    only_plain_names_are_accepted(manifest::Field::BenchmarkSubject, benchmark.benchmark.subject@);
    lemma_workloads(benchmark.workloads@, benchmark.workloads@.len() as int);
    lemma_browser(benchmark.browser);
    lemma_metrics(
        benchmark.statistics,
        benchmark.statistics.primary_metrics@.len() as int,
    );
}

/// A variant is accepted exactly if it is of the known version, has plain names, a command no part of
/// which is empty, some files, none of them twice, and announces that it is ready in the known way
/// within a time limit.
pub proof fn only_a_sound_variant_is_accepted(variant: VariantDescriptor)
    ensures
        manifest::variant_failure(variant) is None <==> {
            &&& variant.schema_version == 1
            &&& is_plain_name(variant.id@)
            &&& is_plain_name(variant.subject@)
            &&& variant.adapter.command@.len() > 0
            &&& forall|i: int|
                0 <= i < variant.adapter.command@.len() ==> (
                #[trigger] variant.adapter.command@[i])@.len() > 0
            &&& variant.implementation_files@.len() > 0
            &&& paths::distinct(variant.implementation_files@)
            &&& variant.adapter.ready_protocol@ == "stdio-json"@
            &&& variant.adapter.ready_timeout_seconds > 0
        },
{
    only_plain_names_are_accepted(manifest::Field::VariantId, variant.id@);
    only_plain_names_are_accepted(manifest::Field::VariantSubject, variant.subject@);
    lemma_content(variant.adapter.ready_protocol@);
    reveal_strlit("stdio-json");
    assert(!text::is_white("stdio-json"@[0]));
}

/// The smallest effect of a metric is the one that was given last under its name.
pub proof fn the_last_effect_of_a_metric_counts(effects: Seq<MetricPolicy>, metric: Seq<char>)
    ensures
        match manifest::minimum_effect(effects, metric) {
            Some(effect) => exists|i: int|
                0 <= i < effects.len() && (#[trigger] effects[i]).name@ == metric
                    && effects[i].minimum_effect_pct == effect && forall|j: int|
                    i < j < effects.len() ==> (#[trigger] effects[j]).name@ != metric,
            None => forall|i: int|
                0 <= i < effects.len() ==> (#[trigger] effects[i]).name@ != metric,
        },
    decreases effects.len(),
{
    if effects.len() > 0 {
        let last = effects.len() - 1;
        if effects[last].name@ != metric {
            let rest = effects.drop_last();
            the_last_effect_of_a_metric_counts(rest, metric);
            match manifest::minimum_effect(rest, metric) {
                Some(effect) => {
                    let i = choose|i: int|
                        0 <= i < rest.len() && (#[trigger] rest[i]).name@ == metric
                            && rest[i].minimum_effect_pct == effect && forall|j: int|
                            i < j < rest.len() ==> (#[trigger] rest[j]).name@ != metric;
                    assert(effects[i].name@ == metric);
                    assert forall|j: int| i < j < effects.len() implies (
                    #[trigger] effects[j]).name@ != metric by {
                        if j < last {
                            assert(rest[j] == effects[j]);
                        }
                    }
                },
                None => {
                    assert forall|j: int| 0 <= j < effects.len() implies (
                    #[trigger] effects[j]).name@ != metric by {
                        if j < last {
                            assert(rest[j] == effects[j]);
                        }
                    }
                },
            }
        } else {
            assert(effects[last].name@ == metric);
        }
    }
}

/// The workload that is found by a name is the first that has it.
pub proof fn a_workload_is_found_by_its_name(workloads: Seq<WorkloadSpec>, id: Seq<char>)
    ensures
        match manifest::workload_with(workloads, id) {
            Some(workload) => exists|i: int|
                0 <= i < workloads.len() && #[trigger] workloads[i] == workload && workload.id@ == id
                    && forall|j: int| 0 <= j < i ==> (#[trigger] workloads[j]).id@ != id,
            None => forall|i: int| 0 <= i < workloads.len() ==> (#[trigger] workloads[i]).id@ != id,
        },
    decreases workloads.len(),
{
    if workloads.len() > 0 && workloads[0].id@ != id {
        let rest = workloads.drop_first();
        a_workload_is_found_by_its_name(rest, id);
        match manifest::workload_with(rest, id) {
            Some(workload) => {
                let i = choose|i: int|
                    0 <= i < rest.len() && #[trigger] rest[i] == workload && workload.id@ == id
                        && forall|j: int| 0 <= j < i ==> (#[trigger] rest[j]).id@ != id;
                assert(workloads[i + 1] == workload);
                assert forall|j: int| 0 <= j < i + 1 implies (#[trigger] workloads[j]).id@ != id by {
                    if j > 0 {
                        assert(rest[j - 1] == workloads[j]);
                    }
                }
            },
            None => {
                assert forall|j: int| 0 <= j < workloads.len() implies (#[trigger] workloads[j]).id@
                    != id by {
                    if j > 0 {
                        assert(rest[j - 1] == workloads[j]);
                    }
                }
            },
        }
    }
}

/// The identity of a benchmark is computed from every file that its workloads name: their operations,
/// the files they are made of, and those of their verifiers.
pub proof fn every_named_file_belongs_to_the_identity(workloads: Seq<WorkloadSpec>, i: int)
    requires
        0 <= i < workloads.len(),
    ensures
        ({
            let all = manifest::workload_files(workloads);
            &&& all.contains(workloads[i].trace_file@)
            &&& forall|k: int|
                0 <= k < workloads[i].identity_files@.len() ==> all.contains(
                    (#[trigger] workloads[i].identity_files@[k])@,
                )
            &&& workloads[i].verifier matches VerifierSpec::Process(process) ==> forall|k: int|
                0 <= k < process.identity_files@.len() ==> all.contains(
                    (#[trigger] process.identity_files@[k])@,
                )
        }),
    decreases workloads.len(),
{
    let all = manifest::workload_files(workloads);
    let last = workloads.last();
    let before = manifest::workload_files(workloads.drop_last());
    let own = text::views(last.identity_files@);
    let checks = manifest::verifier_files(last.verifier);
    assert(all == before.push(last.trace_file@) + own + checks);
    assert forall|x: Seq<char>| before.contains(x) implies #[trigger] all.contains(x) by {
        let k = choose|k: int| 0 <= k < before.len() && before[k] == x;
        assert(all[k] == x);
    }
    if i < workloads.len() - 1 {
        every_named_file_belongs_to_the_identity(workloads.drop_last(), i);
        assert(workloads.drop_last()[i] == workloads[i]);
    } else {
        assert(all[before.len() as int] == last.trace_file@);
        assert forall|k: int| 0 <= k < last.identity_files@.len() implies all.contains(
            (#[trigger] last.identity_files@[k])@,
        ) by {
            assert(all[before.len() + 1 + k] == own[k]);
        }
        if let VerifierSpec::Process(process) = last.verifier {
            assert forall|k: int| 0 <= k < process.identity_files@.len() implies all.contains(
                (#[trigger] process.identity_files@[k])@,
            ) by {
                assert(all[before.len() + 1 + own.len() + k] == checks[k]);
            }
        }
    }
}

// Samples.

/// A number of final samples is settled exactly if it lies in the benchmark's range, and is either the
/// one that the benchmark fixes, with none or the same asked for, or the one that is asked for where
/// the benchmark leaves it open.
pub proof fn final_samples_are_as_asked_or_fixed(trials: TrialsSpec, requested: Option<u32>)
    ensures
        match manifest::final_samples(trials, requested) {
            Ok(count) => {
                &&& trials.min_final_samples <= count <= trials.max_final_samples
                &&& trials.mode matches TrialCount::Count(fixed) ==> count == fixed && (requested
                    is None || requested == Some(fixed))
                &&& trials.mode matches TrialCount::Label(label) ==> label@ == "auto"@ && requested
                    == Some(count)
            },
            Err(error) => {
                ||| error == SamplesError::UnsupportedMode && (
                trials.mode matches TrialCount::Label(label) && label@ != "auto"@)
                ||| error == SamplesError::Undecided && requested is None && trials.mode is Label
                ||| (error matches SamplesError::Conflict { fixed, requested: asked } && trials.mode
                    == TrialCount::Count(fixed) && requested == Some(asked) && fixed != asked)
                ||| (error matches SamplesError::OutOfRange(count) && !(trials.min_final_samples
                    <= count <= trials.max_final_samples))
            },
        },
{
}

/// A budget can choose the number of final samples exactly if the benchmark leaves it open and has at
/// least two pilots; it then chooses from the benchmark's range.
pub proof fn a_budget_needs_an_open_number_and_pilots(trials: TrialsSpec)
    ensures
        match manifest::adaptive_range(trials) {
            Ok((least, most)) => {
                &&& trials.mode matches TrialCount::Label(label)
                &&& label@ == "auto"@
                &&& trials.pilot_samples >= 2
                &&& least == trials.min_final_samples && most == trials.max_final_samples
            },
            Err(_) => trials.mode is Count || trials.pilot_samples < 2 || (
            trials.mode matches TrialCount::Label(label) && label@ != "auto"@),
        },
{
}

// Environments.

/// The capture that counts for an engine is the last of it.
pub proof fn the_last_capture_of_an_engine_counts(
    captures: Seq<CaptureEvidence>,
    engine: Engine,
    n: int,
)
    requires
        0 <= n <= captures.len(),
    ensures
        match environment::last_capture(captures, engine, n) {
            Some(i) => 0 <= i < n && captures[i].engine == engine && forall|j: int|
                i < j < n ==> (#[trigger] captures[j]).engine != engine,
            None => forall|j: int| 0 <= j < n ==> (#[trigger] captures[j]).engine != engine,
        },
    decreases n,
{
    if n > 0 && captures[n - 1].engine != engine {
        the_last_capture_of_an_engine_counts(captures, engine, n - 1);
    }
}

/// Captures make one environment exactly if there are some, and all of them ran on the same Node,
/// Playwright, platform, architecture, system, processor, and memory.
pub proof fn captures_of_one_runtime_make_an_environment(captures: Seq<CaptureEvidence>)
    ensures
        environment::identity_failure(captures) is None <==> {
            &&& captures.len() > 0
            &&& forall|i: int|
                0 <= i < captures.len() ==> {
                    let a = (#[trigger] captures[i]).runtime;
                    let b = captures[0].runtime;
                    &&& a.node@ == b.node@ && a.playwright@ == b.playwright@
                    &&& a.platform@ == b.platform@ && a.arch@ == b.arch@
                    &&& a.os_release@ == b.os_release@ && a.cpu_model@ == b.cpu_model@
                    &&& a.logical_cpus == b.logical_cpus
                    &&& a.total_memory_bytes == b.total_memory_bytes
                }
        },
{
}

/// Every engine that was captured is among the browsers of the environment, with the executable and
/// the version of its last capture.
pub proof fn every_captured_engine_is_pinned(
    identity: EnvironmentIdentity,
    captures: Seq<CaptureEvidence>,
    version: Seq<char>,
    i: int,
) -> (k: int)
    requires
        environment::is_identity(identity, captures, version),
        0 <= i < captures.len(),
        forall|j: int| i < j < captures.len() ==> (#[trigger] captures[j]).engine
            != captures[i].engine,
    ensures
        identity.bperf_version@ == version,
        identity.browser_lab_protocol_version == 9,
        0 <= k < identity.browsers@.len(),
        identity.browsers@[k].engine@ == browser_lab::engine_name(captures[i].engine),
        identity.browsers@[k].executable_path@ == captures[i].browser.executable_path@,
        identity.browsers@[k].version@ == captures[i].browser.version@,
{
    let engine = captures[i].engine;
    the_last_capture_of_an_engine_counts(captures, engine, captures.len() as int);
    let wanted = |e: Engine|
        environment::last_capture(captures, e, captures.len() as int) is Some;
    let all = browser_lab::all_engines();
    let engines = environment::captured_engines(captures);
    assert(all[0] == Engine::Chromium && all[1] == Engine::Firefox && all[2] == Engine::Webkit);
    assert(all.contains(engine));
    broadcast use vstd::seq_lib::group_filter_ensures;

    assert(engines == all.filter(wanted));
    assert(wanted(engine));
    assert(engines.contains(engine));
    let k = choose|k: int| 0 <= k < engines.len() && engines[k] == engine;
    assert(environment::is_build(identity.browsers@[k], captures, engines[k]));
    k
}

proof fn lemma_anchors(anchors: Seq<environment::EngineAnchor>, n: int)
    requires
        0 <= n <= anchors.len(),
    ensures
        environment::anchors_failure(anchors, n) is None <==> forall|i: int|
            0 <= i < n ==> browser_lab::valid_anchor((#[trigger] anchors[i]).anchor),
    decreases n,
{
    if n > 0 {
        lemma_anchors(anchors, n - 1);
    }
}

/// A stored environment is accepted exactly if it is of the known version, says when it was captured,
/// has the fingerprint of its identity, and has a proper anchor for each of its browsers and for no
/// others.
pub proof fn only_an_anchored_environment_is_accepted(record: EnvironmentRecord, encoded: Seq<u8>)
    ensures
        environment::record_failure(record, encoded) is None <==> {
            let browsers = record.identity.browsers@;
            let anchors = record.anchors@;
            &&& record.schema_version == 2
            &&& record.recorded_at_unix_ms > 0
            &&& record.fingerprint@ == digest::sha256(
                encode_utf8("bperf-browser-environment-v1\0"@) + encoded,
            )
            &&& anchors.len() > 0
            &&& forall|i: int|
                0 <= i < browsers.len() ==> exists|j: int|
                    0 <= j < anchors.len() && (#[trigger] anchors[j]).engine@ == (
                    #[trigger] browsers[i]).engine@
            &&& forall|j: int|
                0 <= j < anchors.len() ==> exists|i: int|
                    0 <= i < browsers.len() && (#[trigger] browsers[i]).engine@ == (
                    #[trigger] anchors[j]).engine@
            &&& forall|j: int|
                0 <= j < anchors.len() ==> browser_lab::valid_anchor((#[trigger] anchors[j]).anchor)
        },
{
    let browsers = record.identity.browsers@;
    let anchors = record.anchors@;
    lemma_anchors(anchors, anchors.len() as int);
    assert forall|i: int| 0 <= i < browsers.len() implies (environment::has_anchor(
        anchors,
        (#[trigger] browsers[i]).engine@,
    ) <==> exists|j: int|
        0 <= j < anchors.len() && (#[trigger] anchors[j]).engine@ == browsers[i].engine@) by {}
    assert forall|j: int| 0 <= j < anchors.len() implies (environment::has_browser(
        browsers,
        (#[trigger] anchors[j]).engine@,
    ) <==> exists|i: int|
        0 <= i < browsers.len() && (#[trigger] browsers[i]).engine@ == anchors[j].engine@) by {}
}

/// Two measurements can be compared exactly if they ran in the same environment: the same fingerprint,
/// the same version of this tool and its protocol, the same runtime, and the same browsers.
pub proof fn only_the_same_environments_are_compared(a: EnvironmentRecord, b: EnvironmentRecord)
    ensures
        environment::compatible(a, b) <==> {
            let x = a.identity;
            let y = b.identity;
            &&& a.fingerprint@ == b.fingerprint@
            &&& x.bperf_version@ == y.bperf_version@
            &&& x.browser_lab_protocol_version == y.browser_lab_protocol_version
            &&& x.runtime.node@ == y.runtime.node@
            &&& x.runtime.playwright@ == y.runtime.playwright@
            &&& x.runtime.platform@ == y.runtime.platform@
            &&& x.runtime.arch@ == y.runtime.arch@
            &&& x.runtime.os_release@ == y.runtime.os_release@
            &&& x.runtime.cpu_model@ == y.runtime.cpu_model@
            &&& x.runtime.logical_cpus == y.runtime.logical_cpus
            &&& x.runtime.total_memory_bytes == y.runtime.total_memory_bytes
            &&& x.browsers@.len() == y.browsers@.len()
            &&& forall|i: int|
                0 <= i < x.browsers@.len() ==> (#[trigger] x.browsers@[i]).engine@
                    == y.browsers@[i].engine@ && x.browsers@[i].executable_path@
                    == y.browsers@[i].executable_path@ && x.browsers@[i].version@
                    == y.browsers@[i].version@
        },
{
}

/// All engines are selected together, and each alone.
pub proof fn a_selection_holds_its_engines(selection: EngineSelection, engine: Engine)
    ensures
        commands::selected_engines(selection).contains(engine) <==> match selection {
            EngineSelection::All => true,
            EngineSelection::Chromium => engine == Engine::Chromium,
            EngineSelection::Firefox => engine == Engine::Firefox,
            EngineSelection::Webkit => engine == Engine::Webkit,
        },
        commands::selected_engines(selection).no_duplicates(),
{
    let all = commands::selected_engines(selection);
    if selection == EngineSelection::All {
        assert(all[0] == Engine::Chromium && all[1] == Engine::Firefox && all[2] == Engine::Webkit);
    } else {
        assert(all.len() == 1);
        if selection == EngineSelection::Chromium {
            assert(all[0] == Engine::Chromium);
        } else if selection == EngineSelection::Firefox {
            assert(all[0] == Engine::Firefox);
        } else {
            assert(all[0] == Engine::Webkit);
        }
        if all.contains(engine) {
            let k = choose|k: int| 0 <= k < all.len() && all[k] == engine;
            assert(k == 0);
        }
    }
}

/// An environment is that of its captures: their runtime, and the version and the protocol that
/// captured them.
pub proof fn an_environment_is_that_of_its_captures(
    identity: EnvironmentIdentity,
    captures: Seq<CaptureEvidence>,
    version: Seq<char>,
)
    requires
        environment::is_identity(identity, captures, version),
    ensures
        identity.bperf_version@ == version,
        identity.browser_lab_protocol_version == browser_lab::PROTOCOL_VERSION,
        identity.runtime.node@ == captures[0].runtime.node@,
        identity.runtime.playwright@ == captures[0].runtime.playwright@,
        identity.runtime.platform@ == captures[0].runtime.platform@,
        identity.runtime.arch@ == captures[0].runtime.arch@,
        identity.runtime.os_release@ == captures[0].runtime.os_release@,
        identity.runtime.cpu_model@ == captures[0].runtime.cpu_model@,
        identity.runtime.logical_cpus == captures[0].runtime.logical_cpus,
        identity.runtime.total_memory_bytes == captures[0].runtime.total_memory_bytes,
{
}

} // verus!
