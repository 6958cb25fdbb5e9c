//! Definitions generated for a browser benchmark module, and the receipts of its measurements.

use vstd::prelude::*;
use vstd::string::*;
use vstd::utf8::*;

use crate::browser_lab;
use crate::browser_lab::{Engine, Viewport};
use crate::comparison::ComparisonSummary;
use crate::digest;
use crate::json::{JsonMember, JsonValue};
use crate::manifest;
use crate::manifest::{
    BenchmarkIdentity, BenchmarkManifest, BrowserSpec, BuiltInVerifier, CapturesSpec, MetricPolicy,
    StatisticsSpec, TrialCount, TrialsSpec, VariantAdapterSpec, VariantDescriptor, VerifierSpec,
    WorkloadSpec,
};
use crate::number;
use crate::number::Number;
use crate::ordered;
use crate::paths;
use crate::promotion::ConfirmationTarget;
use crate::sidecar_runtime;
use crate::sidecar_runtime::{HostPlatform, SidecarInstallation};
use crate::text;

verus! {

/// How many samples a generated benchmark takes.
#[derive(Clone, Copy, Debug, Eq, PartialEq, Structural)]
pub struct TrialPolicy {
    pub warmup_samples: u32,
    pub pilot_samples: u32,
    pub min_final_samples: u32,
    pub max_final_samples: u32,
}

/// The samples that every managed benchmark takes.
pub fn standard_trial_policy() -> (r: TrialPolicy)
    ensures
        r == (TrialPolicy {
            warmup_samples: 0,
            pilot_samples: 10,
            min_final_samples: 20,
            max_final_samples: 100,
        }),
{
    TrialPolicy {
        warmup_samples: 0,
        pilot_samples: 10,
        min_final_samples: 20,
        max_final_samples: 100,
    }
}

/// Where a run keeps its files, and how long it may take.
#[derive(Clone, Debug)]
pub struct ExecutionOptions {
    pub artifact_root: String,
    pub state_root: String,
    pub object_root: String,
    pub registry_root: String,
    pub comparison_root: String,
    pub lineage_root: String,
    pub budget_ms: u64,
    pub node: Option<String>,
    pub sidecar: Option<String>,
}

/// A measurement of a benchmark module.
#[derive(Clone, Debug)]
pub struct RunOptions {
    pub benchmark: String,
    pub message: Option<String>,
    pub execution: ExecutionOptions,
}

/// A confirmation of a cycle.
#[derive(Clone, Debug)]
pub struct ConfirmOptions {
    pub benchmark: String,
    pub cycle_id: String,
    pub execution: ExecutionOptions,
}

/// A case of a benchmark module and the result that it has to give.
#[derive(Debug)]
pub struct ManagedCase {
    pub id: String,
    pub expected: JsonValue,
}

/// What a benchmark module says of itself.
#[derive(Debug)]
pub struct ManagedDescription {
    pub schema_version: u32,
    pub benchmark_id: String,
    pub cases: Vec<ManagedCase>,
    pub source_files: Vec<String>,
    pub fixture_files: Vec<String>,
    pub fixture_lock: String,
}

/// Why a description is refused.
#[derive(Clone, Copy, Debug, Eq, PartialEq, Structural)]
pub enum DescriptionError {
    Schema(u32),
    NoCases,
    NoSourceFiles,
    NoFixtureLock,
    /// The file with this index among the source files and then the fixture files is missing.
    MissingFile(usize),
}

/// Why a description is refused, if it is, given which of its files exist.
pub open spec fn description_failure(
    description: ManagedDescription,
    lock_exists: bool,
    files_exist: Seq<bool>,
    n: int,
) -> Option<DescriptionError>
    decreases n,
{
    if description.schema_version != 1 {
        Some(DescriptionError::Schema(description.schema_version))
    } else if description.cases@.len() == 0 {
        Some(DescriptionError::NoCases)
    } else if description.source_files@.len() == 0 {
        Some(DescriptionError::NoSourceFiles)
    } else if !lock_exists {
        Some(DescriptionError::NoFixtureLock)
    } else if n <= 0 {
        None
    } else if description_failure(description, lock_exists, files_exist, n - 1) is Some {
        description_failure(description, lock_exists, files_exist, n - 1)
    } else if !files_exist[n - 1] {
        Some(DescriptionError::MissingFile((n - 1) as usize))
    } else {
        None
    }
}

proof fn lemma_description_failure(
    description: ManagedDescription,
    lock_exists: bool,
    files_exist: Seq<bool>,
    n: int,
    m: int,
)
    requires
        0 <= n <= m,
        description_failure(description, lock_exists, files_exist, n) is Some,
    ensures
        description_failure(description, lock_exists, files_exist, m) == description_failure(
            description,
            lock_exists,
            files_exist,
            n,
        ),
    decreases m - n,
{
    if n < m {
        lemma_description_failure(description, lock_exists, files_exist, n, m - 1);
    }
}

/// Checks what a benchmark module says of itself, given which of its files exist: the fixture
/// lock, and the source files followed by the fixture files.
pub fn validate_description(
    description: &ManagedDescription,
    lock_exists: bool,
    files_exist: &Vec<bool>,
) -> (r: Result<(), DescriptionError>)
    requires
        files_exist@.len() == description.source_files@.len() + description.fixture_files@.len(),
    ensures
        match description_failure(
            *description,
            lock_exists,
            files_exist@,
            files_exist@.len() as int,
        ) {
            Some(error) => r == Err::<(), DescriptionError>(error),
            None => r == Ok::<(), DescriptionError>(()),
        },
{
    proof {
        if description_failure(*description, lock_exists, files_exist@, 0) is Some {
            lemma_description_failure(
                *description,
                lock_exists,
                files_exist@,
                0,
                files_exist@.len() as int,
            );
        }
    }
    if description.schema_version != 1 {
        return Err(DescriptionError::Schema(description.schema_version));
    }
    if description.cases.len() == 0 {
        return Err(DescriptionError::NoCases);
    }
    if description.source_files.len() == 0 {
        return Err(DescriptionError::NoSourceFiles);
    }
    if !lock_exists {
        return Err(DescriptionError::NoFixtureLock);
    }
    let mut i: usize = 0;
    while i < files_exist.len()
        invariant
            i <= files_exist@.len(),
            description_failure(*description, lock_exists, files_exist@, i as int) is None,
        decreases files_exist@.len() - i,
    {
        if !files_exist[i] {
            proof {
                lemma_description_failure(
                    *description,
                    lock_exists,
                    files_exist@,
                    i + 1,
                    files_exist@.len() as int,
                );
            }
            return Err(DescriptionError::MissingFile(i));
        }
        i += 1;
    }
    Ok(())
}

/// The name of the directory in which a benchmark's generated files are kept.
pub open spec fn key_of(path: Seq<char>) -> Seq<char> {
    digest::sha256(encode_utf8("bperf-managed-benchmark-path-v1\0"@) + encode_utf8(path)).take(16)
}

/// The name of the directory in which a benchmark's generated files are kept.
pub fn benchmark_key(path: &str) -> (r: String)
    ensures
        r@ == key_of(path@),
{
    let mut buffer: Vec<u8> = Vec::new();
    digest::push_text(&mut buffer, "bperf-managed-benchmark-path-v1\0");
    digest::push_text(&mut buffer, path);
    assert(buffer@ == encode_utf8("bperf-managed-benchmark-path-v1\0"@) + encode_utf8(path@));
    let hex = digest::sha256_hex(&buffer);
    let chars = text::chars_of(&hex);
    assert(chars@.subrange(0, 16) == hex@.take(16));
    text::text_of(&chars, 0, 16)
}

// The generated definitions.

/// A trace that a workload replays: where it is kept, and its only record.
#[derive(Debug)]
pub struct TraceFile {
    pub path: String,
    pub record: JsonValue,
}

/// Everything that is generated for a benchmark module.
#[derive(Debug)]
pub struct MaterializedInputs {
    pub benchmark_path: String,
    pub benchmark: BenchmarkManifest,
    pub variant_path: String,
    pub variant: VariantDescriptor,
    pub traces: Vec<TraceFile>,
    pub workspace_root: String,
    pub source_files: Vec<String>,
}

/// The places that generated definitions refer to.
#[derive(Clone, Debug)]
pub struct ManagedPlaces {
    /// The workspace.
    pub root: String,
    /// The benchmark module.
    pub benchmark_module: String,
    /// The directory for generated files.
    pub generated_root: String,
    /// The Node executable.
    pub node: String,
    pub sidecar: SidecarInstallation,
    /// The files that the sidecar consists of.
    pub sidecar_files: Vec<String>,
    pub platform: HostPlatform,
}

/// The paths of some files as Node reads them.
pub open spec fn node_paths(files: Seq<String>, platform: HostPlatform) -> Seq<Seq<char>> {
    Seq::new(files.len(), |i: int| sidecar_runtime::for_node(files[i]@, platform))
}

/// The files that the benchmark's identity depends on besides its traces.
pub open spec fn benchmark_file(
    places: ManagedPlaces,
    description: ManagedDescription,
    file: Seq<char>,
) -> bool {
    ||| file == sidecar_runtime::for_node(places.benchmark_module@, places.platform)
    ||| file == sidecar_runtime::for_node(description.fixture_lock@, places.platform)
    ||| node_paths(description.fixture_files@, places.platform).contains(file)
}

/// The files that the variant's identity depends on.
pub open spec fn variant_file(
    places: ManagedPlaces,
    description: ManagedDescription,
    file: Seq<char>,
) -> bool {
    ||| file == sidecar_runtime::for_node(places.benchmark_module@, places.platform)
    ||| node_paths(places.sidecar_files@, places.platform).contains(file)
    ||| node_paths(description.source_files@, places.platform).contains(file)
}

/// Where the trace of a case is kept.
pub open spec fn trace_path(places: ManagedPlaces, case_id: Seq<char>) -> Seq<char> {
    paths::joined(paths::joined(places.generated_root@, "workloads"@), case_id + ".jsonl"@)
}

/// A trace holds the case's name and the result that it has to give.
pub open spec fn is_trace(
    trace: TraceFile,
    places: ManagedPlaces,
    case_id: Seq<char>,
    expected: JsonValue,
) -> bool {
    &&& trace.path@ == trace_path(places, case_id)
    &&& (trace.record matches JsonValue::Object(members) && {
        &&& members@.len() == 2
        &&& members@[0].name@ == "case_id"@
        &&& (members@[0].value matches JsonValue::Text(id) && id@ == case_id)
        &&& members@[1].name@ == "expected"@
        &&& members@[1].value == expected
    })
}

/// The list is sorted, and holds exactly the texts with a property.
pub open spec fn lists(items: Seq<String>, wanted: spec_fn(Seq<char>) -> bool) -> bool {
    &&& ordered::sorted(text::views(items))
    &&& forall|file: Seq<char>| #[trigger] text::views(items).contains(file) <==> wanted(file)
}

/// The workload that replays a case.
pub open spec fn is_workload(
    workload: WorkloadSpec,
    places: ManagedPlaces,
    description: ManagedDescription,
    case_id: Seq<char>,
) -> bool {
    &&& workload.id@ == case_id
    &&& workload.trace_file@ == sidecar_runtime::for_node(
        trace_path(places, case_id),
        places.platform,
    )
    &&& lists(workload.identity_files@, |file| benchmark_file(places, description, file))
    &&& workload.verifier == VerifierSpec::BuiltIn(BuiltInVerifier::Exact)
}

/// The browser settings of every generated benchmark.
pub open spec fn is_managed_browser(browser: BrowserSpec) -> bool {
    &&& browser.engines@ == browser_lab::all_engines()
    &&& browser.mode@ == "headless"@
    &&& browser.viewport == (Viewport { width: 1440, height: 900 })
    &&& browser.locale@ == "en-US"@
    &&& browser.timezone@ == "UTC"@
    &&& browser.color_scheme@ == "light"@
    &&& browser.cache@ == "cold"@
    &&& browser.network_policy@ == "local-only"@
    &&& browser.fresh_profile_per_trial
}

/// The samples of a generated benchmark.
pub open spec fn is_managed_trials(trials: TrialsSpec, policy: TrialPolicy) -> bool {
    &&& (trials.mode matches TrialCount::Label(label) && label@ == "auto"@)
    &&& trials.randomize_order
    &&& trials.schedule_seed == 730241
    &&& trials.warmup_samples == policy.warmup_samples
    &&& trials.pilot_samples == policy.pilot_samples
    &&& trials.min_final_samples == policy.min_final_samples
    &&& trials.max_final_samples == policy.max_final_samples
}

/// The metrics that a generated benchmark is judged by.
pub open spec fn managed_metrics() -> Seq<Seq<char>> {
    seq!["workload.wall_ms"@, "browser.cpu_profile.active_ms"@, "browser.js_heap.live_bytes"@]
}

/// The bits of 0.95.
pub const NINETY_FIVE_HUNDREDTHS: u64 = 0x3fee_6666_6666_6666;

/// The bits of 3.
pub const THREE: u64 = 0x4008_0000_0000_0000;

/// The bits of 5.
pub const FIVE: u64 = 0x4014_0000_0000_0000;

/// How the numbers of a generated benchmark are judged.
pub open spec fn is_managed_statistics(statistics: StatisticsSpec) -> bool {
    &&& statistics.confidence.bits == NINETY_FIVE_HUNDREDTHS
    &&& statistics.bootstrap_samples == 10000
    &&& text::views(statistics.primary_metrics@) == managed_metrics()
    &&& statistics.minimum_effect_pct@.len() == 3
    &&& forall|i: int|
        0 <= i < 3 ==> (#[trigger] statistics.minimum_effect_pct@[i]).name@ == managed_metrics()[i]
            && statistics.minimum_effect_pct@[i].minimum_effect_pct.bits == FIVE
    &&& statistics.minimum_success_rate.bits == NINETY_FIVE_HUNDREDTHS
    &&& statistics.max_regression_percentage_points.bits == number::ONE_BITS
    &&& statistics.cross_engine_policy@ == "strict_all"@
    &&& statistics.protected_metric_max_regression_pct.bits == THREE
}

/// The benchmark generated for a module.
pub open spec fn is_managed_benchmark(
    benchmark: BenchmarkManifest,
    places: ManagedPlaces,
    description: ManagedDescription,
    policy: TrialPolicy,
) -> bool {
    &&& benchmark.schema_version == 1
    &&& benchmark.benchmark.id@ == description.benchmark_id@
    &&& benchmark.benchmark.subject@ == description.benchmark_id@
    &&& benchmark.workloads@.len() == description.cases@.len()
    &&& forall|i: int|
        0 <= i < description.cases@.len() ==> is_workload(
            #[trigger] benchmark.workloads@[i],
            places,
            description,
            description.cases@[i].id@,
        )
    &&& is_managed_browser(benchmark.browser)
    &&& benchmark.captures.cpu_profile
    &&& benchmark.captures.js_heap
    &&& is_managed_trials(benchmark.trials, policy)
    &&& is_managed_statistics(benchmark.statistics)
}

/// The command that serves a benchmark module.
pub open spec fn serve_command(places: ManagedPlaces, description: ManagedDescription) -> Seq<
    Seq<char>,
> {
    let platform = places.platform;
    seq![
        sidecar_runtime::for_node(places.node@, platform),
        "--disable-warning=ExperimentalWarning"@,
        sidecar_runtime::for_node(
            paths::joined(paths::joined(places.sidecar.root@, "src"@), "benchmark-host.ts"@),
            platform,
        ),
        "serve"@,
        sidecar_runtime::for_node(places.benchmark_module@, platform),
        "--root"@,
        sidecar_runtime::for_node(places.root@, platform),
        "--lock"@,
        sidecar_runtime::for_node(description.fixture_lock@, platform),
    ]
}

/// The variant generated for a module.
pub open spec fn is_managed_variant(
    variant: VariantDescriptor,
    places: ManagedPlaces,
    description: ManagedDescription,
) -> bool {
    &&& variant.schema_version == 1
    &&& variant.id@ == "worktree"@
    &&& variant.subject@ == description.benchmark_id@
    &&& lists(variant.implementation_files@, |file| variant_file(places, description, file))
    &&& text::views(variant.adapter.command@) == serve_command(places, description)
    &&& variant.adapter.ready_protocol@ == "stdio-json"@
    &&& variant.adapter.ready_timeout_seconds == 15
}

/// Adds the paths of some files, as Node reads them, to a sorted list.
fn add_files(all: &mut Vec<String>, files: &Vec<String>, platform: HostPlatform)
    requires
        ordered::sorted(text::views(old(all)@)),
    ensures
        ordered::sorted(text::views(final(all)@)),
        forall|x: Seq<char>| #[trigger]
            text::views(final(all)@).contains(x) <==> (text::views(old(all)@).contains(x)
                || node_paths(files@, platform).contains(x)),
{
    let ghost start = text::views(all@);
    let ghost wanted = node_paths(files@, platform);
    let mut i: usize = 0;
    while i < files.len()
        invariant
            i <= files@.len(),
            start == text::views(old(all)@),
            wanted == node_paths(files@, platform),
            ordered::sorted(text::views(all@)),
            forall|x: Seq<char>| #[trigger]
                text::views(all@).contains(x) <==> (start.contains(x) || wanted.take(
                    i as int,
                ).contains(x)),
        decreases files@.len() - i,
    {
        let ghost before = text::views(all@);
        let path = sidecar_runtime::node_path(&files[i], platform);
        ordered::insert(all, &path);
        proof {
            let less = wanted.take(i as int);
            let more = wanted.take(i + 1);
            assert(path@ == wanted[i as int]);
            assert forall|x: Seq<char>| #[trigger] text::views(all@).contains(x) <==> (
            start.contains(x) || more.contains(x)) by {
                assert(before.contains(x) <==> (start.contains(x) || less.contains(x)));
                if more.contains(x) {
                    let k = choose|k: int| 0 <= k < more.len() && more[k] == x;
                    if k < i {
                        assert(less[k] == x);
                    }
                }
                if less.contains(x) {
                    let k = choose|k: int| 0 <= k < less.len() && less[k] == x;
                    assert(more[k] == x);
                }
                assert(more[i as int] == path@);
            }
        }
        i += 1;
    }
    assert(wanted.take(wanted.len() as int) == wanted);
}

/// The files that the benchmark's identity depends on besides its traces.
fn benchmark_files(places: &ManagedPlaces, description: &ManagedDescription) -> (r: Vec<String>)
    ensures
        lists(r@, |file| benchmark_file(*places, *description, file)),
{
    let mut files: Vec<String> = Vec::new();
    let module = sidecar_runtime::node_path(&places.benchmark_module, places.platform);
    let lock = sidecar_runtime::node_path(&description.fixture_lock, places.platform);
    ordered::insert(&mut files, &module);
    ordered::insert(&mut files, &lock);
    add_files(&mut files, &description.fixture_files, places.platform);
    files
}

/// The files that the variant's identity depends on.
fn variant_files(places: &ManagedPlaces, description: &ManagedDescription) -> (r: Vec<String>)
    ensures
        lists(r@, |file| variant_file(*places, *description, file)),
{
    let mut files: Vec<String> = Vec::new();
    let module = sidecar_runtime::node_path(&places.benchmark_module, places.platform);
    ordered::insert(&mut files, &module);
    add_files(&mut files, &places.sidecar_files, places.platform);
    add_files(&mut files, &description.source_files, places.platform);
    files
}

fn managed_browser() -> (r: BrowserSpec)
    ensures
        is_managed_browser(r),
{
    BrowserSpec {
        engines: Engine::all(),
        mode: "headless".to_owned(),
        viewport: Viewport { width: 1440, height: 900 },
        locale: "en-US".to_owned(),
        timezone: "UTC".to_owned(),
        color_scheme: "light".to_owned(),
        cache: "cold".to_owned(),
        network_policy: "local-only".to_owned(),
        fresh_profile_per_trial: true,
    }
}

fn managed_trials(policy: TrialPolicy) -> (r: TrialsSpec)
    ensures
        is_managed_trials(r, policy),
{
    TrialsSpec {
        mode: TrialCount::Label("auto".to_owned()),
        randomize_order: true,
        schedule_seed: 730241,
        warmup_samples: policy.warmup_samples,
        pilot_samples: policy.pilot_samples,
        min_final_samples: policy.min_final_samples,
        max_final_samples: policy.max_final_samples,
    }
}

fn managed_effect(name: &str) -> (r: MetricPolicy)
    ensures
        r.name@ == name@,
        r.minimum_effect_pct.bits == FIVE,
{
    MetricPolicy { name: name.to_owned(), minimum_effect_pct: Number { bits: FIVE } }
}

fn managed_statistics() -> (r: StatisticsSpec)
    ensures
        is_managed_statistics(r),
{
    let mut primary_metrics: Vec<String> = Vec::new();
    primary_metrics.push("workload.wall_ms".to_owned());
    primary_metrics.push("browser.cpu_profile.active_ms".to_owned());
    primary_metrics.push("browser.js_heap.live_bytes".to_owned());
    let mut minimum_effect_pct: Vec<MetricPolicy> = Vec::new();
    minimum_effect_pct.push(managed_effect("workload.wall_ms"));
    minimum_effect_pct.push(managed_effect("browser.cpu_profile.active_ms"));
    minimum_effect_pct.push(managed_effect("browser.js_heap.live_bytes"));
    assert(text::views(primary_metrics@) == managed_metrics());
    StatisticsSpec {
        confidence: Number { bits: NINETY_FIVE_HUNDREDTHS },
        bootstrap_samples: 10000,
        primary_metrics,
        minimum_effect_pct,
        minimum_success_rate: Number { bits: NINETY_FIVE_HUNDREDTHS },
        max_regression_percentage_points: Number { bits: number::ONE_BITS },
        cross_engine_policy: "strict_all".to_owned(),
        protected_metric_max_regression_pct: Number { bits: THREE },
    }
}

fn trace_file(places: &ManagedPlaces, case_id: &str) -> (r: String)
    ensures
        r@ == trace_path(*places, case_id@),
{
    let directory = paths::join(&places.generated_root, "workloads");
    let mut name = case_id.to_owned();
    name.append(".jsonl");
    paths::join(&directory, &name)
}

fn serve(places: &ManagedPlaces, description: &ManagedDescription) -> (r: Vec<String>)
    ensures
        text::views(r@) == serve_command(*places, *description),
{
    let platform = places.platform;
    let mut command: Vec<String> = Vec::new();
    command.push(sidecar_runtime::node_path(&places.node, platform));
    command.push("--disable-warning=ExperimentalWarning".to_owned());
    command.push(sidecar_runtime::node_path(&places.sidecar.benchmark_host(), platform));
    command.push("serve".to_owned());
    command.push(sidecar_runtime::node_path(&places.benchmark_module, platform));
    command.push("--root".to_owned());
    command.push(sidecar_runtime::node_path(&places.root, platform));
    command.push("--lock".to_owned());
    command.push(sidecar_runtime::node_path(&description.fixture_lock, platform));
    assert(text::views(command@) == serve_command(*places, *description));
    command
}

fn managed_workloads(places: &ManagedPlaces, description: &ManagedDescription) -> (r: Vec<
    WorkloadSpec,
>)
    ensures
        r@.len() == description.cases@.len(),
        forall|i: int|
            0 <= i < r@.len() ==> is_workload(
                #[trigger] r@[i],
                *places,
                *description,
                description.cases@[i].id@,
            ),
{
    let mut out: Vec<WorkloadSpec> = Vec::new();
    let mut i: usize = 0;
    while i < description.cases.len()
        invariant
            i <= description.cases@.len(),
            out@.len() == i,
            forall|j: int|
                0 <= j < i ==> is_workload(
                    #[trigger] out@[j],
                    *places,
                    *description,
                    description.cases@[j].id@,
                ),
        decreases description.cases@.len() - i,
    {
        let id = &description.cases[i].id;
        let trace = trace_file(places, id);
        let workload = WorkloadSpec {
            id: id.clone(),
            trace_file: sidecar_runtime::node_path(&trace, places.platform),
            identity_files: benchmark_files(places, description),
            verifier: VerifierSpec::BuiltIn(BuiltInVerifier::Exact),
        };
        assert(is_workload(workload, *places, *description, description.cases@[i as int].id@));
        out.push(workload);
        i += 1;
    }
    out
}

fn managed_traces(places: &ManagedPlaces, cases: Vec<ManagedCase>) -> (r: Vec<TraceFile>)
    ensures
        r@.len() == cases@.len(),
        forall|i: int|
            0 <= i < r@.len() ==> is_trace(
                #[trigger] r@[i],
                *places,
                cases@[i].id@,
                cases@[i].expected,
            ),
{
    let ghost all = cases@;
    let mut out: Vec<TraceFile> = Vec::new();
    for case in it: cases
        invariant
            all == cases@,
            it.seq() == all,
            out@.len() == it.index(),
            forall|j: int|
                0 <= j < out@.len() ==> is_trace(
                    #[trigger] out@[j],
                    *places,
                    all[j].id@,
                    all[j].expected,
                ),
    {
        let path = trace_file(places, &case.id);
        let mut members: Vec<JsonMember> = Vec::new();
        members.push(JsonMember { name: "case_id".to_owned(), value: JsonValue::Text(case.id) });
        members.push(JsonMember { name: "expected".to_owned(), value: case.expected });
        let trace = TraceFile { path, record: JsonValue::Object(members) };
        assert(is_trace(trace, *places, all[it.index()].id@, all[it.index()].expected));
        out.push(trace);
    }
    out
}

/// Everything that is generated for a benchmark module.
pub open spec fn is_materialized(
    inputs: MaterializedInputs,
    places: ManagedPlaces,
    description: ManagedDescription,
    policy: TrialPolicy,
) -> bool {
    &&& inputs.benchmark_path@ == paths::joined(places.generated_root@, "benchmark.json"@)
    &&& is_managed_benchmark(inputs.benchmark, places, description, policy)
    &&& inputs.variant_path@ == paths::joined(places.generated_root@, "variant.json"@)
    &&& is_managed_variant(inputs.variant, places, description)
    &&& inputs.traces@.len() == description.cases@.len()
    &&& forall|i: int|
        0 <= i < inputs.traces@.len() ==> is_trace(
            #[trigger] inputs.traces@[i],
            places,
            description.cases@[i].id@,
            description.cases@[i].expected,
        )
    &&& inputs.workspace_root@ == places.root@
    &&& inputs.source_files == description.source_files
}

/// Generates the definitions of a benchmark module: a benchmark with one workload for each case, a
/// variant that serves the module, and the trace that each workload replays.
pub fn write_inputs(
    places: &ManagedPlaces,
    description: ManagedDescription,
    trial_policy: TrialPolicy,
) -> (r: MaterializedInputs)
    ensures
        is_materialized(r, *places, description, trial_policy),
{
    let workloads = managed_workloads(places, &description);
    let benchmark = BenchmarkManifest {
        schema_version: 1,
        benchmark: BenchmarkIdentity {
            id: description.benchmark_id.clone(),
            subject: description.benchmark_id.clone(),
        },
        workloads,
        browser: managed_browser(),
        captures: CapturesSpec { cpu_profile: true, js_heap: true },
        trials: managed_trials(trial_policy),
        statistics: managed_statistics(),
        source_path: paths::join(&places.generated_root, "benchmark.json"),
        source_sha256: String::new(),
    };
    let variant = VariantDescriptor {
        schema_version: 1,
        id: "worktree".to_owned(),
        subject: description.benchmark_id.clone(),
        adapter: VariantAdapterSpec {
            command: serve(places, &description),
            ready_protocol: "stdio-json".to_owned(),
            ready_timeout_seconds: 15,
        },
        implementation_files: variant_files(places, &description),
        source_path: paths::join(&places.generated_root, "variant.json"),
        source_sha256: String::new(),
    };
    assert(is_managed_benchmark(benchmark, *places, description, trial_policy));
    assert(is_managed_variant(variant, *places, description));
    let traces = managed_traces(places, description.cases);
    MaterializedInputs {
        benchmark_path: paths::join(&places.generated_root, "benchmark.json"),
        benchmark,
        variant_path: paths::join(&places.generated_root, "variant.json"),
        variant,
        traces,
        workspace_root: places.root.clone(),
        source_files: description.source_files,
    }
}

/// The benchmark module lies outside the workspace.
#[derive(Clone, Copy, Debug, Eq, PartialEq, Structural)]
pub struct OutsideWorkspace;

/// Checks that a benchmark module lies in the workspace.
pub fn require_in_workspace(root: &str, benchmark: &str) -> (r: Result<(), OutsideWorkspace>)
    ensures
        r == if paths::parts(root@).is_prefix_of(paths::parts(benchmark@)) {
            Ok::<(), OutsideWorkspace>(())
        } else {
            Err::<(), OutsideWorkspace>(OutsideWorkspace)
        },
{
    if !paths::begins_with(root, benchmark) {
        return Err(OutsideWorkspace);
    }
    Ok(())
}

/// A policy under which samples can be taken.
pub open spec fn sound_policy(policy: TrialPolicy) -> bool {
    0 < policy.min_final_samples <= policy.max_final_samples
}

/// The workloads of a generated benchmark break no rule, provided that the cases are named by
/// distinct identifiers and the identity files are distinct paths.
proof fn lemma_managed_workloads(
    workloads: Seq<WorkloadSpec>,
    places: ManagedPlaces,
    description: ManagedDescription,
    n: int,
)
    requires
        0 <= n <= workloads.len(),
        workloads.len() == description.cases@.len(),
        forall|i: int|
            0 <= i < workloads.len() ==> is_workload(
                #[trigger] workloads[i],
                places,
                description,
                description.cases@[i].id@,
            ),
        forall|i: int|
            0 <= i < description.cases@.len() ==> text::is_identifier(
                (#[trigger] description.cases@[i]).id@,
            ),
        forall|i: int, j: int|
            0 <= i < j < description.cases@.len() ==> (#[trigger] description.cases@[i]).id@ != (
            #[trigger] description.cases@[j]).id@,
        forall|i: int|
            0 <= i < workloads.len() ==> paths::distinct((#[trigger] workloads[i]).identity_files@),
    ensures
        manifest::workloads_failure(workloads, n) is None,
    decreases n,
{
    if n > 0 {
        lemma_managed_workloads(workloads, places, description, n - 1);
        let last = workloads[n - 1];
        assert(is_workload(last, places, description, description.cases@[n - 1].id@));
        assert(text::is_identifier(description.cases@[n - 1].id@));
        assert(!text::blank(last.id@)) by {
            lemma_identifier_not_blank(last.id@);
        }
        assert forall|i: int| 0 <= i < n - 1 implies (#[trigger] workloads[i]).id@
            != last.id@ by {
            assert(is_workload(workloads[i], places, description, description.cases@[i].id@));
            assert(description.cases@[i].id@ != description.cases@[n - 1].id@);
        }
    }
}

/// An identifier is not blank.
proof fn lemma_identifier_not_blank(id: Seq<char>)
    requires
        text::is_identifier(id),
    ensures
        !text::blank(id),
{
    assert(text::is_identifier_char(id[0]));
    assert(!text::is_white(id[0]));
}

/// What is generated for a module passes the rules for benchmarks, provided that the module names
/// its benchmark and its cases by identifiers, no two cases alike, and no file by two paths.
pub proof fn generated_benchmark_is_accepted(
    benchmark: BenchmarkManifest,
    places: ManagedPlaces,
    description: ManagedDescription,
    policy: TrialPolicy,
)
    requires
        is_managed_benchmark(benchmark, places, description, policy),
        sound_policy(policy),
        text::is_identifier(description.benchmark_id@),
        description.cases@.len() > 0,
        forall|i: int|
            0 <= i < description.cases@.len() ==> text::is_identifier(
                (#[trigger] description.cases@[i]).id@,
            ),
        forall|i: int, j: int|
            0 <= i < j < description.cases@.len() ==> (#[trigger] description.cases@[i]).id@ != (
            #[trigger] description.cases@[j]).id@,
        forall|i: int|
            0 <= i < benchmark.workloads@.len() ==> paths::distinct(
                (#[trigger] benchmark.workloads@[i]).identity_files@,
            ),
    ensures
        manifest::benchmark_failure(benchmark) is None,
{
    lemma_identifier_not_blank(description.benchmark_id@);
    lemma_managed_workloads(
        benchmark.workloads@,
        places,
        description,
        benchmark.workloads@.len() as int,
    );
    reveal_strlit("headless");
    reveal_strlit("en-US");
    reveal_strlit("UTC");
    reveal_strlit("light");
    reveal_strlit("cold");
    reveal_strlit("local-only");
    let browser = benchmark.browser;
    assert(!text::is_white(browser.mode@[0]));
    assert(!text::is_white(browser.locale@[0]));
    assert(!text::is_white(browser.timezone@[0]));
    assert(!text::is_white(browser.color_scheme@[0]));
    assert(!text::is_white(browser.cache@[0]));
    assert(!text::is_white(browser.network_policy@[0]));
    assert(manifest::browser_failure(browser) is None);
    let statistics = benchmark.statistics;
    let metrics = managed_metrics();
    assert(metrics.len() == 3);
    assert(text::views(statistics.primary_metrics@).len() == statistics.primary_metrics@.len());
    assert(statistics.primary_metrics@.len() == 3);
    assert forall|i: int| 0 <= i < 3 implies statistics.primary_metrics@[i]@ == #[trigger] metrics[i]
        && manifest::minimum_effect(statistics.minimum_effect_pct@, metrics[i]) is Some
        && number::finite_non_negative(
        manifest::minimum_effect(statistics.minimum_effect_pct@, metrics[i])->0,
    ) && !text::blank(metrics[i]) && manifest::is_measured(metrics[i]) by {
        assert(text::views(statistics.primary_metrics@)[i] == statistics.primary_metrics@[i]@);
        reveal_strlit("workload.wall_ms");
        reveal_strlit("browser.cpu_profile.active_ms");
        reveal_strlit("browser.js_heap.live_bytes");
        assert(!text::is_white(metrics[i][0]));
        lemma_effect_found(statistics.minimum_effect_pct@, i);
    }
    reveal_with_fuel(manifest::metrics_failure, 4);
    assert(metrics[0] == metrics[0] && metrics[1] == metrics[1] && metrics[2] == metrics[2]);
    assert(manifest::metrics_failure(statistics, 3) is None);
}

/// Every smallest effect of a generated benchmark is found, and is five percent.
proof fn lemma_effect_found(effects: Seq<MetricPolicy>, i: int)
    requires
        0 <= i < effects.len(),
        forall|j: int|
            0 <= j < effects.len() ==> (#[trigger] effects[j]).minimum_effect_pct.bits == FIVE,
    ensures
        manifest::minimum_effect(effects, effects[i].name@) is Some,
        manifest::minimum_effect(effects, effects[i].name@)->0.bits == FIVE,
    decreases effects.len(),
{
    let last = effects.last();
    assert(last == effects[effects.len() - 1]);
    if last.name@ != effects[i].name@ {
        let shorter = effects.drop_last();
        assert(shorter[i] == effects[i]);
        assert forall|j: int| 0 <= j < shorter.len() implies (
        #[trigger] shorter[j]).minimum_effect_pct.bits == FIVE by {
            assert(shorter[j] == effects[j]);
        }
        lemma_effect_found(shorter, i);
    }
}

// Confirmations.

/// Why a confirmation cannot start.
#[derive(Clone, Copy, Debug, Eq, PartialEq, Structural)]
pub enum ConfirmError {
    /// The source is not that of the cycle.
    OtherSource,
    /// The current baseline is not the one that the cycle was compared with.
    OtherBaseline,
}

/// Checks that what would be measured now is what the cycle measured.
pub fn check_confirmation_inputs(
    target: &ConfirmationTarget,
    benchmark: &BenchmarkManifest,
    variant: &VariantDescriptor,
    original_benchmark_sha256: &str,
    original_variant_sha256: &str,
) -> (r: Result<(), ConfirmError>)
    ensures
        r == if benchmark.benchmark.id@ == target.benchmark_id@ && benchmark.source_sha256@
            == original_benchmark_sha256@ && variant.source_sha256@ == original_variant_sha256@ {
            Ok::<(), ConfirmError>(())
        } else {
            Err::<(), ConfirmError>(ConfirmError::OtherSource)
        },
{
    if !text::same(benchmark.benchmark_id(), &target.benchmark_id) || !text::same(
        benchmark.source_sha256(),
        original_benchmark_sha256,
    ) || !text::same(variant.source_sha256(), original_variant_sha256) {
        return Err(ConfirmError::OtherSource);
    }
    Ok(())
}

/// Checks that the current baseline is the one that the cycle was compared with.
pub fn check_confirmation_baseline(target: &ConfirmationTarget, current: &str) -> (r: Result<
    (),
    ConfirmError,
>)
    ensures
        r == if current@ == target.baseline_measurement_set@ {
            Ok::<(), ConfirmError>(())
        } else {
            Err::<(), ConfirmError>(ConfirmError::OtherBaseline)
        },
{
    if !text::same(current, &target.baseline_measurement_set) {
        return Err(ConfirmError::OtherBaseline);
    }
    Ok(())
}

/// The cohort that keeps a confirmation apart from the measurement of its cycle.
pub fn confirmation_cohort(cycle_id: &str) -> (r: String)
    ensures
        r@ == "confirmation:"@ + cycle_id@,
{
    let mut out = "confirmation:".to_owned();
    out.append(cycle_id);
    out
}

/// The Node executable: the one asked for, else the configured one, else the one that is found by
/// its name.
pub fn node_executable(requested: Option<String>, configured: Option<String>) -> (r: String)
    ensures
        r@ == match requested {
            Some(node) => node@,
            None => match configured {
                Some(node) => node@,
                None => "node"@,
            },
        },
{
    match requested {
        Some(node) => node,
        None => match configured {
            Some(node) => node,
            None => "node".to_owned(),
        },
    }
}

// Receipts.

/// What a receipt records.
#[derive(Clone, Debug)]
pub struct MeasurementIndexOptions {
    pub measurement_root: String,
    pub benchmark_id: String,
    pub measurement_set_id: String,
    pub recorded_at_unix_ms: u64,
    pub exit_code: u8,
    pub outcome: String,
    pub event: String,
    pub record_id: String,
    pub comparison_path: Option<String>,
}

/// The receipt of a measurement.
#[derive(Clone, Debug)]
pub struct MeasurementIndexRecord {
    pub schema_version: u32,
    pub recorded_at_unix_ms: u64,
    pub exit_code: u8,
    pub outcome: String,
    pub event: String,
    pub record_id: String,
    pub benchmark_id: String,
    pub measurement_set_id: String,
    pub measurement_path: String,
    pub measurement_summary: String,
    pub comparison_path: Option<String>,
}

/// Why a receipt cannot be written.
#[derive(Clone, Copy, Debug, Eq, PartialEq, Structural)]
pub enum IndexError {
    NoTimestamp,
    UnsupportedExitCode(u8),
    /// The measurement has no summary.
    NoSummary,
    /// The measurement lies in no directory.
    NoArtifactRoot,
}

/// The name of a receipt: when it was made, how the run ended, and what it recorded.
pub open spec fn index_name(recorded_at_unix_ms: u64, exit_code: u8, record_id: Seq<char>) -> Seq<
    char,
> {
    text::padded(recorded_at_unix_ms as nat, 13) + "-exit-"@ + text::decimal(exit_code as nat)
        + "-"@ + record_id + ".json"@
}

/// Why a receipt cannot be written, if it cannot.
pub open spec fn index_failure(options: MeasurementIndexOptions, summary_exists: bool) -> Option<
    IndexError,
> {
    if options.recorded_at_unix_ms == 0 {
        Some(IndexError::NoTimestamp)
    } else if options.exit_code > 2 {
        Some(IndexError::UnsupportedExitCode(options.exit_code))
    } else if !summary_exists {
        Some(IndexError::NoSummary)
    } else if paths::parent(options.measurement_root@) is None {
        Some(IndexError::NoArtifactRoot)
    } else {
        None
    }
}

/// Where a receipt is written.
pub open spec fn index_path(options: MeasurementIndexOptions) -> Seq<char> {
    paths::joined(
        paths::joined(paths::parent(options.measurement_root@)->0, "index"@),
        index_name(options.recorded_at_unix_ms, options.exit_code, options.record_id@),
    )
}

/// The receipt records the options.
pub open spec fn is_receipt(
    record: MeasurementIndexRecord,
    options: MeasurementIndexOptions,
) -> bool {
    &&& record.schema_version == 1
    &&& record.recorded_at_unix_ms == options.recorded_at_unix_ms
    &&& record.exit_code == options.exit_code
    &&& record.outcome == options.outcome
    &&& record.event == options.event
    &&& record.record_id == options.record_id
    &&& record.benchmark_id == options.benchmark_id
    &&& record.measurement_set_id == options.measurement_set_id
    &&& record.measurement_path == options.measurement_root
    &&& record.measurement_summary@ == paths::joined(options.measurement_root@, "summary.json"@)
    &&& record.comparison_path == options.comparison_path
}

/// The name of a receipt.
pub fn index_file_name(recorded_at_unix_ms: u64, exit_code: u8, record_id: &str) -> (r: String)
    ensures
        r@ == index_name(recorded_at_unix_ms, exit_code, record_id@),
{
    let mut name = text::padded_text(recorded_at_unix_ms, 13);
    name.append("-exit-");
    name.append(&text::decimal_text(exit_code as u64));
    name.append("-");
    name.append(record_id);
    name.append(".json");
    name
}

/// Prepares the receipt of a measurement: where it is written, and what it holds.
pub fn record_measurement_index(options: MeasurementIndexOptions, summary_exists: bool) -> (r:
    Result<(String, MeasurementIndexRecord), IndexError>)
    ensures
        match index_failure(options, summary_exists) {
            Some(error) => r == Err::<(String, MeasurementIndexRecord), IndexError>(error),
            None => r is Ok && r->Ok_0.0@ == index_path(options) && is_receipt(r->Ok_0.1, options),
        },
{
    if options.recorded_at_unix_ms == 0 {
        return Err(IndexError::NoTimestamp);
    }
    if options.exit_code > 2 {
        return Err(IndexError::UnsupportedExitCode(options.exit_code));
    }
    if !summary_exists {
        return Err(IndexError::NoSummary);
    }
    let artifact_root = match paths::parent_path(&options.measurement_root) {
        Some(root) => root,
        None => {
            return Err(IndexError::NoArtifactRoot);
        },
    };
    let index_root = paths::join(&artifact_root, "index");
    let name = index_file_name(
        options.recorded_at_unix_ms,
        options.exit_code,
        &options.record_id,
    );
    let path = paths::join(&index_root, &name);
    let measurement_summary = paths::join(&options.measurement_root, "summary.json");
    let record = MeasurementIndexRecord {
        schema_version: 1,
        recorded_at_unix_ms: options.recorded_at_unix_ms,
        exit_code: options.exit_code,
        outcome: options.outcome,
        event: options.event,
        record_id: options.record_id,
        benchmark_id: options.benchmark_id,
        measurement_set_id: options.measurement_set_id,
        measurement_path: options.measurement_root,
        measurement_summary,
        comparison_path: options.comparison_path,
    };
    Ok((path, record))
}

/// The exit code that reports a verdict; other texts are no verdict.
pub open spec fn verdict_code(verdict: Seq<char>) -> Option<u8> {
    if verdict == "positive"@ || verdict == "equivalent"@ {
        Some(0)
    } else if verdict == "negative"@ {
        Some(1)
    } else if verdict == "inconclusive"@ {
        Some(2)
    } else {
        None
    }
}

/// The exit code of a run: that of its verdict, and success where there was nothing to compare with.
pub open spec fn run_code(comparison: Option<ComparisonSummary>) -> Option<u8> {
    match comparison {
        Some(comparison) => verdict_code(comparison.verdict@),
        None => Some(0),
    }
}

/// The exit code of a run or of a confirmation.
pub fn exit_code(comparison: &Option<ComparisonSummary>) -> (r: Option<u8>)
    ensures
        r == run_code(*comparison),
{
    match comparison {
        Some(comparison) => {
            let verdict = comparison.verdict.as_str();
            if text::same(verdict, "positive") || text::same(verdict, "equivalent") {
                Some(0)
            } else if text::same(verdict, "negative") {
                Some(1)
            } else if text::same(verdict, "inconclusive") {
                Some(2)
            } else {
                None
            }
        },
        None => Some(0),
    }
}

/// Every exit code of a run can stand in a receipt, and a failure is reported exactly where the
/// verdict is negative or inconclusive.
pub proof fn exit_codes_are_recorded(
    comparison: Option<ComparisonSummary>,
    options: MeasurementIndexOptions,
    summary_exists: bool,
)
    requires
        run_code(comparison) == Some(options.exit_code),
    ensures
        !(index_failure(options, summary_exists) matches Some(
            IndexError::UnsupportedExitCode(_),
        )),
        options.exit_code != 0 <==> (comparison is Some && (comparison->0.verdict@ == "negative"@
            || comparison->0.verdict@ == "inconclusive"@)),
{
    lemma_verdicts_differ();
}

proof fn lemma_verdicts_differ()
    ensures
        "positive"@ != "negative"@,
        "positive"@ != "inconclusive"@,
        "equivalent"@ != "negative"@,
        "equivalent"@ != "inconclusive"@,
{
    reveal_strlit("positive");
    reveal_strlit("equivalent");
    reveal_strlit("negative");
    reveal_strlit("inconclusive");
    assert("positive"@[0] == 'p' && "negative"@[0] == 'n');
    assert("equivalent"@[0] == 'e' && "inconclusive"@[0] == 'i');
}

/// The names of receipts sort by creation, as long as their timestamps have no more than thirteen
/// digits.
pub proof fn receipt_names_sort_by_creation(
    earlier: u64,
    earlier_exit: u8,
    earlier_id: Seq<char>,
    later: u64,
    later_exit: u8,
    later_id: Seq<char>,
)
    requires
        earlier < later < 10_000_000_000_000,
    ensures
        text::precedes(
            index_name(earlier, earlier_exit, earlier_id),
            index_name(later, later_exit, later_id),
        ),
{
    let x = "-exit-"@ + text::decimal(earlier_exit as nat) + "-"@ + earlier_id + ".json"@;
    let y = "-exit-"@ + text::decimal(later_exit as nat) + "-"@ + later_id + ".json"@;
    assert(index_name(earlier, earlier_exit, earlier_id) == text::padded(earlier as nat, 13) + x);
    assert(index_name(later, later_exit, later_id) == text::padded(later as nat, 13) + y);
    reveal_with_fuel(text::power_of_ten, 14);
    assert(text::power_of_ten(13) == 10_000_000_000_000);
    text::padded_numbers_sort(earlier as nat, later as nat, 13, x, y);
}

} // verus!
