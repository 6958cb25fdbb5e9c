//! Benchmark and variant definitions.
//!
//! A benchmark fixes comparable work and policy. A variant only describes one implementation and
//! how it is invoked.

use vstd::prelude::*;
use vstd::string::*;

use crate::browser_lab::{BrowserTrialConfig, Engine, Viewport};
use crate::digest;
use crate::number;
use crate::number::Number;
use crate::paths;
use crate::text;

verus! {

/// The version of every definition.
pub const SCHEMA_VERSION: u32 = 1;

/// What is measured, how often, and how the numbers are judged.
#[derive(Clone, Debug)]
pub struct BenchmarkManifest {
    pub schema_version: u32,
    pub benchmark: BenchmarkIdentity,
    pub workloads: Vec<WorkloadSpec>,
    pub browser: BrowserSpec,
    pub captures: CapturesSpec,
    pub trials: TrialsSpec,
    pub statistics: StatisticsSpec,
    /// Where the definition was read from.
    pub source_path: String,
    /// The digest of the definition and of the files that belong to it.
    pub source_sha256: String,
}

#[derive(Clone, Debug)]
pub struct BenchmarkIdentity {
    pub id: String,
    pub subject: String,
}

#[derive(Clone, Debug)]
pub struct WorkloadSpec {
    pub id: String,
    pub trace_file: String,
    pub identity_files: Vec<String>,
    pub verifier: VerifierSpec,
}

/// How the results of a workload are checked.
#[derive(Clone, Debug)]
pub enum VerifierSpec {
    /// By a process of the benchmark's own.
    Process(CommandWithTimeout),
    /// By a rule that is built in.
    BuiltIn(BuiltInVerifier),
}

#[derive(Clone, Copy, Debug, Eq, PartialEq, Structural)]
pub enum BuiltInVerifier {
    Exact,
}

#[derive(Clone, Debug)]
pub struct CommandWithTimeout {
    pub command: Vec<String>,
    pub timeout_seconds: u64,
    pub identity_files: Vec<String>,
}

#[derive(Clone, Debug)]
pub struct BrowserSpec {
    pub engines: Vec<Engine>,
    pub mode: String,
    pub viewport: Viewport,
    pub locale: String,
    pub timezone: String,
    pub color_scheme: String,
    pub cache: String,
    pub network_policy: String,
    pub fresh_profile_per_trial: bool,
}

#[derive(Clone, Copy, Debug, Eq, PartialEq, Structural)]
pub struct CapturesSpec {
    pub cpu_profile: bool,
    pub js_heap: bool,
}

#[derive(Clone, Debug)]
pub struct TrialsSpec {
    pub mode: TrialCount,
    pub randomize_order: bool,
    pub schedule_seed: u64,
    pub warmup_samples: u32,
    pub pilot_samples: u32,
    pub min_final_samples: u32,
    pub max_final_samples: u32,
}

/// How many final samples are taken.
#[derive(Clone, Debug)]
pub enum TrialCount {
    /// By a rule; the only one is `auto`.
    Label(String),
    /// A fixed number.
    Count(u32),
}

#[derive(Clone, Debug)]
pub struct StatisticsSpec {
    pub confidence: Number,
    pub bootstrap_samples: u32,
    pub primary_metrics: Vec<String>,
    pub minimum_effect_pct: Vec<MetricPolicy>,
    pub minimum_success_rate: Number,
    pub max_regression_percentage_points: Number,
    pub cross_engine_policy: String,
    pub protected_metric_max_regression_pct: Number,
}

/// A metric and the smallest effect on it that counts.
#[derive(Clone, Debug)]
pub struct MetricPolicy {
    pub name: String,
    pub minimum_effect_pct: Number,
}

/// How the numbers of a benchmark are judged.
#[derive(Clone, Debug)]
pub struct AnalysisPolicy {
    pub confidence: Number,
    pub bootstrap_samples: u32,
    pub primary_metrics: Vec<MetricPolicy>,
    pub minimum_success_rate: Number,
    pub max_regression_percentage_points: Number,
    pub protected_metric_max_regression_pct: Number,
}

/// One implementation of a benchmark's subject.
#[derive(Clone, Debug)]
pub struct VariantDescriptor {
    pub schema_version: u32,
    pub id: String,
    pub subject: String,
    pub adapter: VariantAdapterSpec,
    pub implementation_files: Vec<String>,
    /// Where the definition was read from.
    pub source_path: String,
    /// The digest of the definition and of the files that belong to it.
    pub source_sha256: String,
}

#[derive(Clone, Debug)]
pub struct VariantAdapterSpec {
    pub command: Vec<String>,
    pub ready_protocol: String,
    pub ready_timeout_seconds: u64,
}

/// How a workload is run and checked.
pub struct WorkloadInvocation<'a> {
    pub trace_file: &'a str,
    pub verifier: VerifierInvocation<'a>,
}

/// How the results of a workload are checked.
pub enum VerifierInvocation<'a> {
    Exact,
    Process { command: &'a Vec<String>, timeout_seconds: u64, working_directory: String },
}

/// How a variant is started.
pub struct VariantInvocation<'a> {
    pub command: &'a Vec<String>,
    pub ready_timeout_seconds: u64,
    pub working_directory: String,
}

/// The parts of a definition that a rule can be about.
#[derive(Clone, Copy, Debug, Eq, PartialEq, Structural)]
pub enum Field {
    BenchmarkId,
    BenchmarkSubject,
    /// The name of the workload with this index.
    WorkloadId(usize),
    WorkloadIdentityFiles,
    VerifierCommand,
    VerifierIdentityFiles,
    VerifierTimeout,
    BrowserMode,
    BrowserLocale,
    BrowserTimezone,
    BrowserColorScheme,
    BrowserCache,
    BrowserNetwork,
    ViewportWidth,
    ViewportHeight,
    MinFinalSamples,
    TrialsMode,
    PrimaryMetric,
    VariantId,
    VariantSubject,
    VariantCommand,
    VariantFiles,
    VariantReadyProtocol,
    VariantReadyTimeout,
}

/// Why a definition is refused.
#[derive(Clone, Copy, Debug, Eq, PartialEq, Structural)]
pub enum ManifestError {
    /// The definition has another version.
    BenchmarkSchema(u32),
    VariantSchema(u32),
    /// A text is empty or blank.
    Blank(Field),
    /// A text holds more than letters, digits, hyphens, underscores, and dots.
    NotAnIdentifier(Field),
    /// A number is zero.
    NotPositive(Field),
    /// A command is empty, or one of its arguments is.
    InvalidCommand(Field),
    /// A list of paths names one twice.
    DuplicatePath(Field),
    /// A list of paths is empty.
    NoPaths(Field),
    NoWorkloads,
    /// The workload with this index has the name of an earlier one.
    DuplicateWorkload(usize),
    NoEngines,
    DuplicateEngine,
    /// Only headless browsers are measured.
    UnsupportedMode,
    UnsupportedColorScheme,
    UnsupportedCache,
    UnsupportedNetwork,
    SharedProfile,
    /// Profiles and heaps are always captured.
    MissingCaptures,
    /// The largest number of final samples is below the smallest.
    SampleRange,
    /// The fixed number of final samples is out of their range.
    FixedSamples,
    Confidence,
    BootstrapSamples,
    NoPrimaryMetrics,
    /// The primary metric with this index is not measured.
    UnknownMetric(usize),
    /// The primary metric with this index has no smallest effect.
    NoMinimumEffect(usize),
    /// The smallest effect on the primary metric with this index is negative or not finite.
    InvalidMinimumEffect(usize),
    SuccessRate,
    RegressionPoints,
    UnsupportedPolicy,
    ProtectedRegression,
    /// Only one protocol announces that a variant is ready.
    UnsupportedReadyProtocol,
}

// The rules.

/// Why a text is not an identifier, if it is not.
pub open spec fn identifier_failure(field: Field, value: Seq<char>) -> Option<ManifestError> {
    if text::blank(value) {
        Some(ManifestError::Blank(field))
    } else if !text::is_identifier(value) {
        Some(ManifestError::NotAnIdentifier(field))
    } else {
        None
    }
}

/// A command: one or more arguments, none of them empty.
pub open spec fn is_command(command: Seq<String>) -> bool {
    &&& command.len() > 0
    &&& forall|i: int| 0 <= i < command.len() ==> (#[trigger] command[i])@.len() > 0
}

/// Why a verifier is refused, if it is.
pub open spec fn verifier_failure(verifier: VerifierSpec) -> Option<ManifestError> {
    match verifier {
        VerifierSpec::BuiltIn(_) => None,
        VerifierSpec::Process(process) => if !is_command(process.command@) {
            Some(ManifestError::InvalidCommand(Field::VerifierCommand))
        } else if process.identity_files@.len() == 0 {
            Some(ManifestError::NoPaths(Field::VerifierIdentityFiles))
        } else if !paths::distinct(process.identity_files@) {
            Some(ManifestError::DuplicatePath(Field::VerifierIdentityFiles))
        } else if process.timeout_seconds == 0 {
            Some(ManifestError::NotPositive(Field::VerifierTimeout))
        } else {
            None
        },
    }
}

/// Some of the first `n` workloads has this name.
pub open spec fn names_workload(workloads: Seq<WorkloadSpec>, n: int, id: Seq<char>) -> bool {
    exists|i: int| 0 <= i < n && (#[trigger] workloads[i]).id@ == id
}

/// Why the first `n` workloads are refused, if they are.
pub open spec fn workloads_failure(workloads: Seq<WorkloadSpec>, n: int) -> Option<ManifestError>
    decreases n,
{
    if n <= 0 {
        None
    } else {
        let workload = workloads[n - 1];
        if workloads_failure(workloads, n - 1) is Some {
            workloads_failure(workloads, n - 1)
        } else if identifier_failure(Field::WorkloadId((n - 1) as usize), workload.id@) is Some {
            identifier_failure(Field::WorkloadId((n - 1) as usize), workload.id@)
        } else if names_workload(workloads, n - 1, workload.id@) {
            Some(ManifestError::DuplicateWorkload((n - 1) as usize))
        } else if !paths::distinct(workload.identity_files@) {
            Some(ManifestError::DuplicatePath(Field::WorkloadIdentityFiles))
        } else {
            verifier_failure(workload.verifier)
        }
    }
}

/// Why the browser settings are refused, if they are.
pub open spec fn browser_failure(browser: BrowserSpec) -> Option<ManifestError> {
    if browser.engines@.len() == 0 {
        Some(ManifestError::NoEngines)
    } else if !browser.engines@.no_duplicates() {
        Some(ManifestError::DuplicateEngine)
    } else if text::blank(browser.mode@) {
        Some(ManifestError::Blank(Field::BrowserMode))
    } else if text::blank(browser.locale@) {
        Some(ManifestError::Blank(Field::BrowserLocale))
    } else if text::blank(browser.timezone@) {
        Some(ManifestError::Blank(Field::BrowserTimezone))
    } else if text::blank(browser.color_scheme@) {
        Some(ManifestError::Blank(Field::BrowserColorScheme))
    } else if text::blank(browser.cache@) {
        Some(ManifestError::Blank(Field::BrowserCache))
    } else if text::blank(browser.network_policy@) {
        Some(ManifestError::Blank(Field::BrowserNetwork))
    } else if browser.viewport.width == 0 {
        Some(ManifestError::NotPositive(Field::ViewportWidth))
    } else if browser.viewport.height == 0 {
        Some(ManifestError::NotPositive(Field::ViewportHeight))
    } else if browser.mode@ != "headless"@ {
        Some(ManifestError::UnsupportedMode)
    } else if browser.color_scheme@ != "light"@ && browser.color_scheme@ != "dark"@
        && browser.color_scheme@ != "no-preference"@ {
        Some(ManifestError::UnsupportedColorScheme)
    } else if browser.cache@ != "cold"@ {
        Some(ManifestError::UnsupportedCache)
    } else if browser.network_policy@ != "local-only"@ {
        Some(ManifestError::UnsupportedNetwork)
    } else if !browser.fresh_profile_per_trial {
        Some(ManifestError::SharedProfile)
    } else {
        None
    }
}

/// Why the numbers of samples are refused, if they are.
pub open spec fn trials_failure(trials: TrialsSpec) -> Option<ManifestError> {
    if trials.min_final_samples == 0 {
        Some(ManifestError::NotPositive(Field::MinFinalSamples))
    } else if trials.max_final_samples < trials.min_final_samples {
        Some(ManifestError::SampleRange)
    } else {
        match trials.mode {
            TrialCount::Label(_) => None,
            TrialCount::Count(count) => if count == 0 {
                Some(ManifestError::NotPositive(Field::TrialsMode))
            } else if !(trials.min_final_samples <= count <= trials.max_final_samples) {
                Some(ManifestError::FixedSamples)
            } else {
                None
            },
        }
    }
}

/// A metric that every browser trial produces.
pub open spec fn is_measured(metric: Seq<char>) -> bool {
    ||| metric == "workload.wall_ms"@
    ||| metric == "variant.call_wall_ms"@
    ||| metric == "browser.cpu_profile.active_ms"@
    ||| metric == "browser.js_heap.live_bytes"@
}

/// The smallest effect on a metric that counts.
pub open spec fn minimum_effect(effects: Seq<MetricPolicy>, metric: Seq<char>) -> Option<Number>
    decreases effects.len(),
{
    if effects.len() == 0 {
        None
    } else if effects.last().name@ == metric {
        Some(effects.last().minimum_effect_pct)
    } else {
        minimum_effect(effects.drop_last(), metric)
    }
}

/// Why the first `n` primary metrics are refused, if they are.
pub open spec fn metrics_failure(statistics: StatisticsSpec, n: int) -> Option<ManifestError>
    decreases n,
{
    if n <= 0 {
        None
    } else {
        let metric = statistics.primary_metrics@[n - 1]@;
        let effect = minimum_effect(statistics.minimum_effect_pct@, metric);
        if metrics_failure(statistics, n - 1) is Some {
            metrics_failure(statistics, n - 1)
        } else if text::blank(metric) {
            Some(ManifestError::Blank(Field::PrimaryMetric))
        } else if !is_measured(metric) {
            Some(ManifestError::UnknownMetric((n - 1) as usize))
        } else if effect is None {
            Some(ManifestError::NoMinimumEffect((n - 1) as usize))
        } else if !number::finite_non_negative(effect->0) {
            Some(ManifestError::InvalidMinimumEffect((n - 1) as usize))
        } else {
            None
        }
    }
}

/// Why the statistics are refused, if they are.
pub open spec fn statistics_failure(statistics: StatisticsSpec) -> Option<ManifestError> {
    let count = statistics.primary_metrics@.len() as int;
    if !(number::zero().at_most(statistics.confidence) && statistics.confidence.less(
        number::one(),
    )) {
        Some(ManifestError::Confidence)
    } else if statistics.bootstrap_samples < 1_000 {
        Some(ManifestError::BootstrapSamples)
    } else if count == 0 {
        Some(ManifestError::NoPrimaryMetrics)
    } else if metrics_failure(statistics, count) is Some {
        metrics_failure(statistics, count)
    } else if !number::within(statistics.minimum_success_rate, number::zero(), number::one()) {
        Some(ManifestError::SuccessRate)
    } else if !number::within(
        statistics.max_regression_percentage_points,
        number::zero(),
        number::hundred(),
    ) {
        Some(ManifestError::RegressionPoints)
    } else if statistics.cross_engine_policy@ != "strict_all"@ {
        Some(ManifestError::UnsupportedPolicy)
    } else if !number::finite_non_negative(statistics.protected_metric_max_regression_pct) {
        Some(ManifestError::ProtectedRegression)
    } else {
        None
    }
}

/// Why a benchmark is refused, if it is: the first rule that it breaks.
pub open spec fn benchmark_failure(manifest: BenchmarkManifest) -> Option<ManifestError> {
    let workloads = workloads_failure(manifest.workloads@, manifest.workloads@.len() as int);
    if manifest.schema_version != SCHEMA_VERSION {
        Some(ManifestError::BenchmarkSchema(manifest.schema_version))
    } else if identifier_failure(Field::BenchmarkId, manifest.benchmark.id@) is Some {
        identifier_failure(Field::BenchmarkId, manifest.benchmark.id@)
    } else if identifier_failure(Field::BenchmarkSubject, manifest.benchmark.subject@) is Some {
        identifier_failure(Field::BenchmarkSubject, manifest.benchmark.subject@)
    } else if manifest.workloads@.len() == 0 {
        Some(ManifestError::NoWorkloads)
    } else if workloads is Some {
        workloads
    } else if browser_failure(manifest.browser) is Some {
        browser_failure(manifest.browser)
    } else if !manifest.captures.cpu_profile || !manifest.captures.js_heap {
        Some(ManifestError::MissingCaptures)
    } else if trials_failure(manifest.trials) is Some {
        trials_failure(manifest.trials)
    } else {
        statistics_failure(manifest.statistics)
    }
}

/// Why a variant is refused, if it is: the first rule that it breaks.
pub open spec fn variant_failure(variant: VariantDescriptor) -> Option<ManifestError> {
    if variant.schema_version != SCHEMA_VERSION {
        Some(ManifestError::VariantSchema(variant.schema_version))
    } else if identifier_failure(Field::VariantId, variant.id@) is Some {
        identifier_failure(Field::VariantId, variant.id@)
    } else if identifier_failure(Field::VariantSubject, variant.subject@) is Some {
        identifier_failure(Field::VariantSubject, variant.subject@)
    } else if !is_command(variant.adapter.command@) {
        Some(ManifestError::InvalidCommand(Field::VariantCommand))
    } else if variant.implementation_files@.len() == 0 {
        Some(ManifestError::NoPaths(Field::VariantFiles))
    } else if !paths::distinct(variant.implementation_files@) {
        Some(ManifestError::DuplicatePath(Field::VariantFiles))
    } else if text::blank(variant.adapter.ready_protocol@) {
        Some(ManifestError::Blank(Field::VariantReadyProtocol))
    } else if variant.adapter.ready_protocol@ != "stdio-json"@ {
        Some(ManifestError::UnsupportedReadyProtocol)
    } else if variant.adapter.ready_timeout_seconds == 0 {
        Some(ManifestError::NotPositive(Field::VariantReadyTimeout))
    } else {
        None
    }
}

// Checking the rules.

fn is_blank(value: &str) -> (r: bool)
    ensures
        r == text::blank(value@),
{
    proof {
        text::lemma_trimmed_blank(value@);
    }
    text::trim(value).as_str().is_empty()
}

fn check_identifier(field: Field, value: &str) -> (r: Option<ManifestError>)
    ensures
        r == identifier_failure(field, value@),
{
    if is_blank(value) {
        Some(ManifestError::Blank(field))
    } else if !text::identifier(value) {
        Some(ManifestError::NotAnIdentifier(field))
    } else {
        None
    }
}

fn check_command(command: &Vec<String>) -> (r: bool)
    ensures
        r == is_command(command@),
{
    let mut i: usize = 0;
    while i < command.len()
        invariant
            i <= command@.len(),
            forall|j: int| 0 <= j < i ==> (#[trigger] command@[j])@.len() > 0,
        decreases command@.len() - i,
    {
        if command[i].as_str().is_empty() {
            return false;
        }
        i += 1;
    }
    command.len() > 0
}

fn check_verifier(verifier: &VerifierSpec) -> (r: Option<ManifestError>)
    ensures
        r == verifier_failure(*verifier),
{
    match verifier {
        VerifierSpec::BuiltIn(_) => None,
        VerifierSpec::Process(process) => {
            if !check_command(&process.command) {
                Some(ManifestError::InvalidCommand(Field::VerifierCommand))
            } else if process.identity_files.len() == 0 {
                Some(ManifestError::NoPaths(Field::VerifierIdentityFiles))
            } else if !paths::all_distinct(&process.identity_files) {
                Some(ManifestError::DuplicatePath(Field::VerifierIdentityFiles))
            } else if process.timeout_seconds == 0 {
                Some(ManifestError::NotPositive(Field::VerifierTimeout))
            } else {
                None
            }
        },
    }
}

fn workload_named(workloads: &Vec<WorkloadSpec>, n: usize, id: &str) -> (r: bool)
    requires
        n <= workloads@.len(),
    ensures
        r == names_workload(workloads@, n as int, id@),
{
    let mut i: usize = 0;
    while i < n
        invariant
            i <= n <= workloads@.len(),
            forall|j: int| 0 <= j < i ==> (#[trigger] workloads@[j]).id@ != id@,
        decreases n - i,
    {
        if text::same(&workloads[i].id, id) {
            return true;
        }
        i += 1;
    }
    false
}

proof fn lemma_workloads_failure(workloads: Seq<WorkloadSpec>, n: int, m: int)
    requires
        0 <= n <= m,
        workloads_failure(workloads, n) is Some,
    ensures
        workloads_failure(workloads, m) == workloads_failure(workloads, n),
    decreases m - n,
{
    if n < m {
        lemma_workloads_failure(workloads, n, m - 1);
    }
}

fn check_workload(workloads: &Vec<WorkloadSpec>, i: usize) -> (r: Option<ManifestError>)
    requires
        i < workloads@.len(),
        workloads_failure(workloads@, i as int) is None,
    ensures
        r == workloads_failure(workloads@, i + 1),
{
    let workload = &workloads[i];
    if let Some(error) = check_identifier(Field::WorkloadId(i), &workload.id) {
        return Some(error);
    }
    if workload_named(workloads, i, &workload.id) {
        return Some(ManifestError::DuplicateWorkload(i));
    }
    if !paths::all_distinct(&workload.identity_files) {
        return Some(ManifestError::DuplicatePath(Field::WorkloadIdentityFiles));
    }
    check_verifier(&workload.verifier)
}

fn check_workloads(workloads: &Vec<WorkloadSpec>) -> (r: Option<ManifestError>)
    ensures
        r == workloads_failure(workloads@, workloads@.len() as int),
{
    let mut i: usize = 0;
    while i < workloads.len()
        invariant
            i <= workloads@.len(),
            workloads_failure(workloads@, i as int) is None,
        decreases workloads@.len() - i,
    {
        if let Some(error) = check_workload(workloads, i) {
            proof {
                lemma_workloads_failure(workloads@, i + 1, workloads@.len() as int);
            }
            return Some(error);
        }
        i += 1;
    }
    None
}

fn engines_distinct(engines: &Vec<Engine>) -> (r: bool)
    ensures
        r == engines@.no_duplicates(),
{
    let mut i: usize = 0;
    while i < engines.len()
        invariant
            i <= engines@.len(),
            forall|a: int, b: int| 0 <= a < b < i ==> engines@[a] != engines@[b],
        decreases engines@.len() - i,
    {
        let mut j: usize = 0;
        while j < i
            invariant
                j <= i < engines@.len(),
                forall|a: int| 0 <= a < j ==> engines@[a] != engines@[i as int],
            decreases i - j,
        {
            if engines[j] == engines[i] {
                return false;
            }
            j += 1;
        }
        i += 1;
    }
    true
}

fn check_browser(browser: &BrowserSpec) -> (r: Option<ManifestError>)
    ensures
        r == browser_failure(*browser),
{
    if browser.engines.len() == 0 {
        return Some(ManifestError::NoEngines);
    }
    if !engines_distinct(&browser.engines) {
        return Some(ManifestError::DuplicateEngine);
    }
    if is_blank(&browser.mode) {
        return Some(ManifestError::Blank(Field::BrowserMode));
    }
    if is_blank(&browser.locale) {
        return Some(ManifestError::Blank(Field::BrowserLocale));
    }
    if is_blank(&browser.timezone) {
        return Some(ManifestError::Blank(Field::BrowserTimezone));
    }
    if is_blank(&browser.color_scheme) {
        return Some(ManifestError::Blank(Field::BrowserColorScheme));
    }
    if is_blank(&browser.cache) {
        return Some(ManifestError::Blank(Field::BrowserCache));
    }
    if is_blank(&browser.network_policy) {
        return Some(ManifestError::Blank(Field::BrowserNetwork));
    }
    if browser.viewport.width == 0 {
        return Some(ManifestError::NotPositive(Field::ViewportWidth));
    }
    if browser.viewport.height == 0 {
        return Some(ManifestError::NotPositive(Field::ViewportHeight));
    }
    if !text::same(&browser.mode, "headless") {
        return Some(ManifestError::UnsupportedMode);
    }
    if !text::same(&browser.color_scheme, "light") && !text::same(&browser.color_scheme, "dark")
        && !text::same(&browser.color_scheme, "no-preference") {
        return Some(ManifestError::UnsupportedColorScheme);
    }
    if !text::same(&browser.cache, "cold") {
        return Some(ManifestError::UnsupportedCache);
    }
    if !text::same(&browser.network_policy, "local-only") {
        return Some(ManifestError::UnsupportedNetwork);
    }
    if !browser.fresh_profile_per_trial {
        return Some(ManifestError::SharedProfile);
    }
    None
}

fn check_trials(trials: &TrialsSpec) -> (r: Option<ManifestError>)
    ensures
        r == trials_failure(*trials),
{
    if trials.min_final_samples == 0 {
        return Some(ManifestError::NotPositive(Field::MinFinalSamples));
    }
    if trials.max_final_samples < trials.min_final_samples {
        return Some(ManifestError::SampleRange);
    }
    match &trials.mode {
        TrialCount::Label(_) => None,
        TrialCount::Count(count) => {
            if *count == 0 {
                Some(ManifestError::NotPositive(Field::TrialsMode))
            } else if *count < trials.min_final_samples || *count > trials.max_final_samples {
                Some(ManifestError::FixedSamples)
            } else {
                None
            }
        },
    }
}

fn measured(metric: &str) -> (r: bool)
    ensures
        r == is_measured(metric@),
{
    text::same(metric, "workload.wall_ms") || text::same(metric, "variant.call_wall_ms")
        || text::same(metric, "browser.cpu_profile.active_ms") || text::same(
        metric,
        "browser.js_heap.live_bytes",
    )
}

fn effect_of(effects: &Vec<MetricPolicy>, metric: &str) -> (r: Option<Number>)
    ensures
        r == minimum_effect(effects@, metric@),
{
    let mut n: usize = effects.len();
    assert(effects@.take(n as int) == effects@);
    while n > 0
        invariant
            n <= effects@.len(),
            minimum_effect(effects@, metric@) == minimum_effect(effects@.take(n as int), metric@),
        decreases n,
    {
        assert(effects@.take(n as int).drop_last() == effects@.take(n - 1));
        if text::same(&effects[n - 1].name, metric) {
            return Some(effects[n - 1].minimum_effect_pct);
        }
        n -= 1;
    }
    None
}

proof fn lemma_metrics_failure(statistics: StatisticsSpec, n: int, m: int)
    requires
        0 <= n <= m,
        metrics_failure(statistics, n) is Some,
    ensures
        metrics_failure(statistics, m) == metrics_failure(statistics, n),
    decreases m - n,
{
    if n < m {
        lemma_metrics_failure(statistics, n, m - 1);
    }
}

fn check_metric(statistics: &StatisticsSpec, i: usize) -> (r: Option<ManifestError>)
    requires
        i < statistics.primary_metrics@.len(),
        metrics_failure(*statistics, i as int) is None,
    ensures
        r == metrics_failure(*statistics, i + 1),
{
    let metric = &statistics.primary_metrics[i];
    if is_blank(metric) {
        return Some(ManifestError::Blank(Field::PrimaryMetric));
    }
    if !measured(metric) {
        return Some(ManifestError::UnknownMetric(i));
    }
    match effect_of(&statistics.minimum_effect_pct, metric) {
        None => Some(ManifestError::NoMinimumEffect(i)),
        Some(effect) => if number::is_finite_non_negative(effect) {
            None
        } else {
            Some(ManifestError::InvalidMinimumEffect(i))
        },
    }
}

fn check_metrics(statistics: &StatisticsSpec) -> (r: Option<ManifestError>)
    ensures
        r == metrics_failure(*statistics, statistics.primary_metrics@.len() as int),
{
    let ghost count = statistics.primary_metrics@.len() as int;
    let mut i: usize = 0;
    while i < statistics.primary_metrics.len()
        invariant
            i <= statistics.primary_metrics@.len(),
            count == statistics.primary_metrics@.len(),
            metrics_failure(*statistics, i as int) is None,
        decreases statistics.primary_metrics@.len() - i,
    {
        if let Some(error) = check_metric(statistics, i) {
            proof {
                lemma_metrics_failure(*statistics, i + 1, count);
            }
            return Some(error);
        }
        i += 1;
    }
    None
}

fn check_statistics(statistics: &StatisticsSpec) -> (r: Option<ManifestError>)
    ensures
        r == statistics_failure(*statistics),
{
    let none = Number { bits: 0 };
    let one = Number { bits: number::ONE_BITS };
    let hundred = Number { bits: number::HUNDRED_BITS };
    if !none.is_at_most(statistics.confidence) || !statistics.confidence.is_less(one) {
        return Some(ManifestError::Confidence);
    }
    if statistics.bootstrap_samples < 1_000 {
        return Some(ManifestError::BootstrapSamples);
    }
    if statistics.primary_metrics.len() == 0 {
        return Some(ManifestError::NoPrimaryMetrics);
    }
    if let Some(error) = check_metrics(statistics) {
        return Some(error);
    }
    if !none.is_at_most(statistics.minimum_success_rate)
        || !statistics.minimum_success_rate.is_at_most(one) {
        return Some(ManifestError::SuccessRate);
    }
    if !none.is_at_most(statistics.max_regression_percentage_points)
        || !statistics.max_regression_percentage_points.is_at_most(hundred) {
        return Some(ManifestError::RegressionPoints);
    }
    if !text::same(&statistics.cross_engine_policy, "strict_all") {
        return Some(ManifestError::UnsupportedPolicy);
    }
    if !number::is_finite_non_negative(statistics.protected_metric_max_regression_pct) {
        return Some(ManifestError::ProtectedRegression);
    }
    None
}

impl BenchmarkManifest {
    /// Checks a benchmark against every rule; the first one that it breaks decides the error.
    pub fn validate(&self) -> (r: Result<(), ManifestError>)
        ensures
            match benchmark_failure(*self) {
                Some(error) => r == Err::<(), ManifestError>(error),
                None => r == Ok::<(), ManifestError>(()),
            },
    {
        if self.schema_version != SCHEMA_VERSION {
            return Err(ManifestError::BenchmarkSchema(self.schema_version));
        }
        if let Some(error) = check_identifier(Field::BenchmarkId, &self.benchmark.id) {
            return Err(error);
        }
        if let Some(error) = check_identifier(Field::BenchmarkSubject, &self.benchmark.subject) {
            return Err(error);
        }
        if self.workloads.len() == 0 {
            return Err(ManifestError::NoWorkloads);
        }
        if let Some(error) = check_workloads(&self.workloads) {
            return Err(error);
        }
        if let Some(error) = check_browser(&self.browser) {
            return Err(error);
        }
        if !self.captures.cpu_profile || !self.captures.js_heap {
            return Err(ManifestError::MissingCaptures);
        }
        if let Some(error) = check_trials(&self.trials) {
            return Err(error);
        }
        if let Some(error) = check_statistics(&self.statistics) {
            return Err(error);
        }
        Ok(())
    }
}

impl VariantDescriptor {
    /// Checks a variant against every rule; the first one that it breaks decides the error.
    pub fn validate(&self) -> (r: Result<(), ManifestError>)
        ensures
            match variant_failure(*self) {
                Some(error) => r == Err::<(), ManifestError>(error),
                None => r == Ok::<(), ManifestError>(()),
            },
    {
        if self.schema_version != SCHEMA_VERSION {
            return Err(ManifestError::VariantSchema(self.schema_version));
        }
        if let Some(error) = check_identifier(Field::VariantId, &self.id) {
            return Err(error);
        }
        if let Some(error) = check_identifier(Field::VariantSubject, &self.subject) {
            return Err(error);
        }
        if !check_command(&self.adapter.command) {
            return Err(ManifestError::InvalidCommand(Field::VariantCommand));
        }
        if self.implementation_files.len() == 0 {
            return Err(ManifestError::NoPaths(Field::VariantFiles));
        }
        if !paths::all_distinct(&self.implementation_files) {
            return Err(ManifestError::DuplicatePath(Field::VariantFiles));
        }
        if is_blank(&self.adapter.ready_protocol) {
            return Err(ManifestError::Blank(Field::VariantReadyProtocol));
        }
        if !text::same(&self.adapter.ready_protocol, "stdio-json") {
            return Err(ManifestError::UnsupportedReadyProtocol);
        }
        if self.adapter.ready_timeout_seconds == 0 {
            return Err(ManifestError::NotPositive(Field::VariantReadyTimeout));
        }
        Ok(())
    }
}

// What to tell a user.

/// The name of a part of a definition.
pub open spec fn field_label(field: Field) -> Seq<char> {
    match field {
        Field::BenchmarkId => "benchmark id"@,
        Field::BenchmarkSubject => "benchmark subject"@,
        Field::WorkloadId(_) => "workload id"@,
        Field::WorkloadIdentityFiles => "workload identity_files"@,
        Field::VerifierCommand => "workload verifier"@,
        Field::VerifierIdentityFiles => "workload verifier identity_files"@,
        Field::VerifierTimeout => "workload verifier timeout_seconds"@,
        Field::BrowserMode => "browser mode"@,
        Field::BrowserLocale => "browser locale"@,
        Field::BrowserTimezone => "browser timezone"@,
        Field::BrowserColorScheme => "browser color_scheme"@,
        Field::BrowserCache => "browser cache policy"@,
        Field::BrowserNetwork => "browser network policy"@,
        Field::ViewportWidth => "browser viewport width"@,
        Field::ViewportHeight => "browser viewport height"@,
        Field::MinFinalSamples => "trials.min_final_samples"@,
        Field::TrialsMode => "trials.mode"@,
        Field::PrimaryMetric => "primary metric"@,
        Field::VariantId => "variant id"@,
        Field::VariantSubject => "variant subject"@,
        Field::VariantCommand => "variant adapter"@,
        Field::VariantFiles => "variant implementation.files"@,
        Field::VariantReadyProtocol => "variant ready protocol"@,
        Field::VariantReadyTimeout => "variant ready timeout_seconds"@,
    }
}

impl Field {
    /// The name of the part.
    pub fn label(self) -> (r: &'static str)
        ensures
            r@ == field_label(self),
    {
        match self {
            Field::BenchmarkId => "benchmark id",
            Field::BenchmarkSubject => "benchmark subject",
            Field::WorkloadId(_) => "workload id",
            Field::WorkloadIdentityFiles => "workload identity_files",
            Field::VerifierCommand => "workload verifier",
            Field::VerifierIdentityFiles => "workload verifier identity_files",
            Field::VerifierTimeout => "workload verifier timeout_seconds",
            Field::BrowserMode => "browser mode",
            Field::BrowserLocale => "browser locale",
            Field::BrowserTimezone => "browser timezone",
            Field::BrowserColorScheme => "browser color_scheme",
            Field::BrowserCache => "browser cache policy",
            Field::BrowserNetwork => "browser network policy",
            Field::ViewportWidth => "browser viewport width",
            Field::ViewportHeight => "browser viewport height",
            Field::MinFinalSamples => "trials.min_final_samples",
            Field::TrialsMode => "trials.mode",
            Field::PrimaryMetric => "primary metric",
            Field::VariantId => "variant id",
            Field::VariantSubject => "variant subject",
            Field::VariantCommand => "variant adapter",
            Field::VariantFiles => "variant implementation.files",
            Field::VariantReadyProtocol => "variant ready protocol",
            Field::VariantReadyTimeout => "variant ready timeout_seconds",
        }
    }
}

/// What to tell a user whose definition is refused; `value` is the text that the error is about.
pub open spec fn manifest_error_text(error: ManifestError, value: Seq<char>) -> Seq<char> {
    match error {
        ManifestError::BenchmarkSchema(version) => "unsupported benchmark schema "@ + text::decimal(
            version as nat,
        ) + "; expected 1"@,
        ManifestError::VariantSchema(version) => "unsupported variant schema "@ + text::decimal(
            version as nat,
        ) + "; expected 1"@,
        ManifestError::Blank(field) => field_label(field) + " must not be empty"@,
        ManifestError::NotAnIdentifier(field) => field_label(field) + " "@ + text::quoted(value)
            + " may contain only ASCII letters, numbers, `-`, `_`, and `.`"@,
        ManifestError::NotPositive(field) => field_label(field) + " must be positive"@,
        ManifestError::InvalidCommand(field) => field_label(field)
            + " command must contain only non-empty arguments"@,
        ManifestError::DuplicatePath(field) => field_label(field) + " contains a duplicate path"@,
        ManifestError::NoPaths(field) => field_label(field) + " must not be empty"@,
        ManifestError::NoWorkloads => "benchmark must define at least one workload"@,
        ManifestError::DuplicateWorkload(_) => "duplicate workload id "@ + text::quoted(value),
        ManifestError::NoEngines => "browser.engines must select at least one engine"@,
        ManifestError::DuplicateEngine => "browser.engines contains a duplicate engine"@,
        ManifestError::UnsupportedMode => "version 1 supports only browser.mode `headless`"@,
        ManifestError::UnsupportedColorScheme =>
            "browser.color_scheme must be light, dark, or no-preference"@,
        ManifestError::UnsupportedCache => "version 1 supports only browser.cache `cold`"@,
        ManifestError::UnsupportedNetwork =>
            "version 1 supports only browser.network.policy `local-only`"@,
        ManifestError::SharedProfile => "browser.fresh_profile_per_trial must be true"@,
        ManifestError::MissingCaptures =>
            "version 1 requires browser CPU profiles and JavaScript heaps"@,
        ManifestError::SampleRange =>
            "trials.max_final_samples must be >= trials.min_final_samples"@,
        ManifestError::FixedSamples =>
            "fixed trials.mode must be within min_final_samples..=max_final_samples"@,
        ManifestError::Confidence => "statistics.confidence must be between 0 and 1"@,
        ManifestError::BootstrapSamples => "statistics.bootstrap_samples must be at least 1000"@,
        ManifestError::NoPrimaryMetrics => "statistics.primary_metrics must not be empty"@,
        ManifestError::UnknownMetric(_) => "primary metric "@ + text::quoted(value)
            + " is not produced by a browser trial"@,
        ManifestError::NoMinimumEffect(_) => "primary metric "@ + text::quoted(value)
            + " has no minimum_effect_pct"@,
        ManifestError::InvalidMinimumEffect(_) => "minimum effect for "@ + text::quoted(value)
            + " must be finite and non-negative"@,
        ManifestError::SuccessRate => "correctness.minimum_success_rate must be between 0 and 1"@,
        ManifestError::RegressionPoints =>
            "correctness.max_regression_percentage_points must be between 0 and 100"@,
        ManifestError::UnsupportedPolicy =>
            "version 1 supports only statistics.cross_engine_policy `strict_all`"@,
        ManifestError::ProtectedRegression =>
            "protected_metric_max_regression_pct must be finite and non-negative"@,
        ManifestError::UnsupportedReadyProtocol =>
            "version 1 supports only variant ready protocol `stdio-json`"@,
    }
}

/// A text, a quoted text, and another text.
fn around(before: &str, value: &str, after: &str) -> (r: String)
    ensures
        r@ == before@ + text::quoted(value@) + after@,
{
    let mut out = before.to_owned();
    out.append(&text::quote(value));
    out.append(after);
    out
}

/// The name of a part, and what is wrong with it.
fn about(field: Field, after: &str) -> (r: String)
    ensures
        r@ == field_label(field) + after@,
{
    let mut out = field.label().to_owned();
    out.append(after);
    out
}

/// A version that is not the expected one.
fn schema_text(before: &str, version: u32) -> (r: String)
    ensures
        r@ == before@ + text::decimal(version as nat) + "; expected 1"@,
{
    let mut out = before.to_owned();
    out.append(&text::decimal_text(version as u64));
    out.append("; expected 1");
    out
}

impl ManifestError {
    /// Says why a definition is refused; `value` is the text that the error is about.
    pub fn message(&self, value: &str) -> (r: String)
        ensures
            r@ == manifest_error_text(*self, value@),
    {
        match *self {
            ManifestError::BenchmarkSchema(version) => schema_text(
                "unsupported benchmark schema ",
                version,
            ),
            ManifestError::VariantSchema(version) => schema_text(
                "unsupported variant schema ",
                version,
            ),
            ManifestError::Blank(field) => about(field, " must not be empty"),
            ManifestError::NotAnIdentifier(field) => {
                let mut out = about(field, " ");
                out.append(&text::quote(value));
                out.append(" may contain only ASCII letters, numbers, `-`, `_`, and `.`");
                out
            },
            ManifestError::NotPositive(field) => about(field, " must be positive"),
            ManifestError::InvalidCommand(field) => about(
                field,
                " command must contain only non-empty arguments",
            ),
            ManifestError::DuplicatePath(field) => about(field, " contains a duplicate path"),
            ManifestError::NoPaths(field) => about(field, " must not be empty"),
            ManifestError::NoWorkloads => "benchmark must define at least one workload".to_owned(),
            ManifestError::DuplicateWorkload(_) => {
                let mut out = "duplicate workload id ".to_owned();
                out.append(&text::quote(value));
                out
            },
            ManifestError::NoEngines =>
                "browser.engines must select at least one engine".to_owned(),
            ManifestError::DuplicateEngine =>
                "browser.engines contains a duplicate engine".to_owned(),
            ManifestError::UnsupportedMode =>
                "version 1 supports only browser.mode `headless`".to_owned(),
            ManifestError::UnsupportedColorScheme =>
                "browser.color_scheme must be light, dark, or no-preference".to_owned(),
            ManifestError::UnsupportedCache =>
                "version 1 supports only browser.cache `cold`".to_owned(),
            ManifestError::UnsupportedNetwork =>
                "version 1 supports only browser.network.policy `local-only`".to_owned(),
            ManifestError::SharedProfile =>
                "browser.fresh_profile_per_trial must be true".to_owned(),
            ManifestError::MissingCaptures =>
                "version 1 requires browser CPU profiles and JavaScript heaps".to_owned(),
            ManifestError::SampleRange =>
                "trials.max_final_samples must be >= trials.min_final_samples".to_owned(),
            ManifestError::FixedSamples =>
                "fixed trials.mode must be within min_final_samples..=max_final_samples".to_owned(),
            ManifestError::Confidence =>
                "statistics.confidence must be between 0 and 1".to_owned(),
            ManifestError::BootstrapSamples =>
                "statistics.bootstrap_samples must be at least 1000".to_owned(),
            ManifestError::NoPrimaryMetrics =>
                "statistics.primary_metrics must not be empty".to_owned(),
            ManifestError::UnknownMetric(_) => around(
                "primary metric ",
                value,
                " is not produced by a browser trial",
            ),
            ManifestError::NoMinimumEffect(_) => around(
                "primary metric ",
                value,
                " has no minimum_effect_pct",
            ),
            ManifestError::InvalidMinimumEffect(_) => around(
                "minimum effect for ",
                value,
                " must be finite and non-negative",
            ),
            ManifestError::SuccessRate =>
                "correctness.minimum_success_rate must be between 0 and 1".to_owned(),
            ManifestError::RegressionPoints =>
                "correctness.max_regression_percentage_points must be between 0 and 100".to_owned(),
            ManifestError::UnsupportedPolicy =>
                "version 1 supports only statistics.cross_engine_policy `strict_all`".to_owned(),
            ManifestError::ProtectedRegression =>
                "protected_metric_max_regression_pct must be finite and non-negative".to_owned(),
            ManifestError::UnsupportedReadyProtocol =>
                "version 1 supports only variant ready protocol `stdio-json`".to_owned(),
        }
    }
}

/// The text of a benchmark that an error is about; empty where it is about none.
pub open spec fn benchmark_offender(manifest: BenchmarkManifest, error: ManifestError) -> Seq<char> {
    let workloads = manifest.workloads@;
    let metrics = manifest.statistics.primary_metrics@;
    match error {
        ManifestError::NotAnIdentifier(Field::BenchmarkId) => manifest.benchmark.id@,
        ManifestError::NotAnIdentifier(Field::BenchmarkSubject) => manifest.benchmark.subject@,
        ManifestError::NotAnIdentifier(Field::WorkloadId(i)) => if i < workloads.len() {
            workloads[i as int].id@
        } else {
            Seq::empty()
        },
        ManifestError::DuplicateWorkload(i) => if i < workloads.len() {
            workloads[i as int].id@
        } else {
            Seq::empty()
        },
        ManifestError::UnknownMetric(i) | ManifestError::NoMinimumEffect(i)
        | ManifestError::InvalidMinimumEffect(i) => if i < metrics.len() {
            metrics[i as int]@
        } else {
            Seq::empty()
        },
        _ => Seq::empty(),
    }
}

impl BenchmarkManifest {
    /// Says why a benchmark is refused.
    pub fn describe(&self, error: ManifestError) -> (r: String)
        ensures
            r@ == manifest_error_text(error, benchmark_offender(*self, error)),
    {
        let mut value: &str = "";
        proof {
            reveal_strlit("");
            assert(""@ == Seq::<char>::empty());
        }
        match error {
            ManifestError::NotAnIdentifier(Field::BenchmarkId) => {
                value = self.benchmark.id.as_str();
            },
            ManifestError::NotAnIdentifier(Field::BenchmarkSubject) => {
                value = self.benchmark.subject.as_str();
            },
            ManifestError::NotAnIdentifier(Field::WorkloadId(i)) => {
                if i < self.workloads.len() {
                    value = self.workloads[i].id.as_str();
                }
            },
            ManifestError::DuplicateWorkload(i) => {
                if i < self.workloads.len() {
                    value = self.workloads[i].id.as_str();
                }
            },
            ManifestError::UnknownMetric(i) | ManifestError::NoMinimumEffect(i)
            | ManifestError::InvalidMinimumEffect(i) => {
                if i < self.statistics.primary_metrics.len() {
                    value = self.statistics.primary_metrics[i].as_str();
                }
            },
            _ => {},
        }
        error.message(value)
    }
}

// Paths and identities.

/// Paths below a directory, where they are relative.
pub open spec fn below(base: Seq<char>, files: Seq<String>) -> Seq<Seq<char>> {
    Seq::new(files.len(), |i: int| paths::joined(base, files[i]@))
}

/// A verifier with its paths taken from a directory.
pub open spec fn resolves_verifier(
    base: Seq<char>,
    written: VerifierSpec,
    resolved: VerifierSpec,
) -> bool {
    match (written, resolved) {
        (VerifierSpec::BuiltIn(a), VerifierSpec::BuiltIn(b)) => a == b,
        (VerifierSpec::Process(a), VerifierSpec::Process(b)) => {
            &&& text::views(b.command@) == text::views(a.command@)
            &&& b.timeout_seconds == a.timeout_seconds
            &&& text::views(b.identity_files@) == below(base, a.identity_files@)
        },
        _ => false,
    }
}

/// A workload with its paths taken from a directory.
pub open spec fn resolves_workload(
    base: Seq<char>,
    written: WorkloadSpec,
    resolved: WorkloadSpec,
) -> bool {
    &&& resolved.id@ == written.id@
    &&& resolved.trace_file@ == paths::joined(base, written.trace_file@)
    &&& text::views(resolved.identity_files@) == below(base, written.identity_files@)
    &&& resolves_verifier(base, written.verifier, resolved.verifier)
}

/// A benchmark that was read from a file: its paths are taken from the file's directory.
pub open spec fn resolves_benchmark(
    written: BenchmarkManifest,
    source_path: Seq<char>,
    resolved: BenchmarkManifest,
) -> bool {
    &&& resolved.schema_version == written.schema_version
    &&& resolved.benchmark == written.benchmark
    &&& resolved.workloads@.len() == written.workloads@.len()
    &&& forall|i: int|
        0 <= i < written.workloads@.len() ==> resolves_workload(
            paths::directory(source_path),
            #[trigger] written.workloads@[i],
            resolved.workloads@[i],
        )
    &&& resolved.browser == written.browser
    &&& resolved.captures == written.captures
    &&& resolved.trials == written.trials
    &&& resolved.statistics == written.statistics
    &&& resolved.source_path@ == source_path
    &&& resolved.source_sha256@.len() == 0
}

/// A variant that was read from a file: its paths are taken from the file's directory.
pub open spec fn resolves_variant(
    written: VariantDescriptor,
    source_path: Seq<char>,
    resolved: VariantDescriptor,
) -> bool {
    &&& resolved.schema_version == written.schema_version
    &&& resolved.id == written.id
    &&& resolved.subject == written.subject
    &&& resolved.adapter == written.adapter
    &&& text::views(resolved.implementation_files@) == below(
        paths::directory(source_path),
        written.implementation_files@,
    )
    &&& resolved.source_path@ == source_path
    &&& resolved.source_sha256@.len() == 0
}

fn resolve_all(base: &str, files: &Vec<String>) -> (r: Vec<String>)
    ensures
        text::views(r@) == below(base@, files@),
{
    let mut out: Vec<String> = Vec::new();
    let mut i: usize = 0;
    while i < files.len()
        invariant
            i <= files@.len(),
            out@.len() == i,
            forall|j: int| 0 <= j < i ==> (#[trigger] out@[j])@ == paths::joined(base@, files@[j]@),
        decreases files@.len() - i,
    {
        out.push(paths::join(base, &files[i]));
        i += 1;
    }
    assert(text::views(out@) == below(base@, files@));
    out
}

fn copy_texts(texts: &Vec<String>) -> (r: Vec<String>)
    ensures
        text::views(r@) == text::views(texts@),
{
    let mut out: Vec<String> = Vec::new();
    let mut i: usize = 0;
    while i < texts.len()
        invariant
            i <= texts@.len(),
            out@.len() == i,
            forall|j: int| 0 <= j < i ==> (#[trigger] out@[j])@ == texts@[j]@,
        decreases texts@.len() - i,
    {
        out.push(texts[i].clone());
        i += 1;
    }
    assert(text::views(out@) == text::views(texts@));
    out
}

fn resolve_verifier(base: &str, verifier: &VerifierSpec) -> (r: VerifierSpec)
    ensures
        resolves_verifier(base@, *verifier, r),
{
    match verifier {
        VerifierSpec::BuiltIn(builtin) => VerifierSpec::BuiltIn(*builtin),
        VerifierSpec::Process(process) => VerifierSpec::Process(
            CommandWithTimeout {
                command: copy_texts(&process.command),
                timeout_seconds: process.timeout_seconds,
                identity_files: resolve_all(base, &process.identity_files),
            },
        ),
    }
}

fn resolve_workloads(base: &str, workloads: &Vec<WorkloadSpec>) -> (r: Vec<WorkloadSpec>)
    ensures
        r@.len() == workloads@.len(),
        forall|i: int|
            0 <= i < workloads@.len() ==> resolves_workload(
                base@,
                #[trigger] workloads@[i],
                r@[i],
            ),
{
    let mut out: Vec<WorkloadSpec> = Vec::new();
    let mut i: usize = 0;
    while i < workloads.len()
        invariant
            i <= workloads@.len(),
            out@.len() == i,
            forall|j: int|
                0 <= j < i ==> resolves_workload(base@, #[trigger] workloads@[j], out@[j]),
        decreases workloads@.len() - i,
    {
        let workload = &workloads[i];
        out.push(
            WorkloadSpec {
                id: workload.id.clone(),
                trace_file: paths::join(base, &workload.trace_file),
                identity_files: resolve_all(base, &workload.identity_files),
                verifier: resolve_verifier(base, &workload.verifier),
            },
        );
        i += 1;
    }
    out
}

/// The paths of the files that a verifier's behaviour depends on.
pub open spec fn verifier_files(verifier: VerifierSpec) -> Seq<Seq<char>> {
    match verifier {
        VerifierSpec::BuiltIn(_) => Seq::empty(),
        VerifierSpec::Process(process) => text::views(process.identity_files@),
    }
}

/// The paths of the files that some workloads depend on, in order.
pub open spec fn workload_files(workloads: Seq<WorkloadSpec>) -> Seq<Seq<char>>
    decreases workloads.len(),
{
    if workloads.len() == 0 {
        Seq::empty()
    } else {
        let last = workloads.last();
        workload_files(workloads.drop_last()).push(last.trace_file@) + text::views(
            last.identity_files@,
        ) + verifier_files(last.verifier)
    }
}

/// The framed contents of some files, one after the other.
pub open spec fn framed_contents(contents: Seq<Vec<u8>>) -> Seq<u8>
    decreases contents.len(),
{
    if contents.len() == 0 {
        Seq::empty()
    } else {
        framed_contents(contents.drop_last()) + digest::framed(contents.last()@)
    }
}

/// The bytes that a definition's identity is the digest of.
pub open spec fn definition_preimage(
    domain: Seq<u8>,
    definition: Seq<u8>,
    contents: Seq<Vec<u8>>,
) -> Seq<u8> {
    domain + digest::framed(definition) + framed_contents(contents)
}

/// The digest of a definition together with the contents of the files that belong to it.
pub fn definition_sha256(domain: &[u8], definition: &[u8], contents: &Vec<Vec<u8>>) -> (r: String)
    ensures
        r@ == digest::sha256(definition_preimage(domain@, definition@, contents@)),
{
    let mut buffer: Vec<u8> = Vec::new();
    digest::push_bytes(&mut buffer, domain);
    digest::push_framed(&mut buffer, definition);
    let ghost start = domain@ + digest::framed(definition@);
    assert(buffer@ == start + framed_contents(contents@.take(0)));
    let mut i: usize = 0;
    while i < contents.len()
        invariant
            i <= contents@.len(),
            buffer@ == start + framed_contents(contents@.take(i as int)),
        decreases contents@.len() - i,
    {
        digest::push_framed(&mut buffer, &contents[i]);
        i += 1;
        proof {
            assert(contents@.take(i as int).drop_last() == contents@.take(i - 1));
            assert(buffer@ == start + framed_contents(contents@.take(i as int)));
        }
    }
    assert(contents@.take(contents@.len() as int) == contents@);
    digest::sha256_hex(&buffer)
}

fn push_paths(out: &mut Vec<String>, files: &Vec<String>)
    ensures
        text::views(final(out)@) == text::views(old(out)@) + text::views(files@),
{
    let ghost start = text::views(out@);
    let mut i: usize = 0;
    assert(start + text::views(files@.take(0)) == start);
    while i < files.len()
        invariant
            i <= files@.len(),
            text::views(out@) == start + text::views(files@.take(i as int)),
        decreases files@.len() - i,
    {
        let ghost before = out@;
        out.push(files[i].clone());
        i += 1;
        proof {
            assert(text::views(out@) == text::views(before).push(files@[i - 1]@));
            assert(text::views(files@.take(i as int)) == text::views(files@.take(i - 1)).push(
                files@[i - 1]@,
            ));
            assert(text::views(out@) == start + text::views(files@.take(i as int)));
        }
    }
    assert(files@.take(files@.len() as int) == files@);
}

/// Why a number of final samples cannot be settled.
#[derive(Clone, Copy, Debug, Eq, PartialEq, Structural)]
pub enum SamplesError {
    /// The rule is not one that is known.
    UnsupportedMode,
    /// The benchmark fixes another number than the one asked for.
    Conflict { fixed: u32, requested: u32 },
    /// The benchmark leaves the number open, and none was asked for.
    Undecided,
    /// The number is out of the benchmark's range.
    OutOfRange(u32),
    /// A budget needs a benchmark that leaves the number open.
    Fixed,
    /// A budget needs at least two pilot samples.
    TooFewPilots,
}

/// The number of final samples that a benchmark and a request come to.
pub open spec fn final_samples(trials: TrialsSpec, requested: Option<u32>) -> Result<
    u32,
    SamplesError,
> {
    let chosen = match trials.mode {
        TrialCount::Label(label) => if label@ != "auto"@ {
            Err(SamplesError::UnsupportedMode)
        } else {
            match requested {
                Some(requested) => Ok(requested),
                None => Err(SamplesError::Undecided),
            }
        },
        TrialCount::Count(fixed) => match requested {
            Some(requested) => if requested != fixed {
                Err(SamplesError::Conflict { fixed, requested })
            } else {
                Ok(fixed)
            },
            None => Ok(fixed),
        },
    };
    match chosen {
        Err(error) => Err(error),
        Ok(count) => if trials.min_final_samples <= count <= trials.max_final_samples {
            Ok(count)
        } else {
            Err(SamplesError::OutOfRange(count))
        },
    }
}

/// The range of final samples within which a budget may choose.
pub open spec fn adaptive_range(trials: TrialsSpec) -> Result<(u32, u32), SamplesError> {
    match trials.mode {
        TrialCount::Label(label) => if label@ != "auto"@ {
            Err(SamplesError::UnsupportedMode)
        } else if trials.pilot_samples < 2 {
            Err(SamplesError::TooFewPilots)
        } else {
            Ok((trials.min_final_samples, trials.max_final_samples))
        },
        TrialCount::Count(_) => Err(SamplesError::Fixed),
    }
}

/// The first workload with a name.
pub open spec fn workload_with(workloads: Seq<WorkloadSpec>, id: Seq<char>) -> Option<WorkloadSpec>
    decreases workloads.len(),
{
    if workloads.len() == 0 {
        None
    } else if workloads[0].id@ == id {
        Some(workloads[0])
    } else {
        workload_with(workloads.drop_first(), id)
    }
}

/// The invocation is that of the workload.
pub open spec fn invokes(
    invocation: WorkloadInvocation,
    workload: WorkloadSpec,
    source_path: Seq<char>,
) -> bool {
    &&& invocation.trace_file@ == workload.trace_file@
    &&& match (workload.verifier, invocation.verifier) {
        (VerifierSpec::BuiltIn(_), VerifierInvocation::Exact) => true,
        (
            VerifierSpec::Process(process),
            VerifierInvocation::Process { command, timeout_seconds, working_directory },
        ) => *command == process.command && timeout_seconds == process.timeout_seconds
            && working_directory@ == paths::directory(source_path),
        _ => false,
    }
}

impl BenchmarkManifest {
    /// Accepts a benchmark that was read from a file: takes its paths from the file's directory,
    /// and checks it against every rule.
    pub fn load(decoded: BenchmarkManifest, source_path: &str) -> (r: Result<
        BenchmarkManifest,
        ManifestError,
    >)
        ensures
            match r {
                Ok(manifest) => resolves_benchmark(decoded, source_path@, manifest)
                    && benchmark_failure(manifest) is None,
                Err(error) => exists|manifest: BenchmarkManifest| #[trigger]
                    resolves_benchmark(decoded, source_path@, manifest) && benchmark_failure(
                        manifest,
                    ) == Some(error),
            },
    {
        let base = paths::directory_of(source_path);
        let mut manifest = decoded;
        manifest.workloads = resolve_workloads(&base, &manifest.workloads);
        manifest.source_path = source_path.to_owned();
        manifest.source_sha256 = String::new();
        assert(resolves_benchmark(decoded, source_path@, manifest));
        match manifest.validate() {
            Ok(_) => Ok(manifest),
            Err(error) => Err(error),
        }
    }

    /// Accepts a benchmark that was stored with its paths taken and its digest computed.
    pub fn load_resolved(decoded: BenchmarkManifest, source_path: String, source_sha256: String) -> (r:
        Result<BenchmarkManifest, ManifestError>)
        ensures
            ({
                let manifest = BenchmarkManifest { source_path, source_sha256, ..decoded };
                match benchmark_failure(manifest) {
                    Some(error) => r == Err::<BenchmarkManifest, ManifestError>(error),
                    None => r == Ok::<BenchmarkManifest, ManifestError>(manifest),
                }
            }),
    {
        let mut manifest = decoded;
        manifest.source_path = source_path;
        manifest.source_sha256 = source_sha256;
        match manifest.validate() {
            Ok(_) => Ok(manifest),
            Err(error) => Err(error),
        }
    }

    /// The files that belong to the definition, in the order in which they are hashed.
    pub fn identity_files(&self) -> (r: Vec<String>)
        ensures
            text::views(r@) == workload_files(self.workloads@),
    {
        let mut out: Vec<String> = Vec::new();
        let mut i: usize = 0;
        assert(text::views(out@) == workload_files(self.workloads@.take(0)));
        while i < self.workloads.len()
            invariant
                i <= self.workloads@.len(),
                text::views(out@) == workload_files(self.workloads@.take(i as int)),
            decreases self.workloads@.len() - i,
        {
            let workload = &self.workloads[i];
            let ghost before = text::views(out@);
            out.push(workload.trace_file.clone());
            assert(text::views(out@) == before.push(workload.trace_file@));
            push_paths(&mut out, &workload.identity_files);
            if let VerifierSpec::Process(process) = &workload.verifier {
                push_paths(&mut out, &process.identity_files);
            }
            i += 1;
            proof {
                assert(self.workloads@.take(i as int).drop_last() == self.workloads@.take(i - 1));
                assert(text::views(out@) == workload_files(self.workloads@.take(i as int)));
            }
        }
        assert(self.workloads@.take(self.workloads@.len() as int) == self.workloads@);
        out
    }

    /// Gives the benchmark the digest of its definition and of the files that belong to it.
    pub fn identify(&mut self, source: &[u8], contents: &Vec<Vec<u8>>)
        ensures
            final(self).source_sha256@ == digest::sha256(
                definition_preimage(
                    vstd::utf8::encode_utf8("bperf-benchmark-definition-v1\0"@),
                    source@,
                    contents@,
                ),
            ),
            *final(self) == (BenchmarkManifest {
                source_sha256: final(self).source_sha256,
                ..*old(self)
            }),
    {
        self.source_sha256 =
        definition_sha256("bperf-benchmark-definition-v1\0".as_bytes(), source, contents);
    }

    pub fn benchmark_id(&self) -> (r: &str)
        ensures
            r@ == self.benchmark.id@,
    {
        self.benchmark.id.as_str()
    }

    pub fn subject_id(&self) -> (r: &str)
        ensures
            r@ == self.benchmark.subject@,
    {
        self.benchmark.subject.as_str()
    }

    pub fn source_path(&self) -> (r: &str)
        ensures
            r@ == self.source_path@,
    {
        self.source_path.as_str()
    }

    pub fn source_sha256(&self) -> (r: &str)
        ensures
            r@ == self.source_sha256@,
    {
        self.source_sha256.as_str()
    }

    /// The names of the workloads, in order.
    pub fn workload_ids(&self) -> (r: Vec<String>)
        ensures
            r@.len() == self.workloads@.len(),
            forall|i: int| 0 <= i < r@.len() ==> (#[trigger] r@[i])@ == self.workloads@[i].id@,
    {
        let mut out: Vec<String> = Vec::new();
        let mut i: usize = 0;
        while i < self.workloads.len()
            invariant
                i <= self.workloads@.len(),
                out@.len() == i,
                forall|j: int| 0 <= j < i ==> (#[trigger] out@[j])@ == self.workloads@[j].id@,
            decreases self.workloads@.len() - i,
        {
            out.push(self.workloads[i].id.clone());
            i += 1;
        }
        out
    }

    /// How the workload with a name is run and checked.
    pub fn workload(&self, id: &str) -> (r: Option<WorkloadInvocation<'_>>)
        ensures
            match workload_with(self.workloads@, id@) {
                Some(workload) => r is Some && invokes(r->0, workload, self.source_path@),
                None => r is None,
            },
    {
        let mut i: usize = 0;
        assert(self.workloads@.skip(0) == self.workloads@);
        while i < self.workloads.len()
            invariant
                i <= self.workloads@.len(),
                workload_with(self.workloads@, id@) == workload_with(
                    self.workloads@.skip(i as int),
                    id@,
                ),
            decreases self.workloads@.len() - i,
        {
            let workload = &self.workloads[i];
            assert(self.workloads@.skip(i as int)[0] == *workload);
            assert(self.workloads@.skip(i as int).drop_first() == self.workloads@.skip(i + 1));
            if text::same(&workload.id, id) {
                let verifier = match &workload.verifier {
                    VerifierSpec::BuiltIn(_) => VerifierInvocation::Exact,
                    VerifierSpec::Process(process) => VerifierInvocation::Process {
                        command: &process.command,
                        timeout_seconds: process.timeout_seconds,
                        working_directory: paths::directory_of(&self.source_path),
                    },
                };
                return Some(
                    WorkloadInvocation { trace_file: workload.trace_file.as_str(), verifier },
                );
            }
            i += 1;
        }
        None
    }

    pub fn engines(&self) -> (r: &Vec<Engine>)
        ensures
            *r == self.browser.engines,
    {
        &self.browser.engines
    }

    /// How the browser of every trial is set up.
    pub fn browser_trial_config(&self) -> (r: BrowserTrialConfig)
        ensures
            r.viewport == self.browser.viewport,
            r.locale@ == self.browser.locale@,
            r.timezone_id@ == self.browser.timezone@,
            r.color_scheme@ == self.browser.color_scheme@,
    {
        BrowserTrialConfig {
            viewport: self.browser.viewport,
            locale: self.browser.locale.clone(),
            timezone_id: self.browser.timezone.clone(),
            color_scheme: self.browser.color_scheme.clone(),
        }
    }

    pub fn schedule_seed(&self) -> (r: u64)
        ensures
            r == self.trials.schedule_seed,
    {
        self.trials.schedule_seed
    }

    pub fn randomize_order(&self) -> (r: bool)
        ensures
            r == self.trials.randomize_order,
    {
        self.trials.randomize_order
    }

    pub fn warmup_samples(&self) -> (r: u32)
        ensures
            r == self.trials.warmup_samples,
    {
        self.trials.warmup_samples
    }

    pub fn pilot_samples(&self) -> (r: u32)
        ensures
            r == self.trials.pilot_samples,
    {
        self.trials.pilot_samples
    }

    /// The range of final samples within which a budget may choose.
    pub fn adaptive_final_sample_range(&self) -> (r: Result<(u32, u32), SamplesError>)
        ensures
            r == adaptive_range(self.trials),
    {
        match &self.trials.mode {
            TrialCount::Label(label) => {
                if !text::same(label, "auto") {
                    return Err(SamplesError::UnsupportedMode);
                }
            },
            TrialCount::Count(_) => {
                return Err(SamplesError::Fixed);
            },
        }
        if self.trials.pilot_samples < 2 {
            return Err(SamplesError::TooFewPilots);
        }
        Ok((self.trials.min_final_samples, self.trials.max_final_samples))
    }

    /// Settles the number of final samples.
    pub fn resolve_final_samples(&self, requested: Option<u32>) -> (r: Result<u32, SamplesError>)
        ensures
            r == final_samples(self.trials, requested),
    {
        let count: u32 = match &self.trials.mode {
            TrialCount::Label(label) => {
                if !text::same(label, "auto") {
                    return Err(SamplesError::UnsupportedMode);
                }
                match requested {
                    Some(requested) => requested,
                    None => {
                        return Err(SamplesError::Undecided);
                    },
                }
            },
            TrialCount::Count(fixed) => {
                if let Some(requested) = requested {
                    if requested != *fixed {
                        return Err(SamplesError::Conflict { fixed: *fixed, requested });
                    }
                }
                *fixed
            },
        };
        if count < self.trials.min_final_samples || count > self.trials.max_final_samples {
            return Err(SamplesError::OutOfRange(count));
        }
        Ok(count)
    }

    /// Checks that a variant implements the benchmark's subject.
    pub fn validate_variant(&self, variant: &VariantDescriptor) -> (r: Result<(), SubjectMismatch>)
        ensures
            r == if variant.subject@ == self.benchmark.subject@ {
                Ok::<(), SubjectMismatch>(())
            } else {
                Err::<(), SubjectMismatch>(SubjectMismatch)
            },
    {
        if !text::same(variant.subject_id(), self.subject_id()) {
            return Err(SubjectMismatch);
        }
        Ok(())
    }

    /// How the numbers of a valid benchmark are judged.
    pub fn analysis_policy(&self) -> (r: AnalysisPolicy)
        requires
            benchmark_failure(*self) is None,
        ensures
            r.confidence == self.statistics.confidence,
            r.bootstrap_samples == self.statistics.bootstrap_samples,
            r.primary_metrics@.len() == self.statistics.primary_metrics@.len(),
            forall|i: int|
                0 <= i < r.primary_metrics@.len() ==> (#[trigger] r.primary_metrics@[i]).name@
                    == self.statistics.primary_metrics@[i]@ && Some(
                    r.primary_metrics@[i].minimum_effect_pct,
                ) == minimum_effect(
                    self.statistics.minimum_effect_pct@,
                    self.statistics.primary_metrics@[i]@,
                ),
            r.minimum_success_rate == self.statistics.minimum_success_rate,
            r.max_regression_percentage_points == self.statistics.max_regression_percentage_points,
            r.protected_metric_max_regression_pct
                == self.statistics.protected_metric_max_regression_pct,
    {
        let statistics = &self.statistics;
        let mut metrics: Vec<MetricPolicy> = Vec::new();
        let mut i: usize = 0;
        while i < statistics.primary_metrics.len()
            invariant
                i <= statistics.primary_metrics@.len(),
                *statistics == self.statistics,
                metrics@.len() == i,
                metrics_failure(*statistics, statistics.primary_metrics@.len() as int) is None,
                forall|j: int|
                    0 <= j < i ==> (#[trigger] metrics@[j]).name@
                        == statistics.primary_metrics@[j]@ && Some(metrics@[j].minimum_effect_pct)
                        == minimum_effect(
                        statistics.minimum_effect_pct@,
                        statistics.primary_metrics@[j]@,
                    ),
            decreases statistics.primary_metrics@.len() - i,
        {
            let metric = &statistics.primary_metrics[i];
            proof {
                lemma_metric_effect(
                    *statistics,
                    i as int,
                    statistics.primary_metrics@.len() as int,
                );
            }
            let effect = effect_of(&statistics.minimum_effect_pct, metric);
            metrics.push(
                MetricPolicy { name: metric.clone(), minimum_effect_pct: effect.unwrap() },
            );
            i += 1;
        }
        AnalysisPolicy {
            confidence: statistics.confidence,
            bootstrap_samples: statistics.bootstrap_samples,
            primary_metrics: metrics,
            minimum_success_rate: statistics.minimum_success_rate,
            max_regression_percentage_points: statistics.max_regression_percentage_points,
            protected_metric_max_regression_pct: statistics.protected_metric_max_regression_pct,
        }
    }
}

/// Every accepted primary metric has a smallest effect.
proof fn lemma_metric_effect(statistics: StatisticsSpec, i: int, n: int)
    requires
        0 <= i < n,
        metrics_failure(statistics, n) is None,
    ensures
        minimum_effect(statistics.minimum_effect_pct@, statistics.primary_metrics@[i]@) is Some,
    decreases n,
{
    if i < n - 1 {
        lemma_metric_effect(statistics, i, n - 1);
    }
}

/// What is said of a number of final samples that cannot be settled.
pub open spec fn samples_error_text(trials: TrialsSpec, error: SamplesError) -> Seq<char> {
    match error {
        SamplesError::UnsupportedMode => "unsupported trials.mode "@ + text::quoted(
            trials.mode->Label_0@,
        ) + "; expected `auto` or an integer"@,
        SamplesError::Conflict { fixed, requested } => "benchmark fixes "@ + text::decimal(
            fixed as nat,
        ) + " final samples but --final-samples requested "@ + text::decimal(requested as nat),
        SamplesError::Undecided =>
            "trials.mode is `auto`; provide --final-samples after the pilot locks the sample size"@,
        SamplesError::OutOfRange(count) => "final sample count "@ + text::decimal(count as nat)
            + " is outside the declared range "@ + text::decimal(trials.min_final_samples as nat)
            + "..="@ + text::decimal(trials.max_final_samples as nat),
        SamplesError::Fixed => "adaptive sampling requires trials.mode `auto`"@,
        SamplesError::TooFewPilots => "adaptive sampling requires at least two pilot samples"@,
    }
}

impl BenchmarkManifest {
    /// What is said of a number of final samples that cannot be settled.
    pub fn describe_samples(&self, error: SamplesError) -> (r: String)
        requires
            error is UnsupportedMode ==> self.trials.mode is Label,
        ensures
            r@ == samples_error_text(self.trials, error),
    {
        match error {
            SamplesError::UnsupportedMode => {
                let mut out = "unsupported trials.mode ".to_owned();
                if let TrialCount::Label(label) = &self.trials.mode {
                    out.append(&text::quote(label));
                }
                out.append("; expected `auto` or an integer");
                out
            },
            SamplesError::Conflict { fixed, requested } => {
                let mut out = "benchmark fixes ".to_owned();
                out.append(&text::decimal_text(fixed as u64));
                out.append(" final samples but --final-samples requested ");
                out.append(&text::decimal_text(requested as u64));
                out
            },
            SamplesError::Undecided =>
                "trials.mode is `auto`; provide --final-samples after the pilot locks the sample size".to_owned(),
            SamplesError::OutOfRange(count) => {
                let mut out = "final sample count ".to_owned();
                out.append(&text::decimal_text(count as u64));
                out.append(" is outside the declared range ");
                out.append(&text::decimal_text(self.trials.min_final_samples as u64));
                out.append("..=");
                out.append(&text::decimal_text(self.trials.max_final_samples as u64));
                out
            },
            SamplesError::Fixed => "adaptive sampling requires trials.mode `auto`".to_owned(),
            SamplesError::TooFewPilots =>
                "adaptive sampling requires at least two pilot samples".to_owned(),
        }
    }
}

/// A variant of another subject than the benchmark's.
#[derive(Clone, Copy, Debug, Eq, PartialEq, Structural)]
pub struct SubjectMismatch;

impl SubjectMismatch {
    /// Says which subjects differ.
    pub fn message(&self, benchmark: &BenchmarkManifest, variant: &VariantDescriptor) -> (r: String)
        ensures
            r@ == "variant subject "@ + text::quoted(variant.subject@)
                + " does not match benchmark subject "@ + text::quoted(
                benchmark.benchmark.subject@,
            ),
    {
        let mut out = "variant subject ".to_owned();
        out.append(&text::quote(&variant.subject));
        out.append(" does not match benchmark subject ");
        out.append(&text::quote(&benchmark.benchmark.subject));
        out
    }
}

impl VariantDescriptor {
    /// Accepts a variant that was read from a file: takes its paths from the file's directory, and
    /// checks it against every rule.
    pub fn load(decoded: VariantDescriptor, source_path: &str) -> (r: Result<
        VariantDescriptor,
        ManifestError,
    >)
        ensures
            match r {
                Ok(variant) => resolves_variant(decoded, source_path@, variant) && variant_failure(
                    variant,
                ) is None,
                Err(error) => exists|variant: VariantDescriptor| #[trigger]
                    resolves_variant(decoded, source_path@, variant) && variant_failure(variant)
                        == Some(error),
            },
    {
        let base = paths::directory_of(source_path);
        let mut variant = decoded;
        variant.implementation_files = resolve_all(&base, &variant.implementation_files);
        variant.source_path = source_path.to_owned();
        variant.source_sha256 = String::new();
        assert(resolves_variant(decoded, source_path@, variant));
        match variant.validate() {
            Ok(_) => Ok(variant),
            Err(error) => Err(error),
        }
    }

    /// Accepts a variant that was stored with its paths taken and its digest computed.
    pub fn load_resolved(decoded: VariantDescriptor, source_path: String, source_sha256: String) -> (r:
        Result<VariantDescriptor, ManifestError>)
        ensures
            ({
                let variant = VariantDescriptor { source_path, source_sha256, ..decoded };
                match variant_failure(variant) {
                    Some(error) => r == Err::<VariantDescriptor, ManifestError>(error),
                    None => r == Ok::<VariantDescriptor, ManifestError>(variant),
                }
            }),
    {
        let mut variant = decoded;
        variant.source_path = source_path;
        variant.source_sha256 = source_sha256;
        match variant.validate() {
            Ok(_) => Ok(variant),
            Err(error) => Err(error),
        }
    }

    /// Gives the variant the digest of its definition and of its implementation files.
    pub fn identify(&mut self, source: &[u8], contents: &Vec<Vec<u8>>)
        ensures
            final(self).source_sha256@ == digest::sha256(
                definition_preimage(
                    vstd::utf8::encode_utf8("bperf-variant-definition-v1\0"@),
                    source@,
                    contents@,
                ),
            ),
            *final(self) == (VariantDescriptor {
                source_sha256: final(self).source_sha256,
                ..*old(self)
            }),
    {
        self.source_sha256 =
        definition_sha256("bperf-variant-definition-v1\0".as_bytes(), source, contents);
    }

    pub fn id(&self) -> (r: &str)
        ensures
            r@ == self.id@,
    {
        self.id.as_str()
    }

    pub fn subject_id(&self) -> (r: &str)
        ensures
            r@ == self.subject@,
    {
        self.subject.as_str()
    }

    pub fn source_path(&self) -> (r: &str)
        ensures
            r@ == self.source_path@,
    {
        self.source_path.as_str()
    }

    pub fn source_sha256(&self) -> (r: &str)
        ensures
            r@ == self.source_sha256@,
    {
        self.source_sha256.as_str()
    }

    /// How the variant is started: in the directory of its definition.
    pub fn invocation(&self) -> (r: VariantInvocation<'_>)
        ensures
            *r.command == self.adapter.command,
            r.ready_timeout_seconds == self.adapter.ready_timeout_seconds,
            r.working_directory@ == paths::directory(self.source_path@),
    {
        VariantInvocation {
            command: &self.adapter.command,
            ready_timeout_seconds: self.adapter.ready_timeout_seconds,
            working_directory: paths::directory_of(&self.source_path),
        }
    }
}

// The identity of a definition.

/// Framed contents from the front.
proof fn lemma_framed_front(contents: Seq<Vec<u8>>)
    requires
        contents.len() > 0,
    ensures
        framed_contents(contents) == digest::framed(contents[0]@) + framed_contents(
            contents.drop_first(),
        ),
    decreases contents.len(),
{
    if contents.len() == 1 {
        assert(contents.drop_last() == Seq::<Vec<u8>>::empty());
        assert(contents.drop_first() == Seq::<Vec<u8>>::empty());
        reveal_with_fuel(framed_contents, 2);
        assert(framed_contents(contents) == digest::framed(contents[0]@));
    } else {
        lemma_framed_front(contents.drop_last());
        assert(contents.drop_last().drop_first() == contents.drop_first().drop_last());
        assert(contents.drop_first().last() == contents.last());
        assert(framed_contents(contents) == digest::framed(contents[0]@) + framed_contents(
            contents.drop_first(),
        ));
    }
}

/// Contents are told apart by their framing.
proof fn lemma_framed_contents_unique(a: Seq<Vec<u8>>, b: Seq<Vec<u8>>)
    requires
        framed_contents(a) == framed_contents(b),
        forall|i: int| 0 <= i < a.len() ==> (#[trigger] a[i])@.len() <= u64::MAX,
        forall|i: int| 0 <= i < b.len() ==> (#[trigger] b[i])@.len() <= u64::MAX,
    ensures
        a.len() == b.len(),
        forall|i: int| 0 <= i < a.len() ==> (#[trigger] a[i])@ == b[i]@,
    decreases a.len(),
{
    vstd::bytes::lemma_auto_spec_u64_to_from_le_bytes();
    if a.len() > 0 {
        lemma_framed_front(a);
        assert(framed_contents(a).len() >= 8);
    }
    if b.len() > 0 {
        lemma_framed_front(b);
        assert(framed_contents(b).len() >= 8);
    }
    if a.len() > 0 && b.len() > 0 {
        digest::lemma_framed_unique(
            a[0]@,
            framed_contents(a.drop_first()),
            b[0]@,
            framed_contents(b.drop_first()),
        );
        assert forall|i: int| 0 <= i < a.drop_first().len() implies (
        #[trigger] a.drop_first()[i])@.len() <= u64::MAX by {
            assert(a.drop_first()[i] == a[i + 1]);
        }
        assert forall|i: int| 0 <= i < b.drop_first().len() implies (
        #[trigger] b.drop_first()[i])@.len() <= u64::MAX by {
            assert(b.drop_first()[i] == b[i + 1]);
        }
        lemma_framed_contents_unique(a.drop_first(), b.drop_first());
        assert forall|i: int| 0 <= i < a.len() implies (#[trigger] a[i])@ == b[i]@ by {
            if i > 0 {
                assert(a.drop_first()[i - 1]@ == b.drop_first()[i - 1]@);
            }
        }
    }
}

/// A definition's identity depends on the definition and on the content of every file that belongs
/// to it: what is hashed is the same only where all of them are.
pub proof fn definition_identity_covers_every_file(
    domain: Seq<u8>,
    definition_a: Seq<u8>,
    contents_a: Seq<Vec<u8>>,
    definition_b: Seq<u8>,
    contents_b: Seq<Vec<u8>>,
)
    requires
        definition_preimage(domain, definition_a, contents_a) == definition_preimage(
            domain,
            definition_b,
            contents_b,
        ),
        definition_a.len() <= u64::MAX,
        definition_b.len() <= u64::MAX,
        forall|i: int| 0 <= i < contents_a.len() ==> (#[trigger] contents_a[i])@.len() <= u64::MAX,
        forall|i: int| 0 <= i < contents_b.len() ==> (#[trigger] contents_b[i])@.len() <= u64::MAX,
    ensures
        definition_a == definition_b,
        contents_a.len() == contents_b.len(),
        forall|i: int| 0 <= i < contents_a.len() ==> (#[trigger] contents_a[i])@ == contents_b[i]@,
{
    let x = definition_preimage(domain, definition_a, contents_a);
    let y = definition_preimage(domain, definition_b, contents_b);
    assert(x.skip(domain.len() as int) == digest::framed(definition_a) + framed_contents(
        contents_a,
    ));
    assert(y.skip(domain.len() as int) == digest::framed(definition_b) + framed_contents(
        contents_b,
    ));
    digest::lemma_framed_unique(
        definition_a,
        framed_contents(contents_a),
        definition_b,
        framed_contents(contents_b),
    );
    lemma_framed_contents_unique(contents_a, contents_b);
}

} // verus!
