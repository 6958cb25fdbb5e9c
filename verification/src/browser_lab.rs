//! Browser capture evidence: what a session must report before its numbers count.
//!
//! Evidence is accepted only after the browser's identity and every required artifact pass the
//! checks of path, size, and digest.

use vstd::prelude::*;
use vstd::string::*;

use crate::digest;
use crate::json::JsonValue;
use crate::number;
use crate::number::Number;
use crate::paths;
use crate::paths::PathPart;
use crate::text;

verus! {

/// The version of the protocol between the runner and the browser laboratory.
pub const PROTOCOL_VERSION: u32 = 9;

/// How many samples a runtime anchor takes.
pub const RUNTIME_ANCHOR_SAMPLES: usize = 31;

/// The largest batch of a runtime anchor.
pub const RUNTIME_ANCHOR_MAX_BATCH_SIZE: u32 = 64;

/// A browser engine under measurement.
#[derive(Clone, Copy, Debug, Eq, Hash, Ord, PartialEq, PartialOrd, Structural)]
pub enum Engine {
    Chromium,
    Firefox,
    Webkit,
}

/// The name of an engine.
pub open spec fn engine_name(engine: Engine) -> Seq<char> {
    match engine {
        Engine::Chromium => "chromium"@,
        Engine::Firefox => "firefox"@,
        Engine::Webkit => "webkit"@,
    }
}

/// The engines that every measurement covers, in order.
pub open spec fn all_engines() -> Seq<Engine> {
    seq![Engine::Chromium, Engine::Firefox, Engine::Webkit]
}

impl Engine {
    /// The engine's name, in lower case.
    pub fn as_str(self) -> (r: &'static str)
        ensures
            r@ == engine_name(self),
    {
        match self {
            Engine::Chromium => "chromium",
            Engine::Firefox => "firefox",
            Engine::Webkit => "webkit",
        }
    }

    /// Every engine, in order.
    pub fn all() -> (r: Vec<Engine>)
        ensures
            r@ == all_engines(),
    {
        vec![Engine::Chromium, Engine::Firefox, Engine::Webkit]
    }
}

/// Which Node executable and which sidecar a browser laboratory uses.
#[derive(Clone, Debug)]
pub struct BrowserLabConfig {
    pub node: String,
    pub sidecar: String,
}

impl BrowserLabConfig {
    /// The same configuration with another Node executable.
    pub fn with_node(self, node: String) -> (r: BrowserLabConfig)
        ensures
            r == (BrowserLabConfig { node, ..self }),
    {
        BrowserLabConfig { node, sidecar: self.sidecar }
    }

    /// The same configuration with another sidecar.
    pub fn with_sidecar(self, sidecar: String) -> (r: BrowserLabConfig)
        ensures
            r == (BrowserLabConfig { sidecar, ..self }),
    {
        BrowserLabConfig { node: self.node, sidecar }
    }
}

/// The size of a browser's viewport in pixels.
#[derive(Clone, Copy, Debug, Eq, PartialEq, Structural)]
pub struct Viewport {
    pub width: u32,
    pub height: u32,
}

/// How the browser of a trial is set up.
#[derive(Clone, Debug)]
pub struct BrowserTrialConfig {
    pub viewport: Viewport,
    pub locale: String,
    pub timezone_id: String,
    pub color_scheme: String,
}

/// The machine and the runtime that a capture ran on.
#[derive(Clone, Debug)]
pub struct RuntimeEvidence {
    pub node: String,
    pub playwright: String,
    pub platform: String,
    pub arch: String,
    pub os_release: String,
    pub cpu_model: String,
    pub logical_cpus: u32,
    pub total_memory_bytes: u64,
}

/// The browser that a capture ran in.
#[derive(Clone, Debug)]
pub struct BrowserEvidence {
    pub root_pid: u32,
    pub executable_path: String,
    pub version: String,
    pub launch_args: Vec<String>,
}

/// What a capture can do.
#[derive(Clone, Copy, Debug, Eq, PartialEq, Structural)]
pub struct CaptureCapabilities {
    pub isolated_launch: bool,
    pub process_root: bool,
    pub cpu_profile: bool,
    pub js_heap: bool,
    pub flamegraph: bool,
}

/// The kinds of artifact that every capture leaves.
#[derive(Clone, Copy, Debug, Eq, Hash, Ord, PartialEq, PartialOrd, Structural)]
pub enum ArtifactKind {
    CpuProfile,
    JsHeap,
    Flamegraph,
}

/// An artifact as a capture reports it.
#[derive(Clone, Debug)]
pub struct ArtifactEvidence {
    pub kind: ArtifactKind,
    pub path: String,
    pub size_bytes: u64,
    pub sha256: String,
    pub format: String,
}

/// A fixed piece of work, timed to see how fast the machine is at the moment.
#[derive(Clone, Debug)]
pub struct RuntimeAnchorEvidence {
    pub workload: String,
    pub wall_ms: Vec<Number>,
    pub batch_size: u32,
    pub checksum: u32,
}

/// Everything that a capture of one engine reports.
#[derive(Clone, Debug)]
pub struct CaptureEvidence {
    pub engine: Engine,
    pub runtime: RuntimeEvidence,
    pub browser: BrowserEvidence,
    pub anchor: RuntimeAnchorEvidence,
    pub capabilities: CaptureCapabilities,
    pub artifacts: Vec<ArtifactEvidence>,
}

/// What the workload of a trial reports.
#[derive(Debug)]
pub struct WorkloadEvidence {
    pub workload_wall_ms: Number,
    pub variant_call_wall_ms: Number,
    pub batch_wall_ms: Number,
    pub batch_size: u32,
    pub operation_count: usize,
    pub result: Vec<JsonValue>,
}

/// A metric and its value.
#[derive(Clone, Debug)]
pub struct MetricValue {
    pub name: String,
    pub value: Number,
}

/// Everything that a trial of one engine reports.
#[derive(Debug)]
pub struct TrialEvidence {
    pub engine: Engine,
    pub runtime: RuntimeEvidence,
    pub browser: BrowserEvidence,
    pub capture_elapsed_ms: Number,
    pub workload: WorkloadEvidence,
    pub metrics: Vec<MetricValue>,
    pub artifacts: Vec<ArtifactEvidence>,
}

/// How many runs of its workload a trial puts together.
#[derive(Clone, Copy, Debug, Eq, PartialEq, Structural)]
pub struct TrialBatchConfig {
    pub size: u32,
    pub target_ms: Option<Number>,
    pub max_size: u32,
}

/// A trial that is to be measured.
pub struct BrowserTrialRequest<'a> {
    pub engine: Engine,
    pub artifact_root: &'a str,
    pub target_url: &'a str,
    pub operations: &'a Vec<JsonValue>,
    pub browser: &'a BrowserTrialConfig,
    pub batches: TrialBatchConfig,
}

/// What was found where an artifact is said to be.
#[derive(Clone, Debug)]
pub struct ArtifactFile {
    pub exists: bool,
    /// The file lies below the directory of the capture.
    pub contained: bool,
    pub size_bytes: u64,
    pub sha256: String,
}

/// Why evidence is refused.
#[derive(Clone, Copy, Debug, Eq, PartialEq, Structural)]
pub enum EvidenceError {
    /// Another engine answered than the one that was asked.
    OtherEngine { expected: Engine, returned: Engine },
    IncompleteRuntime,
    NoRootPid,
    IncompleteBrowser,
    InvalidAnchor,
    MissingCapability,
    /// There is not exactly one artifact of each kind.
    ArtifactSet,
    /// The artifact with this index could lie outside the capture's directory.
    ArtifactPath(usize),
    /// The artifact with this index is not fully described.
    ArtifactDescriptor(usize),
    ArtifactMissing(usize),
    ArtifactEscaped(usize),
    ArtifactSize(usize),
    ArtifactHash(usize),
}

/// Why the evidence of a trial is refused.
#[derive(Clone, Copy, Debug, Eq, PartialEq, Structural)]
pub enum TrialError {
    /// What is asked of every capture is not met.
    Evidence(EvidenceError),
    /// The workload did not run the operations that it was given.
    InconsistentWorkload,
    InvalidTiming,
    BatchPlan,
    /// The metrics are not those that every trial has.
    MetricSet,
    /// The metric at this place among those that every trial has is not finite or not positive.
    MetricValue(usize),
    /// The metrics are not those of the reported workload.
    MetricMismatch,
}

// Identities.

/// What a runtime is known by.
pub open spec fn runtime_view(runtime: RuntimeEvidence) -> (
    (Seq<char>, Seq<char>, Seq<char>, Seq<char>),
    (Seq<char>, Seq<char>, u32, u64),
) {
    (
        (runtime.node@, runtime.playwright@, runtime.platform@, runtime.arch@),
        (
            runtime.os_release@,
            runtime.cpu_model@,
            runtime.logical_cpus,
            runtime.total_memory_bytes,
        ),
    )
}

/// Tells whether two runtimes are the same.
pub fn same_runtime(a: &RuntimeEvidence, b: &RuntimeEvidence) -> (r: bool)
    ensures
        r == (runtime_view(*a) == runtime_view(*b)),
{
    text::same(&a.node, &b.node) && text::same(&a.playwright, &b.playwright) && text::same(
        &a.platform,
        &b.platform,
    ) && text::same(&a.arch, &b.arch) && text::same(&a.os_release, &b.os_release) && text::same(
        &a.cpu_model,
        &b.cpu_model,
    ) && a.logical_cpus == b.logical_cpus && a.total_memory_bytes == b.total_memory_bytes
}

/// A copy of a runtime's identity.
pub fn copy_runtime(runtime: &RuntimeEvidence) -> (r: RuntimeEvidence)
    ensures
        r == *runtime,
{
    RuntimeEvidence {
        node: runtime.node.clone(),
        playwright: runtime.playwright.clone(),
        platform: runtime.platform.clone(),
        arch: runtime.arch.clone(),
        os_release: runtime.os_release.clone(),
        cpu_model: runtime.cpu_model.clone(),
        logical_cpus: runtime.logical_cpus,
        total_memory_bytes: runtime.total_memory_bytes,
    }
}

/// A runtime that names everything about itself.
pub open spec fn complete_runtime(runtime: RuntimeEvidence) -> bool {
    &&& runtime.node@.len() > 0
    &&& runtime.playwright@.len() > 0
    &&& runtime.platform@.len() > 0
    &&& runtime.arch@.len() > 0
    &&& runtime.os_release@.len() > 0
    &&& runtime.cpu_model@.len() > 0
    &&& runtime.logical_cpus > 0
    &&& runtime.total_memory_bytes > 0
}

fn runtime_is_complete(runtime: &RuntimeEvidence) -> (r: bool)
    ensures
        r == complete_runtime(*runtime),
{
    !runtime.node.as_str().is_empty() && !runtime.playwright.as_str().is_empty()
        && !runtime.platform.as_str().is_empty() && !runtime.arch.as_str().is_empty()
        && !runtime.os_release.as_str().is_empty() && !runtime.cpu_model.as_str().is_empty()
        && runtime.logical_cpus != 0 && runtime.total_memory_bytes != 0
}

/// Why a browser's identity is refused, if it is.
pub open spec fn browser_failure(browser: BrowserEvidence) -> Option<EvidenceError> {
    if browser.root_pid == 0 {
        Some(EvidenceError::NoRootPid)
    } else if browser.executable_path@.len() == 0 || browser.version@.len() == 0 {
        Some(EvidenceError::IncompleteBrowser)
    } else {
        None
    }
}

fn check_browser(browser: &BrowserEvidence) -> (r: Option<EvidenceError>)
    ensures
        r == browser_failure(*browser),
{
    if browser.root_pid == 0 {
        Some(EvidenceError::NoRootPid)
    } else if browser.executable_path.as_str().is_empty() || browser.version.as_str().is_empty() {
        Some(EvidenceError::IncompleteBrowser)
    } else {
        None
    }
}

/// Every number is finite and above zero.
pub open spec fn all_positive(values: Seq<Number>) -> bool {
    forall|i: int| 0 <= i < values.len() ==> number::finite_positive(#[trigger] values[i])
}

fn every_positive(values: &Vec<Number>) -> (r: bool)
    ensures
        r == all_positive(values@),
{
    let mut i: usize = 0;
    while i < values.len()
        invariant
            i <= values@.len(),
            forall|j: int| 0 <= j < i ==> number::finite_positive(#[trigger] values@[j]),
        decreases values@.len() - i,
    {
        if !number::is_finite_positive(values[i]) {
            return false;
        }
        i += 1;
    }
    true
}

/// A runtime anchor that ran the known work, in full, and took time for it.
pub open spec fn valid_anchor(anchor: RuntimeAnchorEvidence) -> bool {
    &&& anchor.workload@ == "javascript_cpu_v1"@
    &&& anchor.wall_ms@.len() == RUNTIME_ANCHOR_SAMPLES
    &&& all_positive(anchor.wall_ms@)
    &&& 1 <= anchor.batch_size <= RUNTIME_ANCHOR_MAX_BATCH_SIZE
}

impl RuntimeAnchorEvidence {
    /// Tells whether the anchor ran the known work, in full, and took time for it.
    pub fn validate(&self) -> (r: bool)
        ensures
            r == valid_anchor(*self),
    {
        text::same(&self.workload, "javascript_cpu_v1") && self.wall_ms.len()
            == RUNTIME_ANCHOR_SAMPLES && every_positive(&self.wall_ms) && 1 <= self.batch_size
            && self.batch_size <= RUNTIME_ANCHOR_MAX_BATCH_SIZE
    }
}

impl CaptureCapabilities {
    /// Nothing is missing.
    pub open spec fn all(self) -> bool {
        self.isolated_launch && self.process_root && self.cpu_profile && self.js_heap
            && self.flamegraph
    }

    /// Tells whether nothing is missing.
    pub fn complete(&self) -> (r: bool)
        ensures
            r == self.all(),
    {
        self.isolated_launch && self.process_root && self.cpu_profile && self.js_heap
            && self.flamegraph
    }
}

// Artifacts.

/// Some artifact is of the kind.
pub open spec fn has_kind(artifacts: Seq<ArtifactEvidence>, kind: ArtifactKind) -> bool {
    exists|i: int| 0 <= i < artifacts.len() && (#[trigger] artifacts[i]).kind == kind
}

/// There is exactly one artifact of each kind.
pub open spec fn one_of_each_kind(artifacts: Seq<ArtifactEvidence>) -> bool {
    &&& artifacts.len() == 3
    &&& has_kind(artifacts, ArtifactKind::CpuProfile)
    &&& has_kind(artifacts, ArtifactKind::JsHeap)
    &&& has_kind(artifacts, ArtifactKind::Flamegraph)
}

/// A path that stays below the directory that it is taken from.
pub open spec fn contained(path: Seq<char>) -> bool {
    !text::blank(path) && paths::only_names(paths::parts(path))
}

/// An artifact whose size, format, and digest are told.
pub open spec fn described(artifact: ArtifactEvidence) -> bool {
    &&& artifact.size_bytes > 0
    &&& !text::blank(artifact.format@)
    &&& digest::is_digest(artifact.sha256@)
}

/// Why the first `n` artifacts are refused, if they are.
pub open spec fn descriptors_failure(artifacts: Seq<ArtifactEvidence>, n: int) -> Option<
    EvidenceError,
>
    decreases n,
{
    if n <= 0 {
        None
    } else if descriptors_failure(artifacts, n - 1) is Some {
        descriptors_failure(artifacts, n - 1)
    } else if !contained(artifacts[n - 1].path@) {
        Some(EvidenceError::ArtifactPath((n - 1) as usize))
    } else if !described(artifacts[n - 1]) {
        Some(EvidenceError::ArtifactDescriptor((n - 1) as usize))
    } else {
        None
    }
}

/// Why a set of artifacts is refused, if it is.
pub open spec fn artifact_set_failure(artifacts: Seq<ArtifactEvidence>) -> Option<EvidenceError> {
    if !one_of_each_kind(artifacts) {
        Some(EvidenceError::ArtifactSet)
    } else {
        descriptors_failure(artifacts, artifacts.len() as int)
    }
}

/// What was found: a file with this content.
pub open spec fn holds(file: ArtifactFile, contained: bool, content: Seq<u8>) -> bool {
    &&& file.exists
    &&& file.contained == contained
    &&& file.size_bytes == content.len()
    &&& file.sha256@ == digest::sha256(content)
}

/// What was found where an artifact is said to be, given the content of the file and whether it lies
/// below the directory of the capture.
pub fn found_file(contained: bool, content: &[u8]) -> (r: ArtifactFile)
    ensures
        r.exists,
        r.contained == contained,
        r.size_bytes == content@.len(),
        r.sha256@ == digest::sha256(content@),
{
    ArtifactFile {
        exists: true,
        contained,
        size_bytes: content.len() as u64,
        sha256: digest::sha256_hex(content),
    }
}

/// What was found where an artifact is said to be, and no file is.
pub fn missing_file() -> (r: ArtifactFile)
    ensures
        !r.exists,
        !r.contained,
        r.size_bytes == 0,
        r.sha256@.len() == 0,
{
    ArtifactFile { exists: false, contained: false, size_bytes: 0, sha256: String::new() }
}

/// Why the first `n` artifact files are refused, if they are.
pub open spec fn files_failure(
    artifacts: Seq<ArtifactEvidence>,
    files: Seq<ArtifactFile>,
    n: int,
) -> Option<EvidenceError>
    decreases n,
{
    if n <= 0 {
        None
    } else if files_failure(artifacts, files, n - 1) is Some {
        files_failure(artifacts, files, n - 1)
    } else if !files[n - 1].exists {
        Some(EvidenceError::ArtifactMissing((n - 1) as usize))
    } else if !files[n - 1].contained {
        Some(EvidenceError::ArtifactEscaped((n - 1) as usize))
    } else if files[n - 1].size_bytes == 0 || files[n - 1].size_bytes != artifacts[n
        - 1].size_bytes {
        Some(EvidenceError::ArtifactSize((n - 1) as usize))
    } else if files[n - 1].sha256@ != artifacts[n - 1].sha256@ {
        Some(EvidenceError::ArtifactHash((n - 1) as usize))
    } else {
        None
    }
}

fn kind_present(artifacts: &Vec<ArtifactEvidence>, kind: ArtifactKind) -> (r: bool)
    ensures
        r == has_kind(artifacts@, kind),
{
    let mut i: usize = 0;
    while i < artifacts.len()
        invariant
            i <= artifacts@.len(),
            forall|j: int| 0 <= j < i ==> (#[trigger] artifacts@[j]).kind != kind,
        decreases artifacts@.len() - i,
    {
        if artifacts[i].kind == kind {
            return true;
        }
        i += 1;
    }
    false
}

fn is_blank(value: &str) -> (r: bool)
    ensures
        r == text::blank(value@),
{
    proof {
        text::lemma_trimmed_blank(value@);
    }
    text::trim(value).as_str().is_empty()
}

/// Tells whether a path stays below the directory that it is taken from.
pub fn is_contained(path: &str) -> (r: bool)
    ensures
        r == contained(path@),
{
    if is_blank(path) {
        return false;
    }
    let parts = paths::components(path);
    let mut i: usize = 0;
    while i < parts.len()
        invariant
            i <= parts@.len(),
            paths::part_views(parts@) == paths::parts(path@),
            forall|j: int| 0 <= j < i ==> (#[trigger] paths::parts(path@)[j]) is Name,
        decreases parts@.len() - i,
    {
        assert(paths::part_views(parts@)[i as int] == parts@[i as int]@);
        match &parts[i] {
            PathPart::Name(_) => {},
            _ => {
                assert(!(paths::parts(path@)[i as int] is Name));
                return false;
            },
        }
        i += 1;
    }
    true
}

proof fn lemma_descriptors_failure(artifacts: Seq<ArtifactEvidence>, n: int, m: int)
    requires
        0 <= n <= m,
        descriptors_failure(artifacts, n) is Some,
    ensures
        descriptors_failure(artifacts, m) == descriptors_failure(artifacts, n),
    decreases m - n,
{
    if n < m {
        lemma_descriptors_failure(artifacts, n, m - 1);
    }
}

/// Checks that there is one artifact of each kind, and that each is contained and described.
pub fn validate_artifact_set(artifacts: &Vec<ArtifactEvidence>) -> (r: Result<(), EvidenceError>)
    ensures
        match artifact_set_failure(artifacts@) {
            Some(error) => r == Err::<(), EvidenceError>(error),
            None => r == Ok::<(), EvidenceError>(()),
        },
{
    if artifacts.len() != 3 || !kind_present(artifacts, ArtifactKind::CpuProfile) || !kind_present(
        artifacts,
        ArtifactKind::JsHeap,
    ) || !kind_present(artifacts, ArtifactKind::Flamegraph) {
        return Err(EvidenceError::ArtifactSet);
    }
    let mut i: usize = 0;
    while i < artifacts.len()
        invariant
            i <= artifacts@.len(),
            one_of_each_kind(artifacts@),
            descriptors_failure(artifacts@, i as int) is None,
        decreases artifacts@.len() - i,
    {
        let artifact = &artifacts[i];
        if !is_contained(&artifact.path) {
            proof {
                lemma_descriptors_failure(artifacts@, i + 1, artifacts@.len() as int);
            }
            return Err(EvidenceError::ArtifactPath(i));
        }
        if artifact.size_bytes == 0 || is_blank(&artifact.format) || !digest::digest_text(
            &artifact.sha256,
        ) {
            proof {
                lemma_descriptors_failure(artifacts@, i + 1, artifacts@.len() as int);
            }
            return Err(EvidenceError::ArtifactDescriptor(i));
        }
        i += 1;
    }
    Ok(())
}

proof fn lemma_files_failure(
    artifacts: Seq<ArtifactEvidence>,
    files: Seq<ArtifactFile>,
    n: int,
    m: int,
)
    requires
        0 <= n <= m,
        files_failure(artifacts, files, n) is Some,
    ensures
        files_failure(artifacts, files, m) == files_failure(artifacts, files, n),
    decreases m - n,
{
    if n < m {
        lemma_files_failure(artifacts, files, n, m - 1);
    }
}

/// Checks the files of some artifacts, given what was found where each is said to be.
pub fn validate_artifact_files(artifacts: &Vec<ArtifactEvidence>, files: &Vec<ArtifactFile>) -> (r:
    Result<(), EvidenceError>)
    requires
        files@.len() == artifacts@.len(),
    ensures
        match files_failure(artifacts@, files@, artifacts@.len() as int) {
            Some(error) => r == Err::<(), EvidenceError>(error),
            None => r == Ok::<(), EvidenceError>(()),
        },
{
    let mut i: usize = 0;
    while i < artifacts.len()
        invariant
            i <= artifacts@.len(),
            files@.len() == artifacts@.len(),
            files_failure(artifacts@, files@, i as int) is None,
        decreases artifacts@.len() - i,
    {
        proof {
            if files_failure(artifacts@, files@, i + 1) is Some {
                lemma_files_failure(artifacts@, files@, i + 1, artifacts@.len() as int);
            }
        }
        if !files[i].exists {
            return Err(EvidenceError::ArtifactMissing(i));
        }
        if !files[i].contained {
            return Err(EvidenceError::ArtifactEscaped(i));
        }
        if files[i].size_bytes == 0 || files[i].size_bytes != artifacts[i].size_bytes {
            return Err(EvidenceError::ArtifactSize(i));
        }
        if !text::same(&files[i].sha256, &artifacts[i].sha256) {
            return Err(EvidenceError::ArtifactHash(i));
        }
        i += 1;
    }
    Ok(())
}

/// Why a set of artifacts and their files is refused, if it is.
pub open spec fn artifacts_failure(artifacts: Seq<ArtifactEvidence>, files: Seq<ArtifactFile>) -> Option<
    EvidenceError,
> {
    if artifact_set_failure(artifacts) is Some {
        artifact_set_failure(artifacts)
    } else {
        files_failure(artifacts, files, artifacts.len() as int)
    }
}

/// Checks a set of artifacts and their files.
pub fn validate_artifacts(artifacts: &Vec<ArtifactEvidence>, files: &Vec<ArtifactFile>) -> (r:
    Result<(), EvidenceError>)
    requires
        files@.len() == artifacts@.len(),
    ensures
        match artifacts_failure(artifacts@, files@) {
            Some(error) => r == Err::<(), EvidenceError>(error),
            None => r == Ok::<(), EvidenceError>(()),
        },
{
    match validate_artifact_set(artifacts) {
        Err(error) => Err(error),
        Ok(_) => validate_artifact_files(artifacts, files),
    }
}

// Captures.

/// Why the evidence of a capture is refused, if it is.
pub open spec fn capture_failure(
    expected: Engine,
    evidence: CaptureEvidence,
    files: Seq<ArtifactFile>,
) -> Option<EvidenceError> {
    if evidence.engine != expected {
        Some(EvidenceError::OtherEngine { expected, returned: evidence.engine })
    } else if !complete_runtime(evidence.runtime) {
        Some(EvidenceError::IncompleteRuntime)
    } else if browser_failure(evidence.browser) is Some {
        browser_failure(evidence.browser)
    } else if !valid_anchor(evidence.anchor) {
        Some(EvidenceError::InvalidAnchor)
    } else if !evidence.capabilities.all() {
        Some(EvidenceError::MissingCapability)
    } else {
        artifacts_failure(evidence.artifacts@, files)
    }
}

/// Checks the evidence of a capture, given what was found where each artifact is said to be.
pub fn validate_evidence(
    expected_engine: Engine,
    evidence: &CaptureEvidence,
    files: &Vec<ArtifactFile>,
) -> (r: Result<(), EvidenceError>)
    requires
        files@.len() == evidence.artifacts@.len(),
    ensures
        match capture_failure(expected_engine, *evidence, files@) {
            Some(error) => r == Err::<(), EvidenceError>(error),
            None => r == Ok::<(), EvidenceError>(()),
        },
{
    if evidence.engine != expected_engine {
        return Err(
            EvidenceError::OtherEngine { expected: expected_engine, returned: evidence.engine },
        );
    }
    if !runtime_is_complete(&evidence.runtime) {
        return Err(EvidenceError::IncompleteRuntime);
    }
    if let Some(error) = check_browser(&evidence.browser) {
        return Err(error);
    }
    if !evidence.anchor.validate() {
        return Err(EvidenceError::InvalidAnchor);
    }
    if !evidence.capabilities.complete() {
        return Err(EvidenceError::MissingCapability);
    }
    validate_artifacts(&evidence.artifacts, files)
}

// Trials.

impl TrialBatchConfig {
    /// Exactly this many runs together.
    pub fn fixed(size: u32) -> (r: TrialBatchConfig)
        ensures
            r == (TrialBatchConfig { size, target_ms: None, max_size: size }),
    {
        TrialBatchConfig { size, target_ms: None, max_size: size }
    }

    /// As many runs together as it takes to last the target time, up to a largest number.
    pub fn calibrating(target_ms: Number, max_size: u32) -> (r: TrialBatchConfig)
        ensures
            r == (TrialBatchConfig { size: 1, target_ms: Some(target_ms), max_size }),
    {
        TrialBatchConfig { size: 1, target_ms: Some(target_ms), max_size }
    }

    /// The size of a batch that was run is one that was asked for.
    pub open spec fn admits(self, batch_size: u32) -> bool {
        match self.target_ms {
            None => batch_size == self.size,
            Some(_) => self.size <= batch_size <= self.max_size,
        }
    }

    /// Tells whether the batch of a workload is one that was asked for.
    pub fn accepts(self, workload: &WorkloadEvidence) -> (r: bool)
        ensures
            r == self.admits(workload.batch_size),
    {
        match self.target_ms {
            None => workload.batch_size == self.size,
            Some(_) => workload.batch_size >= self.size && workload.batch_size <= self.max_size,
        }
    }
}

/// The value of a metric.
pub open spec fn metric(metrics: Seq<MetricValue>, name: Seq<char>) -> Option<Number>
    decreases metrics.len(),
{
    if metrics.len() == 0 {
        None
    } else if metrics.last().name@ == name {
        Some(metrics.last().value)
    } else {
        metric(metrics.drop_last(), name)
    }
}

/// The metrics that every trial has.
pub open spec fn is_trial_metric(name: Seq<char>) -> bool {
    ||| name == "workload.wall_ms"@
    ||| name == "variant.call_wall_ms"@
    ||| name == "browser.cpu_profile.active_ms"@
    ||| name == "browser.js_heap.live_bytes"@
    ||| name == "bperf.capture.elapsed_ms"@
    ||| name == "bperf.batch_size"@
}

/// The metrics are those that every trial has, and no others.
pub open spec fn trial_metric_set(metrics: Seq<MetricValue>) -> bool {
    &&& forall|i: int| 0 <= i < metrics.len() ==> is_trial_metric((#[trigger] metrics[i]).name@)
    &&& forall|name: Seq<char>|
        is_trial_metric(name) ==> (#[trigger] metric(metrics, name)) is Some
}

/// The metrics that every trial has, in order.
pub open spec fn trial_metric_at(place: int) -> Seq<char> {
    if place == 0 {
        "workload.wall_ms"@
    } else if place == 1 {
        "variant.call_wall_ms"@
    } else if place == 2 {
        "browser.cpu_profile.active_ms"@
    } else if place == 3 {
        "browser.js_heap.live_bytes"@
    } else if place == 4 {
        "bperf.capture.elapsed_ms"@
    } else {
        "bperf.batch_size"@
    }
}

/// The metric is there, finite, and above zero.
pub open spec fn metric_fits(metrics: Seq<MetricValue>, name: Seq<char>) -> bool {
    metric(metrics, name) matches Some(value) && number::finite_positive(value)
}

/// The place of the first metric from a place on that is not finite or not above zero; six where
/// there is none.
pub open spec fn first_unfit(metrics: Seq<MetricValue>, place: int) -> int
    decreases 6 - place,
{
    if place >= 6 {
        6
    } else if !metric_fits(metrics, trial_metric_at(place)) {
        place
    } else {
        first_unfit(metrics, place + 1)
    }
}

/// The value of a metric, looked up.
pub fn metric_value(metrics: &Vec<MetricValue>, name: &str) -> (r: Option<Number>)
    ensures
        r == metric(metrics@, name@),
{
    let mut n: usize = metrics.len();
    assert(metrics@.take(n as int) == metrics@);
    while n > 0
        invariant
            n <= metrics@.len(),
            metric(metrics@, name@) == metric(metrics@.take(n as int), name@),
        decreases n,
    {
        assert(metrics@.take(n as int).drop_last() == metrics@.take(n - 1));
        if text::same(&metrics[n - 1].name, name) {
            return Some(metrics[n - 1].value);
        }
        n -= 1;
    }
    None
}

fn trial_metric_name(name: &str) -> (r: bool)
    ensures
        r == is_trial_metric(name@),
{
    text::same(name, "workload.wall_ms") || text::same(name, "variant.call_wall_ms") || text::same(
        name,
        "browser.cpu_profile.active_ms",
    ) || text::same(name, "browser.js_heap.live_bytes") || text::same(
        name,
        "bperf.capture.elapsed_ms",
    ) || text::same(name, "bperf.batch_size")
}

/// The name of the metric at a place among those that every trial has.
pub fn trial_metric(place: usize) -> (r: &'static str)
    ensures
        r@ == trial_metric_at(place as int),
{
    if place == 0 {
        "workload.wall_ms"
    } else if place == 1 {
        "variant.call_wall_ms"
    } else if place == 2 {
        "browser.cpu_profile.active_ms"
    } else if place == 3 {
        "browser.js_heap.live_bytes"
    } else if place == 4 {
        "bperf.capture.elapsed_ms"
    } else {
        "bperf.batch_size"
    }
}

fn positive(value: Option<Number>) -> (r: bool)
    ensures
        r == (value matches Some(number) && number::finite_positive(number)),
{
    match value {
        Some(number) => number::is_finite_positive(number),
        None => false,
    }
}

fn equal(value: Option<Number>, other: Number) -> (r: bool)
    ensures
        r == (value matches Some(number) && number.equals(other)),
{
    match value {
        Some(number) => number.is_equal(other),
        None => false,
    }
}

/// The times of a trial are finite, above zero, and fit into one another.
pub open spec fn valid_timing(evidence: TrialEvidence) -> bool {
    let workload = evidence.workload;
    &&& number::finite_positive(evidence.capture_elapsed_ms)
    &&& number::finite_positive(workload.workload_wall_ms)
    &&& number::finite_positive(workload.variant_call_wall_ms)
    &&& workload.variant_call_wall_ms.at_most(workload.workload_wall_ms)
    &&& workload.batch_wall_ms.finite()
    &&& workload.workload_wall_ms.at_most(workload.batch_wall_ms)
}

/// The metric has this value.
pub open spec fn metric_is(metrics: Seq<MetricValue>, name: Seq<char>, value: Number) -> bool {
    metric(metrics, name) matches Some(found) && found.equals(value)
}

/// The metrics repeat what the workload and the capture report.
pub open spec fn metrics_match(evidence: TrialEvidence) -> bool {
    let metrics = evidence.metrics@;
    &&& metric_is(metrics, "workload.wall_ms"@, evidence.workload.workload_wall_ms)
    &&& metric_is(metrics, "variant.call_wall_ms"@, evidence.workload.variant_call_wall_ms)
    &&& metric_is(metrics, "bperf.capture.elapsed_ms"@, evidence.capture_elapsed_ms)
    &&& (metric(metrics, "bperf.batch_size"@) matches Some(size) && size.equals(
        Number { bits: number::whole_bits(evidence.workload.batch_size as nat) as u64 },
    ))
}

/// Why the evidence of a trial is refused, if it is.
pub open spec fn trial_failure(
    expected: Engine,
    operation_count: usize,
    batches: TrialBatchConfig,
    evidence: TrialEvidence,
    files: Seq<ArtifactFile>,
) -> Option<TrialError> {
    let workload = evidence.workload;
    let unfit = first_unfit(evidence.metrics@, 0);
    if evidence.engine != expected {
        Some(
            TrialError::Evidence(
                EvidenceError::OtherEngine { expected, returned: evidence.engine },
            ),
        )
    } else if !complete_runtime(evidence.runtime) {
        Some(TrialError::Evidence(EvidenceError::IncompleteRuntime))
    } else if browser_failure(evidence.browser) is Some {
        Some(TrialError::Evidence(browser_failure(evidence.browser)->0))
    } else if workload.operation_count != operation_count || workload.result@.len()
        != operation_count {
        Some(TrialError::InconsistentWorkload)
    } else if !valid_timing(evidence) {
        Some(TrialError::InvalidTiming)
    } else if !batches.admits(workload.batch_size) {
        Some(TrialError::BatchPlan)
    } else if !trial_metric_set(evidence.metrics@) {
        Some(TrialError::MetricSet)
    } else if unfit < 6 {
        Some(TrialError::MetricValue(unfit as usize))
    } else if !metrics_match(evidence) {
        Some(TrialError::MetricMismatch)
    } else {
        match artifacts_failure(evidence.artifacts@, files) {
            Some(error) => Some(TrialError::Evidence(error)),
            None => None,
        }
    }
}

fn check_metric_set(metrics: &Vec<MetricValue>) -> (r: bool)
    ensures
        r == trial_metric_set(metrics@),
{
    let mut i: usize = 0;
    while i < metrics.len()
        invariant
            i <= metrics@.len(),
            forall|j: int| 0 <= j < i ==> is_trial_metric((#[trigger] metrics@[j]).name@),
        decreases metrics@.len() - i,
    {
        if !trial_metric_name(&metrics[i].name) {
            return false;
        }
        i += 1;
    }
    let complete = metric_value(metrics, "workload.wall_ms").is_some() && metric_value(
        metrics,
        "variant.call_wall_ms",
    ).is_some() && metric_value(metrics, "browser.cpu_profile.active_ms").is_some() && metric_value(
        metrics,
        "browser.js_heap.live_bytes",
    ).is_some() && metric_value(metrics, "bperf.capture.elapsed_ms").is_some() && metric_value(
        metrics,
        "bperf.batch_size",
    ).is_some();
    proof {
        if !complete {
            assert(is_trial_metric("workload.wall_ms"@));
            assert(is_trial_metric("variant.call_wall_ms"@));
            assert(is_trial_metric("browser.cpu_profile.active_ms"@));
            assert(is_trial_metric("browser.js_heap.live_bytes"@));
            assert(is_trial_metric("bperf.capture.elapsed_ms"@));
            assert(is_trial_metric("bperf.batch_size"@));
        }
    }
    complete
}

fn find_unfit(metrics: &Vec<MetricValue>) -> (r: usize)
    ensures
        r == first_unfit(metrics@, 0),
{
    let mut place: usize = 0;
    while place < 6
        invariant
            place <= 6,
            first_unfit(metrics@, 0) == first_unfit(metrics@, place as int),
        decreases 6 - place,
    {
        if !positive(metric_value(metrics, trial_metric(place))) {
            return place;
        }
        place += 1;
    }
    place
}

fn check_timing(evidence: &TrialEvidence) -> (r: bool)
    ensures
        r == valid_timing(*evidence),
{
    let workload = &evidence.workload;
    number::is_finite_positive(evidence.capture_elapsed_ms) && number::is_finite_positive(
        workload.workload_wall_ms,
    ) && number::is_finite_positive(workload.variant_call_wall_ms)
        && workload.variant_call_wall_ms.is_at_most(workload.workload_wall_ms)
        && workload.batch_wall_ms.is_finite() && workload.workload_wall_ms.is_at_most(
        workload.batch_wall_ms,
    )
}

fn check_metrics_match(evidence: &TrialEvidence) -> (r: bool)
    ensures
        r == metrics_match(*evidence),
{
    let metrics = &evidence.metrics;
    let size = number::from_u32(evidence.workload.batch_size);
    equal(metric_value(metrics, "workload.wall_ms"), evidence.workload.workload_wall_ms) && equal(
        metric_value(metrics, "variant.call_wall_ms"),
        evidence.workload.variant_call_wall_ms,
    ) && equal(metric_value(metrics, "bperf.capture.elapsed_ms"), evidence.capture_elapsed_ms)
        && equal(metric_value(metrics, "bperf.batch_size"), size)
}

/// Checks the evidence of a trial, given what was found where each artifact is said to be.
pub fn validate_trial_evidence(
    expected_engine: Engine,
    operation_count: usize,
    batches: TrialBatchConfig,
    evidence: &TrialEvidence,
    files: &Vec<ArtifactFile>,
) -> (r: Result<(), TrialError>)
    requires
        files@.len() == evidence.artifacts@.len(),
    ensures
        match trial_failure(expected_engine, operation_count, batches, *evidence, files@) {
            Some(error) => r == Err::<(), TrialError>(error),
            None => r == Ok::<(), TrialError>(()),
        },
{
    if evidence.engine != expected_engine {
        return Err(
            TrialError::Evidence(
                EvidenceError::OtherEngine { expected: expected_engine, returned: evidence.engine },
            ),
        );
    }
    if !runtime_is_complete(&evidence.runtime) {
        return Err(TrialError::Evidence(EvidenceError::IncompleteRuntime));
    }
    if let Some(error) = check_browser(&evidence.browser) {
        return Err(TrialError::Evidence(error));
    }
    let workload = &evidence.workload;
    if workload.operation_count != operation_count || workload.result.len() != operation_count {
        return Err(TrialError::InconsistentWorkload);
    }
    if !check_timing(evidence) {
        return Err(TrialError::InvalidTiming);
    }
    if !batches.accepts(workload) {
        return Err(TrialError::BatchPlan);
    }
    if !check_metric_set(&evidence.metrics) {
        return Err(TrialError::MetricSet);
    }
    let unfit = find_unfit(&evidence.metrics);
    if unfit < 6 {
        return Err(TrialError::MetricValue(unfit));
    }
    if !check_metrics_match(evidence) {
        return Err(TrialError::MetricMismatch);
    }
    match validate_artifacts(&evidence.artifacts, files) {
        Err(error) => Err(TrialError::Evidence(error)),
        Ok(_) => Ok(()),
    }
}

/// Accepted evidence of a capture satisfies the whole capture contract: the engine that was asked,
/// every capability, and for every kind of artifact a contained file with the reported size and
/// digest.
pub proof fn accepted_capture_is_complete(
    expected: Engine,
    evidence: CaptureEvidence,
    files: Seq<ArtifactFile>,
    kind: ArtifactKind,
)
    requires
        files.len() == evidence.artifacts@.len(),
        capture_failure(expected, evidence, files) is None,
    ensures
        evidence.engine == expected,
        evidence.capabilities.all(),
        exists|i: int|
            0 <= i < evidence.artifacts@.len() && (#[trigger] evidence.artifacts@[i]).kind == kind
                && contained(evidence.artifacts@[i].path@) && files[i].exists && files[i].contained
                && files[i].size_bytes == evidence.artifacts@[i].size_bytes && files[i].size_bytes
                > 0 && files[i].sha256@ == evidence.artifacts@[i].sha256@,
{
    let artifacts = evidence.artifacts@;
    assert(has_kind(artifacts, kind));
    let i = choose|i: int| 0 <= i < artifacts.len() && (#[trigger] artifacts[i]).kind == kind;
    lemma_accepted_artifact(artifacts, files, i, artifacts.len() as int);
}

/// Accepted evidence of a trial is complete: it comes from the engine that was asked, has a result for
/// every operation, a time, a CPU time, and a heap above zero, and for every kind of artifact a
/// contained file with the reported size and digest.
pub proof fn accepted_trial_is_complete(
    expected: Engine,
    operation_count: usize,
    batches: TrialBatchConfig,
    evidence: TrialEvidence,
    files: Seq<ArtifactFile>,
    kind: ArtifactKind,
)
    requires
        files.len() == evidence.artifacts@.len(),
        trial_failure(expected, operation_count, batches, evidence, files) is None,
    ensures
        evidence.engine == expected,
        evidence.workload.result@.len() == operation_count,
        forall|name: Seq<char>|
            is_trial_metric(name) ==> (#[trigger] metric(evidence.metrics@, name) matches Some(value)
                && number::finite_positive(value)),
        exists|i: int|
            0 <= i < evidence.artifacts@.len() && (#[trigger] evidence.artifacts@[i]).kind == kind
                && contained(evidence.artifacts@[i].path@) && files[i].exists && files[i].contained
                && files[i].size_bytes == evidence.artifacts@[i].size_bytes && files[i].size_bytes
                > 0 && files[i].sha256@ == evidence.artifacts@[i].sha256@,
{
    let artifacts = evidence.artifacts@;
    assert(has_kind(artifacts, kind));
    let i = choose|i: int| 0 <= i < artifacts.len() && (#[trigger] artifacts[i]).kind == kind;
    lemma_accepted_artifact(artifacts, files, i, artifacts.len() as int);
    reveal_with_fuel(first_unfit, 7);
}

/// The bytes of an artifact count: accepted files hold as many as are reported, with the reported
/// digest, so that a file whose content was changed to another digest is refused.
pub proof fn accepted_artifacts_hold_what_is_reported(
    artifacts: Seq<ArtifactEvidence>,
    files: Seq<ArtifactFile>,
    i: int,
    content: Seq<u8>,
)
    requires
        files.len() == artifacts.len(),
        0 <= i < artifacts.len(),
        holds(files[i], files[i].contained, content),
        artifacts_failure(artifacts, files) is None,
    ensures
        files[i].contained,
        0 < content.len() == artifacts[i].size_bytes,
        digest::sha256(content) == artifacts[i].sha256@,
{
    lemma_accepted_artifact(artifacts, files, i, artifacts.len() as int);
}

/// Each of the accepted artifacts is contained, and its file is as reported.
proof fn lemma_accepted_artifact(
    artifacts: Seq<ArtifactEvidence>,
    files: Seq<ArtifactFile>,
    i: int,
    n: int,
)
    requires
        0 <= i < n <= artifacts.len(),
        files.len() == artifacts.len(),
        descriptors_failure(artifacts, n) is None,
        files_failure(artifacts, files, n) is None,
    ensures
        contained(artifacts[i].path@),
        files[i].exists,
        files[i].contained,
        files[i].size_bytes == artifacts[i].size_bytes,
        files[i].size_bytes > 0,
        files[i].sha256@ == artifacts[i].sha256@,
    decreases n,
{
    if i < n - 1 {
        lemma_accepted_artifact(artifacts, files, i, n - 1);
    }
}

// What to tell a user.

/// The path of an artifact, or nothing where there is none at the place.
pub open spec fn path_at(artifacts: Seq<ArtifactEvidence>, place: usize) -> Seq<char> {
    if place < artifacts.len() {
        artifacts[place as int].path@
    } else {
        ""@
    }
}

/// The size that an artifact is said to have.
pub open spec fn reported_size(artifacts: Seq<ArtifactEvidence>, place: usize) -> nat {
    if place < artifacts.len() {
        artifacts[place as int].size_bytes as nat
    } else {
        0
    }
}

/// The size that was found where an artifact is said to be.
pub open spec fn found_size(files: Seq<ArtifactFile>, place: usize) -> nat {
    if place < files.len() {
        files[place as int].size_bytes as nat
    } else {
        0
    }
}

/// Texts between braces, with a comma and a space between each two.
pub open spec fn set_text(items: Seq<Seq<char>>) -> Seq<char> {
    "{"@ + listed(items) + "}"@
}

/// Texts with a comma and a space between each two.
pub open spec fn listed(items: Seq<Seq<char>>) -> Seq<char>
    decreases items.len(),
{
    if items.len() == 0 {
        Seq::empty()
    } else if items.len() == 1 {
        items[0]
    } else {
        listed(items.drop_last()) + ", "@ + items.last()
    }
}

/// The name of a kind of artifact.
pub open spec fn kind_name(kind: ArtifactKind) -> Seq<char> {
    match kind {
        ArtifactKind::CpuProfile => "CpuProfile"@,
        ArtifactKind::JsHeap => "JsHeap"@,
        ArtifactKind::Flamegraph => "Flamegraph"@,
    }
}

/// The names of some kinds of artifact.
pub open spec fn kind_names(kinds: Seq<ArtifactKind>) -> Seq<Seq<char>> {
    Seq::new(kinds.len(), |i: int| kind_name(kinds[i]))
}

/// The kinds of the first `n` artifacts, each once.
pub open spec fn found_kinds(artifacts: Seq<ArtifactEvidence>, n: int) -> Seq<ArtifactKind>
    decreases n,
{
    if n <= 0 {
        Seq::empty()
    } else {
        let before = found_kinds(artifacts, n - 1);
        if before.contains(artifacts[n - 1].kind) {
            before
        } else {
            before.push(artifacts[n - 1].kind)
        }
    }
}

/// What is said of evidence of an engine that is refused, given its artifacts and what was found
/// where each is said to be.
pub open spec fn evidence_error_text(
    error: EvidenceError,
    engine: Engine,
    artifacts: Seq<ArtifactEvidence>,
    files: Seq<ArtifactFile>,
) -> Seq<char> {
    let name = engine_name(engine);
    match error {
        EvidenceError::OtherEngine { expected, returned } => "sidecar returned engine "@
            + engine_name(returned) + " while "@ + engine_name(expected) + " was requested"@,
        EvidenceError::IncompleteRuntime => name + " runtime identity is incomplete"@,
        EvidenceError::NoRootPid => name + " did not expose a browser root PID"@,
        EvidenceError::IncompleteBrowser => name + " browser identity is incomplete"@,
        EvidenceError::InvalidAnchor => name + " returned invalid runtime anchor evidence"@,
        EvidenceError::MissingCapability => name + " did not satisfy every required capability"@,
        EvidenceError::ArtifactSet => name + " returned an invalid artifact set: "@ + set_text(
            kind_names(found_kinds(artifacts, artifacts.len() as int)),
        ),
        EvidenceError::ArtifactPath(i) => name + " artifact path must be contained: "@ + path_at(
            artifacts,
            i,
        ),
        EvidenceError::ArtifactDescriptor(i) => name + " artifact descriptor is invalid: "@
            + path_at(artifacts, i),
        EvidenceError::ArtifactMissing(i) => "artifact does not exist: "@ + path_at(artifacts, i),
        EvidenceError::ArtifactEscaped(i) => name + " artifact escaped its artifact directory: "@
            + path_at(artifacts, i),
        EvidenceError::ArtifactSize(i) => name + " artifact size mismatch for "@ + path_at(
            artifacts,
            i,
        ) + ": reported "@ + text::decimal(reported_size(artifacts, i)) + ", actual "@
            + text::decimal(found_size(files, i)),
        EvidenceError::ArtifactHash(i) => name + " artifact hash mismatch for "@ + path_at(
            artifacts,
            i,
        ),
    }
}

/// The times of a trial as texts.
#[derive(Clone, Debug)]
pub struct TimeTexts {
    pub workload_wall_ms: String,
    pub variant_call_wall_ms: String,
    pub batch_wall_ms: String,
}

/// The names of some metrics, quoted.
pub open spec fn quoted_names(metrics: Seq<MetricValue>) -> Seq<Seq<char>> {
    Seq::new(metrics.len(), |i: int| text::quoted(metrics[i].name@))
}

/// What is said of the evidence of a trial that is refused, given its times as texts and what was
/// found where each artifact is said to be.
pub open spec fn trial_error_text(
    error: TrialError,
    engine: Engine,
    evidence: TrialEvidence,
    times: TimeTexts,
    files: Seq<ArtifactFile>,
) -> Seq<char> {
    let name = engine_name(engine);
    match error {
        TrialError::Evidence(error) => evidence_error_text(
            error,
            engine,
            evidence.artifacts@,
            files,
        ),
        TrialError::InconsistentWorkload => name
            + " trial returned inconsistent workload evidence"@,
        TrialError::InvalidTiming => name + " trial returned invalid timing (workload_wall_ms="@
            + times.workload_wall_ms@ + ", variant_call_wall_ms="@ + times.variant_call_wall_ms@
            + ", batch_wall_ms="@ + times.batch_wall_ms@ + ")"@,
        TrialError::BatchPlan => name + " trial did not honor its batch plan"@,
        TrialError::MetricSet => name + " trial returned invalid metrics: "@ + set_text(
            quoted_names(evidence.metrics@),
        ),
        TrialError::MetricValue(place) => name + " trial metric "@ + text::quoted(
            trial_metric_at(place as int),
        ) + " must be finite and positive"@,
        TrialError::MetricMismatch => name
            + " trial metrics do not match their capture evidence"@,
    }
}

fn push_path(out: &mut String, artifacts: &Vec<ArtifactEvidence>, place: usize)
    ensures
        final(out)@ == old(out)@ + path_at(artifacts@, place),
{
    proof {
        reveal_strlit("");
    }
    if place < artifacts.len() {
        out.append(&artifacts[place].path);
    } else {
        out.append("");
    }
}

fn push_set(out: &mut String, items: &Vec<String>)
    ensures
        final(out)@ == old(out)@ + set_text(text::views(items@)),
{
    let ghost all = text::views(items@);
    let mut list = String::new();
    let mut i: usize = 0;
    while i < items.len()
        invariant
            i <= items@.len(),
            all == text::views(items@),
            list@ == listed(all.take(i as int)),
        decreases items@.len() - i,
    {
        if i > 0 {
            list.append(", ");
        }
        list.append(&items[i]);
        i += 1;
        proof {
            assert(all.take(i as int).drop_last() == all.take(i - 1));
            assert(all.take(i as int).last() == items@[i - 1]@);
            assert(list@ == listed(all.take(i as int)));
        }
    }
    assert(all.take(all.len() as int) == all);
    out.append("{");
    out.append(&list);
    out.append("}");
    assert(out@ == old(out)@ + set_text(all));
}

impl ArtifactKind {
    /// The name of the kind.
    pub fn name(self) -> (r: &'static str)
        ensures
            r@ == kind_name(self),
    {
        match self {
            ArtifactKind::CpuProfile => "CpuProfile",
            ArtifactKind::JsHeap => "JsHeap",
            ArtifactKind::Flamegraph => "Flamegraph",
        }
    }
}

fn names_of_kinds(artifacts: &Vec<ArtifactEvidence>) -> (r: Vec<String>)
    ensures
        text::views(r@) == kind_names(found_kinds(artifacts@, artifacts@.len() as int)),
{
    let mut kinds: Vec<ArtifactKind> = Vec::new();
    let mut out: Vec<String> = Vec::new();
    let mut i: usize = 0;
    while i < artifacts.len()
        invariant
            i <= artifacts@.len(),
            kinds@ == found_kinds(artifacts@, i as int),
            text::views(out@) == kind_names(kinds@),
        decreases artifacts@.len() - i,
    {
        let kind = artifacts[i].kind;
        let mut known = false;
        let mut j: usize = 0;
        while j < kinds.len()
            invariant
                j <= kinds@.len(),
                known == exists|k: int| 0 <= k < j && kinds@[k] == kind,
            decreases kinds@.len() - j,
        {
            if kinds[j] == kind {
                known = true;
            }
            j += 1;
        }
        if !known {
            let ghost before = kinds@;
            out.push(kind.name().to_owned());
            kinds.push(kind);
            assert(text::views(out@) == kind_names(before).push(kind_name(kind)));
            assert(kind_names(kinds@) == kind_names(before).push(kind_name(kind)));
        }
        i += 1;
    }
    out
}

fn quote_names(metrics: &Vec<MetricValue>) -> (r: Vec<String>)
    ensures
        text::views(r@) == quoted_names(metrics@),
{
    let mut out: Vec<String> = Vec::new();
    let mut i: usize = 0;
    while i < metrics.len()
        invariant
            i <= metrics@.len(),
            text::views(out@) == quoted_names(metrics@).take(i as int),
        decreases metrics@.len() - i,
    {
        out.push(text::quote(&metrics[i].name));
        i += 1;
        assert(quoted_names(metrics@).take(i as int) == quoted_names(metrics@).take(i - 1).push(
            quoted_names(metrics@)[i - 1],
        ));
    }
    assert(quoted_names(metrics@).take(i as int) == quoted_names(metrics@));
    out
}

impl TrialError {
    /// Says why the evidence of a trial is refused, given its times as texts and what was found where
    /// each artifact is said to be.
    pub fn message(
        &self,
        engine: Engine,
        evidence: &TrialEvidence,
        times: &TimeTexts,
        files: &Vec<ArtifactFile>,
    ) -> (r: String)
        ensures
            r@ == trial_error_text(*self, engine, *evidence, *times, files@),
    {
        let mut out = engine.as_str().to_owned();
        match self {
            TrialError::Evidence(error) => {
                return error.message(engine, &evidence.artifacts, files);
            },
            TrialError::InconsistentWorkload => out.append(
                " trial returned inconsistent workload evidence",
            ),
            TrialError::InvalidTiming => {
                out.append(" trial returned invalid timing (workload_wall_ms=");
                out.append(&times.workload_wall_ms);
                out.append(", variant_call_wall_ms=");
                out.append(&times.variant_call_wall_ms);
                out.append(", batch_wall_ms=");
                out.append(&times.batch_wall_ms);
                out.append(")");
            },
            TrialError::BatchPlan => out.append(" trial did not honor its batch plan"),
            TrialError::MetricSet => {
                out.append(" trial returned invalid metrics: ");
                push_set(&mut out, &quote_names(&evidence.metrics));
            },
            TrialError::MetricValue(place) => {
                out.append(" trial metric ");
                out.append(&text::quote(trial_metric(*place)));
                out.append(" must be finite and positive");
            },
            TrialError::MetricMismatch => out.append(
                " trial metrics do not match their capture evidence",
            ),
        }
        out
    }
}

impl EvidenceError {
    /// The place of the artifact that the error is about, where it is about one.
    pub fn place(&self) -> (r: Option<usize>)
        ensures
            r == match *self {
                EvidenceError::ArtifactPath(i) => Some(i),
                EvidenceError::ArtifactDescriptor(i) => Some(i),
                EvidenceError::ArtifactMissing(i) => Some(i),
                EvidenceError::ArtifactEscaped(i) => Some(i),
                EvidenceError::ArtifactSize(i) => Some(i),
                EvidenceError::ArtifactHash(i) => Some(i),
                _ => None,
            },
    {
        match *self {
            EvidenceError::ArtifactPath(i) => Some(i),
            EvidenceError::ArtifactDescriptor(i) => Some(i),
            EvidenceError::ArtifactMissing(i) => Some(i),
            EvidenceError::ArtifactEscaped(i) => Some(i),
            EvidenceError::ArtifactSize(i) => Some(i),
            EvidenceError::ArtifactHash(i) => Some(i),
            _ => None,
        }
    }

    /// Says why evidence of an engine is refused, given its artifacts and what was found where each
    /// is said to be.
    pub fn message(
        &self,
        engine: Engine,
        artifacts: &Vec<ArtifactEvidence>,
        files: &Vec<ArtifactFile>,
    ) -> (r: String)
        ensures
            r@ == evidence_error_text(*self, engine, artifacts@, files@),
    {
        if let EvidenceError::OtherEngine { expected, returned } = self {
            let mut out = "sidecar returned engine ".to_owned();
            out.append(returned.as_str());
            out.append(" while ");
            out.append(expected.as_str());
            out.append(" was requested");
            return out;
        }
        if let EvidenceError::ArtifactMissing(place) = self {
            let mut out = "artifact does not exist: ".to_owned();
            push_path(&mut out, artifacts, *place);
            return out;
        }
        let mut out = engine.as_str().to_owned();
        match self {
            EvidenceError::OtherEngine { .. } => {},
            EvidenceError::IncompleteRuntime => out.append(" runtime identity is incomplete"),
            EvidenceError::NoRootPid => out.append(" did not expose a browser root PID"),
            EvidenceError::IncompleteBrowser => out.append(" browser identity is incomplete"),
            EvidenceError::InvalidAnchor => out.append(
                " returned invalid runtime anchor evidence",
            ),
            EvidenceError::MissingCapability => out.append(
                " did not satisfy every required capability",
            ),
            EvidenceError::ArtifactSet => {
                out.append(" returned an invalid artifact set: ");
                push_set(&mut out, &names_of_kinds(artifacts));
            },
            EvidenceError::ArtifactPath(place) => {
                out.append(" artifact path must be contained: ");
                push_path(&mut out, artifacts, *place);
            },
            EvidenceError::ArtifactDescriptor(place) => {
                out.append(" artifact descriptor is invalid: ");
                push_path(&mut out, artifacts, *place);
            },
            EvidenceError::ArtifactMissing(_) => {},
            EvidenceError::ArtifactEscaped(place) => {
                out.append(" artifact escaped its artifact directory: ");
                push_path(&mut out, artifacts, *place);
            },
            EvidenceError::ArtifactSize(place) => {
                let reported: u64 = if *place < artifacts.len() {
                    artifacts[*place].size_bytes
                } else {
                    0
                };
                let actual: u64 = if *place < files.len() {
                    files[*place].size_bytes
                } else {
                    0
                };
                out.append(" artifact size mismatch for ");
                push_path(&mut out, artifacts, *place);
                out.append(": reported ");
                out.append(&text::decimal_text(reported));
                out.append(", actual ");
                out.append(&text::decimal_text(actual));
            },
            EvidenceError::ArtifactHash(place) => {
                out.append(" artifact hash mismatch for ");
                push_path(&mut out, artifacts, *place);
            },
        }
        out
    }
}

// The protocol of the browser laboratory.

/// An error that the browser laboratory reports.
#[derive(Clone, Debug)]
pub struct WireError {
    pub code: String,
    pub message: String,
    pub stack: Option<String>,
}

/// The frame of a response.
#[derive(Clone, Debug)]
pub struct WireResponse {
    pub protocol_version: u32,
    pub id: u64,
    pub ok: bool,
    pub has_result: bool,
    pub error: Option<WireError>,
}

/// Why a response is refused.
#[derive(Clone, Copy, Debug, Eq, PartialEq, Structural)]
pub enum WireFailure {
    /// The laboratory speaks another version of the protocol.
    Protocol(u32),
    /// The response answers another request.
    OtherRequest(u64),
    /// The laboratory could not do what it was asked.
    Refused,
    /// The laboratory reports success without a result.
    NoResult,
}

/// Why a response to a request is refused, if it is.
pub open spec fn wire_failure(request_id: u64, response: WireResponse) -> Option<WireFailure> {
    if response.protocol_version != PROTOCOL_VERSION {
        Some(WireFailure::Protocol(response.protocol_version))
    } else if response.id != request_id {
        Some(WireFailure::OtherRequest(response.id))
    } else if !response.ok {
        Some(WireFailure::Refused)
    } else if !response.has_result {
        Some(WireFailure::NoResult)
    } else {
        None
    }
}

/// Checks the frame of a response to a request.
pub fn check_response(request_id: u64, response: &WireResponse) -> (r: Result<(), WireFailure>)
    ensures
        match wire_failure(request_id, *response) {
            Some(error) => r == Err::<(), WireFailure>(error),
            None => r == Ok::<(), WireFailure>(()),
        },
{
    if response.protocol_version != PROTOCOL_VERSION {
        return Err(WireFailure::Protocol(response.protocol_version));
    }
    if response.id != request_id {
        return Err(WireFailure::OtherRequest(response.id));
    }
    if !response.ok {
        return Err(WireFailure::Refused);
    }
    if !response.has_result {
        return Err(WireFailure::NoResult);
    }
    Ok(())
}

/// What the browser laboratory says of an error, or that it said nothing.
pub open spec fn refusal_text(error: Option<WireError>) -> Seq<char> {
    match error {
        None => "browser laboratory unknown: request failed without an error body"@,
        Some(error) => "browser laboratory "@ + error.code@ + ": "@ + error.message@ + (
        match error.stack {
            Some(stack) => "\n"@ + stack@,
            None => Seq::empty(),
        }),
    }
}

/// Says what the browser laboratory said of an error.
pub fn describe_refusal(error: &Option<WireError>) -> (r: String)
    ensures
        r@ == refusal_text(*error),
{
    match error {
        None => "browser laboratory unknown: request failed without an error body".to_owned(),
        Some(error) => {
            let mut out = "browser laboratory ".to_owned();
            out.append(&error.code);
            out.append(": ");
            out.append(&error.message);
            let ghost head = out@;
            if let Some(stack) = &error.stack {
                out.append("\n");
                out.append(stack);
                assert(out@ == head + ("\n"@ + stack@));
            }
            out
        },
    }
}

/// Lines joined by line feeds.
pub open spec fn joined_lines(lines: Seq<Seq<char>>) -> Seq<char>
    decreases lines.len(),
{
    if lines.len() == 0 {
        Seq::empty()
    } else if lines.len() == 1 {
        lines[0]
    } else {
        joined_lines(lines.drop_last()).push('\n') + lines.last()
    }
}

/// What the browser laboratory wrote to its error output, if anything.
pub open spec fn stderr_text(lines: Seq<Seq<char>>) -> Seq<char> {
    if lines.len() == 0 {
        Seq::empty()
    } else {
        "\nbrowser laboratory stderr:\n"@ + joined_lines(lines)
    }
}

/// Quotes what the browser laboratory wrote to its error output.
pub fn format_stderr(lines: &Vec<String>) -> (r: String)
    ensures
        r@ == stderr_text(text::views(lines@)),
{
    if lines.len() == 0 {
        return String::new();
    }
    let ghost all = text::views(lines@);
    let mut out = "\nbrowser laboratory stderr:\n".to_owned();
    let ghost head = out@;
    out.append(&lines[0]);
    assert(all.take(1)[0] == lines@[0]@);
    assert(out@ == head + joined_lines(all.take(1)));
    let mut i: usize = 1;
    while i < lines.len()
        invariant
            1 <= i <= lines@.len(),
            all == text::views(lines@),
            out@ == head + joined_lines(all.take(i as int)),
        decreases lines@.len() - i,
    {
        out.push('\n');
        out.append(&lines[i]);
        i += 1;
        proof {
            assert(all.take(i as int).drop_last() == all.take(i - 1));
            assert(all.take(i as int).last() == lines@[i - 1]@);
            assert(out@ == head + joined_lines(all.take(i as int)));
        }
    }
    assert(all.take(all.len() as int) == all);
    out
}

} // verus!
