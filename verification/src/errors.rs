//! What is said of errors.

use vstd::prelude::*;
use vstd::string::*;

use crate::artifact_retention::{Diagnostic, EntryError, RetentionError};
use crate::benchmark_runtime::WorkloadError;
use crate::browser_lab;
use crate::browser_lab::{ArtifactKind, Engine};
use crate::digest;
use crate::lineage;
use crate::managed_benchmark::{ConfirmError, DescriptionError, IndexError, OutsideWorkspace};
use crate::measurement::{ResultError, ScratchError};
use crate::measurement_log;
use crate::measurement_log::SamplingError;
use crate::paths::PathError;
use crate::project_modules::OutputError;
use crate::promotion::{FindError, MessageTooLong, RecordError};
use crate::source_state::{FileChange, IdPlace, SourceChange, SourceError, SourceState};
use crate::text;

verus! {

impl ResultError {
    /// What is said of the error, given the trial and the attempt that were recorded, the measurement
    /// set that was recorded and the one that was expected, and the metric that the error is about.
    pub fn message(
        &self,
        trial: &str,
        attempt: u32,
        set: &str,
        expected_set: &str,
        metric: &str,
    ) -> (r: String)
        ensures
            r@ == match *self {
                ResultError::InvalidLine(line) => "invalid trial JSON at line "@
                    + text::decimal(line as nat),
                ResultError::Schema(version) => "trial result "@ + trial@
                    + " uses unsupported schema "@ + text::decimal(version as nat),
                ResultError::OtherSet => "trial "@ + trial@ + " belongs to measurement set "@
                    + text::quoted(set@) + ", expected "@ + text::quoted(expected_set@),
                ResultError::AttemptZero => "trial result "@ + trial@ + " has attempt 0"@,
                ResultError::UnknownTrial => "unknown scheduled trial "@ + trial@,
                ResultError::OtherTrial => "trial "@ + trial@
                    + " metadata does not match its immutable schedule"@,
                ResultError::DuplicateAttempt => "duplicate result for "@ + trial@ + " attempt "@
                    + text::decimal(attempt as nat),
                ResultError::NoEnvironment => "trial "@ + trial@
                    + " has an empty environment_fingerprint"@,
                ResultError::NoInvalidationReason => "invalid trial "@ + trial@
                    + " must include invalidation_reason"@,
                ResultError::UnexpectedInvalidationReason => "valid trial "@ + trial@
                    + " cannot include invalidation_reason"@,
                ResultError::NoFailureCategory => "failed valid trial "@ + trial@
                    + " must include failure_category"@,
                ResultError::UnexpectedFailureCategory => "successful trial "@ + trial@
                    + " cannot include failure_category"@,
                ResultError::UnexpectedFailureDetail => "successful trial "@ + trial@
                    + " cannot include failure_detail"@,
                ResultError::InvalidMetric(_) => "trial "@ + trial@ + " metric "@
                    + text::quoted(metric@) + " must be finite and non-negative"@,
                ResultError::NoPrimaryMetric(_) => "successful trial "@ + trial@
                    + " has no primary metric "@ + text::quoted(metric@),
                ResultError::PrimaryMetricNotPositive(_) => "successful trial "@ + trial@
                    + " metric "@ + text::quoted(metric@)
                    + " must be positive for ratio analysis"@,
                ResultError::Artifacts(_) => "trial "@ + trial@ + " has invalid artifacts"@,
                ResultError::UnexpectedArtifacts => "invalid trial "@ + trial@
                    + " cannot claim a complete artifact set"@,
                ResultError::SeveralEnvironments =>
                    "measurement set contains multiple environment fingerprints"@,
                ResultError::AttemptsNotContiguous { expected, found } => trial@
                    + " attempts are not contiguous: expected "@ + text::decimal(expected as nat)
                    + ", found "@ + text::decimal(found as nat),
                ResultError::AttemptsAfterTerminal => trial@
                    + " has attempts after its valid terminal result"@,
            },
    {
        match *self {
            ResultError::InvalidLine(line) => {
                let mut out = "invalid trial JSON at line ".to_owned();
                out.append(&text::decimal_text(line as u64));
                out
            },
            ResultError::Schema(version) => {
                let mut out = "trial result ".to_owned();
                out.append(trial);
                out.append(" uses unsupported schema ");
                out.append(&text::decimal_text(version as u64));
                out
            },
            ResultError::OtherSet => {
                let mut out = "trial ".to_owned();
                out.append(trial);
                out.append(" belongs to measurement set ");
                out.append(&text::quote(set));
                out.append(", expected ");
                out.append(&text::quote(expected_set));
                out
            },
            ResultError::AttemptZero => {
                let mut out = "trial result ".to_owned();
                out.append(trial);
                out.append(" has attempt 0");
                out
            },
            ResultError::UnknownTrial => {
                let mut out = "unknown scheduled trial ".to_owned();
                out.append(trial);
                out
            },
            ResultError::OtherTrial => {
                let mut out = "trial ".to_owned();
                out.append(trial);
                out.append(" metadata does not match its immutable schedule");
                out
            },
            ResultError::DuplicateAttempt => {
                let mut out = "duplicate result for ".to_owned();
                out.append(trial);
                out.append(" attempt ");
                out.append(&text::decimal_text(attempt as u64));
                out
            },
            ResultError::NoEnvironment => {
                let mut out = "trial ".to_owned();
                out.append(trial);
                out.append(" has an empty environment_fingerprint");
                out
            },
            ResultError::NoInvalidationReason => {
                let mut out = "invalid trial ".to_owned();
                out.append(trial);
                out.append(" must include invalidation_reason");
                out
            },
            ResultError::UnexpectedInvalidationReason => {
                let mut out = "valid trial ".to_owned();
                out.append(trial);
                out.append(" cannot include invalidation_reason");
                out
            },
            ResultError::NoFailureCategory => {
                let mut out = "failed valid trial ".to_owned();
                out.append(trial);
                out.append(" must include failure_category");
                out
            },
            ResultError::UnexpectedFailureCategory => {
                let mut out = "successful trial ".to_owned();
                out.append(trial);
                out.append(" cannot include failure_category");
                out
            },
            ResultError::UnexpectedFailureDetail => {
                let mut out = "successful trial ".to_owned();
                out.append(trial);
                out.append(" cannot include failure_detail");
                out
            },
            ResultError::InvalidMetric(_) => {
                let mut out = "trial ".to_owned();
                out.append(trial);
                out.append(" metric ");
                out.append(&text::quote(metric));
                out.append(" must be finite and non-negative");
                out
            },
            ResultError::NoPrimaryMetric(_) => {
                let mut out = "successful trial ".to_owned();
                out.append(trial);
                out.append(" has no primary metric ");
                out.append(&text::quote(metric));
                out
            },
            ResultError::PrimaryMetricNotPositive(_) => {
                let mut out = "successful trial ".to_owned();
                out.append(trial);
                out.append(" metric ");
                out.append(&text::quote(metric));
                out.append(" must be positive for ratio analysis");
                out
            },
            ResultError::Artifacts(_) => {
                let mut out = "trial ".to_owned();
                out.append(trial);
                out.append(" has invalid artifacts");
                out
            },
            ResultError::UnexpectedArtifacts => {
                let mut out = "invalid trial ".to_owned();
                out.append(trial);
                out.append(" cannot claim a complete artifact set");
                out
            },
            ResultError::SeveralEnvironments =>
                "measurement set contains multiple environment fingerprints".to_owned(),
            ResultError::AttemptsNotContiguous { expected, found } => {
                let mut out = trial.to_owned();
                out.append(" attempts are not contiguous: expected ");
                out.append(&text::decimal_text(expected as u64));
                out.append(", found ");
                out.append(&text::decimal_text(found as u64));
                out
            },
            ResultError::AttemptsAfterTerminal => {
                let mut out = trial.to_owned();
                out.append(" has attempts after its valid terminal result");
                out
            },
        }
    }
}

impl SamplingError {
    /// What is said of the error, given the trial, or the workload and the engine, that it is about.
    pub fn message(&self, trial: &str, workload: &str, engine: Engine) -> (r: String)
        ensures
            r@ == match *self {
                SamplingError::NotNeeded => "measurement set does not need a sampling decision"@,
                SamplingError::CalibrationIncomplete =>
                    "sampling cannot be locked before calibration is complete"@,
                SamplingError::Warmup(_) => "sampling decision was recorded before warmup "@
                    + trial@ + " completed"@,
                SamplingError::NoPilotCount(_) => "sampling decision has no pilot count for "@
                    + workload@ + "/"@ + browser_lab::engine_name(engine),
                SamplingError::PilotPrefix(_) => "pilot evidence for "@ + workload@ + "/"@
                    + browser_lab::engine_name(engine) + " does not match its locked prefix"@,
                SamplingError::StopReason(_) => "pilot stopping evidence changed for "@
                    + workload@ + "/"@ + browser_lab::engine_name(engine),
                SamplingError::FixedSet => "fixed measurement set cannot contain sampling.json"@,
            },
    {
        match *self {
            SamplingError::NotNeeded =>
                "measurement set does not need a sampling decision".to_owned(),
            SamplingError::CalibrationIncomplete =>
                "sampling cannot be locked before calibration is complete".to_owned(),
            SamplingError::Warmup(_) => {
                let mut out = "sampling decision was recorded before warmup ".to_owned();
                out.append(trial);
                out.append(" completed");
                out
            },
            SamplingError::NoPilotCount(_) => {
                let mut out = "sampling decision has no pilot count for ".to_owned();
                out.append(workload);
                out.append("/");
                out.append(engine.as_str());
                out
            },
            SamplingError::PilotPrefix(_) => {
                let mut out = "pilot evidence for ".to_owned();
                out.append(workload);
                out.append("/");
                out.append(engine.as_str());
                out.append(" does not match its locked prefix");
                out
            },
            SamplingError::StopReason(_) => {
                let mut out = "pilot stopping evidence changed for ".to_owned();
                out.append(workload);
                out.append("/");
                out.append(engine.as_str());
                out
            },
            SamplingError::FixedSet =>
                "fixed measurement set cannot contain sampling.json".to_owned(),
        }
    }
}

impl measurement_log::AppendError {
    /// What is said of the error about a trial; `invalid` is what is said of its result where that is
    /// refused.
    pub fn message(&self, trial: &str, invalid: &str) -> (r: String)
        ensures
            r@ == match *self {
                measurement_log::AppendError::Finalized =>
                    "artifact retention is finalized; no more trials can be appended"@,
                measurement_log::AppendError::OtherSet =>
                    "trial result belongs to a different measurement set"@,
                measurement_log::AppendError::Completed => "trial "@ + trial@
                    + " already has a valid terminal result"@,
                measurement_log::AppendError::OtherEnvironment =>
                    "trial result environment differs from the measurement set"@,
                measurement_log::AppendError::UnknownTrial => "unknown scheduled trial "@ + trial@,
                measurement_log::AppendError::Result(_) => invalid@,
                measurement_log::AppendError::Attempt { expected, received } => trial@
                    + " expected attempt "@ + text::decimal(expected as nat) + ", received "@
                    + text::decimal(received as nat),
            },
    {
        match *self {
            measurement_log::AppendError::Finalized =>
                "artifact retention is finalized; no more trials can be appended".to_owned(),
            measurement_log::AppendError::OtherSet =>
                "trial result belongs to a different measurement set".to_owned(),
            measurement_log::AppendError::Completed => {
                let mut out = "trial ".to_owned();
                out.append(trial);
                out.append(" already has a valid terminal result");
                out
            },
            measurement_log::AppendError::OtherEnvironment =>
                "trial result environment differs from the measurement set".to_owned(),
            measurement_log::AppendError::UnknownTrial => {
                let mut out = "unknown scheduled trial ".to_owned();
                out.append(trial);
                out
            },
            measurement_log::AppendError::Result(_) => {
                let mut out = invalid.to_owned();
                out
            },
            measurement_log::AppendError::Attempt { expected, received } => {
                let mut out = trial.to_owned();
                out.append(" expected attempt ");
                out.append(&text::decimal_text(expected as u64));
                out.append(", received ");
                out.append(&text::decimal_text(received as u64));
                out
            },
        }
    }
}

impl ScratchError {
    /// What is said of the error about a directory and the measurement set that it is cleaned from.
    pub fn message(&self, path: &str, root: &str) -> (r: String)
        ensures
            r@ == match *self {
                ScratchError::NotADirectory => "measurement cleanup refuses non-directory "@
                    + path@,
                ScratchError::Escaped => "measurement cleanup path escaped measurement set "@
                    + root@,
            },
    {
        match *self {
            ScratchError::NotADirectory => {
                let mut out = "measurement cleanup refuses non-directory ".to_owned();
                out.append(path);
                out
            },
            ScratchError::Escaped => {
                let mut out = "measurement cleanup path escaped measurement set ".to_owned();
                out.append(root);
                out
            },
        }
    }
}

impl EntryError {
    /// What is said of the error about an entry and the directory that it is cleaned from.
    pub fn message(&self, path: &str, root: &str) -> (r: String)
        ensures
            r@ == match *self {
                EntryError::SymbolicLink => "artifact cleanup refuses symbolic link "@ + path@,
                EntryError::Escaped => "artifact cleanup path escaped "@ + root@,
            },
    {
        match *self {
            EntryError::SymbolicLink => {
                let mut out = "artifact cleanup refuses symbolic link ".to_owned();
                out.append(path);
                out
            },
            EntryError::Escaped => {
                let mut out = "artifact cleanup path escaped ".to_owned();
                out.append(root);
                out
            },
        }
    }
}

/// The name of a kind of artifact in a message.
pub open spec fn kind_name(kind: ArtifactKind) -> Seq<char> {
    match kind {
        ArtifactKind::CpuProfile => "CpuProfile"@,
        ArtifactKind::JsHeap => "JsHeap"@,
        ArtifactKind::Flamegraph => "Flamegraph"@,
    }
}

fn show_kind(kind: ArtifactKind) -> (r: &'static str)
    ensures
        r@ == kind_name(kind),
{
    match kind {
        ArtifactKind::CpuProfile => "CpuProfile",
        ArtifactKind::JsHeap => "JsHeap",
        ArtifactKind::Flamegraph => "Flamegraph",
    }
}

impl RetentionError {
    /// What is said of the error about a trial.
    pub fn message(&self, trial: &str) -> (r: String)
        ensures
            r@ == match *self {
                RetentionError::NoMetric { diagnostic, .. } => "trial "@ + trial@ + " has no "@
                    + crate::artifact_retention::diagnostic_metric(diagnostic),
                RetentionError::NoArtifact { kind, .. } => "trial "@ + trial@ + " has no "@
                    + kind_name(kind) + " artifact"@,
                RetentionError::BytesOverflow => "artifact byte total overflowed"@,
                RetentionError::ExceedsCaptured =>
                    "artifact retention selection exceeds captured evidence"@,
            },
    {
        match *self {
            RetentionError::NoMetric { diagnostic, .. } => {
                let mut out = "trial ".to_owned();
                out.append(trial);
                out.append(" has no ");
                out.append(
                    match diagnostic {
                        Diagnostic::Cpu => "browser.cpu_profile.active_ms",
                        Diagnostic::Heap => "browser.js_heap.live_bytes",
                    },
                );
                out
            },
            RetentionError::NoArtifact { kind, .. } => {
                let mut out = "trial ".to_owned();
                out.append(trial);
                out.append(" has no ");
                out.append(show_kind(kind));
                out.append(" artifact");
                out
            },
            RetentionError::BytesOverflow => "artifact byte total overflowed".to_owned(),
            RetentionError::ExceedsCaptured =>
                "artifact retention selection exceeds captured evidence".to_owned(),
        }
    }
}

/// What is said of an error of a checkpoint or a stored record, given the identity, the digest, or the
/// path that it is about, what that is an identity of, and the directory of the sources.
pub open spec fn source_error_text(
    error: SourceError,
    about: Seq<char>,
    label: Seq<char>,
    root: Seq<char>,
) -> Seq<char> {
    match error {
        SourceError::Path(_, PathError::NotRelative) =>
            "source path contains a non-relative component"@,
        SourceError::Path(_, PathError::Empty) =>
            "source file has an empty workspace-relative path"@,
        SourceError::Path(_, PathError::Outside) => "source file "@ + about
            + " is outside workspace "@ + root,
        SourceError::DuplicatePath(_) => "source graph contains duplicate path "@ + text::quoted(
            about,
        ),
        SourceError::NoFiles => "source graph contains no project modules"@,
        SourceError::ChangedDuringCapture =>
            "source files changed while their optimization checkpoint was captured"@,
        SourceError::InvalidId(_) => "invalid "@ + label + " ID "@ + text::quoted(about),
        SourceError::IncompatibleIdentity => label + " "@ + about + " has incompatible identity"@,
        SourceError::InvalidDigest | SourceError::InvalidFileDigest(_) =>
            "invalid source object digest "@ + text::quoted(about),
        SourceError::InvalidPath(_) => "invalid source path "@ + text::quoted(about),
        SourceError::ContentDigest => "source object for "@ + about
            + " failed its content digest"@,
    }
}

/// What an error of a stored state is about.
pub open spec fn about_state(error: SourceError, state: SourceState, id: Seq<char>) -> Seq<char> {
    match error {
        SourceError::InvalidFileDigest(i) => if i < state.files@.len() {
            state.files@[i as int].sha256@
        } else {
            id
        },
        SourceError::InvalidPath(i) => if i < state.files@.len() {
            state.files@[i as int].path@
        } else {
            id
        },
        _ => id,
    }
}

/// The digest of a changed file that is none: the one before the change, where it is not a digest,
/// else the one after it.
pub open spec fn faulty_digest(file: FileChange) -> Seq<char> {
    match (file.before_sha256, file.after_sha256) {
        (Some(before), None) => before@,
        (Some(before), Some(after)) => if digest::is_digest(before@) {
            after@
        } else {
            before@
        },
        (None, Some(after)) => after@,
        (None, None) => ""@,
    }
}

/// What an error of a stored change is about.
pub open spec fn about_change(error: SourceError, change: SourceChange, id: Seq<char>) -> Seq<
    char,
> {
    match error {
        SourceError::InvalidId(IdPlace::Before) => match change.source_before {
            Some(before) => before@,
            None => id,
        },
        SourceError::InvalidId(IdPlace::After) => change.source_after@,
        SourceError::InvalidFileDigest(i) => if i < change.files@.len() {
            faulty_digest(change.files@[i as int])
        } else {
            id
        },
        SourceError::InvalidPath(i) => if i < change.files@.len() {
            change.files@[i as int].path@
        } else {
            id
        },
        _ => id,
    }
}

/// What the identity in an error of a stored change is an identity of.
pub open spec fn change_label(error: SourceError) -> Seq<char> {
    match error {
        SourceError::InvalidId(IdPlace::Before) | SourceError::InvalidId(IdPlace::After) =>
            "source state"@,
        _ => "source change"@,
    }
}

fn find_faulty_digest(file: &FileChange) -> (r: String)
    ensures
        r@ == faulty_digest(*file),
{
    match (&file.before_sha256, &file.after_sha256) {
        (Some(before), None) => before.clone(),
        (Some(before), Some(after)) => if digest::digest_text(before) {
            after.clone()
        } else {
            before.clone()
        },
        (None, Some(after)) => after.clone(),
        (None, None) => "".to_owned(),
    }
}

impl SourceError {
    /// Says why a stored state is refused that was looked for under an identity.
    pub fn state_message(&self, state: &SourceState, id: &str) -> (r: String)
        ensures
            r@ == source_error_text(
                *self,
                about_state(*self, *state, id@),
                "source state"@,
                ""@,
            ),
    {
        match *self {
            SourceError::InvalidFileDigest(i) if i < state.files.len() => self.message(
                &state.files[i].sha256,
                "source state",
                "",
            ),
            SourceError::InvalidPath(i) if i < state.files.len() => self.message(
                &state.files[i].path,
                "source state",
                "",
            ),
            _ => self.message(id, "source state", ""),
        }
    }

    /// Says why a stored change is refused that was looked for under an identity.
    pub fn change_message(&self, change: &SourceChange, id: &str) -> (r: String)
        ensures
            r@ == source_error_text(
                *self,
                about_change(*self, *change, id@),
                change_label(*self),
                ""@,
            ),
    {
        match *self {
            SourceError::InvalidId(IdPlace::Before) => match &change.source_before {
                Some(before) => self.message(before, "source state", ""),
                None => self.message(id, "source state", ""),
            },
            SourceError::InvalidId(IdPlace::After) => self.message(
                &change.source_after,
                "source state",
                "",
            ),
            SourceError::InvalidFileDigest(i) if i < change.files.len() => self.message(
                &find_faulty_digest(&change.files[i]),
                "source change",
                "",
            ),
            SourceError::InvalidPath(i) if i < change.files.len() => self.message(
                &change.files[i].path,
                "source change",
                "",
            ),
            _ => self.message(id, "source change", ""),
        }
    }

    /// What is said of the error, given the identity, the digest, or the path that it is about, what
    /// that is an identity of, and the directory of the sources.
    pub fn message(&self, about: &str, label: &str, root: &str) -> (r: String)
        ensures
            r@ == source_error_text(*self, about@, label@, root@),
    {
        match *self {
            SourceError::Path(_, PathError::NotRelative) =>
                "source path contains a non-relative component".to_owned(),
            SourceError::Path(_, PathError::Empty) =>
                "source file has an empty workspace-relative path".to_owned(),
            SourceError::Path(_, PathError::Outside) => {
                let mut out = "source file ".to_owned();
                out.append(about);
                out.append(" is outside workspace ");
                out.append(root);
                out
            },
            SourceError::DuplicatePath(_) => {
                let mut out = "source graph contains duplicate path ".to_owned();
                out.append(&text::quote(about));
                out
            },
            SourceError::NoFiles => "source graph contains no project modules".to_owned(),
            SourceError::ChangedDuringCapture =>
                "source files changed while their optimization checkpoint was captured".to_owned(),
            SourceError::InvalidId(_) => {
                let mut out = "invalid ".to_owned();
                out.append(label);
                out.append(" ID ");
                out.append(&text::quote(about));
                out
            },
            SourceError::IncompatibleIdentity => {
                let mut out = label.to_owned();
                out.append(" ");
                out.append(about);
                out.append(" has incompatible identity");
                out
            },
            SourceError::InvalidDigest | SourceError::InvalidFileDigest(_) => {
                let mut out = "invalid source object digest ".to_owned();
                out.append(&text::quote(about));
                out
            },
            SourceError::InvalidPath(_) => {
                let mut out = "invalid source path ".to_owned();
                out.append(&text::quote(about));
                out
            },
            SourceError::ContentDigest => {
                let mut out = "source object for ".to_owned();
                out.append(about);
                out.append(" failed its content digest");
                out
            },
        }
    }
}

impl RecordError {
    /// What is said of the error about a measurement set.
    pub fn message(&self, set: &str) -> (r: String)
        ensures
            r@ == match *self {
                RecordError::Incomplete => "measurement set "@ + set@
                    + " is incomplete and cannot enter optimization history"@,
                RecordError::NoEnvironment =>
                    "complete measurement set has no environment fingerprint"@,
                RecordError::OtherCandidate =>
                    "comparison candidate does not match the measured source checkpoint"@,
                RecordError::OtherEnvironment =>
                    "comparison environment does not match the measured source checkpoint"@,
                RecordError::MissingEngine =>
                    "comparison summary does not contain every required browser engine"@,
                RecordError::OtherVariant =>
                    "confirmation does not measure the selected cycle's source variant"@,
                RecordError::NoBaseline => "an initial baseline cycle does not need confirmation"@,
                RecordError::OtherBaseline =>
                    "confirmation was not compared with the selected cycle's baseline"@,
                RecordError::OtherSource =>
                    "current source state does not match the selected optimization cycle"@,
                RecordError::SourceChanged => "source files changed while measurement set "@
                    + set@ + " was running"@,
            },
    {
        match *self {
            RecordError::Incomplete => {
                let mut out = "measurement set ".to_owned();
                out.append(set);
                out.append(" is incomplete and cannot enter optimization history");
                out
            },
            RecordError::NoEnvironment =>
                "complete measurement set has no environment fingerprint".to_owned(),
            RecordError::OtherCandidate =>
                "comparison candidate does not match the measured source checkpoint".to_owned(),
            RecordError::OtherEnvironment =>
                "comparison environment does not match the measured source checkpoint".to_owned(),
            RecordError::MissingEngine =>
                "comparison summary does not contain every required browser engine".to_owned(),
            RecordError::OtherVariant =>
                "confirmation does not measure the selected cycle's source variant".to_owned(),
            RecordError::NoBaseline =>
                "an initial baseline cycle does not need confirmation".to_owned(),
            RecordError::OtherBaseline =>
                "confirmation was not compared with the selected cycle's baseline".to_owned(),
            RecordError::OtherSource =>
                "current source state does not match the selected optimization cycle".to_owned(),
            RecordError::SourceChanged => {
                let mut out = "source files changed while measurement set ".to_owned();
                out.append(set);
                out.append(" was running");
                out
            },
        }
    }
}

impl FindError {
    /// What is said of the error about a cycle.
    pub fn message(&self, cycle: &str) -> (r: String)
        ensures
            r@ == match *self {
                FindError::Ambiguous => "cycle ID "@ + text::quoted(cycle@)
                    + " appears in more than one history"@,
                FindError::Unknown => "no optimization cycle "@ + text::quoted(cycle@),
            },
    {
        match *self {
            FindError::Ambiguous => {
                let mut out = "cycle ID ".to_owned();
                out.append(&text::quote(cycle));
                out.append(" appears in more than one history");
                out
            },
            FindError::Unknown => {
                let mut out = "no optimization cycle ".to_owned();
                out.append(&text::quote(cycle));
                out
            },
        }
    }
}

impl lineage::AppendError {
    /// What is said of the error about a benchmark.
    pub fn message(&self, benchmark: &str) -> (r: String)
        ensures
            r@ == match *self {
                lineage::AppendError::InvalidBenchmark => "benchmark "@ + text::quoted(benchmark@)
                    + " is not a valid bperf identifier"@,
                lineage::AppendError::OtherMeasurement =>
                    "accepted baseline does not match cycle candidate"@,
            },
    {
        match *self {
            lineage::AppendError::InvalidBenchmark => {
                let mut out = "benchmark ".to_owned();
                out.append(&text::quote(benchmark));
                out.append(" is not a valid bperf identifier");
                out
            },
            lineage::AppendError::OtherMeasurement =>
                "accepted baseline does not match cycle candidate".to_owned(),
        }
    }
}

impl DescriptionError {
    /// What is said of the error, given the lock or the file that it is about.
    pub fn message(&self, path: &str) -> (r: String)
        ensures
            r@ == match *self {
                DescriptionError::Schema(version) => "unsupported managed benchmark schema "@
                    + text::decimal(version as nat) + "; expected 1"@,
                DescriptionError::NoCases => "managed benchmark contains no cases"@,
                DescriptionError::NoSourceFiles => "managed benchmark resolved no source files"@,
                DescriptionError::NoFixtureLock =>
                    "managed benchmark fixture lock does not exist: "@ + path@,
                DescriptionError::MissingFile(_) =>
                    "managed benchmark identity file is missing: "@ + path@,
            },
    {
        match *self {
            DescriptionError::Schema(version) => {
                let mut out = "unsupported managed benchmark schema ".to_owned();
                out.append(&text::decimal_text(version as u64));
                out.append("; expected 1");
                out
            },
            DescriptionError::NoCases => "managed benchmark contains no cases".to_owned(),
            DescriptionError::NoSourceFiles =>
                "managed benchmark resolved no source files".to_owned(),
            DescriptionError::NoFixtureLock => {
                let mut out = "managed benchmark fixture lock does not exist: ".to_owned();
                out.append(path);
                out
            },
            DescriptionError::MissingFile(_) => {
                let mut out = "managed benchmark identity file is missing: ".to_owned();
                out.append(path);
                out
            },
        }
    }
}

impl ConfirmError {
    /// What is said of the error about a cycle, the baseline that it was compared with, and the
    /// current baseline.
    pub fn message(&self, cycle: &str, baseline: &str, current: &str) -> (r: String)
        ensures
            r@ == match *self {
                ConfirmError::OtherSource => "current benchmark source does not match cycle "@
                    + cycle@,
                ConfirmError::OtherBaseline => "cycle "@ + cycle@
                    + " was compared with baseline "@ + baseline@
                    + ", but the current baseline is "@ + current@,
            },
    {
        match *self {
            ConfirmError::OtherSource => {
                let mut out = "current benchmark source does not match cycle ".to_owned();
                out.append(cycle);
                out
            },
            ConfirmError::OtherBaseline => {
                let mut out = "cycle ".to_owned();
                out.append(cycle);
                out.append(" was compared with baseline ");
                out.append(baseline);
                out.append(", but the current baseline is ");
                out.append(current);
                out
            },
        }
    }
}

impl IndexError {
    /// What is said of the error, given the path of the summary.
    pub fn message(&self, summary: &str) -> (r: String)
        ensures
            r@ == match *self {
                IndexError::NoTimestamp => "measurement index has no creation timestamp"@,
                IndexError::UnsupportedExitCode(code) =>
                    "measurement index has unsupported exit code "@ + text::decimal(code as nat),
                IndexError::NoSummary => "measurement index summary does not exist: "@ + summary@,
                IndexError::NoArtifactRoot => "measurement set has no artifact root"@,
            },
    {
        match *self {
            IndexError::NoTimestamp => "measurement index has no creation timestamp".to_owned(),
            IndexError::UnsupportedExitCode(code) => {
                let mut out = "measurement index has unsupported exit code ".to_owned();
                out.append(&text::decimal_text(code as u64));
                out
            },
            IndexError::NoSummary => {
                let mut out = "measurement index summary does not exist: ".to_owned();
                out.append(summary);
                out
            },
            IndexError::NoArtifactRoot => "measurement set has no artifact root".to_owned(),
        }
    }
}

impl OutputError {
    /// What is said of the error, given the name of the output.
    pub fn message(&self, name: &str) -> (r: String)
        ensures
            r@ == match *self {
                OutputError::Count =>
                    "benchmark bundle must produce exactly one JavaScript output"@,
                OutputError::Name => "benchmark bundle produced an unexpected output "@ + name@,
            },
    {
        match *self {
            OutputError::Count =>
                "benchmark bundle must produce exactly one JavaScript output".to_owned(),
            OutputError::Name => {
                let mut out = "benchmark bundle produced an unexpected output ".to_owned();
                out.append(name);
                out
            },
        }
    }
}

impl WorkloadError {
    /// What is said of the error about a workload and its file.
    pub fn message(&self, workload: &str, path: &str) -> (r: String)
        ensures
            r@ == match *self {
                WorkloadError::InvalidLine(line) => "invalid JSON in "@ + path@ + " at line "@
                    + text::decimal(line as nat),
                WorkloadError::NoOperations => "workload "@ + text::quoted(workload@)
                    + " contains no operations"@,
            },
    {
        match *self {
            WorkloadError::InvalidLine(line) => {
                let mut out = "invalid JSON in ".to_owned();
                out.append(path);
                out.append(" at line ");
                out.append(&text::decimal_text(line as u64));
                out
            },
            WorkloadError::NoOperations => {
                let mut out = "workload ".to_owned();
                out.append(&text::quote(workload));
                out.append(" contains no operations");
                out
            },
        }
    }
}

impl OutsideWorkspace {
    /// What is said of a benchmark outside a workspace.
    pub fn message(&self, benchmark: &str, root: &str) -> (r: String)
        ensures
            r@ == "benchmark "@ + benchmark@ + " is outside the current workspace "@ + root@,
    {
        let mut out = "benchmark ".to_owned();
        out.append(benchmark);
        out.append(" is outside the current workspace ");
        out.append(root);
        out
    }
}

impl MessageTooLong {
    /// What is said of a message that is too long.
    pub fn message(&self) -> (r: String)
        ensures
            r@ == "optimization message exceeds "@ + text::decimal(
                lineage::MAX_MESSAGE_BYTES as nat,
            ) + " bytes"@,
    {
        let mut out = "optimization message exceeds ".to_owned();
        out.append(&text::decimal_text(lineage::MAX_MESSAGE_BYTES as u64));
        out.append(" bytes");
        out
    }
}

} // verus!
