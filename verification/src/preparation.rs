//! What a measurement set is called, which trials it plans, and how its files are written.

use vstd::prelude::*;
use vstd::string::*;
use vstd::utf8::*;

use crate::digest;
use crate::manifest;
use crate::manifest::{BenchmarkManifest, SamplesError, SubjectMismatch, VariantDescriptor};
use crate::schedule;
use crate::schedule::{MeasurementSchedule, SamplingSchedule, MEASUREMENT_SCHEMA_VERSION};
use crate::text;

verus! {

/// What is validated: a benchmark, and where one is given a variant of it.
#[derive(Clone, Debug)]
pub struct ValidateOptions {
    pub benchmark: String,
    pub variant: Option<String>,
    pub json: bool,
}

/// What is planned: the measurement of a variant.
#[derive(Clone, Debug)]
pub struct PlanOptions {
    pub benchmark: String,
    pub variant: String,
    pub final_samples: Option<u32>,
    pub artifact_root: String,
    pub json: bool,
}

/// How the number of final trials is to be settled.
#[derive(Clone, Debug)]
pub enum SamplingRequest {
    /// It is this number, or the one that the benchmark fixes.
    Fixed(Option<u32>),
    /// It is as large as a budget allows; a cohort keeps the set apart from others with the same
    /// inputs.
    Adaptive { budget_ms: u64, cohort: Option<String> },
}

/// The trials that a measurement set plans.
#[derive(Clone, Debug)]
pub enum PlannedSampling {
    Fixed { final_samples: u32 },
    Adaptive {
        budget_ms: u64,
        min_final_samples: u32,
        max_final_samples: u32,
        cohort: Option<String>,
    },
}

/// A measurement set that is to be made.
#[derive(Clone, Debug)]
pub struct PlannedSet {
    pub measurement_set_id: String,
    pub sampling: PlannedSampling,
}

/// Why no measurement set can be made.
#[derive(Clone, Copy, Debug, Eq, PartialEq, Structural)]
pub enum PrepareError {
    /// The variant is one of another subject.
    Subject,
    Samples(SamplesError),
    EmptyCohort,
}

/// What is hashed for a cohort.
pub open spec fn cohort_preimage(cohort: Seq<char>) -> Seq<u8> {
    encode_utf8("bperf-measurement-cohort-v1\0"@) + encode_utf8(cohort)
}

/// The short name of a cohort.
pub open spec fn cohort_name(cohort: Seq<char>) -> Seq<char> {
    digest::sha256(cohort_preimage(cohort)).take(12)
}

/// The name of a set up to how many trials it has: both definitions and the seed.
pub open spec fn set_front(benchmark: BenchmarkManifest, variant: VariantDescriptor) -> Seq<char> {
    "measure-v"@ + text::decimal(MEASUREMENT_SCHEMA_VERSION as nat) + "-"@
        + benchmark.source_sha256@.take(12) + "-"@ + variant.source_sha256@.take(12) + "-s"@
        + text::decimal(benchmark.trials.schedule_seed as nat)
}

/// The name of a set with a fixed number of final trials.
pub open spec fn fixed_set_id(
    benchmark: BenchmarkManifest,
    variant: VariantDescriptor,
    final_samples: u32,
) -> Seq<char> {
    set_front(benchmark, variant) + "-n"@ + text::decimal(final_samples as nat)
}

/// The name of a set with a budget.
pub open spec fn adaptive_set_id(
    benchmark: BenchmarkManifest,
    variant: VariantDescriptor,
    budget_ms: u64,
    cohort: Option<Seq<char>>,
) -> Seq<char> {
    let name = set_front(benchmark, variant) + "-b"@ + text::decimal(budget_ms as nat);
    match cohort {
        Some(cohort) => name + "-c"@ + cohort_name(cohort),
        None => name,
    }
}

/// Why no set can be made, if none can.
pub open spec fn prepare_failure(
    benchmark: BenchmarkManifest,
    variant: VariantDescriptor,
    request: SamplingRequest,
) -> Option<PrepareError> {
    if variant.subject@ != benchmark.benchmark.subject@ {
        Some(PrepareError::Subject)
    } else {
        match request {
            SamplingRequest::Fixed(requested) => match manifest::final_samples(
                benchmark.trials,
                requested,
            ) {
                Err(error) => Some(PrepareError::Samples(error)),
                Ok(_) => None,
            },
            SamplingRequest::Adaptive { budget_ms, cohort } => if cohort is Some && text::blank(
                cohort->0@,
            ) {
                Some(PrepareError::EmptyCohort)
            } else {
                match manifest::adaptive_range(benchmark.trials) {
                    Err(error) => Some(PrepareError::Samples(error)),
                    Ok(_) => None,
                }
            },
        }
    }
}

/// The set is the one that was asked for.
pub open spec fn is_planned(
    planned: PlannedSet,
    benchmark: BenchmarkManifest,
    variant: VariantDescriptor,
    request: SamplingRequest,
) -> bool {
    match (request, planned.sampling) {
        (SamplingRequest::Fixed(requested), PlannedSampling::Fixed { final_samples }) => {
            &&& manifest::final_samples(benchmark.trials, requested) == Ok::<u32, SamplesError>(
                final_samples,
            )
            &&& planned.measurement_set_id@ == fixed_set_id(benchmark, variant, final_samples)
        },
        (
            SamplingRequest::Adaptive { budget_ms: asked_ms, cohort: asked },
            PlannedSampling::Adaptive { budget_ms, min_final_samples, max_final_samples, cohort },
        ) => {
            &&& budget_ms == asked_ms
            &&& text::opt(cohort) == text::opt(asked)
            &&& manifest::adaptive_range(benchmark.trials) == Ok::<(u32, u32), SamplesError>(
                (min_final_samples, max_final_samples),
            )
            &&& planned.measurement_set_id@ == adaptive_set_id(
                benchmark,
                variant,
                budget_ms,
                text::opt(cohort),
            )
        },
        _ => false,
    }
}

/// The first twelve characters of a text.
fn push_short(out: &mut String, value: &str)
    requires
        value@.len() >= 12,
    ensures
        final(out)@ == old(out)@ + value@.take(12),
{
    let chars = text::chars_of(value);
    let short = text::text_of(chars.as_slice(), 0, 12);
    assert(value@.subrange(0, 12) == value@.take(12));
    out.append(&short);
}

/// The short name of a cohort.
pub fn cohort_key(value: &str) -> (r: String)
    ensures
        r@ == cohort_name(value@),
        r@.len() == 12,
{
    let mut preimage: Vec<u8> = Vec::new();
    digest::push_text(&mut preimage, "bperf-measurement-cohort-v1\0");
    digest::push_text(&mut preimage, value);
    assert(preimage@ == cohort_preimage(value@));
    let hash = digest::sha256_hex(preimage.as_slice());
    let mut out = "".to_owned();
    proof {
        reveal_strlit("");
    }
    push_short(&mut out, &hash);
    assert(out@ == cohort_name(value@));
    out
}

fn front(benchmark: &BenchmarkManifest, variant: &VariantDescriptor) -> (r: String)
    requires
        benchmark.source_sha256@.len() >= 12,
        variant.source_sha256@.len() >= 12,
    ensures
        r@ == set_front(*benchmark, *variant),
{
    let mut out = "measure-v".to_owned();
    out.append(&text::decimal_text(MEASUREMENT_SCHEMA_VERSION as u64));
    out.append("-");
    push_short(&mut out, &benchmark.source_sha256);
    out.append("-");
    push_short(&mut out, &variant.source_sha256);
    out.append("-s");
    out.append(&text::decimal_text(benchmark.schedule_seed()));
    out
}

/// Settles what a measurement set is called and which trials it plans. Both definitions are
/// identified by their hashes.
pub fn prepare_with_sampling(
    benchmark: &BenchmarkManifest,
    variant: &VariantDescriptor,
    request: &SamplingRequest,
) -> (r: Result<PlannedSet, PrepareError>)
    requires
        benchmark.source_sha256@.len() >= 12,
        variant.source_sha256@.len() >= 12,
    ensures
        match prepare_failure(*benchmark, *variant, *request) {
            Some(error) => r == Err::<PlannedSet, PrepareError>(error),
            None => r is Ok && is_planned(r->Ok_0, *benchmark, *variant, *request),
        },
{
    if benchmark.validate_variant(variant).is_err() {
        return Err(PrepareError::Subject);
    }
    match request {
        SamplingRequest::Fixed(requested) => {
            let final_samples: u32 = match benchmark.resolve_final_samples(*requested) {
                Ok(count) => count,
                Err(error) => {
                    return Err(PrepareError::Samples(error));
                },
            };
            let mut measurement_set_id = front(benchmark, variant);
            measurement_set_id.append("-n");
            measurement_set_id.append(&text::decimal_text(final_samples as u64));
            Ok(PlannedSet { measurement_set_id, sampling: PlannedSampling::Fixed { final_samples } })
        },
        SamplingRequest::Adaptive { budget_ms, cohort } => {
            if let Some(cohort) = cohort {
                proof {
                    text::lemma_trimmed_blank(cohort@);
                }
                if text::trim(cohort).as_str().is_empty() {
                    return Err(PrepareError::EmptyCohort);
                }
            }
            let (min_final_samples, max_final_samples) =
                match benchmark.adaptive_final_sample_range() {
                Ok(range) => range,
                Err(error) => {
                    return Err(PrepareError::Samples(error));
                },
            };
            let mut measurement_set_id = front(benchmark, variant);
            measurement_set_id.append("-b");
            measurement_set_id.append(&text::decimal_text(*budget_ms));
            if let Some(cohort) = cohort {
                measurement_set_id.append("-c");
                measurement_set_id.append(&cohort_key(cohort));
            }
            let cohort: Option<String> = match cohort {
                Some(cohort) => Some(cohort.clone()),
                None => None,
            };
            Ok(
                PlannedSet {
                    measurement_set_id,
                    sampling: PlannedSampling::Adaptive {
                        budget_ms: *budget_ms,
                        min_final_samples,
                        max_final_samples,
                        cohort,
                    },
                },
            )
        },
    }
}

/// A set of a cohort never has the name of the set without one.
pub proof fn cohorts_have_sets_of_their_own(
    benchmark: BenchmarkManifest,
    variant: VariantDescriptor,
    budget_ms: u64,
    cohort: Seq<char>,
)
    ensures
        adaptive_set_id(benchmark, variant, budget_ms, Some(cohort)) != adaptive_set_id(
            benchmark,
            variant,
            budget_ms,
            None,
        ),
{
    reveal_strlit("-c");
    let plain = adaptive_set_id(benchmark, variant, budget_ms, None);
    assert(adaptive_set_id(benchmark, variant, budget_ms, Some(cohort)).len() >= plain.len() + 2);
}

/// Two cohorts are hashed as two different texts.
pub proof fn cohorts_are_told_apart(a: Seq<char>, b: Seq<char>)
    requires
        a != b,
    ensures
        cohort_preimage(a) != cohort_preimage(b),
{
    if cohort_preimage(a) == cohort_preimage(b) {
        let front = encode_utf8("bperf-measurement-cohort-v1\0"@);
        assert(encode_utf8(a) == cohort_preimage(a).skip(front.len() as int));
        assert(encode_utf8(b) == cohort_preimage(b).skip(front.len() as int));
        digest::lemma_utf8_unique(a, b);
    }
}

impl PrepareError {
    /// What is said of the error.
    pub fn message(&self, benchmark: &BenchmarkManifest, variant: &VariantDescriptor) -> (r: String)
        requires
            *self == PrepareError::Samples(SamplesError::UnsupportedMode)
                ==> benchmark.trials.mode is Label,
        ensures
            r@ == match *self {
                PrepareError::Subject => "variant subject "@ + text::quoted(variant.subject@)
                    + " does not match benchmark subject "@ + text::quoted(
                    benchmark.benchmark.subject@,
                ),
                PrepareError::Samples(error) => manifest::samples_error_text(
                    benchmark.trials,
                    error,
                ),
                PrepareError::EmptyCohort => "measurement cohort must not be empty"@,
            },
    {
        match self {
            PrepareError::Subject => SubjectMismatch.message(benchmark, variant),
            PrepareError::Samples(error) => benchmark.describe_samples(*error),
            PrepareError::EmptyCohort => "measurement cohort must not be empty".to_owned(),
        }
    }
}

// Files that are written once.

/// What is done to write a file that never changes.
#[derive(Clone, Copy, Debug, Eq, PartialEq, Structural)]
pub enum WriteStep {
    /// The file is created.
    Create,
    /// The file has the content already.
    Nothing,
}

/// A file that never changes has another content than the one to be written.
#[derive(Clone, Copy, Debug, Eq, PartialEq, Structural)]
pub struct ContentConflict;

impl ContentConflict {
    /// Says which file was not overwritten.
    pub fn message(&self, path: &str) -> (r: String)
        ensures
            r@ == "refusing to overwrite immutable measurement artifact "@ + path@,
    {
        let mut out = "refusing to overwrite immutable measurement artifact ".to_owned();
        out.append(path);
        out
    }
}

/// What is done to write a file that never changes, given what it holds now.
pub open spec fn write_step(existing: Option<Seq<u8>>, content: Seq<u8>) -> Result<
    WriteStep,
    ContentConflict,
> {
    match existing {
        None => Ok(WriteStep::Create),
        Some(existing) => if existing == content {
            Ok(WriteStep::Nothing)
        } else {
            Err(ContentConflict)
        },
    }
}

/// Settles what is done to write a file that never changes: it is created, or it has the content
/// already; other content is never overwritten.
pub fn write_immutable(existing: &Option<Vec<u8>>, content: &[u8]) -> (r: Result<
    WriteStep,
    ContentConflict,
>)
    ensures
        r == write_step(
            match *existing {
                Some(existing) => Some(existing@),
                None => None,
            },
            content@,
        ),
{
    match existing {
        None => Ok(WriteStep::Create),
        Some(found) => {
            if found.len() != content.len() {
                return Err(ContentConflict);
            }
            let mut i: usize = 0;
            while i < content.len()
                invariant
                    i <= content@.len(),
                    *existing == Some(*found),
                    found@.len() == content@.len(),
                    found@.take(i as int) == content@.take(i as int),
                decreases content@.len() - i,
            {
                if found[i] != content[i] {
                    assert(found@[i as int] != content@[i as int]);
                    return Err(ContentConflict);
                }
                assert(found@.take(i + 1) == found@.take(i as int).push(found@[i as int]));
                assert(content@.take(i + 1) == content@.take(i as int).push(content@[i as int]));
                i += 1;
            }
            assert(found@.take(content@.len() as int) == found@);
            assert(content@.take(content@.len() as int) == content@);
            Ok(WriteStep::Nothing)
        },
    }
}

/// Writing a file that never changes twice leaves it as it was, and writing anything else after it
/// is refused.
pub proof fn immutable_content_stays(content: Seq<u8>, other: Seq<u8>)
    ensures
        write_step(None, content) == Ok::<WriteStep, ContentConflict>(WriteStep::Create),
        write_step(Some(content), content) == Ok::<WriteStep, ContentConflict>(WriteStep::Nothing),
        other != content ==> write_step(Some(content), other) == Err::<WriteStep, ContentConflict>(
            ContentConflict,
        ),
{
}

// Schedules.

/// Why a schedule is refused.
#[derive(Clone, Copy, Debug, Eq, PartialEq, Structural)]
pub enum ScheduleError {
    Schema(u32),
    /// The schedule is that of another benchmark.
    Benchmark,
    /// The schedule is that of another variant.
    Variant,
    Samples(SamplesError),
    /// The numbers of trials are not those of the benchmark.
    Policy,
    DuplicateTrials,
}

/// Why a schedule is refused, if it is.
pub open spec fn schedule_failure(
    benchmark: BenchmarkManifest,
    variant: VariantDescriptor,
    measurement: MeasurementSchedule,
) -> Option<ScheduleError> {
    if measurement.schema_version != MEASUREMENT_SCHEMA_VERSION {
        Some(ScheduleError::Schema(measurement.schema_version))
    } else if measurement.benchmark_id@ != benchmark.benchmark.id@ || measurement.subject_id@
        != benchmark.benchmark.subject@ || measurement.benchmark_sha256@
        != benchmark.source_sha256@ {
        Some(ScheduleError::Benchmark)
    } else if measurement.variant_id@ != variant.id@ || measurement.variant_sha256@
        != variant.source_sha256@ {
        Some(ScheduleError::Variant)
    } else if adaptive_failure(benchmark, measurement) is Some {
        adaptive_failure(benchmark, measurement)
    } else if !schedule::distinct_trials(measurement.trials@) {
        Some(ScheduleError::DuplicateTrials)
    } else {
        None
    }
}

/// Why the numbers of trials of an adaptive schedule are refused, if they are.
pub open spec fn adaptive_failure(benchmark: BenchmarkManifest, measurement: MeasurementSchedule) -> Option<
    ScheduleError,
> {
    match measurement.sampling {
        SamplingSchedule::Fixed => None,
        SamplingSchedule::Adaptive { budget_ms, min_final_samples } => {
            match manifest::adaptive_range(benchmark.trials) {
                Err(error) => Some(ScheduleError::Samples(error)),
                Ok(range) => if budget_ms == 0 || min_final_samples != range.0
                    || measurement.final_samples != range.1 {
                    Some(ScheduleError::Policy)
                } else {
                    None
                },
            }
        },
    }
}

/// Checks that a schedule is one of a benchmark and a variant.
pub fn validate_schedule(
    benchmark: &BenchmarkManifest,
    variant: &VariantDescriptor,
    measurement: &MeasurementSchedule,
) -> (r: Result<(), ScheduleError>)
    ensures
        match schedule_failure(*benchmark, *variant, *measurement) {
            Some(error) => r == Err::<(), ScheduleError>(error),
            None => r == Ok::<(), ScheduleError>(()),
        },
{
    if measurement.schema_version != MEASUREMENT_SCHEMA_VERSION {
        return Err(ScheduleError::Schema(measurement.schema_version));
    }
    if !text::same(&measurement.benchmark_id, benchmark.benchmark_id()) || !text::same(
        &measurement.subject_id,
        benchmark.subject_id(),
    ) || !text::same(&measurement.benchmark_sha256, benchmark.source_sha256()) {
        return Err(ScheduleError::Benchmark);
    }
    if !text::same(&measurement.variant_id, variant.id()) || !text::same(
        &measurement.variant_sha256,
        variant.source_sha256(),
    ) {
        return Err(ScheduleError::Variant);
    }
    if let SamplingSchedule::Adaptive { budget_ms, min_final_samples } = measurement.sampling {
        match benchmark.adaptive_final_sample_range() {
            Err(error) => {
                return Err(ScheduleError::Samples(error));
            },
            Ok((low, high)) => {
                if budget_ms == 0 || min_final_samples != low || measurement.final_samples != high {
                    return Err(ScheduleError::Policy);
                }
            },
        }
    }
    if !schedule::trials_distinct(&measurement.trials) {
        return Err(ScheduleError::DuplicateTrials);
    }
    Ok(())
}

impl ScheduleError {
    /// What is said of the error.
    pub fn message(&self, benchmark: &BenchmarkManifest) -> (r: String)
        requires
            *self == ScheduleError::Samples(SamplesError::UnsupportedMode)
                ==> benchmark.trials.mode is Label,
        ensures
            r@ == match *self {
                ScheduleError::Schema(version) => "schedule uses unsupported schema "@
                    + text::decimal(version as nat),
                ScheduleError::Benchmark =>
                    "schedule and resolved benchmark identities do not match"@,
                ScheduleError::Variant => "schedule and resolved variant identities do not match"@,
                ScheduleError::Samples(error) => manifest::samples_error_text(
                    benchmark.trials,
                    error,
                ),
                ScheduleError::Policy =>
                    "adaptive schedule does not match the resolved benchmark policy"@,
                ScheduleError::DuplicateTrials => "schedule contains duplicate trial identifiers"@,
            },
    {
        match self {
            ScheduleError::Schema(version) => {
                let mut out = "schedule uses unsupported schema ".to_owned();
                out.append(&text::decimal_text(*version as u64));
                out
            },
            ScheduleError::Benchmark =>
                "schedule and resolved benchmark identities do not match".to_owned(),
            ScheduleError::Variant =>
                "schedule and resolved variant identities do not match".to_owned(),
            ScheduleError::Samples(error) => benchmark.describe_samples(*error),
            ScheduleError::Policy =>
                "adaptive schedule does not match the resolved benchmark policy".to_owned(),
            ScheduleError::DuplicateTrials =>
                "schedule contains duplicate trial identifiers".to_owned(),
        }
    }
}

} // verus!
