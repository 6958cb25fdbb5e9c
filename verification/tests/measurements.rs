use bperf::artifact_retention::{
    self, ArtifactEntry, ArtifactRetention, Diagnostic, EntryAction, EntryError, GroupSpread,
    Mismatch, RetentionError, RetentionGroup, SettleError, Settlement, Spread,
};
use bperf::browser_lab::{
    ArtifactEvidence, ArtifactFile, ArtifactKind, BrowserEvidence, CaptureCapabilities,
    CaptureEvidence, Engine, EvidenceError, MetricValue, RuntimeAnchorEvidence, RuntimeEvidence,
    Viewport,
};
use bperf::environment::{self, CaptureStep, EnvironmentError, EnvironmentRecord};
use bperf::manifest::{
    BenchmarkIdentity, BenchmarkManifest, BrowserSpec, BuiltInVerifier, CapturesSpec,
    MetricPolicy, StatisticsSpec, TrialCount, TrialsSpec, VariantAdapterSpec, VariantDescriptor,
    VerifierSpec, WorkloadSpec, SCHEMA_VERSION,
};
use bperf::measurement::{
    self, CommitStep, DecodedResult, MeasurementSet, PilotStratum, Refusal, ResultError, RetentionMissing,
    ScratchDirectory, ScratchError, TrialResult,
};
use bperf::measurement_log::{AppendError, OpenError, SamplingError, SetParts};
use bperf::number::Number;
use bperf::reports;
use bperf::runner::{self, RunStep};
use bperf::schedule::{
    MeasurementSchedule, SamplingDecision, SamplingSchedule, SamplingStratum, ScheduledTrial,
    TrialPhase, MEASUREMENT_SCHEMA_VERSION,
};
use sha2::{Digest, Sha256};

fn number(value: f64) -> Number {
    Number { bits: value.to_bits() }
}

fn value(number: Number) -> f64 {
    f64::from_bits(number.bits)
}

fn benchmark() -> BenchmarkManifest {
    let decoded = BenchmarkManifest {
        schema_version: SCHEMA_VERSION,
        benchmark: BenchmarkIdentity {
            id: "browser-operation-benchmark".to_owned(),
            subject: "browser-operation-adapter".to_owned(),
        },
        workloads: vec![WorkloadSpec {
            id: "checkout-flow".to_owned(),
            trace_file: "trace.json".to_owned(),
            identity_files: vec![],
            verifier: VerifierSpec::BuiltIn(BuiltInVerifier::Exact),
        }],
        browser: BrowserSpec {
            engines: Engine::all(),
            mode: "headless".to_owned(),
            viewport: Viewport { width: 1280, height: 720 },
            locale: "en-US".to_owned(),
            timezone: "UTC".to_owned(),
            color_scheme: "light".to_owned(),
            cache: "cold".to_owned(),
            network_policy: "local-only".to_owned(),
            fresh_profile_per_trial: true,
        },
        captures: CapturesSpec { cpu_profile: true, js_heap: true },
        trials: TrialsSpec {
            mode: TrialCount::Label("auto".to_owned()),
            randomize_order: false,
            schedule_seed: 7,
            warmup_samples: 3,
            pilot_samples: 10,
            min_final_samples: 20,
            max_final_samples: 100,
        },
        statistics: StatisticsSpec {
            confidence: number(0.95),
            bootstrap_samples: 10_000,
            primary_metrics: vec!["workload.wall_ms".to_owned()],
            minimum_effect_pct: vec![MetricPolicy {
                name: "workload.wall_ms".to_owned(),
                minimum_effect_pct: number(5.0),
            }],
            minimum_success_rate: number(1.0),
            max_regression_percentage_points: number(0.0),
            cross_engine_policy: "strict_all".to_owned(),
            protected_metric_max_regression_pct: number(10.0),
        },
        source_path: String::new(),
        source_sha256: String::new(),
    };
    let mut manifest = BenchmarkManifest::load(decoded, "/fixture/benchmark.yaml").unwrap();
    manifest.identify(b"benchmark", &vec![b"trace".to_vec()]);
    manifest
}

fn variant() -> VariantDescriptor {
    let decoded = VariantDescriptor {
        schema_version: SCHEMA_VERSION,
        id: "browser-operation-main".to_owned(),
        subject: "browser-operation-adapter".to_owned(),
        adapter: VariantAdapterSpec {
            command: vec!["node".to_owned()],
            ready_protocol: "stdio-json".to_owned(),
            ready_timeout_seconds: 30,
        },
        implementation_files: vec!["adapter.mjs".to_owned()],
        source_path: String::new(),
        source_sha256: String::new(),
    };
    let mut variant = VariantDescriptor::load(decoded, "/fixture/variant.yaml").unwrap();
    variant.identify(b"variant", &vec![b"adapter".to_vec()]);
    variant
}

fn trials(final_samples: u32) -> Vec<ScheduledTrial> {
    let mut trials = Vec::new();
    for (phase, name, count) in [
        (TrialPhase::Warmup, "warmup", 3),
        (TrialPhase::Pilot, "pilot", 10),
        (TrialPhase::Final, "final", final_samples),
    ] {
        for sample_index in 1..=count {
            for engine in Engine::all() {
                trials.push(ScheduledTrial {
                    trial_id: format!(
                        "{name}-checkout-flow-{}-{sample_index:04}",
                        engine.as_str()
                    ),
                    workload_id: "checkout-flow".to_owned(),
                    engine,
                    phase,
                    sample_index,
                });
            }
        }
    }
    trials
}

fn parts(adaptive: bool, final_samples: u32) -> SetParts {
    let benchmark = benchmark();
    let variant = variant();
    SetParts {
        root: "/data/measurements/measure-1".to_owned(),
        schedule: MeasurementSchedule {
            schema_version: MEASUREMENT_SCHEMA_VERSION,
            measurement_set_id: "measure-1".to_owned(),
            benchmark_id: benchmark.benchmark_id().to_owned(),
            subject_id: benchmark.subject_id().to_owned(),
            variant_id: variant.id().to_owned(),
            benchmark_sha256: benchmark.source_sha256().to_owned(),
            variant_sha256: variant.source_sha256().to_owned(),
            final_samples,
            sampling: if adaptive {
                SamplingSchedule::Adaptive { budget_ms: 3_600_000, min_final_samples: 20 }
            } else {
                SamplingSchedule::Fixed
            },
            cohort: None,
            trials: trials(final_samples),
        },
        benchmark,
        variant,
        sampling: None,
        lines: vec![],
        retention: None,
    }
}

fn artifacts(trial_id: &str) -> Vec<ArtifactEvidence> {
    [
        (ArtifactKind::CpuProfile, "cpu"),
        (ArtifactKind::JsHeap, "heap"),
        (ArtifactKind::Flamegraph, "flamegraph"),
    ]
    .into_iter()
    .map(|(kind, name)| {
        let bytes = format!("{trial_id}-{name}").into_bytes();
        ArtifactEvidence {
            kind,
            path: format!("artifacts/{trial_id}/{name}.txt"),
            size_bytes: bytes.len() as u64,
            sha256: format!("{:x}", Sha256::digest(&bytes)),
            format: "synthetic".to_owned(),
        }
    })
    .collect()
}

fn files(artifacts: &[ArtifactEvidence]) -> Vec<ArtifactFile> {
    artifacts
        .iter()
        .map(|artifact| ArtifactFile {
            exists: true,
            contained: true,
            size_bytes: artifact.size_bytes,
            sha256: artifact.sha256.clone(),
        })
        .collect()
}

fn metrics(cpu: f64, heap: f64, wall: f64) -> Vec<MetricValue> {
    [
        ("workload.wall_ms", wall),
        ("variant.call_wall_ms", wall / 2.0),
        ("browser.cpu_profile.active_ms", cpu),
        ("browser.js_heap.live_bytes", heap),
        ("bperf.capture.elapsed_ms", 30.0),
        ("bperf.batch_size", 1.0),
        ("bperf.trial.elapsed_ms", 30.0),
    ]
    .into_iter()
    .map(|(name, value)| MetricValue { name: name.to_owned(), value: number(value) })
    .collect()
}

fn result(trial: &ScheduledTrial, attempt: u32) -> TrialResult {
    TrialResult {
        schema_version: MEASUREMENT_SCHEMA_VERSION,
        measurement_set_id: "measure-1".to_owned(),
        trial_id: trial.trial_id.clone(),
        attempt,
        workload_id: trial.workload_id.clone(),
        engine: trial.engine,
        phase: trial.phase,
        sample_index: trial.sample_index,
        environment_fingerprint: "test-environment".to_owned(),
        valid: true,
        success: true,
        failure_category: None,
        failure_detail: None,
        invalidation_reason: None,
        metrics: metrics(100.0, 100.0, 100.0),
        artifacts: artifacts(&trial.trial_id),
    }
}

/// Appends one valid result for every pending trial, and opens the set again.
fn append_pending(
    parts: &mut SetParts,
    continuing: &Vec<PilotStratum>,
    change: impl Fn(&mut TrialResult),
) -> MeasurementSet {
    let set = MeasurementSet::open(parts.clone()).unwrap();
    for place in set.pending_trials(continuing) {
        let mut recorded = result(&set.schedule.trials[place], 1);
        change(&mut recorded);
        let found = files(&recorded.artifacts);
        assert_eq!(set.append_result(&recorded, &found), Ok(()));
        parts.lines.push(DecodedResult {
            number: parts.lines.len() + 1,
            result: Some(recorded),
            files: found,
        });
    }
    MeasurementSet::open(parts.clone()).unwrap()
}

fn strata(engines: &[Engine]) -> Vec<PilotStratum> {
    engines
        .iter()
        .map(|engine| PilotStratum { workload_id: "checkout-flow".to_owned(), engine: *engine })
        .collect()
}

fn decision(pilot_samples: u32) -> SamplingDecision {
    SamplingDecision {
        strata: Engine::all()
            .into_iter()
            .map(|engine| SamplingStratum {
                workload_id: "checkout-flow".to_owned(),
                engine,
                pilot_samples,
                final_samples: 20,
                batch_size: 4,
                pilot_stop_reason: "stable".to_owned(),
            })
            .collect(),
        selected_final_trials: 60,
        required_final_trials: 60,
        budget_limited: false,
    }
}

fn stable() -> Vec<Option<String>> {
    vec![Some("stable".to_owned()); 3]
}

#[test]
fn adaptive_resume_activates_only_the_locked_final_prefixes() {
    let mut parts = parts(true, 100);
    let mut calibrated = MeasurementSet::open(parts.clone()).unwrap();
    assert!(calibrated.needs_sampling_decision());
    assert_eq!(calibrated.pending_trials(&strata(&Engine::all())).len(), 9);
    let mut continuing = strata(&Engine::all());
    while !calibrated.calibration_is_complete(&continuing) {
        calibrated = append_pending(&mut parts, &continuing, |_| ());
        if calibrated.pilot_results("checkout-flow", Engine::Firefox).len() == 5 {
            continuing.clear();
        }
    }
    assert!(calibrated.calibration_is_complete(&continuing));
    assert_eq!(calibrated.calibration_results().len(), 24);

    let mut unsupported_prefix = decision(5);
    unsupported_prefix.strata[0].pilot_samples += 1;
    let error = calibrated
        .record_sampling_decision(&unsupported_prefix, &continuing, &stable())
        .unwrap_err();
    assert_eq!(error, SamplingError::PilotPrefix(24));
    assert!(error
        .message("", "checkout-flow", Engine::Chromium)
        .contains("does not match its locked prefix"));
    assert_eq!(
        calibrated.record_sampling_decision(&decision(5), &continuing, &vec![None; 3]),
        Err(SamplingError::StopReason(0))
    );
    assert_eq!(
        calibrated.record_sampling_decision(&decision(5), &strata(&[Engine::Webkit]), &stable()),
        Err(SamplingError::CalibrationIncomplete)
    );

    assert_eq!(
        calibrated.record_sampling_decision(&decision(5), &continuing, &stable()),
        Ok(())
    );
    parts.sampling = Some(decision(5));

    let selected = MeasurementSet::open(parts.clone()).unwrap();
    assert_eq!(selected.check_sampling(&stable()), Ok(()));
    assert_eq!(selected.pending_trials(&continuing).len(), 60);
    assert_eq!(selected.active_trial_count(), 84);
    assert_eq!(selected.schedule.trials.len(), 339);
    let last = selected.schedule.trials.last().unwrap();
    assert!(!selected.trial_is_active(last));
    assert_eq!(selected.trial_batches(last, number(50.0), 64).size, 4);

    let completed = append_pending(&mut parts, &continuing, |_| ());
    assert!(completed.final_is_complete());
    assert!(completed.pending_trials(&continuing).is_empty());
    assert_eq!(completed.completed_active_trial_count(), 84);
    assert_eq!(parts.lines.len(), 84);
    assert_eq!(
        completed.record_sampling_decision(&decision(5), &continuing, &stable()),
        Err(SamplingError::NotNeeded)
    );
}

#[test]
fn stable_pilot_strata_stop_while_noisy_strata_continue() {
    let mut parts = parts(true, 100);
    let mut measurement = append_pending(&mut parts, &strata(&Engine::all()), |_| ());
    for _ in 0..5 {
        measurement = append_pending(&mut parts, &strata(&Engine::all()), |result| {
            let noisy = result.engine == Engine::Firefox && result.sample_index == 5;
            let observed = if noisy { 400.0 } else { 100.0 };
            result.metrics = metrics(observed, observed, observed);
        });
    }
    let pending = measurement.pending_trials(&strata(&[Engine::Firefox]));
    assert_eq!(
        pending
            .iter()
            .map(|place| measurement.schedule.trials[*place].trial_id.as_str())
            .collect::<Vec<_>>(),
        vec!["pilot-checkout-flow-firefox-0006"]
    );
    assert_eq!(measurement.pilot_strata().len(), 3);
}

#[test]
fn execution_scratch_survives_until_retained_evidence_is_complete() {
    let mut parts = parts(false, 20);
    let none = vec![];
    let measurement = MeasurementSet::open(parts.clone()).unwrap();
    assert_eq!(measurement.commit_outcome(&none), Ok(CommitStep::KeepScratch));

    let completed = append_pending(&mut parts, &none, |_| ());
    assert_eq!(completed.commit_outcome(&none), Err(RetentionMissing));
    assert!(!RetentionMissing.message().is_empty());
    parts.retention = Some(retention_of(&completed));
    let retained = MeasurementSet::open(parts.clone()).unwrap();
    assert_eq!(retained.commit_outcome(&none), Ok(CommitStep::DiscardScratch));
    let present = ScratchDirectory {
        exists: true,
        symbolic_link: false,
        directory: true,
        below_root: true,
    };
    assert_eq!(measurement::remove_measurement_directory(present), Ok(true));
    let gone = ScratchDirectory { exists: false, ..present };
    assert_eq!(measurement::remove_measurement_directory(gone), Ok(false));
    let link = ScratchDirectory { symbolic_link: true, ..present };
    let error = measurement::remove_measurement_directory(link).unwrap_err();
    assert_eq!(error, ScratchError::NotADirectory);
    let outside = ScratchDirectory { below_root: false, ..present };
    let error = measurement::remove_measurement_directory(outside).unwrap_err();
    assert_eq!(error, ScratchError::Escaped);
    assert!(error.message("/data/x", "/data").contains("/data"));
}

fn spread(values: &[f64]) -> Spread {
    let mut sorted = values.to_vec();
    sorted.sort_by(f64::total_cmp);
    let middle = sorted.len() / 2;
    let mean = (sorted[(sorted.len() - 1) / 2] + sorted[middle]) / 2.0;
    Spread {
        mean: number(mean),
        distances: values.iter().map(|value| number((value - mean).abs())).collect(),
    }
}

fn retention_of(set: &MeasurementSet) -> ArtifactRetention {
    let attempts = &set.results.attempts;
    let groups = artifact_retention::groups(&set.schedule, attempts);
    let spreads = groups
        .iter()
        .map(|group| {
            let of = |diagnostic| {
                let values: Vec<f64> = group
                    .values(attempts, diagnostic)
                    .unwrap()
                    .into_iter()
                    .map(value)
                    .collect();
                spread(&values)
            };
            GroupSpread { cpu: of(Diagnostic::Cpu), heap: of(Diagnostic::Heap) }
        })
        .collect();
    artifact_retention::build_manifest_from(&set.schedule, attempts, &groups, &spreads).unwrap()
}

#[test]
fn completed_measurements_keep_median_representatives() {
    let mut parts = parts(false, 21);
    let none = vec![];
    let completed = append_pending(&mut parts, &none, |result| {
        let (cpu, heap) = if result.phase == TrialPhase::Final {
            (
                f64::from(result.sample_index),
                f64::from((result.sample_index + 5) % 21 + 1),
            )
        } else {
            (11.0, 11.0)
        };
        result.metrics = metrics(cpu, heap, 20.0);
    });
    let manifest = retention_of(&completed);
    assert_eq!(manifest.summary.retained_artifacts, manifest.selections.len());
    assert!(manifest.summary.discarded_artifacts > 0);
    assert_eq!(
        manifest.summary.retained_artifacts + manifest.summary.discarded_artifacts,
        3 * completed.results.attempts.len()
    );
    assert_eq!(manifest.selections.len(), 9);
    for selection in &manifest.selections {
        let expected_sample = match selection.artifact.kind {
            ArtifactKind::CpuProfile | ArtifactKind::Flamegraph => "0011",
            ArtifactKind::JsHeap => "0005",
        };
        assert!(selection.trial_id.ends_with(expected_sample));
        assert_eq!(value(selection.median_value), 11.0);
        assert_eq!(value(selection.observed_value), 11.0);
    }
    assert!(artifact_retention::is_supported(&manifest));
    parts.retention = Some(manifest.clone());
    MeasurementSet::open(parts).unwrap();

    let close = vec![true; 9];
    let kept: Vec<ArtifactEvidence> =
        manifest.selections.iter().map(|selection| selection.artifact.clone()).collect();
    let present = files(&kept);
    assert_eq!(artifact_retention::validate(&manifest, &manifest, &close, &present), Ok(()));

    let mut changed = manifest.clone();
    changed.selections[0].trial_id.push_str("-different");
    let error = artifact_retention::validate(&changed, &manifest, &close, &present).unwrap_err();
    assert_eq!(error, SettleError::Mismatch(Mismatch::Representative(0)));
    assert!(Mismatch::Representative(0).message().contains("representative 1 changed"));

    let mut missing = present.clone();
    missing[0].exists = false;
    assert_eq!(
        artifact_retention::validate(&manifest, &manifest, &close, &missing),
        Err(SettleError::File(EvidenceError::ArtifactMissing(0)))
    );
    assert_eq!(EvidenceError::ArtifactMissing(0).place(), Some(0));
    assert_eq!(EvidenceError::ArtifactSet.place(), None);
    assert_eq!(
        manifest.selections[0].refusal(),
        format!(
            "retained artifact {} for trial {} is invalid",
            manifest.selections[0].artifact.path, manifest.selections[0].trial_id
        )
    );

    assert_eq!(
        artifact_retention::settle(&None, &manifest, &close, &present),
        Ok(Settlement::Write)
    );
    assert_eq!(
        artifact_retention::settle(&Some(manifest.clone()), &manifest, &close, &present),
        Ok(Settlement::Stored)
    );
    let mut far = close.clone();
    far[3] = false;
    assert_eq!(
        artifact_retention::manifest_mismatch(&manifest, &manifest, &far),
        Some(Mismatch::Values(3))
    );
    let mut shorter = manifest.clone();
    shorter.selections.pop();
    assert_eq!(
        artifact_retention::manifest_mismatch(&shorter, &manifest, &close),
        Some(Mismatch::Count)
    );
    let mut elsewhere = manifest.clone();
    elsewhere.measurement_set_id.push('2');
    assert_eq!(
        artifact_retention::manifest_mismatch(&elsewhere, &manifest, &close),
        Some(Mismatch::Header)
    );
    let mut recounted = manifest.clone();
    recounted.summary.discarded_bytes += 1;
    assert_eq!(
        artifact_retention::manifest_mismatch(&recounted, &manifest, &close),
        Some(Mismatch::Totals)
    );
}

#[test]
fn representatives_need_their_metrics_and_artifacts() {
    let trial = &trials(1)[39 - 1];
    assert_eq!(trial.phase, TrialPhase::Pilot);
    let final_trial = trials(1).pop().unwrap();
    let mut attempts = vec![result(&final_trial, 1)];
    let group = || RetentionGroup {
        workload_id: "checkout-flow".to_owned(),
        engine: Engine::Webkit,
        results: vec![0],
    };
    let spreads = || vec![GroupSpread { cpu: spread(&[100.0]), heap: spread(&[100.0]) }];
    let schedule = parts(false, 1).schedule;
    let build = |attempts: &Vec<TrialResult>| {
        artifact_retention::build_manifest_from(&schedule, attempts, &vec![group()], &spreads())
    };
    assert_eq!(build(&attempts).unwrap().selections.len(), 3);
    let complete = attempts[0].clone();
    attempts[0].artifacts.remove(1);
    assert_eq!(
        build(&attempts).unwrap_err(),
        RetentionError::NoArtifact { group: 0, member: 0, kind: ArtifactKind::JsHeap }
    );
    attempts[0] = complete;
    attempts[0].metrics.retain(|metric| metric.name != "browser.js_heap.live_bytes");
    assert_eq!(group().values(&attempts, Diagnostic::Heap).unwrap_err(), 0);
    assert_eq!(
        build(&attempts).unwrap_err(),
        RetentionError::NoMetric { group: 0, member: 0, diagnostic: Diagnostic::Heap }
    );
    assert!(RetentionError::BytesOverflow.message("").contains("overflow"));
}

#[test]
fn medians_lie_in_the_middle() {
    let values: Vec<Number> = [3.0, 1.0, 2.0, 10.0].into_iter().map(number).collect();
    let (low, high) = artifact_retention::middle_values(&values);
    assert_eq!((value(low), value(high)), (2.0, 3.0));
    assert_eq!(value(artifact_retention::median(&values, number(2.5))), 2.5);
    let odd: Vec<Number> = [3.0, 1.0, 2.0].into_iter().map(number).collect();
    assert_eq!(value(artifact_retention::median(&odd, number(99.0))), 2.0);
}

#[test]
fn only_files_that_are_not_kept_are_removed() {
    let kept = ArtifactEntry {
        symbolic_link: false,
        directory: false,
        contained: true,
        retained: true,
    };
    assert_eq!(artifact_retention::prune(kept), Ok(EntryAction::Keep));
    let loose = ArtifactEntry { retained: false, ..kept };
    assert_eq!(artifact_retention::prune(loose), Ok(EntryAction::Remove));
    let directory = ArtifactEntry { directory: true, ..loose };
    assert_eq!(artifact_retention::prune(directory), Ok(EntryAction::Descend));
    let link = ArtifactEntry { symbolic_link: true, ..loose };
    let error = artifact_retention::prune(link).unwrap_err();
    assert_eq!(error, EntryError::SymbolicLink);
    assert!(error.message("/m/a", "/m").contains("/m/a"));
    let outside = ArtifactEntry { contained: false, ..loose };
    assert_eq!(artifact_retention::prune(outside), Err(EntryError::Escaped));
}

fn opened(change: impl Fn(&mut TrialResult)) -> OpenError {
    let mut parts = parts(false, 1);
    let mut recorded = result(&parts.schedule.trials[0], 1);
    change(&mut recorded);
    let found = files(&recorded.artifacts);
    parts.lines.push(DecodedResult { number: 1, result: Some(recorded), files: found });
    MeasurementSet::open(parts).unwrap_err()
}

#[test]
fn results_are_refused_for_their_first_fault() {
    let refused = |change: fn(&mut TrialResult)| match opened(change) {
        OpenError::Result(refusal) => {
            assert_eq!(refusal.line, 0);
            refusal.error
        }
        other => panic!("{other:?}"),
    };
    assert_eq!(refused(|r| r.schema_version = 6), ResultError::Schema(6));
    assert_eq!(refused(|r| r.measurement_set_id.push('2')), ResultError::OtherSet);
    assert_eq!(refused(|r| r.attempt = 0), ResultError::AttemptZero);
    assert_eq!(refused(|r| r.trial_id.push('x')), ResultError::UnknownTrial);
    assert_eq!(refused(|r| r.engine = Engine::Webkit), ResultError::OtherTrial);
    assert_eq!(
        refused(|r| r.environment_fingerprint.clear()),
        ResultError::NoEnvironment
    );
    assert_eq!(
        refused(|r| {
            r.valid = false;
            r.success = false;
            r.metrics.clear();
            r.artifacts.clear();
        }),
        ResultError::NoInvalidationReason
    );
    assert_eq!(
        refused(|r| r.invalidation_reason = Some("late".to_owned())),
        ResultError::UnexpectedInvalidationReason
    );
    assert_eq!(refused(|r| r.success = false), ResultError::NoFailureCategory);
    assert_eq!(
        refused(|r| r.failure_category = Some("verifier".to_owned())),
        ResultError::UnexpectedFailureCategory
    );
    assert_eq!(
        refused(|r| r.failure_detail = Some("why".to_owned())),
        ResultError::UnexpectedFailureDetail
    );
    assert_eq!(
        refused(|r| r.metrics[2].value = number(f64::NAN)),
        ResultError::InvalidMetric(2)
    );
    assert_eq!(
        refused(|r| {
            r.metrics.remove(0);
        }),
        ResultError::NoPrimaryMetric(0)
    );
    assert_eq!(
        refused(|r| r.metrics[0].value = number(0.0)),
        ResultError::PrimaryMetricNotPositive(0)
    );
    assert_eq!(
        refused(|r| {
            r.artifacts.pop();
        }),
        ResultError::Artifacts(EvidenceError::ArtifactSet)
    );
    let gap = ResultError::AttemptsNotContiguous { expected: 1, found: 2 };
    assert_eq!(refused(|r| r.attempt = 2), gap);
    assert_eq!(
        gap.message("trial-9", 2, "measure-1", "measure-1", ""),
        "trial-9 attempts are not contiguous: expected 1, found 2"
    );
    assert!(ResultError::UnknownTrial
        .message("trial-9", 1, "measure-1", "measure-1", "")
        .contains("trial-9"));
}

#[test]
fn a_log_holds_one_environment_and_one_terminal_attempt_for_each_trial() {
    let read = |recorded: Vec<TrialResult>| {
        let mut parts = parts(false, 1);
        for (index, result) in recorded.into_iter().enumerate() {
            let found = files(&result.artifacts);
            parts.lines.push(DecodedResult {
                number: index + 1,
                result: Some(result),
                files: found,
            });
        }
        MeasurementSet::open(parts)
    };
    let all = trials(1);
    let first = result(&all[0], 1);
    let mut second = result(&all[1], 1);
    assert!(read(vec![first.clone(), second.clone()]).is_ok());
    second.environment_fingerprint.push('2');
    assert_eq!(
        read(vec![first.clone(), second]).unwrap_err(),
        OpenError::Result(Refusal { line: 1, error: ResultError::SeveralEnvironments })
    );
    assert_eq!(
        read(vec![first.clone(), first.clone()]).unwrap_err(),
        OpenError::Result(Refusal { line: 1, error: ResultError::DuplicateAttempt })
    );
    assert_eq!(
        read(vec![first.clone(), result(&all[0], 2)]).unwrap_err(),
        OpenError::Result(Refusal { line: 0, error: ResultError::AttemptsAfterTerminal })
    );
    let invalid = |attempt: u32| {
        let mut recorded = result(&all[1], attempt);
        recorded.valid = false;
        recorded.success = false;
        recorded.metrics.clear();
        recorded.artifacts.clear();
        recorded.invalidation_reason = Some("late".to_owned());
        recorded
    };
    assert_eq!(
        read(vec![first.clone(), invalid(5), invalid(1), invalid(4)]).unwrap_err(),
        OpenError::Result(Refusal {
            line: 1,
            error: ResultError::AttemptsNotContiguous { expected: 2, found: 4 },
        })
    );
    let mut broken = parts(false, 1);
    broken.lines.push(DecodedResult { number: 1, result: None, files: vec![] });
    assert_eq!(
        MeasurementSet::open(broken).unwrap_err(),
        OpenError::Result(Refusal { line: 0, error: ResultError::InvalidLine(1) })
    );
    let mut stranger = parts(false, 1);
    stranger.variant.subject.push('2');
    assert_eq!(MeasurementSet::open(stranger).unwrap_err(), OpenError::Subject);
    let mut locked = parts(false, 20);
    locked.sampling = Some(decision(5));
    assert_eq!(
        MeasurementSet::open(locked).unwrap_err(),
        OpenError::Sampling(SamplingError::FixedSet)
    );
}

#[test]
fn results_are_appended_in_turn() {
    let mut parts = parts(false, 1);
    let set = MeasurementSet::open(parts.clone()).unwrap();
    let all = set.schedule.trials.clone();
    let append = |set: &MeasurementSet, result: &TrialResult| {
        set.append_result(result, &files(&result.artifacts))
    };
    assert_eq!(
        append(&set, &result(&all[0], 2)),
        Err(AppendError::Attempt { expected: 1, received: 2 })
    );
    let mut stranger = result(&all[0], 1);
    stranger.measurement_set_id.push('2');
    assert_eq!(append(&set, &stranger), Err(AppendError::OtherSet));
    let mut unknown = result(&all[0], 1);
    unknown.trial_id.push('x');
    assert_eq!(append(&set, &unknown), Err(AppendError::UnknownTrial));

    let invalid = runner::invalid_result(&set, &all[0], 1, "test-environment", "timed out");
    assert!(!invalid.valid && invalid.artifacts.is_empty());
    assert_eq!(invalid.invalidation_reason.as_deref(), Some("timed out"));
    assert_eq!(append(&set, &invalid), Ok(()));
    parts.lines.push(DecodedResult { number: 1, result: Some(invalid), files: vec![] });
    let set = MeasurementSet::open(parts.clone()).unwrap();
    assert_eq!(set.next_attempt(&all[0].trial_id), 2);
    assert_eq!(set.invalid_attempts(Engine::Chromium), 1);
    assert!(set.pending_trials(&vec![]).contains(&0));

    let valid = result(&all[0], 2);
    assert_eq!(append(&set, &valid), Ok(()));
    parts.lines.push(DecodedResult {
        number: 2,
        files: files(&valid.artifacts),
        result: Some(valid),
    });
    let set = MeasurementSet::open(parts.clone()).unwrap();
    assert_eq!(append(&set, &result(&all[0], 3)), Err(AppendError::Completed));
    let mut elsewhere = result(&all[1], 1);
    elsewhere.environment_fingerprint.push('2');
    assert_eq!(append(&set, &elsewhere), Err(AppendError::OtherEnvironment));
    assert_eq!(set.environment_fingerprint(), Some("test-environment"));
    let mut faulty = result(&all[1], 1);
    faulty.metrics[0].value = number(-1.0);
    assert!(matches!(append(&set, &faulty), Err(AppendError::Result(_))));
    assert!(AppendError::Completed.message(&all[0].trial_id, "").contains(&all[0].trial_id));
}

#[test]
fn a_run_goes_through_its_steps() {
    let mut adaptive = parts(true, 100);
    let set = MeasurementSet::open(adaptive.clone()).unwrap();
    let continuing = strata(&Engine::all());
    assert!(matches!(runner::next_step(&set, &continuing, false, false), RunStep::Start));
    let RunStep::Measure(first) = runner::next_step(&set, &continuing, false, true) else {
        panic!("the warm-ups are measured");
    };
    assert_eq!(first.len(), 9);
    append_pending(&mut adaptive, &continuing, |_| ());
    let calibrated = append_pending(&mut adaptive, &continuing, |_| ());
    assert!(matches!(
        runner::next_step(&calibrated, &vec![], false, true),
        RunStep::LockSampling
    ));
    let mut fixed = parts(false, 1);
    let finished = append_pending(&mut fixed, &vec![], |_| ());
    assert!(matches!(runner::next_step(&finished, &vec![], false, false), RunStep::Finish));

    assert!(runner::check_environment(&finished, "test-environment").is_ok());
    let changed = runner::check_environment(&finished, "other").unwrap_err();
    assert!(changed.message("test-environment", "other").contains("other"));

    let outcome = runner::finish(&finished, &vec![], None);
    assert_eq!(outcome.status(), "complete");
    assert_eq!((outcome.completed_trials, outcome.total_trials), (42, 42));
    assert!(outcome.final_complete);
    let open = runner::finish(&set, &continuing, None);
    assert_eq!(open.status(), "open");
    assert_eq!(open.environment_fingerprint, None);
    assert_eq!(runner::report_engine_results(&finished).len(), 3);
    assert!(runner::engine_result(Engine::Firefox, 2, 2, 1, 0).contains("firefox"));
    assert!(reports::final_trial_count(&finished.schedule.trials) == 3);
    let plan = reports::plan_lines(&finished.schedule, "/data").join("\n");
    assert!(plan.contains("measure-1") && plan.contains("42"));
}

fn runtime() -> RuntimeEvidence {
    RuntimeEvidence {
        node: "v24".to_owned(),
        playwright: "1.61.1".to_owned(),
        platform: "linux".to_owned(),
        arch: "x64".to_owned(),
        os_release: "6".to_owned(),
        cpu_model: "cpu".to_owned(),
        logical_cpus: 8,
        total_memory_bytes: 16_000_000_000,
    }
}

fn capture(engine: Engine) -> CaptureEvidence {
    CaptureEvidence {
        engine,
        runtime: runtime(),
        browser: BrowserEvidence {
            root_pid: 1,
            executable_path: format!("/browsers/{}", engine.as_str()),
            version: "1".to_owned(),
            launch_args: vec![],
        },
        anchor: RuntimeAnchorEvidence {
            workload: "javascript_cpu_v1".to_owned(),
            wall_ms: vec![number(10.0); 31],
            batch_size: 1,
            checksum: 42,
        },
        capabilities: CaptureCapabilities {
            isolated_launch: true,
            process_root: true,
            cpu_profile: true,
            js_heap: true,
            flamegraph: true,
        },
        artifacts: vec![],
    }
}

fn record(captures: &Vec<CaptureEvidence>) -> EnvironmentRecord {
    EnvironmentRecord {
        schema_version: environment::SCHEMA_VERSION,
        recorded_at_unix_ms: 1,
        fingerprint: environment::environment_fingerprint(b"identity"),
        identity: environment::environment_identity(captures, "0.1.0").unwrap(),
        anchors: environment::capture_anchors(captures),
    }
}

#[test]
fn environments_are_identified_by_their_runtime_and_browsers() {
    let captures: Vec<CaptureEvidence> = Engine::all().into_iter().map(capture).collect();
    let identity = environment::environment_identity(&captures, "0.1.0").unwrap();
    assert_eq!(identity.browsers.len(), 3);
    assert_eq!(identity.browsers[1].executable_path, "/browsers/firefox");
    assert_eq!(
        environment::environment_fingerprint(b"identity"),
        format!("{:x}", Sha256::digest(b"bperf-browser-environment-v1\0identity"))
    );
    assert_eq!(
        environment::environment_identity(&vec![], "0.1.0").unwrap_err(),
        EnvironmentError::NoEngines
    );
    let mut mixed = captures.clone();
    mixed[2].runtime.node.push('x');
    assert_eq!(
        environment::environment_identity(&mixed, "0.1.0").unwrap_err(),
        EnvironmentError::DifferentRuntimes
    );

    let found = record(&captures);
    assert_eq!(environment::validate_record(&found, b"identity"), Ok(()));
    assert_eq!(
        environment::validate_record(&found, b"other"),
        Err(EnvironmentError::Fingerprint)
    );
    assert_eq!(found.recorded_at_unix_ms(), 1);
    assert_eq!(found.anchor(Engine::Webkit).unwrap().len(), 31);
    let refused = |change: fn(&mut EnvironmentRecord)| {
        let mut changed = record(&captures);
        change(&mut changed);
        environment::validate_record(&changed, b"identity").unwrap_err()
    };
    assert_eq!(refused(|r| r.schema_version = 1), EnvironmentError::Schema(1));
    assert_eq!(refused(|r| r.recorded_at_unix_ms = 0), EnvironmentError::NoTime);
    assert_eq!(
        refused(|r| {
            r.anchors.pop();
        }),
        EnvironmentError::AnchorSet
    );
    assert_eq!(
        refused(|r| r.anchors[1].anchor.batch_size = 0),
        EnvironmentError::Anchor(1)
    );
    assert!(EnvironmentError::NoEngines.message("").len() > 3);
}

#[test]
fn environments_are_recorded_once_and_compared_by_identity() {
    let captures: Vec<CaptureEvidence> = Engine::all().into_iter().map(capture).collect();
    let first = record(&captures);
    assert_eq!(environment::settle_capture(&None, &first), Ok(CaptureStep::Write));
    assert_eq!(
        environment::settle_capture(&Some(first.clone()), &first),
        Ok(CaptureStep::Recorded)
    );
    let mut upgraded = captures.clone();
    upgraded[0].browser.version = "2".to_owned();
    let mut second = record(&upgraded);
    second.fingerprint = environment::environment_fingerprint(b"second");
    assert_eq!(
        environment::settle_capture(&Some(first.clone()), &second),
        Err(EnvironmentError::Changed)
    );
    assert!(environment::identities_agree(&first.identity, &first.identity));
    assert!(!environment::identities_agree(&first.identity, &second.identity));
    assert_eq!(environment::compatible_pair(&first, &first), Ok(()));
    assert_eq!(
        environment::compatible_pair(&first, &second),
        Err(EnvironmentError::Incomparable)
    );
    assert_eq!(environment::check_read(&None, &first), Ok(()));
    assert_eq!(
        environment::check_read(&Some("other".to_owned()), &first),
        Err(EnvironmentError::OtherTrials)
    );
    assert_eq!(environment::unique_id("lab", 5, 9), "lab-5-9");
}
