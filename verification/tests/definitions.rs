use bperf::browser_lab::{Engine, Viewport};
use bperf::manifest::{
    self, BenchmarkIdentity, BenchmarkManifest, BrowserSpec, BuiltInVerifier, CapturesSpec,
    CommandWithTimeout, Field, ManifestError, MetricPolicy, SamplesError, StatisticsSpec,
    TrialCount, TrialsSpec, VariantAdapterSpec, VariantDescriptor, VerifierInvocation,
    VerifierSpec, WorkloadSpec, SCHEMA_VERSION,
};
use bperf::number::Number;
use bperf::preparation::{
    self, ContentConflict, PlannedSampling, PrepareError, SamplingRequest, ScheduleError,
    WriteStep,
};
use bperf::schedule::{
    MeasurementSchedule, SamplingSchedule, ScheduledTrial, TrialPhase,
    MEASUREMENT_SCHEMA_VERSION,
};
use sha2::{Digest, Sha256};

fn number(value: f64) -> Number {
    Number { bits: value.to_bits() }
}

fn benchmark() -> BenchmarkManifest {
    BenchmarkManifest {
        schema_version: SCHEMA_VERSION,
        benchmark: BenchmarkIdentity {
            id: "browser-operation-benchmark".to_owned(),
            subject: "browser-operation-adapter".to_owned(),
        },
        workloads: vec![WorkloadSpec {
            id: "checkout-flow".to_owned(),
            trace_file: "fixtures/checkout-flow/trace.json".to_owned(),
            identity_files: vec!["fixtures/checkout-flow/page.html".to_owned()],
            verifier: VerifierSpec::Process(CommandWithTimeout {
                command: vec!["node".to_owned(), "fixtures/checkout-flow/verify.mjs".to_owned()],
                timeout_seconds: 30,
                identity_files: vec!["fixtures/checkout-flow/verify.mjs".to_owned()],
            }),
        }],
        browser: BrowserSpec {
            engines: Engine::all(),
            mode: "headless".to_owned(),
            viewport: Viewport { width: 1280, height: 720 },
            locale: "en-US".to_owned(),
            timezone: "UTC".to_owned(),
            color_scheme: "light".to_owned(),
            cache: "cold".to_owned(),
            network_policy: "local-only".to_owned(),
            fresh_profile_per_trial: true,
        },
        captures: CapturesSpec { cpu_profile: true, js_heap: true },
        trials: TrialsSpec {
            mode: TrialCount::Label("auto".to_owned()),
            randomize_order: true,
            schedule_seed: 7,
            warmup_samples: 3,
            pilot_samples: 10,
            min_final_samples: 20,
            max_final_samples: 100,
        },
        statistics: StatisticsSpec {
            confidence: number(0.95),
            bootstrap_samples: 10_000,
            primary_metrics: vec!["workload.wall_ms".to_owned()],
            minimum_effect_pct: vec![MetricPolicy {
                name: "workload.wall_ms".to_owned(),
                minimum_effect_pct: number(5.0),
            }],
            minimum_success_rate: number(1.0),
            max_regression_percentage_points: number(0.0),
            cross_engine_policy: "strict_all".to_owned(),
            protected_metric_max_regression_pct: number(10.0),
        },
        source_path: String::new(),
        source_sha256: String::new(),
    }
}

fn variant() -> VariantDescriptor {
    VariantDescriptor {
        schema_version: SCHEMA_VERSION,
        id: "browser-operation-main".to_owned(),
        subject: "browser-operation-adapter".to_owned(),
        adapter: VariantAdapterSpec {
            command: vec!["node".to_owned(), "adapter.mjs".to_owned()],
            ready_protocol: "stdio-json".to_owned(),
            ready_timeout_seconds: 30,
        },
        implementation_files: vec!["adapter.mjs".to_owned()],
        source_path: String::new(),
        source_sha256: String::new(),
    }
}

fn parse_benchmark(decoded: BenchmarkManifest) -> Result<BenchmarkManifest, ManifestError> {
    let mut manifest = BenchmarkManifest::load(decoded, "C:/fixture/benchmark.yaml")?;
    let contents = manifest.identity_files().into_iter().map(String::into_bytes).collect();
    manifest.identify(b"benchmark", &contents);
    Ok(manifest)
}

fn parse_variant(decoded: VariantDescriptor) -> Result<VariantDescriptor, ManifestError> {
    let mut variant = VariantDescriptor::load(decoded, "C:/fixture/variant.yaml")?;
    variant.identify(b"variant", &vec![b"adapter".to_vec()]);
    Ok(variant)
}

fn refusal(change: fn(&mut BenchmarkManifest)) -> ManifestError {
    let mut changed = benchmark();
    change(&mut changed);
    parse_benchmark(changed).unwrap_err()
}

#[test]
fn accepts_compatible_benchmark_and_variant_definitions() {
    let benchmark = parse_benchmark(benchmark()).unwrap();
    let variant = parse_variant(variant()).unwrap();
    benchmark.validate_variant(&variant).unwrap();
    assert_eq!(*benchmark.engines(), Engine::all());
    assert_eq!(benchmark.benchmark_id(), "browser-operation-benchmark");
    assert_eq!(benchmark.subject_id(), "browser-operation-adapter");
    assert_eq!(variant.id(), "browser-operation-main");
    assert_eq!(benchmark.workload_ids(), ["checkout-flow"]);
    assert!(benchmark.resolve_final_samples(None).is_err());
    assert_eq!(benchmark.resolve_final_samples(Some(20)).unwrap(), 20);
    let resolved = BenchmarkManifest::load_resolved(
        benchmark.clone(),
        benchmark.source_path().to_owned(),
        benchmark.source_sha256().to_owned(),
    )
    .unwrap();
    assert_eq!(resolved.source_sha256(), benchmark.source_sha256);
}

#[test]
fn built_in_exact_verification_needs_no_process_configuration() {
    let mut source = benchmark();
    source.workloads[0].verifier = VerifierSpec::BuiltIn(BuiltInVerifier::Exact);
    let benchmark = parse_benchmark(source).unwrap();
    assert!(matches!(
        benchmark.workload("checkout-flow").unwrap().verifier,
        VerifierInvocation::Exact
    ));
}

#[test]
fn rejects_a_variant_for_another_subject() {
    let benchmark = parse_benchmark(benchmark()).unwrap();
    let mut changed = variant();
    changed.subject = "unrelated-parser".to_owned();
    let variant = parse_variant(changed).unwrap();
    let error = benchmark.validate_variant(&variant).unwrap_err();
    assert!(error.message(&benchmark, &variant).contains("does not match"));
}

#[test]
fn rejects_a_duplicate_engine() {
    let mut changed = benchmark();
    changed.browser.engines.push(Engine::Chromium);
    let error = parse_benchmark(changed.clone()).unwrap_err();
    assert!(changed.describe(error).contains("duplicate engine"));
}

#[test]
fn rejects_a_primary_metric_without_a_threshold() {
    let mut changed = benchmark();
    changed.statistics.minimum_effect_pct.clear();
    let error = parse_benchmark(changed.clone()).unwrap_err();
    assert!(changed.describe(error).contains("has no minimum_effect_pct"));
}

#[test]
fn rejects_a_primary_metric_not_produced_by_a_browser_trial() {
    let mut changed = benchmark();
    changed.statistics.primary_metrics = vec!["custom.duration_ms".to_owned()];
    changed.statistics.minimum_effect_pct[0].name = "custom.duration_ms".to_owned();
    let error = parse_benchmark(changed.clone()).unwrap_err();
    assert!(changed.describe(error).contains("is not produced by a browser trial"));
}

#[test]
fn identity_file_content_changes_the_definition_hash() {
    let first = manifest::definition_sha256(
        b"test-definition\0",
        b"descriptor",
        &vec![b"export const value = 1;\n".to_vec()],
    );
    let second = manifest::definition_sha256(
        b"test-definition\0",
        b"descriptor",
        &vec![b"export const value = 2;\n".to_vec()],
    );
    assert_ne!(first, second);
    let mut expected = Sha256::new();
    expected.update(b"test-definition\0");
    for part in [b"descriptor".as_slice(), b"export const value = 1;\n".as_slice()] {
        expected.update((part.len() as u64).to_le_bytes());
        expected.update(part);
    }
    assert_eq!(first, format!("{:x}", expected.finalize()));
}

#[test]
fn benchmarks_are_refused_for_their_first_fault() {
    assert_eq!(refusal(|m| m.schema_version = 2), ManifestError::BenchmarkSchema(2));
    assert_eq!(
        refusal(|m| m.benchmark.id = " ".to_owned()),
        ManifestError::Blank(Field::BenchmarkId)
    );
    assert_eq!(
        refusal(|m| m.benchmark.subject = "a b".to_owned()),
        ManifestError::NotAnIdentifier(Field::BenchmarkSubject)
    );
    assert_eq!(refusal(|m| m.workloads.clear()), ManifestError::NoWorkloads);
    assert_eq!(
        refusal(|m| {
            let again = m.workloads[0].clone();
            m.workloads.push(again);
        }),
        ManifestError::DuplicateWorkload(1)
    );
    assert_eq!(
        refusal(|m| {
            let again = m.workloads[0].identity_files[0].clone();
            m.workloads[0].identity_files.push(again);
        }),
        ManifestError::DuplicatePath(Field::WorkloadIdentityFiles)
    );
    assert_eq!(refusal(|m| m.browser.engines.clear()), ManifestError::NoEngines);
    assert_eq!(
        refusal(|m| m.browser.locale = "\t".to_owned()),
        ManifestError::Blank(Field::BrowserLocale)
    );
    assert_eq!(
        refusal(|m| m.browser.viewport.width = 0),
        ManifestError::NotPositive(Field::ViewportWidth)
    );
    assert_eq!(
        refusal(|m| m.browser.mode = "headed".to_owned()),
        ManifestError::UnsupportedMode
    );
    assert_eq!(
        refusal(|m| m.browser.color_scheme = "sepia".to_owned()),
        ManifestError::UnsupportedColorScheme
    );
    assert_eq!(
        refusal(|m| m.browser.cache = "warm".to_owned()),
        ManifestError::UnsupportedCache
    );
    assert_eq!(
        refusal(|m| m.browser.network_policy = "open".to_owned()),
        ManifestError::UnsupportedNetwork
    );
    assert_eq!(
        refusal(|m| m.browser.fresh_profile_per_trial = false),
        ManifestError::SharedProfile
    );
    assert_eq!(refusal(|m| m.captures.js_heap = false), ManifestError::MissingCaptures);
    assert_eq!(
        refusal(|m| m.trials.min_final_samples = 0),
        ManifestError::NotPositive(Field::MinFinalSamples)
    );
    assert_eq!(refusal(|m| m.trials.max_final_samples = 19), ManifestError::SampleRange);
    assert_eq!(
        refusal(|m| m.trials.mode = TrialCount::Count(0)),
        ManifestError::NotPositive(Field::TrialsMode)
    );
    assert_eq!(
        refusal(|m| m.trials.mode = TrialCount::Count(101)),
        ManifestError::FixedSamples
    );
    assert_eq!(refusal(|m| m.statistics.confidence = number(1.0)), ManifestError::Confidence);
    assert_eq!(
        refusal(|m| m.statistics.confidence = number(f64::NAN)),
        ManifestError::Confidence
    );
    assert_eq!(
        refusal(|m| m.statistics.bootstrap_samples = 999),
        ManifestError::BootstrapSamples
    );
    assert_eq!(
        refusal(|m| m.statistics.primary_metrics.clear()),
        ManifestError::NoPrimaryMetrics
    );
    assert_eq!(
        refusal(|m| m.statistics.minimum_effect_pct[0].minimum_effect_pct = number(-1.0)),
        ManifestError::InvalidMinimumEffect(0)
    );
    assert_eq!(
        refusal(|m| m.statistics.minimum_success_rate = number(1.5)),
        ManifestError::SuccessRate
    );
    assert_eq!(
        refusal(|m| m.statistics.max_regression_percentage_points = number(100.5)),
        ManifestError::RegressionPoints
    );
    assert_eq!(
        refusal(|m| m.statistics.cross_engine_policy = "any".to_owned()),
        ManifestError::UnsupportedPolicy
    );
    assert_eq!(
        refusal(|m| m.statistics.protected_metric_max_regression_pct = number(f64::INFINITY)),
        ManifestError::ProtectedRegression
    );
}

#[test]
fn verifiers_and_variants_are_refused_for_their_first_fault() {
    let verifier = |change: fn(&mut CommandWithTimeout)| {
        let mut changed = benchmark();
        if let VerifierSpec::Process(process) = &mut changed.workloads[0].verifier {
            change(process);
        }
        parse_benchmark(changed).unwrap_err()
    };
    assert_eq!(
        verifier(|process| process.command.push(String::new())),
        ManifestError::InvalidCommand(Field::VerifierCommand)
    );
    assert_eq!(
        verifier(|process| process.identity_files.clear()),
        ManifestError::NoPaths(Field::VerifierIdentityFiles)
    );
    assert_eq!(
        verifier(|process| process.timeout_seconds = 0),
        ManifestError::NotPositive(Field::VerifierTimeout)
    );
    let refused = |change: fn(&mut VariantDescriptor)| {
        let mut changed = variant();
        change(&mut changed);
        parse_variant(changed).unwrap_err()
    };
    assert_eq!(refused(|v| v.schema_version = 3), ManifestError::VariantSchema(3));
    assert_eq!(
        refused(|v| v.id = "a/b".to_owned()),
        ManifestError::NotAnIdentifier(Field::VariantId)
    );
    assert_eq!(
        refused(|v| v.adapter.command.clear()),
        ManifestError::InvalidCommand(Field::VariantCommand)
    );
    assert_eq!(
        refused(|v| v.implementation_files.clear()),
        ManifestError::NoPaths(Field::VariantFiles)
    );
    assert_eq!(
        refused(|v| v.adapter.ready_protocol = "http".to_owned()),
        ManifestError::UnsupportedReadyProtocol
    );
    assert_eq!(
        refused(|v| v.adapter.ready_timeout_seconds = 0),
        ManifestError::NotPositive(Field::VariantReadyTimeout)
    );
}

#[test]
fn paths_are_resolved_beside_their_definition() {
    let benchmark = parse_benchmark(benchmark()).unwrap();
    assert_eq!(
        benchmark.identity_files(),
        [
            "C:/fixture/fixtures/checkout-flow/trace.json",
            "C:/fixture/fixtures/checkout-flow/page.html",
            "C:/fixture/fixtures/checkout-flow/verify.mjs",
        ]
    );
    let workload = benchmark.workload("checkout-flow").unwrap();
    assert_eq!(workload.trace_file, "C:/fixture/fixtures/checkout-flow/trace.json");
    let VerifierInvocation::Process { command, timeout_seconds, working_directory } =
        workload.verifier
    else {
        panic!("a process verifies the workload");
    };
    assert_eq!(command[0], "node");
    assert_eq!((timeout_seconds, working_directory.as_str()), (30, "C:/fixture"));
    assert!(benchmark.workload("other").is_none());
    let variant = parse_variant(variant()).unwrap();
    assert_eq!(variant.implementation_files, ["C:/fixture/adapter.mjs"]);
    let invocation = variant.invocation();
    assert_eq!(invocation.ready_timeout_seconds, 30);
    assert_eq!(invocation.working_directory, "C:/fixture");
    assert_eq!(benchmark.browser_trial_config().timezone_id, "UTC");
    let policy = benchmark.analysis_policy();
    assert_eq!(policy.primary_metrics[0].name, "workload.wall_ms");
    assert_eq!(policy.primary_metrics[0].minimum_effect_pct.bits, 5.0f64.to_bits());
}

#[test]
fn final_samples_are_settled_by_the_definition_and_the_request() {
    let mut benchmark = parse_benchmark(benchmark()).unwrap();
    assert_eq!(benchmark.adaptive_final_sample_range(), Ok((20, 100)));
    assert_eq!(benchmark.resolve_final_samples(None), Err(SamplesError::Undecided));
    assert_eq!(
        benchmark.resolve_final_samples(Some(101)),
        Err(SamplesError::OutOfRange(101))
    );
    benchmark.trials.mode = TrialCount::Count(30);
    assert_eq!(benchmark.resolve_final_samples(None), Ok(30));
    assert_eq!(benchmark.resolve_final_samples(Some(30)), Ok(30));
    assert_eq!(
        benchmark.resolve_final_samples(Some(31)),
        Err(SamplesError::Conflict { fixed: 30, requested: 31 })
    );
    assert_eq!(benchmark.adaptive_final_sample_range(), Err(SamplesError::Fixed));
    benchmark.trials.mode = TrialCount::Label("sometimes".to_owned());
    assert_eq!(benchmark.resolve_final_samples(Some(20)), Err(SamplesError::UnsupportedMode));
    assert!(benchmark.describe_samples(SamplesError::UnsupportedMode).contains("sometimes"));
}

#[test]
fn immutable_write_is_idempotent_but_never_overwrites() {
    assert_eq!(preparation::write_immutable(&None, b"first"), Ok(WriteStep::Create));
    let stored = Some(b"first".to_vec());
    assert_eq!(preparation::write_immutable(&stored, b"first"), Ok(WriteStep::Nothing));
    let error = preparation::write_immutable(&stored, b"second").unwrap_err();
    assert_eq!(error, ContentConflict);
    assert!(error.message("schedule.json").contains("refusing to overwrite"));
}

#[test]
fn confirmation_cohorts_create_independent_measurement_sets() {
    let benchmark = parse_benchmark(benchmark()).unwrap();
    let variant = parse_variant(variant()).unwrap();
    let prepare = |cohort: Option<&str>| {
        preparation::prepare_with_sampling(
            &benchmark,
            &variant,
            &SamplingRequest::Adaptive {
                budget_ms: 60_000,
                cohort: cohort.map(str::to_owned),
            },
        )
    };
    let regular = prepare(None).unwrap();
    let confirmation = prepare(Some("confirmation:cycle-1")).unwrap();
    assert_ne!(regular.measurement_set_id, confirmation.measurement_set_id);
    assert!(matches!(
        confirmation.sampling,
        PlannedSampling::Adaptive { cohort: Some(cohort), .. } if cohort == "confirmation:cycle-1"
    ));
    assert!(matches!(
        regular.sampling,
        PlannedSampling::Adaptive {
            budget_ms: 60_000,
            min_final_samples: 20,
            max_final_samples: 100,
            cohort: None,
        }
    ));
    let other = prepare(Some("confirmation:cycle-2")).unwrap();
    assert_ne!(other.measurement_set_id, confirmation.measurement_set_id);
    assert_eq!(prepare(Some(" ")).unwrap_err(), PrepareError::EmptyCohort);
}

#[test]
fn fixed_sets_are_named_by_their_definitions() {
    let benchmark = parse_benchmark(benchmark()).unwrap();
    let mut variant = parse_variant(variant()).unwrap();
    let fixed = |requested| {
        preparation::prepare_with_sampling(&benchmark, &variant, &SamplingRequest::Fixed(requested))
    };
    let planned = fixed(Some(20)).unwrap();
    assert!(matches!(planned.sampling, PlannedSampling::Fixed { final_samples: 20 }));
    assert!(planned.measurement_set_id.contains(&benchmark.source_sha256[..12]));
    assert!(planned.measurement_set_id.contains(&variant.source_sha256[..12]));
    assert_ne!(fixed(Some(21)).unwrap().measurement_set_id, planned.measurement_set_id);
    assert_eq!(
        fixed(None).unwrap_err(),
        PrepareError::Samples(SamplesError::Undecided)
    );
    variant.subject = "unrelated-parser".to_owned();
    let error = preparation::prepare_with_sampling(
        &benchmark,
        &variant,
        &SamplingRequest::Fixed(Some(20)),
    )
    .unwrap_err();
    assert_eq!(error, PrepareError::Subject);
    assert!(error.message(&benchmark, &variant).contains("does not match"));
}

#[test]
fn schedules_belong_to_their_definitions() {
    let benchmark = parse_benchmark(benchmark()).unwrap();
    let variant = parse_variant(variant()).unwrap();
    let trial = ScheduledTrial {
        trial_id: "warmup-checkout-flow-webkit-0001".to_owned(),
        workload_id: "checkout-flow".to_owned(),
        engine: Engine::Webkit,
        phase: TrialPhase::Warmup,
        sample_index: 1,
    };
    let schedule = MeasurementSchedule {
        schema_version: MEASUREMENT_SCHEMA_VERSION,
        measurement_set_id: "measure-1".to_owned(),
        benchmark_id: benchmark.benchmark_id().to_owned(),
        subject_id: benchmark.subject_id().to_owned(),
        variant_id: variant.id().to_owned(),
        benchmark_sha256: benchmark.source_sha256().to_owned(),
        variant_sha256: variant.source_sha256().to_owned(),
        final_samples: 100,
        sampling: SamplingSchedule::Adaptive { budget_ms: 60_000, min_final_samples: 20 },
        cohort: None,
        trials: vec![trial.clone()],
    };
    let check = |change: &dyn Fn(&mut MeasurementSchedule)| {
        let mut changed = schedule.clone();
        change(&mut changed);
        preparation::validate_schedule(&benchmark, &variant, &changed)
    };
    assert_eq!(check(&|_| ()), Ok(()));
    assert_eq!(check(&|s| s.schema_version = 6), Err(ScheduleError::Schema(6)));
    assert_eq!(
        check(&|s| s.benchmark_sha256.push('0')),
        Err(ScheduleError::Benchmark)
    );
    assert_eq!(check(&|s| s.variant_id.push('0')), Err(ScheduleError::Variant));
    assert_eq!(check(&|s| s.final_samples = 99), Err(ScheduleError::Policy));
    assert_eq!(
        check(&|s| s.trials.push(trial.clone())),
        Err(ScheduleError::DuplicateTrials)
    );
    assert!(ScheduleError::DuplicateTrials.message(&benchmark).contains("duplicate"));
}
