use bperf::browser_lab::Engine;
use bperf::commands::{self, BrowserName, DataDirectory, EngineSelection, NoTerminal, RunTarget};
use bperf::doctor::{self, EngineReport, NoEngines, SamplerOverhead};
use bperf::paths::PathError;
use bperf::project_modules::{
    self, BundleError, BundleMetadata, LocationError, OutputError, ResolvedFile, WatchedFile,
};

#[test]
fn interactive_run_selection_requires_a_terminal() {
    let bare = commands::run_target(None, true, false, false).unwrap_err();
    assert_eq!(bare, NoTerminal);
    assert!(bare.message().contains("interactive benchmark selection requires a terminal"));
    assert!(bare.message().contains("pass a .bench.ts file"));
    let directory =
        commands::run_target(Some("benchmarks".to_owned()), true, false, false).unwrap_err();
    assert!(directory.message().contains("interactive benchmark selection requires a terminal"));
    assert_eq!(
        commands::run_target(None, false, true, true).unwrap_err(),
        NoTerminal
    );
    assert!(matches!(
        commands::run_target(None, false, false, true),
        Ok(RunTarget::Pick(directory)) if directory == "benchmarks"
    ));
    assert!(matches!(
        commands::run_target(Some("suite".to_owned()), true, false, true),
        Ok(RunTarget::Pick(directory)) if directory == "suite"
    ));
    assert!(matches!(
        commands::run_target(Some("a.bench.ts".to_owned()), false, true, false),
        Ok(RunTarget::Module(path)) if path == "a.bench.ts"
    ));
}

#[test]
fn one_data_directory_relocates_measurement_state() {
    let data = DataDirectory::new("/tmp/bperf-data".to_owned());
    assert_eq!(data.measurements(None), "/tmp/bperf-data/measurements");
    for (path, name) in [
        (data.doctor(None), "doctor"),
        (data.managed(None), "managed"),
        (data.objects(None), "objects"),
        (data.baselines(None), "baselines"),
        (data.comparisons(None), "comparisons"),
        (data.lineages(None), "lineages"),
    ] {
        assert_eq!(path, format!("/tmp/bperf-data/{name}"));
    }
    assert_eq!(data.lineages(Some("elsewhere".to_owned())), "elsewhere");
}

#[test]
fn selections_name_their_engines() {
    assert_eq!(EngineSelection::default().engines(), Engine::all());
    assert_eq!(EngineSelection::Firefox.engines(), [Engine::Firefox]);
    assert_eq!(
        EngineSelection::Chromium.browsers(),
        [BrowserName::ChromiumHeadlessShell]
    );
    assert_eq!(EngineSelection::All.browsers().len(), 3);
}

#[test]
fn histories_are_browsed_only_at_a_terminal() {
    assert!(commands::browses_history(&None, &None, false, true));
    assert!(!commands::browses_history(&None, &None, false, false));
    assert!(!commands::browses_history(&None, &None, true, true));
}

#[test]
fn diagnoses_report_each_engine() {
    assert_eq!(doctor::check_engines(&vec![]), Err(NoEngines));
    assert_eq!(doctor::check_engines(&Engine::all()), Ok(()));
    assert!(!NoEngines.message().is_empty());
    assert_eq!(doctor::run_id(17, 4), "doctor-17-4");
    assert_eq!(doctor::SUMMARY_SCHEMA_VERSION, 2);
    let reports = vec![
        EngineReport {
            engine: Engine::Chromium,
            root_pid: 12,
            version: "141".to_owned(),
            overhead: SamplerOverhead::Measured {
                percent: "1.50%".to_owned(),
                unsampled: "10.00 ms".to_owned(),
                sampled: "10.15 ms".to_owned(),
            },
        },
        EngineReport {
            engine: Engine::Webkit,
            root_pid: 13,
            version: "19".to_owned(),
            overhead: SamplerOverhead::NotApplicable { reason: "no sampler".to_owned() },
        },
    ];
    let lines = doctor::report_lines(&reports, "/data/doctor.json").join("\n");
    for expected in ["chromium", "141", "webkit", "no sampler", "/data/doctor.json"] {
        assert!(lines.contains(expected), "{lines}");
    }
    assert!(doctor::overhead_warning(Engine::Firefox, "12.0%").contains("firefox"));
}

fn file(path: &str) -> ResolvedFile {
    ResolvedFile { path: path.to_owned(), is_file: true }
}

#[test]
fn benchmark_entry_must_be_inside_the_project_root() {
    let outside = file("/outside/sample.bench.ts");
    let error = project_modules::project_file("/project", &outside).unwrap_err();
    assert_eq!(error, LocationError::Outside);
    assert!(error
        .message("benchmark module", &outside.path)
        .contains("benchmark module is outside benchmark root"));
    assert_eq!(project_modules::project_file("/project", &file("/project/a.ts")), Ok(()));
    let missing = ResolvedFile { path: "/project/a".to_owned(), is_file: false };
    assert_eq!(
        project_modules::project_file("/project", &missing),
        Err(LocationError::NotAFile)
    );
}

#[test]
fn bundles_are_opened_with_their_sources() {
    let metadata = || BundleMetadata {
        schema_version: 1,
        bundler_name: "rolldown".to_owned(),
        bundler_version: "test".to_owned(),
        entry_path: "sample.bench.ts".to_owned(),
        source_files: vec!["sample.bench.ts".to_owned(), "src/value.ts".to_owned()],
    };
    let entry = file("/project/sample.bench.ts");
    let sources = || vec![file("/project/sample.bench.ts"), file("/project/src/value.ts")];
    let open = |metadata: BundleMetadata, files: Vec<ResolvedFile>| {
        project_modules::open("/project", "/project/sample.bench.ts", &metadata, &entry, &files)
    };
    assert_eq!(
        open(metadata(), sources()),
        Ok(vec!["/project/sample.bench.ts".to_owned(), "/project/src/value.ts".to_owned()])
    );
    let mut other = metadata();
    other.bundler_name = "other".to_owned();
    assert_eq!(open(other, sources()), Err(BundleError::Unsupported));
    let mut none = metadata();
    none.source_files.clear();
    assert_eq!(open(none, vec![]), Err(BundleError::NoSources));
    let mut escaped = metadata();
    escaped.source_files[1] = "/value.ts".to_owned();
    assert_eq!(
        open(escaped, sources()),
        Err(BundleError::Source(1, LocationError::NotRelative))
    );
    assert_eq!(
        open(metadata(), vec![entry.clone(), entry.clone()]),
        Err(BundleError::DuplicateSources)
    );
    assert_eq!(
        project_modules::open(
            "/project",
            "/project/other.bench.ts",
            &metadata(),
            &entry,
            &sources()
        ),
        Err(BundleError::OtherEntry)
    );
}

#[test]
fn packages_are_looked_for_up_to_the_root() {
    let candidates = project_modules::resolution_candidates("/project", "/project/src").unwrap();
    assert!(candidates.contains(&"/project/src/package.json".to_owned()));
    assert!(project_modules::resolution_candidates("/project", "/elsewhere").is_none());
}

#[test]
fn outputs_and_sources_have_names() {
    assert_eq!(
        project_modules::entry_point("/project", "/project/a/b.bench.ts"),
        Ok("./a/b.bench.ts".to_owned())
    );
    assert_eq!(
        project_modules::relative_path("/project", "/project/a/b.ts"),
        Ok("a/b.ts".to_owned())
    );
    assert_eq!(
        project_modules::relative_path("/project", "/elsewhere/b.ts"),
        Err(PathError::Outside)
    );
    assert_eq!(project_modules::check_output(2, "a"), Err(OutputError::Count));
    assert_eq!(project_modules::check_output(1, "odd"), Err(OutputError::Name));
    assert_eq!(project_modules::watched_path("/project", "a.ts"), "/project/a.ts");
    assert_eq!(project_modules::watched_path("/project", "/sdk.ts"), "/sdk.ts");
    assert_eq!(
        project_modules::watched_file("/project", "/project/sdk.ts", &file("/project/sdk.ts")),
        Ok(WatchedFile::Skip)
    );
    assert_eq!(
        project_modules::watched_file("/project", "/sdk.ts", &file("/project/a.ts")),
        Ok(WatchedFile::Source)
    );
}
