use bperf::browser_lab::Engine;
use bperf::comparison::{AnchorSummary, ComparisonSummary, EngineSummary, MetricSummary};
use bperf::history::{
    BrowserVersion, EnvironmentSummary, HistoryArtifact, HistoryArtifactKind, HistoryBaseline,
    HistoryChangeSummary, HistoryCycle, HistoryCycleSummary, HistoryData, HistoryIndex,
    HistoryIndexEntry, HistoryOverview, HistoryPromotionSummary, LoadedCycle,
};
use bperf::history_artifacts::{self, DisplayRoot};
use bperf::history_panels;
use bperf::history_screen::{self, EngineMarks, MetricMarks};
use bperf::history_tui::{
    App, DateRange, GraphScope, HistoryFailure, HistoryStep, PickerKind, VerdictFilters,
};
use bperf::sidecar_runtime::HostPlatform;
use bperf::terminal_ui::{self, Arrangement, Key, KeyCode, Segment};

const NOW: u64 = 1_800_000_000_000;
const HOUR: u64 = 3_600_000;
const DAY: u64 = 24 * HOUR;

fn key(code: KeyCode) -> Key {
    Key { code, control: false, alt: false, shift: false }
}

fn press(app: &mut App, c: char) -> HistoryStep {
    app.handle_key(key(KeyCode::Char(c)), NOW)
}

fn line(segments: &[Segment]) -> String {
    segments.iter().map(|segment| segment.text.as_str()).collect()
}

fn lines(all: &[Vec<Segment>]) -> String {
    all.iter().map(|segments| line(segments) + "\n").collect()
}

fn metric(name: &str, effect: f64, values: &str) -> MetricSummary {
    MetricSummary {
        name: name.to_owned(),
        improvement: Some(format!("{effect:+.1}%")),
        interval: Some(format!("{:+.1}, {:+.1}", effect - 1.5, effect + 1.5)),
        classification: "improved".to_owned(),
        values: Some(values.to_owned()),
        candidate: Some("106".to_owned()),
    }
}

fn comparison() -> ComparisonSummary {
    ComparisonSummary {
        comparison_id: "compare-candidate".to_owned(),
        report_path: None,
        baseline_measurement_set: "measure-baseline".to_owned(),
        candidate_measurement_set: "measure-candidate".to_owned(),
        environment_fingerprint: Some("1a7fabcdeffedcba".to_owned()),
        policy: "strict-per-engine".to_owned(),
        verdict: "positive".to_owned(),
        engines: Engine::all()
            .into_iter()
            .enumerate()
            .map(|(index, engine)| {
                let effect = 5.2 + index as f64;
                EngineSummary {
                    engine,
                    verdict: "positive".to_owned(),
                    correctness: "pass".to_owned(),
                    anchor: Some(AnchorSummary {
                        status: "stable".to_owned(),
                        drift: Some("+0.8%".to_owned()),
                        interval: Some("-1.9, +3.4".to_owned()),
                    }),
                    metrics: vec![
                        metric("workload.wall_ms", effect, "112 ms → 106 ms"),
                        metric("browser.cpu_profile.active_ms", effect - 0.5, "104 ms → 99.5 ms"),
                        metric("browser.js_heap.live_bytes", effect - 1.4, "54.5 MB → 52.4 MB"),
                    ],
                }
            })
            .collect(),
        warnings: Vec::new(),
        decision_summary: String::new(),
    }
}

fn environment() -> EnvironmentSummary {
    EnvironmentSummary {
        recorded_at_unix_ms: NOW,
        fingerprint: "1a7fabcdeffedcba".to_owned(),
        platform: "macos".to_owned(),
        arch: "arm64".to_owned(),
        os_release: "macos-15.3".to_owned(),
        browser_versions: vec![
            BrowserVersion { engine: Engine::Chromium, version: "141.0.7390.54".to_owned() },
            BrowserVersion { engine: Engine::Firefox, version: "134.0b7".to_owned() },
            BrowserVersion { engine: Engine::Webkit, version: "19.0 (pw)".to_owned() },
        ],
    }
}

fn artifact(kind: HistoryArtifactKind, engine: Option<Engine>, path: &str) -> HistoryArtifact {
    HistoryArtifact {
        kind,
        engine,
        capture_scope: engine.map(|_| "page".to_owned()),
        path: path.to_owned(),
    }
}

fn baseline_id() -> String {
    format!("cycle-{}", "1".repeat(64))
}

fn candidate_id() -> String {
    format!("cycle-{}", "2".repeat(64))
}

fn cycles() -> (HistoryCycle, HistoryCycle) {
    let baseline = HistoryCycle {
        cycle_id: baseline_id(),
        selector: "cycle-11111111111111".to_owned(),
        recorded_at_unix_ms: NOW - 4 * DAY,
        message: "Establish parser baseline".to_owned(),
        outcome: "measured".to_owned(),
        baseline_label: None,
        accepted_label: Some("b-01".to_owned()),
        accepted: true,
        case_ids: vec!["representative-fragment".to_owned()],
        environment: environment(),
        comparison: None,
        change: HistoryChangeSummary {
            files_changed: 1,
            additions: 24,
            deletions: 0,
            binary_files: 0,
        },
        promotion: HistoryPromotionSummary {
            ready: true,
            confirmation_required: false,
            searched_candidates: 0,
            search_threshold: 5,
            confirmations: 0,
        },
        artifacts: Vec::new(),
        promotable: true,
        accept_command: "bperf accept cycle-11111111111111".to_owned(),
        confirm_command: "bperf confirm benchmarks/parser.bench.ts cycle-11111111111111".to_owned(),
    };
    let candidate = HistoryCycle {
        cycle_id: candidate_id(),
        selector: "cycle-22222222222222".to_owned(),
        recorded_at_unix_ms: NOW - 3 * HOUR,
        message: "Reuse decoder config across fragments".to_owned(),
        outcome: "positive".to_owned(),
        baseline_label: Some("b-01".to_owned()),
        accepted_label: None,
        accepted: false,
        case_ids: vec!["representative-fragment".to_owned()],
        environment: environment(),
        comparison: Some(comparison()),
        change: HistoryChangeSummary {
            files_changed: 2,
            additions: 38,
            deletions: 26,
            binary_files: 0,
        },
        promotion: HistoryPromotionSummary {
            ready: true,
            confirmation_required: false,
            searched_candidates: 4,
            search_threshold: 5,
            confirmations: 0,
        },
        artifacts: vec![
            artifact(
                HistoryArtifactKind::CpuProfile,
                Some(Engine::Chromium),
                ".bperf/measurements/measure-candidate/chromium/cpu.json",
            ),
            artifact(
                HistoryArtifactKind::Comparison,
                None,
                ".bperf/comparisons/compare-candidate/comparison.json",
            ),
        ],
        promotable: true,
        accept_command: "bperf accept cycle-22222222222222".to_owned(),
        confirm_command:
            "bperf confirm 'benchmarks/parser suite'\"'\"'s $draft.bench.ts' cycle-22222222222222"
                .to_owned(),
    };
    (candidate, baseline)
}

fn summary(cycle: &HistoryCycle, parent: Option<String>, effect: Option<&str>) -> HistoryCycleSummary {
    HistoryCycleSummary {
        cycle_id: cycle.cycle_id.clone(),
        selector: cycle.selector.clone(),
        recorded_at_unix_ms: cycle.recorded_at_unix_ms,
        message: cycle.message.clone(),
        outcome: cycle.outcome.clone(),
        baseline_label: cycle.baseline_label.clone(),
        baseline_cycle_id: parent,
        accepted_label: cycle.accepted_label.clone(),
        accepted: cycle.accepted,
        comparison: cycle.comparison.clone(),
        headline_effect: effect.map(str::to_owned),
    }
}

fn overview() -> HistoryOverview {
    let (candidate, baseline) = cycles();
    HistoryOverview {
        benchmark_id: "hls-mp4-parser".to_owned(),
        cycles: vec![
            summary(&candidate, Some(baseline_id()), Some("+5.2%")),
            summary(&baseline, None, None),
        ],
        baselines: vec![HistoryBaseline {
            label: "b-01".to_owned(),
            cycle_id: baseline_id(),
            current: true,
        }],
        current_baseline_label: Some("b-01".to_owned()),
    }
}

fn display_root(path: &str, platform: HostPlatform) -> DisplayRoot {
    DisplayRoot { path: path.to_owned(), platform }
}

fn test_app() -> App {
    let (candidate, baseline) = cycles();
    App::load(
        HistoryData {
            display_root: display_root(".", HostPlatform::Other),
            index: HistoryIndex {
                benchmarks: vec![HistoryIndexEntry {
                    benchmark_id: "hls-mp4-parser".to_owned(),
                    cycle_count: 2,
                    latest_recorded_at_unix_ms: NOW - 3 * HOUR,
                }],
                latest_benchmark_id: "hls-mp4-parser".to_owned(),
            },
            overview: overview(),
            details: vec![
                LoadedCycle { cycle_id: candidate_id(), cycle: candidate },
                LoadedCycle { cycle_id: baseline_id(), cycle: baseline },
            ],
        },
        NOW,
    )
}

fn marks() -> EngineMarks {
    let marks = MetricMarks { interval: Some((20, 30)), effect: Some(25) };
    EngineMarks { wall: marks, cpu: marks, heap: marks }
}

#[test]
fn wide_history_renders_the_decision_evidence_and_all_shortcuts() {
    let app = test_app();
    let cycle = app.selected_cycle().unwrap();
    let listed = &app.data.overview.cycles[0];
    let mut screen = vec![
        line(&history_panels::header_line(&app)),
        history_panels::count_line(&app, NOW),
        line(&history_panels::filter_line(&app, "dec 16 - jan 15", 200)),
        history_panels::graph_label(&app),
        line(&history_panels::cycle_panel_title(78)),
        lines(&history_panels::cycle_item(listed, 76, "▁▂▃", "3h ago")),
        lines(&history_panels::cycle_summary_lines(cycle, 120, "Jan 15 08:00", "3h ago")),
    ];
    for engine in Engine::all() {
        screen.push(line(&history_screen::engine_title_line(cycle, engine)));
        screen.push(lines(&history_screen::engine_lines(cycle, engine, marks(), 38)));
    }
    screen.push(" ARTIFACTS ".to_owned());
    screen.push(lines(&history_panels::artifact_lines(cycle, &app.data.display_root, 120, 6)));
    screen.push(" PROMOTION ".to_owned());
    screen.push(lines(&history_screen::promotion_lines(cycle)));
    screen.push(line(&history_panels::footer_line(&app.notice, 200)));
    let screen = screen.join("\n");
    for expected in [
        "bperf",
        "history",
        "hls-mp4-parser",
        "POSITIVE",
        "chromium",
        "firefox",
        "webkit",
        "wall",
        "ARTIFACTS",
        "PROMOTION",
        "P 22222222 ▲ b-01",
        ".bperf/measurements/measure-candidate",
        "readiness   ready",
        "searched    4/5 candidates on b-01",
        "lineage     confirmed, not accepted",
        "bperf accept cycle-22222222222222",
        "accepted-only",
        "graph scope",
        "open artifact",
    ] {
        assert!(screen.contains(expected), "render omitted {expected:?}:\n{screen}");
    }
    assert!(screen.contains("P P P  +5.2%  3h ago"));
    assert!(screen.contains("2/2 cycles "));
    assert!(screen.contains("anchor   stable drift +0.8% [-1.9, +3…"));
    assert!(screen.contains("env-1a7fab…  macos-15.3 arm64"));
}

#[test]
fn artifact_paths_drop_windows_verbatim_prefixes_and_workspace_roots() {
    assert_eq!(
        history_artifacts::display_path_from(
            r"\\?\F:\hls.js\.bperf\measurements\measure-v5\chromium\cpu.json",
            &display_root(r"F:\hls.js", HostPlatform::Windows)
        ),
        ".bperf/measurements/measure-v5/chromium/cpu.json"
    );
    assert_eq!(
        history_artifacts::artifact_display_root("workspace/.bperf/lineages", "/current"),
        "workspace"
    );
    assert_eq!(
        history_artifacts::artifact_display_root("/data/lineages", "/current"),
        "/current"
    );
    assert_eq!(
        history_artifacts::portable_display_path(r"\\?\UNC\server\share"),
        "//server/share"
    );
    let shown = |path: &str, root: &str, platform| {
        history_artifacts::display_path_from(path, &display_root(root, platform))
    };
    assert_eq!(shown("/wide/a", "/w", HostPlatform::Other), "/wide/a");
    assert_eq!(shown("/w/a", "/w//", HostPlatform::Other), "a");
    assert_eq!(shown("/W/a", "/w", HostPlatform::Other), "/W/a");
    assert_eq!(shown(r"f:\HLS.js\a", r"F:\hls.js", HostPlatform::Windows), "a");
}

#[test]
fn a_required_confirmation_shows_its_command() {
    let (mut cycle, _) = cycles();
    cycle.promotion.ready = false;
    cycle.promotion.confirmation_required = true;
    let shown = history_screen::promotion_lines(&cycle);
    assert_eq!(
        line(shown.last().unwrap()),
        "bperf confirm 'benchmarks/parser suite'\"'\"'s $draft.bench.ts' cycle-22222222222222"
    );
}

#[test]
fn promotions_are_offered_only_when_they_can_be_made() {
    let (mut cycle, baseline) = cycles();
    let last = |cycle: &HistoryCycle| line(history_screen::promotion_lines(cycle).last().unwrap());
    assert_eq!(last(&cycle), "bperf accept cycle-22222222222222");
    assert_eq!(last(&baseline), "baseline b-01");
    cycle.promotable = false;
    assert_eq!(last(&cycle), "measure another candidate");
    assert!(lines(&history_screen::promotion_lines(&cycle)).contains("not promotable, not accepted"));
}

#[test]
fn artifact_overview_is_bounded_and_keeps_decision_metadata() {
    let artifacts: Vec<HistoryArtifact> = [
        (HistoryArtifactKind::CpuProfile, Some(Engine::Chromium)),
        (HistoryArtifactKind::Flamegraph, Some(Engine::Chromium)),
        (HistoryArtifactKind::HeapSnapshot, Some(Engine::Chromium)),
        (HistoryArtifactKind::CpuProfile, Some(Engine::Firefox)),
        (HistoryArtifactKind::Flamegraph, Some(Engine::Firefox)),
        (HistoryArtifactKind::HeapSnapshot, Some(Engine::Firefox)),
        (HistoryArtifactKind::CpuProfile, Some(Engine::Webkit)),
        (HistoryArtifactKind::Comparison, None),
        (HistoryArtifactKind::Sampling, None),
    ]
    .into_iter()
    .enumerate()
    .map(|(index, (kind, engine))| {
        artifact(kind, engine, &format!(".bperf/evidence/{index}.json"))
    })
    .collect();
    let overview = history_artifacts::artifact_overview(&artifacts);
    assert_eq!(overview.len(), 6);
    assert!(overview
        .iter()
        .any(|index| artifacts[*index].kind == HistoryArtifactKind::Comparison));
    assert!(overview
        .iter()
        .any(|index| artifacts[*index].kind == HistoryArtifactKind::Sampling));
    assert_eq!(overview, [0, 1, 2, 3, 7, 8]);
}

#[test]
fn compact_and_minimum_size_layouts_keep_the_interface_actionable() {
    let app = test_app();
    let cycle = app.selected_cycle().unwrap();
    let compact = lines(&history_panels::compact_detail_lines(
        cycle,
        &app.data.display_root,
        108,
        "Jan 15 08:00",
    ))
        + &line(&history_panels::footer_line(&None, 110));
    assert!(compact.contains("chromium"));
    assert!(compact.contains("ARTIFACTS"));
    assert!(compact.contains("p/e/i/n"));

    let small = lines(&terminal_ui::too_small_lines("bperf history", (80, 20), (92, 25)));
    assert!(small.contains("resize to at least 92x25"));
    assert!(small.contains("q quit"));
}

#[test]
fn fluid_horizontal_layout_keeps_explicit_column_gutters() {
    let mut app = test_app();
    app.data.details[0].cycle.artifacts.push(artifact(
        HistoryArtifactKind::HeapSnapshot,
        Some(Engine::Chromium),
        ".bperf/measurements/measure-candidate/chromium/heap.heapsnapshot",
    ));
    for width in [135, 139, 140, 150, 159] {
        let cycle = app.selected_cycle().unwrap();
        let fluid = lines(&history_panels::compact_detail_lines(
            cycle,
            &app.data.display_root,
            usize::from(width) * 62 / 100,
            "Jan 15 08:00",
        )) + &line(&history_panels::filter_line(&app, "", width));
        assert!(
            fluid.contains("chromium  positive"),
            "engine columns collided at {width} columns:\n{fluid}"
        );
        assert!(
            fluid.contains("heapsnapshot  .bperf"),
            "artifact columns collided at {width} columns:\n{fluid}"
        );
        assert!(
            fluid.contains("d 30d"),
            "medium-width filters did not compact at {width} columns:\n{fluid}"
        );
    }
    assert!(!line(&history_panels::filter_line(&app, "", 134)).contains("d 30d"));
}

#[test]
fn shortcuts_update_filters_selection_graphs_and_pickers() {
    let mut app = test_app();
    assert_eq!(
        app.selected_cycle().map(|cycle| cycle.selector.as_str()),
        Some("cycle-22222222222222")
    );

    press(&mut app, 'a');
    assert!(app.accepted_only);
    assert_eq!(
        app.selected_cycle().map(|cycle| cycle.selector.as_str()),
        Some("cycle-11111111111111")
    );

    press(&mut app, 'a');
    press(&mut app, 'p');
    assert!(!app.verdicts.positive);
    assert_eq!(app.visible_indices(NOW).len(), 1);

    press(&mut app, 'g');
    assert_eq!(app.graph_scope, GraphScope::VisibleCycles);

    press(&mut app, 'b');
    assert_eq!(app.picker.as_ref().map(|picker| picker.kind), Some(PickerKind::Benchmark));
    app.handle_key(key(KeyCode::Esc), NOW);

    app.verdicts.positive = true;
    app.ensure_selection(NOW);
    app.select_edge(false, NOW);
    press(&mut app, 'o');
    assert_eq!(app.picker.as_ref().map(|picker| picker.kind), Some(PickerKind::Artifact));

    let interrupt = Key { code: KeyCode::Char('c'), control: true, alt: false, shift: false };
    assert_eq!(app.handle_key(interrupt, NOW), HistoryStep::Quit);
}

#[test]
fn pickers_ask_for_what_they_chose() {
    let mut app = test_app();
    press(&mut app, 'b');
    assert_eq!(app.picker_item_count(), 1);
    assert_eq!(app.handle_key(key(KeyCode::Enter), NOW), HistoryStep::LoadBenchmark(0));
    let step = app.benchmark_loaded(overview(), NOW);
    assert_eq!(step, HistoryStep::LoadCycle(0));
    assert!(app.picker.is_none());
    assert!(app.selected_cycle().is_none());
    let (candidate, _) = cycles();
    app.cycle_loaded(candidate_id(), candidate);
    assert_eq!(app.load_selected_cycle(), HistoryStep::Continue);

    press(&mut app, 'o');
    press(&mut app, 'j');
    assert_eq!(app.handle_key(key(KeyCode::Enter), NOW), HistoryStep::OpenArtifact(1));
    assert_eq!(app.artifact_opened("a.json", Ok(())), HistoryStep::Continue);
    assert_eq!(app.notice.as_deref(), Some("opened a.json"));
    app.artifact_opened("a.json", Err("gone".to_owned()));
    assert_eq!(app.notice.as_deref(), Some("could not open artifact: gone"));

    press(&mut app, 'd');
    assert_eq!(app.picker.unwrap().selected, 2);
    app.handle_key(key(KeyCode::Home), NOW);
    app.handle_key(key(KeyCode::Enter), NOW);
    assert_eq!(app.date_range, DateRange::Last24Hours);
    assert_eq!(app.visible_indices(NOW), [0]);

    press(&mut app, 'l');
    assert_eq!(app.picker.unwrap().selected, 1);
    app.handle_key(key(KeyCode::Up), NOW);
    app.handle_key(key(KeyCode::Enter), NOW);
    assert_eq!(app.lineage_filter, None);
    assert_eq!(press(&mut app, 'q'), HistoryStep::Quit);
}

#[test]
fn pickers_without_a_choice_fail() {
    let mut app = test_app();
    app.data.index.benchmarks.clear();
    press(&mut app, 'b');
    let step = app.handle_key(key(KeyCode::Enter), NOW);
    assert_eq!(step, HistoryStep::Failed(HistoryFailure::NoBenchmark));
    assert_eq!(HistoryFailure::NoBenchmark.message(), "benchmark picker has no selection");
    app.picker = None;
    press(&mut app, 'd');
    app.picker.as_mut().unwrap().selected = 9;
    assert_eq!(
        app.handle_key(key(KeyCode::Enter), NOW),
        HistoryStep::Failed(HistoryFailure::NoDate)
    );
    app.picker = None;
    press(&mut app, 'o');
    app.picker.as_mut().unwrap().selected = 9;
    assert_eq!(
        app.handle_key(key(KeyCode::Enter), NOW),
        HistoryStep::Failed(HistoryFailure::NoArtifact)
    );
    app.picker = None;
    app.selected_cycle_id = Some("cycle-unknown".to_owned());
    assert_eq!(
        app.load_selected_cycle(),
        HistoryStep::Failed(HistoryFailure::MissingCycle)
    );
}

#[test]
fn lineages_follow_baselines_through_cycles() {
    let mut app = test_app();
    let mut stranger = app.data.overview.cycles[1].clone();
    stranger.cycle_id = "cycle-stranger".to_owned();
    stranger.baseline_cycle_id = Some("cycle-elsewhere".to_owned());
    app.data.overview.cycles.push(stranger);
    app.data.overview.cycles[1].baseline_cycle_id = Some(baseline_id());
    assert_eq!(app.visible_indices(NOW), [0, 1]);
    app.lineage_filter = None;
    assert_eq!(app.visible_indices(NOW), [0, 1, 2]);
    app.lineage_filter = Some("unknown".to_owned());
    assert_eq!(app.visible_indices(NOW), [0, 1, 2]);
}

#[test]
fn old_histories_open_over_all_dates() {
    let (candidate, _) = cycles();
    let mut old = overview();
    for cycle in &mut old.cycles {
        cycle.recorded_at_unix_ms = NOW - 90 * DAY;
    }
    let mut app = test_app();
    app.benchmark_loaded(old, NOW);
    assert_eq!(app.date_range, DateRange::All);
    assert_eq!(app.selected_cycle_id, Some(candidate.cycle_id));
}

#[test]
fn filters_hold_what_they_name() {
    let mut verdicts = VerdictFilters::default();
    assert!(verdicts.allows("negative") && verdicts.allows("measured") && !verdicts.allows("odd"));
    verdicts.toggle('n');
    assert!(!verdicts.allows("negative") && verdicts.allows("positive"));
    verdicts.toggle('n');
    assert_eq!(verdicts, VerdictFilters::default());
    assert!(DateRange::Last24Hours.contains(NOW - DAY, NOW));
    assert!(!DateRange::Last24Hours.contains(NOW - DAY - 1, NOW));
    assert!(DateRange::Last7Days.contains(NOW - DAY - 1, NOW));
    assert!(DateRange::All.contains(0, NOW));
    assert_eq!(DateRange::Last30Days.duration_ms(), Some(30 * DAY));
    assert_eq!(DateRange::Last30Days.start(5), Some(0));
    assert_eq!(DateRange::all().len(), 4);
    assert_eq!(DateRange::Last7Days.picker_label(), "last 7 days");
    let mut scope = GraphScope::AllCycles;
    scope.toggle();
    assert_eq!(scope.label(), "visible cycles");
}

#[test]
fn lists_show_what_they_offer() {
    let mut app = test_app();
    let dates = vec!["jan 2".to_owned()];
    press(&mut app, 'b');
    assert_eq!(
        history_panels::picker_items(&app, NOW, &dates),
        ["hls-mp4-parser                   2 cycles  3h ago"]
    );
    assert_eq!(
        history_panels::picker_items(&app, NOW + 60 * DAY, &dates),
        ["hls-mp4-parser                   2 cycles  jan 2"]
    );
    app.picker = None;
    press(&mut app, 'l');
    assert_eq!(
        history_panels::picker_items(&app, NOW, &dates),
        ["all lineages", "b-01     cycle-11111111111111 current"]
    );
    app.picker = None;
    press(&mut app, 'o');
    let offered = history_panels::picker_items(&app, NOW, &dates);
    assert_eq!(
        offered[0],
        "cpuprofile    chromium  page             .bperf/measurements/measure-candidate/chromium/cpu.json"
    );
    assert_eq!(offered.len(), app.picker_item_count());
    assert_eq!(history_panels::picker_title(PickerKind::Date), " DATE RANGE ");
    assert_eq!(history_panels::picker_size(PickerKind::Date, 4, 200, 44), (42, 8));
    assert_eq!(history_panels::picker_size(PickerKind::Artifact, 90, 92, 25), (84, 21));
    assert_eq!(history_panels::picker_size(PickerKind::Date, 0, 10, 5), (2, 6));
}

#[test]
fn bars_mark_the_interval_and_the_effect() {
    let marks = MetricMarks { interval: Some((6, 8)), effect: Some(7) };
    assert_eq!(history_screen::metric_bar(marks, 10), "·····│█┃█·");
    let none = MetricMarks { interval: None, effect: None };
    assert_eq!(history_screen::metric_bar(none, 3), "····│···");
    assert_eq!(history_screen::bar_width(99), 34);
    let beyond = MetricMarks { interval: Some((9, 99)), effect: None };
    assert_eq!(history_screen::metric_bar(beyond, 10), "·····│···█");
    assert_eq!(history_screen::mini_graph(None, None, None), "───");
    assert_eq!(history_screen::mini_graph(Some(0), None, Some(7)), "▁·█");
}

#[test]
fn engines_without_a_comparison_establish_evidence() {
    let (_, baseline) = cycles();
    let shown = lines(&history_screen::engine_lines(&baseline, Engine::Firefox, marks(), 38));
    assert_eq!(
        shown,
        "correct  pass 1/1 cases\n\nNo promoted baseline\nThis measurement establishes evidence.\n"
    );
    assert_eq!(
        line(&history_screen::compact_engine_line(&baseline, Engine::Firefox)),
        "firefox   measured · no promoted baseline"
    );
    let (mut candidate, _) = cycles();
    let engines = &mut candidate.comparison.as_mut().unwrap().engines;
    engines[0].correctness = "fail".to_owned();
    engines[0].anchor = None;
    engines[0].metrics.clear();
    let shown = lines(&history_screen::engine_lines(&candidate, Engine::Chromium, marks(), 38));
    assert_eq!(
        shown,
        "correct  fail · 1 cases evaluated\nanchor   unreported\n\nwall  unreported\n\ncpu   unreported\n\nheap  unreported\n"
    );
    assert_eq!(
        line(&history_screen::compact_engine_line(&candidate, Engine::Firefox)),
        "firefox   positive      anchor stable       wall +6.2%  cpu +5.7%  heap +4.8%"
    );
}

#[test]
fn artifacts_say_what_they_stand_for() {
    let mut captured = artifact(HistoryArtifactKind::HeapSnapshot, Some(Engine::Webkit), "h");
    assert_eq!(history_artifacts::artifact_overview_detail(&captured), "heap median");
    captured.capture_scope = Some("worker".to_owned());
    assert_eq!(history_artifacts::artifact_overview_detail(&captured), "scope worker");
    captured.kind = HistoryArtifactKind::Sampling;
    assert_eq!(history_artifacts::artifact_overview_detail(&captured), "pilot + final");
    assert_eq!(
        history_artifacts::artifact_kind_detail(HistoryArtifactKind::Comparison),
        "verdict evidence"
    );
    let (_, baseline) = cycles();
    assert_eq!(
        lines(&history_panels::artifact_lines(&baseline, &display_root(".", HostPlatform::Other), 80, 6)),
        "No retained artifacts for this cycle.\n"
    );
    assert!(lines(&history_panels::no_cycles_lines()).contains("No cycles match"));
    assert_eq!(history_panels::hidden_text(3), " … 3 cycles hidden by filters");
    let mut elsewhere = environment();
    elsewhere.os_release = "15.3".to_owned();
    assert_eq!(history_screen::host_platform(&elsewhere), "macos-15.3");
}

#[test]
fn the_history_is_arranged_by_the_size_of_the_screen() {
    assert_eq!(history_panels::arrangement(91, 60), Arrangement::TooSmall);
    assert_eq!(history_panels::arrangement(200, 24), Arrangement::TooSmall);
    assert_eq!(history_panels::arrangement(139, 60), Arrangement::Stacked);
    assert_eq!(history_panels::arrangement(140, 60), Arrangement::Beside);
    assert_eq!(history_panels::arrangement(160, 37), Arrangement::Beside);
    assert_eq!(history_panels::arrangement(160, 38), Arrangement::Wide);
}

#[test]
fn a_date_range_is_written_out() {
    assert_eq!(DateRange::Last7Days.filter_label("jul 10", "jul 17"), "jul 10 - jul 17");
    assert_eq!(DateRange::All.filter_label("jul 10", "jul 17"), "all dates");
}
