use bperf::benchmark_preview::{self, CasePreview, Token};
use bperf::browser_lab::Engine;
use bperf::run_screen::{self, Trend};
use bperf::run_tui::{
    self, App, BenchmarkModule, Budget, Catalog, Editor, EditorKind, EngineMedians,
    PickerStep, RunHistory, ScanError,
};
use bperf::terminal_ui::{self, Arrangement, Key, KeyCode, Segment, Tone};

const NOW: u64 = 1_800_000_000_000;

const BENCHMARK_SOURCE: &str = r#"
import {
  defineBrowserBenchmark,
  exact,
  fixture,
} from "bperf/browser";

const stream = fixture("./stream.bin");

export default defineBrowserBenchmark({
  id: "ts-demuxer",
  cases: [
    {
      id: "ts-188",
      setup() {},
      expect: exact({ packets: 12 }),
      measure() {},
    },
    {
      id: "aac-adts",
      setup: () => {},
      expect: exact({ frames: 4 }),
      measure() {},
    },
  ],
});
"#;

fn key(code: KeyCode) -> Key {
    Key { code, control: false, alt: false, shift: false }
}

fn history() -> RunHistory {
    let medians = Engine::all()
        .into_iter()
        .enumerate()
        .map(|(index, engine)| EngineMedians {
            engine,
            wall_number: Some(format!("{}", 186 + index)),
            wall: Some(format!("{} ms", 186 + index)),
            cpu: Some(format!("{} ms", 178 + index)),
            heap: Some("71.3 MB".to_owned()),
            allocated: None,
        })
        .collect();
    RunHistory {
        cycle_count: 23,
        accepted_count: 7,
        latest_recorded_at_unix_ms: NOW - 6 * 24 * 60 * 60_000,
        latest_outcome: "positive".to_owned(),
        latest_message: Some("Skip the PES header re-scan".to_owned()),
        current_baseline_label: Some("b-07".to_owned()),
        medians: Some(medians),
    }
}

fn module(path: &str, source: &str, history: Option<RunHistory>) -> BenchmarkModule {
    let parsed = benchmark_preview::parse_benchmark_source(source);
    let full = format!("/workspace/{path}");
    let sizes = parsed.fixtures.iter().map(|_| Some("1.0 KiB".to_owned())).collect();
    BenchmarkModule::load("/workspace", full, parsed, "512 B".to_owned(), &sizes, history)
}

fn test_app() -> App {
    let found = ["demuxer.bench.ts", "ignored.ts", "nested/playlist.bench.ts"]
        .into_iter()
        .filter(|name| run_tui::is_benchmark_name(name.rsplit('/').next().unwrap()));
    let modules = found
        .map(|name| {
            if name.starts_with("nested") {
                module(
                    "benchmarks/nested/playlist.bench.ts",
                    r#"export default defineBrowserBenchmark({ id: "playlist", cases: [] });"#,
                    None,
                )
            } else {
                module(&format!("benchmarks/{name}"), BENCHMARK_SOURCE, Some(history()))
            }
        })
        .collect();
    let catalog = Catalog::new("/workspace/benchmarks".to_owned(), modules);
    let selected_path = catalog.modules.first().map(|module| module.path.clone());
    App {
        workspace_root: "/workspace".to_owned(),
        catalog,
        selected_path,
        filter: String::new(),
        message: None,
        budget: Budget { text: "5m".to_owned(), milliseconds: 300_000 },
        editor: None,
        notice: None,
        selection: None,
    }
}

fn line(segments: &[Segment]) -> String {
    segments.iter().map(|segment| segment.text.as_str()).collect()
}

fn lines(all: &[Vec<Segment>]) -> String {
    all.iter().map(|segments| line(segments) + "\n").collect()
}

#[test]
fn static_preview_ignores_imports_and_reads_literal_benchmark_metadata() {
    let parsed = benchmark_preview::parse_benchmark_source(BENCHMARK_SOURCE);
    assert_eq!(parsed.id.as_deref(), Some("ts-demuxer"));
    assert_eq!(parsed.fixtures, ["./stream.bin"]);
    assert_eq!(parsed.cases.len(), 2);
    assert_eq!(parsed.cases[0].id, "ts-188");
    assert!(parsed.cases[0].setup);
    assert!(parsed.cases[0].exact);
    assert!(parsed.cases[1].setup);
    assert!(parsed.literal_definition);
}

#[test]
fn sources_are_read_without_comments() {
    let tokens = benchmark_preview::tokenize_typescript("a /* b */ \"c\\\"d\" // e\n(");
    assert_eq!(tokens.len(), 3);
    assert!(matches!(&tokens[0], Token::Identifier(name) if name == "a"));
    assert!(matches!(&tokens[1], Token::Text(_)));
    assert!(matches!(&tokens[2], Token::Punct('(')));
    let nested = benchmark_preview::tokenize_typescript("{ { } }");
    assert_eq!(benchmark_preview::matching_delimiter(&nested, 0, '{', '}'), Some(3));
    assert_eq!(benchmark_preview::matching_delimiter(&nested, 1, '{', '}'), Some(2));
}

#[test]
fn fixtures_are_previewed_once() {
    let parsed = benchmark_preview::parse_benchmark_source(
        r#"const a = fixture("./a.bin"); const b = fixture("./a.bin"); const c = fixture("./b.bin");"#,
    );
    assert_eq!(parsed.fixtures, ["./a.bin", "./b.bin"]);
    assert!(!parsed.literal_definition);
    assert_eq!(parsed.id, None);
}

#[test]
fn catalog_recurses_for_benchmark_modules_and_joins_history_by_id() {
    let app = test_app();
    assert_eq!(app.catalog.modules.len(), 2);
    assert_eq!(app.catalog.nested_count, 1);
    assert_eq!(app.catalog.known_case_count, 2);
    assert_eq!(app.catalog.modules[0].id, "ts-demuxer");
    assert_eq!(
        app.catalog.modules[0].history.as_ref().map(|history| history.cycle_count),
        Some(23)
    );
    assert_eq!(
        app.catalog.modules[1].relative_path,
        "benchmarks/nested/playlist.bench.ts"
    );
}

#[test]
fn modules_are_listed_by_their_last_run_then_by_name() {
    let named = |id: &str, history| {
        let mut module = module(&format!("benchmarks/{id}.bench.ts"), "", history);
        module.id = id.to_owned();
        module
    };
    let mut recent = history();
    recent.latest_recorded_at_unix_ms = NOW;
    let catalog = Catalog::new(
        "/workspace/benchmarks".to_owned(),
        vec![
            named("z", None),
            named("b", None),
            named("old", Some(history())),
            named("new", Some(recent)),
        ],
    );
    let order: Vec<&str> = catalog.modules.iter().map(|module| module.id.as_str()).collect();
    assert_eq!(order, ["new", "old", "b", "z"]);
    assert_eq!(run_tui::fallback_id("/w/a.bench.ts"), "a");
}

#[test]
fn wide_screen_contains_the_reference_information_hierarchy_and_shortcuts() {
    let app = test_app();
    let module = app.selected_module().unwrap();
    let trend = Trend {
        cycles: 5,
        endpoints: Some("240 → 186".to_owned()),
        levels: vec![7, 5, 3, 2, 0],
    };
    let screen = [
        line(&run_screen::header_line(&app)),
        run_screen::scan_line(&app),
        line(&run_screen::list_title_line(84)),
        lines(&run_screen::module_item(module, 84, NOW, "█▆▄▃▁")),
        lines(&run_screen::module_summary(module, 110, NOW)),
        " CASES ".to_owned(),
        lines(&run_screen::case_panel_lines(module, 70)),
        " LAST MEDIANS ".to_owned(),
        lines(&run_screen::median_panel_lines(module, 38)),
        " TREND ".to_owned(),
        lines(&run_screen::trend_lines(&module.history, &trend, 110)),
        lines(&run_screen::editor_or_action_lines(&app, module, 110)),
        line(&run_screen::context_line(&app.notice)),
        line(&run_screen::footer_line()),
    ]
    .join("\n");
    for expected in [
        "bperf",
        "run",
        "budget",
        "chromium firefox webkit",
        "BENCHMARK MODULES",
        "ts-demuxer",
        "23 runs",
        "POSITIVE",
        "CASES",
        "ts-188",
        "FIXTURES",
        "LAST MEDIANS",
        "TREND",
        "Skip the PES header re-scan",
        "record a message and run ts-demuxer",
        "select / start",
        "message",
        "directory",
        "quit",
    ] {
        assert!(screen.contains(expected), "run picker omitted {expected:?}:\n{screen}");
    }
    assert!(screen.contains("5 cycles · 240 → 186  █▆▄▃▁"));
    assert!(screen.contains(
        "scanning benchmarks/**/*.bench.ts · 2 modules · 2 known cases · 1 nested "
    ));
}

#[test]
fn enter_collects_a_message_and_returns_the_selected_benchmark() {
    let mut app = test_app();
    assert!(matches!(app.handle_key(key(KeyCode::Enter)), PickerStep::Continue));
    assert_eq!(
        app.editor.as_ref().map(|editor| editor.kind),
        Some(EditorKind::Message)
    );
    for character in "Avoid temporary strings".chars() {
        app.handle_key(key(KeyCode::Char(character)));
    }
    assert!(matches!(app.handle_key(key(KeyCode::Enter)), PickerStep::Quit));
    let selection = app.selection.unwrap();
    assert!(selection.benchmark.ends_with("benchmarks/demuxer.bench.ts"));
    assert_eq!(selection.message.as_deref(), Some("Avoid temporary strings"));
    assert_eq!(selection.budget.milliseconds, 300_000);
    assert_eq!(selection.budget.text, "5m");
}

#[test]
fn filter_and_budget_shortcuts_update_picker_state() {
    let mut app = test_app();
    app.handle_key(key(KeyCode::Char('/')));
    for character in "playlist".chars() {
        app.handle_key(key(KeyCode::Char(character)));
    }
    assert_eq!(
        app.selected_module().map(|module| module.id.as_str()),
        Some("playlist")
    );
    app.handle_key(key(KeyCode::Enter));
    app.handle_key(key(KeyCode::Char('b')));
    for _ in 0.."5m".chars().count() {
        app.handle_key(key(KeyCode::Backspace));
    }
    for character in "30s".chars() {
        app.handle_key(key(KeyCode::Char(character)));
    }
    let step = app.handle_key(key(KeyCode::Enter));
    let PickerStep::ReadBudget { requested, value } = step else {
        panic!("{step:?}");
    };
    assert_eq!(requested, "30s");
    app.budget_read(value, Ok(Budget { text: "30s".to_owned(), milliseconds: 30_000 }));
    assert_eq!(app.budget.milliseconds, 30_000);
    assert_eq!(app.notice.as_deref(), Some("measurement budget set to 30s"));
}

#[test]
fn a_refused_budget_or_directory_stays_in_its_editor() {
    let mut app = test_app();
    app.budget_read("soon".to_owned(), Err("invalid budget".to_owned()));
    let editor = app.editor.take().unwrap();
    assert_eq!(editor.kind, EditorKind::Budget);
    assert_eq!(editor.value, "soon");
    assert_eq!(editor.error.as_deref(), Some("invalid budget"));
    app.handle_key(key(KeyCode::Char('d')));
    let step = app.handle_key(key(KeyCode::Enter));
    let PickerStep::Scan { requested, value } = step else {
        panic!("{step:?}");
    };
    assert_eq!(requested, "benchmarks");
    app.directory_scanned(value, Err("no such directory".to_owned()));
    assert_eq!(app.editor.as_ref().unwrap().kind, EditorKind::Directory);
    app.editor = None;
    app.directory_scanned(
        "other".to_owned(),
        Ok(Catalog::new("/workspace/other".to_owned(), vec![])),
    );
    assert_eq!(app.catalog.root, "/workspace/other");
    assert_eq!(app.selected_path, None);
    app.handle_key(key(KeyCode::Enter));
    assert_eq!(app.notice.as_deref(), Some("no benchmark module is selected"));
}

#[test]
fn escaping_the_filter_restores_it() {
    let mut app = test_app();
    app.filter = "ts".to_owned();
    app.handle_key(key(KeyCode::Char('/')));
    app.handle_key(key(KeyCode::Char('x')));
    assert_eq!(app.filter, "tsx");
    assert!(app.visible_indices().is_empty());
    assert!(!app.has_selected_module());
    app.handle_key(key(KeyCode::Esc));
    assert_eq!(app.filter, "ts");
    assert!(app.has_selected_module());
}

#[test]
fn the_selection_moves_through_visible_modules() {
    let mut app = test_app();
    app.handle_key(key(KeyCode::Down));
    assert_eq!(app.selected_module().unwrap().id, "playlist");
    app.handle_key(key(KeyCode::Char('j')));
    assert_eq!(app.selected_module().unwrap().id, "playlist");
    app.handle_key(key(KeyCode::Home));
    assert_eq!(app.selected_module().unwrap().id, "ts-demuxer");
    app.handle_key(key(KeyCode::End));
    assert_eq!(app.selected_module().unwrap().id, "playlist");
    let quit = Key { code: KeyCode::Char('c'), control: true, alt: false, shift: false };
    assert!(matches!(app.handle_key(quit), PickerStep::Quit));
    assert!(terminal_ui::is_interrupt(quit));
}

#[test]
fn deleting_undoes_typing() {
    let mut editor = Editor::new(EditorKind::Message, "ab".to_owned(), String::new());
    assert_eq!(editor.cursor, 2);
    editor.cursor = 1;
    editor.insert('é');
    assert_eq!((editor.value.as_str(), editor.cursor), ("aéb", 2));
    editor.backspace();
    assert_eq!((editor.value.as_str(), editor.cursor), ("ab", 1));
    editor.delete();
    assert_eq!((editor.value.as_str(), editor.cursor), ("a", 1));
    assert_eq!(run_tui::input_with_cursor("ab", 1), "a█b");
    assert_eq!(run_tui::input_with_cursor("ab", 2), "ab█");
    assert_eq!(run_tui::input_with_cursor("ab", 9), "ab█");
}

#[test]
fn cases_and_medians_fill_their_columns() {
    let case = CasePreview { id: "ts-188".to_owned(), setup: true, exact: true };
    assert_eq!(line(&run_screen::case_line(&case, 40)), "ts-188        expect exact() · setup()");
    let plain = CasePreview { id: "a-long-case-name".to_owned(), setup: false, exact: false };
    assert_eq!(line(&run_screen::case_line(&plain, 25)), "a-long-ca…expect dynamic");
    let medians = history().medians.unwrap();
    assert_eq!(run_screen::compact_wall_values(&medians), "wall 186/187/188ms");
    let table = run_screen::median_lines(&medians, 60);
    assert_eq!(table.len(), 4);
    assert_eq!(line(&table[1]), format!("{:<20} {}", "chromium", "   186 ms    178 ms   71.3 MB       n/a"));
    assert_eq!(run_screen::budget_clock(300_000), "05:00");
    assert_eq!(run_screen::budget_clock(6_061_999), "101:01");
    assert_eq!(run_screen::outcome_mark("negative"), 'N');
    assert_eq!(run_screen::outcome_mark("measured"), '·');
    assert_eq!(run_screen::outcome_tone("equivalent"), Tone::Blue);
    assert!(run_screen::empty_list_text(true).contains("Press d"));
    assert!(run_screen::empty_list_text(false).contains("Press /"));
}

#[test]
fn compact_details_hold_the_action() {
    let app = test_app();
    let playlist = &app.catalog.modules[1];
    let shown = lines(&run_screen::compact_detail_lines(&app, playlist, 60, NOW));
    assert!(shown.starts_with("no recorded runs\n\nCases are discovered during run preflight.\n\n\n"));
    let demuxer = &app.catalog.modules[0];
    let shown = lines(&run_screen::compact_detail_lines(&app, demuxer, 60, NOW));
    assert!(shown.starts_with("23 runs · 7 accepted · last 6d ago\n"));
    assert!(shown.contains("baseline  b-07\nlast msg  Skip the PES header re-scan\n"));
}

#[test]
fn texts_fit_their_widths() {
    assert_eq!(terminal_ui::clip("abcdef", 4), "abc…");
    assert_eq!(terminal_ui::clip("abc", 3), "abc");
    assert_eq!(terminal_ui::clip("abc", 1), "…");
    assert_eq!(terminal_ui::clip("abc", 0), "");
    assert_eq!(terminal_ui::fill("ab", 4), "ab  ");
    assert_eq!(terminal_ui::fill_before("ab", 4), "  ab");
    assert_eq!(terminal_ui::width_of("é…"), 2);
    assert_eq!(terminal_ui::fit_sides("left", "right", 12), "left   right");
    assert_eq!(terminal_ui::fit_sides("left side", "right", 10), "lef… right");
    assert_eq!(terminal_ui::fit_sides("left", "right", 6), "right");
    assert_eq!(terminal_ui::fit_sides("left", "right", 3), "ri…");
    assert_eq!(terminal_ui::fit_sides("left", "right", 0), "");
    assert_eq!(terminal_ui::bars(&vec![0, 3, 7, 9]), "▁▄██");
    assert_eq!(terminal_ui::bar(6), '▇');
}

#[test]
fn ages_are_told_in_whole_units() {
    for (elapsed, expected) in [
        (0, "now"),
        (59_999, "now"),
        (60_000, "1m ago"),
        (3_599_999, "59m ago"),
        (3_600_000, "1h ago"),
        (86_400_000, "1d ago"),
        (40 * 86_400_000, "40d ago"),
    ] {
        assert_eq!(terminal_ui::relative_age(NOW, NOW - elapsed), expected);
    }
    assert_eq!(terminal_ui::relative_age(NOW, NOW + 5), "now");
}

#[test]
fn moves_stay_in_their_list() {
    assert_eq!(terminal_ui::offset_index(0, -1, 3), 0);
    assert_eq!(terminal_ui::offset_index(2, 1, 3), 2);
    assert_eq!(terminal_ui::offset_index(1, 1, 3), 2);
    assert_eq!(terminal_ui::offset_index(5, -2, 3), 3);
    assert_eq!(terminal_ui::offset_index(0, 1, 0), 0);
    assert_eq!(terminal_ui::offset_index(2, -2, 3), 0);
    assert_eq!(terminal_ui::offset_index(2, isize::MIN, 3), 0);
    assert_eq!(terminal_ui::offset_index(usize::MAX, isize::MIN, 3), isize::MAX as usize);
    assert_eq!(terminal_ui::offset_index(0, isize::MAX, 3), 2);
}

#[test]
fn small_terminals_are_told_what_is_needed() {
    let shown = lines(&terminal_ui::too_small_lines("bperf run", (80, 20), (92, 25)));
    assert!(shown.contains("Terminal is 80x20; resize to at least 92x25."));
    assert!(shown.contains("q quit"));
}

#[test]
fn a_module_is_joined_with_the_run_of_its_name_or_its_file() {
    let literal = benchmark_preview::parse_benchmark_source(BENCHMARK_SOURCE);
    let dynamic = benchmark_preview::parse_benchmark_source("export default make();");
    let runs = vec!["demuxer".to_owned(), "ts-demuxer".to_owned(), "other".to_owned()];
    let path = "/workspace/benchmarks/demuxer.bench.ts";
    assert_eq!(run_tui::find_history(&runs, &literal, path), Some(1));
    assert_eq!(run_tui::find_history(&runs, &dynamic, path), Some(0));
    assert_eq!(run_tui::find_history(&vec!["demuxer".to_owned()], &literal, path), Some(0));
    assert_eq!(run_tui::find_history(&vec!["other".to_owned()], &literal, path), None);

    let found = BenchmarkModule::load(
        "/workspace",
        path.to_owned(),
        dynamic,
        "22 B".to_owned(),
        &vec![],
        None,
    );
    assert_eq!(found.id, "demuxer");
    assert_eq!(found.relative_path, "benchmarks/demuxer.bench.ts");
    assert_eq!(
        found.metadata_note.as_deref(),
        Some("metadata is dynamic; bperf validates it before measurement")
    );
    let sizes = vec![Some("4 B".to_owned())];
    let found = BenchmarkModule::load(
        "/workspace",
        path.to_owned(),
        literal,
        "22 B".to_owned(),
        &sizes,
        Some(history()),
    );
    assert_eq!(found.id, "ts-demuxer");
    assert_eq!(found.fixtures[0].source, "./stream.bin");
    assert_eq!(found.fixtures[0].size.as_deref(), Some("4 B"));
    assert!(found.metadata_note.is_none());
}

#[test]
fn only_directories_of_the_workspace_are_scanned() {
    assert_eq!(run_tui::check_directory("/workspace", "/workspace/benchmarks", true), Ok(()));
    assert_eq!(run_tui::check_directory("/workspace", "/workspace", true), Ok(()));
    assert_eq!(
        run_tui::check_directory("/workspace", "/workspace/a.bench.ts", false),
        Err(ScanError::NotADirectory)
    );
    assert_eq!(
        run_tui::check_directory("/workspace", "/workspaces", true),
        Err(ScanError::OutsideWorkspace)
    );
    assert_eq!(
        ScanError::OutsideWorkspace.message("/other", "/workspace"),
        "benchmark directory /other is outside the current workspace /workspace"
    );
    assert_eq!(
        ScanError::NotADirectory.message("/workspace/a", "/workspace"),
        "benchmark selection requires a directory: /workspace/a"
    );
}

#[test]
fn the_picker_opens_on_its_first_module() {
    let catalog = Catalog::new(
        "/workspace/benchmarks".to_owned(),
        vec![
            module("benchmarks/b.bench.ts", "", None),
            module("benchmarks/a.bench.ts", "", None),
        ],
    );
    let budget = Budget { text: "5m".to_owned(), milliseconds: 300_000 };
    let app = App::load("/workspace".to_owned(), catalog, None, budget);
    assert_eq!(app.selected_path.as_deref(), Some("/workspace/benchmarks/a.bench.ts"));
    assert_eq!(app.filter, "");
    assert!(app.selection.is_none());
}

#[test]
fn the_picker_is_arranged_by_the_size_of_the_screen() {
    assert_eq!(run_screen::arrangement(99, 60), Arrangement::TooSmall);
    assert_eq!(run_screen::arrangement(200, 27), Arrangement::TooSmall);
    assert_eq!(run_screen::arrangement(135, 60), Arrangement::Stacked);
    assert_eq!(run_screen::arrangement(136, 39), Arrangement::Beside);
    assert_eq!(run_screen::arrangement(136, 40), Arrangement::Wide);
}
