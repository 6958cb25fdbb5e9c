//! The lines of the screen on which a benchmark is picked.

use vstd::prelude::*;
use vstd::string::*;

use crate::benchmark_preview::CasePreview;
use crate::browser_lab;
use crate::browser_lab::Engine;
use crate::run_tui;
use crate::run_tui::{App, BenchmarkModule, Editor, EditorKind, EngineMedians, RunHistory};
use crate::terminal_ui;
use crate::terminal_ui::{Arrangement, Segment, SegmentView, Tone};
use crate::text;

verus! {

// The screen.

/// The least width that the screen needs.
pub const LEAST_WIDTH: u16 = 100;

/// The least height that the screen needs.
pub const LEAST_HEIGHT: u16 = 28;

/// How wide the screen is where its parts stand side by side.
pub const SIDE_WIDTH: u16 = 136;

/// How many lines stand above and below the list and what is selected.
pub const FRAME_HEIGHT: u16 = 10;

/// How many lines the full account of what is selected needs.
pub const FULL_HEIGHT: u16 = 30;

/// How the parts stand on a screen of a size.
pub open spec fn arranged(width: u16, height: u16) -> Arrangement {
    if width < LEAST_WIDTH || height < LEAST_HEIGHT {
        Arrangement::TooSmall
    } else if width < SIDE_WIDTH {
        Arrangement::Stacked
    } else if height - FRAME_HEIGHT >= FULL_HEIGHT {
        Arrangement::Wide
    } else {
        Arrangement::Beside
    }
}

/// How the parts stand on a screen of a size.
pub fn arrangement(width: u16, height: u16) -> (r: Arrangement)
    ensures
        r == arranged(width, height),
{
    if width < LEAST_WIDTH || height < LEAST_HEIGHT {
        Arrangement::TooSmall
    } else if width < SIDE_WIDTH {
        Arrangement::Stacked
    } else if height - FRAME_HEIGHT >= FULL_HEIGHT {
        Arrangement::Wide
    } else {
        Arrangement::Beside
    }
}

/// A larger screen shows no less.
pub proof fn a_larger_screen_shows_no_less(width: u16, height: u16, wider: u16, higher: u16)
    requires
        width <= wider,
        height <= higher,
    ensures
        terminal_ui::extent(arranged(width, height)) <= terminal_ui::extent(
            arranged(wider, higher),
        ),
{
}

/// What is left of a width; zero where nothing is.
pub open spec fn left_of(width: int, used: int) -> nat {
    if width > used {
        (width - used) as nat
    } else {
        0
    }
}

/// What is left of a width.
pub fn rest_of(width: usize, used: usize) -> (r: usize)
    ensures
        r == left_of(width as int, used as int),
{
    if width > used {
        width - used
    } else {
        0
    }
}

// Outcomes.

/// The letter of an outcome.
pub open spec fn mark_of(outcome: Seq<char>) -> char {
    if outcome == "positive"@ {
        'P'
    } else if outcome == "equivalent"@ {
        'E'
    } else if outcome == "inconclusive"@ {
        'I'
    } else if outcome == "negative"@ {
        'N'
    } else {
        '·'
    }
}

/// The letter of an outcome.
pub fn outcome_mark(outcome: &str) -> (r: char)
    ensures
        r == mark_of(outcome@),
{
    if text::same(outcome, "positive") {
        'P'
    } else if text::same(outcome, "equivalent") {
        'E'
    } else if text::same(outcome, "inconclusive") {
        'I'
    } else if text::same(outcome, "negative") {
        'N'
    } else {
        '·'
    }
}

/// The colour of an outcome.
pub open spec fn tone_of(outcome: Seq<char>) -> Tone {
    if outcome == "positive"@ {
        Tone::Green
    } else if outcome == "equivalent"@ {
        Tone::Blue
    } else if outcome == "inconclusive"@ {
        Tone::Amber
    } else if outcome == "negative"@ {
        Tone::Red
    } else {
        Tone::Muted
    }
}

/// The colour of an outcome.
pub fn outcome_tone(outcome: &str) -> (r: Tone)
    ensures
        r == tone_of(outcome@),
{
    if text::same(outcome, "positive") {
        Tone::Green
    } else if text::same(outcome, "equivalent") {
        Tone::Blue
    } else if text::same(outcome, "inconclusive") {
        Tone::Amber
    } else if text::same(outcome, "negative") {
        Tone::Red
    } else {
        Tone::Muted
    }
}

/// How many runs there were, in words.
pub open spec fn runs_text(count: nat) -> Seq<char> {
    text::decimal(count) + if count == 1 {
        " run"@
    } else {
        " runs"@
    }
}

fn runs(count: u64) -> (r: String)
    ensures
        r@ == runs_text(count as nat),
{
    let mut out = text::decimal_text(count);
    if count == 1 {
        out.append(" run");
    } else {
        out.append(" runs");
    }
    out
}

/// A text of one character.
pub fn one_char(c: char) -> (r: String)
    ensures
        r@ == seq![c],
{
    let mut out = String::new();
    out.push(c);
    assert(out@ == seq![c]);
    out
}

// Medians.

/// The first medians of an engine.
pub open spec fn medians_of(medians: Seq<EngineMedians>, engine: Engine) -> Option<EngineMedians>
    decreases medians.len(),
{
    if medians.len() == 0 {
        None
    } else if medians[0].engine == engine {
        Some(medians[0])
    } else {
        medians_of(medians.drop_first(), engine)
    }
}

fn find_medians(medians: &Vec<EngineMedians>, engine: Engine) -> (r: Option<&EngineMedians>)
    ensures
        match medians_of(medians@, engine) {
            Some(found) => r == Some(&found),
            None => r is None,
        },
{
    let mut i: usize = 0;
    assert(medians@.skip(0) == medians@);
    while i < medians.len()
        invariant
            i <= medians@.len(),
            medians_of(medians@, engine) == medians_of(medians@.skip(i as int), engine),
        decreases medians@.len() - i,
    {
        assert(medians@.skip(i as int)[0] == medians@[i as int]);
        assert(medians@.skip(i as int).drop_first() == medians@.skip(i + 1));
        if medians[i].engine == engine {
            return Some(&medians[i]);
        }
        i += 1;
    }
    None
}

/// A text, or what stands for its absence.
pub open spec fn text_or(value: Option<String>, other: Seq<char>) -> Seq<char> {
    match value {
        Some(value) => value@,
        None => other,
    }
}

/// A text, or what stands for its absence.
pub fn shown_or(value: &Option<String>, other: &str) -> (r: String)
    ensures
        r@ == text_or(*value, other@),
{
    match value {
        Some(value) => value.clone(),
        None => other.to_owned(),
    }
}

/// A value, or that there is none.
pub open spec fn value_or(value: Option<String>) -> Seq<char> {
    text_or(value, "n/a"@)
}

fn shown_value(value: &Option<String>) -> (r: String)
    ensures
        r@ == value_or(*value),
{
    shown_or(value, "n/a")
}

/// The wall time of an engine.
pub open spec fn wall_of(medians: Seq<EngineMedians>, engine: Engine) -> Seq<char> {
    match medians_of(medians, engine) {
        Some(found) => value_or(found.wall_number),
        None => "n/a"@,
    }
}

fn shown_wall(medians: &Vec<EngineMedians>, engine: Engine) -> (r: String)
    ensures
        r@ == wall_of(medians@, engine),
{
    match find_medians(medians, engine) {
        Some(found) => shown_value(&found.wall_number),
        None => "n/a".to_owned(),
    }
}

/// The wall times of all engines.
pub open spec fn walls_text(medians: Seq<EngineMedians>) -> Seq<char> {
    "wall "@ + wall_of(medians, Engine::Chromium) + "/"@ + wall_of(medians, Engine::Firefox) + "/"@
        + wall_of(medians, Engine::Webkit) + "ms"@
}

/// The wall times of all engines.
pub fn compact_wall_values(medians: &Vec<EngineMedians>) -> (r: String)
    ensures
        r@ == walls_text(medians@),
{
    let mut out = "wall ".to_owned();
    out.append(&shown_wall(medians, Engine::Chromium));
    out.append("/");
    out.append(&shown_wall(medians, Engine::Firefox));
    out.append("/");
    out.append(&shown_wall(medians, Engine::Webkit));
    out.append("ms");
    out
}

/// The medians of an engine, in columns.
pub open spec fn columns_of(medians: Option<EngineMedians>) -> Seq<char> {
    let (wall, cpu, heap, allocated) = match medians {
        Some(found) => (
            value_or(found.wall),
            value_or(found.cpu),
            value_or(found.heap),
            value_or(found.allocated),
        ),
        None => ("n/a"@, "n/a"@, "n/a"@, "n/a"@),
    };
    terminal_ui::filled_before(wall, 9) + " "@ + terminal_ui::filled_before(cpu, 9) + " "@
        + terminal_ui::filled_before(heap, 9) + " "@ + terminal_ui::filled_before(allocated, 9)
}

fn columns(medians: Option<&EngineMedians>) -> (r: String)
    ensures
        r@ == columns_of(
            match medians {
                Some(medians) => Some(*medians),
                None => None,
            },
        ),
{
    let (wall, cpu, heap, allocated) = match medians {
        Some(found) => (
            shown_value(&found.wall),
            shown_value(&found.cpu),
            shown_value(&found.heap),
            shown_value(&found.allocated),
        ),
        None => ("n/a".to_owned(), "n/a".to_owned(), "n/a".to_owned(), "n/a".to_owned()),
    };
    let mut out = terminal_ui::fill_before(&wall, 9);
    out.append(" ");
    out.append(&terminal_ui::fill_before(&cpu, 9));
    out.append(" ");
    out.append(&terminal_ui::fill_before(&heap, 9));
    out.append(" ");
    out.append(&terminal_ui::fill_before(&allocated, 9));
    out
}

/// The medians of one engine in a line.
pub open spec fn median_line(medians: Seq<EngineMedians>, engine: Engine, width: nat) -> Seq<
    SegmentView,
> {
    seq![
        terminal_ui::toned(
            terminal_ui::sides(
                browser_lab::engine_name(engine),
                columns_of(medians_of(medians, engine)),
                width,
            ),
            Tone::Plain,
        ),
    ]
}

/// The table of medians.
pub open spec fn median_table(medians: Seq<EngineMedians>, width: nat) -> Seq<Seq<SegmentView>> {
    seq![
        seq![
            terminal_ui::toned(
                terminal_ui::sides(""@, "wall       cpu       heap      alloc"@, width),
                Tone::Plain,
            ),
        ],
        median_line(medians, Engine::Chromium, width),
        median_line(medians, Engine::Firefox, width),
        median_line(medians, Engine::Webkit, width),
    ]
}

fn engine_line(medians: &Vec<EngineMedians>, engine: Engine, width: usize) -> (r: Vec<Segment>)
    ensures
        terminal_ui::line_view(r@) == median_line(medians@, engine, width as nat),
{
    let values = columns(find_medians(medians, engine));
    terminal_ui::line_of(
        Segment::toned(terminal_ui::fit_sides(engine.as_str(), &values, width), Tone::Plain),
    )
}

/// The table of medians.
pub fn median_lines(medians: &Vec<EngineMedians>, width: usize) -> (r: Vec<Vec<Segment>>)
    ensures
        terminal_ui::lines_view(r@) == median_table(medians@, width as nat),
{
    let mut out: Vec<Vec<Segment>> = Vec::new();
    let head = terminal_ui::fit_sides("", "wall       cpu       heap      alloc", width);
    terminal_ui::push_line(
        &mut out,
        terminal_ui::line_of(Segment::toned(head, Tone::Plain)),
    );
    terminal_ui::push_line(&mut out, engine_line(medians, Engine::Chromium, width));
    terminal_ui::push_line(&mut out, engine_line(medians, Engine::Firefox, width));
    terminal_ui::push_line(&mut out, engine_line(medians, Engine::Webkit, width));
    assert(terminal_ui::lines_view(out@) == median_table(medians@, width as nat));
    out
}

// Cases.

/// What a case expects.
pub open spec fn contract_text(case: CasePreview) -> Seq<char> {
    let expected = if case.exact {
        "expect exact()"@
    } else {
        "expect dynamic"@
    };
    if case.setup {
        expected + " · setup()"@
    } else {
        expected
    }
}

/// How much room a contract takes beside the name of its case: as many places as it has bytes, and
/// one more.
pub open spec fn contract_room(case: CasePreview) -> int {
    if case.setup {
        26
    } else {
        15
    }
}

/// A case in a line: its name, cut to what the contract leaves, and the contract.
pub open spec fn case_segments(case: CasePreview, width: nat) -> Seq<SegmentView> {
    let room = left_of(width as int, contract_room(case));
    seq![
        terminal_ui::strong(
            terminal_ui::filled(terminal_ui::clipped(case.id@, room), room),
            Tone::Text,
        ),
        terminal_ui::toned(contract_text(case), Tone::Muted),
    ]
}

/// A case in a line.
pub fn case_line(case: &CasePreview, width: usize) -> (r: Vec<Segment>)
    ensures
        terminal_ui::line_view(r@) == case_segments(*case, width as nat),
{
    let mut contract = if case.exact {
        "expect exact()".to_owned()
    } else {
        "expect dynamic".to_owned()
    };
    let used: usize = if case.setup {
        26
    } else {
        15
    };
    if case.setup {
        contract.append(" · setup()");
    }
    let room: usize = rest_of(width, used);
    let name = terminal_ui::fill(&terminal_ui::clip(&case.id, room), room);
    terminal_ui::line_of_two(
        Segment::strong(name, Tone::Text),
        Segment::toned(contract, Tone::Muted),
    )
}

/// The first cases in lines, `limit` of them at most.
pub open spec fn case_lines(cases: Seq<CasePreview>, limit: nat, width: nat) -> Seq<
    Seq<SegmentView>,
> {
    Seq::new(
        if cases.len() <= limit {
            cases.len()
        } else {
            limit
        },
        |i: int| case_segments(cases[i], width),
    )
}

fn push_cases(out: &mut Vec<Vec<Segment>>, cases: &Vec<CasePreview>, limit: usize, width: usize)
    ensures
        terminal_ui::lines_view(final(out)@) == terminal_ui::lines_view(old(out)@) + case_lines(
            cases@,
            limit as nat,
            width as nat,
        ),
{
    let ghost before = terminal_ui::lines_view(out@);
    let ghost all = case_lines(cases@, limit as nat, width as nat);
    let count: usize = if cases.len() <= limit {
        cases.len()
    } else {
        limit
    };
    let mut i: usize = 0;
    assert(before + all.take(0) == before);
    while i < count
        invariant
            i <= count,
            count <= cases@.len(),
            all == case_lines(cases@, limit as nat, width as nat),
            all.len() == count,
            terminal_ui::lines_view(out@) == before + all.take(i as int),
        decreases count - i,
    {
        terminal_ui::push_line(out, case_line(&cases[i], width));
        assert(before + all.take(i + 1) == (before + all.take(i as int)).push(all[i as int]));
        i += 1;
    }
    assert(all.take(count as int) == all);
}

/// The panel of cases and fixtures.
pub open spec fn case_panel(module: BenchmarkModule, width: nat) -> Seq<Seq<SegmentView>> {
    let cases = case_lines(module.cases@, 4, width);
    let unknown = if module.cases@.len() == 0 {
        seq![seq![terminal_ui::toned("Discovered during run preflight."@, Tone::Muted)]]
    } else {
        Seq::empty()
    };
    let fixtures = if module.fixtures@.len() > 0 {
        seq![
            terminal_ui::blank_line(),
            seq![terminal_ui::toned("FIXTURES"@, Tone::Amber)],
        ] + fixture_lines(module, 2)
    } else {
        Seq::empty()
    };
    cases + unknown + fixtures
}

/// The first fixtures in lines, `limit` of them at most.
pub open spec fn fixture_lines(module: BenchmarkModule, limit: nat) -> Seq<Seq<SegmentView>> {
    Seq::new(
        if module.fixtures@.len() <= limit {
            module.fixtures@.len()
        } else {
            limit
        },
        |i: int|
            seq![
                terminal_ui::toned(module.fixtures@[i].source@, Tone::Text),
                terminal_ui::toned(
                    "  "@ + match module.fixtures@[i].size {
                        Some(size) => size@,
                        None => "missing"@,
                    },
                    Tone::Muted,
                ),
            ],
    )
}

/// The panel of cases and fixtures.
pub fn case_panel_lines(module: &BenchmarkModule, width: usize) -> (r: Vec<Vec<Segment>>)
    ensures
        terminal_ui::lines_view(r@) == case_panel(*module, width as nat),
{
    let mut out: Vec<Vec<Segment>> = Vec::new();
    push_cases(&mut out, &module.cases, 4, width);
    let ghost cases = terminal_ui::lines_view(out@);
    assert(cases == case_lines(module.cases@, 4, width as nat));
    if module.cases.len() == 0 {
        terminal_ui::push_line(
            &mut out,
            terminal_ui::line_of(
                Segment::toned("Discovered during run preflight.".to_owned(), Tone::Muted),
            ),
        );
    }
    let ghost upper = terminal_ui::lines_view(out@);
    if module.fixtures.len() > 0 {
        terminal_ui::push_line(&mut out, terminal_ui::empty_line());
        terminal_ui::push_line(
            &mut out,
            terminal_ui::line_of(Segment::toned("FIXTURES".to_owned(), Tone::Amber)),
        );
        let ghost head = terminal_ui::lines_view(out@);
        let ghost all = fixture_lines(*module, 2);
        let count: usize = if module.fixtures.len() <= 2 {
            module.fixtures.len()
        } else {
            2
        };
        let mut i: usize = 0;
        assert(head + all.take(0) == head);
        while i < count
            invariant
                i <= count,
                count <= module.fixtures@.len(),
                all == fixture_lines(*module, 2),
                all.len() == count,
                terminal_ui::lines_view(out@) == head + all.take(i as int),
            decreases count - i,
        {
            let fixture = &module.fixtures[i];
            let mut size = "  ".to_owned();
            match &fixture.size {
                Some(text) => size.append(text),
                None => size.append("missing"),
            }
            assert(all[i as int] == seq![
                terminal_ui::toned(fixture.source@, Tone::Text),
                terminal_ui::toned(size@, Tone::Muted),
            ]);
            terminal_ui::push_line(
                &mut out,
                terminal_ui::line_of_two(
                    Segment::toned(fixture.source.clone(), Tone::Text),
                    Segment::toned(size, Tone::Muted),
                ),
            );
            assert(head + all.take(i + 1) == (head + all.take(i as int)).push(all[i as int]));
            i += 1;
        }
        assert(all.take(count as int) == all);
        assert(head == upper + seq![
            terminal_ui::blank_line(),
            seq![terminal_ui::toned("FIXTURES"@, Tone::Amber)],
        ]);
        assert(terminal_ui::lines_view(out@) == upper + (seq![
            terminal_ui::blank_line(),
            seq![terminal_ui::toned("FIXTURES"@, Tone::Amber)],
        ] + all));
    } else {
        assert(upper + Seq::<Seq<SegmentView>>::empty() == upper);
    }
    out
}

// Modules.

/// How often a module was run, in the list.
pub open spec fn run_summary(module: BenchmarkModule, now: u64) -> Seq<char> {
    match module.history {
        None => "no runs  ·  never"@,
        Some(history) => runs_text(history.cycle_count as nat) + "  "@ + seq![
            mark_of(history.latest_outcome@),
        ] + "  "@ + terminal_ui::age(now as int, history.latest_recorded_at_unix_ms as int),
    }
}

/// What a module holds and came to, in the list.
pub open spec fn content_summary(module: BenchmarkModule) -> Seq<char> {
    let cases = if module.cases@.len() == 0 {
        "cases unknown"@
    } else {
        text::decimal(module.cases@.len()) + " cases"@
    };
    let baseline = match module.history {
        Some(history) => match history.current_baseline_label {
            Some(label) => "baseline "@ + label@,
            None => "baseline none"@,
        },
        None => "baseline none"@,
    };
    let walls = match module.history {
        Some(history) => match history.medians {
            Some(medians) => walls_text(medians@),
            None => "never measured"@,
        },
        None => "never measured"@,
    };
    cases + " · "@ + baseline + " · "@ + walls
}

/// A module in the list: its name, path, and runs, then what it holds, then a blank line.
pub open spec fn item_lines(module: BenchmarkModule, width: nat, now: u64, graph: Seq<char>) -> Seq<
    Seq<SegmentView>,
> {
    let available = left_of(width as int, 3);
    let path_space = left_of(
        available as int,
        (module.id@.len() + run_summary(module, now).len() + 3) as int,
    );
    let front = seq![
        terminal_ui::strong(module.id@, Tone::Text),
        terminal_ui::toned("  "@, Tone::Plain),
        terminal_ui::toned(
            terminal_ui::filled(
                terminal_ui::clipped(module.relative_path@, path_space),
                path_space,
            ),
            Tone::Muted,
        ),
    ];
    let back = match module.history {
        Some(history) => seq![
            terminal_ui::toned(runs_text(history.cycle_count as nat) + "  "@, Tone::Text),
            terminal_ui::strong(
                seq![mark_of(history.latest_outcome@)],
                tone_of(history.latest_outcome@),
            ),
            terminal_ui::toned(
                "  "@ + terminal_ui::age(now as int, history.latest_recorded_at_unix_ms as int),
                Tone::Muted,
            ),
        ],
        None => seq![terminal_ui::toned(run_summary(module, now), Tone::Muted)],
    };
    let second_width = left_of(
        available as int,
        graph.len() + if graph.len() > 0 {
            1int
        } else {
            0
        },
    );
    seq![
        front + back,
        seq![
            terminal_ui::toned(
                terminal_ui::filled(
                    terminal_ui::clipped(content_summary(module), second_width),
                    second_width,
                ),
                Tone::Muted,
            ),
            terminal_ui::toned(graph, Tone::Cyan),
        ],
        terminal_ui::blank_line(),
    ]
}

fn summarize_runs(module: &BenchmarkModule, now: u64) -> (r: String)
    ensures
        r@ == run_summary(*module, now),
{
    match &module.history {
        None => "no runs  ·  never".to_owned(),
        Some(history) => {
            let mut out = runs(history.cycle_count);
            out.append("  ");
            out.push(outcome_mark(&history.latest_outcome));
            out.append("  ");
            out.append(&terminal_ui::relative_age(now, history.latest_recorded_at_unix_ms));
            proof {
                let mark = mark_of(history.latest_outcome@);
                let head = runs_text(history.cycle_count as nat) + "  "@;
                assert(head.push(mark) == head + seq![mark]);
            }
            out
        },
    }
}

fn summarize_content(module: &BenchmarkModule) -> (r: String)
    ensures
        r@ == content_summary(*module),
{
    let mut out = if module.cases.len() == 0 {
        "cases unknown".to_owned()
    } else {
        let mut cases = text::decimal_text(module.cases.len() as u64);
        cases.append(" cases");
        cases
    };
    out.append(" · ");
    let mut baseline = "baseline none".to_owned();
    let mut walls = "never measured".to_owned();
    if let Some(history) = &module.history {
        if let Some(label) = &history.current_baseline_label {
            baseline = "baseline ".to_owned();
            baseline.append(label);
        }
        if let Some(medians) = &history.medians {
            walls = compact_wall_values(medians);
        }
    }
    out.append(&baseline);
    out.append(" · ");
    out.append(&walls);
    out
}

/// A module in the list.
pub fn module_item(module: &BenchmarkModule, width: usize, now: u64, graph: &str) -> (r: Vec<
    Vec<Segment>,
>)
    ensures
        terminal_ui::lines_view(r@) == item_lines(*module, width as nat, now, graph@),
{
    let available: usize = rest_of(width, 3);
    let summary = summarize_runs(module, now);
    let used: usize = terminal_ui::width_of(&module.id).saturating_add(
        terminal_ui::width_of(&summary),
    ).saturating_add(3);
    let path_space: usize = rest_of(available, used);
    let path = terminal_ui::fill(
        &terminal_ui::clip(&module.relative_path, path_space),
        path_space,
    );
    let mut first: Vec<Segment> = Vec::new();
    first.push(Segment::strong(module.id.clone(), Tone::Text));
    first.push(Segment::toned("  ".to_owned(), Tone::Plain));
    first.push(Segment::toned(path, Tone::Muted));
    match &module.history {
        Some(history) => {
            let mut count = runs(history.cycle_count);
            count.append("  ");
            let mut age = "  ".to_owned();
            age.append(&terminal_ui::relative_age(now, history.latest_recorded_at_unix_ms));
            first.push(Segment::toned(count, Tone::Text));
            first.push(
                Segment::strong(
                    one_char(outcome_mark(&history.latest_outcome)),
                    outcome_tone(&history.latest_outcome),
                ),
            );
            first.push(Segment::toned(age, Tone::Muted));
        },
        None => {
            first.push(Segment::toned(summary, Tone::Muted));
        },
    }
    let graph_width: usize = terminal_ui::width_of(graph);
    let taken: usize = if graph_width > 0 {
        graph_width.saturating_add(1)
    } else {
        0
    };
    let second_width: usize = rest_of(available, taken);
    let content = terminal_ui::fill(
        &terminal_ui::clip(&summarize_content(module), second_width),
        second_width,
    );
    let ghost expected = item_lines(*module, width as nat, now, graph@);
    assert(terminal_ui::line_view(first@) == expected[0]);
    let mut out: Vec<Vec<Segment>> = Vec::new();
    terminal_ui::push_line(&mut out, first);
    terminal_ui::push_line(
        &mut out,
        terminal_ui::line_of_two(
            Segment::toned(content, Tone::Muted),
            Segment::toned(graph.to_owned(), Tone::Cyan),
        ),
    );
    terminal_ui::push_line(&mut out, terminal_ui::empty_line());
    assert(terminal_ui::lines_view(out@) == expected);
    out
}

/// How often a module was run and accepted, and when last.
pub open spec fn record_text(history: Option<RunHistory>, none: Seq<char>, now: u64) -> Seq<char> {
    match history {
        None => none,
        Some(history) => text::decimal(history.cycle_count as nat) + " runs · "@ + text::decimal(
            history.accepted_count as nat,
        ) + " accepted · last "@ + terminal_ui::age(
            now as int,
            history.latest_recorded_at_unix_ms as int,
        ),
    }
}

fn record(history: &Option<RunHistory>, none: &str, now: u64) -> (r: String)
    ensures
        r@ == record_text(*history, none@, now),
{
    match history {
        None => none.to_owned(),
        Some(history) => {
            let mut out = text::decimal_text(history.cycle_count);
            out.append(" runs · ");
            out.append(&text::decimal_text(history.accepted_count));
            out.append(" accepted · last ");
            out.append(&terminal_ui::relative_age(now, history.latest_recorded_at_unix_ms));
            out
        },
    }
}

/// The head of a module's details: name, path, and size beside the latest outcome, then its record.
pub open spec fn summary_lines(module: BenchmarkModule, width: nat, now: u64) -> Seq<
    Seq<SegmentView>,
> {
    let outcome = match module.history {
        Some(history) => text::upper_cased(history.latest_outcome@),
        None => "NEVER RUN"@,
    };
    let left_width = left_of(width as int, (outcome.len() + 1) as int);
    let left = module.id@ + "  "@ + module.relative_path@ + "  "@ + module.size@;
    let tone = match module.history {
        Some(history) => tone_of(history.latest_outcome@),
        None => Tone::Muted,
    };
    seq![
        seq![
            terminal_ui::strong(
                terminal_ui::filled(terminal_ui::clipped(left, left_width), left_width),
                Tone::Text,
            ),
            terminal_ui::strong(outcome, tone),
        ],
        seq![
            terminal_ui::toned(
                record_text(module.history, "no runs · no promoted baseline"@, now),
                Tone::Muted,
            ),
        ],
    ]
}

/// The head of a module's details.
pub fn module_summary(module: &BenchmarkModule, width: usize, now: u64) -> (r: Vec<
    Vec<Segment>,
>)
    ensures
        terminal_ui::lines_view(r@) == summary_lines(*module, width as nat, now),
{
    let outcome = match &module.history {
        Some(history) => text::upper_text(&history.latest_outcome),
        None => "NEVER RUN".to_owned(),
    };
    let left_width: usize = rest_of(width, terminal_ui::width_of(&outcome).saturating_add(1));
    let mut left = module.id.clone();
    left.append("  ");
    left.append(&module.relative_path);
    left.append("  ");
    left.append(&module.size);
    let tone = match &module.history {
        Some(history) => outcome_tone(&history.latest_outcome),
        None => Tone::Muted,
    };
    let mut out: Vec<Vec<Segment>> = Vec::new();
    terminal_ui::push_line(
        &mut out,
        terminal_ui::line_of_two(
            Segment::strong(
                terminal_ui::fill(&terminal_ui::clip(&left, left_width), left_width),
                Tone::Text,
            ),
            Segment::strong(outcome, tone),
        ),
    );
    let detail = record(&module.history, "no runs · no promoted baseline", now);
    terminal_ui::push_line(
        &mut out,
        terminal_ui::line_of(Segment::toned(detail, Tone::Muted)),
    );
    assert(terminal_ui::lines_view(out@) == summary_lines(*module, width as nat, now));
    out
}

// What can be done.

/// The name of an editor.
pub open spec fn editor_label(kind: EditorKind) -> Seq<char> {
    match kind {
        EditorKind::Filter => "FILTER MODULES"@,
        EditorKind::Message => "MESSAGE"@,
        EditorKind::Directory => "BENCHMARK DIRECTORY"@,
        EditorKind::Budget => "MEASUREMENT BUDGET"@,
    }
}

/// What the keys of an editor do.
pub open spec fn editor_hint(kind: EditorKind) -> Seq<char> {
    match kind {
        EditorKind::Filter => "enter apply · esc restore"@,
        EditorKind::Message => "enter start benchmark · esc cancel"@,
        EditorKind::Directory => "enter scan · esc cancel"@,
        EditorKind::Budget => "enter apply · esc cancel"@,
    }
}

/// An editor in lines.
pub open spec fn editor_lines(editor: Editor, width: nat) -> Seq<Seq<SegmentView>> {
    let shown = seq![
        seq![terminal_ui::toned(editor_label(editor.kind), Tone::Amber)],
        terminal_ui::blank_line(),
        seq![
            terminal_ui::toned("> "@, Tone::Cyan),
            terminal_ui::toned(
                terminal_ui::clipped(
                    run_tui::with_cursor(editor.value@, editor.cursor as int),
                    left_of(width as int, 2),
                ),
                Tone::Text,
            ),
        ],
        terminal_ui::blank_line(),
        seq![terminal_ui::toned(editor_hint(editor.kind), Tone::Muted)],
    ];
    match editor.error {
        Some(error) => shown.push(
            seq![terminal_ui::toned(terminal_ui::clipped(error@, width), Tone::Red)],
        ),
        None => shown,
    }
}

/// What can be done with a module, in lines.
pub open spec fn action_lines(module: BenchmarkModule, width: nat) -> Seq<Seq<SegmentView>> {
    let shown = seq![
        seq![terminal_ui::toned("next"@, Tone::Muted)],
        terminal_ui::blank_line(),
        seq![
            terminal_ui::chosen(
                terminal_ui::clipped(
                    " enter  record a message and run "@ + module.id@ + " "@,
                    width,
                ),
                Tone::Text,
            ),
        ],
        terminal_ui::blank_line(),
        seq![
            terminal_ui::toned("The message becomes this cycle's hypothesis in "@, Tone::Muted),
            terminal_ui::toned("bperf history"@, Tone::Cyan),
            terminal_ui::toned("."@, Tone::Muted),
        ],
    ];
    match module.metadata_note {
        Some(note) => shown.push(
            seq![terminal_ui::toned(terminal_ui::clipped(note@, width), Tone::Faint)],
        ),
        None => shown,
    }
}

fn show_editor(editor: &Editor, width: usize) -> (r: Vec<Vec<Segment>>)
    ensures
        terminal_ui::lines_view(r@) == editor_lines(*editor, width as nat),
{
    let (label, hint) = match editor.kind {
        EditorKind::Filter => ("FILTER MODULES", "enter apply · esc restore"),
        EditorKind::Message => ("MESSAGE", "enter start benchmark · esc cancel"),
        EditorKind::Directory => ("BENCHMARK DIRECTORY", "enter scan · esc cancel"),
        EditorKind::Budget => ("MEASUREMENT BUDGET", "enter apply · esc cancel"),
    };
    let value = terminal_ui::clip(
        &run_tui::input_with_cursor(&editor.value, editor.cursor),
        rest_of(width, 2),
    );
    let mut out: Vec<Vec<Segment>> = Vec::new();
    terminal_ui::push_line(
        &mut out,
        terminal_ui::line_of(Segment::toned(label.to_owned(), Tone::Amber)),
    );
    terminal_ui::push_line(&mut out, terminal_ui::empty_line());
    terminal_ui::push_line(
        &mut out,
        terminal_ui::line_of_two(
            Segment::toned("> ".to_owned(), Tone::Cyan),
            Segment::toned(value, Tone::Text),
        ),
    );
    terminal_ui::push_line(&mut out, terminal_ui::empty_line());
    terminal_ui::push_line(
        &mut out,
        terminal_ui::line_of(Segment::toned(hint.to_owned(), Tone::Muted)),
    );
    if let Some(error) = &editor.error {
        terminal_ui::push_line(
            &mut out,
            terminal_ui::line_of(Segment::toned(terminal_ui::clip(error, width), Tone::Red)),
        );
    }
    assert(terminal_ui::lines_view(out@) == editor_lines(*editor, width as nat));
    out
}

fn show_action(module: &BenchmarkModule, width: usize) -> (r: Vec<Vec<Segment>>)
    ensures
        terminal_ui::lines_view(r@) == action_lines(*module, width as nat),
{
    let mut button = " enter  record a message and run ".to_owned();
    button.append(&module.id);
    button.append(" ");
    let mut out: Vec<Vec<Segment>> = Vec::new();
    terminal_ui::push_line(
        &mut out,
        terminal_ui::line_of(Segment::toned("next".to_owned(), Tone::Muted)),
    );
    terminal_ui::push_line(&mut out, terminal_ui::empty_line());
    terminal_ui::push_line(
        &mut out,
        terminal_ui::line_of(Segment::chosen(terminal_ui::clip(&button, width), Tone::Text)),
    );
    terminal_ui::push_line(&mut out, terminal_ui::empty_line());
    terminal_ui::push_line(
        &mut out,
        terminal_ui::line_of_three(
            Segment::toned(
                "The message becomes this cycle's hypothesis in ".to_owned(),
                Tone::Muted,
            ),
            Segment::toned("bperf history".to_owned(), Tone::Cyan),
            Segment::toned(".".to_owned(), Tone::Muted),
        ),
    );
    if let Some(note) = &module.metadata_note {
        terminal_ui::push_line(
            &mut out,
            terminal_ui::line_of(Segment::toned(terminal_ui::clip(note, width), Tone::Faint)),
        );
    }
    assert(terminal_ui::lines_view(out@) == action_lines(*module, width as nat));
    out
}

/// The editor where one is open, else what can be done with a module.
pub open spec fn editor_or_action(editor: Option<Editor>, module: BenchmarkModule, width: nat) -> Seq<
    Seq<SegmentView>,
> {
    match editor {
        Some(editor) => editor_lines(editor, width),
        None => action_lines(module, width),
    }
}

/// The editor where one is open, else what can be done with a module.
pub fn editor_or_action_lines(app: &App, module: &BenchmarkModule, width: usize) -> (r: Vec<
    Vec<Segment>,
>)
    ensures
        terminal_ui::lines_view(r@) == editor_or_action(app.editor, *module, width as nat),
{
    match &app.editor {
        Some(editor) => show_editor(editor, width),
        None => show_action(module, width),
    }
}

/// What came of the runs so far, where there is little room.
pub open spec fn past_lines(history: Option<RunHistory>, width: nat) -> Seq<Seq<SegmentView>> {
    match history {
        Some(history) => seq![
            seq![
                terminal_ui::toned("baseline  "@, Tone::Muted),
                terminal_ui::toned(text_or(history.current_baseline_label, "none"@), Tone::Text),
            ],
            seq![
                terminal_ui::toned("last msg  "@, Tone::Muted),
                terminal_ui::toned(
                    terminal_ui::clipped(
                        text_or(history.latest_message, "(no message)"@),
                        left_of(width as int, 10),
                    ),
                    Tone::Text,
                ),
            ],
        ],
        None => Seq::empty(),
    }
}

/// The details of a module where there is little room.
pub open spec fn compact_detail(
    editor: Option<Editor>,
    module: BenchmarkModule,
    width: nat,
    now: u64,
) -> Seq<Seq<SegmentView>> {
    let head = seq![
        seq![
            terminal_ui::toned(
                record_text(module.history, "no recorded runs"@, now),
                Tone::Muted,
            ),
        ],
        terminal_ui::blank_line(),
    ];
    let unknown = if module.cases@.len() == 0 {
        seq![seq![terminal_ui::toned("Cases are discovered during run preflight."@, Tone::Muted)]]
    } else {
        Seq::empty()
    };
    head + case_lines(module.cases@, 3, width) + unknown + seq![terminal_ui::blank_line()] + past_lines(
        module.history,
        width,
    ) + seq![terminal_ui::blank_line()] + editor_or_action(editor, module, width)
}

/// The details of a module where there is little room.
pub fn compact_detail_lines(app: &App, module: &BenchmarkModule, width: usize, now: u64) -> (r: Vec<
    Vec<Segment>,
>)
    ensures
        terminal_ui::lines_view(r@) == compact_detail(app.editor, *module, width as nat, now),
{
    let mut out: Vec<Vec<Segment>> = Vec::new();
    let recorded = record(&module.history, "no recorded runs", now);
    terminal_ui::push_line(
        &mut out,
        terminal_ui::line_of(Segment::toned(recorded, Tone::Muted)),
    );
    terminal_ui::push_line(&mut out, terminal_ui::empty_line());
    let ghost head = seq![
        seq![
            terminal_ui::toned(
                record_text(module.history, "no recorded runs"@, now),
                Tone::Muted,
            ),
        ],
        terminal_ui::blank_line(),
    ];
    assert(terminal_ui::lines_view(out@) == head);
    push_cases(&mut out, &module.cases, 3, width);
    let ghost one = terminal_ui::lines_view(out@);
    if module.cases.len() == 0 {
        terminal_ui::push_line(
            &mut out,
            terminal_ui::line_of(
                Segment::toned(
                    "Cases are discovered during run preflight.".to_owned(),
                    Tone::Muted,
                ),
            ),
        );
    }
    let ghost unknown = if module.cases@.len() == 0 {
        seq![seq![terminal_ui::toned("Cases are discovered during run preflight."@, Tone::Muted)]]
    } else {
        Seq::empty()
    };
    assert(terminal_ui::lines_view(out@) == one + unknown);
    terminal_ui::push_line(&mut out, terminal_ui::empty_line());
    let ghost two = terminal_ui::lines_view(out@);
    assert(two == one + unknown + seq![terminal_ui::blank_line()]);
    let ghost past = past_lines(module.history, width as nat);
    if let Some(history) = &module.history {
        let label = shown_or(&history.current_baseline_label, "none");
        let message = shown_or(&history.latest_message, "(no message)");
        terminal_ui::push_line(
            &mut out,
            terminal_ui::line_of_two(
                Segment::toned("baseline  ".to_owned(), Tone::Muted),
                Segment::toned(label, Tone::Text),
            ),
        );
        terminal_ui::push_line(
            &mut out,
            terminal_ui::line_of_two(
                Segment::toned("last msg  ".to_owned(), Tone::Muted),
                Segment::toned(terminal_ui::clip(&message, rest_of(width, 10)), Tone::Text),
            ),
        );
        assert(terminal_ui::lines_view(out@) == two + past);
    } else {
        assert(two + past == two);
    }
    terminal_ui::push_line(&mut out, terminal_ui::empty_line());
    assert(terminal_ui::lines_view(out@) == two + past + seq![terminal_ui::blank_line()]);
    terminal_ui::push_lines(&mut out, editor_or_action_lines(app, module, width));
    assert(terminal_ui::lines_view(out@) == compact_detail(
        app.editor,
        *module,
        width as nat,
        now,
    ));
    out
}

// The rest of the screen.

/// What is said of the scan of a directory.
pub open spec fn scan_text(app: App) -> Seq<char> {
    let modules = app.catalog.modules@;
    let some_unknown = exists|i: int|
        0 <= i < modules.len() && (#[trigger] modules[i]).cases@.len() == 0;
    "scanning "@ + run_tui::shown_path(app.catalog.root@, app.workspace_root@)
        + "/**/*.bench.ts · "@ + text::decimal(modules.len()) + " modules · "@ + text::decimal(
        app.catalog.known_case_count as nat,
    ) + if some_unknown {
        " known cases"@
    } else {
        " cases"@
    } + " · "@ + text::decimal(app.catalog.nested_count as nat) + " nested "@
}

/// What is said of the scan of a directory.
pub fn scan_line(app: &App) -> (r: String)
    ensures
        r@ == scan_text(*app),
{
    let modules = &app.catalog.modules;
    let mut unknown = false;
    let mut i: usize = 0;
    while i < modules.len()
        invariant
            i <= modules@.len(),
            unknown == exists|j: int| 0 <= j < i && (#[trigger] modules@[j]).cases@.len() == 0,
        decreases modules@.len() - i,
    {
        if modules[i].cases.len() == 0 {
            unknown = true;
            assert(modules@[i as int].cases@.len() == 0);
        }
        i += 1;
    }
    let mut out = "scanning ".to_owned();
    out.append(&run_tui::display_path(&app.catalog.root, &app.workspace_root));
    out.append("/**/*.bench.ts · ");
    out.append(&text::decimal_text(modules.len() as u64));
    out.append(" modules · ");
    out.append(&text::decimal_text(app.catalog.known_case_count as u64));
    if unknown {
        out.append(" known cases");
    } else {
        out.append(" cases");
    }
    out.append(" · ");
    out.append(&text::decimal_text(app.catalog.nested_count as u64));
    out.append(" nested ");
    out
}

/// A time in minutes and seconds, two digits each at least.
pub open spec fn clock_text(milliseconds: nat) -> Seq<char> {
    let seconds = milliseconds / 1000;
    text::padded(seconds / 60, 2) + ":"@ + text::padded(seconds % 60, 2)
}

/// A budget in minutes and seconds.
pub fn budget_clock(milliseconds: u64) -> (r: String)
    ensures
        r@ == clock_text(milliseconds as nat),
{
    let seconds: u64 = milliseconds / 1000;
    let mut out = text::padded_text(seconds / 60, 2);
    out.append(":");
    out.append(&text::padded_text(seconds % 60, 2));
    out
}

/// What the list says where it shows no module.
pub fn empty_list_text(catalog_empty: bool) -> (r: &'static str)
    ensures
        r@ == if catalog_empty {
            "No .bench.ts modules found. Press d to change directory."@
        } else {
            "No benchmark modules match the filter. Press / to edit it."@
        },
{
    if catalog_empty {
        "No .bench.ts modules found. Press d to change directory."
    } else {
        "No benchmark modules match the filter. Press / to edit it."
    }
}

/// The medians of the last run, or that there was none to compare with.
pub open spec fn median_panel(module: BenchmarkModule, width: nat) -> Seq<Seq<SegmentView>> {
    match module.history {
        Some(history) => match history.medians {
            Some(medians) => median_table(medians@, width),
            None => seq![seq![terminal_ui::toned("No comparable run yet."@, Tone::Muted)]],
        },
        None => seq![seq![terminal_ui::toned("No comparable run yet."@, Tone::Muted)]],
    }
}

/// The medians of the last run, or that there was none to compare with.
pub fn median_panel_lines(module: &BenchmarkModule, width: usize) -> (r: Vec<Vec<Segment>>)
    ensures
        terminal_ui::lines_view(r@) == median_panel(*module, width as nat),
{
    if let Some(history) = &module.history {
        if let Some(medians) = &history.medians {
            return median_lines(medians, width);
        }
    }
    let mut out: Vec<Vec<Segment>> = Vec::new();
    terminal_ui::push_line(
        &mut out,
        terminal_ui::line_of(Segment::toned("No comparable run yet.".to_owned(), Tone::Muted)),
    );
    assert(terminal_ui::lines_view(out@) == seq![
        seq![terminal_ui::toned("No comparable run yet."@, Tone::Muted)],
    ]);
    out
}

/// The wall times of one engine over the cycles so far, as they are shown.
pub struct Trend {
    pub cycles: usize,
    /// The first and the last time, where there is one.
    pub endpoints: Option<String>,
    /// How high each bar of the graph is.
    pub levels: Vec<usize>,
}

/// How wall time developed.
pub open spec fn trend_text(trend: Trend) -> Seq<char> {
    text::decimal(trend.cycles as nat) + " cycles · "@ + text_or(
        trend.endpoints,
        "values unavailable"@,
    ) + "  "@ + terminal_ui::bars_of(trend.levels@)
}

/// How wall time developed, and what the runs so far came to.
pub open spec fn trend_panel(history: Option<RunHistory>, trend: Trend, width: nat) -> Seq<
    Seq<SegmentView>,
> {
    match history {
        None => seq![
            seq![
                terminal_ui::toned(
                    "No run history yet. The first run establishes measured evidence."@,
                    Tone::Muted,
                ),
            ],
        ],
        Some(history) => seq![
            seq![terminal_ui::toned(trend_text(trend), Tone::Cyan)],
            seq![
                terminal_ui::toned("baseline   "@, Tone::Muted),
                terminal_ui::toned(text_or(history.current_baseline_label, "none"@), Tone::Text),
            ],
            seq![
                terminal_ui::toned("last msg   "@, Tone::Muted),
                terminal_ui::toned(
                    terminal_ui::clipped(
                        text_or(history.latest_message, "(no message)"@),
                        left_of(width as int, 11),
                    ),
                    Tone::Text,
                ),
            ],
        ],
    }
}

/// How wall time developed, and what the runs so far came to.
pub fn trend_lines(history: &Option<RunHistory>, trend: &Trend, width: usize) -> (r: Vec<
    Vec<Segment>,
>)
    ensures
        terminal_ui::lines_view(r@) == trend_panel(*history, *trend, width as nat),
{
    let mut out: Vec<Vec<Segment>> = Vec::new();
    match history {
        None => {
            terminal_ui::push_line(
                &mut out,
                terminal_ui::line_of(
                    Segment::toned(
                        "No run history yet. The first run establishes measured evidence.".to_owned(),
                        Tone::Muted,
                    ),
                ),
            );
        },
        Some(history) => {
            let mut said = text::decimal_text(trend.cycles as u64);
            said.append(" cycles · ");
            said.append(&shown_or(&trend.endpoints, "values unavailable"));
            said.append("  ");
            said.append(&terminal_ui::bars(&trend.levels));
            let label = shown_or(&history.current_baseline_label, "none");
            let message = shown_or(&history.latest_message, "(no message)");
            terminal_ui::push_line(
                &mut out,
                terminal_ui::line_of(Segment::toned(said, Tone::Cyan)),
            );
            terminal_ui::push_line(
                &mut out,
                terminal_ui::line_of_two(
                    Segment::toned("baseline   ".to_owned(), Tone::Muted),
                    Segment::toned(label, Tone::Text),
                ),
            );
            terminal_ui::push_line(
                &mut out,
                terminal_ui::line_of_two(
                    Segment::toned("last msg   ".to_owned(), Tone::Muted),
                    Segment::toned(terminal_ui::clip(&message, rest_of(width, 11)), Tone::Text),
                ),
            );
        },
    }
    assert(terminal_ui::lines_view(out@) == trend_panel(*history, *trend, width as nat));
    out
}

/// The head of the screen: what is listed, the budget, and the engines.
pub open spec fn header(app: App) -> Seq<SegmentView> {
    seq![
        terminal_ui::strong(" bperf "@, Tone::Amber),
        terminal_ui::toned("run  "@, Tone::Muted),
        terminal_ui::strong(
            run_tui::shown_path(app.catalog.root@, app.workspace_root@) + "/"@,
            Tone::Text,
        ),
        terminal_ui::toned("  │  budget  "@, Tone::Faint),
        terminal_ui::strong(app.budget.text@, Tone::Text),
        terminal_ui::toned("  │  engines  "@, Tone::Faint),
        terminal_ui::strong("chromium firefox webkit"@, Tone::Text),
    ]
}

/// The head of the screen.
pub fn header_line(app: &App) -> (r: Vec<Segment>)
    ensures
        terminal_ui::line_view(r@) == header(*app),
{
    let mut root = run_tui::display_path(&app.catalog.root, &app.workspace_root);
    root.append("/");
    let mut out: Vec<Segment> = Vec::new();
    out.push(Segment::strong(" bperf ".to_owned(), Tone::Amber));
    out.push(Segment::toned("run  ".to_owned(), Tone::Muted));
    out.push(Segment::strong(root, Tone::Text));
    out.push(Segment::toned("  │  budget  ".to_owned(), Tone::Faint));
    out.push(Segment::strong(app.budget.text.clone(), Tone::Text));
    out.push(Segment::toned("  │  engines  ".to_owned(), Tone::Faint));
    out.push(Segment::strong("chromium firefox webkit".to_owned(), Tone::Text));
    assert(terminal_ui::line_view(out@) == header(*app));
    out
}

/// The line above the keys: the notice where there is one, else what is done most.
pub open spec fn context(notice: Option<String>) -> Seq<SegmentView> {
    match notice {
        Some(notice) => seq![terminal_ui::toned("  "@ + notice@, Tone::Amber)],
        None => seq![
            terminal_ui::strong("  d "@, Tone::Text),
            terminal_ui::toned("change directory"@, Tone::Muted),
            terminal_ui::strong("    / "@, Tone::Text),
            terminal_ui::toned("filter modules"@, Tone::Muted),
            terminal_ui::strong("    enter "@, Tone::Text),
            terminal_ui::toned("pick benchmark"@, Tone::Muted),
        ],
    }
}

/// The line above the keys.
pub fn context_line(notice: &Option<String>) -> (r: Vec<Segment>)
    ensures
        terminal_ui::line_view(r@) == context(*notice),
{
    let mut out: Vec<Segment> = Vec::new();
    match notice {
        Some(notice) => {
            let mut said = "  ".to_owned();
            said.append(notice);
            out.push(Segment::toned(said, Tone::Amber));
        },
        None => {
            out.push(Segment::strong("  d ".to_owned(), Tone::Text));
            out.push(Segment::toned("change directory".to_owned(), Tone::Muted));
            out.push(Segment::strong("    / ".to_owned(), Tone::Text));
            out.push(Segment::toned("filter modules".to_owned(), Tone::Muted));
            out.push(Segment::strong("    enter ".to_owned(), Tone::Text));
            out.push(Segment::toned("pick benchmark".to_owned(), Tone::Muted));
        },
    }
    assert(terminal_ui::line_view(out@) == context(*notice));
    out
}

/// The keys of the screen and what they do.
pub open spec fn shortcuts() -> Seq<(Seq<char>, Seq<char>)> {
    seq![
        ("↑↓ / j k"@, "move"@),
        ("enter"@, "select / start"@),
        ("m"@, "message"@),
        ("esc"@, "back / cancel"@),
        ("b"@, "budget"@),
        ("e"@, "engines"@),
        ("d"@, "directory"@),
        ("q"@, "quit"@),
    ]
}

/// The keys of the screen and what they do, in a line.
pub fn footer_line() -> (r: Vec<Segment>)
    ensures
        terminal_ui::line_view(r@) == terminal_ui::shortcut_segments(shortcuts(), 8),
{
    let mut keys: Vec<(&'static str, &'static str)> = Vec::new();
    keys.push(("↑↓ / j k", "move"));
    keys.push(("enter", "select / start"));
    keys.push(("m", "message"));
    keys.push(("esc", "back / cancel"));
    keys.push(("b", "budget"));
    keys.push(("e", "engines"));
    keys.push(("d", "directory"));
    keys.push(("q", "quit"));
    assert(terminal_ui::shortcuts_view(keys@) == shortcuts());
    terminal_ui::shortcut_line(&keys)
}

/// The title of the list: its name, then what its columns hold.
pub open spec fn list_title(width: nat) -> Seq<SegmentView> {
    let title = terminal_ui::sides(" BENCHMARK MODULES"@, "runs · last verdict · when "@, width);
    seq![
        terminal_ui::toned(terminal_ui::clipped(" BENCHMARK MODULES"@, width), Tone::Amber),
        terminal_ui::toned(
            match text::after_prefix(title, " BENCHMARK MODULES"@) {
                Some(rest) => rest,
                None => ""@,
            },
            Tone::Muted,
        ),
    ]
}

/// The title of the list.
pub fn list_title_line(width: usize) -> (r: Vec<Segment>)
    ensures
        terminal_ui::line_view(r@) == list_title(width as nat),
{
    let title = terminal_ui::fit_sides(
        " BENCHMARK MODULES",
        "runs · last verdict · when ",
        width,
    );
    let rest = match text::strip_prefix(&title, " BENCHMARK MODULES") {
        Some(rest) => rest,
        None => "".to_owned(),
    };
    terminal_ui::line_of_two(
        Segment::toned(terminal_ui::clip(" BENCHMARK MODULES", width), Tone::Amber),
        Segment::toned(rest, Tone::Muted),
    )
}

} // verus!
