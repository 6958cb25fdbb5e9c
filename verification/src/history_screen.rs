//! The lines of the screen on which the history of a benchmark is browsed.

use vstd::prelude::*;
use vstd::string::*;

use crate::browser_lab;
use crate::browser_lab::Engine;
use crate::comparison::{AnchorSummary, ComparisonSummary, EngineSummary, MetricSummary};
use crate::history::{BrowserVersion, EnvironmentSummary, HistoryCycle};
use crate::run_screen;
use crate::terminal_ui;
use crate::terminal_ui::{Segment, SegmentView, Tone};
use crate::text;

verus! {

// Names.

/// How long ago something happened; after thirty days, its date.
pub open spec fn age_or_date(now: u64, then: u64, date: Seq<char>) -> Seq<char> {
    if now >= then + 2_592_000_000 {
        date
    } else {
        terminal_ui::age(now as int, then as int)
    }
}

/// How long ago something happened; after thirty days, its date.
pub fn relative_age(now: u64, then: u64, date: &str) -> (r: String)
    ensures
        r@ == age_or_date(now, then, date@),
{
    if now >= then && now - then >= 2_592_000_000 {
        date.to_owned()
    } else {
        terminal_ui::relative_age(now, then)
    }
}

/// An environment in a few letters.
pub open spec fn environment_label(fingerprint: Seq<char>) -> Seq<char> {
    "env-"@ + text::start_of(fingerprint, 6) + "…"@
}

/// An environment in a few letters.
pub fn short_environment(fingerprint: &str) -> (r: String)
    ensures
        r@ == environment_label(fingerprint@),
{
    let mut out = "env-".to_owned();
    out.append(&text::take_start(fingerprint, 6));
    out.append("…");
    out
}

/// The start of a cycle's name.
pub fn short_selector(cycle_id: &str) -> (r: String)
    ensures
        r@ == text::start_of(cycle_id@, 20),
{
    text::take_start(cycle_id, 20)
}

/// The start of a cycle's selector, without what every selector begins with.
pub open spec fn bare_selector(selector: Seq<char>) -> Seq<char> {
    text::start_of(
        match text::after_prefix(selector, "cycle-"@) {
            Some(rest) => rest,
            None => selector,
        },
        8,
    )
}

/// The start of a cycle's selector, without what every selector begins with.
pub fn bare_cycle_selector(selector: &str) -> (r: String)
    ensures
        r@ == bare_selector(selector@),
{
    match text::strip_prefix(selector, "cycle-") {
        Some(rest) => text::take_start(&rest, 8),
        None => text::take_start(selector, 8),
    }
}

/// The system that a cycle was measured on.
pub open spec fn platform_of(environment: EnvironmentSummary) -> Seq<char> {
    if text::lower_cased(environment.platform@).is_prefix_of(
        text::lower_cased(environment.os_release@),
    ) {
        environment.os_release@
    } else {
        environment.platform@ + "-"@ + environment.os_release@
    }
}

/// The system that a cycle was measured on.
pub fn host_platform(environment: &EnvironmentSummary) -> (r: String)
    ensures
        r@ == platform_of(*environment),
{
    if text::has_prefix(
        &text::lower_text(&environment.os_release),
        &text::lower_text(&environment.platform),
    ) {
        environment.os_release.clone()
    } else {
        let mut out = environment.platform.clone();
        out.append("-");
        out.append(&environment.os_release);
        out
    }
}

/// The colour of how a metric changed.
pub open spec fn class_tone(classification: Seq<char>) -> Tone {
    if classification == "improved"@ {
        Tone::Green
    } else if classification == "regressed"@ {
        Tone::Red
    } else if classification == "equivalent"@ {
        Tone::Blue
    } else {
        Tone::Amber
    }
}

/// The colour of how a metric changed.
pub fn classification_tone(classification: &str) -> (r: Tone)
    ensures
        r == class_tone(classification@),
{
    if text::same(classification, "improved") {
        Tone::Green
    } else if text::same(classification, "regressed") {
        Tone::Red
    } else if text::same(classification, "equivalent") {
        Tone::Blue
    } else {
        Tone::Amber
    }
}

// Engines of a comparison.

/// The first outcome of an engine.
pub open spec fn summary_of(engines: Seq<EngineSummary>, engine: Engine) -> Option<EngineSummary>
    decreases engines.len(),
{
    if engines.len() == 0 {
        None
    } else if engines[0].engine == engine {
        Some(engines[0])
    } else {
        summary_of(engines.drop_first(), engine)
    }
}

/// The outcome of an engine, where a comparison has one.
pub open spec fn engine_of(comparison: Option<ComparisonSummary>, engine: Engine) -> Option<
    EngineSummary,
> {
    match comparison {
        Some(comparison) => summary_of(comparison.engines@, engine),
        None => None,
    }
}

fn find_engine(comparison: &Option<ComparisonSummary>, engine: Engine) -> (r: Option<
    &EngineSummary,
>)
    ensures
        match engine_of(*comparison, engine) {
            Some(found) => r == Some(&found),
            None => r is None,
        },
{
    match comparison {
        None => None,
        Some(compared) => {
            let engines = &compared.engines;
            let mut i: usize = 0;
            assert(engines@.skip(0) == engines@);
            while i < engines.len()
                invariant
                    i <= engines@.len(),
                    *comparison == Some(*compared),
                    *engines == compared.engines,
                    summary_of(engines@, engine) == summary_of(engines@.skip(i as int), engine),
                decreases engines@.len() - i,
            {
                assert(engines@.skip(i as int)[0] == engines@[i as int]);
                assert(engines@.skip(i as int).drop_first() == engines@.skip(i + 1));
                if engines[i].engine == engine {
                    return Some(&engines[i]);
                }
                i += 1;
            }
            None
        },
    }
}

/// The first metric with a name.
pub open spec fn metric_of(metrics: Seq<MetricSummary>, name: Seq<char>) -> Option<MetricSummary>
    decreases metrics.len(),
{
    if metrics.len() == 0 {
        None
    } else if metrics[0].name@ == name {
        Some(metrics[0])
    } else {
        metric_of(metrics.drop_first(), name)
    }
}

fn find_metric<'a>(metrics: &'a Vec<MetricSummary>, name: &str) -> (r: Option<&'a MetricSummary>)
    ensures
        match metric_of(metrics@, name@) {
            Some(found) => r == Some(&found),
            None => r is None,
        },
{
    let mut i: usize = 0;
    assert(metrics@.skip(0) == metrics@);
    while i < metrics.len()
        invariant
            i <= metrics@.len(),
            metric_of(metrics@, name@) == metric_of(metrics@.skip(i as int), name@),
        decreases metrics@.len() - i,
    {
        assert(metrics@.skip(i as int)[0] == metrics@[i as int]);
        assert(metrics@.skip(i as int).drop_first() == metrics@.skip(i + 1));
        if text::same(&metrics[i].name, name) {
            return Some(&metrics[i]);
        }
        i += 1;
    }
    None
}

/// The letter of an engine's outcome.
pub open spec fn engine_mark(comparison: Option<ComparisonSummary>, engine: Engine) -> char {
    match engine_of(comparison, engine) {
        Some(summary) => run_screen::mark_of(summary.verdict@),
        None => '·',
    }
}

fn mark_engine(comparison: &Option<ComparisonSummary>, engine: Engine) -> (r: char)
    ensures
        r == engine_mark(*comparison, engine),
{
    match find_engine(comparison, engine) {
        Some(summary) => run_screen::outcome_mark(&summary.verdict),
        None => '·',
    }
}

/// The letters of the engines' outcomes.
pub open spec fn marks_of(comparison: Option<ComparisonSummary>) -> Seq<char> {
    seq![
        engine_mark(comparison, Engine::Chromium),
        ' ',
        engine_mark(comparison, Engine::Firefox),
        ' ',
        engine_mark(comparison, Engine::Webkit),
    ]
}

/// The letters of the engines' outcomes.
pub fn engine_marks(comparison: &Option<ComparisonSummary>) -> (r: String)
    ensures
        r@ == marks_of(*comparison),
{
    let mut out = String::new();
    out.push(mark_engine(comparison, Engine::Chromium));
    out.push(' ');
    out.push(mark_engine(comparison, Engine::Firefox));
    out.push(' ');
    out.push(mark_engine(comparison, Engine::Webkit));
    assert(out@ == marks_of(*comparison));
    out
}

// Graphs.

/// The bar of a level, where there is one.
pub open spec fn mini_bar(level: Option<usize>) -> char {
    match level {
        Some(level) => terminal_ui::bar_of(level as nat),
        None => '·',
    }
}

/// The bars of the engines; a line where no engine has one.
pub open spec fn mini_graph_of(
    chromium: Option<usize>,
    firefox: Option<usize>,
    webkit: Option<usize>,
) -> Seq<char> {
    if chromium is None && firefox is None && webkit is None {
        "───"@
    } else {
        seq![mini_bar(chromium), mini_bar(firefox), mini_bar(webkit)]
    }
}

fn show_mini_bar(level: Option<usize>) -> (r: char)
    ensures
        r == mini_bar(level),
{
    match level {
        Some(level) => terminal_ui::bar(level),
        None => '·',
    }
}

/// The bars of the engines; `chromium`, `firefox`, and `webkit` are their levels.
pub fn mini_graph(
    chromium: Option<usize>,
    firefox: Option<usize>,
    webkit: Option<usize>,
) -> (r: String)
    ensures
        r@ == mini_graph_of(chromium, firefox, webkit),
{
    if chromium.is_none() && firefox.is_none() && webkit.is_none() {
        return "───".to_owned();
    }
    let mut out = String::new();
    out.push(show_mini_bar(chromium));
    out.push(show_mini_bar(firefox));
    out.push(show_mini_bar(webkit));
    assert(out@ == seq![mini_bar(chromium), mini_bar(firefox), mini_bar(webkit)]);
    out
}

/// Where the marks of a metric lie on its bar.
#[derive(Clone, Copy, Debug)]
pub struct MetricMarks {
    /// The ends of the confidence interval.
    pub interval: Option<(usize, usize)>,
    /// The improvement.
    pub effect: Option<usize>,
}

/// How many cells the bar of a metric has.
pub open spec fn bar_cells(width: nat) -> nat {
    if width < 8 {
        8
    } else if width > 34 {
        34
    } else {
        width
    }
}

/// How many cells the bar of a metric has.
pub fn bar_width(width: usize) -> (r: usize)
    ensures
        r == bar_cells(width as nat),
{
    if width < 8 {
        8
    } else if width > 34 {
        34
    } else {
        width
    }
}

/// A place that is kept on a bar.
pub open spec fn on_bar(place: usize, cells: int) -> int {
    if place < cells {
        place as int
    } else {
        cells - 1
    }
}

/// A cell of a bar lies in the confidence interval.
pub open spec fn in_interval(marks: MetricMarks, cells: int, i: int) -> bool {
    match marks.interval {
        Some((low, high)) => {
            let a = on_bar(low, cells);
            let b = on_bar(high, cells);
            (a <= i && i <= b) || (b <= i && i <= a)
        },
        None => false,
    }
}

/// A cell of a bar: the improvement, the confidence interval, the middle, or nothing.
pub open spec fn bar_cell(marks: MetricMarks, cells: int, i: int) -> char {
    if marks.effect is Some && on_bar(marks.effect->0, cells) == i {
        '┃'
    } else if in_interval(marks, cells, i) {
        '█'
    } else if i == cells / 2 {
        '│'
    } else {
        '·'
    }
}

/// The bar of a metric.
pub open spec fn bar_text(marks: MetricMarks, width: nat) -> Seq<char> {
    let cells = bar_cells(width);
    Seq::new(cells, |i: int| bar_cell(marks, cells as int, i))
}

fn keep_on_bar(place: usize, cells: usize) -> (r: usize)
    requires
        cells > 0,
    ensures
        r == on_bar(place, cells as int),
{
    if place < cells {
        place
    } else {
        cells - 1
    }
}

/// The bar of a metric.
pub fn metric_bar(marks: MetricMarks, width: usize) -> (r: String)
    ensures
        r@ == bar_text(marks, width as nat),
{
    let cells: usize = bar_width(width);
    let ghost all = bar_text(marks, width as nat);
    let mut out = String::new();
    let mut i: usize = 0;
    assert(all.take(0) == Seq::<char>::empty());
    while i < cells
        invariant
            i <= cells,
            cells == bar_cells(width as nat),
            all == bar_text(marks, width as nat),
            out@ == all.take(i as int),
        decreases cells - i,
    {
        let inside = match marks.interval {
            Some((low, high)) => {
                let a: usize = keep_on_bar(low, cells);
                let b: usize = keep_on_bar(high, cells);
                (a <= i && i <= b) || (b <= i && i <= a)
            },
            None => false,
        };
        let effect = match marks.effect {
            Some(effect) => keep_on_bar(effect, cells) == i,
            None => false,
        };
        let cell = if effect {
            '┃'
        } else if inside {
            '█'
        } else if i == cells / 2 {
            '│'
        } else {
            '·'
        };
        out.push(cell);
        assert(cell == bar_cell(marks, cells as int, i as int));
        assert(all.take(i + 1) == all.take(i as int).push(all[i as int]));
        i += 1;
    }
    assert(all.take(cells as int) == all);
    out
}

/// A metric in three lines: how it changed, its bar, and how sure that is.
pub open spec fn metric_text(label: Seq<char>, metric: MetricSummary, marks: MetricMarks, width: nat) -> Seq<
    Seq<SegmentView>,
> {
    let tone = class_tone(metric.classification@);
    let interval = match metric.interval {
        Some(interval) => "ci95 ["@ + interval@ + "]"@,
        None => "ci95 unavailable"@,
    };
    seq![
        seq![
            terminal_ui::toned(
                terminal_ui::sides(
                    terminal_ui::filled(label, 6) + run_screen::text_or(
                        metric.improvement,
                        "n/a"@,
                    ),
                    run_screen::text_or(metric.values, "values unavailable"@),
                    width,
                ),
                tone,
            ),
        ],
        seq![terminal_ui::toned(bar_text(marks, width), tone)],
        seq![
            terminal_ui::toned(
                terminal_ui::sides(interval, metric.classification@, width),
                Tone::Muted,
            ),
        ],
    ]
}

/// A metric in three lines.
pub fn metric_lines(label: &str, metric: &MetricSummary, marks: MetricMarks, width: usize) -> (r:
    Vec<Vec<Segment>>)
    ensures
        terminal_ui::lines_view(r@) == metric_text(label@, *metric, marks, width as nat),
{
    let tone = classification_tone(&metric.classification);
    let mut left = terminal_ui::fill(label, 6);
    left.append(&run_screen::shown_or(&metric.improvement, "n/a"));
    let values = run_screen::shown_or(&metric.values, "values unavailable");
    let interval = match &metric.interval {
        Some(interval) => {
            let mut out = "ci95 [".to_owned();
            out.append(interval);
            out.append("]");
            out
        },
        None => "ci95 unavailable".to_owned(),
    };
    let heading = terminal_ui::fit_sides(&left, &values, width);
    let footer = terminal_ui::fit_sides(&interval, &metric.classification, width);
    let mut out: Vec<Vec<Segment>> = Vec::new();
    terminal_ui::push_line(&mut out, terminal_ui::line_of(Segment::toned(heading, tone)));
    terminal_ui::push_line(
        &mut out,
        terminal_ui::line_of(Segment::toned(metric_bar(marks, width), tone)),
    );
    terminal_ui::push_line(&mut out, terminal_ui::line_of(Segment::toned(footer, Tone::Muted)));
    assert(terminal_ui::lines_view(out@) == metric_text(label@, *metric, marks, width as nat));
    out
}

// An engine in full.

/// The version of an engine's browser.
pub open spec fn version_of(versions: Seq<BrowserVersion>, engine: Engine) -> Seq<char>
    decreases versions.len(),
{
    if versions.len() == 0 {
        "unknown"@
    } else if versions[0].engine == engine {
        versions[0].version@
    } else {
        version_of(versions.drop_first(), engine)
    }
}

fn find_version(versions: &Vec<BrowserVersion>, engine: Engine) -> (r: String)
    ensures
        r@ == version_of(versions@, engine),
{
    let mut i: usize = 0;
    assert(versions@.skip(0) == versions@);
    while i < versions.len()
        invariant
            i <= versions@.len(),
            version_of(versions@, engine) == version_of(versions@.skip(i as int), engine),
        decreases versions@.len() - i,
    {
        assert(versions@.skip(i as int)[0] == versions@[i as int]);
        assert(versions@.skip(i as int).drop_first() == versions@.skip(i + 1));
        if versions[i].engine == engine {
            return versions[i].version.clone();
        }
        i += 1;
    }
    "unknown".to_owned()
}

/// The title of an engine's panel: its name, version, and outcome.
pub open spec fn engine_title(cycle: HistoryCycle, engine: Engine) -> Seq<SegmentView> {
    let verdict = match engine_of(cycle.comparison, engine) {
        Some(summary) => summary.verdict@,
        None => "measured"@,
    };
    seq![
        terminal_ui::strong(" "@ + browser_lab::engine_name(engine) + " "@, Tone::Text),
        terminal_ui::toned(
            terminal_ui::clipped(version_of(cycle.environment.browser_versions@, engine), 16),
            Tone::Muted,
        ),
        terminal_ui::strong("  "@ + verdict + " "@, run_screen::tone_of(verdict)),
    ]
}

/// The title of an engine's panel.
pub fn engine_title_line(cycle: &HistoryCycle, engine: Engine) -> (r: Vec<Segment>)
    ensures
        terminal_ui::line_view(r@) == engine_title(*cycle, engine),
{
    let verdict = match find_engine(&cycle.comparison, engine) {
        Some(summary) => summary.verdict.clone(),
        None => "measured".to_owned(),
    };
    let mut name = " ".to_owned();
    name.append(engine.as_str());
    name.append(" ");
    let version = terminal_ui::clip(
        &find_version(&cycle.environment.browser_versions, engine),
        16,
    );
    let tone = run_screen::outcome_tone(&verdict);
    let mut outcome = "  ".to_owned();
    outcome.append(&verdict);
    outcome.append(" ");
    terminal_ui::line_of_three(
        Segment::strong(name, Tone::Text),
        Segment::toned(version, Tone::Muted),
        Segment::strong(outcome, tone),
    )
}

/// How many cases passed.
pub open spec fn passed_text(cases: nat) -> Seq<char> {
    "pass "@ + text::decimal(cases) + "/"@ + text::decimal(cases) + " cases"@
}

fn passed(cases: usize) -> (r: String)
    ensures
        r@ == passed_text(cases as nat),
{
    let mut out = "pass ".to_owned();
    out.append(&text::decimal_text(cases as u64));
    out.append("/");
    out.append(&text::decimal_text(cases as u64));
    out.append(" cases");
    out
}

/// Whether the results were correct.
pub open spec fn correctness_line(correctness: Seq<char>, cases: nat) -> Seq<SegmentView> {
    seq![
        terminal_ui::toned("correct  "@, Tone::Muted),
        if correctness == "pass"@ {
            terminal_ui::toned(passed_text(cases), Tone::Green)
        } else {
            terminal_ui::toned(
                correctness + " · "@ + text::decimal(cases) + " cases evaluated"@,
                Tone::Red,
            )
        },
    ]
}

fn show_correctness(correctness: &str, cases: usize) -> (r: Vec<Segment>)
    ensures
        terminal_ui::line_view(r@) == correctness_line(correctness@, cases as nat),
{
    let outcome = if text::same(correctness, "pass") {
        Segment::toned(passed(cases), Tone::Green)
    } else {
        let mut out = correctness.to_owned();
        out.append(" · ");
        out.append(&text::decimal_text(cases as u64));
        out.append(" cases evaluated");
        Segment::toned(out, Tone::Red)
    };
    terminal_ui::line_of_two(Segment::toned("correct  ".to_owned(), Tone::Muted), outcome)
}

/// How the runtime anchor drifted.
pub open spec fn anchor_line(anchor: Option<AnchorSummary>, width: nat) -> Seq<SegmentView> {
    match anchor {
        Some(anchor) => {
            let drift = match anchor.drift {
                Some(drift) => " drift "@ + drift@,
                None => ""@,
            };
            let interval = match anchor.interval {
                Some(interval) => " ["@ + interval@ + "]"@,
                None => ""@,
            };
            seq![
                terminal_ui::toned(
                    terminal_ui::clipped("anchor   "@ + anchor.status@ + drift + interval, width),
                    if anchor.status@ == "stable"@ {
                        Tone::Green
                    } else {
                        Tone::Amber
                    },
                ),
            ]
        },
        None => seq![terminal_ui::toned("anchor   unreported"@, Tone::Faint)],
    }
}

fn show_anchor(anchor: &Option<AnchorSummary>, width: usize) -> (r: Vec<Segment>)
    ensures
        terminal_ui::line_view(r@) == anchor_line(*anchor, width as nat),
{
    match anchor {
        Some(anchor) => {
            let drift = match &anchor.drift {
                Some(drift) => {
                    let mut out = " drift ".to_owned();
                    out.append(drift);
                    out
                },
                None => "".to_owned(),
            };
            let interval = match &anchor.interval {
                Some(interval) => {
                    let mut out = " [".to_owned();
                    out.append(interval);
                    out.append("]");
                    out
                },
                None => "".to_owned(),
            };
            let mut out = "anchor   ".to_owned();
            out.append(&anchor.status);
            out.append(&drift);
            out.append(&interval);
            let tone = if text::same(&anchor.status, "stable") {
                Tone::Green
            } else {
                Tone::Amber
            };
            terminal_ui::line_of(Segment::toned(terminal_ui::clip(&out, width), tone))
        },
        None => terminal_ui::line_of(
            Segment::toned("anchor   unreported".to_owned(), Tone::Faint),
        ),
    }
}

/// A metric that decides, after a blank line: in full where it was compared.
pub open spec fn metric_section(
    metrics: Seq<MetricSummary>,
    name: Seq<char>,
    label: Seq<char>,
    marks: MetricMarks,
    width: nat,
) -> Seq<Seq<SegmentView>> {
    seq![terminal_ui::blank_line()] + match metric_of(metrics, name) {
        Some(metric) => metric_text(label, metric, marks, width),
        None => seq![
            seq![
                terminal_ui::toned(terminal_ui::filled(label, 6), Tone::Text),
                terminal_ui::toned("unreported"@, Tone::Faint),
            ],
        ],
    }
}

fn push_metric(
    out: &mut Vec<Vec<Segment>>,
    metrics: &Vec<MetricSummary>,
    name: &str,
    label: &str,
    marks: MetricMarks,
    width: usize,
)
    ensures
        terminal_ui::lines_view(final(out)@) == terminal_ui::lines_view(old(out)@)
            + metric_section(metrics@, name@, label@, marks, width as nat),
{
    let ghost before = terminal_ui::lines_view(out@);
    terminal_ui::push_line(out, terminal_ui::empty_line());
    match find_metric(metrics, name) {
        Some(metric) => {
            terminal_ui::push_lines(out, metric_lines(label, metric, marks, width));
        },
        None => {
            terminal_ui::push_line(
                out,
                terminal_ui::line_of_two(
                    Segment::toned(terminal_ui::fill(label, 6), Tone::Text),
                    Segment::toned("unreported".to_owned(), Tone::Faint),
                ),
            );
        },
    }
    assert(terminal_ui::lines_view(out@) == before + metric_section(
        metrics@,
        name@,
        label@,
        marks,
        width as nat,
    ));
}

/// Where the marks of the metrics that decide lie on their bars.
#[derive(Clone, Copy, Debug)]
pub struct EngineMarks {
    pub wall: MetricMarks,
    pub cpu: MetricMarks,
    pub heap: MetricMarks,
}

/// The panel of an engine: whether its results were correct, how its anchor drifted, and the metrics
/// that decide; without a comparison, that this measurement is the first.
pub open spec fn engine_panel(cycle: HistoryCycle, engine: Engine, marks: EngineMarks, width: nat) -> Seq<
    Seq<SegmentView>,
> {
    match engine_of(cycle.comparison, engine) {
        None => seq![
            seq![
                terminal_ui::toned("correct  "@, Tone::Muted),
                terminal_ui::toned(passed_text(cycle.case_ids@.len()), Tone::Green),
            ],
            terminal_ui::blank_line(),
            seq![terminal_ui::toned("No promoted baseline"@, Tone::Muted)],
            seq![terminal_ui::toned("This measurement establishes evidence."@, Tone::Faint)],
        ],
        Some(summary) => {
            let inner = run_screen::left_of(width as int, 2);
            let metrics = summary.metrics@;
            seq![
                correctness_line(summary.correctness@, cycle.case_ids@.len()),
                anchor_line(summary.anchor, width),
            ] + metric_section(metrics, "workload.wall_ms"@, "wall"@, marks.wall, inner)
                + metric_section(
                metrics,
                "browser.cpu_profile.active_ms"@,
                "cpu"@,
                marks.cpu,
                inner,
            ) + metric_section(
                metrics,
                "browser.js_heap.live_bytes"@,
                "heap"@,
                marks.heap,
                inner,
            )
        },
    }
}

/// The panel of an engine.
pub fn engine_lines(cycle: &HistoryCycle, engine: Engine, marks: EngineMarks, width: usize) -> (r:
    Vec<Vec<Segment>>)
    ensures
        terminal_ui::lines_view(r@) == engine_panel(*cycle, engine, marks, width as nat),
{
    let mut out: Vec<Vec<Segment>> = Vec::new();
    match find_engine(&cycle.comparison, engine) {
        None => {
            terminal_ui::push_line(
                &mut out,
                terminal_ui::line_of_two(
                    Segment::toned("correct  ".to_owned(), Tone::Muted),
                    Segment::toned(passed(cycle.case_ids.len()), Tone::Green),
                ),
            );
            terminal_ui::push_line(&mut out, terminal_ui::empty_line());
            terminal_ui::push_line(
                &mut out,
                terminal_ui::line_of(
                    Segment::toned("No promoted baseline".to_owned(), Tone::Muted),
                ),
            );
            terminal_ui::push_line(
                &mut out,
                terminal_ui::line_of(
                    Segment::toned(
                        "This measurement establishes evidence.".to_owned(),
                        Tone::Faint,
                    ),
                ),
            );
        },
        Some(summary) => {
            let inner: usize = run_screen::rest_of(width, 2);
            terminal_ui::push_line(
                &mut out,
                show_correctness(&summary.correctness, cycle.case_ids.len()),
            );
            terminal_ui::push_line(&mut out, show_anchor(&summary.anchor, width));
            assert(terminal_ui::lines_view(out@) == seq![
                correctness_line(summary.correctness@, cycle.case_ids@.len()),
                anchor_line(summary.anchor, width as nat),
            ]);
            push_metric(
                &mut out,
                &summary.metrics,
                "workload.wall_ms",
                "wall",
                marks.wall,
                inner,
            );
            push_metric(
                &mut out,
                &summary.metrics,
                "browser.cpu_profile.active_ms",
                "cpu",
                marks.cpu,
                inner,
            );
            push_metric(
                &mut out,
                &summary.metrics,
                "browser.js_heap.live_bytes",
                "heap",
                marks.heap,
                inner,
            );
        },
    }
    assert(terminal_ui::lines_view(out@) == engine_panel(*cycle, engine, marks, width as nat));
    out
}

/// The improvement of a metric where there is little room.
pub open spec fn short_improvement(metrics: Seq<MetricSummary>, name: Seq<char>) -> Seq<char> {
    match metric_of(metrics, name) {
        Some(metric) => run_screen::text_or(metric.improvement, " n/a"@),
        None => " n/a"@,
    }
}

fn show_improvement(metrics: &Vec<MetricSummary>, name: &str) -> (r: String)
    ensures
        r@ == short_improvement(metrics@, name@),
{
    match find_metric(metrics, name) {
        Some(metric) => run_screen::shown_or(&metric.improvement, " n/a"),
        None => " n/a".to_owned(),
    }
}

/// An engine in a line.
pub open spec fn compact_engine(cycle: HistoryCycle, engine: Engine) -> Seq<SegmentView> {
    let name = terminal_ui::filled(browser_lab::engine_name(engine), 8);
    match engine_of(cycle.comparison, engine) {
        None => seq![
            terminal_ui::toned(name, Tone::Text),
            terminal_ui::toned("  "@, Tone::Plain),
            terminal_ui::toned("measured · no promoted baseline"@, Tone::Muted),
        ],
        Some(summary) => {
            let anchor = match summary.anchor {
                Some(anchor) => anchor.status@,
                None => "unreported"@,
            };
            let metrics = summary.metrics@;
            seq![
                terminal_ui::strong(name, Tone::Text),
                terminal_ui::toned("  "@, Tone::Plain),
                terminal_ui::toned(
                    terminal_ui::filled(summary.verdict@, 12),
                    run_screen::tone_of(summary.verdict@),
                ),
                terminal_ui::toned("  "@, Tone::Plain),
                terminal_ui::toned(
                    "anchor "@ + terminal_ui::filled(anchor, 11) + "  wall "@ + short_improvement(
                        metrics,
                        "workload.wall_ms"@,
                    ) + "  cpu "@ + short_improvement(metrics, "browser.cpu_profile.active_ms"@)
                        + "  heap "@ + short_improvement(metrics, "browser.js_heap.live_bytes"@),
                    Tone::Muted,
                ),
            ]
        },
    }
}

/// An engine in a line.
pub fn compact_engine_line(cycle: &HistoryCycle, engine: Engine) -> (r: Vec<Segment>)
    ensures
        terminal_ui::line_view(r@) == compact_engine(*cycle, engine),
{
    let name = terminal_ui::fill(engine.as_str(), 8);
    match find_engine(&cycle.comparison, engine) {
        None => terminal_ui::line_of_three(
            Segment::toned(name, Tone::Text),
            Segment::toned("  ".to_owned(), Tone::Plain),
            Segment::toned("measured · no promoted baseline".to_owned(), Tone::Muted),
        ),
        Some(summary) => {
            let anchor = match &summary.anchor {
                Some(anchor) => anchor.status.clone(),
                None => "unreported".to_owned(),
            };
            let mut said = "anchor ".to_owned();
            said.append(&terminal_ui::fill(&anchor, 11));
            said.append("  wall ");
            said.append(&show_improvement(&summary.metrics, "workload.wall_ms"));
            said.append("  cpu ");
            said.append(&show_improvement(&summary.metrics, "browser.cpu_profile.active_ms"));
            said.append("  heap ");
            said.append(&show_improvement(&summary.metrics, "browser.js_heap.live_bytes"));
            let mut out: Vec<Segment> = Vec::new();
            out.push(Segment::strong(name, Tone::Text));
            out.push(Segment::toned("  ".to_owned(), Tone::Plain));
            out.push(
                Segment::toned(
                    terminal_ui::fill(&summary.verdict, 12),
                    run_screen::outcome_tone(&summary.verdict),
                ),
            );
            out.push(Segment::toned("  ".to_owned(), Tone::Plain));
            out.push(Segment::toned(said, Tone::Muted));
            assert(terminal_ui::line_view(out@) == compact_engine(*cycle, engine));
            out
        },
    }
}

// Promotion.

/// A name and a value in a line.
pub open spec fn key_value(label: Seq<char>, value: Seq<char>, tone: Tone) -> Seq<SegmentView> {
    seq![
        terminal_ui::toned(terminal_ui::filled(label, 12), Tone::Muted),
        terminal_ui::toned(value, tone),
    ]
}

/// A name and a value in a line.
pub fn key_value_line(label: &str, value: &str, tone: Tone) -> (r: Vec<Segment>)
    ensures
        terminal_ui::line_view(r@) == key_value(label@, value@, tone),
{
    terminal_ui::line_of_two(
        Segment::toned(terminal_ui::fill(label, 12), Tone::Muted),
        Segment::toned(value.to_owned(), tone),
    )
}

/// The cycle can become the baseline as it stands.
pub open spec fn is_ready(cycle: HistoryCycle) -> bool {
    cycle.promotion.ready && cycle.promotable
}

/// Whether the cycle can become the baseline.
pub open spec fn readiness_line(cycle: HistoryCycle) -> Seq<SegmentView> {
    if is_ready(cycle) {
        key_value("readiness"@, "ready"@, Tone::Green)
    } else if !cycle.promotable {
        key_value("readiness"@, "not promotable"@, Tone::Red)
    } else {
        key_value("readiness"@, "confirmation required"@, Tone::Amber)
    }
}

/// How many candidates were searched.
pub open spec fn searched_text(cycle: HistoryCycle) -> Seq<char> {
    text::decimal(cycle.promotion.searched_candidates as nat) + "/"@ + text::decimal(
        cycle.promotion.search_threshold as nat,
    ) + " candidates"@ + match cycle.baseline_label {
        Some(label) => " on "@ + label@,
        None => ""@,
    }
}

/// How the cycle stands in its lineage.
pub open spec fn standing_text(cycle: HistoryCycle) -> Seq<char> {
    let confirmed = if is_ready(cycle) {
        "confirmed"@
    } else if !cycle.promotable {
        "not promotable"@
    } else if cycle.promotion.confirmation_required {
        "confirmation required"@
    } else {
        "not confirmed"@
    };
    confirmed + ", "@ + if cycle.accepted {
        "accepted"@
    } else {
        "not accepted"@
    }
}

/// What is done next with the cycle.
pub open spec fn next_command(cycle: HistoryCycle) -> Seq<char> {
    if cycle.accepted {
        "baseline "@ + run_screen::text_or(cycle.accepted_label, "accepted"@)
    } else if is_ready(cycle) {
        cycle.accept_command@
    } else if cycle.promotion.confirmation_required && cycle.promotable {
        cycle.confirm_command@
    } else {
        "measure another candidate"@
    }
}

/// Whether and how the cycle becomes the baseline.
pub open spec fn promotion_text(cycle: HistoryCycle) -> Seq<Seq<SegmentView>> {
    seq![
        readiness_line(cycle),
        key_value("searched"@, searched_text(cycle), Tone::Text),
        key_value(
            "lineage"@,
            standing_text(cycle),
            if is_ready(cycle) {
                Tone::Green
            } else {
                Tone::Amber
            },
        ),
        terminal_ui::blank_line(),
        seq![terminal_ui::strong(next_command(cycle), Tone::Text)],
    ]
}

/// Whether and how the cycle becomes the baseline.
pub fn promotion_lines(cycle: &HistoryCycle) -> (r: Vec<Vec<Segment>>)
    ensures
        terminal_ui::lines_view(r@) == promotion_text(*cycle),
{
    let ready = cycle.promotion.ready && cycle.promotable;
    let mut out: Vec<Vec<Segment>> = Vec::new();
    let (readiness, tone) = if ready {
        ("ready", Tone::Green)
    } else if !cycle.promotable {
        ("not promotable", Tone::Red)
    } else {
        ("confirmation required", Tone::Amber)
    };
    terminal_ui::push_line(&mut out, key_value_line("readiness", readiness, tone));
    let mut searched = text::decimal_text(cycle.promotion.searched_candidates);
    searched.append("/");
    searched.append(&text::decimal_text(cycle.promotion.search_threshold));
    searched.append(" candidates");
    let on = match &cycle.baseline_label {
        Some(label) => {
            let mut on = " on ".to_owned();
            on.append(label);
            on
        },
        None => "".to_owned(),
    };
    searched.append(&on);
    terminal_ui::push_line(&mut out, key_value_line("searched", &searched, Tone::Text));
    let mut standing = if ready {
        "confirmed".to_owned()
    } else if !cycle.promotable {
        "not promotable".to_owned()
    } else if cycle.promotion.confirmation_required {
        "confirmation required".to_owned()
    } else {
        "not confirmed".to_owned()
    };
    standing.append(", ");
    if cycle.accepted {
        standing.append("accepted");
    } else {
        standing.append("not accepted");
    }
    terminal_ui::push_line(
        &mut out,
        key_value_line(
            "lineage",
            &standing,
            if ready {
                Tone::Green
            } else {
                Tone::Amber
            },
        ),
    );
    terminal_ui::push_line(&mut out, terminal_ui::empty_line());
    let command = if cycle.accepted {
        let mut command = "baseline ".to_owned();
        command.append(&run_screen::shown_or(&cycle.accepted_label, "accepted"));
        command
    } else if ready {
        cycle.accept_command.clone()
    } else if cycle.promotion.confirmation_required && cycle.promotable {
        cycle.confirm_command.clone()
    } else {
        "measure another candidate".to_owned()
    };
    terminal_ui::push_line(&mut out, terminal_ui::line_of(Segment::strong(command, Tone::Text)));
    assert(terminal_ui::lines_view(out@) == promotion_text(*cycle));
    out
}

// Laws.

/// The command to accept a cycle is offered exactly where the cycle is not accepted yet and can be:
/// it is never offered for an outcome that cannot become the baseline.
pub proof fn acceptance_is_offered_when_ready(cycle: HistoryCycle)
    requires
        !cycle.accepted,
    ensures
        cycle.promotion.ready && cycle.promotable ==> next_command(cycle)
            == cycle.accept_command@,
        !cycle.promotable ==> next_command(cycle) == "measure another candidate"@,
{
}

/// A bar is as wide as asked, between its least and its greatest width, and shows the improvement
/// over the interval and the interval over the middle.
pub proof fn a_bar_shows_its_marks(marks: MetricMarks, width: nat)
    ensures
        bar_text(marks, width).len() == bar_cells(width),
        8 <= bar_cells(width) <= 34,
        marks.effect is Some ==> bar_text(marks, width)[on_bar(
            marks.effect->0,
            bar_cells(width) as int,
        )] == '┃',
        marks.effect is None && marks.interval is Some ==> {
            let (low, high) = marks.interval->0;
            bar_text(marks, width)[on_bar(low, bar_cells(width) as int)] == '█' && bar_text(
                marks,
                width,
            )[on_bar(high, bar_cells(width) as int)] == '█'
        },
{
}

} // verus!
