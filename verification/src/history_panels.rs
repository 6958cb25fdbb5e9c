//! The panels of the screen on which the history of a benchmark is browsed.

use vstd::prelude::*;
use vstd::string::*;

use crate::browser_lab::Engine;
use crate::comparison::ComparisonSummary;
use crate::history::{
    HistoryArtifact, HistoryBaseline, HistoryCycle, HistoryCycleSummary, HistoryData,
    HistoryIndexEntry,
};
use crate::history_artifacts;
use crate::history_artifacts::{DisplayRoot, DisplayRootView};
use crate::history_screen;
use crate::history_tui;
use crate::history_tui::{App, DateRange, HistoryView, PickerKind};
use crate::run_screen;
use crate::schedule;
use crate::terminal_ui;
use crate::terminal_ui::{Arrangement, Segment, SegmentView, Tone};
use crate::text;

verus! {

// The screen.

/// The least width that the screen needs.
pub const LEAST_WIDTH: u16 = 92;

/// The least height that the screen needs.
pub const LEAST_HEIGHT: u16 = 25;

/// How wide the screen is where its parts stand side by side.
pub const SIDE_WIDTH: u16 = 140;

/// How wide the screen is where it shows all it can.
pub const WIDE_WIDTH: u16 = 160;

/// How many lines stand above and below the list and what is selected.
pub const FRAME_HEIGHT: u16 = 9;

/// How many lines the full account of what is selected needs.
pub const FULL_HEIGHT: u16 = 29;

/// How the parts stand on a screen of a size.
pub open spec fn arranged(width: u16, height: u16) -> Arrangement {
    if width < LEAST_WIDTH || height < LEAST_HEIGHT {
        Arrangement::TooSmall
    } else if width < SIDE_WIDTH {
        Arrangement::Stacked
    } else if width >= WIDE_WIDTH && height - FRAME_HEIGHT >= FULL_HEIGHT {
        Arrangement::Wide
    } else {
        Arrangement::Beside
    }
}

/// How the parts stand on a screen of a size.
pub fn arrangement(width: u16, height: u16) -> (r: Arrangement)
    ensures
        r == arranged(width, height),
{
    if width < LEAST_WIDTH || height < LEAST_HEIGHT {
        Arrangement::TooSmall
    } else if width < SIDE_WIDTH {
        Arrangement::Stacked
    } else if width >= WIDE_WIDTH && height - FRAME_HEIGHT >= FULL_HEIGHT {
        Arrangement::Wide
    } else {
        Arrangement::Beside
    }
}

/// A larger screen shows no less.
pub proof fn a_larger_screen_shows_no_less(width: u16, height: u16, wider: u16, higher: u16)
    requires
        width <= wider,
        height <= higher,
    ensures
        terminal_ui::extent(arranged(width, height)) <= terminal_ui::extent(
            arranged(wider, higher),
        ),
{
}

// The list of cycles.

/// The label that a cycle stands by in the list: that of its baseline, or its own.
pub open spec fn lineage_mark(cycle: HistoryCycleSummary) -> Seq<char> {
    match cycle.baseline_label {
        Some(label) => " ▲ "@ + label@,
        None => match cycle.accepted_label {
            Some(label) => " ◆ "@ + label@,
            None => ""@,
        },
    }
}

fn show_lineage_mark(cycle: &HistoryCycleSummary) -> (r: String)
    ensures
        r@ == lineage_mark(*cycle),
{
    match &cycle.baseline_label {
        Some(label) => {
            let mut out = " ▲ ".to_owned();
            out.append(label);
            out
        },
        None => match &cycle.accepted_label {
            Some(label) => {
                let mut out = " ◆ ".to_owned();
                out.append(label);
                out
            },
            None => "".to_owned(),
        },
    }
}

/// A cycle in the list: its outcome, name, and effect, then its message and graph, then a blank
/// line.
pub open spec fn cycle_lines(
    cycle: HistoryCycleSummary,
    width: nat,
    graph: Seq<char>,
    age: Seq<char>,
) -> Seq<Seq<SegmentView>> {
    let available = run_screen::left_of(width as int, 3);
    let right = history_screen::marks_of(cycle.comparison) + "  "@ + run_screen::text_or(
        cycle.headline_effect,
        "baseline"@,
    ) + "  "@ + age;
    let left = history_screen::bare_selector(cycle.selector@) + lineage_mark(cycle);
    let message_width = run_screen::left_of(available as int, (graph.len() + 1) as int);
    let tone = run_screen::tone_of(cycle.outcome@);
    seq![
        seq![
            terminal_ui::strong(seq![run_screen::mark_of(cycle.outcome@)] + " "@, tone),
            terminal_ui::toned(
                terminal_ui::sides(left, right, run_screen::left_of(available as int, 2)),
                Tone::Plain,
            ),
        ],
        seq![
            terminal_ui::toned(
                terminal_ui::filled(
                    terminal_ui::clipped("  "@ + cycle.message@, message_width),
                    message_width,
                ) + " "@,
                Tone::Muted,
            ),
            terminal_ui::toned(graph, tone),
        ],
        terminal_ui::blank_line(),
    ]
}

/// A cycle in the list.
pub fn cycle_item(cycle: &HistoryCycleSummary, width: usize, graph: &str, age: &str) -> (r: Vec<
    Vec<Segment>,
>)
    ensures
        terminal_ui::lines_view(r@) == cycle_lines(*cycle, width as nat, graph@, age@),
{
    let available: usize = run_screen::rest_of(width, 3);
    let mut right = history_screen::engine_marks(&cycle.comparison);
    right.append("  ");
    right.append(&run_screen::shown_or(&cycle.headline_effect, "baseline"));
    right.append("  ");
    right.append(age);
    let mut left = history_screen::bare_cycle_selector(&cycle.selector);
    left.append(&show_lineage_mark(cycle));
    let heading = terminal_ui::fit_sides(&left, &right, run_screen::rest_of(available, 2));
    let message_width: usize = run_screen::rest_of(
        available,
        terminal_ui::width_of(graph).saturating_add(1),
    );
    let mut message = "  ".to_owned();
    message.append(&cycle.message);
    let mut said = terminal_ui::fill(&terminal_ui::clip(&message, message_width), message_width);
    said.append(" ");
    let tone = run_screen::outcome_tone(&cycle.outcome);
    let mut mark = run_screen::one_char(run_screen::outcome_mark(&cycle.outcome));
    mark.append(" ");
    let mut out: Vec<Vec<Segment>> = Vec::new();
    terminal_ui::push_line(
        &mut out,
        terminal_ui::line_of_two(
            Segment::strong(mark, tone),
            Segment::toned(heading, Tone::Plain),
        ),
    );
    terminal_ui::push_line(
        &mut out,
        terminal_ui::line_of_two(
            Segment::toned(said, Tone::Muted),
            Segment::toned(graph.to_owned(), tone),
        ),
    );
    terminal_ui::push_line(&mut out, terminal_ui::empty_line());
    assert(terminal_ui::lines_view(out@) == cycle_lines(*cycle, width as nat, graph@, age@));
    out
}

/// The title of the list: what it holds, and what its columns hold where there is room.
pub open spec fn list_title(width: nat) -> Seq<SegmentView> {
    let gap = run_screen::left_of(run_screen::left_of(width as int, 2) as int, 41);
    let left = seq![
        terminal_ui::toned(" CYCLES"@, Tone::Amber),
        terminal_ui::toned("  newest first"@, Tone::Muted),
    ];
    if width >= 54 {
        left.push(terminal_ui::toned(terminal_ui::spaces(gap), Tone::Plain)).push(
            terminal_ui::toned("P/E/I/N   chr ff wk "@, Tone::Muted),
        )
    } else {
        left.push(terminal_ui::toned(" "@, Tone::Plain))
    }
}

/// The title of the list.
pub fn cycle_panel_title(width: usize) -> (r: Vec<Segment>)
    ensures
        terminal_ui::line_view(r@) == list_title(width as nat),
{
    let gap: usize = run_screen::rest_of(run_screen::rest_of(width, 2), 41);
    let mut out: Vec<Segment> = Vec::new();
    out.push(Segment::toned(" CYCLES".to_owned(), Tone::Amber));
    out.push(Segment::toned("  newest first".to_owned(), Tone::Muted));
    if width >= 54 {
        let blanks = terminal_ui::fill("", gap);
        proof {
            reveal_strlit("");
            assert(blanks@ == terminal_ui::spaces(gap as nat));
        }
        out.push(Segment::toned(blanks, Tone::Plain));
        out.push(Segment::toned("P/E/I/N   chr ff wk ".to_owned(), Tone::Muted));
    } else {
        out.push(Segment::toned(" ".to_owned(), Tone::Plain));
    }
    assert(terminal_ui::line_view(out@) == list_title(width as nat));
    out
}

/// How many cycles the filters hide.
pub fn hidden_text(hidden: usize) -> (r: String)
    ensures
        r@ == " … "@ + text::decimal(hidden as nat) + " cycles hidden by filters"@,
{
    let mut out = " … ".to_owned();
    out.append(&text::decimal_text(hidden as u64));
    out.append(" cycles hidden by filters");
    out
}

// The head of the screen.

/// The head of the screen: the benchmark, its baseline, and where the selected cycle was measured.
pub open spec fn header(data: HistoryData, selected: Option<HistoryCycle>) -> Seq<SegmentView> {
    let front = seq![
        terminal_ui::strong(" bperf "@, Tone::Amber),
        terminal_ui::toned("history  "@, Tone::Muted),
        terminal_ui::strong(data.overview.benchmark_id@, Tone::Text),
        terminal_ui::toned("  │  baseline  "@, Tone::Faint),
        terminal_ui::toned(
            run_screen::text_or(data.overview.current_baseline_label, "none"@),
            Tone::Text,
        ),
    ];
    match selected {
        Some(cycle) => front.push(terminal_ui::toned("  │  env  "@, Tone::Faint)).push(
            terminal_ui::toned(
                history_screen::environment_label(cycle.environment.fingerprint@),
                Tone::Muted,
            ),
        ).push(
            terminal_ui::toned(
                "  "@ + terminal_ui::clipped(history_screen::platform_of(cycle.environment), 18)
                    + " "@ + cycle.environment.arch@,
                Tone::Muted,
            ),
        ),
        None => front,
    }
}

/// The head of the screen.
pub fn header_line(app: &App) -> (r: Vec<Segment>)
    ensures
        terminal_ui::line_view(r@) == header(app.data, app@.detail(app.data)),
{
    let overview = &app.data.overview;
    let mut out: Vec<Segment> = Vec::new();
    out.push(Segment::strong(" bperf ".to_owned(), Tone::Amber));
    out.push(Segment::toned("history  ".to_owned(), Tone::Muted));
    out.push(Segment::strong(overview.benchmark_id.clone(), Tone::Text));
    out.push(Segment::toned("  │  baseline  ".to_owned(), Tone::Faint));
    out.push(
        Segment::toned(
            run_screen::shown_or(&overview.current_baseline_label, "none"),
            Tone::Text,
        ),
    );
    if let Some(cycle) = app.selected_cycle() {
        let environment = &cycle.environment;
        let mut place = "  ".to_owned();
        place.append(&terminal_ui::clip(&history_screen::host_platform(environment), 18));
        place.append(" ");
        place.append(&environment.arch);
        out.push(Segment::toned("  │  env  ".to_owned(), Tone::Faint));
        out.push(
            Segment::toned(
                history_screen::short_environment(&environment.fingerprint),
                Tone::Muted,
            ),
        );
        out.push(Segment::toned(place, Tone::Muted));
    }
    assert(terminal_ui::line_view(out@) == header(app.data, app@.detail(app.data)));
    out
}

/// How many cycles are visible, of how many.
pub open spec fn count_text(visible: nat, all: nat) -> Seq<char> {
    text::decimal(visible) + "/"@ + text::decimal(all) + " cycles "@
}

/// How many cycles are visible, of how many.
pub fn count_line(app: &App, now: u64) -> (r: String)
    ensures
        r@ == count_text(
            app@.visible(app.data.overview, now).len(),
            app.data.overview.cycles@.len(),
        ),
{
    let places = app.visible_indices(now);
    assert(schedule::ints(places@).len() == places@.len());
    let mut out = text::decimal_text(places.len() as u64);
    out.append("/");
    out.append(&text::decimal_text(app.data.overview.cycles.len() as u64));
    out.append(" cycles ");
    out
}

// Filters.

/// A filter: it stands out where it is in force.
pub open spec fn chip(label: Seq<char>, active: bool, tone: Tone) -> SegmentView {
    let said = " "@ + label + " "@;
    if active {
        terminal_ui::chosen(said, tone)
    } else {
        terminal_ui::toned(said, Tone::Faint)
    }
}

/// A filter.
pub fn filter_chip(label: &str, active: bool, tone: Tone) -> (r: Segment)
    ensures
        r@ == chip(label@, active, tone),
{
    let mut said = " ".to_owned();
    said.append(label);
    said.append(" ");
    if active {
        Segment::chosen(said, tone)
    } else {
        Segment::toned(said, Tone::Faint)
    }
}

/// The filters on accepted cycles and outcomes.
pub open spec fn verdict_chips(view: HistoryView, condensed: bool) -> Seq<SegmentView> {
    seq![
        terminal_ui::toned(
            if condensed {
                " FILTER "@
            } else {
                " FILTER  "@
            },
            Tone::Muted,
        ),
        chip(
            if condensed {
                "a accepted"@
            } else {
                "a accepted only"@
            },
            view.accepted_only,
            Tone::Text,
        ),
        terminal_ui::toned(" "@, Tone::Plain),
        chip("p positive"@, view.verdicts.positive, Tone::Green),
        terminal_ui::toned(" "@, Tone::Plain),
        chip(
            if condensed {
                "e equal"@
            } else {
                "e equivalent"@
            },
            view.verdicts.equivalent,
            Tone::Blue,
        ),
        terminal_ui::toned(" "@, Tone::Plain),
        chip(
            if condensed {
                "i unsure"@
            } else {
                "i inconclusive"@
            },
            view.verdicts.inconclusive,
            Tone::Amber,
        ),
        terminal_ui::toned(" "@, Tone::Plain),
        chip("n negative"@, view.verdicts.negative, Tone::Red),
    ]
}

/// The filters on lineage, benchmark, and date. `span` is the range of dates as it is written out,
/// where it has a beginning.
pub open spec fn place_chips(
    view: HistoryView,
    benchmark: Seq<char>,
    span: Seq<char>,
    condensed: bool,
) -> Seq<SegmentView> {
    let lineage = match view.lineage {
        Some(label) => label,
        None => "all"@,
    };
    let date = if view.date_range == DateRange::All {
        "all dates"@
    } else {
        span
    };
    seq![
        terminal_ui::toned("  "@, Tone::Plain),
        chip(
            if condensed {
                "l "@ + lineage
            } else {
                "l lineage "@ + lineage
            },
            view.lineage is Some,
            Tone::Muted,
        ),
        terminal_ui::toned(" "@, Tone::Plain),
        chip(
            "b "@ + terminal_ui::clipped(
                benchmark,
                if condensed {
                    12
                } else {
                    20
                },
            ),
            true,
            Tone::Text,
        ),
        terminal_ui::toned(" "@, Tone::Plain),
        chip(
            "d "@ + if condensed {
                history_tui::short_range_label(view.date_range)
            } else {
                date
            },
            view.date_range != DateRange::All,
            Tone::Text,
        ),
    ]
}

/// The filters, as many and as long as the width of the screen allows.
pub open spec fn filters(view: HistoryView, benchmark: Seq<char>, span: Seq<char>, width: u16) -> Seq<
    SegmentView,
> {
    let condensed = width < 176;
    if width < 135 {
        verdict_chips(view, condensed)
    } else {
        verdict_chips(view, condensed) + place_chips(view, benchmark, span, condensed)
    }
}

/// The filters, as many and as long as the width of the screen allows.
pub fn filter_line(app: &App, span: &str, width: u16) -> (r: Vec<Segment>)
    ensures
        terminal_ui::line_view(r@) == filters(
            app@,
            app.data.overview.benchmark_id@,
            span@,
            width,
        ),
{
    let condensed = width < 176;
    let mut out: Vec<Segment> = Vec::new();
    let title = if condensed {
        " FILTER "
    } else {
        " FILTER  "
    };
    let accepted = if condensed {
        "a accepted"
    } else {
        "a accepted only"
    };
    let equivalent = if condensed {
        "e equal"
    } else {
        "e equivalent"
    };
    let inconclusive = if condensed {
        "i unsure"
    } else {
        "i inconclusive"
    };
    out.push(Segment::toned(title.to_owned(), Tone::Muted));
    out.push(filter_chip(accepted, app.accepted_only, Tone::Text));
    out.push(Segment::toned(" ".to_owned(), Tone::Plain));
    out.push(filter_chip("p positive", app.verdicts.positive, Tone::Green));
    out.push(Segment::toned(" ".to_owned(), Tone::Plain));
    out.push(filter_chip(equivalent, app.verdicts.equivalent, Tone::Blue));
    out.push(Segment::toned(" ".to_owned(), Tone::Plain));
    out.push(filter_chip(inconclusive, app.verdicts.inconclusive, Tone::Amber));
    out.push(Segment::toned(" ".to_owned(), Tone::Plain));
    out.push(filter_chip("n negative", app.verdicts.negative, Tone::Red));
    assert(terminal_ui::line_view(out@) == verdict_chips(app@, condensed));
    if width < 135 {
        return out;
    }
    let ghost front = terminal_ui::line_view(out@);
    let mut lineage = if condensed {
        "l ".to_owned()
    } else {
        "l lineage ".to_owned()
    };
    lineage.append(&run_screen::shown_or(&app.lineage_filter, "all"));
    let mut benchmark = "b ".to_owned();
    benchmark.append(
        &terminal_ui::clip(
            &app.data.overview.benchmark_id,
            if condensed {
                12
            } else {
                20
            },
        ),
    );
    let mut date = "d ".to_owned();
    if condensed {
        date.append(app.date_range.compact_filter_label());
    } else if app.date_range == DateRange::All {
        date.append("all dates");
    } else {
        date.append(span);
    }
    let mut more: Vec<Segment> = Vec::new();
    more.push(Segment::toned("  ".to_owned(), Tone::Plain));
    more.push(filter_chip(&lineage, app.lineage_filter.is_some(), Tone::Muted));
    more.push(Segment::toned(" ".to_owned(), Tone::Plain));
    more.push(filter_chip(&benchmark, true, Tone::Text));
    more.push(Segment::toned(" ".to_owned(), Tone::Plain));
    more.push(filter_chip(&date, app.date_range != DateRange::All, Tone::Text));
    let ghost back = terminal_ui::line_view(more@);
    assert(back == place_chips(app@, app.data.overview.benchmark_id@, span@, condensed));
    out.append(&mut more);
    assert(terminal_ui::line_view(out@) == front + back);
    out
}

/// The cycles that graphs are scaled by, in words.
pub fn graph_label(app: &App) -> (r: String)
    ensures
        r@ == "graphs: "@ + (match app.graph_scope {
            history_tui::GraphScope::AllCycles => "all cycles"@,
            history_tui::GraphScope::VisibleCycles => "visible cycles"@,
        }) + " "@,
{
    let mut out = "graphs: ".to_owned();
    out.append(app.graph_scope.label());
    out.append(" ");
    out
}

// A cycle.

/// How much source a cycle changed, in a few words.
pub open spec fn change_counts(cycle: HistoryCycle) -> Seq<char> {
    "+"@ + text::decimal(cycle.change.additions as nat) + " -"@ + text::decimal(
        cycle.change.deletions as nat,
    )
}

fn show_change_counts(cycle: &HistoryCycle) -> (r: String)
    ensures
        r@ == change_counts(*cycle),
{
    let mut out = "+".to_owned();
    out.append(&text::decimal_text(cycle.change.additions));
    out.append(" -");
    out.append(&text::decimal_text(cycle.change.deletions));
    out
}

/// The policy that a cycle was compared by.
pub open spec fn policy_of(comparison: Option<ComparisonSummary>, none: Seq<char>) -> Seq<char> {
    match comparison {
        Some(comparison) => comparison.policy@,
        None => none,
    }
}

fn show_policy(comparison: &Option<ComparisonSummary>, none: &str) -> (r: String)
    ensures
        r@ == policy_of(*comparison, none@),
{
    match comparison {
        Some(comparison) => comparison.policy.clone(),
        None => none.to_owned(),
    }
}

/// The summary of a cycle; `time` is when it was recorded and `age` how long ago that is.
pub open spec fn summary_lines(
    cycle: HistoryCycle,
    width: nat,
    time: Seq<char>,
    age: Seq<char>,
) -> Seq<Seq<SegmentView>> {
    let baseline = match cycle.baseline_label {
        Some(label) => " vs "@ + label@,
        None => ""@,
    };
    let binary = if cycle.change.binary_files > 0 {
        "  ·  "@ + text::decimal(cycle.change.binary_files as nat) + " binary"@
    } else {
        ""@
    };
    seq![
        seq![
            terminal_ui::chosen(
                " "@ + text::upper_cased(cycle.outcome@) + " "@,
                run_screen::tone_of(cycle.outcome@),
            ),
            terminal_ui::strong("  "@ + cycle.selector@ + " "@, Tone::Text),
            terminal_ui::toned(baseline, Tone::Muted),
            terminal_ui::toned("  │  "@ + time + "  ("@ + age + ")"@, Tone::Muted),
        ],
        seq![
            terminal_ui::toned(
                "  msg  "@ + terminal_ui::clipped(
                    cycle.message@,
                    run_screen::left_of(width as int, 7),
                ),
                Tone::Text,
            ),
        ],
        seq![
            terminal_ui::toned(
                "  change  "@ + text::decimal(cycle.change.files_changed as nat)
                    + " files modified  ·  "@ + change_counts(cycle) + binary + "  ·  policy "@
                    + policy_of(cycle.comparison, "baseline-free"@),
                Tone::Muted,
            ),
        ],
    ]
}

/// The summary of a cycle.
pub fn cycle_summary_lines(cycle: &HistoryCycle, width: usize, time: &str, age: &str) -> (r: Vec<
    Vec<Segment>,
>)
    ensures
        terminal_ui::lines_view(r@) == summary_lines(*cycle, width as nat, time@, age@),
{
    let mut outcome = " ".to_owned();
    outcome.append(&text::upper_text(&cycle.outcome));
    outcome.append(" ");
    let mut selector = "  ".to_owned();
    selector.append(&cycle.selector);
    selector.append(" ");
    let baseline = match &cycle.baseline_label {
        Some(label) => {
            let mut out = " vs ".to_owned();
            out.append(label);
            out
        },
        None => "".to_owned(),
    };
    let mut when = "  │  ".to_owned();
    when.append(time);
    when.append("  (");
    when.append(age);
    when.append(")");
    let mut heading: Vec<Segment> = Vec::new();
    heading.push(Segment::chosen(outcome, run_screen::outcome_tone(&cycle.outcome)));
    heading.push(Segment::strong(selector, Tone::Text));
    heading.push(Segment::toned(baseline, Tone::Muted));
    heading.push(Segment::toned(when, Tone::Muted));
    let mut message = "  msg  ".to_owned();
    message.append(&terminal_ui::clip(&cycle.message, run_screen::rest_of(width, 7)));
    let binary = if cycle.change.binary_files > 0 {
        let mut out = "  ·  ".to_owned();
        out.append(&text::decimal_text(cycle.change.binary_files));
        out.append(" binary");
        out
    } else {
        "".to_owned()
    };
    let mut change = "  change  ".to_owned();
    change.append(&text::decimal_text(cycle.change.files_changed));
    change.append(" files modified  ·  ");
    change.append(&show_change_counts(cycle));
    change.append(&binary);
    change.append("  ·  policy ");
    change.append(&show_policy(&cycle.comparison, "baseline-free"));
    let ghost expected = summary_lines(*cycle, width as nat, time@, age@);
    assert(terminal_ui::line_view(heading@) == expected[0]);
    let mut out: Vec<Vec<Segment>> = Vec::new();
    terminal_ui::push_line(&mut out, heading);
    terminal_ui::push_line(&mut out, terminal_ui::line_of(Segment::toned(message, Tone::Text)));
    terminal_ui::push_line(&mut out, terminal_ui::line_of(Segment::toned(change, Tone::Muted)));
    assert(terminal_ui::lines_view(out@) == expected);
    out
}

/// An artifact in a line where there is little room.
pub open spec fn short_artifact(artifact: HistoryArtifact, root: DisplayRootView, width: nat) -> Seq<
    SegmentView,
> {
    seq![
        terminal_ui::toned(
            terminal_ui::filled(history_artifacts::kind_label(artifact.kind), 12),
            history_artifacts::kind_tone(artifact.kind),
        ),
        terminal_ui::toned("  "@, Tone::Plain),
        terminal_ui::toned(
            terminal_ui::clipped(
                history_artifacts::shown_from(artifact.path@, root),
                run_screen::left_of(width as int, 14),
            ),
            Tone::Text,
        ),
    ]
}

fn show_short_artifact(artifact: &HistoryArtifact, root: &DisplayRoot, width: usize) -> (r: Vec<Segment>)
    ensures
        terminal_ui::line_view(r@) == short_artifact(*artifact, root@, width as nat),
{
    let path = terminal_ui::clip(
        &history_artifacts::display_path_from(&artifact.path, root),
        run_screen::rest_of(width, 14),
    );
    terminal_ui::line_of_three(
        Segment::toned(
            terminal_ui::fill(history_artifacts::artifact_kind_label(artifact.kind), 12),
            history_artifacts::artifact_tone(artifact.kind),
        ),
        Segment::toned("  ".to_owned(), Tone::Plain),
        Segment::toned(path, Tone::Text),
    )
}

/// An artifact in a line.
pub open spec fn artifact_row(artifact: HistoryArtifact, root: DisplayRootView, width: nat) -> Seq<
    SegmentView,
> {
    let path_width = run_screen::left_of(width as int, 31);
    seq![
        terminal_ui::toned(
            terminal_ui::filled(history_artifacts::kind_label(artifact.kind), 13),
            history_artifacts::kind_tone(artifact.kind),
        ),
        terminal_ui::toned(
            terminal_ui::filled(
                terminal_ui::clipped(
                    history_artifacts::shown_from(artifact.path@, root),
                    path_width,
                ),
                path_width,
            ),
            Tone::Text,
        ),
        terminal_ui::toned(" "@, Tone::Plain),
        terminal_ui::toned(
            terminal_ui::clipped(history_artifacts::overview_detail(artifact), 17),
            Tone::Muted,
        ),
    ]
}

fn show_artifact_row(artifact: &HistoryArtifact, root: &DisplayRoot, width: usize) -> (r: Vec<Segment>)
    ensures
        terminal_ui::line_view(r@) == artifact_row(*artifact, root@, width as nat),
{
    let path_width: usize = run_screen::rest_of(width, 31);
    let path = terminal_ui::fill(
        &terminal_ui::clip(
            &history_artifacts::display_path_from(&artifact.path, root),
            path_width,
        ),
        path_width,
    );
    let detail = terminal_ui::clip(&history_artifacts::artifact_overview_detail(artifact), 17);
    let mut out: Vec<Segment> = Vec::new();
    out.push(
        Segment::toned(
            terminal_ui::fill(history_artifacts::artifact_kind_label(artifact.kind), 13),
            history_artifacts::artifact_tone(artifact.kind),
        ),
    );
    out.push(Segment::toned(path, Tone::Text));
    out.push(Segment::toned(" ".to_owned(), Tone::Plain));
    out.push(Segment::toned(detail, Tone::Muted));
    assert(terminal_ui::line_view(out@) == artifact_row(*artifact, root@, width as nat));
    out
}

/// The artifacts of a cycle in lines, `limit` of them at most.
pub open spec fn artifact_rows(cycle: HistoryCycle, root: DisplayRootView, width: nat, limit: nat) -> Seq<
    Seq<SegmentView>,
> {
    if cycle.artifacts@.len() == 0 {
        seq![seq![terminal_ui::toned("No retained artifacts for this cycle."@, Tone::Faint)]]
    } else {
        let places = history_artifacts::at_most(
            history_artifacts::overview(cycle.artifacts@),
            limit as int,
        );
        Seq::new(
            places.len(),
            |k: int| artifact_row(cycle.artifacts@[places[k]], root, width),
        )
    }
}

/// The artifacts of a cycle in lines, `limit` of them at most.
pub fn artifact_lines(cycle: &HistoryCycle, root: &DisplayRoot, width: usize, limit: usize) -> (r: Vec<
    Vec<Segment>,
>)
    ensures
        terminal_ui::lines_view(r@) == artifact_rows(
            *cycle,
            root@,
            width as nat,
            limit as nat,
        ),
{
    let mut out: Vec<Vec<Segment>> = Vec::new();
    if cycle.artifacts.len() == 0 {
        terminal_ui::push_line(
            &mut out,
            terminal_ui::line_of(
                Segment::toned("No retained artifacts for this cycle.".to_owned(), Tone::Faint),
            ),
        );
        assert(terminal_ui::lines_view(out@) == artifact_rows(
            *cycle,
            root@,
            width as nat,
            limit as nat,
        ));
        return out;
    }
    let places = history_artifacts::artifact_overview(&cycle.artifacts);
    let ghost all = history_artifacts::overview(cycle.artifacts@);
    let ghost shown = history_artifacts::at_most(all, limit as int);
    let ghost rows = artifact_rows(*cycle, root@, width as nat, limit as nat);
    assert(all.len() == places@.len());
    let mut k: usize = 0;
    assert(terminal_ui::lines_view(out@) == rows.take(0));
    while k < places.len() && k < limit
        invariant
            k <= places@.len(),
            k <= limit,
            cycle.artifacts@.len() > 0,
            all == history_artifacts::overview(cycle.artifacts@),
            all == schedule::ints(places@),
            all.len() == places@.len(),
            shown == history_artifacts::at_most(all, limit as int),
            rows == artifact_rows(*cycle, root@, width as nat, limit as nat),
            history_artifacts::in_bounds(places@, cycle.artifacts@.len()),
            terminal_ui::lines_view(out@) == rows.take(k as int),
        decreases places@.len() - k,
    {
        assert(all[k as int] == places@[k as int]);
        assert(shown[k as int] == all[k as int]);
        terminal_ui::push_line(
            &mut out,
            show_artifact_row(&cycle.artifacts[places[k]], root, width),
        );
        assert(rows.take(k + 1) == rows.take(k as int).push(rows[k as int]));
        k += 1;
    }
    assert(rows.take(rows.len() as int) == rows);
    out
}

/// The first three artifacts of a cycle in lines where there is little room.
pub open spec fn short_artifacts(cycle: HistoryCycle, root: DisplayRootView, width: nat) -> Seq<
    Seq<SegmentView>,
> {
    let places = history_artifacts::at_most(history_artifacts::overview(cycle.artifacts@), 3);
    Seq::new(places.len(), |k: int| short_artifact(cycle.artifacts@[places[k]], root, width))
}

fn push_short_artifacts(
    out: &mut Vec<Vec<Segment>>,
    cycle: &HistoryCycle,
    root: &DisplayRoot,
    width: usize,
)
    ensures
        terminal_ui::lines_view(final(out)@) == terminal_ui::lines_view(old(out)@)
            + short_artifacts(*cycle, root@, width as nat),
{
    let ghost before = terminal_ui::lines_view(out@);
    let places = history_artifacts::artifact_overview(&cycle.artifacts);
    let ghost all = history_artifacts::overview(cycle.artifacts@);
    let ghost shown = history_artifacts::at_most(all, 3);
    let ghost rows = short_artifacts(*cycle, root@, width as nat);
    assert(all.len() == places@.len());
    let mut k: usize = 0;
    assert(before + rows.take(0) == before);
    while k < places.len() && k < 3
        invariant
            k <= places@.len(),
            k <= 3,
            all == history_artifacts::overview(cycle.artifacts@),
            all == schedule::ints(places@),
            all.len() == places@.len(),
            shown == history_artifacts::at_most(all, 3),
            rows == short_artifacts(*cycle, root@, width as nat),
            history_artifacts::in_bounds(places@, cycle.artifacts@.len()),
            terminal_ui::lines_view(out@) == before + rows.take(k as int),
        decreases places@.len() - k,
    {
        assert(all[k as int] == places@[k as int]);
        assert(shown[k as int] == all[k as int]);
        terminal_ui::push_line(
            out,
            show_short_artifact(&cycle.artifacts[places[k]], root, width),
        );
        assert(before + rows.take(k + 1) == (before + rows.take(k as int)).push(rows[k as int]));
        k += 1;
    }
    assert(rows.take(rows.len() as int) == rows);
}

/// The head of a cycle where there is little room.
pub open spec fn compact_head(cycle: HistoryCycle, width: nat, time: Seq<char>) -> Seq<
    Seq<SegmentView>,
> {
    seq![
        seq![terminal_ui::strong(terminal_ui::clipped(cycle.message@, width), Tone::Text)],
        seq![
            terminal_ui::toned(
                time + "  "@ + text::decimal(cycle.change.files_changed as nat) + " files  "@
                    + change_counts(cycle) + "  "@ + policy_of(
                    cycle.comparison,
                    "no comparison"@,
                ),
                Tone::Muted,
            ),
        ],
        terminal_ui::blank_line(),
        history_screen::compact_engine(cycle, Engine::Chromium),
        history_screen::compact_engine(cycle, Engine::Firefox),
        history_screen::compact_engine(cycle, Engine::Webkit),
        terminal_ui::blank_line(),
        seq![
            terminal_ui::toned("ARTIFACTS  "@, Tone::Amber),
            terminal_ui::toned(
                text::decimal(cycle.artifacts@.len()) + " retained · o to open"@,
                Tone::Muted,
            ),
        ],
    ]
}

/// A cycle where there is little room: its head, its first artifacts, and its promotion.
pub open spec fn compact_detail(cycle: HistoryCycle, root: DisplayRootView, width: nat, time: Seq<char>) -> Seq<
    Seq<SegmentView>,
> {
    (compact_head(cycle, width, time) + short_artifacts(cycle, root, width)).push(
        terminal_ui::blank_line(),
    ) + history_screen::promotion_text(cycle)
}

/// A cycle where there is little room.
pub fn compact_detail_lines(cycle: &HistoryCycle, root: &DisplayRoot, width: usize, time: &str) -> (r: Vec<
    Vec<Segment>,
>)
    ensures
        terminal_ui::lines_view(r@) == compact_detail(*cycle, root@, width as nat, time@),
{
    let mut said = time.to_owned();
    said.append("  ");
    said.append(&text::decimal_text(cycle.change.files_changed));
    said.append(" files  ");
    said.append(&show_change_counts(cycle));
    said.append("  ");
    said.append(&show_policy(&cycle.comparison, "no comparison"));
    let mut retained = text::decimal_text(cycle.artifacts.len() as u64);
    retained.append(" retained · o to open");
    let mut out: Vec<Vec<Segment>> = Vec::new();
    terminal_ui::push_line(
        &mut out,
        terminal_ui::line_of(
            Segment::strong(terminal_ui::clip(&cycle.message, width), Tone::Text),
        ),
    );
    terminal_ui::push_line(&mut out, terminal_ui::line_of(Segment::toned(said, Tone::Muted)));
    terminal_ui::push_line(&mut out, terminal_ui::empty_line());
    terminal_ui::push_line(
        &mut out,
        history_screen::compact_engine_line(cycle, Engine::Chromium),
    );
    terminal_ui::push_line(
        &mut out,
        history_screen::compact_engine_line(cycle, Engine::Firefox),
    );
    terminal_ui::push_line(
        &mut out,
        history_screen::compact_engine_line(cycle, Engine::Webkit),
    );
    terminal_ui::push_line(&mut out, terminal_ui::empty_line());
    terminal_ui::push_line(
        &mut out,
        terminal_ui::line_of_two(
            Segment::toned("ARTIFACTS  ".to_owned(), Tone::Amber),
            Segment::toned(retained, Tone::Muted),
        ),
    );
    assert(terminal_ui::lines_view(out@) == compact_head(*cycle, width as nat, time@));
    push_short_artifacts(&mut out, cycle, root, width);
    terminal_ui::push_line(&mut out, terminal_ui::empty_line());
    terminal_ui::push_lines(&mut out, history_screen::promotion_lines(cycle));
    out
}

/// What is said where no cycle passes the filters.
pub open spec fn no_cycles() -> Seq<Seq<SegmentView>> {
    seq![
        seq![terminal_ui::toned("No cycles match the active filters."@, Tone::Text)],
        terminal_ui::blank_line(),
        seq![terminal_ui::toned("Use a, p/e/i/n, l, or d to broaden the view."@, Tone::Muted)],
    ]
}

/// What is said where no cycle passes the filters.
pub fn no_cycles_lines() -> (r: Vec<Vec<Segment>>)
    ensures
        terminal_ui::lines_view(r@) == no_cycles(),
{
    let mut out: Vec<Vec<Segment>> = Vec::new();
    terminal_ui::push_line(
        &mut out,
        terminal_ui::line_of(
            Segment::toned("No cycles match the active filters.".to_owned(), Tone::Text),
        ),
    );
    terminal_ui::push_line(&mut out, terminal_ui::empty_line());
    terminal_ui::push_line(
        &mut out,
        terminal_ui::line_of(
            Segment::toned(
                "Use a, p/e/i/n, l, or d to broaden the view.".to_owned(),
                Tone::Muted,
            ),
        ),
    );
    assert(terminal_ui::lines_view(out@) == no_cycles());
    out
}

// Keys.

/// The keys of the screen and what they do, shorter where there is little room.
pub open spec fn shortcuts(compact: bool) -> Seq<(Seq<char>, Seq<char>)> {
    if compact {
        seq![
            ("↑↓"@, "move"@),
            ("a"@, "accepted"@),
            ("p/e/i/n"@, "verdict"@),
            ("g"@, "graphs"@),
            ("b/l/d"@, "filters"@),
            ("o"@, "artifact"@),
            ("q"@, "quit"@),
        ]
    } else {
        seq![
            ("↑↓"@, "move"@),
            ("a"@, "accepted-only"@),
            ("p e i n"@, "verdict"@),
            ("g"@, "graph scope"@),
            ("b"@, "benchmark"@),
            ("l"@, "lineage"@),
            ("d"@, "date"@),
            ("o"@, "open artifact"@),
            ("q"@, "quit"@),
        ]
    }
}

/// The foot of the screen: the notice where there is one, else the keys.
pub open spec fn footer(notice: Option<String>, width: u16) -> Seq<SegmentView> {
    match notice {
        Some(notice) => seq![terminal_ui::toned(" "@ + notice@, Tone::Green)],
        None => terminal_ui::shortcut_segments(
            shortcuts(width < 125),
            shortcuts(width < 125).len() as int,
        ),
    }
}

/// The foot of the screen.
pub fn footer_line(notice: &Option<String>, width: u16) -> (r: Vec<Segment>)
    ensures
        terminal_ui::line_view(r@) == footer(*notice, width),
{
    if let Some(notice) = notice {
        let mut said = " ".to_owned();
        said.append(notice);
        return terminal_ui::line_of(Segment::toned(said, Tone::Green));
    }
    let mut keys: Vec<(&'static str, &'static str)> = Vec::new();
    keys.push(("↑↓", "move"));
    if width < 125 {
        keys.push(("a", "accepted"));
        keys.push(("p/e/i/n", "verdict"));
        keys.push(("g", "graphs"));
        keys.push(("b/l/d", "filters"));
        keys.push(("o", "artifact"));
        keys.push(("q", "quit"));
    } else {
        keys.push(("a", "accepted-only"));
        keys.push(("p e i n", "verdict"));
        keys.push(("g", "graph scope"));
        keys.push(("b", "benchmark"));
        keys.push(("l", "lineage"));
        keys.push(("d", "date"));
        keys.push(("o", "open artifact"));
        keys.push(("q", "quit"));
    }
    assert(terminal_ui::shortcuts_view(keys@) == shortcuts(width < 125));
    terminal_ui::shortcut_line(&keys)
}

// Lists to pick from.

/// A benchmark in the list; `age` is how long ago it was last run.
pub open spec fn benchmark_label(entry: HistoryIndexEntry, age: Seq<char>) -> Seq<char> {
    terminal_ui::filled(entry.benchmark_id@, 30) + " "@ + terminal_ui::filled_before(
        text::decimal(entry.cycle_count as nat),
        3,
    ) + " cycles  "@ + age
}

/// A baseline in the list.
pub open spec fn baseline_label(baseline: HistoryBaseline) -> Seq<char> {
    terminal_ui::filled(baseline.label@, 8) + " "@ + text::start_of(baseline.cycle_id@, 20)
        + if baseline.current {
        " current"@
    } else {
        ""@
    }
}

/// What a list offers. `dates` are the dates on which the benchmarks were last run.
pub open spec fn offered(view: HistoryView, data: HistoryData, now: u64, dates: Seq<String>) -> Seq<
    Seq<char>,
> {
    match view.picker {
        None => Seq::empty(),
        Some(picker) => match picker.kind {
            PickerKind::Benchmark => Seq::new(
                data.index.benchmarks@.len(),
                |i: int|
                    benchmark_label(
                        data.index.benchmarks@[i],
                        history_screen::age_or_date(
                            now,
                            data.index.benchmarks@[i].latest_recorded_at_unix_ms,
                            dates[i]@,
                        ),
                    ),
            ),
            PickerKind::Lineage => seq!["all lineages"@] + Seq::new(
                data.overview.baselines@.len(),
                |i: int| baseline_label(data.overview.baselines@[i]),
            ),
            PickerKind::Date => Seq::new(
                4,
                |i: int| history_tui::range_label(history_tui::date_ranges()[i]),
            ),
            PickerKind::Artifact => match view.detail(data) {
                Some(cycle) => Seq::new(
                    cycle.artifacts@.len(),
                    |i: int|
                        history_artifacts::picker_label(
                            cycle.artifacts@[i],
                            data.display_root@,
                        ),
                ),
                None => Seq::empty(),
            },
        },
    }
}

fn benchmark_items(app: &App, now: u64, dates: &Vec<String>) -> (r: Vec<String>)
    requires
        dates@.len() == app.data.index.benchmarks@.len(),
        app.picker is Some,
        app.picker->0.kind == PickerKind::Benchmark,
    ensures
        text::views(r@) == offered(app@, app.data, now, dates@),
{
    let ghost all = offered(app@, app.data, now, dates@);
    let benchmarks = &app.data.index.benchmarks;
    let mut out: Vec<String> = Vec::new();
    let mut i: usize = 0;
    assert(text::views(out@) == all.take(0));
    while i < benchmarks.len()
        invariant
            i <= benchmarks@.len(),
            *benchmarks == app.data.index.benchmarks,
            dates@.len() == benchmarks@.len(),
            app.picker is Some,
            app.picker->0.kind == PickerKind::Benchmark,
            all == offered(app@, app.data, now, dates@),
            text::views(out@) == all.take(i as int),
        decreases benchmarks@.len() - i,
    {
        let entry = &benchmarks[i];
        let mut label = terminal_ui::fill(&entry.benchmark_id, 30);
        label.append(" ");
        label.append(&terminal_ui::fill_before(&text::decimal_text(entry.cycle_count), 3));
        label.append(" cycles  ");
        label.append(
            &history_screen::relative_age(now, entry.latest_recorded_at_unix_ms, &dates[i]),
        );
        let ghost before = text::views(out@);
        out.push(label);
        assert(text::views(out@) == before.push(label@));
        assert(all.take(i + 1) == all.take(i as int).push(all[i as int]));
        i += 1;
    }
    assert(all.take(all.len() as int) == all);
    out
}

fn lineage_items(app: &App, now: u64, dates: &Vec<String>) -> (r: Vec<String>)
    requires
        app.picker is Some,
        app.picker->0.kind == PickerKind::Lineage,
    ensures
        text::views(r@) == offered(app@, app.data, now, dates@),
{
    let ghost all = offered(app@, app.data, now, dates@);
    let baselines = &app.data.overview.baselines;
    let mut out: Vec<String> = Vec::new();
    out.push("all lineages".to_owned());
    let mut i: usize = 0;
    assert(text::views(out@) == all.take(1));
    while i < baselines.len()
        invariant
            i <= baselines@.len(),
            *baselines == app.data.overview.baselines,
            app.picker is Some,
            app.picker->0.kind == PickerKind::Lineage,
            all == offered(app@, app.data, now, dates@),
            text::views(out@) == all.take(i + 1),
        decreases baselines@.len() - i,
    {
        let baseline = &baselines[i];
        let mut label = terminal_ui::fill(&baseline.label, 8);
        label.append(" ");
        label.append(&history_screen::short_selector(&baseline.cycle_id));
        label.append(
            if baseline.current {
                " current"
            } else {
                ""
            },
        );
        let ghost before = text::views(out@);
        out.push(label);
        assert(text::views(out@) == before.push(label@));
        assert(all[i + 1] == baseline_label(*baseline));
        assert(all.take(i + 2) == all.take(i + 1).push(all[i + 1]));
        i += 1;
    }
    assert(all.take(all.len() as int) == all);
    out
}

fn date_items(app: &App, now: u64, dates: &Vec<String>) -> (r: Vec<String>)
    requires
        app.picker is Some,
        app.picker->0.kind == PickerKind::Date,
    ensures
        text::views(r@) == offered(app@, app.data, now, dates@),
{
    let mut out: Vec<String> = Vec::new();
    out.push(DateRange::Last24Hours.picker_label().to_owned());
    out.push(DateRange::Last7Days.picker_label().to_owned());
    out.push(DateRange::Last30Days.picker_label().to_owned());
    out.push(DateRange::All.picker_label().to_owned());
    assert(text::views(out@) == offered(app@, app.data, now, dates@));
    out
}

fn artifact_items(app: &App, now: u64, dates: &Vec<String>) -> (r: Vec<String>)
    requires
        app.picker is Some,
        app.picker->0.kind == PickerKind::Artifact,
    ensures
        text::views(r@) == offered(app@, app.data, now, dates@),
{
    let ghost all = offered(app@, app.data, now, dates@);
    let mut out: Vec<String> = Vec::new();
    assert(text::views(out@) == all.take(0));
    if let Some(cycle) = app.selected_cycle() {
        let mut i: usize = 0;
        while i < cycle.artifacts.len()
            invariant
                i <= cycle.artifacts@.len(),
                app@.detail(app.data) == Some(*cycle),
                app.picker is Some,
                app.picker->0.kind == PickerKind::Artifact,
                all == offered(app@, app.data, now, dates@),
                text::views(out@) == all.take(i as int),
            decreases cycle.artifacts@.len() - i,
        {
            let label = history_artifacts::artifact_picker_label(
                &cycle.artifacts[i],
                &app.data.display_root,
            );
            let ghost before = text::views(out@);
            out.push(label);
            assert(text::views(out@) == before.push(label@));
            assert(all.take(i + 1) == all.take(i as int).push(all[i as int]));
            i += 1;
        }
    }
    assert(all.take(all.len() as int) == all);
    out
}

/// What the list offers.
pub fn picker_items(app: &App, now: u64, dates: &Vec<String>) -> (r: Vec<String>)
    requires
        dates@.len() == app.data.index.benchmarks@.len(),
    ensures
        text::views(r@) == offered(app@, app.data, now, dates@),
{
    match app.picker {
        None => {
            let out: Vec<String> = Vec::new();
            assert(text::views(out@) == Seq::<Seq<char>>::empty());
            out
        },
        Some(picker) => match picker.kind {
            PickerKind::Benchmark => benchmark_items(app, now, dates),
            PickerKind::Lineage => lineage_items(app, now, dates),
            PickerKind::Date => date_items(app, now, dates),
            PickerKind::Artifact => artifact_items(app, now, dates),
        },
    }
}

/// The title of a list.
pub fn picker_title(kind: PickerKind) -> (r: &'static str)
    ensures
        r@ == match kind {
            PickerKind::Benchmark => " BENCHMARK "@,
            PickerKind::Lineage => " LINEAGE "@,
            PickerKind::Date => " DATE RANGE "@,
            PickerKind::Artifact => " OPEN ARTIFACT "@,
        },
{
    match kind {
        PickerKind::Benchmark => " BENCHMARK ",
        PickerKind::Lineage => " LINEAGE ",
        PickerKind::Date => " DATE RANGE ",
        PickerKind::Artifact => " OPEN ARTIFACT ",
    }
}

/// How wide a list is at most.
pub open spec fn list_width(kind: PickerKind) -> int {
    match kind {
        PickerKind::Benchmark => 72,
        PickerKind::Lineage => 54,
        PickerKind::Date => 42,
        PickerKind::Artifact => 100,
    }
}

/// The smaller of two.
pub open spec fn smaller(a: int, b: int) -> int {
    if a < b {
        a
    } else {
        b
    }
}

/// The width and height of a list on a screen: its items and a frame, with a margin, and six lines
/// at least.
pub open spec fn picker_size_of(kind: PickerKind, items: int, width: u16, height: u16) -> (int, int) {
    let high = smaller(
        smaller(items, u16::MAX as int) + 4,
        run_screen::left_of(height as int, 4) as int,
    );
    (
        smaller(run_screen::left_of(width as int, 8) as int, list_width(kind)),
        if high < 6 {
            6
        } else {
            high
        },
    )
}

/// The width and height of a list on a screen.
pub fn picker_size(kind: PickerKind, items: usize, width: u16, height: u16) -> (r: (u16, u16))
    ensures
        r.0 == picker_size_of(kind, items as int, width, height).0,
        r.1 == picker_size_of(kind, items as int, width, height).1,
{
    let most: u16 = match kind {
        PickerKind::Benchmark => 72,
        PickerKind::Lineage => 54,
        PickerKind::Date => 42,
        PickerKind::Artifact => 100,
    };
    let room: u16 = width.saturating_sub(8);
    let wide: u16 = if room < most {
        room
    } else {
        most
    };
    let count: u16 = if items < 65_535 {
        items as u16
    } else {
        65_535
    };
    let wanted: u16 = count.saturating_add(4);
    let most_high: u16 = height.saturating_sub(4);
    let high: u16 = if wanted < most_high {
        wanted
    } else {
        most_high
    };
    (
        wide,
        if high < 6 {
            6
        } else {
            high
        },
    )
}

// Laws.

/// A list offers as many things as it can be moved over.
pub proof fn a_list_shows_all_it_offers(
    view: HistoryView,
    data: HistoryData,
    now: u64,
    dates: Seq<String>,
)
    ensures
        offered(view, data, now, dates).len() == view.offered(data),
{
}

} // verus!
