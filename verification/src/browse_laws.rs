//! What holds of every key pressed while the history is browsed.

use vstd::prelude::*;

use crate::history::{HistoryCycleSummary, HistoryData, HistoryOverview};
use crate::history_tui;
use crate::history_tui::{
    DateRange, GraphScope, HistoryFailure, HistoryStep, HistoryView, PickerKind, VerdictFilters,
};
use crate::measurement_laws;
use crate::schedule;
use crate::terminal_ui::{Key, KeyCode};
use crate::text;

verus! {

// Filters.

/// A range of dates holds what was recorded within its days; one range holds everything.
pub proof fn a_range_holds_its_days(timestamp: u64, now: u64)
    ensures
        history_tui::in_range(DateRange::Last24Hours, timestamp, now) <==> now - timestamp <= 24
            * 60 * 60 * 1000,
        history_tui::in_range(DateRange::Last7Days, timestamp, now) <==> now - timestamp <= 7 * 24
            * 60 * 60 * 1000,
        history_tui::in_range(DateRange::Last30Days, timestamp, now) <==> now - timestamp <= 30
            * 24 * 60 * 60 * 1000,
        history_tui::in_range(DateRange::All, timestamp, now),
{
}

proof fn lemma_verdicts_differ()
    ensures
        "positive"@ != "equivalent"@,
        "positive"@ != "inconclusive"@,
        "positive"@ != "negative"@,
        "positive"@ != "measured"@,
        "equivalent"@ != "inconclusive"@,
        "equivalent"@ != "negative"@,
        "equivalent"@ != "measured"@,
        "inconclusive"@ != "negative"@,
        "inconclusive"@ != "measured"@,
        "negative"@ != "measured"@,
{
    reveal_strlit("positive");
    reveal_strlit("equivalent");
    reveal_strlit("inconclusive");
    reveal_strlit("negative");
    reveal_strlit("measured");
    assert("positive"@[0] == 'p');
    assert("equivalent"@[0] == 'e');
    assert("inconclusive"@[0] == 'i');
    assert("negative"@[0] == 'n');
    assert("measured"@[0] == 'm');
}

/// Each verdict has its own filter. What was measured without a verdict passes; anything else does
/// not.
pub proof fn each_verdict_has_its_filter(verdicts: VerdictFilters, outcome: Seq<char>)
    ensures
        verdicts.allowed("positive"@) == verdicts.positive,
        verdicts.allowed("equivalent"@) == verdicts.equivalent,
        verdicts.allowed("inconclusive"@) == verdicts.inconclusive,
        verdicts.allowed("negative"@) == verdicts.negative,
        verdicts.allowed("measured"@),
        outcome != "positive"@ && outcome != "equivalent"@ && outcome != "inconclusive"@ && outcome
            != "negative"@ && outcome != "measured"@ ==> !verdicts.allowed(outcome),
{
    lemma_verdicts_differ();
}

/// A verdict's key turns its filter, and no other.
pub proof fn a_verdict_key_turns_its_filter(verdicts: VerdictFilters, key: char)
    ensures
        verdicts.toggled(key).positive == (verdicts.positive != (key == 'p')),
        verdicts.toggled(key).equivalent == (verdicts.equivalent != (key == 'e')),
        verdicts.toggled(key).inconclusive == (verdicts.inconclusive != (key == 'i')),
        verdicts.toggled(key).negative == (verdicts.negative != (key == 'n')),
{
}

/// One cycle was measured against another: its baseline.
pub open spec fn measured_against(
    cycles: Seq<HistoryCycleSummary>,
    id: Seq<char>,
    baseline: Seq<char>,
) -> bool {
    exists|i: int|
        0 <= i < cycles.len() && (#[trigger] cycles[i]).cycle_id@ == id && text::opt(
            cycles[i].baseline_cycle_id,
        ) == Some(baseline)
}

/// The lineage of a cycle holds the cycle, and with every cycle in it the one that it was measured
/// against.
pub proof fn a_lineage_follows_the_baselines(
    cycles: Seq<HistoryCycleSummary>,
    start: Seq<char>,
    i: int,
)
    requires
        0 <= i < cycles.len(),
        forall|a: int, b: int|
            0 <= a < b < cycles.len() ==> (#[trigger] cycles[a]).cycle_id@ != (
            #[trigger] cycles[b]).cycle_id@,
        cycles[i].baseline_cycle_id is Some,
        history_tui::in_lineage(cycles, start, cycles[i].cycle_id@),
    ensures
        history_tui::in_lineage(cycles, start, start),
        history_tui::in_lineage(cycles, start, cycles[i].baseline_cycle_id->0@),
{
    assert(history_tui::ancestor(cycles, start, 0) == Some(start));
    let id = cycles[i].cycle_id@;
    let n = choose|n: nat| #[trigger] history_tui::ancestor(cycles, start, n) == Some(id);
    let wanted = history_tui::cycle_is(cycles, id);
    schedule::lemma_first(cycles.len() as int, wanted);
    assert(wanted(i));
    let at = history_tui::cycle_at(cycles, id);
    assert(cycles[at].cycle_id@ == id);
    assert(at == i);
    assert(history_tui::ancestor(cycles, start, n + 1) == Some(cycles[i].baseline_cycle_id->0@));
}

/// Nothing else is in a lineage: what is in it is the cycle itself, or was the baseline of another
/// cycle in it.
pub proof fn only_baselines_are_in_a_lineage(
    cycles: Seq<HistoryCycleSummary>,
    start: Seq<char>,
    id: Seq<char>,
)
    requires
        history_tui::in_lineage(cycles, start, id),
        id != start,
    ensures
        exists|later: Seq<char>| #[trigger]
            measured_against(cycles, later, id) && history_tui::in_lineage(cycles, start, later),
{
    let n = choose|n: nat| #[trigger] history_tui::ancestor(cycles, start, n) == Some(id);
    let later = history_tui::ancestor(cycles, start, (n - 1) as nat)->0;
    let wanted = history_tui::cycle_is(cycles, later);
    schedule::lemma_first(cycles.len() as int, wanted);
    let at = history_tui::cycle_at(cycles, later);
    assert(cycles[at].cycle_id@ == later);
    assert(measured_against(cycles, later, id));
    assert(history_tui::ancestor(cycles, start, (n - 1) as nat) == Some(later));
}

/// A baseline is found by its label: the first that has it.
pub proof fn a_baseline_is_found_by_its_label(overview: HistoryOverview, label: Seq<char>)
    ensures
        match history_tui::focused(overview, Some(label)) {
            Some(id) => exists|i: int|
                0 <= i < overview.baselines@.len() && (
                #[trigger] overview.baselines@[i]).label@ == label
                    && overview.baselines@[i].cycle_id@ == id && forall|j: int|
                    0 <= j < i ==> (#[trigger] overview.baselines@[j]).label@ != label,
            None => forall|i: int|
                0 <= i < overview.baselines@.len() ==> (
                #[trigger] overview.baselines@[i]).label@ != label,
        },
        history_tui::focused(overview, None) is None,
{
    let baselines = overview.baselines@;
    let wanted = history_tui::baseline_is(baselines, label);
    schedule::lemma_first(baselines.len() as int, wanted);
    let at = history_tui::baseline_at(baselines, label);
    if at >= 0 {
        assert(wanted(at));
        assert(baselines[at].label@ == label);
        assert forall|j: int| 0 <= j < at implies (#[trigger] baselines[j]).label@ != label by {
            assert(wanted(j) <==> baselines[j].label@ == label);
        }
    } else {
        assert forall|i: int| 0 <= i < baselines.len() implies (#[trigger] baselines[i]).label@
            != label by {
            assert(wanted(i) <==> baselines[i].label@ == label);
        }
    }
}

/// A cycle passes if every filter lets it pass: the accepted ones, the verdicts, the dates, and the
/// lineage, which holds a baseline, its own baselines, and what was measured against it.
pub proof fn a_cycle_passes_every_filter(
    view: HistoryView,
    overview: HistoryOverview,
    now: u64,
    cycle: HistoryCycleSummary,
)
    ensures
        view.passes(overview, now, cycle) <==> {
            &&& view.accepted_only ==> cycle.accepted
            &&& view.verdicts.allowed(cycle.outcome@)
            &&& history_tui::in_range(view.date_range, cycle.recorded_at_unix_ms, now)
            &&& history_tui::focused(overview, view.lineage) is Some ==> history_tui::in_lineage(
                overview.cycles@,
                history_tui::focused(overview, view.lineage)->0,
                cycle.cycle_id@,
            ) || (cycle.baseline_cycle_id is Some && cycle.baseline_cycle_id->0@
                == history_tui::focused(overview, view.lineage)->0)
        },
{
}

/// The visible cycles are those that pass, in the order of the overview.
pub proof fn visible_cycles_pass(view: HistoryView, overview: HistoryOverview, now: u64)
    ensures
        forall|i: int| #[trigger]
            view.visible(overview, now).contains(i) <==> (0 <= i < overview.cycles@.len()
                && view.passes(overview, now, overview.cycles@[i])),
        forall|a: int, b: int|
            0 <= a < b < view.visible(overview, now).len() ==> #[trigger] view.visible(
                overview,
                now,
            )[a] < #[trigger] view.visible(overview, now)[b],
{
    let shows = view.shows(overview, now);
    measurement_laws::chosen_places_are_the_wanted_ones(overview.cycles@.len() as int, shows);
    assert forall|i: int| #[trigger]
        view.visible(overview, now).contains(i) <==> (0 <= i < overview.cycles@.len()
            && view.passes(overview, now, overview.cycles@[i])) by {
        assert(shows(i) <==> view.passes(overview, now, overview.cycles@[i]));
    }
}

// The selection.

/// The place of a selection is the first with its identity.
pub proof fn a_place_is_found_by_its_identity(
    cycles: Seq<HistoryCycleSummary>,
    places: Seq<int>,
    id: Seq<char>,
)
    ensures
        ({
            let at = history_tui::place_of(cycles, places, Some(id));
            if at >= 0 {
                &&& at < places.len()
                &&& cycles[places[at]].cycle_id@ == id
                &&& forall|k: int| 0 <= k < at ==> cycles[#[trigger] places[k]].cycle_id@ != id
            } else {
                forall|k: int|
                    0 <= k < places.len() ==> cycles[#[trigger] places[k]].cycle_id@ != id
            }
        }),
        history_tui::place_of(cycles, places, None) == -1,
{
    let wanted = history_tui::place_is(cycles, places, id);
    schedule::lemma_first(places.len() as int, wanted);
    let at = history_tui::place_of(cycles, places, Some(id));
    if at >= 0 {
        assert(wanted(at));
        assert forall|k: int| 0 <= k < at implies cycles[#[trigger] places[k]].cycle_id@ != id by {
            assert(wanted(k) <==> cycles[places[k]].cycle_id@ == id);
        }
    } else {
        assert forall|k: int| 0 <= k < places.len() implies cycles[#[trigger] places[k]].cycle_id@
            != id by {
            assert(wanted(k) <==> cycles[places[k]].cycle_id@ == id);
        }
    }
}

/// A visible selection stays when the filters change; one that is hidden gives way to the first cycle
/// that is visible.
pub proof fn a_visible_selection_stays(
    view: HistoryView,
    overview: HistoryOverview,
    now: u64,
    i: int,
)
    requires
        0 <= i < overview.cycles@.len(),
        view.passes(overview, now, overview.cycles@[i]),
    ensures
        view.selected == Some(overview.cycles@[i].cycle_id@) ==> view.kept(overview, now).selected
            == view.selected,
        view.selected is None && (forall|j: int|
            0 <= j < i ==> !view.passes(overview, now, #[trigger] overview.cycles@[j]))
            ==> view.kept(overview, now).selected == Some(overview.cycles@[i].cycle_id@),
        view.kept(overview, now) == (HistoryView {
            selected: view.kept(overview, now).selected,
            notice: None,
            ..view
        }),
{
    let places = view.visible(overview, now);
    let cycles = overview.cycles@;
    visible_cycles_pass(view, overview, now);
    assert(places.contains(i));
    let k = choose|k: int| 0 <= k < places.len() && places[k] == i;
    a_place_is_found_by_its_identity(cycles, places, cycles[i].cycle_id@);
    if view.selected is None && (forall|j: int|
        0 <= j < i ==> !view.passes(overview, now, #[trigger] overview.cycles@[j])) {
        assert(places.contains(places[0]));
        assert(view.passes(overview, now, overview.cycles@[places[0]]));
        assert(places[0] <= places[k]);
        assert(places[0] == i);
    }
}

/// Down selects the next visible cycle and up the one before; at the ends the selection stays.
pub proof fn a_step_selects_the_next_cycle(
    view: HistoryView,
    overview: HistoryOverview,
    now: u64,
    k: int,
)
    requires
        0 <= k < view.visible(overview, now).len(),
        history_tui::place_of(overview.cycles@, view.visible(overview, now), view.selected) == k,
    ensures
        ({
            let places = view.visible(overview, now);
            let cycles = overview.cycles@;
            &&& k + 1 < places.len() ==> view.stepped(overview, now, 1).selected == Some(
                cycles[places[k + 1]].cycle_id@,
            )
            &&& k + 1 == places.len() ==> view.stepped(overview, now, 1).selected == view.selected
            &&& k > 0 ==> view.stepped(overview, now, -1).selected == Some(
                cycles[places[k - 1]].cycle_id@,
            )
            &&& k == 0 ==> view.stepped(overview, now, -1).selected == view.selected
        }),
{
    assert(view.selected is Some);
    a_place_is_found_by_its_identity(
        overview.cycles@,
        view.visible(overview, now),
        view.selected->0,
    );
}

/// The edges of the list are its first and its last visible cycle.
pub proof fn the_edges_are_the_first_and_the_last_cycle(
    view: HistoryView,
    overview: HistoryOverview,
    now: u64,
    i: int,
    end: bool,
)
    requires
        0 <= i < overview.cycles@.len(),
        view.passes(overview, now, overview.cycles@[i]),
        forall|j: int|
            0 <= j < overview.cycles@.len() && view.passes(
                overview,
                now,
                #[trigger] overview.cycles@[j],
            ) ==> if end {
                j <= i
            } else {
                i <= j
            },
    ensures
        view.at_edge(overview, now, end).selected == Some(overview.cycles@[i].cycle_id@),
{
    let places = view.visible(overview, now);
    visible_cycles_pass(view, overview, now);
    assert(places.contains(i));
    let k = choose|k: int| 0 <= k < places.len() && places[k] == i;
    assert(places.contains(places[0]));
    assert(places.contains(places.last()));
    assert(view.passes(overview, now, overview.cycles@[places[0]]));
    assert(view.passes(overview, now, overview.cycles@[places.last()]));
}

/// What is selected is read where it was not read yet; nothing is read twice.
pub proof fn what_is_selected_is_read_once(view: HistoryView, data: HistoryData, id: Seq<char>)
    requires
        view.selected == Some(id),
    ensures
        match view.wanted(data) {
            HistoryStep::LoadCycle(i) => i < data.overview.cycles@.len()
                && data.overview.cycles@[i as int].cycle_id@ == id && forall|k: int|
                0 <= k < data.details@.len() ==> (#[trigger] data.details@[k]).cycle_id@ != id,
            HistoryStep::Continue => exists|k: int|
                0 <= k < data.details@.len() && (#[trigger] data.details@[k]).cycle_id@ == id,
            HistoryStep::Failed(failure) => failure == HistoryFailure::MissingCycle && forall|i:
                int|
                0 <= i < data.overview.cycles@.len() ==> (
                #[trigger] data.overview.cycles@[i]).cycle_id@ != id,
            _ => false,
        },
{
    assert(data.overview.cycles.len() == data.overview.cycles@.len());
    let details = data.details@;
    let cycles = data.overview.cycles@;
    let loaded = history_tui::loaded_is(details, id);
    let listed = history_tui::cycle_is(cycles, id);
    schedule::lemma_first(details.len() as int, loaded);
    schedule::lemma_first(cycles.len() as int, listed);
    let at = history_tui::loaded_at(details, id);
    let place = history_tui::cycle_at(cycles, id);
    if at >= 0 {
        assert(details[at].cycle_id@ == id);
    } else {
        assert forall|k: int| 0 <= k < details.len() implies (#[trigger] details[k]).cycle_id@
            != id by {
            assert(loaded(k) <==> details[k].cycle_id@ == id);
        }
        if place < 0 {
            assert forall|i: int| 0 <= i < cycles.len() implies (#[trigger] cycles[i]).cycle_id@
                != id by {
                assert(listed(i) <==> cycles[i].cycle_id@ == id);
            }
        } else {
            assert(cycles[place].cycle_id@ == id);
        }
    }
}

// Keys.

/// Nothing but the selection and the notice differs.
pub open spec fn only_selects(before: HistoryView, after: HistoryView) -> bool {
    after == HistoryView { selected: after.selected, notice: after.notice, ..before }
}

/// A letter is pressed, small or large.
pub open spec fn letter(key: Key, small: char, large: char) -> bool {
    key.code == KeyCode::Char(small) || key.code == KeyCode::Char(large)
}

/// While nothing is picked: each key does its own thing, and only leaving ends it.
pub proof fn a_key_does_its_own_thing(view: HistoryView, data: HistoryData, now: u64, key: Key)
    requires
        view.picker is None,
        !key.control,
    ensures
        ({
            let (next, step) = view.pressed(data, now, key);
            let verdict = letter(key, 'p', 'P') || letter(key, 'e', 'E') || letter(key, 'i', 'I')
                || letter(key, 'n', 'N');
            &&& step == HistoryStep::Quit <==> letter(key, 'q', 'Q')
            &&& letter(key, 'q', 'Q') ==> next == view
            &&& !letter(key, 'q', 'Q') ==> step == next.wanted(data)
            &&& next.accepted_only == (view.accepted_only != letter(key, 'a', 'A'))
            &&& next.graph_scope == if letter(key, 'g', 'G') {
                view.graph_scope.other()
            } else {
                view.graph_scope
            }
            &&& next.verdicts.positive == (view.verdicts.positive != letter(key, 'p', 'P'))
            &&& next.verdicts.equivalent == (view.verdicts.equivalent != letter(key, 'e', 'E'))
            &&& next.verdicts.inconclusive == (view.verdicts.inconclusive != letter(key, 'i', 'I'))
            &&& next.verdicts.negative == (view.verdicts.negative != letter(key, 'n', 'N'))
            &&& next.date_range == view.date_range && next.lineage == view.lineage
            &&& next.picker is Some <==> letter(key, 'b', 'B') || letter(key, 'l', 'L') || letter(
                key,
                'd',
                'D',
            ) || (letter(key, 'o', 'O') && view.artifact_count(data) > 0)
            &&& letter(key, 'b', 'B') ==> next.picker->0.kind == PickerKind::Benchmark
            &&& letter(key, 'l', 'L') ==> next.picker->0.kind == PickerKind::Lineage
            &&& letter(key, 'd', 'D') ==> next.picker->0.kind == PickerKind::Date
            &&& letter(key, 'o', 'O') && view.artifact_count(data) > 0 ==> next.picker->0.kind
                == PickerKind::Artifact && next.picker->0.selected == 0
            &&& letter(key, 'o', 'O') && view.artifact_count(data) == 0 ==> next.notice is Some
                && only_selects(view, next) && next.selected == view.selected
            &&& key.code == KeyCode::Up || key.code == KeyCode::Char('k') ==> next == view.stepped(
                data.overview,
                now,
                -1,
            ) && only_selects(view, next)
            &&& key.code == KeyCode::Down || key.code == KeyCode::Char('j') ==> next
                == view.stepped(data.overview, now, 1) && only_selects(view, next)
            &&& key.code == KeyCode::Home ==> next == view.at_edge(data.overview, now, false)
            &&& key.code == KeyCode::End ==> next == view.at_edge(data.overview, now, true)
            &&& verdict || letter(key, 'a', 'A') ==> next.selected == next.kept(
                data.overview,
                now,
            ).selected
        }),
{
    let overview = data.overview;
    let flipped = HistoryView { accepted_only: !view.accepted_only, ..view };
    lemma_kept_stays(flipped, overview, now);
    lemma_kept_stays(
        HistoryView { verdicts: view.verdicts.toggled('p'), ..view },
        overview,
        now,
    );
    lemma_kept_stays(
        HistoryView { verdicts: view.verdicts.toggled('e'), ..view },
        overview,
        now,
    );
    lemma_kept_stays(
        HistoryView { verdicts: view.verdicts.toggled('i'), ..view },
        overview,
        now,
    );
    lemma_kept_stays(
        HistoryView { verdicts: view.verdicts.toggled('n'), ..view },
        overview,
        now,
    );
}

/// What is kept once stays.
proof fn lemma_kept_stays(view: HistoryView, overview: HistoryOverview, now: u64)
    ensures
        view.kept(overview, now).kept(overview, now).selected == view.kept(overview, now).selected,
{
    let kept = view.kept(overview, now);
    let places = view.visible(overview, now);
    let shows = view.shows(overview, now);
    let still = kept.shows(overview, now);
    assert forall|i: int|
        view.passes(overview, now, #[trigger] overview.cycles@[i]) == kept.passes(
            overview,
            now,
            overview.cycles@[i],
        ) by {
        a_cycle_passes_every_filter(view, overview, now, overview.cycles@[i]);
        a_cycle_passes_every_filter(kept, overview, now, overview.cycles@[i]);
    }
    assert(shows =~= still);
    assert(kept.visible(overview, now) == places);
    match kept.selected {
        Some(id) => {
            a_place_is_found_by_its_identity(overview.cycles@, places, id);
        },
        None => {},
    }
}

/// The interrupt leaves at any time, with nothing changed.
pub proof fn an_interrupt_leaves_the_history(
    view: HistoryView,
    data: HistoryData,
    now: u64,
    key: Key,
)
    requires
        key.control,
        key.code == KeyCode::Char('c') || key.code == KeyCode::Char('C'),
    ensures
        view.pressed(data, now, key) == (view, HistoryStep::Quit),
{
}

/// The two scopes of the graphs take turns.
pub proof fn scopes_take_turns(scope: GraphScope)
    ensures
        scope.other() != scope,
        scope.other().other() == scope,
{
}

/// A list begins at what is set: the benchmark, the lineage, or the dates.
pub proof fn a_list_begins_at_what_is_set(view: HistoryView, data: HistoryData, i: int)
    requires
        data.overview.baselines@.len() < usize::MAX,
    ensures
        0 <= i < data.index.benchmarks@.len() && data.index.benchmarks@[i].benchmark_id@
            == data.overview.benchmark_id@ && (forall|j: int|
            0 <= j < i ==> (#[trigger] data.index.benchmarks@[j]).benchmark_id@
                != data.overview.benchmark_id@) ==> view.picking(
            data,
            PickerKind::Benchmark,
        ).picker->0.selected == i,
        view.lineage is None ==> view.picking(data, PickerKind::Lineage).picker->0.selected == 0,
        0 <= i < data.overview.baselines@.len() && view.lineage == Some(
            data.overview.baselines@[i].label@,
        ) && (forall|j: int|
            0 <= j < i ==> (#[trigger] data.overview.baselines@[j]).label@ != view.lineage->0)
            ==> view.picking(data, PickerKind::Lineage).picker->0.selected == i + 1,
        0 <= i < history_tui::date_ranges().len() && view.date_range
            == history_tui::date_ranges()[i] ==> view.picking(
            data,
            PickerKind::Date,
        ).picker->0.selected == i,
{
    let benchmarks = data.index.benchmarks@;
    let baselines = data.overview.baselines@;
    assert(data.index.benchmarks.len() == benchmarks.len());
    let named = history_tui::benchmark_is(benchmarks, data.overview.benchmark_id@);
    schedule::lemma_first(benchmarks.len() as int, named);
    if 0 <= i < benchmarks.len() && benchmarks[i].benchmark_id@ == data.overview.benchmark_id@ {
        assert(named(i));
    }
    if view.lineage is Some {
        let labelled = history_tui::baseline_is(baselines, view.lineage->0);
        schedule::lemma_first(baselines.len() as int, labelled);
        if 0 <= i < baselines.len() && baselines[i].label@ == view.lineage->0 {
            assert(labelled(i));
        }
    }
}

/// In a list: the arrows move by one within it, Escape closes it with nothing else changed, and only
/// Enter takes what is marked.
pub proof fn a_key_moves_in_the_list(view: HistoryView, data: HistoryData, now: u64, key: Key)
    requires
        view.picker is Some,
        !key.control,
        0 < view.offered(data) <= usize::MAX,
        view.picker->0.selected < view.offered(data),
    ensures
        ({
            let (next, step) = view.pressed(data, now, key);
            let at = view.picker->0.selected;
            let count = view.offered(data);
            let up = key.code == KeyCode::Up || key.code == KeyCode::Char('k');
            let down = key.code == KeyCode::Down || key.code == KeyCode::Char('j');
            &&& letter(key, 'q', 'Q') ==> step == HistoryStep::Quit && next == view
            &&& key.code == KeyCode::Esc ==> step == HistoryStep::Continue && next == HistoryView {
                picker: None,
                ..view
            }
            &&& key.code != KeyCode::Esc && key.code != KeyCode::Enter ==> next == HistoryView {
                picker: next.picker,
                ..view
            } && next.picker is Some && next.picker->0.kind == view.picker->0.kind
                && next.picker->0.selected < count
            &&& !letter(key, 'q', 'Q') && key.code != KeyCode::Enter ==> step
                == HistoryStep::Continue
            &&& up && at > 0 ==> next.picker->0.selected == at - 1
            &&& down && at + 1 < count ==> next.picker->0.selected == at + 1
            &&& (up && at == 0) || (down && at + 1 == count) ==> next.picker->0.selected == at
            &&& key.code == KeyCode::Home ==> next.picker->0.selected == 0
            &&& key.code == KeyCode::End ==> next.picker->0.selected == count - 1
        }),
{
}

/// Enter takes what is marked: a benchmark is read, a lineage or a range of dates is set, an artifact
/// is opened.
pub proof fn enter_takes_what_is_marked(view: HistoryView, data: HistoryData, now: u64, key: Key)
    requires
        view.picker is Some,
        view.picker->0.selected < view.offered(data),
        key.code == KeyCode::Enter,
    ensures
        ({
            let (next, step) = view.pressed(data, now, key);
            let at = view.picker->0.selected;
            let kind = view.picker->0.kind;
            &&& kind == PickerKind::Benchmark ==> step == HistoryStep::LoadBenchmark(at) && next
                == view
            &&& kind == PickerKind::Artifact ==> step == HistoryStep::OpenArtifact(at) && next
                == view
            &&& kind == PickerKind::Lineage ==> next.picker is None && next.date_range
                == view.date_range && next.lineage == (if at == 0 {
                None
            } else {
                Some(data.overview.baselines@[at - 1].label@)
            })
            &&& kind == PickerKind::Date ==> next.picker is None && next.lineage == view.lineage && (
            at == 0 ==> next.date_range == DateRange::Last24Hours) && (at == 1 ==> next.date_range
                == DateRange::Last7Days) && (at == 2 ==> next.date_range == DateRange::Last30Days)
                && (at == 3 ==> next.date_range == DateRange::All)
            &&& next.accepted_only == view.accepted_only && next.verdicts == view.verdicts
                && next.graph_scope == view.graph_scope
        }),
{
}

/// A history opens on its current baseline and the last thirty days; where that shows nothing, on all
/// dates.
pub proof fn a_history_opens_on_recent_cycles(
    view: HistoryView,
    overview: HistoryOverview,
    now: u64,
)
    ensures
        ({
            let opened = history_tui::opened(view, overview, now);
            let recent = HistoryView { date_range: DateRange::Last30Days, ..opened };
            let shown = exists|i: int|
                0 <= i < overview.cycles@.len() && recent.passes(
                    overview,
                    now,
                    #[trigger] overview.cycles@[i],
                );
            &&& opened.lineage == text::opt(overview.current_baseline_label)
            &&& shown ==> opened.date_range == DateRange::Last30Days
            &&& !shown ==> opened.date_range == DateRange::All
            &&& opened.accepted_only == view.accepted_only
            &&& opened.verdicts == view.verdicts
            &&& opened.graph_scope == view.graph_scope
            &&& opened.notice is None
        }),
{
    let opened = history_tui::opened(view, overview, now);
    let recent = HistoryView { date_range: DateRange::Last30Days, ..opened };
    let first = HistoryView {
        selected: if overview.cycles@.len() > 0 {
            Some(overview.cycles@[0].cycle_id@)
        } else {
            None
        },
        lineage: text::opt(overview.current_baseline_label),
        date_range: DateRange::Last30Days,
        ..view
    };
    visible_cycles_pass(first, overview, now);
    let places = first.visible(overview, now);
    assert forall|i: int| 0 <= i < overview.cycles@.len() implies first.passes(
        overview,
        now,
        #[trigger] overview.cycles@[i],
    ) == recent.passes(overview, now, overview.cycles@[i]) by {}
    if places.len() > 0 {
        assert(places.contains(places[0]));
        assert(recent.passes(overview, now, overview.cycles@[places[0]]));
    } else {
        assert forall|i: int| 0 <= i < overview.cycles@.len() implies !recent.passes(
            overview,
            now,
            #[trigger] overview.cycles@[i],
        ) by {
            assert(!places.contains(i));
        }
    }
}

} // verus!
