//! What holds of everything that is shown and told.

use vstd::prelude::*;

use crate::benchmark_preview::CasePreview;
use crate::browser_lab;
use crate::browser_lab::Engine;
use crate::comparison::{ComparisonSummary, EngineSummary, MetricSummary};
use crate::doctor;
use crate::doctor::EngineReport;
use crate::history::{BrowserVersion, HistoryArtifact, HistoryArtifactKind, HistoryCycle};
use crate::history_artifacts;
use crate::history_artifacts::DisplayRootView;
use crate::history_panels;
use crate::history_screen;
use crate::history_screen::MetricMarks;
use crate::history_tui::PickerKind;
use crate::lineage::{ConfirmationRecord, CycleRecord, LineageEvent, PromotionRecord};
use crate::lineage_text;
use crate::measurement_laws;
use crate::paths;
use crate::reports;
use crate::run_screen;
use crate::run_tui::EngineMedians;
use crate::schedule;
use crate::schedule::{ScheduledTrial, TrialPhase};
use crate::sidecar_runtime;
use crate::sidecar_runtime::HostPlatform;
use crate::terminal_ui;
use crate::terminal_ui::{Arrangement, Tone};
use crate::text;

verus! {

// Marks and tones.

proof fn lemma_outcomes_differ()
    ensures
        "positive"@ != "equivalent"@,
        "positive"@ != "inconclusive"@,
        "positive"@ != "negative"@,
        "equivalent"@ != "inconclusive"@,
        "equivalent"@ != "negative"@,
        "inconclusive"@ != "negative"@,
        "improved"@ != "regressed"@,
        "improved"@ != "equivalent"@,
        "regressed"@ != "equivalent"@,
{
    reveal_strlit("positive");
    reveal_strlit("equivalent");
    reveal_strlit("inconclusive");
    reveal_strlit("negative");
    reveal_strlit("improved");
    reveal_strlit("regressed");
    assert("positive"@[0] == 'p');
    assert("equivalent"@[0] == 'e');
    assert("inconclusive"@[0] == 'i');
    assert("negative"@[0] == 'n');
    assert("improved"@[0] == 'i');
    assert("regressed"@[0] == 'r');
}

/// Each verdict has its own mark, its capital, and its own tone.
pub proof fn a_verdict_has_its_mark_and_its_tone(outcome: Seq<char>)
    ensures
        run_screen::mark_of(outcome) == 'P' <==> outcome == "positive"@,
        run_screen::mark_of(outcome) == 'E' <==> outcome == "equivalent"@,
        run_screen::mark_of(outcome) == 'I' <==> outcome == "inconclusive"@,
        run_screen::mark_of(outcome) == 'N' <==> outcome == "negative"@,
        run_screen::tone_of(outcome) == Tone::Green <==> outcome == "positive"@,
        run_screen::tone_of(outcome) == Tone::Blue <==> outcome == "equivalent"@,
        run_screen::tone_of(outcome) == Tone::Amber <==> outcome == "inconclusive"@,
        run_screen::tone_of(outcome) == Tone::Red <==> outcome == "negative"@,
{
    lemma_outcomes_differ();
}

/// What improved is green, what regressed is red, and what stayed equal is blue.
pub proof fn a_classification_has_its_tone(classification: Seq<char>)
    ensures
        history_screen::class_tone(classification) == Tone::Green <==> classification
            == "improved"@,
        history_screen::class_tone(classification) == Tone::Red <==> classification
            == "regressed"@,
        history_screen::class_tone(classification) == Tone::Blue <==> classification
            == "equivalent"@,
{
    lemma_outcomes_differ();
}

/// Only a run whose every case is right is shown in green, as passed.
pub proof fn only_a_pass_is_green(correctness: Seq<char>, cases: nat)
    ensures
        history_screen::correctness_line(correctness, cases)[1].tone == Tone::Green
            <==> correctness == "pass"@,
        correctness == "pass"@ ==> history_screen::correctness_line(correctness, cases)[1].text
            == "pass "@ + text::decimal(cases) + "/"@ + text::decimal(cases) + " cases"@,
        correctness != "pass"@ ==> history_screen::correctness_line(correctness, cases)[1].tone
            == Tone::Red && history_screen::correctness_line(correctness, cases)[1].text
            == correctness + " · "@ + text::decimal(cases) + " cases evaluated"@,
{
}

/// A cycle is shown as ready only if it is promotable and its promotion is ready.
pub proof fn only_a_ready_cycle_is_shown_as_ready(cycle: HistoryCycle)
    ensures
        history_screen::readiness_line(cycle)[1].tone == Tone::Green <==> cycle.promotion.ready
            && cycle.promotable,
        history_screen::readiness_line(cycle)[1].tone == Tone::Red <==> !cycle.promotable,
        history_screen::readiness_line(cycle)[1].text == "ready"@ <==> cycle.promotion.ready
            && cycle.promotable,
        history_screen::readiness_line(cycle)[1].text == "not promotable"@ <==> !cycle.promotable,
        history_screen::readiness_line(cycle)[1].text == "confirmation required"@
            <==> cycle.promotable && !cycle.promotion.ready,
{
    reveal_strlit("ready");
    reveal_strlit("not promotable");
    reveal_strlit("confirmation required");
    assert("ready"@.len() == 5);
    assert("not promotable"@.len() == 14);
    assert("confirmation required"@.len() == 21);
}

/// What is offered next: nothing more once a cycle is accepted, its acceptance once it is ready, and
/// its confirmation where that is what it lacks.
pub proof fn the_next_step_is_offered(cycle: HistoryCycle)
    ensures
        cycle.accepted && cycle.accepted_label is Some ==> history_screen::next_command(cycle)
            == "baseline "@ + cycle.accepted_label->0@,
        !cycle.accepted && cycle.promotion.ready && cycle.promotable
            ==> history_screen::next_command(cycle) == cycle.accept_command@,
        !cycle.accepted && !cycle.promotion.ready && cycle.promotable
            && cycle.promotion.confirmation_required ==> history_screen::next_command(cycle)
            == cycle.confirm_command@,
        !cycle.accepted && !cycle.promotable ==> history_screen::next_command(cycle)
            == "measure another candidate"@,
{
}

// Lookups.

/// The medians of an engine are the first that are its own.
pub proof fn medians_are_found_by_their_engine(medians: Seq<EngineMedians>, engine: Engine)
    ensures
        match run_screen::medians_of(medians, engine) {
            Some(found) => exists|i: int|
                0 <= i < medians.len() && #[trigger] medians[i] == found && found.engine == engine
                    && forall|j: int| 0 <= j < i ==> (#[trigger] medians[j]).engine != engine,
            None => forall|i: int|
                0 <= i < medians.len() ==> (#[trigger] medians[i]).engine != engine,
        },
    decreases medians.len(),
{
    if medians.len() > 0 {
        if medians[0].engine != engine {
            let rest = medians.drop_first();
            medians_are_found_by_their_engine(rest, engine);
            match run_screen::medians_of(medians, engine) {
                Some(found) => {
                    let i = choose|i: int|
                        0 <= i < rest.len() && #[trigger] rest[i] == found && found.engine
                            == engine && forall|j: int|
                            0 <= j < i ==> (#[trigger] rest[j]).engine != engine;
                    assert(medians[i + 1] == found);
                    assert forall|j: int| 0 <= j < i + 1 implies (#[trigger] medians[j]).engine
                        != engine by {
                        if j > 0 {
                            assert(rest[j - 1] == medians[j]);
                        }
                    }
                },
                None => {
                    assert forall|i: int| 0 <= i < medians.len() implies (
                    #[trigger] medians[i]).engine != engine by {
                        if i > 0 {
                            assert(rest[i - 1] == medians[i]);
                        }
                    }
                },
            }
        } else {
            assert(medians[0] == run_screen::medians_of(medians, engine)->0);
        }
    }
}

/// The summary of an engine is the first that is its own.
pub proof fn a_summary_is_found_by_its_engine(engines: Seq<EngineSummary>, engine: Engine)
    ensures
        match history_screen::summary_of(engines, engine) {
            Some(found) => exists|i: int|
                0 <= i < engines.len() && #[trigger] engines[i] == found && found.engine == engine
                    && forall|j: int| 0 <= j < i ==> (#[trigger] engines[j]).engine != engine,
            None => forall|i: int|
                0 <= i < engines.len() ==> (#[trigger] engines[i]).engine != engine,
        },
    decreases engines.len(),
{
    if engines.len() > 0 {
        if engines[0].engine != engine {
            let rest = engines.drop_first();
            a_summary_is_found_by_its_engine(rest, engine);
            match history_screen::summary_of(engines, engine) {
                Some(found) => {
                    let i = choose|i: int|
                        0 <= i < rest.len() && #[trigger] rest[i] == found && found.engine
                            == engine && forall|j: int|
                            0 <= j < i ==> (#[trigger] rest[j]).engine != engine;
                    assert(engines[i + 1] == found);
                    assert forall|j: int| 0 <= j < i + 1 implies (#[trigger] engines[j]).engine
                        != engine by {
                        if j > 0 {
                            assert(rest[j - 1] == engines[j]);
                        }
                    }
                },
                None => {
                    assert forall|i: int| 0 <= i < engines.len() implies (
                    #[trigger] engines[i]).engine != engine by {
                        if i > 0 {
                            assert(rest[i - 1] == engines[i]);
                        }
                    }
                },
            }
        } else {
            assert(engines[0] == history_screen::summary_of(engines, engine)->0);
        }
    }
}

/// A metric is the first that has its name.
pub proof fn a_metric_is_found_by_its_name(metrics: Seq<MetricSummary>, name: Seq<char>)
    ensures
        match history_screen::metric_of(metrics, name) {
            Some(found) => exists|i: int|
                0 <= i < metrics.len() && #[trigger] metrics[i] == found && found.name@ == name
                    && forall|j: int| 0 <= j < i ==> (#[trigger] metrics[j]).name@ != name,
            None => forall|i: int|
                0 <= i < metrics.len() ==> (#[trigger] metrics[i]).name@ != name,
        },
    decreases metrics.len(),
{
    if metrics.len() > 0 {
        if metrics[0].name@ != name {
            let rest = metrics.drop_first();
            a_metric_is_found_by_its_name(rest, name);
            match history_screen::metric_of(metrics, name) {
                Some(found) => {
                    let i = choose|i: int|
                        0 <= i < rest.len() && #[trigger] rest[i] == found && found.name@ == name
                            && forall|j: int| 0 <= j < i ==> (#[trigger] rest[j]).name@ != name;
                    assert(metrics[i + 1] == found);
                    assert forall|j: int| 0 <= j < i + 1 implies (#[trigger] metrics[j]).name@
                        != name by {
                        if j > 0 {
                            assert(rest[j - 1] == metrics[j]);
                        }
                    }
                },
                None => {
                    assert forall|i: int| 0 <= i < metrics.len() implies (
                    #[trigger] metrics[i]).name@ != name by {
                        if i > 0 {
                            assert(rest[i - 1] == metrics[i]);
                        }
                    }
                },
            }
        } else {
            assert(metrics[0] == history_screen::metric_of(metrics, name)->0);
        }
    }
}

/// The version that is shown is the engine's own.
pub proof fn a_version_is_found_by_its_engine(
    versions: Seq<BrowserVersion>,
    engine: Engine,
    i: int,
)
    requires
        0 <= i < versions.len(),
        versions[i].engine == engine,
        forall|j: int| 0 <= j < i ==> (#[trigger] versions[j]).engine != engine,
    ensures
        history_screen::version_of(versions, engine) == versions[i].version@,
    decreases i,
{
    if i > 0 {
        let rest = versions.drop_first();
        assert(versions[0].engine != engine);
        assert forall|j: int| 0 <= j < i - 1 implies (#[trigger] rest[j]).engine != engine by {
            assert(rest[j] == versions[j + 1]);
        }
        a_version_is_found_by_its_engine(rest, engine, i - 1);
    }
}

// The screen of runs.

/// A screen shows nothing below its least size; beside each other the list and the account stand from
/// one width on, and the account is full where it is high enough.
pub proof fn a_screen_is_arranged_by_its_size(width: u16, height: u16)
    ensures
        run_screen::arranged(width, height) == Arrangement::TooSmall <==> width < 100 || height
            < 28,
        run_screen::arranged(width, height) == Arrangement::Stacked <==> 100 <= width < 136
            && height >= 28,
        run_screen::arranged(width, height) == Arrangement::Wide <==> width >= 136 && height >= 40,
        history_panels::arranged(width, height) == Arrangement::TooSmall <==> width < 92 || height
            < 25,
        history_panels::arranged(width, height) == Arrangement::Stacked <==> 92 <= width < 140
            && height >= 25,
        history_panels::arranged(width, height) == Arrangement::Wide <==> width >= 160 && height
            >= 38,
{
}

/// A case says whether its expectation is written out and whether it is set up.
pub proof fn a_case_says_what_is_expected(case: CasePreview)
    ensures
        case.exact && !case.setup ==> run_screen::contract_text(case) == "expect exact()"@,
        !case.exact && !case.setup ==> run_screen::contract_text(case) == "expect dynamic"@,
        case.exact && case.setup ==> run_screen::contract_text(case) == "expect exact()"@
            + " · setup()"@,
        !case.exact && case.setup ==> run_screen::contract_text(case) == "expect dynamic"@
            + " · setup()"@,
{
}

/// The line of a case fits, and begins with the identity as far as there is room.
pub proof fn a_case_line_fits(case: CasePreview, width: nat)
    requires
        width >= 26,
    ensures
        ({
            let line = run_screen::case_segments(case, width);
            let room = width - if case.setup {
                26int
            } else {
                15
            };
            &&& line.len() == 2
            &&& line[0].text.len() == room
            &&& line[0].text.len() + line[1].text.len() <= width
            &&& case.id@.len() <= room ==> case.id@.is_prefix_of(line[0].text)
        }),
{
    reveal_strlit("expect exact()");
    reveal_strlit("expect dynamic");
    reveal_strlit(" · setup()");
    assert("expect exact()"@.len() == 14);
    assert("expect dynamic"@.len() == 14);
    assert(" · setup()"@.len() == 10);
}

/// The cases are listed in their order, up to a limit.
pub proof fn cases_are_listed_up_to_a_limit(
    cases: Seq<CasePreview>,
    limit: nat,
    width: nat,
    i: int,
)
    ensures
        run_screen::case_lines(cases, limit, width).len() <= limit,
        run_screen::case_lines(cases, limit, width).len() == cases.len()
            || run_screen::case_lines(cases, limit, width).len() == limit,
        0 <= i < cases.len() && i < limit ==> run_screen::case_lines(cases, limit, width)[i]
            == run_screen::case_segments(cases[i], width),
{
}

/// A budget is shown in whole minutes and seconds.
pub proof fn a_budget_is_shown_in_minutes_and_seconds(minutes: nat, seconds: nat, rest: nat)
    requires
        seconds < 60,
        rest < 1000,
    ensures
        run_screen::clock_text((minutes * 60 + seconds) * 1000 + rest) == text::padded(minutes, 2)
            + ":"@ + text::padded(seconds, 2),
{
    let all = (minutes * 60 + seconds) * 1000 + rest;
    assert(all / 1000 == minutes * 60 + seconds);
    assert((minutes * 60 + seconds) / 60 == minutes);
    assert((minutes * 60 + seconds) % 60 == seconds);
}

/// One run is told in the singular.
pub proof fn runs_are_counted(count: nat)
    ensures
        count == 1 ==> run_screen::runs_text(count) == text::decimal(1) + " run"@,
        count != 1 ==> run_screen::runs_text(count) == text::decimal(count) + " runs"@,
{
}

// The screen of the history.

/// What was recorded thirty days ago or earlier is shown by its date, the rest by its age.
pub proof fn an_old_cycle_is_shown_by_its_date(now: u64, then: u64, date: Seq<char>)
    ensures
        now - then >= 30 * 24 * 60 * 60 * 1000 ==> history_screen::age_or_date(now, then, date)
            == date,
        now - then < 30 * 24 * 60 * 60 * 1000 ==> history_screen::age_or_date(now, then, date)
            == terminal_ui::age(now as int, then as int),
{
}

/// A selector is shown by the first eight characters behind its prefix.
pub proof fn a_selector_is_shown_without_its_prefix(rest: Seq<char>)
    ensures
        rest.len() >= 8 ==> history_screen::bare_selector("cycle-"@ + rest) == rest.take(8),
        rest.len() < 8 ==> history_screen::bare_selector("cycle-"@ + rest) == rest,
{
    let whole = "cycle-"@ + rest;
    assert(whole.skip("cycle-"@.len() as int) == rest);
    assert("cycle-"@.is_prefix_of(whole));
}

/// A bar is filled between the ends of its interval, and nowhere else; its middle is marked.
pub proof fn a_bar_is_filled_in_its_interval(
    marks: MetricMarks,
    width: nat,
    low: usize,
    high: usize,
    i: int,
)
    requires
        marks.effect is None,
        marks.interval == Some((low, high)),
        low <= high < 8,
        0 <= i < history_screen::bar_cells(width),
    ensures
        history_screen::bar_text(marks, width)[i] == '█' <==> low <= i <= high,
        !(low <= i <= high) ==> (history_screen::bar_text(marks, width)[i] == '│' <==> i
            == history_screen::bar_cells(width) as int / 2),
        !(low <= i <= high) && i != history_screen::bar_cells(width) as int / 2
            ==> history_screen::bar_text(marks, width)[i] == '·',
        8 <= width <= 34 ==> history_screen::bar_cells(width) == width,
        width < 8 ==> history_screen::bar_cells(width) == 8,
        width > 34 ==> history_screen::bar_cells(width) == 34,
{
}

/// A mark beyond the end of its bar stands at its end.
pub proof fn a_mark_stays_on_its_bar(place: usize, cells: int)
    requires
        cells > 0,
    ensures
        place < cells ==> history_screen::on_bar(place, cells) == place,
        place >= cells ==> history_screen::on_bar(place, cells) == cells - 1,
{
}

/// A list is no wider than the screen leaves it, and as high as what it offers where there is room.
pub proof fn a_list_fits_the_screen(kind: PickerKind, items: int, width: u16, height: u16)
    requires
        0 <= items <= u16::MAX,
        width >= 8,
        height >= 10,
    ensures
        ({
            let (wide, high) = history_panels::picker_size_of(kind, items, width, height);
            &&& wide <= width - 8
            &&& 6 <= high <= height - 4
            &&& items >= 2 && items + 8 <= height ==> high == items + 4
            &&& width >= 108 ==> wide == match kind {
                PickerKind::Benchmark => 72int,
                PickerKind::Lineage => 54,
                PickerKind::Date => 42,
                PickerKind::Artifact => 100,
            }
        }),
{
}

// Paths.

/// A path that begins with the mark of a verbatim path is shown without it; every other path is shown
/// as it is, with slashes.
pub proof fn a_verbatim_path_is_shown_plainly(path: Seq<char>)
    ensures
        history_artifacts::portable_display("//?/UNC/"@ + path) == "//"@ + text::replaced(
            path,
            '\\',
            '/',
        ),
        !"UNC/"@.is_prefix_of(text::replaced(path, '\\', '/'))
            ==> history_artifacts::portable_display("//?/"@ + path) == text::replaced(
            path,
            '\\',
            '/',
        ),
        !"//?/"@.is_prefix_of(text::replaced(path, '\\', '/'))
            ==> history_artifacts::portable_display(path) == text::replaced(path, '\\', '/'),
{
    reveal_strlit("//?/UNC/");
    reveal_strlit("//?/");
    reveal_strlit("UNC/");
    let slashed = text::replaced(path, '\\', '/');
    let network = text::replaced("//?/UNC/"@ + path, '\\', '/');
    assert(network == "//?/UNC/"@ + slashed);
    assert(network.skip("//?/UNC/"@.len() as int) == slashed);
    assert("//?/UNC/"@.is_prefix_of(network));
    let local = text::replaced("//?/"@ + path, '\\', '/');
    assert(local == "//?/"@ + slashed);
    assert(local.skip("//?/"@.len() as int) == slashed);
    assert("//?/"@.is_prefix_of(local));
    assert("//?/UNC/"@ == "//?/"@ + "UNC/"@);
    if "//?/UNC/"@.is_prefix_of(local) {
        assert(local.take(8).skip(4) == "UNC/"@);
        assert(slashed.take(4) == local.take(8).skip(4));
        assert("UNC/"@.is_prefix_of(slashed));
    }
    if "//?/UNC/"@.is_prefix_of(slashed) {
        assert(slashed.take(4) == "//?/"@);
        assert("//?/"@.is_prefix_of(slashed));
    }
}

/// What is left of a path without the slashes at its end.
pub proof fn only_slashes_at_the_end_are_left_out(s: Seq<char>)
    ensures
        history_artifacts::without_slashes(s).is_prefix_of(s),
        history_artifacts::without_slashes(s).len() > 0 ==> history_artifacts::without_slashes(
            s,
        ).last() != '/',
        forall|i: int|
            history_artifacts::without_slashes(s).len() <= i < s.len() ==> #[trigger] s[i] == '/',
    decreases s.len(),
{
    if s.len() > 0 && s.last() == '/' {
        let rest = s.drop_last();
        only_slashes_at_the_end_are_left_out(rest);
        let kept = history_artifacts::without_slashes(s);
        assert(kept.is_prefix_of(s)) by {
            assert(rest.take(kept.len() as int) == s.take(kept.len() as int));
        }
        assert forall|i: int| kept.len() <= i < s.len() implies #[trigger] s[i] == '/' by {
            if i < rest.len() {
                assert(rest[i] == s[i]);
            }
        }
    } else {
        assert(s.is_prefix_of(s));
    }
}

/// A path below the root is shown from the root on; what is not below it is shown whole.
pub proof fn a_path_is_shown_from_the_root_on(root: Seq<char>, below: Seq<char>, other: Seq<char>)
    requires
        root.len() > 0,
        root.last() != '/',
        !"//?/"@.is_prefix_of(root),
        root.len() >= 4,
        forall|i: int| 0 <= i < root.len() ==> #[trigger] root[i] != '\\',
        forall|i: int| 0 <= i < below.len() ==> #[trigger] below[i] != '\\',
    ensures
        history_artifacts::shown_from(
            root + seq!['/'] + below,
            (DisplayRootView { path: root, platform: HostPlatform::Other }),
        ) == below,
        !root.is_prefix_of(history_artifacts::portable_display(other))
            ==> history_artifacts::shown_from(
            other,
            (DisplayRootView { path: root, platform: HostPlatform::Other }),
        ) == history_artifacts::portable_display(other),
{
    reveal_strlit("//?/");
    let path = root + seq!['/'] + below;
    assert(text::replaced(root, '\\', '/') == root);
    assert(text::replaced(path, '\\', '/') == path) by {
        assert forall|i: int| 0 <= i < path.len() implies #[trigger] path[i] != '\\' by {
            if i < root.len() {
                assert(path[i] == root[i]);
            } else if i > root.len() {
                assert(path[i] == below[i - root.len() - 1]);
            }
        }
    }
    if "//?/"@.is_prefix_of(path) {
        assert(root.take(4) == path.take(4));
        assert("//?/"@.is_prefix_of(root));
    }
    a_verbatim_path_is_shown_plainly(root);
    a_verbatim_path_is_shown_plainly(path);
    assert(history_artifacts::without_slashes(root) == root);
    assert(path.take(root.len() as int) == root);
    assert(path[root.len() as int] == '/');
    assert(path.skip(root.len() as int + 1) == below);
    let shown = history_artifacts::portable_display(other);
    if !root.is_prefix_of(shown) && root.len() <= shown.len() {
        assert(shown.take(root.len() as int) != root) by {
            if shown.take(root.len() as int) == root {
                assert(root.is_prefix_of(shown));
            }
        }
    }
}

/// On Windows the mark of a verbatim path is left out; elsewhere a path stays as it is.
pub proof fn a_verbatim_mark_is_left_out(path: Seq<char>)
    ensures
        sidecar_runtime::without_verbatim(path, HostPlatform::Other) == path,
        sidecar_runtime::without_verbatim("\\\\?\\UNC\\"@ + path, HostPlatform::Windows)
            == "\\\\"@ + path,
        !"UNC\\"@.is_prefix_of(path) ==> sidecar_runtime::without_verbatim(
            "\\\\?\\"@ + path,
            HostPlatform::Windows,
        ) == path,
{
    reveal_strlit("\\\\?\\UNC\\");
    reveal_strlit("\\\\?\\");
    reveal_strlit("UNC\\");
    let network = "\\\\?\\UNC\\"@ + path;
    assert(network.skip("\\\\?\\UNC\\"@.len() as int) == path);
    assert("\\\\?\\UNC\\"@.is_prefix_of(network));
    let local = "\\\\?\\"@ + path;
    assert(local.skip("\\\\?\\"@.len() as int) == path);
    assert("\\\\?\\"@.is_prefix_of(local));
    if "\\\\?\\UNC\\"@.is_prefix_of(local) {
        assert("\\\\?\\UNC\\"@.skip(4) == "UNC\\"@);
        assert(local.take(8).skip(4) == path.take(4));
        assert("UNC\\"@.is_prefix_of(path));
    }
}

/// The sidecar is looked for beside the executable, then in the runtime of its version, and last
/// where it is developed.
pub proof fn the_sidecar_is_looked_for_in_order(
    executable: Seq<char>,
    directory: Seq<char>,
    version: Seq<char>,
    development: Seq<char>,
)
    requires
        paths::parent(executable) == Some(directory),
    ensures
        ({
            let places = sidecar_runtime::places(Some(executable), version, development);
            &&& places.len() == 3
            &&& places[0] == paths::joined(directory, "sidecar"@)
            &&& places[1] == paths::joined(
                paths::joined(paths::joined(directory, "bperf-runtime"@), version),
                "sidecar"@,
            )
            &&& places[2] == development
        }),
        sidecar_runtime::places(None, version, development) == seq![development],
{
}

// Artifacts.

/// One artifact of each native kind, the first, is in the overview, where what decided leaves the
/// room.
pub proof fn an_overview_shows_each_kind(
    artifacts: Seq<HistoryArtifact>,
    kind: HistoryArtifactKind,
    i: int,
)
    requires
        0 <= i < artifacts.len(),
        artifacts[i].kind == kind,
        kind == HistoryArtifactKind::CpuProfile || kind == HistoryArtifactKind::Flamegraph || kind
            == HistoryArtifactKind::HeapSnapshot,
        forall|j: int| 0 <= j < i ==> (#[trigger] artifacts[j]).kind != kind,
        history_artifacts::metadata(artifacts).len() <= 3,
    ensures
        history_artifacts::overview(artifacts).contains(i),
{
    let n = artifacts.len() as int;
    let wanted = history_artifacts::kind_at(artifacts, kind);
    schedule::lemma_first(n, wanted);
    assert(wanted(i));
    let at = schedule::first(n, wanted);
    assert(artifacts[at].kind == kind);
    assert(at == i);
    let limit = history_artifacts::native_limit(artifacts);
    assert(limit >= 3);
    let none = Seq::<int>::empty();
    let cpu = history_artifacts::with_first(
        none,
        n,
        history_artifacts::kind_at(artifacts, HistoryArtifactKind::CpuProfile),
    );
    let flame = history_artifacts::with_first(
        cpu,
        n,
        history_artifacts::kind_at(artifacts, HistoryArtifactKind::Flamegraph),
    );
    let kinds = history_artifacts::of_each_kind(artifacts);
    assert(cpu.len() <= 1 && flame.len() <= 2 && kinds.len() <= 3);
    let k = if kind == HistoryArtifactKind::CpuProfile {
        0
    } else if kind == HistoryArtifactKind::Flamegraph {
        cpu.len() as int
    } else {
        flame.len() as int
    };
    assert(kinds[k] == i);
    let chromium = history_artifacts::with_engine(artifacts, kinds, limit, Engine::Chromium);
    let firefox = history_artifacts::with_engine(artifacts, chromium, limit, Engine::Firefox);
    let webkit = history_artifacts::with_engine(artifacts, firefox, limit, Engine::Webkit);
    assert(webkit[k] == i);
    let all = history_artifacts::with_others(artifacts, webkit, limit, n);
    lemma_others_follow(artifacts, webkit, limit, n);
    assert(all[k] == i);
    let native = history_artifacts::native(artifacts);
    assert(native[k] == i);
    assert(history_artifacts::overview(artifacts)[k] == i);
}

proof fn lemma_others_follow(
    artifacts: Seq<HistoryArtifact>,
    places: Seq<int>,
    limit: int,
    n: int,
)
    ensures
        places.is_prefix_of(history_artifacts::with_others(artifacts, places, limit, n)),
        places.len() <= limit ==> history_artifacts::with_others(
            artifacts,
            places,
            limit,
            n,
        ).len() <= limit,
    decreases n,
{
    if n > 0 {
        lemma_others_follow(artifacts, places, limit, n - 1);
        let earlier = history_artifacts::with_others(artifacts, places, limit, n - 1);
        let all = history_artifacts::with_others(artifacts, places, limit, n);
        assert(all.take(places.len() as int) == earlier.take(places.len() as int));
    } else {
        assert(places.take(places.len() as int) == places);
    }
}

/// Every engine with an artifact is in the overview, where nothing else takes the room.
pub proof fn an_overview_shows_each_engine(
    artifacts: Seq<HistoryArtifact>,
    engine: Engine,
    i: int,
)
    requires
        0 <= i < artifacts.len(),
        artifacts[i].engine == Some(engine),
        history_artifacts::metadata(artifacts).len() == 0,
    ensures
        history_artifacts::shows_engine(
            artifacts,
            history_artifacts::overview(artifacts),
            engine,
        ),
{
    let n = artifacts.len() as int;
    let limit = history_artifacts::native_limit(artifacts);
    assert(limit == 6);
    let kinds = history_artifacts::of_each_kind(artifacts);
    assert(kinds.len() <= 3);
    let chromium = history_artifacts::with_engine(artifacts, kinds, limit, Engine::Chromium);
    let firefox = history_artifacts::with_engine(artifacts, chromium, limit, Engine::Firefox);
    let webkit = history_artifacts::with_engine(artifacts, firefox, limit, Engine::Webkit);
    assert(chromium.len() <= 4 && firefox.len() <= 5 && webkit.len() <= 6);
    let wanted = history_artifacts::engine_at(artifacts, engine);
    schedule::lemma_first(n, wanted);
    assert(wanted(i));
    let at = schedule::first(n, wanted);
    assert(artifacts[at].engine == Some(engine));
    let before = if engine == Engine::Chromium {
        kinds
    } else if engine == Engine::Firefox {
        chromium
    } else {
        firefox
    };
    let k = if history_artifacts::shows_engine(artifacts, before, engine) {
        choose|k: int|
            0 <= k < before.len() && artifacts[#[trigger] before[k]].engine == Some(engine)
    } else {
        before.len() as int
    };
    assert(k < webkit.len() && artifacts[webkit[k]].engine == Some(engine));
    lemma_others_follow(artifacts, webkit, limit, n);
    let all = history_artifacts::with_others(artifacts, webkit, limit, n);
    assert(all[k] == webkit[k]);
    let shown = history_artifacts::overview(artifacts);
    assert(shown[k] == webkit[k]);
}

// Reports.

/// A list of texts is each of them, with a comma between every two.
pub proof fn a_listing_holds_every_text(items: Seq<Seq<char>>, item: Seq<char>)
    ensures
        reports::listing(seq![item]) == item,
        items.len() > 0 ==> reports::listing(items.push(item)) == reports::listing(items) + ", "@
            + item,
        reports::listing(Seq::empty()).len() == 0,
{
    assert(items.push(item).drop_last() == items);
}

/// As many final trials are told as the schedule has.
pub proof fn final_trials_are_counted(trials: Seq<ScheduledTrial>, i: int)
    ensures
        schedule::chosen(trials.len() as int, reports::is_final(trials)).contains(i) <==> (0 <= i
            < trials.len() && trials[i].phase == TrialPhase::Final),
        reports::final_trials(trials) == schedule::chosen(
            trials.len() as int,
            reports::is_final(trials),
        ).len(),
{
    measurement_laws::chosen_places_are_the_wanted_ones(
        trials.len() as int,
        reports::is_final(trials),
    );
}

/// Every acceptance and every confirmation of a shown cycle is told, one line each.
pub proof fn every_record_of_a_cycle_is_told(
    promotions: Seq<PromotionRecord>,
    confirmations: Seq<ConfirmationRecord>,
    n: int,
)
    requires
        n >= 0,
    ensures
        reports::accepted(promotions, n + 1) == reports::accepted(promotions, n) + "  accepted: "@
            + promotions[n].baseline_measurement_set@ + "\n"@,
        reports::confirmed(confirmations, n + 1) == reports::confirmed(confirmations, n)
            + "  confirmation: "@ + confirmations[n].confirmation_measurement_set@ + " ("@
            + confirmations[n].outcome@ + ")\n"@,
        reports::accepted(promotions, 0).len() == 0,
        reports::confirmed(confirmations, 0).len() == 0,
{
}

/// Two lines tell of every engine, in their order.
pub proof fn two_lines_tell_of_every_engine(reports: Seq<EngineReport>, n: int, k: int)
    requires
        0 <= k < n <= reports.len(),
    ensures
        doctor::report_text(reports, n).len() == 2 * n + 1,
        doctor::report_text(reports, n)[0] == "bperf doctor: supported"@,
        doctor::report_text(reports, n)[2 * k + 1] == doctor::capture_text(reports[k]),
        doctor::report_text(reports, n)[2 * k + 2] == doctor::overhead_text(reports[k]),
    decreases n,
{
    if n > 1 {
        if k < n - 1 {
            two_lines_tell_of_every_engine(reports, n - 1, k);
        } else {
            two_lines_tell_of_every_engine(reports, n - 1, 0);
        }
    } else {
        assert(doctor::report_text(reports, 0) == seq!["bperf doctor: supported"@]);
    }
}

// The told history.

/// The cycles among some events.
pub open spec fn is_cycle() -> spec_fn(LineageEvent) -> bool {
    |event: LineageEvent| event is Cycle
}

/// As many cycles are told as there are.
pub proof fn cycles_are_counted(events: Seq<LineageEvent>)
    ensures
        lineage_text::cycle_count(events) == events.filter(is_cycle()).len(),
    decreases events.len(),
{
    reveal(Seq::filter);
    if events.len() > 0 {
        cycles_are_counted(events.drop_last());
    }
}

/// Every event is told, in its order, in the history.
pub proof fn every_event_is_told(events: Seq<LineageEvent>, n: int, k: int) -> (around: (
    Seq<char>,
    Seq<char>,
))
    requires
        0 <= k < n <= events.len(),
    ensures
        lineage_text::events_text(events, n) == around.0 + lineage_text::event_text(
            events[k],
            events,
        ) + around.1,
        around.0 == lineage_text::events_text(events, k),
    decreases n,
{
    if k == n - 1 {
        let before = lineage_text::events_text(events, k);
        let told = lineage_text::event_text(events[k], events);
        assert(before + told + Seq::<char>::empty() == before + told);
        (before, Seq::empty())
    } else {
        let (before, after) = every_event_is_told(events, n - 1, k);
        let told = lineage_text::event_text(events[k], events);
        let last = lineage_text::event_text(events[n - 1], events);
        assert((before + told + after) + last == before + told + (after + last));
        (before, after + last)
    }
}

/// A cycle is told by its identity and its outcome first; its hypothesis is told where there is one.
pub proof fn a_cycle_is_told_by_its_identity(cycle: CycleRecord)
    ensures
        (cycle.cycle_id@ + ": "@ + cycle.outcome@ + "\n"@).is_prefix_of(
            lineage_text::cycle_text(cycle),
        ),
        cycle.message is Some ==> (cycle.cycle_id@ + ": "@ + cycle.outcome@ + "\n"@
            + "  hypothesis: "@ + cycle.message->0@ + "\n"@).is_prefix_of(
            lineage_text::cycle_text(cycle),
        ),
        cycle.message is None ==> (cycle.cycle_id@ + ": "@ + cycle.outcome@ + "\n"@
            + "  source: "@).is_prefix_of(lineage_text::cycle_text(cycle)),
        cycle.comparison is None ==> "  comparison: no promoted baseline\n"@.is_suffix_of(
            lineage_text::cycle_text(cycle),
        ),
        cycle.comparison is Some ==> cycle.comparison->0.decision_summary@.is_suffix_of(
            lineage_text::cycle_text(cycle),
        ),
{
    let whole = lineage_text::cycle_text(cycle);
    let head = cycle.cycle_id@ + ": "@ + cycle.outcome@ + "\n"@;
    let source = match cycle.source_before {
        Some(before) => before@,
        None => "(initial)"@,
    };
    let results = lineage_text::engine_results(cycle);
    let said = lineage_text::hypothesis_line("  hypothesis: "@, cycle);
    assert(whole.take(head.len() as int) == head);
    match cycle.message {
        Some(message) => {
            let longer = head + "  hypothesis: "@ + message@ + "\n"@;
            assert(whole.take(longer.len() as int) == longer);
        },
        None => {
            let longer = head + "  source: "@;
            assert(whole.take(longer.len() as int) == longer);
        },
    }
    assert(whole.skip(whole.len() - results.len()) == results);
    assert(results.is_suffix_of(whole));
}

// The context of an agent.

/// Every cycle has its section, numbered by its place among the cycles, with its change.
pub proof fn every_cycle_has_its_section(
    events: Seq<LineageEvent>,
    changes: Seq<Seq<char>>,
    n: int,
    k: int,
) -> (around: (Seq<char>, Seq<char>))
    requires
        0 <= k < n <= events.len(),
        events[k] is Cycle,
    ensures
        around.0 == lineage_text::cycle_sections(events, changes, k),
        lineage_text::cycle_sections(events, changes, n) == around.0 + lineage_text::cycle_section(
            events.take(k + 1).filter(is_cycle()).len(),
            *events[k]->Cycle_0,
            events,
            changes[k],
        ) + around.1,
    decreases n,
{
    cycles_are_counted(events.take(k + 1));
    let told = lineage_text::cycle_section(
        lineage_text::cycle_count(events.take(k + 1)),
        *events[k]->Cycle_0,
        events,
        changes[k],
    );
    if k == n - 1 {
        let before = lineage_text::cycle_sections(events, changes, k);
        assert(before + told + Seq::<char>::empty() == before + told);
        (before, Seq::empty())
    } else {
        let (before, after) = every_cycle_has_its_section(events, changes, n - 1, k);
        match events[n - 1] {
            LineageEvent::Cycle(cycle) => {
                let last = lineage_text::cycle_section(
                    lineage_text::cycle_count(events.take(n)),
                    *cycle,
                    events,
                    changes[n - 1],
                );
                assert((before + told + after) + last == before + told + (after + last));
                (before, after + last)
            },
            _ => (before, after),
        }
    }
}

/// Every confirmation has its line, with its cycle, its outcome, and its measurement.
pub proof fn every_confirmation_has_its_line(events: Seq<LineageEvent>, n: int, k: int) -> (around: (
    Seq<char>,
    Seq<char>,
))
    requires
        0 <= k < n <= events.len(),
        events[k] is Confirmation,
    ensures
        ({
            let c = *events[k]->Confirmation_0;
            let line = "- `"@ + c.confirmation_id@ + "` confirmed `"@ + c.cycle_id@ + "` as "@
                + c.outcome@ + " with `"@ + c.confirmation_measurement_set@ + "`\n"@;
            lineage_text::confirmation_lines(events, n) == around.0 + line + around.1
        }),
    decreases n,
{
    let told = lineage_text::confirmation_line(*events[k]->Confirmation_0);
    if k == n - 1 {
        let before = lineage_text::confirmation_lines(events, k);
        assert(before + told + Seq::<char>::empty() == before + told);
        (before, Seq::empty())
    } else {
        let (before, after) = every_confirmation_has_its_line(events, n - 1, k);
        match events[n - 1] {
            LineageEvent::Confirmation(confirmation) => {
                let last = lineage_text::confirmation_line(*confirmation);
                assert((before + told + after) + last == before + told + (after + last));
                (before, after + last)
            },
            _ => (before, after),
        }
    }
}

/// Every promotion has its line, with its cycle and its baseline.
pub proof fn every_promotion_has_its_line(events: Seq<LineageEvent>, n: int, k: int) -> (around: (
    Seq<char>,
    Seq<char>,
))
    requires
        0 <= k < n <= events.len(),
        events[k] is Promotion,
    ensures
        ({
            let p = events[k]->Promotion_0;
            let line = "- `"@ + p.promotion_id@ + "` accepted `"@ + p.cycle_id@ + "` as `"@
                + p.baseline_measurement_set@ + "`\n"@;
            lineage_text::promotion_lines(events, n) == around.0 + line + around.1
        }),
    decreases n,
{
    let told = lineage_text::promotion_line(events[k]->Promotion_0);
    if k == n - 1 {
        let before = lineage_text::promotion_lines(events, k);
        assert(before + told + Seq::<char>::empty() == before + told);
        (before, Seq::empty())
    } else {
        let (before, after) = every_promotion_has_its_line(events, n - 1, k);
        match events[n - 1] {
            LineageEvent::Promotion(promotion) => {
                let last = lineage_text::promotion_line(promotion);
                assert((before + told + after) + last == before + told + (after + last));
                (before, after + last)
            },
            _ => (before, after),
        }
    }
}

/// The context tells of the cycles first, then of the confirmations and the promotions where there are
/// any.
pub proof fn a_context_tells_of_all_records(
    benchmark_id: Seq<char>,
    events: Seq<LineageEvent>,
    changes: Seq<Seq<char>>,
)
    ensures
        ({
            let n = events.len() as int;
            let head = "# bperf optimization history\n\nBenchmark: `"@ + benchmark_id
                + "`\nMeasured cycles: "@ + text::decimal(events.filter(is_cycle()).len())
                + "\n\n"@ + lineage_text::cycle_sections(events, changes, n);
            let confirmed = "## Confirmation measurements\n\n"@ + lineage_text::confirmation_lines(
                events,
                n,
            ) + "\n"@;
            let promoted = "## Baseline promotions\n\n"@ + lineage_text::promotion_lines(events, n);
            let context = lineage_text::context_text(benchmark_id, events, changes);
            let confirms = exists|i: int|
                0 <= i < events.len() && (#[trigger] events[i]) is Confirmation;
            let promotes = exists|i: int|
                0 <= i < events.len() && (#[trigger] events[i]) is Promotion;
            &&& confirms && promotes ==> context == head + confirmed + promoted
            &&& confirms && !promotes ==> context == head + confirmed
            &&& !confirms && promotes ==> context == head + promoted
            &&& !confirms && !promotes ==> context == head
        }),
{
    cycles_are_counted(events);
    let n = events.len() as int;
    let none = Seq::<char>::empty();
    let head = "# bperf optimization history\n\nBenchmark: `"@ + benchmark_id
        + "`\nMeasured cycles: "@ + text::decimal(lineage_text::cycle_count(events)) + "\n\n"@
        + lineage_text::cycle_sections(events, changes, n);
    let confirmed = "## Confirmation measurements\n\n"@ + lineage_text::confirmation_lines(
        events,
        n,
    ) + "\n"@;
    assert(head + none + none == head);
    assert(head + confirmed + none == head + confirmed);
    assert(head + none == head);
}

// Panels.

/// Three marks stand for the three engines, in their order; an engine without a verdict has a dot.
pub proof fn each_engine_has_its_mark(comparison: Option<ComparisonSummary>)
    ensures
        history_screen::marks_of(comparison).len() == 5,
        comparison is None ==> history_screen::marks_of(comparison) == seq![
            '·',
            ' ',
            '·',
            ' ',
            '·',
        ],
        comparison is Some ==> forall|k: int|
            0 <= k < 3 ==> #[trigger] history_screen::marks_of(comparison)[2 * k]
                == match history_screen::summary_of(
                comparison->0.engines@,
                seq![Engine::Chromium, Engine::Firefox, Engine::Webkit][k],
            ) {
                Some(summary) => run_screen::mark_of(summary.verdict@),
                None => '·',
            },
{
    if comparison is Some {
        assert forall|k: int| 0 <= k < 3 implies #[trigger] history_screen::marks_of(comparison)[2
            * k] == match history_screen::summary_of(
            comparison->0.engines@,
            seq![Engine::Chromium, Engine::Firefox, Engine::Webkit][k],
        ) {
            Some(summary) => run_screen::mark_of(summary.verdict@),
            None => '·',
        } by {
            assert(k == 0 || k == 1 || k == 2);
        }
    }
}

/// A small graph has a bar for each engine with a level and a dot for each without; it is a line where
/// none has.
pub proof fn a_small_graph_has_a_bar_for_each_engine(
    chromium: Option<usize>,
    firefox: Option<usize>,
    webkit: Option<usize>,
)
    ensures
        ({
            let graph = history_screen::mini_graph_of(chromium, firefox, webkit);
            let some = chromium is Some || firefox is Some || webkit is Some;
            &&& graph.len() == 3
            &&& !some ==> graph == "───"@
            &&& chromium is Some ==> graph[0] == terminal_ui::bar_of(chromium->0 as nat)
            &&& some && chromium is None ==> graph[0] == '·'
            &&& firefox is Some ==> graph[1] == terminal_ui::bar_of(firefox->0 as nat)
            &&& some && firefox is None ==> graph[1] == '·'
            &&& webkit is Some ==> graph[2] == terminal_ui::bar_of(webkit->0 as nat)
            &&& some && webkit is None ==> graph[2] == '·'
        }),
{
    reveal_strlit("───");
}

/// The table of medians has a line for each engine, which begins with its name where there is room.
pub proof fn each_engine_has_its_medians(medians: Seq<EngineMedians>, width: nat, k: int)
    requires
        0 <= k < 3,
        width >= 60,
        run_screen::columns_of(
            run_screen::medians_of(
                medians,
                seq![Engine::Chromium, Engine::Firefox, Engine::Webkit][k],
            ),
        ).len() <= 40,
    ensures
        run_screen::median_table(medians, width).len() == 4,
        ({
            let engine = seq![Engine::Chromium, Engine::Firefox, Engine::Webkit][k];
            let line = run_screen::median_table(medians, width)[k + 1];
            let columns = run_screen::columns_of(run_screen::medians_of(medians, engine));
            &&& line.len() == 1
            &&& browser_lab::engine_name(engine).is_prefix_of(line[0].text)
            &&& columns.is_suffix_of(line[0].text)
        }),
{
    reveal_strlit("chromium");
    reveal_strlit("firefox");
    reveal_strlit("webkit");
    let engine = seq![Engine::Chromium, Engine::Firefox, Engine::Webkit][k];
    let columns = run_screen::columns_of(run_screen::medians_of(medians, engine));
    let name = browser_lab::engine_name(engine);
    assert(k == 0 || k == 1 || k == 2);
    assert(name.len() <= 8);
    let line = terminal_ui::sides(name, columns, width);
    assert(run_screen::median_table(medians, width)[k + 1][0].text == line);
    assert(line.take(name.len() as int) == name);
    assert(line.skip(line.len() - columns.len()) == columns);
}

/// The medians of an engine are shown in four columns; what is not known is said so.
pub proof fn what_is_not_known_is_said_so(medians: EngineMedians)
    ensures
        run_screen::columns_of(None) == run_screen::columns_of(
            Some(EngineMedians { wall: None, cpu: None, heap: None, allocated: None, ..medians }),
        ),
        medians.wall is Some && medians.cpu is Some && medians.heap is Some
            && medians.allocated is Some ==> run_screen::columns_of(Some(medians))
            == terminal_ui::filled_before(medians.wall->0@, 9) + " "@ + terminal_ui::filled_before(
            medians.cpu->0@,
            9,
        ) + " "@ + terminal_ui::filled_before(medians.heap->0@, 9) + " "@
            + terminal_ui::filled_before(medians.allocated->0@, 9),
        run_screen::value_or(None) == "n/a"@,
{
}

/// Each kind of artifact has its own label.
pub proof fn each_kind_has_its_label(a: HistoryArtifactKind, b: HistoryArtifactKind)
    requires
        history_artifacts::kind_label(a) == history_artifacts::kind_label(b),
    ensures
        a == b,
{
    reveal_strlit("cpuprofile");
    reveal_strlit("speedscope");
    reveal_strlit("heapsnapshot");
    reveal_strlit("comparison");
    reveal_strlit("sampling");
    assert("cpuprofile"@[1] == 'p');
    assert("speedscope"@[0] == 's');
    assert("heapsnapshot"@[0] == 'h');
    assert("comparison"@[1] == 'o');
    assert("comparison"@[0] == 'c');
    assert("sampling"@.len() == 8);
    assert("cpuprofile"@.len() == 10);
    assert("speedscope"@.len() == 10);
    assert("comparison"@.len() == 10);
    assert("cpuprofile"@[0] == 'c');
}

/// An artifact of a page is told by its median, one of another scope by its scope, and what decided by
/// what it is.
pub proof fn an_artifact_is_told_by_its_median_or_its_scope(artifact: HistoryArtifact)
    ensures
        artifact.capture_scope is None && (artifact.kind == HistoryArtifactKind::CpuProfile
            || artifact.kind == HistoryArtifactKind::Flamegraph)
            ==> history_artifacts::overview_detail(artifact) == "cpu median"@,
        artifact.capture_scope is None && artifact.kind == HistoryArtifactKind::HeapSnapshot
            ==> history_artifacts::overview_detail(artifact) == "heap median"@,
        artifact.capture_scope is Some && artifact.capture_scope->0@ != "page"@
            && !history_artifacts::is_metadata(artifact) ==> history_artifacts::overview_detail(
            artifact,
        ) == "scope "@ + artifact.capture_scope->0@,
        artifact.capture_scope is Some && artifact.capture_scope->0@ == "page"@ && artifact.kind
            == HistoryArtifactKind::HeapSnapshot ==> history_artifacts::overview_detail(artifact)
            == "heap median"@,
        artifact.kind == HistoryArtifactKind::Comparison ==> history_artifacts::overview_detail(
            artifact,
        ) == "verdict evidence"@,
        artifact.kind == HistoryArtifactKind::Sampling ==> history_artifacts::overview_detail(
            artifact,
        ) == "pilot + final"@,
{
}

/// As many artifacts are listed as the overview holds, up to the limit.
pub proof fn artifacts_are_listed_up_to_the_limit(
    cycle: HistoryCycle,
    root: DisplayRootView,
    width: nat,
    limit: nat,
    k: int,
)
    requires
        cycle.artifacts@.len() > 0,
        0 <= k < limit,
        k < history_artifacts::overview(cycle.artifacts@).len(),
    ensures
        ({
            let shown = history_artifacts::overview(cycle.artifacts@);
            let rows = history_panels::artifact_rows(cycle, root, width, limit);
            &&& rows.len() == if shown.len() <= limit {
                shown.len()
            } else {
                limit
            }
            &&& rows[k] == history_panels::artifact_row(cycle.artifacts@[shown[k]], root, width)
        }),
{
}

} // verus!
