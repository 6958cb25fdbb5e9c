//! What holds of every screen, and of every key pressed while a benchmark is picked.

use vstd::prelude::*;

use crate::measurement_laws;
use crate::paths;
use crate::run_tui;
use crate::run_tui::{BenchmarkModule, EditorKind, EditorView, PickerStepView, PickerView};
use crate::terminal_ui;
use crate::terminal_ui::{Key, KeyCode, Tone};
use crate::text;

verus! {

// Lines.

/// A text that is too long is cut: its beginning is shown, and a mark stands for the rest.
pub proof fn a_cut_text_shows_its_beginning(value: Seq<char>, width: nat, i: int)
    requires
        0 < width < value.len(),
    ensures
        terminal_ui::clipped(value, width).len() == width,
        0 <= i < width - 1 ==> terminal_ui::clipped(value, width)[i] == value[i],
        terminal_ui::clipped(value, width).last() == '…',
{
}

/// A text is filled up behind it with spaces to its width, or left as it is.
pub proof fn a_text_is_filled_up_behind(value: Seq<char>, width: nat, i: int)
    ensures
        value.len() >= width ==> terminal_ui::filled(value, width) == value,
        value.len() <= width ==> terminal_ui::filled(value, width).len() == width,
        0 <= i < value.len() ==> terminal_ui::filled(value, width)[i] == value[i],
        value.len() <= i < width ==> terminal_ui::filled(value, width)[i] == ' ',
{
}

/// A text is filled up before it with spaces to its width, or left as it is.
pub proof fn a_text_is_filled_up_before(value: Seq<char>, width: nat, i: int)
    ensures
        value.len() >= width ==> terminal_ui::filled_before(value, width) == value,
        value.len() <= width ==> terminal_ui::filled_before(value, width).len() == width,
        0 <= i < width - value.len() ==> terminal_ui::filled_before(value, width)[i] == ' ',
        value.len() <= width && 0 <= i < value.len() ==> terminal_ui::filled_before(value, width)[i
            + width - value.len()] == value[i],
{
}

/// Where both fit, one text begins the line, the other ends it, and spaces stand between them.
pub proof fn two_texts_stand_at_both_ends(
    left: Seq<char>,
    right: Seq<char>,
    width: nat,
    i: int,
)
    requires
        left.len() + right.len() + 1 <= width,
        right.len() + 1 < width,
        0 <= i < width,
    ensures
        terminal_ui::sides(left, right, width).len() == width,
        i < left.len() ==> terminal_ui::sides(left, right, width)[i] == left[i],
        left.len() <= i < width - right.len() ==> terminal_ui::sides(left, right, width)[i] == ' ',
        width - right.len() <= i ==> terminal_ui::sides(left, right, width)[i] == right[i - (width
            - right.len())],
{
}

/// Where room is short, it is the text on the left that is cut; where none is left for it, only the
/// text on the right is shown.
pub proof fn the_right_text_is_shown_first(left: Seq<char>, right: Seq<char>, width: nat, i: int)
    requires
        0 < width,
    ensures
        right.len() + 1 < width && 0 <= i < right.len() ==> terminal_ui::sides(left, right, width)[
            width - right.len() + i
        ] == right[i],
        right.len() + 1 == width || right.len() == width ==> terminal_ui::sides(left, right, width)
            == right,
{
}

/// A bar is one of eight, and rises with its level.
pub proof fn bars_rise_with_their_levels(level: nat)
    ensures
        terminal_ui::bar_of(level) as int == 0x2581 + if level < 7 {
            level as int
        } else {
            7
        },
{
}

/// An age is told in the largest unit that has passed whole, rounded down.
pub proof fn an_age_is_told_in_its_largest_unit(now: int, then: int, n: nat)
    ensures
        now - then < 60_000 ==> terminal_ui::age(now, then) == "now"@,
        1 <= n < 60 && n * 60_000 <= now - then < (n + 1) * 60_000 ==> terminal_ui::age(now, then)
            == text::decimal(n) + "m ago"@,
        1 <= n < 24 && n * 3_600_000 <= now - then < (n + 1) * 3_600_000 ==> terminal_ui::age(
            now,
            then,
        ) == text::decimal(n) + "h ago"@,
        1 <= n && n * 86_400_000 <= now - then < (n + 1) * 86_400_000 ==> terminal_ui::age(
            now,
            then,
        ) == text::decimal(n) + "d ago"@,
{
}

/// A step goes as far as it says, but not beyond either end of the list.
pub proof fn a_step_stops_at_the_ends(index: int, delta: int, count: int)
    requires
        0 <= index < count,
    ensures
        0 <= index + delta < count ==> terminal_ui::moved(index, delta, count) == index + delta,
        index + delta < 0 ==> terminal_ui::moved(index, delta, count) == 0,
        index + delta >= count ==> terminal_ui::moved(index, delta, count) == count - 1,
{
}

/// Every shortcut is shown: its key stands out, and what it does follows.
pub proof fn every_shortcut_is_shown(shortcuts: Seq<(Seq<char>, Seq<char>)>, n: int, k: int)
    requires
        0 <= k < n <= shortcuts.len(),
    ensures
        terminal_ui::shortcut_segments(shortcuts, n).len() == 3 * n - 1,
        terminal_ui::shortcut_segments(shortcuts, n)[3 * k].text == shortcuts[k].0 + " "@,
        terminal_ui::shortcut_segments(shortcuts, n)[3 * k].bold,
        terminal_ui::shortcut_segments(shortcuts, n)[3 * k + 1].text == shortcuts[k].1,
        terminal_ui::shortcut_segments(shortcuts, n)[3 * k + 1].tone == Tone::Muted,
    decreases n,
{
    if n > 1 {
        if k < n - 1 {
            every_shortcut_is_shown(shortcuts, n - 1, k);
        } else {
            every_shortcut_is_shown(shortcuts, n - 1, 0);
        }
    } else {
        assert(terminal_ui::shortcut_segments(shortcuts, 0).len() == 0);
    }
}

// Editing.

/// A typed character stands where the cursor stood, and everything else keeps its order.
pub proof fn a_typed_character_stands_before_the_cursor(editor: EditorView, c: char, i: int)
    requires
        editor.wf(),
    ensures
        editor.inserted(c).value.len() == editor.value.len() + 1,
        editor.inserted(c).cursor == editor.cursor + 1,
        editor.inserted(c).value[editor.cursor] == c,
        0 <= i < editor.cursor ==> editor.inserted(c).value[i] == editor.value[i],
        editor.cursor <= i < editor.value.len() ==> editor.inserted(c).value[i + 1]
            == editor.value[i],
        editor.inserted(c).error is None,
{
}

/// Backspace takes the character before the cursor; at the beginning it takes none.
pub proof fn backspace_takes_the_character_before(editor: EditorView, i: int)
    requires
        editor.wf(),
    ensures
        editor.cursor == 0 ==> editor.backspaced() == editor,
        editor.cursor > 0 ==> editor.backspaced().value.len() == editor.value.len() - 1
            && editor.backspaced().cursor == editor.cursor - 1,
        0 <= i < editor.cursor - 1 ==> editor.backspaced().value[i] == editor.value[i],
        0 < editor.cursor <= i < editor.value.len() ==> editor.backspaced().value[i - 1]
            == editor.value[i],
{
}

/// Delete takes the character behind the cursor; at the end it takes none.
pub proof fn delete_takes_the_character_behind(editor: EditorView, i: int)
    requires
        editor.wf(),
    ensures
        editor.cursor == editor.value.len() ==> editor.deleted() == editor,
        editor.cursor < editor.value.len() ==> editor.deleted().value.len() == editor.value.len()
            - 1,
        editor.deleted().cursor == editor.cursor,
        0 <= i < editor.cursor < editor.value.len() ==> editor.deleted().value[i]
            == editor.value[i],
        editor.cursor < i < editor.value.len() ==> editor.deleted().value[i - 1]
            == editor.value[i],
{
}

/// The cursor is shown where it stands in the text, or behind it; without it the text is as it was.
pub proof fn a_cursor_is_shown_in_its_place(value: Seq<char>, cursor: int, i: int)
    requires
        0 <= cursor,
    ensures
        run_tui::with_cursor(value, cursor).len() == value.len() + 1,
        cursor <= value.len() ==> run_tui::with_cursor(value, cursor)[cursor] == '█',
        cursor > value.len() ==> run_tui::with_cursor(value, cursor)[value.len() as int] == '█',
        0 <= i < value.len() && i < cursor ==> run_tui::with_cursor(value, cursor)[i] == value[i],
        cursor <= i < value.len() ==> run_tui::with_cursor(value, cursor)[i + 1] == value[i],
{
}

/// Every editor begins with its value, the cursor behind it, and the filter to go back to.
pub proof fn an_editor_begins_with_what_is_set(
    view: PickerView,
    kind: EditorKind,
    root: Seq<char>,
    workspace: Seq<char>,
)
    ensures
        view.editing(kind, root, workspace).editor is Some,
        ({
            let editor = view.editing(kind, root, workspace).editor->0;
            &&& editor.kind == kind
            &&& editor.cursor == editor.value.len()
            &&& editor.original_filter == view.filter
            &&& editor.error is None
            &&& kind == EditorKind::Filter ==> editor.value == view.filter
            &&& kind == EditorKind::Message && view.message is Some ==> editor.value
                == view.message->0
            &&& kind == EditorKind::Message && view.message is None ==> editor.value.len() == 0
            &&& kind == EditorKind::Budget ==> editor.value == view.budget.0
            &&& kind == EditorKind::Directory ==> editor.value == run_tui::shown_path(
                root,
                workspace,
            )
        }),
        view.editing(kind, root, workspace).notice is None,
        view.editing(kind, root, workspace).selected == view.selected,
        view.editing(kind, root, workspace).filter == view.filter,
        view.editing(kind, root, workspace).message == view.message,
        view.editing(kind, root, workspace).budget == view.budget,
        view.editing(kind, root, workspace).selection == view.selection,
{
    reveal_strlit("");
}

// The catalog.

/// A path is shown with slashes only.
pub proof fn a_path_is_shown_with_slashes(path: Seq<char>, root: Seq<char>, i: int)
    requires
        0 <= i < run_tui::shown_path(path, root).len(),
    ensures
        run_tui::shown_path(path, root)[i] != '\\',
{
    reveal_strlit("");
}

/// A module without a written identity is named after its file, without the ending.
pub proof fn a_module_is_named_after_its_file(path: Seq<char>, stem: Seq<char>)
    requires
        paths::name_of(path) == Some(stem + ".bench.ts"@),
    ensures
        run_tui::fallback_name(path) == stem,
{
    let name = stem + ".bench.ts"@;
    assert(name.skip(name.len() - ".bench.ts"@.len()) == ".bench.ts"@);
    assert(name.take(name.len() - ".bench.ts"@.len()) == stem);
}

/// The run that is found for an identity is the last that has it.
pub proof fn the_last_run_of_a_benchmark_is_found(runs: Seq<String>, id: Seq<char>)
    ensures
        match run_tui::run_with(runs, id) {
            Some(i) => 0 <= i < runs.len() && runs[i]@ == id && forall|j: int|
                i < j < runs.len() ==> (#[trigger] runs[j])@ != id,
            None => forall|j: int| 0 <= j < runs.len() ==> (#[trigger] runs[j])@ != id,
        },
    decreases runs.len(),
{
    if runs.len() > 0 && runs.last()@ != id {
        let rest = runs.drop_last();
        the_last_run_of_a_benchmark_is_found(rest, id);
        assert forall|j: int| 0 <= j < runs.len() - 1 implies runs[j] == #[trigger] rest[j] by {}
        match run_tui::run_with(runs, id) {
            Some(i) => {
                assert forall|j: int| i < j < runs.len() implies (#[trigger] runs[j])@ != id by {
                    if j < runs.len() - 1 {
                        assert(rest[j]@ != id);
                    }
                }
            },
            None => {
                assert forall|j: int| 0 <= j < runs.len() implies (#[trigger] runs[j])@ != id by {
                    if j < runs.len() - 1 {
                        assert(rest[j]@ != id);
                    }
                }
            },
        }
    }
}

/// What was run last stands first in the list; what was run at one time, or never, is in the order of
/// its identity, and what has one identity in the order of its path.
pub proof fn the_latest_run_stands_first(modules: Seq<BenchmarkModule>, i: int, j: int)
    requires
        run_tui::in_list_order(modules),
        0 <= i < j < modules.len(),
    ensures
        modules[j].history is Some ==> modules[j].history->0.latest_recorded_at_unix_ms == 0
            || modules[i].history is Some
            && modules[i].history->0.latest_recorded_at_unix_ms
            >= modules[j].history->0.latest_recorded_at_unix_ms,
        modules[i].history is None && modules[j].history is None ==> !text::precedes(
            modules[j].id@,
            modules[i].id@,
        ),
        modules[i].history is Some && modules[j].history is Some
            && modules[i].history->0.latest_recorded_at_unix_ms
            == modules[j].history->0.latest_recorded_at_unix_ms ==> !text::precedes(
            modules[j].id@,
            modules[i].id@,
        ),
        modules[i].history is None && modules[j].history is None && modules[i].id@
            == modules[j].id@ ==> !paths::parts_before(
            paths::parts(modules[j].path@),
            paths::parts(modules[i].path@),
        ),
{
    assert(!run_tui::listed_before(modules[j], modules[i]));
}

proof fn lemma_case_total(modules: Seq<BenchmarkModule>, others: Seq<BenchmarkModule>, n: int)
    requires
        n <= modules.len(),
        n <= others.len(),
        forall|i: int| 0 <= i < n ==> #[trigger] modules[i] == others[i],
    ensures
        run_tui::case_total(modules, n) == run_tui::case_total(others, n),
    decreases n,
{
    if n > 0 {
        assert(modules[n - 1] == others[n - 1]);
        lemma_case_total(modules, others, n - 1);
    }
}

/// A list with another module has its cases more, and is nested once more if the module is not
/// directly in the root.
pub proof fn every_module_counts(
    modules: Seq<BenchmarkModule>,
    module: BenchmarkModule,
    root: Seq<char>,
)
    ensures
        ({
            let n = modules.len() as int;
            let more = modules.push(module);
            let direct = match paths::parent(module.path@) {
                Some(parent) => paths::parts(parent) == paths::parts(root),
                None => false,
            };
            &&& run_tui::case_total(more, n + 1) == run_tui::case_total(modules, n)
                + module.cases@.len()
            &&& run_tui::nested(more, root, n + 1) == run_tui::nested(modules, root, n) + if direct {
                0int
            } else {
                1
            }
        }),
        run_tui::case_total(Seq::empty(), 0) == 0,
        run_tui::nested(Seq::empty(), root, 0) == 0,
{
    let n = modules.len() as int;
    let more = modules.push(module);
    lemma_case_total(more, modules, n);
    lemma_nested(more, modules, root, n);
}

proof fn lemma_nested(
    modules: Seq<BenchmarkModule>,
    others: Seq<BenchmarkModule>,
    root: Seq<char>,
    n: int,
)
    requires
        n <= modules.len(),
        n <= others.len(),
        forall|i: int| 0 <= i < n ==> #[trigger] modules[i] == others[i],
    ensures
        run_tui::nested(modules, root, n) == run_tui::nested(others, root, n),
    decreases n,
{
    if n > 0 {
        assert(modules[n - 1] == others[n - 1]);
        lemma_nested(modules, others, root, n - 1);
    }
}

// The filter.

/// Some text stands somewhere in another.
pub open spec fn occurs(part: Seq<char>, s: Seq<char>) -> bool {
    exists|before: Seq<char>, after: Seq<char>| s == #[trigger] ((before + part) + after)
}

proof fn lemma_occurs(part: Seq<char>, s: Seq<char>)
    ensures
        text::includes(s, part) <==> occurs(part, s),
{
    if text::includes(s, part) {
        let i = choose|i: int| #[trigger] text::stands_at(s, part, i);
        let before = s.take(i);
        let after = s.skip(i + part.len());
        assert(s == (before + part) + after);
    }
    if occurs(part, s) {
        let (before, after) = choose|before: Seq<char>, after: Seq<char>|
            s == #[trigger] ((before + part) + after);
        assert(s.subrange(before.len() as int, (before.len() + part.len()) as int) == part);
        assert(text::stands_at(s, part, before.len() as int));
    }
}

/// A module passes the filter if its identity or its path holds the filter's text, whatever the case
/// of the letters and the white space around it. A blank filter passes all.
pub proof fn a_filter_passes_what_holds_its_text(module: BenchmarkModule, filter: Seq<char>)
    ensures
        text::trimmed(filter).len() == 0 ==> run_tui::matches_filter(module, filter),
        run_tui::matches_filter(module, filter) <==> text::trimmed(filter).len() == 0 || occurs(
            text::lower_cased(text::trimmed(filter)),
            text::lower_cased(module.id@),
        ) || occurs(
            text::lower_cased(text::trimmed(filter)),
            text::lower_cased(module.relative_path@),
        ),
{
    let needle = text::lower_cased(text::trimmed(filter));
    assert(needle.len() == text::trimmed(filter).len());
    lemma_occurs(needle, text::lower_cased(module.id@));
    lemma_occurs(needle, text::lower_cased(module.relative_path@));
}

/// The visible modules are those that pass the filter, in the order of the list.
pub proof fn visible_modules_pass_the_filter(modules: Seq<BenchmarkModule>, filter: Seq<char>)
    ensures
        forall|i: int| #[trigger]
            run_tui::visible(modules, filter).contains(i) <==> (0 <= i < modules.len()
                && run_tui::matches_filter(modules[i], filter)),
        forall|a: int, b: int|
            0 <= a < b < run_tui::visible(modules, filter).len() ==> #[trigger] run_tui::visible(
                modules,
                filter,
            )[a] < #[trigger] run_tui::visible(modules, filter)[b],
{
    measurement_laws::chosen_places_are_the_wanted_ones(
        modules.len() as int,
        |i: int| run_tui::matches_filter(modules[i], filter),
    );
}

/// The place of a selection is the first with its path.
pub proof fn a_selection_is_found_by_its_path(
    modules: Seq<BenchmarkModule>,
    places: Seq<int>,
    path: Option<Seq<char>>,
)
    ensures
        ({
            let at = run_tui::place_of(modules, places, path);
            if at >= 0 {
                &&& at < places.len()
                &&& path == Some(modules[places[at]].path@)
                &&& forall|k: int| 0 <= k < at ==> path != Some(modules[#[trigger] places[k]].path@)
            } else {
                forall|k: int|
                    0 <= k < places.len() ==> path != Some(modules[#[trigger] places[k]].path@)
            }
        }),
    decreases places.len(),
{
    if places.len() > 0 && path is Some {
        let rest = places.drop_last();
        a_selection_is_found_by_its_path(modules, rest, path);
        assert forall|k: int| 0 <= k < rest.len() implies places[k] == #[trigger] rest[k] by {}
        let at = run_tui::place_of(modules, places, path);
        if at >= 0 {
            assert forall|k: int| 0 <= k < at implies path != Some(
                modules[#[trigger] places[k]].path@,
            ) by {
                assert(places[k] == rest[k]);
            }
        } else {
            assert forall|k: int| 0 <= k < places.len() implies path != Some(
                modules[#[trigger] places[k]].path@,
            ) by {
                if k < rest.len() {
                    assert(places[k] == rest[k]);
                }
            }
        }
    }
}

/// A module that passes the filter has a path.
pub open spec fn passes_with(
    modules: Seq<BenchmarkModule>,
    filter: Seq<char>,
    i: int,
    path: Seq<char>,
) -> bool {
    0 <= i < modules.len() && run_tui::matches_filter(modules[i], filter) && modules[i].path@
        == path
}

/// Some module with a path passes the filter.
pub open spec fn passes(
    modules: Seq<BenchmarkModule>,
    filter: Seq<char>,
    path: Seq<char>,
) -> bool {
    exists|i: int| #[trigger] passes_with(modules, filter, i, path)
}

/// A selection that the filter hides gives way to the first module that passes it; one that is
/// visible stays. Nothing is selected only where nothing passes.
pub proof fn a_hidden_selection_gives_way(view: PickerView, modules: Seq<BenchmarkModule>)
    ensures
        view.kept(modules) == (PickerView { selected: view.kept(modules).selected, ..view }),
        view.selected is Some && passes(modules, view.filter, view.selected->0) ==> view.kept(
            modules,
        ).selected == view.selected,
        match view.kept(modules).selected {
            Some(path) => passes(modules, view.filter, path),
            None => forall|i: int|
                0 <= i < modules.len() ==> !run_tui::matches_filter(
                    #[trigger] modules[i],
                    view.filter,
                ),
        },
{
    let places = run_tui::visible(modules, view.filter);
    visible_modules_pass_the_filter(modules, view.filter);
    a_selection_is_found_by_its_path(modules, places, view.selected);
    let at = run_tui::place_of(modules, places, view.selected);
    if view.selected is Some && passes(modules, view.filter, view.selected->0) {
        let i = choose|i: int| #[trigger]
            passes_with(modules, view.filter, i, view.selected->0);
        assert(places.contains(i));
        let k = choose|k: int| 0 <= k < places.len() && places[k] == i;
        assert(at >= 0);
    }
    if at >= 0 {
        assert(places.contains(places[at]));
        assert(passes_with(modules, view.filter, places[at], view.selected->0));
    } else if places.len() > 0 {
        assert(places.contains(places[0]));
        assert(passes_with(modules, view.filter, places[0], modules[places[0]].path@));
    } else {
        assert forall|i: int| 0 <= i < modules.len() implies !run_tui::matches_filter(
            #[trigger] modules[i],
            view.filter,
        ) by {
            assert(!places.contains(i));
        }
    }
}

/// Down selects the next visible module and up the one before; at the ends the selection stays.
pub proof fn a_step_selects_a_neighbour(view: PickerView, modules: Seq<BenchmarkModule>, k: int)
    requires
        0 <= k < run_tui::visible(modules, view.filter).len(),
        run_tui::place_of(modules, run_tui::visible(modules, view.filter), view.selected) == k,
    ensures
        ({
            let places = run_tui::visible(modules, view.filter);
            &&& k + 1 < places.len() ==> view.stepped(modules, 1).selected == Some(
                modules[places[k + 1]].path@,
            )
            &&& k + 1 == places.len() ==> view.stepped(modules, 1).selected == view.selected
            &&& k > 0 ==> view.stepped(modules, -1).selected == Some(modules[places[k - 1]].path@)
            &&& k == 0 ==> view.stepped(modules, -1).selected == view.selected
        }),
{
    a_selection_is_found_by_its_path(modules, run_tui::visible(modules, view.filter), view.selected);
}

/// The edges of the list are its first and its last visible module.
pub proof fn the_edges_are_the_first_and_the_last(
    view: PickerView,
    modules: Seq<BenchmarkModule>,
    i: int,
    end: bool,
)
    requires
        0 <= i < modules.len(),
        run_tui::matches_filter(modules[i], view.filter),
        forall|j: int|
            0 <= j < modules.len() && run_tui::matches_filter(#[trigger] modules[j], view.filter)
                ==> if end {
                j <= i
            } else {
                i <= j
            },
    ensures
        view.at_edge(modules, end).selected == Some(modules[i].path@),
{
    let places = run_tui::visible(modules, view.filter);
    visible_modules_pass_the_filter(modules, view.filter);
    assert(places.contains(i));
    let k = choose|k: int| 0 <= k < places.len() && places[k] == i;
    assert(places.contains(places[0]));
    assert(places.contains(places.last()));
    assert(run_tui::matches_filter(modules[places[0]], view.filter));
    assert(run_tui::matches_filter(modules[places.last()], view.filter));
}

// Keys.

/// Nothing but the selection and the notice differs.
pub open spec fn only_selects(before: PickerView, after: PickerView) -> bool {
    after == PickerView { selected: after.selected, notice: after.notice, ..before }
}

/// While nothing is edited: some keys leave, some move the selection, some open an editor, and every
/// other key changes nothing. None of them picks a benchmark.
pub proof fn a_key_moves_or_edits_or_leaves(
    view: PickerView,
    modules: Seq<BenchmarkModule>,
    root: Seq<char>,
    workspace: Seq<char>,
    key: Key,
)
    requires
        view.editor is None,
        !key.control,
    ensures
        ({
            let (next, step) = view.pressed(modules, root, workspace, key);
            let leaves = key.code == KeyCode::Esc || key.code == KeyCode::Char('q') || key.code
                == KeyCode::Char('Q');
            let up = key.code == KeyCode::Up || key.code == KeyCode::Char('k') || key.code
                == KeyCode::Char('K');
            let down = key.code == KeyCode::Down || key.code == KeyCode::Char('j') || key.code
                == KeyCode::Char('J');
            let message = key.code == KeyCode::Enter || key.code == KeyCode::Char('m') || key.code
                == KeyCode::Char('M');
            let budget = key.code == KeyCode::Char('b') || key.code == KeyCode::Char('B');
            let directory = key.code == KeyCode::Char('d') || key.code == KeyCode::Char('D');
            let engines = key.code == KeyCode::Char('e') || key.code == KeyCode::Char('E');
            let filter = key.code == KeyCode::Char('/');
            &&& step == PickerStepView::Quit <==> leaves
            &&& step == PickerStepView::Quit || step == PickerStepView::Continue
            &&& leaves ==> next == view
            &&& next.selection == view.selection && next.budget == view.budget && next.filter
                == view.filter && next.message == view.message
            &&& up ==> next == view.stepped(modules, -1) && only_selects(view, next)
            &&& down ==> next == view.stepped(modules, 1) && only_selects(view, next)
            &&& key.code == KeyCode::Home ==> next == view.at_edge(modules, false) && only_selects(
                view,
                next,
            )
            &&& key.code == KeyCode::End ==> next == view.at_edge(modules, true) && only_selects(
                view,
                next,
            )
            &&& next.editor is Some <==> filter || budget || directory || (message
                && view.has_selected(modules))
            &&& filter ==> next.editor->0.kind == EditorKind::Filter
            &&& budget ==> next.editor->0.kind == EditorKind::Budget
            &&& directory ==> next.editor->0.kind == EditorKind::Directory
            &&& message && view.has_selected(modules) ==> next.editor->0.kind
                == EditorKind::Message
            &&& message && !view.has_selected(modules) ==> next.notice is Some && only_selects(
                view,
                next,
            ) && next.selected == view.selected
            &&& !(leaves || up || down || message || budget || directory || engines || filter
                || key.code == KeyCode::Home || key.code == KeyCode::End) ==> next == view
        }),
{
}

/// The interrupt leaves at any time, with nothing changed.
pub proof fn an_interrupt_leaves(
    view: PickerView,
    modules: Seq<BenchmarkModule>,
    root: Seq<char>,
    workspace: Seq<char>,
    key: Key,
)
    requires
        key.control,
        key.code == KeyCode::Char('c') || key.code == KeyCode::Char('C'),
    ensures
        view.pressed(modules, root, workspace, key) == (view, PickerStepView::Quit),
{
}

/// While something is edited: a character is typed as it is, the arrows move the cursor by one, and
/// only Enter hands the text on.
pub proof fn a_key_edits_the_text(
    view: PickerView,
    modules: Seq<BenchmarkModule>,
    root: Seq<char>,
    workspace: Seq<char>,
    key: Key,
)
    requires
        view.editor is Some,
        view.editor->0.wf(),
        view.editor->0.kind != EditorKind::Filter,
        !key.control,
        !key.alt,
    ensures
        ({
            let (next, step) = view.pressed(modules, root, workspace, key);
            let editor = view.editor->0;
            let edited = next.editor->0;
            &&& key.code != KeyCode::Enter ==> step == PickerStepView::Continue && next
                == PickerView { editor: next.editor, ..view }
            &&& key.code == KeyCode::Esc ==> next.editor is None
            &&& key.code != KeyCode::Esc && key.code != KeyCode::Enter ==> next.editor is Some
                && edited.wf() && edited.kind == editor.kind
            &&& key.code matches KeyCode::Char(c) ==> edited.value == editor.value.insert(
                editor.cursor,
                c,
            ) && edited.cursor == editor.cursor + 1
            &&& key.code == KeyCode::Backspace && editor.cursor > 0 ==> edited.value
                == editor.value.remove(editor.cursor - 1) && edited.cursor == editor.cursor - 1
            &&& key.code == KeyCode::Delete && editor.cursor < editor.value.len() ==> edited.value
                == editor.value.remove(editor.cursor) && edited.cursor == editor.cursor
            &&& key.code == KeyCode::Left ==> edited.value == editor.value && edited.cursor == (if
            editor.cursor > 0 {
                editor.cursor - 1
            } else {
                0
            })
            &&& key.code == KeyCode::Right ==> edited.value == editor.value && edited.cursor == (if
            editor.cursor < editor.value.len() {
                editor.cursor + 1
            } else {
                editor.cursor
            })
            &&& key.code == KeyCode::Home ==> edited.value == editor.value && edited.cursor == 0
            &&& key.code == KeyCode::End ==> edited.value == editor.value && edited.cursor
                == editor.value.len()
        }),
{
    let editor = view.editor->0;
    match key.code {
        KeyCode::Char(c) => {
            assert(editor.inserted(c).value == editor.value.insert(editor.cursor, c));
        },
        KeyCode::Backspace => {
            if editor.cursor > 0 {
                assert(editor.backspaced().value == editor.value.remove(editor.cursor - 1));
            }
        },
        KeyCode::Delete => {
            if editor.cursor < editor.value.len() {
                assert(editor.deleted().value == editor.value.remove(editor.cursor));
            }
        },
        _ => {},
    }
}

/// The list is filtered by what is typed, while it is typed.
pub proof fn the_filter_follows_what_is_typed(
    view: PickerView,
    modules: Seq<BenchmarkModule>,
    root: Seq<char>,
    workspace: Seq<char>,
    key: Key,
)
    requires
        view.editor is Some,
        view.editor->0.wf(),
        view.editor->0.kind == EditorKind::Filter,
        !key.control,
        !key.alt,
        key.code is Char || key.code == KeyCode::Backspace || key.code == KeyCode::Delete,
    ensures
        ({
            let (next, step) = view.pressed(modules, root, workspace, key);
            &&& step == PickerStepView::Continue
            &&& next.editor is Some
            &&& next.filter == next.editor->0.value
            &&& next == PickerView { editor: next.editor, filter: next.filter, ..view }.kept(
                modules,
            )
        }),
{
}

/// Enter hands on what was typed: a message begins the run of what is selected, a directory is
/// scanned, a budget is read. The white space around it does not count, and a blank message is none.
pub proof fn enter_hands_on_what_was_typed(
    view: PickerView,
    modules: Seq<BenchmarkModule>,
    root: Seq<char>,
    workspace: Seq<char>,
    key: Key,
)
    requires
        view.editor is Some,
        key.code == KeyCode::Enter,
    ensures
        ({
            let (next, step) = view.pressed(modules, root, workspace, key);
            let value = view.editor->0.value;
            let said = text::trimmed(value);
            let kind = view.editor->0.kind;
            let message = if said.len() == 0 {
                None
            } else {
                Some(said)
            };
            &&& next.editor is None
            &&& next.budget == view.budget
            &&& kind == EditorKind::Filter ==> step == PickerStepView::Continue && next.filter
                == value && next.selection == view.selection
            &&& kind == EditorKind::Directory ==> step == PickerStepView::Scan(said, value) && next
                == PickerView { editor: None, ..view }
            &&& kind == EditorKind::Budget ==> step == PickerStepView::ReadBudget(said, value)
                && next == PickerView { editor: None, ..view }
            &&& kind == EditorKind::Message && view.has_selected(modules) ==> step
                == PickerStepView::Quit && next.selection == Some(
                (view.selected->0, message, view.budget),
            ) && next.message == message
            &&& kind == EditorKind::Message && !view.has_selected(modules) ==> step
                == PickerStepView::Continue && next.selection == view.selection && next.notice
                is Some
        }),
{
}

} // verus!
