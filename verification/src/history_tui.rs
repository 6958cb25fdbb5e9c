//! The screen on which the history of a benchmark is browsed: what it shows, and what keys do to it.

use vstd::prelude::*;
use vstd::string::*;

use crate::history::{
    HistoryBaseline, HistoryCycle, HistoryCycleSummary, HistoryData, HistoryIndexEntry,
    HistoryOverview, LoadedCycle,
};
use crate::schedule;
use crate::terminal_ui;
use crate::terminal_ui::{Key, KeyCode};
use crate::text;

verus! {

// Filters.

/// The cycles that graphs are scaled by.
#[derive(Clone, Copy, Debug, Eq, PartialEq, Structural)]
pub enum GraphScope {
    AllCycles,
    VisibleCycles,
}

impl GraphScope {
    /// The other scope.
    pub open spec fn other(self) -> GraphScope {
        match self {
            GraphScope::AllCycles => GraphScope::VisibleCycles,
            GraphScope::VisibleCycles => GraphScope::AllCycles,
        }
    }

    /// Changes to the other scope.
    pub fn toggle(&mut self)
        ensures
            *final(self) == old(self).other(),
    {
        *self = match *self {
            GraphScope::AllCycles => GraphScope::VisibleCycles,
            GraphScope::VisibleCycles => GraphScope::AllCycles,
        };
    }

    /// The scope in words.
    pub fn label(self) -> (r: &'static str)
        ensures
            r@ == match self {
                GraphScope::AllCycles => "all cycles"@,
                GraphScope::VisibleCycles => "visible cycles"@,
            },
    {
        match self {
            GraphScope::AllCycles => "all cycles",
            GraphScope::VisibleCycles => "visible cycles",
        }
    }
}

/// How far back the list goes.
#[derive(Clone, Copy, Debug, Eq, PartialEq, Structural)]
pub enum DateRange {
    Last24Hours,
    Last7Days,
    Last30Days,
    All,
}

/// The ranges in the order in which they are offered.
pub open spec fn date_ranges() -> Seq<DateRange> {
    seq![DateRange::Last24Hours, DateRange::Last7Days, DateRange::Last30Days, DateRange::All]
}

/// The length of a range in milliseconds, where it has one.
pub open spec fn range_length(range: DateRange) -> Option<u64> {
    match range {
        DateRange::Last24Hours => Some(86_400_000),
        DateRange::Last7Days => Some(604_800_000),
        DateRange::Last30Days => Some(2_592_000_000),
        DateRange::All => None,
    }
}

/// Where a range begins: at the beginning of time at the earliest.
pub open spec fn range_start(now: u64, length: u64) -> int {
    if now > length {
        now - length
    } else {
        0
    }
}

/// A time lies in a range that ends now.
pub open spec fn in_range(range: DateRange, timestamp: u64, now: u64) -> bool {
    match range_length(range) {
        Some(length) => timestamp >= range_start(now, length),
        None => true,
    }
}

/// The name of a range where it is picked.
pub open spec fn range_label(range: DateRange) -> Seq<char> {
    match range {
        DateRange::Last24Hours => "last 24 hours"@,
        DateRange::Last7Days => "last 7 days"@,
        DateRange::Last30Days => "last 30 days"@,
        DateRange::All => "all dates"@,
    }
}

/// The name of a range where there is little room.
pub open spec fn short_range_label(range: DateRange) -> Seq<char> {
    match range {
        DateRange::Last24Hours => "24h"@,
        DateRange::Last7Days => "7d"@,
        DateRange::Last30Days => "30d"@,
        DateRange::All => "all"@,
    }
}

impl DateRange {
    /// The ranges in the order in which they are offered.
    pub fn all() -> (r: Vec<DateRange>)
        ensures
            r@ == date_ranges(),
    {
        let mut out: Vec<DateRange> = Vec::new();
        out.push(DateRange::Last24Hours);
        out.push(DateRange::Last7Days);
        out.push(DateRange::Last30Days);
        out.push(DateRange::All);
        assert(out@ == date_ranges());
        out
    }

    /// The length of the range in milliseconds, where it has one.
    pub fn duration_ms(self) -> (r: Option<u64>)
        ensures
            r == range_length(self),
    {
        match self {
            DateRange::Last24Hours => Some(86_400_000),
            DateRange::Last7Days => Some(604_800_000),
            DateRange::Last30Days => Some(2_592_000_000),
            DateRange::All => None,
        }
    }

    /// When the range begins, where it does.
    pub fn start(self, now: u64) -> (r: Option<u64>)
        ensures
            match range_length(self) {
                Some(length) => r is Some && r->0 == range_start(now, length),
                None => r is None,
            },
    {
        match self.duration_ms() {
            Some(length) => Some(
                if now > length {
                    now - length
                } else {
                    0
                },
            ),
            None => None,
        }
    }

    /// Tells whether a time lies in the range.
    pub fn contains(self, timestamp: u64, now: u64) -> (r: bool)
        ensures
            r == in_range(self, timestamp, now),
    {
        match self.start(now) {
            Some(start) => timestamp >= start,
            None => true,
        }
    }

    /// The name of the range where it is picked.
    pub fn picker_label(self) -> (r: &'static str)
        ensures
            r@ == range_label(self),
    {
        match self {
            DateRange::Last24Hours => "last 24 hours",
            DateRange::Last7Days => "last 7 days",
            DateRange::Last30Days => "last 30 days",
            DateRange::All => "all dates",
        }
    }

    /// The range written out, from the date it starts on to the date of today.
    pub fn filter_label(self, start: &str, today: &str) -> (r: String)
        ensures
            r@ == if self == DateRange::All {
                "all dates"@
            } else {
                start@ + " - "@ + today@
            },
    {
        if self == DateRange::All {
            return "all dates".to_owned();
        }
        let mut label = start.to_owned();
        label.append(" - ");
        label.append(today);
        label
    }

    /// The name of the range where there is little room.
    pub fn compact_filter_label(self) -> (r: &'static str)
        ensures
            r@ == short_range_label(self),
    {
        match self {
            DateRange::Last24Hours => "24h",
            DateRange::Last7Days => "7d",
            DateRange::Last30Days => "30d",
            DateRange::All => "all",
        }
    }
}

/// The outcomes that are listed.
#[derive(Clone, Copy, Debug, Eq, PartialEq, Structural)]
pub struct VerdictFilters {
    pub positive: bool,
    pub equivalent: bool,
    pub inconclusive: bool,
    pub negative: bool,
}

/// Every outcome is listed.
pub open spec fn all_verdicts() -> VerdictFilters {
    VerdictFilters { positive: true, equivalent: true, inconclusive: true, negative: true }
}

impl Default for VerdictFilters {
    fn default() -> (r: VerdictFilters)
        ensures
            r == all_verdicts(),
    {
        VerdictFilters { positive: true, equivalent: true, inconclusive: true, negative: true }
    }
}

impl VerdictFilters {
    /// An outcome is listed. A cycle without a baseline is always listed.
    pub open spec fn allowed(self, outcome: Seq<char>) -> bool {
        if outcome == "positive"@ {
            self.positive
        } else if outcome == "equivalent"@ {
            self.equivalent
        } else if outcome == "inconclusive"@ {
            self.inconclusive
        } else if outcome == "negative"@ {
            self.negative
        } else {
            outcome == "measured"@
        }
    }

    /// The outcomes with the one of a letter changed.
    pub open spec fn toggled(self, outcome: char) -> VerdictFilters {
        if outcome == 'p' {
            VerdictFilters { positive: !self.positive, ..self }
        } else if outcome == 'e' {
            VerdictFilters { equivalent: !self.equivalent, ..self }
        } else if outcome == 'i' {
            VerdictFilters { inconclusive: !self.inconclusive, ..self }
        } else if outcome == 'n' {
            VerdictFilters { negative: !self.negative, ..self }
        } else {
            self
        }
    }

    /// Tells whether an outcome is listed.
    pub fn allows(self, outcome: &str) -> (r: bool)
        ensures
            r == self.allowed(outcome@),
    {
        if text::same(outcome, "positive") {
            self.positive
        } else if text::same(outcome, "equivalent") {
            self.equivalent
        } else if text::same(outcome, "inconclusive") {
            self.inconclusive
        } else if text::same(outcome, "negative") {
            self.negative
        } else {
            text::same(outcome, "measured")
        }
    }

    /// Changes the outcome of a letter.
    pub fn toggle(&mut self, outcome: char)
        ensures
            *final(self) == old(self).toggled(outcome),
    {
        if outcome == 'p' {
            self.positive = !self.positive;
        } else if outcome == 'e' {
            self.equivalent = !self.equivalent;
        } else if outcome == 'i' {
            self.inconclusive = !self.inconclusive;
        } else if outcome == 'n' {
            self.negative = !self.negative;
        }
    }
}

/// What is picked from a list.
#[derive(Clone, Copy, Debug, Eq, PartialEq, Structural)]
pub enum PickerKind {
    Benchmark,
    Lineage,
    Date,
    Artifact,
}

/// A list that something is picked from.
#[derive(Clone, Copy, Debug, Eq, PartialEq, Structural)]
pub struct Picker {
    pub kind: PickerKind,
    pub selected: usize,
}

// Lookups.

/// The cycle at a place has a name.
pub open spec fn cycle_is(cycles: Seq<HistoryCycleSummary>, id: Seq<char>) -> spec_fn(int) -> bool {
    |i: int| cycles[i].cycle_id@ == id
}

/// Where the first cycle with a name stands; minus one where none does.
pub open spec fn cycle_at(cycles: Seq<HistoryCycleSummary>, id: Seq<char>) -> int {
    schedule::first(cycles.len() as int, cycle_is(cycles, id))
}

/// The baseline at a place has a label.
pub open spec fn baseline_is(baselines: Seq<HistoryBaseline>, label: Seq<char>) -> spec_fn(
    int,
) -> bool {
    |i: int| baselines[i].label@ == label
}

/// Where the first baseline with a label stands; minus one where none does.
pub open spec fn baseline_at(baselines: Seq<HistoryBaseline>, label: Seq<char>) -> int {
    schedule::first(baselines.len() as int, baseline_is(baselines, label))
}

/// The benchmark at a place has a name.
pub open spec fn benchmark_is(benchmarks: Seq<HistoryIndexEntry>, id: Seq<char>) -> spec_fn(
    int,
) -> bool {
    |i: int| benchmarks[i].benchmark_id@ == id
}

/// Where the first benchmark with a name stands; minus one where none does.
pub open spec fn benchmark_at(benchmarks: Seq<HistoryIndexEntry>, id: Seq<char>) -> int {
    schedule::first(benchmarks.len() as int, benchmark_is(benchmarks, id))
}

/// The cycle that was read at a place has a name.
pub open spec fn loaded_is(details: Seq<LoadedCycle>, id: Seq<char>) -> spec_fn(int) -> bool {
    |i: int| details[i].cycle_id@ == id
}

/// Where the first cycle with a name stands among those that were read; minus one where none does.
pub open spec fn loaded_at(details: Seq<LoadedCycle>, id: Seq<char>) -> int {
    schedule::first(details.len() as int, loaded_is(details, id))
}

fn find_cycle(cycles: &Vec<HistoryCycleSummary>, id: &str) -> (r: Option<usize>)
    ensures
        match r {
            Some(i) => cycle_at(cycles@, id@) == i && i < cycles@.len(),
            None => cycle_at(cycles@, id@) < 0,
        },
{
    let ghost wanted = cycle_is(cycles@, id@);
    let mut i: usize = 0;
    while i < cycles.len()
        invariant
            i <= cycles@.len(),
            wanted == cycle_is(cycles@, id@),
            schedule::first(i as int, wanted) < 0,
        decreases cycles@.len() - i,
    {
        let found = text::same(&cycles[i].cycle_id, id);
        assert(found == wanted(i as int));
        if found {
            proof {
                schedule::lemma_first_is(cycles@.len() as int, wanted, i as int);
            }
            return Some(i);
        }
        i += 1;
    }
    None
}

fn find_baseline(baselines: &Vec<HistoryBaseline>, label: &str) -> (r: Option<usize>)
    ensures
        match r {
            Some(i) => baseline_at(baselines@, label@) == i && i < baselines@.len(),
            None => baseline_at(baselines@, label@) < 0,
        },
{
    let ghost wanted = baseline_is(baselines@, label@);
    let mut i: usize = 0;
    while i < baselines.len()
        invariant
            i <= baselines@.len(),
            wanted == baseline_is(baselines@, label@),
            schedule::first(i as int, wanted) < 0,
        decreases baselines@.len() - i,
    {
        let found = text::same(&baselines[i].label, label);
        assert(found == wanted(i as int));
        if found {
            proof {
                schedule::lemma_first_is(baselines@.len() as int, wanted, i as int);
            }
            return Some(i);
        }
        i += 1;
    }
    None
}

fn find_benchmark(benchmarks: &Vec<HistoryIndexEntry>, id: &str) -> (r: Option<usize>)
    ensures
        match r {
            Some(i) => benchmark_at(benchmarks@, id@) == i && i < benchmarks@.len(),
            None => benchmark_at(benchmarks@, id@) < 0,
        },
{
    let ghost wanted = benchmark_is(benchmarks@, id@);
    let mut i: usize = 0;
    while i < benchmarks.len()
        invariant
            i <= benchmarks@.len(),
            wanted == benchmark_is(benchmarks@, id@),
            schedule::first(i as int, wanted) < 0,
        decreases benchmarks@.len() - i,
    {
        let found = text::same(&benchmarks[i].benchmark_id, id);
        assert(found == wanted(i as int));
        if found {
            proof {
                schedule::lemma_first_is(benchmarks@.len() as int, wanted, i as int);
            }
            return Some(i);
        }
        i += 1;
    }
    None
}

fn find_loaded(details: &Vec<LoadedCycle>, id: &str) -> (r: Option<usize>)
    ensures
        match r {
            Some(i) => loaded_at(details@, id@) == i && i < details@.len(),
            None => loaded_at(details@, id@) < 0,
        },
{
    let ghost wanted = loaded_is(details@, id@);
    let mut i: usize = 0;
    while i < details.len()
        invariant
            i <= details@.len(),
            wanted == loaded_is(details@, id@),
            schedule::first(i as int, wanted) < 0,
        decreases details@.len() - i,
    {
        let found = text::same(&details[i].cycle_id, id);
        assert(found == wanted(i as int));
        if found {
            proof {
                schedule::lemma_first_is(details@.len() as int, wanted, i as int);
            }
            return Some(i);
        }
        i += 1;
    }
    None
}

// Lineages.

/// The cycle that another was measured against, where both are known.
pub open spec fn parent_of(cycles: Seq<HistoryCycleSummary>, id: Seq<char>) -> Option<Seq<char>> {
    let i = cycle_at(cycles, id);
    if i < 0 {
        None
    } else {
        text::opt(cycles[i].baseline_cycle_id)
    }
}

/// The cycle that lies some steps up the lineage of another, where there is one.
pub open spec fn ancestor(cycles: Seq<HistoryCycleSummary>, start: Seq<char>, n: nat) -> Option<
    Seq<char>,
>
    decreases n,
{
    if n == 0 {
        Some(start)
    } else {
        match ancestor(cycles, start, (n - 1) as nat) {
            Some(id) => parent_of(cycles, id),
            None => None,
        }
    }
}

/// A cycle is another, or lies up its lineage.
pub open spec fn in_lineage(cycles: Seq<HistoryCycleSummary>, start: Seq<char>, id: Seq<char>) -> bool {
    exists|n: nat| #[trigger] ancestor(cycles, start, n) == Some(id)
}

/// Every known step of a lineage is among some, where they are its first steps and end as it ends.
proof fn lemma_lineage_closed(
    cycles: Seq<HistoryCycleSummary>,
    start: Seq<char>,
    ids: Seq<Seq<char>>,
    n: nat,
)
    requires
        ids.len() > 0,
        forall|k: int|
            0 <= k < ids.len() ==> ancestor(cycles, start, k as nat) == Some(#[trigger] ids[k]),
        match ancestor(cycles, start, ids.len()) {
            Some(id) => ids.contains(id),
            None => true,
        },
    ensures
        match ancestor(cycles, start, n) {
            Some(id) => ids.contains(id),
            None => true,
        },
    decreases n,
{
    if n < ids.len() {
        assert(ids[n as int] == ids[n as int]);
    } else if n > ids.len() {
        lemma_lineage_closed(cycles, start, ids, (n - 1) as nat);
        match ancestor(cycles, start, (n - 1) as nat) {
            Some(id) => {
                let k = choose|k: int| 0 <= k < ids.len() && ids[k] == id;
                assert(ancestor(cycles, start, k as nat) == Some(ids[k]));
                assert(ancestor(cycles, start, n) == parent_of(cycles, id));
                assert(ancestor(cycles, start, (k + 1) as nat) == parent_of(cycles, id));
                if k + 1 < ids.len() {
                    assert(ancestor(cycles, start, (k + 1) as nat) == Some(ids[k + 1]));
                }
            },
            None => {},
        }
    }
}

/// Distinct names of cycles are no more than the cycles.
proof fn lemma_names_are_few(cycles: Seq<HistoryCycleSummary>, ids: Seq<Seq<char>>)
    requires
        ids.no_duplicates(),
        forall|k: int| 0 <= k < ids.len() ==> cycle_at(cycles, #[trigger] ids[k]) >= 0,
    ensures
        ids.len() <= cycles.len(),
{
    let names = Seq::new(cycles.len(), |i: int| cycles[i].cycle_id@);
    ids.unique_seq_to_set();
    names.lemma_cardinality_of_set();
    assert forall|id: Seq<char>| ids.to_set().contains(id) implies names.to_set().contains(id) by {
        let k = choose|k: int| 0 <= k < ids.len() && ids[k] == id;
        let i = cycle_at(cycles, ids[k]);
        schedule::lemma_first(cycles.len() as int, cycle_is(cycles, ids[k]));
        assert(names[i] == id);
        assert(names.contains(id));
    }
    vstd::set_lib::lemma_len_subset(ids.to_set(), names.to_set());
}

fn has_text(items: &Vec<String>, item: &str) -> (r: bool)
    ensures
        r == text::views(items@).contains(item@),
{
    let mut i: usize = 0;
    while i < items.len()
        invariant
            i <= items@.len(),
            forall|k: int| 0 <= k < i ==> (#[trigger] text::views(items@)[k]) != item@,
        decreases items@.len() - i,
    {
        if text::same(&items[i], item) {
            assert(text::views(items@)[i as int] == item@);
            return true;
        }
        i += 1;
    }
    false
}

/// The names of a cycle and of those up its lineage.
fn lineage_of(cycles: &Vec<HistoryCycleSummary>, start: &str) -> (r: Vec<String>)
    ensures
        forall|id: Seq<char>| #[trigger]
            text::views(r@).contains(id) <==> in_lineage(cycles@, start@, id),
{
    let mut ids: Vec<String> = Vec::new();
    let mut current = start.to_owned();
    let mut more = true;
    while more
        invariant
            forall|k: int|
                0 <= k < ids@.len() ==> ancestor(cycles@, start@, k as nat) == Some(
                    #[trigger] text::views(ids@)[k],
                ),
            text::views(ids@).no_duplicates(),
            more ==> ancestor(cycles@, start@, ids@.len()) == Some(current@),
            more ==> forall|k: int|
                0 <= k < ids@.len() ==> cycle_at(cycles@, #[trigger] text::views(ids@)[k]) >= 0,
            !more ==> ids@.len() > 0 && match ancestor(cycles@, start@, ids@.len()) {
                Some(id) => text::views(ids@).contains(id),
                None => true,
            },
        decreases
                cycles@.len() + 1 - ids@.len(),
                (if more {
                    1int
                } else {
                    0
                }),
    {
        let ghost known = text::views(ids@);
        proof {
            lemma_names_are_few(cycles@, known);
        }
        if has_text(&ids, &current) {
            more = false;
        } else {
            let place = find_cycle(cycles, &current);
            ids.push(current.clone());
            proof {
                assert(text::views(ids@) == known.push(current@));
                assert forall|k: int| 0 <= k < ids@.len() implies ancestor(
                    cycles@,
                    start@,
                    k as nat,
                ) == Some(#[trigger] text::views(ids@)[k]) by {
                    if k < known.len() {
                        assert(text::views(ids@)[k] == known[k]);
                    }
                }
                assert forall|k: int|
                    0 <= k < known.len() implies text::views(ids@)[k] == known[k] by {}
                assert(text::views(ids@).no_duplicates());
                assert(ancestor(cycles@, start@, ids@.len()) == parent_of(cycles@, current@));
                assert(ids@.len() == known.len() + 1);
            }
            let parent: Option<String> = match place {
                Some(i) => text::copy_opt(&cycles[i].baseline_cycle_id),
                None => None,
            };
            match parent {
                Some(parent) => {
                    proof {
                        assert forall|k: int| 0 <= k < ids@.len() implies cycle_at(
                            cycles@,
                            #[trigger] text::views(ids@)[k],
                        ) >= 0 by {
                            if k < known.len() {
                                assert(text::views(ids@)[k] == known[k]);
                            }
                        }
                    }
                    current = parent;
                },
                None => {
                    more = false;
                },
            }
        }
    }
    proof {
        let all = text::views(ids@);
        assert forall|id: Seq<char>| #[trigger] all.contains(id) <==> in_lineage(
            cycles@,
            start@,
            id,
        ) by {
            if all.contains(id) {
                let k = choose|k: int| 0 <= k < all.len() && all[k] == id;
                assert(ancestor(cycles@, start@, k as nat) == Some(id));
            }
            if in_lineage(cycles@, start@, id) {
                let n = choose|n: nat| #[trigger] ancestor(cycles@, start@, n) == Some(id);
                lemma_lineage_closed(cycles@, start@, all, n);
            }
        }
    }
    ids
}

// The screen.

/// The part of the screen's state that keys change.
#[derive(Clone, Debug)]
pub struct App {
    pub data: HistoryData,
    pub selected_cycle_id: Option<String>,
    pub accepted_only: bool,
    pub verdicts: VerdictFilters,
    pub graph_scope: GraphScope,
    pub lineage_filter: Option<String>,
    pub date_range: DateRange,
    pub picker: Option<Picker>,
    pub notice: Option<String>,
}

/// Why a key could not be followed.
#[derive(Clone, Copy, Debug, Eq, PartialEq, Structural)]
pub enum HistoryFailure {
    NoBenchmark,
    NoDate,
    NoArtifact,
    MissingCycle,
}

impl HistoryFailure {
    /// The failure in words.
    pub fn message(self) -> (r: &'static str)
        ensures
            r@ == match self {
                HistoryFailure::NoBenchmark => "benchmark picker has no selection"@,
                HistoryFailure::NoDate => "date picker has no selection"@,
                HistoryFailure::NoArtifact => "artifact picker has no selection"@,
                HistoryFailure::MissingCycle =>
                    "selected history cycle is missing from its overview"@,
            },
    {
        match self {
            HistoryFailure::NoBenchmark => "benchmark picker has no selection",
            HistoryFailure::NoDate => "date picker has no selection",
            HistoryFailure::NoArtifact => "artifact picker has no selection",
            HistoryFailure::MissingCycle =>
                "selected history cycle is missing from its overview",
        }
    }
}

/// What a key asks for.
#[derive(Clone, Copy, Debug, Eq, PartialEq, Structural)]
pub enum HistoryStep {
    Continue,
    Quit,
    /// Read the cycle at a place of the overview in full.
    LoadCycle(usize),
    /// Read the overview of the benchmark at a place of the index.
    LoadBenchmark(usize),
    /// Open the artifact at a place of the selected cycle.
    OpenArtifact(usize),
    Failed(HistoryFailure),
}

/// The state that keys change, viewed.
pub struct HistoryView {
    pub selected: Option<Seq<char>>,
    pub accepted_only: bool,
    pub verdicts: VerdictFilters,
    pub graph_scope: GraphScope,
    pub lineage: Option<Seq<char>>,
    pub date_range: DateRange,
    pub picker: Option<Picker>,
    pub notice: Option<Seq<char>>,
}

impl View for App {
    type V = HistoryView;

    open spec fn view(&self) -> HistoryView {
        HistoryView {
            selected: text::opt(self.selected_cycle_id),
            accepted_only: self.accepted_only,
            verdicts: self.verdicts,
            graph_scope: self.graph_scope,
            lineage: text::opt(self.lineage_filter),
            date_range: self.date_range,
            picker: self.picker,
            notice: text::opt(self.notice),
        }
    }
}

/// The cycle of the baseline that the lineage filter names, where it names one.
pub open spec fn focused(overview: HistoryOverview, lineage: Option<Seq<char>>) -> Option<Seq<char>> {
    match lineage {
        Some(label) => {
            let i = baseline_at(overview.baselines@, label);
            if i < 0 {
                None
            } else {
                Some(overview.baselines@[i].cycle_id@)
            }
        },
        None => None,
    }
}

/// The cycle at a place among some has a name.
pub open spec fn place_is(cycles: Seq<HistoryCycleSummary>, places: Seq<int>, id: Seq<char>) -> spec_fn(
    int,
) -> bool {
    |k: int| cycles[places[k]].cycle_id@ == id
}

/// Where the cycle that is selected stands among some; minus one where it does not.
pub open spec fn place_of(
    cycles: Seq<HistoryCycleSummary>,
    places: Seq<int>,
    selected: Option<Seq<char>>,
) -> int {
    match selected {
        Some(id) => schedule::first(places.len() as int, place_is(cycles, places, id)),
        None => -1,
    }
}

impl HistoryView {
    /// A cycle passes every filter: it was accepted or need not be, its outcome is listed, it lies
    /// in the range of dates, and it is in the lineage of the focused baseline or was measured
    /// against that baseline.
    pub open spec fn passes(self, overview: HistoryOverview, now: u64, cycle: HistoryCycleSummary) -> bool {
        &&& !self.accepted_only || cycle.accepted
        &&& self.verdicts.allowed(cycle.outcome@)
        &&& in_range(self.date_range, cycle.recorded_at_unix_ms, now)
        &&& match focused(overview, self.lineage) {
            Some(base) => in_lineage(overview.cycles@, base, cycle.cycle_id@) || text::opt(
                cycle.baseline_cycle_id,
            ) == Some(base),
            None => true,
        }
    }

    /// The cycle at a place passes every filter.
    pub open spec fn shows(self, overview: HistoryOverview, now: u64) -> spec_fn(int) -> bool {
        |i: int| self.passes(overview, now, overview.cycles@[i])
    }

    /// The places of the cycles that pass every filter.
    pub open spec fn visible(self, overview: HistoryOverview, now: u64) -> Seq<int> {
        schedule::chosen(overview.cycles@.len() as int, self.shows(overview, now))
    }

    /// The selection as it is kept while it is visible: else the first visible cycle is selected.
    pub open spec fn kept(self, overview: HistoryOverview, now: u64) -> HistoryView {
        let places = self.visible(overview, now);
        let cycles = overview.cycles@;
        HistoryView {
            selected: if place_of(cycles, places, self.selected) >= 0 {
                self.selected
            } else if places.len() > 0 {
                Some(cycles[places[0]].cycle_id@)
            } else {
                None
            },
            notice: None,
            ..self
        }
    }

    /// The selection moved some steps through the visible cycles.
    pub open spec fn stepped(self, overview: HistoryOverview, now: u64, delta: int) -> HistoryView {
        let places = self.visible(overview, now);
        let cycles = overview.cycles@;
        if places.len() == 0 {
            HistoryView { selected: None, ..self }
        } else {
            let at = place_of(cycles, places, self.selected);
            let from = if at >= 0 {
                at
            } else {
                0
            };
            let next = terminal_ui::moved(from, delta, places.len() as int);
            HistoryView {
                selected: Some(cycles[places[next]].cycle_id@),
                notice: None,
                ..self
            }
        }
    }

    /// The first or the last visible cycle selected.
    pub open spec fn at_edge(self, overview: HistoryOverview, now: u64, end: bool) -> HistoryView {
        let places = self.visible(overview, now);
        let cycles = overview.cycles@;
        HistoryView {
            selected: if places.len() == 0 {
                None
            } else if end {
                Some(cycles[places.last()].cycle_id@)
            } else {
                Some(cycles[places[0]].cycle_id@)
            },
            ..self
        }
    }

    /// The cycle that is selected, where it was read in full.
    pub open spec fn detail(self, data: HistoryData) -> Option<HistoryCycle> {
        match self.selected {
            Some(id) => {
                let i = loaded_at(data.details@, id);
                if i < 0 {
                    None
                } else {
                    Some(data.details@[i].cycle)
                }
            },
            None => None,
        }
    }

    /// How many artifacts the selected cycle has, as far as it was read.
    pub open spec fn artifact_count(self, data: HistoryData) -> nat {
        match self.detail(data) {
            Some(cycle) => cycle.artifacts@.len(),
            None => 0,
        }
    }

    /// A list opened on what is in force.
    pub open spec fn picking(self, data: HistoryData, kind: PickerKind) -> HistoryView {
        let at = match kind {
            PickerKind::Benchmark => benchmark_at(
                data.index.benchmarks@,
                data.overview.benchmark_id@,
            ),
            PickerKind::Lineage => match self.lineage {
                Some(label) => baseline_at(data.overview.baselines@, label) + 1,
                None => 0,
            },
            PickerKind::Date => match self.date_range {
                DateRange::Last24Hours => 0,
                DateRange::Last7Days => 1,
                DateRange::Last30Days => 2,
                DateRange::All => 3,
            },
            PickerKind::Artifact => 0,
        };
        let selected = if at >= 0 {
            at as usize
        } else {
            0
        };
        HistoryView { picker: Some(Picker { kind, selected }), notice: None, ..self }
    }

    /// How many things the list offers.
    pub open spec fn offered(self, data: HistoryData) -> int {
        match self.picker {
            Some(picker) => match picker.kind {
                PickerKind::Benchmark => data.index.benchmarks@.len() as int,
                PickerKind::Lineage => data.overview.baselines@.len() as int + 1,
                PickerKind::Date => 4,
                PickerKind::Artifact => self.artifact_count(data) as int,
            },
            None => 0,
        }
    }

    /// The list with another thing chosen.
    pub open spec fn choosing(self, picker: Picker, at: int) -> HistoryView {
        HistoryView { picker: Some(Picker { selected: at as usize, ..picker }), ..self }
    }

    /// What has to be read so that the selected cycle can be shown.
    pub open spec fn wanted(self, data: HistoryData) -> HistoryStep {
        match self.selected {
            Some(id) => if loaded_at(data.details@, id) >= 0 {
                HistoryStep::Continue
            } else if cycle_at(data.overview.cycles@, id) >= 0 {
                HistoryStep::LoadCycle(cycle_at(data.overview.cycles@, id) as usize)
            } else {
                HistoryStep::Failed(HistoryFailure::MissingCycle)
            },
            None => HistoryStep::Continue,
        }
    }

    /// The state, with what has to be read for it.
    pub open spec fn settled(self, data: HistoryData) -> (HistoryView, HistoryStep) {
        (self, self.wanted(data))
    }

    /// What was chosen from a list applied.
    pub open spec fn applied(self, picker: Picker, data: HistoryData, now: u64) -> (
        HistoryView,
        HistoryStep,
    ) {
        match picker.kind {
            PickerKind::Benchmark => if picker.selected < data.index.benchmarks@.len() {
                (self, HistoryStep::LoadBenchmark(picker.selected))
            } else {
                (self, HistoryStep::Failed(HistoryFailure::NoBenchmark))
            },
            PickerKind::Lineage => {
                let baselines = data.overview.baselines@;
                let lineage = if 0 < picker.selected <= baselines.len() {
                    Some(baselines[picker.selected - 1].label@)
                } else {
                    None
                };
                HistoryView { picker: None, ..HistoryView { lineage, ..self }.kept(
                    data.overview,
                    now,
                ) }.settled(data)
            },
            PickerKind::Date => if picker.selected < date_ranges().len() {
                HistoryView {
                    picker: None,
                    ..HistoryView {
                        date_range: date_ranges()[picker.selected as int],
                        ..self
                    }.kept(data.overview, now)
                }.settled(data)
            } else {
                (self, HistoryStep::Failed(HistoryFailure::NoDate))
            },
            PickerKind::Artifact => if picker.selected < self.artifact_count(data) {
                (self, HistoryStep::OpenArtifact(picker.selected))
            } else {
                (self, HistoryStep::Failed(HistoryFailure::NoArtifact))
            },
        }
    }

    /// A key pressed in a list.
    pub open spec fn picked(self, picker: Picker, data: HistoryData, now: u64, key: Key) -> (
        HistoryView,
        HistoryStep,
    ) {
        let count = self.offered(data);
        match key.code {
            KeyCode::Char('q') | KeyCode::Char('Q') => (self, HistoryStep::Quit),
            KeyCode::Esc => (HistoryView { picker: None, ..self }, HistoryStep::Continue),
            KeyCode::Up | KeyCode::Char('k') => (
                if count == 0 {
                    self
                } else {
                    self.choosing(picker, terminal_ui::moved(picker.selected as int, -1, count))
                },
                HistoryStep::Continue,
            ),
            KeyCode::Down | KeyCode::Char('j') => (
                if count == 0 {
                    self
                } else {
                    self.choosing(picker, terminal_ui::moved(picker.selected as int, 1, count))
                },
                HistoryStep::Continue,
            ),
            KeyCode::Home => (self.choosing(picker, 0), HistoryStep::Continue),
            KeyCode::End => (
                self.choosing(
                    picker,
                    if count > 0 {
                        count - 1
                    } else {
                        0
                    },
                ),
                HistoryStep::Continue,
            ),
            KeyCode::Enter => self.applied(picker, data, now),
            _ => (self, HistoryStep::Continue),
        }
    }

    /// A key pressed.
    pub open spec fn pressed(self, data: HistoryData, now: u64, key: Key) -> (
        HistoryView,
        HistoryStep,
    ) {
        let overview = data.overview;
        if terminal_ui::interrupts(key) {
            (self, HistoryStep::Quit)
        } else if self.picker is Some {
            self.picked(self.picker->0, data, now, key)
        } else {
            match key.code {
                KeyCode::Char('q') | KeyCode::Char('Q') => (self, HistoryStep::Quit),
                KeyCode::Up | KeyCode::Char('k') => self.stepped(overview, now, -1).settled(data),
                KeyCode::Down | KeyCode::Char('j') => self.stepped(overview, now, 1).settled(data),
                KeyCode::Home => self.at_edge(overview, now, false).settled(data),
                KeyCode::End => self.at_edge(overview, now, true).settled(data),
                KeyCode::Char('a') | KeyCode::Char('A') => HistoryView {
                    accepted_only: !self.accepted_only,
                    ..self
                }.kept(overview, now).settled(data),
                KeyCode::Char('p') | KeyCode::Char('P') => self.judging('p', overview, now).settled(
                    data,
                ),
                KeyCode::Char('e') | KeyCode::Char('E') => self.judging('e', overview, now).settled(
                    data,
                ),
                KeyCode::Char('i') | KeyCode::Char('I') => self.judging('i', overview, now).settled(
                    data,
                ),
                KeyCode::Char('n') | KeyCode::Char('N') => self.judging('n', overview, now).settled(
                    data,
                ),
                KeyCode::Char('g') | KeyCode::Char('G') => HistoryView {
                    graph_scope: self.graph_scope.other(),
                    notice: None,
                    ..self
                }.settled(data),
                KeyCode::Char('b') | KeyCode::Char('B') => self.picking(
                    data,
                    PickerKind::Benchmark,
                ).settled(data),
                KeyCode::Char('l') | KeyCode::Char('L') => self.picking(
                    data,
                    PickerKind::Lineage,
                ).settled(data),
                KeyCode::Char('d') | KeyCode::Char('D') => self.picking(
                    data,
                    PickerKind::Date,
                ).settled(data),
                KeyCode::Char('o') | KeyCode::Char('O') => if self.artifact_count(data) > 0 {
                    self.picking(data, PickerKind::Artifact).settled(data)
                } else {
                    HistoryView {
                        notice: Some("selected cycle has no retained artifact"@),
                        ..self
                    }.settled(data)
                },
                _ => self.settled(data),
            }
        }
    }

    /// The outcome of a letter listed or not.
    pub open spec fn judging(self, outcome: char, overview: HistoryOverview, now: u64) -> HistoryView {
        HistoryView { verdicts: self.verdicts.toggled(outcome), ..self }.kept(overview, now)
    }
}

/// The screen as it opens on the overview of a benchmark: on the lineage of the current baseline,
/// over the last thirty days, or over all dates where those show nothing.
pub open spec fn opened(view: HistoryView, overview: HistoryOverview, now: u64) -> HistoryView {
    let first = HistoryView {
        selected: if overview.cycles@.len() > 0 {
            Some(overview.cycles@[0].cycle_id@)
        } else {
            None
        },
        lineage: text::opt(overview.current_baseline_label),
        date_range: DateRange::Last30Days,
        ..view
    };
    if first.visible(overview, now).len() == 0 {
        HistoryView { date_range: DateRange::All, ..first }.kept(overview, now)
    } else {
        first.kept(overview, now)
    }
}

/// The state in which the screen starts, before an overview is shown.
pub open spec fn initial_view() -> HistoryView {
    HistoryView {
        selected: None,
        accepted_only: false,
        verdicts: all_verdicts(),
        graph_scope: GraphScope::AllCycles,
        lineage: None,
        date_range: DateRange::Last30Days,
        picker: None,
        notice: None,
    }
}

impl App {
    /// The lists fit the machine's counters.
    pub open spec fn wf(self) -> bool {
        self.data.overview.baselines@.len() < usize::MAX
    }

    /// Opens the screen on an overview.
    pub fn load(data: HistoryData, now: u64) -> (r: App)
        ensures
            r.data == data,
            r@ == opened(initial_view(), data.overview, now),
    {
        let mut app = App {
            data,
            selected_cycle_id: None,
            accepted_only: false,
            verdicts: VerdictFilters {
                positive: true,
                equivalent: true,
                inconclusive: true,
                negative: true,
            },
            graph_scope: GraphScope::AllCycles,
            lineage_filter: None,
            date_range: DateRange::Last30Days,
            picker: None,
            notice: None,
        };
        app.show_overview(now);
        app
    }

    fn show_overview(&mut self, now: u64)
        ensures
            final(self).data == old(self).data,
            final(self)@ == opened(old(self)@, old(self).data.overview, now),
    {
        self.selected_cycle_id = if self.data.overview.cycles.len() > 0 {
            Some(self.data.overview.cycles[0].cycle_id.clone())
        } else {
            None
        };
        self.lineage_filter = text::copy_opt(&self.data.overview.current_baseline_label);
        self.date_range = DateRange::Last30Days;
        let places = self.visible_indices(now);
        assert(schedule::ints(places@).len() == places@.len());
        if places.len() == 0 {
            self.date_range = DateRange::All;
        }
        self.ensure_selection(now);
    }

    /// The cycle of the baseline that the lineage filter names.
    fn focused_baseline_cycle_id(&self) -> (r: Option<String>)
        ensures
            text::opt(r) == focused(self.data.overview, text::opt(self.lineage_filter)),
    {
        match &self.lineage_filter {
            None => None,
            Some(label) => match find_baseline(&self.data.overview.baselines, label) {
                None => None,
                Some(i) => Some(self.data.overview.baselines[i].cycle_id.clone()),
            },
        }
    }

    /// The places of the cycles that pass every filter.
    pub fn visible_indices(&self, now: u64) -> (r: Vec<usize>)
        ensures
            schedule::ints(r@) == self@.visible(self.data.overview, now),
            forall|k: int| 0 <= k < r@.len() ==> (#[trigger] r@[k])
                < self.data.overview.cycles@.len(),
    {
        let cycles = &self.data.overview.cycles;
        let base = self.focused_baseline_cycle_id();
        let mut lineage: Vec<String> = Vec::new();
        if let Some(base) = &base {
            lineage = lineage_of(cycles, base);
        }
        let ghost wanted = self@.shows(self.data.overview, now);
        let mut out: Vec<usize> = Vec::new();
        let mut i: usize = 0;
        assert(schedule::ints(out@) == schedule::chosen(0, wanted));
        while i < cycles.len()
            invariant
                i <= cycles@.len(),
                *cycles == self.data.overview.cycles,
                text::opt(base) == focused(self.data.overview, text::opt(self.lineage_filter)),
                base is Some ==> forall|id: Seq<char>| #[trigger]
                    text::views(lineage@).contains(id) <==> in_lineage(
                        cycles@,
                        base->0@,
                        id,
                    ),
                wanted == self@.shows(self.data.overview, now),
                schedule::ints(out@) == schedule::chosen(i as int, wanted),
                forall|k: int| 0 <= k < out@.len() ==> (#[trigger] out@[k]) < i,
            decreases cycles@.len() - i,
        {
            let ghost before = schedule::ints(out@);
            let cycle = &cycles[i];
            let in_focus = match &base {
                Some(base) => has_text(&lineage, &cycle.cycle_id)
                    || match &cycle.baseline_cycle_id {
                    Some(parent) => text::same(parent, base),
                    None => false,
                },
                None => true,
            };
            let shown = (!self.accepted_only || cycle.accepted) && self.verdicts.allows(
                &cycle.outcome,
            ) && self.date_range.contains(cycle.recorded_at_unix_ms, now) && in_focus;
            assert(shown == wanted(i as int));
            if shown {
                out.push(i);
                assert(schedule::ints(out@) == before.push(i as int));
            }
            i += 1;
        }
        out
    }

    /// Where the selected cycle stands among some places.
    pub fn position(&self, places: &Vec<usize>) -> (r: Option<usize>)
        requires
            forall|k: int|
                0 <= k < places@.len() ==> (#[trigger] places@[k])
                    < self.data.overview.cycles@.len(),
        ensures
            ({
                let at = place_of(
                    self.data.overview.cycles@,
                    schedule::ints(places@),
                    text::opt(self.selected_cycle_id),
                );
                match r {
                    Some(k) => at == k && k < places@.len(),
                    None => at < 0,
                }
            }),
    {
        let cycles = &self.data.overview.cycles;
        match &self.selected_cycle_id {
            None => None,
            Some(selected) => {
                let ghost all = schedule::ints(places@);
                let ghost wanted = place_is(cycles@, all, selected@);
                let mut k: usize = 0;
                while k < places.len()
                    invariant
                        k <= places@.len(),
                        *cycles == self.data.overview.cycles,
                        self.selected_cycle_id == Some(*selected),
                        all == schedule::ints(places@),
                        wanted == place_is(cycles@, all, selected@),
                        forall|k: int|
                            0 <= k < places@.len() ==> (#[trigger] places@[k])
                                < self.data.overview.cycles@.len(),
                        schedule::first(k as int, wanted) < 0,
                    decreases places@.len() - k,
                {
                    assert(all[k as int] == places@[k as int]);
                    let found = text::same(&cycles[places[k]].cycle_id, selected);
                    assert(found == wanted(k as int));
                    if found {
                        proof {
                            schedule::lemma_first_is(all.len() as int, wanted, k as int);
                        }
                        return Some(k);
                    }
                    k += 1;
                }
                None
            },
        }
    }

    /// The cycle that is selected, where it was read in full.
    pub fn selected_cycle(&self) -> (r: Option<&HistoryCycle>)
        ensures
            match self@.detail(self.data) {
                Some(cycle) => r == Some(&cycle),
                None => r is None,
            },
    {
        match &self.selected_cycle_id {
            None => None,
            Some(id) => match find_loaded(&self.data.details, id) {
                None => None,
                Some(i) => Some(&self.data.details[i].cycle),
            },
        }
    }

    fn artifact_count(&self) -> (r: usize)
        ensures
            r == self@.artifact_count(self.data),
    {
        match self.selected_cycle() {
            Some(cycle) => cycle.artifacts.len(),
            None => 0,
        }
    }

    /// What has to be read so that the selected cycle can be shown.
    pub fn load_selected_cycle(&self) -> (r: HistoryStep)
        ensures
            r == self@.wanted(self.data),
    {
        match &self.selected_cycle_id {
            None => HistoryStep::Continue,
            Some(id) => {
                if find_loaded(&self.data.details, id).is_some() {
                    return HistoryStep::Continue;
                }
                match find_cycle(&self.data.overview.cycles, id) {
                    Some(i) => HistoryStep::LoadCycle(i),
                    None => HistoryStep::Failed(HistoryFailure::MissingCycle),
                }
            },
        }
    }

    /// Keeps the selection while it is visible; selects the first visible cycle else.
    pub fn ensure_selection(&mut self, now: u64)
        ensures
            final(self).data == old(self).data,
            final(self)@ == old(self)@.kept(old(self).data.overview, now),
    {
        let places = self.visible_indices(now);
        assert(schedule::ints(places@).len() == places@.len());
        if self.position(&places).is_none() {
            self.selected_cycle_id = if places.len() > 0 {
                assert(schedule::ints(places@)[0] == places@[0]);
                Some(self.data.overview.cycles[places[0]].cycle_id.clone())
            } else {
                None
            };
        }
        self.notice = None;
    }

    fn move_selection(&mut self, delta: isize, now: u64)
        ensures
            final(self).data == old(self).data,
            final(self)@ == old(self)@.stepped(old(self).data.overview, now, delta as int),
    {
        let places = self.visible_indices(now);
        assert(schedule::ints(places@).len() == places@.len());
        if places.len() == 0 {
            self.selected_cycle_id = None;
            return;
        }
        let current: usize = match self.position(&places) {
            Some(at) => at,
            None => 0,
        };
        let next: usize = terminal_ui::offset_index(current, delta, places.len());
        proof {
            terminal_ui::a_move_stays_in_the_list(
                current as int,
                delta as int,
                places@.len() as int,
            );
            assert(schedule::ints(places@)[next as int] == places@[next as int]);
        }
        self.selected_cycle_id = Some(self.data.overview.cycles[places[next]].cycle_id.clone());
        self.notice = None;
    }

    /// Selects the first or the last visible cycle.
    pub fn select_edge(&mut self, end: bool, now: u64)
        ensures
            final(self).data == old(self).data,
            final(self)@ == old(self)@.at_edge(old(self).data.overview, now, end),
    {
        let places = self.visible_indices(now);
        assert(schedule::ints(places@).len() == places@.len());
        self.selected_cycle_id = if places.len() == 0 {
            None
        } else {
            let k: usize = if end {
                places.len() - 1
            } else {
                0
            };
            assert(schedule::ints(places@)[k as int] == places@[k as int]);
            Some(self.data.overview.cycles[places[k]].cycle_id.clone())
        };
    }

    fn open_picker(&mut self, kind: PickerKind)
        ensures
            final(self).data == old(self).data,
            final(self)@ == old(self)@.picking(old(self).data, kind),
    {
        let found: Option<usize> = match kind {
            PickerKind::Benchmark => find_benchmark(
                &self.data.index.benchmarks,
                &self.data.overview.benchmark_id,
            ),
            PickerKind::Lineage => match &self.lineage_filter {
                Some(label) => {
                    proof {
                        schedule::lemma_first(
                            self.data.overview.baselines@.len() as int,
                            baseline_is(self.data.overview.baselines@, label@),
                        );
                    }
                    match find_baseline(&self.data.overview.baselines, label) {
                        Some(i) => {
                            assert(i < self.data.overview.baselines.len());
                            Some(i + 1)
                        },
                        None => None,
                    }
                },
                None => None,
            },
            PickerKind::Date => Some(
                match self.date_range {
                    DateRange::Last24Hours => 0,
                    DateRange::Last7Days => 1,
                    DateRange::Last30Days => 2,
                    DateRange::All => 3,
                },
            ),
            PickerKind::Artifact => None,
        };
        let selected: usize = match found {
            Some(at) => at,
            None => 0,
        };
        self.picker = Some(Picker { kind, selected });
        self.notice = None;
    }

    /// How many things the list offers.
    pub fn picker_item_count(&self) -> (r: usize)
        requires
            self.wf(),
        ensures
            r == self@.offered(self.data),
    {
        match self.picker {
            None => 0,
            Some(picker) => match picker.kind {
                PickerKind::Benchmark => self.data.index.benchmarks.len(),
                PickerKind::Lineage => self.data.overview.baselines.len() + 1,
                PickerKind::Date => 4,
                PickerKind::Artifact => self.artifact_count(),
            },
        }
    }

    fn apply_picker(&mut self, picker: Picker, now: u64) -> (r: HistoryStep)
        requires
            old(self).wf(),
        ensures
            final(self).data == old(self).data,
            ({
                let (view, step) = old(self)@.applied(picker, old(self).data, now);
                final(self)@ == view && r == step
            }),
    {
        match picker.kind {
            PickerKind::Benchmark => {
                if picker.selected < self.data.index.benchmarks.len() {
                    HistoryStep::LoadBenchmark(picker.selected)
                } else {
                    HistoryStep::Failed(HistoryFailure::NoBenchmark)
                }
            },
            PickerKind::Lineage => {
                let baselines = &self.data.overview.baselines;
                self.lineage_filter = if 0 < picker.selected && picker.selected <= baselines.len() {
                    Some(baselines[picker.selected - 1].label.clone())
                } else {
                    None
                };
                self.ensure_selection(now);
                self.picker = None;
                self.load_selected_cycle()
            },
            PickerKind::Date => {
                let ranges = DateRange::all();
                if picker.selected < ranges.len() {
                    self.date_range = ranges[picker.selected];
                    self.ensure_selection(now);
                    self.picker = None;
                    self.load_selected_cycle()
                } else {
                    HistoryStep::Failed(HistoryFailure::NoDate)
                }
            },
            PickerKind::Artifact => {
                if picker.selected < self.artifact_count() {
                    HistoryStep::OpenArtifact(picker.selected)
                } else {
                    HistoryStep::Failed(HistoryFailure::NoArtifact)
                }
            },
        }
    }

    fn move_picker(&mut self, picker: Picker, delta: isize)
        requires
            old(self).wf(),
            old(self).picker == Some(picker),
        ensures
            final(self).data == old(self).data,
            final(self)@ == (if old(self)@.offered(old(self).data) == 0 {
                old(self)@
            } else {
                old(self)@.choosing(
                    picker,
                    terminal_ui::moved(
                        picker.selected as int,
                        delta as int,
                        old(self)@.offered(old(self).data),
                    ),
                )
            }),
    {
        let count = self.picker_item_count();
        if count > 0 {
            let selected: usize = terminal_ui::offset_index(picker.selected, delta, count);
            self.picker = Some(Picker { kind: picker.kind, selected });
        }
    }

    fn handle_picker_key(&mut self, picker: Picker, key: Key, now: u64) -> (r: HistoryStep)
        requires
            old(self).wf(),
            old(self).picker == Some(picker),
        ensures
            final(self).data == old(self).data,
            ({
                let (view, step) = old(self)@.picked(picker, old(self).data, now, key);
                final(self)@ == view && r == step
            }),
    {
        match key.code {
            KeyCode::Char('q') | KeyCode::Char('Q') => {
                return HistoryStep::Quit;
            },
            KeyCode::Esc => {
                self.picker = None;
            },
            KeyCode::Up | KeyCode::Char('k') => self.move_picker(picker, -1),
            KeyCode::Down | KeyCode::Char('j') => self.move_picker(picker, 1),
            KeyCode::Home => {
                self.picker = Some(Picker { kind: picker.kind, selected: 0 });
            },
            KeyCode::End => {
                let count = self.picker_item_count();
                let selected: usize = if count > 0 {
                    count - 1
                } else {
                    0
                };
                self.picker = Some(Picker { kind: picker.kind, selected });
            },
            KeyCode::Enter => {
                return self.apply_picker(picker, now);
            },
            _ => {},
        }
        HistoryStep::Continue
    }

    fn toggle_verdict(&mut self, outcome: char, now: u64)
        ensures
            final(self).data == old(self).data,
            final(self)@ == old(self)@.judging(outcome, old(self).data.overview, now),
    {
        self.verdicts.toggle(outcome);
        self.ensure_selection(now);
    }

    /// Does what a key asks for.
    pub fn handle_key(&mut self, key: Key, now: u64) -> (r: HistoryStep)
        requires
            old(self).wf(),
        ensures
            final(self).data == old(self).data,
            ({
                let (view, step) = old(self)@.pressed(old(self).data, now, key);
                final(self)@ == view && r == step
            }),
    {
        if terminal_ui::is_interrupt(key) {
            return HistoryStep::Quit;
        }
        if let Some(picker) = self.picker {
            return self.handle_picker_key(picker, key, now);
        }
        match key.code {
            KeyCode::Char('q') | KeyCode::Char('Q') => {
                return HistoryStep::Quit;
            },
            KeyCode::Up | KeyCode::Char('k') => self.move_selection(-1, now),
            KeyCode::Down | KeyCode::Char('j') => self.move_selection(1, now),
            KeyCode::Home => self.select_edge(false, now),
            KeyCode::End => self.select_edge(true, now),
            KeyCode::Char('a') | KeyCode::Char('A') => {
                self.accepted_only = !self.accepted_only;
                self.ensure_selection(now);
            },
            KeyCode::Char('p') | KeyCode::Char('P') => self.toggle_verdict('p', now),
            KeyCode::Char('e') | KeyCode::Char('E') => self.toggle_verdict('e', now),
            KeyCode::Char('i') | KeyCode::Char('I') => self.toggle_verdict('i', now),
            KeyCode::Char('n') | KeyCode::Char('N') => self.toggle_verdict('n', now),
            KeyCode::Char('g') | KeyCode::Char('G') => {
                self.graph_scope.toggle();
                self.notice = None;
            },
            KeyCode::Char('b') | KeyCode::Char('B') => self.open_picker(PickerKind::Benchmark),
            KeyCode::Char('l') | KeyCode::Char('L') => self.open_picker(PickerKind::Lineage),
            KeyCode::Char('d') | KeyCode::Char('D') => self.open_picker(PickerKind::Date),
            KeyCode::Char('o') | KeyCode::Char('O') => {
                if self.artifact_count() > 0 {
                    self.open_picker(PickerKind::Artifact);
                } else {
                    self.notice = Some("selected cycle has no retained artifact".to_owned());
                }
            },
            _ => {},
        }
        self.load_selected_cycle()
    }

    /// Keeps a cycle that was read in full under the name it was asked for.
    pub fn cycle_loaded(&mut self, cycle_id: String, cycle: HistoryCycle)
        ensures
            final(self)@ == old(self)@,
            final(self).data.details@ == old(self).data.details@.push(
                (LoadedCycle { cycle_id, cycle }),
            ),
            final(self).data.index == old(self).data.index,
            final(self).data.overview == old(self).data.overview,
            final(self).data.display_root == old(self).data.display_root,
    {
        self.data.details.push(LoadedCycle { cycle_id, cycle });
    }

    /// Shows the overview of the benchmark that was picked.
    pub fn benchmark_loaded(&mut self, overview: HistoryOverview, now: u64) -> (r: HistoryStep)
        ensures
            final(self).data.overview == overview,
            final(self).data.details@.len() == 0,
            final(self).data.index == old(self).data.index,
            final(self).data.display_root == old(self).data.display_root,
            final(self)@ == (HistoryView { picker: None, ..opened(old(self)@, overview, now) }),
            r == final(self)@.wanted(final(self).data),
    {
        self.data.overview = overview;
        self.data.details = Vec::new();
        self.show_overview(now);
        self.picker = None;
        self.load_selected_cycle()
    }

    /// Says what came of opening an artifact; `shown` is its path as it is shown.
    pub fn artifact_opened(&mut self, shown: &str, opened: Result<(), String>) -> (r: HistoryStep)
        ensures
            final(self).data == old(self).data,
            final(self)@ == (HistoryView {
                notice: Some(
                    match opened {
                        Ok(()) => "opened "@ + shown@,
                        Err(error) => "could not open artifact: "@ + error@,
                    },
                ),
                picker: None,
                ..old(self)@
            }),
            r == final(self)@.wanted(final(self).data),
    {
        let notice = match &opened {
            Ok(()) => {
                let mut notice = "opened ".to_owned();
                notice.append(shown);
                notice
            },
            Err(error) => {
                let mut notice = "could not open artifact: ".to_owned();
                notice.append(error);
                notice
            },
        };
        self.notice = Some(notice);
        self.picker = None;
        self.load_selected_cycle()
    }
}

// Laws.

/// What is selected after the filters changed passes them; nothing is selected only where nothing
/// passes them.
pub proof fn a_kept_selection_is_visible(view: HistoryView, overview: HistoryOverview, now: u64)
    ensures
        ({
            let kept = view.kept(overview, now);
            match kept.selected {
                Some(id) => exists|i: int|
                    0 <= i < overview.cycles@.len() && (
                    #[trigger] overview.cycles@[i]).cycle_id@ == id && kept.passes(
                        overview,
                        now,
                        overview.cycles@[i],
                    ),
                None => forall|i: int|
                    0 <= i < overview.cycles@.len() ==> !kept.passes(
                        overview,
                        now,
                        #[trigger] overview.cycles@[i],
                    ),
            }
        }),
{
    let kept = view.kept(overview, now);
    let cycles = overview.cycles@;
    let n = cycles.len() as int;
    let places = view.visible(overview, now);
    schedule::lemma_chosen(n, view.shows(overview, now));
    let at = place_of(cycles, places, view.selected);
    if at >= 0 {
        schedule::lemma_first(
            places.len() as int,
            place_is(cycles, places, view.selected->0),
        );
        assert(places.contains(places[at]));
        assert(view.shows(overview, now)(places[at]));
        assert(cycles[places[at]].cycle_id@ == kept.selected->0);
        assert(kept.passes(overview, now, cycles[places[at]]));
    } else if places.len() > 0 {
        assert(places.contains(places[0]));
        assert(view.shows(overview, now)(places[0]));
        assert(kept.passes(overview, now, cycles[places[0]]));
    } else {
        assert forall|i: int| 0 <= i < cycles.len() implies !kept.passes(
            overview,
            now,
            #[trigger] cycles[i],
        ) by {
            if kept.passes(overview, now, cycles[i]) {
                assert(view.shows(overview, now)(i));
                assert(places.contains(i));
            }
        }
    }
}

/// Listing only what was accepted hides cycles and shows none that was hidden.
pub proof fn accepted_only_narrows(
    view: HistoryView,
    overview: HistoryOverview,
    now: u64,
    cycle: HistoryCycleSummary,
)
    ensures
        (HistoryView { accepted_only: true, ..view }).passes(overview, now, cycle) <==> (
        cycle.accepted && (HistoryView { accepted_only: false, ..view }).passes(
            overview,
            now,
            cycle,
        )),
{
}

/// Changing the outcome of a letter twice changes nothing, and it changes no other outcome.
pub proof fn a_verdict_is_restored(verdicts: VerdictFilters, outcome: char, other: Seq<char>)
    ensures
        verdicts.toggled(outcome).toggled(outcome) == verdicts,
        outcome == 'p' && other != "positive"@ ==> verdicts.toggled(outcome).allowed(other)
            == verdicts.allowed(other),
        outcome == 'e' && other != "equivalent"@ ==> verdicts.toggled(outcome).allowed(other)
            == verdicts.allowed(other),
        outcome == 'i' && other != "inconclusive"@ ==> verdicts.toggled(outcome).allowed(other)
            == verdicts.allowed(other),
        outcome == 'n' && other != "negative"@ ==> verdicts.toggled(outcome).allowed(other)
            == verdicts.allowed(other),
{
}

/// A longer range holds what a shorter one holds.
pub proof fn ranges_widen(a: int, b: int, timestamp: u64, now: u64)
    requires
        0 <= a <= b < date_ranges().len(),
        in_range(date_ranges()[a], timestamp, now),
    ensures
        in_range(date_ranges()[b], timestamp, now),
{
}

/// The cycle of a focused baseline is in focus, and so is what that cycle was measured against.
pub proof fn a_lineage_holds_its_baseline(cycles: Seq<HistoryCycleSummary>, start: Seq<char>)
    ensures
        in_lineage(cycles, start, start),
        match parent_of(cycles, start) {
            Some(parent) => in_lineage(cycles, start, parent),
            None => true,
        },
{
    assert(ancestor(cycles, start, 0) == Some(start));
    assert(ancestor(cycles, start, 1) == parent_of(cycles, start));
}

/// A cycle of the overview is selected, or none is.
pub open spec fn selects_listed(view: HistoryView, overview: HistoryOverview) -> bool {
    view.selected is Some ==> cycle_at(overview.cycles@, view.selected->0) >= 0
}

proof fn lemma_place_is_listed(view: HistoryView, overview: HistoryOverview, now: u64, k: int)
    requires
        0 <= k < view.visible(overview, now).len(),
    ensures
        cycle_at(
            overview.cycles@,
            overview.cycles@[view.visible(overview, now)[k]].cycle_id@,
        ) >= 0,
{
    let places = view.visible(overview, now);
    let cycles = overview.cycles@;
    schedule::lemma_chosen(cycles.len() as int, view.shows(overview, now));
    assert(places.contains(places[k]));
    let wanted = cycle_is(cycles, cycles[places[k]].cycle_id@);
    schedule::lemma_first(cycles.len() as int, wanted);
    assert(wanted(places[k]));
}

proof fn lemma_kept_is_listed(view: HistoryView, overview: HistoryOverview, now: u64)
    requires
        selects_listed(view, overview),
    ensures
        selects_listed(view.kept(overview, now), overview),
{
    if view.visible(overview, now).len() > 0 {
        lemma_place_is_listed(view, overview, now, 0);
    }
}

/// Keys select only cycles of the overview, so a selected cycle is never missing from it.
pub proof fn a_selected_cycle_is_listed(view: HistoryView, data: HistoryData, now: u64, key: Key)
    requires
        selects_listed(view, data.overview),
    ensures
        selects_listed(view.pressed(data, now, key).0, data.overview),
        view.pressed(data, now, key).1 != HistoryStep::Failed(HistoryFailure::MissingCycle),
{
    let overview = data.overview;
    let places = view.visible(overview, now);
    if places.len() > 0 {
        let at = place_of(overview.cycles@, places, view.selected);
        let from = if at >= 0 {
            at
        } else {
            0
        };
        if at >= 0 {
            schedule::lemma_first(
                places.len() as int,
                place_is(overview.cycles@, places, view.selected->0),
            );
        }
        lemma_place_is_listed(
            view,
            overview,
            now,
            terminal_ui::moved(from, 1, places.len() as int),
        );
        lemma_place_is_listed(
            view,
            overview,
            now,
            terminal_ui::moved(from, -1, places.len() as int),
        );
        lemma_place_is_listed(view, overview, now, 0);
        lemma_place_is_listed(view, overview, now, places.len() - 1);
    }
    lemma_kept_is_listed(
        HistoryView { accepted_only: !view.accepted_only, ..view },
        overview,
        now,
    );
    lemma_kept_is_listed(
        HistoryView { verdicts: view.verdicts.toggled('p'), ..view },
        overview,
        now,
    );
    lemma_kept_is_listed(
        HistoryView { verdicts: view.verdicts.toggled('e'), ..view },
        overview,
        now,
    );
    lemma_kept_is_listed(
        HistoryView { verdicts: view.verdicts.toggled('i'), ..view },
        overview,
        now,
    );
    lemma_kept_is_listed(
        HistoryView { verdicts: view.verdicts.toggled('n'), ..view },
        overview,
        now,
    );
    if view.picker is Some {
        let picker = view.picker->0;
        let baselines = overview.baselines@;
        let lineage = if 0 < picker.selected <= baselines.len() {
            Some(baselines[picker.selected - 1].label@)
        } else {
            None
        };
        lemma_kept_is_listed(HistoryView { lineage, ..view }, overview, now);
        lemma_kept_is_listed(
            HistoryView { date_range: date_ranges()[picker.selected as int], ..view },
            overview,
            now,
        );
    }
}

/// An overview opens with one of its cycles selected, or with none where it shows none.
pub proof fn an_overview_opens_on_its_cycles(view: HistoryView, overview: HistoryOverview, now: u64)
    ensures
        selects_listed(opened(view, overview, now), overview),
{
    let first = HistoryView {
        selected: if overview.cycles@.len() > 0 {
            Some(overview.cycles@[0].cycle_id@)
        } else {
            None
        },
        lineage: text::opt(overview.current_baseline_label),
        date_range: DateRange::Last30Days,
        ..view
    };
    let cycles = overview.cycles@;
    if cycles.len() > 0 {
        let wanted = cycle_is(cycles, cycles[0].cycle_id@);
        schedule::lemma_first(cycles.len() as int, wanted);
        assert(wanted(0));
    }
    lemma_kept_is_listed(first, overview, now);
    lemma_kept_is_listed(HistoryView { date_range: DateRange::All, ..first }, overview, now);
}

/// A list keeps its choice among what it offers, whatever keys are pressed in it.
pub proof fn a_choice_stays_in_its_list(view: HistoryView, data: HistoryData, now: u64, key: Key)
    requires
        view.picker is Some,
        view.picker->0.selected < view.offered(data),
        view.offered(data) <= usize::MAX,
    ensures
        ({
            let next = view.pressed(data, now, key).0;
            next.picker is Some ==> next.picker->0.selected < view.offered(data)
                && next.picker->0.kind == view.picker->0.kind
        }),
{
}

} // verus!
