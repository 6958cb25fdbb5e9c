//! The retained artifacts of a cycle: how they are named, and which of them are shown first.

use vstd::prelude::*;
use vstd::string::*;

use crate::browser_lab;
use crate::browser_lab::Engine;
use crate::history::{HistoryArtifact, HistoryArtifactKind};
use crate::paths;
use crate::schedule;
use crate::sidecar_runtime::HostPlatform;
use crate::terminal_ui;
use crate::terminal_ui::Tone;
use crate::text;

verus! {

// Names.

/// The name of what an artifact holds.
pub open spec fn kind_label(kind: HistoryArtifactKind) -> Seq<char> {
    match kind {
        HistoryArtifactKind::CpuProfile => "cpuprofile"@,
        HistoryArtifactKind::Flamegraph => "speedscope"@,
        HistoryArtifactKind::HeapSnapshot => "heapsnapshot"@,
        HistoryArtifactKind::Comparison => "comparison"@,
        HistoryArtifactKind::Sampling => "sampling"@,
    }
}

/// The name of what an artifact holds.
pub fn artifact_kind_label(kind: HistoryArtifactKind) -> (r: &'static str)
    ensures
        r@ == kind_label(kind),
{
    match kind {
        HistoryArtifactKind::CpuProfile => "cpuprofile",
        HistoryArtifactKind::Flamegraph => "speedscope",
        HistoryArtifactKind::HeapSnapshot => "heapsnapshot",
        HistoryArtifactKind::Comparison => "comparison",
        HistoryArtifactKind::Sampling => "sampling",
    }
}

/// What an artifact holds, in a few words.
pub open spec fn kind_detail(kind: HistoryArtifactKind) -> Seq<char> {
    match kind {
        HistoryArtifactKind::CpuProfile => "native cpu"@,
        HistoryArtifactKind::Flamegraph => "flamegraph"@,
        HistoryArtifactKind::HeapSnapshot => "native heap"@,
        HistoryArtifactKind::Comparison => "verdict evidence"@,
        HistoryArtifactKind::Sampling => "pilot + final"@,
    }
}

/// What an artifact holds, in a few words.
pub fn artifact_kind_detail(kind: HistoryArtifactKind) -> (r: &'static str)
    ensures
        r@ == kind_detail(kind),
{
    match kind {
        HistoryArtifactKind::CpuProfile => "native cpu",
        HistoryArtifactKind::Flamegraph => "flamegraph",
        HistoryArtifactKind::HeapSnapshot => "native heap",
        HistoryArtifactKind::Comparison => "verdict evidence",
        HistoryArtifactKind::Sampling => "pilot + final",
    }
}

/// The colour of what an artifact holds.
pub open spec fn kind_tone(kind: HistoryArtifactKind) -> Tone {
    match kind {
        HistoryArtifactKind::HeapSnapshot | HistoryArtifactKind::Sampling => Tone::Amber,
        HistoryArtifactKind::Comparison => Tone::Blue,
        HistoryArtifactKind::CpuProfile | HistoryArtifactKind::Flamegraph => Tone::Cyan,
    }
}

/// The colour of what an artifact holds.
pub fn artifact_tone(kind: HistoryArtifactKind) -> (r: Tone)
    ensures
        r == kind_tone(kind),
{
    match kind {
        HistoryArtifactKind::HeapSnapshot | HistoryArtifactKind::Sampling => Tone::Amber,
        HistoryArtifactKind::Comparison => Tone::Blue,
        HistoryArtifactKind::CpuProfile | HistoryArtifactKind::Flamegraph => Tone::Cyan,
    }
}

/// What is said of an artifact beside its path: what was captured, where that was not the page, and
/// else which trial stands for the others.
pub open spec fn overview_detail(artifact: HistoryArtifact) -> Seq<char> {
    let median = match artifact.kind {
        HistoryArtifactKind::CpuProfile | HistoryArtifactKind::Flamegraph => Some("cpu median"@),
        HistoryArtifactKind::HeapSnapshot => Some("heap median"@),
        HistoryArtifactKind::Comparison | HistoryArtifactKind::Sampling => None,
    };
    match median {
        None => kind_detail(artifact.kind),
        Some(median) => match artifact.capture_scope {
            Some(scope) => if scope@ == "page"@ {
                median
            } else {
                "scope "@ + scope@
            },
            None => median,
        },
    }
}

/// What is said of an artifact beside its path.
pub fn artifact_overview_detail(artifact: &HistoryArtifact) -> (r: String)
    ensures
        r@ == overview_detail(*artifact),
{
    let median = match artifact.kind {
        HistoryArtifactKind::CpuProfile | HistoryArtifactKind::Flamegraph => "cpu median",
        HistoryArtifactKind::HeapSnapshot => "heap median",
        HistoryArtifactKind::Comparison | HistoryArtifactKind::Sampling => {
            return artifact_kind_detail(artifact.kind).to_owned();
        },
    };
    if let Some(scope) = &artifact.capture_scope {
        if !text::same(scope, "page") {
            let mut out = "scope ".to_owned();
            out.append(scope);
            return out;
        }
    }
    median.to_owned()
}

// Paths.

/// A path with `/` between its names, and without the prefix of verbatim paths.
pub open spec fn portable_display(path: Seq<char>) -> Seq<char> {
    let slashed = text::replaced(path, '\\', '/');
    match text::after_prefix(slashed, "//?/UNC/"@) {
        Some(rest) => "//"@ + rest,
        None => match text::after_prefix(slashed, "//?/"@) {
            Some(rest) => rest,
            None => slashed,
        },
    }
}

/// Writes a path with `/` between its names, and without the prefix of verbatim paths.
pub fn portable_display_path(path: &str) -> (r: String)
    ensures
        r@ == portable_display(path@),
{
    let slashed = text::replace(path, '\\', '/');
    if let Some(rest) = text::strip_prefix(&slashed, "//?/UNC/") {
        let mut out = "//".to_owned();
        out.append(&rest);
        return out;
    }
    if let Some(rest) = text::strip_prefix(&slashed, "//?/") {
        return rest;
    }
    slashed
}

/// A text without the slashes at its end.
pub open spec fn without_slashes(s: Seq<char>) -> Seq<char>
    decreases s.len(),
{
    if s.len() > 0 && s.last() == '/' {
        without_slashes(s.drop_last())
    } else {
        s
    }
}

fn trim_slashes(s: &str) -> (r: String)
    ensures
        r@ == without_slashes(s@),
{
    let chars = text::chars_of(s);
    let mut end: usize = chars.len();
    assert(s@.take(s@.len() as int) == s@);
    while end > 0 && chars[end - 1] == '/'
        invariant
            chars@ == s@,
            end <= chars@.len(),
            without_slashes(s@) == without_slashes(s@.take(end as int)),
        decreases end,
    {
        assert(s@.take(end as int).drop_last() == s@.take(end - 1));
        end -= 1;
    }
    assert(end > 0 ==> s@.take(end as int).last() == s@[end - 1]);
    let out = text::text_of(&chars, 0, end);
    assert(s@.subrange(0, end as int) == s@.take(end as int));
    out
}

/// A path begins with another; on Windows whatever the case of its letters.
pub open spec fn begins(path: Seq<char>, root: Seq<char>, platform: HostPlatform) -> bool {
    &&& root.len() <= path.len()
    &&& if platform == HostPlatform::Windows {
        text::lower_cased(path.take(root.len() as int)) == text::lower_cased(root)
    } else {
        path.take(root.len() as int) == root
    }
}

/// A path as it is shown: from a directory, where it lies in it.
pub open spec fn shown_from(path: Seq<char>, root: DisplayRootView) -> Seq<char> {
    let path = portable_display(path);
    let start = without_slashes(portable_display(root.path));
    if begins(path, start, root.platform) && path.len() > start.len() && path[start.len() as int]
        == '/' {
        path.skip(start.len() as int + 1)
    } else {
        path
    }
}

/// The directory that paths are shown from, and the system that it lies on.
#[derive(Clone, Debug)]
pub struct DisplayRoot {
    pub path: String,
    pub platform: HostPlatform,
}

/// The directory that paths are shown from, viewed.
pub struct DisplayRootView {
    pub path: Seq<char>,
    pub platform: HostPlatform,
}

impl View for DisplayRoot {
    type V = DisplayRootView;

    open spec fn view(&self) -> DisplayRootView {
        DisplayRootView { path: self.path@, platform: self.platform }
    }
}

/// Writes a path as it is shown.
pub fn display_path_from(path: &str, root: &DisplayRoot) -> (r: String)
    ensures
        r@ == shown_from(path@, root@),
{
    let path = portable_display_path(path);
    let start = trim_slashes(&portable_display_path(&root.path));
    let chars = text::chars_of(&path);
    let width: usize = terminal_ui::width_of(&start);
    if width >= chars.len() || chars[width] != '/' {
        return path;
    }
    let front = text::text_of(&chars, 0, width);
    assert(path@.subrange(0, width as int) == path@.take(width as int));
    let inside = if root.platform == HostPlatform::Windows {
        text::same(&text::lower_text(&front), &text::lower_text(&start))
    } else {
        text::same(&front, &start)
    };
    if !inside {
        return path;
    }
    let out = text::text_of(&chars, width + 1, chars.len());
    assert(path@.subrange(width + 1, path@.len() as int) == path@.skip(width + 1));
    out
}

/// The directory that artifacts are shown from: the one that holds the data directory `.bperf` of a
/// lineage, else the current one.
pub open spec fn display_root(lineage_root: Seq<char>, current: Seq<char>) -> Seq<char> {
    match paths::parent(lineage_root) {
        None => current,
        Some(data) => match paths::name_of(data) {
            Some(name) => if text::lower_cased(name) == ".bperf"@ {
                match paths::parent(data) {
                    Some(root) => root,
                    None => lineage_root,
                }
            } else {
                current
            },
            None => current,
        },
    }
}

/// The directory that artifacts are shown from.
pub fn artifact_display_root(lineage_root: &str, current: &str) -> (r: String)
    ensures
        r@ == display_root(lineage_root@, current@),
{
    if let Some(data) = paths::parent_path(lineage_root) {
        if let Some(name) = paths::file_name(&data) {
            if text::same(&text::lower_text(&name), ".bperf") {
                return match paths::parent_path(&data) {
                    Some(root) => root,
                    None => lineage_root.to_owned(),
                };
            }
        }
    }
    current.to_owned()
}

/// An artifact in the list that one is opened from.
pub open spec fn picker_label(artifact: HistoryArtifact, root: DisplayRootView) -> Seq<char> {
    let engine = match artifact.engine {
        Some(engine) => browser_lab::engine_name(engine),
        None => "all"@,
    };
    let scope = match artifact.capture_scope {
        Some(scope) => scope@,
        None => ""@,
    };
    terminal_ui::filled(kind_label(artifact.kind), 13) + " "@ + terminal_ui::filled(engine, 9)
        + " "@ + terminal_ui::filled(scope, 16) + " "@ + shown_from(artifact.path@, root)
}

/// An artifact in the list that one is opened from.
pub fn artifact_picker_label(artifact: &HistoryArtifact, root: &DisplayRoot) -> (r: String)
    ensures
        r@ == picker_label(*artifact, root@),
{
    let engine = match artifact.engine {
        Some(engine) => engine.as_str(),
        None => "all",
    };
    let scope = match &artifact.capture_scope {
        Some(scope) => scope.clone(),
        None => "".to_owned(),
    };
    let mut out = terminal_ui::fill(artifact_kind_label(artifact.kind), 13);
    out.append(" ");
    out.append(&terminal_ui::fill(engine, 9));
    out.append(" ");
    out.append(&terminal_ui::fill(&scope, 16));
    out.append(" ");
    out.append(&display_path_from(&artifact.path, root));
    out
}

// Overview.

/// How many artifacts an overview shows at most.
pub const MAX_ROWS: usize = 6;

/// The artifact says how the cycle was decided.
pub open spec fn is_metadata(artifact: HistoryArtifact) -> bool {
    artifact.kind == HistoryArtifactKind::Comparison || artifact.kind
        == HistoryArtifactKind::Sampling
}

/// The artifact at a place says how the cycle was decided.
pub open spec fn metadata_at(artifacts: Seq<HistoryArtifact>) -> spec_fn(int) -> bool {
    |i: int| is_metadata(artifacts[i])
}

/// The artifact at a place is of a kind.
pub open spec fn kind_at(artifacts: Seq<HistoryArtifact>, kind: HistoryArtifactKind) -> spec_fn(
    int,
) -> bool {
    |i: int| artifacts[i].kind == kind
}

/// The artifact at a place is of an engine.
pub open spec fn engine_at(artifacts: Seq<HistoryArtifact>, engine: Engine) -> spec_fn(int) -> bool {
    |i: int| artifacts[i].engine == Some(engine)
}

/// Some places with the first wanted one added, where there is one.
pub open spec fn with_first(places: Seq<int>, n: int, wanted: spec_fn(int) -> bool) -> Seq<int> {
    let i = schedule::first(n, wanted);
    if i < 0 {
        places
    } else {
        places.push(i)
    }
}

/// The first artifact of each native kind.
pub open spec fn of_each_kind(artifacts: Seq<HistoryArtifact>) -> Seq<int> {
    let n = artifacts.len() as int;
    let cpu = with_first(Seq::empty(), n, kind_at(artifacts, HistoryArtifactKind::CpuProfile));
    let flame = with_first(cpu, n, kind_at(artifacts, HistoryArtifactKind::Flamegraph));
    with_first(flame, n, kind_at(artifacts, HistoryArtifactKind::HeapSnapshot))
}

/// Some place holds an artifact of an engine.
pub open spec fn shows_engine(artifacts: Seq<HistoryArtifact>, places: Seq<int>, engine: Engine) -> bool {
    exists|k: int|
        0 <= k < places.len() && artifacts[#[trigger] places[k]].engine == Some(engine)
}

/// Some places with the first artifact of an engine added, where there is room and none of the
/// engine is there yet.
pub open spec fn with_engine(
    artifacts: Seq<HistoryArtifact>,
    places: Seq<int>,
    limit: int,
    engine: Engine,
) -> Seq<int> {
    if places.len() >= limit || shows_engine(artifacts, places, engine) {
        places
    } else {
        with_first(places, artifacts.len() as int, engine_at(artifacts, engine))
    }
}

/// Some place holds an artifact with a path.
pub open spec fn shows_path(artifacts: Seq<HistoryArtifact>, places: Seq<int>, path: Seq<char>) -> bool {
    exists|k: int|
        0 <= k < places.len() && paths::parts(artifacts[#[trigger] places[k]].path@)
            == paths::parts(path)
}

/// Some places with the artifacts of engines before a place added, as far as there is room and their
/// paths are not there yet.
pub open spec fn with_others(
    artifacts: Seq<HistoryArtifact>,
    places: Seq<int>,
    limit: int,
    n: int,
) -> Seq<int>
    decreases n,
{
    if n <= 0 {
        places
    } else {
        let earlier = with_others(artifacts, places, limit, n - 1);
        if earlier.len() < limit && artifacts[n - 1].engine is Some && !shows_path(
            artifacts,
            earlier,
            artifacts[n - 1].path@,
        ) {
            earlier.push(n - 1)
        } else {
            earlier
        }
    }
}

/// The artifacts that say how the cycle was decided.
pub open spec fn metadata(artifacts: Seq<HistoryArtifact>) -> Seq<int> {
    schedule::chosen(artifacts.len() as int, metadata_at(artifacts))
}

/// How many native artifacts are shown at most.
pub open spec fn native_limit(artifacts: Seq<HistoryArtifact>) -> int {
    if metadata(artifacts).len() >= MAX_ROWS {
        0
    } else {
        MAX_ROWS - metadata(artifacts).len()
    }
}

/// The first places, as many as asked for at most.
pub open spec fn at_most(places: Seq<int>, limit: int) -> Seq<int> {
    if places.len() <= limit {
        places
    } else {
        places.take(limit)
    }
}

/// The native artifacts that are shown: the first of each kind, then the first of each engine that
/// is not there yet, then others, as far as there is room.
pub open spec fn native(artifacts: Seq<HistoryArtifact>) -> Seq<int> {
    let limit = native_limit(artifacts);
    let kinds = of_each_kind(artifacts);
    let chromium = with_engine(artifacts, kinds, limit, Engine::Chromium);
    let firefox = with_engine(artifacts, chromium, limit, Engine::Firefox);
    let webkit = with_engine(artifacts, firefox, limit, Engine::Webkit);
    at_most(with_others(artifacts, webkit, limit, artifacts.len() as int), limit)
}

/// The artifacts that are shown: native ones, then those that say how the cycle was decided.
pub open spec fn overview(artifacts: Seq<HistoryArtifact>) -> Seq<int> {
    let first = native(artifacts);
    first + at_most(metadata(artifacts), MAX_ROWS - first.len())
}

fn push_first_kind(
    artifacts: &Vec<HistoryArtifact>,
    places: &mut Vec<usize>,
    kind: HistoryArtifactKind,
)
    requires
        in_bounds(old(places)@, artifacts@.len()),
    ensures
        schedule::ints(final(places)@) == with_first(
            schedule::ints(old(places)@),
            artifacts@.len() as int,
            kind_at(artifacts@, kind),
        ),
        in_bounds(final(places)@, artifacts@.len()),
{
    let ghost wanted = kind_at(artifacts@, kind);
    let ghost before = schedule::ints(places@);
    let mut i: usize = 0;
    while i < artifacts.len()
        invariant
            i <= artifacts@.len(),
            wanted == kind_at(artifacts@, kind),
            before == schedule::ints(places@),
            *places == *old(places),
            in_bounds(places@, artifacts@.len()),
            schedule::first(i as int, wanted) < 0,
        decreases artifacts@.len() - i,
    {
        let found = artifacts[i].kind == kind;
        assert(found == wanted(i as int));
        if found {
            proof {
                schedule::lemma_first_is(artifacts@.len() as int, wanted, i as int);
            }
            places.push(i);
            assert(schedule::ints(places@) == before.push(i as int));
            return ;
        }
        i += 1;
    }
}

/// Every place is one of a list.
pub open spec fn in_bounds(places: Seq<usize>, n: nat) -> bool {
    forall|k: int| 0 <= k < places.len() ==> (#[trigger] places[k]) < n
}

fn has_engine(artifacts: &Vec<HistoryArtifact>, places: &Vec<usize>, engine: Engine) -> (r: bool)
    requires
        in_bounds(places@, artifacts@.len()),
    ensures
        r == shows_engine(artifacts@, schedule::ints(places@), engine),
{
    let ghost all = schedule::ints(places@);
    let mut k: usize = 0;
    while k < places.len()
        invariant
            k <= places@.len(),
            in_bounds(places@, artifacts@.len()),
            all == schedule::ints(places@),
            forall|j: int| 0 <= j < k ==> artifacts@[#[trigger] all[j]].engine != Some(engine),
        decreases places@.len() - k,
    {
        assert(all[k as int] == places@[k as int]);
        if artifacts[places[k]].engine == Some(engine) {
            return true;
        }
        k += 1;
    }
    false
}

fn push_engine(
    artifacts: &Vec<HistoryArtifact>,
    places: &mut Vec<usize>,
    limit: usize,
    engine: Engine,
)
    requires
        in_bounds(old(places)@, artifacts@.len()),
    ensures
        schedule::ints(final(places)@) == with_engine(
            artifacts@,
            schedule::ints(old(places)@),
            limit as int,
            engine,
        ),
        in_bounds(final(places)@, artifacts@.len()),
{
    let ghost before = schedule::ints(places@);
    assert(before.len() == places@.len());
    if places.len() >= limit || has_engine(artifacts, places, engine) {
        return ;
    }
    let ghost wanted = engine_at(artifacts@, engine);
    let mut i: usize = 0;
    while i < artifacts.len()
        invariant
            i <= artifacts@.len(),
            wanted == engine_at(artifacts@, engine),
            before == schedule::ints(places@),
            *places == *old(places),
            before.len() < limit,
            !shows_engine(artifacts@, before, engine),
            in_bounds(places@, artifacts@.len()),
            schedule::first(i as int, wanted) < 0,
        decreases artifacts@.len() - i,
    {
        let found = artifacts[i].engine == Some(engine);
        assert(found == wanted(i as int));
        if found {
            proof {
                schedule::lemma_first_is(artifacts@.len() as int, wanted, i as int);
            }
            places.push(i);
            assert(schedule::ints(places@) == before.push(i as int));
            return ;
        }
        i += 1;
    }
}

fn has_path(artifacts: &Vec<HistoryArtifact>, places: &Vec<usize>, path: &str) -> (r: bool)
    requires
        in_bounds(places@, artifacts@.len()),
    ensures
        r == shows_path(artifacts@, schedule::ints(places@), path@),
{
    let ghost all = schedule::ints(places@);
    let mut k: usize = 0;
    while k < places.len()
        invariant
            k <= places@.len(),
            in_bounds(places@, artifacts@.len()),
            all == schedule::ints(places@),
            forall|j: int|
                0 <= j < k ==> paths::parts(artifacts@[#[trigger] all[j]].path@) != paths::parts(
                    path@,
                ),
        decreases places@.len() - k,
    {
        assert(all[k as int] == places@[k as int]);
        if paths::same_path(&artifacts[places[k]].path, path) {
            return true;
        }
        k += 1;
    }
    false
}

fn push_others(artifacts: &Vec<HistoryArtifact>, places: &mut Vec<usize>, limit: usize)
    requires
        in_bounds(old(places)@, artifacts@.len()),
    ensures
        schedule::ints(final(places)@) == with_others(
            artifacts@,
            schedule::ints(old(places)@),
            limit as int,
            artifacts@.len() as int,
        ),
        in_bounds(final(places)@, artifacts@.len()),
{
    let ghost start = schedule::ints(places@);
    let mut i: usize = 0;
    while i < artifacts.len()
        invariant
            i <= artifacts@.len(),
            schedule::ints(places@) == with_others(artifacts@, start, limit as int, i as int),
            in_bounds(places@, artifacts@.len()),
        decreases artifacts@.len() - i,
    {
        let ghost before = schedule::ints(places@);
        assert(before.len() == places@.len());
        if places.len() < limit && artifacts[i].engine.is_some() && !has_path(
            artifacts,
            places,
            &artifacts[i].path,
        ) {
            places.push(i);
            assert(schedule::ints(places@) == before.push(i as int));
        }
        i += 1;
    }
}

fn find_metadata(artifacts: &Vec<HistoryArtifact>) -> (r: Vec<usize>)
    ensures
        schedule::ints(r@) == metadata(artifacts@),
        in_bounds(r@, artifacts@.len()),
{
    let ghost wanted = metadata_at(artifacts@);
    let mut out: Vec<usize> = Vec::new();
    let mut i: usize = 0;
    assert(schedule::ints(out@) == schedule::chosen(0, wanted));
    while i < artifacts.len()
        invariant
            i <= artifacts@.len(),
            wanted == metadata_at(artifacts@),
            schedule::ints(out@) == schedule::chosen(i as int, wanted),
            in_bounds(out@, artifacts@.len()),
        decreases artifacts@.len() - i,
    {
        let ghost before = schedule::ints(out@);
        let found = artifacts[i].kind == HistoryArtifactKind::Comparison || artifacts[i].kind
            == HistoryArtifactKind::Sampling;
        assert(found == wanted(i as int));
        if found {
            out.push(i);
            assert(schedule::ints(out@) == before.push(i as int));
        }
        i += 1;
    }
    out
}

/// The places of the artifacts that are shown.
pub fn artifact_overview(artifacts: &Vec<HistoryArtifact>) -> (r: Vec<usize>)
    ensures
        schedule::ints(r@) == overview(artifacts@),
        in_bounds(r@, artifacts@.len()),
{
    let deciding = find_metadata(artifacts);
    assert(schedule::ints(deciding@).len() == deciding@.len());
    let limit: usize = if deciding.len() >= MAX_ROWS {
        0
    } else {
        MAX_ROWS - deciding.len()
    };
    let mut places: Vec<usize> = Vec::new();
    assert(schedule::ints(places@) == Seq::<int>::empty());
    push_first_kind(artifacts, &mut places, HistoryArtifactKind::CpuProfile);
    push_first_kind(artifacts, &mut places, HistoryArtifactKind::Flamegraph);
    push_first_kind(artifacts, &mut places, HistoryArtifactKind::HeapSnapshot);
    push_engine(artifacts, &mut places, limit, Engine::Chromium);
    push_engine(artifacts, &mut places, limit, Engine::Firefox);
    push_engine(artifacts, &mut places, limit, Engine::Webkit);
    push_others(artifacts, &mut places, limit);
    let ghost all = schedule::ints(places@);
    assert(all.len() == places@.len());
    if places.len() > limit {
        places.truncate(limit);
        assert(schedule::ints(places@) == all.take(limit as int));
    }
    let ghost first = schedule::ints(places@);
    assert(first == native(artifacts@));
    let room: usize = MAX_ROWS - places.len();
    let ghost last = at_most(metadata(artifacts@), room as int);
    let mut i: usize = 0;
    assert(first + last.take(0) == first);
    while i < deciding.len() && i < room
        invariant
            i <= deciding@.len(),
            i <= room,
            in_bounds(places@, artifacts@.len()),
            in_bounds(deciding@, artifacts@.len()),
            schedule::ints(deciding@) == metadata(artifacts@),
            schedule::ints(deciding@).len() == deciding@.len(),
            last == at_most(metadata(artifacts@), room as int),
            schedule::ints(places@) == first + last.take(i as int),
        decreases deciding@.len() - i,
    {
        let ghost before = schedule::ints(places@);
        places.push(deciding[i]);
        proof {
            assert(schedule::ints(deciding@)[i as int] == deciding@[i as int]);
            assert(schedule::ints(places@) == before.push(deciding@[i as int] as int));
            assert(last.take(i + 1) == last.take(i as int).push(last[i as int]));
        }
        i += 1;
    }
    assert(last.take(last.len() as int) == last);
    places
}

// Laws.

/// An overview shows no more than it has room for, and all that says how the cycle was decided, as
/// far as that alone fits.
pub proof fn an_overview_keeps_what_decided(artifacts: Seq<HistoryArtifact>, i: int)
    requires
        0 <= i < artifacts.len(),
        is_metadata(artifacts[i]),
    ensures
        overview(artifacts).len() <= MAX_ROWS,
        metadata(artifacts).len() <= MAX_ROWS ==> overview(artifacts).contains(i),
{
    let first = native(artifacts);
    let deciding = metadata(artifacts);
    schedule::lemma_chosen(artifacts.len() as int, metadata_at(artifacts));
    assert(metadata_at(artifacts)(i));
    assert(deciding.contains(i));
    let k = choose|k: int| 0 <= k < deciding.len() && deciding[k] == i;
    if deciding.len() <= MAX_ROWS {
        assert(overview(artifacts)[first.len() + k] == i);
    }
}

} // verus!
