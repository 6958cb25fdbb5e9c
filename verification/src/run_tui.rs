//! The screen on which a benchmark is picked: what it lists, and what its keys do.

use vstd::prelude::*;
use vstd::string::*;

use crate::benchmark_preview::{CasePreview, ParsedBenchmark};
use crate::paths;
use crate::paths::PathError;
use crate::schedule;
use crate::terminal_ui;
use crate::terminal_ui::{Key, KeyCode};
use crate::text;

verus! {

// Editors.

/// What an editor changes.
#[derive(Clone, Copy, Debug, Eq, PartialEq, Structural)]
pub enum EditorKind {
    Filter,
    Message,
    Directory,
    Budget,
}

/// A line that is being edited.
#[derive(Clone, Debug)]
pub struct Editor {
    pub kind: EditorKind,
    pub value: String,
    /// Before which character the cursor stands.
    pub cursor: usize,
    pub original_filter: String,
    pub error: Option<String>,
}

/// A line that is being edited, viewed.
pub struct EditorView {
    pub kind: EditorKind,
    pub value: Seq<char>,
    pub cursor: int,
    pub original_filter: Seq<char>,
    pub error: Option<Seq<char>>,
}

impl View for Editor {
    type V = EditorView;

    open spec fn view(&self) -> EditorView {
        EditorView {
            kind: self.kind,
            value: self.value@,
            cursor: self.cursor as int,
            original_filter: self.original_filter@,
            error: text::opt(self.error),
        }
    }
}

impl EditorView {
    /// The cursor stands in the line or at its end.
    pub open spec fn wf(self) -> bool {
        0 <= self.cursor <= self.value.len()
    }

    /// The line after a character was typed.
    pub open spec fn inserted(self, c: char) -> EditorView {
        EditorView {
            value: self.value.take(self.cursor).push(c) + self.value.skip(self.cursor),
            cursor: self.cursor + 1,
            error: None,
            ..self
        }
    }

    /// The line after the character before the cursor was removed.
    pub open spec fn backspaced(self) -> EditorView {
        if self.cursor == 0 {
            self
        } else {
            EditorView {
                value: self.value.take(self.cursor - 1) + self.value.skip(self.cursor),
                cursor: self.cursor - 1,
                error: None,
                ..self
            }
        }
    }

    /// The line after the character at the cursor was removed.
    pub open spec fn deleted(self) -> EditorView {
        if self.cursor >= self.value.len() {
            self
        } else {
            EditorView {
                value: self.value.take(self.cursor) + self.value.skip(self.cursor + 1),
                error: None,
                ..self
            }
        }
    }

    /// The line with the cursor moved.
    pub open spec fn at(self, cursor: int) -> EditorView {
        EditorView { cursor, ..self }
    }
}

/// A fresh editor, with the cursor at the end of the line.
pub open spec fn fresh_editor(
    kind: EditorKind,
    value: Seq<char>,
    filter: Seq<char>,
    error: Option<Seq<char>>,
) -> EditorView {
    EditorView { kind, value, cursor: value.len() as int, original_filter: filter, error }
}

impl Editor {
    /// A fresh editor, with the cursor at the end of the line.
    pub fn new(kind: EditorKind, value: String, original_filter: String) -> (r: Editor)
        ensures
            r@ == fresh_editor(kind, value@, original_filter@, None),
            r@.wf(),
    {
        let cursor: usize = terminal_ui::width_of(&value);
        Editor { kind, value, cursor, original_filter, error: None }
    }

    /// Types a character.
    pub fn insert(&mut self, character: char)
        requires
            old(self)@.wf(),
        ensures
            final(self)@ == old(self)@.inserted(character),
            final(self)@.wf(),
    {
        let chars = text::chars_of(&self.value);
        let mut value = text::text_of(&chars, 0, self.cursor);
        value.push(character);
        value.append(&text::text_of(&chars, self.cursor, chars.len()));
        let width: usize = terminal_ui::width_of(&value);
        proof {
            let all = self.value@;
            assert(all.subrange(0, self.cursor as int) == all.take(self.cursor as int));
            assert(all.subrange(self.cursor as int, all.len() as int) == all.skip(
                self.cursor as int,
            ));
        }
        assert(self.cursor < width);
        self.value = value;
        self.cursor = self.cursor + 1;
        self.error = None;
    }

    /// Removes the character before the cursor.
    pub fn backspace(&mut self)
        requires
            old(self)@.wf(),
        ensures
            final(self)@ == old(self)@.backspaced(),
            final(self)@.wf(),
    {
        if self.cursor == 0 {
            return;
        }
        let chars = text::chars_of(&self.value);
        let mut value = text::text_of(&chars, 0, self.cursor - 1);
        value.append(&text::text_of(&chars, self.cursor, chars.len()));
        proof {
            let all = self.value@;
            assert(all.subrange(0, self.cursor - 1) == all.take(self.cursor - 1));
            assert(all.subrange(self.cursor as int, all.len() as int) == all.skip(
                self.cursor as int,
            ));
        }
        self.value = value;
        self.cursor = self.cursor - 1;
        self.error = None;
    }

    /// Removes the character at the cursor.
    pub fn delete(&mut self)
        requires
            old(self)@.wf(),
        ensures
            final(self)@ == old(self)@.deleted(),
            final(self)@.wf(),
    {
        let chars = text::chars_of(&self.value);
        if self.cursor >= chars.len() {
            return;
        }
        let mut value = text::text_of(&chars, 0, self.cursor);
        value.append(&text::text_of(&chars, self.cursor + 1, chars.len()));
        proof {
            let all = self.value@;
            assert(all.subrange(0, self.cursor as int) == all.take(self.cursor as int));
            assert(all.subrange(self.cursor + 1, all.len() as int) == all.skip(self.cursor + 1));
        }
        self.value = value;
        self.error = None;
    }
}

/// Removing a character that was just typed brings back the line and the cursor.
pub proof fn backspace_undoes_typing(editor: EditorView, c: char)
    requires
        editor.wf(),
    ensures
        editor.inserted(c).backspaced().value == editor.value,
        editor.inserted(c).backspaced().cursor == editor.cursor,
{
    let typed = editor.inserted(c);
    assert(typed.value.take(typed.cursor - 1) == editor.value.take(editor.cursor));
    assert(typed.value.skip(typed.cursor) == editor.value.skip(editor.cursor));
    assert(editor.value.take(editor.cursor) + editor.value.skip(editor.cursor) == editor.value);
}

/// Removing the character after a cursor that was set back does the same as removing it before the
/// cursor was.
pub proof fn delete_before_the_cursor_is_backspace(editor: EditorView)
    requires
        editor.wf(),
        editor.cursor > 0,
    ensures
        editor.at(editor.cursor - 1).deleted().value == editor.backspaced().value,
        editor.at(editor.cursor - 1).deleted().cursor == editor.backspaced().cursor,
{
}

/// A line with a mark where the cursor stands: at its end where the cursor lies beyond it.
pub open spec fn with_cursor(value: Seq<char>, cursor: int) -> Seq<char> {
    let at = if cursor <= value.len() {
        cursor
    } else {
        value.len() as int
    };
    value.take(at).push('█') + value.skip(at)
}

/// Marks where the cursor of a line stands.
pub fn input_with_cursor(value: &str, cursor: usize) -> (r: String)
    ensures
        r@ == with_cursor(value@, cursor as int),
{
    let chars = text::chars_of(value);
    let at: usize = if cursor <= chars.len() {
        cursor
    } else {
        chars.len()
    };
    let mut out = text::text_of(&chars, 0, at);
    out.push('█');
    out.append(&text::text_of(&chars, at, chars.len()));
    assert(value@.subrange(0, at as int) == value@.take(at as int));
    assert(value@.subrange(at as int, value@.len() as int) == value@.skip(at as int));
    out
}

// Modules.

/// The medians of an engine, as the texts that are shown.
#[derive(Clone, Debug)]
pub struct EngineMedians {
    pub engine: crate::browser_lab::Engine,
    /// The wall time alone.
    pub wall_number: Option<String>,
    pub wall: Option<String>,
    pub cpu: Option<String>,
    pub heap: Option<String>,
    pub allocated: Option<String>,
}

/// What is known of a benchmark's runs.
#[derive(Clone, Debug)]
pub struct RunHistory {
    pub cycle_count: u64,
    pub accepted_count: u64,
    pub latest_recorded_at_unix_ms: u64,
    pub latest_outcome: String,
    pub latest_message: Option<String>,
    pub current_baseline_label: Option<String>,
    /// The medians of the latest comparison, where there is one.
    pub medians: Option<Vec<EngineMedians>>,
}

/// A fixture of a module.
#[derive(Clone, Debug)]
pub struct FixturePreview {
    pub source: String,
    /// How large it is, where it is there.
    pub size: Option<String>,
}

/// A benchmark module that can be run.
#[derive(Clone, Debug)]
pub struct BenchmarkModule {
    pub path: String,
    pub relative_path: String,
    pub id: String,
    pub cases: Vec<CasePreview>,
    pub fixtures: Vec<FixturePreview>,
    /// How large the module is.
    pub size: String,
    pub metadata_note: Option<String>,
    pub history: Option<RunHistory>,
}

/// The modules below a directory.
#[derive(Clone, Debug)]
pub struct Catalog {
    pub root: String,
    pub modules: Vec<BenchmarkModule>,
    pub nested_count: usize,
    pub known_case_count: usize,
}

/// A path as it is shown: relative to a root where it lies below it, with slashes.
pub open spec fn shown_path(path: Seq<char>, root: Seq<char>) -> Seq<char> {
    match paths::portable_below(root, path) {
        Ok(relative) => text::replaced(relative, '\\', '/'),
        Err(PathError::Empty) => ""@,
        Err(_) => text::replaced(path, '\\', '/'),
    }
}

/// A path as it is shown.
pub fn display_path(path: &str, root: &str) -> (r: String)
    ensures
        r@ == shown_path(path@, root@),
{
    match paths::relative_path(root, path) {
        Ok(relative) => text::replace(&relative, '\\', '/'),
        Err(PathError::Empty) => "".to_owned(),
        Err(_) => text::replace(path, '\\', '/'),
    }
}

/// Tells whether a file is a benchmark module by its name.
pub fn is_benchmark_name(name: &str) -> (r: bool)
    ensures
        r == text::ends_with(name@, ".bench.ts"@),
{
    text::has_suffix(name, ".bench.ts")
}

/// What a module is called where it does not say it.
pub open spec fn fallback_name(path: Seq<char>) -> Seq<char> {
    match paths::name_of(path) {
        Some(name) => if text::ends_with(name, ".bench.ts"@) {
            name.take(name.len() - ".bench.ts"@.len())
        } else {
            "benchmark"@
        },
        None => "benchmark"@,
    }
}

/// What a module is called where it does not say it.
pub fn fallback_id(path: &str) -> (r: String)
    ensures
        r@ == fallback_name(path@),
{
    proof {
        reveal_strlit(".bench.ts");
    }
    match paths::file_name(path) {
        Some(name) => {
            if is_benchmark_name(&name) {
                let chars = text::chars_of(&name);
                assert(name@.subrange(0, name@.len() - 9) == name@.take(name@.len() - 9));
                return text::text_of(&chars, 0, chars.len() - 9);
            }
            "benchmark".to_owned()
        },
        None => "benchmark".to_owned(),
    }
}

/// Where a benchmark stands last among those that were run.
pub open spec fn run_with(runs: Seq<String>, id: Seq<char>) -> Option<int>
    decreases runs.len(),
{
    if runs.len() == 0 {
        None
    } else if runs.last()@ == id {
        Some(runs.len() - 1)
    } else {
        run_with(runs.drop_last(), id)
    }
}

fn find_run(runs: &Vec<String>, id: &str) -> (r: Option<usize>)
    ensures
        match run_with(runs@, id@) {
            Some(i) => r == Some(i as usize) && 0 <= i < runs@.len(),
            None => r is None,
        },
{
    let mut i: usize = runs.len();
    assert(runs@.take(i as int) == runs@);
    while i > 0
        invariant
            i <= runs@.len(),
            run_with(runs@, id@) == run_with(runs@.take(i as int), id@),
        decreases i,
    {
        i -= 1;
        assert(runs@.take(i + 1).drop_last() == runs@.take(i as int));
        assert(runs@.take(i + 1).last() == runs@[i as int]);
        if text::same(&runs[i], id) {
            return Some(i);
        }
    }
    None
}

/// What a module is called: as it says, or after its file.
pub open spec fn module_name(parsed: ParsedBenchmark, path: Seq<char>) -> Seq<char> {
    match parsed.id {
        Some(id) => id@,
        None => fallback_name(path),
    }
}

/// The run that belongs to a module: that of its name, or else that of its file.
pub open spec fn run_of(
    runs: Seq<String>,
    parsed: ParsedBenchmark,
    path: Seq<char>,
) -> Option<int> {
    match run_with(runs, module_name(parsed, path)) {
        Some(i) => Some(i),
        None => run_with(runs, fallback_name(path)),
    }
}

/// Finds the run that belongs to a module among the names of the benchmarks that were run.
pub fn find_history(runs: &Vec<String>, parsed: &ParsedBenchmark, path: &str) -> (r: Option<usize>)
    ensures
        match run_of(runs@, *parsed, path@) {
            Some(i) => r == Some(i as usize) && 0 <= i < runs@.len(),
            None => r is None,
        },
{
    let fallback = fallback_id(path);
    let own = match &parsed.id {
        Some(id) => find_run(runs, id),
        None => find_run(runs, &fallback),
    };
    match own {
        Some(i) => Some(i),
        None => find_run(runs, &fallback),
    }
}

/// The fixture at each place has the source and the size of that place.
pub open spec fn are_fixtures(
    fixtures: Seq<FixturePreview>,
    sources: Seq<String>,
    sizes: Seq<Option<String>>,
) -> bool {
    &&& fixtures.len() == sources.len()
    &&& forall|i: int|
        0 <= i < fixtures.len() ==> (#[trigger] fixtures[i]).source@ == sources[i]@ && text::opt(
            fixtures[i].size,
        ) == text::opt(sizes[i])
}

impl BenchmarkModule {
    /// The module at a path that declares something, with the sizes of its file and its fixtures
    /// and what is known of its runs.
    pub fn load(
        workspace_root: &str,
        path: String,
        parsed: ParsedBenchmark,
        size: String,
        fixture_sizes: &Vec<Option<String>>,
        history: Option<RunHistory>,
    ) -> (r: BenchmarkModule)
        requires
            fixture_sizes@.len() == parsed.fixtures@.len(),
        ensures
            r.path == path,
            r.relative_path@ == shown_path(path@, workspace_root@),
            r.id@ == module_name(parsed, path@),
            r.cases == parsed.cases,
            are_fixtures(r.fixtures@, parsed.fixtures@, fixture_sizes@),
            r.size == size,
            text::opt(r.metadata_note) == if parsed.literal_definition {
                None
            } else {
                Some("metadata is dynamic; bperf validates it before measurement"@)
            },
            r.history == history,
    {
        let mut fixtures: Vec<FixturePreview> = Vec::new();
        let mut i: usize = 0;
        while i < parsed.fixtures.len()
            invariant
                i <= parsed.fixtures@.len(),
                fixture_sizes@.len() == parsed.fixtures@.len(),
                fixtures@.len() == i,
                forall|j: int|
                    0 <= j < i ==> (#[trigger] fixtures@[j]).source@ == parsed.fixtures@[j]@
                        && text::opt(fixtures@[j].size) == text::opt(fixture_sizes@[j]),
            decreases parsed.fixtures@.len() - i,
        {
            fixtures.push(
                FixturePreview {
                    source: parsed.fixtures[i].clone(),
                    size: text::copy_opt(&fixture_sizes[i]),
                },
            );
            i += 1;
        }
        let relative_path = display_path(&path, workspace_root);
        let id = match parsed.id {
            Some(id) => id,
            None => fallback_id(&path),
        };
        let metadata_note = if parsed.literal_definition {
            None
        } else {
            Some("metadata is dynamic; bperf validates it before measurement".to_owned())
        };
        BenchmarkModule {
            path,
            relative_path,
            id,
            cases: parsed.cases,
            fixtures,
            size,
            metadata_note,
            history,
        }
    }
}

/// Why a directory cannot be scanned.
#[derive(Clone, Copy, Debug, Eq, PartialEq, Structural)]
pub enum ScanError {
    NotADirectory,
    OutsideWorkspace,
}

impl ScanError {
    /// What is said of a directory that cannot be scanned.
    pub fn message(self, root: &str, workspace: &str) -> (r: String)
        ensures
            r@ == match self {
                ScanError::NotADirectory => "benchmark selection requires a directory: "@ + root@,
                ScanError::OutsideWorkspace => "benchmark directory "@ + root@
                    + " is outside the current workspace "@ + workspace@,
            },
    {
        match self {
            ScanError::NotADirectory => {
                let mut out = "benchmark selection requires a directory: ".to_owned();
                out.append(root);
                out
            },
            ScanError::OutsideWorkspace => {
                let mut out = "benchmark directory ".to_owned();
                out.append(root);
                out.append(" is outside the current workspace ");
                out.append(workspace);
                out
            },
        }
    }
}

/// Checks that a place can be scanned: it is a directory of the workspace.
pub fn check_directory(workspace: &str, root: &str, is_directory: bool) -> (r: Result<
    (),
    ScanError,
>)
    ensures
        r == if !is_directory {
            Err::<(), ScanError>(ScanError::NotADirectory)
        } else if !paths::parts(workspace@).is_prefix_of(paths::parts(root@)) {
            Err::<(), ScanError>(ScanError::OutsideWorkspace)
        } else {
            Ok::<(), ScanError>(())
        },
{
    if !is_directory {
        return Err(ScanError::NotADirectory);
    }
    if !paths::begins_with(workspace, root) {
        return Err(ScanError::OutsideWorkspace);
    }
    Ok(())
}

/// When a module was last run; zero where it never was.
pub open spec fn last_run(module: BenchmarkModule) -> u64 {
    match module.history {
        Some(history) => history.latest_recorded_at_unix_ms,
        None => 0,
    }
}

/// One module comes before another: by when it was last run, the latest first, then by name, then
/// by path.
pub open spec fn listed_before(a: BenchmarkModule, b: BenchmarkModule) -> bool {
    ||| last_run(a) > last_run(b)
    ||| (last_run(a) == last_run(b) && text::precedes(a.id@, b.id@))
    ||| (last_run(a) == last_run(b) && a.id@ == b.id@ && paths::parts_before(
        paths::parts(a.path@),
        paths::parts(b.path@),
    ))
}

fn comes_before(a: &BenchmarkModule, b: &BenchmarkModule) -> (r: bool)
    ensures
        r == listed_before(*a, *b),
{
    let x: u64 = match &a.history {
        Some(history) => history.latest_recorded_at_unix_ms,
        None => 0,
    };
    let y: u64 = match &b.history {
        Some(history) => history.latest_recorded_at_unix_ms,
        None => 0,
    };
    x > y || (x == y && text::before(&a.id, &b.id)) || (x == y && text::same(&a.id, &b.id)
        && paths::path_before(&a.path, &b.path))
}

proof fn lemma_listed_before(a: BenchmarkModule, b: BenchmarkModule, c: BenchmarkModule)
    ensures
        !listed_before(b, a) && !listed_before(c, b) ==> !listed_before(c, a),
        listed_before(a, b) ==> !listed_before(b, a),
{
    text::lemma_precedes_total(a.id@, b.id@);
    text::lemma_precedes_total(b.id@, c.id@);
    text::lemma_precedes_total(a.id@, c.id@);
    if text::precedes(a.id@, b.id@) && text::precedes(b.id@, c.id@) {
        text::lemma_precedes_transitive(a.id@, b.id@, c.id@);
    }
    let x = paths::parts(a.path@);
    let y = paths::parts(b.path@);
    let z = paths::parts(c.path@);
    paths::lemma_parts_before_total(x, y);
    paths::lemma_parts_before_total(y, z);
    paths::lemma_parts_before_total(x, z);
    if paths::parts_before(x, y) && paths::parts_before(y, z) {
        paths::lemma_parts_before_transitive(x, y, z);
    }
}

/// No module comes before one that is listed earlier.
pub open spec fn in_list_order(modules: Seq<BenchmarkModule>) -> bool {
    forall|i: int, j: int|
        0 <= i < j < modules.len() ==> !listed_before(#[trigger] modules[j], #[trigger] modules[i])
}

/// How many of the first `n` modules lie deeper than a directory.
pub open spec fn nested(modules: Seq<BenchmarkModule>, root: Seq<char>, n: int) -> int
    decreases n,
{
    if n <= 0 {
        0
    } else {
        nested(modules, root, n - 1) + if is_nested(modules[n - 1], root) {
            1int
        } else {
            0
        }
    }
}

/// The module does not lie in the directory itself.
pub open spec fn is_nested(module: BenchmarkModule, root: Seq<char>) -> bool {
    match paths::parent(module.path@) {
        Some(parent) => paths::parts(parent) != paths::parts(root),
        None => true,
    }
}

/// How many cases the first `n` modules declare.
pub open spec fn case_total(modules: Seq<BenchmarkModule>, n: int) -> int
    decreases n,
{
    if n <= 0 {
        0
    } else {
        case_total(modules, n - 1) + modules[n - 1].cases@.len()
    }
}

proof fn lemma_case_total(modules: Seq<BenchmarkModule>, n: int, m: int)
    requires
        0 <= n <= m <= modules.len(),
    ensures
        0 <= case_total(modules, n) <= case_total(modules, m),
    decreases m,
{
    if n < m {
        lemma_case_total(modules, n, m - 1);
    } else if n > 0 {
        lemma_case_total(modules, n - 1, n - 1);
    }
}

impl Catalog {
    /// The catalog of some modules of a directory: those that were run last come first.
    pub fn new(root: String, modules: Vec<BenchmarkModule>) -> (r: Catalog)
        requires
            case_total(modules@, modules@.len() as int) <= usize::MAX,
        ensures
            r.root == root,
            in_list_order(r.modules@),
            r.modules@.to_multiset() == modules@.to_multiset(),
            r.nested_count == nested(modules@, root@, modules@.len() as int),
            r.known_case_count == case_total(modules@, modules@.len() as int),
    {
        let ghost given = modules@;
        let mut nested_count: usize = 0;
        let mut known_case_count: usize = 0;
        let mut i: usize = 0;
        while i < modules.len()
            invariant
                i <= modules@.len(),
                nested_count <= i,
                case_total(modules@, modules@.len() as int) <= usize::MAX,
                nested_count == nested(modules@, root@, i as int),
                known_case_count == case_total(modules@, i as int),
            decreases modules@.len() - i,
        {
            proof {
                lemma_case_total(modules@, i + 1, modules@.len() as int);
            }
            let deeper = match paths::parent_path(&modules[i].path) {
                Some(parent) => !paths::same_path(&parent, &root),
                None => true,
            };
            if deeper {
                nested_count += 1;
            }
            known_case_count = known_case_count + modules[i].cases.len();
            i += 1;
        }
        let mut left = modules;
        let mut sorted: Vec<BenchmarkModule> = Vec::new();
        assert(sorted@ + left@ == given);
        while left.len() > 0
            invariant
                in_list_order(sorted@),
                (sorted@ + left@).to_multiset() == given.to_multiset(),
            decreases left@.len(),
        {
            let ghost rest = left@;
            let ghost before = sorted@;
            let module = left.remove(0);
            let mut at: usize = 0;
            while at < sorted.len() && !comes_before(&module, &sorted[at])
                invariant
                    at <= sorted@.len(),
                    forall|j: int|
                        0 <= j < at ==> !listed_before(module, #[trigger] sorted@[j]),
                decreases sorted@.len() - at,
            {
                at += 1;
            }
            sorted.insert(at, module);
            proof {
                broadcast use vstd::seq_lib::group_to_multiset_ensures;

                assert forall|i: int, j: int| 0 <= i < j < sorted@.len() implies !listed_before(
                    #[trigger] sorted@[j],
                    #[trigger] sorted@[i],
                ) by {
                    if i < at && j < at {
                        assert(sorted@[i] == before[i] && sorted@[j] == before[j]);
                    } else if i < at && j > at {
                        assert(sorted@[i] == before[i] && sorted@[j] == before[j - 1]);
                    } else if i > at {
                        assert(sorted@[i] == before[i - 1] && sorted@[j] == before[j - 1]);
                    } else if j == at {
                        assert(sorted@[i] == before[i]);
                    } else {
                        assert(sorted@[j] == before[j - 1]);
                        lemma_listed_before(module, before[at as int], before[j - 1]);
                    }
                }
                assert(before + rest == (before + seq![module]) + left@);
                assert(sorted@.to_multiset() =~= before.to_multiset().insert(module));
                assert((before + seq![module]).to_multiset() =~= before.to_multiset().insert(
                    module,
                )) by {
                    assert(before + seq![module] == before.push(module));
                }
                vstd::seq_lib::lemma_multiset_commutative(sorted@, left@);
                vstd::seq_lib::lemma_multiset_commutative(before + seq![module], left@);
            }
        }
        assert(sorted@ + left@ == sorted@);
        Catalog { root, modules: sorted, nested_count, known_case_count }
    }
}

// Picking.

/// How long a run may take.
#[derive(Clone, Debug)]
pub struct Budget {
    /// As it is written.
    pub text: String,
    pub milliseconds: u64,
}

/// The benchmark that was picked.
#[derive(Clone, Debug)]
pub struct Selection {
    pub benchmark: String,
    pub message: Option<String>,
    pub budget: Budget,
}

/// The state of the screen.
#[derive(Clone, Debug)]
pub struct App {
    pub workspace_root: String,
    pub catalog: Catalog,
    pub selected_path: Option<String>,
    pub filter: String,
    pub message: Option<String>,
    pub budget: Budget,
    pub editor: Option<Editor>,
    pub notice: Option<String>,
    pub selection: Option<Selection>,
}

/// What a key asks for.
#[derive(Clone, Debug)]
pub enum PickerStep {
    Continue,
    Quit,
    /// Scan a directory; `value` is what was typed.
    Scan { requested: String, value: String },
    /// Read a budget; `value` is what was typed.
    ReadBudget { requested: String, value: String },
}

/// What a key asks for, viewed.
pub enum PickerStepView {
    Continue,
    Quit,
    Scan(Seq<char>, Seq<char>),
    ReadBudget(Seq<char>, Seq<char>),
}

impl View for PickerStep {
    type V = PickerStepView;

    open spec fn view(&self) -> PickerStepView {
        match self {
            PickerStep::Continue => PickerStepView::Continue,
            PickerStep::Quit => PickerStepView::Quit,
            PickerStep::Scan { requested, value } => PickerStepView::Scan(requested@, value@),
            PickerStep::ReadBudget { requested, value } => PickerStepView::ReadBudget(
                requested@,
                value@,
            ),
        }
    }
}

/// A budget, viewed: as it is written, and in milliseconds.
pub open spec fn budget_view(budget: Budget) -> (Seq<char>, u64) {
    (budget.text@, budget.milliseconds)
}

/// The part of the screen's state that keys change.
pub struct PickerView {
    pub selected: Option<Seq<char>>,
    pub filter: Seq<char>,
    pub message: Option<Seq<char>>,
    pub budget: (Seq<char>, u64),
    pub editor: Option<EditorView>,
    pub notice: Option<Seq<char>>,
    pub selection: Option<(Seq<char>, Option<Seq<char>>, (Seq<char>, u64))>,
}

impl View for App {
    type V = PickerView;

    open spec fn view(&self) -> PickerView {
        PickerView {
            selected: text::opt(self.selected_path),
            filter: self.filter@,
            message: text::opt(self.message),
            budget: budget_view(self.budget),
            editor: match self.editor {
                Some(editor) => Some(editor@),
                None => None,
            },
            notice: text::opt(self.notice),
            selection: match self.selection {
                Some(selection) => Some(
                    (
                        selection.benchmark@,
                        text::opt(selection.message),
                        budget_view(selection.budget),
                    ),
                ),
                None => None,
            },
        }
    }
}

/// The module matches a filter: its name or its path holds it, whatever the case of letters.
pub open spec fn matches_filter(module: BenchmarkModule, filter: Seq<char>) -> bool {
    let needle = text::lower_cased(text::trimmed(filter));
    ||| needle.len() == 0
    ||| text::includes(text::lower_cased(module.id@), needle)
    ||| text::includes(text::lower_cased(module.relative_path@), needle)
}

/// The modules that match a filter.
pub open spec fn visible(modules: Seq<BenchmarkModule>, filter: Seq<char>) -> Seq<int> {
    schedule::chosen(modules.len() as int, |i: int| matches_filter(modules[i], filter))
}

/// Where a module with a path stands among some places; minus one where it does not.
pub open spec fn place_of(modules: Seq<BenchmarkModule>, places: Seq<int>, path: Option<Seq<char>>) -> int
    decreases places.len(),
{
    if places.len() == 0 || path is None {
        -1
    } else if place_of(modules, places.drop_last(), path) >= 0 {
        place_of(modules, places.drop_last(), path)
    } else if modules[places.last()].path@ == path->0 {
        places.len() - 1
    } else {
        -1
    }
}

impl PickerView {
    /// The selection as it is kept while it is visible: else the first visible module is selected.
    pub open spec fn kept(self, modules: Seq<BenchmarkModule>) -> PickerView {
        let places = visible(modules, self.filter);
        if place_of(modules, places, self.selected) >= 0 {
            self
        } else {
            PickerView {
                selected: if places.len() > 0 {
                    Some(modules[places[0]].path@)
                } else {
                    None
                },
                ..self
            }
        }
    }

    /// The selection moved some steps through the visible modules.
    pub open spec fn stepped(self, modules: Seq<BenchmarkModule>, delta: int) -> PickerView {
        let places = visible(modules, self.filter);
        if places.len() == 0 {
            PickerView { selected: None, ..self }
        } else {
            let at = place_of(modules, places, self.selected);
            let from = if at >= 0 {
                at
            } else {
                0
            };
            let next = terminal_ui::moved(from, delta, places.len() as int);
            PickerView {
                selected: Some(modules[places[next]].path@),
                notice: None,
                ..self
            }
        }
    }

    /// The first or the last visible module selected.
    pub open spec fn at_edge(self, modules: Seq<BenchmarkModule>, end: bool) -> PickerView {
        let places = visible(modules, self.filter);
        PickerView {
            selected: if places.len() == 0 {
                None
            } else if end {
                Some(modules[places.last()].path@)
            } else {
                Some(modules[places[0]].path@)
            },
            notice: None,
            ..self
        }
    }

    /// An editor opened.
    pub open spec fn editing(self, kind: EditorKind, root: Seq<char>, workspace: Seq<char>) -> PickerView {
        let value = match kind {
            EditorKind::Filter => self.filter,
            EditorKind::Message => match self.message {
                Some(message) => message,
                None => ""@,
            },
            EditorKind::Directory => shown_path(root, workspace),
            EditorKind::Budget => self.budget.0,
        };
        PickerView {
            editor: Some(fresh_editor(kind, value, self.filter, None)),
            notice: None,
            ..self
        }
    }

    /// A filter that is being edited applied.
    pub open spec fn synced(self, modules: Seq<BenchmarkModule>) -> PickerView {
        match self.editor {
            Some(editor) => if editor.kind == EditorKind::Filter {
                PickerView { filter: editor.value, ..self }.kept(modules)
            } else {
                self
            },
            None => self,
        }
    }

    /// Some module with the selected path is listed.
    pub open spec fn has_selected(self, modules: Seq<BenchmarkModule>) -> bool {
        self.selected is Some && exists|i: int|
            0 <= i < modules.len() && (#[trigger] modules[i]).path@ == self.selected->0
    }

    /// What is edited submitted.
    pub open spec fn submitted(self, modules: Seq<BenchmarkModule>) -> (PickerView, PickerStepView) {
        match self.editor {
            None => (self, PickerStepView::Continue),
            Some(editor) => {
                let closed = PickerView { editor: None, ..self };
                match editor.kind {
                    EditorKind::Filter => (
                        PickerView { filter: editor.value, ..closed }.kept(modules),
                        PickerStepView::Continue,
                    ),
                    EditorKind::Message => if !self.has_selected(modules) {
                        (
                            PickerView {
                                notice: Some("no benchmark module is selected"@),
                                ..closed
                            },
                            PickerStepView::Continue,
                        )
                    } else {
                        let trimmed = text::trimmed(editor.value);
                        let message = if trimmed.len() == 0 {
                            None
                        } else {
                            Some(trimmed)
                        };
                        (
                            PickerView {
                                message,
                                selection: Some((self.selected->0, message, self.budget)),
                                ..closed
                            },
                            PickerStepView::Quit,
                        )
                    },
                    EditorKind::Directory => (
                        closed,
                        PickerStepView::Scan(text::trimmed(editor.value), editor.value),
                    ),
                    EditorKind::Budget => (
                        closed,
                        PickerStepView::ReadBudget(text::trimmed(editor.value), editor.value),
                    ),
                }
            },
        }
    }

    /// A key pressed in an editor.
    pub open spec fn typed(self, editor: EditorView, modules: Seq<BenchmarkModule>, key: Key) -> (
        PickerView,
        PickerStepView,
    ) {
        let next = match key.code {
            KeyCode::Esc => {
                let closed = PickerView { editor: None, ..self };
                if editor.kind == EditorKind::Filter {
                    PickerView { filter: editor.original_filter, ..closed }.kept(modules)
                } else {
                    closed
                }
            },
            KeyCode::Left => PickerView {
                editor: Some(
                    editor.at(
                        if editor.cursor > 0 {
                            editor.cursor - 1
                        } else {
                            0
                        },
                    ),
                ),
                ..self
            },
            KeyCode::Right => PickerView {
                editor: Some(
                    editor.at(
                        if editor.cursor < editor.value.len() {
                            editor.cursor + 1
                        } else {
                            editor.value.len() as int
                        },
                    ),
                ),
                ..self
            },
            KeyCode::Home => PickerView { editor: Some(editor.at(0)), ..self },
            KeyCode::End => PickerView { editor: Some(editor.at(editor.value.len() as int)), ..self },
            KeyCode::Backspace => PickerView { editor: Some(editor.backspaced()), ..self }.synced(
                modules,
            ),
            KeyCode::Delete => PickerView { editor: Some(editor.deleted()), ..self }.synced(modules),
            KeyCode::Char(c) => if !key.control && !key.alt {
                PickerView { editor: Some(editor.inserted(c)), ..self }.synced(modules)
            } else {
                self
            },
            _ => self,
        };
        if key.code == KeyCode::Enter {
            self.submitted(modules)
        } else {
            (next, PickerStepView::Continue)
        }
    }

    /// A key pressed.
    pub open spec fn pressed(
        self,
        modules: Seq<BenchmarkModule>,
        root: Seq<char>,
        workspace: Seq<char>,
        key: Key,
    ) -> (PickerView, PickerStepView) {
        if terminal_ui::interrupts(key) {
            (self, PickerStepView::Quit)
        } else if self.editor is Some {
            self.typed(self.editor->0, modules, key)
        } else {
            match key.code {
                KeyCode::Esc | KeyCode::Char('q') | KeyCode::Char('Q') => (
                    self,
                    PickerStepView::Quit,
                ),
                KeyCode::Up | KeyCode::Char('k') | KeyCode::Char('K') => (
                    self.stepped(modules, -1),
                    PickerStepView::Continue,
                ),
                KeyCode::Down | KeyCode::Char('j') | KeyCode::Char('J') => (
                    self.stepped(modules, 1),
                    PickerStepView::Continue,
                ),
                KeyCode::Home => (self.at_edge(modules, false), PickerStepView::Continue),
                KeyCode::End => (self.at_edge(modules, true), PickerStepView::Continue),
                KeyCode::Char('/') => (
                    self.editing(EditorKind::Filter, root, workspace),
                    PickerStepView::Continue,
                ),
                KeyCode::Enter | KeyCode::Char('m') | KeyCode::Char('M') => (
                    if self.has_selected(modules) {
                        self.editing(EditorKind::Message, root, workspace)
                    } else {
                        PickerView { notice: Some("no benchmark module is selected"@), ..self }
                    },
                    PickerStepView::Continue,
                ),
                KeyCode::Char('b') | KeyCode::Char('B') => (
                    self.editing(EditorKind::Budget, root, workspace),
                    PickerStepView::Continue,
                ),
                KeyCode::Char('d') | KeyCode::Char('D') => (
                    self.editing(EditorKind::Directory, root, workspace),
                    PickerStepView::Continue,
                ),
                KeyCode::Char('e') | KeyCode::Char('E') => (
                    PickerView {
                        notice: Some(
                            "managed runs capture chromium, firefox, and webkit together"@,
                        ),
                        ..self
                    },
                    PickerStepView::Continue,
                ),
                _ => (self, PickerStepView::Continue),
            }
        }
    }
}

fn filter_matches(module: &BenchmarkModule, needle: &str, filter: &str) -> (r: bool)
    requires
        needle@ == text::lower_cased(text::trimmed(filter@)),
    ensures
        r == matches_filter(*module, filter@),
{
    needle.is_empty() || text::contains_text(&text::lower_text(&module.id), needle)
        || text::contains_text(&text::lower_text(&module.relative_path), needle)
}

impl App {
    /// Opens the screen on a catalog, with its first module selected.
    pub fn load(
        workspace_root: String,
        catalog: Catalog,
        message: Option<String>,
        budget: Budget,
    ) -> (r: App)
        ensures
            r.workspace_root == workspace_root,
            r.catalog == catalog,
            r@ == (PickerView {
                selected: if catalog.modules@.len() > 0 {
                    Some(catalog.modules@[0].path@)
                } else {
                    None
                },
                filter: ""@,
                message: text::opt(message),
                budget: budget_view(budget),
                editor: None,
                notice: None,
                selection: None,
            }),
    {
        let selected_path = if catalog.modules.len() > 0 {
            Some(catalog.modules[0].path.clone())
        } else {
            None
        };
        App {
            workspace_root,
            catalog,
            selected_path,
            filter: "".to_owned(),
            message,
            budget,
            editor: None,
            notice: None,
            selection: None,
        }
    }

    /// The editor's cursor stands in its line.
    pub open spec fn wf(self) -> bool {
        self@.editor is Some ==> self@.editor->0.wf()
    }

    /// The places of the modules that match the filter.
    pub fn visible_indices(&self) -> (r: Vec<usize>)
        ensures
            schedule::ints(r@) == visible(self.catalog.modules@, self.filter@),
            forall|k: int| 0 <= k < r@.len() ==> (#[trigger] r@[k]) < self.catalog.modules@.len(),
    {
        let modules = &self.catalog.modules;
        let needle = text::lower_text(&text::trim(&self.filter));
        let ghost wanted = |i: int| matches_filter(modules@[i], self.filter@);
        let mut out: Vec<usize> = Vec::new();
        let mut i: usize = 0;
        assert(schedule::ints(out@) == schedule::chosen(0, wanted));
        while i < modules.len()
            invariant
                i <= modules@.len(),
                *modules == self.catalog.modules,
                needle@ == text::lower_cased(text::trimmed(self.filter@)),
                wanted == (|i: int| matches_filter(modules@[i], self.filter@)),
                schedule::ints(out@) == schedule::chosen(i as int, wanted),
                forall|k: int| 0 <= k < out@.len() ==> (#[trigger] out@[k]) < i,
            decreases modules@.len() - i,
        {
            let ghost before = schedule::ints(out@);
            let shown = filter_matches(&modules[i], &needle, &self.filter);
            assert(shown == wanted(i as int));
            if shown {
                out.push(i);
                assert(schedule::ints(out@) == before.push(i as int));
            }
            i += 1;
        }
        out
    }

    fn position(&self, places: &Vec<usize>) -> (r: Option<usize>)
        requires
            forall|k: int|
                0 <= k < places@.len() ==> (#[trigger] places@[k]) < self.catalog.modules@.len(),
        ensures
            ({
                let at = place_of(
                    self.catalog.modules@,
                    schedule::ints(places@),
                    text::opt(self.selected_path),
                );
                match r {
                    Some(k) => at == k && k < places@.len(),
                    None => at < 0,
                }
            }),
    {
        let ghost modules = self.catalog.modules@;
        let ghost all = schedule::ints(places@);
        let selected = match &self.selected_path {
            None => {
                return None;
            },
            Some(selected) => selected,
        };
        let mut k: usize = 0;
        assert(all.take(0).len() == 0);
        while k < places.len()
            invariant
                k <= places@.len(),
                modules == self.catalog.modules@,
                all == schedule::ints(places@),
                self.selected_path == Some(*selected),
                forall|k: int|
                    0 <= k < places@.len() ==> (#[trigger] places@[k])
                        < self.catalog.modules@.len(),
                place_of(modules, all.take(k as int), text::opt(self.selected_path)) < 0,
            decreases places@.len() - k,
        {
            assert(all.take(k + 1).drop_last() == all.take(k as int));
            assert(all.take(k + 1).last() == places@[k as int]);
            if text::same(&self.catalog.modules[places[k]].path, selected) {
                proof {
                    lemma_place_of(
                        modules,
                        all,
                        text::opt(self.selected_path),
                        k + 1,
                        all.len() as int,
                    );
                    assert(all.take(all.len() as int) == all);
                }
                return Some(k);
            }
            k += 1;
        }
        assert(all.take(all.len() as int) == all);
        None
    }

    /// Some module with the selected path is listed.
    pub fn has_selected_module(&self) -> (r: bool)
        ensures
            r == self@.has_selected(self.catalog.modules@),
    {
        match &self.selected_path {
            None => false,
            Some(selected) => {
                let modules = &self.catalog.modules;
                let mut i: usize = 0;
                while i < modules.len()
                    invariant
                        i <= modules@.len(),
                        *modules == self.catalog.modules,
                        self.selected_path == Some(*selected),
                        forall|j: int|
                            0 <= j < i ==> (#[trigger] modules@[j]).path@ != selected@,
                    decreases modules@.len() - i,
                {
                    if text::same(&modules[i].path, selected) {
                        return true;
                    }
                    i += 1;
                }
                false
            },
        }
    }

    /// The module that is selected.
    pub fn selected_module(&self) -> (r: Option<&BenchmarkModule>)
        ensures
            match r {
                Some(module) => self@.selected == Some(module.path@)
                    && self.catalog.modules@.contains(*module),
                None => !self@.has_selected(self.catalog.modules@),
            },
    {
        match &self.selected_path {
            None => None,
            Some(selected) => {
                let modules = &self.catalog.modules;
                let mut i: usize = 0;
                while i < modules.len()
                    invariant
                        i <= modules@.len(),
                        *modules == self.catalog.modules,
                        self.selected_path == Some(*selected),
                        forall|j: int|
                            0 <= j < i ==> (#[trigger] modules@[j]).path@ != selected@,
                    decreases modules@.len() - i,
                {
                    if text::same(&modules[i].path, selected) {
                        assert(modules@[i as int].path@ == selected@);
                        return Some(&modules[i]);
                    }
                    i += 1;
                }
                None
            },
        }
    }

    fn ensure_selection(&mut self)
        ensures
            final(self)@ == old(self)@.kept(old(self).catalog.modules@),
            final(self).catalog == old(self).catalog,
            final(self).workspace_root == old(self).workspace_root,
    {
        let places = self.visible_indices();
        assert(schedule::ints(places@).len() == places@.len());
        if self.position(&places).is_none() {
            self.selected_path = if places.len() > 0 {
                assert(schedule::ints(places@)[0] == places@[0]);
                Some(self.catalog.modules[places[0]].path.clone())
            } else {
                None
            };
        }
    }

    fn move_selection(&mut self, delta: isize)
        ensures
            final(self)@ == old(self)@.stepped(old(self).catalog.modules@, delta as int),
            final(self).catalog == old(self).catalog,
            final(self).workspace_root == old(self).workspace_root,
    {
        let places = self.visible_indices();
        assert(schedule::ints(places@).len() == places@.len());
        if places.len() == 0 {
            self.selected_path = None;
            return;
        }
        let current: usize = match self.position(&places) {
            Some(at) => at,
            None => 0,
        };
        let next: usize = terminal_ui::offset_index(current, delta, places.len());
        proof {
            terminal_ui::a_move_stays_in_the_list(
                current as int,
                delta as int,
                places@.len() as int,
            );
            assert(schedule::ints(places@)[next as int] == places@[next as int]);
        }
        self.selected_path = Some(self.catalog.modules[places[next]].path.clone());
        self.notice = None;
    }

    fn select_edge(&mut self, end: bool)
        ensures
            final(self)@ == old(self)@.at_edge(old(self).catalog.modules@, end),
            final(self).catalog == old(self).catalog,
            final(self).workspace_root == old(self).workspace_root,
    {
        let places = self.visible_indices();
        assert(schedule::ints(places@).len() == places@.len());
        self.selected_path = if places.len() == 0 {
            None
        } else {
            let k: usize = if end {
                places.len() - 1
            } else {
                0
            };
            assert(schedule::ints(places@)[k as int] == places@[k as int]);
            Some(self.catalog.modules[places[k]].path.clone())
        };
        self.notice = None;
    }

    fn open_editor(&mut self, kind: EditorKind)
        ensures
            final(self)@ == old(self)@.editing(
                kind,
                old(self).catalog.root@,
                old(self).workspace_root@,
            ),
            final(self).wf(),
            final(self).catalog == old(self).catalog,
            final(self).workspace_root == old(self).workspace_root,
    {
        let value = match kind {
            EditorKind::Filter => self.filter.clone(),
            EditorKind::Message => match &self.message {
                Some(message) => message.clone(),
                None => "".to_owned(),
            },
            EditorKind::Directory => display_path(&self.catalog.root, &self.workspace_root),
            EditorKind::Budget => self.budget.text.clone(),
        };
        self.editor = Some(Editor::new(kind, value, self.filter.clone()));
        self.notice = None;
    }

    fn sync_filter_editor(&mut self)
        requires
            old(self).wf(),
        ensures
            final(self)@ == old(self)@.synced(old(self).catalog.modules@),
            final(self).wf(),
            final(self).catalog == old(self).catalog,
            final(self).workspace_root == old(self).workspace_root,
    {
        let value = match &self.editor {
            Some(editor) => {
                if editor.kind != EditorKind::Filter {
                    return;
                }
                editor.value.clone()
            },
            None => {
                return;
            },
        };
        self.filter = value;
        self.ensure_selection();
    }

    fn submit_editor(&mut self) -> (r: PickerStep)
        requires
            old(self).wf(),
        ensures
            ({
                let (view, step) = old(self)@.submitted(old(self).catalog.modules@);
                final(self)@ == view && r@ == step
            }),
            final(self).wf(),
            final(self).catalog == old(self).catalog,
            final(self).workspace_root == old(self).workspace_root,
    {
        let editor = match self.editor.take() {
            Some(editor) => editor,
            None => {
                return PickerStep::Continue;
            },
        };
        match editor.kind {
            EditorKind::Filter => {
                self.filter = editor.value;
                self.ensure_selection();
                PickerStep::Continue
            },
            EditorKind::Message => {
                if !self.has_selected_module() {
                    self.notice = Some("no benchmark module is selected".to_owned());
                    return PickerStep::Continue;
                }
                let trimmed = text::trim(&editor.value);
                let message: Option<String> = if trimmed.as_str().is_empty() {
                    None
                } else {
                    Some(trimmed)
                };
                let benchmark = match &self.selected_path {
                    Some(path) => path.clone(),
                    None => {
                        return PickerStep::Continue;
                    },
                };
                self.message = text::copy_opt(&message);
                self.selection = Some(
                    Selection {
                        benchmark,
                        message,
                        budget: Budget {
                            text: self.budget.text.clone(),
                            milliseconds: self.budget.milliseconds,
                        },
                    },
                );
                PickerStep::Quit
            },
            EditorKind::Directory => PickerStep::Scan {
                requested: text::trim(&editor.value),
                value: editor.value,
            },
            EditorKind::Budget => PickerStep::ReadBudget {
                requested: text::trim(&editor.value),
                value: editor.value,
            },
        }
    }

    fn handle_editor_key(&mut self, key: Key) -> (r: PickerStep)
        requires
            old(self).wf(),
            old(self).editor is Some,
        ensures
            ({
                let (view, step) = old(self)@.typed(
                    old(self)@.editor->0,
                    old(self).catalog.modules@,
                    key,
                );
                final(self)@ == view && r@ == step
            }),
            final(self).wf(),
            final(self).catalog == old(self).catalog,
            final(self).workspace_root == old(self).workspace_root,
    {
        if key.code == KeyCode::Enter {
            return self.submit_editor();
        }
        let mut editor = match self.editor.take() {
            Some(editor) => editor,
            None => {
                return PickerStep::Continue;
            },
        };
        match key.code {
            KeyCode::Esc => {
                if editor.kind == EditorKind::Filter {
                    self.filter = editor.original_filter;
                    self.ensure_selection();
                }
            },
            KeyCode::Left => {
                if editor.cursor > 0 {
                    editor.cursor = editor.cursor - 1;
                }
                self.editor = Some(editor);
            },
            KeyCode::Right => {
                let width: usize = terminal_ui::width_of(&editor.value);
                editor.cursor = if editor.cursor < width {
                    editor.cursor + 1
                } else {
                    width
                };
                self.editor = Some(editor);
            },
            KeyCode::Home => {
                editor.cursor = 0;
                self.editor = Some(editor);
            },
            KeyCode::End => {
                editor.cursor = terminal_ui::width_of(&editor.value);
                self.editor = Some(editor);
            },
            KeyCode::Backspace => {
                editor.backspace();
                self.editor = Some(editor);
                self.sync_filter_editor();
            },
            KeyCode::Delete => {
                editor.delete();
                self.editor = Some(editor);
                self.sync_filter_editor();
            },
            KeyCode::Char(c) => {
                if !key.control && !key.alt {
                    editor.insert(c);
                    self.editor = Some(editor);
                    self.sync_filter_editor();
                } else {
                    self.editor = Some(editor);
                }
            },
            _ => {
                self.editor = Some(editor);
            },
        }
        PickerStep::Continue
    }

    /// Does what a key asks for.
    pub fn handle_key(&mut self, key: Key) -> (r: PickerStep)
        requires
            old(self).wf(),
        ensures
            ({
                let (view, step) = old(self)@.pressed(
                    old(self).catalog.modules@,
                    old(self).catalog.root@,
                    old(self).workspace_root@,
                    key,
                );
                final(self)@ == view && r@ == step
            }),
            final(self).wf(),
            final(self).catalog == old(self).catalog,
            final(self).workspace_root == old(self).workspace_root,
    {
        if terminal_ui::is_interrupt(key) {
            return PickerStep::Quit;
        }
        if self.editor.is_some() {
            return self.handle_editor_key(key);
        }
        match key.code {
            KeyCode::Esc | KeyCode::Char('q') | KeyCode::Char('Q') => {
                return PickerStep::Quit;
            },
            KeyCode::Up | KeyCode::Char('k') | KeyCode::Char('K') => self.move_selection(-1),
            KeyCode::Down | KeyCode::Char('j') | KeyCode::Char('J') => self.move_selection(1),
            KeyCode::Home => self.select_edge(false),
            KeyCode::End => self.select_edge(true),
            KeyCode::Char('/') => self.open_editor(EditorKind::Filter),
            KeyCode::Enter | KeyCode::Char('m') | KeyCode::Char('M') => {
                if self.has_selected_module() {
                    self.open_editor(EditorKind::Message);
                } else {
                    self.notice = Some("no benchmark module is selected".to_owned());
                }
            },
            KeyCode::Char('b') | KeyCode::Char('B') => self.open_editor(EditorKind::Budget),
            KeyCode::Char('d') | KeyCode::Char('D') => self.open_editor(EditorKind::Directory),
            KeyCode::Char('e') | KeyCode::Char('E') => {
                self.notice = Some(
                    "managed runs capture chromium, firefox, and webkit together".to_owned(),
                );
            },
            _ => {},
        }
        PickerStep::Continue
    }

    /// Shows the modules of a directory that was scanned, or why it could not be.
    pub fn directory_scanned(&mut self, value: String, scanned: Result<Catalog, String>)
        ensures
            final(self).wf() || final(self).editor == old(self).editor,
            final(self).workspace_root == old(self).workspace_root,
            match scanned {
                Ok(catalog) => {
                    &&& final(self).catalog == catalog
                    &&& final(self)@ == (PickerView {
                        filter: ""@,
                        selected: if catalog.modules@.len() > 0 {
                            Some(catalog.modules@[0].path@)
                        } else {
                            None
                        },
                        notice: None,
                        ..old(self)@
                    })
                },
                Err(error) => {
                    &&& final(self).catalog == old(self).catalog
                    &&& final(self)@ == (PickerView {
                        editor: Some(
                            fresh_editor(
                                EditorKind::Directory,
                                value@,
                                old(self).filter@,
                                Some(error@),
                            ),
                        ),
                        ..old(self)@
                    })
                },
            },
    {
        match scanned {
            Ok(catalog) => {
                self.catalog = catalog;
                self.filter = "".to_owned();
                self.selected_path = if self.catalog.modules.len() > 0 {
                    Some(self.catalog.modules[0].path.clone())
                } else {
                    None
                };
                self.notice = None;
            },
            Err(error) => {
                let mut editor = Editor::new(EditorKind::Directory, value, self.filter.clone());
                editor.error = Some(error);
                self.editor = Some(editor);
            },
        }
    }

    /// Takes a budget that was read, or shows why it could not be.
    pub fn budget_read(&mut self, value: String, read: Result<Budget, String>)
        ensures
            final(self).catalog == old(self).catalog,
            final(self).workspace_root == old(self).workspace_root,
            final(self).wf() || final(self).editor == old(self).editor,
            match read {
                Ok(budget) => final(self)@ == (PickerView {
                    budget: budget_view(budget),
                    notice: Some("measurement budget set to "@ + budget.text@),
                    ..old(self)@
                }),
                Err(error) => final(self)@ == (PickerView {
                    editor: Some(
                        fresh_editor(
                            EditorKind::Budget,
                            value@,
                            old(self).filter@,
                            Some(error@),
                        ),
                    ),
                    ..old(self)@
                }),
            },
    {
        match read {
            Ok(budget) => {
                let mut notice = "measurement budget set to ".to_owned();
                notice.append(&budget.text);
                self.budget = budget;
                self.notice = Some(notice);
            },
            Err(error) => {
                let mut editor = Editor::new(EditorKind::Budget, value, self.filter.clone());
                editor.error = Some(error);
                self.editor = Some(editor);
            },
        }
    }
}

proof fn lemma_place_of(
    modules: Seq<BenchmarkModule>,
    places: Seq<int>,
    path: Option<Seq<char>>,
    n: int,
    m: int,
)
    requires
        0 <= n <= m <= places.len(),
        place_of(modules, places.take(n), path) >= 0,
    ensures
        place_of(modules, places.take(m), path) == place_of(modules, places.take(n), path),
    decreases m - n,
{
    if n < m {
        lemma_place_of(modules, places, path, n, m - 1);
        assert(places.take(m).drop_last() == places.take(m - 1));
    }
}

// Laws.

/// A benchmark is picked only from the list, with the message that was typed and the budget that is
/// shown.
pub proof fn only_listed_benchmarks_are_picked(
    view: PickerView,
    modules: Seq<BenchmarkModule>,
    root: Seq<char>,
    workspace: Seq<char>,
    key: Key,
)
    requires
        view.selection is None,
        view.pressed(modules, root, workspace, key).0.selection is Some,
    ensures
        ({
            let (next, step) = view.pressed(modules, root, workspace, key);
            let picked = next.selection->0;
            &&& step == PickerStepView::Quit
            &&& picked.2 == view.budget
            &&& picked.1 == next.message
            &&& exists|i: int|
                0 <= i < modules.len() && (#[trigger] modules[i]).path@ == picked.0
        }),
{
    assert(view.editor is Some);
    assert(view.editor->0.kind == EditorKind::Message);
    assert(view.has_selected(modules));
    let i = choose|i: int|
        0 <= i < modules.len() && (#[trigger] modules[i]).path@ == view.selected->0;
    assert(modules[i].path@ == view.selected->0);
}

/// Leaving the editor of the filter brings back the filter that was there.
pub proof fn leaving_the_filter_restores_it(
    view: PickerView,
    modules: Seq<BenchmarkModule>,
    root: Seq<char>,
    workspace: Seq<char>,
    key: Key,
)
    requires
        view.editor is Some,
        view.editor->0.kind == EditorKind::Filter,
        key.code == KeyCode::Esc,
    ensures
        view.pressed(modules, root, workspace, key).0.filter == view.editor->0.original_filter,
        view.pressed(modules, root, workspace, key).0.editor is None,
{
}

} // verus!
