//! Source checkpoints, the changes between them, and their content addresses.

use vstd::bytes::*;
use vstd::prelude::*;
use vstd::string::*;
use vstd::utf8::*;

use crate::digest;
use crate::ordered;
use crate::paths;
use crate::text;

verus! {

/// The version of every stored state and change.
pub const SCHEMA_VERSION: u32 = 1;

/// One file of a source checkpoint.
#[derive(Clone, Debug)]
pub struct SourceFile {
    pub path: String,
    pub sha256: String,
    pub size_bytes: u64,
}

/// The files of a project at one moment.
#[derive(Clone, Debug)]
pub struct SourceState {
    pub schema_version: u32,
    pub state_id: String,
    pub files: Vec<SourceFile>,
}

/// What happened to a file between two states.
#[derive(Clone, Copy, Debug, Eq, PartialEq, Structural)]
pub enum ChangeKind {
    Added,
    Modified,
    Deleted,
}

/// A file that differs between two states.
#[derive(Clone, Debug)]
pub struct FileChange {
    pub path: String,
    pub kind: ChangeKind,
    pub before_sha256: Option<String>,
    pub after_sha256: Option<String>,
}

/// The files that differ between two states.
#[derive(Clone, Debug)]
pub struct SourceChange {
    pub schema_version: u32,
    pub change_id: String,
    pub source_before: Option<String>,
    pub source_after: String,
    pub files: Vec<FileChange>,
}

/// A source file as it was read: its path and its bytes.
#[derive(Clone, Debug)]
pub struct SourceContent {
    pub path: String,
    pub content: Vec<u8>,
}

/// Where an identity stands.
#[derive(Clone, Copy, Debug, Eq, PartialEq, Structural)]
pub enum IdPlace {
    /// It is the one that a record was looked for under.
    Own,
    /// It is the state before a change.
    Before,
    /// It is the state after a change.
    After,
}

/// Why a checkpoint or a stored record is refused.
#[derive(Clone, Copy, Debug, Eq, PartialEq, Structural)]
pub enum SourceError {
    /// The path of the file with this index cannot be recorded.
    Path(usize, paths::PathError),
    /// The file with this index has the path of an earlier one.
    DuplicatePath(usize),
    /// There are no files.
    NoFiles,
    /// Two snapshots of the same files differ.
    ChangedDuringCapture,
    /// An identity is not its prefix and a digest.
    InvalidId(IdPlace),
    /// A record has another version, or another identity than the one it was found under.
    IncompatibleIdentity,
    /// The digest of an object is not sixty-four hexadecimal digits.
    InvalidDigest,
    /// A digest that is recorded for the file with this index is not sixty-four hexadecimal digits.
    InvalidFileDigest(usize),
    /// The path of the file with this index is not in the form in which paths are recorded.
    InvalidPath(usize),
    /// An object's bytes do not have the digest that it is stored under.
    ContentDigest,
}

// Identities.

/// The bytes of one file that a state's identity depends on.
pub open spec fn file_preimage(file: SourceFile) -> Seq<u8> {
    digest::framed_text(file.path@) + digest::framed_text(file.sha256@) + spec_u64_to_le_bytes(
        file.size_bytes,
    )
}

/// The bytes that a state's identity is the digest of.
pub open spec fn state_preimage(files: Seq<SourceFile>) -> Seq<u8>
    decreases files.len(),
{
    if files.len() == 0 {
        encode_utf8("bperf-source-state-v1\0"@)
    } else {
        state_preimage(files.drop_last()) + file_preimage(files.last())
    }
}

/// The identity of a state.
pub open spec fn state_identity(files: Seq<SourceFile>) -> Seq<char> {
    "state-"@ + digest::sha256(state_preimage(files))
}

/// The text, or nothing where it is absent.
pub open spec fn or_empty(value: Option<Seq<char>>) -> Seq<char> {
    match value {
        Some(text) => text,
        None => Seq::empty(),
    }
}

/// The bytes that a change's identity is the digest of.
pub open spec fn change_preimage(before: Option<Seq<char>>, after: Seq<char>) -> Seq<u8> {
    encode_utf8("bperf-source-change-v1\0"@) + digest::framed_text(or_empty(before))
        + digest::framed_text(after)
}

/// The identity of a change.
pub open spec fn change_identity(before: Option<Seq<char>>, after: Seq<char>) -> Seq<char> {
    "change-"@ + digest::sha256(change_preimage(before, after))
}

/// A buffer that begins with a domain name.
pub(crate) fn domain(name: &str) -> (r: Vec<u8>)
    ensures
        r@ == encode_utf8(name@),
{
    let mut buffer: Vec<u8> = Vec::new();
    digest::push_text(&mut buffer, name);
    assert(buffer@ == encode_utf8(name@));
    buffer
}

/// A prefix followed by the digest of a buffer.
pub(crate) fn identity(prefix: &str, buffer: &Vec<u8>) -> (r: String)
    ensures
        r@ == prefix@ + digest::sha256(buffer@),
        digest::is_hash_id(r@, prefix@),
{
    let mut id = prefix.to_owned();
    let hex = digest::sha256_hex(buffer);
    id.append(&hex);
    assert(id@.subrange(0, prefix@.len() as int) == prefix@);
    assert(id@.skip(prefix@.len() as int) == hex@);
    id
}

/// The text of an optional text, empty where it is absent.
pub(crate) fn text_or_empty(value: Option<&str>) -> (r: &str)
    ensures
        r@ == or_empty(match value {
            Some(text) => Some(text@),
            None => None,
        }),
{
    proof {
        reveal_strlit("");
        assert(""@ == Seq::<char>::empty());
    }
    match value {
        Some(text) => text,
        None => "",
    }
}

/// The identity of a state with these files.
pub fn source_state_id(files: &Vec<SourceFile>) -> (r: String)
    ensures
        r@ == state_identity(files@),
        digest::is_hash_id(r@, "state-"@),
{
    let mut buffer = domain("bperf-source-state-v1\0");
    let mut i: usize = 0;
    assert(files@.take(0) == Seq::<SourceFile>::empty());
    while i < files.len()
        invariant
            i <= files@.len(),
            buffer@ == state_preimage(files@.take(i as int)),
        decreases files@.len() - i,
    {
        let ghost before = buffer@;
        digest::push_framed_text(&mut buffer, &files[i].path);
        digest::push_framed_text(&mut buffer, &files[i].sha256);
        digest::push_number(&mut buffer, files[i].size_bytes);
        proof {
            assert(buffer@ == before + file_preimage(files@[i as int]));
            assert(files@.take(i + 1).drop_last() == files@.take(i as int));
        }
        i += 1;
    }
    assert(files@.take(files@.len() as int) == files@);
    identity("state-", &buffer)
}

/// The identity of the change from one state to another.
pub fn change_id(before: Option<&str>, after: &str) -> (r: String)
    ensures
        r@ == change_identity(
            match before {
                Some(text) => Some(text@),
                None => None,
            },
            after@,
        ),
        digest::is_hash_id(r@, "change-"@),
{
    let mut buffer = domain("bperf-source-change-v1\0");
    digest::push_framed_text(&mut buffer, text_or_empty(before));
    digest::push_framed_text(&mut buffer, after);
    identity("change-", &buffer)
}

// Snapshots.

/// The paths of some files.
pub open spec fn file_paths(files: Seq<SourceFile>) -> Seq<Seq<char>> {
    Seq::new(files.len(), |i: int| files[i].path@)
}

/// The recorded path of a source file.
pub open spec fn recorded_path(root: Seq<char>, source: SourceContent) -> Result<
    Seq<char>,
    paths::PathError,
> {
    paths::portable_below(root, source.path@)
}

/// Why a snapshot of the first `n` sources fails, if it does.
pub open spec fn snapshot_failure(root: Seq<char>, sources: Seq<SourceContent>, n: int) -> Option<
    SourceError,
>
    decreases n,
{
    if n <= 0 {
        None
    } else {
        match snapshot_failure(root, sources, n - 1) {
            Some(error) => Some(error),
            None => match recorded_path(root, sources[n - 1]) {
                Err(error) => Some(SourceError::Path((n - 1) as usize, error)),
                Ok(path) => if exists|k: int|
                    0 <= k < n - 1 && recorded_path(root, #[trigger] sources[k]) == Ok::<
                        Seq<char>,
                        paths::PathError,
                    >(path) {
                    Some(SourceError::DuplicatePath((n - 1) as usize))
                } else {
                    None
                },
            },
        }
    }
}

/// A recorded file tells the path, the digest, and the size of a source.
pub open spec fn records(root: Seq<char>, file: SourceFile, source: SourceContent) -> bool {
    &&& recorded_path(root, source) == Ok::<Seq<char>, paths::PathError>(file.path@)
    &&& file.sha256@ == digest::sha256(source.content@)
    &&& file.size_bytes == source.content@.len()
}

/// The files are a record of the sources: sorted by path, one for each source and none besides.
pub open spec fn snapshot_of(
    root: Seq<char>,
    files: Seq<SourceFile>,
    sources: Seq<SourceContent>,
) -> bool {
    &&& files.len() == sources.len()
    &&& ordered::sorted(file_paths(files))
    &&& forall|i: int|
        0 <= i < sources.len() ==> #[trigger] has_record(root, files, sources[i])
    &&& forall|j: int| 0 <= j < files.len() ==> #[trigger] has_source(root, files[j], sources)
}

/// Some file records the source.
pub open spec fn has_record(root: Seq<char>, files: Seq<SourceFile>, source: SourceContent) -> bool {
    exists|j: int| 0 <= j < files.len() && #[trigger] records(root, files[j], source)
}

/// The file records some source.
pub open spec fn has_source(root: Seq<char>, file: SourceFile, sources: Seq<SourceContent>) -> bool {
    exists|i: int| 0 <= i < sources.len() && #[trigger] records(root, file, sources[i])
}

/// Where a path stands among sorted files, or where it would have to be inserted.
fn file_position(files: &Vec<SourceFile>, path: &str) -> (r: (usize, bool))
    requires
        ordered::sorted(file_paths(files@)),
    ensures
        r.0 <= files@.len(),
        r.1 == file_paths(files@).contains(path@),
        r.1 ==> r.0 < files@.len() && files@[r.0 as int].path@ == path@,
        forall|j: int| 0 <= j < r.0 ==> text::precedes(#[trigger] files@[j].path@, path@),
        !r.1 ==> forall|j: int|
            r.0 <= j < files@.len() ==> text::precedes(path@, #[trigger] files@[j].path@),
{
    let mut i: usize = 0;
    while i < files.len()
        invariant
            i <= files@.len(),
            ordered::sorted(file_paths(files@)),
            forall|j: int| 0 <= j < i ==> text::precedes(#[trigger] files@[j].path@, path@),
        decreases files@.len() - i,
    {
        if !text::before(&files[i].path, path) {
            let found = text::same(&files[i].path, path);
            proof {
                let all = file_paths(files@);
                text::lemma_precedes_total(files@[i as int].path@, path@);
                if found {
                    assert(all[i as int] == path@);
                } else {
                    assert forall|j: int| i <= j < files@.len() implies text::precedes(
                        path@,
                        #[trigger] files@[j].path@,
                    ) by {
                        if j > i {
                            assert(text::precedes(all[i as int], all[j]));
                            text::lemma_precedes_transitive(
                                path@,
                                files@[i as int].path@,
                                files@[j].path@,
                            );
                        }
                    }
                    assert forall|j: int| 0 <= j < all.len() implies all[j] != path@ by {
                        text::lemma_precedes_total(files@[j].path@, path@);
                    }
                }
            }
            return (i, found);
        }
        i += 1;
    }
    proof {
        let all = file_paths(files@);
        assert forall|j: int| 0 <= j < all.len() implies all[j] != path@ by {
            text::lemma_precedes_total(files@[j].path@, path@);
        }
    }
    (i, false)
}

/// Inserting a file in its place keeps the files sorted.
proof fn lemma_insert_sorted(files: Seq<SourceFile>, at: int, file: SourceFile)
    requires
        0 <= at <= files.len(),
        ordered::sorted(file_paths(files)),
        forall|j: int| 0 <= j < at ==> text::precedes(#[trigger] files[j].path@, file.path@),
        forall|j: int|
            at <= j < files.len() ==> text::precedes(file.path@, #[trigger] files[j].path@),
    ensures
        ordered::sorted(file_paths(files.insert(at, file))),
{
    let before = file_paths(files);
    let after = file_paths(files.insert(at, file));
    assert forall|i: int, j: int| 0 <= i < j < after.len() implies text::precedes(
        #[trigger] after[i],
        #[trigger] after[j],
    ) by {
        if i < at && j > at {
            assert(after[i] == before[i] && after[j] == before[j - 1]);
        } else if i < at && j < at {
            assert(after[i] == before[i] && after[j] == before[j]);
        } else if i > at {
            assert(after[i] == before[i - 1] && after[j] == before[j - 1]);
        } else if j == at {
            assert(text::precedes(files[i].path@, file.path@));
        } else {
            assert(text::precedes(file.path@, files[j - 1].path@));
        }
    }
}

/// Inserting a file keeps what the files record, and adds the new source.
proof fn lemma_insert_records(
    root: Seq<char>,
    files: Seq<SourceFile>,
    sources: Seq<SourceContent>,
    at: int,
    file: SourceFile,
    source: SourceContent,
)
    requires
        0 <= at <= files.len(),
        snapshot_of(root, files, sources),
        records(root, file, source),
        ordered::sorted(file_paths(files.insert(at, file))),
    ensures
        snapshot_of(root, files.insert(at, file), sources.push(source)),
{
    let after = files.insert(at, file);
    let all = sources.push(source);
    assert forall|i: int| 0 <= i < all.len() implies #[trigger] has_record(root, after, all[i]) by {
        if i < sources.len() {
            assert(has_record(root, files, sources[i]));
            let j = choose|j: int|
                0 <= j < files.len() && #[trigger] records(root, files[j], sources[i]);
            if j < at {
                assert(records(root, after[j], all[i]));
            } else {
                assert(records(root, after[j + 1], all[i]));
            }
        } else {
            assert(records(root, after[at], all[i]));
        }
    }
    assert forall|j: int| 0 <= j < after.len() implies #[trigger] has_source(
        root,
        after[j],
        all,
    ) by {
        if j == at {
            assert(records(root, after[j], all[sources.len() as int]));
        } else {
            let k = if j < at {
                j
            } else {
                j - 1
            };
            assert(after[j] == files[k]);
            assert(has_source(root, files[k], sources));
            let i = choose|i: int|
                0 <= i < sources.len() && #[trigger] records(root, files[k], sources[i]);
            assert(records(root, after[j], all[i]));
        }
    }
}

/// A failure among the first sources is the failure of all of them.
proof fn lemma_snapshot_failure(root: Seq<char>, sources: Seq<SourceContent>, n: int, m: int)
    requires
        0 <= n <= m,
        snapshot_failure(root, sources, n) is Some,
    ensures
        snapshot_failure(root, sources, m) == snapshot_failure(root, sources, n),
    decreases m - n,
{
    if n < m {
        lemma_snapshot_failure(root, sources, n, m - 1);
    }
}

/// Records the digest and the size of every source file under its path below the root.
///
/// The files come out sorted by path. The first source whose path lies outside the root, is not a
/// plain relative path, or was recorded before, decides the error; so does a lack of sources.
pub fn snapshot_state(root: &str, sources: &Vec<SourceContent>) -> (r: Result<
    SourceState,
    SourceError,
>)
    ensures
        match snapshot_failure(root@, sources@, sources@.len() as int) {
            Some(error) => r == Err::<SourceState, SourceError>(error),
            None => if sources@.len() == 0 {
                r == Err::<SourceState, SourceError>(SourceError::NoFiles)
            } else {
                &&& r is Ok
                &&& r->Ok_0.schema_version == SCHEMA_VERSION
                &&& snapshot_of(root@, r->Ok_0.files@, sources@)
                &&& r->Ok_0.state_id@ == state_identity(r->Ok_0.files@)
                &&& digest::is_hash_id(r->Ok_0.state_id@, "state-"@)
            },
        },
{
    let mut files: Vec<SourceFile> = Vec::new();
    let mut i: usize = 0;
    assert(sources@.take(0) == Seq::<SourceContent>::empty());
    while i < sources.len()
        invariant
            i <= sources@.len(),
            snapshot_failure(root@, sources@, i as int) is None,
            snapshot_of(root@, files@, sources@.take(i as int)),
        decreases sources@.len() - i,
    {
        let source = &sources[i];
        match paths::relative_path(root, &source.path) {
            Err(error) => {
                proof {
                    lemma_snapshot_failure(root@, sources@, i + 1, sources@.len() as int);
                }
                return Err(SourceError::Path(i, error));
            },
            Ok(path) => {
                let (at, found) = file_position(&files, &path);
                if found {
                    proof {
                        let j = at as int;
                        assert(has_source(root@, files@[j], sources@.take(i as int)));
                        let some = choose|k: int|
                            0 <= k < sources@.take(i as int).len() && #[trigger] records(
                                root@,
                                files@[j],
                                sources@.take(i as int)[k],
                            );
                        assert(sources@[some] == sources@.take(i as int)[some]);
                        assert(recorded_path(root@, sources@[some]) == Ok::<
                            Seq<char>,
                            paths::PathError,
                        >(path@));
                        lemma_snapshot_failure(root@, sources@, i + 1, sources@.len() as int);
                    }
                    return Err(SourceError::DuplicatePath(i));
                }
                let file = SourceFile {
                    path: path,
                    sha256: digest::sha256_hex(&source.content),
                    size_bytes: source.content.len() as u64,
                };
                proof {
                    assert forall|k: int| 0 <= k < i implies recorded_path(
                        root@,
                        #[trigger] sources@[k],
                    ) != Ok::<Seq<char>, paths::PathError>(file.path@) by {
                        assert(sources@.take(i as int)[k] == sources@[k]);
                        assert(has_record(root@, files@, sources@.take(i as int)[k]));
                        let j = choose|j: int|
                            0 <= j < files@.len() && #[trigger] records(
                                root@,
                                files@[j],
                                sources@.take(i as int)[k],
                            );
                        assert(file_paths(files@)[j] == files@[j].path@);
                    }
                    lemma_insert_sorted(files@, at as int, file);
                    lemma_insert_records(
                        root@,
                        files@,
                        sources@.take(i as int),
                        at as int,
                        file,
                        *source,
                    );
                    assert(sources@.take(i as int).push(*source) == sources@.take(i + 1));
                }
                files.insert(at, file);
            },
        }
        i += 1;
    }
    assert(sources@.take(sources@.len() as int) == sources@);
    if files.len() == 0 {
        return Err(SourceError::NoFiles);
    }
    let state_id = source_state_id(&files);
    Ok(SourceState { schema_version: SCHEMA_VERSION, state_id, files })
}

/// Takes two snapshots of the same files as one checkpoint, provided that nothing changed between
/// them.
pub fn capture_state(first: SourceState, second: &SourceState) -> (r: Result<
    SourceState,
    SourceError,
>)
    ensures
        r == if first.state_id@ == second.state_id@ {
            Ok::<SourceState, SourceError>(first)
        } else {
            Err::<SourceState, SourceError>(SourceError::ChangedDuringCapture)
        },
{
    if !text::same(&first.state_id, &second.state_id) {
        return Err(SourceError::ChangedDuringCapture);
    }
    Ok(first)
}

// Changes.

/// The digest recorded for a path; the last one where the path stands more than once.
pub open spec fn recorded(files: Seq<SourceFile>, path: Seq<char>) -> Option<Seq<char>>
    decreases files.len(),
{
    if files.len() == 0 {
        None
    } else if files.last().path@ == path {
        Some(files.last().sha256@)
    } else {
        recorded(files.drop_last(), path)
    }
}

/// The files of a state that may be absent.
pub open spec fn files_of(state: Option<SourceState>) -> Seq<SourceFile> {
    match state {
        Some(state) => state.files@,
        None => Seq::empty(),
    }
}

/// The paths of some file changes.
pub open spec fn change_paths(files: Seq<FileChange>) -> Seq<Seq<char>> {
    Seq::new(files.len(), |i: int| files[i].path@)
}

/// A file change tells what became of its path, which is not the same before and after.
pub open spec fn tells(
    change: FileChange,
    before: Seq<SourceFile>,
    after: Seq<SourceFile>,
) -> bool {
    let old = recorded(before, change.path@);
    let new = recorded(after, change.path@);
    &&& old != new
    &&& text::opt(change.before_sha256) == old
    &&& text::opt(change.after_sha256) == new
    &&& change.kind == if old is None {
        ChangeKind::Added
    } else if new is None {
        ChangeKind::Deleted
    } else {
        ChangeKind::Modified
    }
}

/// The file changes are those between two states: sorted by path, one for every path whose digest
/// is not the same, and none besides.
pub open spec fn difference(
    files: Seq<FileChange>,
    before: Seq<SourceFile>,
    after: Seq<SourceFile>,
) -> bool {
    &&& ordered::sorted(change_paths(files))
    &&& forall|i: int| 0 <= i < files.len() ==> tells(#[trigger] files[i], before, after)
    &&& forall|path: Seq<char>|
        recorded(before, path) != recorded(after, path) ==> #[trigger] change_paths(files).contains(
            path,
        )
}

/// The digest recorded for a path.
fn digest_of(files: &Vec<SourceFile>, path: &str) -> (r: Option<String>)
    ensures
        text::opt(r) == recorded(files@, path@),
{
    let mut n: usize = files.len();
    assert(files@.take(n as int) == files@);
    while n > 0
        invariant
            n <= files@.len(),
            recorded(files@, path@) == recorded(files@.take(n as int), path@),
        decreases n,
    {
        assert(files@.take(n as int).drop_last() == files@.take(n - 1));
        if text::same(&files[n - 1].path, path) {
            return Some(files[n - 1].sha256.clone());
        }
        n -= 1;
    }
    None
}

/// A path that no file has is not recorded.
proof fn lemma_recorded_paths(files: Seq<SourceFile>, path: Seq<char>)
    ensures
        recorded(files, path) is Some ==> file_paths(files).contains(path),
    decreases files.len(),
{
    if files.len() > 0 {
        lemma_recorded_paths(files.drop_last(), path);
        assert(file_paths(files).drop_last() == file_paths(files.drop_last()));
        if files.last().path@ == path {
            assert(file_paths(files)[files.len() - 1] == path);
        } else if file_paths(files.drop_last()).contains(path) {
            let k = choose|k: int|
                0 <= k < files.len() - 1 && file_paths(files.drop_last())[k] == path;
            assert(file_paths(files)[k] == path);
        }
    }
}

/// Adds the paths of some files to a sorted list of paths.
fn add_paths(all: &mut Vec<String>, files: &Vec<SourceFile>)
    requires
        ordered::sorted(text::views(old(all)@)),
    ensures
        ordered::sorted(text::views(final(all)@)),
        forall|x: Seq<char>| #[trigger]
            text::views(final(all)@).contains(x) <==> (text::views(old(all)@).contains(x)
                || file_paths(files@).contains(x)),
{
    let ghost start = text::views(all@);
    let mut i: usize = 0;
    while i < files.len()
        invariant
            i <= files@.len(),
            start == text::views(old(all)@),
            ordered::sorted(text::views(all@)),
            forall|x: Seq<char>| #[trigger]
                text::views(all@).contains(x) <==> (start.contains(x) || file_paths(
                    files@.take(i as int),
                ).contains(x)),
        decreases files@.len() - i,
    {
        let ghost before = text::views(all@);
        ordered::insert(all, &files[i].path);
        proof {
            let less = file_paths(files@.take(i as int));
            let more = file_paths(files@.take(i + 1));
            assert(more == less.push(files@[i as int].path@));
            assert forall|x: Seq<char>| #[trigger] text::views(all@).contains(x) <==> (
            start.contains(x) || more.contains(x)) by {
                assert(before.contains(x) <==> (start.contains(x) || less.contains(x)));
                if more.contains(x) {
                    let k = choose|k: int| 0 <= k < more.len() && more[k] == x;
                    if k < i {
                        assert(less[k] == x);
                    }
                }
                if less.contains(x) {
                    let k = choose|k: int| 0 <= k < less.len() && less[k] == x;
                    assert(more[k] == x);
                }
                assert(more[i as int] == files@[i as int].path@);
            }
        }
        i += 1;
    }
    assert(files@.take(files@.len() as int) == files@);
}

/// What became of one path, if anything did.
fn file_change(path: &String, before: &Vec<SourceFile>, after: &Vec<SourceFile>) -> (r: Option<
    FileChange,
>)
    ensures
        match r {
            Some(change) => change.path@ == path@ && tells(change, before@, after@),
            None => recorded(before@, path@) == recorded(after@, path@),
        },
{
    let old_digest = digest_of(before, path);
    let new_digest = digest_of(after, path);
    if text::same_opt(&old_digest, &new_digest) {
        return None;
    }
    let kind = if old_digest.is_none() {
        ChangeKind::Added
    } else if new_digest.is_none() {
        ChangeKind::Deleted
    } else {
        ChangeKind::Modified
    };
    Some(
        FileChange {
            path: path.clone(),
            kind,
            before_sha256: old_digest,
            after_sha256: new_digest,
        },
    )
}

/// The file changes between two lists of files.
fn file_changes(before: &Vec<SourceFile>, after: &Vec<SourceFile>) -> (r: Vec<FileChange>)
    ensures
        difference(r@, before@, after@),
{
    let mut all: Vec<String> = Vec::new();
    add_paths(&mut all, before);
    add_paths(&mut all, after);
    let ghost paths = text::views(all@);
    let mut out: Vec<FileChange> = Vec::new();
    let mut i: usize = 0;
    while i < all.len()
        invariant
            i <= all@.len(),
            paths == text::views(all@),
            ordered::sorted(paths),
            ordered::sorted(change_paths(out@)),
            forall|k: int| 0 <= k < out@.len() ==> tells(#[trigger] out@[k], before@, after@),
            forall|k: int, j: int|
                0 <= k < out@.len() && i <= j < paths.len() ==> text::precedes(
                    (#[trigger] out@[k]).path@,
                    #[trigger] paths[j],
                ),
            forall|j: int|
                0 <= j < i && recorded(before@, #[trigger] paths[j]) != recorded(after@, paths[j])
                    ==> change_paths(out@).contains(paths[j]),
        decreases all@.len() - i,
    {
        let ghost earlier = out@;
        assert(paths[i as int] == all@[i as int]@);
        match file_change(&all[i], before, after) {
            Some(change) => {
                out.push(change);
                proof {
                    let old_paths = change_paths(earlier);
                    let new_paths = change_paths(out@);
                    assert(new_paths == old_paths.push(change.path@));
                    assert forall|a: int, b: int| 0 <= a < b < new_paths.len() implies text::precedes(
                        #[trigger] new_paths[a],
                        #[trigger] new_paths[b],
                    ) by {
                        if b < earlier.len() {
                            assert(old_paths[a] == new_paths[a] && old_paths[b] == new_paths[b]);
                        } else {
                            assert(text::precedes(earlier[a].path@, paths[i as int]));
                        }
                    }
                    assert forall|j: int|
                        0 <= j < i + 1 && recorded(before@, #[trigger] paths[j]) != recorded(
                            after@,
                            paths[j],
                        ) implies change_paths(out@).contains(paths[j]) by {
                        if j < i {
                            let k = choose|k: int|
                                0 <= k < old_paths.len() && old_paths[k] == paths[j];
                            assert(new_paths[k] == paths[j]);
                        } else {
                            assert(new_paths[earlier.len() as int] == paths[j]);
                        }
                    }
                }
            },
            None => {},
        }
        i += 1;
    }
    proof {
        assert forall|path: Seq<char>|
            recorded(before@, path) != recorded(after@, path) implies #[trigger] change_paths(
            out@,
        ).contains(path) by {
            lemma_recorded_paths(before@, path);
            lemma_recorded_paths(after@, path);
            assert(paths.contains(path));
            let j = choose|j: int| 0 <= j < paths.len() && paths[j] == path;
            assert(change_paths(out@).contains(paths[j]));
        }
    }
    out
}

/// The identity of a state that may be absent.
pub open spec fn state_id_of(state: Option<SourceState>) -> Option<Seq<char>> {
    match state {
        Some(state) => Some(state.state_id@),
        None => None,
    }
}

/// The change from a state, or from nothing, to another state.
pub open spec fn is_change(
    change: SourceChange,
    before: Option<SourceState>,
    after: SourceState,
) -> bool {
    &&& change.schema_version == SCHEMA_VERSION
    &&& change.change_id@ == change_identity(state_id_of(before), after.state_id@)
    &&& digest::is_hash_id(change.change_id@, "change-"@)
    &&& text::opt(change.source_before) == state_id_of(before)
    &&& change.source_after@ == after.state_id@
    &&& difference(change.files@, files_of(before), after.files@)
}

/// A state that may be absent, without its reference.
pub open spec fn deref_state(state: Option<&SourceState>) -> Option<SourceState> {
    match state {
        Some(state) => Some(*state),
        None => None,
    }
}

/// Tells the files that differ between two states.
pub fn store_change(before: Option<&SourceState>, after: &SourceState) -> (r: SourceChange)
    ensures
        is_change(r, deref_state(before), *after),
{
    let no_files: Vec<SourceFile> = Vec::new();
    let (old_files, source_before): (&Vec<SourceFile>, Option<String>) = match before {
        Some(state) => (&state.files, Some(state.state_id.clone())),
        None => (&no_files, None),
    };
    let files = file_changes(old_files, &after.files);
    let before_id: Option<&str> = match before {
        Some(state) => Some(state.state_id.as_str()),
        None => None,
    };
    let change_id = change_id(before_id, &after.state_id);
    SourceChange {
        schema_version: SCHEMA_VERSION,
        change_id,
        source_before,
        source_after: after.state_id.clone(),
        files,
    }
}

// Stored records.

/// A path in the form in which paths are recorded.
pub open spec fn is_recorded_form(path: Seq<char>) -> bool {
    &&& paths::portable(path) == Ok::<Seq<char>, paths::PathError>(path)
    &&& !path.contains('\\')
}

/// Why a recorded path is refused, if it is.
pub open spec fn path_failure(index: int, path: Seq<char>) -> Option<SourceError> {
    match paths::portable(path) {
        Err(error) => Some(SourceError::Path(index as usize, error)),
        Ok(_) => if is_recorded_form(path) {
            None
        } else {
            Some(SourceError::InvalidPath(index as usize))
        },
    }
}

fn refuse_path(index: usize, path: &str) -> (r: Option<SourceError>)
    ensures
        r == path_failure(index as int, path@),
{
    match paths::portable_path(path) {
        Err(error) => Some(SourceError::Path(index, error)),
        Ok(joined) => if !text::same(&joined, path) || text::contains_char(path, '\\') {
            Some(SourceError::InvalidPath(index))
        } else {
            None
        },
    }
}

/// Why the first `n` files of a stored state are refused, if they are.
pub open spec fn state_files_failure(files: Seq<SourceFile>, n: int) -> Option<SourceError>
    decreases n,
{
    if n <= 0 {
        None
    } else {
        match state_files_failure(files, n - 1) {
            Some(error) => Some(error),
            None => if !digest::is_digest(files[n - 1].sha256@) {
                Some(SourceError::InvalidFileDigest((n - 1) as usize))
            } else {
                path_failure(n - 1, files[n - 1].path@)
            },
        }
    }
}

/// Why a state found under an identity is refused, if it is.
pub open spec fn state_failure(state: SourceState, id: Seq<char>) -> Option<SourceError> {
    if !digest::is_hash_id(id, "state-"@) {
        Some(SourceError::InvalidId(IdPlace::Own))
    } else if state.schema_version != SCHEMA_VERSION || state.state_id@ != id {
        Some(SourceError::IncompatibleIdentity)
    } else {
        state_files_failure(state.files@, state.files@.len() as int)
    }
}

proof fn lemma_state_files_failure(files: Seq<SourceFile>, n: int, m: int)
    requires
        0 <= n <= m,
        state_files_failure(files, n) is Some,
    ensures
        state_files_failure(files, m) == state_files_failure(files, n),
    decreases m - n,
{
    if n < m {
        lemma_state_files_failure(files, n, m - 1);
    }
}

/// Accepts a state that was found under an identity.
pub fn load_state(state: SourceState, state_id: &str) -> (r: Result<SourceState, SourceError>)
    ensures
        match state_failure(state, state_id@) {
            Some(error) => r == Err::<SourceState, SourceError>(error),
            None => r == Ok::<SourceState, SourceError>(state),
        },
{
    if !digest::hash_id(state_id, "state-") {
        return Err(SourceError::InvalidId(IdPlace::Own));
    }
    if state.schema_version != SCHEMA_VERSION || !text::same(&state.state_id, state_id) {
        return Err(SourceError::IncompatibleIdentity);
    }
    let mut i: usize = 0;
    while i < state.files.len()
        invariant
            i <= state.files@.len(),
            digest::is_hash_id(state_id@, "state-"@),
            state.schema_version == SCHEMA_VERSION,
            state.state_id@ == state_id@,
            state_files_failure(state.files@, i as int) is None,
        decreases state.files@.len() - i,
    {
        if !digest::digest_text(&state.files[i].sha256) {
            proof {
                lemma_state_files_failure(state.files@, i + 1, state.files@.len() as int);
            }
            return Err(SourceError::InvalidFileDigest(i));
        }
        if let Some(error) = refuse_path(i, &state.files[i].path) {
            proof {
                lemma_state_files_failure(state.files@, i + 1, state.files@.len() as int);
            }
            return Err(error);
        }
        i += 1;
    }
    Ok(state)
}

/// A digest that may be absent is a digest where it is present.
pub open spec fn optional_digest(value: Option<String>) -> bool {
    value is Some ==> digest::is_digest(value->0@)
}

/// Why the first `n` files of a stored change are refused, if they are.
pub open spec fn change_files_failure(files: Seq<FileChange>, n: int) -> Option<SourceError>
    decreases n,
{
    if n <= 0 {
        None
    } else {
        match change_files_failure(files, n - 1) {
            Some(error) => Some(error),
            None => match path_failure(n - 1, files[n - 1].path@) {
                Some(error) => Some(error),
                None => if optional_digest(files[n - 1].before_sha256) && optional_digest(
                    files[n - 1].after_sha256,
                ) {
                    None
                } else {
                    Some(SourceError::InvalidFileDigest((n - 1) as usize))
                },
            },
        }
    }
}

/// Why a change found under an identity is refused, if it is.
pub open spec fn change_failure(change: SourceChange, id: Seq<char>) -> Option<SourceError> {
    if !digest::is_hash_id(id, "change-"@) {
        Some(SourceError::InvalidId(IdPlace::Own))
    } else if change.schema_version != SCHEMA_VERSION || change.change_id@ != id {
        Some(SourceError::IncompatibleIdentity)
    } else if change.source_before is Some && !digest::is_hash_id(
        change.source_before->0@,
        "state-"@,
    ) {
        Some(SourceError::InvalidId(IdPlace::Before))
    } else if !digest::is_hash_id(change.source_after@, "state-"@) {
        Some(SourceError::InvalidId(IdPlace::After))
    } else {
        change_files_failure(change.files@, change.files@.len() as int)
    }
}

proof fn lemma_change_files_failure(files: Seq<FileChange>, n: int, m: int)
    requires
        0 <= n <= m,
        change_files_failure(files, n) is Some,
    ensures
        change_files_failure(files, m) == change_files_failure(files, n),
    decreases m - n,
{
    if n < m {
        lemma_change_files_failure(files, n, m - 1);
    }
}

fn digest_if_present(value: &Option<String>) -> (r: bool)
    ensures
        r == optional_digest(*value),
{
    match value {
        Some(digest) => digest::digest_text(digest),
        None => true,
    }
}

/// Accepts a change that was found under an identity.
pub fn load_change(change: SourceChange, change_id: &str) -> (r: Result<SourceChange, SourceError>)
    ensures
        match change_failure(change, change_id@) {
            Some(error) => r == Err::<SourceChange, SourceError>(error),
            None => r == Ok::<SourceChange, SourceError>(change),
        },
{
    if !digest::hash_id(change_id, "change-") {
        return Err(SourceError::InvalidId(IdPlace::Own));
    }
    if change.schema_version != SCHEMA_VERSION || !text::same(&change.change_id, change_id) {
        return Err(SourceError::IncompatibleIdentity);
    }
    if let Some(before) = &change.source_before {
        if !digest::hash_id(before, "state-") {
            return Err(SourceError::InvalidId(IdPlace::Before));
        }
    }
    if !digest::hash_id(&change.source_after, "state-") {
        return Err(SourceError::InvalidId(IdPlace::After));
    }
    let ghost total = change.files@.len() as int;
    let mut i: usize = 0;
    while i < change.files.len()
        invariant
            i <= change.files@.len(),
            total == change.files@.len(),
            digest::is_hash_id(change_id@, "change-"@),
            change.schema_version == SCHEMA_VERSION,
            change.change_id@ == change_id@,
            change.source_before is Some ==> digest::is_hash_id(
                change.source_before->0@,
                "state-"@,
            ),
            digest::is_hash_id(change.source_after@, "state-"@),
            change_files_failure(change.files@, i as int) is None,
        decreases change.files@.len() - i,
    {
        let file = &change.files[i];
        if let Some(error) = refuse_path(i, &file.path) {
            proof {
                lemma_change_files_failure(change.files@, i + 1, total);
            }
            return Err(error);
        }
        if !digest_if_present(&file.before_sha256) || !digest_if_present(&file.after_sha256) {
            proof {
                lemma_change_files_failure(change.files@, i + 1, total);
            }
            return Err(SourceError::InvalidFileDigest(i));
        }
        i += 1;
    }
    Ok(change)
}

/// Why the bytes found under a digest are refused, if they are.
pub open spec fn object_failure(digest: Seq<char>, content: Seq<u8>) -> Option<SourceError> {
    if !digest::is_digest(digest) {
        Some(SourceError::InvalidDigest)
    } else if digest::sha256(content) != digest {
        Some(SourceError::ContentDigest)
    } else {
        None
    }
}

/// Says why the bytes found under a digest are refused, if they are.
pub fn refuse_object(digest: &str, content: &[u8]) -> (r: Option<SourceError>)
    ensures
        r == object_failure(digest@, content@),
{
    if !digest::digest_text(digest) {
        return Some(SourceError::InvalidDigest);
    }
    if !text::same(&digest::sha256_hex(content), digest) {
        return Some(SourceError::ContentDigest);
    }
    None
}

/// The digest that the bytes of a source file are stored under.
pub fn object_digest(content: &[u8]) -> (r: String)
    ensures
        r@ == digest::sha256(content@),
{
    digest::sha256_hex(content)
}

/// Accepts the bytes that were found under a digest.
pub fn read_object(digest: &str, content: Vec<u8>) -> (r: Result<Vec<u8>, SourceError>)
    ensures
        match object_failure(digest@, content@) {
            Some(error) => r == Err::<Vec<u8>, SourceError>(error),
            None => r == Ok::<Vec<u8>, SourceError>(content),
        },
{
    match refuse_object(digest, &content) {
        Some(error) => Err(error),
        None => Ok(content),
    }
}

// Laws.

/// The bytes of some files that a state's identity depends on, after its domain.
spec fn files_preimage(files: Seq<SourceFile>) -> Seq<u8>
    decreases files.len(),
{
    if files.len() == 0 {
        Seq::empty()
    } else {
        file_preimage(files[0]) + files_preimage(files.drop_first())
    }
}

proof fn lemma_files_preimage(files: Seq<SourceFile>, last: SourceFile)
    ensures
        files_preimage(files.push(last)) == files_preimage(files) + file_preimage(last),
    decreases files.len(),
{
    let longer = files.push(last);
    if files.len() == 0 {
        assert(longer.drop_first() == Seq::<SourceFile>::empty());
        reveal_with_fuel(files_preimage, 2);
        assert(files_preimage(longer) == file_preimage(last) + Seq::<u8>::empty());
        assert(files_preimage(longer) == file_preimage(last));
        assert(files_preimage(files) + file_preimage(last) == file_preimage(last));
    } else {
        assert(longer.drop_first() == files.drop_first().push(last));
        lemma_files_preimage(files.drop_first(), last);
        assert(files_preimage(longer) == files_preimage(files) + file_preimage(last));
    }
}

proof fn lemma_state_preimage(files: Seq<SourceFile>)
    ensures
        state_preimage(files) == encode_utf8("bperf-source-state-v1\0"@) + files_preimage(files),
    decreases files.len(),
{
    if files.len() > 0 {
        lemma_state_preimage(files.drop_last());
        lemma_files_preimage(files.drop_last(), files.last());
        assert(files.drop_last().push(files.last()) == files);
    } else {
        assert(encode_utf8("bperf-source-state-v1\0"@) + files_preimage(files) == encode_utf8(
            "bperf-source-state-v1\0"@,
        ));
    }
}

/// The texts of a file can be framed.
pub open spec fn framable(file: SourceFile) -> bool {
    &&& encode_utf8(file.path@).len() <= u64::MAX
    &&& encode_utf8(file.sha256@).len() <= u64::MAX
}

/// Two files have the same path, the same digest, and the same size.
pub open spec fn same_file(a: SourceFile, b: SourceFile) -> bool {
    &&& a.path@ == b.path@
    &&& a.sha256@ == b.sha256@
    &&& a.size_bytes == b.size_bytes
}

proof fn lemma_files_unique(a: Seq<SourceFile>, b: Seq<SourceFile>)
    requires
        files_preimage(a) == files_preimage(b),
        forall|i: int| 0 <= i < a.len() ==> framable(#[trigger] a[i]),
        forall|i: int| 0 <= i < b.len() ==> framable(#[trigger] b[i]),
    ensures
        a.len() == b.len(),
        forall|i: int| 0 <= i < a.len() ==> same_file(#[trigger] a[i], b[i]),
    decreases a.len(),
{
    lemma_auto_spec_u64_to_from_le_bytes();
    if a.len() > 0 {
        assert(files_preimage(a).len() >= 8);
    }
    if b.len() > 0 {
        assert(files_preimage(b).len() >= 8);
    }
    if a.len() > 0 && b.len() > 0 {
        let x = a[0];
        let y = b[0];
        let rest_x = files_preimage(a.drop_first());
        let rest_y = files_preimage(b.drop_first());
        let size_x = spec_u64_to_le_bytes(x.size_bytes);
        let size_y = spec_u64_to_le_bytes(y.size_bytes);
        let second_x = digest::framed_text(x.sha256@) + (size_x + rest_x);
        let second_y = digest::framed_text(y.sha256@) + (size_y + rest_y);
        assert(files_preimage(a) == digest::framed_text(x.path@) + second_x);
        assert(files_preimage(b) == digest::framed_text(y.path@) + second_y);
        digest::lemma_framed_unique(
            encode_utf8(x.path@),
            second_x,
            encode_utf8(y.path@),
            second_y,
        );
        digest::lemma_framed_unique(
            encode_utf8(x.sha256@),
            size_x + rest_x,
            encode_utf8(y.sha256@),
            size_y + rest_y,
        );
        digest::lemma_utf8_unique(x.path@, y.path@);
        digest::lemma_utf8_unique(x.sha256@, y.sha256@);
        assert((size_x + rest_x).take(8) == size_x);
        assert((size_y + rest_y).take(8) == size_y);
        assert((size_x + rest_x).skip(8) == rest_x);
        assert((size_y + rest_y).skip(8) == rest_y);
        assert(spec_u64_from_le_bytes(size_x) == x.size_bytes);
        assert(spec_u64_from_le_bytes(size_y) == y.size_bytes);
        assert forall|i: int| 0 <= i < a.drop_first().len() implies framable(
            #[trigger] a.drop_first()[i],
        ) by {
            assert(a.drop_first()[i] == a[i + 1]);
        }
        assert forall|i: int| 0 <= i < b.drop_first().len() implies framable(
            #[trigger] b.drop_first()[i],
        ) by {
            assert(b.drop_first()[i] == b[i + 1]);
        }
        lemma_files_unique(a.drop_first(), b.drop_first());
        assert forall|i: int| 0 <= i < a.len() implies same_file(#[trigger] a[i], b[i]) by {
            if i > 0 {
                assert(same_file(a.drop_first()[i - 1], b.drop_first()[i - 1]));
            }
        }
    }
}

/// A state's identity covers every file: what is hashed is the same only where the states have the
/// same paths, digests, and sizes in the same order.
pub proof fn state_identity_covers_every_file(a: Seq<SourceFile>, b: Seq<SourceFile>)
    requires
        state_preimage(a) == state_preimage(b),
        forall|i: int| 0 <= i < a.len() ==> framable(#[trigger] a[i]),
        forall|i: int| 0 <= i < b.len() ==> framable(#[trigger] b[i]),
    ensures
        a.len() == b.len(),
        forall|i: int| 0 <= i < a.len() ==> same_file(#[trigger] a[i], b[i]),
{
    lemma_state_preimage(a);
    lemma_state_preimage(b);
    let name = encode_utf8("bperf-source-state-v1\0"@);
    assert(state_preimage(a).skip(name.len() as int) == files_preimage(a));
    assert(state_preimage(b).skip(name.len() as int) == files_preimage(b));
    lemma_files_unique(a, b);
}

/// A state does not differ from itself.
pub proof fn an_unchanged_state_has_no_changes(changes: Seq<FileChange>, files: Seq<SourceFile>)
    requires
        difference(changes, files, files),
    ensures
        changes.len() == 0,
{
    if changes.len() > 0 {
        assert(tells(changes[0], files, files));
    }
}

/// The changes lead from one state to the other: a path that changed has the digest that its change
/// tells, and every other path keeps the one it had.
pub proof fn changes_lead_to_the_new_state(
    changes: Seq<FileChange>,
    before: Seq<SourceFile>,
    after: Seq<SourceFile>,
    path: Seq<char>,
)
    requires
        difference(changes, before, after),
    ensures
        forall|i: int|
            0 <= i < changes.len() && (#[trigger] changes[i]).path@ == path ==> recorded(
                after,
                path,
            ) == text::opt(changes[i].after_sha256) && recorded(before, path) == text::opt(
                changes[i].before_sha256,
            ),
        !change_paths(changes).contains(path) ==> recorded(after, path) == recorded(before, path),
{
    assert forall|i: int| 0 <= i < changes.len() && (#[trigger] changes[i]).path@ == path implies
        recorded(after, path) == text::opt(changes[i].after_sha256) && recorded(before, path)
        == text::opt(changes[i].before_sha256) by {
        assert(tells(changes[i], before, after));
    }
}

} // verus!
