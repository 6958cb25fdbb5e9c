//! The modules that make up a browser bundle: which files belong to it, and its identity.

use vstd::prelude::*;
use vstd::string::*;

use crate::digest;
use crate::paths;
use crate::paths::PathError;
use crate::text;

verus! {

// Files of a project.

/// A path without links, and whether a file lies there.
#[derive(Clone, Debug)]
pub struct ResolvedFile {
    pub path: String,
    pub is_file: bool,
}

/// Why a path is not one of a project.
#[derive(Clone, Copy, Debug, Eq, PartialEq, Structural)]
pub enum LocationError {
    /// The path is blank or absolute.
    NotRelative,
    Outside,
    NotAFile,
}

/// Why a file does not belong to a project, if it does not.
pub open spec fn location_failure(root: Seq<char>, file: ResolvedFile) -> Option<LocationError> {
    if !paths::parts(root).is_prefix_of(paths::parts(file.path@)) {
        Some(LocationError::Outside)
    } else if !file.is_file {
        Some(LocationError::NotAFile)
    } else {
        None
    }
}

/// Checks that a file belongs to a project: it lies below the root, and is a file.
pub fn project_file(root: &str, file: &ResolvedFile) -> (r: Result<(), LocationError>)
    ensures
        match location_failure(root@, *file) {
            Some(error) => r == Err::<(), LocationError>(error),
            None => r == Ok::<(), LocationError>(()),
        },
{
    if !paths::begins_with(root, &file.path) {
        return Err(LocationError::Outside);
    }
    if !file.is_file {
        return Err(LocationError::NotAFile);
    }
    Ok(())
}

impl LocationError {
    /// What is said of the error about a label and a path.
    pub fn message(&self, label: &str, path: &str) -> (r: String)
        ensures
            r@ == match *self {
                LocationError::NotRelative => label@
                    + " must be a non-empty project-relative path"@,
                LocationError::Outside => label@ + " is outside benchmark root: "@ + path@,
                LocationError::NotAFile => label@ + " is not a file: "@ + path@,
            },
    {
        let mut out = label.to_owned();
        match self {
            LocationError::NotRelative => {
                out.append(" must be a non-empty project-relative path");
            },
            LocationError::Outside => {
                out.append(" is outside benchmark root: ");
                out.append(path);
            },
            LocationError::NotAFile => {
                out.append(" is not a file: ");
                out.append(path);
            },
        }
        out
    }
}

/// A path as bundle metadata may hold it: neither blank nor absolute.
pub open spec fn is_project_relative(path: Seq<char>) -> bool {
    !text::blank(path) && !paths::is_absolute(path)
}

/// Tells whether a path is one that bundle metadata may hold.
pub fn project_relative(path: &str) -> (r: bool)
    ensures
        r == is_project_relative(path@),
{
    proof {
        text::lemma_trimmed_blank(path@);
    }
    !text::trim(path).as_str().is_empty() && !paths::absolute(path)
}

// Bundles.

/// What is recorded of a bundle.
#[derive(Clone, Debug)]
pub struct BundleMetadata {
    pub schema_version: u32,
    pub bundler_name: String,
    pub bundler_version: String,
    pub entry_path: String,
    pub source_files: Vec<String>,
}

/// Why a bundle is refused.
#[derive(Clone, Copy, Debug, Eq, PartialEq, Structural)]
pub enum BundleError {
    Unsupported,
    Entry(LocationError),
    /// The bundle is that of another module.
    OtherEntry,
    /// The source with this index does not belong to the project.
    Source(usize, LocationError),
    NoSources,
    DuplicateSources,
}

/// The metadata has the form that is supported.
pub open spec fn supported(metadata: BundleMetadata) -> bool {
    &&& metadata.schema_version == 1
    &&& metadata.bundler_name@ == "rolldown"@
    &&& !text::blank(metadata.bundler_version@)
}

/// Why a path of bundle metadata is not one of a project, if it is not.
pub open spec fn metadata_failure(root: Seq<char>, path: Seq<char>, file: ResolvedFile) -> Option<
    LocationError,
> {
    if !is_project_relative(path) {
        Some(LocationError::NotRelative)
    } else {
        location_failure(root, file)
    }
}

/// Why the first `n` sources of a bundle are refused, if they are.
pub open spec fn sources_failure(
    root: Seq<char>,
    sources: Seq<String>,
    files: Seq<ResolvedFile>,
    n: int,
) -> Option<BundleError>
    decreases n,
{
    if n <= 0 {
        None
    } else if sources_failure(root, sources, files, n - 1) is Some {
        sources_failure(root, sources, files, n - 1)
    } else {
        match metadata_failure(root, sources[n - 1]@, files[n - 1]) {
            Some(error) => Some(BundleError::Source((n - 1) as usize, error)),
            None => None,
        }
    }
}

/// No two files have the same path.
pub open spec fn distinct_files(files: Seq<ResolvedFile>) -> bool {
    forall|i: int, j: int|
        0 <= i < j < files.len() ==> paths::parts((#[trigger] files[i]).path@) != paths::parts(
            (#[trigger] files[j]).path@,
        )
}

/// Why a bundle is refused, if it is, given what its paths lead to.
pub open spec fn bundle_failure(
    root: Seq<char>,
    entry: Seq<char>,
    metadata: BundleMetadata,
    entry_file: ResolvedFile,
    files: Seq<ResolvedFile>,
) -> Option<BundleError> {
    let misplaced = metadata_failure(root, metadata.entry_path@, entry_file);
    let refused = sources_failure(root, metadata.source_files@, files, files.len() as int);
    if !supported(metadata) {
        Some(BundleError::Unsupported)
    } else if misplaced is Some {
        Some(BundleError::Entry(misplaced->0))
    } else if paths::parts(entry_file.path@) != paths::parts(entry) {
        Some(BundleError::OtherEntry)
    } else if refused is Some {
        refused
    } else if files.len() == 0 {
        Some(BundleError::NoSources)
    } else if !distinct_files(files) {
        Some(BundleError::DuplicateSources)
    } else {
        None
    }
}

proof fn lemma_sources_failure(
    root: Seq<char>,
    sources: Seq<String>,
    files: Seq<ResolvedFile>,
    n: int,
    m: int,
)
    requires
        0 <= n <= m,
        sources_failure(root, sources, files, n) is Some,
    ensures
        sources_failure(root, sources, files, m) == sources_failure(root, sources, files, n),
    decreases m - n,
{
    if n < m {
        lemma_sources_failure(root, sources, files, n, m - 1);
    }
}

fn check_metadata_path(root: &str, path: &str, file: &ResolvedFile) -> (r: Option<LocationError>)
    ensures
        r == metadata_failure(root@, path@, *file),
{
    if !project_relative(path) {
        return Some(LocationError::NotRelative);
    }
    match project_file(root, file) {
        Err(error) => Some(error),
        Ok(_) => None,
    }
}

fn check_sources(root: &str, sources: &Vec<String>, files: &Vec<ResolvedFile>) -> (r: Option<
    BundleError,
>)
    requires
        sources@.len() == files@.len(),
    ensures
        r == sources_failure(root@, sources@, files@, files@.len() as int),
{
    let mut i: usize = 0;
    while i < files.len()
        invariant
            i <= files@.len(),
            sources@.len() == files@.len(),
            sources_failure(root@, sources@, files@, i as int) is None,
        decreases files@.len() - i,
    {
        if let Some(error) = check_metadata_path(root, &sources[i], &files[i]) {
            proof {
                lemma_sources_failure(root@, sources@, files@, i + 1, files@.len() as int);
            }
            return Some(BundleError::Source(i, error));
        }
        i += 1;
    }
    None
}

/// Accepts a bundle, given what its paths lead to, and lists its sources in order: its metadata has
/// the supported form, its entry is the benchmark's module, and its sources are different files of
/// the project.
pub fn open(
    root: &str,
    entry: &str,
    metadata: &BundleMetadata,
    entry_file: &ResolvedFile,
    files: &Vec<ResolvedFile>,
) -> (r: Result<Vec<String>, BundleError>)
    requires
        metadata.source_files@.len() == files@.len(),
    ensures
        match bundle_failure(root@, entry@, *metadata, *entry_file, files@) {
            Some(error) => r == Err::<Vec<String>, BundleError>(error),
            None => {
                &&& r is Ok
                &&& r->Ok_0@.len() == files@.len()
                &&& paths::in_order(r->Ok_0@)
                &&& forall|i: int|
                    0 <= i < files@.len() ==> paths::listed(
                        r->Ok_0@,
                        (#[trigger] files@[i]).path@,
                    )
            },
        },
{
    proof {
        text::lemma_trimmed_blank(metadata.bundler_version@);
    }
    if metadata.schema_version != 1 || !text::same(&metadata.bundler_name, "rolldown")
        || text::trim(&metadata.bundler_version).as_str().is_empty() {
        return Err(BundleError::Unsupported);
    }
    if let Some(error) = check_metadata_path(root, &metadata.entry_path, entry_file) {
        return Err(BundleError::Entry(error));
    }
    if !paths::same_path(&entry_file.path, entry) {
        return Err(BundleError::OtherEntry);
    }
    if let Some(error) = check_sources(root, &metadata.source_files, files) {
        return Err(error);
    }
    if files.len() == 0 {
        return Err(BundleError::NoSources);
    }
    let mut out: Vec<String> = Vec::new();
    let mut i: usize = 0;
    while i < files.len()
        invariant
            i <= files@.len(),
            out@.len() == i,
            paths::in_order(out@),
            forall|j: int| 0 <= j < i ==> paths::listed(out@, (#[trigger] files@[j]).path@),
            forall|other: Seq<char>| #[trigger]
                paths::listed(out@, other) ==> exists|j: int|
                    0 <= j < i && paths::parts((#[trigger] files@[j]).path@) == paths::parts(other),
            forall|a: int, b: int|
                0 <= a < b < i ==> paths::parts((#[trigger] files@[a]).path@) != paths::parts(
                    (#[trigger] files@[b]).path@,
                ),
            bundle_failure(root@, entry@, *metadata, *entry_file, files@) == (if !distinct_files(
                files@,
            ) {
                Some(BundleError::DuplicateSources)
            } else {
                None
            }),
        decreases files@.len() - i,
    {
        let ghost before = out@;
        if !paths::insert_path(&mut out, &files[i].path) {
            proof {
                let j = choose|j: int|
                    0 <= j < i && paths::parts((#[trigger] files@[j]).path@) == paths::parts(
                        files@[i as int].path@,
                    );
                assert(!distinct_files(files@));
            }
            return Err(BundleError::DuplicateSources);
        }
        proof {
            assert forall|a: int, b: int| 0 <= a < b < i + 1 implies paths::parts(
                (#[trigger] files@[a]).path@,
            ) != paths::parts((#[trigger] files@[b]).path@) by {
                if b == i && paths::parts(files@[a].path@) == paths::parts(files@[b].path@) {
                    assert(paths::listed(before, files@[a].path@));
                    let k = choose|k: int|
                        0 <= k < before.len() && paths::parts((#[trigger] before[k])@)
                            == paths::parts(files@[a].path@);
                    assert(paths::listed(before, files@[b].path@));
                }
            }
            assert forall|other: Seq<char>| #[trigger] paths::listed(out@, other) implies exists|
                j: int,
            |
                0 <= j < i + 1 && paths::parts((#[trigger] files@[j]).path@) == paths::parts(
                    other,
                ) by {
                if paths::listed(before, other) {
                    let j = choose|j: int|
                        0 <= j < i && paths::parts((#[trigger] files@[j]).path@) == paths::parts(
                            other,
                        );
                    assert(paths::parts(files@[j].path@) == paths::parts(other));
                } else {
                    assert(paths::parts(files@[i as int].path@) == paths::parts(other));
                }
            }
            assert forall|j: int| 0 <= j < i + 1 implies paths::listed(
                out@,
                (#[trigger] files@[j]).path@,
            ) by {
                if j < i {
                    assert(paths::listed(before, files@[j].path@));
                }
            }
        }
        i += 1;
    }
    assert(distinct_files(files@));
    Ok(out)
}

impl BundleError {
    /// What is said of the error about the metadata's path and a source's path.
    pub fn message(&self, metadata_path: &str, path: &str) -> (r: String)
        ensures
            r@ == match *self {
                BundleError::Unsupported => "unsupported browser bundle metadata "@
                    + metadata_path@,
                BundleError::Entry(error) => location_text(error, "bundle entry"@, path@),
                BundleError::OtherEntry =>
                    "browser bundle entry does not match benchmark module"@,
                BundleError::Source(_, error) => location_text(error, "bundled module"@, path@),
                BundleError::NoSources =>
                    "browser bundle metadata contains no project source files"@,
                BundleError::DuplicateSources =>
                    "browser bundle metadata contains duplicate project source files"@,
            },
    {
        match self {
            BundleError::Unsupported => {
                let mut out = "unsupported browser bundle metadata ".to_owned();
                out.append(metadata_path);
                out
            },
            BundleError::Entry(error) => error.message("bundle entry", path),
            BundleError::OtherEntry =>
                "browser bundle entry does not match benchmark module".to_owned(),
            BundleError::Source(_, error) => error.message("bundled module", path),
            BundleError::NoSources =>
                "browser bundle metadata contains no project source files".to_owned(),
            BundleError::DuplicateSources =>
                "browser bundle metadata contains duplicate project source files".to_owned(),
        }
    }
}

/// What is said of a path that is not one of a project.
pub open spec fn location_text(error: LocationError, label: Seq<char>, path: Seq<char>) -> Seq<char> {
    match error {
        LocationError::NotRelative => label + " must be a non-empty project-relative path"@,
        LocationError::Outside => label + " is outside benchmark root: "@ + path,
        LocationError::NotAFile => label + " is not a file: "@ + path,
    }
}

// Sources.

/// What is done with a file that a bundle was made of.
#[derive(Clone, Copy, Debug, Eq, PartialEq, Structural)]
pub enum WatchedFile {
    /// It is not a file, or it is the library's own module.
    Skip,
    /// It is a source of the project.
    Source,
}

/// Where a file that a bundle was made of lies.
pub fn watched_path(root: &str, watched: &str) -> (r: String)
    ensures
        r@ == paths::joined(root@, watched@),
{
    paths::join(root, watched)
}

/// Settles what is done with a file that a bundle was made of. Its path is without links.
pub fn watched_file(root: &str, browser_sdk: &str, file: &ResolvedFile) -> (r: Result<
    WatchedFile,
    LocationError,
>)
    ensures
        r == if !file.is_file || paths::parts(file.path@) == paths::parts(browser_sdk@) {
            Ok::<WatchedFile, LocationError>(WatchedFile::Skip)
        } else if !paths::parts(root@).is_prefix_of(paths::parts(file.path@)) {
            Err::<WatchedFile, LocationError>(LocationError::Outside)
        } else {
            Ok::<WatchedFile, LocationError>(WatchedFile::Source)
        },
{
    if !file.is_file || paths::same_path(&file.path, browser_sdk) {
        return Ok(WatchedFile::Skip);
    }
    if !paths::begins_with(root, &file.path) {
        return Err(LocationError::Outside);
    }
    Ok(WatchedFile::Source)
}

/// The names of the files by which modules are found.
pub open spec fn resolution_names() -> Seq<Seq<char>> {
    seq![
        "package.json"@,
        "package-lock.json"@,
        "npm-shrinkwrap.json"@,
        "pnpm-lock.yaml"@,
        "yarn.lock"@,
        "bun.lock"@,
        "bun.lockb"@,
        "tsconfig.json"@,
        "jsconfig.json"@,
    ]
}

fn resolution_files() -> (r: Vec<&'static str>)
    ensures
        r@.len() == 9,
        forall|k: int| 0 <= k < 9 ==> (#[trigger] r@[k])@ == resolution_names()[k],
{
    vec![
        "package.json",
        "package-lock.json",
        "npm-shrinkwrap.json",
        "pnpm-lock.yaml",
        "yarn.lock",
        "bun.lock",
        "bun.lockb",
        "tsconfig.json",
        "jsconfig.json",
    ]
}

/// A directory and those that it lies in up to a root, where it lies in it.
pub open spec fn directories_up(root: Seq<char>, directory: Seq<char>) -> Option<Seq<Seq<char>>>
    decreases directory.len(),
{
    if paths::parts(directory) == paths::parts(root) {
        Some(seq![directory])
    } else {
        match paths::parent(directory) {
            None => None,
            Some(parent) => if parent.len() < directory.len() {
                match directories_up(root, parent) {
                    Some(rest) => Some(seq![directory] + rest),
                    None => None,
                }
            } else {
                None
            },
        }
    }
}

fn ancestors(root: &str, directory: &str) -> (r: Option<Vec<String>>)
    ensures
        match directories_up(root@, directory@) {
            Some(directories) => r is Some && text::views(r->0@) == directories,
            None => r is None,
        },
{
    let mut out: Vec<String> = Vec::new();
    let mut current = directory.to_owned();
    loop
        invariant
            match directories_up(root@, current@) {
                Some(rest) => directories_up(root@, directory@) == Some(text::views(out@) + rest),
                None => directories_up(root@, directory@) is None,
            },
        decreases current@.len(),
    {
        let ghost before = text::views(out@);
        let ghost here = current@;
        let up = paths::parent_path(&current);
        let done = paths::same_path(&current, root);
        out.push(current);
        assert(text::views(out@) == before.push(here));
        if done {
            assert(before + seq![here] == before.push(here));
            return Some(out);
        }
        match up {
            None => {
                return None;
            },
            Some(parent) => {
                proof {
                    paths::lemma_parent_shorter(here);
                    if directories_up(root@, parent@) is Some {
                        let rest = directories_up(root@, parent@)->0;
                        assert(before + (seq![here] + rest) == before.push(here) + rest);
                    }
                }
                current = parent;
            },
        }
    }
}

/// The files by which the modules of a directory may be found: those of the directory and of every
/// one that it lies in up to the root.
pub fn resolution_candidates(root: &str, directory: &str) -> (r: Option<Vec<String>>)
    ensures
        match directories_up(root@, directory@) {
            Some(directories) => {
                &&& r is Some
                &&& r->0@.len() == 9 * directories.len()
                &&& forall|d: int, k: int|
                    0 <= d < directories.len() && 0 <= k < 9 ==> (#[trigger] r->0@[9 * d + k])@
                        == paths::joined(directories[d], resolution_names()[k])
            },
            None => r is None,
        },
{
    let directories = match ancestors(root, directory) {
        None => {
            return None;
        },
        Some(directories) => directories,
    };
    let names = resolution_files();
    let ghost all = text::views(directories@);
    let mut out: Vec<String> = Vec::new();
    let mut d: usize = 0;
    while d < directories.len()
        invariant
            d <= directories@.len(),
            all == text::views(directories@),
            names@.len() == 9,
            forall|k: int| 0 <= k < 9 ==> (#[trigger] names@[k])@ == resolution_names()[k],
            out@.len() == 9 * d,
            forall|c: int, k: int|
                0 <= c < d && 0 <= k < 9 ==> (#[trigger] out@[9 * c + k])@ == paths::joined(
                    all[c],
                    resolution_names()[k],
                ),
        decreases directories@.len() - d,
    {
        let mut k: usize = 0;
        while k < names.len()
            invariant
                d < directories@.len(),
                k <= names@.len(),
                all == text::views(directories@),
                names@.len() == 9,
                forall|k: int| 0 <= k < 9 ==> (#[trigger] names@[k])@ == resolution_names()[k],
                out@.len() == 9 * d + k,
                forall|c: int, j: int|
                    0 <= c <= d && 0 <= j < 9 && (c < d || j < k) ==> (
                    #[trigger] out@[9 * c + j])@ == paths::joined(all[c], resolution_names()[j]),
            decreases names@.len() - k,
        {
            let ghost before = out@;
            out.push(paths::join(&directories[d], names[k]));
            proof {
                assert forall|c: int, j: int|
                    0 <= c <= d && 0 <= j < 9 && (c < d || j < k + 1) implies (
                #[trigger] out@[9 * c + j])@ == paths::joined(all[c], resolution_names()[j]) by {
                    if c < d || j < k {
                        assert(9 * c + j < before.len());
                        assert(out@[9 * c + j] == before[9 * c + j]);
                    }
                }
            }
            k += 1;
        }
        d += 1;
    }
    Some(out)
}

/// The way up from a directory starts with the directory, and ends with the root.
pub proof fn the_way_up_ends_at_the_root(root: Seq<char>, directory: Seq<char>)
    requires
        directories_up(root, directory) is Some,
    ensures
        directories_up(root, directory)->0.len() > 0,
        directories_up(root, directory)->0[0] == directory,
        paths::parts(directories_up(root, directory)->0.last()) == paths::parts(root),
    decreases directory.len(),
{
    if paths::parts(directory) != paths::parts(root) {
        let parent = paths::parent(directory)->0;
        the_way_up_ends_at_the_root(root, parent);
        let rest = directories_up(root, parent)->0;
        assert((seq![directory] + rest).last() == rest.last());
    }
}

// Names in bundles.

/// What a source is called in a source map.
pub open spec fn mapped_name(
    root: Seq<char>,
    browser_sdk: Seq<char>,
    alias: Seq<char>,
    source: Seq<char>,
) -> Seq<char> {
    if paths::parts(source) == paths::parts(browser_sdk) || paths::parts(source) == paths::parts(
        alias,
    ) {
        "bperf/browser"@
    } else {
        match paths::portable_below(root, source) {
            Ok(relative) => text::replaced(relative, '\\', '/'),
            Err(PathError::Empty) => ""@,
            Err(_) => source,
        }
    }
}

/// What a source is called in a source map: the library's own module by the name that it is imported
/// under, sources of the project by their path in it, and others by their whole path.
pub fn source_map_name(root: &str, browser_sdk: &str, alias: &str, source: &str) -> (r: String)
    ensures
        r@ == mapped_name(root@, browser_sdk@, alias@, source@),
{
    if paths::same_path(source, browser_sdk) || paths::same_path(source, alias) {
        return "bperf/browser".to_owned();
    }
    match paths::relative_path(root, source) {
        Ok(relative) => text::replace(&relative, '\\', '/'),
        Err(PathError::Empty) => "".to_owned(),
        Err(_) => source.to_owned(),
    }
}

/// How a file of a project is recorded: by its path in the project, with slashes.
pub open spec fn recorded_path(root: Seq<char>, target: Seq<char>) -> Result<Seq<char>, PathError> {
    match paths::portable_below(root, target) {
        Ok(relative) => Ok(text::replaced(relative, '\\', '/')),
        Err(error) => Err(error),
    }
}

/// How a file of a project is recorded.
pub fn relative_path(root: &str, target: &str) -> (r: Result<String, PathError>)
    ensures
        match recorded_path(root@, target@) {
            Ok(path) => r is Ok && r->Ok_0@ == path,
            Err(error) => r == Err::<String, PathError>(error),
        },
{
    match paths::relative_path(root, target) {
        Ok(relative) => Ok(text::replace(&relative, '\\', '/')),
        Err(error) => Err(error),
    }
}

/// How the entry of a bundle is named to a bundler.
pub fn entry_point(root: &str, entry: &str) -> (r: Result<String, PathError>)
    ensures
        match recorded_path(root@, entry@) {
            Ok(path) => r is Ok && r->Ok_0@ == "./"@ + path,
            Err(error) => r == Err::<String, PathError>(error),
        },
{
    match relative_path(root, entry) {
        Ok(path) => {
            let mut out = "./".to_owned();
            out.append(&path);
            Ok(out)
        },
        Err(error) => Err(error),
    }
}

/// The name of the file that holds the library's own module, by its content.
pub fn browser_sdk_name(source: &[u8]) -> (r: String)
    ensures
        r@ == "bperf-browser-sdk-"@ + digest::sha256(source@) + ".ts"@,
{
    let mut out = "bperf-browser-sdk-".to_owned();
    out.append(&digest::sha256_hex(source));
    out.append(".ts");
    out
}

/// Why what a bundler made is refused.
#[derive(Clone, Copy, Debug, Eq, PartialEq, Structural)]
pub enum OutputError {
    /// There is not exactly one output.
    Count,
    /// The output is not a script.
    Name,
}

/// Checks that a bundler made exactly one script.
pub fn check_output(count: usize, name: &str) -> (r: Result<(), OutputError>)
    ensures
        r == if count != 1 {
            Err::<(), OutputError>(OutputError::Count)
        } else if name@.len() < 3 || name@.skip(name@.len() - 3) != ".js"@ {
            Err::<(), OutputError>(OutputError::Name)
        } else {
            Ok::<(), OutputError>(())
        },
{
    if count != 1 {
        return Err(OutputError::Count);
    }
    let chars = text::chars_of(name);
    let n: usize = chars.len();
    if n < 3 {
        return Err(OutputError::Name);
    }
    let end = text::text_of(&chars, n - 3, n);
    assert(end@ == name@.skip(name@.len() - 3));
    if !text::same(&end, ".js") {
        return Err(OutputError::Name);
    }
    Ok(())
}

} // verus!
