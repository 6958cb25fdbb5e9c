//! Where the Node sidecar is installed, and how paths are handed to it.

use vstd::prelude::*;
use vstd::string::*;

use crate::paths;
use crate::text;

verus! {

/// The environment variable that names a sidecar directory.
pub fn sidecar_directory_env() -> (r: &'static str)
    ensures
        r@ == "BPERF_SIDECAR_DIR"@,
{
    "BPERF_SIDECAR_DIR"
}

/// The kind of system that a path comes from.
#[derive(Clone, Copy, Debug, Eq, PartialEq, Structural)]
pub enum HostPlatform {
    Windows,
    Other,
}

/// A path without the verbatim syntax of Windows.
pub open spec fn without_verbatim(path: Seq<char>, platform: HostPlatform) -> Seq<char> {
    if platform == HostPlatform::Windows && "\\\\?\\UNC\\"@.is_prefix_of(path) {
        "\\\\"@ + path.skip("\\\\?\\UNC\\"@.len() as int)
    } else if platform == HostPlatform::Windows && "\\\\?\\"@.is_prefix_of(path) {
        path.skip("\\\\?\\"@.len() as int)
    } else {
        path
    }
}

/// Takes the verbatim syntax of Windows from a path.
pub fn plain_path(path: &str, platform: HostPlatform) -> (r: String)
    ensures
        r@ == without_verbatim(path@, platform),
{
    if platform == HostPlatform::Windows {
        let chars = text::chars_of(path);
        if text::has_prefix(path, "\\\\?\\UNC\\") {
            let start: usize = text::chars_of("\\\\?\\UNC\\").len();
            let mut out = "\\\\".to_owned();
            let rest = text::text_of(&chars, start, chars.len());
            assert(rest@ == path@.skip(start as int));
            out.append(&rest);
            return out;
        }
        if text::has_prefix(path, "\\\\?\\") {
            let start: usize = text::chars_of("\\\\?\\").len();
            let rest = text::text_of(&chars, start, chars.len());
            assert(rest@ == path@.skip(start as int));
            return rest;
        }
    }
    path.to_owned()
}

/// What has the verbatim syntax of Windows begins with two backslashes, and what has a drive does not
/// have it.
pub proof fn lemma_verbatim(path: Seq<char>)
    ensures
        path.len() == 0 || path[0] != '\\' ==> without_verbatim(path, HostPlatform::Windows) == path,
        path.len() < 2 || path[1] != '\\' ==> without_verbatim(path, HostPlatform::Windows) == path,
{
    reveal_strlit("\\\\?\\UNC\\");
    reveal_strlit("\\\\?\\");
    assert("\\\\?\\UNC\\"@[0] == '\\' && "\\\\?\\UNC\\"@[1] == '\\');
    assert("\\\\?\\"@[0] == '\\' && "\\\\?\\"@[1] == '\\');
}

/// A path as Node reads it: without the verbatim syntax of Windows, and without a slash before a
/// drive.
pub open spec fn for_node(path: Seq<char>, platform: HostPlatform) -> Seq<char> {
    paths::to_system(without_verbatim(path, platform), platform)
}

/// Preserves a path without the verbatim syntax of Windows, which Node interprets incorrectly when
/// the path names its entry module.
pub fn node_path(path: &str, platform: HostPlatform) -> (r: String)
    ensures
        r@ == for_node(path@, platform),
{
    paths::system_path(&plain_path(path, platform), platform)
}

/// An installed sidecar.
#[derive(Clone, Debug)]
pub struct SidecarInstallation {
    pub root: String,
}

/// A file below a directory, by the names that lead to it.
fn under(root: &str, first: &str, second: &str) -> (r: String)
    ensures
        r@ == paths::joined(paths::joined(root@, first@), second@),
{
    let directory = paths::join(root, first);
    paths::join(&directory, second)
}

impl SidecarInstallation {
    /// The program that drives the browsers.
    pub fn capture_entrypoint(&self) -> (r: String)
        ensures
            r@ == paths::joined(paths::joined(self.root@, "src"@), "bperf-sidecar.ts"@),
    {
        under(&self.root, "src", "bperf-sidecar.ts")
    }

    /// The program that hosts benchmark modules.
    pub fn benchmark_host(&self) -> (r: String)
        ensures
            r@ == paths::joined(paths::joined(self.root@, "src"@), "benchmark-host.ts"@),
    {
        under(&self.root, "src", "benchmark-host.ts")
    }
}

/// The files that an installation has to hold, below its root.
pub open spec fn required_files(root: Seq<char>) -> Seq<Seq<char>> {
    seq![
        paths::joined(paths::joined(root, "src"@), "bperf-sidecar.ts"@),
        paths::joined(paths::joined(root, "src"@), "benchmark-host.ts"@),
        paths::joined(root, "package.json"@),
        paths::joined(root, "package-lock.json"@),
        paths::joined(
            paths::joined(paths::joined(root, "node_modules"@), "playwright"@),
            "package.json"@,
        ),
        paths::joined(
            paths::joined(paths::joined(root, "node_modules"@), "esbuild"@),
            "package.json"@,
        ),
    ]
}

/// The files that an installation has to hold.
pub fn installation_files(root: &str) -> (r: Vec<String>)
    ensures
        text::views(r@) == required_files(root@),
{
    let modules = paths::join(root, "node_modules");
    let mut files: Vec<String> = Vec::new();
    files.push(under(root, "src", "bperf-sidecar.ts"));
    files.push(under(root, "src", "benchmark-host.ts"));
    files.push(paths::join(root, "package.json"));
    files.push(paths::join(root, "package-lock.json"));
    files.push(under(&modules, "playwright", "package.json"));
    files.push(under(&modules, "esbuild", "package.json"));
    assert(text::views(files@) == required_files(root@));
    files
}

/// Accepts an installation, given which of its required files are there; otherwise gives the index
/// of the first one that is missing.
pub fn validate(root: String, present: &Vec<bool>) -> (r: Result<SidecarInstallation, usize>)
    requires
        present@.len() == required_files(root@).len(),
    ensures
        match r {
            Ok(installation) => installation.root == root && forall|i: int|
                0 <= i < present@.len() ==> present@[i],
            Err(missing) => missing < present@.len() && !present@[missing as int] && forall|i: int|
                0 <= i < missing ==> present@[i],
        },
{
    let mut i: usize = 0;
    while i < present.len()
        invariant
            i <= present@.len(),
            forall|j: int| 0 <= j < i ==> present@[j],
        decreases present@.len() - i,
    {
        if !present[i] {
            return Err(i);
        }
        i += 1;
    }
    Ok(SidecarInstallation { root })
}

/// The places where a sidecar is looked for when none is configured, in order: beside the
/// executable, in the runtime directory of this version, and in the development checkout.
pub open spec fn places(
    executable: Option<Seq<char>>,
    version: Seq<char>,
    development: Seq<char>,
) -> Seq<Seq<char>> {
    match executable {
        None => seq![development],
        Some(executable) => match paths::parent(executable) {
            None => seq![development],
            Some(directory) => seq![
                paths::joined(directory, "sidecar"@),
                paths::joined(
                    paths::joined(paths::joined(directory, "bperf-runtime"@), version),
                    "sidecar"@,
                ),
                development,
            ],
        },
    }
}

/// The places where a sidecar is looked for when none is configured.
pub fn search_places(executable: Option<&str>, version: &str, development: &str) -> (r: Vec<String>)
    ensures
        text::views(r@) == places(
            match executable {
                Some(path) => Some(path@),
                None => None,
            },
            version@,
            development@,
        ),
{
    let mut out: Vec<String> = Vec::new();
    if let Some(path) = executable {
        if let Some(directory) = paths::parent_path(path) {
            out.push(paths::join(&directory, "sidecar"));
            let runtime = under(&directory, "bperf-runtime", version);
            out.push(paths::join(&runtime, "sidecar"));
        }
    }
    out.push(development.to_owned());
    assert(text::views(out@) == places(
        match executable {
            Some(path) => Some(path@),
            None => None,
        },
        version@,
        development@,
    ));
    out
}

/// Where the sidecar is expected.
#[derive(Clone, Copy, Debug, Eq, PartialEq, Structural)]
pub enum SidecarSource {
    /// In the configured directory, and nowhere else.
    Configured,
    /// In the place with this index.
    Place(usize),
    /// Nowhere.
    Missing,
}

/// Chooses where the sidecar is expected: in the configured directory where there is one, else in
/// the first place that exists.
pub fn discover_from(configured: bool, exists: &Vec<bool>) -> (r: SidecarSource)
    ensures
        match r {
            SidecarSource::Configured => configured,
            SidecarSource::Place(i) => !configured && i < exists@.len() && exists@[i as int]
                && forall|j: int| 0 <= j < i ==> !exists@[j],
            SidecarSource::Missing => !configured && forall|j: int|
                0 <= j < exists@.len() ==> !exists@[j],
        },
{
    if configured {
        return SidecarSource::Configured;
    }
    let mut i: usize = 0;
    while i < exists.len()
        invariant
            i <= exists@.len(),
            !configured,
            forall|j: int| 0 <= j < i ==> !exists@[j],
        decreases exists@.len() - i,
    {
        if exists[i] {
            return SidecarSource::Place(i);
        }
        i += 1;
    }
    SidecarSource::Missing
}

/// What to tell a user whose sidecar cannot be used.
pub fn discovery_failure(source: SidecarSource) -> (r: String)
    ensures
        r@ == match source {
            SidecarSource::Configured =>
                "BPERF_SIDECAR_DIR does not name a usable sidecar installation"@,
            SidecarSource::Place(_) => "sidecar installation is incomplete"@,
            SidecarSource::Missing =>
                "could not find the bperf Node sidecar; install the release bundle beside the executable or set BPERF_SIDECAR_DIR"@,
        },
{
    match source {
        SidecarSource::Configured =>
            "BPERF_SIDECAR_DIR does not name a usable sidecar installation".to_owned(),
        SidecarSource::Place(_) => "sidecar installation is incomplete".to_owned(),
        SidecarSource::Missing =>
            "could not find the bperf Node sidecar; install the release bundle beside the executable or set BPERF_SIDECAR_DIR".to_owned(),
    }
}

} // verus!
