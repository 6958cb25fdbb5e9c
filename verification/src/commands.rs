//! What the commands of the program resolve their arguments to.

use vstd::prelude::*;
use vstd::string::*;

use crate::browser_lab;
use crate::browser_lab::Engine;
use crate::paths;

verus! {

// Engines.

/// The engines that a command is asked for.
#[derive(Clone, Copy, Debug, Eq, PartialEq, Structural)]
pub enum EngineSelection {
    Chromium,
    Firefox,
    Webkit,
    All,
}

/// The engines that are selected.
pub open spec fn selected_engines(selection: EngineSelection) -> Seq<Engine> {
    match selection {
        EngineSelection::Chromium => seq![Engine::Chromium],
        EngineSelection::Firefox => seq![Engine::Firefox],
        EngineSelection::Webkit => seq![Engine::Webkit],
        EngineSelection::All => browser_lab::all_engines(),
    }
}

/// The builds that browsers are installed from.
#[derive(Clone, Copy, Debug, Eq, PartialEq, Structural)]
pub enum BrowserName {
    ChromiumHeadlessShell,
    Firefox,
    Webkit,
}

/// The build of an engine.
pub open spec fn browser_of(engine: Engine) -> BrowserName {
    match engine {
        Engine::Chromium => BrowserName::ChromiumHeadlessShell,
        Engine::Firefox => BrowserName::Firefox,
        Engine::Webkit => BrowserName::Webkit,
    }
}

impl Default for EngineSelection {
    fn default() -> (r: EngineSelection)
        ensures
            r == EngineSelection::All,
    {
        EngineSelection::All
    }
}

impl EngineSelection {
    /// The engines that are selected.
    pub fn engines(self) -> (r: Vec<Engine>)
        ensures
            r@ == selected_engines(self),
    {
        let mut out: Vec<Engine> = Vec::new();
        match self {
            EngineSelection::Chromium => out.push(Engine::Chromium),
            EngineSelection::Firefox => out.push(Engine::Firefox),
            EngineSelection::Webkit => out.push(Engine::Webkit),
            EngineSelection::All => {
                return Engine::all();
            },
        }
        assert(out@ == selected_engines(self));
        out
    }

    /// The builds of the engines that are selected.
    pub fn browsers(self) -> (r: Vec<BrowserName>)
        ensures
            r@ == selected_engines(self).map_values(|engine: Engine| browser_of(engine)),
    {
        let mut out: Vec<BrowserName> = Vec::new();
        match self {
            EngineSelection::Chromium => out.push(BrowserName::ChromiumHeadlessShell),
            EngineSelection::Firefox => out.push(BrowserName::Firefox),
            EngineSelection::Webkit => out.push(BrowserName::Webkit),
            EngineSelection::All => {
                out.push(BrowserName::ChromiumHeadlessShell);
                out.push(BrowserName::Firefox);
                out.push(BrowserName::Webkit);
            },
        }
        assert(out@ == selected_engines(self).map_values(|engine: Engine| browser_of(engine)));
        out
    }
}

// Directories.

/// The directory that holds what the program writes.
#[derive(Clone, Debug)]
pub struct DataDirectory {
    pub root: String,
}

/// A directory: the one that was asked for, else one below the data directory.
pub open spec fn resolved(root: Seq<char>, requested: Option<String>, child: Seq<char>) -> Seq<char> {
    match requested {
        Some(path) => path@,
        None => paths::joined(root, child),
    }
}

impl DataDirectory {
    /// A directory below another.
    pub fn new(root: String) -> (r: DataDirectory)
        ensures
            r.root == root,
    {
        DataDirectory { root }
    }

    /// Where the proofs of browsers are written.
    pub fn doctor(&self, requested: Option<String>) -> (r: String)
        ensures
            r@ == resolved(self.root@, requested, "doctor"@),
    {
        self.resolve(requested, "doctor")
    }

    /// Where measurement sets are written.
    pub fn measurements(&self, requested: Option<String>) -> (r: String)
        ensures
            r@ == resolved(self.root@, requested, "measurements"@),
    {
        self.resolve(requested, "measurements")
    }

    /// Where the state of managed benchmarks is written.
    pub fn managed(&self, requested: Option<String>) -> (r: String)
        ensures
            r@ == resolved(self.root@, requested, "managed"@),
    {
        self.resolve(requested, "managed")
    }

    /// Where objects are written.
    pub fn objects(&self, requested: Option<String>) -> (r: String)
        ensures
            r@ == resolved(self.root@, requested, "objects"@),
    {
        self.resolve(requested, "objects")
    }

    /// Where baselines are registered.
    pub fn baselines(&self, requested: Option<String>) -> (r: String)
        ensures
            r@ == resolved(self.root@, requested, "baselines"@),
    {
        self.resolve(requested, "baselines")
    }

    /// Where comparisons are written.
    pub fn comparisons(&self, requested: Option<String>) -> (r: String)
        ensures
            r@ == resolved(self.root@, requested, "comparisons"@),
    {
        self.resolve(requested, "comparisons")
    }

    /// Where lineages are written.
    pub fn lineages(&self, requested: Option<String>) -> (r: String)
        ensures
            r@ == resolved(self.root@, requested, "lineages"@),
    {
        self.resolve(requested, "lineages")
    }

    fn resolve(&self, requested: Option<String>, child: &str) -> (r: String)
        ensures
            r@ == resolved(self.root@, requested, child@),
    {
        match requested {
            Some(path) => path,
            None => paths::join(&self.root, child),
        }
    }
}

// Screens.

/// The history is browsed on a screen: nothing in particular was asked for, and there is a terminal.
pub fn browses_history(
    benchmark: &Option<String>,
    lineage_dir: &Option<String>,
    formatted: bool,
    terminal: bool,
) -> (r: bool)
    ensures
        r == (benchmark is None && lineage_dir is None && !formatted && terminal),
{
    benchmark.is_none() && lineage_dir.is_none() && !formatted && terminal
}

/// What is run.
#[derive(Clone, Debug)]
pub enum RunTarget {
    /// This benchmark module.
    Module(String),
    /// What is picked from this directory.
    Pick(String),
}

/// A benchmark cannot be picked without a terminal.
#[derive(Clone, Copy, Debug, Eq, PartialEq, Structural)]
pub struct NoTerminal;

impl NoTerminal {
    /// The error in words.
    pub fn message(self) -> (r: &'static str)
        ensures
            r@
                == "interactive benchmark selection requires a terminal; pass a .bench.ts file to run non-interactively"@,
    {
        "interactive benchmark selection requires a terminal; pass a .bench.ts file to run non-interactively"
    }
}

/// Tells what is run: a module that was named, or else what is picked from the directory that was
/// named or from `benchmarks`. `is_directory` says of what was named that it is a directory.
pub fn run_target(
    requested: Option<String>,
    is_directory: bool,
    json: bool,
    terminal: bool,
) -> (r: Result<RunTarget, NoTerminal>)
    ensures
        match requested {
            Some(path) => if !is_directory {
                r matches Ok(RunTarget::Module(module)) && module@ == path@
            } else if json || !terminal {
                r is Err
            } else {
                r matches Ok(RunTarget::Pick(directory)) && directory@ == path@
            },
            None => if json || !terminal {
                r is Err
            } else {
                r matches Ok(RunTarget::Pick(directory)) && directory@ == "benchmarks"@
            },
        },
{
    if requested.is_some() && !is_directory {
        if let Some(path) = requested {
            return Ok(RunTarget::Module(path));
        }
        return Err(NoTerminal);
    }
    if json || !terminal {
        return Err(NoTerminal);
    }
    match requested {
        Some(path) => Ok(RunTarget::Pick(path)),
        None => Ok(RunTarget::Pick("benchmarks".to_owned())),
    }
}

} // verus!
