//! What a measurement set ran in: the identity of its runtime and browsers, and timed anchors.

use vstd::prelude::*;
use vstd::string::*;
use vstd::utf8::*;

use crate::artifact_retention;
use crate::browser_lab;
use crate::browser_lab::{
    CaptureEvidence, Engine, RuntimeAnchorEvidence, RuntimeEvidence, PROTOCOL_VERSION,
};
use crate::digest;
use crate::number::Number;
use crate::text;

verus! {

/// The version of environment records.
pub const SCHEMA_VERSION: u32 = 2;

/// A browser of an environment, by the name of its engine.
#[derive(Clone, Debug)]
pub struct BrowserBuild {
    pub engine: String,
    pub executable_path: String,
    pub version: String,
}

/// The runtime and the browsers of an environment.
#[derive(Clone, Debug)]
pub struct EnvironmentIdentity {
    pub bperf_version: String,
    pub browser_lab_protocol_version: u32,
    pub runtime: RuntimeEvidence,
    /// In the order of their engines' names, each once.
    pub browsers: Vec<BrowserBuild>,
}

/// The anchor of an engine, by the engine's name.
#[derive(Clone, Debug)]
pub struct EngineAnchor {
    pub engine: String,
    pub anchor: RuntimeAnchorEvidence,
}

/// An environment as it is recorded.
#[derive(Clone, Debug)]
pub struct EnvironmentRecord {
    pub schema_version: u32,
    pub recorded_at_unix_ms: u64,
    pub fingerprint: String,
    pub identity: EnvironmentIdentity,
    /// In the order of their engines' names, each once.
    pub anchors: Vec<EngineAnchor>,
}

/// Why an environment is refused.
#[derive(Clone, Copy, Debug, Eq, PartialEq, Structural)]
pub enum EnvironmentError {
    /// No engine was captured.
    NoEngines,
    /// The engines did not run on one runtime.
    DifferentRuntimes,
    Schema(u32),
    NoTime,
    /// The fingerprint is not that of the identity.
    Fingerprint,
    /// There is not exactly one anchor for each browser.
    AnchorSet,
    /// The anchor with this index is not a proper one.
    Anchor(usize),
    /// The environment is another one than that of the measurement set.
    Changed,
    /// The record is not the one that the trials ran in.
    OtherTrials,
    /// Two measurement sets ran in different environments.
    Incomparable,
}

/// What is said of an error about a record's path, or about the engine of an anchor.
pub open spec fn environment_error_text(error: EnvironmentError, about: Seq<char>) -> Seq<char> {
    match error {
        EnvironmentError::NoEngines => "preflight returned no engines"@,
        EnvironmentError::DifferentRuntimes =>
            "preflight engines used different Node or Playwright runtimes"@,
        EnvironmentError::Schema(version) => "unsupported environment schema "@ + text::decimal(
            version as nat,
        ) + "; expected "@ + text::decimal(SCHEMA_VERSION as nat),
        EnvironmentError::NoTime => "environment record has no capture time"@,
        EnvironmentError::Fingerprint => "environment fingerprint does not match its identity"@,
        EnvironmentError::AnchorSet => "runtime anchors do not match the pinned browser set"@,
        EnvironmentError::Anchor(_) => about + " runtime anchor is invalid"@,
        EnvironmentError::Changed => "current preflight does not match "@ + about,
        EnvironmentError::OtherTrials => "environment record "@ + about
            + " does not match its trial evidence"@,
        EnvironmentError::Incomparable =>
            "measurement sets use different pinned browser/runtime identities and cannot be compared"@,
    }
}

impl EnvironmentError {
    /// What is said of the error about a record's path, or about the engine of an anchor.
    pub fn message(&self, about: &str) -> (r: String)
        ensures
            r@ == environment_error_text(*self, about@),
    {
        match self {
            EnvironmentError::NoEngines => "preflight returned no engines".to_owned(),
            EnvironmentError::DifferentRuntimes =>
                "preflight engines used different Node or Playwright runtimes".to_owned(),
            EnvironmentError::Schema(version) => {
                let mut out = "unsupported environment schema ".to_owned();
                out.append(&text::decimal_text(*version as u64));
                out.append("; expected ");
                out.append(&text::decimal_text(SCHEMA_VERSION as u64));
                out
            },
            EnvironmentError::NoTime => "environment record has no capture time".to_owned(),
            EnvironmentError::Fingerprint =>
                "environment fingerprint does not match its identity".to_owned(),
            EnvironmentError::AnchorSet =>
                "runtime anchors do not match the pinned browser set".to_owned(),
            EnvironmentError::Anchor(_) => {
                let mut out = about.to_owned();
                out.append(" runtime anchor is invalid");
                out
            },
            EnvironmentError::Changed => {
                let mut out = "current preflight does not match ".to_owned();
                out.append(about);
                out
            },
            EnvironmentError::OtherTrials => {
                let mut out = "environment record ".to_owned();
                out.append(about);
                out.append(" does not match its trial evidence");
                out
            },
            EnvironmentError::Incomparable =>
                "measurement sets use different pinned browser/runtime identities and cannot be compared".to_owned(),
        }
    }
}

// Identities.

/// The last capture of an engine among the first `n`.
pub open spec fn last_capture(captures: Seq<CaptureEvidence>, engine: Engine, n: int) -> Option<int>
    decreases n,
{
    if n <= 0 {
        None
    } else if captures[n - 1].engine == engine {
        Some(n - 1)
    } else {
        last_capture(captures, engine, n - 1)
    }
}

/// All captures ran on the runtime of the first.
pub open spec fn one_runtime(captures: Seq<CaptureEvidence>) -> bool {
    forall|i: int|
        0 <= i < captures.len() ==> browser_lab::runtime_view((#[trigger] captures[i]).runtime)
            == browser_lab::runtime_view(captures[0].runtime)
}

/// Why captures do not make up an environment, if they do not.
pub open spec fn identity_failure(captures: Seq<CaptureEvidence>) -> Option<EnvironmentError> {
    if captures.len() == 0 {
        Some(EnvironmentError::NoEngines)
    } else if !one_runtime(captures) {
        Some(EnvironmentError::DifferentRuntimes)
    } else {
        None
    }
}

/// The engines that were captured, in order.
pub open spec fn captured_engines(captures: Seq<CaptureEvidence>) -> Seq<Engine> {
    browser_lab::all_engines().filter(
        |engine: Engine| last_capture(captures, engine, captures.len() as int) is Some,
    )
}

/// The browser is the one that was last captured of an engine.
pub open spec fn is_build(build: BrowserBuild, captures: Seq<CaptureEvidence>, engine: Engine) -> bool {
    let capture = captures[last_capture(captures, engine, captures.len() as int)->0];
    &&& build.engine@ == browser_lab::engine_name(engine)
    &&& build.executable_path@ == capture.browser.executable_path@
    &&& build.version@ == capture.browser.version@
}

/// The identity is that of some captures.
pub open spec fn is_identity(
    identity: EnvironmentIdentity,
    captures: Seq<CaptureEvidence>,
    version: Seq<char>,
) -> bool {
    let engines = captured_engines(captures);
    &&& identity.bperf_version@ == version
    &&& identity.browser_lab_protocol_version == PROTOCOL_VERSION
    &&& browser_lab::runtime_view(identity.runtime) == browser_lab::runtime_view(
        captures[0].runtime,
    )
    &&& identity.browsers@.len() == engines.len()
    &&& forall|k: int|
        0 <= k < engines.len() ==> is_build(
            #[trigger] identity.browsers@[k],
            captures,
            engines[k],
        )
}

/// The anchor is the one of the last capture of an engine.
pub open spec fn is_engine_anchor(
    anchor: EngineAnchor,
    captures: Seq<CaptureEvidence>,
    engine: Engine,
) -> bool {
    let capture = captures[last_capture(captures, engine, captures.len() as int)->0];
    anchor.engine@ == browser_lab::engine_name(engine) && same_anchor(anchor.anchor, capture.anchor)
}

/// Two anchors are the same.
pub open spec fn same_anchor(a: RuntimeAnchorEvidence, b: RuntimeAnchorEvidence) -> bool {
    &&& a.workload@ == b.workload@
    &&& a.wall_ms@ == b.wall_ms@
    &&& a.batch_size == b.batch_size
    &&& a.checksum == b.checksum
}

fn find_last_capture(captures: &Vec<CaptureEvidence>, engine: Engine) -> (r: Option<usize>)
    ensures
        match last_capture(captures@, engine, captures@.len() as int) {
            Some(i) => r is Some && r->0 == i && 0 <= i < captures@.len(),
            None => r is None,
        },
{
    let mut n: usize = captures.len();
    while n > 0
        invariant
            n <= captures@.len(),
            last_capture(captures@, engine, captures@.len() as int) == last_capture(
                captures@,
                engine,
                n as int,
            ),
        decreases n,
    {
        if captures[n - 1].engine == engine {
            return Some(n - 1);
        }
        n -= 1;
    }
    None
}

fn copy_numbers(values: &Vec<Number>) -> (r: Vec<Number>)
    ensures
        r@ == values@,
{
    let mut out: Vec<Number> = Vec::new();
    let mut i: usize = 0;
    while i < values.len()
        invariant
            i <= values@.len(),
            out@ == values@.take(i as int),
        decreases values@.len() - i,
    {
        out.push(values[i]);
        i += 1;
    }
    out
}

fn copy_anchor(anchor: &RuntimeAnchorEvidence) -> (r: RuntimeAnchorEvidence)
    ensures
        same_anchor(r, *anchor),
{
    RuntimeAnchorEvidence {
        workload: anchor.workload.clone(),
        wall_ms: copy_numbers(&anchor.wall_ms),
        batch_size: anchor.batch_size,
        checksum: anchor.checksum,
    }
}

/// The engines up to one more engine that were captured.
proof fn lemma_captured_step(captures: Seq<CaptureEvidence>, e: int)
    requires
        0 <= e < 3,
    ensures
        ({
            let wanted = |engine: Engine|
                last_capture(captures, engine, captures.len() as int) is Some;
            let all = browser_lab::all_engines();
            all.take(e + 1).filter(wanted) == if wanted(all[e]) {
                all.take(e).filter(wanted).push(all[e])
            } else {
                all.take(e).filter(wanted)
            }
        }),
{
    let wanted = |engine: Engine| last_capture(captures, engine, captures.len() as int) is Some;
    let all = browser_lab::all_engines();
    assert(all.take(e + 1).drop_last() == all.take(e));
    reveal(Seq::filter);
}

/// The identity of the environment that some captures ran in.
pub fn environment_identity(captures: &Vec<CaptureEvidence>, version: &str) -> (r: Result<
    EnvironmentIdentity,
    EnvironmentError,
>)
    ensures
        match identity_failure(captures@) {
            Some(error) => r == Err::<EnvironmentIdentity, EnvironmentError>(error),
            None => r is Ok && is_identity(r->Ok_0, captures@, version@),
        },
{
    if captures.len() == 0 {
        return Err(EnvironmentError::NoEngines);
    }
    let mut i: usize = 0;
    while i < captures.len()
        invariant
            0 < captures@.len(),
            i <= captures@.len(),
            forall|j: int|
                0 <= j < i ==> browser_lab::runtime_view((#[trigger] captures@[j]).runtime)
                    == browser_lab::runtime_view(captures@[0].runtime),
        decreases captures@.len() - i,
    {
        if !browser_lab::same_runtime(&captures[i].runtime, &captures[0].runtime) {
            return Err(EnvironmentError::DifferentRuntimes);
        }
        i += 1;
    }
    let engines = Engine::all();
    let mut browsers: Vec<BrowserBuild> = Vec::new();
    let ghost wanted = |engine: Engine|
        last_capture(captures@, engine, captures@.len() as int) is Some;
    let mut e: usize = 0;
    proof {
        reveal(Seq::filter);
        assert(engines@.take(0).filter(wanted) == Seq::<Engine>::empty());
    }
    while e < engines.len()
        invariant
            e <= engines@.len(),
            engines@ == browser_lab::all_engines(),
            wanted == (|engine: Engine|
                last_capture(captures@, engine, captures@.len() as int) is Some),
            browsers@.len() == engines@.take(e as int).filter(wanted).len(),
            forall|k: int|
                0 <= k < browsers@.len() ==> is_build(
                    #[trigger] browsers@[k],
                    captures@,
                    engines@.take(e as int).filter(wanted)[k],
                ),
        decreases engines@.len() - e,
    {
        let engine = engines[e];
        proof {
            lemma_captured_step(captures@, e as int);
        }
        if let Some(at) = find_last_capture(captures, engine) {
            let browser = &captures[at].browser;
            browsers.push(
                BrowserBuild {
                    engine: engine.as_str().to_owned(),
                    executable_path: browser.executable_path.clone(),
                    version: browser.version.clone(),
                },
            );
        }
        e += 1;
    }
    assert(engines@.take(3) == engines@);
    Ok(
        EnvironmentIdentity {
            bperf_version: version.to_owned(),
            browser_lab_protocol_version: PROTOCOL_VERSION,
            runtime: browser_lab::copy_runtime(&captures[0].runtime),
            browsers,
        },
    )
}

/// The anchors of some captures.
pub fn capture_anchors(captures: &Vec<CaptureEvidence>) -> (r: Vec<EngineAnchor>)
    ensures
        r@.len() == captured_engines(captures@).len(),
        forall|k: int|
            0 <= k < r@.len() ==> is_engine_anchor(
                #[trigger] r@[k],
                captures@,
                captured_engines(captures@)[k],
            ),
{
    let engines = Engine::all();
    let mut anchors: Vec<EngineAnchor> = Vec::new();
    let ghost wanted = |engine: Engine|
        last_capture(captures@, engine, captures@.len() as int) is Some;
    let mut e: usize = 0;
    proof {
        reveal(Seq::filter);
        assert(engines@.take(0).filter(wanted) == Seq::<Engine>::empty());
    }
    while e < engines.len()
        invariant
            e <= engines@.len(),
            engines@ == browser_lab::all_engines(),
            wanted == (|engine: Engine|
                last_capture(captures@, engine, captures@.len() as int) is Some),
            anchors@.len() == engines@.take(e as int).filter(wanted).len(),
            forall|k: int|
                0 <= k < anchors@.len() ==> is_engine_anchor(
                    #[trigger] anchors@[k],
                    captures@,
                    engines@.take(e as int).filter(wanted)[k],
                ),
        decreases engines@.len() - e,
    {
        let engine = engines[e];
        proof {
            lemma_captured_step(captures@, e as int);
        }
        if let Some(at) = find_last_capture(captures, engine) {
            anchors.push(
                EngineAnchor {
                    engine: engine.as_str().to_owned(),
                    anchor: copy_anchor(&captures[at].anchor),
                },
            );
        }
        e += 1;
    }
    assert(engines@.take(3) == engines@);
    anchors
}

/// What is hashed for a fingerprint.
pub open spec fn fingerprint_preimage(encoded: Seq<u8>) -> Seq<u8> {
    encode_utf8("bperf-browser-environment-v1\0"@) + encoded
}

/// The fingerprint of an identity, given its encoding.
pub fn environment_fingerprint(encoded: &[u8]) -> (r: String)
    ensures
        r@ == digest::sha256(fingerprint_preimage(encoded@)),
{
    let mut preimage: Vec<u8> = Vec::new();
    digest::push_text(&mut preimage, "bperf-browser-environment-v1\0");
    digest::push_bytes(&mut preimage, encoded);
    assert(preimage@ == fingerprint_preimage(encoded@));
    digest::sha256_hex(preimage.as_slice())
}

// Records.

/// Some browser is that of an engine.
pub open spec fn has_browser(browsers: Seq<BrowserBuild>, engine: Seq<char>) -> bool {
    exists|i: int| 0 <= i < browsers.len() && (#[trigger] browsers[i]).engine@ == engine
}

/// Some anchor is that of an engine.
pub open spec fn has_anchor(anchors: Seq<EngineAnchor>, engine: Seq<char>) -> bool {
    exists|i: int| 0 <= i < anchors.len() && (#[trigger] anchors[i]).engine@ == engine
}

/// Browsers and anchors are those of the same engines, of which there are some.
pub open spec fn anchored(record: EnvironmentRecord) -> bool {
    &&& record.anchors@.len() > 0
    &&& forall|i: int|
        0 <= i < record.identity.browsers@.len() ==> has_anchor(
            record.anchors@,
            (#[trigger] record.identity.browsers@[i]).engine@,
        )
    &&& forall|i: int|
        0 <= i < record.anchors@.len() ==> has_browser(
            record.identity.browsers@,
            (#[trigger] record.anchors@[i]).engine@,
        )
}

/// Why the first `n` anchors are refused, if they are.
pub open spec fn anchors_failure(anchors: Seq<EngineAnchor>, n: int) -> Option<EnvironmentError>
    decreases n,
{
    if n <= 0 {
        None
    } else if anchors_failure(anchors, n - 1) is Some {
        anchors_failure(anchors, n - 1)
    } else if !browser_lab::valid_anchor(anchors[n - 1].anchor) {
        Some(EnvironmentError::Anchor((n - 1) as usize))
    } else {
        None
    }
}

/// Why a record is refused, if it is, given the encoding of its identity.
pub open spec fn record_failure(record: EnvironmentRecord, encoded: Seq<u8>) -> Option<
    EnvironmentError,
> {
    if record.schema_version != SCHEMA_VERSION {
        Some(EnvironmentError::Schema(record.schema_version))
    } else if record.recorded_at_unix_ms == 0 {
        Some(EnvironmentError::NoTime)
    } else if digest::sha256(fingerprint_preimage(encoded)) != record.fingerprint@ {
        Some(EnvironmentError::Fingerprint)
    } else if !anchored(record) {
        Some(EnvironmentError::AnchorSet)
    } else {
        anchors_failure(record.anchors@, record.anchors@.len() as int)
    }
}

fn find_browser(browsers: &Vec<BrowserBuild>, engine: &str) -> (r: bool)
    ensures
        r == has_browser(browsers@, engine@),
{
    let mut i: usize = 0;
    while i < browsers.len()
        invariant
            i <= browsers@.len(),
            forall|j: int| 0 <= j < i ==> (#[trigger] browsers@[j]).engine@ != engine@,
        decreases browsers@.len() - i,
    {
        if text::same(&browsers[i].engine, engine) {
            return true;
        }
        i += 1;
    }
    false
}

/// The first anchor of an engine.
pub open spec fn is_anchor_of(anchors: Seq<EngineAnchor>, engine: Seq<char>, i: int) -> bool {
    &&& 0 <= i < anchors.len()
    &&& anchors[i].engine@ == engine
    &&& forall|j: int| 0 <= j < i ==> (#[trigger] anchors[j]).engine@ != engine
}

fn find_anchor(anchors: &Vec<EngineAnchor>, engine: &str) -> (r: Option<usize>)
    ensures
        match r {
            Some(i) => is_anchor_of(anchors@, engine@, i as int) && has_anchor(anchors@, engine@),
            None => !has_anchor(anchors@, engine@),
        },
{
    let mut i: usize = 0;
    while i < anchors.len()
        invariant
            i <= anchors@.len(),
            forall|j: int| 0 <= j < i ==> (#[trigger] anchors@[j]).engine@ != engine@,
        decreases anchors@.len() - i,
    {
        if text::same(&anchors[i].engine, engine) {
            return Some(i);
        }
        i += 1;
    }
    None
}

fn check_anchored(record: &EnvironmentRecord) -> (r: bool)
    ensures
        r == anchored(*record),
{
    if record.anchors.len() == 0 {
        return false;
    }
    let mut i: usize = 0;
    while i < record.identity.browsers.len()
        invariant
            i <= record.identity.browsers@.len(),
            forall|j: int|
                0 <= j < i ==> has_anchor(
                    record.anchors@,
                    (#[trigger] record.identity.browsers@[j]).engine@,
                ),
        decreases record.identity.browsers@.len() - i,
    {
        if find_anchor(&record.anchors, &record.identity.browsers[i].engine).is_none() {
            return false;
        }
        i += 1;
    }
    let mut k: usize = 0;
    while k < record.anchors.len()
        invariant
            k <= record.anchors@.len(),
            record.anchors@.len() > 0,
            forall|j: int|
                0 <= j < record.identity.browsers@.len() ==> has_anchor(
                    record.anchors@,
                    (#[trigger] record.identity.browsers@[j]).engine@,
                ),
            forall|j: int|
                0 <= j < k ==> has_browser(
                    record.identity.browsers@,
                    (#[trigger] record.anchors@[j]).engine@,
                ),
        decreases record.anchors@.len() - k,
    {
        if !find_browser(&record.identity.browsers, &record.anchors[k].engine) {
            return false;
        }
        k += 1;
    }
    true
}

proof fn lemma_anchors_failure(anchors: Seq<EngineAnchor>, n: int, m: int)
    requires
        0 <= n <= m,
        anchors_failure(anchors, n) is Some,
    ensures
        anchors_failure(anchors, m) == anchors_failure(anchors, n),
    decreases m - n,
{
    if n < m {
        lemma_anchors_failure(anchors, n, m - 1);
    }
}

/// Checks a record, given the encoding of its identity: its fingerprint is that of the identity, and
/// it has a proper anchor for every browser.
pub fn validate_record(record: &EnvironmentRecord, encoded: &[u8]) -> (r: Result<
    (),
    EnvironmentError,
>)
    ensures
        match record_failure(*record, encoded@) {
            Some(error) => r == Err::<(), EnvironmentError>(error),
            None => r == Ok::<(), EnvironmentError>(()),
        },
{
    if record.schema_version != SCHEMA_VERSION {
        return Err(EnvironmentError::Schema(record.schema_version));
    }
    if record.recorded_at_unix_ms == 0 {
        return Err(EnvironmentError::NoTime);
    }
    if !text::same(&environment_fingerprint(encoded), &record.fingerprint) {
        return Err(EnvironmentError::Fingerprint);
    }
    if !check_anchored(record) {
        return Err(EnvironmentError::AnchorSet);
    }
    let mut i: usize = 0;
    while i < record.anchors.len()
        invariant
            i <= record.anchors@.len(),
            record_failure(*record, encoded@) == anchors_failure(
                record.anchors@,
                record.anchors@.len() as int,
            ),
            anchors_failure(record.anchors@, i as int) is None,
        decreases record.anchors@.len() - i,
    {
        if !record.anchors[i].anchor.validate() {
            proof {
                lemma_anchors_failure(record.anchors@, i + 1, record.anchors@.len() as int);
            }
            return Err(EnvironmentError::Anchor(i));
        }
        i += 1;
    }
    Ok(())
}

impl EnvironmentRecord {
    pub fn recorded_at_unix_ms(&self) -> (r: u64)
        ensures
            r == self.recorded_at_unix_ms,
    {
        self.recorded_at_unix_ms
    }

    /// The times of an engine's anchor.
    pub fn anchor(&self, engine: Engine) -> (r: Option<&Vec<Number>>)
        ensures
            match r {
                Some(times) => exists|i: int|
                    is_anchor_of(self.anchors@, browser_lab::engine_name(engine), i)
                        && #[trigger] self.anchors@[i].anchor.wall_ms == *times,
                None => !has_anchor(self.anchors@, browser_lab::engine_name(engine)),
            },
    {
        match find_anchor(&self.anchors, engine.as_str()) {
            Some(i) => Some(&self.anchors[i].anchor.wall_ms),
            None => None,
        }
    }
}

/// Two browsers are the same.
pub open spec fn same_build(a: BrowserBuild, b: BrowserBuild) -> bool {
    &&& a.engine@ == b.engine@
    &&& a.executable_path@ == b.executable_path@
    &&& a.version@ == b.version@
}

/// Two identities are the same.
pub open spec fn same_identity(a: EnvironmentIdentity, b: EnvironmentIdentity) -> bool {
    &&& a.bperf_version@ == b.bperf_version@
    &&& a.browser_lab_protocol_version == b.browser_lab_protocol_version
    &&& browser_lab::runtime_view(a.runtime) == browser_lab::runtime_view(b.runtime)
    &&& a.browsers@.len() == b.browsers@.len()
    &&& forall|i: int|
        0 <= i < a.browsers@.len() ==> same_build(#[trigger] a.browsers@[i], b.browsers@[i])
}

/// Tells whether two identities are the same.
pub fn identities_agree(a: &EnvironmentIdentity, b: &EnvironmentIdentity) -> (r: bool)
    ensures
        r == same_identity(*a, *b),
{
    if !text::same(&a.bperf_version, &b.bperf_version) || a.browser_lab_protocol_version
        != b.browser_lab_protocol_version || !browser_lab::same_runtime(&a.runtime, &b.runtime)
        || a.browsers.len() != b.browsers.len() {
        return false;
    }
    let mut i: usize = 0;
    while i < a.browsers.len()
        invariant
            i <= a.browsers@.len(),
            a.browsers@.len() == b.browsers@.len(),
            forall|j: int|
                0 <= j < i ==> same_build(#[trigger] a.browsers@[j], b.browsers@[j]),
        decreases a.browsers@.len() - i,
    {
        let (x, y) = (&a.browsers[i], &b.browsers[i]);
        if !text::same(&x.engine, &y.engine) || !text::same(&x.executable_path, &y.executable_path)
            || !text::same(&x.version, &y.version) {
            assert(!same_build(a.browsers@[i as int], b.browsers@[i as int]));
            return false;
        }
        i += 1;
    }
    true
}

/// Whether an environment is still to be recorded.
#[derive(Clone, Copy, Debug, Eq, PartialEq, Structural)]
pub enum CaptureStep {
    Write,
    Recorded,
}

/// Settles what is done with a captured environment: it is recorded, or it is the one that is
/// recorded already.
pub fn settle_capture(existing: &Option<EnvironmentRecord>, record: &EnvironmentRecord) -> (r:
    Result<CaptureStep, EnvironmentError>)
    ensures
        r == match existing {
            None => Ok::<CaptureStep, EnvironmentError>(CaptureStep::Write),
            Some(existing) => if same_identity(existing.identity, record.identity)
                && existing.fingerprint@ == record.fingerprint@ {
                Ok::<CaptureStep, EnvironmentError>(CaptureStep::Recorded)
            } else {
                Err::<CaptureStep, EnvironmentError>(EnvironmentError::Changed)
            },
        },
{
    match existing {
        None => Ok(CaptureStep::Write),
        Some(existing) => {
            if !identities_agree(&existing.identity, &record.identity) || !text::same(
                &existing.fingerprint,
                &record.fingerprint,
            ) {
                return Err(EnvironmentError::Changed);
            }
            Ok(CaptureStep::Recorded)
        },
    }
}

/// Checks that a record is the one that the trials of a measurement set ran in.
pub fn check_read(fingerprint: &Option<String>, record: &EnvironmentRecord) -> (r: Result<
    (),
    EnvironmentError,
>)
    ensures
        r == if fingerprint is Some && fingerprint->0@ != record.fingerprint@ {
            Err::<(), EnvironmentError>(EnvironmentError::OtherTrials)
        } else {
            Ok::<(), EnvironmentError>(())
        },
{
    if let Some(fingerprint) = fingerprint {
        if !text::same(fingerprint, &record.fingerprint) {
            return Err(EnvironmentError::OtherTrials);
        }
    }
    Ok(())
}

/// Two measurement sets ran in one environment.
pub open spec fn compatible(baseline: EnvironmentRecord, candidate: EnvironmentRecord) -> bool {
    baseline.fingerprint@ == candidate.fingerprint@ && same_identity(
        baseline.identity,
        candidate.identity,
    )
}

/// Checks that two measurement sets ran in one environment, given the records that their trials ran
/// in.
pub fn compatible_pair(baseline: &EnvironmentRecord, candidate: &EnvironmentRecord) -> (r: Result<
    (),
    EnvironmentError,
>)
    ensures
        r == if compatible(*baseline, *candidate) {
            Ok::<(), EnvironmentError>(())
        } else {
            Err::<(), EnvironmentError>(EnvironmentError::Incomparable)
        },
{
    if !text::same(&baseline.fingerprint, &candidate.fingerprint) || !identities_agree(
        &baseline.identity,
        &candidate.identity,
    ) {
        return Err(EnvironmentError::Incomparable);
    }
    Ok(())
}

/// The name of a capture directory: what it is for, when, and by which process.
pub fn unique_id(prefix: &str, unix_ms: u64, process: u32) -> (r: String)
    ensures
        r@ == prefix@ + "-"@ + text::decimal(unix_ms as nat) + "-"@ + text::decimal(process as nat),
{
    let mut out = prefix.to_owned();
    out.append("-");
    out.append(&text::decimal_text(unix_ms));
    out.append("-");
    out.append(&text::decimal_text(process as u64));
    out
}

// Laws.

/// Being the same environment does not depend on which of two is named first, and carries over from
/// one pair to the next.
pub proof fn compatibility_is_an_equivalence(
    a: EnvironmentRecord,
    b: EnvironmentRecord,
    c: EnvironmentRecord,
)
    ensures
        compatible(a, a),
        compatible(a, b) ==> compatible(b, a),
        compatible(a, b) && compatible(b, c) ==> compatible(a, c),
{
    if compatible(a, b) {
        assert forall|i: int| 0 <= i < b.identity.browsers@.len() implies same_build(
            #[trigger] b.identity.browsers@[i],
            a.identity.browsers@[i],
        ) by {
            assert(same_build(a.identity.browsers@[i], b.identity.browsers@[i]));
        }
        if compatible(b, c) {
            assert forall|i: int| 0 <= i < a.identity.browsers@.len() implies same_build(
                #[trigger] a.identity.browsers@[i],
                c.identity.browsers@[i],
            ) by {
                assert(same_build(a.identity.browsers@[i], b.identity.browsers@[i]));
                assert(same_build(b.identity.browsers@[i], c.identity.browsers@[i]));
            }
        }
    }
}

/// A record made of captures has an anchor for every browser and a browser for every anchor.
pub proof fn captured_anchors_match_the_browsers(
    record: EnvironmentRecord,
    captures: Seq<CaptureEvidence>,
    version: Seq<char>,
)
    requires
        captures.len() > 0,
        is_identity(record.identity, captures, version),
        record.anchors@.len() == captured_engines(captures).len(),
        forall|k: int|
            0 <= k < record.anchors@.len() ==> is_engine_anchor(
                #[trigger] record.anchors@[k],
                captures,
                captured_engines(captures)[k],
            ),
    ensures
        anchored(record),
{
    let engines = captured_engines(captures);
    let wanted = |engine: Engine| last_capture(captures, engine, captures.len() as int) is Some;
    let first = captures[0].engine;
    lemma_last_capture(captures, first, 0, captures.len() as int);
    assert(wanted(first));
    let all = browser_lab::all_engines();
    let at = artifact_retention::engine_place(first);
    assert(all[at] == first);
    all.filter_lemma(wanted);
    assert(engines.len() > 0) by {
        assert(all.contains(first));
        assert(all.filter(wanted).contains(first));
    }
    assert forall|i: int| 0 <= i < record.identity.browsers@.len() implies has_anchor(
        record.anchors@,
        (#[trigger] record.identity.browsers@[i]).engine@,
    ) by {
        assert(is_build(record.identity.browsers@[i], captures, engines[i]));
        assert(is_engine_anchor(record.anchors@[i], captures, engines[i]));
    }
    assert forall|i: int| 0 <= i < record.anchors@.len() implies has_browser(
        record.identity.browsers@,
        (#[trigger] record.anchors@[i]).engine@,
    ) by {
        assert(is_build(record.identity.browsers@[i], captures, engines[i]));
        assert(is_engine_anchor(record.anchors@[i], captures, engines[i]));
    }
}

proof fn lemma_last_capture(captures: Seq<CaptureEvidence>, engine: Engine, i: int, n: int)
    requires
        0 <= i < n <= captures.len(),
        captures[i].engine == engine,
    ensures
        last_capture(captures, engine, n) is Some,
    decreases n,
{
    if captures[n - 1].engine != engine {
        lemma_last_capture(captures, engine, i, n - 1);
    }
}

} // verus!
