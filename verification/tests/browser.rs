use std::collections::BTreeMap;

use bperf::benchmark_host::{self, byte_range, Answer, AnswerBody, BodyReader, Route};
use bperf::benchmark_runtime::{
    self, AdapterReady, ReadinessError, VerdictError, VerifierExit, VerifierFailure, VerifierStep,
    VerifierVerdict, WorkloadError, WorkloadLine, MAX_ADAPTER_READINESS_BYTES,
    MAX_VERIFIER_OUTPUT_BYTES, READINESS_PROTOCOL_VERSION,
};
use bperf::browser_lab::{
    self, ArtifactEvidence, ArtifactFile, ArtifactKind, BrowserEvidence, BrowserLabConfig,
    CaptureCapabilities, CaptureEvidence, Engine, EvidenceError, MetricValue,
    RuntimeAnchorEvidence, RuntimeEvidence, TimeTexts, TrialBatchConfig, TrialError,
    TrialEvidence, WireError, WireFailure, WireResponse, WorkloadEvidence, PROTOCOL_VERSION, RUNTIME_ANCHOR_SAMPLES,
};
use bperf::fixtures::{
    self, CachedBody, FixtureDescriptor, FixtureError, FixtureLock, FixtureLockEntry, FixtureOrigin,
    FixtureResponse, FixtureStream, RemoteAnswer, StreamDelivery, LOCK_SCHEMA_VERSION,
};
use bperf::json::{JsonMember, JsonNumber, JsonValue};
use bperf::number::Number;
use bperf::project_modules::{self, ResolvedFile};
use sha2::{Digest, Sha256};

fn num(value: f64) -> Number {
    Number::from_bits(value.to_bits())
}

fn own(value: &serde_json::Value) -> JsonValue {
    match value {
        serde_json::Value::Null => JsonValue::Null,
        serde_json::Value::Bool(value) => JsonValue::Bool(*value),
        serde_json::Value::Number(value) => JsonValue::Number(if let Some(value) = value.as_u64() {
            JsonNumber::Unsigned(value)
        } else if let Some(value) = value.as_i64() {
            JsonNumber::Negative(value)
        } else {
            JsonNumber::Float(num(value.as_f64().unwrap()))
        }),
        serde_json::Value::String(value) => JsonValue::Text(value.clone()),
        serde_json::Value::Array(items) => JsonValue::Array(items.iter().map(own).collect()),
        serde_json::Value::Object(members) => JsonValue::Object(
            members
                .iter()
                .map(|(name, value)| JsonMember { name: name.clone(), value: own(value) })
                .collect(),
        ),
    }
}

fn parse(source: &str) -> JsonValue {
    own(&serde_json::from_str(source).unwrap())
}

// Evidence.

fn contents(name: &str) -> Vec<u8> {
    format!("artifact-{name}").into_bytes()
}

fn found(bytes: &[u8]) -> ArtifactFile {
    browser_lab::found_file(true, bytes)
}

fn times(workload: &str, call: &str, batch: &str) -> TimeTexts {
    TimeTexts {
        workload_wall_ms: workload.to_owned(),
        variant_call_wall_ms: call.to_owned(),
        batch_wall_ms: batch.to_owned(),
    }
}

fn valid_evidence(engine: Engine) -> (CaptureEvidence, Vec<ArtifactFile>) {
    let mut artifacts = Vec::new();
    let mut files = Vec::new();
    for (kind, name) in [
        (ArtifactKind::CpuProfile, "cpu.json"),
        (ArtifactKind::JsHeap, "heap.json"),
        (ArtifactKind::Flamegraph, "flamegraph.json"),
    ] {
        let bytes = contents(name);
        files.push(found(&bytes));
        artifacts.push(ArtifactEvidence {
            kind,
            path: name.to_owned(),
            size_bytes: bytes.len() as u64,
            sha256: format!("{:x}", Sha256::digest(&bytes)),
            format: "test".to_owned(),
        });
    }
    let evidence = CaptureEvidence {
        engine,
        runtime: RuntimeEvidence {
            node: "v24".to_owned(),
            playwright: "1.61.1".to_owned(),
            platform: "win32".to_owned(),
            arch: "x64".to_owned(),
            os_release: "10.0.0".to_owned(),
            cpu_model: "test cpu".to_owned(),
            logical_cpus: 8,
            total_memory_bytes: 16 * 1024 * 1024 * 1024,
        },
        browser: BrowserEvidence {
            root_pid: 42,
            executable_path: "browser.exe".to_owned(),
            version: "1".to_owned(),
            launch_args: Vec::new(),
        },
        anchor: RuntimeAnchorEvidence {
            workload: "javascript_cpu_v1".to_owned(),
            wall_ms: vec![num(10.0); RUNTIME_ANCHOR_SAMPLES],
            batch_size: 1,
            checksum: 42,
        },
        capabilities: CaptureCapabilities {
            isolated_launch: true,
            process_root: true,
            cpu_profile: true,
            js_heap: true,
            flamegraph: true,
        },
        artifacts,
    };
    (evidence, files)
}

fn metric(name: &str, value: f64) -> MetricValue {
    MetricValue { name: name.to_owned(), value: num(value) }
}

fn valid_trial_evidence(engine: Engine, batch_size: u32) -> (TrialEvidence, Vec<ArtifactFile>) {
    let (capture, files) = valid_evidence(engine);
    let workload = WorkloadEvidence {
        workload_wall_ms: num(1.0),
        variant_call_wall_ms: num(0.5),
        batch_wall_ms: num(f64::from(batch_size)),
        batch_size,
        operation_count: 1,
        result: vec![parse(r#"{"value": 42}"#)],
    };
    let evidence = TrialEvidence {
        engine,
        runtime: capture.runtime,
        browser: capture.browser,
        capture_elapsed_ms: num(5.0),
        workload,
        metrics: vec![
            metric("workload.wall_ms", 1.0),
            metric("variant.call_wall_ms", 0.5),
            metric("browser.cpu_profile.active_ms", 2.0),
            metric("browser.js_heap.live_bytes", 4_096.0),
            metric("bperf.capture.elapsed_ms", 5.0),
            metric("bperf.batch_size", f64::from(batch_size)),
        ],
        artifacts: capture.artifacts,
    };
    (evidence, files)
}

#[test]
fn engine_names_are_stable() {
    let names: Vec<&str> = Engine::all().into_iter().map(Engine::as_str).collect();
    assert_eq!(names, ["chromium", "firefox", "webkit"]);
}

#[test]
fn calibration_accepts_a_batch_selected_within_its_bounds() {
    let batches = TrialBatchConfig::calibrating(num(100.0), 10_000);
    assert!(batches.accepts(&WorkloadEvidence {
        workload_wall_ms: num(1.0),
        variant_call_wall_ms: num(0.5),
        batch_wall_ms: num(5_000.0),
        batch_size: 5_000,
        operation_count: 1,
        result: vec![parse(r#"{"value": 42}"#)],
    }));
}

#[test]
fn accepts_complete_evidence_for_every_engine() {
    for engine in Engine::all() {
        let (evidence, files) = valid_evidence(engine);
        browser_lab::validate_evidence(engine, &evidence, &files).unwrap();
    }
}

#[test]
fn accepts_complete_trial_evidence_for_every_engine() {
    for engine in Engine::all() {
        let (evidence, files) = valid_trial_evidence(engine, 3);
        browser_lab::validate_trial_evidence(
            engine,
            1,
            TrialBatchConfig::fixed(3),
            &evidence,
            &files,
        )
        .unwrap();
    }
}

#[test]
fn rejects_an_incomplete_trial_artifact_set() {
    let (mut evidence, mut files) = valid_trial_evidence(Engine::Chromium, 3);
    evidence.artifacts.pop();
    files.pop();
    let error = browser_lab::validate_trial_evidence(
        Engine::Chromium,
        1,
        TrialBatchConfig::fixed(3),
        &evidence,
        &files,
    )
    .unwrap_err();
    let message = error.message(Engine::Chromium, &evidence, &times("1", "0.5", "3"), &files);
    assert!(message.contains("invalid artifact set"));
    assert_eq!(message, "chromium returned an invalid artifact set: {CpuProfile, JsHeap}");
}

#[test]
fn rejects_missing_artifact_kind() {
    let (mut evidence, mut files) = valid_evidence(Engine::Chromium);
    evidence.artifacts.pop();
    files.pop();
    let error =
        browser_lab::validate_evidence(Engine::Chromium, &evidence, &files).unwrap_err();
    assert!(error.message(Engine::Chromium, &evidence.artifacts, &files).contains("invalid artifact set"));
}

#[test]
fn rejects_tampered_artifact() {
    let (evidence, mut files) = valid_evidence(Engine::Chromium);
    files[0] = found(b"tampered");
    let error =
        browser_lab::validate_evidence(Engine::Chromium, &evidence, &files).unwrap_err();
    let message = error.message(Engine::Chromium, &evidence.artifacts, &files);
    assert!(message.contains("size mismatch") || message.contains("hash mismatch"));
    assert_eq!(
        message,
        format!(
            "chromium artifact size mismatch for {}: reported {}, actual 8",
            evidence.artifacts[0].path, evidence.artifacts[0].size_bytes
        )
    );
    let same_size = b"ARTIFACT-cpu.json";
    assert_eq!(same_size.len(), contents("cpu.json").len());
    files[0] = found(same_size);
    let error =
        browser_lab::validate_evidence(Engine::Chromium, &evidence, &files).unwrap_err();
    assert_eq!(error, EvidenceError::ArtifactHash(0));
    assert_eq!(
        error.message(Engine::Chromium, &evidence.artifacts, &files),
        "chromium artifact hash mismatch for cpu.json"
    );
    files[0] = browser_lab::missing_file();
    assert_eq!(
        browser_lab::validate_evidence(Engine::Chromium, &evidence, &files),
        Err(EvidenceError::ArtifactMissing(0))
    );
}

#[test]
fn a_found_file_is_known_by_its_bytes() {
    let file = browser_lab::found_file(false, b"abc");
    assert!(file.exists && !file.contained);
    assert_eq!(file.size_bytes, 3);
    assert_eq!(
        file.sha256,
        "ba7816bf8f01cfea414140de5dae2223b00361a396177a9cb410ff61f20015ad"
    );
}

#[test]
fn rejects_an_engine_substitution() {
    let (evidence, files) = valid_evidence(Engine::Chromium);
    let error = browser_lab::validate_evidence(Engine::Firefox, &evidence, &files).unwrap_err();
    assert!(error.message(Engine::Firefox, &evidence.artifacts, &files).contains("while firefox was requested"));
}

#[test]
fn evidence_is_refused_for_its_first_fault() {
    let refused = |change: &dyn Fn(&mut CaptureEvidence, &mut Vec<ArtifactFile>)| {
        let (mut evidence, mut files) = valid_evidence(Engine::Webkit);
        change(&mut evidence, &mut files);
        browser_lab::validate_evidence(Engine::Webkit, &evidence, &files).unwrap_err()
    };
    assert_eq!(
        refused(&|evidence, _| evidence.runtime.node.clear()),
        EvidenceError::IncompleteRuntime
    );
    assert_eq!(refused(&|evidence, _| evidence.browser.root_pid = 0), EvidenceError::NoRootPid);
    assert_eq!(
        refused(&|evidence, _| evidence.browser.version.clear()),
        EvidenceError::IncompleteBrowser
    );
    assert_eq!(
        refused(&|evidence, _| {
            evidence.anchor.wall_ms.pop();
        }),
        EvidenceError::InvalidAnchor
    );
    assert_eq!(
        refused(&|evidence, _| evidence.capabilities.js_heap = false),
        EvidenceError::MissingCapability
    );
    assert_eq!(
        refused(&|evidence, _| evidence.artifacts[1].path = "../heap.json".to_owned()),
        EvidenceError::ArtifactPath(1)
    );
    assert_eq!(
        refused(&|evidence, _| evidence.artifacts[1].sha256 = "beef".to_owned()),
        EvidenceError::ArtifactDescriptor(1)
    );
    assert_eq!(
        refused(&|_, files| files[2].exists = false),
        EvidenceError::ArtifactMissing(2)
    );
    assert_eq!(
        refused(&|_, files| files[2].contained = false),
        EvidenceError::ArtifactEscaped(2)
    );
    assert_eq!(
        refused(&|_, files| files[0].size_bytes += 1),
        EvidenceError::ArtifactSize(0)
    );
}

#[test]
fn trial_evidence_is_refused_for_its_first_fault() {
    let refused = |change: &dyn Fn(&mut TrialEvidence)| {
        let (mut evidence, files) = valid_trial_evidence(Engine::Firefox, 3);
        change(&mut evidence);
        browser_lab::validate_trial_evidence(
            Engine::Firefox,
            1,
            TrialBatchConfig::fixed(3),
            &evidence,
            &files,
        )
        .unwrap_err()
    };
    assert_eq!(
        refused(&|evidence| evidence.workload.operation_count = 2),
        TrialError::InconsistentWorkload
    );
    assert_eq!(
        refused(&|evidence| evidence.workload.workload_wall_ms = num(0.0)),
        TrialError::InvalidTiming
    );
    assert_eq!(refused(&|evidence| evidence.workload.batch_size = 4), TrialError::BatchPlan);
    assert_eq!(
        refused(&|evidence| {
            evidence.metrics.pop();
        }),
        TrialError::MetricSet
    );
    assert_eq!(
        refused(&|evidence| evidence.metrics[2].value = num(0.0)),
        TrialError::MetricValue(2)
    );
    assert_eq!(
        refused(&|evidence| evidence.metrics[0].value = num(1.5)),
        TrialError::MetricMismatch
    );
    assert_eq!(
        refused(&|evidence| evidence.browser.root_pid = 0),
        TrialError::Evidence(EvidenceError::NoRootPid)
    );
}

#[test]
fn refused_trials_are_told_with_what_was_found() {
    let (mut evidence, files) = valid_trial_evidence(Engine::Firefox, 3);
    evidence.metrics.truncate(2);
    let told = |error: TrialError| {
        error.message(Engine::Firefox, &evidence, &times("1", "0.5", "0.25"), &files)
    };
    assert_eq!(
        told(TrialError::InvalidTiming),
        "firefox trial returned invalid timing (workload_wall_ms=1, variant_call_wall_ms=0.5, \
         batch_wall_ms=0.25)"
    );
    assert_eq!(
        told(TrialError::MetricSet),
        format!(
            "firefox trial returned invalid metrics: {{{:?}, {:?}}}",
            evidence.metrics[0].name, evidence.metrics[1].name
        )
    );
    assert_eq!(
        told(TrialError::MetricValue(2)),
        "firefox trial metric \"browser.cpu_profile.active_ms\" must be finite and positive"
    );
    assert_eq!(told(TrialError::BatchPlan), "firefox trial did not honor its batch plan");
    assert_eq!(
        told(TrialError::Evidence(EvidenceError::NoRootPid)),
        "firefox did not expose a browser root PID"
    );
    assert_eq!(browser_lab::trial_metric(5), "bperf.batch_size");
    assert_eq!(
        EvidenceError::ArtifactSet.message(Engine::Webkit, &vec![], &vec![]),
        "webkit returned an invalid artifact set: {}"
    );
}

#[test]
fn accepted_evidence_has_every_capability() {
    let (evidence, files) = valid_evidence(Engine::Chromium);
    assert!(browser_lab::validate_evidence(Engine::Chromium, &evidence, &files).is_ok());
    assert!(evidence.capabilities.complete());
    assert!(evidence.anchor.validate());
    assert!(browser_lab::same_runtime(
        &evidence.runtime,
        &browser_lab::copy_runtime(&evidence.runtime)
    ));
}

#[test]
fn laboratories_are_configured_step_by_step() {
    let config = BrowserLabConfig { node: "node".to_owned(), sidecar: "a".to_owned() }
        .with_node("/usr/bin/node".to_owned())
        .with_sidecar("b".to_owned());
    assert_eq!(config.node, "/usr/bin/node");
    assert_eq!(config.sidecar, "b");
}

#[test]
fn responses_are_matched_to_their_requests() {
    let response = |protocol_version, id, ok, has_result| WireResponse {
        protocol_version,
        id,
        ok,
        has_result,
        error: None,
    };
    let version = PROTOCOL_VERSION;
    assert_eq!(browser_lab::check_response(7, &response(version, 7, true, true)), Ok(()));
    assert_eq!(
        browser_lab::check_response(7, &response(version + 1, 7, true, true)),
        Err(WireFailure::Protocol(version + 1))
    );
    assert_eq!(
        browser_lab::check_response(7, &response(version, 8, true, true)),
        Err(WireFailure::OtherRequest(8))
    );
    assert_eq!(
        browser_lab::check_response(7, &response(version, 7, false, true)),
        Err(WireFailure::Refused)
    );
    assert_eq!(
        browser_lab::check_response(7, &response(version, 7, true, false)),
        Err(WireFailure::NoResult)
    );
    assert_eq!(
        browser_lab::describe_refusal(&Some(WireError {
            code: "probe".to_owned(),
            message: "failed".to_owned(),
            stack: Some("at x".to_owned()),
        })),
        "browser laboratory probe: failed\nat x"
    );
    assert_eq!(
        browser_lab::describe_refusal(&None),
        "browser laboratory unknown: request failed without an error body"
    );
    assert_eq!(browser_lab::format_stderr(&vec![]), "");
    assert_eq!(
        browser_lab::format_stderr(&vec!["a".to_owned(), "b".to_owned()]),
        "\nbrowser laboratory stderr:\na\nb"
    );
}

// The host.

#[test]
fn byte_ranges_match_the_fixture_contract() {
    assert_eq!(byte_range("bytes=2-5", 10), Ok(2..6));
    assert_eq!(byte_range("bytes=7-", 10), Ok(7..10));
    assert_eq!(byte_range("bytes=-3", 10), Ok(7..10));
    assert_eq!(byte_range("bytes=-20", 10), Ok(0..10));
    assert_eq!(byte_range("bytes=10-", 10), Err(()));
    assert_eq!(byte_range("items=0-1", 10), Err(()));
    assert_eq!(byte_range("bytes=0-1,4-5", 10), Err(()));
    assert_eq!(byte_range("bytes=-", 10), Err(()));
    assert_eq!(byte_range("bytes=0-1", 0), Err(()));
}

#[test]
fn requests_are_routed_by_their_paths() {
    assert!(matches!(benchmark_host::route("/"), Route::Page));
    assert!(matches!(benchmark_host::route("/?x=1"), Route::Page));
    assert!(matches!(benchmark_host::route("/__bperf/benchmark.js"), Route::Bundle));
    assert!(matches!(benchmark_host::route("/other"), Route::NotFound));
    match benchmark_host::route("/__bperf/fixture?descriptor=%7B%7D") {
        Route::Fixture(query) => assert_eq!(query, "descriptor=%7B%7D"),
        other => panic!("{other:?}"),
    }
}

#[test]
fn queries_are_decoded_before_they_are_searched() {
    assert_eq!(
        benchmark_host::requested_descriptor("a=1&descriptor=%7B%22source%22%3A%22a+b%22%7D"),
        Some(r#"{"source":"a b"}"#.to_owned())
    );
    assert_eq!(benchmark_host::requested_descriptor("a=1"), None);
    let pairs = vec![
        ("x".to_owned(), "1".to_owned()),
        ("x".to_owned(), "2".to_owned()),
    ];
    assert_eq!(benchmark_host::find_parameter(&pairs, "x"), Some("1".to_owned()));
}

fn header(reply: &benchmark_host::Reply, name: &str) -> Option<String> {
    reply
        .headers
        .iter()
        .find(|field| field.name == name)
        .map(|field| field.value.clone())
}

#[test]
fn fixtures_are_served_whole_or_in_part() {
    let stream = Some(StreamDelivery { chunk_size: 2, interval_ms: 0 });
    let reply = benchmark_host::fixture_reply(
        &Some("bytes=2-5".to_owned()),
        10,
        "text/plain",
        stream,
    );
    assert_eq!(reply.status, 206);
    assert_eq!(header(&reply, "Content-Range"), Some("bytes 2-5/10".to_owned()));
    assert_eq!((reply.start, reply.end), (2, 6));
    let whole = benchmark_host::fixture_reply(&None, 10, "text/plain", None);
    assert_eq!(whole.status, 200);
    assert_eq!((whole.start, whole.end), (0, 10));
    assert_eq!(header(&whole, "Content-Type"), Some("text/plain".to_owned()));
    let refused = benchmark_host::fixture_reply(
        &Some("bytes=10-".to_owned()),
        10,
        "text/plain",
        None,
    );
    assert_eq!(refused.status, 416);
    assert_eq!(header(&refused, "Content-Range"), Some("bytes */10".to_owned()));
    let page = benchmark_host::static_reply(200, 12, "text/html");
    assert_eq!((page.status, page.start, page.end), (200, 0, 12));
    assert_eq!(benchmark_host::origin(4317), "http://127.0.0.1:4317/");
}

/// The bytes that an answer hands out.
fn handed_out(answer: &Answer, bundle: &[u8], bodies: &[&[u8]]) -> Vec<u8> {
    let whole = match &answer.body {
        AnswerBody::Page => benchmark_host::PAGE.as_bytes(),
        AnswerBody::Bundle => bundle,
        AnswerBody::Fixture(place) => bodies[*place],
        AnswerBody::Text(text) => text.as_bytes(),
    };
    let mut reader = BodyReader::new(&answer.reply);
    let mut bytes = Vec::new();
    loop {
        let piece = reader.read(64);
        if piece.length == 0 {
            return bytes;
        }
        bytes.extend_from_slice(&whole[piece.from..piece.from + piece.length]);
    }
}

#[test]
fn the_host_answers_with_its_page_and_its_bundle() {
    let bundle = b"globalThis.bundleLoaded = true;\n";
    let fixed = |url: &str| benchmark_host::fixed_answer(&benchmark_host::route(url), bundle.len());

    let page = fixed("/").unwrap();
    assert_eq!(page.reply.status, 200);
    assert_eq!(header(&page.reply, "Content-Type"), Some("text/html; charset=utf-8".to_owned()));
    let shown = String::from_utf8(handed_out(&page, bundle, &[])).unwrap();
    assert!(shown.contains("await import(\"/__bperf/benchmark.js\")"));
    assert!(!shown.contains("importmap"));
    assert!(shown.ends_with("</script>"));

    let script = fixed("/__bperf/benchmark.js").unwrap();
    assert_eq!(script.reply.status, 200);
    assert_eq!(
        header(&script.reply, "Content-Type"),
        Some("text/javascript; charset=utf-8".to_owned())
    );
    assert_eq!(handed_out(&script, bundle, &[]), bundle);

    let missing = fixed("/favicon.ico").unwrap();
    assert_eq!(missing.reply.status, 404);
    assert_eq!(handed_out(&missing, bundle, &[]), b"Not found");
    assert!(fixed("/__bperf/fixture?descriptor=x").is_none());
}

#[test]
fn the_host_answers_with_the_asked_part_of_a_fixture() {
    let body = b"0123456789";
    let asked = FixtureDescriptor {
        source: "./segment.txt".to_owned(),
        response: Some(FixtureResponse {
            content_type: Some("text/plain".to_owned()),
            stream: Some(FixtureStream { chunk_size: 2, interval_ms: Some(0) }),
        }),
    };
    let mut pinned = entry("./segment.txt");
    pinned.descriptor = asked.clone();
    pinned.size_bytes = 10;
    let entries = vec![entry("./other.txt"), pinned];
    let bodies: [&[u8]; 2] = [b"", body];
    let answer = |range: Option<&str>| {
        let range = range.map(str::to_owned);
        benchmark_host::fixture_answer(&Some(asked.clone()), &entries, &range).unwrap()
    };

    let part = answer(Some("bytes=2-5"));
    assert_eq!(part.reply.status, 206);
    assert_eq!(header(&part.reply, "Content-Range"), Some("bytes 2-5/10".to_owned()));
    assert_eq!(header(&part.reply, "Content-Type"), Some("text/plain".to_owned()));
    assert_eq!(part.reply.stream, Some(StreamDelivery { chunk_size: 2, interval_ms: 0 }));
    assert_eq!(handed_out(&part, b"", &bodies), b"2345");

    let whole = answer(None);
    assert_eq!(whole.reply.status, 200);
    assert_eq!(handed_out(&whole, b"", &bodies), body);

    let beyond = answer(Some("bytes=10-"));
    assert_eq!(beyond.reply.status, 416);
    assert_eq!(header(&beyond.reply, "Content-Range"), Some("bytes */10".to_owned()));
    assert_eq!(handed_out(&beyond, b"", &bodies), b"");
}

#[test]
fn only_a_fixture_that_is_not_pinned_is_not_found() {
    let entries = vec![entry("./a.txt")];
    for asked in [None, Some(descriptor("./b.txt"))] {
        let answer =
            benchmark_host::fixture_answer(&asked, &entries, &Some("bytes=0-1".to_owned())).unwrap();
        assert_eq!(answer.reply.status, 404);
        assert_eq!(
            header(&answer.reply, "Content-Type"),
            Some("text/plain; charset=utf-8".to_owned())
        );
        assert_eq!(header(&answer.reply, "Cache-Control"), Some("no-store".to_owned()));
        assert_eq!(handed_out(&answer, b"", &[]), b"Unknown benchmark fixture");
    }
    let known = benchmark_host::fixture_answer(&Some(descriptor("./a.txt")), &entries, &None).unwrap();
    assert_eq!(known.reply.status, 200);
    assert!(matches!(known.body, AnswerBody::Fixture(0)));
}

#[test]
fn pieces_of_a_body_stay_in_their_chunks_and_make_it_up() {
    let reply = benchmark_host::fixture_reply(
        &None,
        10,
        "text/plain",
        Some(StreamDelivery { chunk_size: 4, interval_ms: 5 }),
    );
    let mut reader = BodyReader::new(&reply);
    let mut pieces = Vec::new();
    loop {
        let piece = reader.read(3);
        if piece.length == 0 {
            break;
        }
        pieces.push((piece.pause, piece.from, piece.length));
    }
    assert_eq!(
        pieces,
        [(false, 0, 3), (false, 3, 1), (true, 4, 3), (false, 7, 1), (true, 8, 2)]
    );
}

// Adapters and verifiers.

#[test]
fn benchmark_host_readiness_accepts_the_reported_source_graph() {
    let value: serde_json::Value = serde_json::from_str(
        r#"{"protocol_version": 2, "url": "http://127.0.0.1:4317/", "source_files": ["/benchmark.ts"]}"#,
    )
    .unwrap();
    let ready = AdapterReady {
        protocol_version: value["protocol_version"].as_u64().unwrap() as u32,
        url: value["url"].as_str().unwrap().to_owned(),
        source_files: value["source_files"]
            .as_array()
            .unwrap()
            .iter()
            .map(|file| file.as_str().unwrap().to_owned())
            .collect(),
    };
    assert_eq!(ready.protocol_version, READINESS_PROTOCOL_VERSION);
    assert_eq!(ready.url, "http://127.0.0.1:4317/");
    assert_eq!(ready.source_files.len(), 1);
    assert_eq!(benchmark_runtime::check_readiness(&ready), Ok(()));
}

#[test]
fn adapters_are_refused_until_they_are_ready() {
    let ready = |protocol_version, url: &str| AdapterReady {
        protocol_version,
        url: url.to_owned(),
        source_files: vec![],
    };
    let error = benchmark_runtime::check_readiness(&ready(1, "http://x/")).unwrap_err();
    assert_eq!(error, ReadinessError::Protocol(1));
    assert_eq!(
        error.message(""),
        "variant readiness protocol mismatch: expected 2, received 1"
    );
    assert_eq!(
        benchmark_runtime::check_readiness(&ready(2, " ")),
        Err(ReadinessError::EmptyUrl)
    );
    let closed = benchmark_runtime::check_readiness_line(0).unwrap_err();
    assert_eq!(closed, ReadinessError::Closed);
    assert_eq!(
        closed.message("exit 1"),
        "variant adapter closed before readiness (status: exit 1)"
    );
}

#[test]
fn exact_verification_accepts_matching_semantic_results() {
    let verdict = benchmark_runtime::verify_exact(
        &vec![parse(r#"{"case_id": "parser", "expected": {"value": 42}}"#)],
        &vec![parse(r#"{"value": 42}"#)],
    )
    .unwrap();
    assert!(verdict.success);
    assert_eq!(verdict.failure_category, None);
    assert_eq!(verdict.detail, None);
}

#[test]
fn exact_verification_reports_the_case_that_changed() {
    let verdict = benchmark_runtime::verify_exact(
        &vec![parse(r#"{"case_id": "parser", "expected": {"value": 42}}"#)],
        &vec![parse(r#"{"value": 41}"#)],
    )
    .unwrap();
    assert!(!verdict.success);
    assert_eq!(verdict.failure_category.as_deref(), Some("incorrect_result"));
    assert_eq!(
        verdict.detail.as_deref(),
        Some("case parser returned an unexpected result")
    );
}

#[test]
fn exact_verification_rejects_a_malformed_operation() {
    let error = benchmark_runtime::verify_exact(
        &vec![parse(r#"{"case_id": "parser"}"#)],
        &vec![JsonValue::Null],
    )
    .unwrap_err();
    assert!(error.message().contains("has no expected value"));
}

#[test]
fn oversized_verifier_output_is_drained_before_rejection() {
    let error = benchmark_runtime::check_output(MAX_VERIFIER_OUTPUT_BYTES + 4096).unwrap_err();
    assert!(error.message("stdout").contains("exceeded"));
    assert!(benchmark_runtime::check_output(MAX_VERIFIER_OUTPUT_BYTES).is_ok());
}

#[test]
fn oversized_adapter_readiness_is_rejected_before_json_decode() {
    let error =
        benchmark_runtime::check_readiness_line(MAX_ADAPTER_READINESS_BYTES + 1).unwrap_err();
    assert!(error.message("").contains("readiness exceeded"));
    assert!(benchmark_runtime::check_readiness_line(MAX_ADAPTER_READINESS_BYTES).is_ok());
}

#[test]
fn verdicts_are_consistent() {
    let verdict = |success, category: Option<&str>, detail: Option<&str>| VerifierVerdict {
        success,
        failure_category: category.map(str::to_owned),
        detail: detail.map(str::to_owned),
    };
    assert_eq!(benchmark_runtime::check_verdict(&verdict(true, None, None)), Ok(()));
    assert_eq!(
        benchmark_runtime::check_verdict(&verdict(false, Some("wrong"), Some("why"))),
        Ok(())
    );
    assert_eq!(
        benchmark_runtime::check_verdict(&verdict(false, None, None)),
        Err(VerdictError::NoCategory)
    );
    assert_eq!(
        benchmark_runtime::check_verdict(&verdict(true, Some("wrong"), None)),
        Err(VerdictError::UnexpectedCategory)
    );
    let error = benchmark_runtime::check_verdict(&verdict(true, None, Some("why"))).unwrap_err();
    assert_eq!(error.message(), "successful verifier verdict has failure detail");
    assert_eq!(
        benchmark_runtime::verifier_exit("exit 2", "boom"),
        "workload verifier exited with exit 2: boom"
    );
    assert_eq!(
        benchmark_runtime::verifier_exit("exit 2", ""),
        "workload verifier exited with exit 2"
    );
}

#[test]
fn verifiers_are_heard_or_stopped() {
    assert_eq!(benchmark_runtime::verifier_step(false, false), VerifierStep::Wait);
    assert_eq!(benchmark_runtime::verifier_step(false, true), VerifierStep::Stop);
    assert_eq!(benchmark_runtime::verifier_step(true, false), VerifierStep::Collect);
    assert_eq!(benchmark_runtime::verifier_step(true, true), VerifierStep::Collect);

    let exit = |success| VerifierExit {
        success,
        status: "exit 2".to_owned(),
        complaint: "boom".to_owned(),
    };
    let verdict = |failure_category: Option<&str>| VerifierVerdict {
        success: false,
        failure_category: failure_category.map(str::to_owned),
        detail: None,
    };
    let told = |exit: &VerifierExit, decoded| {
        benchmark_runtime::settle_verdict(exit, decoded).unwrap_err().message()
    };
    assert!(matches!(
        benchmark_runtime::settle_verdict(&exit(true), Some(verdict(Some("wrong")))),
        Ok(VerifierVerdict { success: false, .. })
    ));
    assert_eq!(told(&exit(false), None), "workload verifier exited with exit 2: boom");
    assert_eq!(told(&exit(true), None), "workload verifier emitted invalid JSON");
    assert!(matches!(
        benchmark_runtime::settle_verdict(&exit(true), Some(verdict(None))),
        Err(VerifierFailure::Verdict(VerdictError::NoCategory))
    ));
    assert_eq!(
        told(&exit(true), Some(verdict(None))),
        "failed verifier verdict has no failure_category"
    );
}

#[test]
fn workloads_hold_operations_that_can_be_read() {
    let line = |number, blank, read| WorkloadLine { number, blank, read };
    assert_eq!(
        benchmark_runtime::check_workload(&vec![line(1, true, false), line(2, false, true)]),
        Ok(())
    );
    assert_eq!(
        benchmark_runtime::check_workload(&vec![line(1, false, true), line(2, false, false)]),
        Err(WorkloadError::InvalidLine(2))
    );
    assert_eq!(
        benchmark_runtime::check_workload(&vec![line(1, true, false)]),
        Err(WorkloadError::NoOperations)
    );
}

#[test]
fn artifacts_lie_below_their_measurement() {
    assert_eq!(
        benchmark_runtime::attempt_directory("/m", "trial-1", 2),
        "/m/artifacts/trial-1/attempt-0002"
    );
    assert_eq!(
        benchmark_runtime::measurement_relative("/m", "/m/artifacts/a.json"),
        Ok("artifacts/a.json".to_owned())
    );
    assert!(benchmark_runtime::measurement_relative("/m", "/n/a.json").is_err());
}

// Fixtures.

fn descriptor(source: &str) -> FixtureDescriptor {
    FixtureDescriptor { source: source.to_owned(), response: None }
}

fn entry(source: &str) -> FixtureLockEntry {
    FixtureLockEntry {
        descriptor: descriptor(source),
        source_url: None,
        final_url: None,
        body_path: "unused".to_owned(),
        sha256: "0".repeat(64),
        size_bytes: 0,
        content_type: "application/octet-stream".to_owned(),
    }
}

#[test]
fn fixture_locks_reject_duplicate_descriptors() {
    let lock = FixtureLock {
        schema_version: LOCK_SCHEMA_VERSION,
        fixtures: vec![entry("fixture.txt"), entry("fixture.txt")],
    };
    let error = fixtures::read_lock(&lock).err().expect("duplicate lock was accepted");
    assert!(error.message("fixture-lock.json", "").contains("duplicate descriptors"));
}

#[test]
fn fixture_locks_are_refused_for_their_first_fault() {
    let lock = |schema_version, entries: Vec<FixtureLockEntry>| FixtureLock {
        schema_version,
        fixtures: entries,
    };
    assert_eq!(fixtures::read_lock(&lock(1, vec![entry("a"), entry("b")])), Ok(()));
    let error = fixtures::read_lock(&lock(9, vec![])).unwrap_err();
    assert_eq!(error, FixtureError::Schema);
    assert_eq!(error.message("lock.json", ""), "unsupported fixture lock schema in lock.json");
    let mut untyped = entry("a");
    untyped.content_type = " ".to_owned();
    assert_eq!(
        fixtures::read_lock(&lock(1, vec![untyped])),
        Err(FixtureError::EmptyLockedContentType)
    );
    assert_eq!(
        fixtures::validate_descriptor(&descriptor(" ")),
        Err(FixtureError::EmptySource)
    );
    let responding = |content_type: Option<&str>, chunk_size| FixtureDescriptor {
        source: "a".to_owned(),
        response: Some(FixtureResponse {
            content_type: content_type.map(str::to_owned),
            stream: Some(FixtureStream { chunk_size, interval_ms: None }),
        }),
    };
    assert_eq!(
        fixtures::validate_descriptor(&responding(Some(""), 1)),
        Err(FixtureError::EmptyContentType)
    );
    assert_eq!(
        fixtures::validate_descriptor(&responding(None, 0)),
        Err(FixtureError::ZeroChunkSize)
    );
    assert_eq!(fixtures::validate_descriptor(&responding(Some("text/plain"), 4)), Ok(()));
    assert!(fixtures::descriptors_agree(&responding(None, 4), &responding(None, 4)));
    assert!(!fixtures::descriptors_agree(&responding(None, 4), &responding(None, 5)));
}

#[test]
fn pinned_bodies_must_be_what_was_pinned() {
    let body = b"outside";
    let digest = format!("{:x}", Sha256::digest(body));
    assert_eq!(
        fixtures::cached_object_path("/cache", &digest, &format!("/cache/{digest}")),
        Ok(())
    );
    let error =
        fixtures::cached_object_path("/cache", &digest, "/outside/body").unwrap_err();
    assert!(error
        .message("fixture", "")
        .contains("outside the content-addressed fixture cache"));
    assert_eq!(
        fixtures::cached_object_path("/cache", "xyz", "/cache/xyz"),
        Err(FixtureError::InvalidDigest)
    );
    let mut pinned = entry("https://host/a");
    pinned.sha256 = digest.clone();
    pinned.size_bytes = 7;
    assert_eq!(fixtures::validate_body(&pinned, 7, &digest), Ok(()));
    let error = fixtures::validate_body(&pinned, 8, &digest).unwrap_err();
    assert!(error
        .message("pinned remote fixture", "https://host/a")
        .contains("pinned remote fixture is corrupt"));
    assert_eq!(
        fixtures::validate_body(&pinned, 7, &"0".repeat(64)),
        Err(FixtureError::Corrupt)
    );
    assert_eq!(fixtures::validate_bytes(&pinned, body), Ok(()));
    assert_eq!(fixtures::validate_bytes(&pinned, b"Outside"), Err(FixtureError::Corrupt));
    assert_eq!(fixtures::validate_bytes(&pinned, b"outside!"), Err(FixtureError::Corrupt));
    assert_eq!(fixtures::check_cache_key(&pinned), Ok(()));
    pinned.sha256.pop();
    assert_eq!(fixtures::check_cache_key(&pinned), Err(FixtureError::InvalidDigest));
    pinned.sha256 = digest;
    assert_eq!(pinned.size(), Ok(7));
    assert_eq!(pinned.content_type(), "application/octet-stream");
    assert_eq!(pinned.stream(), None);
}

/// A cache in memory: what lies at each path.
struct Cache {
    objects: BTreeMap<String, Vec<u8>>,
}

impl Cache {
    fn put(&mut self, content: &[u8]) -> CachedBody {
        let path = fixtures::object_path("/project/.bperf/objects", content);
        self.objects.insert(path.clone(), content.to_vec());
        fixtures::cache_body("/project/.bperf/objects", path, content).unwrap()
    }

    /// Resolves one descriptor against a lock, with what its file or its server holds now.
    fn resolve(
        &mut self,
        descriptor: &FixtureDescriptor,
        lock: &Vec<FixtureLockEntry>,
        content: &[u8],
        answer: Option<RemoteAnswer>,
    ) -> Result<Vec<FixtureLockEntry>, FixtureError> {
        let entry = match fixtures::resolve(descriptor, lock)? {
            FixtureOrigin::Pinned(place) => {
                let entry = lock[place].clone();
                let path = entry.body_path.clone();
                let body = self.objects[&path].clone();
                fixtures::keep_pinned(entry, "/project/.bperf/objects", path, &body)?
            }
            FixtureOrigin::Remote(address) => {
                assert_eq!(Some(&address), answer.as_ref().map(|answer| &answer.source_url));
                fixtures::acquire(descriptor.clone(), self.put(content), answer)
            }
            FixtureOrigin::Local => {
                fixtures::acquire(descriptor.clone(), self.put(content), None)
            }
        };
        Ok(vec![entry])
    }
}

#[test]
fn content_addressed_cache_objects_cannot_be_symlinks() {
    let body = b"outside";
    let digest = format!("{:x}", Sha256::digest(body));
    assert_eq!(fixtures::object_path("/cache", body), format!("/cache/{digest}"));
    let error = fixtures::cache_body("/cache", "/outside/body".to_owned(), body).unwrap_err();
    assert!(error
        .message("content-addressed fixture object", "fixture")
        .contains("outside the content-addressed fixture cache"));
    let cached = fixtures::cached_body("/outside/body".to_owned(), body);
    assert_eq!((cached.path.as_str(), cached.size_bytes), ("/outside/body", 7));
    assert_eq!(cached.sha256, digest);
}

#[test]
fn local_fixtures_are_reacquired_and_cannot_escape_the_project() {
    let mut cache = Cache { objects: BTreeMap::new() };
    let local = descriptor("./fixtures/segment.txt");
    let lock = cache.resolve(&local, &vec![], b"first", None).unwrap();
    let first = fixtures::fixture_files(&lock);
    assert_eq!(cache.objects[&first[0]], b"first");
    let lock = cache.resolve(&local, &lock, b"second", None).unwrap();
    let second = fixtures::fixture_files(&lock);
    assert_eq!(cache.objects[&second[0]], b"second");
    assert_ne!(first, second);

    let escaped = ResolvedFile { path: "/outside/outside.txt".to_owned(), is_file: true };
    let error = project_modules::project_file("/project", &escaped).unwrap_err();
    assert!(error
        .message("fixture", "/outside/outside.txt")
        .contains("fixture is outside benchmark root"));
}

#[test]
fn remote_fixtures_follow_redirects_and_reuse_the_pinned_body() {
    let mut cache = Cache { objects: BTreeMap::new() };
    let source = "http://127.0.0.1:8080/redirect";
    let remote = descriptor(source);
    let answer = RemoteAnswer {
        source_url: source.to_owned(),
        final_url: "http://127.0.0.1:8080/asset.mp4".to_owned(),
        content_type: Some("video/custom".to_owned()),
    };
    let lock = cache.resolve(&remote, &vec![], b"remote fixture", Some(answer)).unwrap();
    let first = fixtures::fixture_files(&lock);
    assert_eq!(cache.objects[&first[0]], b"remote fixture");
    assert_eq!(lock[0].source_url.as_deref(), Some(source));
    assert!(lock[0].final_url.as_ref().unwrap().ends_with("/asset.mp4"));
    assert_eq!(lock[0].content_type, "video/custom");

    let again = cache.resolve(&remote, &lock, b"never asked for", None).unwrap();
    assert_eq!(first, fixtures::fixture_files(&again));
    assert_eq!(cache.objects.len(), 1);
    cache.objects.insert(first[0].clone(), b"corrupt".to_vec());
    let error = cache.resolve(&remote, &again, b"never asked for", None).unwrap_err();
    assert!(error
        .message("pinned remote fixture", source)
        .contains("pinned remote fixture is corrupt"));
}

#[test]
fn fixtures_are_fetched_once_from_the_network_and_always_from_disk() {
    let remote = descriptor("http://127.0.0.1:80/redirect");
    assert!(matches!(
        fixtures::resolve(&remote, &vec![]),
        Ok(FixtureOrigin::Remote(address)) if address == "http://127.0.0.1:80/redirect"
    ));
    let mut pinned = vec![entry("other"), entry("http://127.0.0.1:80/redirect")];
    assert!(matches!(fixtures::resolve(&remote, &pinned), Ok(FixtureOrigin::Remote(_))));
    pinned[1].source_url = Some("http://127.0.0.1:80/redirect".to_owned());
    assert!(matches!(fixtures::resolve(&remote, &pinned), Ok(FixtureOrigin::Pinned(1))));
    assert_eq!(fixtures::find(&pinned, &remote), Some(1));
    let local = descriptor("./fixtures/segment.txt");
    assert!(matches!(
        fixtures::resolve(&local, &vec![entry("./fixtures/segment.txt")]),
        Ok(FixtureOrigin::Local)
    ));
    assert!(matches!(
        fixtures::resolve(&descriptor(""), &vec![]),
        Err(FixtureError::EmptySource)
    ));
}

#[test]
fn acquired_bodies_are_pinned() {
    let body = |name: &str| CachedBody {
        path: format!("/cache/{name}"),
        sha256: "a".repeat(64),
        size_bytes: 14,
    };
    let answer = |content_type: Option<&str>| RemoteAnswer {
        source_url: "http://127.0.0.1/redirect".to_owned(),
        final_url: "http://127.0.0.1/asset.mp4".to_owned(),
        content_type: content_type.map(str::to_owned),
    };
    let remote = descriptor("http://127.0.0.1/redirect");
    let typed = fixtures::acquire(remote.clone(), body("b"), Some(answer(Some("video/custom"))));
    assert_eq!(typed.content_type, "video/custom");
    assert_eq!(typed.final_url.as_deref(), Some("http://127.0.0.1/asset.mp4"));
    assert_eq!((typed.body_path.as_str(), typed.size_bytes), ("/cache/b", 14));
    let untyped = fixtures::acquire(remote.clone(), body("c"), Some(answer(None)));
    assert_eq!(untyped.content_type, "application/octet-stream");
    let local = fixtures::acquire(descriptor("./fixtures/segment.txt"), body("a"), None);
    assert_eq!(local.content_type, "text/plain; charset=utf-8");
    assert_eq!((local.source_url.as_ref(), local.final_url.as_ref()), (None, None));

    let entries = vec![typed.clone(), local, typed];
    assert!(matches!(fixtures::resolve(&remote, &entries), Ok(FixtureOrigin::Pinned(0))));
    assert_eq!(fixtures::fixture_files(&entries), ["/cache/a", "/cache/b", "/cache/b"]);
}

#[test]
fn addresses_are_parsed_before_they_are_fetched() {
    assert_eq!(
        fixtures::remote_uri("https://host.example/a.mp4?x=1#part"),
        Some("https://host.example/a.mp4?x=1".to_owned())
    );
    assert_eq!(fixtures::remote_uri("./a.mp4"), None);
    assert_eq!(fixtures::remote_uri("ftp://host/a"), None);
    assert_eq!(fixtures::remote_uri("not a uri at all"), None);
}

#[test]
fn content_types_follow_extensions() {
    for (source, expected) in [
        ("./a.json", "application/json"),
        ("./a.json?part=b.txt", "application/json"),
        ("/a.json", "application/json"),
        ("a.json", "application/octet-stream"),
        ("./list.M3U8", "application/vnd.apple.mpegurl"),
        ("./clip.mp4", "video/mp4"),
        ("./clip.m4s", "video/mp4"),
        ("../note.txt", "text/plain; charset=utf-8"),
        ("./blob", "application/octet-stream"),
        ("https://host/path/clip.mp4?name=a.json", "video/mp4"),
    ] {
        assert_eq!(fixtures::inferred_content_type(source), expected, "{source}");
    }
}
