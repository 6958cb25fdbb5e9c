use std::collections::BTreeMap;

use bperf::browser_lab::Engine;
use bperf::comparison::{ComparisonSummary, EngineSummary};
use bperf::json::{JsonNumber, JsonValue};
use bperf::lineage::{
    self, AppendError, BaselineRecord, CycleRecord, DecodedLine, HistoryError, IdKind,
    LineageEvent, NewCycle, PromotionRecord, PROMOTION_CONFIRMATION_SEARCHES, SCHEMA_VERSION,
};
use bperf::lineage_text::{self, FileObjects};
use bperf::managed_benchmark::{
    self, ConfirmError, DescriptionError, IndexError, ManagedCase, ManagedDescription,
    ManagedPlaces, MeasurementIndexOptions,
};
use bperf::paths::PathError;
use bperf::promotion::{self, CycleChoice, FindError, History, MeasuredInputs, RecordError};
use bperf::reports::{self, LineageStore};
use bperf::sidecar_runtime::{self, HostPlatform, SidecarInstallation, SidecarSource};
use bperf::source_state::{
    self, ChangeKind, IdPlace, SourceChange, SourceContent, SourceError, SourceFile, SourceState,
};
use sha2::{Digest, Sha256};

const WORKSPACE: &str = "/workspace";

/// The records of one benchmark, held in memory.
struct Store {
    events: Vec<LineageEvent>,
    states: BTreeMap<String, SourceState>,
    changes: BTreeMap<String, SourceChange>,
    objects: BTreeMap<String, Vec<u8>>,
}

impl Store {
    fn new() -> Self {
        Self {
            events: Vec::new(),
            states: BTreeMap::new(),
            changes: BTreeMap::new(),
            objects: BTreeMap::new(),
        }
    }

    fn capture_state(&mut self, path: &str, content: &str) -> SourceState {
        let sources = vec![SourceContent {
            path: path.to_owned(),
            content: content.as_bytes().to_vec(),
        }];
        let first = source_state::snapshot_state(WORKSPACE, &sources).unwrap();
        let second = source_state::snapshot_state(WORKSPACE, &sources).unwrap();
        for (file, source) in first.files.iter().zip(&sources) {
            self.objects.insert(file.sha256.clone(), source.content.clone());
        }
        let state = source_state::capture_state(first, &second).unwrap();
        self.states.insert(state.state_id.clone(), state.clone());
        state
    }

    fn append_cycle(&mut self, cycle: NewCycle) -> CycleRecord {
        let previous = self.events.iter().rev().find_map(|event| match event {
            LineageEvent::Cycle(cycle) => Some(self.states[&cycle.source_after].clone()),
            _ => None,
        });
        let appended =
            lineage::append_cycle(&mut self.events, cycle, previous.as_ref(), 1).unwrap();
        if let Some(change) = appended.change {
            self.changes.insert(change.change_id.clone(), change);
        }
        match &self.events[appended.index] {
            LineageEvent::Cycle(cycle) => (**cycle).clone(),
            other => panic!("{other:?}"),
        }
    }

    fn object(&self, digest: &Option<String>) -> Vec<u8> {
        digest.as_ref().map_or_else(Vec::new, |digest| self.objects[digest].clone())
    }

    fn render_change(&self, change_id: &str) -> Result<String, SourceError> {
        let change = source_state::load_change(self.changes[change_id].clone(), change_id)?;
        let objects = change
            .files
            .iter()
            .map(|file| FileObjects {
                before: self.object(&file.before_sha256),
                after: self.object(&file.after_sha256),
            })
            .collect();
        lineage_text::render_stored_change(&change, &objects).map_err(|refused| {
            assert_eq!(refused.place, 0);
            refused.error
        })
    }

    fn read_events(&self) -> Result<Vec<LineageEvent>, HistoryError> {
        lineage::parse_events(
            self.events
                .iter()
                .enumerate()
                .map(|(index, event)| DecodedLine { number: index + 1, event: Some(event.clone()) })
                .collect(),
            "parser",
        )
    }
}

fn cycle(state: SourceState, measurement: &str) -> NewCycle {
    NewCycle {
        benchmark_id: "parser".to_owned(),
        subject_id: "parser".to_owned(),
        benchmark_sha256: "benchmark".to_owned(),
        candidate_measurement_set: measurement.to_owned(),
        candidate_measurement_path: format!("C:/measurements/{measurement}"),
        environment_fingerprint: "environment".to_owned(),
        source_after: state,
        message: Some(format!("measure {measurement}")),
        comparison: None,
    }
}

fn comparison(candidate: &str, verdict: &str) -> ComparisonSummary {
    ComparisonSummary {
        comparison_id: format!("compare-{candidate}"),
        report_path: Some(format!("C:/comparisons/{candidate}.json")),
        baseline_measurement_set: "baseline".to_owned(),
        candidate_measurement_set: candidate.to_owned(),
        environment_fingerprint: Some("environment".to_owned()),
        policy: "strict_all".to_owned(),
        verdict: verdict.to_owned(),
        engines: Engine::all()
            .into_iter()
            .map(|engine| EngineSummary {
                engine,
                verdict: verdict.to_owned(),
                correctness: "pass".to_owned(),
                anchor: None,
                metrics: Vec::new(),
            })
            .collect(),
        warnings: Vec::new(),
        decision_summary: "  decision: held\n".to_owned(),
    }
}

fn compared_cycle(state: SourceState, measurement: &str) -> NewCycle {
    NewCycle {
        comparison: Some(comparison(measurement, "positive")),
        ..cycle(state, measurement)
    }
}

#[test]
fn checkpoints_preserve_changes_reversions_and_idempotent_retries() {
    let mut store = Store::new();
    let source = "/workspace/src/parser.ts";
    let first_state = store.capture_state(source, "export const value = 1;\n");
    let first = store.append_cycle(cycle(first_state, "measure-1"));

    let second_state = store.capture_state(source, "export const value = 2;\n");
    let second = store.append_cycle(cycle(second_state, "measure-2"));
    let diff = store.render_change(&second.change_id).unwrap();
    assert!(diff.contains("-export const value = 1;"));
    assert!(diff.contains("+export const value = 2;"));

    let reverted_state = store.capture_state(source, "export const value = 1;\n");
    let reverted = store.append_cycle(cycle(reverted_state, "measure-1"));
    assert_eq!(reverted.source_after, first.source_after);
    assert_eq!(reverted.previous_cycle_id.as_deref(), Some(second.cycle_id.as_str()));

    let retry_state = store.capture_state(source, "export const value = 1;\n");
    let retry = store.append_cycle(cycle(retry_state, "measure-1"));
    assert_eq!(retry.cycle_id, reverted.cycle_id);
    assert_eq!(
        store.read_events().unwrap().len(),
        3,
        "an exact retry must not create another measured cycle"
    );
}

#[test]
fn binary_deltas_keep_content_references() {
    let diff = lineage_text::file_diff(
        "fixture.bin",
        &[0, 159, 146, 150],
        &[1, 159, 146, 150],
        Some("before"),
        Some("after"),
    );
    assert!(diff.contains("Binary file fixture.bin changed"));
    assert!(diff.contains("before -> after"));
}

#[test]
fn source_objects_must_match_their_content_address() {
    let mut store = Store::new();
    let source = "/workspace/parser.ts";
    let first_state = store.capture_state(source, "export const value = 1;\n");
    store.append_cycle(cycle(first_state, "measure-1"));
    let second_state = store.capture_state(source, "export const value = 2;\n");
    let second = store.append_cycle(cycle(second_state, "measure-2"));
    let digest = store.changes[&second.change_id].files[0].after_sha256.clone().unwrap();
    let shown = store.render_change(&second.change_id).unwrap();
    assert!(shown.contains("+export const value = 2;"));
    store.objects.insert(digest.clone(), b"tampered".to_vec());
    assert_eq!(
        source_state::read_object(&digest, b"tampered".to_vec()),
        Err(SourceError::ContentDigest)
    );
    assert_eq!(source_state::refuse_object(&digest, b"export const value = 2;\n"), None);
    assert_eq!(source_state::object_digest(b"export const value = 2;\n"), digest);

    let error = store.render_change(&second.change_id).unwrap_err();
    assert_eq!(error, SourceError::ContentDigest);
    assert!(error.message("parser.ts", "", WORKSPACE).contains("failed its content digest"));
}

#[test]
fn promotions_must_reference_an_earlier_cycle() {
    let mut store = Store::new();
    let state = store.capture_state("/workspace/parser.ts", "export const value = 1;\n");
    store.append_cycle(cycle(state, "measure-1"));
    store.events.push(LineageEvent::Promotion(PromotionRecord {
        schema_version: SCHEMA_VERSION,
        promotion_id: format!("promotion-{}", "0".repeat(64)),
        recorded_at_unix_ms: 1,
        benchmark_id: "parser".to_owned(),
        cycle_id: format!("cycle-{}", "f".repeat(64)),
        baseline_measurement_set: "measure-unknown".to_owned(),
        previous_baseline_measurement_set: None,
    }));

    let error = store.read_events().unwrap_err();
    assert!(error.message("parser.jsonl").contains("promotes an unknown cycle"));
}

#[test]
fn repeated_search_requires_an_independent_confirmation() {
    let mut store = Store::new();
    let mut selected = None;
    for index in 1..=PROMOTION_CONFIRMATION_SEARCHES {
        let state = store.capture_state(
            "/workspace/parser.ts",
            &format!("export const value = {index};\n"),
        );
        let cycle = store.append_cycle(compared_cycle(state, &format!("measure-{index}")));
        let events = store.read_events().unwrap();
        if index < PROMOTION_CONFIRMATION_SEARCHES {
            promotion::require_promotion_confirmation(&cycle, &events).unwrap();
        }
        selected = Some(cycle);
    }

    let selected = selected.unwrap();
    let events = store.read_events().unwrap();
    let error = promotion::require_promotion_confirmation(&selected, &events).unwrap_err();
    assert!(error.message(&selected).contains("needs a fresh confirmation"));

    lineage::append_confirmation(
        &mut store.events,
        &selected,
        "measure-confirmation",
        "C:/measurements/confirmation",
        "environment",
        comparison("measure-confirmation", "positive"),
        2,
    );
    let events = store.read_events().unwrap();
    promotion::require_promotion_confirmation(&selected, &events).unwrap();
}

#[test]
fn histories_are_refused_for_their_first_fault() {
    let history = || {
        let mut store = Store::new();
        let first = store.capture_state("/workspace/a.ts", "1");
        store.append_cycle(compared_cycle(first, "measure-1"));
        let second = store.capture_state("/workspace/a.ts", "2");
        let cycle = store.append_cycle(compared_cycle(second, "measure-2"));
        lineage::append_confirmation(
            &mut store.events,
            &cycle,
            "measure-3",
            "path",
            "environment",
            comparison("measure-3", "positive"),
            3,
        );
        lineage::append_promotion(
            &mut store.events,
            &cycle,
            &BaselineRecord {
                measurement_set_id: "measure-2".to_owned(),
                previous_measurement_set_id: Some("baseline".to_owned()),
            },
            4,
        )
        .unwrap();
        store
    };
    assert_eq!(history().read_events().unwrap().len(), 4);
    let refused = |change: &dyn Fn(&mut Vec<LineageEvent>)| {
        let mut store = history();
        change(&mut store.events);
        store.read_events().unwrap_err()
    };
    let with_cycle = |index: usize, change: &dyn Fn(&mut CycleRecord)| {
        refused(&|events| match &mut events[index] {
            LineageEvent::Cycle(cycle) => change(cycle),
            other => panic!("{other:?}"),
        })
    };
    assert_eq!(
        with_cycle(0, &|cycle| cycle.schema_version = 9),
        HistoryError::IncompatibleIdentity
    );
    assert_eq!(
        with_cycle(0, &|cycle| cycle.cycle_id = "x".to_owned()),
        HistoryError::InvalidId(IdKind::Cycle, "x".to_owned())
    );
    assert_eq!(
        with_cycle(0, &|cycle| cycle.source_after = "x".to_owned()),
        HistoryError::InvalidId(IdKind::SourceState, "x".to_owned())
    );
    assert_eq!(
        with_cycle(0, &|cycle| cycle.change_id = "x".to_owned()),
        HistoryError::InvalidId(IdKind::SourceChange, "x".to_owned())
    );
    assert_eq!(
        with_cycle(1, &|cycle| cycle.previous_cycle_id = None),
        HistoryError::BrokenCycleChain
    );
    assert_eq!(
        with_cycle(1, &|cycle| cycle.source_before = None),
        HistoryError::BrokenSourceChain
    );
    assert_eq!(
        with_cycle(1, &|cycle| {
            cycle.cycle_id = cycle.previous_cycle_id.clone().unwrap();
        }),
        HistoryError::DuplicateCycle
    );
    let with_confirmation = |change: &dyn Fn(&mut lineage::ConfirmationRecord)| {
        refused(&|events| match &mut events[2] {
            LineageEvent::Confirmation(record) => change(record),
            other => panic!("{other:?}"),
        })
    };
    let unknown = format!("cycle-{}", "f".repeat(64));
    assert_eq!(
        with_confirmation(&|record| record.confirmation_id = "x".to_owned()),
        HistoryError::InvalidId(IdKind::Confirmation, "x".to_owned())
    );
    assert_eq!(
        with_confirmation(&|record| record.cycle_id = unknown.clone()),
        HistoryError::ConfirmsUnknownCycle
    );
    assert_eq!(
        with_confirmation(&|record| record.outcome = "negative".to_owned()),
        HistoryError::InconsistentConfirmation
    );
    assert_eq!(
        with_confirmation(&|record| {
            record.confirmation_id = format!("confirmation-{}", "0".repeat(64));
        }),
        HistoryError::InvalidConfirmationIdentity
    );
    let with_promotion = |change: &dyn Fn(&mut PromotionRecord)| {
        refused(&|events| match &mut events[3] {
            LineageEvent::Promotion(record) => change(record),
            other => panic!("{other:?}"),
        })
    };
    assert_eq!(
        with_promotion(&|record| record.promotion_id = "x".to_owned()),
        HistoryError::InvalidId(IdKind::Promotion, "x".to_owned())
    );
    assert_eq!(
        with_promotion(&|record| record.baseline_measurement_set = "other".to_owned()),
        HistoryError::PromotesOutsideItsCycle
    );
    assert_eq!(refused(&|events| events.clear()), HistoryError::Empty);
    assert_eq!(
        lineage::parse_events(vec![DecodedLine { number: 3, event: None }], "parser").unwrap_err(),
        HistoryError::InvalidLine(3)
    );
    assert_eq!(
        HistoryError::InvalidLine(3).message("parser.jsonl"),
        "invalid parser.jsonl line 3"
    );
    assert_eq!(
        HistoryError::InvalidId(IdKind::Cycle, "cycle-\"1".to_owned()).message("parser.jsonl"),
        r#"invalid optimization cycle ID "cycle-\"1""#
    );
    assert_eq!(
        with_cycle(1, &|cycle| cycle.previous_cycle_id = Some("y".to_owned())),
        HistoryError::InvalidId(IdKind::Cycle, "y".to_owned())
    );
    assert_eq!(
        with_cycle(1, &|cycle| cycle.source_before = Some("z".to_owned())),
        HistoryError::InvalidId(IdKind::SourceState, "z".to_owned())
    );
    assert_eq!(
        HistoryError::Empty.message("parser.jsonl"),
        "optimization history parser.jsonl is empty"
    );
}

#[test]
fn appended_records_are_read_back() {
    let mut store = Store::new();
    let state = store.capture_state("/workspace/a.ts", "1");
    let first = store.append_cycle(compared_cycle(state.clone(), "measure-1"));
    assert!(first.cycle_id.starts_with("cycle-"));
    assert_eq!(first.outcome, "positive");
    let read = store.read_events().unwrap();
    assert_eq!(lineage::find(&read, &first.cycle_id), Some(0));
    let baseline = BaselineRecord {
        measurement_set_id: "measure-1".to_owned(),
        previous_measurement_set_id: None,
    };
    let promoted =
        lineage::append_promotion(&mut store.events, &first, &baseline, 5).unwrap();
    let again = lineage::append_promotion(&mut store.events, &first, &baseline, 9).unwrap();
    assert_eq!(promoted, again, "accepting twice must not record twice");
    let other = BaselineRecord {
        measurement_set_id: "measure-2".to_owned(),
        previous_measurement_set_id: None,
    };
    assert_eq!(
        lineage::append_promotion(&mut store.events, &first, &other, 5).unwrap_err(),
        AppendError::OtherMeasurement
    );
    let mut misnamed = cycle(state, "measure-9");
    misnamed.benchmark_id = "a b".to_owned();
    let previous = store.states[&first.source_after].clone();
    assert_eq!(
        lineage::append_cycle(&mut store.events, misnamed, Some(&previous), 5).unwrap_err(),
        AppendError::InvalidBenchmark
    );
    assert_eq!(
        AppendError::InvalidBenchmark.message("a b"),
        "benchmark \"a b\" is not a valid bperf identifier"
    );
    let (promotions, confirmations) =
        promotion::records_of_cycle(&store.events, &first.cycle_id);
    assert_eq!((promotions, confirmations), (vec![1], vec![]));
}

#[test]
fn identities_are_digests_of_framed_fields() {
    let file = SourceFile {
        path: "a.ts".to_owned(),
        sha256: format!("{:x}", Sha256::digest(b"1")),
        size_bytes: 1,
    };
    let mut expected = b"bperf-source-state-v1\0".to_vec();
    for field in [file.path.as_bytes(), file.sha256.as_bytes()] {
        expected.extend((field.len() as u64).to_le_bytes());
        expected.extend(field);
    }
    expected.extend(file.size_bytes.to_le_bytes());
    assert_eq!(
        source_state::source_state_id(&vec![file]),
        format!("state-{:x}", Sha256::digest(&expected))
    );
}

#[test]
fn snapshots_are_sorted_and_refused_for_their_first_fault() {
    let content = |path: &str| SourceContent { path: path.to_owned(), content: vec![1] };
    let state = source_state::snapshot_state(
        WORKSPACE,
        &vec![content("/workspace/b.ts"), content("/workspace/a.ts")],
    )
    .unwrap();
    let names: Vec<&str> = state.files.iter().map(|file| file.path.as_str()).collect();
    assert_eq!(names, ["a.ts", "b.ts"]);
    assert_eq!(
        source_state::snapshot_state(WORKSPACE, &vec![content("/elsewhere/a.ts")]).unwrap_err(),
        SourceError::Path(0, PathError::Outside)
    );
    assert_eq!(
        source_state::snapshot_state(
            WORKSPACE,
            &vec![content("/workspace/a.ts"), content("/workspace/a.ts")]
        )
        .unwrap_err(),
        SourceError::DuplicatePath(1)
    );
    assert_eq!(
        source_state::snapshot_state(WORKSPACE, &vec![]).unwrap_err(),
        SourceError::NoFiles
    );
    let mut later = state.clone();
    later.state_id = format!("state-{}", "0".repeat(64));
    assert_eq!(
        source_state::capture_state(state.clone(), &later).unwrap_err(),
        SourceError::ChangedDuringCapture
    );
    let id = state.state_id.clone();
    assert_eq!(
        source_state::load_state(state.clone(), "state-x").unwrap_err(),
        SourceError::InvalidId(IdPlace::Own)
    );
    let other = format!("state-{}", "0".repeat(64));
    assert_eq!(
        source_state::load_state(state.clone(), &other).unwrap_err(),
        SourceError::IncompatibleIdentity
    );
    assert!(source_state::load_state(state.clone(), &id).is_ok());
    let mut backward = state.clone();
    backward.files[0].path = "a\\b.ts".to_owned();
    backward.state_id = source_state::source_state_id(&backward.files);
    let backward_id = backward.state_id.clone();
    assert_eq!(
        source_state::load_state(backward.clone(), &backward_id).unwrap_err(),
        SourceError::InvalidPath(0)
    );
    assert_eq!(
        SourceError::InvalidPath(0).state_message(&backward, &backward_id),
        r#"invalid source path "a\\b.ts""#
    );
    let mut short = state;
    short.files[0].sha256 = "beef".to_owned();
    short.state_id = source_state::source_state_id(&short.files);
    let short_id = short.state_id.clone();
    assert_eq!(
        source_state::load_state(short.clone(), &short_id).unwrap_err(),
        SourceError::InvalidFileDigest(0)
    );
    assert_eq!(
        SourceError::InvalidFileDigest(0).state_message(&short, &short_id),
        r#"invalid source object digest "beef""#
    );
    assert_eq!(
        SourceError::IncompatibleIdentity.state_message(&short, "state-1"),
        "source state state-1 has incompatible identity"
    );
}

#[test]
fn stored_changes_are_refused_for_what_is_wrong_with_them() {
    let mut store = Store::new();
    let first = store.capture_state("/workspace/a.ts", "1");
    store.append_cycle(cycle(first, "measure-1"));
    let second = store.capture_state("/workspace/a.ts", "2");
    let id = store.append_cycle(cycle(second, "measure-2")).change_id;
    let refused = |spoil: &dyn Fn(&mut SourceChange)| {
        let mut change = store.changes[&id].clone();
        spoil(&mut change);
        let error = source_state::load_change(change.clone(), &id).unwrap_err();
        (error, error.change_message(&change, &id))
    };
    assert_eq!(
        refused(&|change| change.source_before = Some("x".to_owned())),
        (SourceError::InvalidId(IdPlace::Before), r#"invalid source state ID "x""#.to_owned())
    );
    assert_eq!(
        refused(&|change| change.source_after = "y".to_owned()),
        (SourceError::InvalidId(IdPlace::After), r#"invalid source state ID "y""#.to_owned())
    );
    assert_eq!(
        refused(&|change| change.files[0].after_sha256 = Some("beef".to_owned())),
        (
            SourceError::InvalidFileDigest(0),
            r#"invalid source object digest "beef""#.to_owned()
        )
    );
    assert_eq!(
        refused(&|change| change.schema_version = 9),
        (
            SourceError::IncompatibleIdentity,
            format!("source change {id} has incompatible identity")
        )
    );
    assert!(source_state::load_change(store.changes[&id].clone(), &id).is_ok());
}

#[test]
fn changes_name_what_was_added_modified_and_deleted() {
    let content = |path: &str, content: &str| SourceContent {
        path: path.to_owned(),
        content: content.as_bytes().to_vec(),
    };
    let before = source_state::snapshot_state(
        WORKSPACE,
        &vec![content("/workspace/a.ts", "1"), content("/workspace/b.ts", "1"), content("/workspace/d.ts", "1")],
    )
    .unwrap();
    let after = source_state::snapshot_state(
        WORKSPACE,
        &vec![content("/workspace/a.ts", "1"), content("/workspace/b.ts", "2"), content("/workspace/c.ts", "1")],
    )
    .unwrap();
    let change = source_state::store_change(Some(&before), &after);
    let kinds: Vec<(&str, ChangeKind)> =
        change.files.iter().map(|file| (file.path.as_str(), file.kind)).collect();
    assert_eq!(
        kinds,
        [
            ("b.ts", ChangeKind::Modified),
            ("c.ts", ChangeKind::Added),
            ("d.ts", ChangeKind::Deleted),
        ]
    );
    let id = change.change_id.clone();
    assert_eq!(id, source_state::change_id(Some(&before.state_id), &after.state_id));
    assert!(source_state::load_change(change, &id).is_ok());
}

#[test]
fn diffs_show_three_lines_around_a_change() {
    let before = "1\n2\n3\n4\n5\n6\n7\n8\n9\n";
    let after = "1\n2\n3\n4\nfive\n6\n7\n8\n9\n";
    assert_eq!(
        lineage_text::file_diff("a.ts", before.as_bytes(), after.as_bytes(), None, None),
        "--- a/a.ts\n+++ b/a.ts\n@@ -2,7 +2,7 @@\n 2\n 3\n 4\n-5\n+five\n 6\n 7\n 8\n"
    );
    assert_eq!(
        lineage_text::file_diff("a.ts", b"1\n", b"1", None, None),
        "--- a/a.ts\n+++ b/a.ts\n@@ content bytes changed without line changes @@\n"
    );
}

#[test]
fn cycles_and_histories_are_written_out() {
    let mut store = Store::new();
    let state = store.capture_state("/workspace/a.ts", "1\n");
    let first = store.append_cycle(cycle(state, "measure-1"));
    assert_eq!(
        lineage_text::render_cycle(&first),
        format!(
            "{}: {}\n  hypothesis: measure measure-1\n  source: (initial) -> {}\n  measurement set: measure-1\n  comparison: no promoted baseline\n",
            first.cycle_id, first.outcome, first.source_after
        )
    );
    assert_eq!(lineage_text::short_id("abc"), "abc");
    assert_eq!(lineage_text::short_id(&first.cycle_id), &first.cycle_id[..20]);
    let history = lineage_text::render_history("parser", &store.events);
    assert!(history.contains("parser") && history.contains(&first.cycle_id));
    let change = store.render_change(&first.change_id).unwrap();
    let context =
        lineage_text::render_agent_context("parser", &store.events, &vec![change.clone()]);
    assert!(context.contains("Hypothesis: measure measure-1"));
    assert!(context.contains(&format!(
        "Initial measured source checkpoint: `{}`",
        first.source_after
    )));
    let shown = reports::show_text(&first, true, &vec![], &vec![], &Some(change.clone()));
    assert_eq!(
        shown,
        format!(
            "{}  promotion readiness: ready\n{change}",
            lineage_text::render_cycle(&first)
        )
    );
}

#[test]
fn measurements_enter_a_history_only_when_they_fit() {
    let mut store = Store::new();
    let state = store.capture_state("/workspace/a.ts", "1\n");
    let initial = store.append_cycle(cycle(state.clone(), "measure-1"));
    assert_eq!(
        promotion::complete_environment(false, Some("e")).unwrap_err(),
        RecordError::Incomplete
    );
    assert_eq!(
        promotion::complete_environment(true, None).unwrap_err(),
        RecordError::NoEnvironment
    );
    assert_eq!(promotion::complete_environment(true, Some("e")), Ok("e"));
    let environment = Some("environment".to_owned());
    let compared = comparison("measure-1", "positive");
    assert!(promotion::validate_comparison("measure-1", &environment, &compared).is_ok());
    assert_eq!(
        promotion::validate_comparison("measure-2", &environment, &compared).unwrap_err(),
        RecordError::OtherCandidate
    );
    assert_eq!(
        promotion::validate_comparison("measure-1", &None, &compared).unwrap_err(),
        RecordError::OtherEnvironment
    );
    let mut partial = compared.clone();
    partial.engines[1] = partial.engines[0].clone();
    assert_eq!(
        promotion::validate_comparison("measure-1", &environment, &partial).unwrap_err(),
        RecordError::MissingEngine
    );
    assert_eq!(
        promotion::check_measured_source("a", "b").unwrap_err(),
        RecordError::SourceChanged
    );
    assert_eq!(
        promotion::check_confirmed_source(&initial, "other").unwrap_err(),
        RecordError::OtherSource
    );
    assert_eq!(
        promotion::confirmation_target(&initial).unwrap_err(),
        RecordError::NoBaseline
    );
    let mut measured = Store::new();
    let later = measured.append_cycle(compared_cycle(state, "measure-1"));
    let inputs = |variant: &str| MeasuredInputs {
        benchmark_sha256: "benchmark".to_owned(),
        variant_sha256: variant.to_owned(),
    };
    let confirmed = comparison("measure-2", "positive");
    assert!(promotion::validate_confirmation(&later, &inputs("v"), &inputs("v"), &confirmed).is_ok());
    assert_eq!(
        promotion::validate_confirmation(&later, &inputs("v"), &inputs("w"), &confirmed)
            .unwrap_err(),
        RecordError::OtherVariant
    );
    let mut elsewhere = confirmed;
    elsewhere.baseline_measurement_set = "other".to_owned();
    assert_eq!(
        promotion::validate_confirmation(&later, &inputs("v"), &inputs("v"), &elsewhere)
            .unwrap_err(),
        RecordError::OtherBaseline
    );
    let target = promotion::confirmation_target(&later).unwrap();
    assert_eq!(target.baseline_measurement_set, "baseline");
    assert!(managed_benchmark::check_confirmation_baseline(&target, "baseline").is_ok());
    assert_eq!(
        managed_benchmark::check_confirmation_baseline(&target, "other").unwrap_err(),
        ConfirmError::OtherBaseline
    );
    assert_eq!(
        RecordError::Incomplete.message("measure-1"),
        "measurement set measure-1 is incomplete and cannot enter optimization history"
    );
}

#[test]
fn cycles_are_found_in_one_history() {
    let mut store = Store::new();
    let state = store.capture_state("/workspace/a.ts", "1\n");
    let found = store.append_cycle(cycle(state, "measure-1"));
    let history = |benchmark: &str, events: &Vec<LineageEvent>| History {
        benchmark_id: benchmark.to_owned(),
        events: events.clone(),
    };
    let one = vec![history("other", &vec![]), history("parser", &store.events)];
    assert_eq!(promotion::find_cycle(&one, &found.cycle_id), Ok(1));
    assert_eq!(promotion::find_cycle(&one, "cycle-x"), Err(FindError::Unknown));
    let two = vec![history("a", &store.events), history("b", &store.events)];
    assert_eq!(promotion::find_cycle(&two, &found.cycle_id), Err(FindError::Ambiguous));
    assert_eq!(FindError::Unknown.message("x"), "no optimization cycle \"x\"");
}

#[test]
fn messages_are_trimmed_and_bounded() {
    assert_eq!(promotion::normalize_message(None), Ok(None));
    assert_eq!(promotion::normalize_message(Some("  ".to_owned())), Ok(None));
    assert_eq!(
        promotion::normalize_message(Some(" a ".to_owned())),
        Ok(Some("a".to_owned()))
    );
    let error = promotion::normalize_message(Some("é".repeat(2049))).unwrap_err();
    assert_eq!(error.message(), "optimization message exceeds 4096 bytes");
    assert!(promotion::normalize_message(Some("é".repeat(2048))).is_ok());
}

#[test]
fn confirmations_support_what_they_repeat() {
    assert!(promotion::confirmation_satisfies("positive", "positive"));
    assert!(!promotion::confirmation_satisfies("positive", "negative"));
}

#[test]
fn lineages_keep_their_records_apart() {
    let store = LineageStore { root: "/l".to_owned() };
    assert_eq!(store.directories(), ["/l/objects", "/l/states", "/l/changes"]);
    assert_eq!(store.history_path("parser"), "/l/parser.jsonl");
    assert_eq!(store.object_path("d"), "/l/objects/d");
    assert_eq!(store.state_path("s"), "/l/states/s.json");
    assert_eq!(store.change_path("c"), "/l/changes/c.json");
}

// Managed benchmarks.

#[test]
fn paths_crossing_into_node_do_not_use_windows_verbatim_syntax() {
    assert_eq!(
        sidecar_runtime::node_path(r"\\?\C:\workspace\benchmark.ts", HostPlatform::Windows),
        r"C:\workspace\benchmark.ts"
    );
    assert_eq!(
        sidecar_runtime::node_path(
            r"\\?\UNC\server\share\benchmark.ts",
            HostPlatform::Windows
        ),
        r"\\server\share\benchmark.ts"
    );
    assert_eq!(
        sidecar_runtime::node_path(r"\\?\C:\a", HostPlatform::Other),
        r"\\?\C:\a"
    );
    assert_eq!(sidecar_runtime::node_path("/C:/a", HostPlatform::Windows), "C:/a");
    assert_eq!(sidecar_runtime::node_path("/C:/a", HostPlatform::Other), "/C:/a");
}

fn index_options(recorded_at_unix_ms: u64, exit_code: u8, record_id: &str) -> MeasurementIndexOptions {
    MeasurementIndexOptions {
        measurement_root: "/measurements/measure-v4-test".to_owned(),
        benchmark_id: "parser".to_owned(),
        measurement_set_id: "measure-v4-test".to_owned(),
        recorded_at_unix_ms,
        exit_code,
        outcome: if exit_code == 0 { "positive" } else { "negative" }.to_owned(),
        event: "cycle".to_owned(),
        record_id: record_id.to_owned(),
        comparison_path: Some("comparisons/x/comparison.json".to_owned()),
    }
}

#[test]
fn measurement_index_names_sort_by_creation_and_expose_exit_codes() {
    let (later, receipt) =
        managed_benchmark::record_measurement_index(index_options(10, 1, "cycle-later"), true)
            .unwrap();
    let (earlier, _) =
        managed_benchmark::record_measurement_index(index_options(9, 0, "cycle-earlier"), true)
            .unwrap();
    let (retried, _) =
        managed_benchmark::record_measurement_index(index_options(9, 0, "cycle-earlier"), true)
            .unwrap();
    assert_eq!(retried, earlier, "an exact retry must reuse its index receipt");
    let mut names = vec![
        later.rsplit('/').next().unwrap().to_owned(),
        earlier.rsplit('/').next().unwrap().to_owned(),
    ];
    names.sort();
    assert_eq!(
        names,
        [
            "0000000000009-exit-0-cycle-earlier.json",
            "0000000000010-exit-1-cycle-later.json",
        ]
    );
    assert_eq!(receipt.recorded_at_unix_ms, 10);
    assert_eq!(receipt.exit_code, 1);
    assert_eq!(receipt.outcome, "negative");
    assert_eq!(receipt.measurement_set_id, "measure-v4-test");
    assert!(receipt.measurement_summary.ends_with("summary.json"));
    assert!(receipt.comparison_path.unwrap().ends_with("comparison.json"));
}

#[test]
fn receipts_are_refused_for_their_first_fault() {
    let refused = |options, exists| {
        managed_benchmark::record_measurement_index(options, exists).unwrap_err()
    };
    assert_eq!(refused(index_options(0, 0, "a"), true), IndexError::NoTimestamp);
    assert_eq!(refused(index_options(1, 3, "a"), true), IndexError::UnsupportedExitCode(3));
    assert_eq!(refused(index_options(1, 0, "a"), false), IndexError::NoSummary);
    let mut rootless = index_options(1, 0, "a");
    rootless.measurement_root = "/".to_owned();
    assert_eq!(refused(rootless, true), IndexError::NoArtifactRoot);
    assert_eq!(
        IndexError::UnsupportedExitCode(3).message(""),
        "measurement index has unsupported exit code 3"
    );
}

#[test]
fn exit_codes_report_the_verdict() {
    assert_eq!(managed_benchmark::exit_code(&None), Some(0));
    for (verdict, code) in [
        ("positive", Some(0)),
        ("equivalent", Some(0)),
        ("negative", Some(1)),
        ("inconclusive", Some(2)),
        ("measured", None),
    ] {
        let compared = Some(comparison("measure-2", verdict));
        assert_eq!(managed_benchmark::exit_code(&compared), code, "{verdict}");
    }
}

fn description() -> ManagedDescription {
    ManagedDescription {
        schema_version: 1,
        benchmark_id: "parser".to_owned(),
        cases: vec![ManagedCase {
            id: "small".to_owned(),
            expected: JsonValue::Number(JsonNumber::Unsigned(42)),
        }],
        source_files: vec!["/workspace/src/parser.ts".to_owned()],
        fixture_files: vec!["/workspace/fixture.txt".to_owned()],
        fixture_lock: "/workspace/lock.json".to_owned(),
    }
}

#[test]
fn descriptions_are_refused_for_their_first_fault() {
    let present = vec![true, true];
    assert!(managed_benchmark::validate_description(&description(), true, &present).is_ok());
    let mut other = description();
    other.schema_version = 2;
    let error = managed_benchmark::validate_description(&other, true, &present).unwrap_err();
    assert_eq!(error, DescriptionError::Schema(2));
    assert_eq!(
        error.message(""),
        "unsupported managed benchmark schema 2; expected 1"
    );
    let mut empty = description();
    empty.cases.clear();
    assert_eq!(
        managed_benchmark::validate_description(&empty, true, &present).unwrap_err(),
        DescriptionError::NoCases
    );
    let mut sourceless = description();
    sourceless.source_files.clear();
    assert_eq!(
        managed_benchmark::validate_description(&sourceless, true, &vec![true]).unwrap_err(),
        DescriptionError::NoSourceFiles
    );
    assert_eq!(
        managed_benchmark::validate_description(&description(), false, &present).unwrap_err(),
        DescriptionError::NoFixtureLock
    );
    assert_eq!(
        managed_benchmark::validate_description(&description(), true, &vec![true, false])
            .unwrap_err(),
        DescriptionError::MissingFile(1)
    );
}

#[test]
fn generated_definitions_are_valid() {
    let places = ManagedPlaces {
        root: "/workspace".to_owned(),
        benchmark_module: "/workspace/benchmarks/parser.bench.ts".to_owned(),
        generated_root: "/workspace/.bperf/managed/key".to_owned(),
        node: "/usr/bin/node".to_owned(),
        sidecar: SidecarInstallation { root: "/sidecar".to_owned() },
        sidecar_files: vec!["/sidecar/src/benchmark-host.ts".to_owned()],
        platform: HostPlatform::Other,
    };
    let inputs = managed_benchmark::write_inputs(
        &places,
        description(),
        managed_benchmark::standard_trial_policy(),
    );
    assert!(inputs.benchmark.validate().is_ok());
    assert!(inputs.variant.validate().is_ok());
    assert!(inputs.benchmark.validate_variant(&inputs.variant).is_ok());
    assert_eq!(inputs.traces.len(), 1);
    assert!(bperf::json::equal(
        inputs.traces[0].record.get("expected").unwrap(),
        &JsonValue::Number(JsonNumber::Unsigned(42))
    ));
    assert_eq!(inputs.source_files, ["/workspace/src/parser.ts"]);
}

#[test]
fn benchmarks_lie_in_their_workspace() {
    assert!(managed_benchmark::require_in_workspace("/w", "/w/a.bench.ts").is_ok());
    let error = managed_benchmark::require_in_workspace("/w", "/wide/a.bench.ts").unwrap_err();
    assert_eq!(
        error.message("/wide/a.bench.ts", "/w"),
        "benchmark /wide/a.bench.ts is outside the current workspace /w"
    );
    let key = managed_benchmark::benchmark_key("/w/a.bench.ts");
    assert_eq!(
        key,
        format!(
            "{:x}",
            Sha256::digest(b"bperf-managed-benchmark-path-v1\0/w/a.bench.ts")
        )[..16]
    );
    assert!(!key.is_empty());
    assert_ne!(key, managed_benchmark::benchmark_key("/w/b.bench.ts"));
    assert_eq!(
        managed_benchmark::node_executable(None, Some("/n".to_owned())),
        "/n"
    );
    assert_eq!(
        managed_benchmark::node_executable(Some("/m".to_owned()), Some("/n".to_owned())),
        "/m"
    );
    assert_eq!(managed_benchmark::node_executable(None, None), "node");
}

// Sidecars.

#[test]
fn installed_sidecar_takes_precedence_over_the_development_checkout() {
    let places = sidecar_runtime::search_places(Some("/installed/bperf"), "1", "/development");
    assert_eq!(places[0], "/installed/sidecar");
    assert_eq!(places.last().unwrap(), "/development");
    let exists: Vec<bool> =
        places.iter().map(|place| place == "/installed/sidecar" || place == "/development").collect();
    let SidecarSource::Place(index) = sidecar_runtime::discover_from(false, &exists) else {
        panic!("no sidecar was found");
    };
    let present = vec![true; sidecar_runtime::installation_files(&places[index]).len()];
    let runtime = sidecar_runtime::validate(places[index].clone(), &present).unwrap();
    assert_eq!(runtime.capture_entrypoint(), "/installed/sidecar/src/bperf-sidecar.ts");
    assert_eq!(runtime.benchmark_host(), "/installed/sidecar/src/benchmark-host.ts");
}

#[test]
fn configured_sidecar_fails_instead_of_falling_back() {
    let source = sidecar_runtime::discover_from(true, &vec![true]);
    assert_eq!(source, SidecarSource::Configured);
    assert_eq!(
        sidecar_runtime::validate("/missing".to_owned(), &vec![false; 6]).unwrap_err(),
        0
    );
    assert!(sidecar_runtime::discovery_failure(source)
        .contains("BPERF_SIDECAR_DIR does not name a usable sidecar installation"));
    assert_eq!(sidecar_runtime::sidecar_directory_env(), "BPERF_SIDECAR_DIR");
    assert_eq!(
        sidecar_runtime::discover_from(false, &vec![false]),
        SidecarSource::Missing
    );
}

fn choice(cycle_id: &str, recorded_at_unix_ms: u64) -> CycleChoice {
    CycleChoice { cycle_id: cycle_id.to_string(), recorded_at_unix_ms }
}

fn selected(choices: &Vec<CycleChoice>, requested: &str) -> Option<usize> {
    promotion::select_cycle(choices, requested).ok()
}

#[test]
fn a_cycle_is_selected_by_its_beginning_or_as_the_latest() {
    let choices = vec![
        choice("cycle-aa11", 10),
        choice("cycle-ab22", 30),
        choice("cycle-b333", 30),
        choice("cycle-b", 20),
    ];
    assert_eq!(selected(&choices, "latest"), Some(2));
    assert_eq!(selected(&choices, "cycle-ab22"), Some(1));
    assert_eq!(selected(&choices, "cycle-aa"), Some(0));
    assert_eq!(selected(&choices, "cycle-b3"), Some(2));
    assert!(matches!(
        promotion::select_cycle(&choices, "cycle-a"),
        Err(FindError::Ambiguous)
    ));
    assert!(matches!(promotion::select_cycle(&choices, "other"), Err(FindError::Unknown)));
    assert!(matches!(promotion::select_cycle(&vec![], "latest"), Err(FindError::Unknown)));
}

#[test]
fn a_state_is_told_apart_by_every_file_and_does_not_differ_from_itself() {
    let file = |path: &str, digit: &str, size_bytes: u64| SourceFile {
        path: path.to_string(),
        sha256: digit.repeat(64),
        size_bytes,
    };
    let files = vec![file("a.ts", "1", 4), file("b.ts", "2", 5)];
    let id = source_state::source_state_id(&files);
    for other in [
        vec![file("a.ts", "1", 4)],
        vec![file("a.ts", "1", 4), file("b.ts", "2", 6)],
        vec![file("a.ts", "1", 4), file("b.ts", "3", 5)],
        vec![file("a.ts", "1", 4), file("c.ts", "2", 5)],
        vec![file("b.ts", "2", 5), file("a.ts", "1", 4)],
    ] {
        assert_ne!(source_state::source_state_id(&other), id);
    }
    let state = SourceState { schema_version: 1, state_id: id, files };
    assert!(source_state::store_change(Some(&state), &state).files.is_empty());
}
