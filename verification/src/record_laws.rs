//! What holds of every record of a history and of every checkpoint of a source.

use vstd::prelude::*;
use vstd::string::*;
use vstd::utf8::*;

use crate::comparison::ComparisonSummary;
use crate::digest;
use crate::lineage;
use crate::lineage::{
    BaselineRecord, ConfirmationRecord, CycleRecord, LineageEvent, NewCycle, PromotionRecord,
};
use crate::paths;
use crate::source_state;
use crate::source_state::{ChangeKind, FileChange, SourceChange, SourceFile, SourceState};
use crate::text;

verus! {

// Cycles.

/// The event is the cycle with the identity.
pub open spec fn is_cycle(event: LineageEvent, id: Seq<char>) -> bool {
    event matches LineageEvent::Cycle(cycle) && cycle.cycle_id@ == id
}

/// The cycle that is found by an identity is the first that has it.
pub proof fn a_cycle_is_found_by_its_identity(events: Seq<LineageEvent>, id: Seq<char>)
    ensures
        match lineage::cycle_with(events, id) {
            Some(found) => exists|i: int|
                0 <= i < events.len() && is_cycle(#[trigger] events[i], id) && *events[i]->Cycle_0
                    == found && forall|j: int| 0 <= j < i ==> !is_cycle(#[trigger] events[j], id),
            None => forall|i: int| 0 <= i < events.len() ==> !is_cycle(#[trigger] events[i], id),
        },
    decreases events.len(),
{
    if events.len() > 0 {
        let rest = events.drop_last();
        a_cycle_is_found_by_its_identity(rest, id);
        match lineage::cycle_with(rest, id) {
            Some(found) => {
                let i = choose|i: int|
                    0 <= i < rest.len() && is_cycle(#[trigger] rest[i], id) && *rest[i]->Cycle_0
                        == found && forall|j: int| 0 <= j < i ==> !is_cycle(#[trigger] rest[j], id);
                assert(is_cycle(events[i], id) && *events[i]->Cycle_0 == found);
                assert forall|j: int| 0 <= j < i implies !is_cycle(#[trigger] events[j], id) by {
                    assert(rest[j] == events[j]);
                }
            },
            None => {
                let last = events.len() - 1;
                assert forall|j: int| 0 <= j < last implies !is_cycle(#[trigger] events[j], id) by {
                    assert(rest[j] == events[j]);
                }
                if is_cycle(events[last], id) {
                    assert(*events[last]->Cycle_0 == lineage::cycle_with(events, id)->0);
                }
            },
        }
    }
}

/// The last cycle of a history is the one with no cycle behind it.
pub proof fn the_last_cycle_has_none_behind_it(events: Seq<LineageEvent>)
    ensures
        match lineage::last_cycle(events) {
            Some(found) => exists|i: int|
                0 <= i < events.len() && #[trigger] events[i] == LineageEvent::Cycle(
                    Box::new(found),
                ) && forall|j: int| i < j < events.len() ==> !((#[trigger] events[j]) is Cycle),
            None => forall|i: int| 0 <= i < events.len() ==> !((#[trigger] events[i]) is Cycle),
        },
    decreases events.len(),
{
    if events.len() > 0 {
        let last = events.len() - 1;
        if events[last] is Cycle {
            assert(events[last] == LineageEvent::Cycle(
                Box::new(lineage::last_cycle(events)->0),
            ));
        } else {
            let rest = events.drop_last();
            the_last_cycle_has_none_behind_it(rest);
            match lineage::last_cycle(rest) {
                Some(found) => {
                    let i = choose|i: int|
                        0 <= i < rest.len() && #[trigger] rest[i] == LineageEvent::Cycle(
                            Box::new(found),
                        ) && forall|j: int|
                            i < j < rest.len() ==> !((#[trigger] rest[j]) is Cycle);
                    assert(events[i] == LineageEvent::Cycle(Box::new(found)));
                    assert forall|j: int| i < j < events.len() implies !((
                    #[trigger] events[j]) is Cycle) by {
                        if j < last {
                            assert(rest[j] == events[j]);
                        }
                    }
                },
                None => {
                    assert forall|j: int| 0 <= j < events.len() implies !((
                    #[trigger] events[j]) is Cycle) by {
                        if j < last {
                            assert(rest[j] == events[j]);
                        }
                    }
                },
            }
        }
    }
}

/// A cycle is accepted exactly if it is of the known version and of the benchmark, its identities are
/// well formed, it names the cycle before it and starts from the source that that one left, and no
/// earlier cycle has its identity.
pub proof fn only_a_cycle_that_continues_the_chain_is_accepted(
    earlier: Seq<LineageEvent>,
    cycle: CycleRecord,
    benchmark: Seq<char>,
)
    ensures
        lineage::cycle_refusal(earlier, cycle, benchmark) is None <==> {
            let last = lineage::last_cycle(earlier);
            &&& cycle.schema_version == 1
            &&& cycle.benchmark_id@ == benchmark
            &&& digest::is_hash_id(cycle.cycle_id@, "cycle-"@)
            &&& digest::is_hash_id(cycle.source_after@, "state-"@)
            &&& digest::is_hash_id(cycle.change_id@, "change-"@)
            &&& match last {
                Some(last) => {
                    &&& cycle.previous_cycle_id matches Some(previous)
                    &&& previous@ == last.cycle_id@
                    &&& digest::is_hash_id(previous@, "cycle-"@)
                    &&& cycle.source_before matches Some(before)
                    &&& before@ == last.source_after@
                    &&& digest::is_hash_id(before@, "state-"@)
                },
                None => cycle.previous_cycle_id is None && cycle.source_before is None,
            }
            &&& forall|i: int|
                0 <= i < earlier.len() ==> !is_cycle(#[trigger] earlier[i], cycle.cycle_id@)
        },
{
    a_cycle_is_found_by_its_identity(earlier, cycle.cycle_id@);
}

/// A confirmation is accepted exactly if it is of the known version and of the benchmark, its
/// identities are well formed, its cycle stands before it, it measured the source of that cycle anew
/// and was compared with the baseline of that cycle, it says what its comparison says, and it has the
/// identity that belongs to it, which no earlier confirmation has.
pub proof fn only_a_confirmation_of_its_cycle_is_accepted(
    earlier: Seq<LineageEvent>,
    confirmation: ConfirmationRecord,
    benchmark: Seq<char>,
)
    ensures
        lineage::confirmation_refusal(earlier, confirmation, benchmark) is None <==> {
            let cycle = lineage::cycle_with(earlier, confirmation.cycle_id@);
            &&& confirmation.schema_version == 1
            &&& confirmation.benchmark_id@ == benchmark
            &&& digest::is_hash_id(confirmation.confirmation_id@, "confirmation-"@)
            &&& digest::is_hash_id(confirmation.cycle_id@, "cycle-"@)
            &&& digest::is_hash_id(confirmation.source_state@, "state-"@)
            &&& cycle is Some
            &&& confirmation.source_state@ == cycle->0.source_after@
            &&& confirmation.original_candidate_measurement_set@
                == cycle->0.candidate_measurement_set@
            &&& cycle->0.baseline_measurement_set matches Some(baseline)
                ==> confirmation.comparison.baseline_measurement_set@ == baseline@
            &&& cycle->0.baseline_measurement_set is None
                ==> confirmation.comparison.baseline_measurement_set@.len() == 0
            &&& confirmation.comparison.candidate_measurement_set@
                == confirmation.confirmation_measurement_set@
            &&& confirmation.comparison.verdict@ == confirmation.outcome@
            &&& confirmation.comparison.environment_fingerprint matches Some(environment)
            &&& environment@ == confirmation.environment_fingerprint@
            &&& confirmation.confirmation_id@ == lineage::confirmation_identity(
                confirmation.cycle_id@,
                confirmation.confirmation_measurement_set@,
                confirmation.comparison.comparison_id@,
            )
            &&& forall|i: int|
                0 <= i < earlier.len() && (#[trigger] earlier[i]) is Confirmation
                    ==> earlier[i]->Confirmation_0.confirmation_id@ != confirmation.confirmation_id@
        },
{
    let cycle = lineage::cycle_with(earlier, confirmation.cycle_id@);
    if cycle is Some && cycle->0.baseline_measurement_set is None {
        let baseline = confirmation.comparison.baseline_measurement_set@;
        if baseline.len() == 0 {
            assert(baseline =~= Seq::<char>::empty());
        }
    }
}

/// A promotion is accepted exactly if it is of the known version and of the benchmark, its identities
/// are well formed, its cycle stands before it, and it promotes the measurement of that cycle.
pub proof fn only_a_promotion_of_its_cycle_is_accepted(
    earlier: Seq<LineageEvent>,
    promotion: PromotionRecord,
    benchmark: Seq<char>,
)
    ensures
        lineage::promotion_refusal(earlier, promotion, benchmark) is None <==> {
            let cycle = lineage::cycle_with(earlier, promotion.cycle_id@);
            &&& promotion.schema_version == 1
            &&& promotion.benchmark_id@ == benchmark
            &&& digest::is_hash_id(promotion.promotion_id@, "promotion-"@)
            &&& digest::is_hash_id(promotion.cycle_id@, "cycle-"@)
            &&& cycle is Some
            &&& cycle->0.candidate_measurement_set@ == promotion.baseline_measurement_set@
        },
{
}

/// A cycle is recorded with what was measured, the cycle before it, the source that it started from
/// and the one it left, and the verdict of its comparison, or that it was only measured where there is
/// none.
pub proof fn a_cycle_records_what_was_measured(
    record: CycleRecord,
    earlier: Seq<LineageEvent>,
    cycle: NewCycle,
    change: SourceChange,
    recorded_at_unix_ms: u64,
)
    requires
        lineage::records_cycle(record, earlier, cycle, change, recorded_at_unix_ms),
    ensures
        record.schema_version == 1,
        record.recorded_at_unix_ms == recorded_at_unix_ms,
        record.benchmark_id@ == cycle.benchmark_id@,
        record.subject_id@ == cycle.subject_id@,
        record.benchmark_sha256@ == cycle.benchmark_sha256@,
        text::opt(record.message) == text::opt(cycle.message),
        record.source_after@ == cycle.source_after.state_id@,
        record.change_id@ == change.change_id@,
        record.candidate_measurement_set@ == cycle.candidate_measurement_set@,
        record.candidate_measurement_path@ == cycle.candidate_measurement_path@,
        record.environment_fingerprint@ == cycle.environment_fingerprint@,
        match lineage::last_cycle(earlier) {
            Some(last) => text::opt(record.previous_cycle_id) == Some(last.cycle_id@) && text::opt(
                record.source_before,
            ) == Some(last.source_after@),
            None => record.previous_cycle_id is None && record.source_before is None,
        },
        match cycle.comparison {
            Some(comparison) => record.outcome@ == comparison.verdict@ && text::opt(
                record.baseline_measurement_set,
            ) == Some(comparison.baseline_measurement_set@),
            None => record.outcome@ == "measured"@ && record.baseline_measurement_set is None,
        },
{
}

/// A cycle repeats the last one exactly if it has its source, its measurement, and its comparison.
pub proof fn only_the_same_measurement_repeats_a_cycle(
    events: Seq<LineageEvent>,
    last: CycleRecord,
    cycle: NewCycle,
)
    requires
        lineage::last_cycle(events) == Some(last),
    ensures
        lineage::repeats_last(events, cycle) <==> {
            &&& last.source_after@ == cycle.source_after.state_id@
            &&& last.candidate_measurement_set@ == cycle.candidate_measurement_set@
            &&& match (last.comparison, cycle.comparison) {
                (Some(a), Some(b)) => a.comparison_id@ == b.comparison_id@,
                (None, None) => true,
                _ => false,
            }
        },
{
}

/// A confirmation is recorded with the source and the measurement of its cycle, what was measured
/// anew, and the verdict of the new comparison.
pub proof fn a_confirmation_records_what_was_measured(
    record: ConfirmationRecord,
    cycle: CycleRecord,
    measurement_set: Seq<char>,
    measurement_path: Seq<char>,
    environment: Seq<char>,
    comparison: ComparisonSummary,
    recorded_at_unix_ms: u64,
)
    requires
        lineage::records_confirmation(
            record,
            cycle,
            measurement_set,
            measurement_path,
            environment,
            comparison,
            recorded_at_unix_ms,
        ),
    ensures
        record.schema_version == 1,
        record.recorded_at_unix_ms == recorded_at_unix_ms,
        record.benchmark_id@ == cycle.benchmark_id@,
        record.cycle_id@ == cycle.cycle_id@,
        record.source_state@ == cycle.source_after@,
        record.original_candidate_measurement_set@ == cycle.candidate_measurement_set@,
        record.confirmation_measurement_set@ == measurement_set,
        record.confirmation_measurement_path@ == measurement_path,
        record.environment_fingerprint@ == environment,
        record.outcome@ == comparison.verdict@,
        record.comparison == comparison,
{
}

/// A promotion is recorded with its cycle, the measurement that becomes the baseline, and the one that
/// was it before.
pub proof fn a_promotion_records_both_baselines(
    record: PromotionRecord,
    cycle: CycleRecord,
    baseline: BaselineRecord,
    recorded_at_unix_ms: u64,
)
    requires
        lineage::records_promotion(record, cycle, baseline, recorded_at_unix_ms),
    ensures
        record.schema_version == 1,
        record.recorded_at_unix_ms == recorded_at_unix_ms,
        record.benchmark_id@ == cycle.benchmark_id@,
        record.cycle_id@ == cycle.cycle_id@,
        record.baseline_measurement_set@ == baseline.measurement_set_id@,
        text::opt(record.previous_baseline_measurement_set) == text::opt(
            baseline.previous_measurement_set_id,
        ),
{
}

// Identities.

proof fn lemma_three_fields(
    name: Seq<char>,
    a1: Seq<char>,
    a2: Seq<char>,
    a3: Seq<char>,
    b1: Seq<char>,
    b2: Seq<char>,
    b3: Seq<char>,
)
    requires
        encode_utf8(name) + digest::framed_text(a1) + digest::framed_text(a2)
            + digest::framed_text(a3) == encode_utf8(name) + digest::framed_text(b1)
            + digest::framed_text(b2) + digest::framed_text(b3),
        encode_utf8(a1).len() <= u64::MAX,
        encode_utf8(a2).len() <= u64::MAX,
        encode_utf8(a3).len() <= u64::MAX,
        encode_utf8(b1).len() <= u64::MAX,
        encode_utf8(b2).len() <= u64::MAX,
        encode_utf8(b3).len() <= u64::MAX,
    ensures
        a1 == b1,
        a2 == b2,
        a3 == b3,
{
    let n = encode_utf8(name).len() as int;
    let empty = Seq::<u8>::empty();
    let rest_a2 = digest::framed_text(a3) + empty;
    let rest_b2 = digest::framed_text(b3) + empty;
    let rest_a1 = digest::framed_text(a2) + rest_a2;
    let rest_b1 = digest::framed_text(b2) + rest_b2;
    let x = encode_utf8(name) + digest::framed_text(a1) + digest::framed_text(a2)
        + digest::framed_text(a3);
    let y = encode_utf8(name) + digest::framed_text(b1) + digest::framed_text(b2)
        + digest::framed_text(b3);
    assert(x.skip(n) == digest::framed_text(a1) + rest_a1);
    assert(y.skip(n) == digest::framed_text(b1) + rest_b1);
    digest::lemma_framed_unique(encode_utf8(a1), rest_a1, encode_utf8(b1), rest_b1);
    digest::lemma_framed_unique(encode_utf8(a2), rest_a2, encode_utf8(b2), rest_b2);
    digest::lemma_framed_unique(encode_utf8(a3), empty, encode_utf8(b3), empty);
    digest::lemma_utf8_unique(a1, b1);
    digest::lemma_utf8_unique(a2, b2);
    digest::lemma_utf8_unique(a3, b3);
}

/// What a confirmation's identity is computed from determines its cycle, its measurement, and its
/// comparison.
pub proof fn confirmation_preimage_is_unambiguous(
    cycle_a: Seq<char>,
    measurement_a: Seq<char>,
    comparison_a: Seq<char>,
    cycle_b: Seq<char>,
    measurement_b: Seq<char>,
    comparison_b: Seq<char>,
)
    requires
        lineage::confirmation_preimage(cycle_a, measurement_a, comparison_a)
            == lineage::confirmation_preimage(cycle_b, measurement_b, comparison_b),
        encode_utf8(cycle_a).len() <= u64::MAX,
        encode_utf8(measurement_a).len() <= u64::MAX,
        encode_utf8(comparison_a).len() <= u64::MAX,
        encode_utf8(cycle_b).len() <= u64::MAX,
        encode_utf8(measurement_b).len() <= u64::MAX,
        encode_utf8(comparison_b).len() <= u64::MAX,
    ensures
        cycle_a == cycle_b,
        measurement_a == measurement_b,
        comparison_a == comparison_b,
{
    lemma_three_fields(
        "bperf-confirmation-v1\0"@,
        cycle_a,
        measurement_a,
        comparison_a,
        cycle_b,
        measurement_b,
        comparison_b,
    );
}

/// What a promotion's identity is computed from determines its cycle, its measurement, and the
/// baseline before it; an absent one counts as an empty one.
pub proof fn promotion_preimage_is_unambiguous(
    cycle_a: Seq<char>,
    measurement_a: Seq<char>,
    previous_a: Option<Seq<char>>,
    cycle_b: Seq<char>,
    measurement_b: Seq<char>,
    previous_b: Option<Seq<char>>,
)
    requires
        lineage::promotion_preimage(cycle_a, measurement_a, previous_a)
            == lineage::promotion_preimage(cycle_b, measurement_b, previous_b),
        encode_utf8(cycle_a).len() <= u64::MAX,
        encode_utf8(measurement_a).len() <= u64::MAX,
        encode_utf8(source_state::or_empty(previous_a)).len() <= u64::MAX,
        encode_utf8(cycle_b).len() <= u64::MAX,
        encode_utf8(measurement_b).len() <= u64::MAX,
        encode_utf8(source_state::or_empty(previous_b)).len() <= u64::MAX,
    ensures
        cycle_a == cycle_b,
        measurement_a == measurement_b,
        source_state::or_empty(previous_a) == source_state::or_empty(previous_b),
{
    lemma_three_fields(
        "bperf-promotion-v1\0"@,
        cycle_a,
        measurement_a,
        source_state::or_empty(previous_a),
        cycle_b,
        measurement_b,
        source_state::or_empty(previous_b),
    );
}

// Lines.

/// The lines of a history are its lines that are not blank, in order, each with its number counted
/// from one.
pub proof fn a_history_has_the_lines_that_are_not_blank(lines: Seq<Seq<char>>)
    ensures
        forall|n: nat, line: Seq<char>| #[trigger]
            lineage::numbered_lines(lines).contains((n, line)) <==> {
                &&& 1 <= n <= lines.len()
                &&& line == lines[n - 1]
                &&& exists|k: int| 0 <= k < line.len() && !text::is_white(#[trigger] line[k])
            },
        forall|i: int, j: int|
            0 <= i < j < lineage::numbered_lines(lines).len() ==> (#[trigger] lineage::numbered_lines(
                lines,
            )[i]).0 < (#[trigger] lineage::numbered_lines(lines)[j]).0,
    decreases lines.len(),
{
    if lines.len() > 0 {
        let rest = lines.drop_last();
        a_history_has_the_lines_that_are_not_blank(rest);
        let before = lineage::numbered_lines(rest);
        let all = lineage::numbered_lines(lines);
        let last = lines.last();
        assert(text::blank(last) <==> !exists|k: int|
            0 <= k < last.len() && !text::is_white(#[trigger] last[k]));
        assert forall|i: int| 0 <= i < before.len() implies (#[trigger] before[i]).0 < lines.len() by {
            assert(before.contains((before[i].0, before[i].1)));
        }
        assert forall|n: nat, line: Seq<char>| #[trigger] all.contains((n, line)) <==> {
            &&& 1 <= n <= lines.len()
            &&& line == lines[n - 1]
            &&& exists|k: int| 0 <= k < line.len() && !text::is_white(#[trigger] line[k])
        } by {
            if !text::blank(last) {
                let new = (lines.len(), last);
                assert(all == before.push(new));
                assert(all.contains((n, line)) <==> before.contains((n, line)) || (n, line) == new)
                    by {
                    if all.contains((n, line)) {
                        let i = choose|i: int| 0 <= i < all.len() && all[i] == (n, line);
                        if i < before.len() {
                            assert(before[i] == (n, line));
                        }
                    }
                    if before.contains((n, line)) {
                        let i = choose|i: int| 0 <= i < before.len() && before[i] == (n, line);
                        assert(all[i] == (n, line));
                    }
                    assert(all[before.len() as int] == new);
                }
            }
            if n < lines.len() && n >= 1 {
                assert(rest[n - 1] == lines[n - 1]);
            }
        }
    }
}

// Checkpoints.

/// What a checkpoint records of a path is the digest of the last file with that path.
pub proof fn a_checkpoint_records_the_digest_of_a_path(files: Seq<SourceFile>, path: Seq<char>)
    ensures
        match source_state::recorded(files, path) {
            Some(found) => exists|i: int|
                0 <= i < files.len() && (#[trigger] files[i]).path@ == path && files[i].sha256@
                    == found && forall|j: int|
                    i < j < files.len() ==> (#[trigger] files[j]).path@ != path,
            None => forall|i: int| 0 <= i < files.len() ==> (#[trigger] files[i]).path@ != path,
        },
    decreases files.len(),
{
    if files.len() > 0 {
        let last = files.len() - 1;
        if files[last].path@ == path {
            assert(files[last].sha256@ == source_state::recorded(files, path)->0);
        } else {
            let rest = files.drop_last();
            a_checkpoint_records_the_digest_of_a_path(rest, path);
            match source_state::recorded(rest, path) {
                Some(found) => {
                    let i = choose|i: int|
                        0 <= i < rest.len() && (#[trigger] rest[i]).path@ == path && rest[i].sha256@
                            == found && forall|j: int|
                            i < j < rest.len() ==> (#[trigger] rest[j]).path@ != path;
                    assert(files[i].path@ == path);
                    assert forall|j: int| i < j < files.len() implies (#[trigger] files[j]).path@
                        != path by {
                        if j < last {
                            assert(rest[j] == files[j]);
                        }
                    }
                },
                None => {
                    assert forall|j: int| 0 <= j < files.len() implies (#[trigger] files[j]).path@
                        != path by {
                        if j < last {
                            assert(rest[j] == files[j]);
                        }
                    }
                },
            }
        }
    }
}

/// The files have one with the path.
pub open spec fn has_path(files: Seq<SourceFile>, path: Seq<char>) -> bool {
    exists|i: int| 0 <= i < files.len() && (#[trigger] files[i]).path@ == path
}

/// A change lists a file as added exactly if only the new checkpoint has it, as deleted exactly if
/// only the old one has it, and as modified where both have it with other digests; and it lists no
/// file that did not change.
pub proof fn a_change_tells_what_became_of_a_file(
    changes: Seq<FileChange>,
    before: Seq<SourceFile>,
    after: Seq<SourceFile>,
    i: int,
)
    requires
        source_state::difference(changes, before, after),
        0 <= i < changes.len(),
    ensures
        ({
            let path = changes[i].path@;
            &&& changes[i].kind == ChangeKind::Added <==> !has_path(before, path) && has_path(
                after,
                path,
            )
            &&& changes[i].kind == ChangeKind::Deleted <==> has_path(before, path) && !has_path(
                after,
                path,
            )
            &&& changes[i].kind == ChangeKind::Modified <==> has_path(before, path) && has_path(
                after,
                path,
            )
            &&& changes[i].before_sha256 is Some <==> has_path(before, path)
            &&& changes[i].after_sha256 is Some <==> has_path(after, path)
            &&& text::opt(changes[i].before_sha256) != text::opt(changes[i].after_sha256)
        }),
{
    let path = changes[i].path@;
    assert(source_state::tells(changes[i], before, after));
    a_checkpoint_records_the_digest_of_a_path(before, path);
    a_checkpoint_records_the_digest_of_a_path(after, path);
}

/// A file of which the two checkpoints differ is never left out of a change.
pub proof fn no_changed_file_is_left_out(
    changes: Seq<FileChange>,
    before: Seq<SourceFile>,
    after: Seq<SourceFile>,
    path: Seq<char>,
)
    requires
        source_state::difference(changes, before, after),
        has_path(before, path) != has_path(after, path) || source_state::recorded(before, path)
            != source_state::recorded(after, path),
    ensures
        exists|i: int| 0 <= i < changes.len() && (#[trigger] changes[i]).path@ == path,
{
    a_checkpoint_records_the_digest_of_a_path(before, path);
    a_checkpoint_records_the_digest_of_a_path(after, path);
    let listed = source_state::change_paths(changes);
    assert(listed.contains(path));
    let i = choose|i: int| 0 <= i < listed.len() && listed[i] == path;
    assert(changes[i].path@ == path);
}

/// The path is in the form in which paths are recorded: names with slashes between them, and no
/// backslash.
pub open spec fn is_recordable(path: Seq<char>) -> bool {
    &&& paths::portable(path) == Ok::<Seq<char>, paths::PathError>(path)
    &&& forall|k: int| 0 <= k < path.len() ==> #[trigger] path[k] != '\\'
}

proof fn lemma_path_accepted(i: int, path: Seq<char>)
    ensures
        source_state::path_failure(i, path) is None <==> is_recordable(path),
{
    if path.contains('\\') {
        let k = choose|k: int| 0 <= k < path.len() && path[k] == '\\';
        assert(path[k] == '\\');
    }
    assert(source_state::is_recorded_form(path) <==> is_recordable(path));
}

proof fn lemma_state_files(files: Seq<SourceFile>, n: int)
    requires
        0 <= n <= files.len(),
    ensures
        source_state::state_files_failure(files, n) is None <==> forall|i: int|
            0 <= i < n ==> digest::is_digest((#[trigger] files[i]).sha256@) && is_recordable(
                files[i].path@,
            ),
    decreases n,
{
    if n > 0 {
        lemma_state_files(files, n - 1);
        lemma_path_accepted(n - 1, files[n - 1].path@);
    }
}

proof fn lemma_change_files(files: Seq<FileChange>, n: int)
    requires
        0 <= n <= files.len(),
    ensures
        source_state::change_files_failure(files, n) is None <==> forall|i: int|
            0 <= i < n ==> {
                &&& is_recordable((#[trigger] files[i]).path@)
                &&& files[i].before_sha256 matches Some(sha256) ==> digest::is_digest(sha256@)
                &&& files[i].after_sha256 matches Some(sha256) ==> digest::is_digest(sha256@)
            },
    decreases n,
{
    if n > 0 {
        lemma_change_files(files, n - 1);
        lemma_path_accepted(n - 1, files[n - 1].path@);
    }
}

/// A stored checkpoint is accepted exactly if it was found under its own identity, is of the known
/// version, and every file has a digest and a path in the recorded form.
pub proof fn only_an_intact_checkpoint_is_accepted(state: SourceState, id: Seq<char>)
    ensures
        source_state::state_failure(state, id) is None <==> {
            &&& digest::is_hash_id(id, "state-"@)
            &&& state.schema_version == 1
            &&& state.state_id@ == id
            &&& forall|i: int|
                0 <= i < state.files@.len() ==> digest::is_digest(
                    (#[trigger] state.files@[i]).sha256@,
                ) && is_recordable(state.files@[i].path@)
        },
{
    lemma_state_files(state.files@, state.files@.len() as int);
}

/// A stored change is accepted exactly if it was found under its own identity, is of the known
/// version, names well-formed checkpoints, and every file has a path in the recorded form and digests
/// that are some.
pub proof fn only_an_intact_change_is_accepted(change: SourceChange, id: Seq<char>)
    ensures
        source_state::change_failure(change, id) is None <==> {
            &&& digest::is_hash_id(id, "change-"@)
            &&& change.schema_version == 1
            &&& change.change_id@ == id
            &&& change.source_before matches Some(before) ==> digest::is_hash_id(before@, "state-"@)
            &&& digest::is_hash_id(change.source_after@, "state-"@)
            &&& forall|i: int|
                0 <= i < change.files@.len() ==> {
                    &&& is_recordable((#[trigger] change.files@[i]).path@)
                    &&& change.files@[i].before_sha256 matches Some(sha256) ==> digest::is_digest(
                        sha256@,
                    )
                    &&& change.files@[i].after_sha256 matches Some(sha256) ==> digest::is_digest(
                        sha256@,
                    )
                }
        },
{
    lemma_change_files(change.files@, change.files@.len() as int);
}

/// A stored content is accepted exactly if it has the digest that it was looked for under.
pub proof fn only_content_with_its_digest_is_accepted(sha256: Seq<char>, content: Seq<u8>)
    ensures
        source_state::object_failure(sha256, content) is None <==> digest::is_digest(sha256)
            && digest::sha256(content) == sha256,
{
}

/// A checkpoint holds every file once, under its path below the root, with the digest and the size of
/// its content, and nothing else.
pub proof fn a_checkpoint_holds_the_files(
    root: Seq<char>,
    files: Seq<SourceFile>,
    sources: Seq<source_state::SourceContent>,
    i: int,
) -> (j: int)
    requires
        source_state::snapshot_of(root, files, sources),
        0 <= i < sources.len(),
    ensures
        files.len() == sources.len(),
        0 <= j < files.len(),
        paths::portable_below(root, sources[i].path@) == Ok::<Seq<char>, paths::PathError>(
            files[j].path@,
        ),
        files[j].sha256@ == digest::sha256(sources[i].content@),
        files[j].size_bytes == sources[i].content@.len(),
        forall|a: int, b: int|
            0 <= a < b < files.len() ==> text::precedes(
                (#[trigger] files[a]).path@,
                (#[trigger] files[b]).path@,
            ),
{
    let listed = source_state::file_paths(files);
    assert forall|a: int, b: int| 0 <= a < b < files.len() implies text::precedes(
        (#[trigger] files[a]).path@,
        (#[trigger] files[b]).path@,
    ) by {
        assert(listed[a] == files[a].path@ && listed[b] == files[b].path@);
    }
    assert(source_state::has_record(root, files, sources[i]));
    choose|j: int|
        0 <= j < files.len() && #[trigger] source_state::records(root, files[j], sources[i])
}

/// A checkpoint holds nothing but the files: each of its records is that of some file.
pub proof fn a_checkpoint_holds_nothing_else(
    root: Seq<char>,
    files: Seq<SourceFile>,
    sources: Seq<source_state::SourceContent>,
    j: int,
) -> (i: int)
    requires
        source_state::snapshot_of(root, files, sources),
        0 <= j < files.len(),
    ensures
        0 <= i < sources.len(),
        paths::portable_below(root, sources[i].path@) == Ok::<Seq<char>, paths::PathError>(
            files[j].path@,
        ),
        files[j].sha256@ == digest::sha256(sources[i].content@),
        files[j].size_bytes == sources[i].content@.len(),
{
    assert(source_state::has_source(root, files[j], sources));
    choose|i: int|
        0 <= i < sources.len() && #[trigger] source_state::records(root, files[j], sources[i])
}

/// A change leads from one checkpoint to another, and names both.
pub proof fn a_change_leads_from_one_checkpoint_to_another(
    change: SourceChange,
    before: Option<SourceState>,
    after: SourceState,
)
    requires
        source_state::is_change(change, before, after),
    ensures
        change.schema_version == source_state::SCHEMA_VERSION,
        change.source_after@ == after.state_id@,
        before is Some ==> change.source_before is Some && change.source_before->0@
            == before->0.state_id@,
        before is None ==> change.source_before is None,
        digest::is_hash_id(change.change_id@, "change-"@),
        before is Some ==> change.change_id@ == source_state::change_identity(
            Some(before->0.state_id@),
            after.state_id@,
        ),
        before is None ==> change.change_id@ == source_state::change_identity(
            None,
            after.state_id@,
        ),
        before is Some ==> source_state::difference(
            change.files@,
            before->0.files@,
            after.files@,
        ),
        before is None ==> source_state::difference(change.files@, Seq::empty(), after.files@),
{
}

} // verus!
