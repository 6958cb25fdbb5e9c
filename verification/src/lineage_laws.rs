//! What holds of every history.

use vstd::prelude::*;
use vstd::utf8::*;

use crate::comparison::ComparisonSummary;
use crate::digest;
use crate::lineage;
use crate::lineage::{
    BaselineRecord, ConfirmationRecord, CycleRecord, DecodedLine, LineageEvent, NewCycle,
    PromotionRecord,
};
use crate::promotion;
use crate::source_state;
use crate::source_state::SourceChange;
use crate::text;

verus! {

/// The lines hold exactly these events.
pub open spec fn lines_hold(lines: Seq<DecodedLine>, events: Seq<LineageEvent>) -> bool {
    &&& lines.len() == events.len()
    &&& forall|i: int| 0 <= i < lines.len() ==> (#[trigger] lines[i]).event == Some(events[i])
}

/// A valid history that was written, one event to a line, is read back as it was.
pub proof fn written_history_is_read_back(
    lines: Seq<DecodedLine>,
    events: Seq<LineageEvent>,
    benchmark: Seq<char>,
)
    requires
        lines_hold(lines, events),
        lineage::valid_history(events, benchmark),
    ensures
        lineage::reading(lines, benchmark) == Ok::<Seq<LineageEvent>, lineage::HistoryError>(events),
    decreases lines.len(),
{
    if lines.len() == 0 {
        assert(events == Seq::<LineageEvent>::empty());
    } else {
        let shorter = lines.drop_last();
        let earlier = events.drop_last();
        assert forall|i: int| 0 <= i < shorter.len() implies (#[trigger] shorter[i]).event == Some(
            earlier[i],
        ) by {
            assert(shorter[i] == lines[i]);
        }
        assert forall|i: int| 0 <= i < earlier.len() implies lineage::refusal(
            earlier.take(i),
            #[trigger] earlier[i],
            benchmark,
        ) is None by {
            assert(earlier[i] == events[i]);
            assert(earlier.take(i) == events.take(i));
        }
        written_history_is_read_back(shorter, earlier, benchmark);
        let last = events.len() - 1;
        assert(lines[last].event == Some(events[last]));
        assert(events.take(last) == earlier);
        assert(lineage::refusal(events.take(last), events[last], benchmark) is None);
        assert(earlier.push(events[last]) == events);
    }
}

/// The last cycle of some events is one of them.
proof fn lemma_last_cycle_place(events: Seq<LineageEvent>) -> (i: int)
    requires
        lineage::last_cycle(events) is Some,
    ensures
        0 <= i < events.len(),
        events[i] == LineageEvent::Cycle(Box::new(lineage::last_cycle(events)->0)),
        forall|j: int| i < j < events.len() ==> !((#[trigger] events[j]) is Cycle),
    decreases events.len(),
{
    if events.last() is Cycle {
        events.len() - 1
    } else {
        let i = lemma_last_cycle_place(events.drop_last());
        assert forall|j: int| i < j < events.len() implies !((#[trigger] events[j]) is Cycle) by {
            if j < events.len() - 1 {
                assert(events.drop_last()[j] == events[j]);
            }
        }
        i
    }
}

/// A cycle found by its identity is one of the events.
proof fn lemma_cycle_place(events: Seq<LineageEvent>, id: Seq<char>) -> (i: int)
    requires
        lineage::cycle_with(events, id) is Some,
    ensures
        0 <= i < events.len(),
        events[i] == LineageEvent::Cycle(Box::new(lineage::cycle_with(events, id)->0)),
        lineage::cycle_with(events, id)->0.cycle_id@ == id,
    decreases events.len(),
{
    if lineage::cycle_with(events.drop_last(), id) is Some {
        lemma_cycle_place(events.drop_last(), id)
    } else {
        events.len() - 1
    }
}

/// The cycles of a valid history carry well-formed identities.
proof fn lemma_cycle_identities(events: Seq<LineageEvent>, benchmark: Seq<char>, i: int)
    requires
        lineage::valid_history(events, benchmark),
        0 <= i < events.len(),
        events[i] is Cycle,
    ensures
        digest::is_hash_id(events[i]->Cycle_0.cycle_id@, "cycle-"@),
        digest::is_hash_id(events[i]->Cycle_0.source_after@, "state-"@),
{
    assert(lineage::refusal(events.take(i), events[i], benchmark) is None);
}

/// Adding an event that can follow keeps a history valid.
proof fn lemma_push_valid(events: Seq<LineageEvent>, event: LineageEvent, benchmark: Seq<char>)
    requires
        lineage::valid_history(events, benchmark),
        lineage::refusal(events, event, benchmark) is None,
    ensures
        lineage::valid_history(events.push(event), benchmark),
{
    let all = events.push(event);
    assert forall|i: int| 0 <= i < all.len() implies lineage::refusal(
        all.take(i),
        #[trigger] all[i],
        benchmark,
    ) is None by {
        if i < events.len() {
            assert(all[i] == events[i]);
            assert(all.take(i) == events.take(i));
        } else {
            assert(all.take(i) == events);
        }
    }
}

/// A cycle appended to a valid history leaves it valid, provided that its identity is new.
pub proof fn appended_cycle_keeps_a_history_valid(
    earlier: Seq<LineageEvent>,
    record: CycleRecord,
    cycle: NewCycle,
    before: Option<source_state::SourceState>,
    change: SourceChange,
    recorded_at_unix_ms: u64,
)
    requires
        lineage::valid_history(earlier, cycle.benchmark_id@),
        source_state::is_change(change, before, cycle.source_after),
        lineage::records_cycle(record, earlier, cycle, change, recorded_at_unix_ms),
        digest::is_hash_id(cycle.source_after.state_id@, "state-"@),
        lineage::cycle_with(earlier, record.cycle_id@) is None,
    ensures
        lineage::valid_history(
            earlier.push(LineageEvent::Cycle(Box::new(record))),
            cycle.benchmark_id@,
        ),
{
    if lineage::last_cycle(earlier) is Some {
        let i = lemma_last_cycle_place(earlier);
        lemma_cycle_identities(earlier, cycle.benchmark_id@, i);
    }
    lemma_push_valid(earlier, LineageEvent::Cycle(Box::new(record)), cycle.benchmark_id@);
}

/// A promotion of a cycle of a valid history leaves it valid when appended.
pub proof fn appended_promotion_keeps_a_history_valid(
    earlier: Seq<LineageEvent>,
    record: PromotionRecord,
    cycle: CycleRecord,
    baseline: BaselineRecord,
    recorded_at_unix_ms: u64,
)
    requires
        lineage::valid_history(earlier, cycle.benchmark_id@),
        lineage::cycle_with(earlier, cycle.cycle_id@) == Some(cycle),
        baseline.measurement_set_id@ == cycle.candidate_measurement_set@,
        lineage::records_promotion(record, cycle, baseline, recorded_at_unix_ms),
    ensures
        lineage::valid_history(
            earlier.push(LineageEvent::Promotion(record)),
            cycle.benchmark_id@,
        ),
{
    let i = lemma_cycle_place(earlier, cycle.cycle_id@);
    lemma_cycle_identities(earlier, cycle.benchmark_id@, i);
    lemma_push_valid(earlier, LineageEvent::Promotion(record), cycle.benchmark_id@);
}

/// A confirmation of a cycle of a valid history, compared with the cycle's baseline in its
/// environment, leaves the history valid when appended.
pub proof fn appended_confirmation_keeps_a_history_valid(
    earlier: Seq<LineageEvent>,
    record: ConfirmationRecord,
    cycle: CycleRecord,
    measurement_set: Seq<char>,
    measurement_path: Seq<char>,
    environment_fingerprint: Seq<char>,
    comparison: ComparisonSummary,
    recorded_at_unix_ms: u64,
)
    requires
        lineage::valid_history(earlier, cycle.benchmark_id@),
        lineage::cycle_with(earlier, cycle.cycle_id@) == Some(cycle),
        text::opt(cycle.baseline_measurement_set) == Some(comparison.baseline_measurement_set@),
        comparison.candidate_measurement_set@ == measurement_set,
        text::opt(comparison.environment_fingerprint) == Some(environment_fingerprint),
        !lineage::has_confirmation(earlier, record.confirmation_id@),
        lineage::records_confirmation(
            record,
            cycle,
            measurement_set,
            measurement_path,
            environment_fingerprint,
            comparison,
            recorded_at_unix_ms,
        ),
    ensures
        lineage::valid_history(
            earlier.push(LineageEvent::Confirmation(Box::new(record))),
            cycle.benchmark_id@,
        ),
{
    let i = lemma_cycle_place(earlier, cycle.cycle_id@);
    lemma_cycle_identities(earlier, cycle.benchmark_id@, i);
    lemma_push_valid(
        earlier,
        LineageEvent::Confirmation(Box::new(record)),
        cycle.benchmark_id@,
    );
}

/// An exact retry is recognised: a cycle that was just appended repeats the last one when the same
/// source, measurement, and comparison come again, so that nothing is appended.
pub proof fn exact_retry_appends_nothing(
    earlier: Seq<LineageEvent>,
    record: CycleRecord,
    cycle: NewCycle,
    change: SourceChange,
    recorded_at_unix_ms: u64,
    retry: NewCycle,
)
    requires
        lineage::records_cycle(record, earlier, cycle, change, recorded_at_unix_ms),
        retry.source_after.state_id@ == cycle.source_after.state_id@,
        retry.candidate_measurement_set@ == cycle.candidate_measurement_set@,
        lineage::comparison_id_of(retry.comparison) == lineage::comparison_id_of(cycle.comparison),
    ensures
        lineage::repeats_last(earlier.push(LineageEvent::Cycle(Box::new(record))), retry),
{
    let all = earlier.push(LineageEvent::Cycle(Box::new(record)));
    assert(all.last() == LineageEvent::Cycle(Box::new(record)));
    assert(lineage::last_cycle(all) == Some(record));
}

/// The promotions and the confirmations of a valid history speak of a cycle before them.
pub proof fn records_speak_of_an_earlier_cycle(
    events: Seq<LineageEvent>,
    benchmark: Seq<char>,
    i: int,
)
    requires
        lineage::valid_history(events, benchmark),
        0 <= i < events.len(),
        !(events[i] is Cycle),
    ensures
        exists|j: int|
            0 <= j < i && (#[trigger] events[j] matches LineageEvent::Cycle(cycle)
                && cycle.cycle_id@ == (match events[i] {
                LineageEvent::Promotion(promotion) => promotion.cycle_id@,
                LineageEvent::Confirmation(confirmation) => confirmation.cycle_id@,
                LineageEvent::Cycle(cycle) => cycle.cycle_id@,
            })),
{
    assert(lineage::refusal(events.take(i), events[i], benchmark) is None);
    let id = match events[i] {
        LineageEvent::Promotion(promotion) => promotion.cycle_id@,
        LineageEvent::Confirmation(confirmation) => confirmation.cycle_id@,
        LineageEvent::Cycle(cycle) => cycle.cycle_id@,
    };
    let j = lemma_cycle_place(events.take(i), id);
    assert(events.take(i)[j] == events[j]);
}

/// The cycles of a valid history form one chain: each names the cycle before it and starts from
/// the source that that one ended with.
pub proof fn cycles_form_one_chain(events: Seq<LineageEvent>, benchmark: Seq<char>, i: int, j: int)
    requires
        lineage::valid_history(events, benchmark),
        0 <= i < j < events.len(),
        events[i] is Cycle,
        events[j] is Cycle,
        forall|k: int| i < k < j ==> !((#[trigger] events[k]) is Cycle),
    ensures
        text::opt(events[j]->Cycle_0.previous_cycle_id) == Some(events[i]->Cycle_0.cycle_id@),
        text::opt(events[j]->Cycle_0.source_before) == Some(events[i]->Cycle_0.source_after@),
{
    let earlier = events.take(j);
    lemma_last_cycle_is(earlier, i);
    assert(lineage::refusal(events.take(j), events[j], benchmark) is None);
}

/// A cycle with no cycle after it is the last one.
proof fn lemma_last_cycle_is(events: Seq<LineageEvent>, i: int)
    requires
        0 <= i < events.len(),
        events[i] is Cycle,
        forall|k: int| i < k < events.len() ==> !((#[trigger] events[k]) is Cycle),
    ensures
        lineage::last_cycle(events) == Some(*events[i]->Cycle_0),
    decreases events.len(),
{
    if i < events.len() - 1 {
        assert(!(events[events.len() - 1] is Cycle));
        assert(events.drop_last()[i] == events[i]);
        assert forall|k: int| i < k < events.drop_last().len() implies !((
        #[trigger] events.drop_last()[k]) is Cycle) by {
            assert(events.drop_last()[k] == events[k]);
        }
        lemma_last_cycle_is(events.drop_last(), i);
    }
}

/// No two cycles of a valid history have the same identity.
pub proof fn cycle_identities_are_distinct(
    events: Seq<LineageEvent>,
    benchmark: Seq<char>,
    i: int,
    j: int,
)
    requires
        lineage::valid_history(events, benchmark),
        0 <= i < j < events.len(),
        events[i] is Cycle,
        events[j] is Cycle,
    ensures
        events[i]->Cycle_0.cycle_id@ != events[j]->Cycle_0.cycle_id@,
{
    let id = events[j]->Cycle_0.cycle_id@;
    assert(lineage::refusal(events.take(j), events[j], benchmark) is None);
    if events[i]->Cycle_0.cycle_id@ == id {
        lemma_cycle_found(events.take(j), id, i);
    }
}

/// A cycle among the events is found by its identity.
proof fn lemma_cycle_found(events: Seq<LineageEvent>, id: Seq<char>, i: int)
    requires
        0 <= i < events.len(),
        events[i] matches LineageEvent::Cycle(cycle) && cycle.cycle_id@ == id,
    ensures
        lineage::cycle_with(events, id) is Some,
    decreases events.len(),
{
    if i < events.len() - 1 {
        assert(events.drop_last()[i] == events[i]);
        lemma_cycle_found(events.drop_last(), id, i);
    }
}

/// A fresh confirmation makes a cycle ready: once a supporting confirmation of the cycle stands in
/// the history, the number of searched candidates no longer holds its promotion back.
pub proof fn supporting_confirmation_makes_ready(
    events: Seq<LineageEvent>,
    cycle: CycleRecord,
    confirmation: ConfirmationRecord,
)
    requires
        confirmation.cycle_id@ == cycle.cycle_id@,
        promotion::satisfies(cycle.outcome@, confirmation.outcome@),
    ensures
        promotion::readiness(
            cycle,
            events.push(LineageEvent::Confirmation(Box::new(confirmation))),
        ).1,
{
    let all = events.push(LineageEvent::Confirmation(Box::new(confirmation)));
    assert(promotion::confirms(all[events.len() as int], cycle));
}

/// A cycle that was compared with a baseline needs a confirmation exactly from the fifth candidate
/// against that baseline on.
pub proof fn fifth_candidate_requires_confirmation(events: Seq<LineageEvent>, cycle: CycleRecord)
    requires
        cycle.baseline_measurement_set is Some,
        !promotion::confirmed(events, cycle),
    ensures
        promotion::readiness(cycle, events).1 <==> promotion::searches(
            events,
            cycle.baseline_measurement_set->0@,
        ) < 5,
{
}

/// What a cycle's identity is computed from determines the previous cycle, the source, the
/// measurement, and the comparison; an absent identity counts as an empty one.
pub proof fn cycle_preimage_is_unambiguous(
    previous_a: Option<Seq<char>>,
    state_a: Seq<char>,
    measurement_a: Seq<char>,
    comparison_a: Option<Seq<char>>,
    previous_b: Option<Seq<char>>,
    state_b: Seq<char>,
    measurement_b: Seq<char>,
    comparison_b: Option<Seq<char>>,
)
    requires
        lineage::cycle_preimage(previous_a, state_a, measurement_a, comparison_a)
            == lineage::cycle_preimage(previous_b, state_b, measurement_b, comparison_b),
        encode_utf8(source_state::or_empty(previous_a)).len() <= u64::MAX,
        encode_utf8(state_a).len() <= u64::MAX,
        encode_utf8(measurement_a).len() <= u64::MAX,
        encode_utf8(source_state::or_empty(comparison_a)).len() <= u64::MAX,
        encode_utf8(source_state::or_empty(previous_b)).len() <= u64::MAX,
        encode_utf8(state_b).len() <= u64::MAX,
        encode_utf8(measurement_b).len() <= u64::MAX,
        encode_utf8(source_state::or_empty(comparison_b)).len() <= u64::MAX,
    ensures
        source_state::or_empty(previous_a) == source_state::or_empty(previous_b),
        state_a == state_b,
        measurement_a == measurement_b,
        source_state::or_empty(comparison_a) == source_state::or_empty(comparison_b),
{
    let name = encode_utf8("bperf-cycle-v1\0"@);
    let pa = encode_utf8(source_state::or_empty(previous_a));
    let pb = encode_utf8(source_state::or_empty(previous_b));
    let sa = encode_utf8(state_a);
    let sb = encode_utf8(state_b);
    let ma = encode_utf8(measurement_a);
    let mb = encode_utf8(measurement_b);
    let ca = encode_utf8(source_state::or_empty(comparison_a));
    let cb = encode_utf8(source_state::or_empty(comparison_b));
    let x = lineage::cycle_preimage(previous_a, state_a, measurement_a, comparison_a);
    let y = lineage::cycle_preimage(previous_b, state_b, measurement_b, comparison_b);
    let empty = Seq::<u8>::empty();
    let rest_a3 = digest::framed(ca) + empty;
    let rest_b3 = digest::framed(cb) + empty;
    let rest_a2 = digest::framed(ma) + rest_a3;
    let rest_b2 = digest::framed(mb) + rest_b3;
    let rest_a1 = digest::framed(sa) + rest_a2;
    let rest_b1 = digest::framed(sb) + rest_b2;
    assert(x.skip(name.len() as int) == digest::framed(pa) + rest_a1);
    assert(y.skip(name.len() as int) == digest::framed(pb) + rest_b1);
    digest::lemma_framed_unique(pa, rest_a1, pb, rest_b1);
    digest::lemma_framed_unique(sa, rest_a2, sb, rest_b2);
    digest::lemma_framed_unique(ma, rest_a3, mb, rest_b3);
    digest::lemma_framed_unique(ca, empty, cb, empty);
    digest::lemma_utf8_unique(
        source_state::or_empty(previous_a),
        source_state::or_empty(previous_b),
    );
    digest::lemma_utf8_unique(state_a, state_b);
    digest::lemma_utf8_unique(measurement_a, measurement_b);
    digest::lemma_utf8_unique(
        source_state::or_empty(comparison_a),
        source_state::or_empty(comparison_b),
    );
}

} // verus!
