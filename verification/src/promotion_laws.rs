//! What holds of every decision to promote a cycle.

use vstd::prelude::*;
use vstd::string::*;

use crate::lineage::{CycleRecord, LineageEvent};
use crate::promotion;

verus! {

/// Tells the cycles that were compared with the baseline.
pub open spec fn compared_with(baseline: Seq<char>) -> spec_fn(LineageEvent) -> bool {
    |event: LineageEvent|
        event is Cycle && event->Cycle_0.baseline_measurement_set is Some
            && event->Cycle_0.baseline_measurement_set->0@ == baseline
}

/// The cycles that were compared with the baseline.
pub open spec fn candidates(events: Seq<LineageEvent>, baseline: Seq<char>) -> Seq<LineageEvent> {
    events.filter(compared_with(baseline))
}

proof fn lemma_candidates(events: Seq<LineageEvent>, baseline: Seq<char>)
    ensures
        promotion::searches(events, baseline) == candidates(events, baseline).len(),
    decreases events.len(),
{
    reveal(Seq::filter);
    if events.len() > 0 {
        lemma_candidates(events.drop_last(), baseline);
    }
}

/// A confirmation of the cycle stands at the place, with an outcome.
pub open spec fn confirmed_as(
    events: Seq<LineageEvent>,
    i: int,
    cycle: CycleRecord,
    outcome: Seq<char>,
) -> bool {
    0 <= i < events.len() && (events[i] matches LineageEvent::Confirmation(confirmation)
        && confirmation.cycle_id@ == cycle.cycle_id@ && confirmation.outcome@ == outcome)
}

/// A cycle that was compared with a baseline may become the baseline exactly if fewer than five
/// candidates were compared with that baseline, or a confirmation of the cycle supports its outcome:
/// another positive one for a positive outcome, a positive or an equivalent one for an equivalent
/// outcome, a negative one for a negative outcome, and one that decides for an inconclusive outcome.
pub proof fn only_a_supporting_confirmation_makes_ready(
    cycle: CycleRecord,
    events: Seq<LineageEvent>,
)
    requires
        cycle.baseline_measurement_set is Some,
    ensures
        promotion::readiness(cycle, events).0 <==> candidates(
            events,
            cycle.baseline_measurement_set->0@,
        ).len() >= 5,
        promotion::readiness(cycle, events).2 == candidates(
            events,
            cycle.baseline_measurement_set->0@,
        ).len(),
        !promotion::readiness(cycle, events).0 ==> promotion::readiness(cycle, events).1,
        promotion::readiness(cycle, events).0 && cycle.outcome@ == "positive"@ ==> (
        promotion::readiness(cycle, events).1 <==> exists|i: int|
            confirmed_as(events, i, cycle, "positive"@)),
        promotion::readiness(cycle, events).0 && cycle.outcome@ == "equivalent"@ ==> (
        promotion::readiness(cycle, events).1 <==> ((exists|i: int|
            confirmed_as(events, i, cycle, "positive"@)) || (exists|i: int|
            confirmed_as(events, i, cycle, "equivalent"@)))),
        promotion::readiness(cycle, events).0 && cycle.outcome@ == "negative"@ ==> (
        promotion::readiness(cycle, events).1 <==> exists|i: int|
            confirmed_as(events, i, cycle, "negative"@)),
        promotion::readiness(cycle, events).0 && cycle.outcome@ == "inconclusive"@ ==> (
        promotion::readiness(cycle, events).1 <==> exists|i: int, outcome: Seq<char>| #[trigger]
            confirmed_as(events, i, cycle, outcome) && outcome != "inconclusive"@),
        promotion::readiness(cycle, events).0 && cycle.outcome@ == "measured"@ ==> (
        promotion::readiness(cycle, events).1 <==> exists|i: int, outcome: Seq<char>|
            confirmed_as(events, i, cycle, outcome)),
        promotion::readiness(cycle, events).0 && promotion::readiness(cycle, events).1 ==> (
        cycle.outcome@ == "positive"@ || cycle.outcome@ == "equivalent"@ || cycle.outcome@
            == "negative"@ || cycle.outcome@ == "inconclusive"@ || cycle.outcome@ == "measured"@),
{
    lemma_candidates(events, cycle.baseline_measurement_set->0@);
    reveal_strlit("positive");
    reveal_strlit("equivalent");
    reveal_strlit("negative");
    reveal_strlit("inconclusive");
    reveal_strlit("measured");
    assert("inconclusive"@.len() == 12 && "equivalent"@.len() == 10);
    assert("positive"@.len() == 8 && "negative"@.len() == 8);
    assert("positive"@[0] != "negative"@[0]);
    assert("positive"@[0] != "measured"@[0]);
    assert("negative"@[0] != "measured"@[0]);
    if promotion::confirmed(events, cycle) {
        let i = choose|i: int|
            0 <= i < events.len() && promotion::confirms(#[trigger] events[i], cycle);
        let outcome = events[i]->Confirmation_0.outcome@;
        assert(confirmed_as(events, i, cycle, outcome));
        assert(promotion::satisfies(cycle.outcome@, outcome));
    }
    assert forall|i: int, outcome: Seq<char>| #[trigger]
        confirmed_as(events, i, cycle, outcome) && promotion::satisfies(
            cycle.outcome@,
            outcome,
        ) implies promotion::confirmed(events, cycle) by {
        assert(promotion::confirms(events[i], cycle));
    }
}

/// A first measurement may always become the baseline.
pub proof fn a_first_measurement_is_ready(cycle: CycleRecord, events: Seq<LineageEvent>)
    requires
        cycle.baseline_measurement_set is None,
    ensures
        !promotion::readiness(cycle, events).0,
        promotion::readiness(cycle, events).1,
        promotion::readiness(cycle, events).2 == 0,
{
}

} // verus!
