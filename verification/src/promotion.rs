//! When a measured cycle may become the baseline, and what counts as its confirmation.

use vstd::prelude::*;
use vstd::string::*;

use crate::browser_lab::Engine;
use crate::comparison::{ComparisonSummary, EngineSummary};
use crate::lineage;
use crate::lineage::{
    CycleRecord, LineageEvent, MAX_MESSAGE_BYTES, PROMOTION_CONFIRMATION_SEARCHES,
};
use crate::schedule;
use crate::text;

verus! {

/// Whether a cycle may be promoted.
#[derive(Clone, Copy, Debug, Eq, PartialEq, Structural)]
pub struct PromotionReadiness {
    pub confirmation_required: bool,
    pub ready: bool,
    pub searched_candidates: usize,
    pub search_threshold: usize,
}

/// A cycle of the events was compared with the baseline.
pub open spec fn searched(event: LineageEvent, baseline: Seq<char>) -> bool {
    event matches LineageEvent::Cycle(cycle) && text::opt(cycle.baseline_measurement_set) == Some(
        baseline,
    )
}

/// How many cycles were compared with the baseline.
pub open spec fn searches(events: Seq<LineageEvent>, baseline: Seq<char>) -> nat
    decreases events.len(),
{
    if events.len() == 0 {
        0
    } else if searched(events.last(), baseline) {
        searches(events.drop_last(), baseline) + 1
    } else {
        searches(events.drop_last(), baseline)
    }
}

/// A confirmation with this outcome supports a cycle with that one.
pub open spec fn satisfies(original: Seq<char>, confirmation: Seq<char>) -> bool {
    if original == "positive"@ {
        confirmation == "positive"@
    } else if original == "equivalent"@ {
        confirmation == "positive"@ || confirmation == "equivalent"@
    } else if original == "negative"@ {
        confirmation == "negative"@
    } else if original == "inconclusive"@ {
        confirmation != "inconclusive"@
    } else {
        original == "measured"@
    }
}

/// The event confirms the cycle.
pub open spec fn confirms(event: LineageEvent, cycle: CycleRecord) -> bool {
    event matches LineageEvent::Confirmation(confirmation) && confirmation.cycle_id@
        == cycle.cycle_id@ && satisfies(cycle.outcome@, confirmation.outcome@)
}

/// Some event confirms the cycle.
pub open spec fn confirmed(events: Seq<LineageEvent>, cycle: CycleRecord) -> bool {
    exists|i: int| 0 <= i < events.len() && confirms(#[trigger] events[i], cycle)
}

/// Whether a cycle may be promoted: a first measurement may, and so may a candidate among the
/// first few that were compared with its baseline; later candidates need a confirmation.
pub open spec fn readiness(cycle: CycleRecord, events: Seq<LineageEvent>) -> (bool, bool, nat) {
    match cycle.baseline_measurement_set {
        None => (false, true, 0),
        Some(baseline) => {
            let count = searches(events, baseline@);
            let required = count >= PROMOTION_CONFIRMATION_SEARCHES;
            (required, !required || confirmed(events, cycle), count)
        },
    }
}

/// Tells whether a confirmation with one outcome supports a cycle with another.
pub fn confirmation_satisfies(original: &str, confirmation: &str) -> (r: bool)
    ensures
        r == satisfies(original@, confirmation@),
{
    if text::same(original, "positive") {
        text::same(confirmation, "positive")
    } else if text::same(original, "equivalent") {
        text::same(confirmation, "positive") || text::same(confirmation, "equivalent")
    } else if text::same(original, "negative") {
        text::same(confirmation, "negative")
    } else if text::same(original, "inconclusive") {
        !text::same(confirmation, "inconclusive")
    } else {
        text::same(original, "measured")
    }
}

/// Counting the cycles of some events never exceeds their number.
pub proof fn lemma_searches_bound(events: Seq<LineageEvent>, baseline: Seq<char>)
    ensures
        searches(events, baseline) <= events.len(),
    decreases events.len(),
{
    if events.len() > 0 {
        lemma_searches_bound(events.drop_last(), baseline);
    }
}

/// Tells whether a cycle may be promoted, given the history that it stands in.
pub fn promotion_readiness(cycle: &CycleRecord, events: &Vec<LineageEvent>) -> (r:
    PromotionReadiness)
    ensures
        (r.confirmation_required, r.ready, r.searched_candidates as nat) == readiness(
            *cycle,
            events@,
        ),
        r.search_threshold == PROMOTION_CONFIRMATION_SEARCHES,
{
    let baseline: &str = match &cycle.baseline_measurement_set {
        None => {
            return PromotionReadiness {
                confirmation_required: false,
                ready: true,
                searched_candidates: 0,
                search_threshold: PROMOTION_CONFIRMATION_SEARCHES,
            };
        },
        Some(baseline) => baseline.as_str(),
    };
    let mut count: usize = 0;
    let mut found = false;
    let mut i: usize = 0;
    assert(events@.take(0) == Seq::<LineageEvent>::empty());
    while i < events.len()
        invariant
            i <= events@.len(),
            count <= i,
            count == searches(events@.take(i as int), baseline@),
            found == confirmed(events@.take(i as int), *cycle),
        decreases events@.len() - i,
    {
        let ghost before = events@.take(i as int);
        let ghost after = events@.take(i + 1);
        proof {
            assert(after.drop_last() == before);
            assert(after.last() == events@[i as int]);
        }
        let mut supported = false;
        match &events[i] {
            LineageEvent::Cycle(candidate) => {
                if let Some(other) = &candidate.baseline_measurement_set {
                    if text::same(other, baseline) {
                        count += 1;
                    }
                }
            },
            LineageEvent::Confirmation(confirmation) => {
                supported = text::same(&confirmation.cycle_id, &cycle.cycle_id)
                    && confirmation_satisfies(&cycle.outcome, &confirmation.outcome);
            },
            LineageEvent::Promotion(_) => {},
        }
        proof {
            assert(supported == confirms(events@[i as int], *cycle));
            if found {
                let k = choose|k: int| 0 <= k < before.len() && confirms(#[trigger] before[k], *cycle);
                assert(confirms(after[k], *cycle));
            }
            if supported {
                assert(confirms(after[i as int], *cycle));
            }
            if confirmed(after, *cycle) && !supported {
                let k = choose|k: int| 0 <= k < after.len() && confirms(#[trigger] after[k], *cycle);
                assert(confirms(before[k], *cycle));
            }
        }
        if supported {
            found = true;
        }
        i += 1;
    }
    assert(events@.take(events@.len() as int) == events@);
    let confirmation_required = count >= PROMOTION_CONFIRMATION_SEARCHES;
    PromotionReadiness {
        confirmation_required,
        ready: !confirmation_required || found,
        searched_candidates: count,
        search_threshold: PROMOTION_CONFIRMATION_SEARCHES,
    }
}

/// A promotion that needs a confirmation first.
#[derive(Clone, Copy, Debug, Eq, PartialEq, Structural)]
pub struct ConfirmationRequired {
    pub searched_candidates: usize,
}

/// What to tell a user whose promotion needs a confirmation first.
pub open spec fn confirmation_request(cycle: CycleRecord, searched_candidates: nat) -> Seq<char> {
    "cycle "@ + cycle.cycle_id@ + " needs a fresh confirmation after "@ + text::decimal(
        searched_candidates,
    ) + " candidates were searched against baseline "@ + (match cycle.baseline_measurement_set {
        Some(baseline) => baseline@,
        None => Seq::empty(),
    }) + "; run `bperf confirm "@ + cycle.cycle_id@ + " <benchmark.ts>`"@
}

impl ConfirmationRequired {
    /// Says which confirmation is missing, and how to make one.
    pub fn message(&self, cycle: &CycleRecord) -> (r: String)
        ensures
            r@ == confirmation_request(*cycle, self.searched_candidates as nat),
    {
        let mut out = "cycle ".to_owned();
        out.append(&cycle.cycle_id);
        out.append(" needs a fresh confirmation after ");
        out.append(&text::decimal_text(self.searched_candidates as u64));
        out.append(" candidates were searched against baseline ");
        if let Some(baseline) = &cycle.baseline_measurement_set {
            out.append(baseline);
        }
        out.append("; run `bperf confirm ");
        out.append(&cycle.cycle_id);
        out.append(" <benchmark.ts>`");
        assert(out@ == confirmation_request(*cycle, self.searched_candidates as nat));
        out
    }
}

/// Lets a promotion pass, or says that it needs a confirmation first.
pub fn require_promotion_confirmation(cycle: &CycleRecord, events: &Vec<LineageEvent>) -> (r:
    Result<(), ConfirmationRequired>)
    ensures
        match r {
            Ok(_) => readiness(*cycle, events@).1,
            Err(error) => !readiness(*cycle, events@).1 && error.searched_candidates == readiness(
                *cycle,
                events@,
            ).2 && cycle.baseline_measurement_set is Some,
        },
{
    let state = promotion_readiness(cycle, events);
    if state.ready {
        return Ok(());
    }
    Err(ConfirmationRequired { searched_candidates: state.searched_candidates })
}

/// A message that is too long to be recorded.
#[derive(Clone, Copy, Debug, Eq, PartialEq, Structural)]
pub struct MessageTooLong;

/// Prepares a message for its record: without white space at its ends, and absent where nothing
/// is left of it.
pub fn normalize_message(message: Option<String>) -> (r: Result<Option<String>, MessageTooLong>)
    ensures
        match message {
            None => r == Ok::<Option<String>, MessageTooLong>(None),
            Some(message) => {
                let trimmed = text::trimmed(message@);
                if trimmed.len() == 0 {
                    r == Ok::<Option<String>, MessageTooLong>(None)
                } else if vstd::utf8::encode_utf8(trimmed).len() > MAX_MESSAGE_BYTES {
                    r == Err::<Option<String>, MessageTooLong>(MessageTooLong)
                } else {
                    r is Ok && text::opt(r->Ok_0) == Some(trimmed)
                }
            },
        },
{
    match message {
        None => Ok(None),
        Some(message) => {
            let trimmed = text::trim(&message);
            if trimmed.as_str().is_empty() {
                return Ok(None);
            }
            if trimmed.as_str().as_bytes().len() > MAX_MESSAGE_BYTES {
                return Err(MessageTooLong);
            }
            Ok(Some(trimmed))
        },
    }
}

/// Why a measurement cannot enter a history.
#[derive(Clone, Copy, Debug, Eq, PartialEq, Structural)]
pub enum RecordError {
    /// The measurement is not finished.
    Incomplete,
    /// The measurement names no environment.
    NoEnvironment,
    /// The comparison is about another candidate.
    OtherCandidate,
    /// The comparison is about another environment.
    OtherEnvironment,
    /// The comparison lacks an engine, or has one twice.
    MissingEngine,
    /// The confirmation measured another source variant.
    OtherVariant,
    /// The cycle was not compared with a baseline, so there is nothing to confirm.
    NoBaseline,
    /// The confirmation was compared with another baseline.
    OtherBaseline,
    /// The source is no longer that of the cycle.
    OtherSource,
    /// The source changed while it was measured.
    SourceChanged,
}

/// Gives the environment of a finished measurement.
pub fn complete_environment<'a>(complete: bool, environment: Option<&'a str>) -> (r: Result<
    &'a str,
    RecordError,
>)
    ensures
        r == if !complete {
            Err::<&'a str, RecordError>(RecordError::Incomplete)
        } else {
            match environment {
                Some(fingerprint) => Ok::<&'a str, RecordError>(fingerprint),
                None => Err::<&'a str, RecordError>(RecordError::NoEnvironment),
            }
        },
{
    if !complete {
        return Err(RecordError::Incomplete);
    }
    match environment {
        Some(fingerprint) => Ok(fingerprint),
        None => Err(RecordError::NoEnvironment),
    }
}

/// Some result is about the engine.
pub open spec fn covers(engines: Seq<EngineSummary>, engine: Engine) -> bool {
    exists|i: int| 0 <= i < engines.len() && (#[trigger] engines[i]).engine == engine
}

/// There is exactly one result for every engine.
pub open spec fn covers_all(engines: Seq<EngineSummary>) -> bool {
    &&& engines.len() == 3
    &&& covers(engines, Engine::Chromium)
    &&& covers(engines, Engine::Firefox)
    &&& covers(engines, Engine::Webkit)
}

fn has_engine(engines: &Vec<EngineSummary>, engine: Engine) -> (r: bool)
    ensures
        r == covers(engines@, engine),
{
    let mut i: usize = 0;
    while i < engines.len()
        invariant
            i <= engines@.len(),
            forall|j: int| 0 <= j < i ==> (#[trigger] engines@[j]).engine != engine,
        decreases engines@.len() - i,
    {
        if engines[i].engine == engine {
            return true;
        }
        i += 1;
    }
    false
}

/// Why a comparison is not about a measurement, if it is not.
pub open spec fn comparison_failure(
    measurement_set: Seq<char>,
    environment: Option<Seq<char>>,
    comparison: ComparisonSummary,
) -> Option<RecordError> {
    if comparison.candidate_measurement_set@ != measurement_set {
        Some(RecordError::OtherCandidate)
    } else if text::opt(comparison.environment_fingerprint) != environment {
        Some(RecordError::OtherEnvironment)
    } else if !covers_all(comparison.engines@) {
        Some(RecordError::MissingEngine)
    } else {
        None
    }
}

/// Checks that a comparison is about a measurement and covers every engine.
pub fn validate_comparison(
    measurement_set: &str,
    environment: &Option<String>,
    comparison: &ComparisonSummary,
) -> (r: Result<(), RecordError>)
    ensures
        match comparison_failure(measurement_set@, text::opt(*environment), *comparison) {
            Some(error) => r == Err::<(), RecordError>(error),
            None => r == Ok::<(), RecordError>(()),
        },
{
    if !text::same(&comparison.candidate_measurement_set, measurement_set) {
        return Err(RecordError::OtherCandidate);
    }
    if !text::same_opt(&comparison.environment_fingerprint, environment) {
        return Err(RecordError::OtherEnvironment);
    }
    if comparison.engines.len() != 3 || !has_engine(&comparison.engines, Engine::Chromium)
        || !has_engine(&comparison.engines, Engine::Firefox) || !has_engine(
        &comparison.engines,
        Engine::Webkit,
    ) {
        return Err(RecordError::MissingEngine);
    }
    Ok(())
}

/// Checks that the source did not change while it was measured: the variant read again has the
/// digest that was measured.
pub fn check_measured_source(current_variant_sha256: &str, measured_variant_sha256: &str) -> (r:
    Result<(), RecordError>)
    ensures
        r == if current_variant_sha256@ == measured_variant_sha256@ {
            Ok::<(), RecordError>(())
        } else {
            Err::<(), RecordError>(RecordError::SourceChanged)
        },
{
    if !text::same(current_variant_sha256, measured_variant_sha256) {
        return Err(RecordError::SourceChanged);
    }
    Ok(())
}

/// The digests by which a measurement names its benchmark and its variant.
#[derive(Clone, Debug)]
pub struct MeasuredInputs {
    pub benchmark_sha256: String,
    pub variant_sha256: String,
}

/// Why a confirmation does not belong to a cycle, if it does not.
pub open spec fn confirmation_failure(
    cycle: CycleRecord,
    original: MeasuredInputs,
    measured: MeasuredInputs,
    comparison: ComparisonSummary,
) -> Option<RecordError> {
    if original.benchmark_sha256@ != measured.benchmark_sha256@ || original.variant_sha256@
        != measured.variant_sha256@ {
        Some(RecordError::OtherVariant)
    } else if cycle.baseline_measurement_set is None {
        Some(RecordError::NoBaseline)
    } else if comparison.baseline_measurement_set@ != cycle.baseline_measurement_set->0@ {
        Some(RecordError::OtherBaseline)
    } else {
        None
    }
}

/// Checks that a confirmation measured the source of its cycle and was compared with the cycle's
/// baseline.
pub fn validate_confirmation(
    cycle: &CycleRecord,
    original: &MeasuredInputs,
    measured: &MeasuredInputs,
    comparison: &ComparisonSummary,
) -> (r: Result<(), RecordError>)
    ensures
        match confirmation_failure(*cycle, *original, *measured, *comparison) {
            Some(error) => r == Err::<(), RecordError>(error),
            None => r == Ok::<(), RecordError>(()),
        },
{
    if !text::same(&original.benchmark_sha256, &measured.benchmark_sha256) || !text::same(
        &original.variant_sha256,
        &measured.variant_sha256,
    ) {
        return Err(RecordError::OtherVariant);
    }
    match &cycle.baseline_measurement_set {
        None => Err(RecordError::NoBaseline),
        Some(baseline) => if text::same(&comparison.baseline_measurement_set, baseline) {
            Ok(())
        } else {
            Err(RecordError::OtherBaseline)
        },
    }
}

/// Checks that the source is still that of the cycle.
pub fn check_confirmed_source(cycle: &CycleRecord, state_id: &str) -> (r: Result<(), RecordError>)
    ensures
        r == if state_id@ == cycle.source_after@ {
            Ok::<(), RecordError>(())
        } else {
            Err::<(), RecordError>(RecordError::OtherSource)
        },
{
    if !text::same(state_id, &cycle.source_after) {
        return Err(RecordError::OtherSource);
    }
    Ok(())
}

// Finding a cycle among all histories.

/// The history of one benchmark.
#[derive(Clone, Debug)]
pub struct History {
    pub benchmark_id: String,
    pub events: Vec<LineageEvent>,
}

/// Why a cycle cannot be shown.
#[derive(Clone, Copy, Debug, Eq, PartialEq, Structural)]
pub enum FindError {
    /// More than one history holds the cycle.
    Ambiguous,
    /// No history holds the cycle.
    Unknown,
}

/// The history holds the cycle.
pub open spec fn holds(history: History, cycle_id: Seq<char>) -> bool {
    lineage::cycle_with(history.events@, cycle_id) is Some
}

/// Finds the one history that holds a cycle.
pub fn find_cycle(histories: &Vec<History>, cycle_id: &str) -> (r: Result<usize, FindError>)
    ensures
        match r {
            Ok(i) => i < histories@.len() && holds(histories@[i as int], cycle_id@) && forall|j: int|
                0 <= j < histories@.len() && holds(#[trigger] histories@[j], cycle_id@) ==> j == i,
            Err(FindError::Unknown) => forall|j: int|
                0 <= j < histories@.len() ==> !holds(#[trigger] histories@[j], cycle_id@),
            Err(FindError::Ambiguous) => exists|j: int, k: int|
                0 <= j < k < histories@.len() && holds(#[trigger] histories@[j], cycle_id@)
                    && holds(#[trigger] histories@[k], cycle_id@),
        },
{
    let mut found: Option<usize> = None;
    let mut i: usize = 0;
    while i < histories.len()
        invariant
            i <= histories@.len(),
            match found {
                Some(f) => f < i && holds(histories@[f as int], cycle_id@) && forall|j: int|
                    0 <= j < i && holds(#[trigger] histories@[j], cycle_id@) ==> j == f,
                None => forall|j: int|
                    0 <= j < i ==> !holds(#[trigger] histories@[j], cycle_id@),
            },
        decreases histories@.len() - i,
    {
        if lineage::find(&histories[i].events, cycle_id).is_some() {
            if found.is_some() {
                return Err(FindError::Ambiguous);
            }
            found = Some(i);
        }
        i += 1;
    }
    match found {
        Some(f) => Ok(f),
        None => Err(FindError::Unknown),
    }
}

/// A cycle that can be named.
#[derive(Clone, Debug)]
pub struct CycleChoice {
    pub cycle_id: String,
    pub recorded_at_unix_ms: u64,
}

/// The cycle is the one that was recorded last; of several at that time, the last of the list.
pub open spec fn is_latest(choices: Seq<CycleChoice>, i: int) -> bool {
    &&& 0 <= i < choices.len()
    &&& forall|j: int|
        0 <= j < choices.len() ==> (#[trigger] choices[j]).recorded_at_unix_ms
            < choices[i].recorded_at_unix_ms || (choices[j].recorded_at_unix_ms
            == choices[i].recorded_at_unix_ms && j <= i)
}

/// The text names the cycle: it is its identity, or the beginning of it.
pub open spec fn names(requested: Seq<char>, choice: CycleChoice) -> bool {
    requested.is_prefix_of(choice.cycle_id@)
}

fn latest(choices: &Vec<CycleChoice>) -> (r: Option<usize>)
    ensures
        match r {
            Some(i) => is_latest(choices@, i as int),
            None => choices@.len() == 0,
        },
{
    if choices.len() == 0 {
        return None;
    }
    let mut found: usize = 0;
    let mut i: usize = 1;
    while i < choices.len()
        invariant
            1 <= i <= choices@.len(),
            is_latest(choices@.take(i as int), found as int),
        decreases choices@.len() - i,
    {
        let ghost seen = choices@.take(i as int);
        let ghost next = choices@.take(i + 1);
        assert(forall|j: int| 0 <= j < i ==> next[j] == seen[j]);
        assert(next[i as int] == choices@[i as int]);
        assert(seen[found as int] == choices@[found as int]);
        if choices[i].recorded_at_unix_ms >= choices[found].recorded_at_unix_ms {
            found = i;
        }
        i += 1;
    }
    assert(choices@.take(i as int) == choices@);
    Some(found)
}

/// Selects a cycle by its identity, by a beginning that no other cycle has, or as the latest.
pub fn select_cycle(choices: &Vec<CycleChoice>, requested: &str) -> (r: Result<usize, FindError>)
    ensures
        requested@ == "latest"@ ==> match r {
            Ok(i) => is_latest(choices@, i as int),
            Err(error) => error == FindError::Unknown && choices@.len() == 0,
        },
        requested@ != "latest"@ ==> match r {
            Ok(i) => i < choices@.len() && names(requested@, choices@[i as int]) && forall|j: int|
                0 <= j < choices@.len() && names(requested@, #[trigger] choices@[j]) ==> j == i,
            Err(FindError::Unknown) => forall|j: int|
                0 <= j < choices@.len() ==> !names(requested@, #[trigger] choices@[j]),
            Err(FindError::Ambiguous) => exists|j: int, k: int|
                0 <= j < k < choices@.len() && names(requested@, #[trigger] choices@[j]) && names(
                    requested@,
                    #[trigger] choices@[k],
                ),
        },
{
    if text::same(requested, "latest") {
        return match latest(choices) {
            Some(i) => Ok(i),
            None => Err(FindError::Unknown),
        };
    }
    let mut found: Option<usize> = None;
    let mut i: usize = 0;
    while i < choices.len()
        invariant
            i <= choices@.len(),
            requested@ != "latest"@,
            match found {
                Some(f) => f < i && names(requested@, choices@[f as int]) && forall|j: int|
                    0 <= j < i && names(requested@, #[trigger] choices@[j]) ==> j == f,
                None => forall|j: int|
                    0 <= j < i ==> !names(requested@, #[trigger] choices@[j]),
            },
        decreases choices@.len() - i,
    {
        if text::has_prefix(&choices[i].cycle_id, requested) {
            if found.is_some() {
                return Err(FindError::Ambiguous);
            }
            found = Some(i);
        }
        i += 1;
    }
    match found {
        Some(f) => Ok(f),
        None => Err(FindError::Unknown),
    }
}

/// A selected cycle stays selected by every longer beginning of its identity, up to the whole of it.
pub proof fn a_longer_beginning_selects_the_same(
    choices: Seq<CycleChoice>,
    i: int,
    shorter: Seq<char>,
    longer: Seq<char>,
)
    requires
        0 <= i < choices.len(),
        names(shorter, choices[i]),
        forall|j: int| 0 <= j < choices.len() && names(shorter, #[trigger] choices[j]) ==> j == i,
        shorter.is_prefix_of(longer),
        names(longer, choices[i]),
    ensures
        forall|j: int| 0 <= j < choices.len() && names(longer, #[trigger] choices[j]) ==> j == i,
{
    assert forall|j: int| 0 <= j < choices.len() && names(longer, #[trigger] choices[j]) implies j
        == i by {
        let id = choices[j].cycle_id@;
        assert(id.take(shorter.len() as int) == longer.take(shorter.len() as int)) by {
            assert(longer == id.take(longer.len() as int));
        }
        assert(names(shorter, choices[j]));
    }
}

/// The places of the promotions of a cycle, in order.
pub open spec fn promotion_places(events: Seq<LineageEvent>, cycle_id: Seq<char>) -> Seq<int>
    decreases events.len(),
{
    if events.len() == 0 {
        Seq::empty()
    } else {
        let earlier = promotion_places(events.drop_last(), cycle_id);
        if events.last() matches LineageEvent::Promotion(p) && p.cycle_id@ == cycle_id {
            earlier.push(events.len() - 1)
        } else {
            earlier
        }
    }
}

/// The places of the confirmations of a cycle, in order.
pub open spec fn confirmation_places(events: Seq<LineageEvent>, cycle_id: Seq<char>) -> Seq<int>
    decreases events.len(),
{
    if events.len() == 0 {
        Seq::empty()
    } else {
        let earlier = confirmation_places(events.drop_last(), cycle_id);
        if events.last() matches LineageEvent::Confirmation(c) && c.cycle_id@ == cycle_id {
            earlier.push(events.len() - 1)
        } else {
            earlier
        }
    }
}

/// Gives the places of the promotions and of the confirmations of a cycle.
pub fn records_of_cycle(events: &Vec<LineageEvent>, cycle_id: &str) -> (r: (
    Vec<usize>,
    Vec<usize>,
))
    ensures
        schedule::ints(r.0@) == promotion_places(events@, cycle_id@),
        schedule::ints(r.1@) == confirmation_places(events@, cycle_id@),
{
    let mut promotions: Vec<usize> = Vec::new();
    let mut confirmations: Vec<usize> = Vec::new();
    let mut i: usize = 0;
    assert(events@.take(0) == Seq::<LineageEvent>::empty());
    assert(schedule::ints(promotions@) == Seq::<int>::empty());
    assert(schedule::ints(confirmations@) == Seq::<int>::empty());
    while i < events.len()
        invariant
            i <= events@.len(),
            schedule::ints(promotions@) == promotion_places(events@.take(i as int), cycle_id@),
            schedule::ints(confirmations@) == confirmation_places(events@.take(i as int), cycle_id@),
        decreases events@.len() - i,
    {
        let ghost p = schedule::ints(promotions@);
        let ghost c = schedule::ints(confirmations@);
        assert(events@.take(i + 1).drop_last() == events@.take(i as int));
        match &events[i] {
            LineageEvent::Promotion(record) => {
                if text::same(&record.cycle_id, cycle_id) {
                    promotions.push(i);
                    assert(schedule::ints(promotions@) == p.push(i as int));
                }
            },
            LineageEvent::Confirmation(record) => {
                if text::same(&record.cycle_id, cycle_id) {
                    confirmations.push(i);
                    assert(schedule::ints(confirmations@) == c.push(i as int));
                }
            },
            LineageEvent::Cycle(_) => {},
        }
        i += 1;
    }
    assert(events@.take(events@.len() as int) == events@);
    (promotions, confirmations)
}

/// What a confirmation of a cycle has to measure.
#[derive(Clone, Debug)]
pub struct ConfirmationTarget {
    pub cycle_id: String,
    pub benchmark_id: String,
    pub baseline_measurement_set: String,
    pub candidate_measurement_path: String,
}

/// Says what a confirmation of a cycle has to measure; a cycle without a baseline needs none.
pub fn confirmation_target(cycle: &CycleRecord) -> (r: Result<ConfirmationTarget, RecordError>)
    ensures
        match cycle.baseline_measurement_set {
            None => r == Err::<ConfirmationTarget, RecordError>(RecordError::NoBaseline),
            Some(baseline) => r is Ok && r->Ok_0.cycle_id@ == cycle.cycle_id@
                && r->Ok_0.benchmark_id@ == cycle.benchmark_id@
                && r->Ok_0.baseline_measurement_set@ == baseline@
                && r->Ok_0.candidate_measurement_path@ == cycle.candidate_measurement_path@,
        },
{
    match &cycle.baseline_measurement_set {
        None => Err(RecordError::NoBaseline),
        Some(baseline) => Ok(
            ConfirmationTarget {
                cycle_id: cycle.cycle_id.clone(),
                benchmark_id: cycle.benchmark_id.clone(),
                baseline_measurement_set: baseline.clone(),
                candidate_measurement_path: cycle.candidate_measurement_path.clone(),
            },
        ),
    }
}

} // verus!
