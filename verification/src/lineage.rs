//! Append-only history of measured sources, confirmations, and accepted baselines.

use vstd::prelude::*;
use vstd::string::*;
use vstd::utf8::*;

use crate::comparison::ComparisonSummary;
use crate::digest;
use crate::source_state;
use crate::source_state::{SourceChange, SourceState};
use crate::text;

verus! {

/// The version of every record in a history.
pub const SCHEMA_VERSION: u32 = 1;

/// The longest message that a cycle can carry, in bytes.
pub const MAX_MESSAGE_BYTES: usize = 4096;

/// How many candidates may be searched against one baseline before a promotion needs a
/// confirmation of its own.
pub const PROMOTION_CONFIRMATION_SEARCHES: usize = 5;

/// One measured source state.
#[derive(Clone, Debug)]
pub struct CycleRecord {
    pub schema_version: u32,
    pub cycle_id: String,
    pub previous_cycle_id: Option<String>,
    pub recorded_at_unix_ms: u64,
    pub benchmark_id: String,
    pub subject_id: String,
    pub benchmark_sha256: String,
    pub message: Option<String>,
    pub source_before: Option<String>,
    pub source_after: String,
    pub change_id: String,
    pub baseline_measurement_set: Option<String>,
    pub candidate_measurement_set: String,
    pub candidate_measurement_path: String,
    pub environment_fingerprint: String,
    pub outcome: String,
    pub comparison: Option<ComparisonSummary>,
}

/// The acceptance of a cycle's measurement as the new baseline.
#[derive(Clone, Debug)]
pub struct PromotionRecord {
    pub schema_version: u32,
    pub promotion_id: String,
    pub recorded_at_unix_ms: u64,
    pub benchmark_id: String,
    pub cycle_id: String,
    pub baseline_measurement_set: String,
    pub previous_baseline_measurement_set: Option<String>,
}

/// A second, independent measurement of a cycle's source.
#[derive(Clone, Debug)]
pub struct ConfirmationRecord {
    pub schema_version: u32,
    pub confirmation_id: String,
    pub recorded_at_unix_ms: u64,
    pub benchmark_id: String,
    pub cycle_id: String,
    pub source_state: String,
    pub original_candidate_measurement_set: String,
    pub confirmation_measurement_set: String,
    pub confirmation_measurement_path: String,
    pub environment_fingerprint: String,
    pub outcome: String,
    pub comparison: ComparisonSummary,
}

/// One entry of a history.
#[derive(Clone, Debug)]
pub enum LineageEvent {
    Cycle(Box<CycleRecord>),
    Confirmation(Box<ConfirmationRecord>),
    Promotion(PromotionRecord),
}

/// The kinds of identity that a record can carry.
#[derive(Clone, Copy, Debug, Eq, PartialEq, Structural)]
pub enum IdKind {
    Cycle,
    SourceState,
    SourceChange,
    Confirmation,
    Promotion,
}

/// Why a history is refused.
#[derive(Clone, Debug, Eq, PartialEq)]
pub enum HistoryError {
    /// A line, counted from one, does not hold an event.
    InvalidLine(usize),
    /// A record belongs to another schema or another benchmark.
    IncompatibleIdentity,
    /// A record carries an identity, here given, that is not a prefix and a digest.
    InvalidId(IdKind, String),
    /// A cycle does not name the cycle before it.
    BrokenCycleChain,
    /// A cycle does not start from the source of the cycle before it.
    BrokenSourceChain,
    DuplicateCycle,
    ConfirmsUnknownCycle,
    InconsistentConfirmation,
    InvalidConfirmationIdentity,
    PromotesUnknownCycle,
    PromotesOutsideItsCycle,
    Empty,
}

/// What an identity is an identity of.
pub open spec fn id_label(kind: IdKind) -> Seq<char> {
    match kind {
        IdKind::Cycle => "optimization cycle"@,
        IdKind::SourceState => "source state"@,
        IdKind::SourceChange => "source change"@,
        IdKind::Confirmation => "confirmation"@,
        IdKind::Promotion => "promotion"@,
    }
}

/// What to tell a user whose history is refused.
pub open spec fn history_error_text(error: HistoryError, path: Seq<char>) -> Seq<char> {
    let history = "optimization history "@ + path;
    match error {
        HistoryError::InvalidLine(line) => "invalid "@ + path + " line "@ + text::decimal(
            line as nat,
        ),
        HistoryError::IncompatibleIdentity => history + " has incompatible identity"@,
        HistoryError::InvalidId(kind, id) => "invalid "@ + id_label(kind) + " ID "@ + text::quoted(
            id@,
        ),
        HistoryError::BrokenCycleChain => history + " has a broken cycle chain"@,
        HistoryError::BrokenSourceChain => history + " has a broken source chain"@,
        HistoryError::DuplicateCycle => history + " contains a duplicate cycle"@,
        HistoryError::ConfirmsUnknownCycle => history + " confirms an unknown cycle"@,
        HistoryError::InconsistentConfirmation => history
            + " contains an inconsistent confirmation"@,
        HistoryError::InvalidConfirmationIdentity => history
            + " contains an invalid confirmation identity"@,
        HistoryError::PromotesUnknownCycle => history + " promotes an unknown cycle"@,
        HistoryError::PromotesOutsideItsCycle => history
            + " promotes a measurement outside its cycle"@,
        HistoryError::Empty => history + " is empty"@,
    }
}

impl IdKind {
    /// What an identity of this kind is an identity of.
    pub fn label(self) -> (r: &'static str)
        ensures
            r@ == id_label(self),
    {
        match self {
            IdKind::Cycle => "optimization cycle",
            IdKind::SourceState => "source state",
            IdKind::SourceChange => "source change",
            IdKind::Confirmation => "confirmation",
            IdKind::Promotion => "promotion",
        }
    }
}

impl HistoryError {
    /// Says why the history in a file is refused.
    pub fn message(&self, path: &str) -> (r: String)
        ensures
            r@ == history_error_text(*self, path@),
    {
        if let HistoryError::InvalidLine(line) = self {
            let mut out = "invalid ".to_owned();
            out.append(path);
            out.append(" line ");
            out.append(&text::decimal_text(*line as u64));
            return out;
        }
        if let HistoryError::InvalidId(kind, id) = self {
            let mut out = "invalid ".to_owned();
            out.append(kind.label());
            out.append(" ID ");
            out.append(&text::quote(id));
            return out;
        }
        let mut out = "optimization history ".to_owned();
        out.append(path);
        match self {
            HistoryError::InvalidLine(_) => {},
            HistoryError::IncompatibleIdentity => out.append(" has incompatible identity"),
            HistoryError::InvalidId(_, _) => {},
            HistoryError::BrokenCycleChain => out.append(" has a broken cycle chain"),
            HistoryError::BrokenSourceChain => out.append(" has a broken source chain"),
            HistoryError::DuplicateCycle => out.append(" contains a duplicate cycle"),
            HistoryError::ConfirmsUnknownCycle => out.append(" confirms an unknown cycle"),
            HistoryError::InconsistentConfirmation => out.append(
                " contains an inconsistent confirmation",
            ),
            HistoryError::InvalidConfirmationIdentity => out.append(
                " contains an invalid confirmation identity",
            ),
            HistoryError::PromotesUnknownCycle => out.append(" promotes an unknown cycle"),
            HistoryError::PromotesOutsideItsCycle => out.append(
                " promotes a measurement outside its cycle",
            ),
            HistoryError::Empty => out.append(" is empty"),
        }
        out
    }
}

// The identities.

/// The bytes that a confirmation's identity is the digest of.
pub open spec fn confirmation_preimage(
    cycle: Seq<char>,
    measurement: Seq<char>,
    comparison: Seq<char>,
) -> Seq<u8> {
    encode_utf8("bperf-confirmation-v1\0"@) + digest::framed_text(cycle) + digest::framed_text(
        measurement,
    ) + digest::framed_text(comparison)
}

/// The identity of a confirmation.
pub open spec fn confirmation_identity(
    cycle: Seq<char>,
    measurement: Seq<char>,
    comparison: Seq<char>,
) -> Seq<char> {
    "confirmation-"@ + digest::sha256(confirmation_preimage(cycle, measurement, comparison))
}

/// The identity of a confirmation.
pub fn confirmation_id(cycle: &str, measurement: &str, comparison: &str) -> (r: String)
    ensures
        r@ == confirmation_identity(cycle@, measurement@, comparison@),
        digest::is_hash_id(r@, "confirmation-"@),
{
    let mut buffer = source_state::domain("bperf-confirmation-v1\0");
    digest::push_framed_text(&mut buffer, cycle);
    digest::push_framed_text(&mut buffer, measurement);
    digest::push_framed_text(&mut buffer, comparison);
    source_state::identity("confirmation-", &buffer)
}

// Reading a history.

/// The first cycle with an identity.
pub open spec fn cycle_with(events: Seq<LineageEvent>, id: Seq<char>) -> Option<CycleRecord>
    decreases events.len(),
{
    if events.len() == 0 {
        None
    } else {
        match cycle_with(events.drop_last(), id) {
            Some(cycle) => Some(cycle),
            None => match events.last() {
                LineageEvent::Cycle(cycle) => if cycle.cycle_id@ == id {
                    Some(*cycle)
                } else {
                    None
                },
                _ => None,
            },
        }
    }
}

/// The last cycle.
pub open spec fn last_cycle(events: Seq<LineageEvent>) -> Option<CycleRecord>
    decreases events.len(),
{
    if events.len() == 0 {
        None
    } else {
        match events.last() {
            LineageEvent::Cycle(cycle) => Some(*cycle),
            _ => last_cycle(events.drop_last()),
        }
    }
}

/// Some confirmation has this identity.
pub open spec fn has_confirmation(events: Seq<LineageEvent>, id: Seq<char>) -> bool {
    exists|i: int|
        0 <= i < events.len() && (#[trigger] events[i] matches LineageEvent::Confirmation(c)
            && c.confirmation_id@ == id)
}

/// Why a cycle cannot follow some events, if it cannot.
pub open spec fn cycle_refusal(
    earlier: Seq<LineageEvent>,
    cycle: CycleRecord,
    benchmark: Seq<char>,
) -> Option<HistoryError> {
    let last = last_cycle(earlier);
    if cycle.schema_version != SCHEMA_VERSION || cycle.benchmark_id@ != benchmark {
        Some(HistoryError::IncompatibleIdentity)
    } else if !digest::is_hash_id(cycle.cycle_id@, "cycle-"@) {
        Some(HistoryError::InvalidId(IdKind::Cycle, cycle.cycle_id))
    } else if cycle.previous_cycle_id is Some && !digest::is_hash_id(
        cycle.previous_cycle_id->0@,
        "cycle-"@,
    ) {
        Some(HistoryError::InvalidId(IdKind::Cycle, cycle.previous_cycle_id->0))
    } else if cycle.source_before is Some && !digest::is_hash_id(
        cycle.source_before->0@,
        "state-"@,
    ) {
        Some(HistoryError::InvalidId(IdKind::SourceState, cycle.source_before->0))
    } else if !digest::is_hash_id(cycle.source_after@, "state-"@) {
        Some(HistoryError::InvalidId(IdKind::SourceState, cycle.source_after))
    } else if !digest::is_hash_id(cycle.change_id@, "change-"@) {
        Some(HistoryError::InvalidId(IdKind::SourceChange, cycle.change_id))
    } else if text::opt(cycle.previous_cycle_id) != cycle_id_of(last) {
        Some(HistoryError::BrokenCycleChain)
    } else if text::opt(cycle.source_before) != source_after_of(last) {
        Some(HistoryError::BrokenSourceChain)
    } else if cycle_with(earlier, cycle.cycle_id@) is Some {
        Some(HistoryError::DuplicateCycle)
    } else {
        None
    }
}

/// The identity of a cycle that may be absent.
pub open spec fn cycle_id_of(cycle: Option<CycleRecord>) -> Option<Seq<char>> {
    match cycle {
        Some(cycle) => Some(cycle.cycle_id@),
        None => None,
    }
}

/// The source after a cycle that may be absent.
pub open spec fn source_after_of(cycle: Option<CycleRecord>) -> Option<Seq<char>> {
    match cycle {
        Some(cycle) => Some(cycle.source_after@),
        None => None,
    }
}

/// A confirmation says of its cycle, and of its comparison, what they say themselves.
pub open spec fn consistent_confirmation(
    confirmation: ConfirmationRecord,
    cycle: CycleRecord,
) -> bool {
    &&& confirmation.source_state@ == cycle.source_after@
    &&& confirmation.original_candidate_measurement_set@ == cycle.candidate_measurement_set@
    &&& confirmation.comparison.baseline_measurement_set@ == (
        match cycle.baseline_measurement_set {
            Some(baseline) => baseline@,
            None => Seq::<char>::empty(),
        })
    &&& confirmation.comparison.candidate_measurement_set@
        == confirmation.confirmation_measurement_set@
    &&& confirmation.comparison.verdict@ == confirmation.outcome@
    &&& text::opt(confirmation.comparison.environment_fingerprint) == Some(
        confirmation.environment_fingerprint@,
    )
}

/// Why a confirmation cannot follow some events, if it cannot.
pub open spec fn confirmation_refusal(
    earlier: Seq<LineageEvent>,
    confirmation: ConfirmationRecord,
    benchmark: Seq<char>,
) -> Option<HistoryError> {
    let cycle = cycle_with(earlier, confirmation.cycle_id@);
    if confirmation.schema_version != SCHEMA_VERSION || confirmation.benchmark_id@ != benchmark {
        Some(HistoryError::IncompatibleIdentity)
    } else if !digest::is_hash_id(confirmation.confirmation_id@, "confirmation-"@) {
        Some(HistoryError::InvalidId(IdKind::Confirmation, confirmation.confirmation_id))
    } else if !digest::is_hash_id(confirmation.cycle_id@, "cycle-"@) {
        Some(HistoryError::InvalidId(IdKind::Cycle, confirmation.cycle_id))
    } else if !digest::is_hash_id(confirmation.source_state@, "state-"@) {
        Some(HistoryError::InvalidId(IdKind::SourceState, confirmation.source_state))
    } else if cycle is None {
        Some(HistoryError::ConfirmsUnknownCycle)
    } else if !consistent_confirmation(confirmation, cycle->0) {
        Some(HistoryError::InconsistentConfirmation)
    } else if confirmation.confirmation_id@ != confirmation_identity(
        confirmation.cycle_id@,
        confirmation.confirmation_measurement_set@,
        confirmation.comparison.comparison_id@,
    ) || has_confirmation(earlier, confirmation.confirmation_id@) {
        Some(HistoryError::InvalidConfirmationIdentity)
    } else {
        None
    }
}

/// Why a promotion cannot follow some events, if it cannot.
pub open spec fn promotion_refusal(
    earlier: Seq<LineageEvent>,
    promotion: PromotionRecord,
    benchmark: Seq<char>,
) -> Option<HistoryError> {
    let cycle = cycle_with(earlier, promotion.cycle_id@);
    if promotion.schema_version != SCHEMA_VERSION || promotion.benchmark_id@ != benchmark {
        Some(HistoryError::IncompatibleIdentity)
    } else if !digest::is_hash_id(promotion.promotion_id@, "promotion-"@) {
        Some(HistoryError::InvalidId(IdKind::Promotion, promotion.promotion_id))
    } else if !digest::is_hash_id(promotion.cycle_id@, "cycle-"@) {
        Some(HistoryError::InvalidId(IdKind::Cycle, promotion.cycle_id))
    } else if cycle is None {
        Some(HistoryError::PromotesUnknownCycle)
    } else if cycle->0.candidate_measurement_set@ != promotion.baseline_measurement_set@ {
        Some(HistoryError::PromotesOutsideItsCycle)
    } else {
        None
    }
}

/// Why an event cannot follow some events of a benchmark's history, if it cannot.
pub open spec fn refusal(
    earlier: Seq<LineageEvent>,
    event: LineageEvent,
    benchmark: Seq<char>,
) -> Option<HistoryError> {
    match event {
        LineageEvent::Cycle(cycle) => cycle_refusal(earlier, *cycle, benchmark),
        LineageEvent::Confirmation(confirmation) => confirmation_refusal(
            earlier,
            *confirmation,
            benchmark,
        ),
        LineageEvent::Promotion(promotion) => promotion_refusal(earlier, promotion, benchmark),
    }
}

/// Every event of a history can follow the events before it.
pub open spec fn valid_history(events: Seq<LineageEvent>, benchmark: Seq<char>) -> bool {
    forall|i: int|
        0 <= i < events.len() ==> refusal(events.take(i), #[trigger] events[i], benchmark) is None
}

/// A line of a history file that is not blank: its number, counted from one, and its event where
/// the line could be decoded.
#[derive(Clone, Debug)]
pub struct DecodedLine {
    pub number: usize,
    pub event: Option<LineageEvent>,
}

/// The events of some lines, or why the first line that is wrong is refused.
pub open spec fn reading(lines: Seq<DecodedLine>, benchmark: Seq<char>) -> Result<
    Seq<LineageEvent>,
    HistoryError,
>
    decreases lines.len(),
{
    if lines.len() == 0 {
        Ok(Seq::empty())
    } else {
        match reading(lines.drop_last(), benchmark) {
            Err(error) => Err(error),
            Ok(earlier) => match lines.last().event {
                None => Err(HistoryError::InvalidLine(lines.last().number)),
                Some(event) => match refusal(earlier, event, benchmark) {
                    Some(error) => Err(error),
                    None => Ok(earlier.push(event)),
                },
            },
        }
    }
}

/// Finds the first cycle with an identity.
pub fn find(events: &Vec<LineageEvent>, id: &str) -> (r: Option<usize>)
    ensures
        match r {
            Some(i) => i < events@.len() && (events@[i as int] matches LineageEvent::Cycle(c)
                && cycle_with(events@, id@) == Some(*c) && c.cycle_id@ == id@),
            None => cycle_with(events@, id@) is None,
        },
{
    let mut i: usize = 0;
    assert(events@.take(0) == Seq::<LineageEvent>::empty());
    while i < events.len()
        invariant
            i <= events@.len(),
            cycle_with(events@.take(i as int), id@) is None,
        decreases events@.len() - i,
    {
        assert(events@.take(i + 1).drop_last() == events@.take(i as int));
        if let LineageEvent::Cycle(cycle) = &events[i] {
            if text::same(&cycle.cycle_id, id) {
                proof {
                    lemma_cycle_with_prefix(events@, id@, i + 1);
                }
                return Some(i);
            }
        }
        i += 1;
    }
    assert(events@.take(events@.len() as int) == events@);
    None
}

/// A cycle found in the first events is the one found in all of them.
proof fn lemma_cycle_with_prefix(events: Seq<LineageEvent>, id: Seq<char>, n: int)
    requires
        0 <= n <= events.len(),
        cycle_with(events.take(n), id) is Some,
    ensures
        cycle_with(events, id) == cycle_with(events.take(n), id),
    decreases events.len() - n,
{
    if n == events.len() {
        assert(events.take(n) == events);
    } else {
        assert(events.take(n + 1).drop_last() == events.take(n));
        lemma_cycle_with_prefix(events, id, n + 1);
    }
}

/// Finds the last cycle.
fn last_cycle_index(events: &Vec<LineageEvent>) -> (r: Option<usize>)
    ensures
        match r {
            Some(i) => i < events@.len() && (events@[i as int] matches LineageEvent::Cycle(c)
                && last_cycle(events@) == Some(*c)),
            None => last_cycle(events@) is None,
        },
{
    let mut n: usize = events.len();
    assert(events@.take(n as int) == events@);
    while n > 0
        invariant
            n <= events@.len(),
            last_cycle(events@) == last_cycle(events@.take(n as int)),
        decreases n,
    {
        assert(events@.take(n as int).drop_last() == events@.take(n - 1));
        if let LineageEvent::Cycle(_) = &events[n - 1] {
            return Some(n - 1);
        }
        n -= 1;
    }
    None
}

/// Tells whether some confirmation has an identity.
fn confirmation_known(events: &Vec<LineageEvent>, id: &str) -> (r: bool)
    ensures
        r == has_confirmation(events@, id@),
{
    let mut i: usize = 0;
    while i < events.len()
        invariant
            i <= events@.len(),
            forall|j: int|
                0 <= j < i ==> !(#[trigger] events@[j] matches LineageEvent::Confirmation(c)
                    && c.confirmation_id@ == id@),
        decreases events@.len() - i,
    {
        if let LineageEvent::Confirmation(confirmation) = &events[i] {
            if text::same(&confirmation.confirmation_id, id) {
                return true;
            }
        }
        i += 1;
    }
    false
}

/// Tells whether an optional text is present with the given characters, or absent where none are
/// given.
fn is_text(value: &Option<String>, expected: Option<&str>) -> (r: bool)
    ensures
        r == (text::opt(*value) == (match expected {
            Some(text) => Some(text@),
            None => None,
        })),
{
    match (value, expected) {
        (Some(a), Some(b)) => text::same(a, b),
        (None, None) => true,
        _ => false,
    }
}

fn refuse_cycle(earlier: &Vec<LineageEvent>, cycle: &CycleRecord, benchmark_id: &str) -> (r: Option<
    HistoryError,
>)
    ensures
        r == cycle_refusal(earlier@, *cycle, benchmark_id@),
{
    if cycle.schema_version != SCHEMA_VERSION || !text::same(&cycle.benchmark_id, benchmark_id) {
        return Some(HistoryError::IncompatibleIdentity);
    }
    if !digest::hash_id(&cycle.cycle_id, "cycle-") {
        return Some(HistoryError::InvalidId(IdKind::Cycle, cycle.cycle_id.clone()));
    }
    if let Some(previous) = &cycle.previous_cycle_id {
        if !digest::hash_id(previous, "cycle-") {
            return Some(HistoryError::InvalidId(IdKind::Cycle, previous.clone()));
        }
    }
    if let Some(before) = &cycle.source_before {
        if !digest::hash_id(before, "state-") {
            return Some(HistoryError::InvalidId(IdKind::SourceState, before.clone()));
        }
    }
    if !digest::hash_id(&cycle.source_after, "state-") {
        return Some(HistoryError::InvalidId(IdKind::SourceState, cycle.source_after.clone()));
    }
    if !digest::hash_id(&cycle.change_id, "change-") {
        return Some(HistoryError::InvalidId(IdKind::SourceChange, cycle.change_id.clone()));
    }
    let (last_id, last_source): (Option<&str>, Option<&str>) = match last_cycle_index(earlier) {
        Some(i) => match &earlier[i] {
            LineageEvent::Cycle(last) => (
                Some(last.cycle_id.as_str()),
                Some(last.source_after.as_str()),
            ),
            _ => (None, None),
        },
        None => (None, None),
    };
    if !is_text(&cycle.previous_cycle_id, last_id) {
        return Some(HistoryError::BrokenCycleChain);
    }
    if !is_text(&cycle.source_before, last_source) {
        return Some(HistoryError::BrokenSourceChain);
    }
    if find(earlier, &cycle.cycle_id).is_some() {
        return Some(HistoryError::DuplicateCycle);
    }
    None
}

fn confirmation_fits(confirmation: &ConfirmationRecord, cycle: &CycleRecord) -> (r: bool)
    ensures
        r == consistent_confirmation(*confirmation, *cycle),
{
    let baseline: &str = match &cycle.baseline_measurement_set {
        Some(baseline) => baseline.as_str(),
        None => "",
    };
    proof {
        reveal_strlit("");
        assert(""@ == Seq::<char>::empty());
    }
    text::same(&confirmation.source_state, &cycle.source_after) && text::same(
        &confirmation.original_candidate_measurement_set,
        &cycle.candidate_measurement_set,
    ) && text::same(&confirmation.comparison.baseline_measurement_set, baseline) && text::same(
        &confirmation.comparison.candidate_measurement_set,
        &confirmation.confirmation_measurement_set,
    ) && text::same(&confirmation.comparison.verdict, &confirmation.outcome) && is_text(
        &confirmation.comparison.environment_fingerprint,
        Some(confirmation.environment_fingerprint.as_str()),
    )
}

fn refuse_confirmation(
    earlier: &Vec<LineageEvent>,
    confirmation: &ConfirmationRecord,
    benchmark_id: &str,
) -> (r: Option<HistoryError>)
    ensures
        r == confirmation_refusal(earlier@, *confirmation, benchmark_id@),
{
    if confirmation.schema_version != SCHEMA_VERSION || !text::same(
        &confirmation.benchmark_id,
        benchmark_id,
    ) {
        return Some(HistoryError::IncompatibleIdentity);
    }
    if !digest::hash_id(&confirmation.confirmation_id, "confirmation-") {
        return Some(
            HistoryError::InvalidId(IdKind::Confirmation, confirmation.confirmation_id.clone()),
        );
    }
    if !digest::hash_id(&confirmation.cycle_id, "cycle-") {
        return Some(HistoryError::InvalidId(IdKind::Cycle, confirmation.cycle_id.clone()));
    }
    if !digest::hash_id(&confirmation.source_state, "state-") {
        return Some(
            HistoryError::InvalidId(IdKind::SourceState, confirmation.source_state.clone()),
        );
    }
    let fits = match find(earlier, &confirmation.cycle_id) {
        Some(i) => match &earlier[i] {
            LineageEvent::Cycle(cycle) => confirmation_fits(confirmation, cycle),
            _ => false,
        },
        None => {
            return Some(HistoryError::ConfirmsUnknownCycle);
        },
    };
    if !fits {
        return Some(HistoryError::InconsistentConfirmation);
    }
    let expected = confirmation_id(
        &confirmation.cycle_id,
        &confirmation.confirmation_measurement_set,
        &confirmation.comparison.comparison_id,
    );
    if !text::same(&confirmation.confirmation_id, &expected) || confirmation_known(
        earlier,
        &confirmation.confirmation_id,
    ) {
        return Some(HistoryError::InvalidConfirmationIdentity);
    }
    None
}

fn refuse_promotion(
    earlier: &Vec<LineageEvent>,
    promotion: &PromotionRecord,
    benchmark_id: &str,
) -> (r: Option<HistoryError>)
    ensures
        r == promotion_refusal(earlier@, *promotion, benchmark_id@),
{
    if promotion.schema_version != SCHEMA_VERSION || !text::same(
        &promotion.benchmark_id,
        benchmark_id,
    ) {
        return Some(HistoryError::IncompatibleIdentity);
    }
    if !digest::hash_id(&promotion.promotion_id, "promotion-") {
        return Some(HistoryError::InvalidId(IdKind::Promotion, promotion.promotion_id.clone()));
    }
    if !digest::hash_id(&promotion.cycle_id, "cycle-") {
        return Some(HistoryError::InvalidId(IdKind::Cycle, promotion.cycle_id.clone()));
    }
    let inside = match find(earlier, &promotion.cycle_id) {
        Some(i) => match &earlier[i] {
            LineageEvent::Cycle(cycle) => text::same(
                &cycle.candidate_measurement_set,
                &promotion.baseline_measurement_set,
            ),
            _ => false,
        },
        None => {
            return Some(HistoryError::PromotesUnknownCycle);
        },
    };
    if !inside {
        return Some(HistoryError::PromotesOutsideItsCycle);
    }
    None
}

/// Says why an event cannot follow the earlier events of a benchmark's history, if it cannot.
pub fn refuse(earlier: &Vec<LineageEvent>, event: &LineageEvent, benchmark_id: &str) -> (r: Option<
    HistoryError,
>)
    ensures
        r == refusal(earlier@, *event, benchmark_id@),
{
    match event {
        LineageEvent::Cycle(cycle) => refuse_cycle(earlier, cycle, benchmark_id),
        LineageEvent::Confirmation(confirmation) => refuse_confirmation(
            earlier,
            confirmation,
            benchmark_id,
        ),
        LineageEvent::Promotion(promotion) => refuse_promotion(earlier, promotion, benchmark_id),
    }
}

/// What is read from a lines of events is a valid history.
proof fn lemma_reading_valid(lines: Seq<DecodedLine>, benchmark: Seq<char>)
    ensures
        reading(lines, benchmark) matches Ok(events) ==> valid_history(events, benchmark)
            && events.len() == lines.len(),
    decreases lines.len(),
{
    if lines.len() > 0 {
        lemma_reading_valid(lines.drop_last(), benchmark);
        if let Ok(events) = reading(lines, benchmark) {
            let earlier = reading(lines.drop_last(), benchmark)->Ok_0;
            assert forall|i: int| 0 <= i < events.len() implies refusal(
                events.take(i),
                #[trigger] events[i],
                benchmark,
            ) is None by {
                if i < earlier.len() {
                    assert(events[i] == earlier[i]);
                    assert(events.take(i) == earlier.take(i));
                } else {
                    assert(events.take(i) == earlier);
                }
            }
        }
    }
}

/// An error among the first lines is the error of all of them.
proof fn lemma_reading_prefix(lines: Seq<DecodedLine>, benchmark: Seq<char>, n: int)
    requires
        0 <= n <= lines.len(),
        reading(lines.take(n), benchmark) is Err,
    ensures
        reading(lines, benchmark) == reading(lines.take(n), benchmark),
    decreases lines.len() - n,
{
    if n == lines.len() {
        assert(lines.take(n) == lines);
    } else {
        assert(lines.take(n + 1).drop_last() == lines.take(n));
        lemma_reading_prefix(lines, benchmark, n + 1);
    }
}

/// Reads a benchmark's history from the lines of its file.
///
/// Every event has to follow from those before it: cycles form one chain of identities and
/// sources, confirmations and promotions speak of an earlier cycle. The first line that is wrong
/// decides the error, and a history without events is refused.
pub fn parse_events(lines: Vec<DecodedLine>, benchmark_id: &str) -> (r: Result<
    Vec<LineageEvent>,
    HistoryError,
>)
    ensures
        match reading(lines@, benchmark_id@) {
            Err(error) => r == Err::<Vec<LineageEvent>, HistoryError>(error),
            Ok(events) => if events.len() == 0 {
                r == Err::<Vec<LineageEvent>, HistoryError>(HistoryError::Empty)
            } else {
                r is Ok && r->Ok_0@ == events
            },
        },
        r matches Ok(events) ==> valid_history(events@, benchmark_id@) && events@.len() > 0,
{
    let ghost all = lines@;
    let mut events: Vec<LineageEvent> = Vec::new();
    assert(all.take(0) == Seq::<DecodedLine>::empty());
    for line in it: lines
        invariant
            all == lines@,
            it.seq() == all,
            reading(all.take(it.index()), benchmark_id@) == Ok::<Seq<LineageEvent>, HistoryError>(
                events@,
            ),
    {
        proof {
            assert(all.take(it.index() + 1).drop_last() == all.take(it.index()));
            assert(all.take(it.index() + 1).last() == line);
        }
        match line.event {
            None => {
                proof {
                    lemma_reading_prefix(all, benchmark_id@, it.index() + 1);
                }
                return Err(HistoryError::InvalidLine(line.number));
            },
            Some(event) => {
                if let Some(error) = refuse(&events, &event, benchmark_id) {
                    proof {
                        lemma_reading_prefix(all, benchmark_id@, it.index() + 1);
                    }
                    return Err(error);
                }
                events.push(event);
            },
        }
    }
    proof {
        assert(all.take(all.len() as int) == all);
        lemma_reading_valid(all, benchmark_id@);
    }
    if events.len() == 0 {
        return Err(HistoryError::Empty);
    }
    Ok(events)
}

/// The lines of a history file that are not blank, with their numbers counted from one.
pub open spec fn numbered_lines(lines: Seq<Seq<char>>) -> Seq<(nat, Seq<char>)>
    decreases lines.len(),
{
    if lines.len() == 0 {
        Seq::empty()
    } else if text::blank(lines.last()) {
        numbered_lines(lines.drop_last())
    } else {
        numbered_lines(lines.drop_last()).push((lines.len(), lines.last()))
    }
}

/// A line of a history file that is not blank.
#[derive(Clone, Debug)]
pub struct HistoryLine {
    pub number: usize,
    pub text: String,
}

/// The numbers and the characters of some lines.
pub open spec fn line_views(lines: Seq<HistoryLine>) -> Seq<(nat, Seq<char>)> {
    Seq::new(lines.len(), |i: int| (lines[i].number as nat, lines[i].text@))
}

/// Splits a history file into its lines that are not blank.
pub fn history_lines(source: &str) -> (r: Vec<HistoryLine>)
    ensures
        line_views(r@) == numbered_lines(text::lines(source@)),
{
    let all = text::split_lines(source);
    let ghost lines = text::lines(source@);
    let mut out: Vec<HistoryLine> = Vec::new();
    let mut i: usize = 0;
    assert(line_views(out@) == numbered_lines(lines.take(0)));
    while i < all.len()
        invariant
            i <= all@.len(),
            lines == text::views(all@),
            line_views(out@) == numbered_lines(lines.take(i as int)),
        decreases all@.len() - i,
    {
        let trimmed = text::trim(&all[i]);
        let ghost before = line_views(out@);
        proof {
            assert(lines.take(i + 1).drop_last() == lines.take(i as int));
            assert(lines.take(i + 1).last() == all@[i as int]@);
            text::lemma_trimmed_blank(all@[i as int]@);
        }
        if !trimmed.as_str().is_empty() {
            out.push(HistoryLine { number: i + 1, text: all[i].clone() });
            assert(line_views(out@) == before.push(((i + 1) as nat, all@[i as int]@)));
        }
        i += 1;
    }
    assert(lines.take(lines.len() as int) == lines);
    out
}

// Appending to a history.

/// A measured source state that is to enter a history.
#[derive(Clone, Debug)]
pub struct NewCycle {
    pub benchmark_id: String,
    pub subject_id: String,
    pub benchmark_sha256: String,
    pub candidate_measurement_set: String,
    pub candidate_measurement_path: String,
    pub environment_fingerprint: String,
    pub source_after: SourceState,
    pub message: Option<String>,
    pub comparison: Option<ComparisonSummary>,
}

/// An accepted baseline and the one that it replaced.
#[derive(Clone, Debug)]
pub struct BaselineRecord {
    pub measurement_set_id: String,
    pub previous_measurement_set_id: Option<String>,
}

/// Where a cycle stands in its history, and the change to be stored with it where it is new.
#[derive(Clone, Debug)]
pub struct AppendedCycle {
    pub index: usize,
    pub change: Option<SourceChange>,
}

/// Why nothing can be appended.
#[derive(Clone, Copy, Debug, Eq, PartialEq, Structural)]
pub enum AppendError {
    /// The benchmark's name is not an identifier.
    InvalidBenchmark,
    /// The accepted baseline is not the cycle's measurement.
    OtherMeasurement,
}

/// The bytes that a cycle's identity is the digest of.
pub open spec fn cycle_preimage(
    previous: Option<Seq<char>>,
    state: Seq<char>,
    measurement: Seq<char>,
    comparison: Option<Seq<char>>,
) -> Seq<u8> {
    encode_utf8("bperf-cycle-v1\0"@) + digest::framed_text(source_state::or_empty(previous))
        + digest::framed_text(state) + digest::framed_text(measurement) + digest::framed_text(
        source_state::or_empty(comparison),
    )
}

/// The identity of a cycle.
pub open spec fn cycle_identity(
    previous: Option<Seq<char>>,
    state: Seq<char>,
    measurement: Seq<char>,
    comparison: Option<Seq<char>>,
) -> Seq<char> {
    "cycle-"@ + digest::sha256(cycle_preimage(previous, state, measurement, comparison))
}

/// The bytes that a promotion's identity is the digest of.
pub open spec fn promotion_preimage(
    cycle: Seq<char>,
    measurement: Seq<char>,
    previous: Option<Seq<char>>,
) -> Seq<u8> {
    encode_utf8("bperf-promotion-v1\0"@) + digest::framed_text(cycle) + digest::framed_text(
        measurement,
    ) + digest::framed_text(source_state::or_empty(previous))
}

/// The identity of a promotion.
pub open spec fn promotion_identity(
    cycle: Seq<char>,
    measurement: Seq<char>,
    previous: Option<Seq<char>>,
) -> Seq<char> {
    "promotion-"@ + digest::sha256(promotion_preimage(cycle, measurement, previous))
}

/// The characters of an optional text.
pub open spec fn str_opt(value: Option<&str>) -> Option<Seq<char>> {
    match value {
        Some(text) => Some(text@),
        None => None,
    }
}

/// The identity of a cycle.
pub fn cycle_id(
    previous: Option<&str>,
    state: &str,
    measurement: &str,
    comparison: Option<&str>,
) -> (r: String)
    ensures
        r@ == cycle_identity(str_opt(previous), state@, measurement@, str_opt(comparison)),
        digest::is_hash_id(r@, "cycle-"@),
{
    let mut buffer = source_state::domain("bperf-cycle-v1\0");
    digest::push_framed_text(&mut buffer, source_state::text_or_empty(previous));
    digest::push_framed_text(&mut buffer, state);
    digest::push_framed_text(&mut buffer, measurement);
    digest::push_framed_text(&mut buffer, source_state::text_or_empty(comparison));
    source_state::identity("cycle-", &buffer)
}

/// The identity of a promotion.
pub fn promotion_id(cycle: &str, measurement: &str, previous: Option<&str>) -> (r: String)
    ensures
        r@ == promotion_identity(cycle@, measurement@, str_opt(previous)),
        digest::is_hash_id(r@, "promotion-"@),
{
    let mut buffer = source_state::domain("bperf-promotion-v1\0");
    digest::push_framed_text(&mut buffer, cycle);
    digest::push_framed_text(&mut buffer, measurement);
    digest::push_framed_text(&mut buffer, source_state::text_or_empty(previous));
    source_state::identity("promotion-", &buffer)
}

/// The identity of a comparison that may be absent.
pub open spec fn comparison_id_of(comparison: Option<ComparisonSummary>) -> Option<Seq<char>> {
    match comparison {
        Some(comparison) => Some(comparison.comparison_id@),
        None => None,
    }
}

/// The baseline of a comparison that may be absent.
pub open spec fn baseline_of(comparison: Option<ComparisonSummary>) -> Option<Seq<char>> {
    match comparison {
        Some(comparison) => Some(comparison.baseline_measurement_set@),
        None => None,
    }
}

/// What a cycle came to: the verdict of its comparison, or that it was only measured.
pub open spec fn outcome_of(comparison: Option<ComparisonSummary>) -> Seq<char> {
    match comparison {
        Some(comparison) => comparison.verdict@,
        None => "measured"@,
    }
}

/// The new cycle is the last one over again: the same source, measurement, and comparison.
pub open spec fn repeats(last: CycleRecord, cycle: NewCycle) -> bool {
    &&& last.source_after@ == cycle.source_after.state_id@
    &&& last.candidate_measurement_set@ == cycle.candidate_measurement_set@
    &&& comparison_id_of(last.comparison) == comparison_id_of(cycle.comparison)
}

/// The new cycle is the last one of some events over again.
pub open spec fn repeats_last(events: Seq<LineageEvent>, cycle: NewCycle) -> bool {
    last_cycle(events) matches Some(last) && repeats(last, cycle)
}

/// The record of a new cycle that follows some events.
pub open spec fn records_cycle(
    record: CycleRecord,
    earlier: Seq<LineageEvent>,
    cycle: NewCycle,
    change: SourceChange,
    recorded_at_unix_ms: u64,
) -> bool {
    let last = last_cycle(earlier);
    &&& record.schema_version == SCHEMA_VERSION
    &&& record.cycle_id@ == cycle_identity(
        cycle_id_of(last),
        cycle.source_after.state_id@,
        cycle.candidate_measurement_set@,
        comparison_id_of(cycle.comparison),
    )
    &&& digest::is_hash_id(record.cycle_id@, "cycle-"@)
    &&& text::opt(record.previous_cycle_id) == cycle_id_of(last)
    &&& record.recorded_at_unix_ms == recorded_at_unix_ms
    &&& record.benchmark_id == cycle.benchmark_id
    &&& record.subject_id == cycle.subject_id
    &&& record.benchmark_sha256 == cycle.benchmark_sha256
    &&& record.message == cycle.message
    &&& text::opt(record.source_before) == source_after_of(last)
    &&& record.source_after == cycle.source_after.state_id
    &&& record.change_id == change.change_id
    &&& text::opt(record.baseline_measurement_set) == baseline_of(cycle.comparison)
    &&& record.candidate_measurement_set == cycle.candidate_measurement_set
    &&& record.candidate_measurement_path == cycle.candidate_measurement_path
    &&& record.environment_fingerprint == cycle.environment_fingerprint
    &&& record.outcome@ == outcome_of(cycle.comparison)
    &&& record.comparison == cycle.comparison
}

fn comparison_id(comparison: &Option<ComparisonSummary>) -> (r: Option<&str>)
    ensures
        str_opt(r) == comparison_id_of(*comparison),
{
    match comparison {
        Some(comparison) => Some(comparison.comparison_id.as_str()),
        None => None,
    }
}

fn same_str_opt(a: Option<&str>, b: Option<&str>) -> (r: bool)
    ensures
        r == (str_opt(a) == str_opt(b)),
{
    match (a, b) {
        (Some(x), Some(y)) => text::same(x, y),
        (None, None) => true,
        _ => false,
    }
}

/// Finds the last cycle of a history where the new cycle is that one over again.
pub fn repeated_cycle(events: &Vec<LineageEvent>, cycle: &NewCycle) -> (r: Option<usize>)
    ensures
        match r {
            Some(i) => i < events@.len() && (events@[i as int] matches LineageEvent::Cycle(last)
                && last_cycle(events@) == Some(*last) && repeats(*last, *cycle)),
            None => last_cycle(events@) matches Some(last) ==> !repeats(last, *cycle),
        },
{
    match last_cycle_index(events) {
        Some(i) => {
            if let LineageEvent::Cycle(last) = &events[i] {
                if text::same(&last.source_after, &cycle.source_after.state_id) && text::same(
                    &last.candidate_measurement_set,
                    &cycle.candidate_measurement_set,
                ) && same_str_opt(comparison_id(&last.comparison), comparison_id(&cycle.comparison))
                {
                    return Some(i);
                }
            }
            None
        },
        None => None,
    }
}

/// Appends a measured source state to a benchmark's history.
///
/// `previous_state` is the source state of the last cycle, where there is one. A cycle that
/// repeats the last one is not appended again: the history stays as it was, and the place of the
/// last cycle is given.
pub fn append_cycle(
    events: &mut Vec<LineageEvent>,
    cycle: NewCycle,
    previous_state: Option<&SourceState>,
    recorded_at_unix_ms: u64,
) -> (r: Result<AppendedCycle, AppendError>)
    requires
        source_state::state_id_of(source_state::deref_state(previous_state)) == source_after_of(
            last_cycle(old(events)@),
        ),
    ensures
        !text::is_identifier(cycle.benchmark_id@) ==> r == Err::<AppendedCycle, AppendError>(
            AppendError::InvalidBenchmark,
        ) && final(events)@ == old(events)@,
        text::is_identifier(cycle.benchmark_id@) ==> r is Ok,
        r matches Ok(appended) ==> if repeats_last(old(events)@, cycle) {
            &&& final(events)@ == old(events)@
            &&& appended.change is None
            &&& appended.index < old(events)@.len()
            &&& old(events)@[appended.index as int] == LineageEvent::Cycle(
                Box::new(last_cycle(old(events)@)->0),
            )
        } else {
            &&& appended.index == old(events)@.len()
            &&& final(events)@.len() == old(events)@.len() + 1
            &&& final(events)@.drop_last() == old(events)@
            &&& appended.change is Some
            &&& source_state::is_change(
                appended.change->0,
                source_state::deref_state(previous_state),
                cycle.source_after,
            )
            &&& (final(events)@.last() matches LineageEvent::Cycle(record) && records_cycle(
                *record,
                old(events)@,
                cycle,
                appended.change->0,
                recorded_at_unix_ms,
            ))
        },
{
    if !text::identifier(&cycle.benchmark_id) {
        return Err(AppendError::InvalidBenchmark);
    }
    if let Some(index) = repeated_cycle(events, &cycle) {
        return Ok(AppendedCycle { index, change: None });
    }
    let change = source_state::store_change(previous_state, &cycle.source_after);
    let index: usize = events.len();
    let previous_cycle_id: Option<String> = match last_cycle_index(events) {
        Some(i) => match &events[i] {
            LineageEvent::Cycle(last) => Some(last.cycle_id.clone()),
            _ => None,
        },
        None => None,
    };
    let previous_id: Option<&str> = match &previous_cycle_id {
        Some(id) => Some(id.as_str()),
        None => None,
    };
    let id = cycle_id(
        previous_id,
        &cycle.source_after.state_id,
        &cycle.candidate_measurement_set,
        comparison_id(&cycle.comparison),
    );
    let (baseline_measurement_set, outcome): (Option<String>, String) = match &cycle.comparison {
        Some(comparison) => (
            Some(comparison.baseline_measurement_set.clone()),
            comparison.verdict.clone(),
        ),
        None => (None, "measured".to_owned()),
    };
    let source_before: Option<String> = match previous_state {
        Some(state) => Some(state.state_id.clone()),
        None => None,
    };
    let record = CycleRecord {
        schema_version: SCHEMA_VERSION,
        cycle_id: id,
        previous_cycle_id,
        recorded_at_unix_ms,
        benchmark_id: cycle.benchmark_id,
        subject_id: cycle.subject_id,
        benchmark_sha256: cycle.benchmark_sha256,
        message: cycle.message,
        source_before,
        source_after: cycle.source_after.state_id,
        change_id: change.change_id.clone(),
        baseline_measurement_set,
        candidate_measurement_set: cycle.candidate_measurement_set,
        candidate_measurement_path: cycle.candidate_measurement_path,
        environment_fingerprint: cycle.environment_fingerprint,
        outcome,
        comparison: cycle.comparison,
    };
    events.push(LineageEvent::Cycle(Box::new(record)));
    assert(events@.drop_last() == old(events)@);
    Ok(AppendedCycle { index, change: Some(change) })
}

/// The promotion stands in the events at an index, and no earlier one has its identity.
pub open spec fn first_promotion(events: Seq<LineageEvent>, id: Seq<char>, index: int) -> bool {
    &&& 0 <= index < events.len()
    &&& (events[index] matches LineageEvent::Promotion(p) && p.promotion_id@ == id)
    &&& forall|j: int|
        0 <= j < index ==> !(#[trigger] events[j] matches LineageEvent::Promotion(p)
            && p.promotion_id@ == id)
}

/// Some promotion has this identity.
pub open spec fn has_promotion(events: Seq<LineageEvent>, id: Seq<char>) -> bool {
    exists|i: int|
        0 <= i < events.len() && (#[trigger] events[i] matches LineageEvent::Promotion(p)
            && p.promotion_id@ == id)
}

/// The record of a promotion.
pub open spec fn records_promotion(
    record: PromotionRecord,
    cycle: CycleRecord,
    baseline: BaselineRecord,
    recorded_at_unix_ms: u64,
) -> bool {
    &&& record.schema_version == SCHEMA_VERSION
    &&& record.promotion_id@ == promotion_identity(
        cycle.cycle_id@,
        baseline.measurement_set_id@,
        text::opt(baseline.previous_measurement_set_id),
    )
    &&& digest::is_hash_id(record.promotion_id@, "promotion-"@)
    &&& record.recorded_at_unix_ms == recorded_at_unix_ms
    &&& record.benchmark_id == cycle.benchmark_id
    &&& record.cycle_id == cycle.cycle_id
    &&& record.baseline_measurement_set == baseline.measurement_set_id
    &&& text::opt(record.previous_baseline_measurement_set) == text::opt(
        baseline.previous_measurement_set_id,
    )
}

/// Appends the acceptance of a cycle's measurement as a baseline, and gives its place.
///
/// An acceptance with the same identity is not appended again.
pub fn append_promotion(
    events: &mut Vec<LineageEvent>,
    cycle: &CycleRecord,
    baseline: &BaselineRecord,
    recorded_at_unix_ms: u64,
) -> (r: Result<usize, AppendError>)
    ensures
        baseline.measurement_set_id@ != cycle.candidate_measurement_set@ ==> r == Err::<
            usize,
            AppendError,
        >(AppendError::OtherMeasurement) && final(events)@ == old(events)@,
        baseline.measurement_set_id@ == cycle.candidate_measurement_set@ ==> r is Ok && ({
            let id = promotion_identity(
                cycle.cycle_id@,
                baseline.measurement_set_id@,
                text::opt(baseline.previous_measurement_set_id),
            );
            if has_promotion(old(events)@, id) {
                &&& final(events)@ == old(events)@
                &&& first_promotion(old(events)@, id, r->Ok_0 as int)
            } else {
                &&& r->Ok_0 == old(events)@.len()
                &&& final(events)@.len() == old(events)@.len() + 1
                &&& final(events)@.drop_last() == old(events)@
                &&& (final(events)@.last() matches LineageEvent::Promotion(record)
                    && records_promotion(record, *cycle, *baseline, recorded_at_unix_ms))
            }
        }),
{
    if !text::same(&baseline.measurement_set_id, &cycle.candidate_measurement_set) {
        return Err(AppendError::OtherMeasurement);
    }
    let previous: Option<&str> = match &baseline.previous_measurement_set_id {
        Some(id) => Some(id.as_str()),
        None => None,
    };
    let id = promotion_id(&cycle.cycle_id, &baseline.measurement_set_id, previous);
    let mut i: usize = 0;
    while i < events.len()
        invariant
            i <= events@.len(),
            events@ == old(events)@,
            baseline.measurement_set_id@ == cycle.candidate_measurement_set@,
            id@ == promotion_identity(
                cycle.cycle_id@,
                baseline.measurement_set_id@,
                text::opt(baseline.previous_measurement_set_id),
            ),
            forall|j: int|
                0 <= j < i ==> !(#[trigger] events@[j] matches LineageEvent::Promotion(p)
                    && p.promotion_id@ == id@),
        decreases events@.len() - i,
    {
        if let LineageEvent::Promotion(record) = &events[i] {
            if text::same(&record.promotion_id, &id) {
                return Ok(i);
            }
        }
        i += 1;
    }
    let index: usize = events.len();
    let previous_baseline_measurement_set: Option<String> =
        match &baseline.previous_measurement_set_id {
        Some(id) => Some(id.clone()),
        None => None,
    };
    events.push(
        LineageEvent::Promotion(
            PromotionRecord {
                schema_version: SCHEMA_VERSION,
                promotion_id: id,
                recorded_at_unix_ms,
                benchmark_id: cycle.benchmark_id.clone(),
                cycle_id: cycle.cycle_id.clone(),
                baseline_measurement_set: baseline.measurement_set_id.clone(),
                previous_baseline_measurement_set,
            },
        ),
    );
    assert(events@.drop_last() == old(events)@);
    Ok(index)
}

/// The confirmation stands in the events at an index, and no earlier one has its identity.
pub open spec fn first_confirmation(events: Seq<LineageEvent>, id: Seq<char>, index: int) -> bool {
    &&& 0 <= index < events.len()
    &&& (events[index] matches LineageEvent::Confirmation(c) && c.confirmation_id@ == id)
    &&& forall|j: int|
        0 <= j < index ==> !(#[trigger] events[j] matches LineageEvent::Confirmation(c)
            && c.confirmation_id@ == id)
}

/// The record of a confirmation.
pub open spec fn records_confirmation(
    record: ConfirmationRecord,
    cycle: CycleRecord,
    measurement_set: Seq<char>,
    measurement_path: Seq<char>,
    environment_fingerprint: Seq<char>,
    comparison: ComparisonSummary,
    recorded_at_unix_ms: u64,
) -> bool {
    &&& record.schema_version == SCHEMA_VERSION
    &&& record.confirmation_id@ == confirmation_identity(
        cycle.cycle_id@,
        measurement_set,
        comparison.comparison_id@,
    )
    &&& digest::is_hash_id(record.confirmation_id@, "confirmation-"@)
    &&& record.recorded_at_unix_ms == recorded_at_unix_ms
    &&& record.benchmark_id == cycle.benchmark_id
    &&& record.cycle_id == cycle.cycle_id
    &&& record.source_state == cycle.source_after
    &&& record.original_candidate_measurement_set == cycle.candidate_measurement_set
    &&& record.confirmation_measurement_set@ == measurement_set
    &&& record.confirmation_measurement_path@ == measurement_path
    &&& record.environment_fingerprint@ == environment_fingerprint
    &&& record.outcome == comparison.verdict
    &&& record.comparison == comparison
}

/// Appends an independent measurement of a cycle's source, and gives its place.
///
/// A confirmation with the same identity is not appended again.
pub fn append_confirmation(
    events: &mut Vec<LineageEvent>,
    cycle: &CycleRecord,
    measurement_set: &str,
    measurement_path: &str,
    environment_fingerprint: &str,
    comparison: ComparisonSummary,
    recorded_at_unix_ms: u64,
) -> (r: usize)
    ensures
        ({
            let id = confirmation_identity(
                cycle.cycle_id@,
                measurement_set@,
                comparison.comparison_id@,
            );
            if has_confirmation(old(events)@, id) {
                &&& final(events)@ == old(events)@
                &&& first_confirmation(old(events)@, id, r as int)
            } else {
                &&& r == old(events)@.len()
                &&& final(events)@.len() == old(events)@.len() + 1
                &&& final(events)@.drop_last() == old(events)@
                &&& (final(events)@.last() matches LineageEvent::Confirmation(record)
                    && records_confirmation(
                    *record,
                    *cycle,
                    measurement_set@,
                    measurement_path@,
                    environment_fingerprint@,
                    comparison,
                    recorded_at_unix_ms,
                ))
            }
        }),
{
    let id = confirmation_id(&cycle.cycle_id, measurement_set, &comparison.comparison_id);
    let mut i: usize = 0;
    while i < events.len()
        invariant
            i <= events@.len(),
            events@ == old(events)@,
            id@ == confirmation_identity(
                cycle.cycle_id@,
                measurement_set@,
                comparison.comparison_id@,
            ),
            forall|j: int|
                0 <= j < i ==> !(#[trigger] events@[j] matches LineageEvent::Confirmation(c)
                    && c.confirmation_id@ == id@),
        decreases events@.len() - i,
    {
        if let LineageEvent::Confirmation(record) = &events[i] {
            if text::same(&record.confirmation_id, &id) {
                return i;
            }
        }
        i += 1;
    }
    let index: usize = events.len();
    let outcome = comparison.verdict.clone();
    events.push(
        LineageEvent::Confirmation(
            Box::new(
                ConfirmationRecord {
                    schema_version: SCHEMA_VERSION,
                    confirmation_id: id,
                    recorded_at_unix_ms,
                    benchmark_id: cycle.benchmark_id.clone(),
                    cycle_id: cycle.cycle_id.clone(),
                    source_state: cycle.source_after.clone(),
                    original_candidate_measurement_set: cycle.candidate_measurement_set.clone(),
                    confirmation_measurement_set: measurement_set.to_owned(),
                    confirmation_measurement_path: measurement_path.to_owned(),
                    environment_fingerprint: environment_fingerprint.to_owned(),
                    outcome,
                    comparison,
                },
            ),
        ),
    );
    assert(events@.drop_last() == old(events)@);
    index
}

} // verus!
