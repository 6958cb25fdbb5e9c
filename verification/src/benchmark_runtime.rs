//! The execution of one trial: whether its results are right, and what is recorded of it.

use vstd::prelude::*;
use vstd::string::*;

use crate::browser_lab::{ArtifactEvidence, MetricValue};
use crate::json;
use crate::json::JsonValue;
use crate::json_laws;
use crate::json_laws::Meaning;
use crate::measurement;
use crate::measurement::{MeasurementSet, TrialResult};
use crate::paths;
use crate::paths::PathError;
use crate::schedule::{ScheduledTrial, MEASUREMENT_SCHEMA_VERSION};
use crate::text;

verus! {

/// The version of what an adapter says when it is ready.
pub const READINESS_PROTOCOL_VERSION: u32 = 2;

/// How much an adapter may say before it is ready.
pub const MAX_ADAPTER_READINESS_BYTES: usize = 1_048_576;

/// How much a verifier may say.
pub const MAX_VERIFIER_OUTPUT_BYTES: usize = 1_048_576;

// Verdicts.

/// What a verifier says of a trial's results.
#[derive(Clone, Debug)]
pub struct VerifierVerdict {
    pub success: bool,
    pub failure_category: Option<String>,
    pub detail: Option<String>,
}

/// An operation, counted from zero, that says nothing of what to expect.
#[derive(Clone, Copy, Debug, Eq, PartialEq, Structural)]
pub struct NoExpectedValue {
    pub operation: usize,
}

impl NoExpectedValue {
    /// Says which operation it is, counted from one.
    pub fn message(&self) -> (r: String)
        requires
            self.operation < u64::MAX,
        ensures
            r@ == "exact operation "@ + text::decimal((self.operation + 1) as nat)
                + " has no expected value"@,
    {
        let mut out = "exact operation ".to_owned();
        out.append(&text::decimal_text(self.operation as u64 + 1));
        out.append(" has no expected value");
        out
    }
}

/// What is first found wrong with some operations and their results.
pub enum ExactFinding {
    /// The operation says nothing of what to expect.
    NoExpected(int),
    /// The result is another than the operation expects.
    Unexpected(int),
}

/// What is first found wrong with the first `n` operations and their results, if anything is.
pub open spec fn exact_finding(
    operations: Seq<JsonValue>,
    results: Seq<JsonValue>,
    n: int,
) -> Option<ExactFinding>
    decreases n,
{
    if n <= 0 {
        None
    } else if exact_finding(operations, results, n - 1) is Some {
        exact_finding(operations, results, n - 1)
    } else {
        match json::field(operations[n - 1], "expected"@) {
            None => Some(ExactFinding::NoExpected(n - 1)),
            Some(expected) => if json::same_value(expected, results[n - 1]) {
                None
            } else {
                Some(ExactFinding::Unexpected(n - 1))
            },
        }
    }
}

/// What an operation is called: its case where it names one, else its number, counted from one.
pub open spec fn case_name(operation: JsonValue, index: int) -> Seq<char> {
    match json::field(operation, "case_id"@) {
        Some(JsonValue::Text(name)) => name@,
        _ => text::decimal((index + 1) as nat),
    }
}

/// The verdict is that results are wrong, for a reason.
pub open spec fn is_incorrect(verdict: VerifierVerdict, detail: Seq<char>) -> bool {
    &&& !verdict.success
    &&& text::opt(verdict.failure_category) == Some("incorrect_result"@)
    &&& text::opt(verdict.detail) == Some(detail)
}

/// The verdict is that results are right.
pub open spec fn is_correct(verdict: VerifierVerdict) -> bool {
    verdict.success && verdict.failure_category is None && verdict.detail is None
}

fn incorrect(detail: String) -> (r: VerifierVerdict)
    ensures
        is_incorrect(r, detail@),
{
    VerifierVerdict {
        success: false,
        failure_category: Some("incorrect_result".to_owned()),
        detail: Some(detail),
    }
}

proof fn lemma_exact_finding(
    operations: Seq<JsonValue>,
    results: Seq<JsonValue>,
    n: int,
    m: int,
)
    requires
        0 <= n <= m,
        exact_finding(operations, results, n) is Some,
    ensures
        exact_finding(operations, results, m) == exact_finding(operations, results, n),
    decreases m - n,
{
    if n < m {
        lemma_exact_finding(operations, results, n, m - 1);
    }
}

/// Compares the results of a trial with what its operations expect, in order.
pub fn verify_exact(operations: &Vec<JsonValue>, results: &Vec<JsonValue>) -> (r: Result<
    VerifierVerdict,
    NoExpectedValue,
>)
    ensures
        if operations@.len() != results@.len() {
            r is Ok && is_incorrect(r->Ok_0, "benchmark returned a different number of results"@)
        } else {
            match exact_finding(operations@, results@, operations@.len() as int) {
                Some(ExactFinding::NoExpected(i)) => r is Err && r->Err_0.operation == i,
                Some(ExactFinding::Unexpected(i)) => r is Ok && is_incorrect(
                    r->Ok_0,
                    "case "@ + case_name(operations@[i], i) + " returned an unexpected result"@,
                ),
                None => r is Ok && is_correct(r->Ok_0),
            }
        },
        all_proper(operations@) && all_proper(results@) ==> ((r is Ok && r->Ok_0.success)
            <==> as_expected(operations@, results@)),
{
    if operations.len() != results.len() {
        return Ok(incorrect("benchmark returned a different number of results".to_owned()));
    }
    let mut i: usize = 0;
    while i < operations.len()
        invariant
            i <= operations@.len(),
            operations@.len() == results@.len(),
            exact_finding(operations@, results@, i as int) is None,
        decreases operations@.len() - i,
    {
        proof {
            if exact_finding(operations@, results@, i + 1) is Some {
                lemma_exact_finding(operations@, results@, i + 1, operations@.len() as int);
            }
            if all_proper(operations@) && all_proper(results@) {
                only_expected_results_are_right(operations@, results@);
            }
        }
        match operations[i].get("expected") {
            None => {
                return Err(NoExpectedValue { operation: i });
            },
            Some(expected) => {
                if !json::equal(expected, &results[i]) {
                    let case = match operations[i].get("case_id") {
                        Some(JsonValue::Text(name)) => name.clone(),
                        _ => text::decimal_text(i as u64 + 1),
                    };
                    let mut detail = "case ".to_owned();
                    detail.append(&case);
                    detail.append(" returned an unexpected result");
                    return Ok(incorrect(detail));
                }
            },
        }
        i += 1;
    }
    proof {
        if all_proper(operations@) && all_proper(results@) {
            only_expected_results_are_right(operations@, results@);
        }
    }
    Ok(VerifierVerdict { success: true, failure_category: None, detail: None })
}

/// A trial is right exactly if it gave every result that its operations expect, and no others.
pub proof fn exact_verification_compares_every_result(
    operations: Seq<JsonValue>,
    results: Seq<JsonValue>,
)
    requires
        operations.len() == results.len(),
    ensures
        exact_finding(operations, results, operations.len() as int) is None <==> forall|i: int|
            0 <= i < operations.len() ==> agrees(#[trigger] operations[i], results[i]),
{
    lemma_all_agree(operations, results, operations.len() as int);
}

/// Every value is one that JSON can write.
pub open spec fn all_proper(values: Seq<JsonValue>) -> bool {
    forall|i: int| 0 <= i < values.len() ==> json_laws::proper(#[trigger] values[i])
}

/// The object says that the name stands for what the result says.
pub open spec fn promises(operation: JsonValue, name: Seq<char>, result: JsonValue) -> bool {
    json_laws::meaning(operation) matches Meaning::Names(names) && names.dom().contains(name)
        && names[name] == json_laws::meaning(result)
}

/// There is one result for each operation, and it says what the operation expects.
pub open spec fn as_expected(operations: Seq<JsonValue>, results: Seq<JsonValue>) -> bool {
    &&& operations.len() == results.len()
    &&& forall|i: int|
        0 <= i < operations.len() ==> promises(#[trigger] operations[i], "expected"@, results[i])
}

/// A trial is right exactly if each of its results says what its operation expects: one text that
/// differs by a character, or stands at another place, makes it wrong.
pub proof fn only_expected_results_are_right(operations: Seq<JsonValue>, results: Seq<JsonValue>)
    requires
        operations.len() == results.len(),
        all_proper(operations),
        all_proper(results),
    ensures
        exact_finding(operations, results, operations.len() as int) is None <==> as_expected(
            operations,
            results,
        ),
{
    exact_verification_compares_every_result(operations, results);
    assert forall|i: int| 0 <= i < operations.len() implies (agrees(
        #[trigger] operations[i],
        results[i],
    ) <==> promises(operations[i], "expected"@, results[i])) by {
        json_laws::a_member_is_found_by_its_name(operations[i], "expected"@);
        assert(json_laws::proper(results[i]));
        match json::field(operations[i], "expected"@) {
            Some(expected) => {
                json_laws::the_same_values_say_the_same(expected, results[i]);
            },
            None => {},
        }
    }
}

/// What is found wrong is the first thing that is: every operation before it has its result.
pub proof fn the_first_wrong_result_is_named(
    operations: Seq<JsonValue>,
    results: Seq<JsonValue>,
    n: int,
)
    requires
        all_proper(operations),
        all_proper(results),
        0 <= n <= operations.len(),
        operations.len() == results.len(),
        exact_finding(operations, results, n) is Some,
    ensures
        ({
            let i = match exact_finding(operations, results, n)->0 {
                ExactFinding::NoExpected(i) => i,
                ExactFinding::Unexpected(i) => i,
            };
            &&& 0 <= i < n
            &&& as_expected(operations.take(i), results.take(i))
            &&& !promises(operations[i], "expected"@, results[i])
            &&& exact_finding(operations, results, n)->0 is NoExpected <==> !(
            json_laws::meaning(operations[i]) matches Meaning::Names(names) && names.dom().contains(
                "expected"@,
            ))
        }),
    decreases n,
{
    if exact_finding(operations, results, n - 1) is Some {
        the_first_wrong_result_is_named(operations, results, n - 1);
    } else {
        let i = n - 1;
        lemma_all_agree(operations, results, i);
        assert forall|k: int| 0 <= k < operations.take(i).len() implies promises(
            #[trigger] operations.take(i)[k],
            "expected"@,
            results.take(i)[k],
        ) by {
            assert(agrees(operations[k], results[k]));
            json_laws::a_member_is_found_by_its_name(operations[k], "expected"@);
            assert(json_laws::proper(results[k]));
            json_laws::the_same_values_say_the_same(
                json::field(operations[k], "expected"@)->0,
                results[k],
            );
        }
        json_laws::a_member_is_found_by_its_name(operations[i], "expected"@);
        assert(json_laws::proper(results[i]));
        match json::field(operations[i], "expected"@) {
            Some(expected) => {
                json_laws::the_same_values_say_the_same(expected, results[i]);
            },
            None => {},
        }
    }
}

/// The result is the one that the operation expects.
pub open spec fn agrees(operation: JsonValue, result: JsonValue) -> bool {
    match json::field(operation, "expected"@) {
        Some(expected) => json::same_value(expected, result),
        None => false,
    }
}

proof fn lemma_all_agree(operations: Seq<JsonValue>, results: Seq<JsonValue>, n: int)
    requires
        operations.len() == results.len(),
        0 <= n <= operations.len(),
    ensures
        exact_finding(operations, results, n) is None <==> forall|i: int|
            0 <= i < n ==> agrees(#[trigger] operations[i], results[i]),
    decreases n,
{
    if n > 0 {
        lemma_all_agree(operations, results, n - 1);
        assert(agrees(operations[n - 1], results[n - 1]) || !agrees(
            operations[n - 1],
            results[n - 1],
        ));
    }
}

/// Why a verdict contradicts itself.
#[derive(Clone, Copy, Debug, Eq, PartialEq, Structural)]
pub enum VerdictError {
    NoCategory,
    UnexpectedCategory,
    UnexpectedDetail,
}

/// Why a verdict contradicts itself, if it does.
pub open spec fn verdict_failure(verdict: VerifierVerdict) -> Option<VerdictError> {
    if !verdict.success && verdict.failure_category is None {
        Some(VerdictError::NoCategory)
    } else if verdict.success && verdict.failure_category is Some {
        Some(VerdictError::UnexpectedCategory)
    } else if verdict.success && verdict.detail is Some {
        Some(VerdictError::UnexpectedDetail)
    } else {
        None
    }
}

/// Checks that a verdict of a verifier's process does not contradict itself.
pub fn check_verdict(verdict: &VerifierVerdict) -> (r: Result<(), VerdictError>)
    ensures
        match verdict_failure(*verdict) {
            Some(error) => r == Err::<(), VerdictError>(error),
            None => r == Ok::<(), VerdictError>(()),
        },
{
    if !verdict.success && verdict.failure_category.is_none() {
        return Err(VerdictError::NoCategory);
    }
    if verdict.success && verdict.failure_category.is_some() {
        return Err(VerdictError::UnexpectedCategory);
    }
    if verdict.success && verdict.detail.is_some() {
        return Err(VerdictError::UnexpectedDetail);
    }
    Ok(())
}

/// What is said of a verdict that contradicts itself.
pub open spec fn verdict_error_text(error: VerdictError) -> Seq<char> {
    match error {
        VerdictError::NoCategory => "failed verifier verdict has no failure_category"@,
        VerdictError::UnexpectedCategory => "successful verifier verdict has a failure_category"@,
        VerdictError::UnexpectedDetail => "successful verifier verdict has failure detail"@,
    }
}

impl VerdictError {
    /// What is said of the error.
    pub fn message(&self) -> (r: &'static str)
        ensures
            r@ == verdict_error_text(*self),
    {
        match self {
            VerdictError::NoCategory => "failed verifier verdict has no failure_category",
            VerdictError::UnexpectedCategory => "successful verifier verdict has a failure_category",
            VerdictError::UnexpectedDetail => "successful verifier verdict has failure detail",
        }
    }
}

/// What is said of a verifier that failed: how it ended, and what it complained of.
pub open spec fn exit_text(status: Seq<char>, complaint: Seq<char>) -> Seq<char> {
    if complaint.len() == 0 {
        "workload verifier exited with "@ + status
    } else {
        "workload verifier exited with "@ + status + ": "@ + complaint
    }
}

/// Says how a verifier that failed ended, and what it complained of.
pub fn verifier_exit(status: &str, complaint: &str) -> (r: String)
    ensures
        r@ == exit_text(status@, complaint@),
{
    let mut out = "workload verifier exited with ".to_owned();
    out.append(status);
    if !complaint.is_empty() {
        out.append(": ");
        out.append(complaint);
    }
    out
}

/// What is done next about a verifier that was started.
#[derive(Clone, Copy, Debug, Eq, PartialEq, Structural)]
pub enum VerifierStep {
    /// Its output is collected.
    Collect,
    /// It is asked again after the pause.
    Wait,
    /// It is stopped, and its verdict is given up.
    Stop,
}

/// How long a verifier is left alone before it is asked again, in milliseconds.
pub const VERIFIER_PAUSE_MS: u64 = 10;

/// What is done next about a verifier: one that ended is heard, even if its time was up by then, and
/// one that did not is stopped once its time is up.
pub fn verifier_step(exited: bool, deadline_passed: bool) -> (r: VerifierStep)
    ensures
        r == if exited {
            VerifierStep::Collect
        } else if deadline_passed {
            VerifierStep::Stop
        } else {
            VerifierStep::Wait
        },
{
    if exited {
        VerifierStep::Collect
    } else if deadline_passed {
        VerifierStep::Stop
    } else {
        VerifierStep::Wait
    }
}

/// How a process ended, where it did, with what it wrote to its error output.
#[derive(Clone, Debug)]
pub struct VerifierExit {
    pub success: bool,
    pub status: String,
    pub complaint: String,
}

/// Why no verdict comes from a verifier that ended.
#[derive(Clone, Debug)]
pub enum VerifierFailure {
    /// It failed, and this is said of it.
    Exit(String),
    /// What it wrote is no verdict.
    Unreadable,
    /// Its verdict contradicts itself.
    Verdict(VerdictError),
}

impl VerifierFailure {
    /// What is said of the failure.
    pub fn message(&self) -> (r: String)
        ensures
            r@ == match *self {
                VerifierFailure::Exit(message) => message@,
                VerifierFailure::Unreadable => "workload verifier emitted invalid JSON"@,
                VerifierFailure::Verdict(error) => verdict_error_text(error),
            },
    {
        match self {
            VerifierFailure::Exit(message) => message.clone(),
            VerifierFailure::Unreadable => "workload verifier emitted invalid JSON".to_owned(),
            VerifierFailure::Verdict(error) => error.message().to_owned(),
        }
    }
}

/// The verdict of a verifier that ended, given what was decoded of its output: nothing where it is
/// no verdict.
pub fn settle_verdict(exit: &VerifierExit, decoded: Option<VerifierVerdict>) -> (r: Result<
    VerifierVerdict,
    VerifierFailure,
>)
    ensures
        if !exit.success {
            r matches Err(VerifierFailure::Exit(message)) && message@ == exit_text(
                exit.status@,
                exit.complaint@,
            )
        } else {
            match decoded {
                None => r matches Err(VerifierFailure::Unreadable),
                Some(verdict) => match verdict_failure(verdict) {
                    Some(error) => r == Err::<VerifierVerdict, VerifierFailure>(
                        VerifierFailure::Verdict(error),
                    ),
                    None => r == Ok::<VerifierVerdict, VerifierFailure>(verdict),
                },
            }
        },
{
    if !exit.success {
        return Err(VerifierFailure::Exit(verifier_exit(&exit.status, &exit.complaint)));
    }
    match decoded {
        None => Err(VerifierFailure::Unreadable),
        Some(verdict) => match check_verdict(&verdict) {
            Err(error) => Err(VerifierFailure::Verdict(error)),
            Ok(_) => Ok(verdict),
        },
    }
}

// Limits.

/// A verifier said more than it may.
#[derive(Clone, Copy, Debug, Eq, PartialEq, Structural)]
pub struct OutputTooLong;

/// Checks how much a verifier said, of which one byte more than it may was read at most.
pub fn check_output(read: usize) -> (r: Result<(), OutputTooLong>)
    ensures
        r == if read > MAX_VERIFIER_OUTPUT_BYTES {
            Err::<(), OutputTooLong>(OutputTooLong)
        } else {
            Ok::<(), OutputTooLong>(())
        },
{
    if read > MAX_VERIFIER_OUTPUT_BYTES {
        return Err(OutputTooLong);
    }
    Ok(())
}

impl OutputTooLong {
    /// Says which stream it was.
    pub fn message(&self, stream: &str) -> (r: String)
        ensures
            r@ == "verifier "@ + stream@ + " exceeded "@ + text::decimal(
                MAX_VERIFIER_OUTPUT_BYTES as nat,
            ) + " bytes"@,
    {
        let mut out = "verifier ".to_owned();
        out.append(stream);
        out.append(" exceeded ");
        out.append(&text::decimal_text(MAX_VERIFIER_OUTPUT_BYTES as u64));
        out.append(" bytes");
        out
    }
}

// Readiness.

/// What an adapter says when it is ready.
#[derive(Clone, Debug)]
pub struct AdapterReady {
    pub protocol_version: u32,
    pub url: String,
    pub source_files: Vec<String>,
}

/// Why an adapter is not ready.
#[derive(Clone, Copy, Debug, Eq, PartialEq, Structural)]
pub enum ReadinessError {
    /// It said nothing.
    Closed,
    /// It said more than it may.
    TooLong,
    Protocol(u32),
    EmptyUrl,
}

/// Checks the line that an adapter said, of which one byte more than it may was read at most.
pub fn check_readiness_line(read: usize) -> (r: Result<(), ReadinessError>)
    ensures
        r == if read > MAX_ADAPTER_READINESS_BYTES {
            Err::<(), ReadinessError>(ReadinessError::TooLong)
        } else if read == 0 {
            Err::<(), ReadinessError>(ReadinessError::Closed)
        } else {
            Ok::<(), ReadinessError>(())
        },
{
    if read > MAX_ADAPTER_READINESS_BYTES {
        return Err(ReadinessError::TooLong);
    }
    if read == 0 {
        return Err(ReadinessError::Closed);
    }
    Ok(())
}

/// Why what an adapter said is refused, if it is.
pub open spec fn readiness_failure(ready: AdapterReady) -> Option<ReadinessError> {
    if ready.protocol_version != READINESS_PROTOCOL_VERSION {
        Some(ReadinessError::Protocol(ready.protocol_version))
    } else if text::blank(ready.url@) {
        Some(ReadinessError::EmptyUrl)
    } else {
        None
    }
}

/// Checks what an adapter said: in the right protocol, and with an address.
pub fn check_readiness(ready: &AdapterReady) -> (r: Result<(), ReadinessError>)
    ensures
        match readiness_failure(*ready) {
            Some(error) => r == Err::<(), ReadinessError>(error),
            None => r == Ok::<(), ReadinessError>(()),
        },
{
    if ready.protocol_version != READINESS_PROTOCOL_VERSION {
        return Err(ReadinessError::Protocol(ready.protocol_version));
    }
    proof {
        text::lemma_trimmed_blank(ready.url@);
    }
    if text::trim(&ready.url).as_str().is_empty() {
        return Err(ReadinessError::EmptyUrl);
    }
    Ok(())
}

impl ReadinessError {
    /// What is said of the error; of an adapter that said nothing, with how it ended.
    pub fn message(&self, status: &str) -> (r: String)
        ensures
            r@ == match *self {
                ReadinessError::Closed => "variant adapter closed before readiness (status: "@
                    + status@ + ")"@,
                ReadinessError::TooLong => "variant adapter readiness exceeded "@ + text::decimal(
                    MAX_ADAPTER_READINESS_BYTES as nat,
                ) + " bytes"@,
                ReadinessError::Protocol(received) =>
                    "variant readiness protocol mismatch: expected "@ + text::decimal(
                    READINESS_PROTOCOL_VERSION as nat,
                ) + ", received "@ + text::decimal(received as nat),
                ReadinessError::EmptyUrl => "variant adapter readiness URL is empty"@,
            },
    {
        match self {
            ReadinessError::Closed => {
                let mut out = "variant adapter closed before readiness (status: ".to_owned();
                out.append(status);
                out.append(")");
                out
            },
            ReadinessError::TooLong => {
                let mut out = "variant adapter readiness exceeded ".to_owned();
                out.append(&text::decimal_text(MAX_ADAPTER_READINESS_BYTES as u64));
                out.append(" bytes");
                out
            },
            ReadinessError::Protocol(received) => {
                let mut out = "variant readiness protocol mismatch: expected ".to_owned();
                out.append(&text::decimal_text(READINESS_PROTOCOL_VERSION as u64));
                out.append(", received ");
                out.append(&text::decimal_text(*received as u64));
                out
            },
            ReadinessError::EmptyUrl => "variant adapter readiness URL is empty".to_owned(),
        }
    }
}

// Workloads.

/// A workload without operations.
#[derive(Clone, Copy, Debug, Eq, PartialEq, Structural)]
pub enum WorkloadError {
    /// A line, counted from one, is not an operation.
    InvalidLine(usize),
    NoOperations,
}

/// A line of a workload: its number, counted from one, whether it is blank, and whether it could be
/// read.
#[derive(Clone, Copy, Debug, Eq, PartialEq, Structural)]
pub struct WorkloadLine {
    pub number: usize,
    pub blank: bool,
    pub read: bool,
}

/// Why the first `n` lines of a workload are refused, if they are.
pub open spec fn lines_failure(lines: Seq<WorkloadLine>, n: int) -> Option<WorkloadError>
    decreases n,
{
    if n <= 0 {
        None
    } else if lines_failure(lines, n - 1) is Some {
        lines_failure(lines, n - 1)
    } else if !lines[n - 1].blank && !lines[n - 1].read {
        Some(WorkloadError::InvalidLine(lines[n - 1].number))
    } else {
        None
    }
}

/// Why a workload is refused, if it is.
pub open spec fn workload_failure(lines: Seq<WorkloadLine>) -> Option<WorkloadError> {
    if lines_failure(lines, lines.len() as int) is Some {
        lines_failure(lines, lines.len() as int)
    } else if forall|i: int| 0 <= i < lines.len() ==> (#[trigger] lines[i]).blank {
        Some(WorkloadError::NoOperations)
    } else {
        None
    }
}

proof fn lemma_lines_failure(lines: Seq<WorkloadLine>, n: int, m: int)
    requires
        0 <= n <= m,
        lines_failure(lines, n) is Some,
    ensures
        lines_failure(lines, m) == lines_failure(lines, n),
    decreases m - n,
{
    if n < m {
        lemma_lines_failure(lines, n, m - 1);
    }
}

/// Checks the lines of a workload: those that are not blank are operations, and there are some.
pub fn check_workload(lines: &Vec<WorkloadLine>) -> (r: Result<(), WorkloadError>)
    ensures
        match workload_failure(lines@) {
            Some(error) => r == Err::<(), WorkloadError>(error),
            None => r == Ok::<(), WorkloadError>(()),
        },
{
    let mut some = false;
    let mut i: usize = 0;
    while i < lines.len()
        invariant
            i <= lines@.len(),
            lines_failure(lines@, i as int) is None,
            some == exists|j: int| 0 <= j < i && !(#[trigger] lines@[j]).blank,
        decreases lines@.len() - i,
    {
        if !lines[i].blank {
            if !lines[i].read {
                proof {
                    lemma_lines_failure(lines@, i + 1, lines@.len() as int);
                }
                return Err(WorkloadError::InvalidLine(lines[i].number));
            }
            some = true;
            assert(!lines@[i as int].blank);
        }
        i += 1;
    }
    if !some {
        return Err(WorkloadError::NoOperations);
    }
    Ok(())
}

// Results.

/// The directory of an attempt's artifacts.
pub open spec fn attempt_path(root: Seq<char>, trial_id: Seq<char>, attempt: nat) -> Seq<char> {
    paths::joined(
        paths::joined(paths::joined(root, "artifacts"@), trial_id),
        "attempt-"@ + text::padded(attempt, 4),
    )
}

/// The directory of an attempt's artifacts.
pub fn attempt_directory(root: &str, trial_id: &str, attempt: u32) -> (r: String)
    ensures
        r@ == attempt_path(root@, trial_id@, attempt as nat),
{
    let mut name = "attempt-".to_owned();
    name.append(&text::padded_text(attempt as u64, 4));
    paths::join(&paths::join(&paths::join(root, "artifacts"), trial_id), &name)
}

/// How the path of an artifact is stored: relative to the measurement set, with slashes.
pub open spec fn stored_path(root: Seq<char>, full: Seq<char>) -> Result<Seq<char>, PathError> {
    match paths::portable_below(root, full) {
        Ok(relative) => Ok(text::replaced(relative, '\\', '/')),
        Err(error) => Err(error),
    }
}

/// How the path of an artifact is stored, given both paths without links.
pub fn measurement_relative(root: &str, full: &str) -> (r: Result<String, PathError>)
    ensures
        match stored_path(root@, full@) {
            Ok(path) => r is Ok && r->Ok_0@ == path,
            Err(error) => r == Err::<String, PathError>(error),
        },
{
    match paths::relative_path(root, full) {
        Ok(relative) => Ok(text::replace(&relative, '\\', '/')),
        Err(error) => Err(error),
    }
}

/// The result is that of an attempt that measured something.
pub open spec fn is_measured_result(
    result: TrialResult,
    set: MeasurementSet,
    trial: ScheduledTrial,
    attempt: u32,
    environment: Seq<char>,
    verdict: VerifierVerdict,
) -> bool {
    &&& result.schema_version == MEASUREMENT_SCHEMA_VERSION
    &&& result.measurement_set_id@ == set.schedule.measurement_set_id@
    &&& result.trial_id@ == trial.trial_id@
    &&& result.attempt == attempt
    &&& measurement::is_result_of(trial, result)
    &&& result.environment_fingerprint@ == environment
    &&& result.valid
    &&& result.success == verdict.success
    &&& result.failure_category == verdict.failure_category
    &&& result.failure_detail == verdict.detail
    &&& result.invalidation_reason is None
}

/// The result of an attempt that measured something.
pub fn measured_result(
    set: &MeasurementSet,
    trial: &ScheduledTrial,
    attempt: u32,
    environment_fingerprint: &str,
    verdict: VerifierVerdict,
    metrics: Vec<MetricValue>,
    artifacts: Vec<ArtifactEvidence>,
) -> (r: TrialResult)
    ensures
        is_measured_result(r, *set, *trial, attempt, environment_fingerprint@, verdict),
        r.metrics == metrics,
        r.artifacts == artifacts,
{
    TrialResult {
        schema_version: MEASUREMENT_SCHEMA_VERSION,
        measurement_set_id: set.measurement_set_id().to_owned(),
        trial_id: trial.trial_id.clone(),
        attempt,
        workload_id: trial.workload_id.clone(),
        engine: trial.engine,
        phase: trial.phase,
        sample_index: trial.sample_index,
        environment_fingerprint: environment_fingerprint.to_owned(),
        valid: true,
        success: verdict.success,
        failure_category: verdict.failure_category,
        failure_detail: verdict.detail,
        invalidation_reason: None,
        metrics,
        artifacts,
    }
}

/// A verdict that does not contradict itself never makes a result that does: where its category is
/// not blank, only the environment, the metrics, and the artifacts can still be refused.
pub proof fn an_accepted_verdict_makes_a_consistent_result(
    result: TrialResult,
    set: MeasurementSet,
    trial: ScheduledTrial,
    attempt: u32,
    environment: Seq<char>,
    verdict: VerifierVerdict,
    policy: Seq<crate::manifest::MetricPolicy>,
)
    requires
        is_measured_result(result, set, trial, attempt, environment, verdict),
        verdict_failure(verdict) is None,
        verdict.failure_category is Some ==> !text::blank(verdict.failure_category->0@),
        !text::blank(environment),
        measurement::metrics_failure(result.metrics@, result.metrics@.len() as int) is None,
        verdict.success ==> measurement::primary_failure(
            result.metrics@,
            policy,
            policy.len() as int,
        ) is None,
    ensures
        measurement::result_failure(result, policy) is None,
{
}

} // verus!
