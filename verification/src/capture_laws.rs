//! What holds of every capture that is accepted.

use vstd::prelude::*;
use vstd::string::*;

use crate::browser_lab;
use crate::browser_lab::{
    ArtifactEvidence, ArtifactFile, ArtifactKind, BrowserEvidence, CaptureEvidence, Engine,
    MetricValue, RuntimeEvidence, TrialBatchConfig, TrialEvidence,
};
use crate::digest;
use crate::number;
use crate::number::Number;
use crate::paths;
use crate::text;

verus! {

// Numbers.

/// A number is finite and above zero exactly if it has no sign, some bits, and not all exponent bits.
pub proof fn positive_numbers_by_their_bits(value: Number)
    ensures
        number::finite_positive(value) <==> 0 < value.bits < 0x7ff0_0000_0000_0000,
        number::finite_non_negative(value) <==> value.bits < 0x7ff0_0000_0000_0000 || value.bits
            == 0x8000_0000_0000_0000,
{
}

/// Among numbers from zero on, the one with the smaller bits is the smaller one; a number below zero
/// is smaller than those; and both zeros are equal. What is not a number is neither smaller, larger,
/// nor equal.
pub proof fn numbers_are_ordered_by_their_bits(a: Number, b: Number)
    ensures
        a.bits <= 0x7ff0_0000_0000_0000 && b.bits <= 0x7ff0_0000_0000_0000 ==> {
            &&& a.at_most(b) <==> a.bits <= b.bits
            &&& a.less(b) <==> a.bits < b.bits
            &&& a.equals(b) <==> a.bits == b.bits
        },
        0x8000_0000_0000_0000 < a.bits <= 0xfff0_0000_0000_0000 && b.bits <= 0x7ff0_0000_0000_0000
            ==> a.less(b) && a.at_most(b) && !b.at_most(a),
        0x8000_0000_0000_0000 <= a.bits <= 0xfff0_0000_0000_0000 && 0x8000_0000_0000_0000 <= b.bits
            <= 0xfff0_0000_0000_0000 ==> (a.at_most(b) <==> a.bits >= b.bits),
        a.bits == 0 && b.bits == 0x8000_0000_0000_0000 ==> a.equals(b) && b.equals(a),
        0x7ff0_0000_0000_0000 < a.bits < 0x8000_0000_0000_0000 || a.bits > 0xfff0_0000_0000_0000
            ==> !a.at_most(b) && !b.at_most(a) && !a.less(b) && !b.less(a) && !a.equals(b),
        a.equals(b) <==> a.at_most(b) && b.at_most(a),
        a.less(b) <==> a.at_most(b) && !b.at_most(a),
{
}

/// Putting numbers in order changes nothing but their places, and none is followed by a smaller one.
pub proof fn arranged_numbers_are_in_order(values: Seq<Number>)
    ensures
        number::arranged(values).to_multiset() == values.to_multiset(),
        forall|i: int, j: int|
            0 <= i < j < number::arranged(values).len() ==> !(#[trigger] number::arranged(
                values,
            )[j]).less(#[trigger] number::arranged(values)[i]),
{
    let order = number::in_order();
    number::lemma_in_order();
    values.lemma_sort_by_ensures(order);
    assert forall|i: int, j: int|
        0 <= i < j < number::arranged(values).len() implies !(#[trigger] number::arranged(
        values,
    )[j]).less(#[trigger] number::arranged(values)[i]) by {
        let all = number::arranged(values);
        assert(order(all[i], all[j]));
    }
}

// Identities and digests.

/// A digest is 64 digits to the base sixteen, in either case.
pub proof fn a_digest_has_sixty_four_digits(s: Seq<char>)
    ensures
        digest::is_digest(s) <==> s.len() == 64 && forall|i: int|
            0 <= i < s.len() ==> {
                ||| '0' <= (#[trigger] s[i]) <= '9'
                ||| 'a' <= s[i] <= 'f'
                ||| 'A' <= s[i] <= 'F'
            },
        forall|prefix: Seq<char>| #[trigger]
            digest::is_hash_id(prefix + s, prefix) <==> digest::is_digest(s),
        forall|prefix: Seq<char>| #[trigger]
            digest::is_hash_id(s, prefix) ==> s.len() == prefix.len() + 64 && s.take(
                prefix.len() as int,
            ) == prefix,
{
    assert forall|prefix: Seq<char>| #[trigger]
        digest::is_hash_id(prefix + s, prefix) <==> digest::is_digest(s) by {
        assert((prefix + s).skip(prefix.len() as int) == s);
    }
    assert forall|prefix: Seq<char>| #[trigger] digest::is_hash_id(s, prefix) implies s.len()
        == prefix.len() + 64 && s.take(prefix.len() as int) == prefix by {
        assert(s.take(prefix.len() as int) == prefix);
    }
}

/// The runtime that ran says what it is, in every respect.
pub open spec fn identified(runtime: RuntimeEvidence, browser: BrowserEvidence) -> bool {
    &&& runtime.node@.len() > 0 && runtime.playwright@.len() > 0 && runtime.platform@.len() > 0
    &&& runtime.arch@.len() > 0 && runtime.os_release@.len() > 0 && runtime.cpu_model@.len() > 0
    &&& runtime.logical_cpus >= 1 && runtime.total_memory_bytes >= 1
    &&& browser.root_pid >= 1
    &&& browser.executable_path@.len() > 0 && browser.version@.len() > 0
}

/// The artifact at the place is described, and the file that was found for it is the one described.
pub open spec fn is_intact(artifact: ArtifactEvidence, file: ArtifactFile) -> bool {
    &&& (exists|i: int| 0 <= i < artifact.path@.len() && !text::is_white(#[trigger] artifact.path@[i]))
    &&& forall|i: int|
        0 <= i < paths::parts(artifact.path@).len() ==> (#[trigger] paths::parts(
            artifact.path@,
        )[i]) is Name
    &&& (exists|i: int|
        0 <= i < artifact.format@.len() && !text::is_white(#[trigger] artifact.format@[i]))
    &&& artifact.size_bytes > 0
    &&& digest::is_digest(artifact.sha256@)
    &&& file.exists && file.contained
    &&& file.size_bytes == artifact.size_bytes
    &&& file.sha256@ == artifact.sha256@
}

/// There is a CPU profile, a heap snapshot, and a flamegraph, one of each and nothing else, and each
/// is intact.
pub open spec fn is_complete(artifacts: Seq<ArtifactEvidence>, files: Seq<ArtifactFile>) -> bool {
    &&& artifacts.len() == 3
    &&& exists|i: int| 0 <= i < 3 && (#[trigger] artifacts[i]).kind == ArtifactKind::CpuProfile
    &&& exists|i: int| 0 <= i < 3 && (#[trigger] artifacts[i]).kind == ArtifactKind::JsHeap
    &&& exists|i: int| 0 <= i < 3 && (#[trigger] artifacts[i]).kind == ArtifactKind::Flamegraph
    &&& forall|i: int| 0 <= i < artifacts.len() ==> is_intact(#[trigger] artifacts[i], files[i])
}

proof fn lemma_descriptors(artifacts: Seq<ArtifactEvidence>, n: int)
    requires
        0 <= n <= artifacts.len(),
    ensures
        browser_lab::descriptors_failure(artifacts, n) is None <==> forall|i: int|
            0 <= i < n ==> browser_lab::contained((#[trigger] artifacts[i]).path@)
                && browser_lab::described(artifacts[i]),
    decreases n,
{
    if n > 0 {
        lemma_descriptors(artifacts, n - 1);
    }
}

proof fn lemma_files(artifacts: Seq<ArtifactEvidence>, files: Seq<ArtifactFile>, n: int)
    requires
        0 <= n <= artifacts.len(),
    ensures
        browser_lab::files_failure(artifacts, files, n) is None <==> forall|i: int|
            0 <= i < n ==> files[i].exists && files[i].contained && files[i].size_bytes > 0
                && files[i].size_bytes == (#[trigger] artifacts[i]).size_bytes && files[i].sha256@
                == artifacts[i].sha256@,
    decreases n,
{
    if n > 0 {
        lemma_files(artifacts, files, n - 1);
    }
}

/// Artifacts are accepted exactly if they are complete and intact: a missing kind, a kind twice, a
/// path that leads elsewhere, a file that is gone, or one of another size or digest is refused.
pub proof fn only_complete_artifacts_are_accepted(
    artifacts: Seq<ArtifactEvidence>,
    files: Seq<ArtifactFile>,
)
    requires
        files.len() == artifacts.len(),
    ensures
        browser_lab::artifacts_failure(artifacts, files) is None <==> is_complete(artifacts, files),
{
    lemma_descriptors(artifacts, artifacts.len() as int);
    lemma_files(artifacts, files, artifacts.len() as int);
    assert forall|i: int| 0 <= i < artifacts.len() implies (is_intact(
        #[trigger] artifacts[i],
        files[i],
    ) <==> browser_lab::contained(artifacts[i].path@) && browser_lab::described(artifacts[i])
        && files[i].exists && files[i].contained && files[i].size_bytes > 0 && files[i].size_bytes
        == artifacts[i].size_bytes && files[i].sha256@ == artifacts[i].sha256@) by {}
}

/// A capture is accepted exactly if it is of the engine that was asked for, says what ran, measured
/// the anchor as often as it has to, has every capability, and left complete artifacts. No engine and
/// no artifact is dropped in silence.
pub proof fn only_a_whole_capture_is_accepted(
    expected: Engine,
    evidence: CaptureEvidence,
    files: Seq<ArtifactFile>,
)
    requires
        files.len() == evidence.artifacts@.len(),
    ensures
        browser_lab::capture_failure(expected, evidence, files) is None <==> {
            &&& evidence.engine == expected
            &&& identified(evidence.runtime, evidence.browser)
            &&& evidence.anchor.workload@ == "javascript_cpu_v1"@
            &&& evidence.anchor.wall_ms@.len() == 31
            &&& forall|i: int|
                0 <= i < 31 ==> 0 < (#[trigger] evidence.anchor.wall_ms@[i]).bits
                    < 0x7ff0_0000_0000_0000
            &&& 1 <= evidence.anchor.batch_size <= 64
            &&& evidence.capabilities.isolated_launch && evidence.capabilities.process_root
            &&& evidence.capabilities.cpu_profile && evidence.capabilities.js_heap
            &&& evidence.capabilities.flamegraph
            &&& is_complete(evidence.artifacts@, files)
        },
{
    only_complete_artifacts_are_accepted(evidence.artifacts@, files);
    assert forall|i: int| 0 <= i < evidence.anchor.wall_ms@.len() implies (number::finite_positive(
        #[trigger] evidence.anchor.wall_ms@[i],
    ) <==> 0 < evidence.anchor.wall_ms@[i].bits < 0x7ff0_0000_0000_0000) by {}
}

// Metrics.

/// The value of a metric is the one that was given last under its name.
pub proof fn the_last_value_of_a_metric_counts(metrics: Seq<MetricValue>, name: Seq<char>)
    ensures
        match browser_lab::metric(metrics, name) {
            Some(value) => exists|i: int|
                0 <= i < metrics.len() && (#[trigger] metrics[i]).name@ == name && metrics[i].value
                    == value && forall|j: int|
                    i < j < metrics.len() ==> (#[trigger] metrics[j]).name@ != name,
            None => forall|i: int|
                0 <= i < metrics.len() ==> (#[trigger] metrics[i]).name@ != name,
        },
    decreases metrics.len(),
{
    if metrics.len() > 0 {
        if metrics.last().name@ == name {
            assert(metrics[metrics.len() - 1].name@ == name);
        } else {
            let rest = metrics.drop_last();
            the_last_value_of_a_metric_counts(rest, name);
            match browser_lab::metric(metrics, name) {
                Some(value) => {
                    let i = choose|i: int|
                        0 <= i < rest.len() && (#[trigger] rest[i]).name@ == name && rest[i].value
                            == value && forall|j: int|
                            i < j < rest.len() ==> (#[trigger] rest[j]).name@ != name;
                    assert(metrics[i].name@ == name);
                    assert forall|j: int| i < j < metrics.len() implies (
                    #[trigger] metrics[j]).name@ != name by {
                        if j < rest.len() {
                            assert(rest[j] == metrics[j]);
                        }
                    }
                },
                None => {
                    assert forall|j: int| 0 <= j < metrics.len() implies (
                    #[trigger] metrics[j]).name@ != name by {
                        if j < rest.len() {
                            assert(rest[j] == metrics[j]);
                        }
                    }
                },
            }
        }
    }
}

/// The metric was measured: it is there, finite, and above zero.
pub open spec fn measured(metrics: Seq<MetricValue>, name: Seq<char>) -> bool {
    browser_lab::metric(metrics, name) matches Some(value) && 0 < value.bits
        < 0x7ff0_0000_0000_0000
}

/// The name is one of the six metrics that every trial has.
pub open spec fn is_one_of_six(name: Seq<char>) -> bool {
    ||| name == "workload.wall_ms"@
    ||| name == "variant.call_wall_ms"@
    ||| name == "browser.cpu_profile.active_ms"@
    ||| name == "browser.js_heap.live_bytes"@
    ||| name == "bperf.capture.elapsed_ms"@
    ||| name == "bperf.batch_size"@
}

/// A trial is accepted exactly if it is of the engine that was asked for, says what ran, ran every
/// operation it was given, was timed in full, kept to its batches, measured exactly the six metrics of
/// a trial, reports the times that it measured, and left complete artifacts.
pub proof fn only_a_whole_trial_is_accepted(
    expected: Engine,
    operation_count: usize,
    batches: TrialBatchConfig,
    evidence: TrialEvidence,
    files: Seq<ArtifactFile>,
)
    requires
        files.len() == evidence.artifacts@.len(),
    ensures
        ({
            let workload = evidence.workload;
            let metrics = evidence.metrics@;
            browser_lab::trial_failure(expected, operation_count, batches, evidence, files) is None
                <==> {
                &&& evidence.engine == expected
                &&& identified(evidence.runtime, evidence.browser)
                &&& workload.operation_count == operation_count
                &&& workload.result@.len() == operation_count
                &&& 0 < evidence.capture_elapsed_ms.bits < 0x7ff0_0000_0000_0000
                &&& 0 < workload.variant_call_wall_ms.bits <= workload.workload_wall_ms.bits
                    <= workload.batch_wall_ms.bits < 0x7ff0_0000_0000_0000
                &&& batches.target_ms is None ==> workload.batch_size == batches.size
                &&& batches.target_ms is Some ==> batches.size <= workload.batch_size
                    <= batches.max_size
                &&& forall|i: int|
                    0 <= i < metrics.len() ==> is_one_of_six((#[trigger] metrics[i]).name@)
                &&& measured(metrics, "workload.wall_ms"@)
                &&& measured(metrics, "variant.call_wall_ms"@)
                &&& measured(metrics, "browser.cpu_profile.active_ms"@)
                &&& measured(metrics, "browser.js_heap.live_bytes"@)
                &&& measured(metrics, "bperf.capture.elapsed_ms"@)
                &&& measured(metrics, "bperf.batch_size"@)
                &&& browser_lab::metric(metrics, "workload.wall_ms"@)->0.bits
                    == workload.workload_wall_ms.bits
                &&& browser_lab::metric(metrics, "variant.call_wall_ms"@)->0.bits
                    == workload.variant_call_wall_ms.bits
                &&& browser_lab::metric(metrics, "bperf.capture.elapsed_ms"@)->0.bits
                    == evidence.capture_elapsed_ms.bits
                &&& browser_lab::metric(metrics, "bperf.batch_size"@)->0.equals(
                    Number { bits: number::whole_bits(workload.batch_size as nat) as u64 },
                )
                &&& is_complete(evidence.artifacts@, files)
            }
        }),
{
    only_complete_artifacts_are_accepted(evidence.artifacts@, files);
    let metrics = evidence.metrics@;
    assert forall|name: Seq<char>| #[trigger]
        browser_lab::is_trial_metric(name) <==> is_one_of_six(name) by {}
    assert(browser_lab::trial_metric_at(0) == "workload.wall_ms"@);
    assert(browser_lab::trial_metric_at(1) == "variant.call_wall_ms"@);
    assert(browser_lab::trial_metric_at(2) == "browser.cpu_profile.active_ms"@);
    assert(browser_lab::trial_metric_at(3) == "browser.js_heap.live_bytes"@);
    assert(browser_lab::trial_metric_at(4) == "bperf.capture.elapsed_ms"@);
    assert(browser_lab::trial_metric_at(5) == "bperf.batch_size"@);
    reveal_with_fuel(browser_lab::first_unfit, 7);
    assert(browser_lab::first_unfit(metrics, 0) >= 6 <==> {
        &&& browser_lab::metric_fits(metrics, "workload.wall_ms"@)
        &&& browser_lab::metric_fits(metrics, "variant.call_wall_ms"@)
        &&& browser_lab::metric_fits(metrics, "browser.cpu_profile.active_ms"@)
        &&& browser_lab::metric_fits(metrics, "browser.js_heap.live_bytes"@)
        &&& browser_lab::metric_fits(metrics, "bperf.capture.elapsed_ms"@)
        &&& browser_lab::metric_fits(metrics, "bperf.batch_size"@)
    });
    assert forall|name: Seq<char>| #[trigger]
        browser_lab::metric_fits(metrics, name) <==> measured(metrics, name) by {}
    if browser_lab::first_unfit(metrics, 0) >= 6 {
        assert forall|name: Seq<char>| browser_lab::is_trial_metric(name) implies (
        #[trigger] browser_lab::metric(metrics, name)) is Some by {
            assert(browser_lab::metric_fits(metrics, name));
        }
    }
}

} // verus!
