//! What the commands say on the terminal, line by line, and where a lineage keeps its records.

use vstd::prelude::*;
use vstd::string::*;

use crate::browser_lab;
use crate::browser_lab::Engine;
use crate::lineage::{ConfirmationRecord, CycleRecord, PromotionRecord};
use crate::lineage_text;
use crate::manifest::{BenchmarkManifest, VariantDescriptor, WorkloadSpec};
use crate::paths;
use crate::schedule;
use crate::schedule::{MeasurementSchedule, ScheduledTrial, TrialPhase};
use crate::text;

verus! {

// Lists.

/// Texts with a comma and a space between them.
pub open spec fn listing(items: Seq<Seq<char>>) -> Seq<char>
    decreases items.len(),
{
    if items.len() == 0 {
        Seq::empty()
    } else if items.len() == 1 {
        items[0]
    } else {
        listing(items.drop_last()) + ", "@ + items.last()
    }
}

fn add_to_listing(out: &mut String, first: bool, item: &str)
    ensures
        final(out)@ == if first {
            old(out)@ + item@
        } else {
            old(out)@ + ", "@ + item@
        },
{
    if !first {
        out.append(", ");
    }
    out.append(item);
}

/// The names of workloads.
pub open spec fn workload_names(workloads: Seq<WorkloadSpec>) -> Seq<Seq<char>> {
    Seq::new(workloads.len(), |i: int| workloads[i].id@)
}

/// The names of engines.
pub open spec fn engine_names(engines: Seq<Engine>) -> Seq<Seq<char>> {
    Seq::new(engines.len(), |i: int| browser_lab::engine_name(engines[i]))
}

fn list_workloads(workloads: &Vec<WorkloadSpec>) -> (r: String)
    ensures
        r@ == listing(workload_names(workloads@)),
{
    let ghost names = workload_names(workloads@);
    let mut out = String::new();
    let mut i: usize = 0;
    while i < workloads.len()
        invariant
            i <= workloads@.len(),
            names == workload_names(workloads@),
            out@ == listing(names.take(i as int)),
        decreases workloads@.len() - i,
    {
        add_to_listing(&mut out, i == 0, &workloads[i].id);
        proof {
            assert(names.take(i + 1).drop_last() == names.take(i as int));
            assert(names.take(i + 1).last() == names[i as int]);
            if i == 0 {
                assert(Seq::<char>::empty() + names[0] == names[0]);
            }
        }
        i += 1;
    }
    assert(names.take(names.len() as int) == names);
    out
}

fn list_engines(engines: &Vec<Engine>) -> (r: String)
    ensures
        r@ == listing(engine_names(engines@)),
{
    let ghost names = engine_names(engines@);
    let mut out = String::new();
    let mut i: usize = 0;
    while i < engines.len()
        invariant
            i <= engines@.len(),
            names == engine_names(engines@),
            out@ == listing(names.take(i as int)),
        decreases engines@.len() - i,
    {
        add_to_listing(&mut out, i == 0, engines[i].as_str());
        proof {
            assert(names.take(i + 1).drop_last() == names.take(i as int));
            assert(names.take(i + 1).last() == names[i as int]);
            if i == 0 {
                assert(Seq::<char>::empty() + names[0] == names[0]);
            }
        }
        i += 1;
    }
    assert(names.take(names.len() as int) == names);
    out
}

fn push_text(out: &mut Vec<String>, front: &str, back: &str)
    ensures
        text::views(final(out)@) == text::views(old(out)@).push(front@ + back@),
{
    let ghost before = text::views(out@);
    let mut line = front.to_owned();
    line.append(back);
    out.push(line);
    assert(text::views(out@) == before.push(front@ + back@));
}

fn push_texts(out: &mut Vec<String>, more: Vec<String>)
    ensures
        text::views(final(out)@) == text::views(old(out)@) + text::views(more@),
{
    let ghost before = text::views(out@);
    let ghost added = text::views(more@);
    let mut more = more;
    out.append(&mut more);
    assert(text::views(out@) == before + added);
}

// Definitions.

/// What is said of definitions that are valid.
pub open spec fn validation(benchmark: BenchmarkManifest, variant: Option<VariantDescriptor>) -> Seq<
    Seq<char>,
> {
    let head = seq![
        "bperf validate: valid"@,
        "  benchmark: "@ + benchmark.benchmark.id@,
        "  subject: "@ + benchmark.benchmark.subject@,
    ];
    let named = match variant {
        Some(variant) => head.push("  variant: "@ + variant.id@),
        None => head,
    };
    named.push("  workloads: "@ + listing(workload_names(benchmark.workloads@))).push(
        "  engines: "@ + listing(engine_names(benchmark.browser.engines@)),
    ).push("  benchmark sha256: "@ + benchmark.source_sha256@)
}

/// Says that definitions are valid.
pub fn validation_lines(benchmark: &BenchmarkManifest, variant: &Option<VariantDescriptor>) -> (r:
    Vec<String>)
    ensures
        text::views(r@) == validation(*benchmark, *variant),
{
    let mut out: Vec<String> = Vec::new();
    out.push("bperf validate: valid".to_owned());
    assert(text::views(out@) == seq!["bperf validate: valid"@]);
    push_text(&mut out, "  benchmark: ", benchmark.benchmark_id());
    push_text(&mut out, "  subject: ", benchmark.subject_id());
    assert(text::views(out@) == seq![
        "bperf validate: valid"@,
        "  benchmark: "@ + benchmark.benchmark.id@,
        "  subject: "@ + benchmark.benchmark.subject@,
    ]);
    if let Some(variant) = variant {
        push_text(&mut out, "  variant: ", variant.id());
    }
    push_text(&mut out, "  workloads: ", &list_workloads(&benchmark.workloads));
    push_text(&mut out, "  engines: ", &list_engines(benchmark.engines()));
    push_text(&mut out, "  benchmark sha256: ", benchmark.source_sha256());
    out
}

// Plans.

/// The trial at a place is a final one.
pub open spec fn is_final(trials: Seq<ScheduledTrial>) -> spec_fn(int) -> bool {
    |i: int| trials[i].phase == TrialPhase::Final
}

/// How many trials are final ones.
pub open spec fn final_trials(trials: Seq<ScheduledTrial>) -> nat {
    schedule::chosen(trials.len() as int, is_final(trials)).len()
}

/// Counts the final trials.
pub fn final_trial_count(trials: &Vec<ScheduledTrial>) -> (r: usize)
    ensures
        r == final_trials(trials@),
{
    let ghost wanted = is_final(trials@);
    let mut count: usize = 0;
    let mut i: usize = 0;
    while i < trials.len()
        invariant
            i <= trials@.len(),
            count <= i,
            wanted == is_final(trials@),
            count == schedule::chosen(i as int, wanted).len(),
        decreases trials@.len() - i,
    {
        let found = trials[i].phase == TrialPhase::Final;
        assert(found == wanted(i as int));
        if found {
            count += 1;
        }
        i += 1;
    }
    count
}

/// What is said of a plan.
pub open spec fn plan(schedule: MeasurementSchedule, root: Seq<char>) -> Seq<Seq<char>> {
    seq![
        "bperf plan: ready"@,
        "  measurement set: "@ + schedule.measurement_set_id@,
        "  "@ + text::decimal(schedule.trials@.len()) + " total trials / "@ + text::decimal(
            final_trials(schedule.trials@),
        ) + " final trials"@,
        "  "@ + text::decimal(schedule.final_samples as nat)
            + " final samples per workload and engine"@,
        "  artifacts: "@ + root,
    ]
}

/// Says what is planned.
pub fn plan_lines(schedule: &MeasurementSchedule, root: &str) -> (r: Vec<String>)
    ensures
        text::views(r@) == plan(*schedule, root@),
{
    let mut counts = "  ".to_owned();
    counts.append(&text::decimal_text(schedule.trials.len() as u64));
    counts.append(" total trials / ");
    counts.append(&text::decimal_text(final_trial_count(&schedule.trials) as u64));
    counts.append(" final trials");
    let mut samples = "  ".to_owned();
    samples.append(&text::decimal_text(schedule.final_samples as u64));
    samples.append(" final samples per workload and engine");
    let mut out: Vec<String> = Vec::new();
    out.push("bperf plan: ready".to_owned());
    assert(text::views(out@) == seq!["bperf plan: ready"@]);
    push_text(&mut out, "  measurement set: ", &schedule.measurement_set_id);
    let ghost before = text::views(out@);
    out.push(counts);
    assert(text::views(out@) == before.push(counts@));
    let ghost before = text::views(out@);
    out.push(samples);
    assert(text::views(out@) == before.push(samples@));
    push_text(&mut out, "  artifacts: ", root);
    assert(text::views(out@) == plan(*schedule, root@));
    out
}

// Cycles.

/// What is said of a run: its outcome, how it was measured, how it compared or what the engines came
/// to, and where its records are.
pub open spec fn run(
    cycle: CycleRecord,
    measured: Seq<Seq<char>>,
    compared: Option<Seq<Seq<char>>>,
    engines: Seq<Seq<char>>,
    index: Seq<char>,
) -> Seq<Seq<char>> {
    let head = seq!["bperf run: "@ + cycle.outcome@] + measured;
    let judged = match compared {
        Some(lines) => head + lines,
        None => (head + engines).push("  comparison: no promoted baseline"@),
    };
    judged.push("  cycle: "@ + cycle.cycle_id@).push(
        "  source change: bperf show "@ + cycle.cycle_id@ + " --diff"@,
    ).push("  measurement index: "@ + index)
}

/// Some texts, viewed.
pub open spec fn opt_views(lines: Option<Vec<String>>) -> Option<Seq<Seq<char>>> {
    match lines {
        Some(lines) => Some(text::views(lines@)),
        None => None,
    }
}

/// Says what a run came to. `compared` are the details of a comparison, where there was one, and
/// `engines` the results of the engines.
pub fn run_lines(
    cycle: &CycleRecord,
    measured: Vec<String>,
    compared: Option<Vec<String>>,
    engines: Vec<String>,
    index: &str,
) -> (r: Vec<String>)
    ensures
        text::views(r@) == run(
            *cycle,
            text::views(measured@),
            opt_views(compared),
            text::views(engines@),
            index@,
        ),
{
    let mut out: Vec<String> = Vec::new();
    assert(text::views(out@) == Seq::<Seq<char>>::empty());
    push_text(&mut out, "bperf run: ", &cycle.outcome);
    assert(text::views(out@) == seq!["bperf run: "@ + cycle.outcome@]);
    push_texts(&mut out, measured);
    match compared {
        Some(lines) => push_texts(&mut out, lines),
        None => {
            push_texts(&mut out, engines);
            let ghost before = text::views(out@);
            out.push("  comparison: no promoted baseline".to_owned());
            assert(text::views(out@) == before.push("  comparison: no promoted baseline"@));
        },
    }
    push_text(&mut out, "  cycle: ", &cycle.cycle_id);
    let mut show = "  source change: bperf show ".to_owned();
    show.append(&cycle.cycle_id);
    push_text(&mut out, &show, " --diff");
    push_text(&mut out, "  measurement index: ", index);
    out
}

/// What is said of a confirmation.
pub open spec fn confirmation(
    record: ConfirmationRecord,
    measured: Seq<Seq<char>>,
    compared: Seq<Seq<char>>,
    index: Seq<char>,
) -> Seq<Seq<char>> {
    (seq!["bperf confirm: "@ + record.outcome@] + measured + compared).push(
        "  confirmation: "@ + record.confirmation_id@,
    ).push("  measurement index: "@ + index)
}

/// Says what a confirmation came to.
pub fn confirmation_lines(
    record: &ConfirmationRecord,
    measured: Vec<String>,
    compared: Vec<String>,
    index: &str,
) -> (r: Vec<String>)
    ensures
        text::views(r@) == confirmation(
            *record,
            text::views(measured@),
            text::views(compared@),
            index@,
        ),
{
    let mut out: Vec<String> = Vec::new();
    assert(text::views(out@) == Seq::<Seq<char>>::empty());
    push_text(&mut out, "bperf confirm: ", &record.outcome);
    assert(text::views(out@) == seq!["bperf confirm: "@ + record.outcome@]);
    push_texts(&mut out, measured);
    push_texts(&mut out, compared);
    push_text(&mut out, "  confirmation: ", &record.confirmation_id);
    push_text(&mut out, "  measurement index: ", index);
    out
}

/// What is said of an acceptance.
pub open spec fn acceptance(cycle_id: Seq<char>, measurement_set: Seq<char>) -> Seq<Seq<char>> {
    seq!["bperf accept: "@ + cycle_id, "  baseline measurement set: "@ + measurement_set]
}

/// Says what was accepted.
pub fn acceptance_lines(cycle_id: &str, measurement_set: &str) -> (r: Vec<String>)
    ensures
        text::views(r@) == acceptance(cycle_id@, measurement_set@),
{
    let mut out: Vec<String> = Vec::new();
    assert(text::views(out@) == Seq::<Seq<char>>::empty());
    push_text(&mut out, "bperf accept: ", cycle_id);
    push_text(&mut out, "  baseline measurement set: ", measurement_set);
    assert(text::views(out@) == acceptance(cycle_id@, measurement_set@));
    out
}

/// The acceptances of a cycle, the first `n` of them.
pub open spec fn accepted(promotions: Seq<PromotionRecord>, n: int) -> Seq<char>
    decreases n,
{
    if n <= 0 {
        Seq::empty()
    } else {
        accepted(promotions, n - 1) + "  accepted: "@ + promotions[n - 1].baseline_measurement_set@
            + "\n"@
    }
}

/// The confirmations of a cycle, the first `n` of them.
pub open spec fn confirmed(confirmations: Seq<ConfirmationRecord>, n: int) -> Seq<char>
    decreases n,
{
    if n <= 0 {
        Seq::empty()
    } else {
        confirmed(confirmations, n - 1) + "  confirmation: "@ + confirmations[n
            - 1].confirmation_measurement_set@ + " ("@ + confirmations[n - 1].outcome@ + ")\n"@
    }
}

/// What is shown of a cycle: the cycle, whether it can be accepted, its acceptances, its
/// confirmations, and its change where that was asked for.
pub open spec fn shown(
    cycle: CycleRecord,
    ready: bool,
    promotions: Seq<PromotionRecord>,
    confirmations: Seq<ConfirmationRecord>,
    diff: Option<String>,
) -> Seq<char> {
    lineage_text::cycle_text(cycle) + "  promotion readiness: "@ + (if ready {
        "ready\n"@
    } else {
        "confirmation required\n"@
    }) + accepted(promotions, promotions.len() as int) + confirmed(
        confirmations,
        confirmations.len() as int,
    ) + match diff {
        Some(diff) => diff@,
        None => ""@,
    }
}

fn list_accepted(promotions: &Vec<PromotionRecord>) -> (r: String)
    ensures
        r@ == accepted(promotions@, promotions@.len() as int),
{
    let mut out = String::new();
    let mut i: usize = 0;
    while i < promotions.len()
        invariant
            i <= promotions@.len(),
            out@ == accepted(promotions@, i as int),
        decreases promotions@.len() - i,
    {
        out.append("  accepted: ");
        out.append(&promotions[i].baseline_measurement_set);
        out.append("\n");
        i += 1;
    }
    out
}

fn list_confirmed(confirmations: &Vec<ConfirmationRecord>) -> (r: String)
    ensures
        r@ == confirmed(confirmations@, confirmations@.len() as int),
{
    let mut out = String::new();
    let mut i: usize = 0;
    while i < confirmations.len()
        invariant
            i <= confirmations@.len(),
            out@ == confirmed(confirmations@, i as int),
        decreases confirmations@.len() - i,
    {
        out.append("  confirmation: ");
        out.append(&confirmations[i].confirmation_measurement_set);
        out.append(" (");
        out.append(&confirmations[i].outcome);
        out.append(")\n");
        i += 1;
    }
    out
}

/// Shows a cycle.
pub fn show_text(
    cycle: &CycleRecord,
    ready: bool,
    promotions: &Vec<PromotionRecord>,
    confirmations: &Vec<ConfirmationRecord>,
    diff: &Option<String>,
) -> (r: String)
    ensures
        r@ == shown(*cycle, ready, promotions@, confirmations@, *diff),
{
    let mut out = lineage_text::render_cycle(cycle);
    out.append("  promotion readiness: ");
    if ready {
        out.append("ready\n");
    } else {
        out.append("confirmation required\n");
    }
    out.append(&list_accepted(promotions));
    out.append(&list_confirmed(confirmations));
    let change = match diff {
        Some(diff) => diff.clone(),
        None => "".to_owned(),
    };
    out.append(&change);
    out
}

// Where a lineage keeps its records.

/// The directory of the lineages.
#[derive(Clone, Debug)]
pub struct LineageStore {
    pub root: String,
}

impl LineageStore {
    /// The directories that the store has.
    pub fn directories(&self) -> (r: Vec<String>)
        ensures
            text::views(r@) == seq![
                paths::joined(self.root@, "objects"@),
                paths::joined(self.root@, "states"@),
                paths::joined(self.root@, "changes"@),
            ],
    {
        let mut out: Vec<String> = Vec::new();
        out.push(paths::join(&self.root, "objects"));
        out.push(paths::join(&self.root, "states"));
        out.push(paths::join(&self.root, "changes"));
        assert(text::views(out@) == seq![
            paths::joined(self.root@, "objects"@),
            paths::joined(self.root@, "states"@),
            paths::joined(self.root@, "changes"@),
        ]);
        out
    }

    /// The history of a benchmark.
    pub fn history_path(&self, benchmark_id: &str) -> (r: String)
        ensures
            r@ == paths::joined(self.root@, benchmark_id@ + ".jsonl"@),
    {
        let mut name = benchmark_id.to_owned();
        name.append(".jsonl");
        paths::join(&self.root, &name)
    }

    /// The object with a digest.
    pub fn object_path(&self, sha256: &str) -> (r: String)
        ensures
            r@ == paths::joined(paths::joined(self.root@, "objects"@), sha256@),
    {
        paths::join(&paths::join(&self.root, "objects"), sha256)
    }

    /// The source state with a name.
    pub fn state_path(&self, state_id: &str) -> (r: String)
        ensures
            r@ == paths::joined(paths::joined(self.root@, "states"@), state_id@ + ".json"@),
    {
        let mut name = state_id.to_owned();
        name.append(".json");
        paths::join(&paths::join(&self.root, "states"), &name)
    }

    /// The source change with a name.
    pub fn change_path(&self, change_id: &str) -> (r: String)
        ensures
            r@ == paths::joined(paths::joined(self.root@, "changes"@), change_id@ + ".json"@),
    {
        let mut name = change_id.to_owned();
        name.append(".json");
        paths::join(&paths::join(&self.root, "changes"), &name)
    }
}

} // verus!
