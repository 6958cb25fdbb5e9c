//! The trials of a measurement set, and how many of them are run.

use vstd::prelude::*;
use vstd::string::*;

use crate::browser_lab::Engine;
use crate::text;

verus! {

/// The version of schedules and trial results.
pub const MEASUREMENT_SCHEMA_VERSION: u32 = 7;

/// What a trial is for.
#[derive(Clone, Copy, Debug, Eq, Hash, PartialEq, Structural)]
pub enum TrialPhase {
    Warmup,
    Pilot,
    Final,
}

/// One trial of a schedule.
#[derive(Clone, Debug)]
pub struct ScheduledTrial {
    pub trial_id: String,
    pub workload_id: String,
    pub engine: Engine,
    pub phase: TrialPhase,
    /// Counted from one within the workload, the engine, and the phase.
    pub sample_index: u32,
}

/// How the number of final trials is settled.
#[derive(Clone, Copy, Debug, Eq, PartialEq, Structural)]
pub enum SamplingSchedule {
    /// All of them are run.
    Fixed,
    /// As many are run as a later decision says.
    Adaptive { budget_ms: u64, min_final_samples: u32 },
}

/// The trials of a measurement set, in the order in which they are run.
#[derive(Clone, Debug)]
pub struct MeasurementSchedule {
    pub schema_version: u32,
    pub measurement_set_id: String,
    pub benchmark_id: String,
    pub subject_id: String,
    pub variant_id: String,
    pub benchmark_sha256: String,
    pub variant_sha256: String,
    pub final_samples: u32,
    pub sampling: SamplingSchedule,
    /// What keeps this set apart from others with the same inputs.
    pub cohort: Option<String>,
    pub trials: Vec<ScheduledTrial>,
}

/// How many trials of a workload and an engine are run.
#[derive(Clone, Debug)]
pub struct SamplingStratum {
    pub workload_id: String,
    pub engine: Engine,
    pub pilot_samples: u32,
    pub final_samples: u32,
    pub batch_size: u32,
    /// Why no more pilots were run.
    pub pilot_stop_reason: String,
}

/// How many trials of every workload and engine are run.
#[derive(Clone, Debug)]
pub struct SamplingDecision {
    pub strata: Vec<SamplingStratum>,
    pub selected_final_trials: u64,
    pub required_final_trials: u64,
    pub budget_limited: bool,
}

/// The stratum is that of a workload and an engine.
pub open spec fn is_stratum(stratum: SamplingStratum, workload: Seq<char>, engine: Engine) -> bool {
    stratum.workload_id@ == workload && stratum.engine == engine
}

/// The first stratum of a workload and an engine.
pub open spec fn stratum_of(
    strata: Seq<SamplingStratum>,
    workload: Seq<char>,
    engine: Engine,
) -> Option<SamplingStratum>
    decreases strata.len(),
{
    if strata.len() == 0 {
        None
    } else if is_stratum(strata[0], workload, engine) {
        Some(strata[0])
    } else {
        stratum_of(strata.drop_first(), workload, engine)
    }
}

impl SamplingDecision {
    /// The stratum of a workload and an engine.
    pub fn stratum(&self, workload_id: &str, engine: Engine) -> (r: Option<&SamplingStratum>)
        ensures
            match stratum_of(self.strata@, workload_id@, engine) {
                Some(stratum) => r == Some(&stratum),
                None => r is None,
            },
    {
        let mut i: usize = 0;
        assert(self.strata@.skip(0) == self.strata@);
        while i < self.strata.len()
            invariant
                i <= self.strata@.len(),
                stratum_of(self.strata@, workload_id@, engine) == stratum_of(
                    self.strata@.skip(i as int),
                    workload_id@,
                    engine,
                ),
            decreases self.strata@.len() - i,
        {
            assert(self.strata@.skip(i as int)[0] == self.strata@[i as int]);
            assert(self.strata@.skip(i as int).drop_first() == self.strata@.skip(i + 1));
            if text::same(&self.strata[i].workload_id, workload_id) && self.strata[i].engine
                == engine {
                return Some(&self.strata[i]);
            }
            i += 1;
        }
        None
    }
}

/// No two trials have the same identifier.
pub open spec fn distinct_trials(trials: Seq<ScheduledTrial>) -> bool {
    forall|i: int, j: int|
        0 <= i < j < trials.len() ==> (#[trigger] trials[i]).trial_id@ != (
        #[trigger] trials[j]).trial_id@
}

/// Tells whether no two trials have the same identifier.
pub fn trials_distinct(trials: &Vec<ScheduledTrial>) -> (r: bool)
    ensures
        r == distinct_trials(trials@),
{
    let mut i: usize = 0;
    while i < trials.len()
        invariant
            i <= trials@.len(),
            forall|a: int, b: int|
                0 <= a < b < i ==> (#[trigger] trials@[a]).trial_id@ != (
                #[trigger] trials@[b]).trial_id@,
        decreases trials@.len() - i,
    {
        let mut j: usize = 0;
        while j < i
            invariant
                j <= i < trials@.len(),
                forall|a: int|
                    0 <= a < j ==> (#[trigger] trials@[a]).trial_id@ != trials@[i as int].trial_id@,
            decreases i - j,
        {
            if text::same(&trials[j].trial_id, &trials[i].trial_id) {
                return false;
            }
            j += 1;
        }
        i += 1;
    }
    true
}

/// The first trial with an identifier.
pub open spec fn trial_with(trials: Seq<ScheduledTrial>, id: Seq<char>) -> Option<ScheduledTrial>
    decreases trials.len(),
{
    if trials.len() == 0 {
        None
    } else if trials[0].trial_id@ == id {
        Some(trials[0])
    } else {
        trial_with(trials.drop_first(), id)
    }
}

/// Finds the first trial with an identifier.
pub fn find_trial<'a>(trials: &'a Vec<ScheduledTrial>, id: &str) -> (r: Option<&'a ScheduledTrial>)
    ensures
        match trial_with(trials@, id@) {
            Some(trial) => r == Some(&trial),
            None => r is None,
        },
{
    let mut i: usize = 0;
    assert(trials@.skip(0) == trials@);
    while i < trials.len()
        invariant
            i <= trials@.len(),
            trial_with(trials@, id@) == trial_with(trials@.skip(i as int), id@),
        decreases trials@.len() - i,
    {
        assert(trials@.skip(i as int)[0] == trials@[i as int]);
        assert(trials@.skip(i as int).drop_first() == trials@.skip(i + 1));
        if text::same(&trials[i].trial_id, id) {
            return Some(&trials[i]);
        }
        i += 1;
    }
    None
}

/// The numbers below `n` that are wanted, in order.
pub open spec fn chosen(n: int, wanted: spec_fn(int) -> bool) -> Seq<int>
    decreases n,
{
    if n <= 0 {
        Seq::empty()
    } else if wanted(n - 1) {
        chosen(n - 1, wanted).push(n - 1)
    } else {
        chosen(n - 1, wanted)
    }
}

/// Numbers as integers.
pub open spec fn ints(numbers: Seq<usize>) -> Seq<int> {
    Seq::new(numbers.len(), |i: int| numbers[i] as int)
}

/// What is chosen is wanted and below the bound, and what is wanted below the bound is chosen.
pub proof fn lemma_chosen(n: int, wanted: spec_fn(int) -> bool)
    ensures
        forall|i: int| #[trigger]
            chosen(n, wanted).contains(i) <==> (0 <= i < n && wanted(i)),
        chosen(n, wanted).len() <= if n > 0 {
            n
        } else {
            0
        },
    decreases n,
{
    if n > 0 {
        lemma_chosen(n - 1, wanted);
        let earlier = chosen(n - 1, wanted);
        let all = chosen(n, wanted);
        assert forall|i: int| #[trigger] all.contains(i) <==> (0 <= i < n && wanted(i)) by {
            if all.contains(i) {
                let k = choose|k: int| 0 <= k < all.len() && all[k] == i;
                if k < earlier.len() {
                    assert(earlier[k] == i);
                    assert(earlier.contains(i));
                }
            }
            if 0 <= i < n && wanted(i) {
                if i < n - 1 {
                    assert(earlier.contains(i));
                    let k = choose|k: int| 0 <= k < earlier.len() && earlier[k] == i;
                    assert(all[k] == i);
                } else {
                    assert(all[all.len() - 1] == i);
                }
            }
        }
    }
}

/// The first number below `n` that is wanted; minus one where none is.
pub open spec fn first(n: int, wanted: spec_fn(int) -> bool) -> int
    decreases n,
{
    if n <= 0 {
        -1
    } else if first(n - 1, wanted) >= 0 {
        first(n - 1, wanted)
    } else if wanted(n - 1) {
        n - 1
    } else {
        -1
    }
}

/// The first number that is wanted is wanted, below the bound, and the least such number.
pub proof fn lemma_first(n: int, wanted: spec_fn(int) -> bool)
    ensures
        ({
            let at = first(n, wanted);
            &&& -1 <= at
            &&& at >= 0 ==> at < n && wanted(at)
            &&& forall|i: int|
                0 <= i < n && #[trigger] wanted(i) ==> 0 <= at && at <= i
        }),
    decreases n,
{
    if n > 0 {
        lemma_first(n - 1, wanted);
    }
}

/// What is wanted where nothing before it is wanted is the first that is wanted.
pub proof fn lemma_first_is(n: int, wanted: spec_fn(int) -> bool, i: int)
    requires
        0 <= i < n,
        wanted(i),
        first(i, wanted) < 0,
    ensures
        first(n, wanted) == i,
{
    lemma_first(n, wanted);
    lemma_first(i, wanted);
}

} // verus!
