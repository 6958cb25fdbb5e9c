//! The proof that the browsers of this host can be measured: what is asked of it and what it reports.

use vstd::prelude::*;
use vstd::string::*;

use crate::browser_lab;
use crate::browser_lab::Engine;
use crate::terminal_ui;
use crate::text;

verus! {

/// The version of the summary of a proof.
pub const SUMMARY_SCHEMA_VERSION: u32 = 2;

/// No engine was asked for.
#[derive(Clone, Copy, Debug, Eq, PartialEq, Structural)]
pub struct NoEngines;

impl NoEngines {
    /// The error in words.
    pub fn message(self) -> (r: &'static str)
        ensures
            r@ == "at least one engine must be requested"@,
    {
        "at least one engine must be requested"
    }
}

/// Checks that some engine was asked for.
pub fn check_engines(engines: &Vec<Engine>) -> (r: Result<(), NoEngines>)
    ensures
        r is Err <==> engines@.len() == 0,
{
    if engines.len() == 0 {
        Err(NoEngines)
    } else {
        Ok(())
    }
}

/// The name of a run: when it started, and the process that made it.
pub open spec fn run_name(milliseconds: nat, process: nat) -> Seq<char> {
    "doctor-"@ + text::decimal(milliseconds) + "-"@ + text::decimal(process)
}

/// The name of a run.
pub fn run_id(milliseconds: u64, process: u32) -> (r: String)
    ensures
        r@ == run_name(milliseconds as nat, process as nat),
{
    let mut out = "doctor-".to_owned();
    out.append(&text::decimal_text(milliseconds));
    out.append("-");
    out.append(&text::decimal_text(process as u64));
    out
}

/// How much the sampler of allocations costs, as it is shown.
#[derive(Clone, Debug)]
pub enum SamplerOverhead {
    /// The added wall time in percent with its sign, and the times without and with the sampler.
    Measured { percent: String, unsampled: String, sampled: String },
    NotApplicable { reason: String },
}

/// What was found of an engine.
#[derive(Clone, Debug)]
pub struct EngineReport {
    pub engine: Engine,
    pub root_pid: u32,
    pub version: String,
    pub overhead: SamplerOverhead,
}

/// What was captured of an engine.
pub open spec fn capture_text(report: EngineReport) -> Seq<char> {
    "  "@ + terminal_ui::filled(browser_lab::engine_name(report.engine), 8)
        + " cpu + heap + flamegraph (pid "@ + text::decimal(report.root_pid as nat) + ", "@
        + report.version@ + ")"@
}

/// How much the sampler costs in an engine.
pub open spec fn overhead_text(report: EngineReport) -> Seq<char> {
    "  "@ + terminal_ui::filled(browser_lab::engine_name(report.engine), 8)
        + " sampler overhead "@ + match report.overhead {
        SamplerOverhead::Measured { percent, unsampled, sampled } => percent@ + "% (unsampled "@
            + unsampled@ + " ms, sampled "@ + sampled@ + " ms)"@,
        SamplerOverhead::NotApplicable { reason } => "n/a ("@ + reason@ + ")"@,
    }
}

/// The report of a run in lines, as far as the first `n` engines go.
pub open spec fn report_text(reports: Seq<EngineReport>, n: int) -> Seq<Seq<char>>
    decreases n,
{
    if n <= 0 {
        seq!["bperf doctor: supported"@]
    } else {
        report_text(reports, n - 1).push(capture_text(reports[n - 1])).push(
            overhead_text(reports[n - 1]),
        )
    }
}

fn show_capture(report: &EngineReport) -> (r: String)
    ensures
        r@ == capture_text(*report),
{
    let mut out = "  ".to_owned();
    out.append(&terminal_ui::fill(report.engine.as_str(), 8));
    out.append(" cpu + heap + flamegraph (pid ");
    out.append(&text::decimal_text(report.root_pid as u64));
    out.append(", ");
    out.append(&report.version);
    out.append(")");
    out
}

fn show_overhead(report: &EngineReport) -> (r: String)
    ensures
        r@ == overhead_text(*report),
{
    let cost = match &report.overhead {
        SamplerOverhead::Measured { percent, unsampled, sampled } => {
            let mut out = percent.clone();
            out.append("% (unsampled ");
            out.append(unsampled);
            out.append(" ms, sampled ");
            out.append(sampled);
            out.append(" ms)");
            out
        },
        SamplerOverhead::NotApplicable { reason } => {
            let mut out = "n/a (".to_owned();
            out.append(reason);
            out.append(")");
            out
        },
    };
    let mut out = "  ".to_owned();
    out.append(&terminal_ui::fill(report.engine.as_str(), 8));
    out.append(" sampler overhead ");
    out.append(&cost);
    out
}

/// The report of a run in lines; the path of its summary is the last.
pub fn report_lines(reports: &Vec<EngineReport>, summary_path: &str) -> (r: Vec<String>)
    ensures
        text::views(r@) == report_text(reports@, reports@.len() as int).push(
            "summary: "@ + summary_path@,
        ),
{
    let mut out: Vec<String> = Vec::new();
    out.push("bperf doctor: supported".to_owned());
    assert(text::views(out@) == report_text(reports@, 0));
    let mut i: usize = 0;
    while i < reports.len()
        invariant
            i <= reports@.len(),
            text::views(out@) == report_text(reports@, i as int),
        decreases reports@.len() - i,
    {
        let ghost before = text::views(out@);
        out.push(show_capture(&reports[i]));
        assert(text::views(out@) == before.push(capture_text(reports@[i as int])));
        out.push(show_overhead(&reports[i]));
        assert(text::views(out@) == before.push(capture_text(reports@[i as int])).push(
            overhead_text(reports@[i as int]),
        ));
        i += 1;
    }
    let ghost before = text::views(out@);
    let mut last = "summary: ".to_owned();
    last.append(summary_path);
    out.push(last);
    assert(text::views(out@) == before.push(last@));
    out
}

/// What is warned of where the sampler costs more than its budget; `percent` has its sign.
pub fn overhead_warning(engine: Engine, percent: &str) -> (r: String)
    ensures
        r@ == "[doctor] warning: "@ + browser_lab::engine_name(engine)
            + " allocation sampler added "@ + percent@
            + "% wall time on the doctor workload; the budget is 5%"@,
{
    let mut out = "[doctor] warning: ".to_owned();
    out.append(engine.as_str());
    out.append(" allocation sampler added ");
    out.append(percent);
    out.append("% wall time on the doctor workload; the budget is 5%");
    out
}

} // verus!
