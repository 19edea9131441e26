//! Memory samples in kilobytes and the end-of-run report.
use vstd::prelude::*;

use crate::args::{command_of, lemma_parse_deterministic, Command, Mode, RunConfig};

verus! {

/// Bytes in one kilobyte, as the report counts them.
pub const BYTES_PER_KB: u64 = 1024;

/// The largest kilobyte count that a byte count of `u64` gives.
pub const MAX_KB: u64 = u64::MAX / 1024;

/// Converts a resident-memory sample from bytes to whole kilobytes.
pub fn bytes_to_kb(bytes: u64) -> (r: u64)
    ensures
        r == bytes / 1024,
        r <= MAX_KB,
{
    bytes / BYTES_PER_KB
}

/// The signed change from the first sample to the second.
pub fn memory_difference(initial_kb: u64, final_kb: u64) -> (r: i64)
    requires
        initial_kb <= MAX_KB,
        final_kb <= MAX_KB,
    ensures
        r == final_kb - initial_kb,
{
    final_kb as i64 - initial_kb as i64
}

/// The name under which a mode is given and reported.
pub fn mode_name(mode: Mode) -> (r: &'static str)
    ensures
        mode == Mode::Sync ==> r@ == "sync"@,
        mode == Mode::Async ==> r@ == "async"@,
{
    match mode {
        Mode::Sync => "sync",
        Mode::Async => "async",
    }
}

/// What a finished run reports.
#[derive(Clone, Copy, Debug, PartialEq, Eq, Structural)]
pub struct Report {
    pub iterations: usize,
    pub mode: Mode,
    pub initial_kb: u64,
    pub final_kb: u64,
    pub difference_kb: i64,
}

/// The report of a run of `config` whose memory samples, in bytes, were
/// `initial_bytes` before the work and `final_bytes` after it.
pub open spec fn report_of(config: RunConfig, initial_bytes: u64, final_bytes: u64) -> Report {
    Report {
        iterations: config.iterations,
        mode: config.mode,
        initial_kb: initial_bytes / 1024,
        final_kb: final_bytes / 1024,
        difference_kb: (final_bytes / 1024 - initial_bytes / 1024) as i64,
    }
}

impl Report {
    /// Builds the report from the run's configuration and its two samples.
    pub fn from_samples(config: RunConfig, initial_bytes: u64, final_bytes: u64) -> (r: Report)
        ensures
            r == report_of(config, initial_bytes, final_bytes),
            r.difference_kb == r.final_kb - r.initial_kb,
    {
        let initial_kb = bytes_to_kb(initial_bytes);
        let final_kb = bytes_to_kb(final_bytes);
        Report {
            iterations: config.iterations,
            mode: config.mode,
            initial_kb,
            final_kb,
            difference_kb: memory_difference(initial_kb, final_kb),
        }
    }
}

/// The printed difference is the final sample minus the initial one, exactly
/// and with its sign, for every pair of samples.
pub proof fn lemma_difference_exact(config: RunConfig, initial_bytes: u64, final_bytes: u64)
    ensures
        report_of(config, initial_bytes, final_bytes).difference_kb == report_of(
            config,
            initial_bytes,
            final_bytes,
        ).final_kb - report_of(config, initial_bytes, final_bytes).initial_kb,
{
    assert(initial_bytes / 1024 <= MAX_KB);
    assert(final_bytes / 1024 <= MAX_KB);
}

/// Running twice with arguments of the same text gives the same command,
/// and, when it is a run, reports with the same iteration count and mode,
/// whatever memory each run sampled.
pub proof fn lemma_same_arguments_same_report(
    a: Seq<String>,
    b: Seq<String>,
    initial_a: u64,
    final_a: u64,
    initial_b: u64,
    final_b: u64,
)
    requires
        a.len() == b.len(),
        forall|i: int| 0 <= i < a.len() ==> a[i]@ == b[i]@,
    ensures
        command_of(a) == command_of(b),
        command_of(a) matches Command::Run(cfg) ==> {
            &&& report_of(cfg, initial_a, final_a).iterations == report_of(
                cfg,
                initial_b,
                final_b,
            ).iterations
            &&& report_of(cfg, initial_a, final_a).mode == report_of(cfg, initial_b, final_b).mode
        },
{
    lemma_parse_deterministic(a, b);
}

} // verus!
