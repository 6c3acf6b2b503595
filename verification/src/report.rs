//! What is reported of a fixture.

use vstd::prelude::*;

use crate::execution::{RunView, TransactionRun};
use crate::fixture::Fixture;
use crate::replay::{self, Replay};
use crate::stats::{self, summarize, Summary};
use crate::text::{self, joined};

verus! {

/// The results of a fixture. Times are in nanoseconds.
#[derive(Debug)]
pub struct Report {
    pub fixture: String,
    pub signature: String,
    pub instructions: usize,
    pub warmup: usize,
    pub iterations: usize,
    pub load_ns: u64,
    pub cu: u64,
    pub mainnet_cu: Option<u64>,
    pub trimmed_instructions: Option<usize>,
    pub ns_min: u64,
    pub ns_median: u64,
    pub ns_mean: u64,
    pub result: String,
}

/// The results of a fixture, by views.
pub struct ReportView {
    pub fixture: Seq<char>,
    pub signature: Seq<char>,
    pub instructions: nat,
    pub warmup: usize,
    pub iterations: usize,
    pub load_ns: nat,
    pub cu: u64,
    pub mainnet_cu: Option<u64>,
    pub trimmed_instructions: Option<usize>,
    pub ns_min: nat,
    pub ns_median: nat,
    pub ns_mean: nat,
    pub result: Seq<char>,
}

impl View for Report {
    type V = ReportView;

    open spec fn view(&self) -> ReportView {
        ReportView {
            fixture: self.fixture@,
            signature: self.signature@,
            instructions: self.instructions as nat,
            warmup: self.warmup,
            iterations: self.iterations,
            load_ns: self.load_ns as nat,
            cu: self.cu,
            mainnet_cu: self.mainnet_cu,
            trimmed_instructions: self.trimmed_instructions,
            ns_min: self.ns_min as nat,
            ns_median: self.ns_median as nat,
            ns_mean: self.ns_mean as nat,
            result: self.result@,
        }
    }
}

/// The low 64 bits of a number.
pub open spec fn low_bits(n: nat) -> nat {
    n % 0x1_0000_0000_0000_0000
}

/// The low 64 bits of a number, see [`low_bits`].
pub fn cut_to_64_bits(n: u128) -> (res: u64)
    ensures
        res as nat == low_bits(n as nat),
        res as nat == n as nat % 0x1_0000_0000_0000_0000,
{
    assert(n as u64 == n % 0x1_0000_0000_0000_0000) by (bit_vector);
    #[verifier::truncate]
    (n as u64)
}

/// A run in a word, or with its error.
pub open spec fn result_text(result: Result<(), Seq<char>>) -> Seq<char> {
    match result {
        Ok(_) => "ok"@,
        Err(error) => "error: "@ + error,
    }
}

/// Writes the result of a run, see [`result_text`].
pub fn describe_result(result: &Result<(), String>) -> (res: String)
    ensures
        res@ == result_text(text::outcome(*result)),
        *result is Ok ==> res@ == "ok"@,
        *result matches Err(error) ==> res@ == "error: "@ + error@,
{
    match result {
        Ok(_) => "ok".to_owned(),
        Err(error) => joined("error: ", error.as_str()),
    }
}

/// The results of a fixture: what it says of itself, what the run that checked
/// it came to, and the least, the median and the mean of the times. Of every
/// time the low 64 bits are reported.
pub open spec fn report_of(
    fixture: Fixture,
    warmup: usize,
    iterations: usize,
    load_time: u128,
    verify: RunView,
    samples: Seq<u128>,
) -> ReportView {
    ReportView {
        fixture: fixture.name@,
        signature: fixture.signature@,
        instructions: fixture.instructions@.len(),
        warmup,
        iterations,
        load_ns: low_bits(load_time as nat),
        cu: verify.compute_units,
        mainnet_cu: fixture.compute_units_consumed,
        trimmed_instructions: fixture.trimmed_instructions,
        ns_min: low_bits(stats::least(samples) as nat),
        ns_median: low_bits(stats::median(samples) as nat),
        ns_mean: low_bits(stats::mean(samples)),
        result: result_text(verify.result),
    }
}

/// Reports on a fixture, see [`report_of`].
pub fn report(
    fixture: &Fixture,
    warmup: usize,
    iterations: usize,
    load_time: u128,
    verify: &TransactionRun,
    samples: &Vec<u128>,
) -> (res: Report)
    requires
        samples.len() > 0,
        stats::total(samples@) <= u128::MAX,
    ensures
        res@ == report_of(*fixture, warmup, iterations, load_time, verify@, samples@),
{
    let summary: Summary = summarize(samples);
    Report {
        fixture: fixture.name.clone(),
        signature: fixture.signature.clone(),
        instructions: fixture.instructions.len(),
        warmup,
        iterations,
        load_ns: cut_to_64_bits(load_time),
        cu: verify.compute_units,
        mainnet_cu: fixture.compute_units_consumed,
        trimmed_instructions: fixture.trimmed_instructions,
        ns_min: cut_to_64_bits(summary.least),
        ns_median: cut_to_64_bits(summary.median),
        ns_mean: cut_to_64_bits(summary.mean),
        result: describe_result(&verify.result),
    }
}

/// Reports on a fixture whose benchmark is over: with the benchmark's own
/// numbers of runs, the run that checked the fixture and the times of the runs
/// that were timed, see [`report_of`].
pub fn report_replay(fixture: &Fixture, replay: &Replay, load_time: u128) -> (res: Report)
    requires
        replay::phase_of(replay@) is Finished,
        replay@.samples.len() > 0,
        stats::total(replay@.samples) <= u128::MAX,
    ensures
        res@ == report_of(
            *fixture,
            replay@.warmup as usize,
            replay@.iterations as usize,
            load_time,
            replay@.verify->Some_0,
            replay@.samples,
        ),
{
    report(
        fixture,
        replay.warmup(),
        replay.iterations(),
        load_time,
        replay.verified().unwrap(),
        replay.samples(),
    )
}

/// The report of a benchmark follows from its runs: the first one gives the
/// compute units and the result, the last `iterations` ones give the times, and
/// what the runs between them came to makes no difference.
pub proof fn reports_follow_from_the_runs(
    fixture: Fixture,
    warmup: usize,
    iterations: usize,
    load_time: u128,
    runs: Seq<RunView>,
)
    requires
        runs.len() == 1 + warmup + iterations,
    ensures
        ({
            let replay = replay::after_runs(warmup as nat, iterations as nat, runs);
            &&& replay::phase_of(replay) is Finished
            &&& report_of(
                fixture,
                warmup,
                iterations,
                load_time,
                replay.verify->Some_0,
                replay.samples,
            ) == report_of(
                fixture,
                warmup,
                iterations,
                load_time,
                runs[0],
                replay::times(runs.skip(1 + warmup)),
            )
        }),
{
    let replay = replay::after_runs(warmup as nat, iterations as nat, runs);
    assert(replay.samples =~= replay::times(runs.skip(1 + warmup)));
}

/// The last four of some lines, or all of them if there are fewer.
pub open spec fn last_four(lines: Seq<Seq<char>>) -> Seq<Seq<char>> {
    if lines.len() <= 4 {
        lines
    } else {
        lines.skip(lines.len() - 4)
    }
}

/// What is said of a fixture whose run failed: the error and the last four
/// lines of its log. Nothing is said of one that succeeded.
pub open spec fn failure_notes(name: Seq<char>, run: RunView) -> Seq<Seq<char>> {
    match run.result {
        Ok(_) => Seq::empty(),
        Err(error) => seq!["  "@ + name + " failed: "@ + error] + last_four(run.logs).map_values(
            |log: Seq<char>| "    log: "@ + log,
        ),
    }
}

/// Writes what is said of a fixture whose run failed, see [`failure_notes`].
pub fn failure_lines(name: &str, run: &TransactionRun) -> (res: Vec<String>)
    ensures
        text::texts(res@) == failure_notes(name@, run@),
{
    let mut lines: Vec<String> = Vec::new();
    if let Err(error) = &run.result {
        let head: String = joined(joined("  ", name).as_str(), " failed: ");
        lines.push(joined(head.as_str(), error.as_str()));
        let start: usize = if run.logs.len() <= 4 {
            0
        } else {
            run.logs.len() - 4
        };
        let ghost first = lines[0]@;
        let mut i: usize = start;
        while i < run.logs.len()
            invariant
                start <= i <= run.logs.len(),
                lines.len() == 1 + i - start,
                lines[0]@ == first,
                forall|j: int|
                    1 <= j < lines.len() ==> (#[trigger] lines[j])@ == "    log: "@ + run.logs[start
                        + j - 1]@,
            decreases run.logs.len() - i,
        {
            lines.push(joined("    log: ", run.logs[i].as_str()));
            i = i + 1;
        }
        proof {
            let shown = last_four(run@.logs);
            assert(shown.len() == run.logs.len() - start);
            assert(forall|j: int| 0 <= j < shown.len() ==> shown[j] == run.logs[start + j]@);
        }
    }
    proof {
        assert(text::texts(lines@) =~= failure_notes(name@, run@));
    }
    lines
}

/// A failure is told apart from success in the report: `ok` stands there
/// exactly where the run that checked the fixture succeeded, and exactly then
/// is nothing else said.
pub proof fn failures_are_reported(name: Seq<char>, run: RunView)
    ensures
        result_text(run.result) == "ok"@ <==> run.result is Ok,
        failure_notes(name, run).len() == 0 <==> run.result is Ok,
        failure_notes(name, run).len() <= 5,
{
    reveal_strlit("ok");
    reveal_strlit("error: ");
    if run.result is Err {
        assert(result_text(run.result)[0] == 'e');
        assert("ok"@[0] == 'o');
    }
}

/// Numbers that are at most `bound` add up to at most that many times it.
proof fn lemma_total_bound(samples: Seq<u128>, bound: nat)
    requires
        forall|i: int| 0 <= i < samples.len() ==> #[trigger] samples[i] <= bound,
    ensures
        stats::total(samples) <= samples.len() * bound,
    decreases samples.len(),
{
    if samples.len() == 0 {
        assert(samples.len() * bound == 0) by (nonlinear_arith)
            requires
                samples.len() == 0,
        ;
    } else {
        let rest = samples.drop_last();
        assert(forall|i: int| 0 <= i < rest.len() ==> rest[i] == samples[i]);
        lemma_total_bound(rest, bound);
        assert(samples[samples.len() - 1] <= bound);
        assert((rest.len() + 1) * bound == rest.len() * bound + bound) by (nonlinear_arith);
    }
}

/// Times that 64 bits can write, up to more than five hundred years,
/// are reported as they are, and no summary of them is below the least.
pub proof fn ordinary_times_are_reported_unchanged(
    fixture: Fixture,
    warmup: usize,
    iterations: usize,
    load_time: u128,
    verify: RunView,
    samples: Seq<u128>,
)
    requires
        samples.len() > 0,
        load_time <= u64::MAX,
        forall|i: int| 0 <= i < samples.len() ==> #[trigger] samples[i] <= u64::MAX,
    ensures
        ({
            let report = report_of(fixture, warmup, iterations, load_time, verify, samples);
            &&& report.load_ns == load_time
            &&& report.ns_min == stats::least(samples)
            &&& report.ns_median == stats::median(samples)
            &&& report.ns_mean == stats::mean(samples)
            &&& report.ns_min <= report.ns_median
            &&& report.ns_min <= report.ns_mean
        }),
{
    stats::least_is_a_lower_bound(samples);
    stats::median_and_mean_are_not_below_the_least(samples);
    let i = choose|i: int| 0 <= i < samples.len() && samples[i] == stats::least(samples);
    let j = choose|j: int| 0 <= j < samples.len() && samples[j] == stats::median(samples);
    assert(samples[i] <= u64::MAX && samples[j] <= u64::MAX);
    let len = samples.len();
    let sum = stats::total(samples);
    lemma_total_bound(samples, u64::MAX as nat);
    assert(sum / len <= u64::MAX) by (nonlinear_arith)
        requires
            sum <= len * (u64::MAX as nat),
            len > 0,
    ;
}

/// The view of a report holds each of its fields.
pub proof fn report_views_hold_every_field(report: Report)
    ensures
        report@.fixture == report.fixture@,
        report@.signature == report.signature@,
        report@.instructions == report.instructions,
        report@.warmup == report.warmup,
        report@.iterations == report.iterations,
        report@.load_ns == report.load_ns,
        report@.cu == report.cu,
        report@.mainnet_cu == report.mainnet_cu,
        report@.trimmed_instructions == report.trimmed_instructions,
        report@.ns_min == report.ns_min,
        report@.ns_median == report.ns_median,
        report@.ns_mean == report.ns_mean,
        report@.result == report.result@,
{
}

/// A report says of the fixture what the fixture says of itself, of the run
/// that checked it what that came to, and of the times what they come to, each
/// time without the bits beyond the lowest 64.
pub proof fn reports_tell_what_was_measured(
    fixture: Fixture,
    warmup: usize,
    iterations: usize,
    load_time: u128,
    verify: RunView,
    samples: Seq<u128>,
)
    ensures
        ({
            let report = report_of(fixture, warmup, iterations, load_time, verify, samples);
            &&& report.fixture == fixture.name@
            &&& report.signature == fixture.signature@
            &&& report.instructions == fixture.instructions.len()
            &&& report.warmup == warmup
            &&& report.iterations == iterations
            &&& report.load_ns == load_time as nat % 0x1_0000_0000_0000_0000
            &&& report.cu == verify.compute_units
            &&& report.mainnet_cu == fixture.compute_units_consumed
            &&& report.trimmed_instructions == fixture.trimmed_instructions
            &&& report.ns_min == stats::least(samples) as nat % 0x1_0000_0000_0000_0000
            &&& report.ns_median == stats::median(samples) as nat % 0x1_0000_0000_0000_0000
            &&& report.ns_mean == stats::mean(samples) % 0x1_0000_0000_0000_0000
            &&& match verify.result {
                Ok(_) => report.result == "ok"@,
                Err(error) => report.result == "error: "@ + error,
            }
        }),
{
}

/// Of a fixture whose run failed the error is told, and below it the end of the
/// log: its last lines, four of them or all if there are fewer, in order. Of
/// one that succeeded nothing is told.
pub proof fn failures_come_with_the_end_of_the_log(name: Seq<char>, run: RunView)
    ensures
        run.result is Ok ==> failure_notes(name, run).len() == 0,
        run.result matches Err(error) ==> {
            let notes = failure_notes(name, run);
            let shown = notes.len() - 1;
            &&& notes[0] == "  "@ + name + " failed: "@ + error
            &&& shown <= 4
            &&& shown <= run.logs.len()
            &&& shown == 4 || shown == run.logs.len()
            &&& forall|k: int|
                1 <= k <= shown ==> #[trigger] notes[k] == "    log: "@ + run.logs[run.logs.len()
                    - shown + k - 1]
        },
{
}

} // verus!
