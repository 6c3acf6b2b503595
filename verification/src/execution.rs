//! The runs of a message, and what becomes of each of its instructions.

use vstd::prelude::*;

use crate::text;

verus! {

/// The outcome of a run.
#[derive(Debug)]
pub struct TransactionRun {
    /// The time that it took, in nanoseconds.
    pub elapsed: u128,
    pub compute_units: u64,
    pub result: Result<(), String>,
    pub logs: Vec<String>,
}

/// The outcome of a run, by views.
pub struct RunView {
    pub elapsed: u128,
    pub compute_units: u64,
    pub result: Result<(), Seq<char>>,
    pub logs: Seq<Seq<char>>,
}

impl View for TransactionRun {
    type V = RunView;

    open spec fn view(&self) -> RunView {
        RunView {
            elapsed: self.elapsed,
            compute_units: self.compute_units,
            result: text::outcome(self.result),
            logs: text::texts(self.logs@),
        }
    }
}

/// What the runtime reports of an instruction.
pub struct StepView {
    pub compute_units: u64,
    pub result: Result<(), Seq<char>>,
}

/// How far the instructions of a message have come: the compute units of those
/// that ran, and the error of the last one if it had one.
#[derive(Debug)]
pub struct Progress {
    pub compute_units: u64,
    pub result: Result<(), String>,
}

impl View for Progress {
    type V = StepView;

    open spec fn view(&self) -> StepView {
        StepView { compute_units: self.compute_units, result: text::outcome(self.result) }
    }
}

/// The sum of two numbers of compute units, or the greatest number there is.
pub open spec fn capped_sum(a: u64, b: u64) -> u64 {
    if a + b > u64::MAX {
        u64::MAX
    } else {
        (a + b) as u64
    }
}

/// What instructions come to together. Each of them ran, also one that failed.
pub open spec fn progress_after(steps: Seq<StepView>) -> StepView
    decreases steps.len(),
{
    if steps.len() == 0 {
        StepView { compute_units: 0, result: Ok(()) }
    } else {
        StepView {
            compute_units: capped_sum(
                progress_after(steps.drop_last()).compute_units,
                steps.last().compute_units,
            ),
            result: steps.last().result,
        }
    }
}

impl Progress {
    /// Nothing has run yet.
    pub fn start() -> (res: Progress)
        ensures
            res@ == progress_after(Seq::empty()),
            res.compute_units == 0,
            res.result is Ok,
    {
        Progress { compute_units: 0, result: Ok(()) }
    }

    /// Whether the next instruction is to run: no instruction may follow one
    /// that failed.
    pub fn goes_on(&self) -> (res: bool)
        ensures
            res == (self@.result is Ok),
            res == (self.result is Ok),
    {
        self.result.is_ok()
    }

    /// Takes in what the runtime reports of the next instruction.
    pub fn record(&mut self, compute_units: u64, result: Result<(), String>)
        requires
            old(self)@.result is Ok,
        ensures
            final(self)@ == (StepView {
                compute_units: capped_sum(old(self)@.compute_units, compute_units),
                result: text::outcome(result),
            }),
            final(self).result == result,
            old(self).compute_units + compute_units <= u64::MAX ==> final(self).compute_units
                == old(self).compute_units + compute_units,
            old(self).compute_units + compute_units > u64::MAX ==> final(self).compute_units
                == u64::MAX,
            forall|steps: Seq<StepView>| #[trigger]
                progress_after(steps) == old(self)@ ==> final(self)@ == progress_after(
                    steps.push(
                        StepView { compute_units, result: text::outcome(result) },
                    ),
                ),
    {
        self.compute_units = self.compute_units.saturating_add(compute_units);
        self.result = result;
        proof {
            let step = StepView { compute_units, result: text::outcome(result) };
            assert forall|steps: Seq<StepView>| #[trigger]
                progress_after(steps) == old(self)@ implies self@ == progress_after(
                steps.push(step),
            ) by {
                assert(steps.push(step).drop_last() =~= steps);
            }
        }
    }
}

/// All compute units of some instructions.
pub open spec fn consumed(steps: Seq<StepView>) -> nat
    decreases steps.len(),
{
    if steps.len() == 0 {
        0
    } else {
        consumed(steps.drop_last()) + steps.last().compute_units as nat
    }
}

/// The compute units of a message are those of its instructions taken
/// together, as long as the number can be written.
pub proof fn compute_units_add_up(steps: Seq<StepView>)
    ensures
        consumed(steps) <= u64::MAX ==> progress_after(steps).compute_units == consumed(steps),
        consumed(steps) > u64::MAX ==> progress_after(steps).compute_units == u64::MAX,
    decreases steps.len(),
{
    if steps.len() > 0 {
        compute_units_add_up(steps.drop_last());
    }
}

/// Where no instruction runs after one that failed, a message succeeds exactly
/// when each of its instructions does, and an error is that of the one that
/// failed.
pub proof fn a_message_fails_with_its_first_failure(steps: Seq<StepView>)
    requires
        forall|i: int| 0 <= i < steps.len() - 1 ==> (#[trigger] steps[i]).result is Ok,
    ensures
        progress_after(steps).result is Ok <==> forall|i: int|
            0 <= i < steps.len() ==> (#[trigger] steps[i]).result is Ok,
        progress_after(steps).result is Err ==> progress_after(steps).result
            == steps.last().result,
{
}

/// The views of a run and of the progress of a message hold each of their
/// fields.
pub proof fn run_views_hold_every_field(run: TransactionRun, progress: Progress)
    ensures
        run@.elapsed == run.elapsed,
        run@.compute_units == run.compute_units,
        match run.result {
            Ok(_) => run@.result is Ok,
            Err(error) => run@.result == Result::<(), Seq<char>>::Err(error@),
        },
        run@.logs.len() == run.logs.len(),
        forall|i: int| 0 <= i < run.logs.len() ==> #[trigger] run@.logs[i] == run.logs[i]@,
        progress@.compute_units == progress.compute_units,
        match progress.result {
            Ok(_) => progress@.result is Ok,
            Err(error) => progress@.result == Result::<(), Seq<char>>::Err(error@),
        },
{
}

/// Nothing has run at first, and one more instruction adds its compute units,
/// or as many as there can be, and decides the result.
pub proof fn one_more_instruction_adds_its_units(steps: Seq<StepView>, step: StepView)
    ensures
        progress_after(Seq::empty()).compute_units == 0,
        progress_after(Seq::empty()).result is Ok,
        progress_after(steps.push(step)).result == step.result,
        progress_after(steps).compute_units + step.compute_units <= u64::MAX ==> progress_after(
            steps.push(step),
        ).compute_units == progress_after(steps).compute_units + step.compute_units,
        progress_after(steps).compute_units + step.compute_units > u64::MAX ==> progress_after(
            steps.push(step),
        ).compute_units == u64::MAX,
{
    assert(steps.push(step).drop_last() =~= steps);
}

} // verus!
