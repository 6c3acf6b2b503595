//! The course of a benchmark: one run to check the transaction, the runs that
//! warm up, and the runs that are timed.

use vstd::prelude::*;

use crate::execution::{RunView, TransactionRun};

verus! {

/// What the next run is for.
#[derive(Clone, Copy, Debug)]
pub enum Phase {
    /// To see whether the transaction succeeds.
    Verify,
    /// To warm up.
    Warmup,
    /// To be timed.
    Sample,
    /// Nothing: every run is done.
    Finished,
}

/// The state of a benchmark: what it was asked for and what its runs have come
/// to so far.
pub struct Replay {
    warmup: usize,
    iterations: usize,
    verify: Option<TransactionRun>,
    warmed: usize,
    samples: Vec<u128>,
}

/// The state of a benchmark, by views.
#[verifier::ext_equal]
pub struct ReplayView {
    /// How many runs are to warm up.
    pub warmup: nat,
    /// How many runs are to be timed.
    pub iterations: nat,
    /// The run that checks the transaction.
    pub verify: Option<RunView>,
    /// How many runs have warmed up.
    pub warmed: nat,
    /// The times of the runs that were timed, in order.
    pub samples: Seq<u128>,
}

impl View for Replay {
    type V = ReplayView;

    closed spec fn view(&self) -> ReplayView {
        ReplayView {
            warmup: self.warmup as nat,
            iterations: self.iterations as nat,
            verify: match self.verify {
                Some(run) => Some(run@),
                None => None,
            },
            warmed: self.warmed as nat,
            samples: self.samples@,
        }
    }
}

/// What the next run is for.
pub open spec fn phase_of(replay: ReplayView) -> Phase {
    if replay.verify is None {
        Phase::Verify
    } else if replay.warmed < replay.warmup {
        Phase::Warmup
    } else if replay.samples.len() < replay.iterations {
        Phase::Sample
    } else {
        Phase::Finished
    }
}

/// The state after one more run. Where every run is done, another one changes
/// nothing.
pub open spec fn recorded(replay: ReplayView, run: RunView) -> ReplayView {
    match phase_of(replay) {
        Phase::Verify => ReplayView { verify: Some(run), ..replay },
        Phase::Warmup => ReplayView { warmed: replay.warmed + 1, ..replay },
        Phase::Sample => ReplayView { samples: replay.samples.push(run.elapsed), ..replay },
        Phase::Finished => replay,
    }
}

/// The times of some runs.
pub open spec fn times(runs: Seq<RunView>) -> Seq<u128> {
    runs.map_values(|run: RunView| run.elapsed)
}

/// The state after some runs, at most as many as are asked for: the first one
/// checks the transaction, the next ones warm up, the rest are timed.
pub open spec fn after_runs(warmup: nat, iterations: nat, runs: Seq<RunView>) -> ReplayView {
    ReplayView {
        warmup,
        iterations,
        verify: if runs.len() == 0 {
            None
        } else {
            Some(runs[0])
        },
        warmed: if runs.len() == 0 {
            0
        } else if runs.len() <= warmup {
            (runs.len() - 1) as nat
        } else {
            warmup
        },
        samples: if runs.len() <= 1 + warmup {
            Seq::empty()
        } else {
            times(runs.skip(1 + warmup as int))
        },
    }
}

impl Replay {
    #[verifier::type_invariant]
    spec fn well_formed(self) -> bool {
        self.warmed <= self.warmup && self.samples.len() <= self.iterations
    }

    /// A benchmark with so many runs to warm up and to be timed.
    pub fn start(warmup: usize, iterations: usize) -> (res: Replay)
        ensures
            res@ == after_runs(warmup as nat, iterations as nat, Seq::empty()),
            res@.warmup == warmup,
            res@.iterations == iterations,
            res@.verify is None,
            res@.samples.len() == 0,
    {
        Replay { warmup, iterations, verify: None, warmed: 0, samples: Vec::new() }
    }

    /// What the next run is for, see [`phase_of`].
    pub fn phase(&self) -> (res: Phase)
        ensures
            res == phase_of(self@),
    {
        if self.verify.is_none() {
            Phase::Verify
        } else if self.warmed < self.warmup {
            Phase::Warmup
        } else if self.samples.len() < self.iterations {
            Phase::Sample
        } else {
            Phase::Finished
        }
    }

    /// Takes in the next run, see [`recorded`].
    pub fn record(&mut self, run: TransactionRun)
        ensures
            final(self)@ == recorded(old(self)@, run@),
            final(self)@.warmup == old(self)@.warmup,
            final(self)@.iterations == old(self)@.iterations,
            old(self)@.verify is None ==> final(self)@.verify == Some(run@),
            old(self)@.verify is Some ==> final(self)@.verify == old(self)@.verify,
            old(self)@.verify is Some && old(self)@.warmed >= old(self)@.warmup
                && old(self)@.samples.len() < old(self)@.iterations ==> final(self)@.samples
                == old(self)@.samples.push(run.elapsed),
            old(self)@.verify is None || old(self)@.warmed < old(self)@.warmup
                || old(self)@.samples.len() >= old(self)@.iterations ==> final(self)@.samples
                == old(self)@.samples,
    {
        proof {
            use_type_invariant(&*self);
        }
        match self.phase() {
            Phase::Verify => {
                self.verify = Some(run);
            },
            Phase::Warmup => {
                self.warmed = self.warmed + 1;
            },
            Phase::Sample => {
                let mut samples: Vec<u128> = Vec::new();
                std::mem::swap(&mut samples, &mut self.samples);
                samples.push(run.elapsed);
                self.samples = samples;
            },
            Phase::Finished => {},
        }
    }

    /// How many runs are to warm up.
    pub fn warmup(&self) -> (res: usize)
        ensures
            res as nat == self@.warmup,
    {
        self.warmup
    }

    /// How many runs are to be timed.
    pub fn iterations(&self) -> (res: usize)
        ensures
            res as nat == self@.iterations,
    {
        self.iterations
    }

    /// The run that checked the transaction.
    pub fn verified(&self) -> (res: Option<&TransactionRun>)
        ensures
            res is Some == self@.verify is Some,
            res matches Some(run) ==> self@.verify == Some(run@),
    {
        self.verify.as_ref()
    }

    /// The times of the runs that were timed, in order.
    pub fn samples(&self) -> (res: &Vec<u128>)
        ensures
            res@ == self@.samples,
    {
        &self.samples
    }
}

/// Recording the runs one after the other keeps to the plan: the state is
/// always that of the runs so far.
pub proof fn runs_are_recorded_in_turn(
    warmup: nat,
    iterations: nat,
    runs: Seq<RunView>,
    run: RunView,
)
    requires
        runs.len() <= warmup + iterations,
    ensures
        recorded(after_runs(warmup, iterations, runs), run) == after_runs(
            warmup,
            iterations,
            runs.push(run),
        ),
{
    let before = after_runs(warmup, iterations, runs);
    let after = after_runs(warmup, iterations, runs.push(run));
    if runs.len() > warmup {
        assert(runs.push(run).skip(1 + warmup as int) =~= runs.skip(1 + warmup as int).push(run));
        assert(after.samples =~= before.samples.push(run.elapsed));
    }
    assert(recorded(before, run) =~= after);
}

/// What each run is for follows from its place alone: the first one checks the
/// transaction, the next `warmup` ones warm up, the next `iterations` ones are
/// timed, and then the benchmark is over.
pub proof fn runs_are_planned_by_their_place(warmup: nat, iterations: nat, runs: Seq<RunView>)
    requires
        runs.len() <= 1 + warmup + iterations,
    ensures
        phase_of(after_runs(warmup, iterations, runs)) == if runs.len() == 0 {
            Phase::Verify
        } else if runs.len() <= warmup {
            Phase::Warmup
        } else if runs.len() <= warmup + iterations {
            Phase::Sample
        } else {
            Phase::Finished
        },
{
}

/// Only the timed runs are measured, each of them once and in order; only the
/// first run is checked.
pub proof fn only_timed_runs_are_measured(warmup: nat, iterations: nat, runs: Seq<RunView>)
    requires
        runs.len() == 1 + warmup + iterations,
    ensures
        after_runs(warmup, iterations, runs).warmup == warmup,
        after_runs(warmup, iterations, runs).iterations == iterations,
        after_runs(warmup, iterations, runs).verify == Some(runs[0]),
        after_runs(warmup, iterations, runs).samples.len() == iterations,
        forall|i: int|
            0 <= i < iterations ==> #[trigger] after_runs(warmup, iterations, runs).samples[i]
                == runs[1 + warmup + i].elapsed,
{
}

} // verus!
