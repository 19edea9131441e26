//! The dispatch state machine: which step comes next, how many invocations
//! were started and completed, and when the final memory sample may be taken.
use vstd::prelude::*;

use crate::args::{Mode, RunConfig};
use crate::workload::{allocate_sync, seq_max, RandomSource, BUFFER_SIZE};

verus! {

/// The next step of a run.
#[derive(Clone, Copy, Debug, PartialEq, Eq, Structural)]
pub enum Action {
    /// Invoke the blocking workload once, now.
    RunBlocking,
    /// Submit one more workload task to the scheduler.
    Spawn,
    /// Wait for the next submitted task that has not been joined.
    Join,
    /// All work is done: take the final memory sample.
    SampleFinal,
}

/// Progress of a run through its invocations.
#[derive(Clone, Copy, Debug, PartialEq, Eq, Structural)]
pub struct Dispatcher {
    pub mode: Mode,
    /// Invocations that the run performs.
    pub target: usize,
    /// Invocations started (run or submitted).
    pub started: usize,
    /// Invocations finished (run or joined).
    pub completed: usize,
}

impl Dispatcher {
    /// Never more completed than started, nor started than asked for; a
    /// blocking run has nothing in flight; a concurrent run submits every
    /// task before it joins any.
    pub open spec fn wf(&self) -> bool {
        &&& self.completed <= self.started <= self.target
        &&& self.mode == Mode::Sync ==> self.started == self.completed
        &&& self.mode == Mode::Async && self.completed > 0 ==> self.started == self.target
    }

    /// The step that the state calls for.
    pub open spec fn action(&self) -> Action {
        if self.completed == self.target {
            Action::SampleFinal
        } else if self.mode == Mode::Sync {
            Action::RunBlocking
        } else if self.started < self.target {
            Action::Spawn
        } else {
            Action::Join
        }
    }

    /// Steps left before the final sample.
    pub open spec fn remaining(&self) -> nat {
        ((self.target - self.started) + (self.target - self.completed)) as nat
    }

    /// Steps left before the final sample when each one is taken as `action`
    /// says: one per blocking invocation, two per task (submit and join).
    pub open spec fn steps_left(&self) -> nat {
        if self.mode == Mode::Sync {
            (self.target - self.completed) as nat
        } else {
            self.remaining()
        }
    }

    /// The state after the step that `action` calls for is recorded.
    pub open spec fn step(&self) -> Dispatcher {
        match self.action() {
            Action::RunBlocking => Dispatcher {
                started: (self.started + 1) as usize,
                completed: (self.completed + 1) as usize,
                ..*self
            },
            Action::Spawn => Dispatcher { started: (self.started + 1) as usize, ..*self },
            Action::Join => Dispatcher { completed: (self.completed + 1) as usize, ..*self },
            Action::SampleFinal => *self,
        }
    }

    /// The state of a run of `config` before any work.
    pub open spec fn initial(config: RunConfig) -> Dispatcher {
        Dispatcher { mode: config.mode, target: config.iterations, started: 0, completed: 0 }
    }

    /// A run of `config` before any work.
    pub fn new(config: RunConfig) -> (d: Dispatcher)
        ensures
            d.wf(),
            d == Dispatcher::initial(config),
            d.mode == config.mode,
            d.target == config.iterations,
            d.started == 0,
            d.completed == 0,
    {
        Dispatcher { mode: config.mode, target: config.iterations, started: 0, completed: 0 }
    }

    /// The next step. The final sample comes only once every invocation was
    /// started and completed: no task is left unjoined.
    pub fn next_action(&self) -> (a: Action)
        requires
            self.wf(),
        ensures
            a == self.action(),
            a == Action::SampleFinal <==> (self.started == self.target && self.completed
                == self.target),
            a == Action::Join ==> self.started == self.target && self.completed < self.target,
    {
        if self.completed == self.target {
            Action::SampleFinal
        } else {
            match self.mode {
                Mode::Sync => Action::RunBlocking,
                Mode::Async => if self.started < self.target {
                    Action::Spawn
                } else {
                    Action::Join
                },
            }
        }
    }

    /// Records one blocking invocation, started and finished.
    pub fn record_run(&mut self)
        requires
            old(self).wf(),
            old(self).action() == Action::RunBlocking,
        ensures
            final(self).wf(),
            *final(self) == (Dispatcher {
                started: (old(self).started + 1) as usize,
                completed: (old(self).completed + 1) as usize,
                ..*old(self)
            }),
            *final(self) == old(self).step(),
            final(self).remaining() < old(self).remaining(),
    {
        self.started = self.started + 1;
        self.completed = self.completed + 1;
    }

    /// Records one task submitted.
    pub fn record_spawn(&mut self)
        requires
            old(self).wf(),
            old(self).action() == Action::Spawn,
        ensures
            final(self).wf(),
            *final(self) == (Dispatcher { started: (old(self).started + 1) as usize, ..*old(self) }),
            *final(self) == old(self).step(),
            final(self).remaining() < old(self).remaining(),
    {
        self.started = self.started + 1;
    }

    /// Records one task joined.
    pub fn record_join(&mut self)
        requires
            old(self).wf(),
            old(self).action() == Action::Join,
        ensures
            final(self).wf(),
            *final(self) == (Dispatcher { completed: (old(self).completed + 1) as usize, ..*old(self) }),
            *final(self) == old(self).step(),
            final(self).remaining() < old(self).remaining(),
    {
        self.completed = self.completed + 1;
    }
}

/// The bytes that the `k`-th of a series of invocations drew, in a log of
/// draws that began at `start`.
pub open spec fn invocation_draws(log: Seq<u8>, start: int, k: int) -> Seq<u8> {
    log.subrange(start + k * BUFFER_SIZE, start + (k + 1) * BUFFER_SIZE)
}

/// Runs a blocking benchmark: `iterations` invocations of the workload, one
/// after another, drawing from `src`. Returns each invocation's result in
/// order: the `k`-th is the largest of the `k`-th block of `BUFFER_SIZE`
/// draws.
pub fn run_sync(src: &mut RandomSource, iterations: usize) -> (results: Vec<u8>)
    ensures
        results@.len() == iterations,
        final(src).drawn().len() == old(src).drawn().len() + iterations * BUFFER_SIZE,
        final(src).drawn().subrange(0, old(src).drawn().len() as int) == old(src).drawn(),
        forall|k: int|
            0 <= k < iterations ==> #[trigger] results@[k] == seq_max(
                invocation_draws(final(src).drawn(), old(src).drawn().len() as int, k),
            ),
{
    let mut d = Dispatcher::new(RunConfig { mode: Mode::Sync, iterations });
    let mut results: Vec<u8> = Vec::new();
    let ghost start = src.drawn().len() as int;
    while d.next_action() != Action::SampleFinal
        invariant
            d.wf(),
            d.mode == Mode::Sync,
            d.target == iterations,
            results@.len() == d.completed,
            start == old(src).drawn().len(),
            src.drawn().len() == start + d.completed * BUFFER_SIZE,
            src.drawn().subrange(0, start) == old(src).drawn(),
            forall|k: int|
                0 <= k < d.completed ==> #[trigger] results@[k] == seq_max(
                    invocation_draws(src.drawn(), start, k),
                ),
        decreases d.remaining(),
    {
        let ghost before = src.drawn();
        let ghost c = d.completed as int;
        let r = allocate_sync(src);
        proof {
            let after = src.drawn();
            assert(before.len() == start + c * BUFFER_SIZE);
            assert((c + 1) * BUFFER_SIZE == c * BUFFER_SIZE + BUFFER_SIZE) by (nonlinear_arith);
            assert(after.subrange(0, start) =~= before.subrange(0, start));
            assert forall|k: int| 0 <= k < c implies invocation_draws(after, start, k)
                == invocation_draws(before, start, k) by {
                assert(k * BUFFER_SIZE + BUFFER_SIZE <= c * BUFFER_SIZE) by (nonlinear_arith)
                    requires
                        k < c,
                        k >= 0,
                ;
                assert((k + 1) * BUFFER_SIZE == k * BUFFER_SIZE + BUFFER_SIZE) by (nonlinear_arith);
                assert(k * BUFFER_SIZE >= 0) by (nonlinear_arith)
                    requires
                        k >= 0,
                ;
                assert(invocation_draws(after, start, k) =~= invocation_draws(before, start, k));
            }
            assert(invocation_draws(after, start, c) =~= after.skip(before.len() as int));
        }
        results.push(r);
        d.record_run();
    }
    results
}

/// The state after `k` steps taken as `action` says.
pub open spec fn run_steps(d: Dispatcher, k: nat) -> Dispatcher
    decreases k,
{
    if k == 0 {
        d
    } else {
        run_steps(d.step(), (k - 1) as nat)
    }
}

/// How many invocations are started (run or submitted) in `k` steps.
pub open spec fn starts_in(d: Dispatcher, k: nat) -> nat
    decreases k,
{
    if k == 0 {
        0
    } else {
        (if d.step().started > d.started {
            1nat
        } else {
            0nat
        }) + starts_in(d.step(), (k - 1) as nat)
    }
}

proof fn lemma_steps_from(d: Dispatcher)
    requires
        d.wf(),
    ensures
        run_steps(d, d.steps_left()).action() == Action::SampleFinal,
        starts_in(d, d.steps_left()) == d.target - d.started,
    decreases d.steps_left(),
{
    if d.steps_left() > 0 {
        let n = d.step();
        assert(n.wf());
        assert(n.steps_left() == d.steps_left() - 1);
        lemma_steps_from(n);
    }
}

/// Taking each step as `action` says, a run of `config` in either mode
/// reaches the final sample, and has by then started exactly
/// `config.iterations` invocations of the workload, all of them completed.
pub proof fn lemma_invocation_count(config: RunConfig)
    ensures
        ({
            let d = Dispatcher::initial(config);
            let end = run_steps(d, d.steps_left());
            &&& end.action() == Action::SampleFinal
            &&& end.started == config.iterations
            &&& end.completed == config.iterations
            &&& starts_in(d, d.steps_left()) == config.iterations
        }),
{
    let d = Dispatcher::initial(config);
    lemma_steps_from(d);
    lemma_run_steps_wf(d, d.steps_left());
}

proof fn lemma_run_steps_wf(d: Dispatcher, k: nat)
    requires
        d.wf(),
    ensures
        run_steps(d, k).wf(),
        run_steps(d, k).target == d.target,
        run_steps(d, k).mode == d.mode,
    decreases k,
{
    if k > 0 {
        lemma_run_steps_wf(d.step(), (k - 1) as nat);
    }
}

} // verus!
