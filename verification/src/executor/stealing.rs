//! The search of a worker without local work for a task to run.
//!
//! A search asks the two global queues first, the one of high priority before
//! the other, and each until it answers. Then it visits the threads' queues in
//! random order, in rounds: all rounds but the last keep to the worker's own
//! NUMA region, and a round is repeated while any of its attempts lost a race.

use crate::executor::permutation::random_permutation;
use crate::executor::queues::StealOutcome;
use crate::executor::scheduler::Executor;
use rand::rngs::SmallRng;
use vstd::prelude::*;

#[allow(unused_imports)]
use crate::executor::permutation::{visit_order, Draws};
#[allow(unused_imports)]
use crate::executor::queues::{steals_batch, takes_front};
#[allow(unused_imports)]
use crate::executor::scheduler::{ExecutorView, TaskListView};

verus! {

/// How many rounds of visits a search makes.
pub const STEAL_ROUNDS: u32 = 4;

/// How far a search has come.
#[derive(Clone, Copy, Debug, PartialEq, Eq, Structural)]
pub enum StealStage {
    /// Asking the global queue of high priority tasks.
    GlobalHigh,
    /// Asking the global queue of low priority tasks.
    GlobalLow,
    /// About to draw the order of the next pass over the threads.
    StartPass,
    /// Visiting threads.
    Threads,
    /// Over.
    Done,
}

/// What a step of a search came to.
#[derive(Clone, Copy, Debug, PartialEq, Eq, Structural)]
pub enum StealStep {
    /// The task was taken, and the search is over.
    Found(u64),
    /// Nothing yet: go on.
    Continue,
    /// Nothing yet: go on to the next round after a moment.
    Spin,
    /// Nothing yet, and a race was lost: do the same again after a moment.
    Again,
    /// There was nothing to take, and the search is over.
    Exhausted,
}

/// A search for a task by one worker.
pub struct StealSearch {
    thread: usize,
    stage: StealStage,
    round: u32,
    victims: Vec<u32>,
    visited: usize,
    retry: bool,
}

/// The state of a search: `victims` are the threads of this pass, the first
/// `visited` of which were asked, and `retry` is whether one of them lost a race.
#[verifier::ext_equal]
pub struct StealSearchView {
    pub thread: nat,
    pub stage: StealStage,
    pub round: nat,
    pub victims: Seq<u32>,
    pub visited: nat,
    pub retry: bool,
}

impl View for StealSearch {
    type V = StealSearchView;

    closed spec fn view(&self) -> StealSearchView {
        StealSearchView {
            thread: self.thread as nat,
            stage: self.stage,
            round: self.round as nat,
            victims: self.victims@,
            visited: self.visited as nat,
            retry: self.retry,
        }
    }
}

/// Whether a pass of round `round` by `thread` may visit the thread `victim`.
pub open spec fn may_visit(executor: ExecutorView, thread: nat, round: nat, victim: u32) -> bool {
    round + 1 == STEAL_ROUNDS || executor.numa[victim as int] == executor.numa[thread as int]
}

/// The threads that a pass visits, out of a drawn order.
pub open spec fn pass_victims(
    executor: ExecutorView,
    thread: nat,
    round: nat,
    order: Seq<u32>,
) -> Seq<u32> {
    order.filter(|victim: u32| may_visit(executor, thread, round, victim))
}

impl StealSearchView {
    /// The search fits an executor of `threads` threads.
    pub open spec fn wf(self, threads: nat) -> bool {
        &&& self.thread < threads
        &&& self.stage != StealStage::Done ==> self.round < STEAL_ROUNDS
        &&& self.visited <= self.victims.len()
        &&& forall|i: int| 0 <= i < self.victims.len() ==> #[trigger] self.victims[i] < threads
    }

    /// Whether the search is about to ask a queue.
    pub open spec fn is_asking(self) -> bool {
        match self.stage {
            StealStage::GlobalHigh => true,
            StealStage::GlobalLow => true,
            StealStage::Threads => self.visited < self.victims.len(),
            _ => false,
        }
    }

    /// The state, and what the step came to, after the queue being asked gave `outcome`.
    pub open spec fn answered(self, outcome: StealOutcome) -> (StealSearchView, StealStep) {
        match outcome {
            StealOutcome::Success(task) => (
                StealSearchView { stage: StealStage::Done, ..self },
                StealStep::Found(task),
            ),
            StealOutcome::Empty => match self.stage {
                StealStage::GlobalHigh => (
                    StealSearchView { stage: StealStage::GlobalLow, ..self },
                    StealStep::Continue,
                ),
                StealStage::GlobalLow => (
                    StealSearchView { stage: StealStage::StartPass, ..self },
                    StealStep::Continue,
                ),
                _ => (
                    StealSearchView { visited: self.visited + 1, ..self },
                    StealStep::Continue,
                ),
            },
            StealOutcome::Retry => match self.stage {
                StealStage::Threads => (
                    StealSearchView { visited: self.visited + 1, retry: true, ..self },
                    StealStep::Continue,
                ),
                _ => (self, StealStep::Again),
            },
        }
    }

    /// The state at the start of a pass over `victims`.
    pub open spec fn pass_started(self, victims: Seq<u32>) -> StealSearchView {
        StealSearchView { stage: StealStage::Threads, victims, visited: 0, retry: false, ..self }
    }

    /// The state, and what the step came to, after the last visit of a pass.
    pub open spec fn pass_ended(self) -> (StealSearchView, StealStep) {
        if self.retry {
            (StealSearchView { stage: StealStage::StartPass, ..self }, StealStep::Again)
        } else if self.round + 1 < STEAL_ROUNDS {
            (
                StealSearchView { stage: StealStage::StartPass, round: self.round + 1, ..self },
                StealStep::Spin,
            )
        } else {
            (StealSearchView { stage: StealStage::Done, ..self }, StealStep::Exhausted)
        }
    }
}

/// The effect of `thread` asking the queue of thread `victim`. A worker that
/// visits itself takes its own newest task.
pub open spec fn asks_thread(
    before: ExecutorView,
    thread: int,
    victim: int,
    outcome: StealOutcome,
    after: ExecutorView,
) -> bool {
    let robbed = before.lists[victim];
    let own = before.lists[thread];
    if victim == thread {
        if own.queue.len() == 0 {
            outcome == StealOutcome::Empty && after == before
        } else {
            outcome == StealOutcome::Success(own.queue.last()) && after == before.with_list(
                thread,
                TaskListView { queue: own.queue.drop_last(), ..own },
            )
        }
    } else {
        &&& steals_batch(
            robbed.queue,
            own.queue,
            outcome,
            after.lists[victim].queue,
            after.lists[thread].queue,
        )
        &&& after == before.with_list(
            victim,
            TaskListView { queue: after.lists[victim].queue, ..robbed },
        ).with_list(thread, TaskListView { queue: after.lists[thread].queue, ..own })
    }
}

/// The effect on the queues of a search asking for a task.
pub open spec fn asks(
    search: StealSearchView,
    before: ExecutorView,
    outcome: StealOutcome,
    after: ExecutorView,
) -> bool {
    match search.stage {
        StealStage::GlobalHigh => takes_front(before.high, outcome, after.high) && after == (
        ExecutorView { high: after.high, ..before }),
        StealStage::GlobalLow => takes_front(before.low, outcome, after.low) && after == (
        ExecutorView { low: after.low, ..before }),
        _ => asks_thread(
            before,
            search.thread as int,
            search.victims[search.visited as int] as int,
            outcome,
            after,
        ),
    }
}

/// One step of a search: a queue that is asked decides its outcome, chance
/// decides the order of a pass, and the state decides everything else.
pub open spec fn steps(
    search: StealSearchView,
    before: ExecutorView,
    step: StealStep,
    search_after: StealSearchView,
    after: ExecutorView,
) -> bool {
    if search.is_asking() {
        exists|outcome: StealOutcome|
            (search_after, step) == #[trigger] search.answered(outcome) && asks(
                search,
                before,
                outcome,
                after,
            )
    } else {
        &&& after == before
        &&& match search.stage {
            StealStage::StartPass => step == StealStep::Continue && exists|draws: Draws|
                search_after == search.pass_started(
                    pass_victims(
                        before,
                        search.thread,
                        search.round,
                        #[trigger] visit_order(before.lists.len() as u32, draws),
                    ),
                ),
            StealStage::Threads => (search_after, step) == search.pass_ended(),
            _ => search_after == search && step == StealStep::Exhausted,
        }
    }
}

/// The state in which a search by `thread` begins.
pub open spec fn new_search(thread: nat) -> StealSearchView {
    StealSearchView {
        thread,
        stage: StealStage::GlobalHigh,
        round: 0,
        victims: Seq::empty(),
        visited: 0,
        retry: false,
    }
}

impl StealSearch {
    /// A search by the worker of `thread`.
    pub fn new(thread: usize) -> (search: StealSearch)
        ensures
            search@ == new_search(thread as nat),
    {
        let search = StealSearch {
            thread,
            stage: StealStage::GlobalHigh,
            round: 0,
            victims: Vec::new(),
            visited: 0,
            retry: false,
        };
        assert(search@.victims =~= Seq::empty());
        search
    }

    /// Goes on after the queue being asked gave `outcome`.
    pub fn answer(&mut self, outcome: StealOutcome) -> (step: StealStep)
        requires
            old(self)@.is_asking(),
        ensures
            (final(self)@, step) == old(self)@.answered(outcome),
    {
        assert(self.stage == StealStage::Threads ==> self.visited < self.victims.len());
        match outcome {
            StealOutcome::Success(task) => {
                self.stage = StealStage::Done;
                StealStep::Found(task)
            },
            StealOutcome::Empty => {
                match self.stage {
                    StealStage::GlobalHigh => {
                        self.stage = StealStage::GlobalLow;
                    },
                    StealStage::GlobalLow => {
                        self.stage = StealStage::StartPass;
                    },
                    _ => {
                        self.visited = self.visited + 1;
                    },
                }
                StealStep::Continue
            },
            StealOutcome::Retry => match self.stage {
                StealStage::Threads => {
                    self.visited = self.visited + 1;
                    self.retry = true;
                    StealStep::Continue
                },
                _ => StealStep::Again,
            },
        }
    }

    /// Starts a pass over the threads of `order` that the round may visit.
    pub fn start_pass(&mut self, executor: &Executor, order: &Vec<u32>)
        requires
            executor.wf(),
            old(self)@.wf(executor@.lists.len()),
            old(self)@.stage == StealStage::StartPass,
            forall|i: int| 0 <= i < order@.len() ==> #[trigger] order@[i] < executor@.lists.len(),
        ensures
            final(self)@ == old(self)@.pass_started(
                pass_victims(executor@, old(self)@.thread, old(self)@.round, order@),
            ),
            final(self)@.wf(executor@.lists.len()),
    {
        proof {
            executor.lemma_wf();
        }
        let ghost allowed = |victim: u32|
            may_visit(executor@, self.thread as nat, self.round as nat, victim);
        let mut victims: Vec<u32> = Vec::new();
        let mut i: usize = 0;
        while i < order.len()
            invariant
                i <= order@.len(),
                executor.wf(),
                executor@.wf(),
                self@.wf(executor@.lists.len()),
                self.stage == StealStage::StartPass,
                self.thread < executor@.lists.len(),
                self.round < STEAL_ROUNDS,
                forall|k: int|
                    0 <= k < order@.len() ==> #[trigger] order@[k] < executor@.lists.len(),
                allowed == (|victim: u32|
                    may_visit(executor@, self.thread as nat, self.round as nat, victim)),
                victims@ == order@.take(i as int).filter(allowed),
                forall|k: int|
                    0 <= k < victims@.len() ==> #[trigger] victims@[k] < executor@.lists.len(),
            decreases order@.len() - i,
        {
            let victim: u32 = order[i];
            proof {
                reveal(Seq::filter);
                assert(order@.take(i + 1).drop_last() =~= order@.take(i as int));
                assert(order@.take(i + 1).last() == victim);
            }
            if self.round + 1 == STEAL_ROUNDS || executor.same_region(self.thread, victim as usize) {
                victims.push(victim);
            }
            i = i + 1;
        }
        proof {
            assert(order@.take(order@.len() as int) =~= order@);
        }
        self.victims = victims;
        self.visited = 0;
        self.retry = false;
        self.stage = StealStage::Threads;
    }

    /// Ends a pass: repeats the round where an attempt lost a race, and goes on
    /// to the next round otherwise.
    pub fn end_pass(&mut self) -> (step: StealStep)
        requires
            old(self)@.stage == StealStage::Threads,
            old(self)@.round < STEAL_ROUNDS,
        ensures
            (final(self)@, step) == old(self)@.pass_ended(),
    {
        if self.retry {
            self.stage = StealStage::StartPass;
            StealStep::Again
        } else if self.round + 1 < STEAL_ROUNDS {
            self.round = self.round + 1;
            self.stage = StealStage::StartPass;
            StealStep::Spin
        } else {
            self.stage = StealStage::Done;
            StealStep::Exhausted
        }
    }

    /// Takes one step: asks a queue, draws the order of a pass, or ends one.
    ///
    /// Whichever step is due, it is decided by the state alone; a queue that is
    /// asked decides its outcome, and chance decides the order of a pass.
    pub fn step(&mut self, executor: &mut Executor, rng: &mut SmallRng) -> (step: StealStep)
        requires
            old(executor).wf(),
            old(self)@.wf(old(executor)@.lists.len()),
        ensures
            final(executor).wf(),
            final(executor)@.lists.len() == old(executor)@.lists.len(),
            final(self)@.wf(old(executor)@.lists.len()),
            steps(old(self)@, old(executor)@, step, final(self)@, final(executor)@),
    {
        let ghost before = self@;
        let ghost queues = executor@;
        proof {
            executor.lemma_wf();
        }
        match self.stage {
            StealStage::GlobalHigh => {
                let outcome = executor.steal_global_high();
                let step = self.answer(outcome);
                assert(asks(before, queues, outcome, executor@));
                assert((self@, step) == before.answered(outcome));
                step
            },
            StealStage::GlobalLow => {
                let outcome = executor.steal_global_low();
                let step = self.answer(outcome);
                assert(asks(before, queues, outcome, executor@));
                assert((self@, step) == before.answered(outcome));
                step
            },
            StealStage::StartPass => {
                let threads: usize = executor.num_threads();
                let order: Vec<u32> = random_permutation(threads as u32, rng);
                assert(forall|i: int|
                    0 <= i < order@.len() ==> order@.contains(#[trigger] order@[i]));
                self.start_pass(executor, &order);
                assert(self@ == before.pass_started(
                    pass_victims(queues, before.thread, before.round, order@),
                ));
                StealStep::Continue
            },
            StealStage::Threads => {
                if self.visited < self.victims.len() {
                    let victim: usize = self.victims[self.visited] as usize;
                    let outcome: StealOutcome;
                    if victim == self.thread {
                        outcome = match executor.pop_own_queue(self.thread) {
                            None => StealOutcome::Empty,
                            Some(task) => StealOutcome::Success(task),
                        };
                    } else {
                        outcome = executor.steal_from(self.thread, victim);
                    }
                    let step = self.answer(outcome);
                    assert(asks(before, queues, outcome, executor@));
                    assert((self@, step) == before.answered(outcome));
                    step
                } else {
                    self.end_pass()
                }
            },
            StealStage::Done => StealStep::Exhausted,
        }
    }
}

} // verus!
