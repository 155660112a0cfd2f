//! A whole search for a task to steal.

use crate::executor::scheduler::Executor;
use crate::executor::stealing::{StealSearch, StealStep};
use rand::rngs::SmallRng;
use vstd::prelude::*;

#[allow(unused_imports)]
use crate::executor::laws::{found_empty, law_asking_in_vain_changes_nothing, law_asking_removes_only_the_task, law_end_brings_search_closer, law_pass_visits_what_it_may, law_search_remembers_empty_queues, law_start_brings_search_closer, lemma_steps_left, steps_left, waiting};
#[allow(unused_imports)]
use crate::executor::permutation::{law_visits_in_range, visit_order, Draws};
#[allow(unused_imports)]
use crate::executor::queues::StealOutcome;
#[allow(unused_imports)]
use crate::executor::scheduler::ExecutorView;
#[allow(unused_imports)]
use crate::executor::stealing::{asks, asks_thread, may_visit, new_search, pass_victims, steps, StealSearchView, StealStage, STEAL_ROUNDS};

verus! {

/// What a search for a task came to.
#[derive(Clone, Copy, Debug, PartialEq, Eq, Structural)]
pub enum StealAttempt {
    /// The task was taken.
    Found(u64),
    /// There was nothing to take.
    Nothing,
    /// The search was broken off.
    Impatient,
}

/// No thread in the region of `thread` has a task in its queue.
pub open spec fn region_is_empty(executor: ExecutorView, thread: int) -> bool {
    forall|t: int|
        0 <= t < executor.lists.len() && executor.numa[t] == executor.numa[thread]
            ==> #[trigger] executor.lists[t].queue.len() == 0
}

/// No thread has a task in its queue.
pub open spec fn threads_are_empty(executor: ExecutorView) -> bool {
    forall|t: int|
        0 <= t < executor.lists.len() ==> #[trigger] executor.lists[t].queue.len() == 0
}

/// `thread` took `task` from the queue of `victim`, which is in another region
/// only where the region of `thread` had nothing to take.
pub open spec fn robs(
    before: ExecutorView,
    thread: int,
    victim: int,
    task: u64,
    after: ExecutorView,
) -> bool {
    &&& 0 <= victim < before.lists.len()
    &&& asks_thread(before, thread, victim, StealOutcome::Success(task), after)
    &&& before.numa[victim] != before.numa[thread] ==> region_is_empty(before, thread)
}

/// `thread` took `task` from the queue of some thread.
pub open spec fn robs_some(before: ExecutorView, thread: int, task: u64, after: ExecutorView) -> bool {
    exists|victim: int| #[trigger] robs(before, thread, victim, task, after)
}

/// Whether a search may fail to take a task that is there: there is one in a
/// global queue.
pub open spec fn is_contested(executor: ExecutorView) -> bool {
    executor.high.len() > 0 || executor.low.len() > 0
}

/// A search by `thread` can take the steps `made`, going through `states`, and
/// take nothing.
pub open spec fn searches(
    executor: ExecutorView,
    thread: int,
    states: Seq<StealSearchView>,
    made: Seq<StealStep>,
) -> bool {
    &&& states.len() == made.len() + 1
    &&& states[0] == new_search(thread as nat)
    &&& forall|i: int|
        0 <= i < made.len() ==> steps(
            states[i],
            executor,
            #[trigger] made[i],
            states[i + 1],
            executor,
        )
}

/// How many of the steps end in having to do the same again.
pub open spec fn repeats(made: Seq<StealStep>) -> nat
    decreases made.len(),
{
    if made.len() == 0 {
        0
    } else {
        repeats(made.drop_last()) + if made.last() == StealStep::Again {
            1nat
        } else {
            0
        }
    }
}

/// A search by `thread` that takes nothing came to `count` repetitions.
pub open spec fn comes_to_repeats(executor: ExecutorView, thread: int, count: nat) -> bool {
    exists|states: Seq<StealSearchView>, made: Seq<StealStep>| #[trigger]
        searches(executor, thread, states, made) && repeats(made) == count
}

/// The effect of a search by `thread` with some patience: it takes the oldest
/// task of high priority, or else the oldest of low priority, or else one from
/// the queue of some thread, and takes nothing only where nothing was found
/// anywhere. It is broken off only where a global queue that holds a task failed
/// to hand it out, more often than the search has patience for.
pub open spec fn steals(
    before: ExecutorView,
    thread: int,
    patience: u64,
    attempt: StealAttempt,
    after: ExecutorView,
) -> bool {
    match attempt {
        StealAttempt::Found(task) => if before.high.len() > 0 {
            task == before.high[0] && after == (ExecutorView {
                high: before.high.skip(1),
                ..before
            })
        } else if before.low.len() > 0 {
            task == before.low[0] && after == (ExecutorView { low: before.low.skip(1), ..before })
        } else {
            robs_some(before, thread, task, after)
        },
        StealAttempt::Nothing => {
            &&& after == before
            &&& before.high.len() == 0
            &&& before.low.len() == 0
            &&& threads_are_empty(before)
        },
        StealAttempt::Impatient => {
            &&& after == before
            &&& is_contested(before)
            &&& comes_to_repeats(before, thread, (patience + 1) as nat)
        },
    }
}

/// What a search by `thread` knows of queues that nobody else touches.
spec fn knows(search: StealSearchView, executor: ExecutorView) -> bool {
    &&& search.stage != StealStage::Done
    &&& search.wf(executor.lists.len())
    &&& search.victims.len() <= executor.lists.len()
    &&& found_empty(search, executor)
    &&& !search.retry
    &&& search.round > 0 ==> region_is_empty(executor, search.thread as int)
    &&& search.stage == StealStage::Threads ==> exists|draws: Draws|
        search.victims == pass_victims(
            executor,
            search.thread,
            search.round,
            #[trigger] visit_order(executor.lists.len() as u32, draws),
        )
}

/// What an answer teaches a search.
proof fn lemma_answer(
    search: StealSearchView,
    patience: u64,
    before: ExecutorView,
    outcome: StealOutcome,
    after: ExecutorView,
)
    requires
        before.wf(),
        knows(search, before),
        search.is_asking(),
        asks(search, before, outcome, after),
    ensures
        match search.answered(outcome).1 {
            StealStep::Found(task) => steals(
                before,
                search.thread as int,
                patience,
                StealAttempt::Found(task),
                after,
            ),
            StealStep::Continue => after == before && knows(search.answered(outcome).0, after)
                && 0 <= steps_left(search.answered(outcome).0, before.lists.len()) < steps_left(
                search,
                before.lists.len(),
            ),
            StealStep::Again => after == before && search.answered(outcome).0 == search
                && is_contested(before),
            _ => false,
        },
{
    let threads = before.lists.len();
    let next = search.answered(outcome).0;
    match outcome {
        StealOutcome::Success(task) => {
            if search.stage == StealStage::Threads {
                let victim = search.victims[search.visited as int] as int;
                let draws = choose|draws: Draws|
                    search.victims == pass_victims(
                        before,
                        search.thread,
                        search.round,
                        #[trigger] visit_order(threads as u32, draws),
                    );
                assert(search.victims.contains(search.victims[search.visited as int]));
                law_pass_visits_what_it_may(
                    before,
                    search.thread,
                    search.round,
                    draws,
                    victim as u32,
                );
                assert(before.high.len() == 0 && before.low.len() == 0);
                assert(robs(before, search.thread as int, victim, task, after));
                assert(robs_some(before, search.thread as int, task, after));
            } else if search.stage == StealStage::GlobalHigh {
                assert(after.high == before.high.skip(1));
            } else {
                assert(search.stage == StealStage::GlobalLow);
                assert(after.low == before.low.skip(1));
            }
        },
        _ => {
            law_asking_in_vain_changes_nothing(search, before, outcome, after);
            law_search_remembers_empty_queues(search, before, outcome, after);
            lemma_steps_left(search, threads);
        },
    }
}

/// What the end of a pass teaches a search.
proof fn lemma_pass_end(search: StealSearchView, patience: u64, executor: ExecutorView)
    requires
        executor.wf(),
        knows(search, executor),
        search.stage == StealStage::Threads,
        !search.is_asking(),
    ensures
        match search.pass_ended().1 {
            StealStep::Exhausted => steals(
                executor,
                search.thread as int,
                patience,
                StealAttempt::Nothing,
                executor,
            ),
            StealStep::Spin => {
                let next = search.pass_ended().0;
                let threads = executor.lists.len();
                &&& knows(next, executor)
                &&& 0 <= steps_left(next, threads) < steps_left(search, threads)
            },
            _ => false,
        },
{
    let threads = executor.lists.len();
    let next = search.pass_ended().0;
    let draws = choose|draws: Draws|
        search.victims == pass_victims(
            executor,
            search.thread,
            search.round,
            #[trigger] visit_order(threads as u32, draws),
        );
    if !search.retry {
        law_end_brings_search_closer(search, threads);
        assert forall|t: int|
            0 <= t < threads && may_visit(
                executor,
                search.thread,
                search.round,
                t as u32,
            ) implies #[trigger] executor.lists[t].queue.len() == 0 by {
            law_pass_visits_what_it_may(executor, search.thread, search.round, draws, t as u32);
            assert(search.victims.contains(t as u32));
            let i = search.victims.index_of(t as u32);
            assert(executor.lists[search.victims[i] as int].queue.len() == 0);
        }
        if search.round + 1 == STEAL_ROUNDS {
            assert forall|t: int| 0 <= t < threads implies #[trigger] executor.lists[t].queue.len()
                == 0 by {
                assert(may_visit(executor, search.thread, search.round, t as u32));
            }
        } else {
            assert forall|t: int|
                0 <= t < threads && executor.numa[t]
                    == executor.numa[search.thread as int] implies #[trigger] executor.lists[t].queue.len()
                == 0 by {
                assert(may_visit(executor, search.thread, search.round, t as u32));
            }
        }
    }
}

/// What one step teaches a search.
proof fn lemma_step(
    search: StealSearchView,
    patience: u64,
    before: ExecutorView,
    step: StealStep,
    next: StealSearchView,
    after: ExecutorView,
)
    requires
        before.wf(),
        knows(search, before),
        steps(search, before, step, next, after),
    ensures
        match step {
            StealStep::Found(task) => steals(
                before,
                search.thread as int,
                patience,
                StealAttempt::Found(task),
                after,
            ),
            StealStep::Exhausted => steals(
                before,
                search.thread as int,
                patience,
                StealAttempt::Nothing,
                after,
            ),
            StealStep::Again => after == before && knows(next, after) && next.thread
                == search.thread && 0 <= steps_left(next, before.lists.len()) && is_contested(before),
            _ => after == before && knows(next, after) && next.thread == search.thread && 0
                <= steps_left(
                next,
                before.lists.len(),
            ) < steps_left(
                search,
                before.lists.len(),
            ),
        },
{
    let threads = before.lists.len();
    lemma_steps_left(search, threads);
    if search.is_asking() {
        let outcome = choose|outcome: StealOutcome|
            (next, step) == #[trigger] search.answered(outcome) && asks(
                search,
                before,
                outcome,
                after,
            );
        lemma_answer(search, patience, before, outcome, after);
        lemma_steps_left(next, threads);
    } else if search.stage == StealStage::StartPass {
        let draws = choose|draws: Draws|
            next == search.pass_started(
                pass_victims(
                    before,
                    search.thread,
                    search.round,
                    #[trigger] visit_order(threads as u32, draws),
                ),
            );
        law_start_brings_search_closer(search, before, draws);
        assert forall|i: int| 0 <= i < next.victims.len() implies #[trigger] next.victims[i]
            < threads by {
            let order = visit_order(threads as u32, draws);
            let allowed = |victim: u32| may_visit(before, search.thread, search.round, victim);
            order.lemma_filter_contains_rev(allowed, next.victims[i]);
            let j = order.index_of(next.victims[i]);
            law_visits_in_range(threads as u32, draws);
            assert(order[j] < threads);
        }
    } else {
        lemma_pass_end(search, patience, before);
        lemma_steps_left(next, threads);
    }
}

/// A search can go on by a step that takes nothing.
proof fn lemma_searches_on(
    executor: ExecutorView,
    thread: int,
    states: Seq<StealSearchView>,
    made: Seq<StealStep>,
    step: StealStep,
    next: StealSearchView,
)
    requires
        searches(executor, thread, states, made),
        steps(states.last(), executor, step, next, executor),
    ensures
        searches(executor, thread, states.push(next), made.push(step)),
        repeats(made.push(step)) == repeats(made) + if step == StealStep::Again {
            1nat
        } else {
            0
        },
{
    assert(made.push(step).drop_last() =~= made);
    let longer = made.push(step);
    let states_after = states.push(next);
    assert forall|i: int| 0 <= i < longer.len() implies steps(
        states_after[i],
        executor,
        #[trigger] longer[i],
        states_after[i + 1],
        executor,
    ) by {
        if i < made.len() {
            assert(longer[i] == made[i]);
        }
    }
}

/// Calls `std::hint::spin_loop`, a hint to the processor that changes nothing.
#[verifier::external_body]
fn spin_loop() {
    std::hint::spin_loop()
}

impl Executor {
    /// Searches for a task to run by the worker of `thread`, which found
    /// nothing in its own list.
    ///
    /// A search that fails to take a task which is there does the same again: it
    /// asks the global queue again, or makes another pass over the threads. It
    /// does so up to `patience` times and is broken off at the next.
    pub fn try_steal_task(&mut self, thread: usize, rng: &mut SmallRng, patience: u64) -> (attempt:
        StealAttempt)
        requires
            old(self).wf(),
            thread < old(self)@.lists.len(),
        ensures
            final(self).wf(),
            steals(old(self)@, thread as int, patience, attempt, final(self)@),
    {
        let ghost before = self@;
        proof {
            self.lemma_wf();
        }
        let mut search = StealSearch::new(thread);
        let mut patience_left: u64 = patience;
        let ghost mut states = seq![search@];
        let ghost mut made = Seq::<StealStep>::empty();
        loop
            invariant
                self.wf(),
                before.wf(),
                self@ == before,
                before == old(self)@,
                knows(search@, before),
                search@.thread == thread,
                patience_left <= patience,
                searches(before, thread as int, states, made),
                states.last() == search@,
                repeats(made) == patience - patience_left,
                steps_left(search@, before.lists.len()) >= 0,
            decreases patience_left, steps_left(search@, before.lists.len()),
        {
            let ghost state = search@;
            let step = search.step(self, rng);
            proof {
                lemma_step(state, patience, before, step, search@, self@);
                if self@ == before {
                    lemma_searches_on(before, thread as int, states, made, step, search@);
                    states = states.push(search@);
                    made = made.push(step);
                }
            }
            match step {
                StealStep::Found(task) => {
                    return StealAttempt::Found(task);
                },
                StealStep::Exhausted => {
                    return StealAttempt::Nothing;
                },
                StealStep::Continue => {},
                StealStep::Spin => spin_loop(),
                StealStep::Again => {
                    if patience_left == 0 {
                        return StealAttempt::Impatient;
                    }
                    patience_left = patience_left - 1;
                    spin_loop();
                },
            }
        }
    }
}

/// A search that takes a task takes that one task from those that wait, and one
/// that takes none leaves them all: tasks that it moves between threads still
/// wait.
pub proof fn law_stealing_removes_only_the_task(
    before: ExecutorView,
    thread: nat,
    patience: u64,
    attempt: StealAttempt,
    after: ExecutorView,
)
    requires
        before.wf(),
        thread < before.lists.len(),
        steals(before, thread as int, patience, attempt, after),
    ensures
        match attempt {
            StealAttempt::Found(task) => waiting(after).insert(task) == waiting(before),
            _ => after == before,
        },
{
    if let StealAttempt::Found(task) = attempt {
        let outcome = StealOutcome::Success(task);
        let search = new_search(thread);
        if before.high.len() > 0 {
            law_asking_removes_only_the_task(search, before, outcome, after);
        } else if before.low.len() > 0 {
            let search = StealSearchView { stage: StealStage::GlobalLow, ..search };
            law_asking_removes_only_the_task(search, before, outcome, after);
        } else {
            let victim = choose|victim: int| #[trigger]
                robs(before, thread as int, victim, task, after);
            let search = search.pass_started(seq![victim as u32]);
            law_asking_removes_only_the_task(search, before, outcome, after);
        }
    }
}

} // verus!
