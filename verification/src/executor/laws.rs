//! What holds of the scheduler as a whole: no operation loses or duplicates a
//! task, and a search that loses no race ends, having asked every queue.

use crate::executor::permutation::{law_visits_each_once, visit_order, Draws};
use crate::executor::queues::{moves_batch, takes_front, StealOutcome};
use crate::executor::scheduler::{ExecutorView, TaskListView};
use crate::executor::stealing::{asks, asks_thread, may_visit, pass_victims, StealSearchView, StealStage, StealStep, STEAL_ROUNDS};
use vstd::multiset::Multiset;
use vstd::prelude::*;
use vstd::seq_lib::lemma_multiset_commutative;

verus! {

/// The tasks in one thread's list.
pub open spec fn list_tasks(list: TaskListView) -> Multiset<u64> {
    match list.slot {
        None => list.queue.to_multiset(),
        Some(task) => list.queue.to_multiset().insert(task),
    }
}

/// The tasks in the lists of all threads.
pub open spec fn lists_tasks(lists: Seq<TaskListView>) -> Multiset<u64>
    decreases lists.len(),
{
    if lists.len() == 0 {
        Multiset::empty()
    } else {
        lists_tasks(lists.drop_last()).add(list_tasks(lists.last()))
    }
}

/// Every task that waits anywhere in the executor, as often as it is queued.
pub open spec fn waiting(executor: ExecutorView) -> Multiset<u64> {
    executor.high.to_multiset().add(executor.low.to_multiset()).add(lists_tasks(executor.lists))
}

/// `after` with what `outcome` took out put back.
pub open spec fn with_taken(after: Multiset<u64>, outcome: StealOutcome) -> Multiset<u64> {
    match outcome {
        StealOutcome::Success(task) => after.insert(task),
        _ => after,
    }
}

proof fn lemma_replace_list(lists: Seq<TaskListView>, t: int, list: TaskListView)
    requires
        0 <= t < lists.len(),
    ensures
        lists_tasks(lists.update(t, list)).add(list_tasks(lists[t])) == lists_tasks(lists).add(
            list_tasks(list),
        ),
    decreases lists.len(),
{
    let updated = lists.update(t, list);
    if t == lists.len() - 1 {
        assert(updated.drop_last() =~= lists.drop_last());
        assert(lists_tasks(updated).add(list_tasks(lists[t])) =~= lists_tasks(lists).add(
            list_tasks(list),
        ));
    } else {
        lemma_replace_list(lists.drop_last(), t, list);
        assert(updated.drop_last() =~= lists.drop_last().update(t, list));
        let rest = lists_tasks(lists.drop_last());
        let rest_updated = lists_tasks(lists.drop_last().update(t, list));
        let last = list_tasks(lists.last());
        assert(rest_updated.add(list_tasks(lists[t])) == rest.add(list_tasks(list)));
        assert(rest_updated.add(last).add(list_tasks(lists[t])) =~= rest_updated.add(
            list_tasks(lists[t]),
        ).add(last));
        assert(rest.add(last).add(list_tasks(list)) =~= rest.add(list_tasks(list)).add(last));
    }
}

/// Replacing a list by one with one task more adds that task to the whole.
proof fn lemma_list_gains(executor: ExecutorView, t: int, list: TaskListView, task: u64)
    requires
        0 <= t < executor.lists.len(),
        list_tasks(list) == list_tasks(executor.lists[t]).insert(task),
    ensures
        waiting(executor.with_list(t, list)) == waiting(executor).insert(task),
{
    lemma_replace_list(executor.lists, t, list);
    let before = lists_tasks(executor.lists);
    let after = lists_tasks(executor.lists.update(t, list));
    let old_list = list_tasks(executor.lists[t]);
    assert(after.add(old_list) == before.add(old_list.insert(task)));
    assert forall|x: u64| after.count(x) == before.insert(task).count(x) by {
        assert(after.add(old_list).count(x) == before.add(old_list.insert(task)).count(x));
    }
    assert(after =~= before.insert(task));
    assert(waiting(executor.with_list(t, list)) =~= waiting(executor).insert(task));
}

/// Replacing a list by one with one task less takes that task from the whole.
proof fn lemma_list_loses(executor: ExecutorView, t: int, list: TaskListView, task: u64)
    requires
        0 <= t < executor.lists.len(),
        list_tasks(list).insert(task) == list_tasks(executor.lists[t]),
    ensures
        waiting(executor.with_list(t, list)).insert(task) == waiting(executor),
{
    let after = executor.with_list(t, list);
    lemma_list_gains(after, t, executor.lists[t], task);
    assert(after.with_list(t, executor.lists[t]).lists =~= executor.lists);
    assert(after.with_list(t, executor.lists[t]) == executor);
}

proof fn lemma_push_multiset(tasks: Seq<u64>, task: u64)
    ensures
        tasks.push(task).to_multiset() == tasks.to_multiset().insert(task),
{
    tasks.to_multiset_ensures();
}

proof fn lemma_drop_last_multiset(tasks: Seq<u64>)
    requires
        tasks.len() > 0,
    ensures
        tasks.drop_last().to_multiset().insert(tasks.last()) == tasks.to_multiset(),
{
    lemma_push_multiset(tasks.drop_last(), tasks.last());
    assert(tasks.drop_last().push(tasks.last()) =~= tasks);
}

proof fn lemma_front_multiset(before: Seq<u64>, outcome: StealOutcome, after: Seq<u64>)
    requires
        takes_front(before, outcome, after),
    ensures
        with_taken(after.to_multiset(), outcome) == before.to_multiset(),
{
    if let StealOutcome::Success(task) = outcome {
        let first = seq![task];
        assert(before =~= first + after);
        lemma_multiset_commutative(first, after);
        lemma_push_multiset(Seq::empty(), task);
        assert(Seq::<u64>::empty().push(task) =~= first);
        assert(Seq::<u64>::empty().to_multiset() =~= Multiset::empty()) by {
            Seq::<u64>::empty().to_multiset_ensures();
        }
        assert(after.to_multiset().insert(task) =~= first.to_multiset().add(after.to_multiset()));
    }
}

/// Scheduling a task adds that one task to those that wait.
pub proof fn law_scheduling_adds_the_task(
    executor: ExecutorView,
    thread: int,
    task: u64,
    high: bool,
    fresh: bool,
)
    requires
        executor.wf(),
    ensures
        waiting(executor.scheduled(thread, task, high, fresh).0) == waiting(executor).insert(task),
{
    let after = executor.scheduled(thread, task, high, fresh).0;
    lemma_push_multiset(executor.high, task);
    lemma_push_multiset(executor.low, task);
    if fresh || !(0 <= thread < executor.lists.len()) {
        assert(waiting(after) =~= waiting(executor).insert(task));
    } else {
        let list = executor.lists[thread];
        if high {
            match list.slot {
                None => {
                    lemma_list_gains(
                        executor,
                        thread,
                        TaskListView { slot: Some(task), ..list },
                        task,
                    );
                },
                Some(displaced) => {
                    lemma_push_multiset(list.queue, displaced);
                    let replaced = TaskListView {
                        slot: Some(task),
                        queue: list.queue.push(displaced),
                    };
                    lemma_list_gains(executor, thread, replaced, task);
                },
            }
        } else if list.queue.len() == 0 && list.slot is None {
            lemma_list_gains(executor, thread, TaskListView { slot: Some(task), ..list }, task);
        } else {
            assert(waiting(after) =~= waiting(executor).insert(task));
        }
    }
}

/// A worker that takes its own task takes that one task and nothing else.
pub proof fn law_local_take_removes_the_task(executor: ExecutorView, thread: int)
    requires
        executor.wf(),
        0 <= thread < executor.lists.len(),
    ensures
        match executor.local_task(thread) {
            Some(task) => waiting(executor.local_taken(thread)).insert(task) == waiting(executor),
            None => executor.local_taken(thread) == executor,
        },
{
    let list = executor.lists[thread];
    match list.slot {
        Some(task) => {
            lemma_list_loses(executor, thread, TaskListView { slot: None, ..list }, task);
        },
        None => {
            if list.queue.len() > 0 {
                lemma_drop_last_multiset(list.queue);
                lemma_list_loses(
                    executor,
                    thread,
                    TaskListView { queue: list.queue.drop_last(), ..list },
                    list.queue.last(),
                );
            }
        },
    }
}

/// Asking for a task removes the task that is handed out and no other: tasks
/// that a batch moves between threads still wait.
pub proof fn law_asking_removes_only_the_task(
    search: StealSearchView,
    before: ExecutorView,
    outcome: StealOutcome,
    after: ExecutorView,
)
    requires
        before.wf(),
        search.wf(before.lists.len()),
        search.is_asking(),
        asks(search, before, outcome, after),
    ensures
        with_taken(waiting(after), outcome) == waiting(before),
{
    match search.stage {
        StealStage::GlobalHigh => {
            lemma_front_multiset(before.high, outcome, after.high);
            assert(with_taken(waiting(after), outcome) =~= waiting(before));
        },
        StealStage::GlobalLow => {
            lemma_front_multiset(before.low, outcome, after.low);
            assert(with_taken(waiting(after), outcome) =~= waiting(before));
        },
        _ => {
            let thread = search.thread as int;
            let victim = search.victims[search.visited as int] as int;
            let own = before.lists[thread];
            let robbed = before.lists[victim];
            if victim == thread {
                if own.queue.len() > 0 {
                    lemma_drop_last_multiset(own.queue);
                    let shorter = TaskListView { queue: own.queue.drop_last(), ..own };
                    assert(list_tasks(shorter).insert(own.queue.last()) =~= list_tasks(own));
                    lemma_list_loses(before, thread, shorter, own.queue.last());
                }
            } else {
                match outcome {
                    StealOutcome::Success(task) => {
                        lemma_batch(before, thread, victim, task, after);
                    },
                    _ => {
                        assert(after.lists =~= before.lists);
                    },
                }
            }
        },
    }
}

proof fn lemma_batch(
    before: ExecutorView,
    thread: int,
    victim: int,
    task: u64,
    after: ExecutorView,
)
    requires
        before.wf(),
        0 <= thread < before.lists.len(),
        0 <= victim < before.lists.len(),
        thread != victim,
        asks_thread(before, thread, victim, StealOutcome::Success(task), after),
    ensures
        waiting(after).insert(task) == waiting(before),
{
    let own = before.lists[thread];
    let robbed = before.lists[victim];
    let own_after = after.lists[thread];
    let robbed_after = after.lists[victim];
    let count = choose|count: int| #[trigger]
        moves_batch(robbed.queue, own.queue, task, robbed_after.queue, own_after.queue, count);
    let moved = robbed.queue.take(count - 1);
    assert(robbed.queue =~= (moved.push(task)) + robbed_after.queue);
    lemma_multiset_commutative(moved.push(task), robbed_after.queue);
    lemma_push_multiset(moved, task);
    lemma_multiset_commutative(own.queue, moved);
    let m = moved.to_multiset();
    assert(list_tasks(robbed) =~= list_tasks(robbed_after).add(m).insert(task));
    assert(list_tasks(own_after) =~= list_tasks(own).add(m));
    let middle = before.with_list(victim, robbed_after);
    assert(after == middle.with_list(thread, own_after));
    lemma_replace_list(before.lists, victim, robbed_after);
    lemma_replace_list(middle.lists, thread, own_after);
    let w0 = lists_tasks(before.lists);
    let w1 = lists_tasks(middle.lists);
    let w2 = lists_tasks(after.lists);
    assert(w2.add(list_tasks(own)) == w1.add(list_tasks(own_after)));
    assert(w1.add(list_tasks(robbed)) == w0.add(list_tasks(robbed_after)));
    assert forall|x: u64| w2.insert(task).count(x) == w0.count(x) by {
        assert(w2.add(list_tasks(own)).count(x) == w1.add(list_tasks(own_after)).count(x));
        assert(w1.add(list_tasks(robbed)).count(x) == w0.add(list_tasks(robbed_after)).count(x));
        assert(list_tasks(robbed).count(x) == list_tasks(robbed_after).add(m).insert(task).count(
            x,
        ));
        assert(list_tasks(own_after).count(x) == list_tasks(own).add(m).count(x));
    }
    assert(w2.insert(task) =~= w0);
    assert(waiting(after).insert(task) =~= waiting(before));
}

/// A pass visits exactly the threads that its round may visit: those of the
/// worker's own region, and in the last round all of them.
pub proof fn law_pass_visits_what_it_may(
    executor: ExecutorView,
    thread: nat,
    round: nat,
    draws: Draws,
    victim: u32,
)
    requires
        executor.wf(),
    ensures
        pass_victims(
            executor,
            thread,
            round,
            visit_order(executor.lists.len() as u32, draws),
        ).contains(victim) <==> victim < executor.lists.len() && may_visit(
            executor,
            thread,
            round,
            victim,
        ),
{
    let threads = executor.lists.len() as u32;
    let order = visit_order(threads, draws);
    let allowed = |victim: u32| may_visit(executor, thread, round, victim);
    law_visits_each_once(threads, draws);
    if order.filter(allowed).contains(victim) {
        order.lemma_filter_contains_rev(allowed, victim);
        let i = order.filter(allowed).index_of(victim);
        order.lemma_filter_pred(allowed, i);
    }
    if victim < threads && may_visit(executor, thread, round, victim) {
        assert(order.contains(victim));
        let i = order.index_of(victim);
        order.lemma_filter_contains(allowed, i);
    }
}

/// Asking in vain changes nothing.
pub proof fn law_asking_in_vain_changes_nothing(
    search: StealSearchView,
    before: ExecutorView,
    outcome: StealOutcome,
    after: ExecutorView,
)
    requires
        before.wf(),
        search.wf(before.lists.len()),
        search.is_asking(),
        asks(search, before, outcome, after),
        !(outcome is Success),
    ensures
        after == before,
{
    if search.stage == StealStage::Threads {
        let thread = search.thread as int;
        let victim = search.victims[search.visited as int] as int;
        assert(after.lists =~= before.lists);
    }
    assert(after =~= before);
}

/// The queues that the search has found empty: the global queues that it asked,
/// and those of the threads of this pass that it visited, unless one of the
/// visits lost a race.
pub open spec fn found_empty(search: StealSearchView, executor: ExecutorView) -> bool {
    &&& search.stage != StealStage::GlobalHigh ==> executor.high.len() == 0
    &&& search.stage != StealStage::GlobalHigh && search.stage != StealStage::GlobalLow
        ==> executor.low.len() == 0
    &&& search.stage == StealStage::Threads || search.stage == StealStage::Done ==> (!search.retry
        ==> forall|i: int|
        0 <= i < search.visited ==> #[trigger] executor.lists[search.victims[i] as int].queue.len()
            == 0)
}

/// As long as nobody else touches the queues, a search that has taken nothing
/// remembers which of them are empty: each answer keeps this true.
pub proof fn law_search_remembers_empty_queues(
    search: StealSearchView,
    before: ExecutorView,
    outcome: StealOutcome,
    after: ExecutorView,
)
    requires
        before.wf(),
        search.wf(before.lists.len()),
        search.is_asking(),
        asks(search, before, outcome, after),
        !(outcome is Success),
        found_empty(search, before),
    ensures
        found_empty(search.answered(outcome).0, after),
{
    law_asking_in_vain_changes_nothing(search, before, outcome, after);
    let next = search.answered(outcome).0;
    if search.stage == StealStage::Threads && !next.retry {
        let victim = search.victims[search.visited as int] as int;
        assert(before.lists[victim].queue.len() == 0);
        assert forall|i: int| 0 <= i < next.visited implies #[trigger] after.lists[next.victims[i] as int].queue.len()
            == 0 by {
            if i < search.visited {
                assert(before.lists[search.victims[i] as int].queue.len() == 0);
            }
        }
    }
}

/// A search that comes up with nothing looked everywhere: when its last pass
/// ends, both global queues and the queue of every thread are empty.
pub proof fn law_exhausted_search_saw_all_empty(
    search: StealSearchView,
    executor: ExecutorView,
    draws: Draws,
    t: int,
)
    requires
        executor.wf(),
        search.wf(executor.lists.len()),
        search.stage == StealStage::Threads,
        !search.is_asking(),
        search.victims == pass_victims(
            executor,
            search.thread,
            search.round,
            visit_order(executor.lists.len() as u32, draws),
        ),
        found_empty(search, executor),
        search.pass_ended().1 == StealStep::Exhausted,
        0 <= t < executor.lists.len(),
    ensures
        executor.high.len() == 0,
        executor.low.len() == 0,
        executor.lists[t].queue.len() == 0,
{
    let victim = t as u32;
    law_pass_visits_what_it_may(executor, search.thread, search.round, draws, victim);
    assert(search.victims.contains(victim));
    let i = search.victims.index_of(victim);
    assert(executor.lists[search.victims[i] as int].queue.len() == 0);
}

/// How many steps a search over `threads` threads can still take where no
/// attempt loses a race.
pub open spec fn steps_left(search: StealSearchView, threads: nat) -> int {
    let passes: int = STEAL_ROUNDS - search.round;
    match search.stage {
        StealStage::GlobalHigh => passes * (threads + 2) + 2,
        StealStage::GlobalLow => passes * (threads + 2) + 1,
        StealStage::StartPass => passes * (threads + 2),
        StealStage::Threads => passes * (threads + 2) - 1 - search.visited,
        StealStage::Done => 0,
    }
}

/// A search that loses no race ends: an answer brings it closer to its end.
pub proof fn law_answer_brings_search_closer(
    search: StealSearchView,
    outcome: StealOutcome,
    threads: nat,
)
    requires
        search.wf(threads),
        search.victims.len() <= threads,
        search.is_asking(),
        outcome != StealOutcome::Retry,
    ensures
        0 <= steps_left(search.answered(outcome).0, threads) < steps_left(search, threads),
{
    lemma_steps_left(search, threads);
}

/// A search that loses no race ends: drawing an order brings it closer to its end.
pub proof fn law_start_brings_search_closer(
    search: StealSearchView,
    executor: ExecutorView,
    draws: Draws,
)
    requires
        executor.wf(),
        search.wf(executor.lists.len()),
        search.stage == StealStage::StartPass,
    ensures
        ({
            let threads = executor.lists.len();
            let victims = pass_victims(
                executor,
                search.thread,
                search.round,
                visit_order(threads as u32, draws),
            );
            let next = search.pass_started(victims);
            next.victims.len() <= threads && 0 <= steps_left(next, threads) < steps_left(
                search,
                threads,
            )
        }),
{
    let threads = executor.lists.len();
    let order = visit_order(threads as u32, draws);
    law_visits_each_once(threads as u32, draws);
    order.lemma_filter_len(|victim: u32| may_visit(executor, search.thread, search.round, victim));
    lemma_steps_left(search, threads);
    lemma_steps_left(
        search.pass_started(pass_victims(executor, search.thread, search.round, order)),
        threads,
    );
}

/// A search that loses no race ends: so does ending a pass.
pub proof fn law_end_brings_search_closer(search: StealSearchView, threads: nat)
    requires
        search.wf(threads),
        search.victims.len() <= threads,
        search.stage == StealStage::Threads,
        !search.is_asking(),
        !search.retry,
    ensures
        0 <= steps_left(search.pass_ended().0, threads) < steps_left(search, threads),
{
    lemma_steps_left(search, threads);
    lemma_steps_left(search.pass_ended().0, threads);
    assert((STEAL_ROUNDS - search.round) * (threads + 2) == (STEAL_ROUNDS - search.round - 1) * (
    threads + 2) + (threads + 2)) by (nonlinear_arith);
}

pub proof fn lemma_steps_left(search: StealSearchView, threads: nat)
    requires
        search.stage != StealStage::Done ==> search.round < STEAL_ROUNDS,
    ensures
        search.stage != StealStage::Done ==> (STEAL_ROUNDS - search.round) * (threads + 2) >= threads
            + 2,
{
    if search.stage != StealStage::Done {
        assert((STEAL_ROUNDS - search.round) * (threads + 2) >= threads + 2) by (nonlinear_arith)
            requires
                STEAL_ROUNDS - search.round >= 1,
        ;
    }
}

} // verus!
