//! How a search for a task, or for a worker to wake, goes on.

use crate::executor::identity::RunnerCounts;
use crate::executor::permutation::thread_random_permutation;
use crate::executor::scheduler::Executor;
use crate::executor::stealing::StealSearch;
use crate::executor::wake::UnparkSearch;
use rand::rngs::SmallRng;
use vstd::prelude::*;

#[allow(unused_imports)]
use crate::executor::permutation::{law_visits_each_once, visit_order, Draws};
#[allow(unused_imports)]
use crate::executor::queues::StealOutcome;
#[allow(unused_imports)]
use crate::executor::stealing::{asks, may_visit, StealSearchView, StealStage, StealStep};
#[allow(unused_imports)]
use crate::executor::wake::{law_unpark_asks_each_region_once, region_order};

verus! {

/// A search begins with the global queue of high priority, in its first round.
pub proof fn law_search_begins_with_high_priority(thread: usize, search: StealSearch)
    requires
        call_ensures(StealSearch::new, (thread,), search),
    ensures
        search@.thread == thread,
        search@.stage == StealStage::GlobalHigh,
        search@.round == 0,
        search@.victims.len() == 0,
        !search@.retry,
{
}

/// A task that was found ends the search, wherever it was found.
pub proof fn law_found_task_ends_the_search(
    search: &mut StealSearch,
    task: u64,
    step: StealStep,
)
    requires
        call_ensures(StealSearch::answer, (search, StealOutcome::Success(task)), step),
    ensures
        step == StealStep::Found(task),
        final(search)@.stage == StealStage::Done,
        final(search)@ == (StealSearchView { stage: StealStage::Done, ..old(search)@ }),
{
}

/// An empty queue is left: low priority comes after high, and the threads after
/// low, where the next is visited.
pub proof fn law_empty_queue_is_left(search: &mut StealSearch, step: StealStep)
    requires
        call_ensures(StealSearch::answer, (search, StealOutcome::Empty), step),
        old(search)@.stage is GlobalHigh || old(search)@.stage is GlobalLow || old(search)@.stage is Threads,
    ensures
        step == StealStep::Continue,
        old(search)@.stage is GlobalHigh ==> final(search)@.stage is GlobalLow,
        old(search)@.stage is GlobalLow ==> final(search)@.stage is StartPass,
        old(search)@.stage is Threads ==> final(search)@.stage is Threads,
        final(search)@.visited == old(search)@.visited + if old(search)@.stage is Threads {
            1int
        } else {
            0
        },
        final(search)@ == (StealSearchView {
            stage: final(search)@.stage,
            visited: final(search)@.visited,
            ..old(search)@
        }),
{
}

/// A lost race at a global queue is run again at once. One at a thread is left
/// for the next pass, which the search remembers.
pub proof fn law_lost_race_is_run_again(search: &mut StealSearch, step: StealStep)
    requires
        call_ensures(StealSearch::answer, (search, StealOutcome::Retry), step),
        old(search)@.stage is GlobalHigh || old(search)@.stage is GlobalLow || old(search)@.stage is Threads,
    ensures
        !(old(search)@.stage is Threads) ==> step == StealStep::Again && final(search)@ == old(search)@,
        old(search)@.stage is Threads ==> step == StealStep::Continue && final(search)@.retry
            && final(search)@ == (StealSearchView {
            visited: old(search)@.visited + 1,
            retry: true,
            ..old(search)@
        }),
{
}

/// The first three rounds visit the threads of the searcher's own region, and the
/// fourth visits all, each time in the order that was drawn.
pub proof fn law_first_three_rounds_stay_in_the_region(
    search: &mut StealSearch,
    executor: &Executor,
    order: &Vec<u32>,
    victim: u32,
)
    requires
        call_ensures(StealSearch::start_pass, (search, executor, order), ()),
        order@.contains(victim),
    ensures
        ({
            let numa = executor@.numa;
            let own = numa[old(search)@.thread as int] == numa[victim as int];
            &&& old(search)@.round < 3 ==> (final(search)@.victims.contains(victim) <==> own)
            &&& old(search)@.round == 3 ==> final(search)@.victims == order@
        }),
        final(search)@.victims.len() <= order@.len(),
        forall|v: u32| #[trigger]
            final(search)@.victims.contains(v) ==> order@.contains(v),
        final(search)@.stage is Threads,
        final(search)@.visited == 0,
        !final(search)@.retry,
        final(search)@.round == old(search)@.round,
        final(search)@.thread == old(search)@.thread,
{
    let allowed = |v: u32|
        may_visit(executor@, old(search)@.thread, old(search)@.round, v);
    let victims = order@.filter(allowed);
    assert(final(search)@.victims == victims);
    lemma_filtered(order@, allowed, victim);
    assert forall|v: u32| #[trigger] victims.contains(v) implies order@.contains(v) by {
        lemma_filtered(order@, allowed, v);
    }
    if old(search)@.round == 3 {
        lemma_all_filtered(order@, allowed);
    }
}

proof fn lemma_filtered(order: Seq<u32>, allowed: spec_fn(u32) -> bool, v: u32)
    ensures
        order.filter(allowed).contains(v) <==> order.contains(v) && allowed(v),
        order.filter(allowed).len() <= order.len(),
    decreases order.len(),
{
    reveal(Seq::filter);
    if order.len() > 0 {
        let rest = order.drop_last();
        lemma_filtered(rest, allowed, v);
        assert(order =~= rest.push(order.last()));
        let kept = rest.filter(allowed);
        if order.contains(v) {
            let i = order.index_of(v);
            if i < rest.len() {
                assert(rest[i] == v);
            }
        }
        if rest.contains(v) {
            let i = rest.index_of(v);
            assert(order[i] == v);
        }
        if allowed(order.last()) {
            let all = kept.push(order.last());
            assert(order.filter(allowed) == all);
            if kept.contains(v) {
                assert(all[kept.index_of(v)] == v);
            }
            assert(all[kept.len() as int] == order.last());
            if all.contains(v) && v != order.last() {
                let i = all.index_of(v);
                assert(kept[i] == v);
            }
        }
    }
}

proof fn lemma_all_filtered(order: Seq<u32>, allowed: spec_fn(u32) -> bool)
    requires
        forall|v: u32| #[trigger] allowed(v),
    ensures
        order.filter(allowed) == order,
    decreases order.len(),
{
    reveal(Seq::filter);
    if order.len() > 0 {
        lemma_all_filtered(order.drop_last(), allowed);
        assert(allowed(order.last()));
        assert(order =~= order.drop_last().push(order.last()));
    } else {
        assert(order.filter(allowed) =~= order);
    }
}

/// A pass in which a race was lost is made again in the same round. Otherwise the
/// next round follows after a moment, and after the fourth the search is over.
pub proof fn law_search_makes_four_rounds(search: &mut StealSearch, step: StealStep)
    requires
        call_ensures(StealSearch::end_pass, (search,), step),
        old(search)@.round < 4,
    ensures
        old(search)@.retry ==> step == StealStep::Again && final(search)@.stage is StartPass
            && final(search)@.round == old(search)@.round,
        !old(search)@.retry && old(search)@.round < 3 ==> step == StealStep::Spin
            && final(search)@.stage is StartPass && final(search)@.round == old(search)@.round + 1,
        !old(search)@.retry && old(search)@.round == 3 ==> step == StealStep::Exhausted
            && final(search)@.stage is Done,
        final(search)@.thread == old(search)@.thread,
{
}

/// A search for a worker to wake asks each region exactly once, until one wakes a
/// worker.
pub proof fn law_wake_search_asks_each_region(
    executor: &Executor,
    search: UnparkSearch,
    first: Option<usize>,
    region: usize,
)
    requires
        executor.wf(),
        call_ensures(Executor::unpark_one_worker_random_numa_region, (executor,), search),
        call_ensures(UnparkSearch::next_region, (&search,), first),
    ensures
        search@.order.len() == executor@.num_regions,
        search@.order.no_duplicates(),
        search@.order.contains(region) <==> region < executor@.num_regions,
        executor@.num_regions > 0 ==> first == Some(search@.order[0]),
{
    executor.lemma_wf();
    let draws = choose|draws: Draws|
        search@.order == #[trigger] region_order(executor@.num_regions, draws);
    law_unpark_asks_each_region_once(executor@.num_regions, draws, region);
}

/// An order that the thread draws for itself has one place for each index too.
pub proof fn law_drawn_order_has_a_place_for_each(len: u32, order: Vec<u32>, i: u32)
    requires
        len <= 0x8000_0000,
        call_ensures(thread_random_permutation, (len,), order),
    ensures
        order@.len() == len,
        order@.no_duplicates(),
        order@.contains(i) <==> i < len,
{
    let draws = choose|draws: Draws| order@ == #[trigger] visit_order(len, draws);
    law_visits_each_once(len, draws);
}

/// A new runner without an identity is one more in its region, and none
/// elsewhere, and two runners made one after the other have names of their own.
pub proof fn law_new_runner_counts_in_its_region(
    counts: &mut RunnerCounts,
    region: usize,
    name: usize,
    later: &mut RunnerCounts,
    other: usize,
    next: usize,
)
    requires
        call_ensures(RunnerCounts::spawn_runner_without_identity, (counts, region), name),
        call_ensures(RunnerCounts::spawn_runner_without_identity, (later, other), next),
        *old(later) == *final(counts),
        region < old(counts)@.without_identity.len(),
        other < old(counts)@.without_identity.len(),
        old(counts)@.without_identity[region as int] < usize::MAX,
        name < usize::MAX,
    ensures
        next == name + 1,
        final(counts)@.without_identity.len() == old(counts)@.without_identity.len(),
        final(counts)@.without_identity[region as int] == old(counts)@.without_identity[region as int] + 1,
        forall|r: int|
            0 <= r < old(counts)@.without_identity.len() && r != region
                ==> #[trigger] final(counts)@.without_identity[r] == old(counts)@.without_identity[r],
{
}

/// A step asks where the search stands: at a global queue, for its oldest task,
/// and at the searcher itself, for its newest. What is not taken stays.
pub proof fn law_step_asks_where_the_search_stands(
    search: &mut StealSearch,
    executor: &mut Executor,
    rng: &mut SmallRng,
    step: StealStep,
)
    requires
        call_ensures(StealSearch::step, (search, executor, rng), step),
        old(search)@.thread < old(executor)@.lists.len(),
    ensures
        old(search)@.stage is GlobalHigh ==> {
            &&& old(executor)@.high.len() == 0 ==> step == StealStep::Continue && final(search)@.stage is GlobalLow && final(executor)@ == old(executor)@
            &&& old(executor)@.high.len() > 0 ==> (step == StealStep::Found(old(executor)@.high[0])
                && final(executor)@.high == old(executor)@.high.skip(1) && final(search)@.stage is Done)
                || (step == StealStep::Again && final(executor)@ == old(executor)@ && final(search)@ == old(search)@)
            &&& final(executor)@.low == old(executor)@.low
            &&& final(executor)@.lists == old(executor)@.lists
        },
        old(search)@.stage is GlobalLow ==> {
            &&& old(executor)@.low.len() == 0 ==> step == StealStep::Continue && final(search)@.stage is StartPass && final(executor)@ == old(executor)@
            &&& old(executor)@.low.len() > 0 ==> (step == StealStep::Found(old(executor)@.low[0])
                && final(executor)@.low == old(executor)@.low.skip(1) && final(search)@.stage is Done)
                || (step == StealStep::Again && final(executor)@ == old(executor)@ && final(search)@ == old(search)@)
            &&& final(executor)@.high == old(executor)@.high
            &&& final(executor)@.lists == old(executor)@.lists
        },
        old(search)@.stage is StartPass ==> step == StealStep::Continue && final(search)@.stage is Threads
            && final(executor)@ == old(executor)@,
        old(search)@.stage is Threads && old(search)@.visited < old(search)@.victims.len()
            && old(search)@.victims[old(search)@.visited as int] == old(search)@.thread ==> {
            let own = old(executor)@.lists[old(search)@.thread as int].queue;
            &&& own.len() == 0 ==> step == StealStep::Continue && final(executor)@ == old(executor)@
            &&& own.len() > 0 ==> step == StealStep::Found(own[own.len() - 1]) && final(executor)@.lists[old(search)@.thread as int].queue == own.take(own.len() - 1)
        },
        old(search)@.stage is Done ==> step == StealStep::Exhausted && final(executor)@ == old(executor)@,
{
    let own = old(executor)@.lists[old(search)@.thread as int].queue;
    if own.len() > 0 {
        assert(own.take(own.len() - 1) =~= own.drop_last());
    }
    if old(search)@.is_asking() {
        let outcome = choose|outcome: StealOutcome|
            (final(search)@, step) == #[trigger] old(search)@.answered(outcome) && asks(
                old(search)@,
                old(executor)@,
                outcome,
                final(executor)@,
            );
        if outcome is Empty || outcome is Retry {
            if old(search)@.stage is GlobalHigh || old(search)@.stage is GlobalLow {
                assert(final(executor)@ =~= old(executor)@);
            }
        }
    }
}

} // verus!
