//! Which parked workers are woken when there is work for them.

use crate::executor::permutation::thread_random_permutation;
use crate::executor::scheduler::Executor;
use vstd::prelude::*;

#[allow(unused_imports)]
use crate::executor::permutation::{law_visits_each_once, visit_order, Draws};

verus! {

/// A search through the NUMA regions for one parked worker to wake.
pub struct UnparkSearch {
    order: Vec<usize>,
    tried: usize,
    woke: bool,
}

/// The state of such a search: the first `tried` regions of `order` were asked
/// to wake a worker, and `woke` is whether the last of them did.
#[verifier::ext_equal]
pub struct UnparkSearchView {
    pub order: Seq<usize>,
    pub tried: nat,
    pub woke: bool,
}

impl View for UnparkSearch {
    type V = UnparkSearchView;

    closed spec fn view(&self) -> UnparkSearchView {
        UnparkSearchView { order: self.order@, tried: self.tried as nat, woke: self.woke }
    }
}

/// The order in which the regions are asked: the only one there is, or all of
/// them at random.
pub open spec fn region_order(num_regions: nat, draws: Draws) -> Seq<usize> {
    if num_regions == 1 {
        seq![0]
    } else {
        visit_order(num_regions as u32, draws).map_values(|region: u32| region as usize)
    }
}

impl UnparkSearchView {
    /// The region to ask next, if the search goes on.
    pub open spec fn next(self) -> Option<usize> {
        if !self.woke && self.tried < self.order.len() {
            Some(self.order[self.tried as int])
        } else {
            None
        }
    }
}

impl UnparkSearch {
    /// The region to ask next. There is none once a worker was woken, or once
    /// no region had one to wake.
    pub fn next_region(&self) -> (region: Option<usize>)
        ensures
            region == self@.next(),
    {
        if !self.woke && self.tried < self.order.len() {
            Some(self.order[self.tried])
        } else {
            None
        }
    }

    /// Goes on after the region asked woke a worker, or had none to wake.
    pub fn answered(&mut self, woke: bool)
        requires
            old(self)@.next() is Some,
        ensures
            final(self)@ == (UnparkSearchView { tried: old(self)@.tried + 1, woke, ..old(self)@ }),
    {
        assert(self.tried < self.order.len());
        self.tried = self.tried + 1;
        self.woke = woke;
    }
}

impl Executor {
    /// Begins a search for a worker to wake, in no region in particular.
    pub fn unpark_one_worker_random_numa_region(&self) -> (search: UnparkSearch)
        requires
            self.wf(),
        ensures
            search@.tried == 0,
            !search@.woke,
            exists|draws: Draws| search@.order == #[trigger] region_order(self@.num_regions, draws),
            forall|i: int|
                0 <= i < search@.order.len() ==> #[trigger] search@.order[i] < self@.num_regions,
    {
        proof {
            self.lemma_wf();
        }
        let num_regions: usize = self.num_regions();
        let mut order: Vec<usize> = Vec::new();
        if num_regions == 1 {
            order.push(0);
            let ghost draws = Draws { displace_zero: 0, odd1: 0, odd2: 0, uniform_first: 0 };
            assert(order@ =~= region_order(self@.num_regions, draws));
        } else {
            let drawn: Vec<u32> = thread_random_permutation(num_regions as u32);
            let mut i: usize = 0;
            while i < drawn.len()
                invariant
                    i <= drawn@.len(),
                    order@ =~= drawn@.take(i as int).map_values(|region: u32| region as usize),
                decreases drawn@.len() - i,
            {
                order.push(drawn[i] as usize);
                i = i + 1;
            }
            proof {
                assert(drawn@.take(drawn@.len() as int) =~= drawn@);
                assert(forall|i: int|
                    0 <= i < drawn@.len() ==> drawn@.contains(#[trigger] drawn@[i]));
                assert(forall|i: int|
                    0 <= i < order@.len() ==> #[trigger] order@[i] == drawn@[i] as usize);
                let draws = choose|draws: Draws|
                    drawn@ == #[trigger] visit_order(num_regions as u32, draws);
                assert(order@ =~= region_order(self@.num_regions, draws));
            }
        }
        UnparkSearch { order, tried: 0, woke: false }
    }

    /// Whether to look for a worker elsewhere, after the region of the task's
    /// thread was asked to wake one.
    pub fn wakes_elsewhere(&self, woke: bool) -> (elsewhere: bool)
        ensures
            elsewhere == (!woke && self@.num_regions > 1),
    {
        !woke && self.num_regions() > 1
    }

    /// Whether to look for a worker elsewhere, after a worker that found a task
    /// tried to recruit the next of its region: `None` where that was not its
    /// turn, and otherwise whether there was one left.
    pub fn recruits_elsewhere(&self, recruited: Option<bool>) -> (elsewhere: bool)
        ensures
            elsewhere == (recruited == Some(false) && self@.num_regions > 1),
    {
        match recruited {
            Some(woke) => self.wakes_elsewhere(woke),
            None => false,
        }
    }
}

/// Until a worker is woken, a search asks each region exactly once.
pub proof fn law_unpark_asks_each_region_once(num_regions: nat, draws: Draws, region: usize)
    requires
        num_regions <= 0x8000_0000,
    ensures
        region_order(num_regions, draws).len() == num_regions,
        region_order(num_regions, draws).no_duplicates(),
        region_order(num_regions, draws).contains(region) <==> region < num_regions,
{
    let order = region_order(num_regions, draws);
    if num_regions == 1 {
        assert(order[0] == 0);
        if region < 1 {
            assert(order.contains(region));
        }
    } else {
        law_visits_each_once(num_regions as u32, draws);
        let drawn = visit_order(num_regions as u32, draws);
        if order.contains(region) {
            let i = order.index_of(region);
            assert(drawn.contains(drawn[i]));
        }
        if region < num_regions {
            assert(drawn.contains(region as u32));
            let i = drawn.index_of(region as u32);
            assert(order[i] == region);
        }
    }
}

} // verus!
