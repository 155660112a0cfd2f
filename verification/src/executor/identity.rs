//! How a thread that blocks hands its duties to another.
//!
//! An executor thread has an identity: the number of the task list it works
//! on. A thread about to block offers its identity through a queue of its NUMA
//! region, and a runner without identity takes it up. Whoever is first takes
//! the offer back: the runner, or the thread itself once it no longer blocks.

use crate::executor::attribution::ThreadContext;
use vstd::prelude::*;

verus! {

/// How long a runner without identity waits for an offer before it considers
/// giving up, in seconds.
pub const IDENTITY_TIMEOUT_SECS: u64 = 10;

/// A thread identity on offer. It is handed out once.
pub struct IdentityOffer {
    thread_id: Option<usize>,
}

impl View for IdentityOffer {
    type V = Option<usize>;

    closed spec fn view(&self) -> Option<usize> {
        self.thread_id
    }
}

/// What somebody who takes an offer gets, and what is left of the offer.
pub open spec fn taken(offer: Option<usize>) -> (Option<usize>, Option<usize>) {
    (offer, None)
}

/// What is left of an offer that was taken `times` times.
pub open spec fn left_after(offer: Option<usize>, times: nat) -> Option<usize>
    decreases times,
{
    if times == 0 {
        offer
    } else {
        taken(left_after(offer, (times - 1) as nat)).1
    }
}

impl IdentityOffer {
    /// Offers the identity `thread_id`.
    pub fn new(thread_id: usize) -> (offer: IdentityOffer)
        ensures
            offer@ == Some(thread_id),
    {
        IdentityOffer { thread_id: Some(thread_id) }
    }

    /// Takes the identity, unless somebody was faster.
    pub fn take(&mut self) -> (thread_id: Option<usize>)
        ensures
            (thread_id, final(self)@) == taken(old(self)@),
    {
        let thread_id: Option<usize> = self.thread_id;
        self.thread_id = None;
        thread_id
    }
}

/// How many runners wait for an identity in each NUMA region, and how many
/// threads the executor has named.
pub struct RunnerCounts {
    num_runners_without_identity: Vec<usize>,
    thread_name_idx: usize,
}

/// The same numbers.
#[verifier::ext_equal]
pub struct RunnerCountsView {
    pub without_identity: Seq<usize>,
    pub names: usize,
}

impl View for RunnerCounts {
    type V = RunnerCountsView;

    closed spec fn view(&self) -> RunnerCountsView {
        RunnerCountsView {
            without_identity: self.num_runners_without_identity@,
            names: self.thread_name_idx,
        }
    }
}

impl RunnerCountsView {
    /// The counts with that of `region` replaced.
    pub open spec fn with_count(self, region: int, count: usize) -> RunnerCountsView {
        RunnerCountsView { without_identity: self.without_identity.update(region, count), ..self }
    }

    /// The counts after a runner without identity was made in `region`.
    pub open spec fn spawned(self, region: int) -> RunnerCountsView {
        RunnerCountsView {
            without_identity: self.without_identity.update(
                region,
                self.without_identity[region].wrapping_add(1),
            ),
            names: self.names.wrapping_add(1),
        }
    }
}

impl RunnerCounts {
    /// The counts at the start: `n_threads` threads with an identity each.
    pub fn new(num_numa_regions: usize, n_threads: usize) -> (counts: RunnerCounts)
        ensures
            counts@.without_identity == Seq::new(num_numa_regions as nat, |r: int| 0usize),
            counts@.names == n_threads,
    {
        let mut num_runners_without_identity: Vec<usize> = Vec::new();
        let mut region: usize = 0;
        while region < num_numa_regions
            invariant
                region <= num_numa_regions,
                num_runners_without_identity@ =~= Seq::new(region as nat, |r: int| 0usize),
            decreases num_numa_regions - region,
        {
            num_runners_without_identity.push(0);
            region = region + 1;
        }
        RunnerCounts { num_runners_without_identity, thread_name_idx: n_threads }
    }

    /// Counts one more runner without identity in `region`, to be started under
    /// the returned name.
    pub fn spawn_runner_without_identity(&mut self, region: usize) -> (name_idx: usize)
        requires
            region < old(self)@.without_identity.len(),
        ensures
            name_idx == old(self)@.names,
            final(self)@ == old(self)@.spawned(region as int),
    {
        let count: usize = self.num_runners_without_identity[region];
        self.num_runners_without_identity[region] = count.wrapping_add(1);
        let name_idx: usize = self.thread_name_idx;
        self.thread_name_idx = name_idx.wrapping_add(1);
        name_idx
    }

    /// Makes sure that somebody waits for an identity in `region`. Where nobody
    /// does, a runner is to be started under the returned name.
    ///
    /// To be called after an offer was queued, not before.
    pub fn ensure_runner_without_identity_exists(&mut self, region: usize) -> (spawn: Option<usize>)
        requires
            region < old(self)@.without_identity.len(),
        ensures
            old(self)@.without_identity[region as int] == 0 ==> spawn == Some(old(self)@.names)
                && final(self)@ == old(self)@.spawned(region as int),
            old(self)@.without_identity[region as int] != 0 ==> spawn is None && final(self)@
                == old(self)@,
    {
        if self.num_runners_without_identity[region] == 0 {
            Some(self.spawn_runner_without_identity(region))
        } else {
            None
        }
    }

    /// Gives a thread that no longer blocks its identity back, if nobody took
    /// up the offer. Otherwise it becomes a runner without identity.
    pub fn restore_identity<A>(&mut self, context: &mut ThreadContext<A>, offer: &mut IdentityOffer)
        requires
            old(context).numa_region is Some,
            old(context).numa_region->0 < old(self)@.without_identity.len(),
        ensures
            final(offer)@ is None,
            match old(offer)@ {
                Some(thread_id) => *final(context) == (ThreadContext {
                    thread_id: Some(thread_id),
                    ..*old(context)
                }) && final(self)@ == old(self)@,
                None => *final(context) == *old(context) && final(self)@ == old(self)@.with_count(
                    old(context).numa_region->0 as int,
                    old(self)@.without_identity[old(context).numa_region->0 as int].wrapping_add(1),
                ),
            },
    {
        match offer.take() {
            Some(thread_id) => {
                context.thread_id = Some(thread_id);
            },
            None => {
                if let Some(region) = context.numa_region {
                    let count: usize = self.num_runners_without_identity[region];
                    self.num_runners_without_identity[region] = count.wrapping_add(1);
                }
            },
        }
    }

    fn leave(&mut self, region: usize)
        requires
            region < old(self)@.without_identity.len(),
            old(self)@.without_identity[region as int] >= 1,
        ensures
            final(self)@ == old(self)@.with_count(
                region as int,
                (old(self)@.without_identity[region as int] - 1) as usize,
            ),
    {
        let count: usize = self.num_runners_without_identity[region];
        self.num_runners_without_identity[region] = count - 1;
    }

    fn come_back(&mut self, region: usize)
        requires
            region < old(self)@.without_identity.len(),
        ensures
            final(self)@ == old(self)@.with_count(
                region as int,
                old(self)@.without_identity[region as int].wrapping_add(1),
            ),
    {
        let count: usize = self.num_runners_without_identity[region];
        self.num_runners_without_identity[region] = count.wrapping_add(1);
    }

    fn is_last(&self, region: usize) -> (last: bool)
        requires
            region < self@.without_identity.len(),
        ensures
            last == (self@.without_identity[region as int] == 0),
    {
        self.num_runners_without_identity[region] == 0
    }
}

/// Prepares this thread to block: it stops being an executor thread, and its
/// identity goes on offer in its NUMA region.
///
/// The offer is to be queued there, and then a runner without identity made
/// sure of, before the thread blocks; afterwards the identity is restored.
/// There is nothing to do for a thread that is not an executor thread.
pub fn block_in_place<A>(context: &mut ThreadContext<A>) -> (offer: Option<IdentityOffer>)
    ensures
        *final(context) == (ThreadContext { thread_id: None, ..*old(context) }),
        match old(context).thread_id {
            Some(thread_id) => offer is Some && offer->0@ == Some(thread_id),
            None => offer is None,
        },
{
    let thread_id: Option<usize> = context.thread_id;
    context.thread_id = None;
    match thread_id {
        Some(thread_id) => Some(IdentityOffer::new(thread_id)),
        None => None,
    }
}

/// How far a runner without identity has come.
#[derive(Clone, Copy, Debug, PartialEq, Eq, Structural)]
pub enum AcquireStage {
    /// Waiting for an offer.
    Waiting,
    /// Took an identity, and may have left offers behind that nobody waits for.
    Leaving(usize),
    /// Waited in vain.
    TimedOut,
    /// Over.
    Over,
}

/// What a runner without identity does next.
#[derive(Clone, Copy, Debug, PartialEq, Eq, Structural)]
pub enum AcquireStep {
    /// Wait for an offer.
    Wait,
    /// Look whether an offer is queued.
    CheckQueue,
    /// Work under this identity, and start the runner of this name if any.
    Acquired(usize, Option<usize>),
    /// End the thread.
    GiveUp,
}

/// A runner's request for an identity.
pub struct IdentityRequest {
    region: usize,
    stage: AcquireStage,
}

/// The state of a request.
#[verifier::ext_equal]
pub struct IdentityRequestView {
    pub region: nat,
    pub stage: AcquireStage,
}

impl View for IdentityRequest {
    type V = IdentityRequestView;

    closed spec fn view(&self) -> IdentityRequestView {
        IdentityRequestView { region: self.region as nat, stage: self.stage }
    }
}

impl IdentityRequestView {
    /// The request in another stage.
    pub open spec fn at(self, stage: AcquireStage) -> IdentityRequestView {
        IdentityRequestView { stage, ..self }
    }

    /// The request is counted among the runners of its region.
    pub open spec fn is_counted(self, counts: RunnerCountsView) -> bool {
        self.region < counts.without_identity.len() && counts.without_identity[self.region as int]
            >= 1
    }

    /// The counts without this runner.
    pub open spec fn left(self, counts: RunnerCountsView) -> RunnerCountsView {
        counts.with_count(
            self.region as int,
            (counts.without_identity[self.region as int] - 1) as usize,
        )
    }

    /// After an offer arrived that still held `offered`.
    pub open spec fn received(self, offered: Option<usize>, counts: RunnerCountsView) -> (
        IdentityRequestView,
        RunnerCountsView,
        AcquireStep,
    ) {
        match offered {
            None => (self, counts, AcquireStep::Wait),
            Some(thread_id) => if counts.without_identity[self.region as int] == 1 {
                (
                    self.at(AcquireStage::Leaving(thread_id)),
                    self.left(counts),
                    AcquireStep::CheckQueue,
                )
            } else {
                (
                    self.at(AcquireStage::Over),
                    self.left(counts),
                    AcquireStep::Acquired(thread_id, None),
                )
            },
        }
    }

    /// After the queue was looked at.
    pub open spec fn checked(self, is_empty: bool, counts: RunnerCountsView) -> (
        IdentityRequestView,
        RunnerCountsView,
        AcquireStep,
    ) {
        let region = self.region as int;
        match self.stage {
            AcquireStage::Leaving(thread_id) => if is_empty {
                (self.at(AcquireStage::Over), counts, AcquireStep::Acquired(thread_id, None))
            } else {
                (
                    self.at(AcquireStage::Over),
                    counts.spawned(region),
                    AcquireStep::Acquired(thread_id, Some(counts.names)),
                )
            },
            _ => if is_empty {
                (self.at(AcquireStage::Over), counts, AcquireStep::GiveUp)
            } else {
                (
                    self.at(AcquireStage::Waiting),
                    counts.with_count(region, counts.without_identity[region].wrapping_add(1)),
                    AcquireStep::Wait,
                )
            },
        }
    }
}

impl IdentityRequest {
    /// A request of a runner of `region` that was already counted there.
    pub fn new(region: usize) -> (request: IdentityRequest)
        ensures
            request@ == (IdentityRequestView {
                region: region as nat,
                stage: AcquireStage::Waiting,
            }),
    {
        IdentityRequest { region, stage: AcquireStage::Waiting }
    }

    /// Goes on after an offer arrived that still held `offered`.
    pub fn received(&mut self, offered: Option<usize>, counts: &mut RunnerCounts) -> (step:
        AcquireStep)
        requires
            old(self)@.stage == AcquireStage::Waiting,
            old(self)@.is_counted(old(counts)@),
        ensures
            (final(self)@, final(counts)@, step) == old(self)@.received(offered, old(counts)@),
    {
        match offered {
            None => AcquireStep::Wait,
            Some(thread_id) => {
                counts.leave(self.region);
                if counts.is_last(self.region) {
                    self.stage = AcquireStage::Leaving(thread_id);
                    AcquireStep::CheckQueue
                } else {
                    self.stage = AcquireStage::Over;
                    AcquireStep::Acquired(thread_id, None)
                }
            },
        }
    }

    /// Goes on after no offer arrived in time.
    pub fn timed_out(&mut self, counts: &mut RunnerCounts) -> (step: AcquireStep)
        requires
            old(self)@.stage == AcquireStage::Waiting,
            old(self)@.is_counted(old(counts)@),
        ensures
            step == AcquireStep::CheckQueue,
            final(self)@ == old(self)@.at(AcquireStage::TimedOut),
            final(counts)@ == old(self)@.left(old(counts)@),
    {
        counts.leave(self.region);
        self.stage = AcquireStage::TimedOut;
        AcquireStep::CheckQueue
    }

    /// Goes on after the queue of offers was looked at. The count was reduced
    /// before: an offer queued since then finds that nobody waits, and one
    /// queued earlier is seen here.
    pub fn queue_checked(&mut self, is_empty: bool, counts: &mut RunnerCounts) -> (step: AcquireStep)
        requires
            old(self)@.stage is Leaving || old(self)@.stage == AcquireStage::TimedOut,
            old(self)@.region < old(counts)@.without_identity.len(),
        ensures
            (final(self)@, final(counts)@, step) == old(self)@.checked(is_empty, old(counts)@),
    {
        match self.stage {
            AcquireStage::Leaving(thread_id) => {
                self.stage = AcquireStage::Over;
                let mut spawn: Option<usize> = None;
                if !is_empty {
                    spawn = Some(counts.spawn_runner_without_identity(self.region));
                }
                AcquireStep::Acquired(thread_id, spawn)
            },
            _ => if is_empty {
                self.stage = AcquireStage::Over;
                AcquireStep::GiveUp
            } else {
                counts.come_back(self.region);
                self.stage = AcquireStage::Waiting;
                AcquireStep::Wait
            },
        }
    }
}

/// An identity has one holder: whoever is first to take an offer gets the
/// identity, and whoever takes it later gets nothing, however many there are.
pub proof fn law_identity_is_handed_out_once(offer: IdentityOffer, times: nat)
    ensures
        taken(offer@).0 == offer@,
        times > 0 ==> taken(left_after(offer@, times)).0 is None,
{
}

/// No offer is left without anybody to take it up: a runner that looks at the
/// queue and finds an offer leaves a runner without identity behind, itself or
/// a new one.
pub proof fn law_queued_offers_are_waited_for(
    request: IdentityRequestView,
    is_empty: bool,
    counts: RunnerCountsView,
)
    requires
        request.stage is Leaving || request.stage == AcquireStage::TimedOut,
        request.region < counts.without_identity.len(),
        counts.without_identity[request.region as int] < usize::MAX,
    ensures
        !is_empty ==> request.checked(is_empty, counts).1.without_identity[request.region as int]
            > 0,
{
}

/// A runner that takes an identity without looking at the queue leaves another
/// runner without identity behind.
pub proof fn law_unchecked_leave_has_successor(
    request: IdentityRequestView,
    thread_id: usize,
    counts: RunnerCountsView,
)
    requires
        request.stage == AcquireStage::Waiting,
        request.is_counted(counts),
    ensures
        request.received(Some(thread_id), counts).2 is Acquired ==> request.received(
            Some(thread_id),
            counts,
        ).1.without_identity[request.region as int] > 0,
        !(request.received(Some(thread_id), counts).2 is Acquired) ==> request.received(
            Some(thread_id),
            counts,
        ).2 == AcquireStep::CheckQueue,
{
}

/// A runner ends its thread only when no offer is queued.
pub proof fn law_gives_up_only_on_empty_queue(
    request: IdentityRequestView,
    is_empty: bool,
    counts: RunnerCountsView,
)
    requires
        request.stage is Leaving || request.stage == AcquireStage::TimedOut,
        request.checked(is_empty, counts).2 == AcquireStep::GiveUp,
    ensures
        is_empty,
        request.checked(is_empty, counts).1 == counts,
{
}

/// An offer is taken once: the first to take it gets the identity on offer, and
/// the next gets nothing.
pub proof fn law_second_taker_gets_nothing(
    thread_id: usize,
    offered: IdentityOffer,
    offer: &mut IdentityOffer,
    first: Option<usize>,
    again: &mut IdentityOffer,
    second: Option<usize>,
)
    requires
        call_ensures(IdentityOffer::new, (thread_id,), offered),
        *old(offer) == offered,
        call_ensures(IdentityOffer::take, (offer,), first),
        *old(again) == *final(offer),
        call_ensures(IdentityOffer::take, (again,), second),
    ensures
        first == Some(thread_id),
        second is None,
{
}

/// A thread that blocks and finds its offer untouched afterwards is what it was
/// before: it has its identity back, and nobody is counted for it.
pub proof fn law_blocking_in_vain_changes_nothing<A>(
    context: &mut ThreadContext<A>,
    offer: IdentityOffer,
    counts: &mut RunnerCounts,
    later: &mut ThreadContext<A>,
    returned: &mut IdentityOffer,
)
    requires
        call_ensures(block_in_place::<A>, (context,), Some(offer)),
        *old(later) == *final(context),
        *old(returned) == offer,
        call_ensures(RunnerCounts::restore_identity::<A>, (counts, later, returned), ()),
    ensures
        final(context).thread_id is None,
        *final(later) == *old(context),
        final(counts)@ == old(counts)@,
        final(returned)@ is None,
{
}

/// A thread whose identity was taken while it blocked becomes a runner without
/// identity: it has none, and its region counts one more that waits.
pub proof fn law_identity_taken_meanwhile_is_gone<A>(
    context: &mut ThreadContext<A>,
    offer: IdentityOffer,
    taken_offer: &mut IdentityOffer,
    by: Option<usize>,
    counts: &mut RunnerCounts,
    later: &mut ThreadContext<A>,
    returned: &mut IdentityOffer,
    region: usize,
)
    requires
        call_ensures(block_in_place::<A>, (context,), Some(offer)),
        *old(taken_offer) == offer,
        call_ensures(IdentityOffer::take, (taken_offer,), by),
        *old(later) == *final(context),
        *old(returned) == *final(taken_offer),
        old(context).numa_region == Some(region),
        region < old(counts)@.without_identity.len(),
        old(counts)@.without_identity[region as int] < usize::MAX,
        call_ensures(RunnerCounts::restore_identity::<A>, (counts, later, returned), ()),
    ensures
        by == old(context).thread_id,
        final(later).thread_id is None,
        final(counts)@.without_identity[region as int] == old(counts)@.without_identity[region as int] + 1,
        forall|r: int|
            0 <= r < old(counts)@.without_identity.len() && r != region ==> #[trigger] final(counts)@.without_identity[r] == old(counts)@.without_identity[r],
        final(counts)@.names == old(counts)@.names,
{
}

/// Somebody waits in the region afterwards: where nobody did, a runner is to be
/// started under a name that was not used before, and where somebody did, none
/// is.
pub proof fn law_somebody_waits_afterwards(
    counts: &mut RunnerCounts,
    region: usize,
    spawn: Option<usize>,
)
    requires
        call_ensures(
            RunnerCounts::ensure_runner_without_identity_exists,
            (counts, region),
            spawn,
        ),
        region < old(counts)@.without_identity.len(),
        old(counts)@.names < usize::MAX,
    ensures
        final(counts)@.without_identity[region as int] >= 1,
        spawn is Some <==> old(counts)@.without_identity[region as int] == 0,
        spawn is Some ==> spawn->0 == old(counts)@.names && final(counts)@.names == old(counts)@.names + 1 && final(counts)@.without_identity[region as int] == 1,
        spawn is None ==> final(counts)@ == old(counts)@,
        forall|r: int|
            0 <= r < old(counts)@.without_identity.len() && r != region ==> #[trigger] final(counts)@.without_identity[r] == old(counts)@.without_identity[r],
{
}

/// A runner that gets an identity stops waiting: it is no longer counted. Where
/// it was the last one it looks at the queue before it goes, and an offer that
/// somebody else took changes nothing.
pub proof fn law_runner_with_identity_stops_waiting(
    request: &mut IdentityRequest,
    offered: Option<usize>,
    counts: &mut RunnerCounts,
    step: AcquireStep,
    region: int,
)
    requires
        call_ensures(IdentityRequest::received, (request, offered, counts), step),
        old(request)@.region == region,
        0 <= region < old(counts)@.without_identity.len(),
        old(counts)@.without_identity[region] >= 1,
    ensures
        offered is None ==> step == AcquireStep::Wait && final(request)@ == old(request)@ && final(counts)@ == old(counts)@,
        offered matches Some(thread_id) ==> {
            &&& final(counts)@.without_identity[region] + 1 == old(counts)@.without_identity[region]
            &&& old(counts)@.without_identity[region] > 1 ==> step == AcquireStep::Acquired(
                thread_id,
                None,
            ) && final(request)@.stage == AcquireStage::Over
            &&& old(counts)@.without_identity[region] == 1 ==> step == AcquireStep::CheckQueue
                && final(request)@.stage == AcquireStage::Leaving(thread_id)
        },
        final(counts)@.names == old(counts)@.names,
        forall|r: int|
            0 <= r < old(counts)@.without_identity.len() && r != region ==> #[trigger] final(counts)@.without_identity[r] == old(counts)@.without_identity[r],
{
}

/// A runner that waited in vain is not counted while it looks at the queue. It
/// ends where the queue is empty, and waits on, counted again, where it is not.
pub proof fn law_runner_that_waited_in_vain_looks_once_more(
    request: &mut IdentityRequest,
    counts: &mut RunnerCounts,
    first: AcquireStep,
    looking: &mut IdentityRequest,
    later: &mut RunnerCounts,
    is_empty: bool,
    step: AcquireStep,
    region: int,
)
    requires
        call_ensures(IdentityRequest::timed_out, (request, counts), first),
        *old(looking) == *final(request),
        *old(later) == *final(counts),
        call_ensures(IdentityRequest::queue_checked, (looking, is_empty, later), step),
        old(request)@.region == region,
        0 <= region < old(counts)@.without_identity.len(),
        old(counts)@.without_identity[region] >= 1,
    ensures
        first == AcquireStep::CheckQueue,
        final(counts)@.without_identity[region] + 1 == old(counts)@.without_identity[region],
        is_empty ==> step == AcquireStep::GiveUp && final(later)@ == final(counts)@ && final(looking)@.stage == AcquireStage::Over,
        !is_empty ==> step == AcquireStep::Wait && final(looking)@.stage == AcquireStage::Waiting
            && final(later)@.without_identity =~= old(counts)@.without_identity,
        final(later)@.names == old(counts)@.names,
{
}

/// A runner that goes as the last one and finds an offer left behind has another
/// runner started for it, under a new name. It takes its identity in any case.
pub proof fn law_last_runner_leaves_a_successor(
    request: &mut IdentityRequest,
    thread_id: usize,
    is_empty: bool,
    counts: &mut RunnerCounts,
    step: AcquireStep,
    region: int,
)
    requires
        call_ensures(IdentityRequest::queue_checked, (request, is_empty, counts), step),
        old(request)@.stage == AcquireStage::Leaving(thread_id),
        old(request)@.region == region,
        0 <= region < old(counts)@.without_identity.len(),
        old(counts)@.without_identity[region] < usize::MAX,
        old(counts)@.names < usize::MAX,
    ensures
        is_empty ==> step == AcquireStep::Acquired(thread_id, None) && final(counts)@ == old(counts)@,
        !is_empty ==> {
            &&& step == AcquireStep::Acquired(thread_id, Some(old(counts)@.names))
            &&& final(counts)@.without_identity[region] == old(counts)@.without_identity[region]
                + 1
            &&& final(counts)@.names == old(counts)@.names + 1
        },
        final(request)@.stage == AcquireStage::Over,
{
}

} // verus!
