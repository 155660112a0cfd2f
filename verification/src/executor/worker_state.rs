//! Where the wall time of the executor's threads goes.

use vstd::prelude::*;

verus! {

/// Where an executor thread's wall time went.
///
/// A worker is in exactly one of these states at any instant, so summed over
/// threads they partition the number of threads times the wall time. A residual
/// in that sum is work no counter sees.
#[derive(Clone, Copy, Debug, PartialEq, Eq, Structural)]
pub struct WorkerStateTimes {
    /// Running task futures.
    pub poll_ns: u64,
    /// Looking for a task: the local slot, the local queue, stealing, unparking.
    pub overhead_ns: u64,
    /// Asleep with nothing to do.
    pub parked_ns: u64,
    /// Thread CPU across those polls, when poll CPU tracking is on.
    ///
    /// Excludes time the thread was descheduled, so the gap below `poll_ns` is
    /// the cost of oversubscription.
    pub poll_cpu_ns: u64,
    /// Part of `poll_ns` belonging to tasks no attribution claimed.
    ///
    /// Should be near zero. Anything else is work the per-node metrics cannot
    /// see.
    pub unattributed_poll_ns: u64,
}

/// `later - earlier`, and zero where `earlier` is the larger.
pub open spec fn gained(later: u64, earlier: u64) -> u64 {
    if later >= earlier {
        (later - earlier) as u64
    } else {
        0
    }
}

/// The value of a 64-bit counter `counter` after `amount` was added to it.
pub open spec fn counted(counter: u64, amount: int) -> u64 {
    ((counter + amount) % 0x1_0000_0000_0000_0000) as u64
}

impl WorkerStateTimes {
    /// The time in the three states of a thread.
    pub open spec fn total(self) -> int {
        self.poll_ns + self.overhead_ns + self.parked_ns
    }

    /// No time at all.
    pub open spec fn zero() -> WorkerStateTimes {
        WorkerStateTimes {
            poll_ns: 0,
            overhead_ns: 0,
            parked_ns: 0,
            poll_cpu_ns: 0,
            unattributed_poll_ns: 0,
        }
    }

    /// What was gained since `earlier`.
    pub open spec fn gained_since(self, earlier: WorkerStateTimes) -> WorkerStateTimes {
        WorkerStateTimes {
            poll_ns: gained(self.poll_ns, earlier.poll_ns),
            overhead_ns: gained(self.overhead_ns, earlier.overhead_ns),
            parked_ns: gained(self.parked_ns, earlier.parked_ns),
            poll_cpu_ns: gained(self.poll_cpu_ns, earlier.poll_cpu_ns),
            unattributed_poll_ns: gained(self.unattributed_poll_ns, earlier.unattributed_poll_ns),
        }
    }

    /// The three states a thread can be in. `unattributed_poll_ns` is a subset
    /// of `poll_ns`, so it is deliberately not part of the sum.
    pub fn total_ns(&self) -> (total: u64)
        requires
            self.total() <= u64::MAX,
        ensures
            total == self.total(),
    {
        self.poll_ns + self.overhead_ns + self.parked_ns
    }

    /// What this thread accumulated since `earlier`.
    pub fn since(&self, earlier: &Self) -> (times: Self)
        ensures
            times == self.gained_since(*earlier),
    {
        WorkerStateTimes {
            poll_ns: self.poll_ns.saturating_sub(earlier.poll_ns),
            overhead_ns: self.overhead_ns.saturating_sub(earlier.overhead_ns),
            parked_ns: self.parked_ns.saturating_sub(earlier.parked_ns),
            poll_cpu_ns: self.poll_cpu_ns.saturating_sub(earlier.poll_cpu_ns),
            unattributed_poll_ns: self.unattributed_poll_ns.saturating_sub(
                earlier.unattributed_poll_ns,
            ),
        }
    }
}

impl Default for WorkerStateTimes {
    fn default() -> (times: Self)
        ensures
            times == WorkerStateTimes::zero(),
    {
        WorkerStateTimes {
            poll_ns: 0,
            overhead_ns: 0,
            parked_ns: 0,
            poll_cpu_ns: 0,
            unattributed_poll_ns: 0,
        }
    }
}

/// One worker's counters, written only by that worker and read by anyone.
pub struct WorkerStateCounters {
    times: WorkerStateTimes,
}

impl View for WorkerStateCounters {
    type V = WorkerStateTimes;

    closed spec fn view(&self) -> WorkerStateTimes {
        self.times
    }
}

/// A poll that has ended, as the runner measured it.
#[derive(Clone, Copy, Debug, PartialEq, Eq, Structural)]
pub struct PollRecord {
    /// Wall time of the poll.
    pub elapsed_ns: u64,
    /// Thread CPU of the poll.
    pub cpu_ns: u64,
    /// Whether the task came from the worker's own list.
    pub local: bool,
    /// Whether an attribution claimed the task.
    pub attributed: bool,
}

/// The counters after a fetch that took `elapsed_ns`, of which `parked_ns` asleep.
pub open spec fn after_fetch(times: WorkerStateTimes, elapsed_ns: u64, parked_ns: u64) -> WorkerStateTimes {
    WorkerStateTimes {
        overhead_ns: counted(times.overhead_ns, gained(elapsed_ns, parked_ns) as int),
        parked_ns: counted(times.parked_ns, parked_ns as int),
        ..times
    }
}

/// The counters after a poll.
pub open spec fn after_poll(times: WorkerStateTimes, poll: PollRecord) -> WorkerStateTimes {
    WorkerStateTimes {
        poll_ns: counted(times.poll_ns, poll.elapsed_ns as int),
        poll_cpu_ns: counted(times.poll_cpu_ns, poll.cpu_ns as int),
        unattributed_poll_ns: if poll.attributed {
            times.unattributed_poll_ns
        } else {
            counted(times.unattributed_poll_ns, poll.elapsed_ns as int)
        },
        ..times
    }
}

impl WorkerStateCounters {
    /// The counters of a worker that has not run yet.
    pub fn new() -> (counters: WorkerStateCounters)
        ensures
            counters@ == WorkerStateTimes::zero(),
    {
        WorkerStateCounters { times: WorkerStateTimes::default() }
    }

    /// The worker's times so far.
    pub fn read(&self) -> (times: WorkerStateTimes)
        ensures
            times == self@,
    {
        self.times
    }

    /// Accounts for the time between two polls: asleep, or looking for work.
    pub fn record_fetch(&mut self, elapsed_ns: u64, parked_ns: u64)
        ensures
            final(self)@ == after_fetch(old(self)@, elapsed_ns, parked_ns),
    {
        self.times.overhead_ns = self.times.overhead_ns.wrapping_add(
            elapsed_ns.saturating_sub(parked_ns),
        );
        if parked_ns != 0 {
            self.times.parked_ns = self.times.parked_ns.wrapping_add(parked_ns);
        }
    }

    /// Accounts for a poll on this thread. A task with no metrics of its own
    /// still occupies the thread.
    pub fn record_poll(&mut self, poll: PollRecord)
        ensures
            final(self)@ == after_poll(old(self)@, poll),
    {
        self.times.poll_ns = self.times.poll_ns.wrapping_add(poll.elapsed_ns);
        if poll.cpu_ns != 0 {
            self.times.poll_cpu_ns = self.times.poll_cpu_ns.wrapping_add(poll.cpu_ns);
        }
        if !poll.attributed {
            self.times.unattributed_poll_ns = self.times.unattributed_poll_ns.wrapping_add(
                poll.elapsed_ns,
            );
        }
    }
}

/// The sum of one of the counters over the first `n` workers.
pub open spec fn sum_of(
    states: Seq<WorkerStateCounters>,
    counter: spec_fn(WorkerStateTimes) -> u64,
    n: nat,
) -> int
    decreases n,
{
    if n == 0 {
        0
    } else {
        sum_of(states, counter, (n - 1) as nat) + counter(states[n - 1]@)
    }
}

/// `times` holds the sums of the counters over the first `n` workers.
pub open spec fn sums_up(states: Seq<WorkerStateCounters>, times: WorkerStateTimes, n: nat) -> bool {
    &&& times.poll_ns == sum_of(states, |t: WorkerStateTimes| t.poll_ns, n)
    &&& times.overhead_ns == sum_of(states, |t: WorkerStateTimes| t.overhead_ns, n)
    &&& times.parked_ns == sum_of(states, |t: WorkerStateTimes| t.parked_ns, n)
    &&& times.poll_cpu_ns == sum_of(states, |t: WorkerStateTimes| t.poll_cpu_ns, n)
    &&& times.unattributed_poll_ns == sum_of(
        states,
        |t: WorkerStateTimes| t.unattributed_poll_ns,
        n,
    )
}

/// Each counter's sum over all workers fits in a counter.
pub open spec fn sums_fit(states: Seq<WorkerStateCounters>) -> bool {
    exists|times: WorkerStateTimes| #[trigger] sums_up(states, times, states.len())
}

proof fn lemma_sum_grows(
    states: Seq<WorkerStateCounters>,
    counter: spec_fn(WorkerStateTimes) -> u64,
    i: nat,
    n: nat,
)
    requires
        i <= n,
    ensures
        0 <= sum_of(states, counter, i) <= sum_of(states, counter, n),
    decreases n,
{
    if n == 0 {
    } else if i == n {
        lemma_sum_grows(states, counter, (n - 1) as nat, (n - 1) as nat);
    } else {
        lemma_sum_grows(states, counter, i, (n - 1) as nat);
    }
}

proof fn lemma_sums_fit(states: Seq<WorkerStateCounters>, i: nat)
    requires
        sums_fit(states),
        i <= states.len(),
    ensures
        sum_of(states, |t: WorkerStateTimes| t.poll_ns, i) <= u64::MAX,
        sum_of(states, |t: WorkerStateTimes| t.overhead_ns, i) <= u64::MAX,
        sum_of(states, |t: WorkerStateTimes| t.parked_ns, i) <= u64::MAX,
        sum_of(states, |t: WorkerStateTimes| t.poll_cpu_ns, i) <= u64::MAX,
        sum_of(states, |t: WorkerStateTimes| t.unattributed_poll_ns, i) <= u64::MAX,
{
    let times = choose|times: WorkerStateTimes| #[trigger] sums_up(states, times, states.len());
    let n = states.len();
    lemma_sum_grows(states, |t: WorkerStateTimes| t.poll_ns, i, n);
    lemma_sum_grows(states, |t: WorkerStateTimes| t.overhead_ns, i, n);
    lemma_sum_grows(states, |t: WorkerStateTimes| t.parked_ns, i, n);
    lemma_sum_grows(states, |t: WorkerStateTimes| t.poll_cpu_ns, i, n);
    lemma_sum_grows(states, |t: WorkerStateTimes| t.unattributed_poll_ns, i, n);
}

/// Sums every executor thread's state times.
///
/// `states` holds every worker that has ever run: a runner that gives up its
/// identity may come back, and its totals have to survive in either case.
/// Cumulative: for one query's share, snapshot before and after and use
/// [`WorkerStateTimes::since`].
pub fn worker_state_times(states: &Vec<WorkerStateCounters>) -> (total: WorkerStateTimes)
    requires
        sums_fit(states@),
    ensures
        sums_up(states@, total, states@.len()),
{
    let mut total = WorkerStateTimes::default();
    let mut i: usize = 0;
    while i < states.len()
        invariant
            i <= states@.len(),
            sums_fit(states@),
            sums_up(states@, total, i as nat),
        decreases states@.len() - i,
    {
        proof {
            lemma_sums_fit(states@, (i + 1) as nat);
        }
        let t = states[i].read();
        total.poll_ns = total.poll_ns + t.poll_ns;
        total.overhead_ns = total.overhead_ns + t.overhead_ns;
        total.parked_ns = total.parked_ns + t.parked_ns;
        total.poll_cpu_ns = total.poll_cpu_ns + t.poll_cpu_ns;
        total.unattributed_poll_ns = total.unattributed_poll_ns + t.unattributed_poll_ns;
        i = i + 1;
    }
    total
}

/// The CPU of a poll that was measured at `before` and `after`, and zero where
/// the clock was off at either end.
pub fn poll_cpu(before: Option<u64>, after: Option<u64>) -> (cpu_ns: u64)
    ensures
        cpu_ns == match (before, after) {
            (Some(before), Some(after)) => gained(after, before),
            _ => 0u64,
        },
{
    match before {
        None => 0,
        Some(before) => match after {
            None => 0,
            Some(after) => after.saturating_sub(before),
        },
    }
}

/// Every nanosecond between two polls lands in exactly one state: a fetch adds
/// its whole duration to the worker's total and nothing else.
pub proof fn law_fetch_is_accounted_once(times: WorkerStateTimes, elapsed_ns: u64, parked_ns: u64)
    requires
        parked_ns <= elapsed_ns,
        times.overhead_ns + elapsed_ns <= u64::MAX,
        times.parked_ns + parked_ns <= u64::MAX,
    ensures
        after_fetch(times, elapsed_ns, parked_ns).total() == times.total() + elapsed_ns,
{
}

/// Every nanosecond of a poll lands in exactly one state.
pub proof fn law_poll_is_accounted_once(times: WorkerStateTimes, poll: PollRecord)
    requires
        times.poll_ns + poll.elapsed_ns <= u64::MAX,
    ensures
        after_poll(times, poll).total() == times.total() + poll.elapsed_ns,
{
}

/// What no attribution claimed stays a part of the poll time.
pub proof fn law_unattributed_is_part_of_polls(times: WorkerStateTimes, poll: PollRecord)
    requires
        times.unattributed_poll_ns <= times.poll_ns,
        times.poll_ns + poll.elapsed_ns <= u64::MAX,
    ensures
        after_poll(times, poll).unattributed_poll_ns <= after_poll(times, poll).poll_ns,
{
}

/// Adding up what was gained between snapshots gives the total: for counters
/// that only grow, the gain over two stretches is the sum of the gains.
pub proof fn law_gains_add_up(a: WorkerStateTimes, b: WorkerStateTimes, c: WorkerStateTimes)
    requires
        a.poll_ns <= b.poll_ns <= c.poll_ns,
        a.overhead_ns <= b.overhead_ns <= c.overhead_ns,
        a.parked_ns <= b.parked_ns <= c.parked_ns,
    ensures
        c.gained_since(a).total() == c.gained_since(b).total() + b.gained_since(a).total(),
        c.gained_since(a).total() == c.total() - a.total(),
{
}

/// No counter of `later` is below that of `earlier`.
pub open spec fn no_less(later: WorkerStateTimes, earlier: WorkerStateTimes) -> bool {
    &&& later.poll_ns >= earlier.poll_ns
    &&& later.overhead_ns >= earlier.overhead_ns
    &&& later.parked_ns >= earlier.parked_ns
    &&& later.poll_cpu_ns >= earlier.poll_cpu_ns
    &&& later.unattributed_poll_ns >= earlier.unattributed_poll_ns
}

proof fn lemma_sum_no_less(
    earlier: Seq<WorkerStateCounters>,
    later: Seq<WorkerStateCounters>,
    counter: spec_fn(WorkerStateTimes) -> u64,
    n: nat,
)
    requires
        forall|i: int| 0 <= i < n ==> counter((#[trigger] later[i])@) >= counter(earlier[i]@),
    ensures
        sum_of(later, counter, n) >= sum_of(earlier, counter, n),
    decreases n,
{
    if n > 0 {
        lemma_sum_no_less(earlier, later, counter, (n - 1) as nat);
        assert(counter(later[n - 1]@) >= counter(earlier[n - 1]@));
    }
}

/// The sums do not go backwards: where workers only joined and no worker's
/// counter fell, a later reading is no less than an earlier one, and the earlier
/// one and the gain since make up the later one.
pub proof fn law_sums_never_go_backwards(
    earlier: Seq<WorkerStateCounters>,
    later: Seq<WorkerStateCounters>,
    before: WorkerStateTimes,
    after: WorkerStateTimes,
)
    requires
        earlier.len() <= later.len(),
        forall|i: int| 0 <= i < earlier.len() ==> no_less((#[trigger] later[i])@, earlier[i]@),
        sums_up(earlier, before, earlier.len()),
        sums_up(later, after, later.len()),
    ensures
        no_less(after, before),
        before.poll_ns + after.gained_since(before).poll_ns == after.poll_ns,
        before.overhead_ns + after.gained_since(before).overhead_ns == after.overhead_ns,
        before.parked_ns + after.gained_since(before).parked_ns == after.parked_ns,
        before.poll_cpu_ns + after.gained_since(before).poll_cpu_ns == after.poll_cpu_ns,
        before.unattributed_poll_ns + after.gained_since(before).unattributed_poll_ns
            == after.unattributed_poll_ns,
{
    let n = earlier.len();
    let m = later.len();
    lemma_sum_no_less(earlier, later, |t: WorkerStateTimes| t.poll_ns, n);
    lemma_sum_no_less(earlier, later, |t: WorkerStateTimes| t.overhead_ns, n);
    lemma_sum_no_less(earlier, later, |t: WorkerStateTimes| t.parked_ns, n);
    lemma_sum_no_less(earlier, later, |t: WorkerStateTimes| t.poll_cpu_ns, n);
    lemma_sum_no_less(earlier, later, |t: WorkerStateTimes| t.unattributed_poll_ns, n);
    lemma_sum_grows(later, |t: WorkerStateTimes| t.poll_ns, n, m);
    lemma_sum_grows(later, |t: WorkerStateTimes| t.overhead_ns, n, m);
    lemma_sum_grows(later, |t: WorkerStateTimes| t.parked_ns, n, m);
    lemma_sum_grows(later, |t: WorkerStateTimes| t.poll_cpu_ns, n, m);
    lemma_sum_grows(later, |t: WorkerStateTimes| t.unattributed_poll_ns, n, m);
}

/// A worker's counters do not go backwards either, while they are in range.
pub proof fn law_counters_never_go_backwards(
    times: WorkerStateTimes,
    poll: PollRecord,
    elapsed_ns: u64,
    parked_ns: u64,
)
    requires
        times.poll_ns + poll.elapsed_ns <= u64::MAX,
        times.poll_cpu_ns + poll.cpu_ns <= u64::MAX,
        times.unattributed_poll_ns + poll.elapsed_ns <= u64::MAX,
        times.overhead_ns + elapsed_ns <= u64::MAX,
        times.parked_ns + parked_ns <= u64::MAX,
    ensures
        no_less(after_poll(times, poll), times),
        no_less(after_fetch(times, elapsed_ns, parked_ns), times),
{
}

/// The time between two polls is overhead but for the part that was slept, and
/// the sleep is counted as such. Nothing else changes, and a sleep measured as
/// longer than the whole adds no overhead. Counters go round at their end.
pub proof fn law_fetch_is_overhead_and_sleep(
    counters: &mut WorkerStateCounters,
    elapsed_ns: u64,
    parked_ns: u64,
)
    requires
        call_ensures(WorkerStateCounters::record_fetch, (counters, elapsed_ns, parked_ns), ()),
    ensures
        parked_ns <= elapsed_ns ==> (final(counters)@.overhead_ns - old(counters)@.overhead_ns - (
        elapsed_ns - parked_ns)) % 0x1_0000_0000_0000_0000 == 0,
        parked_ns > elapsed_ns ==> final(counters)@.overhead_ns == old(counters)@.overhead_ns,
        (final(counters)@.parked_ns - old(counters)@.parked_ns - parked_ns)
            % 0x1_0000_0000_0000_0000 == 0,
        final(counters)@.poll_ns == old(counters)@.poll_ns,
        final(counters)@.poll_cpu_ns == old(counters)@.poll_cpu_ns,
        final(counters)@.unattributed_poll_ns == old(counters)@.unattributed_poll_ns,
{
}

/// A poll's time and CPU are counted as such, and its time also as unattributed
/// where no attribution claimed it. Nothing else changes.
pub proof fn law_poll_is_poll_time(counters: &mut WorkerStateCounters, poll: PollRecord)
    requires
        call_ensures(WorkerStateCounters::record_poll, (counters, poll), ()),
    ensures
        (final(counters)@.poll_ns - old(counters)@.poll_ns - poll.elapsed_ns)
            % 0x1_0000_0000_0000_0000 == 0,
        (final(counters)@.poll_cpu_ns - old(counters)@.poll_cpu_ns - poll.cpu_ns)
            % 0x1_0000_0000_0000_0000 == 0,
        poll.attributed ==> final(counters)@.unattributed_poll_ns == old(counters)@.unattributed_poll_ns,
        !poll.attributed ==> (final(counters)@.unattributed_poll_ns - old(counters)@.unattributed_poll_ns - poll.elapsed_ns) % 0x1_0000_0000_0000_0000 == 0,
        final(counters)@.overhead_ns == old(counters)@.overhead_ns,
        final(counters)@.parked_ns == old(counters)@.parked_ns,
{
}

/// What was gained since a snapshot is what each counter grew by, and nothing
/// where it did not grow.
pub proof fn law_gain_is_the_growth_of_each_counter(
    later: &WorkerStateTimes,
    earlier: &WorkerStateTimes,
    gain: WorkerStateTimes,
)
    requires
        call_ensures(WorkerStateTimes::since, (later, earlier), gain),
    ensures
        later.poll_ns >= earlier.poll_ns ==> earlier.poll_ns + gain.poll_ns == later.poll_ns,
        later.poll_ns < earlier.poll_ns ==> gain.poll_ns == 0,
        later.overhead_ns >= earlier.overhead_ns ==> earlier.overhead_ns + gain.overhead_ns
            == later.overhead_ns,
        later.overhead_ns < earlier.overhead_ns ==> gain.overhead_ns == 0,
        later.parked_ns >= earlier.parked_ns ==> earlier.parked_ns + gain.parked_ns
            == later.parked_ns,
        later.parked_ns < earlier.parked_ns ==> gain.parked_ns == 0,
        later.poll_cpu_ns >= earlier.poll_cpu_ns ==> earlier.poll_cpu_ns + gain.poll_cpu_ns
            == later.poll_cpu_ns,
        later.poll_cpu_ns < earlier.poll_cpu_ns ==> gain.poll_cpu_ns == 0,
        later.unattributed_poll_ns >= earlier.unattributed_poll_ns ==> earlier.unattributed_poll_ns
            + gain.unattributed_poll_ns == later.unattributed_poll_ns,
        later.unattributed_poll_ns < earlier.unattributed_poll_ns ==> gain.unattributed_poll_ns
            == 0,
{
}

/// A worker's time is what it polled, looked for work and slept. What no
/// attribution claimed is a part of what it polled, and the CPU is no wall time.
pub proof fn law_total_is_the_three_states(times: &WorkerStateTimes, total: u64)
    requires
        call_ensures(WorkerStateTimes::total_ns, (times,), total),
    ensures
        total == times.poll_ns + times.overhead_ns + times.parked_ns,
{
}

/// The sums over the workers take each of them in once: one worker more adds its
/// own times, and without workers there is no time.
pub proof fn law_each_worker_is_summed_once(
    states: &Vec<WorkerStateCounters>,
    total: WorkerStateTimes,
    fewer: &Vec<WorkerStateCounters>,
    earlier: WorkerStateTimes,
)
    requires
        call_ensures(worker_state_times, (states,), total),
        call_ensures(worker_state_times, (fewer,), earlier),
        states@.len() > 0,
        fewer@ == states@.drop_last(),
    ensures
        total.poll_ns == earlier.poll_ns + states@.last()@.poll_ns,
        total.overhead_ns == earlier.overhead_ns + states@.last()@.overhead_ns,
        total.parked_ns == earlier.parked_ns + states@.last()@.parked_ns,
        total.poll_cpu_ns == earlier.poll_cpu_ns + states@.last()@.poll_cpu_ns,
        total.unattributed_poll_ns == earlier.unattributed_poll_ns
            + states@.last()@.unattributed_poll_ns,
        fewer@.len() == 0 ==> earlier.poll_ns == 0 && earlier.overhead_ns == 0
            && earlier.parked_ns == 0 && earlier.poll_cpu_ns == 0 && earlier.unattributed_poll_ns
            == 0,
{
    let n = fewer@.len();
    lemma_sum_same(states@, fewer@, |t: WorkerStateTimes| t.poll_ns, n);
    lemma_sum_same(states@, fewer@, |t: WorkerStateTimes| t.overhead_ns, n);
    lemma_sum_same(states@, fewer@, |t: WorkerStateTimes| t.parked_ns, n);
    lemma_sum_same(states@, fewer@, |t: WorkerStateTimes| t.poll_cpu_ns, n);
    lemma_sum_same(states@, fewer@, |t: WorkerStateTimes| t.unattributed_poll_ns, n);
}

proof fn lemma_sum_same(
    a: Seq<WorkerStateCounters>,
    b: Seq<WorkerStateCounters>,
    counter: spec_fn(WorkerStateTimes) -> u64,
    n: nat,
)
    requires
        n <= a.len(),
        n <= b.len(),
        forall|i: int| 0 <= i < n ==> #[trigger] a[i] == b[i],
    ensures
        sum_of(a, counter, n) == sum_of(b, counter, n),
    decreases n,
{
    if n > 0 {
        lemma_sum_same(a, b, counter, (n - 1) as nat);
        assert(a[n - 1] == b[n - 1]);
    }
}

/// The CPU of a poll is what the thread's clock advanced by, and nothing where
/// the clock was off at either end or ran back.
pub proof fn law_poll_cpu_is_the_clocks_advance(
    before: Option<u64>,
    after: Option<u64>,
    cpu_ns: u64,
)
    requires
        call_ensures(poll_cpu, (before, after), cpu_ns),
    ensures
        before is Some && after is Some && before->0 <= after->0 ==> before->0 + cpu_ns
            == after->0,
        before is None || after is None || before->0 > after->0 ==> cpu_ns == 0,
{
}

} // verus!
