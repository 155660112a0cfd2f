//! Counters of a node's input and output.

use crate::live_timer::LiveTimer;
use crate::numbered::Numbered;
use vstd::prelude::*;

#[allow(unused_imports)]
use crate::executor::worker_state::counted;

verus! {

/// What one node reads and writes.
#[derive(Clone, Copy, Debug, PartialEq, Eq, Structural)]
pub struct IOMetrics {
    pub io_timer: LiveTimer,
    pub bytes_requested: u64,
    pub bytes_received: u64,
    pub bytes_sent: u64,
    /// Thread time of this node's detached decode tasks, aggregated from their
    /// `TaskMetrics` as each completes.
    ///
    /// Decode tasks are spawned detached, so they carry no node key and the
    /// executor's registration never sees them; without this a scan's CPU is
    /// almost entirely invisible. Same unit as a node's poll time, so the two
    /// are additive.
    pub decode_task_poll_ns: u64,
}

impl IOMetrics {
    /// Counters of a node that has done nothing.
    pub fn new() -> (metrics: IOMetrics)
        ensures
            metrics.io_timer == LiveTimer::fresh(),
            metrics.io_timer.open() == 0,
            metrics.io_timer.has_seen(Seq::empty()),
            metrics.bytes_requested == 0,
            metrics.bytes_received == 0,
            metrics.bytes_sent == 0,
            metrics.decode_task_poll_ns == 0,
    {
        IOMetrics {
            io_timer: LiveTimer::new(),
            bytes_requested: 0,
            bytes_received: 0,
            bytes_sent: 0,
            decode_task_poll_ns: 0,
        }
    }
}

impl Default for IOMetrics {
    fn default() -> (metrics: Self)
        ensures
            metrics.io_timer == LiveTimer::fresh(),
            metrics.io_timer.open() == 0,
            metrics.io_timer.has_seen(Seq::empty()),
            metrics.bytes_requested == 0,
            metrics.bytes_received == 0,
            metrics.bytes_sent == 0,
            metrics.decode_task_poll_ns == 0,
    {
        IOMetrics::new()
    }
}

/// The metrics of all nodes that do input or output, by their numbers.
pub type IOMetricsTable = Numbered<IOMetrics>;

/// The number of the metrics to report to, if any.
#[derive(Clone, Copy, Debug, PartialEq, Eq, Structural)]
pub struct OptIOMetrics(pub Option<u64>);

/// An open session of input or output, of the metrics with this number.
#[derive(Debug, PartialEq, Eq, Structural)]
pub struct IOSession {
    number: u64,
}

impl IOSession {
    /// The metrics that the session belongs to.
    pub closed spec fn number(&self) -> u64 {
        self.number
    }

    /// Ends the session at `now`. Metrics that are gone are left alone.
    pub fn end(self, table: &mut IOMetricsTable, now: u64)
        requires
            old(table).wf(),
            old(table)@.contains_key(self.number()) ==> old(table)@[self.number()].io_timer.open()
                > 0,
        ensures
            final(table).wf(),
            final(table).room() == old(table).room(),
            final(table)@ == session_ended(old(table)@, self.number(), now),
    {
        match table.remove(self.number) {
            Some(metrics) => {
                let mut metrics: IOMetrics = metrics;
                metrics.io_timer.end_session(now);
                table.put(self.number, metrics);
            },
            None => {},
        }
        assert(table@ =~= session_ended(old(table)@, self.number(), now));
    }
}

/// The table with the metrics of `number` replaced, if they exist.
pub open spec fn replaced(
    table: Map<u64, IOMetrics>,
    number: Option<u64>,
    metrics: spec_fn(IOMetrics) -> IOMetrics,
) -> Map<u64, IOMetrics> {
    if number is Some && table.contains_key(number->0) {
        table.insert(number->0, metrics(table[number->0]))
    } else {
        table
    }
}

/// The table with poll time of a decode task added to the metrics of `number`, if they exist.
pub open spec fn with_decoded(table: Map<u64, IOMetrics>, number: Option<u64>, amount: u64) -> Map<
    u64,
    IOMetrics,
> {
    replaced(
        table,
        number,
        |m: IOMetrics| (IOMetrics { decode_task_poll_ns: counted(m.decode_task_poll_ns, amount as int), ..m }),
    )
}

/// The table with bytes requested added to the metrics of `number`, if they exist.
pub open spec fn with_requested(table: Map<u64, IOMetrics>, number: Option<u64>, amount: u64) -> Map<
    u64,
    IOMetrics,
> {
    replaced(
        table,
        number,
        |m: IOMetrics| (IOMetrics { bytes_requested: counted(m.bytes_requested, amount as int), ..m }),
    )
}

/// The table with bytes received added to the metrics of `number`, if they exist.
pub open spec fn with_received(table: Map<u64, IOMetrics>, number: Option<u64>, amount: u64) -> Map<
    u64,
    IOMetrics,
> {
    replaced(
        table,
        number,
        |m: IOMetrics| (IOMetrics { bytes_received: counted(m.bytes_received, amount as int), ..m }),
    )
}

/// The table with bytes sent added to the metrics of `number`, if they exist.
pub open spec fn with_sent(table: Map<u64, IOMetrics>, number: Option<u64>, amount: u64) -> Map<
    u64,
    IOMetrics,
> {
    replaced(
        table,
        number,
        |m: IOMetrics| (IOMetrics { bytes_sent: counted(m.bytes_sent, amount as int), ..m }),
    )
}

/// The table after a session of the metrics `number` began at `now`.
pub open spec fn session_started(table: Map<u64, IOMetrics>, number: u64, now: u64) -> Map<
    u64,
    IOMetrics,
> {
    table.insert(
        number,
        IOMetrics { io_timer: table[number].io_timer.started(now), ..table[number] },
    )
}

/// The table after a session of the metrics `number` ended at `now`, if they
/// exist.
pub open spec fn session_ended(table: Map<u64, IOMetrics>, number: u64, now: u64) -> Map<
    u64,
    IOMetrics,
> {
    replaced(
        table,
        Some(number),
        |m: IOMetrics| (IOMetrics { io_timer: m.io_timer.ended(now), ..m }),
    )
}

impl OptIOMetrics {
    /// The metrics that are reported to, if there are any.
    pub open spec fn target(self, table: Map<u64, IOMetrics>) -> Option<u64> {
        if self.0 is Some && table.contains_key(self.0->0) {
            self.0
        } else {
            None
        }
    }

    /// Opens a session at `now`.
    pub fn start_io_session(&self, table: &mut IOMetricsTable, now: u64) -> (session: Option<
        IOSession,
    >)
        requires
            old(table).wf(),
            self.target(old(table)@) matches Some(number) ==> old(table)@[number].io_timer.open()
                < u64::MAX,
        ensures
            final(table).wf(),
            final(table).room() == old(table).room(),
            match self.target(old(table)@) {
                Some(number) => session is Some && session->0.number() == number && final(table)@
                    == session_started(old(table)@, number, now)
                    && final(table)@[number].io_timer.open() == old(
                    table,
                )@[number].io_timer.open() + 1,
                None => session is None && final(table)@ == old(table)@,
            },
    {
        match self.0 {
            None => None,
            Some(number) => match table.remove(number) {
                None => {
                    assert(table@ =~= old(table)@);
                    None
                },
                Some(metrics) => {
                    let mut metrics: IOMetrics = metrics;
                    metrics.io_timer.start_session(now);
                    table.put(number, metrics);
                    assert(table@ =~= old(table)@.insert(number, metrics));
                    Some(IOSession { number })
                },
            },
        }
    }

    /// Folds one finished decode task's poll time onto this node.
    ///
    /// Call only once the task has completed, or the value will be partial.
    pub fn add_decode_task(&self, table: &mut IOMetricsTable, poll_time_ns: u64)
        requires
            old(table).wf(),
        ensures
            final(table).wf(),
            final(table).room() == old(table).room(),
            final(table)@ == with_decoded(old(table)@, self.0, poll_time_ns),
    {
        if let Some(number) = self.0 {
            if let Some(metrics) = table.remove(number) {
                let mut metrics: IOMetrics = metrics;
                metrics.decode_task_poll_ns = metrics.decode_task_poll_ns.wrapping_add(
                    poll_time_ns,
                );
                table.put(number, metrics);
            }
            assert(table@ =~= with_decoded(old(table)@, self.0, poll_time_ns));
        }
    }

    /// Counts bytes that were asked for.
    pub fn add_bytes_requested(&self, table: &mut IOMetricsTable, bytes_requested: u64)
        requires
            old(table).wf(),
        ensures
            final(table).wf(),
            final(table).room() == old(table).room(),
            final(table)@ == with_requested(old(table)@, self.0, bytes_requested),
    {
        if let Some(number) = self.0 {
            if let Some(metrics) = table.remove(number) {
                let mut metrics: IOMetrics = metrics;
                metrics.bytes_requested = metrics.bytes_requested.wrapping_add(bytes_requested);
                table.put(number, metrics);
            }
            assert(table@ =~= with_requested(old(table)@, self.0, bytes_requested));
        }
    }

    /// Counts bytes that arrived.
    pub fn add_bytes_received(&self, table: &mut IOMetricsTable, bytes_received: u64)
        requires
            old(table).wf(),
        ensures
            final(table).wf(),
            final(table).room() == old(table).room(),
            final(table)@ == with_received(old(table)@, self.0, bytes_received),
    {
        if let Some(number) = self.0 {
            if let Some(metrics) = table.remove(number) {
                let mut metrics: IOMetrics = metrics;
                metrics.bytes_received = metrics.bytes_received.wrapping_add(bytes_received);
                table.put(number, metrics);
            }
            assert(table@ =~= with_received(old(table)@, self.0, bytes_received));
        }
    }

    /// Counts bytes that were sent.
    pub fn add_bytes_sent(&self, table: &mut IOMetricsTable, bytes_sent: u64)
        requires
            old(table).wf(),
        ensures
            final(table).wf(),
            final(table).room() == old(table).room(),
            final(table)@ == with_sent(old(table)@, self.0, bytes_sent),
    {
        if let Some(number) = self.0 {
            if let Some(metrics) = table.remove(number) {
                let mut metrics: IOMetrics = metrics;
                metrics.bytes_sent = metrics.bytes_sent.wrapping_add(bytes_sent);
                table.put(number, metrics);
            }
            assert(table@ =~= with_sent(old(table)@, self.0, bytes_sent));
        }
    }

    /// Begins to read `num_bytes` at `now`: they are requested, and a session
    /// is open until [`OptIOMetrics::end_io_read`].
    pub fn begin_io_read(&self, table: &mut IOMetricsTable, num_bytes: u64, now: u64) -> (session:
        Option<IOSession>)
        requires
            old(table).wf(),
            self.target(old(table)@) matches Some(number) ==> old(table)@[number].io_timer.open()
                < u64::MAX,
        ensures
            final(table).wf(),
            final(table).room() == old(table).room(),
            match self.target(old(table)@) {
                Some(number) => session is Some && session->0.number() == number && final(table)@
                    == session_started(
                    with_requested(old(table)@, self.0, num_bytes),
                    number,
                    now,
                ) && final(table)@[number].io_timer.open() == old(
                    table,
                )@[number].io_timer.open() + 1,
                None => session is None && final(table)@ == old(table)@,
            },
    {
        self.add_bytes_requested(table, num_bytes);
        self.start_io_session(table, now)
    }

    /// Takes note that a read of `num_bytes` ended at `now`: the session is
    /// over, and the bytes have arrived.
    pub fn end_io_read(
        &self,
        table: &mut IOMetricsTable,
        session: Option<IOSession>,
        num_bytes: u64,
        now: u64,
    )
        requires
            old(table).wf(),
            session matches Some(s) ==> old(table)@.contains_key(s.number()) ==> old(
                table,
            )@[s.number()].io_timer.open() > 0,
        ensures
            final(table).wf(),
            final(table).room() == old(table).room(),
            final(table)@ == with_received(
                match session {
                    Some(s) => session_ended(old(table)@, s.number(), now),
                    None => old(table)@,
                },
                self.0,
                num_bytes,
            ),
    {
        if let Some(session) = session {
            session.end(table, now);
        }
        self.add_bytes_received(table, num_bytes);
    }

    /// Takes note that a transmission of `num_bytes` ended at `now`: the session
    /// is over, and the bytes are sent.
    pub fn end_bytes_tx(
        &self,
        table: &mut IOMetricsTable,
        session: Option<IOSession>,
        num_bytes: u64,
        now: u64,
    )
        requires
            old(table).wf(),
            session matches Some(s) ==> old(table)@.contains_key(s.number()) ==> old(
                table,
            )@[s.number()].io_timer.open() > 0,
        ensures
            final(table).wf(),
            final(table).room() == old(table).room(),
            final(table)@ == with_sent(
                match session {
                    Some(s) => session_ended(old(table)@, s.number(), now),
                    None => old(table)@,
                },
                self.0,
                num_bytes,
            ),
    {
        if let Some(session) = session {
            session.end(table, now);
        }
        self.add_bytes_sent(table, num_bytes);
    }
}

/// A read that ends is counted in full at both ends: the bytes as requested and
/// as received, and one session of input and output. Nothing else changes.
pub proof fn law_read_is_counted_at_both_ends(
    table: Map<u64, IOMetrics>,
    number: u64,
    num_bytes: u64,
    start: u64,
    end: u64,
)
    requires
        table.contains_key(number),
    ensures
        with_received(
            session_ended(
                session_started(with_requested(table, Some(number), num_bytes), number, start),
                number,
                end,
            ),
            Some(number),
            num_bytes,
        ) == table.insert(
            number,
            IOMetrics {
                io_timer: table[number].io_timer.started(start).ended(end),
                bytes_requested: counted(table[number].bytes_requested, num_bytes as int),
                bytes_received: counted(table[number].bytes_received, num_bytes as int),
                ..table[number]
            },
        ),
{
    let requested = with_requested(table, Some(number), num_bytes);
    let started = session_started(requested, number, start);
    let ended = session_ended(started, number, end);
    assert(with_received(ended, Some(number), num_bytes) =~= table.insert(
        number,
        IOMetrics {
            io_timer: table[number].io_timer.started(start).ended(end),
            bytes_requested: counted(table[number].bytes_requested, num_bytes as int),
            bytes_received: counted(table[number].bytes_received, num_bytes as int),
            ..table[number]
        },
    ));
}

/// A transmission that ends is counted in full: the bytes as sent, and one
/// session of input and output. Nothing else changes.
pub proof fn law_transmission_is_counted(
    table: Map<u64, IOMetrics>,
    number: u64,
    num_bytes: u64,
    start: u64,
    end: u64,
)
    requires
        table.contains_key(number),
    ensures
        with_sent(
            session_ended(session_started(table, number, start), number, end),
            Some(number),
            num_bytes,
        ) == table.insert(
            number,
            IOMetrics {
                io_timer: table[number].io_timer.started(start).ended(end),
                bytes_sent: counted(table[number].bytes_sent, num_bytes as int),
                ..table[number]
            },
        ),
{
    let ended = session_ended(session_started(table, number, start), number, end);
    assert(with_sent(ended, Some(number), num_bytes) =~= table.insert(
        number,
        IOMetrics {
            io_timer: table[number].io_timer.started(start).ended(end),
            bytes_sent: counted(table[number].bytes_sent, num_bytes as int),
            ..table[number]
        },
    ));
}

/// Bytes that are asked for are added to the bytes requested of the metrics that
/// are reported to, and to nothing else. The counter goes round at its end.
pub proof fn law_requested_bytes_are_added(
    target: &OptIOMetrics,
    table: &mut IOMetricsTable,
    amount: u64,
    number: u64,
)
    requires
        call_ensures(OptIOMetrics::add_bytes_requested, (target, table, amount), ()),
    ensures
        final(table)@.dom() == old(table)@.dom(),
        old(table)@.contains_key(number) && target.0 != Some(number) ==> final(table)@[number]
            == old(table)@[number],
        old(table)@.contains_key(number) && target.0 == Some(number) ==> {
            let before = old(table)@[number];
            let after = final(table)@[number];
            &&& (after.bytes_requested - before.bytes_requested - amount) % 0x1_0000_0000_0000_0000 == 0
            &&& after.io_timer == before.io_timer
            &&& after.bytes_received == before.bytes_received
            &&& after.bytes_sent == before.bytes_sent
            &&& after.decode_task_poll_ns == before.decode_task_poll_ns
        },
{
    assert(final(table)@.dom() =~= old(table)@.dom());
}

/// Bytes that arrive are added to the bytes received, in the same way.
pub proof fn law_received_bytes_are_added(
    target: &OptIOMetrics,
    table: &mut IOMetricsTable,
    amount: u64,
    number: u64,
)
    requires
        call_ensures(OptIOMetrics::add_bytes_received, (target, table, amount), ()),
    ensures
        final(table)@.dom() == old(table)@.dom(),
        old(table)@.contains_key(number) && target.0 != Some(number) ==> final(table)@[number]
            == old(table)@[number],
        old(table)@.contains_key(number) && target.0 == Some(number) ==> {
            let before = old(table)@[number];
            let after = final(table)@[number];
            &&& (after.bytes_received - before.bytes_received - amount) % 0x1_0000_0000_0000_0000 == 0
            &&& after.io_timer == before.io_timer
            &&& after.bytes_requested == before.bytes_requested
            &&& after.bytes_sent == before.bytes_sent
            &&& after.decode_task_poll_ns == before.decode_task_poll_ns
        },
{
    assert(final(table)@.dom() =~= old(table)@.dom());
}

/// Bytes that are sent are added to the bytes sent, in the same way.
pub proof fn law_sent_bytes_are_added(
    target: &OptIOMetrics,
    table: &mut IOMetricsTable,
    amount: u64,
    number: u64,
)
    requires
        call_ensures(OptIOMetrics::add_bytes_sent, (target, table, amount), ()),
    ensures
        final(table)@.dom() == old(table)@.dom(),
        old(table)@.contains_key(number) && target.0 != Some(number) ==> final(table)@[number]
            == old(table)@[number],
        old(table)@.contains_key(number) && target.0 == Some(number) ==> {
            let before = old(table)@[number];
            let after = final(table)@[number];
            &&& (after.bytes_sent - before.bytes_sent - amount) % 0x1_0000_0000_0000_0000 == 0
            &&& after.io_timer == before.io_timer
            &&& after.bytes_requested == before.bytes_requested
            &&& after.bytes_received == before.bytes_received
            &&& after.decode_task_poll_ns == before.decode_task_poll_ns
        },
{
    assert(final(table)@.dom() =~= old(table)@.dom());
}

/// The poll time of a decode task is added to that of the node, in the same way.
pub proof fn law_decode_time_is_added(
    target: &OptIOMetrics,
    table: &mut IOMetricsTable,
    amount: u64,
    number: u64,
)
    requires
        call_ensures(OptIOMetrics::add_decode_task, (target, table, amount), ()),
    ensures
        final(table)@.dom() == old(table)@.dom(),
        old(table)@.contains_key(number) && target.0 != Some(number) ==> final(table)@[number]
            == old(table)@[number],
        old(table)@.contains_key(number) && target.0 == Some(number) ==> {
            let before = old(table)@[number];
            let after = final(table)@[number];
            &&& (after.decode_task_poll_ns - before.decode_task_poll_ns - amount) % 0x1_0000_0000_0000_0000 == 0
            &&& after.io_timer == before.io_timer
            &&& after.bytes_requested == before.bytes_requested
            &&& after.bytes_received == before.bytes_received
            &&& after.bytes_sent == before.bytes_sent
        },
{
    assert(final(table)@.dom() =~= old(table)@.dom());
}

/// A read asks for its bytes and opens a session when it begins. When it ends
/// the session is over and the bytes have arrived. Metrics that are not reported
/// to stay as they are throughout.
pub proof fn law_read_opens_and_closes_one_session(
    target: &OptIOMetrics,
    table: &mut IOMetricsTable,
    num_bytes: u64,
    start: u64,
    session: Option<IOSession>,
    ending: &mut IOMetricsTable,
    end: u64,
    number: u64,
)
    requires
        call_ensures(OptIOMetrics::begin_io_read, (target, table, num_bytes, start), session),
        *old(ending) == *final(table),
        call_ensures(OptIOMetrics::end_io_read, (target, ending, session, num_bytes, end), ()),
        old(table)@.contains_key(number),
        old(table)@[number].io_timer.open() < u64::MAX,
    ensures
        target.0 != Some(number) ==> final(table)@[number] == old(table)@[number] && final(ending)@[number] == old(table)@[number],
        target.0 == Some(number) ==> {
            let before = old(table)@[number];
            let during = final(table)@[number];
            let after = final(ending)@[number];
            &&& session is Some
            &&& during.io_timer.open() == before.io_timer.open() + 1
            &&& (during.bytes_requested - before.bytes_requested - num_bytes)
                % 0x1_0000_0000_0000_0000 == 0
            &&& during.bytes_received == before.bytes_received
            &&& after.io_timer.open() == before.io_timer.open()
            &&& (after.bytes_received - before.bytes_received - num_bytes)
                % 0x1_0000_0000_0000_0000 == 0
            &&& after.bytes_requested == during.bytes_requested
            &&& after.bytes_sent == before.bytes_sent
            &&& after.decode_task_poll_ns == before.decode_task_poll_ns
        },
        target.0 is None ==> session is None,
{
    if target.0 == Some(number) {
        let timer = old(table)@[number].io_timer;
        timer.law_start_opens(start);
        timer.started(start).law_end_closes(end);
    }
}

/// A transmission is counted when it ends: its session is over, and its bytes
/// are sent.
pub proof fn law_transmission_counts_at_its_end(
    target: &OptIOMetrics,
    table: &mut IOMetricsTable,
    start: u64,
    session: Option<IOSession>,
    ending: &mut IOMetricsTable,
    num_bytes: u64,
    end: u64,
    number: u64,
)
    requires
        call_ensures(OptIOMetrics::start_io_session, (target, table, start), session),
        *old(ending) == *final(table),
        call_ensures(OptIOMetrics::end_bytes_tx, (target, ending, session, num_bytes, end), ()),
        old(table)@.contains_key(number),
        old(table)@[number].io_timer.open() < u64::MAX,
    ensures
        target.0 != Some(number) ==> final(ending)@[number] == old(table)@[number],
        target.0 == Some(number) ==> {
            let before = old(table)@[number];
            let after = final(ending)@[number];
            &&& final(table)@[number].io_timer.open() == before.io_timer.open() + 1
            &&& after.io_timer.open() == before.io_timer.open()
            &&& (after.bytes_sent - before.bytes_sent - num_bytes) % 0x1_0000_0000_0000_0000 == 0
            &&& after.bytes_requested == before.bytes_requested
            &&& after.bytes_received == before.bytes_received
            &&& after.decode_task_poll_ns == before.decode_task_poll_ns
        },
{
    if target.0 == Some(number) {
        let timer = old(table)@[number].io_timer;
        timer.law_start_opens(start);
        timer.started(start).law_end_closes(end);
    }
}

/// A session counts for the metrics of its node: they see its start when it
/// opens and its end when it ends, and read as a timer that saw the same.
pub proof fn law_io_session_is_timed(
    target: &OptIOMetrics,
    table: &mut IOMetricsTable,
    start: u64,
    session: IOSession,
    ending: &mut IOMetricsTable,
    end: u64,
    number: u64,
    timer: &mut LiveTimer,
    stopping: &mut LiveTimer,
)
    requires
        call_ensures(OptIOMetrics::start_io_session, (target, table, start), Some(session)),
        *old(ending) == *final(table),
        call_ensures(IOSession::end, (session, ending, end), ()),
        target.0 == Some(number),
        old(table)@.contains_key(number),
        *old(timer) == old(table)@[number].io_timer,
        call_ensures(LiveTimer::start_session, (timer, start), ()),
        *old(stopping) == *final(timer),
        call_ensures(LiveTimer::end_session, (stopping, end), ()),
    ensures
        final(table)@[number].io_timer == *final(timer),
        final(ending)@[number].io_timer == *final(stopping),
        final(ending)@[number].bytes_requested == old(table)@[number].bytes_requested,
        final(ending)@[number].bytes_received == old(table)@[number].bytes_received,
        final(ending)@[number].bytes_sent == old(table)@[number].bytes_sent,
        final(ending)@[number].decode_task_poll_ns == old(table)@[number].decode_task_poll_ns,
{
}

} // verus!
