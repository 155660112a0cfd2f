//! A clock that runs while at least one session is open.

use vstd::prelude::*;

verus! {

/// Measures for how long at least one session was open, counting sessions that
/// overlap once.
///
/// Times are nanoseconds since any fixed instant, and the calls' times must not
/// go back.
#[derive(Clone, Copy, Debug, PartialEq, Eq, Structural)]
pub struct LiveTimer {
    open: u64,
    since_ns: u64,
    total_ns: u64,
}

/// The start or the end of a session.
#[derive(Clone, Copy, Debug, PartialEq, Eq, Structural)]
pub enum SessionEvent {
    Start(u64),
    End(u64),
}

impl SessionEvent {
    /// When the event happened.
    pub open spec fn time(self) -> u64 {
        match self {
            SessionEvent::Start(time) => time,
            SessionEvent::End(time) => time,
        }
    }
}

/// How many sessions are open after the events.
pub open spec fn open_after(events: Seq<SessionEvent>) -> int
    decreases events.len(),
{
    if events.len() == 0 {
        0
    } else {
        open_after(events.drop_last()) + match events.last() {
            SessionEvent::Start(_) => 1int,
            SessionEvent::End(_) => -1int,
        }
    }
}

/// When the last of the events happened.
pub open spec fn last_time(events: Seq<SessionEvent>) -> int {
    if events.len() == 0 {
        0
    } else {
        events.last().time() as int
    }
}

/// The events are those of sessions: in order, and none ends that has not begun.
pub open spec fn valid_events(events: Seq<SessionEvent>) -> bool
    decreases events.len(),
{
    events.len() == 0 || {
        &&& valid_events(events.drop_last())
        &&& events.last().time() >= last_time(events.drop_last())
        &&& open_after(events) >= 0
    }
}

/// Whether a session was open during the nanosecond that begins at `instant`.
pub open spec fn open_at(events: Seq<SessionEvent>, instant: int) -> bool
    decreases events.len(),
{
    if events.len() == 0 {
        false
    } else if events.last().time() <= instant {
        open_after(events) > 0
    } else {
        open_at(events.drop_last(), instant)
    }
}

/// For how many of the nanoseconds before `now` a session was open.
pub open spec fn live_time(events: Seq<SessionEvent>, now: nat) -> nat
    decreases now,
{
    if now == 0 {
        0
    } else {
        live_time(events, (now - 1) as nat) + (if open_at(events, now - 1) {
            1nat
        } else {
            0
        })
    }
}

impl LiveTimer {
    /// The number of open sessions.
    pub closed spec fn open(&self) -> nat {
        self.open as nat
    }

    /// The live time at `now`, or as much of it as can be counted.
    pub closed spec fn reading(&self, now: u64) -> u64 {
        let live = self.total_ns + (if self.open > 0 && now >= self.since_ns {
            now - self.since_ns
        } else {
            0
        });
        if live <= u64::MAX {
            live as u64
        } else {
            u64::MAX
        }
    }

    /// The timer after a session began at `now`.
    pub closed spec fn started(self, now: u64) -> LiveTimer {
        LiveTimer {
            open: (self.open + 1) as u64,
            since_ns: if self.open == 0 {
                now
            } else {
                self.since_ns
            },
            total_ns: self.total_ns,
        }
    }

    /// The timer after a session ended at `now`.
    pub closed spec fn ended(self, now: u64) -> LiveTimer {
        LiveTimer {
            open: (self.open - 1) as u64,
            since_ns: self.since_ns,
            total_ns: if self.open == 1 {
                self.reading(now)
            } else {
                self.total_ns
            },
        }
    }

    /// The number of open sessions.
    pub fn num_open(&self) -> (open: u64)
        ensures
            open == self.open(),
    {
        self.open
    }

    /// The timer has seen exactly these events.
    pub closed spec fn has_seen(&self, events: Seq<SessionEvent>) -> bool {
        &&& valid_events(events)
        &&& self.open == open_after(events)
        &&& self.open > 0 ==> self.since_ns <= last_time(events)
        &&& self.total_ns <= last_time(events)
        &&& self.open > 0 ==> self.total_ns <= self.since_ns
        &&& forall|now: u64|
            now >= last_time(events) ==> #[trigger] self.reading(now) == live_time(
                events,
                now as nat,
            )
    }

    /// A timer that has seen these events has counted their live time.
    pub proof fn law_reads_live_time(&self, events: Seq<SessionEvent>, now: u64)
        requires
            self.has_seen(events),
            now >= last_time(events),
        ensures
            valid_events(events),
            self.open() == open_after(events),
            self.reading(now) == live_time(events, now as nat),
    {
    }

    /// A session that starts is one more that is open.
    pub proof fn law_start_opens(&self, now: u64)
        requires
            self.open() < u64::MAX,
        ensures
            self.started(now).open() == self.open() + 1,
    {
    }

    /// A session that ends is one less that is open.
    pub proof fn law_end_closes(&self, now: u64)
        requires
            self.open() > 0,
        ensures
            self.ended(now).open() + 1 == self.open(),
    {
    }

    /// A timer that has seen some events has also seen the start of a session
    /// after them.
    pub proof fn law_start_is_seen(&self, events: Seq<SessionEvent>, now: u64)
        requires
            self.open() < u64::MAX,
            self.has_seen(events),
            last_time(events) <= now,
        ensures
            self.started(now).has_seen(events.push(SessionEvent::Start(now))),
    {
        let after = self.started(now);
        let next = events.push(SessionEvent::Start(now));
        assert(next.drop_last() =~= events);
        assert(self.reading(now) == live_time(events, now as nat));
        assert forall|later: u64| later >= last_time(next) implies #[trigger] after.reading(later)
            == live_time(next, later as nat) by {
            lemma_live_after(events, SessionEvent::Start(now), later as nat);
        }
    }

    /// A timer that has seen some events has also seen the end of a session
    /// after them.
    pub proof fn law_end_is_seen(&self, events: Seq<SessionEvent>, now: u64)
        requires
            self.open() > 0,
            self.has_seen(events),
            last_time(events) <= now,
        ensures
            self.ended(now).has_seen(events.push(SessionEvent::End(now))),
    {
        let after = self.ended(now);
        let next = events.push(SessionEvent::End(now));
        assert(next.drop_last() =~= events);
        assert(self.reading(now) == live_time(events, now as nat));
        assert forall|later: u64| later >= last_time(next) implies #[trigger] after.reading(later)
            == live_time(next, later as nat) by {
            lemma_live_after(events, SessionEvent::End(now), later as nat);
        }
    }

    /// A timer without open sessions reads the same at any time.
    pub proof fn law_idle_timer_stands_still(&self, now: u64, later: u64)
        requires
            self.open() == 0,
        ensures
            self.reading(later) == self.reading(now),
    {
    }

    /// A timer is fresh before its first session: it has seen nothing.
    pub proof fn law_fresh_has_seen_nothing(now: u64)
        ensures
            LiveTimer::fresh().open() == 0,
            LiveTimer::fresh().has_seen(Seq::empty()),
            LiveTimer::fresh().reading(now) == 0,
    {
        let events = Seq::<SessionEvent>::empty();
        assert forall|at: u64| at >= last_time(events) implies #[trigger] LiveTimer::fresh().reading(
            at,
        ) == live_time(events, at as nat) by {
            lemma_nothing_live(at as nat);
        }
    }

    /// A timer without sessions.
    pub closed spec fn fresh() -> LiveTimer {
        LiveTimer { open: 0, since_ns: 0, total_ns: 0 }
    }

    /// A timer without sessions.
    pub fn new() -> (timer: LiveTimer)
        ensures
            timer == LiveTimer::fresh(),
            timer.open() == 0,
            timer.has_seen(Seq::empty()),
            forall|now: u64| #[trigger] timer.reading(now) == 0,
    {
        proof {
            LiveTimer::law_fresh_has_seen_nothing(0);
        }
        LiveTimer { open: 0, since_ns: 0, total_ns: 0 }
    }

    /// Opens a session at `now`.
    pub fn start_session(&mut self, now: u64)
        requires
            old(self).open() < u64::MAX,
        ensures
            *final(self) == old(self).started(now),
            final(self).open() == old(self).open() + 1,
            forall|events: Seq<SessionEvent>|
                old(self).has_seen(events) && last_time(events) <= now
                    ==> #[trigger] final(self).has_seen(events.push(SessionEvent::Start(now))),
    {
        proof {
            assert forall|events: Seq<SessionEvent>|
                self.has_seen(events) && last_time(events) <= now implies #[trigger] self.started(
                now,
            ).has_seen(events.push(SessionEvent::Start(now))) by {
                self.law_start_is_seen(events, now);
            }
        }
        if self.open == 0 {
            self.since_ns = now;
        }
        self.open = self.open + 1;
    }

    /// Ends a session at `now`.
    pub fn end_session(&mut self, now: u64)
        requires
            old(self).open() > 0,
        ensures
            *final(self) == old(self).ended(now),
            final(self).open() + 1 == old(self).open(),
            forall|events: Seq<SessionEvent>|
                old(self).has_seen(events) && last_time(events) <= now
                    ==> #[trigger] final(self).has_seen(events.push(SessionEvent::End(now))),
    {
        proof {
            assert forall|events: Seq<SessionEvent>|
                self.has_seen(events) && last_time(events) <= now implies #[trigger] self.ended(
                now,
            ).has_seen(events.push(SessionEvent::End(now))) by {
                self.law_end_is_seen(events, now);
            }
        }
        self.open = self.open - 1;
        if self.open == 0 {
            self.total_ns = self.total_ns.saturating_add(now.saturating_sub(self.since_ns));
        }
    }

    /// The live time so far.
    pub fn total_time_live_ns(&self, now: u64) -> (total: u64)
        ensures
            total == self.reading(now),
    {
        if self.open > 0 {
            self.total_ns.saturating_add(now.saturating_sub(self.since_ns))
        } else {
            self.total_ns
        }
    }
}

proof fn lemma_nothing_live(now: nat)
    ensures
        live_time(Seq::empty(), now) == 0,
    decreases now,
{
    if now > 0 {
        lemma_nothing_live((now - 1) as nat);
    }
}

proof fn lemma_live_same(events: Seq<SessionEvent>, event: SessionEvent, now: nat)
    requires
        now <= event.time(),
    ensures
        live_time(events.push(event), now) == live_time(events, now),
    decreases now,
{
    if now > 0 {
        lemma_live_same(events, event, (now - 1) as nat);
        assert(events.push(event).drop_last() =~= events);
    }
}

proof fn lemma_live_after(events: Seq<SessionEvent>, event: SessionEvent, now: nat)
    requires
        event.time() <= now,
    ensures
        live_time(events.push(event), now) == live_time(events, event.time() as nat) + (
        if open_after(events.push(event)) > 0 {
            now - event.time()
        } else {
            0
        }),
    decreases now,
{
    if now == event.time() {
        lemma_live_same(events, event, now);
    } else {
        lemma_live_after(events, event, (now - 1) as nat);
    }
}

/// Sessions that overlap are counted once: the live time of any sessions is at
/// most the time that has passed.
pub proof fn law_live_time_is_at_most_elapsed(events: Seq<SessionEvent>, now: nat)
    ensures
        live_time(events, now) <= now,
    decreases now,
{
    if now > 0 {
        law_live_time_is_at_most_elapsed(events, (now - 1) as nat);
    }
}

/// A timer runs while a session is open and stands still otherwise: while one is
/// open, as much time is counted as passes, however many are open.
pub proof fn law_timer_runs_while_open(
    timer: &LiveTimer,
    events: Seq<SessionEvent>,
    now: u64,
    reading: u64,
    later: u64,
    later_reading: u64,
)
    requires
        timer.has_seen(events),
        last_time(events) <= now <= later,
        call_ensures(LiveTimer::total_time_live_ns, (timer, now), reading),
        call_ensures(LiveTimer::total_time_live_ns, (timer, later), later_reading),
    ensures
        timer.open() > 0 ==> later_reading - reading == later - now,
        timer.open() == 0 ==> later_reading == reading,
        reading <= now,
{
    law_live_time_is_at_most_elapsed(events, now as nat);
}

/// A session that starts while none is open starts the timer, and one that
/// starts while another is open changes nothing of what is counted.
pub proof fn law_first_session_starts_the_timer(
    timer: &mut LiveTimer,
    events: Seq<SessionEvent>,
    now: u64,
    started: &LiveTimer,
    later: u64,
    reading: u64,
    before: u64,
)
    requires
        old(timer).has_seen(events),
        old(timer).open() < u64::MAX,
        last_time(events) <= now <= later,
        call_ensures(LiveTimer::start_session, (timer, now), ()),
        *started == *final(timer),
        call_ensures(LiveTimer::total_time_live_ns, (started, later), reading),
        call_ensures(
            LiveTimer::total_time_live_ns,
            (
                &*old(timer),
                if old(timer).open() == 0 {
                    now
                } else {
                    later
                },
            ),
            before,
        ),
    ensures
        final(timer).open() == old(timer).open() + 1,
        old(timer).open() == 0 ==> reading == before + (later - now),
        old(timer).open() > 0 ==> reading == before,
{
    law_live_time_is_at_most_elapsed(events, now as nat);
    assert(old(timer).reading(now) == live_time(events, now as nat));
}

/// The session that ends last stops the timer at what was counted until then,
/// and one that ends while another is open changes nothing of what is counted.
pub proof fn law_last_session_stops_the_timer(
    timer: &mut LiveTimer,
    events: Seq<SessionEvent>,
    now: u64,
    ended: &LiveTimer,
    later: u64,
    reading: u64,
    before: u64,
)
    requires
        old(timer).has_seen(events),
        old(timer).open() > 0,
        last_time(events) <= now <= later,
        call_ensures(LiveTimer::end_session, (timer, now), ()),
        *ended == *final(timer),
        call_ensures(LiveTimer::total_time_live_ns, (ended, later), reading),
        call_ensures(
            LiveTimer::total_time_live_ns,
            (
                &*old(timer),
                if old(timer).open() == 1 {
                    now
                } else {
                    later
                },
            ),
            before,
        ),
    ensures
        final(timer).open() + 1 == old(timer).open(),
        reading == before,
{
}

/// A new timer has counted nothing, and has no open session.
pub proof fn law_new_timer_has_counted_nothing(timer: LiveTimer, now: u64, reading: u64)
    requires
        call_ensures(LiveTimer::new, (), timer),
        call_ensures(LiveTimer::total_time_live_ns, (&timer, now), reading),
    ensures
        timer.open() == 0,
        timer.has_seen(Seq::empty()),
        reading == 0,
{
}

} // verus!
