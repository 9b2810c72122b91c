//! Stream counts and the idle clock of a provider.

use vstd::prelude::*;

use crate::clock::{from_timestamp, in_calendar, Timestamp};

verus! {

/// How many streams of a connection were opened and closed.
#[derive(Clone, Copy, PartialEq, Eq, Structural, Debug)]
pub struct StreamCounters {
    pub opened: usize,
    pub closed: usize,
}

/// `n + 1`, back at 0 behind the largest value.
pub open spec fn next_count(n: usize) -> usize {
    if n == usize::MAX {
        0
    } else {
        (n + 1) as usize
    }
}

fn count_up(n: usize) -> (r: usize)
    ensures
        r == next_count(n),
{
    if n == usize::MAX {
        0
    } else {
        n + 1
    }
}

impl StreamCounters {
    /// No stream yet.
    pub fn new() -> (r: StreamCounters)
        ensures
            r == (StreamCounters { opened: 0, closed: 0 }),
    {
        StreamCounters { opened: 0, closed: 0 }
    }

    /// The counts after one more stream was opened.
    pub open spec fn with_open(self) -> StreamCounters {
        StreamCounters { opened: next_count(self.opened), closed: self.closed }
    }

    /// The counts after one more stream was closed.
    pub open spec fn with_close(self) -> StreamCounters {
        StreamCounters { opened: self.opened, closed: next_count(self.closed) }
    }

    /// The number of open streams.
    pub open spec fn active(self) -> int {
        if self.busy() {
            self.opened - self.closed
        } else {
            0
        }
    }

    /// Counts an opened stream.
    pub fn open_stream(&mut self)
        ensures
            *final(self) == old(self).with_open(),
    {
        self.opened = count_up(self.opened);
    }

    /// Counts a closed stream.
    pub fn close_stream(&mut self)
        ensures
            *final(self) == old(self).with_close(),
    {
        self.closed = count_up(self.closed);
    }

    /// Whether a stream is open.
    pub open spec fn busy(self) -> bool {
        self.opened > self.closed
    }

    /// The number of open streams.
    pub fn active_streams(&self) -> (r: usize)
        ensures
            r == self.active(),
    {
        if self.opened > self.closed {
            self.opened - self.closed
        } else {
            0
        }
    }
}

/// Since when a provider has been idle.
#[derive(Clone, Copy, PartialEq, Eq, Structural, Debug)]
pub struct IdleTracker {
    /// Timestamp (seconds since epoch) when the provider became idle. 0 if busy
    /// (processing streams).
    pub idle_since: i64,
    /// The number of total opened streams when the provider became idle.
    pub streams_at_idle_start: usize,
}

impl IdleTracker {
    /// Whether the provider was idle at the last look and has opened no stream since.
    pub open spec fn still_idle(self, streams: StreamCounters) -> bool {
        self.idle_since != 0 && self.streams_at_idle_start == streams.opened
    }

    /// The tracker after a look at `streams` at second `now`: a busy provider
    /// has no idle time; one that stays idle keeps it; one that turned idle
    /// starts at `now`.
    pub open spec fn after_look(self, streams: StreamCounters, now: i64) -> IdleTracker {
        if streams.busy() {
            IdleTracker { idle_since: 0, ..self }
        } else if self.still_idle(streams) {
            self
        } else {
            IdleTracker { idle_since: now, streams_at_idle_start: streams.opened }
        }
    }

    /// A provider that connects at second `now` has no stream, so it is idle.
    pub fn new(now: i64) -> (r: IdleTracker)
        ensures
            r == (IdleTracker { idle_since: now, streams_at_idle_start: 0 }),
    {
        IdleTracker { idle_since: now, streams_at_idle_start: 0 }
    }

    /// Looks at `streams` at second `now`. Returns since when the provider has
    /// been idle, `None` for a busy one.
    pub fn observe(&mut self, streams: StreamCounters, now: i64) -> (r: Option<Timestamp>)
        ensures
            *final(self) == old(self).after_look(streams, now),
            r == (if !streams.busy() && in_calendar(final(self).idle_since) {
                Some(Timestamp { secs: final(self).idle_since, nanos: 0 })
            } else {
                None
            }),
    {
        if streams.opened > streams.closed {
            self.idle_since = 0;
            None
        } else if self.idle_since != 0 && self.streams_at_idle_start == streams.opened {
            from_timestamp(self.idle_since, 0)
        } else {
            self.streams_at_idle_start = streams.opened;
            self.idle_since = now;
            from_timestamp(now, 0)
        }
    }
}

/// Looking again without a stream in between does not restart the idle clock.
pub proof fn law_idle_clock_keeps_running(t: IdleTracker, streams: StreamCounters, now: i64, later: i64)
    requires
        !streams.busy(),
        now != 0,
    ensures
        t.after_look(streams, now).after_look(streams, later) == t.after_look(streams, now),
{
}

/// A stream that was opened and closed between two looks restarts the idle
/// clock at the second look.
pub proof fn law_activity_restarts_idle_clock(
    t: IdleTracker,
    before: StreamCounters,
    after: StreamCounters,
    now: i64,
    later: i64,
)
    requires
        !before.busy(),
        !after.busy(),
        before.opened != after.opened,
    ensures
        t.after_look(before, now).after_look(after, later).idle_since == later,
{
}

/// After a look at a busy provider the next look at an idle one starts its
/// idle clock.
pub proof fn law_busy_provider_has_no_idle_time(
    t: IdleTracker,
    busy: StreamCounters,
    idle: StreamCounters,
    now: i64,
    later: i64,
)
    requires
        busy.busy(),
        !idle.busy(),
    ensures
        t.after_look(busy, now).idle_since == 0,
        t.after_look(busy, now).after_look(idle, later).idle_since == later,
{
}

/// A stream that is opened or closed.
pub enum StreamStep {
    Open,
    Close,
}

/// The counts after `steps`.
pub open spec fn counted(c: StreamCounters, steps: Seq<StreamStep>) -> StreamCounters
    decreases steps.len(),
{
    if steps.len() == 0 {
        c
    } else {
        let before = counted(c, steps.drop_last());
        match steps.last() {
            StreamStep::Open => before.with_open(),
            StreamStep::Close => before.with_close(),
        }
    }
}

/// A stream that is opened and closed again makes both counts one higher than they
/// are without it, whatever is opened and closed between, and so leaves the number
/// of active streams as it is without it. (Where just one of the counts is at its
/// largest value, it starts again at 0 and the number is lost.)
pub proof fn law_closed_stream_is_not_active(c: StreamCounters, between: Seq<StreamStep>)
    ensures
        ({
            let without = counted(c, between);
            let with = counted(c.with_open(), between).with_close();
            &&& with == (StreamCounters {
                opened: next_count(without.opened),
                closed: next_count(without.closed),
            })
            &&& (without.opened == usize::MAX) == (without.closed == usize::MAX) ==> with.active()
                == without.active()
        }),
    decreases between.len(),
{
    if between.len() > 0 {
        law_closed_stream_is_not_active(c, between.drop_last());
    }
}

/// A provider is busy exactly while more streams were opened than closed, and has
/// that many active ones.
pub proof fn law_active_streams_are_those_not_closed(c: StreamCounters)
    ensures
        c.busy() <==> c.opened > c.closed,
        c.opened >= c.closed ==> c.active() == c.opened - c.closed,
        c.opened < c.closed ==> c.active() == 0,
{
}

/// Opening and closing count one up, each its own count.
pub proof fn law_streams_are_counted_one_by_one(c: StreamCounters)
    ensures
        c.opened < usize::MAX ==> c.with_open().opened == c.opened + 1,
        c.opened == usize::MAX ==> c.with_open().opened == 0,
        c.with_open().closed == c.closed,
        c.closed < usize::MAX ==> c.with_close().closed == c.closed + 1,
        c.closed == usize::MAX ==> c.with_close().closed == 0,
        c.with_close().opened == c.opened,
{
}

/// A look at a provider with open streams forgets its idle time. One without keeps it
/// where no stream was opened since it began, and begins it anew otherwise.
pub proof fn law_idle_time_begins_with_the_last_stream(
    t: IdleTracker,
    streams: StreamCounters,
    now: i64,
)
    ensures
        ({
            let after = t.after_look(streams, now);
            &&& streams.opened > streams.closed ==> after.idle_since == 0
                && after.streams_at_idle_start == t.streams_at_idle_start
            &&& streams.opened <= streams.closed ==> after.streams_at_idle_start == streams.opened
            &&& streams.opened <= streams.closed && t.idle_since != 0 && t.streams_at_idle_start
                == streams.opened ==> after.idle_since == t.idle_since
            &&& streams.opened <= streams.closed && (t.idle_since == 0 || t.streams_at_idle_start
                != streams.opened) ==> after.idle_since == now
        }),
{
}

} // verus!
