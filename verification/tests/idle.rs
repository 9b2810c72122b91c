use spnhub::clock::{Timestamp, FIRST_SECOND, LAST_SECOND};
use spnhub::idle::{IdleTracker, StreamCounters};

#[test]
fn open_streams_are_counted() {
    let mut streams = StreamCounters::new();
    assert_eq!(streams.active_streams(), 0);
    streams.open_stream();
    streams.open_stream();
    streams.close_stream();
    assert_eq!(streams, StreamCounters { opened: 2, closed: 1 });
    assert_eq!(streams.active_streams(), 1);
}

#[test]
fn more_closed_than_opened_counts_as_none() {
    assert_eq!(StreamCounters { opened: 1, closed: 3 }.active_streams(), 0);
}

#[test]
fn counters_wrap_around() {
    let mut streams = StreamCounters { opened: usize::MAX, closed: usize::MAX };
    streams.open_stream();
    streams.close_stream();
    assert_eq!(streams, StreamCounters { opened: 0, closed: 0 });
}

#[test]
fn idle_clock_runs_until_a_stream_comes() {
    let mut tracker = IdleTracker::new(1000);
    let none = StreamCounters { opened: 0, closed: 0 };
    let since = Some(Timestamp { secs: 1000, nanos: 0 });
    assert_eq!(tracker.observe(none, 1010), since);
    assert_eq!(tracker.observe(none, 1020), since);
}

#[test]
fn a_stream_between_two_looks_restarts_the_idle_clock() {
    let mut tracker = IdleTracker::new(1000);
    let one = StreamCounters { opened: 1, closed: 1 };
    assert_eq!(tracker.observe(one, 1010), Some(Timestamp { secs: 1010, nanos: 0 }));
    assert_eq!(tracker, IdleTracker { idle_since: 1010, streams_at_idle_start: 1 });
}

#[test]
fn a_busy_provider_has_no_idle_time() {
    let mut tracker = IdleTracker::new(1000);
    assert_eq!(tracker.observe(StreamCounters { opened: 1, closed: 0 }, 1010), None);
    assert_eq!(tracker.idle_since, 0);
    let done = StreamCounters { opened: 1, closed: 1 };
    assert_eq!(tracker.observe(done, 1020), Some(Timestamp { secs: 1020, nanos: 0 }));
}

#[test]
fn times_outside_the_calendar_are_no_idle_times() {
    let none = StreamCounters { opened: 0, closed: 0 };
    for secs in [FIRST_SECOND, LAST_SECOND] {
        let mut tracker = IdleTracker::new(secs);
        assert_eq!(tracker.observe(none, 5), Some(Timestamp { secs, nanos: 0 }));
        assert!(chrono::DateTime::from_timestamp(secs, 0).is_some());
    }
    for secs in [FIRST_SECOND - 1, LAST_SECOND + 1, i64::MAX, i64::MIN] {
        let mut tracker = IdleTracker::new(secs);
        assert_eq!(tracker.observe(none, 5), None);
        assert!(chrono::DateTime::from_timestamp(secs, 0).is_none());
    }
}

#[test]
fn a_closed_stream_is_not_active_any_more() {
    let mut without = StreamCounters { opened: 7, closed: 5 };
    let mut with = without;
    with.open_stream();
    for streams in [&mut without, &mut with] {
        streams.close_stream();
        streams.open_stream();
        streams.open_stream();
    }
    with.close_stream();
    assert_eq!(with, StreamCounters { opened: 10, closed: 7 });
    assert_eq!(with.active_streams(), without.active_streams());
}
