//! The stopwatch: off or on, with the time of the interval that was
//! completed last.

use crate::clock::nanos_since;
use crate::format::format_seconds;
use crate::format::is_fixed_point;
use crate::format::seconds_text;
use crate::format::Precision;
use std::time::Instant;
use vstd::prelude::*;

verus! {

/// A stopwatch. While it runs it holds the instant at which it was started;
/// the time of the last completed interval stays until the next one ends.
#[derive(Debug)]
pub struct CubeTimer {
    starttime: Option<Instant>,
    lasttime: u64,
}

/// What the stopwatch shows: while it runs, the time `elapsed` since the
/// start with one decimal; at rest, the last completed time `last` with
/// three.
pub open spec fn display(running: bool, last: u64, elapsed: u64) -> Seq<char> {
    if running {
        seconds_text(elapsed as nat, Precision::Tenths)
    } else {
        seconds_text(last as nat, Precision::Millis)
    }
}

impl CubeTimer {
    /// The instant at which the running interval was started; none at rest.
    pub closed spec fn started(&self) -> Option<Instant> {
        self.starttime
    }

    /// Whether the stopwatch is running: it is exactly while it holds a
    /// start.
    pub open spec fn running(&self) -> bool {
        self.started() is Some
    }

    /// Nanoseconds of the interval completed last; zero before the first.
    pub closed spec fn last(&self) -> u64 {
        self.lasttime
    }

    /// A stopwatch at rest that has measured nothing yet.
    pub fn default() -> (r: Self)
        ensures
            !r.running(),
            r.last() == 0,
    {
        Self { starttime: None, lasttime: 0 }
    }

    /// Whether the stopwatch is running.
    pub fn is_running(&self) -> (r: bool)
        ensures
            r == self.running(),
    {
        self.starttime.is_some()
    }

    /// Nanoseconds of the interval completed last; zero before the first.
    pub fn last_time(&self) -> (r: u64)
        ensures
            r == self.last(),
    {
        self.lasttime
    }

    /// Flips the stopwatch. Started, it gives `None`; stopped, it gives the
    /// time of the interval that just ended, which is then the last time.
    pub fn space_press(&mut self) -> (r: Option<u64>)
        ensures
            final(self).running() == !old(self).running(),
            old(self).running() ==> r == Some(final(self).last()),
            !old(self).running() ==> r is None && final(self).last() == old(self).last(),
    {
        if self.is_running() {
            Some(self.timer_off())
        } else {
            self.timer_on();
            None
        }
    }

    /// Starts an interval now. The last completed time stays.
    pub fn timer_on(&mut self)
        ensures
            final(self).running(),
            final(self).last() == old(self).last(),
    {
        self.start_at(Instant::now());
    }

    /// Starts an interval at the instant `now`, whether or not one was
    /// running. The last completed time stays.
    pub fn start_at(&mut self, now: Instant)
        ensures
            final(self).started() == Some(now),
            final(self).last() == old(self).last(),
    {
        self.starttime = Some(now);
    }

    /// Ends the interval now and gives its time. At rest there is no interval:
    /// the time is zero.
    pub fn timer_off(&mut self) -> (r: u64)
        ensures
            !final(self).running(),
            final(self).last() == r,
            !old(self).running() ==> r == 0,
    {
        let passed = self.elapsed();
        self.stop_with(passed);
        passed
    }

    /// Nanoseconds since the start; zero at rest.
    pub fn elapsed(&self) -> (r: u64)
        ensures
            !self.running() ==> r == 0,
    {
        match &self.starttime {
            Some(v) => nanos_since(v),
            None => 0,
        }
    }

    /// Ends the interval with a measured time of `elapsed` nanoseconds.
    pub fn stop_with(&mut self, elapsed: u64)
        ensures
            !final(self).running(),
            final(self).last() == elapsed,
    {
        self.lasttime = elapsed;
        self.starttime = None;
    }

    /// The display for a reading of `elapsed` nanoseconds since the start:
    /// that reading in tenths while running, the last completed time in
    /// thousandths at rest.
    pub fn text_at(&self, elapsed: u64) -> (r: String)
        ensures
            r@ == display(self.running(), self.last(), elapsed),
            is_fixed_point(r@, if self.running() { 1nat } else { 3nat }),
    {
        if self.is_running() {
            format_seconds(elapsed, Precision::Tenths)
        } else {
            format_seconds(self.lasttime, Precision::Millis)
        }
    }

    /// The display as of now. At rest it is the last completed time in
    /// thousandths of a second; while running it is some reading of the
    /// clock in tenths.
    pub fn text(&self) -> (r: String)
        ensures
            !self.running() ==> r@ == seconds_text(self.last() as nat, Precision::Millis),
            self.running() ==> exists|elapsed: u64|
                r@ == #[trigger] seconds_text(elapsed as nat, Precision::Tenths),
            is_fixed_point(r@, if self.running() { 1nat } else { 3nat }),
    {
        let passed = self.elapsed();
        self.text_at(passed)
    }
}

} // verus!
