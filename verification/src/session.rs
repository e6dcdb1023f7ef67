//! One timing session and the rules of its event loop: which key does what,
//! how long the loop may wait for the next key, and when a heartbeat is due.
//!
//! The loop itself draws and waits for keys outside this library. It asks
//! the session for the wait, hands it each key, and asks after each round
//! whether a heartbeat is due.

use crate::clock::nanos_since;
use crate::history::consistent;
use crate::history::record_for;
use crate::history::times_of;
use crate::history::History;
use crate::history::SolveRecord;
use crate::timer::CubeTimer;
use std::time::Instant;
use vstd::prelude::*;

verus! {

/// Heartbeat interval while the stopwatch runs, in nanoseconds: short, so
/// that the tenths on display keep moving.
pub const FAST_TICK: u64 = 100_000_000;

/// Heartbeat interval while the stopwatch rests, in nanoseconds.
pub const SLOW_TICK: u64 = 1_000_000_000;

/// A key as the loop reads it.
#[derive(Clone, Copy, Debug, PartialEq, Eq, Structural)]
pub enum Key {
    Char(char),
    Esc,
    Enter,
    Other,
}

/// A direction in which the selection moves.
#[derive(Clone, Copy, Debug, PartialEq, Eq, Structural)]
pub enum Dir {
    Left,
    Down,
    Up,
    Right,
}

/// What a key asks for.
#[derive(Clone, Copy, Debug, PartialEq, Eq, Structural)]
pub enum Action {
    /// Leave the loop.
    Quit,
    /// Start or stop the stopwatch.
    Toggle,
    /// Step out of the selected panel.
    Escape,
    /// Step into the selected panel.
    Enter,
    /// Move the selection.
    Move(Dir),
    /// Nothing.
    Ignore,
}

/// The action bound to each key: `q` quits, the space bar toggles the
/// stopwatch, `h` `j` `k` `l` move the selection left, down, up and right.
pub open spec fn action_for(key: Key) -> Action {
    match key {
        Key::Char(c) => if c == 'q' {
            Action::Quit
        } else if c == ' ' {
            Action::Toggle
        } else if c == 'h' {
            Action::Move(Dir::Left)
        } else if c == 'j' {
            Action::Move(Dir::Down)
        } else if c == 'k' {
            Action::Move(Dir::Up)
        } else if c == 'l' {
            Action::Move(Dir::Right)
        } else {
            Action::Ignore
        },
        Key::Esc => Action::Escape,
        Key::Enter => Action::Enter,
        Key::Other => Action::Ignore,
    }
}

/// How long the loop may wait for a key when `since_tick` nanoseconds have
/// passed since the last heartbeat: what is left of the tick, and no time at
/// all once it is over.
pub open spec fn timeout(tick_rate: u64, since_tick: u64) -> u64 {
    if since_tick >= tick_rate {
        0
    } else {
        (tick_rate - since_tick) as u64
    }
}

/// Whether a heartbeat is due `since_tick` nanoseconds after the last one.
pub open spec fn due(tick_rate: u64, since_tick: u64) -> bool {
    since_tick >= tick_rate
}

/// The action bound to `key`.
pub fn action_of(key: Key) -> (r: Action)
    ensures
        r == action_for(key),
{
    match key {
        Key::Char(c) => {
            if c == 'q' {
                Action::Quit
            } else if c == ' ' {
                Action::Toggle
            } else if c == 'h' {
                Action::Move(Dir::Left)
            } else if c == 'j' {
                Action::Move(Dir::Down)
            } else if c == 'k' {
                Action::Move(Dir::Up)
            } else if c == 'l' {
                Action::Move(Dir::Right)
            } else {
                Action::Ignore
            }
        },
        Key::Esc => Action::Escape,
        Key::Enter => Action::Enter,
        Key::Other => Action::Ignore,
    }
}

/// The wait for the next key, in nanoseconds: what is left of the tick, never
/// less than nothing.
pub fn timeout_after(tick_rate: u64, since_tick: u64) -> (r: u64)
    ensures
        r == timeout(tick_rate, since_tick),
        r <= tick_rate,
{
    if since_tick >= tick_rate {
        0
    } else {
        tick_rate - since_tick
    }
}

/// Whether a heartbeat is due.
pub fn tick_due(tick_rate: u64, since_tick: u64) -> (r: bool)
    ensures
        r == due(tick_rate, since_tick),
{
    since_tick >= tick_rate
}

/// The state of one session: the stopwatch, the solves made so far, and the
/// pace of the loop.
pub struct Session {
    timer: CubeTimer,
    times: History,
    tick_rate: u64,
    last_tick: Instant,
}

impl Session {
    /// The stopwatch.
    pub closed spec fn watch(&self) -> CubeTimer {
        self.timer
    }

    /// The solves made so far, oldest first.
    pub closed spec fn solves(&self) -> Seq<SolveRecord> {
        self.times@
    }

    /// The heartbeat interval in force, in nanoseconds.
    pub closed spec fn pace(&self) -> u64 {
        self.tick_rate
    }

    /// The instant from which the current tick is counted.
    pub closed spec fn last_beat(&self) -> Instant {
        self.last_tick
    }

    /// Every solve carries the averages that were due when it was made, and
    /// the loop runs at the fast pace whenever the stopwatch runs.
    pub open spec fn wf(&self) -> bool {
        &&& consistent(self.solves())
        &&& self.watch().running() ==> self.pace() == FAST_TICK
    }

    /// A new session: the stopwatch at rest, no solves, a heartbeat every
    /// `tick_rate` nanoseconds, the first one counted from now.
    pub fn new(tick_rate: u64) -> (r: Self)
        ensures
            r.wf(),
            !r.watch().running(),
            r.watch().last() == 0,
            r.solves() == Seq::<SolveRecord>::empty(),
            r.pace() == tick_rate,
    {
        Session {
            timer: CubeTimer::default(),
            times: History::new(),
            tick_rate,
            last_tick: Instant::now(),
        }
    }

    /// The stopwatch.
    pub fn timer(&self) -> (r: &CubeTimer)
        ensures
            *r == self.watch(),
    {
        &self.timer
    }

    /// The solves made so far.
    pub fn history(&self) -> (r: &History)
        ensures
            r@ == self.solves(),
    {
        &self.times
    }

    /// The heartbeat interval in force, in nanoseconds.
    pub fn tick_rate(&self) -> (r: u64)
        ensures
            r == self.pace(),
    {
        self.tick_rate
    }

    /// Ends the running solve with a measured time of `elapsed` nanoseconds:
    /// the stopwatch rests with that time, the solve's record joins the
    /// history with the averages due to it, and the loop slows down.
    pub fn complete_solve(&mut self, elapsed: u64) -> (r: SolveRecord)
        requires
            old(self).wf(),
        ensures
            final(self).wf(),
            r == record_for(times_of(old(self).solves()), elapsed),
            final(self).solves() == old(self).solves().push(r),
            !final(self).watch().running(),
            final(self).watch().last() == elapsed,
            final(self).pace() == SLOW_TICK,
            final(self).last_beat() == old(self).last_beat(),
    {
        self.timer.stop_with(elapsed);
        let mut record = SolveRecord::new(elapsed);
        record.gen_stats(&self.times);
        self.times.append(record);
        self.tick_rate = SLOW_TICK;
        record
    }

    /// The toggle key. At rest it starts the stopwatch and the loop speeds
    /// up; nothing is recorded. While running it stops the stopwatch: the
    /// time measured becomes the last time, its record joins the history and
    /// is returned, and the loop slows down.
    pub fn toggle(&mut self) -> (r: Option<SolveRecord>)
        requires
            old(self).wf(),
        ensures
            final(self).wf(),
            final(self).watch().running() == !old(self).watch().running(),
            final(self).last_beat() == old(self).last_beat(),
            !old(self).watch().running() ==> {
                &&& r is None
                &&& final(self).solves() == old(self).solves()
                &&& final(self).watch().last() == old(self).watch().last()
                &&& final(self).pace() == FAST_TICK
            },
            old(self).watch().running() ==> {
                &&& r is Some
                &&& r->0 == record_for(times_of(old(self).solves()), r->0.time)
                &&& final(self).solves() == old(self).solves().push(r->0)
                &&& final(self).watch().last() == r->0.time
                &&& final(self).pace() == SLOW_TICK
            },
    {
        if self.timer.is_running() {
            let passed = self.timer.elapsed();
            Some(self.complete_solve(passed))
        } else {
            self.timer.space_press();
            self.tick_rate = FAST_TICK;
            None
        }
    }

    /// Handles one key and says what it asked for. The toggle key is acted
    /// on here; every other key leaves the session as it is, and its action
    /// is for the caller.
    pub fn on_key(&mut self, key: Key) -> (r: Action)
        requires
            old(self).wf(),
        ensures
            final(self).wf(),
            r == action_for(key),
            final(self).last_beat() == old(self).last_beat(),
            r != Action::Toggle ==> {
                &&& final(self).watch() == old(self).watch()
                &&& final(self).solves() == old(self).solves()
                &&& final(self).pace() == old(self).pace()
            },
            r == Action::Toggle ==> final(self).watch().running() == !old(self).watch().running(),
            r == Action::Toggle && !old(self).watch().running() ==> {
                &&& final(self).solves() == old(self).solves()
                &&& final(self).watch().last() == old(self).watch().last()
                &&& final(self).pace() == FAST_TICK
            },
            r == Action::Toggle && old(self).watch().running() ==> {
                &&& final(self).solves() == old(self).solves().push(
                    record_for(
                        times_of(old(self).solves()),
                        final(self).watch().last(),
                    ),
                )
                &&& final(self).pace() == SLOW_TICK
            },
    {
        let action = action_of(key);
        match action {
            Action::Toggle => {
                self.toggle();
            },
            _ => {},
        }
        action
    }

    /// The longest that the loop may wait for the next key, in nanoseconds:
    /// what is left of the current tick. While the stopwatch runs this is
    /// never more than the fast tick.
    pub fn poll_timeout(&self) -> (r: u64)
        requires
            self.wf(),
        ensures
            r <= self.pace(),
            self.watch().running() ==> r <= FAST_TICK,
    {
        timeout_after(self.tick_rate, nanos_since(&self.last_tick))
    }

    /// The heartbeat step for a reading of `since_tick` nanoseconds since the
    /// last heartbeat, taken at the instant `now`. A heartbeat is due once
    /// the tick is over; the next tick is then counted from `now`. Before
    /// that the current tick goes on counting from where it began.
    /// Stopwatch, history and pace stay as they are.
    pub fn beat_at(&mut self, since_tick: u64, now: Instant) -> (r: bool)
        ensures
            r == due(old(self).pace(), since_tick),
            final(self).last_beat() == (if r {
                now
            } else {
                old(self).last_beat()
            }),
            final(self).watch() == old(self).watch(),
            final(self).solves() == old(self).solves(),
            final(self).pace() == old(self).pace(),
            final(self).wf() == old(self).wf(),
    {
        let beat = tick_due(self.tick_rate, since_tick);
        if beat {
            self.last_tick = now;
        }
        beat
    }

    /// Whether a heartbeat is due now: the decision of `due` for the time
    /// that the clock gives since the last heartbeat, so a tick of no length
    /// is always due. If one is due, the next tick is counted from now; if
    /// none is, the current tick goes on counting from where it began.
    /// Stopwatch, history and pace stay as they are.
    pub fn tick(&mut self) -> (r: bool)
        ensures
            exists|since_tick: u64| r == #[trigger] due(old(self).pace(), since_tick),
            !r ==> final(self).last_beat() == old(self).last_beat(),
            final(self).watch() == old(self).watch(),
            final(self).solves() == old(self).solves(),
            final(self).pace() == old(self).pace(),
            final(self).wf() == old(self).wf(),
    {
        let since_tick = nanos_since(&self.last_tick);
        let beat = self.beat_at(since_tick, Instant::now());
        assert(beat == due(old(self).pace(), since_tick));
        beat
    }
}

} // verus!
