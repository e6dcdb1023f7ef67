//! A speedcubing stopwatch: timing state machine, solve history and
//! trimmed-mean statistics, with the scheduling rules of its event loop.

pub mod clock;
pub mod format;
pub mod history;
pub mod session;
pub mod stats;
pub mod timer;
