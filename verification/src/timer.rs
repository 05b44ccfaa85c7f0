//! Countdown timers measured in whole nanoseconds.

use vstd::prelude::*;

verus! {

/// Whether a timer stops at its duration or starts over.
#[derive(Clone, Copy, Debug, PartialEq, Eq, Structural)]
pub enum TimerMode {
    Once,
    Repeating,
}

/// A timer that is advanced by the elapsed time of each tick: the state of a
/// `Timer` of `bevy::time` as plain values, in whole nanoseconds.
///
/// A one-shot timer stays finished once it has reached its duration, until it
/// is reset. A repeating timer reports `finished` only for the tick in which
/// it reached its duration, and keeps the remainder.
#[derive(Clone, Copy, Debug, PartialEq, Eq, Structural)]
pub struct Timer {
    pub duration: u64,
    pub elapsed: u64,
    pub mode: TimerMode,
    pub finished: bool,
    pub times_finished_this_tick: u32,
}

/// What a tick of `delta` nanoseconds makes of a running timer: the time
/// elapsed, whether the timer has finished, and how often it finished in
/// this tick. Short of its duration the timer runs on. A one-shot timer
/// that reaches its duration stops there. A repeating timer that reaches it
/// keeps the remainder, and counts the rounds in thirty-two bits.
pub open spec fn spec_running_tick(duration: u64, elapsed: u64, mode: TimerMode, delta: u64) -> (
    u64,
    bool,
    u32,
) {
    let total = elapsed + delta;
    if total < duration {
        (total as u64, false, 0u32)
    } else if mode == TimerMode::Once {
        (duration, true, 1u32)
    } else if duration == 0 {
        (0u64, true, u32::MAX)
    } else {
        (
            (total % (duration as int)) as u64,
            true,
            ((total / (duration as int)) % 0x1_0000_0000) as u32,
        )
    }
}

/// `Timer::tick` of `bevy::time`, on a timer that is built for the call out
/// of its duration, its mode and the time elapsed on it, and read back
/// afterwards. Trusted: the timer comes back as `spec_running_tick` says,
/// which is what the tick does to a timer that is neither paused nor a
/// one-shot timer that has finished.
#[verifier::external_body]
fn running_tick(duration: u64, elapsed: u64, mode: TimerMode, delta: u64) -> (after: (u64, bool, u32))
    ensures
        after == spec_running_tick(duration, elapsed, mode, delta),
{
    let mode = match mode {
        TimerMode::Once => bevy::time::TimerMode::Once,
        TimerMode::Repeating => bevy::time::TimerMode::Repeating,
    };
    let mut timer = bevy::time::Timer::new(std::time::Duration::from_nanos(duration), mode);
    timer.set_elapsed(std::time::Duration::from_nanos(elapsed));
    timer.tick(std::time::Duration::from_nanos(delta));
    (timer.elapsed().as_nanos() as u64, timer.finished(), timer.times_finished_this_tick())
}

impl Timer {
    /// The timer after `delta` nanoseconds have passed. A one-shot timer
    /// that has finished stays as it is, and did not finish in this tick.
    pub open spec fn spec_tick(self, delta: u64) -> Timer {
        if self.mode == TimerMode::Once && self.finished {
            Timer { times_finished_this_tick: 0, ..self }
        } else {
            let after = spec_running_tick(self.duration, self.elapsed, self.mode, delta);
            Timer {
                elapsed: after.0,
                finished: after.1,
                times_finished_this_tick: after.2,
                ..self
            }
        }
    }

    /// The timer with its elapsed time cleared.
    pub open spec fn spec_reset(self) -> Timer {
        Timer { elapsed: 0, finished: false, times_finished_this_tick: 0, ..self }
    }

    /// A fresh timer of `duration` nanoseconds.
    pub fn new(duration: u64, mode: TimerMode) -> (timer: Timer)
        ensures
            timer == (Timer {
                duration,
                elapsed: 0,
                mode,
                finished: false,
                times_finished_this_tick: 0,
            }),
    {
        Timer { duration, elapsed: 0, mode, finished: false, times_finished_this_tick: 0 }
    }

    /// Advances the timer by `delta` nanoseconds.
    pub fn tick(&mut self, delta: u64)
        ensures
            *final(self) == old(self).spec_tick(delta),
    {
        if self.mode == TimerMode::Once && self.finished {
            self.times_finished_this_tick = 0;
            return ;
        }
        let after = running_tick(self.duration, self.elapsed, self.mode, delta);
        self.elapsed = after.0;
        self.finished = after.1;
        self.times_finished_this_tick = after.2;
    }

    /// Whether the timer has reached its duration.
    pub fn finished(&self) -> (done: bool)
        ensures
            done == self.finished,
    {
        self.finished
    }

    /// Whether the timer reached its duration during the last tick.
    pub fn just_finished(&self) -> (done: bool)
        ensures
            done == (self.times_finished_this_tick > 0),
    {
        self.times_finished_this_tick > 0
    }

    /// Clears the elapsed time and the finished flags.
    pub fn reset(&mut self)
        ensures
            *final(self) == old(self).spec_reset(),
    {
        self.elapsed = 0;
        self.finished = false;
        self.times_finished_this_tick = 0;
    }
}

} // verus!
