//! Waiting for a process for a bounded time, in sleeps of equal length.

use super::process::{Poll, ProcessState};
use vstd::prelude::*;

verus! {

/// A wait of `duration` milliseconds, taken in sleeps of `sleep`
/// milliseconds each.
#[derive(Clone, Copy, Debug)]
pub struct TimeoutLoop {
    pub duration: u64,
    pub sleep: u64,
}

/// `duration` divided by `n`, rounded up.
pub open spec fn ceil_div(duration: u64, n: u64) -> int {
    if duration % n == 0 {
        duration as int / n as int
    } else {
        duration as int / n as int + 1
    }
}

/// The number of sleeps of `sleep` milliseconds that it takes to wait at
/// least `duration` milliseconds.
pub open spec fn sleeps_needed(duration: u64, sleep: u64) -> int {
    ceil_div(duration, sleep)
}

/// What to do at one tick of a bounded wait.
#[derive(Clone, Copy, Debug, PartialEq, Eq, Structural)]
pub enum WaitAction {
    /// Kill the process and stop waiting.
    Kill,
    /// The process is over: stop waiting.
    Stop,
    /// Sleep, and look again.
    Sleep,
}

impl TimeoutLoop {
    /// A wait of `duration` milliseconds that sleeps at most `n` times: the
    /// length of a sleep is `duration / n`, rounded up.
    pub fn from_sleep_times(duration: u64, n: u64) -> (r: Self)
        requires
            n > 0,
        ensures
            r.duration == duration,
            r.sleep == ceil_div(duration, n),
    {
        let mut sleep: u64 = duration / n;
        if duration % n != 0 {
            assert(duration / n < u64::MAX) by (nonlinear_arith)
                requires
                    n > 0,
                    duration % n != 0,
                    duration <= u64::MAX,
            ;
            sleep += 1;
        }
        Self { duration, sleep }
    }

    /// A wait without an end, in sleeps of one second.
    pub fn unbounded() -> (r: Self)
        ensures
            r.duration == u64::MAX,
            r.sleep == 1000,
    {
        Self { duration: u64::MAX, sleep: 1000 }
    }

    /// The time waited after one more sleep, where `current` milliseconds
    /// have been waited so far; `None` where the wait is over. The time is
    /// held at `u64::MAX`.
    pub fn next(&self, current: u64) -> (r: Option<u64>)
        ensures
            current >= self.duration ==> r is None,
            current < self.duration ==> r == Some(
                if current + self.sleep <= u64::MAX {
                    (current + self.sleep) as u64
                } else {
                    u64::MAX
                },
            ),
    {
        if current < self.duration {
            match current.checked_add(self.sleep) {
                Some(next) => Some(next),
                None => Some(u64::MAX),
            }
        } else {
            None
        }
    }

    /// What to do after `current` milliseconds of waiting for a process in
    /// the state `state`, given whether the run has been cancelled and what
    /// polling the process found. A wait that is over, or a run that has
    /// been cancelled, has the process killed; otherwise the poll is taken
    /// note of, and a process that still runs is slept on. The state of a
    /// process that is over is never changed.
    pub fn tick(&self, current: u64, cancelled: bool, state: &mut ProcessState, poll: Poll) -> (r:
        WaitAction)
        ensures
            current >= self.duration || cancelled ==> r == WaitAction::Kill && *final(state)
                == *old(state),
            current < self.duration && !cancelled ==> {
                &&& r == if poll is Pending {
                    WaitAction::Sleep
                } else {
                    WaitAction::Stop
                }
                &&& match poll {
                    Poll::Pending => *final(state) == *old(state),
                    Poll::Exited { success, code } => *old(state) is Running ==> *final(state)
                        == if success {
                        ProcessState::Finished
                    } else {
                        ProcessState::Failed(code)
                    },
                    Poll::Failed(e) => *old(state) is Running ==> *final(state)
                        == ProcessState::Error(e),
                }
            },
            !(*old(state) is Running) ==> *final(state) == *old(state),
    {
        if current >= self.duration || cancelled {
            return WaitAction::Kill;
        }
        if state.after_poll(poll) {
            WaitAction::Stop
        } else {
            WaitAction::Sleep
        }
    }
}

/// A wait that sleeps at most `n` times is long enough: its sleeps add up
/// to the duration or more, and so do the sleeps it needs, of which there
/// are at most `n`. It is over less than one sleep after the duration has
/// passed.
pub proof fn lemma_sleep_times(duration: u64, n: u64)
    requires
        n > 0,
        duration > 0,
    ensures
        ceil_div(duration, n) > 0,
        ceil_div(duration, n) * n >= duration,
        (ceil_div(duration, n) - 1) * n < duration,
        sleeps_needed(duration, ceil_div(duration, n) as u64) <= n,
        sleeps_needed(duration, ceil_div(duration, n) as u64) * ceil_div(duration, n) >= duration,
        sleeps_needed(duration, ceil_div(duration, n) as u64) * ceil_div(duration, n) < duration
            + ceil_div(duration, n),
{
    let d = duration as int;
    let m = n as int;
    let s = ceil_div(duration, n);
    assert(d == m * (d / m) + d % m && 0 <= d % m < m) by (nonlinear_arith)
        requires
            m > 0,
            d > 0,
    ;
    assert(s > 0 && s * m >= d && (s - 1) * m < d) by (nonlinear_arith)
        requires
            d == m * (d / m) + d % m,
            0 <= d % m < m,
            m > 0,
            d > 0,
            s == if d % m == 0 {
                d / m
            } else {
                d / m + 1
            },
    ;
    assert(s <= d) by (nonlinear_arith)
        requires
            (s - 1) * m < d,
            m >= 1,
            s > 0,
    ;
    let k = sleeps_needed(duration, s as u64);
    assert(d == s * (d / s) + d % s && 0 <= d % s < s) by (nonlinear_arith)
        requires
            s > 0,
            d > 0,
    ;
    assert(k * s >= d && k * s < d + s) by (nonlinear_arith)
        requires
            d == s * (d / s) + d % s,
            0 <= d % s < s,
            s > 0,
            k == if d % s == 0 {
                d / s
            } else {
                d / s + 1
            },
    ;
    assert(k <= m) by (nonlinear_arith)
        requires
            k * s < d + s,
            s * m >= d,
            s > 0,
            k >= 0,
            m > 0,
    ;
}

} // verus!
