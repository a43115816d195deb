//! The decisions of the process supervisor: when a process may start, how
//! long to wait for the running ones, and which of them to forget.

use vstd::prelude::*;

verus! {

/// The milliseconds between two looks at the running processes.
pub const SLEEP_TIME: u64 = 100;

/// What to do at one tick of a wait for the running processes.
#[derive(Clone, Copy, Debug, PartialEq, Eq, Structural)]
pub enum WaitStep {
    /// Few enough processes run.
    Done,
    /// The run has been cancelled: kill every process.
    KillAll,
    /// The time is up and too many processes still run: kill every process
    /// that is left. Each of them is then killed, not failed.
    TimedOut,
    /// Poll every process, forget those that are over, sleep, and look
    /// again.
    Poll,
}

/// The number of running processes at which a wait that aims at
/// `remaining` goes on: a wait never aims below one.
pub open spec fn wait_floor(remaining: usize) -> usize {
    if remaining > 1 {
        remaining
    } else {
        1
    }
}

/// What the supervisor knows besides the processes themselves.
#[derive(Clone, Copy, Debug)]
pub struct Supervisor {
    /// The most processes that may run at a time, if there is a limit.
    pub spawn_limit: Option<usize>,
}

impl Supervisor {
    /// A supervisor without a limit.
    pub fn new() -> (r: Self)
        ensures
            r.spawn_limit is None,
    {
        Self { spawn_limit: None }
    }

    /// Lets at most `limit` processes run at a time from now on.
    pub fn limit_spawn(&mut self, limit: usize)
        ensures
            final(self).spawn_limit == Some(limit),
    {
        self.spawn_limit = Some(limit);
    }

    /// Forgets the limit.
    pub fn reset(&mut self)
        ensures
            final(self).spawn_limit is None,
    {
        self.spawn_limit = None;
    }

    /// Whether a process may start while `running` processes run. Where it
    /// may not, the number is returned that a wait has to aim at before it
    /// may.
    pub fn admission(&self, running: usize) -> (r: Option<usize>)
        ensures
            r == match self.spawn_limit {
                Some(limit) => if running >= limit {
                    Some(limit)
                } else {
                    None
                },
                None => None,
            },
    {
        match self.spawn_limit {
            Some(limit) => if running >= limit {
                Some(limit)
            } else {
                None
            },
            None => None,
        }
    }
}

/// What to do at one tick of a wait for the running processes: the wait is
/// over where fewer than `remaining` processes run, and at least one always
/// may. Otherwise a run that has been cancelled has every process killed,
/// and so has a wait whose `wait` milliseconds have passed; a wait without
/// `wait` has no such end. Until then the processes are polled.
pub open spec fn wait_decision(
    running: usize,
    remaining: usize,
    elapsed: u64,
    wait: Option<u64>,
    cancelled: bool,
) -> WaitStep {
    if running < wait_floor(remaining) {
        WaitStep::Done
    } else if cancelled {
        WaitStep::KillAll
    } else if wait matches Some(limit) && elapsed >= limit {
        WaitStep::TimedOut
    } else {
        WaitStep::Poll
    }
}

/// What to do at one tick of a wait for the running processes.
pub fn wait_step(running: usize, remaining: usize, elapsed: u64, wait: Option<u64>, cancelled: bool) -> (r:
    WaitStep)
    ensures
        r == wait_decision(running, remaining, elapsed, wait, cancelled),
{
    let floor: usize = if remaining > 1 {
        remaining
    } else {
        1
    };
    let late: bool = match wait {
        Some(limit) => elapsed >= limit,
        None => false,
    };
    if running < floor {
        WaitStep::Done
    } else if cancelled {
        WaitStep::KillAll
    } else if late {
        WaitStep::TimedOut
    } else {
        WaitStep::Poll
    }
}

/// A wait is over only when few enough processes run: a wait whose time is
/// up while too many still run is never simply done, it has them killed.
pub proof fn lemma_timeout_kills(
    running: usize,
    remaining: usize,
    elapsed: u64,
    limit: u64,
    cancelled: bool,
)
    requires
        running >= wait_floor(remaining),
        elapsed >= limit,
    ensures
        wait_decision(running, remaining, elapsed, Some(limit), cancelled) == if cancelled {
            WaitStep::KillAll
        } else {
            WaitStep::TimedOut
        },
        wait_decision(running, remaining, elapsed, Some(limit), cancelled) != WaitStep::Done,
{
}

/// Whether a sleep of `duration` milliseconds goes on after `elapsed` of
/// them: it does until the time is up or the run is cancelled.
pub fn sleep_step(elapsed: u64, duration: u64, cancelled: bool) -> (r: bool)
    ensures
        r == (elapsed < duration && !cancelled),
{
    elapsed < duration && !cancelled
}

/// After a wait that had no end in time and was not cancelled, one more
/// process may start without passing the limit.
pub proof fn lemma_admission_keeps_limit(limit: usize, running: usize, elapsed: u64)
    requires
        wait_decision(running, limit, elapsed, None, false) == WaitStep::Done,
    ensures
        running + 1 <= wait_floor(limit),
        limit >= 1 ==> running + 1 <= limit,
{
}

/// Forgets the items that are done: `done` says of each item, by its
/// position, whether it is. Those that are left may stand in another order.
#[verifier::rlimit(40)]
pub fn remove_done<T>(items: &mut Vec<T>, done: &Vec<bool>)
    requires
        done@.len() == old(items)@.len(),
    ensures
        forall|i: int|
            0 <= i < old(items)@.len() && !done@[i] ==> final(items)@.contains(
                #[trigger] old(items)@[i],
            ),
        forall|j: int|
            0 <= j < final(items)@.len() ==> exists|i: int|
                0 <= i < old(items)@.len() && !done@[i] && old(items)@[i]
                    == #[trigger] final(items)@[j],
        final(items)@.len() == kept(done@),
{
    let mut flags: Vec<bool> = Vec::new();
    let mut k: usize = 0;
    while k < done.len()
        invariant
            k <= done@.len(),
            flags@ == done@.take(k as int),
        decreases done.len() - k,
    {
        flags.push(done[k]);
        assert(flags@ =~= done@.take(k + 1));
        k += 1;
    }
    assert(flags@ =~= done@);
    let ghost mut origin: Seq<int> = Seq::new(items@.len(), |j: int| j);
    proof {
        assert forall|a: int| 0 <= a < old(items)@.len() && !done@[a] implies exists|b: int|
            0 <= b < origin.len() && #[trigger] origin[b] == a by {
            assert(origin[a] == a);
        }
    }
    let mut i: usize = 0;
    while i < items.len()
        invariant
            flags@.len() == items@.len(),
            origin.len() == items@.len(),
            i <= items@.len(),
            forall|j: int| 0 <= j < i ==> !flags@[j],
            forall|b: int|
                0 <= b < origin.len() ==> 0 <= #[trigger] origin[b] < old(items)@.len()
                    && items@[b] == old(items)@[origin[b]] && flags@[b] == done@[origin[b]],
            forall|a: int|
                0 <= a < old(items)@.len() && !done@[a] ==> exists|b: int|
                    0 <= b < origin.len() && #[trigger] origin[b] == a,
            kept(flags@) == kept(done@),
        decreases items@.len() - i,
    {
        if flags[i] {
            let ghost before_origin = origin;
            let ghost before_flags = flags@;
            items.swap_remove(i);
            flags.swap_remove(i);
            proof {
                origin = before_origin.update(i as int, before_origin.last()).drop_last();
                lemma_kept_swap_remove(before_flags, i as int);
                assert forall|a: int| 0 <= a < old(items)@.len() && !done@[a] implies exists|b: int|
                    0 <= b < origin.len() && #[trigger] origin[b] == a by {
                    let b0 = choose|b: int| 0 <= b < before_origin.len() && before_origin[b] == a;
                    if b0 == before_origin.len() - 1 {
                        assert(origin[i as int] == a);
                    } else {
                        assert(origin[b0] == a);
                    }
                }
            }
        } else {
            i += 1;
        }
    }
    proof {
        lemma_kept_none_done(flags@);
        assert forall|a: int| 0 <= a < old(items)@.len() && !done@[a] implies items@.contains(
            #[trigger] old(items)@[a],
        ) by {
            let b = choose|b: int| 0 <= b < origin.len() && origin[b] == a;
            assert(items@[b] == old(items)@[a]);
        }
        assert forall|j: int| 0 <= j < items@.len() implies exists|i: int|
            0 <= i < old(items)@.len() && !done@[i] && old(items)@[i] == #[trigger] items@[j] by {
            let a = origin[j];
            assert(!flags@[j]);
            assert(old(items)@[a] == items@[j]);
        }
    }
}

/// The number of items that are not done.
pub open spec fn kept(done: Seq<bool>) -> nat
    decreases done.len(),
{
    if done.len() == 0 {
        0
    } else {
        kept(done.drop_last()) + if done.last() {
            0nat
        } else {
            1nat
        }
    }
}

/// Where nothing is done everything is kept.
pub proof fn lemma_kept_none_done(done: Seq<bool>)
    requires
        forall|j: int| 0 <= j < done.len() ==> !done[j],
    ensures
        kept(done) == done.len(),
    decreases done.len(),
{
    if done.len() > 0 {
        lemma_kept_none_done(done.drop_last());
    }
}

/// Changing one flag from done to not done, or back, changes the count by
/// one.
pub proof fn lemma_kept_update(done: Seq<bool>, i: int, flag: bool)
    requires
        0 <= i < done.len(),
    ensures
        kept(done.update(i, flag)) + (if done[i] {
            0nat
        } else {
            1nat
        }) == kept(done) + (if flag {
            0nat
        } else {
            1nat
        }),
    decreases done.len(),
{
    if i == done.len() - 1 {
        assert(done.update(i, flag).drop_last() =~= done.drop_last());
    } else {
        assert(done.update(i, flag).drop_last() =~= done.drop_last().update(i, flag));
        lemma_kept_update(done.drop_last(), i, flag);
    }
}

/// Taking out an item that is done, the last item going to its place,
/// leaves the count as it was.
pub proof fn lemma_kept_swap_remove(done: Seq<bool>, i: int)
    requires
        0 <= i < done.len(),
        done[i],
    ensures
        kept(done.update(i, done.last()).drop_last()) == kept(done),
{
    lemma_kept_update(done, i, done.last());
    let moved = done.update(i, done.last());
    if i == done.len() - 1 {
        assert(moved =~= done);
    } else {
        assert(moved.last() == done.last());
    }
}

} // verus!
