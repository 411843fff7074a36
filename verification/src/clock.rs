//! Heartbeat deadlines against a runtime's wakeup clock.
//!
//! The logical deadline is kept apart from the wakeup that was registered for
//! it. Times are counted in one unit from one start.

use vstd::prelude::*;

verus! {

/// The deadline that a wakeup was registered for.
#[derive(Debug, Clone, Copy, PartialEq, Eq, Structural)]
pub struct HeartbeatTimer {
    /// When the runtime was asked to wake the reader.
    pub registered: u64,
}

/// The timer while a deadline is waited for: the wakeup comes no later.
pub open spec fn waiting(timer: HeartbeatTimer, deadline: u64) -> HeartbeatTimer {
    if deadline < timer.registered {
        HeartbeatTimer { registered: deadline }
    } else {
        timer
    }
}

/// The timer after a wakeup: where the deadline is still to come, it has a new
/// wakeup.
pub open spec fn woken(timer: HeartbeatTimer, deadline: u64, now: u64) -> HeartbeatTimer {
    if deadline <= now {
        timer
    } else {
        HeartbeatTimer { registered: deadline }
    }
}

/// How long it is until a deadline.
pub open spec fn time_left(deadline: u64, now: u64) -> u64 {
    if deadline > now {
        (deadline - now) as u64
    } else {
        0
    }
}

impl HeartbeatTimer {
    /// A wakeup at the deadline is registered.
    pub fn new(deadline: u64) -> (r: Self)
        ensures
            r.registered == deadline,
    {
        HeartbeatTimer { registered: deadline }
    }

    /// Takes note of the deadline before the wakeup is polled. Tells whether a
    /// new wakeup must be registered: an earlier deadline needs one, a later one
    /// can wait for the old wakeup.
    pub fn before_wait(&mut self, deadline: u64) -> (r: bool)
        ensures
            r == (deadline < old(self).registered),
            *final(self) == waiting(*old(self), deadline),
            r <==> *final(self) != *old(self),
            r ==> final(self).registered == deadline,
    {
        if deadline < self.registered {
            self.registered = deadline;
            true
        } else {
            false
        }
    }

    /// Decides, after a wakeup, whether the deadline has passed. Where it has
    /// not, a wakeup must be registered for it.
    pub fn after_wakeup(&mut self, deadline: u64, now: u64) -> (r: bool)
        ensures
            r == (deadline <= now),
            *final(self) == woken(*old(self), deadline, now),
            r <==> time_left(deadline, now) == 0,
            !r ==> final(self).registered == deadline,
            r ==> *final(self) == *old(self),
    {
        if deadline <= now {
            return true;
        }
        self.registered = deadline;
        false
    }
}

/// How long to wait for a deadline.
pub fn remaining(deadline: u64, now: u64) -> (r: u64)
    ensures
        r == (if deadline > now {
            deadline - now
        } else {
            0
        }),
        r == time_left(deadline, now),
{
    deadline.saturating_sub(now)
}

/// No wakeup is registered behind the deadline that is waited for, neither
/// before the wait nor after a wakeup that came early.
pub proof fn law_wakeup_is_never_late(timer: HeartbeatTimer, deadline: u64, now: u64)
    ensures
        waiting(timer, deadline).registered <= deadline,
        woken(waiting(timer, deadline), deadline, now).registered <= deadline,
{
}

/// A wakeup is moved only to an earlier deadline, and after one that came early it is
/// set to the deadline: it is never earlier than needed, either.
pub proof fn law_wakeup_is_never_early(timer: HeartbeatTimer, deadline: u64, now: u64)
    ensures
        waiting(timer, deadline).registered == timer.registered || waiting(
            timer,
            deadline,
        ).registered == deadline,
        timer.registered <= deadline ==> waiting(timer, deadline) == timer,
        now < deadline ==> woken(timer, deadline, now).registered == deadline,
        deadline <= now ==> woken(timer, deadline, now) == timer,
{
}

/// After the time that is left, the deadline is there, and not before.
pub proof fn law_time_left_ends_at_the_deadline(deadline: u64, now: u64, wait: u64)
    ensures
        now <= deadline ==> now + time_left(deadline, now) == deadline,
        deadline <= now <==> time_left(deadline, now) == 0,
        wait < time_left(deadline, now) <==> now + wait < deadline,
{
}

} // verus!
