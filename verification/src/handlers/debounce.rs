//! Waiting until nothing has happened for a while. Times are in milliseconds.

use vstd::prelude::*;

verus! {

/// A time after another, as far as the clock reaches.
pub open spec fn later(now: u64, delay: u64) -> u64 {
    if now + delay > u64::MAX {
        u64::MAX
    } else {
        (now + delay) as u64
    }
}

/// The time is over.
pub open spec fn is_due(deadline: Option<u64>, now: u64) -> bool {
    deadline matches Some(at) && at <= now
}

pub fn deadline_after(now: u64, delay: u64) -> (r: u64)
    ensures
        r == later(now, delay),
{
    now.saturating_add(delay)
}

pub fn due(deadline: Option<u64>, now: u64) -> (r: bool)
    ensures
        r == is_due(deadline, now),
{
    match deadline {
        Some(at) => at <= now,
        None => false,
    }
}

/// Something that happens again puts the end of the wait off, and the wait does end.
pub proof fn law_waits_are_put_off_and_end(first: u64, again: u64, delay: u64)
    requires
        first < again,
        again + delay < u64::MAX,
        delay > 0,
    ensures
        later(first, delay) < later(again, delay),
        !is_due(Some(later(again, delay)), later(first, delay)),
        is_due(Some(later(again, delay)), later(again, delay)),
{
}

} // verus!
