//! The 24-hour clock as a cyclic domain of 1440 minutes, and the one-minute
//! stepping function that the circular fallback search walks.

use vstd::prelude::*;

verus! {

/// Direction in which the fallback search steps the clock.
#[derive(Debug, Clone, Copy, PartialEq, Eq, Structural)]
pub enum Direction {
    Forward,
    Backward,
}

/// Whether `(hour, minute)` is a valid 24-hour clock time.
pub open spec fn valid_time(hour: u8, minute: u8) -> bool {
    hour < 24 && minute < 60
}

/// A clock time as a single minute-of-day position in `[0, 1440)`.
pub open spec fn minute_of_day(hour: u8, minute: u8) -> int {
    hour * 60 + minute
}

/// One step on the cyclic clock, wrapping at the day boundaries.
pub open spec fn step_one(t: int, dir: Direction) -> int {
    match dir {
        Direction::Forward => if t == 1439 { 0 } else { t + 1 },
        Direction::Backward => if t == 0 { 1439 } else { t - 1 },
    }
}

/// `n` steps on the cyclic clock.
pub open spec fn step_n(t: int, dir: Direction, n: nat) -> int
    decreases n,
{
    if n == 0 {
        t
    } else {
        step_one(step_n(t, dir, (n - 1) as nat), dir)
    }
}

/// Steps the clock by exactly one minute in the requested direction,
/// wrapping at the day boundaries: backward from 00:00 gives 23:59,
/// forward from 23:59 gives 00:00.
pub fn next_time(hh: u8, mm: u8, dir: Direction) -> (r: (u8, u8))
    requires
        valid_time(hh, mm),
    ensures
        valid_time(r.0, r.1),
        minute_of_day(r.0, r.1) == step_one(minute_of_day(hh, mm), dir),
{
    match (dir, hh, mm) {
        (Direction::Backward, 0, 0) => (23, 59),
        (Direction::Backward, _, 0) => (hh - 1, 59),
        (Direction::Backward, _, _) => (hh, mm - 1),
        (Direction::Forward, 23, 59) => (0, 0),
        (Direction::Forward, _, 59) => (hh + 1, 0),
        (Direction::Forward, _, _) => (hh, mm + 1),
    }
}

/// After at most 1440 steps the walk has gone once around the clock:
/// `step_n` has the obvious closed form as long as `n` stays within one lap.
pub proof fn lemma_step_n_closed(t0: int, dir: Direction, n: nat)
    requires
        0 <= t0 < 1440,
        n <= 1440,
    ensures
        step_n(t0, dir, n) == match dir {
            Direction::Forward => if t0 + n < 1440 {
                t0 + n
            } else {
                t0 + n - 1440
            },
            Direction::Backward => if t0 - n >= 0 {
                t0 - n
            } else {
                t0 - n + 1440
            },
        },
    decreases n,
{
    if n > 0 {
        lemma_step_n_closed(t0, dir, (n - 1) as nat);
    }
}

/// Walking the cyclic clock from any position visits every position within
/// one lap: each target is reached after fewer than 1440 steps.
pub proof fn lemma_step_reaches(t0: int, dir: Direction, target: int)
    requires
        0 <= t0 < 1440,
        0 <= target < 1440,
    ensures
        exists|n: nat| n < 1440 && step_n(t0, dir, n) == target,
{
    let n: nat = match dir {
        Direction::Forward => if target >= t0 {
            (target - t0) as nat
        } else {
            (target - t0 + 1440) as nat
        },
        Direction::Backward => if t0 >= target {
            (t0 - target) as nat
        } else {
            (t0 - target + 1440) as nat
        },
    };
    lemma_step_n_closed(t0, dir, n);
    assert(n < 1440 && step_n(t0, dir, n) == target);
}

} // verus!
