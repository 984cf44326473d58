//! The arithmetic of due dates: when a paid bill comes back, and where a
//! schedule lands after the clock has run past it.

use vstd::prelude::*;

verus! {

/// Seconds in one day.
pub const SECONDS_PER_DAY: u64 = 86400;

/// Days from one premium to the next.
pub const PREMIUM_PERIOD_DAYS: u32 = 30;

/// The time `days` whole days after `from`.
pub open spec fn days_after(from: u64, days: u32) -> int {
    from + days * 86400
}

/// The time `days` whole days after `from`, or `None` where that time
/// does not fit in 64 bits.
pub fn add_days(from: u64, days: u32) -> (r: Option<u64>)
    ensures
        r == (if days_after(from, days) <= u64::MAX {
            Some(days_after(from, days) as u64)
        } else {
            None
        }),
{
    let span: u64 = (days as u64) * SECONDS_PER_DAY;
    from.checked_add(span)
}

/// How many further whole intervals have gone by at `now`, counted from
/// the occurrence that fell due at `next_due`.
pub open spec fn missed_intervals(next_due: u64, interval: u64, now: u64) -> int {
    (now - next_due) / (interval as int)
}

/// The occurrence that follows `now`: `next_due` moved on by the interval
/// once for the occurrence just served and once more for each one missed.
pub open spec fn next_after(next_due: u64, interval: u64, now: u64) -> int {
    next_due + (missed_intervals(next_due, interval, now) + 1) * interval
}

/// Whether the outcome of catching up fits the fields that hold it.
pub open spec fn catch_up_fits(next_due: u64, interval: u64, now: u64) -> bool {
    &&& missed_intervals(next_due, interval, now) <= u32::MAX
    &&& next_after(next_due, interval, now) <= u64::MAX
}

/// Where a recurring schedule stands after it has been served at `now`.
#[derive(Clone, Copy, Debug, PartialEq, Eq, Structural)]
pub struct CatchUp {
    /// The first occurrence later than `now`.
    pub next_due: u64,
    /// The occurrences between the one served and `next_due`.
    pub missed: u32,
}

/// Catches a recurring schedule up with the clock.
///
/// Returns `None` exactly where the count of missed occurrences or the new
/// due time would not fit.
pub fn catch_up(next_due: u64, interval: u64, now: u64) -> (r: Option<CatchUp>)
    requires
        interval > 0,
        next_due <= now,
    ensures
        r == (if catch_up_fits(next_due, interval, now) {
            Some(
                CatchUp {
                    next_due: next_after(next_due, interval, now) as u64,
                    missed: missed_intervals(next_due, interval, now) as u32,
                },
            )
        } else {
            None
        }),
{
    let gap: u64 = now - next_due;
    let missed: u64 = gap / interval;
    proof {
        lemma_whole_intervals(gap as int, interval as int);
    }
    if missed > u32::MAX as u64 {
        return None;
    }
    let covered: u64 = missed * interval;
    let last_missed: u64 = next_due + covered;
    assert(last_missed + interval == next_after(next_due, interval, now)) by (nonlinear_arith)
        requires
            last_missed == next_due + missed * interval,
            missed == missed_intervals(next_due, interval, now),
    ;
    match last_missed.checked_add(interval) {
        Some(next) => Some(CatchUp { next_due: next, missed: missed as u32 }),
        None => None,
    }
}

/// Whole intervals never cover more than the gap, and one more always does.
pub proof fn lemma_whole_intervals(gap: int, interval: int)
    requires
        gap >= 0,
        interval > 0,
    ensures
        0 <= gap / interval,
        (gap / interval) * interval <= gap,
        gap < (gap / interval + 1) * interval,
{
    vstd::arithmetic::div_mod::lemma_fundamental_div_mod(gap, interval);
    vstd::arithmetic::div_mod::lemma_mod_bound(gap, interval);
    vstd::arithmetic::div_mod::lemma_div_pos_is_pos(gap, interval);
    assert((gap / interval) * interval == interval * (gap / interval)) by (nonlinear_arith);
    assert((gap / interval + 1) * interval == (gap / interval) * interval + interval)
        by (nonlinear_arith);
}

/// After catching up, the schedule is due strictly later than `now`, and
/// no later than one interval after it.
pub proof fn law_next_after_is_first_later(next_due: u64, interval: u64, now: u64)
    requires
        interval > 0,
        next_due <= now,
    ensures
        now < next_after(next_due, interval, now) <= now + interval,
        missed_intervals(next_due, interval, now) >= 0,
{
    let gap: int = now - next_due;
    let d: int = interval as int;
    lemma_whole_intervals(gap, d);
    assert((gap / d + 1) * d == (gap / d) * d + d) by (nonlinear_arith);
}

/// Every occurrence counted as missed had fallen due by `now`: the `j`-th
/// occurrence after the one served is not later than `now` exactly when
/// `j` is at most the count.
pub proof fn law_missed_counts_elapsed(next_due: u64, interval: u64, now: u64, j: int)
    requires
        interval > 0,
        next_due <= now,
        j >= 0,
    ensures
        (next_due + j * interval <= now) <==> j <= missed_intervals(next_due, interval, now),
{
    let gap: int = now - next_due;
    let d: int = interval as int;
    let m: int = gap / d;
    lemma_whole_intervals(gap, d);
    if j <= m {
        assert(j * d <= m * d) by (nonlinear_arith)
            requires
                j <= m,
                d > 0,
        ;
    } else {
        assert(j * d >= (m + 1) * d) by (nonlinear_arith)
            requires
                j >= m + 1,
                d > 0,
        ;
    }
}

/// Catching up one interval at a time: from an occurrence at `next`, with
/// `missed` occurrences counted so far, every occurrence that is not later
/// than `now` is counted and passed over. The outcome is the first
/// occurrence later than `now` and the count.
pub open spec fn walk(next: int, interval: int, now: int, missed: int) -> (int, int)
    decreases
            (if next <= now {
                now - next + 1
            } else {
                0
            }),
    when interval > 0
{
    if next <= now {
        walk(next + interval, interval, now, missed + 1)
    } else {
        (next, missed)
    }
}

/// Walking on from the occurrence that follows the `m`-th missed one ends
/// where catching up in one stride does.
proof fn lemma_walk_from(next_due: u64, interval: u64, now: u64, m: int)
    requires
        interval > 0,
        next_due <= now,
        0 <= m <= missed_intervals(next_due, interval, now),
    ensures
        walk(next_due + (m + 1) * interval, interval as int, now as int, m) == (
            next_after(next_due, interval, now),
            missed_intervals(next_due, interval, now),
        ),
    decreases missed_intervals(next_due, interval, now) - m,
{
    law_missed_counts_elapsed(next_due, interval, now, m + 1);
    if m < missed_intervals(next_due, interval, now) {
        lemma_walk_from(next_due, interval, now, m + 1);
        assert(next_due + (m + 1) * interval + interval == next_due + (m + 2) * interval)
            by (nonlinear_arith);
    }
}

/// Catching up in one stride gives what walking from the occurrence after
/// the one served gives: the same next due time and the same count of
/// missed occurrences.
pub proof fn law_catch_up_is_the_walk(next_due: u64, interval: u64, now: u64)
    requires
        interval > 0,
        next_due <= now,
    ensures
        walk(next_due + interval, interval as int, now as int, 0) == (
            next_after(next_due, interval, now),
            missed_intervals(next_due, interval, now),
        ),
{
    law_next_after_is_first_later(next_due, interval, now);
    lemma_walk_from(next_due, interval, now, 0);
    assert(next_due + (0 + 1) * interval == next_due + interval) by (nonlinear_arith);
}

} // verus!
