//! The running part of a schedule: when it is due, how often it comes
//! round, and what being served does to it.

use crate::catch_up::{
    catch_up, catch_up_fits, law_next_after_is_first_later, missed_intervals, next_after,
};
use crate::records::{ascending, lemma_filter_step, Keyed};
use vstd::prelude::*;

verus! {

/// The clockwork of a schedule.
#[derive(Clone, Copy, Debug, PartialEq, Eq, Structural)]
pub struct Timer {
    /// When the schedule is next to be served.
    pub next_due: u64,
    /// Seconds from one occurrence to the next; zero for a schedule that
    /// runs once.
    pub interval: u64,
    /// Whether the schedule comes round again.
    pub recurring: bool,
    /// Whether the schedule is still to be served at all.
    pub active: bool,
    /// When the schedule was last served.
    pub last_executed: Option<u64>,
    /// The occurrences that went by unserved so far.
    pub missed_count: u32,
}

/// What serving a schedule came to.
#[derive(Clone, Copy, Debug, PartialEq, Eq, Structural)]
pub struct Served {
    /// The timer after the schedule was served.
    pub timer: Timer,
    /// The occurrences that this serving found missed.
    pub missed: u32,
}

impl Timer {
    /// What holds of every timer in a book: it recurs exactly when it has
    /// an interval.
    pub open spec fn sound(self) -> bool {
        self.recurring == (self.interval > 0)
    }

    /// The timer set to a new due time and interval.
    pub open spec fn reset(self, next_due: u64, interval: u64) -> Timer {
        Timer { next_due, interval, recurring: interval > 0, ..self }
    }

    /// The timer switched off.
    pub open spec fn stopped(self) -> Timer {
        Timer { active: false, ..self }
    }

    /// The schedule is to be served at `now`.
    pub open spec fn due(self, now: u64) -> bool {
        self.active && self.next_due <= now
    }

    /// The schedule comes round again after it has been served.
    pub open spec fn repeats(self) -> bool {
        self.recurring && self.interval > 0
    }

    /// The occurrences that a schedule served at `now` has let go by:
    /// every whole interval between the occurrence served and `now`, and
    /// none for a schedule that runs once.
    pub open spec fn missed(self, now: u64) -> int {
        if self.repeats() {
            missed_intervals(self.next_due, self.interval, now)
        } else {
            0
        }
    }

    /// Whether the schedule can be served at `now` without passing a
    /// limit: the new due time and the new count of missed occurrences
    /// must fit their fields.
    pub open spec fn fits(self, now: u64) -> bool {
        self.repeats() ==> {
            &&& catch_up_fits(self.next_due, self.interval, now)
            &&& self.missed_count + self.missed(now) <= u32::MAX
        }
    }

    /// The timer after the schedule has been served at `now`. A schedule
    /// that repeats is due again at the first occurrence later than `now`
    /// and counts the occurrences in between as missed; one that runs once
    /// is switched off.
    pub open spec fn served(self, now: u64) -> Timer {
        if self.repeats() {
            Timer {
                last_executed: Some(now),
                missed_count: (self.missed_count + self.missed(now)) as u32,
                next_due: next_after(self.next_due, self.interval, now) as u64,
                ..self
            }
        } else {
            Timer { last_executed: Some(now), active: false, ..self }
        }
    }

    /// Whether the schedule is to be served at `now`.
    pub fn is_due(&self, now: u64) -> (r: bool)
        ensures
            r == self.due(now),
    {
        self.active && self.next_due <= now
    }

    /// Serves a schedule that is due at `now`; `None` exactly where that
    /// would pass a limit.
    pub fn serve(&self, now: u64) -> (r: Option<Served>)
        requires
            self.due(now),
        ensures
            r == (if self.fits(now) {
                Some(Served { timer: self.served(now), missed: self.missed(now) as u32 })
            } else {
                None
            }),
    {
        if self.recurring && self.interval > 0 {
            let caught = match catch_up(self.next_due, self.interval, now) {
                Some(caught) => caught,
                None => {
                    return None;
                },
            };
            let count: u32 = match self.missed_count.checked_add(caught.missed) {
                Some(count) => count,
                None => {
                    return None;
                },
            };
            Some(
                Served {
                    timer: Timer {
                        next_due: caught.next_due,
                        interval: self.interval,
                        recurring: self.recurring,
                        active: self.active,
                        last_executed: Some(now),
                        missed_count: count,
                    },
                    missed: caught.missed,
                },
            )
        } else {
            Some(
                Served {
                    timer: Timer {
                        next_due: self.next_due,
                        interval: self.interval,
                        recurring: self.recurring,
                        active: false,
                        last_executed: Some(now),
                        missed_count: self.missed_count,
                    },
                    missed: 0,
                },
            )
        }
    }
}

/// A schedule that has been served at `now` is not due at `now` any more:
/// one that repeats is due again later, within one interval, and one that
/// runs once is off. Its count of missed occurrences has grown by what
/// this serving found missed, which is never less than nothing; it
/// remembers `now` as the time it last ran, and a sound timer stays sound.
pub proof fn law_served_is_not_due(timer: Timer, now: u64)
    requires
        timer.due(now),
        timer.fits(now),
    ensures
        !timer.served(now).due(now),
        timer.repeats() ==> timer.served(now).active && now < timer.served(now).next_due <= now
            + timer.interval,
        !timer.repeats() ==> !timer.served(now).active,
        timer.served(now).missed_count == timer.missed_count + timer.missed(now),
        timer.missed(now) >= 0,
        timer.served(now).last_executed == Some(now),
        timer.sound() ==> timer.served(now).sound(),
{
    if timer.repeats() {
        law_next_after_is_first_later(timer.next_due, timer.interval, now);
    }
}

/// A schedule that is off is not due, whatever the time.
pub proof fn law_stopped_is_never_due(timer: Timer, now: u64)
    ensures
        !timer.stopped().due(now),
        !timer.active ==> !timer.due(now),
{
}

/// A record that runs on a timer.
pub trait Timed: Keyed {
    /// The running part of the record.
    spec fn timer(&self) -> Timer;
}

/// The test that picks the schedules to be served at `now`.
pub open spec fn is_due<T: Timed>(now: u64) -> spec_fn(T) -> bool {
    |s: T| s.timer().due(now)
}

/// The identifiers of the schedules to be served at `now`, in order.
pub open spec fn due_ids<T: Timed>(schedules: Seq<T>, now: u64) -> Seq<u32> {
    schedules.filter(is_due(now)).map_values(|s: T| s.key())
}

/// Of no schedules none is due.
pub proof fn lemma_due_ids_of_none<T: Timed>(schedules: Seq<T>, now: u64)
    ensures
        due_ids(schedules.take(0), now) == Seq::<u32>::empty(),
{
    assert(schedules.take(0).filter(is_due(now)) =~= Seq::empty()) by {
        reveal(Seq::filter);
    }
    assert(due_ids(schedules.take(0), now) =~= Seq::<u32>::empty());
}

/// One schedule further along, the due identifiers gain that schedule's
/// if it is due and stay as they are if it is not.
pub proof fn lemma_due_ids_step<T: Timed>(schedules: Seq<T>, now: u64, i: int)
    requires
        0 <= i < schedules.len(),
    ensures
        due_ids(schedules.take(i + 1), now) == if schedules[i].timer().due(now) {
            due_ids(schedules.take(i), now).push(schedules[i].key())
        } else {
            due_ids(schedules.take(i), now)
        },
{
    lemma_filter_step(schedules, is_due(now), i);
    let before = schedules.take(i).filter(is_due(now));
    if schedules[i].timer().due(now) {
        assert(before.push(schedules[i]).map_values(|s: T| s.key()) =~= before.map_values(
            |s: T| s.key(),
        ).push(schedules[i].key()));
    }
}

/// Among schedules in the order of their identifiers, the due identifiers
/// rise strictly, so that none comes twice, and those of the first `k`
/// schedules lie below the identifier of every schedule from `k` on.
pub proof fn lemma_due_ids_ascend<T: Timed>(schedules: Seq<T>, now: u64, k: int)
    requires
        ascending(schedules),
        0 <= k <= schedules.len(),
    ensures
        ({
            let ids = due_ids(schedules.take(k), now);
            &&& forall|a: int, b: int| 0 <= a < b < ids.len() ==> ids[a] < ids[b]
            &&& forall|a: int, j: int|
                0 <= a < ids.len() && k <= j < schedules.len() ==> #[trigger] ids[a] < (
                #[trigger] schedules[j]).key()
        }),
    decreases k,
{
    if k == 0 {
        lemma_due_ids_of_none(schedules, now);
    } else {
        lemma_due_ids_ascend(schedules, now, k - 1);
        lemma_due_ids_step(schedules, now, k - 1);
        let prev = due_ids(schedules.take(k - 1), now);
        let cur = due_ids(schedules.take(k), now);
        assert forall|a: int, j: int| 0 <= a < cur.len() && k <= j < schedules.len() implies
            #[trigger] cur[a] < (#[trigger] schedules[j]).key() by {
            if a < prev.len() {
                assert(prev[a] < schedules[j].key());
            } else {
                assert(schedules[k - 1].key() < schedules[j].key());
            }
        }
        assert forall|a: int, b: int| 0 <= a < b < cur.len() implies cur[a] < cur[b] by {
            if b < prev.len() {
                assert(prev[a] < prev[b]);
            } else {
                assert(prev[a] < schedules[k - 1].key());
            }
        }
    }
}

/// A schedule that is due is among those to be served.
pub proof fn law_due_schedules_are_served<T: Timed>(schedules: Seq<T>, i: int, now: u64)
    requires
        0 <= i < schedules.len(),
        schedules[i].timer().due(now),
    ensures
        due_ids(schedules, now).contains(schedules[i].key()),
{
    let picked = schedules.filter(is_due(now));
    let ids = due_ids(schedules, now);
    schedules.lemma_filter_contains(is_due(now), i);
    let a = choose|a: int| 0 <= a < picked.len() && picked[a] == schedules[i];
    assert(ids[a] == schedules[i].key());
}

/// A schedule that is off, or not yet due, is not among those to be
/// served.
pub proof fn law_only_due_schedules_are_served<T: Timed>(schedules: Seq<T>, i: int, now: u64)
    requires
        ascending(schedules),
        0 <= i < schedules.len(),
        !schedules[i].timer().due(now),
    ensures
        !due_ids(schedules, now).contains(schedules[i].key()),
{
    let picked = schedules.filter(is_due(now));
    let ids = due_ids(schedules, now);
    if ids.contains(schedules[i].key()) {
        let a = choose|a: int| 0 <= a < ids.len() && ids[a] == schedules[i].key();
        schedules.lemma_filter_pred(is_due(now), a);
        assert(picked.contains(picked[a]));
        schedules.lemma_filter_contains_rev(is_due(now), picked[a]);
        let j = choose|j: int| 0 <= j < schedules.len() && schedules[j] == picked[a];
        if j < i {
            assert(schedules[j].key() < schedules[i].key());
        } else if i < j {
            assert(schedules[i].key() < schedules[j].key());
        }
    }
}

} // verus!
