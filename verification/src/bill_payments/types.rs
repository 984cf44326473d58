//! The records of the bills book.

use crate::address::Address;
use crate::catch_up::days_after;
use crate::timer::{Timed, Timer};
use crate::records::Keyed;
use vstd::prelude::*;

verus! {

/// Why an operation on the bills book was refused.
#[derive(Clone, Copy, Debug, PartialEq, Eq, Structural)]
pub enum Error {
    /// No bill, or no schedule, has the identifier given.
    BillNotFound,
    /// The bill was paid before.
    BillAlreadyPaid,
    /// The amount is not positive, or the due time is not in the future.
    InvalidAmount,
    /// A recurring bill was given no period.
    InvalidFrequency,
    /// The caller does not own the record.
    Unauthorized,
    /// An identifier, a time or a count would pass the largest value its
    /// field can hold.
    Overflow,
}

/// What happened to a bill.
#[derive(Clone, Copy, Debug, PartialEq, Eq, Structural)]
pub enum BillEvent {
    Created,
    Paid,
}

/// What happened to a schedule.
#[derive(Clone, Copy, Debug, PartialEq, Eq, Structural)]
pub enum ScheduleEvent {
    Created,
    Executed,
    Missed,
    Modified,
    Cancelled,
}

/// The subject of an announcement of the bills book.
#[derive(Clone, Copy, Debug, PartialEq, Eq, Structural)]
pub enum Topic {
    Bill(BillEvent),
    Schedule(ScheduleEvent),
}

/// A payable item.
#[derive(Debug)]
pub struct Bill {
    pub id: u32,
    pub owner: Address,
    pub name: String,
    pub amount: i128,
    pub due_date: u64,
    pub recurring: bool,
    pub frequency_days: u32,
    pub paid: bool,
    pub created_at: u64,
    pub paid_at: Option<u64>,
    pub schedule_id: Option<u32>,
}

impl Keyed for Bill {
    open spec fn key(&self) -> u32 {
        self.id
    }

    fn id(&self) -> (r: u32) {
        self.id
    }
}

impl Clone for Bill {
    fn clone(&self) -> (r: Bill)
        ensures
            r == *self,
    {
        Bill {
            id: self.id,
            owner: self.owner.clone(),
            name: self.name.clone(),
            amount: self.amount,
            due_date: self.due_date,
            recurring: self.recurring,
            frequency_days: self.frequency_days,
            paid: self.paid,
            created_at: self.created_at,
            paid_at: self.paid_at,
            schedule_id: self.schedule_id,
        }
    }
}

impl Bill {
    /// What holds of every bill in a book: the amount is positive, a
    /// recurring bill has a period, and the time of payment is recorded
    /// exactly on paid bills.
    pub open spec fn sound(self) -> bool {
        &&& self.amount > 0
        &&& self.recurring ==> self.frequency_days > 0
        &&& self.paid_at is Some == self.paid
    }

    /// The bill is still to be paid by `owner`.
    pub open spec fn unpaid_by(self, owner: Address) -> bool {
        !self.paid && self.owner@ == owner@
    }

    /// The bill is still to be paid although its due time lies before `now`.
    pub open spec fn overdue(self, now: u64) -> bool {
        !self.paid && self.due_date < now
    }

    /// The bill once it has been paid at `now`.
    pub open spec fn settled(self, now: u64) -> Bill {
        Bill { paid: true, paid_at: Some(now), ..self }
    }

    /// The bill that takes the place of a recurring bill paid at `now`: one
    /// period later, unpaid, under the identifier `id`, and tied to the same
    /// schedule.
    pub open spec fn successor(self, id: u32, now: u64) -> Bill {
        Bill {
            id,
            owner: self.owner,
            name: self.name,
            amount: self.amount,
            due_date: days_after(self.due_date, self.frequency_days) as u64,
            recurring: true,
            frequency_days: self.frequency_days,
            paid: false,
            created_at: now,
            paid_at: None,
            schedule_id: self.schedule_id,
        }
    }
}

/// A timer that pays the bill tied to it.
#[derive(Debug)]
pub struct Schedule {
    pub id: u32,
    pub owner: Address,
    pub next_due: u64,
    pub interval: u64,
    pub recurring: bool,
    pub active: bool,
    pub created_at: u64,
    pub last_executed: Option<u64>,
    pub missed_count: u32,
}

impl Keyed for Schedule {
    open spec fn key(&self) -> u32 {
        self.id
    }

    fn id(&self) -> (r: u32) {
        self.id
    }
}

impl Clone for Schedule {
    fn clone(&self) -> (r: Schedule)
        ensures
            r == *self,
    {
        Schedule {
            id: self.id,
            owner: self.owner.clone(),
            next_due: self.next_due,
            interval: self.interval,
            recurring: self.recurring,
            active: self.active,
            created_at: self.created_at,
            last_executed: self.last_executed,
            missed_count: self.missed_count,
        }
    }
}

impl Timed for Schedule {
    open spec fn timer(&self) -> Timer {
        Timer {
            next_due: self.next_due,
            interval: self.interval,
            recurring: self.recurring,
            active: self.active,
            last_executed: self.last_executed,
            missed_count: self.missed_count,
        }
    }
}

impl Schedule {
    /// The schedule with its running part replaced by `timer`.
    pub open spec fn with_timer(self, timer: Timer) -> Schedule {
        Schedule {
            next_due: timer.next_due,
            interval: timer.interval,
            recurring: timer.recurring,
            active: timer.active,
            last_executed: timer.last_executed,
            missed_count: timer.missed_count,
            ..self
        }
    }

    /// What holds of every schedule in a book: it recurs exactly when it
    /// has an interval.
    pub open spec fn sound(self) -> bool {
        self.timer().sound()
    }

    /// The schedule is to be served at `now`.
    pub open spec fn due(self, now: u64) -> bool {
        self.timer().due(now)
    }

    /// Whether the schedule can be served at `now` without passing a
    /// limit.
    pub open spec fn fits(self, now: u64) -> bool {
        self.timer().fits(now)
    }

    /// The occurrences that the schedule, served at `now`, has let go by.
    pub open spec fn missed(self, now: u64) -> int {
        self.timer().missed(now)
    }

    /// The schedule after it has been served at `now`.
    pub open spec fn served(self, now: u64) -> Schedule {
        self.with_timer(self.timer().served(now))
    }

    /// The running part of the schedule.
    pub fn running(&self) -> (r: Timer)
        ensures
            r == self.timer(),
    {
        Timer {
            next_due: self.next_due,
            interval: self.interval,
            recurring: self.recurring,
            active: self.active,
            last_executed: self.last_executed,
            missed_count: self.missed_count,
        }
    }

    /// Replaces the running part of the schedule by `timer`.
    pub fn set_timer(&mut self, timer: Timer)
        ensures
            *final(self) == old(self).with_timer(timer),
    {
        self.next_due = timer.next_due;
        self.interval = timer.interval;
        self.recurring = timer.recurring;
        self.active = timer.active;
        self.last_executed = timer.last_executed;
        self.missed_count = timer.missed_count;
    }
}

} // verus!
