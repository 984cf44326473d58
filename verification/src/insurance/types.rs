//! The records of the insurance book.

use crate::address::Address;
use crate::catch_up::days_after;
use crate::records::Keyed;
use crate::timer::{Timed, Timer};
use vstd::prelude::*;

verus! {

/// Why an operation on the insurance book was given up.
#[derive(Clone, Copy, Debug, PartialEq, Eq, Structural)]
pub enum Abort {
    /// The monthly premium is not positive.
    InvalidPremium,
    /// The coverage amount is not positive.
    InvalidCoverage,
    /// No policy has the identifier given.
    PolicyNotFound,
    /// The caller does not own the policy.
    NotPolicyOwner,
    /// The policy has been deactivated.
    PolicyInactive,
    /// The due time of a schedule does not lie in the future.
    DueDateNotInFuture,
    /// No schedule has the identifier given.
    ScheduleNotFound,
    /// The caller does not own the schedule.
    NotScheduleOwner,
    /// An identifier, a time or a count would pass the largest value its
    /// field can hold.
    Overflow,
}

/// What happened in the insurance book.
#[derive(Clone, Copy, Debug, PartialEq, Eq, Structural)]
pub enum InsuranceEvent {
    PolicyCreated,
    PremiumPaid,
    PolicyDeactivated,
    ScheduleCreated,
    ScheduleExecuted,
    ScheduleMissed,
    ScheduleModified,
    ScheduleCancelled,
}

/// An insurance policy.
#[derive(Debug)]
pub struct InsurancePolicy {
    pub id: u32,
    pub owner: Address,
    pub name: String,
    pub coverage_type: String,
    pub monthly_premium: i128,
    pub coverage_amount: i128,
    pub active: bool,
    pub next_payment_date: u64,
    pub schedule_id: Option<u32>,
}

impl Keyed for InsurancePolicy {
    open spec fn key(&self) -> u32 {
        self.id
    }

    fn id(&self) -> (r: u32) {
        self.id
    }
}

impl Clone for InsurancePolicy {
    fn clone(&self) -> (r: InsurancePolicy)
        ensures
            r == *self,
    {
        InsurancePolicy {
            id: self.id,
            owner: self.owner.clone(),
            name: self.name.clone(),
            coverage_type: self.coverage_type.clone(),
            monthly_premium: self.monthly_premium,
            coverage_amount: self.coverage_amount,
            active: self.active,
            next_payment_date: self.next_payment_date,
            schedule_id: self.schedule_id,
        }
    }
}

impl InsurancePolicy {
    /// What holds of every policy in a book: premium and coverage are
    /// positive.
    pub open spec fn sound(self) -> bool {
        self.monthly_premium > 0 && self.coverage_amount > 0
    }

    /// The policy is in force and belongs to `owner`.
    pub open spec fn active_of(self, owner: Address) -> bool {
        self.active && self.owner@ == owner@
    }

    /// The policy after a premium has been paid at `now`: the next one is
    /// due a period later.
    pub open spec fn renewed(self, now: u64) -> InsurancePolicy {
        InsurancePolicy {
            next_payment_date: days_after(now, crate::catch_up::PREMIUM_PERIOD_DAYS) as u64,
            ..self
        }
    }
}

/// A timer that pays the premium of the policy it names.
#[derive(Debug)]
pub struct PremiumSchedule {
    pub id: u32,
    pub owner: Address,
    pub policy_id: u32,
    pub next_due: u64,
    pub interval: u64,
    pub recurring: bool,
    pub active: bool,
    pub created_at: u64,
    pub last_executed: Option<u64>,
    pub missed_count: u32,
}

impl Keyed for PremiumSchedule {
    open spec fn key(&self) -> u32 {
        self.id
    }

    fn id(&self) -> (r: u32) {
        self.id
    }
}

impl Clone for PremiumSchedule {
    fn clone(&self) -> (r: PremiumSchedule)
        ensures
            r == *self,
    {
        PremiumSchedule {
            id: self.id,
            owner: self.owner.clone(),
            policy_id: self.policy_id,
            next_due: self.next_due,
            interval: self.interval,
            recurring: self.recurring,
            active: self.active,
            created_at: self.created_at,
            last_executed: self.last_executed,
            missed_count: self.missed_count,
        }
    }
}

impl Timed for PremiumSchedule {
    open spec fn timer(&self) -> Timer {
        Timer {
            next_due: self.next_due,
            interval: self.interval,
            recurring: self.recurring,
            active: self.active,
            last_executed: self.last_executed,
            missed_count: self.missed_count,
        }
    }
}

impl PremiumSchedule {
    /// The schedule with its running part replaced by `timer`.
    pub open spec fn with_timer(self, timer: Timer) -> PremiumSchedule {
        PremiumSchedule {
            next_due: timer.next_due,
            interval: timer.interval,
            recurring: timer.recurring,
            active: timer.active,
            last_executed: timer.last_executed,
            missed_count: timer.missed_count,
            ..self
        }
    }

    /// What holds of every schedule in a book: it recurs exactly when it
    /// has an interval.
    pub open spec fn sound(self) -> bool {
        self.timer().sound()
    }

    /// The schedule is to be served at `now`.
    pub open spec fn due(self, now: u64) -> bool {
        self.timer().due(now)
    }

    /// Whether the schedule can be served at `now` without passing a
    /// limit.
    pub open spec fn fits(self, now: u64) -> bool {
        self.timer().fits(now)
    }

    /// The occurrences that the schedule, served at `now`, has let go by.
    pub open spec fn missed(self, now: u64) -> int {
        self.timer().missed(now)
    }

    /// The schedule after it has been served at `now`.
    pub open spec fn served(self, now: u64) -> PremiumSchedule {
        self.with_timer(self.timer().served(now))
    }

    /// The running part of the schedule.
    pub fn running(&self) -> (r: Timer)
        ensures
            r == self.timer(),
    {
        Timer {
            next_due: self.next_due,
            interval: self.interval,
            recurring: self.recurring,
            active: self.active,
            last_executed: self.last_executed,
            missed_count: self.missed_count,
        }
    }

    /// Replaces the running part of the schedule by `timer`.
    pub fn set_timer(&mut self, timer: Timer)
        ensures
            *final(self) == old(self).with_timer(timer),
    {
        self.next_due = timer.next_due;
        self.interval = timer.interval;
        self.recurring = timer.recurring;
        self.active = timer.active;
        self.last_executed = timer.last_executed;
        self.missed_count = timer.missed_count;
    }
}

} // verus!
