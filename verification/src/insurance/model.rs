//! The insurance book as a mathematical value, and each operation on it
//! as a function from the book before to the book after and the answer
//! given.

use crate::address::Address;
use crate::catch_up::{days_after, PREMIUM_PERIOD_DAYS};
use crate::insurance::sums::premiums;
use crate::insurance::types::{Abort, InsuranceEvent, InsurancePolicy, PremiumSchedule};
use crate::notice::{Notice, Payload};
use crate::records::{ascending, holds, issued, lookup, place};
use crate::timer::Timed;
use vstd::prelude::*;

verus! {

/// The test that picks the policies of `owner` that are in force.
pub open spec fn is_active_of(owner: Address) -> spec_fn(InsurancePolicy) -> bool {
    |p: InsurancePolicy| p.active_of(owner)
}

/// The test that picks the schedules of `owner`.
pub open spec fn is_schedule_of(owner: Address) -> spec_fn(PremiumSchedule) -> bool {
    |s: PremiumSchedule| s.owner@ == owner@
}

/// The insurance book: policies and schedules in the order of their
/// identifiers, the last identifier handed out of each kind, and the
/// announcements that wait to be taken out.
pub struct Register {
    pub policies: Seq<InsurancePolicy>,
    pub next_id: u32,
    pub schedules: Seq<PremiumSchedule>,
    pub next_schedule_id: u32,
    pub notices: Seq<Notice<InsuranceEvent>>,
}

impl Register {
    /// The book with nothing in it.
    pub open spec fn empty() -> Register {
        Register {
            policies: Seq::empty(),
            next_id: 0,
            schedules: Seq::empty(),
            next_schedule_id: 0,
            notices: Seq::empty(),
        }
    }

    /// What holds of every book: identifiers rise strictly, none exceeds
    /// its counter, and every record is sound.
    pub open spec fn wf(self) -> bool {
        &&& ascending(self.policies)
        &&& issued(self.policies, self.next_id)
        &&& ascending(self.schedules)
        &&& issued(self.schedules, self.next_schedule_id)
        &&& forall|i: int| 0 <= i < self.policies.len() ==> (#[trigger] self.policies[i]).sound()
        &&& forall|i: int| 0 <= i < self.schedules.len() ==> (#[trigger] self.schedules[i]).sound()
    }

    /// The book with one more announcement waiting.
    pub open spec fn announce(self, kind: InsuranceEvent, payload: Payload) -> Register {
        Register { notices: self.notices.push(Notice { kind, payload }), ..self }
    }

    /// The policy `id`, if the book has it.
    pub open spec fn policy(self, id: u32) -> Option<InsurancePolicy> {
        lookup(self.policies, id)
    }

    /// The schedule `id`, if the book has it.
    pub open spec fn schedule(self, id: u32) -> Option<PremiumSchedule> {
        lookup(self.schedules, id)
    }

    /// The policies of `owner` that are in force, by identifier.
    pub open spec fn active_policies(self, owner: Address) -> Seq<InsurancePolicy> {
        self.policies.filter(is_active_of(owner))
    }

    /// What `owner` pays each month for the policies in force.
    pub open spec fn total_monthly_premium(self, owner: Address) -> int {
        premiums(self.active_policies(owner))
    }

    /// The schedules of `owner`, by identifier.
    pub open spec fn schedules_of(self, owner: Address) -> Seq<PremiumSchedule> {
        self.schedules.filter(is_schedule_of(owner))
    }

    /// Whether a premium paid at `now` has a next due time that fits.
    pub open spec fn can_renew(now: u64) -> bool {
        days_after(now, PREMIUM_PERIOD_DAYS) <= u64::MAX
    }

    /// Enters a new policy, in force, with its first premium due one
    /// period after `now`.
    pub open spec fn create_policy(
        self,
        owner: Address,
        name: String,
        coverage_type: String,
        monthly_premium: i128,
        coverage_amount: i128,
        now: u64,
    ) -> (Register, Result<u32, Abort>) {
        if monthly_premium <= 0 {
            (self, Err(Abort::InvalidPremium))
        } else if coverage_amount <= 0 {
            (self, Err(Abort::InvalidCoverage))
        } else if self.next_id == u32::MAX || !Self::can_renew(now) {
            (self, Err(Abort::Overflow))
        } else {
            let id = (self.next_id + 1) as u32;
            let policy = InsurancePolicy {
                id,
                owner,
                name,
                coverage_type,
                monthly_premium,
                coverage_amount,
                active: true,
                next_payment_date: days_after(now, PREMIUM_PERIOD_DAYS) as u64,
                schedule_id: None,
            };
            (
                Register { policies: self.policies.push(policy), next_id: id, ..self }.announce(
                    InsuranceEvent::PolicyCreated,
                    Payload::Party { id, who: owner },
                ),
                Ok(id),
            )
        }
    }

    /// Pays a premium of the policy `policy_id` on behalf of `caller`.
    pub open spec fn pay_premium(self, caller: Address, policy_id: u32, now: u64) -> (
        Register,
        Result<bool, Abort>,
    ) {
        if !holds(self.policies, policy_id) {
            (self, Err(Abort::PolicyNotFound))
        } else {
            let k = place(self.policies, policy_id);
            if self.policies[k].owner@ != caller@ {
                (self, Err(Abort::NotPolicyOwner))
            } else if !self.policies[k].active {
                (self, Err(Abort::PolicyInactive))
            } else if !Self::can_renew(now) {
                (self, Err(Abort::Overflow))
            } else {
                (
                    Register {
                        policies: self.policies.update(k, self.policies[k].renewed(now)),
                        ..self
                    }.announce(
                        InsuranceEvent::PremiumPaid,
                        Payload::Party { id: policy_id, who: caller },
                    ),
                    Ok(true),
                )
            }
        }
    }

    /// Takes the policy `policy_id` out of force.
    pub open spec fn deactivate_policy(self, caller: Address, policy_id: u32) -> (
        Register,
        Result<bool, Abort>,
    ) {
        if !holds(self.policies, policy_id) {
            (self, Err(Abort::PolicyNotFound))
        } else {
            let k = place(self.policies, policy_id);
            if self.policies[k].owner@ != caller@ {
                (self, Err(Abort::NotPolicyOwner))
            } else {
                (
                    Register {
                        policies: self.policies.update(
                            k,
                            InsurancePolicy { active: false, ..self.policies[k] },
                        ),
                        ..self
                    }.announce(
                        InsuranceEvent::PolicyDeactivated,
                        Payload::Party { id: policy_id, who: caller },
                    ),
                    Ok(true),
                )
            }
        }
    }

    /// Enters a schedule for the policy `policy_id` and notes it on the
    /// policy.
    pub open spec fn create_premium_schedule(
        self,
        owner: Address,
        policy_id: u32,
        next_due: u64,
        interval: u64,
        now: u64,
    ) -> (Register, Result<u32, Abort>) {
        if !holds(self.policies, policy_id) {
            (self, Err(Abort::PolicyNotFound))
        } else {
            let k = place(self.policies, policy_id);
            if self.policies[k].owner@ != owner@ {
                (self, Err(Abort::NotPolicyOwner))
            } else if next_due <= now {
                (self, Err(Abort::DueDateNotInFuture))
            } else if self.next_schedule_id == u32::MAX {
                (self, Err(Abort::Overflow))
            } else {
                let id = (self.next_schedule_id + 1) as u32;
                let schedule = PremiumSchedule {
                    id,
                    owner,
                    policy_id,
                    next_due,
                    interval,
                    recurring: interval > 0,
                    active: true,
                    created_at: now,
                    last_executed: None,
                    missed_count: 0,
                };
                (
                    Register {
                        policies: self.policies.update(
                            k,
                            InsurancePolicy { schedule_id: Some(id), ..self.policies[k] },
                        ),
                        schedules: self.schedules.push(schedule),
                        next_schedule_id: id,
                        ..self
                    }.announce(
                        InsuranceEvent::ScheduleCreated,
                        Payload::Party { id, who: owner },
                    ),
                    Ok(id),
                )
            }
        }
    }

    /// Gives the schedule `schedule_id` a new due time and interval. The
    /// due time is looked at before the schedule is looked for.
    pub open spec fn modify_premium_schedule(
        self,
        caller: Address,
        schedule_id: u32,
        next_due: u64,
        interval: u64,
        now: u64,
    ) -> (Register, Result<bool, Abort>) {
        if next_due <= now {
            (self, Err(Abort::DueDateNotInFuture))
        } else if !holds(self.schedules, schedule_id) {
            (self, Err(Abort::ScheduleNotFound))
        } else {
            let k = place(self.schedules, schedule_id);
            if self.schedules[k].owner@ != caller@ {
                (self, Err(Abort::NotScheduleOwner))
            } else {
                (
                    Register {
                        schedules: self.schedules.update(
                            k,
                            self.schedules[k].with_timer(
                                self.schedules[k].timer().reset(next_due, interval),
                            ),
                        ),
                        ..self
                    }.announce(
                        InsuranceEvent::ScheduleModified,
                        Payload::Party { id: schedule_id, who: caller },
                    ),
                    Ok(true),
                )
            }
        }
    }

    /// Switches the schedule `schedule_id` off for good.
    pub open spec fn cancel_premium_schedule(self, caller: Address, schedule_id: u32) -> (
        Register,
        Result<bool, Abort>,
    ) {
        if !holds(self.schedules, schedule_id) {
            (self, Err(Abort::ScheduleNotFound))
        } else {
            let k = place(self.schedules, schedule_id);
            if self.schedules[k].owner@ != caller@ {
                (self, Err(Abort::NotScheduleOwner))
            } else {
                (
                    Register {
                        schedules: self.schedules.update(
                            k,
                            self.schedules[k].with_timer(self.schedules[k].timer().stopped()),
                        ),
                        ..self
                    }.announce(
                        InsuranceEvent::ScheduleCancelled,
                        Payload::Party { id: schedule_id, who: caller },
                    ),
                    Ok(true),
                )
            }
        }
    }

    /// Takes the waiting announcements out of the book.
    pub open spec fn take_notices(self) -> (Register, Seq<Notice<InsuranceEvent>>) {
        (Register { notices: Seq::empty(), ..self }, self.notices)
    }
}

} // verus!
