//! The insurance book as it is held in memory.

use crate::address::Address;
use crate::catch_up::{add_days, PREMIUM_PERIOD_DAYS};
use crate::insurance::model::{is_active_of, is_schedule_of, Register};
use crate::insurance::sums::{lemma_premiums_grow, lemma_premiums_push, premiums};
use crate::insurance::types::{Abort, InsuranceEvent, InsurancePolicy, PremiumSchedule};
use crate::notice::{Notice, Payload};
use crate::records::{
    find, in_order, lemma_filter_step, lemma_place_holds, lemma_push_keeps_order,
    lemma_update_keeps_order,
};
use vstd::prelude::*;

verus! {

/// The insurance book.
///
/// Its value as a [`Register`] is its view; every operation says what it
/// does in terms of that value.
pub struct Insurance {
    pub(crate) policies: Vec<InsurancePolicy>,
    pub(crate) next_id: u32,
    pub(crate) schedules: Vec<PremiumSchedule>,
    pub(crate) next_schedule_id: u32,
    pub(crate) notices: Vec<Notice<InsuranceEvent>>,
}

impl View for Insurance {
    type V = Register;

    open(crate) spec fn view(&self) -> Register {
        Register {
            policies: self.policies@,
            next_id: self.next_id,
            schedules: self.schedules@,
            next_schedule_id: self.next_schedule_id,
            notices: self.notices@,
        }
    }
}

/// Whether every policy of `policies` is sound.
fn policies_sound(policies: &Vec<InsurancePolicy>) -> (r: bool)
    ensures
        r == (forall|i: int| 0 <= i < policies@.len() ==> (#[trigger] policies@[i]).sound()),
{
    let mut i: usize = 0;
    while i < policies.len()
        invariant
            i <= policies.len(),
            forall|k: int| 0 <= k < i ==> (#[trigger] policies@[k]).sound(),
        decreases policies.len() - i,
    {
        let p = &policies[i];
        if p.monthly_premium <= 0 || p.coverage_amount <= 0 {
            assert(!policies@[i as int].sound());
            return false;
        }
        i += 1;
    }
    true
}

/// Whether every schedule of `schedules` is sound.
fn schedules_sound(schedules: &Vec<PremiumSchedule>) -> (r: bool)
    ensures
        r == (forall|i: int| 0 <= i < schedules@.len() ==> (#[trigger] schedules@[i]).sound()),
{
    let mut i: usize = 0;
    while i < schedules.len()
        invariant
            i <= schedules.len(),
            forall|k: int| 0 <= k < i ==> (#[trigger] schedules@[k]).sound(),
        decreases schedules.len() - i,
    {
        let s = &schedules[i];
        if s.recurring != (s.interval > 0) {
            assert(!schedules@[i as int].sound());
            return false;
        }
        i += 1;
    }
    true
}

impl Insurance {
    /// A book with nothing in it.
    pub fn new() -> (r: Insurance)
        ensures
            r@ == Register::empty(),
            r@.wf(),
    {
        Insurance {
            policies: Vec::new(),
            next_id: 0,
            schedules: Vec::new(),
            next_schedule_id: 0,
            notices: Vec::new(),
        }
    }

    /// The book made of the given records and counters, with no
    /// announcement waiting; `None` where they do not make a book.
    pub fn from_parts(
        policies: Vec<InsurancePolicy>,
        next_id: u32,
        schedules: Vec<PremiumSchedule>,
        next_schedule_id: u32,
    ) -> (r: Option<Insurance>)
        ensures
            ({
                let register = Register {
                    policies: policies@,
                    next_id,
                    schedules: schedules@,
                    next_schedule_id,
                    notices: Seq::empty(),
                };
                &&& r is Some == register.wf()
                &&& r is Some ==> r->0@ == register
            }),
    {
        if in_order(&policies, next_id) && in_order(&schedules, next_schedule_id)
            && policies_sound(&policies) && schedules_sound(&schedules) {
            Some(
                Insurance { policies, next_id, schedules, next_schedule_id, notices: Vec::new() },
            )
        } else {
            None
        }
    }

    /// The records and counters of the book: the policies, the last policy
    /// identifier handed out, the schedules, and the last schedule
    /// identifier handed out.
    /// Announcements that still wait are dropped: take them out first.
    pub fn into_parts(self) -> (r: (Vec<InsurancePolicy>, u32, Vec<PremiumSchedule>, u32))
        ensures
            r.0@ == self@.policies,
            r.1 == self@.next_id,
            r.2@ == self@.schedules,
            r.3 == self@.next_schedule_id,
    {
        (self.policies, self.next_id, self.schedules, self.next_schedule_id)
    }

    /// Takes out the announcements that wait, oldest first.
    pub fn take_notices(&mut self) -> (r: Vec<Notice<InsuranceEvent>>)
        ensures
            (final(self)@, r@) == old(self)@.take_notices(),
    {
        let mut out: Vec<Notice<InsuranceEvent>> = Vec::new();
        core::mem::swap(&mut self.notices, &mut out);
        out
    }

    /// Enters a new policy, in force and tied to no schedule, with its
    /// first premium due thirty days after `now`, and returns its
    /// identifier.
    pub fn create_policy(
        &mut self,
        owner: Address,
        name: String,
        coverage_type: String,
        monthly_premium: i128,
        coverage_amount: i128,
        now: u64,
    ) -> (r: Result<u32, Abort>)
        requires
            old(self)@.wf(),
        ensures
            (final(self)@, r) == old(self)@.create_policy(
                owner,
                name,
                coverage_type,
                monthly_premium,
                coverage_amount,
                now,
            ),
            final(self)@.wf(),
    {
        if monthly_premium <= 0 {
            return Err(Abort::InvalidPremium);
        }
        if coverage_amount <= 0 {
            return Err(Abort::InvalidCoverage);
        }
        if self.next_id == u32::MAX {
            return Err(Abort::Overflow);
        }
        let next_payment_date: u64 = match add_days(now, PREMIUM_PERIOD_DAYS) {
            Some(date) => date,
            None => {
                return Err(Abort::Overflow);
            },
        };
        let id: u32 = self.next_id + 1;
        let who = owner.clone();
        let policy = InsurancePolicy {
            id,
            owner,
            name,
            coverage_type,
            monthly_premium,
            coverage_amount,
            active: true,
            next_payment_date,
            schedule_id: None,
        };
        proof {
            lemma_push_keeps_order(self.policies@, self.next_id, policy);
        }
        self.policies.push(policy);
        self.next_id = id;
        self.notices.push(
            Notice { kind: InsuranceEvent::PolicyCreated, payload: Payload::Party { id, who } },
        );
        Ok(id)
    }

    /// Moves the next payment of the policy at `k` to thirty days after
    /// `now`. Does nothing, and says so, where that time does not fit.
    pub(crate) fn renew(&mut self, k: usize, now: u64) -> (done: bool)
        requires
            old(self)@.wf(),
            k < old(self)@.policies.len(),
        ensures
            done == Register::can_renew(now),
            done ==> final(self)@ == (Register {
                policies: old(self)@.policies.update(
                    k as int,
                    old(self)@.policies[k as int].renewed(now),
                ),
                ..old(self)@
            }),
            !done ==> final(self)@ == old(self)@,
            final(self)@.wf(),
    {
        let next_payment_date: u64 = match add_days(now, PREMIUM_PERIOD_DAYS) {
            Some(date) => date,
            None => {
                return false;
            },
        };
        let mut policy = self.policies[k].clone();
        policy.next_payment_date = next_payment_date;
        proof {
            lemma_update_keeps_order(self.policies@, self.next_id, k as int, policy);
            assert(self.policies@[k as int].sound());
        }
        self.policies.set(k, policy);
        true
    }

    /// Pays a premium of the policy `policy_id` on behalf of `caller`, its
    /// owner: the next premium is due thirty days after `now`.
    pub fn pay_premium(&mut self, caller: Address, policy_id: u32, now: u64) -> (r: Result<
        bool,
        Abort,
    >)
        requires
            old(self)@.wf(),
        ensures
            (final(self)@, r) == old(self)@.pay_premium(caller, policy_id, now),
            final(self)@.wf(),
    {
        let k: usize = match find(&self.policies, policy_id) {
            Some(k) => k,
            None => {
                return Err(Abort::PolicyNotFound);
            },
        };
        proof {
            lemma_place_holds(self.policies@, policy_id);
        }
        if !self.policies[k].owner.is(&caller) {
            return Err(Abort::NotPolicyOwner);
        }
        if !self.policies[k].active {
            return Err(Abort::PolicyInactive);
        }
        if !self.renew(k, now) {
            return Err(Abort::Overflow);
        }
        self.notices.push(
            Notice {
                kind: InsuranceEvent::PremiumPaid,
                payload: Payload::Party { id: policy_id, who: caller },
            },
        );
        Ok(true)
    }

    /// The policy `policy_id`, if the book has it.
    pub fn get_policy(&self, policy_id: u32) -> (r: Option<InsurancePolicy>)
        requires
            self@.wf(),
        ensures
            r == self@.policy(policy_id),
    {
        match find(&self.policies, policy_id) {
            Some(k) => Some(self.policies[k].clone()),
            None => None,
        }
    }

    /// The policies of `owner` that are in force, by identifier.
    pub fn get_active_policies(&self, owner: &Address) -> (r: Vec<InsurancePolicy>)
        ensures
            r@ == self@.active_policies(*owner),
    {
        let mut out: Vec<InsurancePolicy> = Vec::new();
        let mut i: usize = 0;
        assert(self.policies@.take(0).filter(is_active_of(*owner)) =~= Seq::empty()) by {
            reveal(Seq::filter);
        }
        while i < self.policies.len()
            invariant
                i <= self.policies.len(),
                out@ == self.policies@.take(i as int).filter(is_active_of(*owner)),
            decreases self.policies.len() - i,
        {
            proof {
                lemma_filter_step(self.policies@, is_active_of(*owner), i as int);
            }
            let p = &self.policies[i];
            if p.active && p.owner.is(owner) {
                out.push(p.clone());
            }
            i += 1;
        }
        assert(self.policies@.take(i as int) =~= self.policies@);
        out
    }

    /// What `owner` pays each month for the policies in force; `Overflow`
    /// where the sum does not fit.
    pub fn get_total_monthly_premium(&self, owner: &Address) -> (r: Result<i128, Abort>)
        requires
            self@.wf(),
        ensures
            r == (if self@.total_monthly_premium(*owner) <= i128::MAX {
                Ok(self@.total_monthly_premium(*owner) as i128)
            } else {
                Err(Abort::Overflow)
            }),
    {
        let mut total: i128 = 0;
        let mut i: usize = 0;
        proof {
            assert forall|k: int| 0 <= k < self.policies@.len() implies (
            #[trigger] self.policies@[k]).monthly_premium > 0 by {
                assert(self.policies@[k].sound());
            }
            lemma_premiums_grow(self.policies@, is_active_of(*owner), 0);
            assert(self.policies@.take(0).filter(is_active_of(*owner)) =~= Seq::empty()) by {
                reveal(Seq::filter);
            }
        }
        while i < self.policies.len()
            invariant
                i <= self.policies.len(),
                forall|k: int|
                    0 <= k < self.policies@.len() ==> (
                    #[trigger] self.policies@[k]).monthly_premium > 0,
                total == premiums(self.policies@.take(i as int).filter(is_active_of(*owner))),
                total >= 0,
            decreases self.policies.len() - i,
        {
            proof {
                lemma_filter_step(self.policies@, is_active_of(*owner), i as int);
                lemma_premiums_push(
                    self.policies@.take(i as int).filter(is_active_of(*owner)),
                    self.policies@[i as int],
                );
                lemma_premiums_grow(self.policies@, is_active_of(*owner), i + 1);
            }
            let p = &self.policies[i];
            if p.active && p.owner.is(owner) {
                total = match total.checked_add(p.monthly_premium) {
                    Some(sum) => sum,
                    None => {
                        return Err(Abort::Overflow);
                    },
                };
            }
            i += 1;
        }
        assert(self.policies@.take(i as int) =~= self.policies@);
        Ok(total)
    }

    /// Takes the policy `policy_id` out of force on behalf of `caller`, its
    /// owner.
    pub fn deactivate_policy(&mut self, caller: Address, policy_id: u32) -> (r: Result<
        bool,
        Abort,
    >)
        requires
            old(self)@.wf(),
        ensures
            (final(self)@, r) == old(self)@.deactivate_policy(caller, policy_id),
            final(self)@.wf(),
    {
        let k: usize = match find(&self.policies, policy_id) {
            Some(k) => k,
            None => {
                return Err(Abort::PolicyNotFound);
            },
        };
        proof {
            lemma_place_holds(self.policies@, policy_id);
        }
        if !self.policies[k].owner.is(&caller) {
            return Err(Abort::NotPolicyOwner);
        }
        let mut policy = self.policies[k].clone();
        policy.active = false;
        proof {
            lemma_update_keeps_order(self.policies@, self.next_id, k as int, policy);
            assert(self.policies@[k as int].sound());
        }
        self.policies.set(k, policy);
        self.notices.push(
            Notice {
                kind: InsuranceEvent::PolicyDeactivated,
                payload: Payload::Party { id: policy_id, who: caller },
            },
        );
        Ok(true)
    }

    /// Enters a schedule for the policy `policy_id` of `owner`, first due
    /// at `next_due`, and notes it on the policy. An interval of zero
    /// makes a schedule that runs once.
    pub fn create_premium_schedule(
        &mut self,
        owner: Address,
        policy_id: u32,
        next_due: u64,
        interval: u64,
        now: u64,
    ) -> (r: Result<u32, Abort>)
        requires
            old(self)@.wf(),
        ensures
            (final(self)@, r) == old(self)@.create_premium_schedule(
                owner,
                policy_id,
                next_due,
                interval,
                now,
            ),
            final(self)@.wf(),
    {
        let k: usize = match find(&self.policies, policy_id) {
            Some(k) => k,
            None => {
                return Err(Abort::PolicyNotFound);
            },
        };
        proof {
            lemma_place_holds(self.policies@, policy_id);
        }
        if !self.policies[k].owner.is(&owner) {
            return Err(Abort::NotPolicyOwner);
        }
        if next_due <= now {
            return Err(Abort::DueDateNotInFuture);
        }
        if self.next_schedule_id == u32::MAX {
            return Err(Abort::Overflow);
        }
        let id: u32 = self.next_schedule_id + 1;
        let who = owner.clone();
        let schedule = PremiumSchedule {
            id,
            owner,
            policy_id,
            next_due,
            interval,
            recurring: interval > 0,
            active: true,
            created_at: now,
            last_executed: None,
            missed_count: 0,
        };
        let mut policy = self.policies[k].clone();
        policy.schedule_id = Some(id);
        proof {
            lemma_update_keeps_order(self.policies@, self.next_id, k as int, policy);
            lemma_push_keeps_order(self.schedules@, self.next_schedule_id, schedule);
            assert(self.policies@[k as int].sound());
        }
        self.policies.set(k, policy);
        self.schedules.push(schedule);
        self.next_schedule_id = id;
        self.notices.push(
            Notice { kind: InsuranceEvent::ScheduleCreated, payload: Payload::Party { id, who } },
        );
        Ok(id)
    }

    /// Gives the schedule `schedule_id` a new due time, which must lie in
    /// the future, and a new interval.
    pub fn modify_premium_schedule(
        &mut self,
        caller: Address,
        schedule_id: u32,
        next_due: u64,
        interval: u64,
        now: u64,
    ) -> (r: Result<bool, Abort>)
        requires
            old(self)@.wf(),
        ensures
            (final(self)@, r) == old(self)@.modify_premium_schedule(
                caller,
                schedule_id,
                next_due,
                interval,
                now,
            ),
            final(self)@.wf(),
    {
        if next_due <= now {
            return Err(Abort::DueDateNotInFuture);
        }
        let k: usize = match find(&self.schedules, schedule_id) {
            Some(k) => k,
            None => {
                return Err(Abort::ScheduleNotFound);
            },
        };
        proof {
            lemma_place_holds(self.schedules@, schedule_id);
        }
        if !self.schedules[k].owner.is(&caller) {
            return Err(Abort::NotScheduleOwner);
        }
        let mut schedule = self.schedules[k].clone();
        schedule.next_due = next_due;
        schedule.interval = interval;
        schedule.recurring = interval > 0;
        proof {
            lemma_update_keeps_order(self.schedules@, self.next_schedule_id, k as int, schedule);
        }
        self.schedules.set(k, schedule);
        self.notices.push(
            Notice {
                kind: InsuranceEvent::ScheduleModified,
                payload: Payload::Party { id: schedule_id, who: caller },
            },
        );
        Ok(true)
    }

    /// Switches the schedule `schedule_id` off. It stays in the book and
    /// is never served again.
    pub fn cancel_premium_schedule(&mut self, caller: Address, schedule_id: u32) -> (r: Result<
        bool,
        Abort,
    >)
        requires
            old(self)@.wf(),
        ensures
            (final(self)@, r) == old(self)@.cancel_premium_schedule(caller, schedule_id),
            final(self)@.wf(),
    {
        let k: usize = match find(&self.schedules, schedule_id) {
            Some(k) => k,
            None => {
                return Err(Abort::ScheduleNotFound);
            },
        };
        proof {
            lemma_place_holds(self.schedules@, schedule_id);
        }
        if !self.schedules[k].owner.is(&caller) {
            return Err(Abort::NotScheduleOwner);
        }
        let mut schedule = self.schedules[k].clone();
        schedule.active = false;
        proof {
            lemma_update_keeps_order(self.schedules@, self.next_schedule_id, k as int, schedule);
            assert(self.schedules@[k as int].sound());
        }
        self.schedules.set(k, schedule);
        self.notices.push(
            Notice {
                kind: InsuranceEvent::ScheduleCancelled,
                payload: Payload::Party { id: schedule_id, who: caller },
            },
        );
        Ok(true)
    }

    /// The schedules of `owner`, by identifier.
    pub fn get_premium_schedules(&self, owner: &Address) -> (r: Vec<PremiumSchedule>)
        ensures
            r@ == self@.schedules_of(*owner),
    {
        let mut out: Vec<PremiumSchedule> = Vec::new();
        let mut i: usize = 0;
        assert(self.schedules@.take(0).filter(is_schedule_of(*owner)) =~= Seq::empty()) by {
            reveal(Seq::filter);
        }
        while i < self.schedules.len()
            invariant
                i <= self.schedules.len(),
                out@ == self.schedules@.take(i as int).filter(is_schedule_of(*owner)),
            decreases self.schedules.len() - i,
        {
            proof {
                lemma_filter_step(self.schedules@, is_schedule_of(*owner), i as int);
            }
            let s = &self.schedules[i];
            if s.owner.is(owner) {
                out.push(s.clone());
            }
            i += 1;
        }
        assert(self.schedules@.take(i as int) =~= self.schedules@);
        out
    }

    /// The schedule `schedule_id`, if the book has it.
    pub fn get_premium_schedule(&self, schedule_id: u32) -> (r: Option<PremiumSchedule>)
        requires
            self@.wf(),
        ensures
            r == self@.schedule(schedule_id),
    {
        match find(&self.schedules, schedule_id) {
            Some(k) => Some(self.schedules[k].clone()),
            None => None,
        }
    }
}

} // verus!
