//! How an insurance book may differ from the book it came from.
//!
//! Whatever is done to a book, it stays well formed, identifiers are
//! never handed out twice, a policy that was taken out of force stays out
//! of force, and a schedule that was switched off stays off and never
//! counts fewer missed occurrences than before.

use crate::address::Address;
use crate::insurance::model::Register;
use crate::insurance::sweep_laws::{lemma_serve_keeps_book, lemma_sweep_upto};
use crate::insurance::types::{InsurancePolicy, PremiumSchedule};
use crate::records::{
    holds, lemma_place_holds, lemma_push_keeps_order, lemma_update_keeps_order, place,
};
use crate::timer::{law_served_is_not_due, Timed};
use vstd::prelude::*;

verus! {

impl InsurancePolicy {
    /// Whether this policy is a later state of the policy `before`: the
    /// same policy in all that was fixed when it was entered, and out of
    /// force if that one was.
    pub open spec fn continues(self, before: InsurancePolicy) -> bool {
        &&& self.id == before.id
        &&& self.owner == before.owner
        &&& self.name == before.name
        &&& self.coverage_type == before.coverage_type
        &&& self.monthly_premium == before.monthly_premium
        &&& self.coverage_amount == before.coverage_amount
        &&& !before.active ==> !self.active
    }
}

impl PremiumSchedule {
    /// Whether this schedule is a later state of the schedule `before`:
    /// the same schedule of the same owner for the same policy, off if
    /// that one was, and with no fewer missed occurrences.
    pub open spec fn continues(self, before: PremiumSchedule) -> bool {
        &&& self.id == before.id
        &&& self.owner == before.owner
        &&& self.policy_id == before.policy_id
        &&& self.created_at == before.created_at
        &&& !before.active ==> !self.active
        &&& before.missed_count <= self.missed_count
    }
}

impl Register {
    /// Whether this book may have come from the book `before`.
    pub open spec fn follows(self, before: Register) -> bool {
        &&& before.next_id <= self.next_id
        &&& before.next_schedule_id <= self.next_schedule_id
        &&& before.policies.len() <= self.policies.len()
        &&& forall|i: int|
            0 <= i < before.policies.len() ==> (#[trigger] self.policies[i]).continues(
                before.policies[i],
            )
        &&& forall|i: int|
            before.policies.len() <= i < self.policies.len() ==> (#[trigger] self.policies[i]).id
                > before.next_id
        &&& before.schedules.len() <= self.schedules.len()
        &&& forall|i: int|
            0 <= i < before.schedules.len() ==> (#[trigger] self.schedules[i]).continues(
                before.schedules[i],
            )
        &&& forall|i: int|
            before.schedules.len() <= i < self.schedules.len() ==> (
            #[trigger] self.schedules[i]).id > before.next_schedule_id
    }
}

/// Every book may have come from itself.
pub proof fn law_follows_itself(book: Register)
    ensures
        book.follows(book),
{
}

/// What came from a book that came from another came from that other.
pub proof fn law_follows_onward(first: Register, second: Register, third: Register)
    requires
        second.follows(first),
        third.follows(second),
    ensures
        third.follows(first),
{
    assert forall|i: int| 0 <= i < first.policies.len() implies (
    #[trigger] third.policies[i]).continues(first.policies[i]) by {
        assert(second.policies[i].continues(first.policies[i]));
    }
    assert forall|i: int| first.policies.len() <= i < third.policies.len() implies (
    #[trigger] third.policies[i]).id > first.next_id by {
        if i < second.policies.len() {
            assert(second.policies[i].id > first.next_id);
            assert(third.policies[i].continues(second.policies[i]));
        }
    }
    assert forall|i: int| 0 <= i < first.schedules.len() implies (
    #[trigger] third.schedules[i]).continues(first.schedules[i]) by {
        assert(second.schedules[i].continues(first.schedules[i]));
    }
    assert forall|i: int| first.schedules.len() <= i < third.schedules.len() implies (
    #[trigger] third.schedules[i]).id > first.next_schedule_id by {
        if i < second.schedules.len() {
            assert(second.schedules[i].id > first.next_schedule_id);
            assert(third.schedules[i].continues(second.schedules[i]));
        }
    }
}

/// Serving a schedule gives a book that may have come from the book
/// before.
pub proof fn lemma_serve_follows(book: Register, i: int, now: u64)
    requires
        book.wf(),
        0 <= i < book.schedules.len(),
        book.schedules[i].due(now),
        book.can_serve(i, now),
    ensures
        book.serve(i, now).follows(book),
{
    lemma_serve_keeps_book(book, i, now);
    if book.pays(i) {
        lemma_place_holds(book.policies, book.schedules[i].policy_id);
    }
    let after = book.serve(i, now);
    assert forall|j: int| 0 <= j < book.schedules.len() implies (
    #[trigger] after.schedules[j]).continues(book.schedules[j]) by {
        if j == i {
            law_served_is_not_due(book.schedules[i].timer(), now);
        }
    }
}

proof fn lemma_sweep_follows(book: Register, k: nat, now: u64)
    requires
        book.wf(),
        k <= book.schedules.len(),
        book.sweep_upto(k, now) is Some,
    ensures
        ({
            let (after, served) = book.sweep_upto(k, now)->0;
            after.follows(book)
        }),
    decreases k,
{
    if k > 0 {
        let i = k - 1;
        lemma_sweep_follows(book, i as nat, now);
        lemma_sweep_upto(book, i as nat, now);
        let (mid, some) = book.sweep_upto(i as nat, now)->0;
        if mid.schedules[i].due(now) {
            lemma_serve_follows(mid, i, now);
            law_follows_onward(book, mid, mid.serve(i, now));
        }
    }
}

/// Entering a policy gives a well-formed book that may have come from
/// the book before.
pub proof fn law_create_policy_follows(
    book: Register,
    owner: Address,
    name: String,
    coverage_type: String,
    monthly_premium: i128,
    coverage_amount: i128,
    now: u64,
)
    requires
        book.wf(),
    ensures
        book.create_policy(
            owner,
            name,
            coverage_type,
            monthly_premium,
            coverage_amount,
            now,
        ).0.follows(book),
        book.create_policy(
            owner,
            name,
            coverage_type,
            monthly_premium,
            coverage_amount,
            now,
        ).0.wf(),
{
    let after = book.create_policy(
        owner,
        name,
        coverage_type,
        monthly_premium,
        coverage_amount,
        now,
    ).0;
    if after != book {
        lemma_push_keeps_order(book.policies, book.next_id, after.policies.last());
        assert(after.policies == book.policies.push(after.policies.last()));
    }
}

/// Paying a premium gives a well-formed book that may have come from the
/// book before.
pub proof fn law_pay_premium_follows(book: Register, caller: Address, policy_id: u32, now: u64)
    requires
        book.wf(),
    ensures
        book.pay_premium(caller, policy_id, now).0.follows(book),
        book.pay_premium(caller, policy_id, now).0.wf(),
{
    if holds(book.policies, policy_id) {
        lemma_place_holds(book.policies, policy_id);
        let k = place(book.policies, policy_id);
        assert(book.policies[k].sound());
        lemma_update_keeps_order(book.policies, book.next_id, k, book.policies[k].renewed(now));
    }
}

/// Deactivating a policy gives a well-formed book that may have come from
/// the book before.
pub proof fn law_deactivate_policy_follows(book: Register, caller: Address, policy_id: u32)
    requires
        book.wf(),
    ensures
        book.deactivate_policy(caller, policy_id).0.follows(book),
        book.deactivate_policy(caller, policy_id).0.wf(),
{
    if holds(book.policies, policy_id) {
        lemma_place_holds(book.policies, policy_id);
        let k = place(book.policies, policy_id);
        assert(book.policies[k].sound());
        lemma_update_keeps_order(
            book.policies,
            book.next_id,
            k,
            InsurancePolicy { active: false, ..book.policies[k] },
        );
    }
}

/// Entering a schedule gives a well-formed book that may have come from
/// the book before.
pub proof fn law_create_premium_schedule_follows(
    book: Register,
    owner: Address,
    policy_id: u32,
    next_due: u64,
    interval: u64,
    now: u64,
)
    requires
        book.wf(),
    ensures
        book.create_premium_schedule(owner, policy_id, next_due, interval, now).0.follows(book),
        book.create_premium_schedule(owner, policy_id, next_due, interval, now).0.wf(),
{
    if book.create_premium_schedule(owner, policy_id, next_due, interval, now).1 is Ok {
        lemma_place_holds(book.policies, policy_id);
        let k = place(book.policies, policy_id);
        let id = (book.next_schedule_id + 1) as u32;
        let after = book.create_premium_schedule(owner, policy_id, next_due, interval, now).0;
        assert(book.policies[k].sound());
        lemma_update_keeps_order(
            book.policies,
            book.next_id,
            k,
            InsurancePolicy { schedule_id: Some(id), ..book.policies[k] },
        );
        lemma_push_keeps_order(book.schedules, book.next_schedule_id, after.schedules.last());
    }
}

/// Changing a schedule gives a well-formed book that may have come from
/// the book before.
pub proof fn law_modify_premium_schedule_follows(
    book: Register,
    caller: Address,
    schedule_id: u32,
    next_due: u64,
    interval: u64,
    now: u64,
)
    requires
        book.wf(),
    ensures
        book.modify_premium_schedule(caller, schedule_id, next_due, interval, now).0.follows(book),
        book.modify_premium_schedule(caller, schedule_id, next_due, interval, now).0.wf(),
{
    if holds(book.schedules, schedule_id) {
        lemma_place_holds(book.schedules, schedule_id);
        let k = place(book.schedules, schedule_id);
        lemma_update_keeps_order(
            book.schedules,
            book.next_schedule_id,
            k,
            book.schedules[k].with_timer(book.schedules[k].timer().reset(next_due, interval)),
        );
    }
}

/// Switching a schedule off gives a well-formed book that may have come
/// from the book before.
pub proof fn law_cancel_premium_schedule_follows(
    book: Register,
    caller: Address,
    schedule_id: u32,
)
    requires
        book.wf(),
    ensures
        book.cancel_premium_schedule(caller, schedule_id).0.follows(book),
        book.cancel_premium_schedule(caller, schedule_id).0.wf(),
{
    if holds(book.schedules, schedule_id) {
        lemma_place_holds(book.schedules, schedule_id);
        let k = place(book.schedules, schedule_id);
        assert(book.schedules[k].sound());
        lemma_update_keeps_order(
            book.schedules,
            book.next_schedule_id,
            k,
            book.schedules[k].with_timer(book.schedules[k].timer().stopped()),
        );
    }
}

/// A sweep gives a well-formed book that may have come from the book
/// before.
pub proof fn law_sweep_follows(book: Register, now: u64)
    requires
        book.wf(),
    ensures
        book.execute_due_premium_schedules(now).0.follows(book),
        book.execute_due_premium_schedules(now).0.wf(),
{
    if book.execute_due_premium_schedules(now).1 is Ok {
        lemma_sweep_follows(book, book.schedules.len(), now);
        lemma_sweep_upto(book, book.schedules.len(), now);
    }
}

} // verus!
