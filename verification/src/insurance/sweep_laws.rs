//! What holds of a sweep over the insurance book.

use crate::insurance::model::Register;
use crate::catch_up::PREMIUM_PERIOD_DAYS;
use crate::insurance::types::{Abort, InsurancePolicy};
use crate::records::{holds, lemma_place_holds, lemma_update_keeps_order, place};
use crate::timer::{
    due_ids, law_due_schedules_are_served, law_only_due_schedules_are_served,
    law_served_is_not_due, lemma_due_ids_ascend,
    lemma_due_ids_of_none, lemma_due_ids_step, Timed,
};
use vstd::prelude::*;

verus! {

/// Serving a schedule keeps the book well formed, moves that schedule and
/// no other, and hands out no identifier.
pub proof fn lemma_serve_keeps_book(book: Register, i: int, now: u64)
    requires
        book.wf(),
        0 <= i < book.schedules.len(),
        book.can_serve(i, now),
    ensures
        book.serve(i, now).wf(),
        book.serve(i, now).schedules == book.schedules.update(i, book.schedules[i].served(now)),
        book.serve(i, now).next_schedule_id == book.next_schedule_id,
        book.serve(i, now).next_id == book.next_id,
        book.serve(i, now).policies.len() == book.policies.len(),
{
    let seen = book.fulfil(i, now);
    if book.pays(i) {
        lemma_place_holds(book.policies, book.schedules[i].policy_id);
        let k = place(book.policies, book.schedules[i].policy_id);
        assert(book.policies[k].sound());
        lemma_update_keeps_order(book.policies, book.next_id, k, book.policies[k].renewed(now));
    }
    assert(seen.wf());
    let s = book.schedules[i];
    assert(s.sound());
    lemma_update_keeps_order(seen.schedules, seen.next_schedule_id, i, s.served(now));
}

/// What a sweep that got through the first `k` schedules has done to the
/// schedules: each of them that was due fitted and now stands where being
/// served puts it, every other schedule is as it was, and the identifiers
/// served are those of the due ones, in order.
pub proof fn lemma_sweep_upto(book: Register, k: nat, now: u64)
    requires
        book.wf(),
        k <= book.schedules.len(),
        book.sweep_upto(k, now) is Some,
    ensures
        ({
            let (after, served) = book.sweep_upto(k, now)->0;
            &&& after.wf()
            &&& after.schedules.len() == book.schedules.len()
            &&& after.next_schedule_id == book.next_schedule_id
            &&& after.next_id == book.next_id
            &&& after.policies.len() == book.policies.len()
            &&& forall|i: int|
                0 <= i < k && (#[trigger] book.schedules[i]).due(now) ==> {
                    &&& book.schedules[i].fits(now)
                    &&& after.schedules[i] == book.schedules[i].served(now)
                }
            &&& forall|i: int|
                0 <= i < book.schedules.len() && !(i < k && (#[trigger] book.schedules[i]).due(
                    now,
                )) ==> after.schedules[i] == book.schedules[i]
            &&& served == due_ids(book.schedules.take(k as int), now)
        }),
    decreases k,
{
    if k == 0 {
        lemma_due_ids_of_none(book.schedules, now);
    } else {
        let i = k - 1;
        lemma_sweep_upto(book, i as nat, now);
        let (mid, some) = book.sweep_upto(i as nat, now)->0;
        assert(mid.schedules[i] == book.schedules[i]);
        lemma_due_ids_step(book.schedules, now, i);
        if mid.schedules[i].due(now) {
            lemma_serve_keeps_book(mid, i, now);
        }
    }
}

proof fn lemma_nothing_due(book: Register, k: nat, now: u64)
    requires
        k <= book.schedules.len(),
        forall|i: int| 0 <= i < book.schedules.len() ==> !(#[trigger] book.schedules[i]).due(now),
    ensures
        book.sweep_upto(k, now) == Some((book, Seq::<u32>::empty())),
    decreases k,
{
    if k > 0 {
        lemma_nothing_due(book, (k - 1) as nat, now);
    }
}

/// A sweep serves exactly the schedules that are active and due, each of
/// them once, in the order of their identifiers. It moves each of them to
/// where being served puts it and leaves every other schedule alone.
pub proof fn law_sweep_serves_each_due_schedule_once(book: Register, now: u64)
    requires
        book.wf(),
        book.execute_due_premium_schedules(now).1 is Ok,
    ensures
        ({
            let (after, answer) = book.execute_due_premium_schedules(now);
            let served = answer->Ok_0;
            &&& after.wf()
            &&& served == due_ids(book.schedules, now)
            &&& forall|a: int, b: int| 0 <= a < b < served.len() ==> served[a] < served[b]
            &&& forall|i: int|
                0 <= i < book.schedules.len() ==> served.contains(
                    (#[trigger] book.schedules[i]).id,
                ) == book.schedules[i].due(now)
            &&& after.schedules.len() == book.schedules.len()
            &&& forall|i: int|
                0 <= i < book.schedules.len() ==> #[trigger] after.schedules[i] == if book.schedules[i].due(
                    now,
                ) {
                    book.schedules[i].served(now)
                } else {
                    book.schedules[i]
                }
        }),
{
    let n = book.schedules.len();
    lemma_sweep_upto(book, n, now);
    assert(book.schedules.take(n as int) =~= book.schedules);
    lemma_due_ids_ascend(book.schedules, now, n as int);
    assert forall|i: int| 0 <= i < book.schedules.len() implies due_ids(
        book.schedules,
        now,
    ).contains((#[trigger] book.schedules[i]).id) == book.schedules[i].due(now) by {
        if book.schedules[i].due(now) {
            law_due_schedules_are_served(book.schedules, i, now);
        } else {
            law_only_due_schedules_are_served(book.schedules, i, now);
        }
    }
}

/// A second sweep at the same time serves nothing and changes nothing.
pub proof fn law_sweep_is_idempotent(book: Register, now: u64)
    requires
        book.wf(),
        book.execute_due_premium_schedules(now).1 is Ok,
    ensures
        ({
            let after = book.execute_due_premium_schedules(now).0;
            after.execute_due_premium_schedules(now) == (
                after,
                Ok::<Seq<u32>, Abort>(Seq::empty()),
            )
        }),
{
    let after = book.execute_due_premium_schedules(now).0;
    let n = book.schedules.len();
    lemma_sweep_upto(book, n, now);
    assert forall|i: int| 0 <= i < after.schedules.len() implies !(
    #[trigger] after.schedules[i]).due(now) by {
        if book.schedules[i].due(now) {
            law_served_is_not_due(book.schedules[i].timer(), now);
        }
    }
    lemma_nothing_due(after, n, now);
}

/// A schedule that runs once is switched off by the sweep that serves it,
/// and a schedule that is switched off is passed over by every sweep, at
/// any time, and stays as it is.
pub proof fn law_one_time_schedule_ends(book: Register, i: int, now: u64, later: u64)
    requires
        book.wf(),
        0 <= i < book.schedules.len(),
        book.execute_due_premium_schedules(now).1 is Ok,
        book.execute_due_premium_schedules(now).0.execute_due_premium_schedules(later).1 is Ok,
        book.schedules[i].due(now),
        !book.schedules[i].timer().repeats(),
    ensures
        ({
            let (after, first) = book.execute_due_premium_schedules(now);
            let (last, second) = after.execute_due_premium_schedules(later);
            &&& !after.schedules[i].active
            &&& last.schedules[i] == after.schedules[i]
            &&& !second->Ok_0.contains(book.schedules[i].id)
        }),
{
    let (after, first) = book.execute_due_premium_schedules(now);
    let (last, second) = after.execute_due_premium_schedules(later);
    law_sweep_serves_each_due_schedule_once(book, now);
    law_sweep_serves_each_due_schedule_once(after, later);
    assert(after.schedules[i] == book.schedules[i].served(now));
    assert(!after.schedules[i].due(later));
    assert(last.schedules[i] == after.schedules[i]);
    law_only_due_schedules_are_served(after.schedules, i, later);
}

/// A schedule whose policy is gone or out of force is served all the
/// same: the policies stay as they are, the schedule is moved on or
/// switched off, and nothing but the schedule's own arithmetic can stand
/// in the way.
pub proof fn law_orphan_schedule_is_served(book: Register, i: int, now: u64)
    requires
        book.wf(),
        0 <= i < book.schedules.len(),
        !book.pays(i),
    ensures
        book.can_serve(i, now) == book.schedules[i].fits(now),
        book.serve(i, now).policies == book.policies,
        book.serve(i, now).schedules == book.schedules.update(
            i,
            book.schedules[i].served(now),
        ),
{
}

/// A schedule that is served pays a premium of the policy it names, if
/// that policy is in the book and in force: the policy's next payment is
/// then due thirty days after the sweep.
pub proof fn law_served_schedule_pays_premium(book: Register, i: int, now: u64)
    requires
        book.wf(),
        0 <= i < book.schedules.len(),
        book.pays(i),
        book.can_serve(i, now),
    ensures
        ({
            let k = place(book.policies, book.schedules[i].policy_id);
            &&& 0 <= k < book.policies.len()
            &&& book.policies[k].id == book.schedules[i].policy_id
            &&& now + 30 * 86400 <= u64::MAX
            &&& book.serve(i, now).policies == book.policies.update(
                k,
                InsurancePolicy {
                    next_payment_date: (now + 30 * 86400) as u64,
                    ..book.policies[k]
                },
            )
        }),
{
    lemma_place_holds(book.policies, book.schedules[i].policy_id);
    assert(PREMIUM_PERIOD_DAYS == 30);
}

impl Register {
    /// Whether a sweep at `now` that has got through the first `n`
    /// schedules has paid a premium of the policy at `k`: the policy is in
    /// force, and one of those schedules was due and names it.
    pub open spec fn renewed_upto(self, k: int, now: u64, n: int) -> bool {
        &&& self.policies[k].active
        &&& exists|i: int|
            0 <= i < n && (#[trigger] self.schedules[i]).due(now) && self.schedules[i].policy_id
                == self.policies[k].id
    }

    /// Whether a sweep at `now` pays a premium of the policy at `k`: the
    /// policy is in force, and a schedule that is due names it.
    pub open spec fn renewed_by_sweep(self, k: int, now: u64) -> bool {
        self.renewed_upto(k, now, self.schedules.len() as int)
    }
}

/// One schedule further along, a policy counts as paid for if it did
/// before, or if it is in force and that schedule is due and names it.
proof fn lemma_one_more_schedule(book: Register, k: int, now: u64, i: int)
    requires
        0 <= i < book.schedules.len(),
    ensures
        book.renewed_upto(k, now, i + 1) == (book.renewed_upto(k, now, i) || (
        book.policies[k].active && book.schedules[i].due(now) && book.schedules[i].policy_id
            == book.policies[k].id)),
{
    if book.renewed_upto(k, now, i + 1) && !book.renewed_upto(k, now, i) {
        let w = choose|w: int|
            0 <= w < i + 1 && (#[trigger] book.schedules[w]).due(now)
                && book.schedules[w].policy_id == book.policies[k].id;
        assert(w == i);
    }
    if book.renewed_upto(k, now, i) {
        let w = choose|w: int|
            0 <= w < i && (#[trigger] book.schedules[w]).due(now) && book.schedules[w].policy_id
                == book.policies[k].id;
        assert(0 <= w < i + 1 && book.schedules[w].due(now));
    }
}

proof fn lemma_sweep_policies(book: Register, n: nat, now: u64)
    requires
        book.wf(),
        n <= book.schedules.len(),
        book.sweep_upto(n, now) is Some,
    ensures
        ({
            let (after, served) = book.sweep_upto(n, now)->0;
            &&& after.policies.len() == book.policies.len()
            &&& forall|k: int|
                0 <= k < book.policies.len() ==> #[trigger] after.policies[k] == if book.renewed_upto(
                    k,
                    now,
                    n as int,
                ) {
                    book.policies[k].renewed(now)
                } else {
                    book.policies[k]
                }
        }),
    decreases n,
{
    if n > 0 {
        let i = n - 1;
        lemma_sweep_policies(book, i as nat, now);
        lemma_sweep_upto(book, i as nat, now);
        let (mid, some) = book.sweep_upto(i as nat, now)->0;
        let (after, served) = book.sweep_upto(n, now)->0;
        let s = book.schedules[i];
        assert(mid.schedules[i] == s);
        assert forall|k: int| 0 <= k < book.policies.len() implies #[trigger] after.policies[k]
            == if book.renewed_upto(k, now, n as int) {
            book.policies[k].renewed(now)
        } else {
            book.policies[k]
        } by {
            lemma_one_more_schedule(book, k, now, i);
            if s.due(now) {
                assert(after.policies == mid.fulfil(i, now).policies);
                assert(mid.policies[k].id == book.policies[k].id);
                assert(mid.policies[k].active == book.policies[k].active);
                if mid.pays(i) {
                    lemma_place_holds(mid.policies, s.policy_id);
                    let c = place(mid.policies, s.policy_id);
                    crate::records::lemma_place_is(mid.policies, k);
                    if c == k {
                        assert(book.policies[k].renewed(now).renewed(now) == book.policies[k].renewed(
                            now,
                        ));
                    }
                } else {
                    if s.policy_id == book.policies[k].id {
                        crate::records::lemma_place_is(mid.policies, k);
                    }
                }
            }
        }
    }
}

/// A sweep pays a premium of every policy in force that a due schedule
/// names, so that its next payment is due thirty days after the sweep,
/// and leaves every other policy as it was. It adds and removes none.
pub proof fn law_sweep_renews_named_policies(book: Register, now: u64)
    requires
        book.wf(),
        book.execute_due_premium_schedules(now).1 is Ok,
    ensures
        ({
            let after = book.execute_due_premium_schedules(now).0;
            &&& after.policies.len() == book.policies.len()
            &&& forall|k: int|
                0 <= k < book.policies.len() ==> #[trigger] after.policies[k]
                    == if book.renewed_by_sweep(k, now) {
                    InsurancePolicy {
                        next_payment_date: (now + 30 * 86400) as u64,
                        ..book.policies[k]
                    }
                } else {
                    book.policies[k]
                }
        }),
{
    lemma_sweep_policies(book, book.schedules.len(), now);
    assert(PREMIUM_PERIOD_DAYS == 30);
}

impl Register {
    /// Whether a sweep at `now` can serve the schedule at `i` within the
    /// limits, said of the book as it is before the sweep: a schedule that
    /// is due must fit, and where it has a premium to pay, the next due
    /// time of the premium must fit.
    pub open spec fn serves_within_limits(self, i: int, now: u64) -> bool {
        self.schedules[i].due(now) ==> {
            &&& self.schedules[i].fits(now)
            &&& self.pays(i) ==> Self::can_renew(now)
        }
    }
}

proof fn lemma_sweep_within_limits(book: Register, n: nat, now: u64)
    requires
        book.wf(),
        n <= book.schedules.len(),
    ensures
        book.sweep_upto(n, now) is Some == (forall|i: int|
            0 <= i < n ==> #[trigger] book.serves_within_limits(i, now)),
    decreases n,
{
    if n > 0 {
        let i = n - 1;
        lemma_sweep_within_limits(book, i as nat, now);
        if book.sweep_upto(i as nat, now) is Some {
            lemma_sweep_upto(book, i as nat, now);
            lemma_sweep_policies(book, i as nat, now);
            let (mid, some) = book.sweep_upto(i as nat, now)->0;
            let s = book.schedules[i];
            assert(mid.schedules[i] == s);
            if s.due(now) {
                if holds(book.policies, s.policy_id) {
                    lemma_place_holds(book.policies, s.policy_id);
                    let c = place(book.policies, s.policy_id);
                    assert(mid.policies[c].id == s.policy_id);
                    crate::records::lemma_place_is(mid.policies, c);
                }
                if holds(mid.policies, s.policy_id) {
                    lemma_place_holds(mid.policies, s.policy_id);
                    let c = place(mid.policies, s.policy_id);
                    assert(book.policies[c].id == s.policy_id);
                    crate::records::lemma_place_is(book.policies, c);
                }
                assert(mid.pays(i) == book.pays(i));
                assert(mid.can_serve(i, now) == book.serves_within_limits(i, now));
            }
            if book.sweep_upto(n, now) is Some {
                assert forall|j: int| 0 <= j < n implies #[trigger] book.serves_within_limits(
                    j,
                    now,
                ) by {
                    if j < i {
                        assert(book.serves_within_limits(j, now));
                    }
                }
            } else {
                assert(!book.serves_within_limits(i, now));
            }
        } else {
            let j = choose|j: int| 0 <= j < i && !#[trigger] book.serves_within_limits(j, now);
            assert(!book.serves_within_limits(j, now));
        }
    }
}

/// A sweep succeeds exactly where every schedule can be served within the
/// limits; nothing else makes it fail.
pub proof fn law_sweep_fails_only_at_limits(book: Register, now: u64)
    requires
        book.wf(),
    ensures
        book.execute_due_premium_schedules(now).1 is Ok == (forall|i: int|
            0 <= i < book.schedules.len() ==> #[trigger] book.serves_within_limits(i, now)),
        book.execute_due_premium_schedules(now).1 is Err ==> book.execute_due_premium_schedules(
            now,
        ) == (book, Err::<Seq<u32>, Abort>(Abort::Overflow)),
{
    lemma_sweep_within_limits(book, book.schedules.len(), now);
}

} // verus!
