//! What holds of the insurance book whatever is done to it.
//!
//! Each law is stated of the book as a value, over the same functions in
//! which the operations say what they do.

use crate::address::Address;
use crate::catch_up::PREMIUM_PERIOD_DAYS;
use crate::insurance::model::{is_active_of, Register};
use crate::insurance::sums::{lemma_premiums_push, premiums};
use crate::insurance::types::{Abort, InsurancePolicy};
use crate::records::{
    lemma_filter_step, lemma_place_holds, lemma_place_is, lemma_push_keeps_order, place,
};
use vstd::prelude::*;

verus! {

/// What the policy at `i` adds to the monthly premium of `owner`.
pub open spec fn premium_at(policies: Seq<InsurancePolicy>, owner: Address, i: int) -> int {
    if policies[i].active_of(owner) {
        policies[i].monthly_premium as int
    } else {
        0
    }
}

/// What the first `n` policies add to the monthly premium of `owner`.
pub open spec fn premium_upto(policies: Seq<InsurancePolicy>, owner: Address, n: nat) -> int
    decreases n,
{
    if n == 0 {
        0
    } else {
        premium_upto(policies, owner, (n - 1) as nat) + premium_at(policies, owner, n - 1)
    }
}

proof fn lemma_upto_is_premiums(policies: Seq<InsurancePolicy>, owner: Address, n: nat)
    requires
        n <= policies.len(),
    ensures
        premiums(policies.take(n as int).filter(is_active_of(owner))) == premium_upto(
            policies,
            owner,
            n,
        ),
    decreases n,
{
    if n == 0 {
        assert(policies.take(0).filter(is_active_of(owner)) =~= Seq::empty()) by {
            reveal(Seq::filter);
        }
    } else {
        lemma_upto_is_premiums(policies, owner, (n - 1) as nat);
        lemma_filter_step(policies, is_active_of(owner), n - 1);
        lemma_premiums_push(policies.take(n - 1).filter(is_active_of(owner)), policies[n - 1]);
    }
}

proof fn lemma_upto_but_one(
    a: Seq<InsurancePolicy>,
    b: Seq<InsurancePolicy>,
    owner: Address,
    k: int,
    n: nat,
)
    requires
        n <= a.len(),
        n <= b.len(),
        0 <= k,
        forall|i: int| 0 <= i < n && i != k ==> premium_at(a, owner, i) == premium_at(b, owner, i),
    ensures
        premium_upto(b, owner, n) == premium_upto(a, owner, n) + if k < n {
            premium_at(b, owner, k) - premium_at(a, owner, k)
        } else {
            0
        },
    decreases n,
{
    if n > 0 {
        lemma_upto_but_one(a, b, owner, k, (n - 1) as nat);
    }
}

/// The monthly premium of an owner is the sum of the premiums of the
/// policies that are that owner's and in force.
pub proof fn law_total_premium_sums_active_policies(book: Register, owner: Address)
    ensures
        book.total_monthly_premium(owner) == premium_upto(
            book.policies,
            owner,
            book.policies.len(),
        ),
        book.total_monthly_premium(owner) == premiums(book.active_policies(owner)),
{
    lemma_upto_is_premiums(book.policies, owner, book.policies.len());
    assert(book.policies.take(book.policies.len() as int) =~= book.policies);
}

/// A policy with a premium or a coverage that is not positive is given
/// up: the book stays as it was, and no identifier is used up.
pub proof fn law_invalid_policy_is_refused(
    book: Register,
    owner: Address,
    name: String,
    coverage_type: String,
    monthly_premium: i128,
    coverage_amount: i128,
    now: u64,
)
    requires
        monthly_premium <= 0 || coverage_amount <= 0,
    ensures
        ({
            let (after, answer) = book.create_policy(
                owner,
                name,
                coverage_type,
                monthly_premium,
                coverage_amount,
                now,
            );
            &&& after == book
            &&& after.next_id == book.next_id
            &&& answer == Err::<u32, Abort>(
                if monthly_premium <= 0 {
                    Abort::InvalidPremium
                } else {
                    Abort::InvalidCoverage
                },
            )
        }),
{
}

/// A policy that is accepted takes the identifier after the last one
/// handed out, is in force, has its first premium due thirty days on, and
/// adds its premium to what its owner pays each month and to nobody
/// else's.
pub proof fn law_new_policy_is_in_force(
    book: Register,
    owner: Address,
    name: String,
    coverage_type: String,
    monthly_premium: i128,
    coverage_amount: i128,
    now: u64,
    who: Address,
)
    requires
        book.wf(),
        book.create_policy(owner, name, coverage_type, monthly_premium, coverage_amount, now).1
            is Ok,
    ensures
        ({
            let (after, answer) = book.create_policy(
                owner,
                name,
                coverage_type,
                monthly_premium,
                coverage_amount,
                now,
            );
            &&& answer == Ok::<u32, Abort>((book.next_id + 1) as u32)
            &&& after.policy((book.next_id + 1) as u32) == Some(after.policies.last())
            &&& after.policies.last().active
            &&& after.policies.last().next_payment_date == now + 30 * 86400
            &&& after.total_monthly_premium(who) == book.total_monthly_premium(who) + if who@
                == owner@ {
                monthly_premium as int
            } else {
                0
            }
        }),
{
    let (after, answer) = book.create_policy(
        owner,
        name,
        coverage_type,
        monthly_premium,
        coverage_amount,
        now,
    );
    let n = book.policies.len();
    lemma_push_keeps_order(book.policies, book.next_id, after.policies.last());
    lemma_place_is(after.policies, n as int);
    law_total_premium_sums_active_policies(book, who);
    law_total_premium_sums_active_policies(after, who);
    lemma_upto_but_one(book.policies, after.policies, who, n as int, n);
    assert(PREMIUM_PERIOD_DAYS == 30);
}

/// Paying a premium moves the next payment of the policy to thirty days
/// after the payment and changes nothing else about any policy.
pub proof fn law_premium_renews_policy(
    book: Register,
    caller: Address,
    policy_id: u32,
    now: u64,
    who: Address,
)
    requires
        book.wf(),
        book.pay_premium(caller, policy_id, now).1 is Ok,
    ensures
        ({
            let after = book.pay_premium(caller, policy_id, now).0;
            let k = place(book.policies, policy_id);
            &&& 0 <= k < book.policies.len()
            &&& book.policies[k].id == policy_id
            &&& book.policies[k].active && book.policies[k].owner@ == caller@
            &&& after.policies == book.policies.update(
                k,
                InsurancePolicy {
                    next_payment_date: (now + 30 * 86400) as u64,
                    ..book.policies[k]
                },
            )
            &&& now + 30 * 86400 <= u64::MAX
            &&& after.total_monthly_premium(who) == book.total_monthly_premium(who)
        }),
{
    let after = book.pay_premium(caller, policy_id, now).0;
    lemma_place_holds(book.policies, policy_id);
    let k = place(book.policies, policy_id);
    assert(PREMIUM_PERIOD_DAYS == 30);
    law_total_premium_sums_active_policies(book, who);
    law_total_premium_sums_active_policies(after, who);
    lemma_upto_but_one(book.policies, after.policies, who, k, book.policies.len());
}

/// Deactivating a policy takes it out of force and its premium out of
/// what its owner pays each month.
pub proof fn law_deactivation_ends_premium(
    book: Register,
    caller: Address,
    policy_id: u32,
    who: Address,
)
    requires
        book.wf(),
        book.deactivate_policy(caller, policy_id).1 is Ok,
    ensures
        ({
            let after = book.deactivate_policy(caller, policy_id).0;
            let k = place(book.policies, policy_id);
            &&& 0 <= k < book.policies.len()
            &&& !after.policies[k].active
            &&& after.total_monthly_premium(who) == book.total_monthly_premium(who) - if who@
                == caller@ && book.policies[k].active {
                book.policies[k].monthly_premium as int
            } else {
                0
            }
        }),
{
    let after = book.deactivate_policy(caller, policy_id).0;
    lemma_place_holds(book.policies, policy_id);
    let k = place(book.policies, policy_id);
    law_total_premium_sums_active_policies(book, who);
    law_total_premium_sums_active_policies(after, who);
    lemma_upto_but_one(book.policies, after.policies, who, k, book.policies.len());
}

} // verus!
