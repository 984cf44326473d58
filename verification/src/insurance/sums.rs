//! Sums of the premiums of policies.

use crate::insurance::types::InsurancePolicy;
use crate::records::lemma_filter_step;
use vstd::prelude::*;

verus! {

/// The sum of the monthly premiums of `policies`.
pub open spec fn premiums(policies: Seq<InsurancePolicy>) -> int
    decreases policies.len(),
{
    if policies.len() == 0 {
        0
    } else {
        premiums(policies.drop_last()) + policies.last().monthly_premium
    }
}

/// One more policy adds its premium to the sum.
pub proof fn lemma_premiums_push(policies: Seq<InsurancePolicy>, policy: InsurancePolicy)
    ensures
        premiums(policies.push(policy)) == premiums(policies) + policy.monthly_premium,
{
    assert(policies.push(policy).drop_last() =~= policies);
}

/// Among policies of positive premiums, no part sums to less than nothing.
pub proof fn lemma_premiums_nonnegative(
    policies: Seq<InsurancePolicy>,
    pred: spec_fn(InsurancePolicy) -> bool,
    i: int,
)
    requires
        forall|k: int| 0 <= k < policies.len() ==> (#[trigger] policies[k]).monthly_premium > 0,
        0 <= i <= policies.len(),
    ensures
        0 <= premiums(policies.take(i).filter(pred)),
    decreases i,
{
    if i == 0 {
        assert(policies.take(0).filter(pred) =~= Seq::empty()) by {
            reveal(Seq::filter);
        }
    } else {
        lemma_premiums_nonnegative(policies, pred, i - 1);
        lemma_filter_step(policies, pred, i - 1);
        lemma_premiums_push(policies.take(i - 1).filter(pred), policies[i - 1]);
    }
}

/// Among policies of positive premiums, what a part of them sums to is at
/// most what all of them sum to.
pub proof fn lemma_premiums_grow(
    policies: Seq<InsurancePolicy>,
    pred: spec_fn(InsurancePolicy) -> bool,
    i: int,
)
    requires
        forall|k: int| 0 <= k < policies.len() ==> (#[trigger] policies[k]).monthly_premium > 0,
        0 <= i <= policies.len(),
    ensures
        0 <= premiums(policies.take(i).filter(pred)) <= premiums(policies.filter(pred)),
    decreases policies.len() - i,
{
    lemma_premiums_nonnegative(policies, pred, i);
    if i == policies.len() {
        assert(policies.take(i) =~= policies);
    } else {
        lemma_premiums_grow(policies, pred, i + 1);
        lemma_filter_step(policies, pred, i);
        lemma_premiums_push(policies.take(i).filter(pred), policies[i]);
    }
}

} // verus!
