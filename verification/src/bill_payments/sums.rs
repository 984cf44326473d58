//! Sums of the amounts of bills.

use crate::bill_payments::types::Bill;
use crate::records::lemma_filter_step;
use vstd::prelude::*;

verus! {

/// The sum of the amounts of `bills`.
pub open spec fn amounts(bills: Seq<Bill>) -> int
    decreases bills.len(),
{
    if bills.len() == 0 {
        0
    } else {
        amounts(bills.drop_last()) + bills.last().amount
    }
}

/// One more bill adds its amount to the sum.
pub proof fn lemma_amounts_push(bills: Seq<Bill>, bill: Bill)
    ensures
        amounts(bills.push(bill)) == amounts(bills) + bill.amount,
{
    assert(bills.push(bill).drop_last() =~= bills);
}

/// Among bills of positive amounts, what a part of them sums to is at
/// least nothing and at most what all of them sum to.
pub proof fn lemma_amounts_grow(bills: Seq<Bill>, pred: spec_fn(Bill) -> bool, i: int)
    requires
        forall|k: int| 0 <= k < bills.len() ==> (#[trigger] bills[k]).amount > 0,
        0 <= i <= bills.len(),
    ensures
        0 <= amounts(bills.take(i).filter(pred)) <= amounts(bills.filter(pred)),
    decreases bills.len() - i,
{
    if i == bills.len() {
        assert(bills.take(i) =~= bills);
        lemma_amounts_nonnegative(bills, pred, i);
    } else {
        lemma_amounts_grow(bills, pred, i + 1);
        lemma_filter_step(bills, pred, i);
        lemma_amounts_push(bills.take(i).filter(pred), bills[i]);
        lemma_amounts_nonnegative(bills, pred, i);
    }
}

/// Among bills of positive amounts, no part sums to less than nothing.
pub proof fn lemma_amounts_nonnegative(bills: Seq<Bill>, pred: spec_fn(Bill) -> bool, i: int)
    requires
        forall|k: int| 0 <= k < bills.len() ==> (#[trigger] bills[k]).amount > 0,
        0 <= i <= bills.len(),
    ensures
        0 <= amounts(bills.take(i).filter(pred)),
    decreases i,
{
    if i == 0 {
        assert(bills.take(0).filter(pred) =~= Seq::empty()) by {
            reveal(Seq::filter);
        }
    } else {
        lemma_amounts_nonnegative(bills, pred, i - 1);
        lemma_filter_step(bills, pred, i - 1);
        lemma_amounts_push(bills.take(i - 1).filter(pred), bills[i - 1]);
    }
}

} // verus!
