//! Which bill a schedule pays.
//!
//! A bill names the schedule it is tied to, and a schedule pays the first
//! bill, by identifier, that names it. Several bills may name one
//! schedule: the successor of a recurring bill names the schedule of the
//! bill it follows.

use crate::bill_payments::types::Bill;
use vstd::prelude::*;

verus! {

/// Whether `bill` is tied to the schedule `schedule_id`.
pub open spec fn tied(bill: Bill, schedule_id: u32) -> bool {
    bill.schedule_id == Some(schedule_id)
}

/// Whether the bill at `k` is the first of `bills` tied to `schedule_id`.
pub open spec fn first_tied_at(bills: Seq<Bill>, schedule_id: u32, k: int) -> bool {
    &&& 0 <= k < bills.len()
    &&& tied(bills[k], schedule_id)
    &&& forall|j: int| 0 <= j < k ==> !tied(#[trigger] bills[j], schedule_id)
}

/// Where the bill that a schedule pays stands: the first of `bills` tied
/// to `schedule_id`, if any is.
pub open spec fn first_tied(bills: Seq<Bill>, schedule_id: u32) -> Option<int> {
    if exists|k: int| first_tied_at(bills, schedule_id, k) {
        Some(choose|k: int| first_tied_at(bills, schedule_id, k))
    } else {
        None
    }
}

/// The first tied bill is the only one that nothing tied comes before.
pub proof fn lemma_first_tied_is(bills: Seq<Bill>, schedule_id: u32, k: int)
    requires
        first_tied_at(bills, schedule_id, k),
    ensures
        first_tied(bills, schedule_id) == Some(k),
{
    let c = choose|c: int| first_tied_at(bills, schedule_id, c);
    assert(first_tied_at(bills, schedule_id, c));
    if c < k {
        assert(!tied(bills[c], schedule_id));
    } else if k < c {
        assert(!tied(bills[k], schedule_id));
    }
}

/// Where no bill is tied to a schedule, the schedule pays none.
pub proof fn lemma_none_tied(bills: Seq<Bill>, schedule_id: u32)
    requires
        forall|j: int| 0 <= j < bills.len() ==> !tied(#[trigger] bills[j], schedule_id),
    ensures
        first_tied(bills, schedule_id) is None,
{
    if exists|k: int| first_tied_at(bills, schedule_id, k) {
        let k = choose|k: int| first_tied_at(bills, schedule_id, k);
        assert(tied(bills[k], schedule_id));
    }
}

/// Where a schedule pays no bill, no bill is tied to it.
pub proof fn lemma_none_first_means_none_tied(bills: Seq<Bill>, schedule_id: u32, n: int)
    requires
        first_tied(bills, schedule_id) is None,
        0 <= n <= bills.len(),
    ensures
        forall|j: int| 0 <= j < n ==> !tied(#[trigger] bills[j], schedule_id),
    decreases n,
{
    if n > 0 {
        lemma_none_first_means_none_tied(bills, schedule_id, n - 1);
        if tied(bills[n - 1], schedule_id) {
            assert(first_tied_at(bills, schedule_id, n - 1));
        }
    }
}

/// A bill that changes without changing its schedule leaves every
/// schedule with the bill it paid before.
pub proof fn lemma_first_tied_update(bills: Seq<Bill>, k: int, bill: Bill, schedule_id: u32)
    requires
        0 <= k < bills.len(),
        bill.schedule_id == bills[k].schedule_id,
    ensures
        first_tied(bills.update(k, bill), schedule_id) == first_tied(bills, schedule_id),
{
    let after = bills.update(k, bill);
    match first_tied(bills, schedule_id) {
        Some(c) => {
            assert(first_tied_at(bills, schedule_id, c));
            assert forall|j: int| 0 <= j < c implies !tied(#[trigger] after[j], schedule_id) by {
                assert(!tied(bills[j], schedule_id));
            }
            assert(first_tied_at(after, schedule_id, c));
            lemma_first_tied_is(after, schedule_id, c);
        },
        None => {
            lemma_none_first_means_none_tied(bills, schedule_id, bills.len() as int);
            assert forall|j: int| 0 <= j < after.len() implies !tied(
                #[trigger] after[j],
                schedule_id,
            ) by {
                assert(!tied(bills[j], schedule_id));
            }
            lemma_none_tied(after, schedule_id);
        },
    }
}

/// A bill that joins behind a bill tied to the same schedule, or tied to
/// no schedule that a bill before it is tied to, leaves every schedule
/// with the bill it paid before.
pub proof fn lemma_first_tied_push(bills: Seq<Bill>, bill: Bill, schedule_id: u32)
    requires
        tied(bill, schedule_id) ==> first_tied(bills, schedule_id) is Some,
    ensures
        first_tied(bills.push(bill), schedule_id) == first_tied(bills, schedule_id),
{
    let after = bills.push(bill);
    match first_tied(bills, schedule_id) {
        Some(c) => {
            assert(first_tied_at(bills, schedule_id, c));
            assert forall|j: int| 0 <= j < c implies !tied(#[trigger] after[j], schedule_id) by {
                assert(!tied(bills[j], schedule_id));
            }
            assert(first_tied_at(after, schedule_id, c));
            lemma_first_tied_is(after, schedule_id, c);
        },
        None => {
            lemma_none_first_means_none_tied(bills, schedule_id, bills.len() as int);
            assert forall|j: int| 0 <= j < after.len() implies !tied(
                #[trigger] after[j],
                schedule_id,
            ) by {
                if j < bills.len() {
                    assert(!tied(bills[j], schedule_id));
                }
            }
            lemma_none_tied(after, schedule_id);
        },
    }
}

} // verus!
