//! How a bills book may differ from the book it came from.
//!
//! Whatever is done to a book, it stays well formed, identifiers are
//! never handed out twice, a bill that was paid stays paid, and a schedule
//! that was switched off stays off and never counts fewer missed
//! occurrences than before.

use crate::address::Address;
use crate::bill_payments::model::Ledger;
use crate::bill_payments::sweep_laws::{
    lemma_serve_keeps_book, lemma_settle_keeps_book, lemma_sweep_upto,
};
use crate::bill_payments::ties::{first_tied, first_tied_at};
use crate::bill_payments::types::{Bill, Schedule};
use crate::records::{
    ascending, holds, issued, lemma_place_holds, lemma_push_keeps_order,
    lemma_remove_keeps_order, lemma_update_keeps_order, lookup, place, Keyed,
};
use crate::timer::Timed;
use vstd::prelude::*;

verus! {

impl Bill {
    /// Whether this bill is a later state of the bill `before`: the same
    /// bill in all that was fixed when it was entered, and paid, at the
    /// same time, if that one was.
    pub open spec fn continues(self, before: Bill) -> bool {
        &&& self.id == before.id
        &&& self.owner == before.owner
        &&& self.name == before.name
        &&& self.amount == before.amount
        &&& self.due_date == before.due_date
        &&& self.recurring == before.recurring
        &&& self.frequency_days == before.frequency_days
        &&& self.created_at == before.created_at
        &&& before.paid ==> self.paid && self.paid_at == before.paid_at
    }
}

impl Schedule {
    /// Whether this schedule is a later state of the schedule `before`:
    /// the same schedule of the same owner, off if that one was, and with
    /// no fewer missed occurrences.
    pub open spec fn continues(self, before: Schedule) -> bool {
        &&& self.id == before.id
        &&& self.owner == before.owner
        &&& self.created_at == before.created_at
        &&& !before.active ==> !self.active
        &&& before.missed_count <= self.missed_count
    }
}

/// Whether the bills `after` may have come from the bills `before`, whose
/// counter stood at `last`: a bill found in both is a later state of
/// itself, and a bill found only afterwards has an identifier that had
/// not been handed out.
pub open spec fn bills_follow(after: Seq<Bill>, before: Seq<Bill>, last: u32) -> bool {
    forall|id: u32|
        #![trigger holds(after, id)]
        holds(after, id) ==> if holds(before, id) {
            after[place(after, id)].continues(before[place(before, id)])
        } else {
            id > last
        }
}

impl Ledger {
    /// Whether this book may have come from the book `before`.
    pub open spec fn follows(self, before: Ledger) -> bool {
        &&& before.next_id <= self.next_id
        &&& before.next_schedule_id <= self.next_schedule_id
        &&& bills_follow(self.bills, before.bills, before.next_id)
        &&& before.schedules.len() <= self.schedules.len()
        &&& forall|i: int|
            0 <= i < before.schedules.len() ==> (#[trigger] self.schedules[i]).continues(
                before.schedules[i],
            )
        &&& forall|i: int|
            before.schedules.len() <= i < self.schedules.len() ==> (
            #[trigger] self.schedules[i]).id > before.next_schedule_id
    }
}

/// Every book may have come from itself.
pub proof fn law_follows_itself(book: Ledger)
    ensures
        book.follows(book),
{
}

/// What came from a book that came from another came from that other.
pub proof fn law_follows_onward(first: Ledger, second: Ledger, third: Ledger)
    requires
        first.wf(),
        second.follows(first),
        third.follows(second),
    ensures
        third.follows(first),
{
    assert forall|id: u32| #![trigger holds(third.bills, id)] holds(third.bills, id) implies if holds(
        first.bills,
        id,
    ) {
        third.bills[place(third.bills, id)].continues(first.bills[place(first.bills, id)])
    } else {
        id > first.next_id
    } by {
        if holds(first.bills, id) {
            lemma_place_holds(first.bills, id);
            assert(1 <= first.bills[place(first.bills, id)].key() <= first.next_id);
        }
        if holds(second.bills, id) {
        }
    }
    assert forall|i: int| 0 <= i < first.schedules.len() implies (
    #[trigger] third.schedules[i]).continues(first.schedules[i]) by {
        assert(second.schedules[i].continues(first.schedules[i]));
    }
    assert forall|i: int| first.schedules.len() <= i < third.schedules.len() implies (
    #[trigger] third.schedules[i]).id > first.next_schedule_id by {
        if i < second.schedules.len() {
            assert(second.schedules[i].id > first.next_schedule_id);
            assert(third.schedules[i].continues(second.schedules[i]));
        }
    }
}

/// Bills among which one has moved to a later state of itself follow the
/// bills before.
pub proof fn lemma_bills_follow_update(bills: Seq<Bill>, last: u32, k: int, bill: Bill)
    requires
        ascending(bills),
        issued(bills, last),
        0 <= k < bills.len(),
        bill.continues(bills[k]),
    ensures
        bills_follow(bills.update(k, bill), bills, last),
{
    lemma_update_keeps_order(bills, last, k, bill);
    let after = bills.update(k, bill);
    assert forall|id: u32| #![trigger holds(after, id)] holds(after, id) implies if holds(
        bills,
        id,
    ) {
        after[place(after, id)].continues(bills[place(bills, id)])
    } else {
        id > last
    } by {
        lemma_place_holds(bills, id);
    }
}

/// Bills joined by one under a fresh identifier follow the bills before.
pub proof fn lemma_bills_follow_push(bills: Seq<Bill>, last: u32, bill: Bill)
    requires
        ascending(bills),
        issued(bills, last),
        bill.id > last,
    ensures
        bills_follow(bills.push(bill), bills, last),
{
    lemma_push_keeps_order(bills, last, bill);
    let after = bills.push(bill);
    assert forall|id: u32| #![trigger holds(after, id)] holds(after, id) implies if holds(
        bills,
        id,
    ) {
        after[place(after, id)].continues(bills[place(bills, id)])
    } else {
        id > last
    } by {
        if holds(bills, id) {
            lemma_place_holds(bills, id);
        } else {
            lemma_place_holds(after, id);
            let p = place(after, id);
            if p < bills.len() {
                assert(bills[p].key() == id);
            }
        }
    }
}

/// Bills that lost one of their number follow the bills before.
pub proof fn lemma_bills_follow_remove(bills: Seq<Bill>, last: u32, k: int)
    requires
        ascending(bills),
        issued(bills, last),
        0 <= k < bills.len(),
    ensures
        bills_follow(bills.remove(k), bills, last),
{
    lemma_remove_keeps_order(bills, last, k);
    let after = bills.remove(k);
    assert forall|id: u32| #![trigger holds(after, id)] holds(after, id) implies if holds(
        bills,
        id,
    ) {
        after[place(after, id)].continues(bills[place(bills, id)])
    } else {
        id > last
    } by {
        assert(id != bills[k].key());
        assert(holds(bills, id));
        assert(lookup(after, id) == lookup(bills, id));
    }
}

/// Bills that follow bills that follow others follow those others.
pub proof fn lemma_bills_follow_onward(
    first: Seq<Bill>,
    first_last: u32,
    second: Seq<Bill>,
    second_last: u32,
    third: Seq<Bill>,
)
    requires
        issued(first, first_last),
        first_last <= second_last,
        bills_follow(second, first, first_last),
        bills_follow(third, second, second_last),
    ensures
        bills_follow(third, first, first_last),
{
    assert forall|id: u32| #![trigger holds(third, id)] holds(third, id) implies if holds(
        first,
        id,
    ) {
        third[place(third, id)].continues(first[place(first, id)])
    } else {
        id > first_last
    } by {
        if holds(first, id) {
            lemma_place_holds(first, id);
            assert(1 <= first[place(first, id)].key() <= first_last);
        }
        if holds(second, id) {
        }
    }
}

/// Settling a bill gives a book that may have come from the book before.
pub proof fn lemma_settle_follows(book: Ledger, k: int, now: u64)
    requires
        book.wf(),
        0 <= k < book.bills.len(),
        !book.bills[k].paid,
        book.can_settle(k),
    ensures
        book.settle(k, now).follows(book),
{
    let bill = book.bills[k];
    let marked = book.bills.update(k, bill.settled(now));
    assert(bill.sound());
    lemma_bills_follow_update(book.bills, book.next_id, k, bill.settled(now));
    lemma_update_keeps_order(book.bills, book.next_id, k, bill.settled(now));
    if bill.recurring {
        let next = bill.successor((book.next_id + 1) as u32, now);
        lemma_bills_follow_push(marked, book.next_id, next);
        lemma_bills_follow_onward(
            book.bills,
            book.next_id,
            marked,
            book.next_id,
            marked.push(next),
        );
    }
}

/// Serving a schedule gives a book that may have come from the book
/// before.
pub proof fn lemma_serve_follows(book: Ledger, i: int, now: u64)
    requires
        book.wf(),
        0 <= i < book.schedules.len(),
        book.schedules[i].due(now),
        book.can_serve(i, now),
    ensures
        book.serve(i, now).follows(book),
{
    lemma_serve_keeps_book(book, i, now);
    match first_tied(book.bills, book.schedules[i].id) {
        Some(k) => {
            assert(first_tied_at(book.bills, book.schedules[i].id, k));
            if !book.bills[k].paid {
                lemma_settle_follows(book, k, now);
            }
        },
        None => {},
    }
    let seen = book.fulfil(i, now);
    assert(bills_follow(seen.bills, book.bills, book.next_id));
    let after = book.serve(i, now);
    assert(after.bills == seen.bills);
    assert forall|j: int| 0 <= j < book.schedules.len() implies (
    #[trigger] after.schedules[j]).continues(book.schedules[j]) by {
        if j == i {
            crate::timer::law_served_is_not_due(book.schedules[i].timer(), now);
        }
    }
}

proof fn lemma_sweep_follows(book: Ledger, k: nat, now: u64)
    requires
        book.wf(),
        k <= book.schedules.len(),
        book.sweep_upto(k, now) is Some,
    ensures
        ({
            let (after, served) = book.sweep_upto(k, now)->0;
            after.follows(book)
        }),
    decreases k,
{
    if k > 0 {
        let i = k - 1;
        lemma_sweep_follows(book, i as nat, now);
        lemma_sweep_upto(book, i as nat, now);
        let (mid, some) = book.sweep_upto(i as nat, now)->0;
        if mid.schedules[i].due(now) {
            lemma_serve_follows(mid, i, now);
            law_follows_onward(book, mid, mid.serve(i, now));
        }
    }
}

/// Entering a bill gives a well-formed book that may have come from the
/// book before.
pub proof fn law_create_bill_follows(
    book: Ledger,
    owner: Address,
    name: String,
    amount: i128,
    due_date: u64,
    recurring: bool,
    frequency_days: u32,
    now: u64,
)
    requires
        book.wf(),
    ensures
        book.create_bill(owner, name, amount, due_date, recurring, frequency_days, now).0.follows(
            book,
        ),
        book.create_bill(owner, name, amount, due_date, recurring, frequency_days, now).0.wf(),
{
    let after = book.create_bill(owner, name, amount, due_date, recurring, frequency_days, now).0;
    if after != book {
        lemma_bills_follow_push(book.bills, book.next_id, after.bills.last());
        assert(after.bills == book.bills.push(after.bills.last()));
        lemma_push_keeps_order(book.bills, book.next_id, after.bills.last());
    }
}

/// Paying a bill gives a well-formed book that may have come from the
/// book before.
pub proof fn law_pay_bill_follows(book: Ledger, caller: Address, bill_id: u32, now: u64)
    requires
        book.wf(),
    ensures
        book.pay_bill(caller, bill_id, now).0.follows(book),
        book.pay_bill(caller, bill_id, now).0.wf(),
{
    if book.pay_bill(caller, bill_id, now).1 is Ok {
        lemma_place_holds(book.bills, bill_id);
        lemma_settle_follows(book, place(book.bills, bill_id), now);
        lemma_settle_keeps_book(book, place(book.bills, bill_id), now);
    }
}

/// Taking a bill out gives a well-formed book that may have come from
/// the book before.
pub proof fn law_cancel_bill_follows(book: Ledger, bill_id: u32)
    requires
        book.wf(),
    ensures
        book.cancel_bill(bill_id).0.follows(book),
        book.cancel_bill(bill_id).0.wf(),
{
    if holds(book.bills, bill_id) {
        lemma_place_holds(book.bills, bill_id);
        let k = place(book.bills, bill_id);
        lemma_bills_follow_remove(book.bills, book.next_id, k);
        lemma_remove_keeps_order(book.bills, book.next_id, k);
        let after = book.bills.remove(k);
        assert forall|i: int| 0 <= i < after.len() implies (#[trigger] after[i]).sound() by {
            let at = if i < k { i } else { i + 1 };
            assert(book.bills[at].sound());
        }
    }
}

/// Entering a schedule gives a well-formed book that may have come from
/// the book before.
pub proof fn law_create_schedule_follows(
    book: Ledger,
    owner: Address,
    bill_id: u32,
    next_due: u64,
    interval: u64,
    now: u64,
)
    requires
        book.wf(),
    ensures
        book.create_schedule(owner, bill_id, next_due, interval, now).0.follows(book),
        book.create_schedule(owner, bill_id, next_due, interval, now).0.wf(),
{
    if book.create_schedule(owner, bill_id, next_due, interval, now).1 is Ok {
        lemma_place_holds(book.bills, bill_id);
        let k = place(book.bills, bill_id);
        let id = (book.next_schedule_id + 1) as u32;
        let after = book.create_schedule(owner, bill_id, next_due, interval, now).0;
        lemma_bills_follow_update(
            book.bills,
            book.next_id,
            k,
            Bill { schedule_id: Some(id), ..book.bills[k] },
        );
        lemma_update_keeps_order(
            book.bills,
            book.next_id,
            k,
            Bill { schedule_id: Some(id), ..book.bills[k] },
        );
        lemma_push_keeps_order(book.schedules, book.next_schedule_id, after.schedules.last());
        assert(book.bills[k].sound());
    }
}

/// Changing a schedule gives a well-formed book that may have come from
/// the book before.
pub proof fn law_modify_schedule_follows(
    book: Ledger,
    caller: Address,
    schedule_id: u32,
    next_due: u64,
    interval: u64,
    now: u64,
)
    requires
        book.wf(),
    ensures
        book.modify_schedule(caller, schedule_id, next_due, interval, now).0.follows(book),
        book.modify_schedule(caller, schedule_id, next_due, interval, now).0.wf(),
{
    if holds(book.schedules, schedule_id) {
        lemma_place_holds(book.schedules, schedule_id);
        let k = place(book.schedules, schedule_id);
        lemma_update_keeps_order(
            book.schedules,
            book.next_schedule_id,
            k,
            book.schedules[k].with_timer(book.schedules[k].timer().reset(next_due, interval)),
        );
    }
}

/// Switching a schedule off gives a well-formed book that may have come
/// from the book before.
pub proof fn law_cancel_schedule_follows(book: Ledger, caller: Address, schedule_id: u32)
    requires
        book.wf(),
    ensures
        book.cancel_schedule(caller, schedule_id).0.follows(book),
        book.cancel_schedule(caller, schedule_id).0.wf(),
{
    if holds(book.schedules, schedule_id) {
        lemma_place_holds(book.schedules, schedule_id);
        let k = place(book.schedules, schedule_id);
        assert(book.schedules[k].sound());
        lemma_update_keeps_order(
            book.schedules,
            book.next_schedule_id,
            k,
            book.schedules[k].with_timer(book.schedules[k].timer().stopped()),
        );
    }
}

/// A sweep gives a well-formed book that may have come from the book
/// before.
pub proof fn law_sweep_follows(book: Ledger, now: u64)
    requires
        book.wf(),
    ensures
        book.execute_due_schedules(now).0.follows(book),
        book.execute_due_schedules(now).0.wf(),
{
    if book.execute_due_schedules(now).1 is Ok {
        lemma_sweep_follows(book, book.schedules.len(), now);
        lemma_sweep_upto(book, book.schedules.len(), now);
    }
}

} // verus!
