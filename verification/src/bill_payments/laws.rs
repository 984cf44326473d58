//! What holds of the bills book whatever is done to it.
//!
//! Each law is stated of the book as a value, over the same functions in
//! which the operations say what they do.

use crate::address::Address;
use crate::bill_payments::model::{is_unpaid_by, Ledger};
use crate::bill_payments::sums::{amounts, lemma_amounts_push};
use crate::bill_payments::types::{Bill, Error};
use crate::catch_up::days_after;
use crate::records::{lemma_filter_step, lemma_place_holds, place};
use vstd::prelude::*;

verus! {

/// What the bill at `i` adds to the debt of `owner`.
pub open spec fn owed_at(bills: Seq<Bill>, owner: Address, i: int) -> int {
    if bills[i].unpaid_by(owner) {
        bills[i].amount as int
    } else {
        0
    }
}

/// What the first `n` bills add to the debt of `owner`.
pub open spec fn owed_upto(bills: Seq<Bill>, owner: Address, n: nat) -> int
    decreases n,
{
    if n == 0 {
        0
    } else {
        owed_upto(bills, owner, (n - 1) as nat) + owed_at(bills, owner, n - 1)
    }
}

proof fn lemma_owed_is_amounts(bills: Seq<Bill>, owner: Address, n: nat)
    requires
        n <= bills.len(),
    ensures
        amounts(bills.take(n as int).filter(is_unpaid_by(owner))) == owed_upto(bills, owner, n),
    decreases n,
{
    if n == 0 {
        assert(bills.take(0).filter(is_unpaid_by(owner)) =~= Seq::empty()) by {
            reveal(Seq::filter);
        }
    } else {
        lemma_owed_is_amounts(bills, owner, (n - 1) as nat);
        lemma_filter_step(bills, is_unpaid_by(owner), n - 1);
        lemma_amounts_push(bills.take(n - 1).filter(is_unpaid_by(owner)), bills[n - 1]);
    }
}

proof fn lemma_owed_same(a: Seq<Bill>, b: Seq<Bill>, owner: Address, n: nat)
    requires
        n <= a.len(),
        n <= b.len(),
        forall|i: int| 0 <= i < n ==> owed_at(a, owner, i) == owed_at(b, owner, i),
    ensures
        owed_upto(a, owner, n) == owed_upto(b, owner, n),
    decreases n,
{
    if n > 0 {
        lemma_owed_same(a, b, owner, (n - 1) as nat);
    }
}

proof fn lemma_owed_but_one(a: Seq<Bill>, b: Seq<Bill>, owner: Address, k: int, n: nat)
    requires
        n <= a.len(),
        n <= b.len(),
        0 <= k,
        forall|i: int| 0 <= i < n && i != k ==> owed_at(a, owner, i) == owed_at(b, owner, i),
    ensures
        owed_upto(b, owner, n) == owed_upto(a, owner, n) + if k < n {
            owed_at(b, owner, k) - owed_at(a, owner, k)
        } else {
            0
        },
    decreases n,
{
    if n > 0 {
        lemma_owed_but_one(a, b, owner, k, (n - 1) as nat);
    }
}

/// The total that an owner has still to pay is the sum of the amounts of
/// the bills that are that owner's and open.
pub proof fn law_total_unpaid_sums_open_bills(book: Ledger, owner: Address)
    ensures
        book.total_unpaid(owner) == owed_upto(book.bills, owner, book.bills.len()),
        book.total_unpaid(owner) == amounts(book.unpaid_bills(owner)),
{
    lemma_owed_is_amounts(book.bills, owner, book.bills.len());
    assert(book.bills.take(book.bills.len() as int) =~= book.bills);
}

/// A bill with an amount that is not positive, or one that recurs without
/// a period, is refused: the book stays as it was, and no identifier is
/// used up.
pub proof fn law_invalid_bill_is_refused(
    book: Ledger,
    owner: Address,
    name: String,
    amount: i128,
    due_date: u64,
    recurring: bool,
    frequency_days: u32,
    now: u64,
)
    requires
        amount <= 0 || (recurring && frequency_days == 0),
    ensures
        ({
            let (after, answer) = book.create_bill(
                owner,
                name,
                amount,
                due_date,
                recurring,
                frequency_days,
                now,
            );
            &&& after == book
            &&& after.next_id == book.next_id
            &&& answer == Err::<u32, Error>(
                if amount <= 0 {
                    Error::InvalidAmount
                } else {
                    Error::InvalidFrequency
                },
            )
        }),
{
}

/// A bill that is accepted takes the identifier after the last one handed
/// out, is open, and adds its amount to what its owner has to pay and to
/// nobody else's debt.
pub proof fn law_new_bill_is_owed(
    book: Ledger,
    owner: Address,
    name: String,
    amount: i128,
    due_date: u64,
    recurring: bool,
    frequency_days: u32,
    now: u64,
    who: Address,
)
    requires
        book.wf(),
        book.create_bill(owner, name, amount, due_date, recurring, frequency_days, now).1 is Ok,
    ensures
        ({
            let (after, answer) = book.create_bill(
                owner,
                name,
                amount,
                due_date,
                recurring,
                frequency_days,
                now,
            );
            &&& answer == Ok::<u32, Error>((book.next_id + 1) as u32)
            &&& after.bill((book.next_id + 1) as u32) == Some(after.bills.last())
            &&& !after.bills.last().paid
            &&& after.total_unpaid(who) == book.total_unpaid(who) + if who@ == owner@ {
                amount as int
            } else {
                0
            }
        }),
{
    let (after, answer) = book.create_bill(
        owner,
        name,
        amount,
        due_date,
        recurring,
        frequency_days,
        now,
    );
    let n = book.bills.len();
    crate::records::lemma_push_keeps_order(book.bills, book.next_id, after.bills.last());
    crate::records::lemma_place_is(after.bills, n as int);
    law_total_unpaid_sums_open_bills(book, who);
    law_total_unpaid_sums_open_bills(after, who);
    lemma_owed_same(book.bills, after.bills, who, n);
}

/// Paying a bill marks it paid at the time of payment. A bill that does
/// not recur then leaves its owner's debt; one that recurs with a due time
/// `D` and a period of `F` days is followed by exactly one new bill, open,
/// due at `D + F * 86400`, of the same owner, amount and period, and tied
/// to the same schedule, so that the debt stays what it was.
pub proof fn law_paying_chains_recurring_bill(
    book: Ledger,
    caller: Address,
    bill_id: u32,
    now: u64,
    who: Address,
)
    requires
        book.wf(),
        book.pay_bill(caller, bill_id, now).1 is Ok,
    ensures
        ({
            let after = book.pay_bill(caller, bill_id, now).0;
            let k = place(book.bills, bill_id);
            let bill = book.bills[k];
            &&& 0 <= k < book.bills.len()
            &&& bill.id == bill_id && !bill.paid && bill.owner@ == caller@
            &&& after.bills[k] == bill.settled(now)
            &&& after.bills[k].paid && after.bills[k].paid_at == Some(now)
            &&& forall|i: int|
                0 <= i < book.bills.len() && i != k ==> #[trigger] after.bills[i] == book.bills[i]
            &&& !bill.recurring ==> {
                &&& after.bills.len() == book.bills.len()
                &&& after.next_id == book.next_id
                &&& after.total_unpaid(who) == book.total_unpaid(who) - if who@ == caller@ {
                    bill.amount as int
                } else {
                    0
                }
            }
            &&& bill.recurring ==> {
                &&& after.bills.len() == book.bills.len() + 1
                &&& after.next_id == book.next_id + 1
                &&& after.bills.last().id == book.next_id + 1
                &&& after.bills.last().due_date == bill.due_date + bill.frequency_days * 86400
                &&& !after.bills.last().paid
                &&& after.bills.last().paid_at is None
                &&& after.bills.last().recurring
                &&& after.bills.last().owner == bill.owner
                &&& after.bills.last().name == bill.name
                &&& after.bills.last().amount == bill.amount
                &&& after.bills.last().frequency_days == bill.frequency_days
                &&& after.bills.last().schedule_id == bill.schedule_id
                &&& after.bills.last().created_at == now
                &&& after.total_unpaid(who) == book.total_unpaid(who)
            }
        }),
{
    let after = book.pay_bill(caller, bill_id, now).0;
    lemma_place_holds(book.bills, bill_id);
    let k = place(book.bills, bill_id);
    let bill = book.bills[k];
    let n = book.bills.len();
    law_total_unpaid_sums_open_bills(book, who);
    law_total_unpaid_sums_open_bills(after, who);
    lemma_owed_but_one(book.bills, after.bills, who, k, n);
    assert(days_after(bill.due_date, bill.frequency_days) == bill.due_date + bill.frequency_days
        * 86400);
}

} // verus!
