//! What holds of a sweep over the bills book.

use crate::bill_payments::model::Ledger;
use crate::bill_payments::ties::{
    first_tied, first_tied_at, lemma_first_tied_push, lemma_first_tied_update,
    lemma_none_first_means_none_tied, tied,
};
use crate::bill_payments::types::{Bill, Error};
use crate::catch_up::days_after;
use crate::timer::{
    due_ids, law_due_schedules_are_served, law_only_due_schedules_are_served,
    law_served_is_not_due, lemma_due_ids_ascend,
    lemma_due_ids_of_none, lemma_due_ids_step, Timed,
};
use crate::records::{lemma_push_keeps_order, lemma_update_keeps_order, Keyed};
use vstd::prelude::*;

verus! {

/// Settling a bill keeps the book well formed, and touches nothing but
/// the bills and the counter of their identifiers.
pub proof fn lemma_settle_keeps_book(book: Ledger, k: int, now: u64)
    requires
        book.wf(),
        0 <= k < book.bills.len(),
        book.can_settle(k),
    ensures
        book.settle(k, now).wf(),
        book.settle(k, now).schedules == book.schedules,
        book.settle(k, now).next_schedule_id == book.next_schedule_id,
        book.settle(k, now).notices == book.notices,
        book.settle(k, now).next_id >= book.next_id,
        book.settle(k, now).bills.len() >= book.bills.len(),
{
    let bill = book.bills[k];
    assert(bill.sound());
    lemma_update_keeps_order(book.bills, book.next_id, k, bill.settled(now));
    if bill.recurring {
        lemma_push_keeps_order(
            book.bills.update(k, bill.settled(now)),
            book.next_id,
            bill.successor((book.next_id + 1) as u32, now),
        );
    }
}

/// Serving a schedule keeps the book well formed, moves that schedule and
/// no other, and hands out no schedule identifier.
pub proof fn lemma_serve_keeps_book(book: Ledger, i: int, now: u64)
    requires
        book.wf(),
        0 <= i < book.schedules.len(),
        book.can_serve(i, now),
    ensures
        book.serve(i, now).wf(),
        book.serve(i, now).schedules == book.schedules.update(i, book.schedules[i].served(now)),
        book.serve(i, now).next_schedule_id == book.next_schedule_id,
        book.serve(i, now).next_id >= book.next_id,
        book.serve(i, now).bills.len() >= book.bills.len(),
{
    let seen = book.fulfil(i, now);
    match first_tied(book.bills, book.schedules[i].id) {
        Some(k) => {
            assert(0 <= k < book.bills.len()) by {
                assert(first_tied_at(book.bills, book.schedules[i].id, k));
            }
            if !book.bills[k].paid {
                lemma_settle_keeps_book(book, k, now);
            }
        },
        None => {},
    }
    assert(seen.wf());
    assert(seen.schedules == book.schedules);
    let s = book.schedules[i];
    assert(s.sound());
    lemma_update_keeps_order(seen.schedules, seen.next_schedule_id, i, s.served(now));
}

/// What a sweep that got through the first `k` schedules has done to the
/// schedules: each of them that was due fitted and now stands where being
/// served puts it, every other schedule is as it was, and the identifiers
/// served are those of the due ones, in order.
pub proof fn lemma_sweep_upto(book: Ledger, k: nat, now: u64)
    requires
        book.wf(),
        k <= book.schedules.len(),
        book.sweep_upto(k, now) is Some,
    ensures
        ({
            let (after, served) = book.sweep_upto(k, now)->0;
            &&& after.wf()
            &&& after.schedules.len() == book.schedules.len()
            &&& after.next_schedule_id == book.next_schedule_id
            &&& after.next_id >= book.next_id
            &&& after.bills.len() >= book.bills.len()
            &&& forall|i: int|
                0 <= i < k && (#[trigger] book.schedules[i]).due(now) ==> {
                    &&& book.schedules[i].fits(now)
                    &&& after.schedules[i] == book.schedules[i].served(now)
                }
            &&& forall|i: int|
                0 <= i < book.schedules.len() && !(i < k && (#[trigger] book.schedules[i]).due(
                    now,
                )) ==> after.schedules[i] == book.schedules[i]
            &&& served == due_ids(book.schedules.take(k as int), now)
        }),
    decreases k,
{
    if k == 0 {
        lemma_due_ids_of_none(book.schedules, now);
    } else {
        let i = k - 1;
        lemma_sweep_upto(book, i as nat, now);
        let (mid, some) = book.sweep_upto(i as nat, now)->0;
        assert(mid.schedules[i] == book.schedules[i]);
        lemma_due_ids_step(book.schedules, now, i);
        if mid.schedules[i].due(now) {
            lemma_serve_keeps_book(mid, i, now);
        }
    }
}

proof fn lemma_nothing_due(book: Ledger, k: nat, now: u64)
    requires
        k <= book.schedules.len(),
        forall|i: int| 0 <= i < book.schedules.len() ==> !(#[trigger] book.schedules[i]).due(now),
    ensures
        book.sweep_upto(k, now) == Some((book, Seq::<u32>::empty())),
    decreases k,
{
    if k > 0 {
        lemma_nothing_due(book, (k - 1) as nat, now);
    }
}

/// A sweep serves exactly the schedules that are active and due, each of
/// them once, in the order of their identifiers. It moves each of them to
/// where being served puts it and leaves every other schedule alone.
pub proof fn law_sweep_serves_each_due_schedule_once(book: Ledger, now: u64)
    requires
        book.wf(),
        book.execute_due_schedules(now).1 is Ok,
    ensures
        ({
            let (after, answer) = book.execute_due_schedules(now);
            let served = answer->Ok_0;
            &&& after.wf()
            &&& served == due_ids(book.schedules, now)
            &&& forall|a: int, b: int| 0 <= a < b < served.len() ==> served[a] < served[b]
            &&& forall|i: int|
                0 <= i < book.schedules.len() ==> served.contains(
                    (#[trigger] book.schedules[i]).id,
                ) == book.schedules[i].due(now)
            &&& after.schedules.len() == book.schedules.len()
            &&& forall|i: int|
                0 <= i < book.schedules.len() ==> #[trigger] after.schedules[i] == if book.schedules[i].due(
                    now,
                ) {
                    book.schedules[i].served(now)
                } else {
                    book.schedules[i]
                }
        }),
{
    let n = book.schedules.len();
    lemma_sweep_upto(book, n, now);
    assert(book.schedules.take(n as int) =~= book.schedules);
    lemma_due_ids_ascend(book.schedules, now, n as int);
    assert forall|i: int| 0 <= i < book.schedules.len() implies due_ids(
        book.schedules,
        now,
    ).contains((#[trigger] book.schedules[i]).id) == book.schedules[i].due(now) by {
        if book.schedules[i].due(now) {
            law_due_schedules_are_served(book.schedules, i, now);
        } else {
            law_only_due_schedules_are_served(book.schedules, i, now);
        }
    }
}

/// A second sweep at the same time serves nothing and changes nothing.
pub proof fn law_sweep_is_idempotent(book: Ledger, now: u64)
    requires
        book.wf(),
        book.execute_due_schedules(now).1 is Ok,
    ensures
        ({
            let after = book.execute_due_schedules(now).0;
            after.execute_due_schedules(now) == (after, Ok::<Seq<u32>, Error>(Seq::empty()))
        }),
{
    let after = book.execute_due_schedules(now).0;
    let n = book.schedules.len();
    lemma_sweep_upto(book, n, now);
    assert forall|i: int| 0 <= i < after.schedules.len() implies !(
    #[trigger] after.schedules[i]).due(now) by {
        if book.schedules[i].due(now) {
            law_served_is_not_due(book.schedules[i].timer(), now);
        }
    }
    lemma_nothing_due(after, n, now);
}

/// A schedule that runs once is switched off by the sweep that serves it,
/// and a schedule that is switched off is passed over by every sweep, at
/// any time, and stays as it is.
pub proof fn law_one_time_schedule_ends(book: Ledger, i: int, now: u64, later: u64)
    requires
        book.wf(),
        0 <= i < book.schedules.len(),
        book.execute_due_schedules(now).1 is Ok,
        book.execute_due_schedules(now).0.execute_due_schedules(later).1 is Ok,
        book.schedules[i].due(now),
        !book.schedules[i].timer().repeats(),
    ensures
        ({
            let (after, first) = book.execute_due_schedules(now);
            let (last, second) = after.execute_due_schedules(later);
            &&& !after.schedules[i].active
            &&& last.schedules[i] == after.schedules[i]
            &&& !second->Ok_0.contains(book.schedules[i].id)
        }),
{
    let (after, first) = book.execute_due_schedules(now);
    let (last, second) = after.execute_due_schedules(later);
    law_sweep_serves_each_due_schedule_once(book, now);
    law_sweep_serves_each_due_schedule_once(after, later);
    assert(after.schedules[i] == book.schedules[i].served(now));
    assert(!after.schedules[i].due(later));
    assert(last.schedules[i] == after.schedules[i]);
    law_only_due_schedules_are_served(after.schedules, i, later);
}

/// A schedule whose bill is gone is served all the same: the bills stay
/// as they are, the schedule is moved on or switched off, and nothing but
/// the schedule's own arithmetic can stand in the way.
pub proof fn law_orphan_schedule_is_served(book: Ledger, i: int, now: u64)
    requires
        book.wf(),
        0 <= i < book.schedules.len(),
        book.bill_of_schedule(book.schedules[i].id) is None,
    ensures
        book.can_serve(i, now) == book.schedules[i].fits(now),
        book.serve(i, now).bills == book.bills,
        book.serve(i, now).next_id == book.next_id,
        book.serve(i, now).schedules == book.schedules.update(
            i,
            book.schedules[i].served(now),
        ),
{
}

impl Ledger {
    /// Whether a sweep at `now` that has got through the first `n`
    /// schedules has settled the bill at `k`: the bill was open, and one
    /// of those schedules was due and pays this bill.
    pub open spec fn settled_upto(self, k: int, now: u64, n: int) -> bool {
        &&& !self.bills[k].paid
        &&& exists|i: int|
            0 <= i < n && (#[trigger] self.schedules[i]).due(now) && first_tied(
                self.bills,
                self.schedules[i].id,
            ) == Some(k)
    }

    /// Whether `bill` is the successor of a recurring bill that a sweep at
    /// `now` has settled by the time it has got through the first `n`
    /// schedules.
    pub open spec fn chained_upto(self, bill: Bill, now: u64, n: int) -> bool {
        exists|p: int|
            0 <= p < self.bills.len() && self.settled_upto(p, now, n) && (
            #[trigger] self.bills[p]).recurring && bill == self.bills[p].successor(bill.id, now)
    }

    /// Whether a sweep at `now` settles the bill at `k`: the bill is open,
    /// and a schedule that is due pays it.
    pub open spec fn settled_by_sweep(self, k: int, now: u64) -> bool {
        self.settled_upto(k, now, self.schedules.len() as int)
    }
}

/// Settling a bill leaves every schedule with the bill it paid before.
pub proof fn lemma_settle_keeps_ties(book: Ledger, k: int, now: u64, schedule_id: u32)
    requires
        0 <= k < book.bills.len(),
    ensures
        first_tied(book.settle(k, now).bills, schedule_id) == first_tied(book.bills, schedule_id),
{
    let bill = book.bills[k];
    let marked = book.bills.update(k, bill.settled(now));
    lemma_first_tied_update(book.bills, k, bill.settled(now), schedule_id);
    if bill.recurring {
        let next = bill.successor((book.next_id + 1) as u32, now);
        if tied(next, schedule_id) {
            assert(tied(marked[k], schedule_id));
            if first_tied(marked, schedule_id) is None {
                lemma_none_first_means_none_tied(marked, schedule_id, marked.len() as int);
            }
        }
        lemma_first_tied_push(marked, next, schedule_id);
    }
}

proof fn lemma_sweep_bills(book: Ledger, n: nat, now: u64)
    requires
        book.wf(),
        n <= book.schedules.len(),
        book.sweep_upto(n, now) is Some,
    ensures
        ({
            let (after, served) = book.sweep_upto(n, now)->0;
            &&& after.bills.len() >= book.bills.len()
            &&& forall|schedule_id: u32| #[trigger]
                first_tied(after.bills, schedule_id) == first_tied(book.bills, schedule_id)
            &&& forall|k: int|
                0 <= k < book.bills.len() ==> #[trigger] after.bills[k] == if book.settled_upto(
                    k,
                    now,
                    n as int,
                ) {
                    book.bills[k].settled(now)
                } else {
                    book.bills[k]
                }
            &&& forall|k: int|
                book.bills.len() <= k < after.bills.len() ==> book.chained_upto(
                    #[trigger] after.bills[k],
                    now,
                    n as int,
                )
        }),
    decreases n,
{
    if n > 0 {
        let i = n - 1;
        lemma_sweep_bills(book, i as nat, now);
        assert forall|bill: Bill|
            book.chained_upto(bill, now, i) implies book.chained_upto(bill, now, n as int) by {
            let p = choose|p: int|
                0 <= p < book.bills.len() && book.settled_upto(p, now, i) && (
                #[trigger] book.bills[p]).recurring && bill == book.bills[p].successor(
                    bill.id,
                    now,
                );
            lemma_one_more_schedule(book, p, now, i);
        }
        lemma_sweep_upto(book, i as nat, now);
        let (mid, some) = book.sweep_upto(i as nat, now)->0;
        let (after, served) = book.sweep_upto(n, now)->0;
        let s = book.schedules[i];
        assert(mid.schedules[i] == s);
        if !s.due(now) {
            assert forall|k: int| 0 <= k < book.bills.len() implies book.settled_upto(
                k,
                now,
                n as int,
            ) == book.settled_upto(k, now, i) by {
                lemma_one_more_schedule(book, k, now, i);
            }
        } else {
            let tie = first_tied(book.bills, s.id);
            assert(first_tied(mid.bills, s.id) == tie);
            assert(after.bills == mid.fulfil(i, now).bills);
            match tie {
                None => {
                    assert forall|k: int| 0 <= k < book.bills.len() implies book.settled_upto(
                        k,
                        now,
                        n as int,
                    ) == book.settled_upto(k, now, i) by {
                        lemma_one_more_schedule(book, k, now, i);
                    }
                },
                Some(c) => {
                    assert(first_tied_at(book.bills, s.id, c));
                    lemma_not_settled_before(book, c, now, i);
                    assert(mid.bills[c] == book.bills[c]);
                    assert forall|k: int| 0 <= k < book.bills.len() && k != c implies book.settled_upto(
                        k,
                        now,
                        n as int,
                    ) == book.settled_upto(k, now, i) by {
                        lemma_one_more_schedule(book, k, now, i);
                    }
                    lemma_one_more_schedule(book, c, now, i);
                    if !mid.bills[c].paid {
                        assert forall|schedule_id: u32| #[trigger]
                            first_tied(after.bills, schedule_id) == first_tied(
                                book.bills,
                                schedule_id,
                            ) by {
                            lemma_settle_keeps_ties(mid, c, now, schedule_id);
                        }
                        assert(book.settled_upto(c, now, n as int));
                        assert forall|k: int|
                            book.bills.len() <= k < after.bills.len() implies book.chained_upto(
                            #[trigger] after.bills[k],
                            now,
                            n as int,
                        ) by {
                            if k < mid.bills.len() {
                                assert(after.bills[k] == mid.bills[k]);
                                assert(book.chained_upto(mid.bills[k], now, i));
                            } else {
                                assert(book.bills[c].recurring);
                                assert(after.bills[k] == book.bills[c].successor(
                                    after.bills[k].id,
                                    now,
                                ));
                            }
                        }
                    }
                },
            }
        }
    }
}

/// One schedule further along, a bill counts as settled if it did
/// before, or if it is open and that schedule is due and pays it.
proof fn lemma_one_more_schedule(book: Ledger, k: int, now: u64, i: int)
    requires
        0 <= i < book.schedules.len(),
    ensures
        book.settled_upto(k, now, i + 1) == (book.settled_upto(k, now, i) || (!book.bills[k].paid
            && book.schedules[i].due(now) && first_tied(book.bills, book.schedules[i].id) == Some(
            k,
        ))),
{
    if book.settled_upto(k, now, i + 1) && !book.settled_upto(k, now, i) {
        let w = choose|w: int|
            0 <= w < i + 1 && (#[trigger] book.schedules[w]).due(now) && first_tied(
                book.bills,
                book.schedules[w].id,
            ) == Some(k);
        assert(w == i);
    }
    if book.settled_upto(k, now, i) {
        let w = choose|w: int|
            0 <= w < i && (#[trigger] book.schedules[w]).due(now) && first_tied(
                book.bills,
                book.schedules[w].id,
            ) == Some(k);
        assert(0 <= w < i + 1 && book.schedules[w].due(now));
    }
}

/// The bill that the schedule at `i` pays is paid by no schedule before
/// it.
proof fn lemma_not_settled_before(book: Ledger, c: int, now: u64, i: int)
    requires
        book.wf(),
        0 <= i < book.schedules.len(),
        first_tied(book.bills, book.schedules[i].id) == Some(c),
    ensures
        !book.settled_upto(c, now, i),
{
    if book.settled_upto(c, now, i) {
        let w = choose|w: int|
            0 <= w < i && (#[trigger] book.schedules[w]).due(now) && first_tied(
                book.bills,
                book.schedules[w].id,
            ) == Some(c);
        assert(first_tied_at(book.bills, book.schedules[w].id, c));
        assert(first_tied_at(book.bills, book.schedules[i].id, c));
        assert(book.schedules[w].key() < book.schedules[i].key());
    }
}

/// A sweep settles, at the time of the sweep, every open bill that a due
/// schedule pays, and leaves every other bill that was in the book as it
/// was. Every bill that it adds is the successor of a recurring bill it
/// settled. Each schedule pays the same bill after the sweep as before.
pub proof fn law_sweep_settles_tied_bills(book: Ledger, now: u64)
    requires
        book.wf(),
        book.execute_due_schedules(now).1 is Ok,
    ensures
        ({
            let after = book.execute_due_schedules(now).0;
            &&& after.bills.len() >= book.bills.len()
            &&& forall|k: int|
                0 <= k < book.bills.len() ==> #[trigger] after.bills[k] == if book.settled_by_sweep(
                    k,
                    now,
                ) {
                    book.bills[k].settled(now)
                } else {
                    book.bills[k]
                }
            &&& forall|k: int|
                book.bills.len() <= k < after.bills.len() ==> book.chained_upto(
                    #[trigger] after.bills[k],
                    now,
                    book.schedules.len() as int,
                )
            &&& forall|schedule_id: u32| #[trigger]
                after.bill_of_schedule(schedule_id) == book.bill_of_schedule(schedule_id)
        }),
{
    let after = book.execute_due_schedules(now).0;
    lemma_sweep_bills(book, book.schedules.len(), now);
    assert forall|schedule_id: u32| #[trigger]
        after.bill_of_schedule(schedule_id) == book.bill_of_schedule(schedule_id) by {
        assert(first_tied(after.bills, schedule_id) == first_tied(book.bills, schedule_id));
        match first_tied(book.bills, schedule_id) {
            Some(c) => {
                assert(first_tied_at(book.bills, schedule_id, c));
                assert(after.bills[c].id == book.bills[c].id);
            },
            None => {},
        }
    }
}

impl Ledger {
    /// Whether the schedule at `i`, served in a sweep at `now`, settles a
    /// recurring bill and so brings a successor into the book.
    pub open spec fn chains_at(self, i: int, now: u64) -> bool {
        &&& self.schedules[i].due(now)
        &&& first_tied(self.bills, self.schedules[i].id) matches Some(c)
        &&& !self.bills[c].paid
        &&& self.bills[c].recurring
    }

    /// How many successors a sweep at `now` has brought into the book by
    /// the time it has got through the first `n` schedules.
    pub open spec fn chained_before(self, n: nat, now: u64) -> nat
        decreases n,
    {
        if n == 0 {
            0
        } else {
            self.chained_before((n - 1) as nat, now) + if self.chains_at(n - 1, now) {
                1nat
            } else {
                0nat
            }
        }
    }

    /// Whether a sweep at `now` can serve the schedule at `i` within the
    /// limits, said of the book as it is before the sweep: a schedule that
    /// is due must fit, and where it settles a recurring bill, the due time
    /// of the successor must fit and an identifier must be left for it
    /// after those taken by the successors that the sweep brings before.
    pub open spec fn serves_within_limits(self, i: int, now: u64) -> bool {
        self.schedules[i].due(now) ==> {
            &&& self.schedules[i].fits(now)
            &&& self.chains_at(i, now) ==> {
                let c = first_tied(self.bills, self.schedules[i].id)->0;
                &&& days_after(self.bills[c].due_date, self.bills[c].frequency_days) <= u64::MAX
                &&& self.next_id + self.chained_before(i as nat, now) < u32::MAX
            }
        }
    }
}

proof fn lemma_sweep_within_limits(book: Ledger, n: nat, now: u64)
    requires
        book.wf(),
        n <= book.schedules.len(),
    ensures
        book.sweep_upto(n, now) is Some == (forall|i: int|
            0 <= i < n ==> #[trigger] book.serves_within_limits(i, now)),
        book.sweep_upto(n, now) is Some ==> ({
            let (after, served) = book.sweep_upto(n, now)->0;
            after.next_id == book.next_id + book.chained_before(n, now)
        }),
    decreases n,
{
    if n > 0 {
        let i = n - 1;
        lemma_sweep_within_limits(book, i as nat, now);
        if book.sweep_upto(i as nat, now) is Some {
            lemma_sweep_upto(book, i as nat, now);
            lemma_sweep_bills(book, i as nat, now);
            let (mid, some) = book.sweep_upto(i as nat, now)->0;
            let s = book.schedules[i];
            assert(mid.schedules[i] == s);
            if s.due(now) {
                assert(first_tied(mid.bills, s.id) == first_tied(book.bills, s.id));
                match first_tied(book.bills, s.id) {
                    Some(c) => {
                        assert(first_tied_at(book.bills, s.id, c));
                        lemma_not_settled_before(book, c, now, i);
                        assert(mid.bills[c] == book.bills[c]);
                    },
                    None => {},
                }
                assert(mid.can_serve(i, now) == book.serves_within_limits(i, now));
            }
            if book.sweep_upto(n, now) is Some {
                assert forall|j: int| 0 <= j < n implies #[trigger] book.serves_within_limits(
                    j,
                    now,
                ) by {
                    if j < i {
                        assert(book.serves_within_limits(j, now));
                    }
                }
            } else {
                assert(!book.serves_within_limits(i, now));
            }
        } else {
            let j = choose|j: int| 0 <= j < i && !#[trigger] book.serves_within_limits(j, now);
            assert(!book.serves_within_limits(j, now));
        }
    }
}

/// A sweep succeeds exactly where every schedule can be served within the
/// limits; nothing else makes it fail.
pub proof fn law_sweep_fails_only_at_limits(book: Ledger, now: u64)
    requires
        book.wf(),
    ensures
        book.execute_due_schedules(now).1 is Ok == (forall|i: int|
            0 <= i < book.schedules.len() ==> #[trigger] book.serves_within_limits(i, now)),
        book.execute_due_schedules(now).1 is Err ==> book.execute_due_schedules(now) == (
            book,
            Err::<Seq<u32>, Error>(Error::Overflow),
        ),
{
    lemma_sweep_within_limits(book, book.schedules.len(), now);
}

} // verus!
