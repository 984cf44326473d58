//! The bills book as it is held in memory.

use crate::address::Address;
use crate::bill_payments::model::{is_overdue, is_schedule_of, is_unpaid_by, Ledger};
use crate::bill_payments::sums::{amounts, lemma_amounts_grow, lemma_amounts_push};
use crate::bill_payments::ties::{
    first_tied, first_tied_at, lemma_first_tied_is, lemma_none_tied, tied,
};
use crate::bill_payments::types::{Bill, BillEvent, Error, Schedule, ScheduleEvent, Topic};
use crate::catch_up::add_days;
use crate::notice::{Notice, Payload};
use crate::records::{
    find, in_order, lemma_filter_step, lemma_place_holds, lemma_push_keeps_order,
    lemma_remove_keeps_order, lemma_update_keeps_order,
};
use vstd::prelude::*;

verus! {

/// The bills book.
///
/// Its value as a [`Ledger`] is its view; every operation says what it
/// does in terms of that value.
pub struct BillPayments {
    pub(crate) bills: Vec<Bill>,
    pub(crate) next_id: u32,
    pub(crate) schedules: Vec<Schedule>,
    pub(crate) next_schedule_id: u32,
    pub(crate) notices: Vec<Notice<Topic>>,
}

impl View for BillPayments {
    type V = Ledger;

    open(crate) spec fn view(&self) -> Ledger {
        Ledger {
            bills: self.bills@,
            next_id: self.next_id,
            schedules: self.schedules@,
            next_schedule_id: self.next_schedule_id,
            notices: self.notices@,
        }
    }
}

/// Whether every bill of `bills` is sound.
fn bills_sound(bills: &Vec<Bill>) -> (r: bool)
    ensures
        r == (forall|i: int| 0 <= i < bills@.len() ==> (#[trigger] bills@[i]).sound()),
{
    let mut i: usize = 0;
    while i < bills.len()
        invariant
            i <= bills.len(),
            forall|k: int| 0 <= k < i ==> (#[trigger] bills@[k]).sound(),
        decreases bills.len() - i,
    {
        let b = &bills[i];
        if b.amount <= 0 || (b.recurring && b.frequency_days == 0) || b.paid_at.is_some()
            != b.paid {
            assert(!bills@[i as int].sound());
            return false;
        }
        i += 1;
    }
    true
}

/// Whether every schedule of `schedules` is sound.
fn schedules_sound(schedules: &Vec<Schedule>) -> (r: bool)
    ensures
        r == (forall|i: int| 0 <= i < schedules@.len() ==> (#[trigger] schedules@[i]).sound()),
{
    let mut i: usize = 0;
    while i < schedules.len()
        invariant
            i <= schedules.len(),
            forall|k: int| 0 <= k < i ==> (#[trigger] schedules@[k]).sound(),
        decreases schedules.len() - i,
    {
        let s = &schedules[i];
        if s.recurring != (s.interval > 0) {
            assert(!schedules@[i as int].sound());
            return false;
        }
        i += 1;
    }
    true
}

impl BillPayments {
    /// A book with nothing in it.
    pub fn new() -> (r: BillPayments)
        ensures
            r@ == Ledger::empty(),
            r@.wf(),
    {
        BillPayments {
            bills: Vec::new(),
            next_id: 0,
            schedules: Vec::new(),
            next_schedule_id: 0,
            notices: Vec::new(),
        }
    }

    /// The book made of the given records and counters, with no
    /// announcement waiting; `None` where they do not make a book.
    pub fn from_parts(
        bills: Vec<Bill>,
        next_id: u32,
        schedules: Vec<Schedule>,
        next_schedule_id: u32,
    ) -> (r: Option<BillPayments>)
        ensures
            ({
                let ledger = Ledger {
                    bills: bills@,
                    next_id,
                    schedules: schedules@,
                    next_schedule_id,
                    notices: Seq::empty(),
                };
                &&& r is Some == ledger.wf()
                &&& r is Some ==> r->0@ == ledger
            }),
    {
        if in_order(&bills, next_id) && in_order(&schedules, next_schedule_id) && bills_sound(
            &bills,
        ) && schedules_sound(&schedules) {
            Some(
                BillPayments {
                    bills,
                    next_id,
                    schedules,
                    next_schedule_id,
                    notices: Vec::new(),
                },
            )
        } else {
            None
        }
    }

    /// The records and counters of the book: the bills, the last bill
    /// identifier handed out, the schedules, and the last schedule
    /// identifier handed out.
    /// Announcements that still wait are dropped: take them out first.
    pub fn into_parts(self) -> (r: (Vec<Bill>, u32, Vec<Schedule>, u32))
        ensures
            r.0@ == self@.bills,
            r.1 == self@.next_id,
            r.2@ == self@.schedules,
            r.3 == self@.next_schedule_id,
    {
        (self.bills, self.next_id, self.schedules, self.next_schedule_id)
    }

    /// Takes out the announcements that wait, oldest first.
    pub fn take_notices(&mut self) -> (r: Vec<Notice<Topic>>)
        ensures
            (final(self)@, r@) == old(self)@.take_notices(),
    {
        let mut out: Vec<Notice<Topic>> = Vec::new();
        core::mem::swap(&mut self.notices, &mut out);
        out
    }

    /// Enters a new bill, unpaid and tied to no schedule, and returns its
    /// identifier.
    pub fn create_bill(
        &mut self,
        owner: Address,
        name: String,
        amount: i128,
        due_date: u64,
        recurring: bool,
        frequency_days: u32,
        now: u64,
    ) -> (r: Result<u32, Error>)
        requires
            old(self)@.wf(),
        ensures
            (final(self)@, r) == old(self)@.create_bill(
                owner,
                name,
                amount,
                due_date,
                recurring,
                frequency_days,
                now,
            ),
            final(self)@.wf(),
    {
        if amount <= 0 {
            return Err(Error::InvalidAmount);
        }
        if recurring && frequency_days == 0 {
            return Err(Error::InvalidFrequency);
        }
        if self.next_id == u32::MAX {
            return Err(Error::Overflow);
        }
        let id: u32 = self.next_id + 1;
        let who = owner.clone();
        let bill = Bill {
            id,
            owner,
            name,
            amount,
            due_date,
            recurring,
            frequency_days,
            paid: false,
            created_at: now,
            paid_at: None,
            schedule_id: None,
        };
        proof {
            lemma_push_keeps_order(self.bills@, self.next_id, bill);
        }
        self.bills.push(bill);
        self.next_id = id;
        self.notices.push(
            Notice { kind: Topic::Bill(BillEvent::Created), payload: Payload::Party { id, who } },
        );
        Ok(id)
    }

    /// Marks the bill at `k` paid at `now` and enters the successor of a
    /// recurring bill. Does nothing, and says so, where the successor would
    /// pass a limit.
    pub(crate) fn settle(&mut self, k: usize, now: u64) -> (done: bool)
        requires
            old(self)@.wf(),
            k < old(self)@.bills.len(),
        ensures
            done == old(self)@.can_settle(k as int),
            done ==> final(self)@ == old(self)@.settle(k as int, now),
            !done ==> final(self)@ == old(self)@,
            final(self)@.wf(),
    {
        let mut bill = self.bills[k].clone();
        if bill.recurring {
            let due: u64 = match add_days(bill.due_date, bill.frequency_days) {
                Some(due) => due,
                None => {
                    return false;
                },
            };
            if self.next_id == u32::MAX {
                return false;
            }
            let id: u32 = self.next_id + 1;
            let next = Bill {
                id,
                owner: bill.owner.clone(),
                name: bill.name.clone(),
                amount: bill.amount,
                due_date: due,
                recurring: true,
                frequency_days: bill.frequency_days,
                paid: false,
                created_at: now,
                paid_at: None,
                schedule_id: bill.schedule_id,
            };
            bill.paid = true;
            bill.paid_at = Some(now);
            proof {
                lemma_update_keeps_order(self.bills@, self.next_id, k as int, bill);
                lemma_push_keeps_order(self.bills@.update(k as int, bill), self.next_id, next);
            }
            self.bills.set(k, bill);
            self.bills.push(next);
            self.next_id = id;
        } else {
            bill.paid = true;
            bill.paid_at = Some(now);
            proof {
                lemma_update_keeps_order(self.bills@, self.next_id, k as int, bill);
            }
            self.bills.set(k, bill);
        }
        true
    }

    /// Pays the bill `bill_id` on behalf of `caller`, its owner. A recurring
    /// bill is followed by its successor, due one period later.
    pub fn pay_bill(&mut self, caller: Address, bill_id: u32, now: u64) -> (r: Result<(), Error>)
        requires
            old(self)@.wf(),
        ensures
            (final(self)@, r) == old(self)@.pay_bill(caller, bill_id, now),
            final(self)@.wf(),
    {
        let k: usize = match find(&self.bills, bill_id) {
            Some(k) => k,
            None => {
                return Err(Error::BillNotFound);
            },
        };
        proof {
            lemma_place_holds(self.bills@, bill_id);
        }
        if !self.bills[k].owner.is(&caller) {
            return Err(Error::Unauthorized);
        }
        if self.bills[k].paid {
            return Err(Error::BillAlreadyPaid);
        }
        if !self.settle(k, now) {
            return Err(Error::Overflow);
        }
        self.notices.push(
            Notice {
                kind: Topic::Bill(BillEvent::Paid),
                payload: Payload::Party { id: bill_id, who: caller },
            },
        );
        Ok(())
    }

    /// The bill `bill_id`, if the book has it.
    pub fn get_bill(&self, bill_id: u32) -> (r: Option<Bill>)
        requires
            self@.wf(),
        ensures
            r == self@.bill(bill_id),
    {
        match find(&self.bills, bill_id) {
            Some(k) => Some(self.bills[k].clone()),
            None => None,
        }
    }

    /// The bills that `owner` has still to pay, by identifier.
    pub fn get_unpaid_bills(&self, owner: &Address) -> (r: Vec<Bill>)
        ensures
            r@ == self@.unpaid_bills(*owner),
    {
        let mut out: Vec<Bill> = Vec::new();
        let mut i: usize = 0;
        assert(self.bills@.take(0).filter(is_unpaid_by(*owner)) =~= Seq::empty()) by {
            reveal(Seq::filter);
        }
        while i < self.bills.len()
            invariant
                i <= self.bills.len(),
                out@ == self.bills@.take(i as int).filter(is_unpaid_by(*owner)),
            decreases self.bills.len() - i,
        {
            proof {
                lemma_filter_step(self.bills@, is_unpaid_by(*owner), i as int);
            }
            let b = &self.bills[i];
            if !b.paid && b.owner.is(owner) {
                out.push(b.clone());
            }
            i += 1;
        }
        assert(self.bills@.take(i as int) =~= self.bills@);
        out
    }

    /// The unpaid bills whose due time lies before `now`, by identifier.
    pub fn get_overdue_bills(&self, now: u64) -> (r: Vec<Bill>)
        ensures
            r@ == self@.overdue_bills(now),
    {
        let mut out: Vec<Bill> = Vec::new();
        let mut i: usize = 0;
        assert(self.bills@.take(0).filter(is_overdue(now)) =~= Seq::empty()) by {
            reveal(Seq::filter);
        }
        while i < self.bills.len()
            invariant
                i <= self.bills.len(),
                out@ == self.bills@.take(i as int).filter(is_overdue(now)),
            decreases self.bills.len() - i,
        {
            proof {
                lemma_filter_step(self.bills@, is_overdue(now), i as int);
            }
            let b = &self.bills[i];
            if !b.paid && b.due_date < now {
                out.push(b.clone());
            }
            i += 1;
        }
        assert(self.bills@.take(i as int) =~= self.bills@);
        out
    }

    /// Every bill of the book, paid or not, by identifier.
    pub fn get_all_bills(&self) -> (r: Vec<Bill>)
        ensures
            r@ == self@.bills,
    {
        let mut out: Vec<Bill> = Vec::new();
        let mut i: usize = 0;
        while i < self.bills.len()
            invariant
                i <= self.bills.len(),
                out@ == self.bills@.take(i as int),
            decreases self.bills.len() - i,
        {
            out.push(self.bills[i].clone());
            assert(self.bills@.take(i + 1) =~= self.bills@.take(i as int).push(self.bills@[i as int]));
            i += 1;
        }
        assert(self.bills@.take(i as int) =~= self.bills@);
        out
    }

    /// Takes the bill `bill_id` out of the book. Anyone may ask; a schedule
    /// tied to the bill stays, with nothing left to pay.
    pub fn cancel_bill(&mut self, bill_id: u32) -> (r: Result<(), Error>)
        requires
            old(self)@.wf(),
        ensures
            (final(self)@, r) == old(self)@.cancel_bill(bill_id),
            final(self)@.wf(),
    {
        let k: usize = match find(&self.bills, bill_id) {
            Some(k) => k,
            None => {
                return Err(Error::BillNotFound);
            },
        };
        proof {
            lemma_place_holds(self.bills@, bill_id);
            lemma_remove_keeps_order(self.bills@, self.next_id, k as int);
        }
        self.bills.remove(k);
        Ok(())
    }

    /// What `owner` has still to pay in all; `Overflow` where the sum does
    /// not fit.
    pub fn get_total_unpaid(&self, owner: &Address) -> (r: Result<i128, Error>)
        requires
            self@.wf(),
        ensures
            r == (if self@.total_unpaid(*owner) <= i128::MAX {
                Ok(self@.total_unpaid(*owner) as i128)
            } else {
                Err(Error::Overflow)
            }),
    {
        let mut total: i128 = 0;
        let mut i: usize = 0;
        proof {
            lemma_amounts_grow(self.bills@, is_unpaid_by(*owner), 0);
            assert(self.bills@.take(0).filter(is_unpaid_by(*owner)) =~= Seq::empty()) by {
                reveal(Seq::filter);
            }
        }
        while i < self.bills.len()
            invariant
                i <= self.bills.len(),
                self@.wf(),
                total == amounts(self.bills@.take(i as int).filter(is_unpaid_by(*owner))),
                total >= 0,
            decreases self.bills.len() - i,
        {
            proof {
                lemma_filter_step(self.bills@, is_unpaid_by(*owner), i as int);
                lemma_amounts_push(
                    self.bills@.take(i as int).filter(is_unpaid_by(*owner)),
                    self.bills@[i as int],
                );
                lemma_amounts_grow(self.bills@, is_unpaid_by(*owner), i + 1);
                assert(self.bills@[i as int].sound());
            }
            let b = &self.bills[i];
            if !b.paid && b.owner.is(owner) {
                total = match total.checked_add(b.amount) {
                    Some(sum) => sum,
                    None => {
                        return Err(Error::Overflow);
                    },
                };
            }
            i += 1;
        }
        assert(self.bills@.take(i as int) =~= self.bills@);
        Ok(total)
    }

    /// Where the first bill tied to the schedule `schedule_id` stands.
    pub(crate) fn first_tied_index(&self, schedule_id: u32) -> (r: Option<usize>)
        ensures
            r is Some == first_tied(self@.bills, schedule_id) is Some,
            r is Some ==> r->0 as int == first_tied(self@.bills, schedule_id)->0,
            r is Some ==> first_tied_at(self@.bills, schedule_id, r->0 as int),
    {
        let mut i: usize = 0;
        while i < self.bills.len()
            invariant
                i <= self.bills.len(),
                forall|j: int| 0 <= j < i ==> !tied(#[trigger] self.bills@[j], schedule_id),
            decreases self.bills.len() - i,
        {
            match self.bills[i].schedule_id {
                Some(id) => {
                    if id == schedule_id {
                        proof {
                            lemma_first_tied_is(self.bills@, schedule_id, i as int);
                        }
                        return Some(i);
                    }
                },
                None => {},
            }
            i += 1;
        }
        proof {
            lemma_none_tied(self.bills@, schedule_id);
        }
        None
    }

    /// The identifier of the bill that the schedule `schedule_id` pays: the
    /// first bill, by identifier, that is tied to it.
    pub fn find_bill_by_schedule(&self, schedule_id: u32) -> (r: Option<u32>)
        ensures
            r == self@.bill_of_schedule(schedule_id),
    {
        match self.first_tied_index(schedule_id) {
            Some(k) => Some(self.bills[k].id),
            None => None,
        }
    }

    /// Enters a schedule for the bill `bill_id` of `owner`, first due at
    /// `next_due`, and ties the bill to it. An interval of zero makes a
    /// schedule that runs once.
    pub fn create_schedule(
        &mut self,
        owner: Address,
        bill_id: u32,
        next_due: u64,
        interval: u64,
        now: u64,
    ) -> (r: Result<u32, Error>)
        requires
            old(self)@.wf(),
        ensures
            (final(self)@, r) == old(self)@.create_schedule(owner, bill_id, next_due, interval, now),
            final(self)@.wf(),
    {
        let k: usize = match find(&self.bills, bill_id) {
            Some(k) => k,
            None => {
                return Err(Error::BillNotFound);
            },
        };
        proof {
            lemma_place_holds(self.bills@, bill_id);
        }
        if !self.bills[k].owner.is(&owner) {
            return Err(Error::Unauthorized);
        }
        if next_due <= now {
            return Err(Error::InvalidAmount);
        }
        if self.next_schedule_id == u32::MAX {
            return Err(Error::Overflow);
        }
        let id: u32 = self.next_schedule_id + 1;
        let who = owner.clone();
        let schedule = Schedule {
            id,
            owner,
            next_due,
            interval,
            recurring: interval > 0,
            active: true,
            created_at: now,
            last_executed: None,
            missed_count: 0,
        };
        let mut bill = self.bills[k].clone();
        bill.schedule_id = Some(id);
        proof {
            lemma_update_keeps_order(self.bills@, self.next_id, k as int, bill);
            lemma_push_keeps_order(self.schedules@, self.next_schedule_id, schedule);
            assert(self.bills@[k as int].sound());
        }
        self.bills.set(k, bill);
        self.schedules.push(schedule);
        self.next_schedule_id = id;
        self.notices.push(
            Notice {
                kind: Topic::Schedule(ScheduleEvent::Created),
                payload: Payload::Party { id, who },
            },
        );
        Ok(id)
    }

    /// Gives the schedule `schedule_id` a new due time, which must lie in
    /// the future, and a new interval.
    pub fn modify_schedule(
        &mut self,
        caller: Address,
        schedule_id: u32,
        next_due: u64,
        interval: u64,
        now: u64,
    ) -> (r: Result<(), Error>)
        requires
            old(self)@.wf(),
        ensures
            (final(self)@, r) == old(self)@.modify_schedule(
                caller,
                schedule_id,
                next_due,
                interval,
                now,
            ),
            final(self)@.wf(),
    {
        let k: usize = match find(&self.schedules, schedule_id) {
            Some(k) => k,
            None => {
                return Err(Error::BillNotFound);
            },
        };
        proof {
            lemma_place_holds(self.schedules@, schedule_id);
        }
        if !self.schedules[k].owner.is(&caller) {
            return Err(Error::Unauthorized);
        }
        if next_due <= now {
            return Err(Error::InvalidAmount);
        }
        let mut schedule = self.schedules[k].clone();
        schedule.next_due = next_due;
        schedule.interval = interval;
        schedule.recurring = interval > 0;
        proof {
            lemma_update_keeps_order(self.schedules@, self.next_schedule_id, k as int, schedule);
        }
        self.schedules.set(k, schedule);
        self.notices.push(
            Notice {
                kind: Topic::Schedule(ScheduleEvent::Modified),
                payload: Payload::Party { id: schedule_id, who: caller },
            },
        );
        Ok(())
    }

    /// Switches the schedule `schedule_id` off. It stays in the book and
    /// is never served again.
    pub fn cancel_schedule(&mut self, caller: Address, schedule_id: u32) -> (r: Result<
        (),
        Error,
    >)
        requires
            old(self)@.wf(),
        ensures
            (final(self)@, r) == old(self)@.cancel_schedule(caller, schedule_id),
            final(self)@.wf(),
    {
        let k: usize = match find(&self.schedules, schedule_id) {
            Some(k) => k,
            None => {
                return Err(Error::BillNotFound);
            },
        };
        proof {
            lemma_place_holds(self.schedules@, schedule_id);
        }
        if !self.schedules[k].owner.is(&caller) {
            return Err(Error::Unauthorized);
        }
        let mut schedule = self.schedules[k].clone();
        schedule.active = false;
        proof {
            lemma_update_keeps_order(self.schedules@, self.next_schedule_id, k as int, schedule);
            assert(self.schedules@[k as int].sound());
        }
        self.schedules.set(k, schedule);
        self.notices.push(
            Notice {
                kind: Topic::Schedule(ScheduleEvent::Cancelled),
                payload: Payload::Party { id: schedule_id, who: caller },
            },
        );
        Ok(())
    }

    /// The schedules of `owner`, by identifier.
    pub fn get_schedules(&self, owner: &Address) -> (r: Vec<Schedule>)
        ensures
            r@ == self@.schedules_of(*owner),
    {
        let mut out: Vec<Schedule> = Vec::new();
        let mut i: usize = 0;
        assert(self.schedules@.take(0).filter(is_schedule_of(*owner)) =~= Seq::empty()) by {
            reveal(Seq::filter);
        }
        while i < self.schedules.len()
            invariant
                i <= self.schedules.len(),
                out@ == self.schedules@.take(i as int).filter(is_schedule_of(*owner)),
            decreases self.schedules.len() - i,
        {
            proof {
                lemma_filter_step(self.schedules@, is_schedule_of(*owner), i as int);
            }
            let s = &self.schedules[i];
            if s.owner.is(owner) {
                out.push(s.clone());
            }
            i += 1;
        }
        assert(self.schedules@.take(i as int) =~= self.schedules@);
        out
    }

    /// The schedule `schedule_id`, if the book has it.
    pub fn get_schedule(&self, schedule_id: u32) -> (r: Option<Schedule>)
        requires
            self@.wf(),
        ensures
            r == self@.schedule(schedule_id),
    {
        match find(&self.schedules, schedule_id) {
            Some(k) => Some(self.schedules[k].clone()),
            None => None,
        }
    }
}

} // verus!
