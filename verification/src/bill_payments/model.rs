//! The bills book as a mathematical value, and each operation on it as a
//! function from the book before to the book after and the answer given.

use crate::address::Address;
use crate::bill_payments::sums::amounts;
use crate::bill_payments::ties::first_tied;
use crate::bill_payments::types::{Bill, BillEvent, Error, Schedule, ScheduleEvent, Topic};
use crate::catch_up::days_after;
use crate::notice::{Notice, Payload};
use crate::records::{ascending, holds, issued, lookup, place};
use crate::timer::Timed;
use vstd::prelude::*;

verus! {

/// The test that picks the bills that `owner` has still to pay.
pub open spec fn is_unpaid_by(owner: Address) -> spec_fn(Bill) -> bool {
    |b: Bill| b.unpaid_by(owner)
}

/// The test that picks the unpaid bills whose due time lies before `now`.
pub open spec fn is_overdue(now: u64) -> spec_fn(Bill) -> bool {
    |b: Bill| b.overdue(now)
}

/// The test that picks the schedules of `owner`.
pub open spec fn is_schedule_of(owner: Address) -> spec_fn(Schedule) -> bool {
    |s: Schedule| s.owner@ == owner@
}

/// The bills book: bills and schedules in the order of their identifiers,
/// the last identifier handed out of each kind, and the announcements
/// that wait to be taken out.
pub struct Ledger {
    pub bills: Seq<Bill>,
    pub next_id: u32,
    pub schedules: Seq<Schedule>,
    pub next_schedule_id: u32,
    pub notices: Seq<Notice<Topic>>,
}

impl Ledger {
    /// The book with nothing in it.
    pub open spec fn empty() -> Ledger {
        Ledger {
            bills: Seq::empty(),
            next_id: 0,
            schedules: Seq::empty(),
            next_schedule_id: 0,
            notices: Seq::empty(),
        }
    }

    /// What holds of every book: identifiers rise strictly, none exceeds
    /// its counter, and every record is sound.
    pub open spec fn wf(self) -> bool {
        &&& ascending(self.bills)
        &&& issued(self.bills, self.next_id)
        &&& ascending(self.schedules)
        &&& issued(self.schedules, self.next_schedule_id)
        &&& forall|i: int| 0 <= i < self.bills.len() ==> (#[trigger] self.bills[i]).sound()
        &&& forall|i: int| 0 <= i < self.schedules.len() ==> (#[trigger] self.schedules[i]).sound()
    }

    /// The book with one more announcement waiting.
    pub open spec fn announce(self, kind: Topic, payload: Payload) -> Ledger {
        Ledger { notices: self.notices.push(Notice { kind, payload }), ..self }
    }

    /// The bill `id`, if the book has it.
    pub open spec fn bill(self, id: u32) -> Option<Bill> {
        lookup(self.bills, id)
    }

    /// The schedule `id`, if the book has it.
    pub open spec fn schedule(self, id: u32) -> Option<Schedule> {
        lookup(self.schedules, id)
    }

    /// The bills that `owner` has still to pay, by identifier.
    pub open spec fn unpaid_bills(self, owner: Address) -> Seq<Bill> {
        self.bills.filter(is_unpaid_by(owner))
    }

    /// The unpaid bills whose due time lies before `now`, by identifier.
    pub open spec fn overdue_bills(self, now: u64) -> Seq<Bill> {
        self.bills.filter(is_overdue(now))
    }

    /// What `owner` has still to pay in all.
    pub open spec fn total_unpaid(self, owner: Address) -> int {
        amounts(self.unpaid_bills(owner))
    }

    /// The schedules of `owner`, by identifier.
    pub open spec fn schedules_of(self, owner: Address) -> Seq<Schedule> {
        self.schedules.filter(is_schedule_of(owner))
    }

    /// The identifier of the bill that the schedule `schedule_id` pays.
    pub open spec fn bill_of_schedule(self, schedule_id: u32) -> Option<u32> {
        match first_tied(self.bills, schedule_id) {
            Some(k) => Some(self.bills[k].id),
            None => None,
        }
    }

    /// Enters a new bill.
    pub open spec fn create_bill(
        self,
        owner: Address,
        name: String,
        amount: i128,
        due_date: u64,
        recurring: bool,
        frequency_days: u32,
        now: u64,
    ) -> (Ledger, Result<u32, Error>) {
        if amount <= 0 {
            (self, Err(Error::InvalidAmount))
        } else if recurring && frequency_days == 0 {
            (self, Err(Error::InvalidFrequency))
        } else if self.next_id == u32::MAX {
            (self, Err(Error::Overflow))
        } else {
            let id = (self.next_id + 1) as u32;
            let bill = Bill {
                id,
                owner,
                name,
                amount,
                due_date,
                recurring,
                frequency_days,
                paid: false,
                created_at: now,
                paid_at: None,
                schedule_id: None,
            };
            (
                Ledger { bills: self.bills.push(bill), next_id: id, ..self }.announce(
                    Topic::Bill(BillEvent::Created),
                    Payload::Party { id, who: owner },
                ),
                Ok(id),
            )
        }
    }

    /// Whether the bill at `k` can be paid without passing a limit: a bill
    /// that does not recur always can; one that recurs needs a due time and
    /// an identifier for its successor.
    pub open spec fn can_settle(self, k: int) -> bool {
        self.bills[k].recurring ==> {
            &&& days_after(self.bills[k].due_date, self.bills[k].frequency_days) <= u64::MAX
            &&& self.next_id < u32::MAX
        }
    }

    /// Marks the bill at `k` paid at `now` and, if it recurs, enters its
    /// successor under the next identifier.
    pub open spec fn settle(self, k: int, now: u64) -> Ledger
        recommends
            0 <= k < self.bills.len(),
            self.can_settle(k),
    {
        let bill = self.bills[k];
        let marked = self.bills.update(k, bill.settled(now));
        if bill.recurring {
            let id = (self.next_id + 1) as u32;
            Ledger { bills: marked.push(bill.successor(id, now)), next_id: id, ..self }
        } else {
            Ledger { bills: marked, ..self }
        }
    }

    /// Pays the bill `bill_id` on behalf of `caller`.
    pub open spec fn pay_bill(self, caller: Address, bill_id: u32, now: u64) -> (
        Ledger,
        Result<(), Error>,
    ) {
        if !holds(self.bills, bill_id) {
            (self, Err(Error::BillNotFound))
        } else {
            let k = place(self.bills, bill_id);
            if self.bills[k].owner@ != caller@ {
                (self, Err(Error::Unauthorized))
            } else if self.bills[k].paid {
                (self, Err(Error::BillAlreadyPaid))
            } else if !self.can_settle(k) {
                (self, Err(Error::Overflow))
            } else {
                (
                    self.settle(k, now).announce(
                        Topic::Bill(BillEvent::Paid),
                        Payload::Party { id: bill_id, who: caller },
                    ),
                    Ok(()),
                )
            }
        }
    }

    /// Takes the bill `bill_id` out of the book, whoever asks.
    pub open spec fn cancel_bill(self, bill_id: u32) -> (Ledger, Result<(), Error>) {
        if !holds(self.bills, bill_id) {
            (self, Err(Error::BillNotFound))
        } else {
            (Ledger { bills: self.bills.remove(place(self.bills, bill_id)), ..self }, Ok(()))
        }
    }

    /// Enters a schedule for the bill `bill_id` and ties the bill to it.
    pub open spec fn create_schedule(
        self,
        owner: Address,
        bill_id: u32,
        next_due: u64,
        interval: u64,
        now: u64,
    ) -> (Ledger, Result<u32, Error>) {
        if !holds(self.bills, bill_id) {
            (self, Err(Error::BillNotFound))
        } else {
            let k = place(self.bills, bill_id);
            if self.bills[k].owner@ != owner@ {
                (self, Err(Error::Unauthorized))
            } else if next_due <= now {
                (self, Err(Error::InvalidAmount))
            } else if self.next_schedule_id == u32::MAX {
                (self, Err(Error::Overflow))
            } else {
                let id = (self.next_schedule_id + 1) as u32;
                let schedule = Schedule {
                    id,
                    owner,
                    next_due,
                    interval,
                    recurring: interval > 0,
                    active: true,
                    created_at: now,
                    last_executed: None,
                    missed_count: 0,
                };
                (
                    Ledger {
                        bills: self.bills.update(
                            k,
                            Bill { schedule_id: Some(id), ..self.bills[k] },
                        ),
                        schedules: self.schedules.push(schedule),
                        next_schedule_id: id,
                        ..self
                    }.announce(
                        Topic::Schedule(ScheduleEvent::Created),
                        Payload::Party { id, who: owner },
                    ),
                    Ok(id),
                )
            }
        }
    }

    /// Gives the schedule `schedule_id` a new due time and interval.
    pub open spec fn modify_schedule(
        self,
        caller: Address,
        schedule_id: u32,
        next_due: u64,
        interval: u64,
        now: u64,
    ) -> (Ledger, Result<(), Error>) {
        if !holds(self.schedules, schedule_id) {
            (self, Err(Error::BillNotFound))
        } else {
            let k = place(self.schedules, schedule_id);
            if self.schedules[k].owner@ != caller@ {
                (self, Err(Error::Unauthorized))
            } else if next_due <= now {
                (self, Err(Error::InvalidAmount))
            } else {
                (
                    Ledger {
                        schedules: self.schedules.update(
                            k,
                            self.schedules[k].with_timer(
                                self.schedules[k].timer().reset(next_due, interval),
                            ),
                        ),
                        ..self
                    }.announce(
                        Topic::Schedule(ScheduleEvent::Modified),
                        Payload::Party { id: schedule_id, who: caller },
                    ),
                    Ok(()),
                )
            }
        }
    }

    /// Switches the schedule `schedule_id` off for good.
    pub open spec fn cancel_schedule(self, caller: Address, schedule_id: u32) -> (
        Ledger,
        Result<(), Error>,
    ) {
        if !holds(self.schedules, schedule_id) {
            (self, Err(Error::BillNotFound))
        } else {
            let k = place(self.schedules, schedule_id);
            if self.schedules[k].owner@ != caller@ {
                (self, Err(Error::Unauthorized))
            } else {
                (
                    Ledger {
                        schedules: self.schedules.update(
                            k,
                            self.schedules[k].with_timer(self.schedules[k].timer().stopped()),
                        ),
                        ..self
                    }.announce(
                        Topic::Schedule(ScheduleEvent::Cancelled),
                        Payload::Party { id: schedule_id, who: caller },
                    ),
                    Ok(()),
                )
            }
        }
    }

    /// Takes the waiting announcements out of the book.
    pub open spec fn take_notices(self) -> (Ledger, Seq<Notice<Topic>>) {
        (Ledger { notices: Seq::empty(), ..self }, self.notices)
    }
}

} // verus!
