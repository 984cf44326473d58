//! Serving the premium schedules that have fallen due.
//!
//! A sweep walks the schedules by identifier. Each one that is active and
//! due is served: a premium of the policy it names is paid if the policy
//! is there and in force, and the schedule is moved past the present or,
//! if it runs once, switched off. A sweep that would pass a limit anywhere
//! changes nothing at all.

use crate::insurance::book::Insurance;
use crate::insurance::model::Register;
use crate::insurance::types::{Abort, InsuranceEvent};
use crate::notice::{Notice, Payload};
use crate::records::{find, holds, lemma_place_holds, lemma_update_keeps_order, place};
use vstd::prelude::*;

verus! {

impl Register {
    /// Whether the schedule at `i` has a premium to pay: the policy it
    /// names is in the book and in force.
    pub open spec fn pays(self, i: int) -> bool {
        &&& holds(self.policies, self.schedules[i].policy_id)
        &&& self.policies[place(self.policies, self.schedules[i].policy_id)].active
    }

    /// Whether the policy of the schedule at `i` can be seen to without
    /// passing a limit.
    pub open spec fn can_fulfil(self, i: int, now: u64) -> bool {
        self.pays(i) ==> Self::can_renew(now)
    }

    /// Sees to the policy of the schedule at `i`: pays a premium at `now`
    /// if the policy is in the book and in force, and leaves the book
    /// alone otherwise.
    pub open spec fn fulfil(self, i: int, now: u64) -> Register {
        if self.pays(i) {
            let k = place(self.policies, self.schedules[i].policy_id);
            Register {
                policies: self.policies.update(k, self.policies[k].renewed(now)),
                ..self
            }.announce(
                InsuranceEvent::PremiumPaid,
                Payload::Party { id: self.schedules[i].policy_id, who: self.policies[k].owner },
            )
        } else {
            self
        }
    }

    /// Moves the schedule at `i` on to where it stands after being served
    /// at `now`, and announces what it missed, if anything, and that it
    /// ran.
    pub open spec fn advance(self, i: int, now: u64) -> Register {
        let s = self.schedules[i];
        let moved = Register { schedules: self.schedules.update(i, s.served(now)), ..self };
        let told = if s.missed(now) > 0 {
            moved.announce(
                InsuranceEvent::ScheduleMissed,
                Payload::Count { id: s.id, count: s.missed(now) as u32 },
            )
        } else {
            moved
        };
        told.announce(InsuranceEvent::ScheduleExecuted, Payload::Id { id: s.id })
    }

    /// Whether the schedule at `i` can be served without passing a limit.
    pub open spec fn can_serve(self, i: int, now: u64) -> bool {
        self.can_fulfil(i, now) && self.schedules[i].fits(now)
    }

    /// Serves the schedule at `i`.
    pub open spec fn serve(self, i: int, now: u64) -> Register {
        self.fulfil(i, now).advance(i, now)
    }

    /// The book after the first `k` schedules have had their turn, with the
    /// identifiers of those served, in order; `None` where one of them
    /// could not be served.
    pub open spec fn sweep_upto(self, k: nat, now: u64) -> Option<(Register, Seq<u32>)>
        decreases k,
    {
        if k == 0 {
            Some((self, Seq::empty()))
        } else {
            match self.sweep_upto((k - 1) as nat, now) {
                None => None,
                Some((book, served)) => {
                    let i = k - 1;
                    if !book.schedules[i].due(now) {
                        Some((book, served))
                    } else if !book.can_serve(i, now) {
                        None
                    } else {
                        Some((book.serve(i, now), served.push(book.schedules[i].id)))
                    }
                },
            }
        }
    }

    /// Serves every schedule that is active and due at `now`, by
    /// identifier, and answers with the identifiers of those served.
    /// Where any of them cannot be served the book stays as it was.
    pub open spec fn execute_due_premium_schedules(self, now: u64) -> (
        Register,
        Result<Seq<u32>, Abort>,
    ) {
        match self.sweep_upto(self.schedules.len(), now) {
            Some((book, served)) => (book, Ok(served)),
            None => (self, Err(Abort::Overflow)),
        }
    }
}

/// A sweep that has failed stays failed however far it is taken.
pub proof fn lemma_sweep_stays_failed(book: Register, k: nat, n: nat, now: u64)
    requires
        book.sweep_upto(k, now) is None,
        k <= n,
    ensures
        book.sweep_upto(n, now) is None,
    decreases n,
{
    if k < n {
        lemma_sweep_stays_failed(book, k, (n - 1) as nat, now);
    }
}

impl Insurance {
    /// A copy of the book.
    fn duplicate(&self) -> (r: Insurance)
        ensures
            r@ == self@,
    {
        let policies = self.policies.clone();
        let schedules = self.schedules.clone();
        let mut notices: Vec<Notice<InsuranceEvent>> = Vec::new();
        let mut i: usize = 0;
        while i < self.notices.len()
            invariant
                i <= self.notices.len(),
                notices@ == self.notices@.take(i as int),
            decreases self.notices.len() - i,
        {
            let n = &self.notices[i];
            notices.push(Notice { kind: n.kind, payload: n.payload.clone() });
            assert(self.notices@.take(i + 1) =~= self.notices@.take(i as int).push(
                self.notices@[i as int],
            ));
            i += 1;
        }
        assert(self.notices@.take(i as int) =~= self.notices@);
        assert(policies@ =~= self.policies@);
        assert(schedules@ =~= self.schedules@);
        Insurance {
            policies,
            next_id: self.next_id,
            schedules,
            next_schedule_id: self.next_schedule_id,
            notices,
        }
    }

    /// Sees to the policy of the schedule at `i`. Does nothing, and says
    /// so, where the next due time of the premium would pass a limit.
    fn fulfil(&mut self, i: usize, now: u64) -> (done: bool)
        requires
            old(self)@.wf(),
            i < old(self)@.schedules.len(),
        ensures
            done == old(self)@.can_fulfil(i as int, now),
            done ==> final(self)@ == old(self)@.fulfil(i as int, now),
            final(self)@.wf(),
    {
        let policy_id: u32 = self.schedules[i].policy_id;
        match find(&self.policies, policy_id) {
            Some(k) => {
                proof {
                    lemma_place_holds(self.policies@, policy_id);
                }
                if self.policies[k].active {
                    let who = self.policies[k].owner.clone();
                    if !self.renew(k, now) {
                        return false;
                    }
                    self.notices.push(
                        Notice {
                            kind: InsuranceEvent::PremiumPaid,
                            payload: Payload::Party { id: policy_id, who },
                        },
                    );
                }
            },
            None => {},
        }
        true
    }

    /// Moves the schedule at `i` on. Does nothing, and says so, where the
    /// new due time or the count of missed occurrences would pass a limit.
    fn advance(&mut self, i: usize, now: u64) -> (done: bool)
        requires
            old(self)@.wf(),
            i < old(self)@.schedules.len(),
            old(self)@.schedules[i as int].due(now),
        ensures
            done == old(self)@.schedules[i as int].fits(now),
            done ==> final(self)@ == old(self)@.advance(i as int, now),
            final(self)@.wf(),
    {
        let mut schedule = self.schedules[i].clone();
        let schedule_id: u32 = schedule.id;
        let outcome = match schedule.running().serve(now) {
            Some(outcome) => outcome,
            None => {
                return false;
            },
        };
        schedule.set_timer(outcome.timer);
        let missed: u32 = outcome.missed;
        proof {
            lemma_update_keeps_order(self.schedules@, self.next_schedule_id, i as int, schedule);
            assert(self.schedules@[i as int].sound());
        }
        self.schedules.set(i, schedule);
        if missed > 0 {
            self.notices.push(
                Notice {
                    kind: InsuranceEvent::ScheduleMissed,
                    payload: Payload::Count { id: schedule_id, count: missed },
                },
            );
        }
        self.notices.push(
            Notice {
                kind: InsuranceEvent::ScheduleExecuted,
                payload: Payload::Id { id: schedule_id },
            },
        );
        true
    }

    /// Serves every schedule that is active and due at `now`, in the order
    /// of their identifiers, and returns the identifiers of those served.
    ///
    /// Anyone may ask. A schedule whose policy is gone or out of force is
    /// served all the same. Where serving any schedule would pass a limit,
    /// the answer is `Overflow` and the book stays as it was.
    pub fn execute_due_premium_schedules(&mut self, now: u64) -> (r: Result<Vec<u32>, Abort>)
        requires
            old(self)@.wf(),
        ensures
            final(self)@ == old(self)@.execute_due_premium_schedules(now).0,
            match old(self)@.execute_due_premium_schedules(now).1 {
                Ok(served) => r is Ok && r->Ok_0@ == served,
                Err(e) => r == Err::<Vec<u32>, Abort>(e),
            },
            final(self)@.wf(),
    {
        let ghost before = self@;
        let mut work = self.duplicate();
        let mut served: Vec<u32> = Vec::new();
        let n: usize = work.schedules.len();
        let mut i: usize = 0;
        while i < n
            invariant
                i <= n,
                before == old(self)@,
                before == self@,
                before.wf(),
                n == before.schedules.len(),
                n == work@.schedules.len(),
                work@.wf(),
                before.sweep_upto(i as nat, now) == Some((work@, served@)),
            decreases n - i,
        {
            if work.schedules[i].running().is_due(now) {
                let schedule_id: u32 = work.schedules[i].id;
                if !work.fulfil(i, now) {
                    proof {
                        assert(before.sweep_upto((i + 1) as nat, now) is None);
                        lemma_sweep_stays_failed(before, (i + 1) as nat, n as nat, now);
                    }
                    return Err(Abort::Overflow);
                }
                if !work.advance(i, now) {
                    proof {
                        assert(before.sweep_upto((i + 1) as nat, now) is None);
                        lemma_sweep_stays_failed(before, (i + 1) as nat, n as nat, now);
                    }
                    return Err(Abort::Overflow);
                }
                served.push(schedule_id);
            }
            i += 1;
        }
        *self = work;
        Ok(served)
    }
}

} // verus!
