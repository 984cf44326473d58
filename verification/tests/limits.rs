use payment_schedules::address::Address;
use payment_schedules::bill_payments::{Bill, BillPayments, Error, Schedule};
use payment_schedules::catch_up::{add_days, catch_up, CatchUp};
use payment_schedules::timer::{Served, Timer};

fn alice() -> Address {
    Address::new(String::from("alice"))
}

fn bill(id: u32, amount: i128, due_date: u64, recurring: bool, frequency_days: u32) -> Bill {
    Bill {
        id,
        owner: alice(),
        name: String::from("Bill"),
        amount,
        due_date,
        recurring,
        frequency_days,
        paid: false,
        created_at: 0,
        paid_at: None,
        schedule_id: None,
    }
}

fn schedule(id: u32, next_due: u64, interval: u64, missed_count: u32) -> Schedule {
    Schedule {
        id,
        owner: alice(),
        next_due,
        interval,
        recurring: interval > 0,
        active: true,
        created_at: 0,
        last_executed: None,
        missed_count,
    }
}

#[test]
fn test_add_days_exact() {
    assert_eq!(add_days(1000000, 30), Some(1000000 + 30 * 86400));
    assert_eq!(add_days(0, 0), Some(0));
    assert_eq!(add_days(5, 1), Some(86405));
    assert_eq!(add_days(u64::MAX - 86400, 1), Some(u64::MAX));
    assert_eq!(add_days(u64::MAX - 86399, 1), None);
    assert_eq!(add_days(0, u32::MAX), Some(u32::MAX as u64 * 86400));
}

#[test]
fn test_catch_up_exact() {
    assert_eq!(
        catch_up(3000, 86400, 3000 + 86400 * 3 + 100),
        Some(CatchUp { next_due: 3000 + 86400 * 4, missed: 3 })
    );
    // Served on the dot: one interval on, nothing missed.
    assert_eq!(catch_up(3000, 86400, 3000), Some(CatchUp { next_due: 3000 + 86400, missed: 0 }));
    // One second short of the next occurrence.
    assert_eq!(
        catch_up(3000, 86400, 3000 + 86399),
        Some(CatchUp { next_due: 3000 + 86400, missed: 0 })
    );
    // Exactly at the next occurrence: that one counts as missed.
    assert_eq!(
        catch_up(3000, 86400, 3000 + 86400),
        Some(CatchUp { next_due: 3000 + 2 * 86400, missed: 1 })
    );
    assert_eq!(catch_up(0, 1, 10), Some(CatchUp { next_due: 11, missed: 10 }));
}

#[test]
fn test_catch_up_limits() {
    // The due time would pass the largest time.
    assert_eq!(catch_up(u64::MAX - 5, 10, u64::MAX - 1), None);
    assert_eq!(
        catch_up(u64::MAX - 15, 10, u64::MAX - 10),
        Some(CatchUp { next_due: u64::MAX - 5, missed: 0 })
    );
    // More missed occurrences than the count can hold.
    assert_eq!(catch_up(0, 1, u32::MAX as u64 + 1), None);
    assert_eq!(
        catch_up(0, 1, u32::MAX as u64),
        Some(CatchUp { next_due: u32::MAX as u64 + 1, missed: u32::MAX })
    );
}

#[test]
fn test_timer_serve() {
    let timer = Timer {
        next_due: 3000,
        interval: 100,
        recurring: true,
        active: true,
        last_executed: None,
        missed_count: 4,
    };
    assert!(timer.is_due(3000));
    assert!(!timer.is_due(2999));
    assert_eq!(
        timer.serve(3250),
        Some(Served {
            timer: Timer {
                next_due: 3300,
                interval: 100,
                recurring: true,
                active: true,
                last_executed: Some(3250),
                missed_count: 6,
            },
            missed: 2,
        })
    );

    let once = Timer { interval: 0, recurring: false, ..timer };
    assert_eq!(
        once.serve(3250),
        Some(Served {
            timer: Timer { active: false, last_executed: Some(3250), ..once },
            missed: 0,
        })
    );
    assert!(!Timer { active: false, ..timer }.is_due(5000));

    // The count of missed occurrences would pass its limit.
    let full = Timer { missed_count: u32::MAX - 1, ..timer };
    assert_eq!(full.serve(3250), None);
    assert_eq!(full.serve(3100).unwrap().timer.missed_count, u32::MAX);
}

#[test]
fn test_from_parts_round_trip() {
    let bills = vec![bill(2, 10, 100, false, 0), bill(5, 20, 200, true, 7)];
    let schedules = vec![schedule(1, 3000, 0, 0), schedule(4, 4000, 60, 3)];
    let book = BillPayments::from_parts(bills, 9, schedules, 4).unwrap();
    assert_eq!(book.get_bill(5).unwrap().amount, 20);
    assert!(book.get_bill(3).is_none());
    assert_eq!(book.get_schedule(4).unwrap().missed_count, 3);

    let (bills, next_id, schedules, next_schedule_id) = book.into_parts();
    assert_eq!(bills.len(), 2);
    assert_eq!(bills[0].id, 2);
    assert_eq!(bills[1].id, 5);
    assert_eq!(next_id, 9);
    assert_eq!(schedules.len(), 2);
    assert_eq!(next_schedule_id, 4);
}

#[test]
fn test_from_parts_continues_counting() {
    let mut book = BillPayments::from_parts(vec![bill(2, 10, 100, false, 0)], 9, vec![], 4).unwrap();
    assert_eq!(book.create_bill(alice(), String::from("Next"), 1, 1, false, 0, 0), Ok(10));
    assert_eq!(book.create_schedule(alice(), 10, 50, 0, 0), Ok(5));
    assert_eq!(book.take_notices().len(), 2);
}

#[test]
fn test_from_parts_refuses_what_is_no_book() {
    // Identifiers out of order, or twice.
    assert!(BillPayments::from_parts(vec![bill(2, 1, 1, false, 0), bill(1, 1, 1, false, 0)], 9, vec![], 0).is_none());
    assert!(BillPayments::from_parts(vec![bill(2, 1, 1, false, 0), bill(2, 1, 1, false, 0)], 9, vec![], 0).is_none());
    // An identifier that was never handed out.
    assert!(BillPayments::from_parts(vec![bill(0, 1, 1, false, 0)], 9, vec![], 0).is_none());
    assert!(BillPayments::from_parts(vec![bill(10, 1, 1, false, 0)], 9, vec![], 0).is_none());
    assert!(BillPayments::from_parts(vec![], 0, vec![schedule(1, 1, 0, 0)], 0).is_none());
    // Records that are not sound.
    assert!(BillPayments::from_parts(vec![bill(1, 0, 1, false, 0)], 9, vec![], 0).is_none());
    assert!(BillPayments::from_parts(vec![bill(1, 5, 1, true, 0)], 9, vec![], 0).is_none());
    let mut paid_without_time = bill(1, 5, 1, false, 0);
    paid_without_time.paid = true;
    assert!(BillPayments::from_parts(vec![paid_without_time], 9, vec![], 0).is_none());
    let mut odd = schedule(1, 1, 60, 0);
    odd.recurring = false;
    assert!(BillPayments::from_parts(vec![], 0, vec![odd], 3).is_none());
    // The empty book is a book.
    assert!(BillPayments::from_parts(vec![], 0, vec![], 0).is_some());
}

#[test]
fn test_bill_identifiers_run_out() {
    let mut book =
        BillPayments::from_parts(vec![bill(1, 10, 100, true, 1)], u32::MAX, vec![], 0).unwrap();
    assert_eq!(
        book.create_bill(alice(), String::from("One too many"), 1, 1, false, 0, 0),
        Err(Error::Overflow)
    );
    // Validation comes first.
    assert_eq!(
        book.create_bill(alice(), String::from("Bad"), 0, 1, false, 0, 0),
        Err(Error::InvalidAmount)
    );
    // A recurring bill cannot be paid when its successor has no identifier.
    assert_eq!(book.pay_bill(alice(), 1, 0), Err(Error::Overflow));
    assert!(!book.get_bill(1).unwrap().paid);
    assert_eq!(book.get_all_bills().len(), 1);
    assert_eq!(book.take_notices().len(), 0);
}

#[test]
fn test_schedule_identifiers_run_out() {
    let mut book =
        BillPayments::from_parts(vec![bill(1, 10, 100, false, 0)], 1, vec![], u32::MAX).unwrap();
    assert_eq!(book.create_schedule(alice(), 1, 10, 0, 0), Err(Error::Overflow));
    assert_eq!(book.get_bill(1).unwrap().schedule_id, None);
}

#[test]
fn test_successor_due_time_does_not_fit() {
    let mut book = BillPayments::new();
    let id = book
        .create_bill(alice(), String::from("Far"), 10, u64::MAX - 86399, true, 1, 0)
        .unwrap();
    assert_eq!(book.pay_bill(alice(), id, 0), Err(Error::Overflow));
    assert!(!book.get_bill(id).unwrap().paid);

    let near = book
        .create_bill(alice(), String::from("Near"), 10, u64::MAX - 86400, true, 1, 0)
        .unwrap();
    assert_eq!(book.pay_bill(alice(), near, 0), Ok(()));
    assert_eq!(book.get_bill(near + 1).unwrap().due_date, u64::MAX);
}

#[test]
fn test_total_unpaid_does_not_fit() {
    let mut book = BillPayments::new();
    book.create_bill(alice(), String::from("Huge"), i128::MAX, 1, false, 0, 0).unwrap();
    assert_eq!(book.get_total_unpaid(&alice()), Ok(i128::MAX));
    book.create_bill(alice(), String::from("Straw"), 1, 1, false, 0, 0).unwrap();
    assert_eq!(book.get_total_unpaid(&alice()), Err(Error::Overflow));
    book.pay_bill(alice(), 2, 0).unwrap();
    assert_eq!(book.get_total_unpaid(&alice()), Ok(i128::MAX));
}

#[test]
fn test_sweep_over_limit_changes_nothing() {
    // The first schedule can be served, the second cannot: neither is.
    let bills = vec![bill(1, 10, 100, false, 0), bill(2, 20, 100, false, 0)];
    let mut first = bills[0].clone();
    first.schedule_id = Some(1);
    let mut second = bills[1].clone();
    second.schedule_id = Some(2);
    let schedules = vec![schedule(1, 3000, 0, 0), schedule(2, 3000, 100, u32::MAX)];
    let mut book = BillPayments::from_parts(vec![first, second], 2, schedules, 2).unwrap();

    assert_eq!(book.execute_due_schedules(3100), Err(Error::Overflow));
    assert!(!book.get_bill(1).unwrap().paid);
    assert!(!book.get_bill(2).unwrap().paid);
    assert!(book.get_schedule(1).unwrap().active);
    assert_eq!(book.get_schedule(1).unwrap().last_executed, None);
    assert_eq!(book.get_schedule(2).unwrap().next_due, 3000);
    assert_eq!(book.take_notices().len(), 0);

    // Served in time, nothing is missed and the count stays within bounds.
    assert_eq!(book.execute_due_schedules(3099), Ok(vec![1, 2]));
    assert_eq!(book.get_schedule(2).unwrap().missed_count, u32::MAX);
    assert!(book.get_bill(1).unwrap().paid);
    assert!(book.get_bill(2).unwrap().paid);
}

#[test]
fn test_sweep_runs_out_of_bill_identifiers() {
    // Two recurring bills, each paid by a due schedule, and one identifier
    // left: the second successor has none, so nothing happens at all.
    let mut first = bill(1, 10, 100, true, 1);
    first.schedule_id = Some(1);
    let mut second = bill(2, 20, 100, true, 1);
    second.schedule_id = Some(2);
    let schedules = vec![schedule(1, 3000, 0, 0), schedule(2, 3000, 0, 0)];
    let mut book = BillPayments::from_parts(
        vec![first.clone(), second.clone()],
        u32::MAX - 1,
        schedules,
        2,
    )
    .unwrap();
    assert_eq!(book.execute_due_schedules(3000), Err(Error::Overflow));
    assert_eq!(book.get_all_bills().len(), 2);
    assert!(!book.get_bill(1).unwrap().paid);
    assert!(book.get_schedule(1).unwrap().active);

    // With the second schedule not yet due, one identifier is enough.
    let schedules = vec![schedule(1, 3000, 0, 0), schedule(2, 4000, 0, 0)];
    let mut book =
        BillPayments::from_parts(vec![first, second], u32::MAX - 1, schedules, 2).unwrap();
    assert_eq!(book.execute_due_schedules(3000), Ok(vec![1]));
    let all = book.get_all_bills();
    assert_eq!(all.len(), 3);
    assert_eq!(all[2].id, u32::MAX);
    assert_eq!(all[2].due_date, 100 + 86400);
    assert_eq!(book.execute_due_schedules(4000), Err(Error::Overflow));
}
