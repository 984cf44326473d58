use payment_schedules::address::Address;
use payment_schedules::insurance::{
    Abort, Insurance, InsuranceEvent, InsurancePolicy, PremiumSchedule,
};
use payment_schedules::notice::Payload;

const MONTH: u64 = 30 * 86400;

fn party(key: &str) -> Address {
    Address::new(String::from(key))
}

fn carol() -> Address {
    party("GCCCCCCCCCCCCCCCCCCCCCCCCCCCCCCCCCCCCCCCCCCCCCCCCCCCCAAA")
}

fn dave() -> Address {
    party("GDDDDDDDDDDDDDDDDDDDDDDDDDDDDDDDDDDDDDDDDDDDDDDDDDDDDBBB")
}

fn health(book: &mut Insurance, owner: Address, premium: i128, now: u64) -> u32 {
    book.create_policy(owner, String::from("Health"), String::from("health"), premium, 50000, now)
        .unwrap()
}

#[test]
fn test_create_policy() {
    let mut book = Insurance::new();
    let id = health(&mut book, carol(), 100, 1000);
    assert_eq!(id, 1);

    let policy = book.get_policy(1).unwrap();
    assert_eq!(policy.id, 1);
    assert_eq!(policy.owner, carol());
    assert_eq!(policy.name, "Health");
    assert_eq!(policy.coverage_type, "health");
    assert_eq!(policy.monthly_premium, 100);
    assert_eq!(policy.coverage_amount, 50000);
    assert!(policy.active);
    assert_eq!(policy.next_payment_date, 1000 + MONTH);
    assert_eq!(policy.schedule_id, None);

    assert_eq!(health(&mut book, dave(), 5, 1000), 2);
    assert!(book.get_policy(3).is_none());
}

#[test]
fn test_create_policy_invalid_premium() {
    let mut book = Insurance::new();
    let zero = book.create_policy(carol(), String::from("P"), String::from("t"), 0, 50000, 0);
    assert_eq!(zero, Err(Abort::InvalidPremium));
    let negative = book.create_policy(carol(), String::from("P"), String::from("t"), -1, 50000, 0);
    assert_eq!(negative, Err(Abort::InvalidPremium));
    // The premium is looked at first.
    let both = book.create_policy(carol(), String::from("P"), String::from("t"), 0, 0, 0);
    assert_eq!(both, Err(Abort::InvalidPremium));
    // No identifier was used up.
    assert_eq!(health(&mut book, carol(), 100, 0), 1);
}

#[test]
fn test_create_policy_invalid_coverage() {
    let mut book = Insurance::new();
    let zero = book.create_policy(carol(), String::from("P"), String::from("t"), 100, 0, 0);
    assert_eq!(zero, Err(Abort::InvalidCoverage));
    let negative = book.create_policy(carol(), String::from("P"), String::from("t"), 100, -5, 0);
    assert_eq!(negative, Err(Abort::InvalidCoverage));
    assert!(book.get_policy(1).is_none());
    assert_eq!(book.take_notices().len(), 0);
}

#[test]
fn test_pay_premium() {
    let mut book = Insurance::new();
    let id = health(&mut book, carol(), 100, 1000);
    assert_eq!(book.pay_premium(carol(), id, 5000), Ok(true));
    assert_eq!(book.get_policy(id).unwrap().next_payment_date, 5000 + MONTH);
}

#[test]
fn test_pay_premium_refusals() {
    let mut book = Insurance::new();
    let id = health(&mut book, carol(), 100, 1000);
    assert_eq!(book.pay_premium(carol(), 9, 5000), Err(Abort::PolicyNotFound));
    assert_eq!(book.pay_premium(dave(), id, 5000), Err(Abort::NotPolicyOwner));
    book.deactivate_policy(carol(), id).unwrap();
    assert_eq!(book.pay_premium(carol(), id, 5000), Err(Abort::PolicyInactive));
    // A stranger is turned away before the state of the policy is looked at.
    assert_eq!(book.pay_premium(dave(), id, 5000), Err(Abort::NotPolicyOwner));
    assert_eq!(book.get_policy(id).unwrap().next_payment_date, 1000 + MONTH);
}

#[test]
fn test_deactivate_policy() {
    let mut book = Insurance::new();
    let id = health(&mut book, carol(), 100, 1000);
    assert_eq!(book.deactivate_policy(dave(), id), Err(Abort::NotPolicyOwner));
    assert_eq!(book.deactivate_policy(carol(), 2), Err(Abort::PolicyNotFound));
    assert!(book.get_policy(id).unwrap().active);
    assert_eq!(book.deactivate_policy(carol(), id), Ok(true));
    assert!(!book.get_policy(id).unwrap().active);
    // Once more changes nothing but is no fault.
    assert_eq!(book.deactivate_policy(carol(), id), Ok(true));
    assert!(!book.get_policy(id).unwrap().active);
}

#[test]
fn test_get_active_policies_and_total() {
    let mut book = Insurance::new();
    health(&mut book, carol(), 100, 0);
    health(&mut book, dave(), 40, 0);
    health(&mut book, carol(), 250, 0);
    health(&mut book, carol(), 7, 0);
    book.deactivate_policy(carol(), 3).unwrap();

    let active = book.get_active_policies(&carol());
    assert_eq!(active.len(), 2);
    assert_eq!(active[0].id, 1);
    assert_eq!(active[1].id, 4);
    assert_eq!(book.get_total_monthly_premium(&carol()), Ok(107));
    assert_eq!(book.get_total_monthly_premium(&dave()), Ok(40));
    assert_eq!(book.get_total_monthly_premium(&party("nobody")), Ok(0));
    assert_eq!(book.get_active_policies(&party("nobody")).len(), 0);

    // Paying a premium leaves the monthly total as it was.
    book.pay_premium(carol(), 1, 10).unwrap();
    assert_eq!(book.get_total_monthly_premium(&carol()), Ok(107));
}

#[test]
fn test_total_premium_does_not_fit() {
    let mut book = Insurance::new();
    health(&mut book, carol(), i128::MAX, 0);
    assert_eq!(book.get_total_monthly_premium(&carol()), Ok(i128::MAX));
    health(&mut book, carol(), 1, 0);
    assert_eq!(book.get_total_monthly_premium(&carol()), Err(Abort::Overflow));
}

#[test]
fn test_create_premium_schedule() {
    let mut book = Insurance::new();
    let policy_id = health(&mut book, carol(), 100, 1000);
    let schedule_id = book.create_premium_schedule(carol(), policy_id, 3000, 86400, 1000).unwrap();
    assert_eq!(schedule_id, 1);

    let schedule = book.get_premium_schedule(schedule_id).unwrap();
    assert_eq!(schedule.owner, carol());
    assert_eq!(schedule.policy_id, policy_id);
    assert_eq!(schedule.next_due, 3000);
    assert_eq!(schedule.interval, 86400);
    assert!(schedule.recurring);
    assert!(schedule.active);
    assert_eq!(schedule.created_at, 1000);
    assert_eq!(schedule.last_executed, None);
    assert_eq!(schedule.missed_count, 0);
    assert_eq!(book.get_policy(policy_id).unwrap().schedule_id, Some(1));
}

#[test]
fn test_create_premium_schedule_refusals() {
    let mut book = Insurance::new();
    let policy_id = health(&mut book, carol(), 100, 1000);
    assert_eq!(
        book.create_premium_schedule(carol(), 5, 3000, 0, 1000),
        Err(Abort::PolicyNotFound)
    );
    assert_eq!(
        book.create_premium_schedule(dave(), policy_id, 3000, 0, 1000),
        Err(Abort::NotPolicyOwner)
    );
    assert_eq!(
        book.create_premium_schedule(carol(), policy_id, 1000, 0, 1000),
        Err(Abort::DueDateNotInFuture)
    );
    assert_eq!(
        book.create_premium_schedule(carol(), policy_id, 999, 0, 1000),
        Err(Abort::DueDateNotInFuture)
    );
    assert!(book.get_premium_schedule(1).is_none());
    assert_eq!(book.get_policy(policy_id).unwrap().schedule_id, None);
}

#[test]
fn test_modify_premium_schedule() {
    let mut book = Insurance::new();
    let policy_id = health(&mut book, carol(), 100, 1000);
    let schedule_id = book.create_premium_schedule(carol(), policy_id, 3000, 86400, 1000).unwrap();

    assert_eq!(book.modify_premium_schedule(carol(), schedule_id, 4000, 0, 1000), Ok(true));
    let schedule = book.get_premium_schedule(schedule_id).unwrap();
    assert_eq!(schedule.next_due, 4000);
    assert_eq!(schedule.interval, 0);
    assert!(!schedule.recurring);

    assert_eq!(
        book.modify_premium_schedule(dave(), schedule_id, 5000, 10, 1000),
        Err(Abort::NotScheduleOwner)
    );
    assert_eq!(
        book.modify_premium_schedule(carol(), 8, 5000, 10, 1000),
        Err(Abort::ScheduleNotFound)
    );
    // A due time in the past is turned away before the schedule is looked for.
    assert_eq!(
        book.modify_premium_schedule(carol(), 8, 1000, 10, 1000),
        Err(Abort::DueDateNotInFuture)
    );
    assert_eq!(
        book.modify_premium_schedule(dave(), schedule_id, 500, 10, 1000),
        Err(Abort::DueDateNotInFuture)
    );
    assert_eq!(book.get_premium_schedule(schedule_id).unwrap().next_due, 4000);
}

#[test]
fn test_cancel_premium_schedule() {
    let mut book = Insurance::new();
    let policy_id = health(&mut book, carol(), 100, 1000);
    let schedule_id = book.create_premium_schedule(carol(), policy_id, 3000, 86400, 1000).unwrap();
    assert_eq!(book.cancel_premium_schedule(dave(), schedule_id), Err(Abort::NotScheduleOwner));
    assert_eq!(book.cancel_premium_schedule(carol(), 4), Err(Abort::ScheduleNotFound));
    assert_eq!(book.cancel_premium_schedule(carol(), schedule_id), Ok(true));
    assert!(!book.get_premium_schedule(schedule_id).unwrap().active);
    assert_eq!(book.execute_due_premium_schedules(10000), Ok(vec![]));
    assert_eq!(book.get_policy(policy_id).unwrap().next_payment_date, 1000 + MONTH);
}

#[test]
fn test_get_premium_schedules() {
    let mut book = Insurance::new();
    let first = health(&mut book, carol(), 100, 1000);
    let second = health(&mut book, dave(), 100, 1000);
    book.create_premium_schedule(carol(), first, 3000, 0, 1000).unwrap();
    book.create_premium_schedule(dave(), second, 3000, 0, 1000).unwrap();
    book.create_premium_schedule(carol(), first, 4000, 10, 1000).unwrap();

    let mine = book.get_premium_schedules(&carol());
    assert_eq!(mine.len(), 2);
    assert_eq!(mine[0].id, 1);
    assert_eq!(mine[1].id, 3);
    // The policy remembers the schedule entered last.
    assert_eq!(book.get_policy(first).unwrap().schedule_id, Some(3));
}

#[test]
fn test_execute_due_premium_schedules() {
    let mut book = Insurance::new();
    let policy_id = health(&mut book, carol(), 100, 1000);
    let schedule_id = book.create_premium_schedule(carol(), policy_id, 3000, 0, 1000).unwrap();

    assert_eq!(book.execute_due_premium_schedules(2999), Ok(vec![]));
    assert_eq!(book.execute_due_premium_schedules(3500), Ok(vec![schedule_id]));
    assert_eq!(book.get_policy(policy_id).unwrap().next_payment_date, 3500 + MONTH);
    let schedule = book.get_premium_schedule(schedule_id).unwrap();
    assert!(!schedule.active);
    assert_eq!(schedule.last_executed, Some(3500));

    // Served once, and never again.
    assert_eq!(book.execute_due_premium_schedules(3500), Ok(vec![]));
    assert_eq!(book.execute_due_premium_schedules(99999), Ok(vec![]));
    assert_eq!(book.get_policy(policy_id).unwrap().next_payment_date, 3500 + MONTH);
}

#[test]
fn test_execute_missed_premium_schedules() {
    let mut book = Insurance::new();
    let policy_id = health(&mut book, carol(), 100, 1000);
    let schedule_id = book.create_premium_schedule(carol(), policy_id, 3000, 86400, 1000).unwrap();

    let now = 3000 + 86400 * 3 + 100;
    assert_eq!(book.execute_due_premium_schedules(now), Ok(vec![schedule_id]));
    let schedule = book.get_premium_schedule(schedule_id).unwrap();
    assert_eq!(schedule.missed_count, 3);
    assert_eq!(schedule.next_due, 3000 + 86400 * 4);
    assert!(schedule.active);
    assert_eq!(book.get_policy(policy_id).unwrap().next_payment_date, now + MONTH);

    assert_eq!(book.execute_due_premium_schedules(now), Ok(vec![]));
    assert_eq!(book.get_premium_schedule(schedule_id).unwrap().missed_count, 3);
}

#[test]
fn test_schedule_of_inactive_policy_still_runs() {
    let mut book = Insurance::new();
    let policy_id = health(&mut book, carol(), 100, 1000);
    let schedule_id = book.create_premium_schedule(carol(), policy_id, 3000, 500, 1000).unwrap();
    book.deactivate_policy(carol(), policy_id).unwrap();
    book.take_notices();

    assert_eq!(book.execute_due_premium_schedules(3600), Ok(vec![schedule_id]));
    // No premium was paid,
    assert_eq!(book.get_policy(policy_id).unwrap().next_payment_date, 1000 + MONTH);
    // yet the schedule moved on.
    let schedule = book.get_premium_schedule(schedule_id).unwrap();
    assert_eq!(schedule.next_due, 4000);
    assert_eq!(schedule.missed_count, 1);

    let notices = book.take_notices();
    assert_eq!(notices.len(), 2);
    assert_eq!(notices[0].kind, InsuranceEvent::ScheduleMissed);
    assert!(matches!(&notices[0].payload, Payload::Count { id, count } if *id == schedule_id && *count == 1));
    assert_eq!(notices[1].kind, InsuranceEvent::ScheduleExecuted);
    assert!(matches!(&notices[1].payload, Payload::Id { id } if *id == schedule_id));
}

#[test]
fn test_schedule_of_missing_policy_still_runs() {
    let schedule = PremiumSchedule {
        id: 1,
        owner: carol(),
        policy_id: 77,
        next_due: 3000,
        interval: 0,
        recurring: false,
        active: true,
        created_at: 0,
        last_executed: None,
        missed_count: 0,
    };
    let mut book = Insurance::from_parts(vec![], 0, vec![schedule], 1).unwrap();
    assert_eq!(book.execute_due_premium_schedules(3000), Ok(vec![1]));
    assert!(!book.get_premium_schedule(1).unwrap().active);
}

#[test]
fn test_insurance_notices() {
    let mut book = Insurance::new();
    let policy_id = health(&mut book, carol(), 100, 1000);
    let schedule_id = book.create_premium_schedule(carol(), policy_id, 3000, 0, 1000).unwrap();
    book.pay_premium(carol(), policy_id, 1500).unwrap();
    book.modify_premium_schedule(carol(), schedule_id, 3100, 0, 1500).unwrap();
    book.execute_due_premium_schedules(3100).unwrap();
    book.cancel_premium_schedule(carol(), schedule_id).unwrap();
    book.deactivate_policy(carol(), policy_id).unwrap();
    assert!(book.pay_premium(carol(), policy_id, 1500).is_err());

    let notices = book.take_notices();
    let kinds: Vec<InsuranceEvent> = notices.iter().map(|n| n.kind).collect();
    assert_eq!(
        kinds,
        vec![
            InsuranceEvent::PolicyCreated,
            InsuranceEvent::ScheduleCreated,
            InsuranceEvent::PremiumPaid,
            InsuranceEvent::ScheduleModified,
            InsuranceEvent::PremiumPaid,
            InsuranceEvent::ScheduleExecuted,
            InsuranceEvent::ScheduleCancelled,
            InsuranceEvent::PolicyDeactivated,
        ]
    );
    assert!(matches!(&notices[0].payload, Payload::Party { id, who } if *id == policy_id && *who == carol()));
    assert!(matches!(&notices[4].payload, Payload::Party { id, who } if *id == policy_id && *who == carol()));
    assert_eq!(book.take_notices().len(), 0);
}

#[test]
fn test_insurance_limits() {
    let policy = InsurancePolicy {
        id: 1,
        owner: carol(),
        name: String::from("P"),
        coverage_type: String::from("t"),
        monthly_premium: 1,
        coverage_amount: 1,
        active: true,
        next_payment_date: 0,
        schedule_id: None,
    };
    let schedule = PremiumSchedule {
        id: 1,
        owner: carol(),
        policy_id: 1,
        next_due: 3000,
        interval: 0,
        recurring: false,
        active: true,
        created_at: 0,
        last_executed: None,
        missed_count: 0,
    };
    let mut book =
        Insurance::from_parts(vec![policy], u32::MAX, vec![schedule], u32::MAX).unwrap();

    assert_eq!(
        book.create_policy(carol(), String::from("P"), String::from("t"), 1, 1, 0),
        Err(Abort::Overflow)
    );
    assert_eq!(book.create_premium_schedule(carol(), 1, 10, 0, 0), Err(Abort::Overflow));
    // Thirty days after the end of time there is no time.
    let late = u64::MAX - MONTH + 1;
    assert_eq!(book.pay_premium(carol(), 1, late), Err(Abort::Overflow));
    assert_eq!(book.pay_premium(carol(), 1, late - 1), Ok(true));
    assert_eq!(book.get_policy(1).unwrap().next_payment_date, u64::MAX);
    assert_eq!(book.execute_due_premium_schedules(late), Err(Abort::Overflow));
    assert!(book.get_premium_schedule(1).unwrap().active);
    assert_eq!(book.get_policy(1).unwrap().next_payment_date, u64::MAX);

    let mut fresh = Insurance::new();
    assert_eq!(
        fresh.create_policy(carol(), String::from("P"), String::from("t"), 1, 1, late),
        Err(Abort::Overflow)
    );
    assert_eq!(
        fresh.create_policy(carol(), String::from("P"), String::from("t"), 1, 1, late - 1),
        Ok(1)
    );
}

#[test]
fn test_insurance_from_parts() {
    let policy = |id: u32, premium: i128| InsurancePolicy {
        id,
        owner: carol(),
        name: String::from("P"),
        coverage_type: String::from("t"),
        monthly_premium: premium,
        coverage_amount: 1,
        active: true,
        next_payment_date: 0,
        schedule_id: None,
    };
    assert!(Insurance::from_parts(vec![policy(1, 1), policy(2, 1)], 2, vec![], 0).is_some());
    assert!(Insurance::from_parts(vec![policy(2, 1), policy(1, 1)], 2, vec![], 0).is_none());
    assert!(Insurance::from_parts(vec![policy(3, 1)], 2, vec![], 0).is_none());
    assert!(Insurance::from_parts(vec![policy(1, 0)], 2, vec![], 0).is_none());

    let book = Insurance::from_parts(vec![policy(1, 4), policy(2, 6)], 5, vec![], 3).unwrap();
    assert_eq!(book.get_total_monthly_premium(&carol()), Ok(10));
    let (policies, next_id, schedules, next_schedule_id) = book.into_parts();
    assert_eq!(policies.len(), 2);
    assert_eq!(next_id, 5);
    assert_eq!(schedules.len(), 0);
    assert_eq!(next_schedule_id, 3);
}
