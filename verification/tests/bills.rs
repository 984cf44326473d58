use payment_schedules::address::Address;
use payment_schedules::bill_payments::{BillPayments, Error};

fn party(key: &str) -> Address {
    Address::new(String::from(key))
}

fn owner() -> Address {
    party("GAAAAAAAAAAAAAAAAAAAAAAAAAAAAAAAAAAAAAAAAAAAAAAAAAAAAWHF")
}

fn other() -> Address {
    party("GBBBBBBBBBBBBBBBBBBBBBBBBBBBBBBBBBBBBBBBBBBBBBBBBBBBBBHP")
}

#[test]
fn test_create_bill() {
    let mut book = BillPayments::new();
    let owner = owner();

    let bill_id = book
        .create_bill(owner.clone(), String::from("Electricity"), 1000, 1000000, false, 0, 0)
        .unwrap();

    assert_eq!(bill_id, 1);

    let bill = book.get_bill(1);
    assert!(bill.is_some());
    let bill = bill.unwrap();
    assert_eq!(bill.amount, 1000);
    assert!(!bill.paid);
}

#[test]
fn test_create_bill_invalid_amount() {
    let mut book = BillPayments::new();
    let result = book.create_bill(owner(), String::from("Invalid"), 0, 1000000, false, 0, 0);

    assert_eq!(result, Err(Error::InvalidAmount));
}

#[test]
fn test_create_recurring_bill_invalid_frequency() {
    let mut book = BillPayments::new();
    let result = book.create_bill(owner(), String::from("Monthly"), 500, 1000000, true, 0, 0);

    assert_eq!(result, Err(Error::InvalidFrequency));
}

#[test]
fn test_create_bill_negative_amount() {
    let mut book = BillPayments::new();
    let result = book.create_bill(owner(), String::from("Invalid"), -100, 1000000, false, 0, 0);

    assert_eq!(result, Err(Error::InvalidAmount));
}

#[test]
fn test_pay_bill() {
    let mut book = BillPayments::new();
    let owner = owner();
    let bill_id = book
        .create_bill(owner.clone(), String::from("Water"), 500, 1000000, false, 0, 0)
        .unwrap();

    book.pay_bill(owner.clone(), bill_id, 0).unwrap();

    let bill = book.get_bill(bill_id).unwrap();
    assert!(bill.paid);

    assert!(bill.paid_at.is_some());
}

#[test]
fn test_recurring_bill() {
    let mut book = BillPayments::new();
    let owner = owner();
    let bill_id = book
        .create_bill(owner.clone(), String::from("Rent"), 10000, 1000000, true, 30, 0)
        .unwrap();

    book.pay_bill(owner.clone(), bill_id, 0).unwrap();

    // The bill that was paid stays paid.
    let bill = book.get_bill(bill_id).unwrap();
    assert!(bill.paid);

    // Its successor is open.
    let bill2 = book.get_bill(2).unwrap();
    assert!(!bill2.paid);

    assert_eq!(bill2.amount, 10000);
    assert_eq!(bill2.due_date, 1000000 + (30 * 86400));
}

#[test]
fn test_get_unpaid_bills() {
    let mut book = BillPayments::new();
    let owner = owner();
    book.create_bill(owner.clone(), String::from("Bill1"), 100, 1000000, false, 0, 0).unwrap();
    book.create_bill(owner.clone(), String::from("Bill2"), 200, 1000000, false, 0, 0).unwrap();
    book.create_bill(owner.clone(), String::from("Bill3"), 300, 1000000, false, 0, 0).unwrap();
    book.pay_bill(owner.clone(), 1, 0).unwrap();

    let unpaid = book.get_unpaid_bills(&owner);
    assert_eq!(unpaid.len(), 2);
}

#[test]
fn test_get_total_unpaid() {
    let mut book = BillPayments::new();
    let owner = owner();
    book.create_bill(owner.clone(), String::from("Bill1"), 100, 1000000, false, 0, 0).unwrap();
    book.create_bill(owner.clone(), String::from("Bill2"), 200, 1000000, false, 0, 0).unwrap();
    book.create_bill(owner.clone(), String::from("Bill3"), 300, 1000000, false, 0, 0).unwrap();
    book.pay_bill(owner.clone(), 1, 0).unwrap();

    let total = book.get_total_unpaid(&owner);
    assert_eq!(total, Ok(500)); // 200 + 300
}

#[test]
fn test_pay_nonexistent_bill() {
    let mut book = BillPayments::new();
    let result = book.pay_bill(owner(), 999, 0);
    assert_eq!(result, Err(Error::BillNotFound));
}

#[test]
fn test_pay_already_paid_bill() {
    let mut book = BillPayments::new();
    let owner = owner();
    let bill_id = book
        .create_bill(owner.clone(), String::from("Test"), 100, 1000000, false, 0, 0)
        .unwrap();
    book.pay_bill(owner.clone(), bill_id, 0).unwrap();
    let result = book.pay_bill(owner.clone(), bill_id, 0);
    assert_eq!(result, Err(Error::BillAlreadyPaid));
}

#[test]
fn test_get_overdue_bills() {
    let now = 2_000_000;
    let mut book = BillPayments::new();
    let owner = owner();
    book.create_bill(owner.clone(), String::from("Overdue1"), 100, 1000000, false, 0, now).unwrap();
    book.create_bill(owner.clone(), String::from("Overdue2"), 200, 1500000, false, 0, now).unwrap();
    book.create_bill(owner.clone(), String::from("Future"), 300, 3000000, false, 0, now).unwrap();

    let overdue = book.get_overdue_bills(now);
    assert_eq!(overdue.len(), 2); // only the first two
}

#[test]
fn test_cancel_bill() {
    let mut book = BillPayments::new();
    let bill_id = book
        .create_bill(owner(), String::from("Test"), 100, 1000000, false, 0, 0)
        .unwrap();
    book.cancel_bill(bill_id).unwrap();
    let bill = book.get_bill(bill_id);
    assert!(bill.is_none());
}

#[test]
fn test_cancel_nonexistent_bill() {
    let mut book = BillPayments::new();
    let result = book.cancel_bill(999);
    assert_eq!(result, Err(Error::BillNotFound));
}

#[test]
fn test_multiple_recurring_payments() {
    let mut book = BillPayments::new();
    let owner = owner();
    let bill_id = book
        .create_bill(owner.clone(), String::from("Subscription"), 999, 1000000, true, 30, 0)
        .unwrap();
    // Paying the first bill brings the second.
    book.pay_bill(owner.clone(), bill_id, 0).unwrap();
    let bill2 = book.get_bill(2).unwrap();
    assert!(!bill2.paid);
    assert_eq!(bill2.due_date, 1000000 + (30 * 86400));
    // Paying the second brings the third.
    book.pay_bill(owner.clone(), 2, 0).unwrap();
    let bill3 = book.get_bill(3).unwrap();
    assert!(!bill3.paid);
    assert_eq!(bill3.due_date, 1000000 + (60 * 86400));
}

#[test]
fn test_get_all_bills() {
    let mut book = BillPayments::new();
    let owner = owner();
    book.create_bill(owner.clone(), String::from("Bill1"), 100, 1000000, false, 0, 0).unwrap();
    book.create_bill(owner.clone(), String::from("Bill2"), 200, 1000000, false, 0, 0).unwrap();
    book.create_bill(owner.clone(), String::from("Bill3"), 300, 1000000, false, 0, 0).unwrap();
    book.pay_bill(owner.clone(), 1, 0).unwrap();

    let all = book.get_all_bills();
    assert_eq!(all.len(), 3);
}

#[test]
fn test_pay_bill_unauthorized() {
    let mut book = BillPayments::new();
    let bill_id = book
        .create_bill(owner(), String::from("Water"), 500, 1000000, false, 0, 0)
        .unwrap();

    let result = book.pay_bill(other(), bill_id, 0);
    assert_eq!(result, Err(Error::Unauthorized));
}

#[test]
fn test_recurring_bill_cancellation() {
    let mut book = BillPayments::new();
    let owner = owner();
    let bill_id = book
        .create_bill(owner.clone(), String::from("Rent"), 1000, 1000000, true, 30, 0)
        .unwrap();

    book.cancel_bill(bill_id).unwrap();

    // It is gone,
    let bill = book.get_bill(bill_id);
    assert!(bill.is_none());

    // and cannot be paid any more.
    let result = book.pay_bill(owner.clone(), bill_id, 0);
    assert_eq!(result, Err(Error::BillNotFound));
}

#[test]
fn test_pay_overdue_bill() {
    let now = 2_000_000; // past the due date
    let mut book = BillPayments::new();
    let owner = owner();
    let bill_id = book
        .create_bill(owner.clone(), String::from("Late"), 500, 1000000, false, 0, now)
        .unwrap();

    let overdue = book.get_overdue_bills(now);
    assert_eq!(overdue.len(), 1);

    book.pay_bill(owner.clone(), bill_id, now).unwrap();

    // Once paid it is overdue no longer.
    let overdue_after = book.get_overdue_bills(now);
    assert_eq!(overdue_after.len(), 0);
}

#[test]
fn test_short_recurrence() {
    let mut book = BillPayments::new();
    let owner = owner();
    let bill_id = book
        .create_bill(owner.clone(), String::from("Daily"), 10, 1000000, true, 1, 0)
        .unwrap();

    book.pay_bill(owner.clone(), bill_id, 0).unwrap();

    let next_bill = book.get_bill(2).unwrap();
    assert_eq!(next_bill.due_date, 1000000 + 86400); // one day later, to the second
}

#[test]
fn test_get_unpaid_bills_many_items() {
    let mut book = BillPayments::new();
    let owner = owner();

    let bill_names = [
        "Bill 0", "Bill 1", "Bill 2", "Bill 3", "Bill 4", "Bill 5", "Bill 6", "Bill 7", "Bill 8",
        "Bill 9", "Bill 10", "Bill 11", "Bill 12", "Bill 13", "Bill 14",
    ];

    let mut created_bill_ids = Vec::new();
    let mut expected_total = 0i128;

    for i in 0..15 {
        let amount = 1000 + (i as i128 * 100);
        expected_total += amount;

        let bill_id = book
            .create_bill(
                owner.clone(),
                String::from(bill_names[i]),
                amount,
                1000000 + (i as u64 * 10000),
                false,
                0,
                0,
            )
            .unwrap();
        created_bill_ids.push(bill_id);
    }

    let unpaid_bills = book.get_unpaid_bills(&owner);
    assert_eq!(unpaid_bills.len(), 15, "Should return exactly 15 unpaid bills");

    for i in 0..unpaid_bills.len() {
        let bill = unpaid_bills.get(i).unwrap();
        assert_eq!(bill.owner, owner, "All bills should belong to the owner");
        assert!(!bill.paid, "All bills should be unpaid");
    }

    let mut found_ids = Vec::new();
    for i in 0..unpaid_bills.len() {
        let bill = unpaid_bills.get(i).unwrap();
        found_ids.push(bill.id);
        assert!(bill.id >= 1 && bill.id <= 15, "Bill ID should be in range 1..=15");
    }

    for i in 0..found_ids.len() {
        for j in (i + 1)..found_ids.len() {
            assert_ne!(
                found_ids.get(i).unwrap(),
                found_ids.get(j).unwrap(),
                "Bill IDs should be unique"
            );
        }
    }

    let total_unpaid = book.get_total_unpaid(&owner);
    assert_eq!(
        total_unpaid,
        Ok(expected_total),
        "Total unpaid should match sum of all bill amounts"
    );

    // Bills of another owner do not mix with these.
    let other_owner = other();
    book.create_bill(
        other_owner.clone(),
        String::from("Other Owner Bill"),
        5000,
        2000000,
        false,
        0,
        0,
    )
    .unwrap();

    let owner_unpaid_after = book.get_unpaid_bills(&owner);
    assert_eq!(owner_unpaid_after.len(), 15, "Owner's unpaid bills should remain unchanged");

    let other_unpaid = book.get_unpaid_bills(&other_owner);
    assert_eq!(other_unpaid.len(), 1, "Other owner should have exactly 1 unpaid bill");
}

#[test]
fn test_pay_bills_and_verify_decreased_counts() {
    let mut book = BillPayments::new();
    let owner = owner();

    let bill_names = [
        "Bill 0", "Bill 1", "Bill 2", "Bill 3", "Bill 4", "Bill 5", "Bill 6", "Bill 7", "Bill 8",
        "Bill 9", "Bill 10", "Bill 11",
    ];

    let mut bill_ids = Vec::new();
    let mut expected_total = 0i128;

    for i in 0..12 {
        let amount = 1000 + (i as i128 * 100);
        expected_total += amount;

        let bill_id = book
            .create_bill(
                owner.clone(),
                String::from(bill_names[i]),
                amount,
                1000000 + (i as u64 * 10000),
                false,
                0,
                0,
            )
            .unwrap();
        bill_ids.push(bill_id);
    }

    let initial_unpaid = book.get_unpaid_bills(&owner);
    let initial_total = book.get_total_unpaid(&owner);
    assert_eq!(initial_unpaid.len(), 12);
    assert_eq!(initial_total, Ok(expected_total));

    for i in 0..3 {
        book.pay_bill(owner.clone(), *bill_ids.get(i).unwrap(), 0).unwrap();
    }

    let after_payment_unpaid = book.get_unpaid_bills(&owner);
    let after_payment_total = book.get_total_unpaid(&owner);
    assert_eq!(after_payment_unpaid.len(), 9, "Should have 9 unpaid bills after paying 3");

    let mut expected_remaining = expected_total;
    for i in 0..3 {
        expected_remaining -= 1000 + (i as i128 * 100);
    }
    assert_eq!(
        after_payment_total,
        Ok(expected_remaining),
        "Total should decrease by paid amounts"
    );

    for i in 0..3 {
        let bill_id = *bill_ids.get(i).unwrap();
        let bill = book.get_bill(bill_id).unwrap();
        assert!(bill.paid, "Paid bill should be marked as paid");
    }

    for i in 3..12 {
        let bill_id = *bill_ids.get(i).unwrap();
        let bill = book.get_bill(bill_id).unwrap();
        assert!(!bill.paid, "Unpaid bill should remain unpaid");
    }

    for i in 3..12 {
        book.pay_bill(owner.clone(), *bill_ids.get(i).unwrap(), 0).unwrap();
    }

    let final_unpaid = book.get_unpaid_bills(&owner);
    let final_total = book.get_total_unpaid(&owner);
    assert_eq!(final_unpaid.len(), 0, "Should have no unpaid bills");
    assert_eq!(final_total, Ok(0), "Total unpaid should be 0");
}
