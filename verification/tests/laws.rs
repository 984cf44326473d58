use payment_schedules::address::Address;
use payment_schedules::bill_payments::{BillPayments, Error};

fn party(key: &str) -> Address {
    Address::new(String::from(key))
}

#[test]
fn test_address_identity() {
    let a = party("alice");
    assert!(a.is(&party("alice")));
    assert!(!a.is(&party("alicf")));
    assert!(!a.is(&party("")));
    assert_eq!(a, a.clone());
    assert_ne!(a, party("Alice"));
}

#[test]
fn test_refused_bill_uses_no_identifier() {
    let mut book = BillPayments::new();
    let a = party("alice");
    assert_eq!(
        book.create_bill(a.clone(), String::from("x"), 0, 1, false, 0, 0),
        Err(Error::InvalidAmount)
    );
    assert_eq!(
        book.create_bill(a.clone(), String::from("x"), -7, 1, true, 0, 0),
        Err(Error::InvalidAmount)
    );
    assert_eq!(
        book.create_bill(a.clone(), String::from("x"), 7, 1, true, 0, 0),
        Err(Error::InvalidFrequency)
    );
    assert_eq!(book.get_all_bills().len(), 0);
    assert_eq!(book.take_notices().len(), 0);
    // A period without recurrence is no fault.
    assert_eq!(book.create_bill(a.clone(), String::from("x"), 7, 1, false, 9, 0), Ok(1));
    assert_eq!(book.create_bill(a.clone(), String::from("y"), 1, 1, true, 1, 0), Ok(2));
    let (_, next_id, _, _) = book.into_parts();
    assert_eq!(next_id, 2);
}

#[test]
fn test_total_unpaid_follows_every_operation() {
    let mut book = BillPayments::new();
    let a = party("alice");
    let b = party("bob");
    let sum = |book: &BillPayments, who: &Address| -> i128 {
        book.get_all_bills()
            .iter()
            .filter(|bill| !bill.paid && bill.owner == *who)
            .map(|bill| bill.amount)
            .sum()
    };
    let check = |book: &BillPayments| {
        for who in [&a, &b] {
            assert_eq!(book.get_total_unpaid(who), Ok(sum(book, who)));
            let listed: i128 = book.get_unpaid_bills(who).iter().map(|bill| bill.amount).sum();
            assert_eq!(book.get_total_unpaid(who), Ok(listed));
        }
    };

    check(&book);
    book.create_bill(a.clone(), String::from("rent"), 900, 2000, true, 30, 1000).unwrap();
    check(&book);
    assert_eq!(book.get_total_unpaid(&a), Ok(900));
    book.create_bill(b.clone(), String::from("phone"), 40, 2000, false, 0, 1000).unwrap();
    book.create_bill(a.clone(), String::from("water"), 60, 2000, false, 0, 1000).unwrap();
    check(&book);
    assert_eq!(book.get_total_unpaid(&a), Ok(960));
    assert_eq!(book.get_total_unpaid(&b), Ok(40));
    // A recurring bill that is paid comes back: the debt stays.
    book.pay_bill(a.clone(), 1, 1500).unwrap();
    check(&book);
    assert_eq!(book.get_total_unpaid(&a), Ok(960));
    // One that does not recur is gone for good.
    book.pay_bill(a.clone(), 3, 1500).unwrap();
    check(&book);
    assert_eq!(book.get_total_unpaid(&a), Ok(900));
    book.create_schedule(b.clone(), 2, 3000, 0, 1500).unwrap();
    check(&book);
    book.execute_due_schedules(3000).unwrap();
    check(&book);
    assert_eq!(book.get_total_unpaid(&b), Ok(0));
    book.cancel_bill(4).unwrap();
    check(&book);
    assert_eq!(book.get_total_unpaid(&a), Ok(0));
    assert!(book.pay_bill(a.clone(), 4, 1500).is_err());
    check(&book);
}

#[test]
fn test_paying_recurring_bill_adds_exactly_one() {
    let mut book = BillPayments::new();
    let a = party("alice");
    book.create_bill(a.clone(), String::from("other"), 5, 77, false, 0, 10).unwrap();
    book.create_bill(a.clone(), String::from("rent"), 900, 1000000, true, 7, 10).unwrap();
    book.pay_bill(a.clone(), 2, 500).unwrap();

    let all = book.get_all_bills();
    assert_eq!(all.len(), 3);
    assert!(!all[0].paid);
    assert!(all[1].paid);
    assert_eq!(all[1].paid_at, Some(500));
    assert_eq!(all[2].id, 3);
    assert_eq!(all[2].due_date, 1000000 + 7 * 86400);
    assert!(!all[2].paid);
    assert_eq!(all[2].owner, a);
    assert_eq!(all[2].amount, 900);
    assert_eq!(all[2].frequency_days, 7);
    assert!(all[2].recurring);
    assert_eq!(all[2].created_at, 500);

    // One that does not recur adds none.
    book.pay_bill(a.clone(), 1, 500).unwrap();
    assert_eq!(book.get_all_bills().len(), 3);
}

#[test]
fn test_anyone_may_cancel_a_bill() {
    let mut book = BillPayments::new();
    let id = book
        .create_bill(party("alice"), String::from("rent"), 900, 1000, false, 0, 10)
        .unwrap();
    // The operation takes no caller at all: whoever holds the book may ask.
    assert_eq!(book.cancel_bill(id), Ok(()));
    assert_eq!(book.cancel_bill(id), Err(Error::BillNotFound));
    // The identifier is not handed out again.
    assert_eq!(
        book.create_bill(party("alice"), String::from("rent"), 900, 1000, false, 0, 10),
        Ok(2)
    );
}

#[test]
fn test_overdue_is_strictly_before_now() {
    let mut book = BillPayments::new();
    let a = party("alice");
    book.create_bill(a.clone(), String::from("x"), 1, 1000, false, 0, 0).unwrap();
    assert_eq!(book.get_overdue_bills(1000).len(), 0);
    assert_eq!(book.get_overdue_bills(1001).len(), 1);
    assert_eq!(book.get_overdue_bills(1001)[0].id, 1);
}
