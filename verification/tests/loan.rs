use kyrene::loan::{Loan, LoanStorage};

#[test]
fn new_slot_is_owned() {
    let slot: LoanStorage<i64> = LoanStorage::new(7);
    assert!(matches!(slot.as_owned_ref(), Some(&7)));
    assert!(!slot.is_vacant());
    assert_eq!(slot.share_count(), 0);
}

#[test]
fn default_slot_is_vacant() {
    let slot: LoanStorage<i64> = LoanStorage::default();
    assert!(slot.is_vacant());
    assert!(slot.peek().is_none());
}

#[test]
fn shared_checkouts_all_granted() {
    // several shared checkouts of one slot succeed simultaneously while no
    // exclusive checkout is outstanding
    let mut slot: LoanStorage<i64> = LoanStorage::new(42);
    let mut loans: Vec<Loan> = Vec::new();
    for k in 1..=5u64 {
        let loan = slot.checkout_shared().expect("shared checkout should be granted");
        assert_eq!(Loan::strong_count(&loan), k);
        loans.push(loan);
    }
    assert_eq!(slot.share_count(), 5);
    assert!(matches!(slot.peek(), Some(&42)));
    // while shared, no exclusive checkout
    assert!(slot.checkout_exclusive().is_none());
    for _ in 0..5 {
        slot.release_shared();
    }
    // last release restored the uncontended state
    assert!(matches!(slot.as_owned_ref(), Some(&42)));
}

#[test]
fn exclusive_checkout_is_exclusive() {
    // of two exclusive checkout requests, exactly one succeeds first; the
    // second succeeds only after the first value is returned
    let mut slot: LoanStorage<i64> = LoanStorage::new(1);
    let first = slot.checkout_exclusive();
    assert_eq!(first, Some(1));
    // the value has physically left the slot
    assert!(slot.peek().is_none());
    let second = slot.checkout_exclusive();
    assert!(second.is_none());
    // shared checkouts are refused too
    assert!(slot.checkout_shared().is_none());
    slot.return_exclusive(first.unwrap() + 10);
    let third = slot.checkout_exclusive();
    assert_eq!(third, Some(11));
}

#[test]
fn into_owned_only_from_owned() {
    let slot: LoanStorage<i64> = LoanStorage::new(5);
    assert!(matches!(slot.into_owned(), Ok(5)));

    let mut slot2: LoanStorage<i64> = LoanStorage::new(6);
    slot2.checkout_shared().unwrap();
    assert!(slot2.into_owned().is_err());
}

#[test]
fn shared_then_owned_roundtrip() {
    let mut slot: LoanStorage<i64> = LoanStorage::new(9);
    let loan = slot.checkout_shared().unwrap();
    assert_eq!(Loan::strong_count(&loan), 1);
    assert!(matches!(slot.peek(), Some(&9)));
    slot.release_shared();
    assert!(matches!(slot.into_owned(), Ok(9)));
}
