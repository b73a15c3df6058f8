use digital_cash::Bill;
use digital_cash::CashTransaction;
use digital_cash::DigitalCashSystem;
use digital_cash::State;
use digital_cash::User;

fn bill(owner: User, amount: u64, serial: u64) -> Bill {
    Bill {
        owner,
        amount,
        serial,
    }
}

#[test]
fn rejection_leaves_state_identical() {
    // Receiving more than is spent fails the conservation check: the state
    // afterwards equals the starting state, serial cursor included.
    let start = State::from_bills(vec![bill(User::Alice, 10, 0)]);
    let end = DigitalCashSystem::next_state(
        &start,
        &CashTransaction::Transfer {
            spends: vec![bill(User::Alice, 10, 0)],
            receives: vec![bill(User::Bob, 11, 1)],
        },
    );
    assert_eq!(end, start);
    assert_eq!(end.next_serial(), start.next_serial());
}

#[test]
fn empty_transfer_is_a_no_op() {
    let start = State::from_bills(vec![bill(User::Alice, 7, 0)]);
    let end = DigitalCashSystem::next_state(
        &start,
        &CashTransaction::Transfer {
            spends: vec![],
            receives: vec![],
        },
    );
    assert_eq!(end, start);
}

#[test]
fn serial_advances_by_bills_created() {
    // Two mints then a fan-out transfer: the cursor rises by one per mint
    // and by one per received bill, and never falls.
    let s0 = State::new();
    assert_eq!(s0.next_serial(), 0);
    let s1 = DigitalCashSystem::next_state(
        &s0,
        &CashTransaction::Mint {
            minter: User::Alice,
            amount: 20,
        },
    );
    assert_eq!(s1.next_serial(), 1);
    let s2 = DigitalCashSystem::next_state(
        &s1,
        &CashTransaction::Mint {
            minter: User::Bob,
            amount: 30,
        },
    );
    assert_eq!(s2.next_serial(), 2);
    let s3 = DigitalCashSystem::next_state(
        &s2,
        &CashTransaction::Transfer {
            spends: vec![bill(User::Alice, 20, 0), bill(User::Bob, 30, 1)],
            receives: vec![bill(User::Charlie, 25, 2), bill(User::Alice, 25, 3)],
        },
    );
    assert_eq!(s3.next_serial(), 4);
}

#[test]
fn equal_value_transfer_conserves_total() {
    let start = State::from_bills(vec![bill(User::Alice, 42, 0)]);
    let end = DigitalCashSystem::next_state(
        &start,
        &CashTransaction::Transfer {
            spends: vec![bill(User::Alice, 42, 0)],
            receives: vec![bill(User::Bob, 42, 1)],
        },
    );
    let mut expected = State::from_bills(vec![bill(User::Bob, 42, 1)]);
    expected.set_serial(2);
    assert_eq!(end, expected);
}

#[test]
fn replaying_a_transfer_fails_the_existence_check() {
    // Once a transfer commits, its spent bill is gone: applying the very
    // same transaction again changes nothing.
    let start = State::from_bills(vec![bill(User::Alice, 42, 0)]);
    let t = CashTransaction::Transfer {
        spends: vec![bill(User::Alice, 42, 0)],
        receives: vec![bill(User::Bob, 40, 1)],
    };
    let once = DigitalCashSystem::next_state(&start, &t);
    assert!(once != start);
    let twice = DigitalCashSystem::next_state(&once, &t);
    assert_eq!(twice, once);
}

#[test]
fn state_equality_ignores_bill_order() {
    let a = State::from_bills(vec![bill(User::Alice, 1, 0), bill(User::Bob, 2, 1)]);
    let b = State::from_bills(vec![bill(User::Bob, 2, 1), bill(User::Alice, 1, 0)]);
    assert_eq!(a, b);
    let c = State::from_bills(vec![bill(User::Bob, 2, 1), bill(User::Alice, 1, 1)]);
    assert!(a != c);
}

#[test]
fn building_from_repeated_bills_still_consumes_serials() {
    let twice = State::from_bills(vec![bill(User::Alice, 5, 0), bill(User::Alice, 5, 0)]);
    let mut once = State::from_bills(vec![bill(User::Alice, 5, 0)]);
    once.set_serial(2);
    assert_eq!(twice, once);
}

#[test]
fn burn_ignores_spends_that_do_not_circulate() {
    // The burn branch removes the circulating spent bills and silently
    // skips the rest, without failing the transaction.
    let start = State::from_bills(vec![bill(User::Alice, 20, 0)]);
    let end = DigitalCashSystem::next_state(
        &start,
        &CashTransaction::Transfer {
            spends: vec![bill(User::Alice, 20, 0), bill(User::Bob, 99, 7)],
            receives: vec![],
        },
    );
    let mut expected = State::from_bills(vec![]);
    expected.set_serial(1);
    assert_eq!(end, expected);
}

#[test]
fn minting_zero_value_is_permitted() {
    let start = State::new();
    let end = DigitalCashSystem::next_state(
        &start,
        &CashTransaction::Mint {
            minter: User::Charlie,
            amount: 0,
        },
    );
    let expected = State::from_bills(vec![bill(User::Charlie, 0, 0)]);
    assert_eq!(end, expected);
}

#[test]
fn serial_gap_in_receives_is_rejected() {
    // The second received bill skips a serial: the whole transfer fails.
    let start = State::from_bills(vec![bill(User::Alice, 20, 0)]);
    let end = DigitalCashSystem::next_state(
        &start,
        &CashTransaction::Transfer {
            spends: vec![bill(User::Alice, 20, 0)],
            receives: vec![bill(User::Bob, 10, 1), bill(User::Bob, 10, 3)],
        },
    );
    assert_eq!(end, start);
}

#[test]
fn set_serial_moves_only_the_cursor() {
    let mut s = State::from_bills(vec![bill(User::Alice, 3, 0)]);
    s.set_serial(40);
    assert_eq!(s.next_serial(), 40);
    let mut expected = State::from_bills(vec![bill(User::Alice, 3, 0)]);
    expected.set_serial(40);
    assert_eq!(s, expected);
}
