use token_ledger::{Approval, Error, Event, Token, Transfer};

#[test]
fn construction_credits_caller() {
    let t = Token::new(7, 1000);
    assert_eq!(t.get_total_supply(), 1000);
    assert_eq!(t.get_balance_of(7), 1000);
    assert_eq!(t.get_balance_of(8), 0);
    let events = t.get_events();
    assert_eq!(events.len(), 1);
    assert_eq!(
        events[0],
        Event::Transfer(Transfer { from: None, to: Some(7), value: 1000 })
    );
}

#[test]
fn construction_zero_supply() {
    let t = Token::new(1, 0);
    assert_eq!(t.get_total_supply(), 0);
    assert_eq!(t.get_balance_of(1), 0);
    assert_eq!(t.get_events().len(), 1);
    assert_eq!(
        t.get_events()[0],
        Event::Transfer(Transfer { from: None, to: Some(1), value: 0 })
    );
}

#[test]
fn queries_default_to_zero() {
    let t = Token::new(1, 500);
    assert_eq!(t.get_balance_of(99), 0);
    assert_eq!(t.get_allowance_of(1, 2), 0);
    assert_eq!(t.get_allowance_of(98, 99), 0);
}

#[test]
fn transfer_moves_balance() {
    let mut t = Token::new(1, 1000);
    assert_eq!(t.transfer(1, 2, 300), Ok(()));
    assert_eq!(t.get_balance_of(1), 700);
    assert_eq!(t.get_balance_of(2), 300);
    assert_eq!(t.get_total_supply(), 1000);
    assert_eq!(
        t.get_events()[1],
        Event::Transfer(Transfer { from: Some(1), to: Some(2), value: 300 })
    );
}

#[test]
fn transfer_full_balance() {
    let mut t = Token::new(1, 1000);
    assert_eq!(t.transfer(1, 2, 1000), Ok(()));
    assert_eq!(t.get_balance_of(1), 0);
    assert_eq!(t.get_balance_of(2), 1000);
}

#[test]
fn transfer_insufficient_balance_fails() {
    let mut t = Token::new(1, 100);
    assert_eq!(t.transfer(1, 2, 101), Err(Error::InsufficientBalance));
    assert_eq!(t.get_balance_of(1), 100);
    assert_eq!(t.get_balance_of(2), 0);
    // The failed transfer recorded no event.
    assert_eq!(t.get_events().len(), 1);
}

#[test]
fn transfer_from_unknown_account_fails() {
    let mut t = Token::new(1, 100);
    assert_eq!(t.transfer(5, 2, 1), Err(Error::InsufficientBalance));
    assert_eq!(t.get_balance_of(2), 0);
}

#[test]
fn self_transfer_keeps_balance_and_records_event() {
    let mut t = Token::new(3, 400);
    assert_eq!(t.transfer(3, 3, 250), Ok(()));
    assert_eq!(t.get_balance_of(3), 400);
    let events = t.get_events();
    assert_eq!(events.len(), 2);
    assert_eq!(
        events[1],
        Event::Transfer(Transfer { from: Some(3), to: Some(3), value: 250 })
    );
}

#[test]
fn approve_sets_allowance_and_records_event() {
    let mut t = Token::new(1, 1000);
    assert_eq!(t.approve(1, 2, 200), Ok(()));
    assert_eq!(t.get_allowance_of(1, 2), 200);
    assert_eq!(t.get_allowance_of(2, 1), 0);
    assert_eq!(
        t.get_events()[1],
        Event::Approval(Approval { owner: 1, spender: 2, value: 200 })
    );
}

#[test]
fn approve_overwrites_not_adds() {
    let mut t = Token::new(1, 1000);
    assert_eq!(t.approve(1, 2, 200), Ok(()));
    assert_eq!(t.approve(1, 2, 50), Ok(()));
    assert_eq!(t.get_allowance_of(1, 2), 50);
}

#[test]
fn approve_zero_revokes() {
    let mut t = Token::new(1, 1000);
    assert_eq!(t.approve(1, 2, 200), Ok(()));
    assert_eq!(t.approve(1, 2, 0), Ok(()));
    assert_eq!(t.get_allowance_of(1, 2), 0);
    assert_eq!(t.transfer_from(2, 1, 3, 1), Err(Error::InsufficientAllowance));
}

#[test]
fn approve_exceeding_balance_is_accepted() {
    // An allowance larger than the owner's balance is permitted; only the
    // transfer is bounded by the balance.
    let mut t = Token::new(1, 100);
    assert_eq!(t.approve(1, 2, 1000), Ok(()));
    assert_eq!(t.get_allowance_of(1, 2), 1000);
    assert_eq!(t.transfer_from(2, 1, 3, 200), Err(Error::InsufficientBalance));
    assert_eq!(t.get_allowance_of(1, 2), 1000);
    assert_eq!(t.get_balance_of(1), 100);
    assert_eq!(t.get_balance_of(3), 0);
}

#[test]
fn transfer_from_consumes_allowance() {
    let mut t = Token::new(1, 1000);
    assert_eq!(t.approve(1, 2, 200), Ok(()));
    assert_eq!(t.transfer_from(2, 1, 3, 150), Ok(()));
    assert_eq!(t.get_balance_of(1), 850);
    assert_eq!(t.get_balance_of(3), 150);
    assert_eq!(t.get_allowance_of(1, 2), 50);
    assert_eq!(t.transfer_from(2, 1, 3, 100), Err(Error::InsufficientAllowance));
    assert_eq!(t.get_balance_of(1), 850);
    assert_eq!(t.get_balance_of(3), 150);
    assert_eq!(t.get_allowance_of(1, 2), 50);
}

#[test]
fn transfer_from_whole_allowance() {
    let mut t = Token::new(1, 1000);
    assert_eq!(t.approve(1, 2, 200), Ok(()));
    assert_eq!(t.transfer_from(2, 1, 2, 200), Ok(()));
    assert_eq!(t.get_allowance_of(1, 2), 0);
    assert_eq!(t.get_balance_of(2), 200);
}

#[test]
fn conservation_across_operations() {
    let mut t = Token::new(1, 1_000_000);
    let _ = t.transfer(1, 2, 123_456);
    let _ = t.approve(1, 3, 400_000);
    let _ = t.transfer_from(3, 1, 4, 398_765);
    let _ = t.transfer(2, 5, 56);
    let _ = t.transfer(9, 5, 1); // fails: account 9 holds nothing
    let sum = t.get_balance_of(1)
        + t.get_balance_of(2)
        + t.get_balance_of(3)
        + t.get_balance_of(4)
        + t.get_balance_of(5)
        + t.get_balance_of(9);
    assert_eq!(sum, t.get_total_supply());
}

#[test]
fn maximal_supply_is_handled() {
    let mut t = Token::new(1, u128::MAX);
    assert_eq!(t.transfer(1, 2, u128::MAX), Ok(()));
    assert_eq!(t.get_balance_of(2), u128::MAX);
    assert_eq!(t.transfer(2, 1, 1), Ok(()));
    assert_eq!(t.get_balance_of(1), 1);
    assert_eq!(t.get_balance_of(2), u128::MAX - 1);
}

#[test]
fn end_to_end_scenario() {
    let mut t = Token::new(100, 1000);
    assert_eq!(t.transfer(100, 101, 300), Ok(()));
    assert_eq!(t.get_balance_of(100), 700);
    assert_eq!(t.get_balance_of(101), 300);
    assert_eq!(t.approve(100, 102, 200), Ok(()));
    assert_eq!(t.transfer_from(102, 100, 103, 150), Ok(()));
    assert_eq!(t.get_balance_of(100), 550);
    assert_eq!(t.get_balance_of(101), 300);
    assert_eq!(t.get_balance_of(103), 150);
    assert_eq!(t.get_allowance_of(100, 102), 50);
    assert_eq!(t.transfer_from(102, 100, 103, 100), Err(Error::InsufficientAllowance));
    assert_eq!(t.get_balance_of(100), 550);
    assert_eq!(t.get_balance_of(101), 300);
    assert_eq!(t.get_balance_of(103), 150);
    assert_eq!(t.get_allowance_of(100, 102), 50);
}

#[test]
fn event_log_is_ordered() {
    let mut t = Token::new(1, 500);
    let _ = t.transfer(1, 2, 100);
    let _ = t.approve(2, 1, 40);
    let _ = t.transfer_from(1, 2, 3, 40);
    let events = t.get_events();
    assert_eq!(events.len(), 4);
    assert_eq!(
        events[0],
        Event::Transfer(Transfer { from: None, to: Some(1), value: 500 })
    );
    assert_eq!(
        events[1],
        Event::Transfer(Transfer { from: Some(1), to: Some(2), value: 100 })
    );
    assert_eq!(
        events[2],
        Event::Approval(Approval { owner: 2, spender: 1, value: 40 })
    );
    assert_eq!(
        events[3],
        Event::Transfer(Transfer { from: Some(2), to: Some(3), value: 40 })
    );
}
