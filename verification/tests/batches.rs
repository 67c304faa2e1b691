use oep8_token::address::Address;
use oep8_token::admin::init;
use oep8_token::batch::{
    approve_multi, transfer_from_multi, transfer_multi, ApproveState, State, TransferFromState,
};
use oep8_token::host::{Event, Host};
use oep8_token::oep8_token::LedgerError;
use oep8_token::storage::{allowance, balance_of, token_ids_by_owner};

fn addr(b: u8) -> Address {
    Address::new([b; 20])
}

fn initialized(admin: Address) -> Host {
    let mut host = Host::new(vec![admin]);
    assert_eq!(init(&mut host, &admin), Ok(true));
    host
}

#[test]
fn transfer_batch_applies_every_entry() {
    let a = addr(1);
    let b = addr(2);
    let c = addr(3);
    let mut host = initialized(a);
    let batch = [
        State { from: a, to: b, token_id: 1, amount: 10 },
        State { from: a, to: c, token_id: 2, amount: 20 },
        State { from: a, to: b, token_id: 1, amount: 5 },
    ];
    assert_eq!(transfer_multi(&mut host, &batch), Ok(true));
    assert_eq!(balance_of(&host.store, &a, 1), 99_985);
    assert_eq!(balance_of(&host.store, &b, 1), 15);
    assert_eq!(balance_of(&host.store, &c, 2), 20);
    assert_eq!(balance_of(&host.store, &a, 2), 199_980);
    assert_eq!(host.events.len(), 8);
    assert_eq!(host.events[7], Event::Transfer { from: a, to: b, token_id: 1, amount: 5 });
}

#[test]
fn transfer_batch_entries_see_the_entries_before_them() {
    let a = addr(1);
    let b = addr(2);
    let mut host = initialized(a);
    host.witnesses = vec![a, b];
    let batch = [
        State { from: a, to: b, token_id: 1, amount: 100_000 },
        State { from: b, to: a, token_id: 1, amount: 60_000 },
        State { from: a, to: b, token_id: 1, amount: 60_000 },
    ];
    assert_eq!(transfer_multi(&mut host, &batch), Ok(true));
    assert_eq!(balance_of(&host.store, &a, 1), 0);
    assert_eq!(balance_of(&host.store, &b, 1), 100_000);
    assert_eq!(token_ids_by_owner(&host.store, &a), vec![2, 3, 4, 5]);
    assert_eq!(token_ids_by_owner(&host.store, &b), vec![1]);
}

#[test]
fn transfer_batch_is_all_or_nothing() {
    let a = addr(1);
    let b = addr(2);
    let mut host = initialized(a);
    let batch = [
        State { from: a, to: b, token_id: 1, amount: 10 },
        State { from: a, to: b, token_id: 2, amount: 200_001 },
        State { from: a, to: b, token_id: 3, amount: 1 },
    ];
    assert_eq!(transfer_multi(&mut host, &batch), Err(LedgerError::InsufficientBalance));
    assert_eq!(balance_of(&host.store, &a, 1), 100_000);
    assert_eq!(balance_of(&host.store, &b, 1), 0);
    assert_eq!(balance_of(&host.store, &b, 3), 0);
    assert_eq!(token_ids_by_owner(&host.store, &b), Vec::<u128>::new());
    assert_eq!(token_ids_by_owner(&host.store, &a), vec![1, 2, 3, 4, 5]);
    assert_eq!(host.events.len(), 5);
}

#[test]
fn transfer_batch_reads_token_id_before_amount() {
    let a = addr(1);
    let b = addr(2);
    let mut host = initialized(a);
    let batch = [State { from: a, to: b, token_id: 2, amount: 150_000 }];
    assert_eq!(transfer_multi(&mut host, &batch), Ok(true));
    assert_eq!(balance_of(&host.store, &b, 2), 150_000);
    assert_eq!(balance_of(&host.store, &a, 2), 50_000);
}

#[test]
fn transfer_batch_aborts_on_an_unauthorized_entry() {
    let a = addr(1);
    let b = addr(2);
    let mut host = initialized(a);
    let batch = [
        State { from: a, to: b, token_id: 1, amount: 10 },
        State { from: b, to: a, token_id: 1, amount: 5 },
    ];
    assert_eq!(transfer_multi(&mut host, &batch), Err(LedgerError::Unauthorized));
    assert_eq!(balance_of(&host.store, &b, 1), 0);
    assert_eq!(host.events.len(), 5);
}

#[test]
fn transfer_batch_aborts_on_an_invalid_token_id() {
    let a = addr(1);
    let b = addr(2);
    let mut host = initialized(a);
    let batch = [
        State { from: a, to: b, token_id: 1, amount: 10 },
        State { from: a, to: b, token_id: 77, amount: 1 },
    ];
    assert_eq!(transfer_multi(&mut host, &batch), Err(LedgerError::InvalidTokenId));
    assert_eq!(balance_of(&host.store, &a, 1), 100_000);
}

#[test]
fn empty_approve_batch_is_declined() {
    let a = addr(1);
    let mut host = initialized(a);
    assert_eq!(approve_multi(&mut host, &[]), Ok(false));
    assert_eq!(host.events.len(), 5);
}

#[test]
fn approve_batch_applies_every_entry() {
    let a = addr(1);
    let b = addr(2);
    let c = addr(3);
    let mut host = initialized(a);
    let batch = [
        ApproveState { owner: a, spender: b, token_id: 1, amount: 10 },
        ApproveState { owner: a, spender: c, token_id: 2, amount: 20 },
        ApproveState { owner: a, spender: b, token_id: 1, amount: 30 },
    ];
    assert_eq!(approve_multi(&mut host, &batch), Ok(true));
    assert_eq!(allowance(&host.store, &a, &b, 1), 30);
    assert_eq!(allowance(&host.store, &a, &c, 2), 20);
    assert_eq!(host.events.len(), 8);
}

#[test]
fn approve_batch_is_all_or_nothing() {
    let a = addr(1);
    let b = addr(2);
    let mut host = initialized(a);
    let batch = [
        ApproveState { owner: a, spender: b, token_id: 1, amount: 10 },
        ApproveState { owner: b, spender: a, token_id: 1, amount: 20 },
    ];
    assert_eq!(approve_multi(&mut host, &batch), Err(LedgerError::Unauthorized));
    assert_eq!(allowance(&host.store, &a, &b, 1), 0);
    assert_eq!(host.events.len(), 5);
    let batch = [
        ApproveState { owner: a, spender: b, token_id: 1, amount: 10 },
        ApproveState { owner: a, spender: b, token_id: 6, amount: 20 },
    ];
    assert_eq!(approve_multi(&mut host, &batch), Err(LedgerError::InvalidTokenId));
    assert_eq!(allowance(&host.store, &a, &b, 1), 0);
}

#[test]
fn empty_transfer_from_batch_is_declined() {
    let a = addr(1);
    let mut host = initialized(a);
    assert_eq!(transfer_from_multi(&mut host, &[]), Ok(false));
    assert_eq!(host.events.len(), 5);
}

#[test]
fn transfer_from_batch_applies_every_entry() {
    let a = addr(1);
    let c = addr(3);
    let d = addr(4);
    let mut host = initialized(a);
    let approvals = [
        ApproveState { owner: a, spender: c, token_id: 1, amount: 100 },
        ApproveState { owner: a, spender: c, token_id: 2, amount: 50 },
    ];
    assert_eq!(approve_multi(&mut host, &approvals), Ok(true));
    host.witnesses = vec![c];
    let batch = [
        TransferFromState { spender: c, from: a, to: d, token_id: 1, amount: 60 },
        TransferFromState { spender: c, from: a, to: d, token_id: 2, amount: 50 },
        TransferFromState { spender: c, from: a, to: c, token_id: 1, amount: 40 },
    ];
    assert_eq!(transfer_from_multi(&mut host, &batch), Ok(true));
    assert_eq!(allowance(&host.store, &a, &c, 1), 0);
    assert_eq!(allowance(&host.store, &a, &c, 2), 0);
    assert_eq!(balance_of(&host.store, &d, 1), 60);
    assert_eq!(balance_of(&host.store, &d, 2), 50);
    assert_eq!(balance_of(&host.store, &c, 1), 40);
    assert_eq!(balance_of(&host.store, &a, 1), 99_900);
}

#[test]
fn transfer_from_batch_is_all_or_nothing() {
    let a = addr(1);
    let c = addr(3);
    let d = addr(4);
    let mut host = initialized(a);
    let approvals = [ApproveState { owner: a, spender: c, token_id: 1, amount: 100 }];
    assert_eq!(approve_multi(&mut host, &approvals), Ok(true));
    host.witnesses = vec![c];
    let events = host.events.len();
    let batch = [
        TransferFromState { spender: c, from: a, to: d, token_id: 1, amount: 60 },
        TransferFromState { spender: c, from: a, to: d, token_id: 1, amount: 41 },
    ];
    assert_eq!(transfer_from_multi(&mut host, &batch), Err(LedgerError::InsufficientAllowance));
    assert_eq!(allowance(&host.store, &a, &c, 1), 100);
    assert_eq!(balance_of(&host.store, &d, 1), 0);
    assert_eq!(balance_of(&host.store, &a, 1), 100_000);
    assert_eq!(token_ids_by_owner(&host.store, &d), Vec::<u128>::new());
    assert_eq!(host.events.len(), events);
    let batch = [
        TransferFromState { spender: c, from: a, to: d, token_id: 1, amount: 60 },
        TransferFromState { spender: c, from: a, to: d, token_id: 1, amount: 0 },
    ];
    assert_eq!(transfer_from_multi(&mut host, &batch), Err(LedgerError::ZeroAmount));
    assert_eq!(allowance(&host.store, &a, &c, 1), 100);
}
