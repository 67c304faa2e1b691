use oep8_token::address::Address;
use oep8_token::admin::init;
use oep8_token::host::{Event, Host};
use oep8_token::key::Key;
use oep8_token::oep8_token::{
    approve, check_sig, check_token_id, push_id, remove_id, transfer, transfer_from, LedgerError,
};
use oep8_token::storage::{
    allowance, balance_of, put_allowance, put_balance, put_next_id, token_ids_by_owner,
};

fn addr(b: u8) -> Address {
    Address::new([b; 20])
}

fn initialized(admin: Address) -> Host {
    let mut host = Host::new(vec![admin]);
    assert_eq!(init(&mut host, &admin), Ok(true));
    host
}

/// Every token id listed for `user` is held, nothing held is unlisted, and
/// nothing is listed twice.
fn lists_agree(host: &Host, user: &Address) {
    let ids = token_ids_by_owner(&host.store, user);
    for id in 0..8u128 {
        let listed = ids.iter().filter(|x| **x == id).count();
        let held = balance_of(&host.store, user, id) > 0;
        assert_eq!(listed, if held { 1 } else { 0 }, "token {}", id);
    }
}

#[test]
fn transfer_needs_an_allocated_token_id() {
    let a = addr(1);
    let b = addr(2);
    let mut host = initialized(a);
    assert_eq!(transfer(&mut host, &a, &b, 6, 1), Err(LedgerError::InvalidTokenId));
    assert_eq!(transfer(&mut host, &a, &b, 0, 0), Err(LedgerError::InvalidTokenId));
    assert_eq!(transfer(&mut host, &a, &b, 5, 1), Ok(true));
}

#[test]
fn no_token_id_is_valid_before_the_catalogue_exists() {
    let a = addr(1);
    let mut host = Host::new(vec![a]);
    assert!(!check_token_id(&host.store, 1));
    assert_eq!(transfer(&mut host, &a, &a, 1, 0), Err(LedgerError::InvalidTokenId));
    put_next_id(&mut host.store, 3);
    assert!(!check_token_id(&host.store, 0));
    assert!(check_token_id(&host.store, 1));
    assert!(check_token_id(&host.store, 2));
    assert!(!check_token_id(&host.store, 3));
}

#[test]
fn the_token_id_is_checked_before_the_authorization() {
    let a = addr(1);
    let b = addr(2);
    let mut host = initialized(a);
    host.witnesses = vec![];
    assert_eq!(transfer(&mut host, &a, &b, 9, 1), Err(LedgerError::InvalidTokenId));
    assert_eq!(approve(&mut host, &a, &b, 9, 1), Err(LedgerError::Unauthorized));
}

#[test]
fn transfer_needs_the_authorization_of_the_sender() {
    let a = addr(1);
    let b = addr(2);
    let mut host = initialized(a);
    host.witnesses = vec![b];
    assert!(!check_sig(&host, &a));
    assert!(check_sig(&host, &b));
    assert_eq!(transfer(&mut host, &a, &b, 1, 10), Err(LedgerError::Unauthorized));
    assert_eq!(balance_of(&host.store, &a, 1), 100_000);
    assert_eq!(balance_of(&host.store, &b, 1), 0);
}

#[test]
fn transfer_emits_one_notification() {
    let a = addr(1);
    let b = addr(2);
    let mut host = initialized(a);
    assert_eq!(transfer(&mut host, &a, &b, 2, 7), Ok(true));
    assert_eq!(host.events.len(), 6);
    assert_eq!(host.events[5], Event::Transfer { from: a, to: b, token_id: 2, amount: 7 });
}

#[test]
fn transfer_of_a_whole_balance_unlists_the_token() {
    let a = addr(1);
    let b = addr(2);
    let mut host = initialized(a);
    assert_eq!(transfer(&mut host, &a, &b, 3, 300_000), Ok(true));
    assert_eq!(balance_of(&host.store, &a, 3), 0);
    assert_eq!(balance_of(&host.store, &b, 3), 300_000);
    assert_eq!(token_ids_by_owner(&host.store, &a), vec![1, 2, 4, 5]);
    assert_eq!(token_ids_by_owner(&host.store, &b), vec![3]);
    assert!(!host.store.contains(&Key::Balance(3, a).encode()));
    lists_agree(&host, &a);
    lists_agree(&host, &b);
}

#[test]
fn transfer_conserves_the_token() {
    let a = addr(1);
    let b = addr(2);
    let c = addr(3);
    let mut host = initialized(a);
    assert_eq!(transfer(&mut host, &a, &b, 1, 25_000), Ok(true));
    host.witnesses = vec![b];
    assert_eq!(transfer(&mut host, &b, &c, 1, 5_000), Ok(true));
    let total = balance_of(&host.store, &a, 1)
        + balance_of(&host.store, &b, 1)
        + balance_of(&host.store, &c, 1);
    assert_eq!(total, 100_000);
    assert_eq!(balance_of(&host.store, &b, 1), 20_000);
    assert_eq!(balance_of(&host.store, &c, 1), 5_000);
    assert_eq!(balance_of(&host.store, &a, 2), 200_000);
    lists_agree(&host, &a);
    lists_agree(&host, &b);
    lists_agree(&host, &c);
}

#[test]
fn transfer_to_oneself_keeps_the_balance() {
    let a = addr(1);
    let mut host = initialized(a);
    assert_eq!(transfer(&mut host, &a, &a, 2, 1_000), Ok(true));
    assert_eq!(balance_of(&host.store, &a, 2), 200_000);
    assert_eq!(token_ids_by_owner(&host.store, &a), vec![1, 2, 3, 4, 5]);
    assert_eq!(transfer(&mut host, &a, &a, 2, 200_000), Ok(true));
    assert_eq!(balance_of(&host.store, &a, 2), 200_000);
    assert_eq!(token_ids_by_owner(&host.store, &a), vec![1, 3, 4, 5, 2]);
    lists_agree(&host, &a);
}

#[test]
fn transfer_of_nothing_to_a_stranger_lists_the_token() {
    let a = addr(1);
    let b = addr(2);
    let mut host = initialized(a);
    assert_eq!(transfer(&mut host, &a, &b, 1, 0), Ok(true));
    assert_eq!(balance_of(&host.store, &b, 1), 0);
    assert_eq!(balance_of(&host.store, &a, 1), 100_000);
    assert_eq!(token_ids_by_owner(&host.store, &b), vec![1]);
}

#[test]
fn transfer_that_would_overflow_aborts() {
    let a = addr(1);
    let b = addr(2);
    let mut host = initialized(a);
    put_balance(&mut host.store, 1, &b, u128::MAX - 9);
    assert_eq!(transfer(&mut host, &a, &b, 1, 10), Err(LedgerError::ArithmeticOverflow));
    assert_eq!(balance_of(&host.store, &a, 1), 100_000);
    assert_eq!(balance_of(&host.store, &b, 1), u128::MAX - 9);
    assert_eq!(transfer(&mut host, &a, &b, 1, 9), Ok(true));
    assert_eq!(balance_of(&host.store, &b, 1), u128::MAX);
}

#[test]
fn transfer_to_oneself_never_overflows() {
    let a = addr(1);
    let mut host = initialized(a);
    put_balance(&mut host.store, 1, &a, u128::MAX);
    assert_eq!(transfer(&mut host, &a, &a, 1, u128::MAX), Ok(true));
    assert_eq!(balance_of(&host.store, &a, 1), u128::MAX);
}

#[test]
fn approve_overwrites_the_allowance() {
    let a = addr(1);
    let c = addr(3);
    let mut host = initialized(a);
    assert_eq!(approve(&mut host, &a, &c, 1, 500), Ok(true));
    assert_eq!(approve(&mut host, &a, &c, 1, 70), Ok(true));
    assert_eq!(allowance(&host.store, &a, &c, 1), 70);
    assert_eq!(approve(&mut host, &a, &c, 1, 70), Ok(true));
    assert_eq!(allowance(&host.store, &a, &c, 1), 70);
    assert_eq!(allowance(&host.store, &c, &a, 1), 0);
    assert_eq!(allowance(&host.store, &a, &c, 2), 0);
    assert_eq!(
        host.events[5],
        Event::Approval { owner: a, spender: c, token_id: 1, amount: 500 }
    );
    assert_eq!(host.events.len(), 8);
}

#[test]
fn approve_of_nothing_removes_the_record() {
    let a = addr(1);
    let c = addr(3);
    let mut host = initialized(a);
    assert_eq!(approve(&mut host, &a, &c, 1, 500), Ok(true));
    assert!(host.store.contains(&Key::Allowance(1, a, c).encode()));
    assert_eq!(approve(&mut host, &a, &c, 1, 0), Ok(true));
    assert!(!host.store.contains(&Key::Allowance(1, a, c).encode()));
    assert_eq!(allowance(&host.store, &a, &c, 1), 0);
}

#[test]
fn approve_may_exceed_the_balance() {
    let a = addr(1);
    let c = addr(3);
    let mut host = initialized(a);
    assert_eq!(approve(&mut host, &a, &c, 1, u128::MAX), Ok(true));
    assert_eq!(allowance(&host.store, &a, &c, 1), u128::MAX);
}

#[test]
fn approve_checks_owner_then_token_id() {
    let a = addr(1);
    let c = addr(3);
    let mut host = initialized(a);
    assert_eq!(approve(&mut host, &a, &c, 6, 1), Err(LedgerError::InvalidTokenId));
    assert_eq!(approve(&mut host, &c, &a, 1, 1), Err(LedgerError::Unauthorized));
    assert_eq!(allowance(&host.store, &c, &a, 1), 0);
    assert_eq!(host.events.len(), 5);
}

#[test]
fn transfer_from_of_nothing_aborts() {
    let a = addr(1);
    let c = addr(3);
    let mut host = initialized(a);
    host.witnesses = vec![c];
    assert_eq!(transfer_from(&mut host, &c, &a, &c, 1, 0), Err(LedgerError::ZeroAmount));
}

#[test]
fn transfer_from_needs_the_authorization_of_the_spender() {
    let a = addr(1);
    let c = addr(3);
    let mut host = initialized(a);
    assert_eq!(approve(&mut host, &a, &c, 1, 10), Ok(true));
    assert_eq!(transfer_from(&mut host, &c, &a, &c, 1, 5), Err(LedgerError::Unauthorized));
    assert_eq!(allowance(&host.store, &a, &c, 1), 10);
}

#[test]
fn transfer_from_beyond_the_allowance_aborts() {
    let a = addr(1);
    let c = addr(3);
    let d = addr(4);
    let mut host = initialized(a);
    assert_eq!(approve(&mut host, &a, &c, 1, 10), Ok(true));
    host.witnesses = vec![c];
    assert_eq!(
        transfer_from(&mut host, &c, &a, &d, 1, 11),
        Err(LedgerError::InsufficientAllowance)
    );
    assert_eq!(transfer_from(&mut host, &c, &a, &d, 2, 1), Err(LedgerError::InsufficientAllowance));
    assert_eq!(balance_of(&host.store, &a, 1), 100_000);
    assert_eq!(balance_of(&host.store, &d, 1), 0);
    assert_eq!(allowance(&host.store, &a, &c, 1), 10);
}

#[test]
fn transfer_from_beyond_the_balance_aborts() {
    let a = addr(1);
    let c = addr(3);
    let d = addr(4);
    let mut host = initialized(a);
    assert_eq!(approve(&mut host, &a, &c, 1, 1_000_000), Ok(true));
    host.witnesses = vec![c];
    assert_eq!(
        transfer_from(&mut host, &c, &a, &d, 1, 100_001),
        Err(LedgerError::InsufficientBalance)
    );
    assert_eq!(balance_of(&host.store, &a, 1), 100_000);
    assert_eq!(allowance(&host.store, &a, &c, 1), 1_000_000);
    assert_eq!(host.events.len(), 6);
}

#[test]
fn transfer_from_lowers_the_allowance() {
    let a = addr(1);
    let c = addr(3);
    let d = addr(4);
    let mut host = initialized(a);
    assert_eq!(approve(&mut host, &a, &c, 4, 1_000), Ok(true));
    host.witnesses = vec![c];
    assert_eq!(transfer_from(&mut host, &c, &a, &d, 4, 400), Ok(true));
    assert_eq!(allowance(&host.store, &a, &c, 4), 600);
    assert_eq!(balance_of(&host.store, &a, 4), 399_600);
    assert_eq!(balance_of(&host.store, &d, 4), 400);
    assert_eq!(token_ids_by_owner(&host.store, &d), vec![4]);
    assert_eq!(host.events[6], Event::Transfer { from: a, to: d, token_id: 4, amount: 400 });
    assert_eq!(
        transfer_from(&mut host, &c, &a, &d, 4, 601),
        Err(LedgerError::InsufficientAllowance)
    );
    lists_agree(&host, &a);
    lists_agree(&host, &d);
}

#[test]
fn transfer_from_that_would_overflow_aborts() {
    let a = addr(1);
    let c = addr(3);
    let d = addr(4);
    let mut host = initialized(a);
    put_allowance(&mut host.store, &a, &c, 1, 50);
    put_balance(&mut host.store, 1, &d, u128::MAX);
    host.witnesses = vec![c];
    assert_eq!(transfer_from(&mut host, &c, &a, &d, 1, 1), Err(LedgerError::ArithmeticOverflow));
    assert_eq!(allowance(&host.store, &a, &c, 1), 50);
    assert_eq!(balance_of(&host.store, &a, 1), 100_000);
}

#[test]
fn push_id_lists_a_token_once() {
    let a = addr(1);
    let mut host = Host::new(vec![]);
    push_id(&mut host.store, &a, 7);
    push_id(&mut host.store, &a, 3);
    push_id(&mut host.store, &a, 7);
    assert_eq!(token_ids_by_owner(&host.store, &a), vec![7, 3]);
}

#[test]
fn remove_id_takes_a_token_off_the_list() {
    let a = addr(1);
    let mut host = Host::new(vec![]);
    push_id(&mut host.store, &a, 7);
    push_id(&mut host.store, &a, 3);
    remove_id(&mut host.store, &a, 9);
    assert_eq!(token_ids_by_owner(&host.store, &a), vec![7, 3]);
    remove_id(&mut host.store, &a, 7);
    assert_eq!(token_ids_by_owner(&host.store, &a), vec![3]);
    remove_id(&mut host.store, &a, 3);
    assert_eq!(token_ids_by_owner(&host.store, &a), Vec::<u128>::new());
    assert!(!host.store.contains(&Key::TokenIds(a).encode()));
}

#[test]
fn every_reason_has_its_words() {
    assert_eq!(LedgerError::AlreadyInitialized.message(), "has inited");
    assert_eq!(LedgerError::Unauthorized.message(), "invalid signature");
    assert_eq!(LedgerError::InvalidTokenId.message(), "invalid token id");
    assert_eq!(
        LedgerError::InsufficientAllowance.message(),
        "transfer amount is more than allowance"
    );
    assert_eq!(LedgerError::InsufficientBalance.message(), "transfer amount is more than balance");
    assert_eq!(LedgerError::ArithmeticOverflow.message(), "balance overflow");
    assert_eq!(LedgerError::ZeroAmount.message(), "transfer amount is zero");
    assert_eq!(LedgerError::ZeroAdmin.message(), "admin is zero address");
}

#[test]
fn no_token_is_held_beyond_its_supply() {
    let a = addr(1);
    let b = addr(2);
    let c = addr(3);
    let mut host = initialized(a);
    host.witnesses = vec![a, b, c];
    assert_eq!(transfer(&mut host, &a, &b, 1, 30_000), Ok(true));
    assert_eq!(transfer(&mut host, &b, &c, 1, 10_000), Ok(true));
    assert_eq!(approve(&mut host, &a, &c, 2, 200_000), Ok(true));
    assert_eq!(transfer_from(&mut host, &c, &a, &b, 2, 150_000), Ok(true));
    assert_eq!(transfer(&mut host, &c, &c, 1, 10_000), Ok(true));
    let supplies = [100_000u128, 200_000, 300_000, 400_000, 500_000];
    for (i, supply) in supplies.iter().enumerate() {
        let id = (i + 1) as u128;
        let held = balance_of(&host.store, &a, id)
            + balance_of(&host.store, &b, id)
            + balance_of(&host.store, &c, id);
        assert_eq!(held, *supply);
    }
}
