use oep8_token::address::Address;
use oep8_token::admin::{accept_admin, init, set_pending_admin};
use oep8_token::batch::transfer_multi;
use oep8_token::host::{Event, Host};
use oep8_token::oep8_token::{approve, transfer, transfer_from, LedgerError};
use oep8_token::storage::{
    allowance, balance_of, get_admin, get_next_id, get_pending_admin, get_total_supply,
    token_ids_by_owner,
};

fn addr(b: u8) -> Address {
    Address::new([b; 20])
}

fn initialized(admin: Address) -> Host {
    let mut host = Host::new(vec![admin]);
    assert_eq!(init(&mut host, &admin), Ok(true));
    host
}

#[test]
fn init_creates_the_catalogue() {
    let a = addr(1);
    let host = initialized(a);
    assert_eq!(get_admin(&host.store), a);
    assert_eq!(get_next_id(&host.store), 6);
    assert_eq!(balance_of(&host.store, &a, 1), 100_000);
    assert_eq!(balance_of(&host.store, &a, 5), 500_000);
    assert_eq!(get_total_supply(&host.store, 3), 300_000);
    assert_eq!(token_ids_by_owner(&host.store, &a), vec![1, 2, 3, 4, 5]);
    assert_eq!(host.events.len(), 5);
    assert_eq!(
        host.events[0],
        Event::Transfer { from: Address::zero(), to: a, token_id: 1, amount: 100_000 }
    );
}

#[test]
fn transfer_moves_part_of_a_balance() {
    let a = addr(1);
    let b = addr(2);
    let mut host = initialized(a);
    assert_eq!(transfer(&mut host, &a, &b, 1, 40_000), Ok(true));
    assert_eq!(balance_of(&host.store, &a, 1), 60_000);
    assert_eq!(balance_of(&host.store, &b, 1), 40_000);
    assert!(token_ids_by_owner(&host.store, &a).contains(&1));
    assert_eq!(token_ids_by_owner(&host.store, &b), vec![1]);
}

#[test]
fn approve_then_transfer_from_uses_up_the_allowance() {
    let a = addr(1);
    let c = addr(3);
    let d = addr(4);
    let mut host = initialized(a);
    assert_eq!(approve(&mut host, &a, &c, 1, 1000), Ok(true));
    assert_eq!(allowance(&host.store, &a, &c, 1), 1000);
    host.witnesses = vec![c];
    assert_eq!(transfer_from(&mut host, &c, &a, &d, 1, 1000), Ok(true));
    assert_eq!(allowance(&host.store, &a, &c, 1), 0);
    assert_eq!(balance_of(&host.store, &d, 1), 1000);
    assert_eq!(balance_of(&host.store, &a, 1), 99_000);
}

#[test]
fn transfer_beyond_the_balance_is_declined() {
    let a = addr(1);
    let b = addr(2);
    let mut host = initialized(a);
    let events = host.events.len();
    assert_eq!(transfer(&mut host, &a, &b, 1, 999_999_999), Ok(false));
    assert_eq!(balance_of(&host.store, &a, 1), 100_000);
    assert_eq!(balance_of(&host.store, &b, 1), 0);
    assert_eq!(token_ids_by_owner(&host.store, &b), Vec::<u128>::new());
    assert_eq!(host.events.len(), events);
}

#[test]
fn empty_transfer_batch_is_declined() {
    let a = addr(1);
    let mut host = initialized(a);
    let events = host.events.len();
    assert_eq!(transfer_multi(&mut host, &[]), Ok(false));
    assert_eq!(balance_of(&host.store, &a, 1), 100_000);
    assert_eq!(host.events.len(), events);
}

#[test]
fn admin_is_handed_over_in_two_steps() {
    let a = addr(1);
    let p = addr(9);
    let mut host = initialized(a);
    assert_eq!(set_pending_admin(&mut host, &p), Ok(()));
    assert_eq!(get_admin(&host.store), a);
    assert_eq!(get_pending_admin(&host.store), p);
    host.witnesses = vec![p];
    assert_eq!(accept_admin(&mut host), Ok(()));
    assert_eq!(get_admin(&host.store), p);
    assert!(get_pending_admin(&host.store).is_zero());
    assert_eq!(accept_admin(&mut host), Err(LedgerError::Unauthorized));
    assert_eq!(get_admin(&host.store), p);
}
