//! Typed access to the records of the ledger.
//!
//! Each accessor reads or writes one record under its key. A record that is
//! absent reads as the default of its kind; amounts and token-id lists are
//! never stored empty: writing zero, or an empty list, removes the record.

use crate::address::Address;
use crate::key::Key;
use crate::store::{copy_bytes, copy_ids, Store, Value, ValueView};
use vstd::prelude::*;

verus! {

/// The contents of a store: a finite map from byte keys to records.
pub type Records = Map<Seq<u8>, ValueView>;

/// The amount stored under `key`, or `default` where none is.
pub open spec fn num_at(m: Records, key: Key, default: u128) -> u128 {
    match m.get(key.spec_encode()) {
        Some(ValueView::Num(n)) => n,
        _ => default,
    }
}

/// The address stored under `key`, or the zero address where none is.
pub open spec fn addr_at(m: Records, key: Key) -> Address {
    match m.get(key.spec_encode()) {
        Some(ValueView::Addr(a)) => a,
        _ => Address::spec_zero(),
    }
}

/// The text stored under `key`, or the empty text where none is.
pub open spec fn text_at(m: Records, key: Key) -> Seq<char> {
    match m.get(key.spec_encode()) {
        Some(ValueView::Text(s)) => s,
        _ => Seq::empty(),
    }
}

/// The byte string stored under `key`, or the empty one where none is.
pub open spec fn bytes_at(m: Records, key: Key) -> Seq<u8> {
    match m.get(key.spec_encode()) {
        Some(ValueView::Bytes(b)) => b,
        _ => Seq::empty(),
    }
}

/// The token-id list stored under `key`, or the empty list where none is.
pub open spec fn ids_at(m: Records, key: Key) -> Seq<u128> {
    match m.get(key.spec_encode()) {
        Some(ValueView::Ids(ids)) => ids,
        _ => Seq::empty(),
    }
}

/// `m` with the amount `amt` under `key`: no record where `amt` is zero.
pub open spec fn with_amount(m: Records, key: Key, amt: u128) -> Records {
    if amt == 0 {
        m.remove(key.spec_encode())
    } else {
        m.insert(key.spec_encode(), ValueView::Num(amt))
    }
}

/// `m` with the record `value` under `key`.
pub open spec fn with_record(m: Records, key: Key, value: ValueView) -> Records {
    m.insert(key.spec_encode(), value)
}

fn read_num(store: &Store, key: Key, default: u128) -> (n: u128)
    ensures
        n == num_at(store@, key, default),
{
    let k = key.encode();
    match store.get(k.as_slice()) {
        Some(Value::Num(n)) => *n,
        _ => default,
    }
}

fn read_addr(store: &Store, key: Key) -> (a: Address)
    ensures
        a == addr_at(store@, key),
{
    let k = key.encode();
    match store.get(k.as_slice()) {
        Some(Value::Addr(a)) => *a,
        _ => Address::zero(),
    }
}

fn read_text(store: &Store, key: Key) -> (s: String)
    ensures
        s@ == text_at(store@, key),
{
    let k = key.encode();
    match store.get(k.as_slice()) {
        Some(Value::Text(s)) => s.clone(),
        _ => String::new(),
    }
}

fn write_amount(store: &mut Store, key: Key, amt: u128)
    ensures
        final(store)@ == with_amount(old(store)@, key, amt),
{
    let k = key.encode();
    if amt == 0 {
        store.delete(k.as_slice());
    } else {
        store.put(k, Value::Num(amt));
    }
}

// ----- administrator ------------------------------------------------------

/// The administrator recorded in `m`: the zero address before initialization.
pub open spec fn spec_get_admin(m: Records) -> Address {
    addr_at(m, Key::Admin)
}

/// The current administrator.
pub fn get_admin(store: &Store) -> (admin: Address)
    ensures
        admin == spec_get_admin(store@),
{
    read_addr(store, Key::Admin)
}

/// Records `admin` as the administrator.
pub fn put_admin(store: &mut Store, admin: &Address)
    ensures
        final(store)@ == with_record(old(store)@, Key::Admin, ValueView::Addr(*admin)),
{
    store.put(Key::Admin.encode(), Value::Addr(*admin));
}

/// The pending administrator recorded in `m`: the zero address while no
/// handover is under way.
pub open spec fn spec_get_pending_admin(m: Records) -> Address {
    addr_at(m, Key::PendingAdmin)
}

/// The pending administrator.
pub fn get_pending_admin(store: &Store) -> (admin: Address)
    ensures
        admin == spec_get_pending_admin(store@),
{
    read_addr(store, Key::PendingAdmin)
}

/// Records `admin` as the pending administrator.
pub fn put_pending_admin(store: &mut Store, admin: &Address)
    ensures
        final(store)@ == with_record(old(store)@, Key::PendingAdmin, ValueView::Addr(*admin)),
{
    store.put(Key::PendingAdmin.encode(), Value::Addr(*admin));
}

// ----- token-id counter ---------------------------------------------------

/// The next token id to allocate: one before any was allocated.
pub open spec fn spec_get_next_id(m: Records) -> u128 {
    num_at(m, Key::NextId, 1)
}

/// The next token id to allocate.
pub fn get_next_id(store: &Store) -> (id: u128)
    ensures
        id == spec_get_next_id(store@),
{
    read_num(store, Key::NextId, 1)
}

/// Records `id` as the next token id to allocate.
pub fn put_next_id(store: &mut Store, id: u128)
    ensures
        final(store)@ == with_record(old(store)@, Key::NextId, ValueView::Num(id)),
{
    store.put(Key::NextId.encode(), Value::Num(id));
}

// ----- token metadata -----------------------------------------------------

/// The name of token type `id`.
pub open spec fn spec_get_name(m: Records, id: u128) -> Seq<char> {
    text_at(m, Key::Name(id))
}

/// The name of token type `id`, empty where none is recorded.
pub fn get_name(store: &Store, id: u128) -> (name: String)
    ensures
        name@ == spec_get_name(store@, id),
{
    read_text(store, Key::Name(id))
}

/// Records `name` as the name of token type `id`.
pub fn put_name(store: &mut Store, id: u128, name: &str)
    ensures
        final(store)@ == with_record(old(store)@, Key::Name(id), ValueView::Text(name@)),
{
    store.put(Key::Name(id).encode(), Value::Text(name.to_owned()));
}

/// The symbol of token type `id`.
pub open spec fn spec_get_symbol(m: Records, id: u128) -> Seq<char> {
    text_at(m, Key::Symbol(id))
}

/// The symbol of token type `id`, empty where none is recorded.
pub fn get_symbol(store: &Store, id: u128) -> (symbol: String)
    ensures
        symbol@ == spec_get_symbol(store@, id),
{
    read_text(store, Key::Symbol(id))
}

/// Records `symbol` as the symbol of token type `id`.
pub fn put_symbol(store: &mut Store, id: u128, symbol: &str)
    ensures
        final(store)@ == with_record(old(store)@, Key::Symbol(id), ValueView::Text(symbol@)),
{
    store.put(Key::Symbol(id).encode(), Value::Text(symbol.to_owned()));
}

/// The total supply of token type `id`.
pub open spec fn spec_get_total_supply(m: Records, id: u128) -> u128 {
    num_at(m, Key::TotalSupply(id), 0)
}

/// The total supply of token type `id`, zero where none is recorded.
pub fn get_total_supply(store: &Store, id: u128) -> (supply: u128)
    ensures
        supply == spec_get_total_supply(store@, id),
{
    read_num(store, Key::TotalSupply(id), 0)
}

/// Records `supply` as the total supply of token type `id`.
pub fn put_total_supply(store: &mut Store, id: u128, supply: u128)
    ensures
        final(store)@ == with_record(old(store)@, Key::TotalSupply(id), ValueView::Num(supply)),
{
    store.put(Key::TotalSupply(id).encode(), Value::Num(supply));
}

/// The url of token type `id`.
pub open spec fn spec_get_token_url(m: Records, id: u128) -> Seq<u8> {
    bytes_at(m, Key::TokenUrl(id))
}

/// The url of token type `id`, empty where none is recorded.
pub fn get_token_url(store: &Store, id: u128) -> (url: Vec<u8>)
    ensures
        url@ == spec_get_token_url(store@, id),
{
    let k = Key::TokenUrl(id).encode();
    match store.get(k.as_slice()) {
        Some(Value::Bytes(b)) => copy_bytes(b.as_slice()),
        _ => Vec::new(),
    }
}

/// Records `url` as the url of token type `id`.
pub fn put_token_url(store: &mut Store, id: u128, url: &[u8])
    ensures
        final(store)@ == with_record(old(store)@, Key::TokenUrl(id), ValueView::Bytes(url@)),
{
    store.put(Key::TokenUrl(id).encode(), Value::Bytes(copy_bytes(url)));
}

// ----- balances -----------------------------------------------------------

/// What `user` holds of token type `token_id`.
pub open spec fn spec_balance_of(m: Records, user: Address, token_id: u128) -> u128 {
    num_at(m, Key::Balance(token_id, user), 0)
}

/// What `user` holds of token type `token_id`: zero where no balance is
/// recorded.
pub fn balance_of(store: &Store, user: &Address, token_id: u128) -> (amount: u128)
    ensures
        amount == spec_balance_of(store@, *user, token_id),
{
    read_num(store, Key::Balance(token_id, *user), 0)
}

/// `m` with the balance of `user` in `token_id` set to `amt`.
pub open spec fn spec_put_balance(m: Records, token_id: u128, user: Address, amt: u128) -> Records {
    with_amount(m, Key::Balance(token_id, user), amt)
}

/// Sets the balance of `user` in `token_id` to `amt`. A zero balance is
/// kept as the absence of a record.
pub fn put_balance(store: &mut Store, token_id: u128, user: &Address, amt: u128)
    ensures
        final(store)@ == spec_put_balance(old(store)@, token_id, *user, amt),
{
    write_amount(store, Key::Balance(token_id, *user), amt);
}

// ----- allowances ---------------------------------------------------------

/// What `spender` may move out of `owner`'s balance of `token_id`.
pub open spec fn spec_allowance(
    m: Records,
    owner: Address,
    spender: Address,
    token_id: u128,
) -> u128 {
    num_at(m, Key::Allowance(token_id, owner, spender), 0)
}

/// What `spender` may move out of `owner`'s balance of `token_id`: zero
/// where no allowance is recorded.
pub fn allowance(store: &Store, owner: &Address, spender: &Address, token_id: u128) -> (amount:
    u128)
    ensures
        amount == spec_allowance(store@, *owner, *spender, token_id),
{
    read_num(store, Key::Allowance(token_id, *owner, *spender), 0)
}

/// `m` with the allowance of `spender` over `owner`'s `token_id` set to `amt`.
pub open spec fn spec_put_allowance(
    m: Records,
    owner: Address,
    spender: Address,
    token_id: u128,
    amt: u128,
) -> Records {
    with_amount(m, Key::Allowance(token_id, owner, spender), amt)
}

/// Sets the allowance of `spender` over `owner`'s `token_id` to `amt`. A
/// zero allowance is kept as the absence of a record.
pub fn put_allowance(
    store: &mut Store,
    owner: &Address,
    spender: &Address,
    token_id: u128,
    amt: u128,
)
    ensures
        final(store)@ == spec_put_allowance(old(store)@, *owner, *spender, token_id, amt),
{
    write_amount(store, Key::Allowance(token_id, *owner, *spender), amt);
}

// ----- per-owner token ids --------------------------------------------------

/// The token ids listed for `user`, in the order in which they were added.
pub open spec fn spec_token_ids_by_owner(m: Records, user: Address) -> Seq<u128> {
    ids_at(m, Key::TokenIds(user))
}

/// The token ids listed for `user`: empty where no list is recorded.
pub fn token_ids_by_owner(store: &Store, user: &Address) -> (ids: Vec<u128>)
    ensures
        ids@ == spec_token_ids_by_owner(store@, *user),
{
    let k = Key::TokenIds(*user).encode();
    match store.get(k.as_slice()) {
        Some(Value::Ids(ids)) => copy_ids(ids.as_slice()),
        _ => Vec::new(),
    }
}

/// `m` with the token-id list of `user` set to `ids`.
pub open spec fn spec_put_token_ids_by_owner(m: Records, user: Address, ids: Seq<u128>) -> Records {
    if ids.len() == 0 {
        m.remove(Key::TokenIds(user).spec_encode())
    } else {
        m.insert(Key::TokenIds(user).spec_encode(), ValueView::Ids(ids))
    }
}

/// Sets the token-id list of `user` to `token_ids`. An empty list is kept as
/// the absence of a record.
pub fn put_token_ids_by_owner(store: &mut Store, user: &Address, token_ids: &[u128])
    ensures
        final(store)@ == spec_put_token_ids_by_owner(old(store)@, *user, token_ids@),
{
    let k = Key::TokenIds(*user).encode();
    if token_ids.len() == 0 {
        store.delete(k.as_slice());
    } else {
        store.put(k, Value::Ids(copy_ids(token_ids)));
    }
}

} // verus!
