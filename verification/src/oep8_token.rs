//! The ledger's operations on tokens: transfers, approvals and delegated
//! transfers.
//!
//! An operation either takes effect as a whole or leaves the environment as
//! it found it. `Ok(true)` says that it took effect, `Ok(false)` that it was
//! declined (a direct transfer beyond the balance), and `Err` that the
//! invocation is to be aborted.

use crate::address::Address;
use crate::host::{Event, Host, HostView};
use crate::laws::{
    index_consistent, lemma_approve_keeps_index, lemma_debit_balance,
    lemma_transfer_from_keeps_index, lemma_transfer_keeps_index,
};
use crate::storage::{
    allowance, balance_of, get_next_id, put_allowance, put_balance, put_token_ids_by_owner,
    spec_allowance, spec_balance_of, spec_get_next_id, spec_put_allowance, spec_put_balance,
    spec_put_token_ids_by_owner, spec_token_ids_by_owner, token_ids_by_owner, Records,
};
use crate::store::Store;
use crate::supply::{
    lemma_approve_keeps_supply, lemma_transfer_from_keeps_supply, lemma_transfer_keeps_supply,
    supply_respected,
};
use vstd::prelude::*;

verus! {

/// Why an invocation is aborted.
#[derive(Clone, Copy, Debug, PartialEq, Eq, Structural)]
pub enum LedgerError {
    /// The catalogue was initialized before.
    AlreadyInitialized,
    /// The address that has to authorize the operation did not.
    Unauthorized,
    /// The token id was never allocated.
    InvalidTokenId,
    /// A delegated transfer asks for more than the allowance.
    InsufficientAllowance,
    /// A delegated or batched transfer asks for more than the balance.
    InsufficientBalance,
    /// A balance would exceed 128 bits.
    ArithmeticOverflow,
    /// A delegated transfer of nothing.
    ZeroAmount,
    /// The zero address was proposed as administrator.
    ZeroAdmin,
}

impl LedgerError {
    /// The reason, in words.
    pub open spec fn spec_message(self) -> Seq<char> {
        match self {
            LedgerError::AlreadyInitialized => "has inited"@,
            LedgerError::Unauthorized => "invalid signature"@,
            LedgerError::InvalidTokenId => "invalid token id"@,
            LedgerError::InsufficientAllowance => "transfer amount is more than allowance"@,
            LedgerError::InsufficientBalance => "transfer amount is more than balance"@,
            LedgerError::ArithmeticOverflow => "balance overflow"@,
            LedgerError::ZeroAmount => "transfer amount is zero"@,
            LedgerError::ZeroAdmin => "admin is zero address"@,
        }
    }

    /// The reason, in words.
    pub fn message(&self) -> (text: &'static str)
        ensures
            text@ == self.spec_message(),
    {
        match self {
            LedgerError::AlreadyInitialized => "has inited",
            LedgerError::Unauthorized => "invalid signature",
            LedgerError::InvalidTokenId => "invalid token id",
            LedgerError::InsufficientAllowance => "transfer amount is more than allowance",
            LedgerError::InsufficientBalance => "transfer amount is more than balance",
            LedgerError::ArithmeticOverflow => "balance overflow",
            LedgerError::ZeroAmount => "transfer amount is zero",
            LedgerError::ZeroAdmin => "admin is zero address",
        }
    }
}

// ----- the per-owner index ----------------------------------------------------

/// `m` with `token_id` listed for `user`: appended unless already there.
pub open spec fn spec_push_id(m: Records, user: Address, token_id: u128) -> Records {
    let ids = spec_token_ids_by_owner(m, user);
    if ids.contains(token_id) {
        m
    } else {
        spec_put_token_ids_by_owner(m, user, ids.push(token_id))
    }
}

/// `m` with the first occurrence of `token_id` taken from `user`'s list.
pub open spec fn spec_remove_id(m: Records, user: Address, token_id: u128) -> Records {
    let ids = spec_token_ids_by_owner(m, user);
    if ids.contains(token_id) {
        spec_put_token_ids_by_owner(m, user, ids.remove_value(token_id))
    } else {
        m
    }
}

/// The first position of `token_id` in `ids`.
fn position(ids: &Vec<u128>, token_id: u128) -> (at: Option<usize>)
    ensures
        match at {
            Some(i) => i < ids.len() && ids@.index_of_first(token_id) == Some(i as int),
            None => !ids@.contains(token_id),
        },
{
    let mut i: usize = 0;
    while i < ids.len()
        invariant
            i <= ids.len(),
            forall|j: int| 0 <= j < i ==> ids@[j] != token_id,
        decreases ids.len() - i,
    {
        if ids[i] == token_id {
            proof {
                ids@.index_of_first_ensures(token_id);
            }
            return Some(i);
        }
        i += 1;
    }
    None
}

/// Lists `token_id` for `user`, unless it is listed already.
pub fn push_id(store: &mut Store, user: &Address, token_id: u128)
    ensures
        final(store)@ == spec_push_id(old(store)@, *user, token_id),
{
    let mut ids = token_ids_by_owner(store, user);
    match position(&ids, token_id) {
        Some(_) => {
            proof {
                ids@.index_of_first_ensures(token_id);
            }
        },
        None => {
            ids.push(token_id);
            put_token_ids_by_owner(store, user, ids.as_slice());
        },
    }
}

/// Takes `token_id` from the list of `user`, if it is there.
pub fn remove_id(store: &mut Store, user: &Address, token_id: u128)
    ensures
        final(store)@ == spec_remove_id(old(store)@, *user, token_id),
{
    let mut ids = token_ids_by_owner(store, user);
    match position(&ids, token_id) {
        Some(i) => {
            proof {
                ids@.index_of_first_ensures(token_id);
            }
            ids.remove(i);
            put_token_ids_by_owner(store, user, ids.as_slice());
        },
        None => {},
    }
}

// ----- checks -------------------------------------------------------------------

/// Whether `token_id` names a token type that was allocated: ids are given
/// out from one upwards, below the counter.
pub open spec fn spec_valid_token_id(m: Records, token_id: u128) -> bool {
    1 <= token_id < spec_get_next_id(m)
}

/// Whether `token_id` names an allocated token type.
pub fn check_token_id(store: &Store, token_id: u128) -> (valid: bool)
    ensures
        valid == spec_valid_token_id(store@, token_id),
{
    1 <= token_id && token_id < get_next_id(store)
}

/// Whether `user` authorized the invocation.
pub fn check_sig(host: &Host, user: &Address) -> (ok: bool)
    ensures
        ok == host@.is_authorized(*user),
{
    host.is_authorized(user)
}

/// Emits the notification of a transfer.
pub fn transfer_evt(host: &mut Host, from: &Address, to: &Address, token_id: u128, amt: u128)
    ensures
        final(host)@ == old(host)@.notified(
            Event::Transfer { from: *from, to: *to, token_id, amount: amt },
        ),
{
    host.notify(Event::Transfer { from: *from, to: *to, token_id, amount: amt });
}

/// Emits the notification of an approval.
pub fn approve_evt(host: &mut Host, owner: &Address, spender: &Address, token_id: u128, amt: u128)
    ensures
        final(host)@ == old(host)@.notified(
            Event::Approval { owner: *owner, spender: *spender, token_id, amount: amt },
        ),
{
    host.notify(Event::Approval { owner: *owner, spender: *spender, token_id, amount: amt });
}

// ----- moving tokens ------------------------------------------------------------

/// The records after `amount` of `token_id` has left `from`: the balance is
/// lowered, and a balance that reaches zero takes the token id off the
/// owner's list.
pub open spec fn spec_debit(m: Records, from: Address, token_id: u128, amount: u128) -> Records {
    let balance = spec_balance_of(m, from, token_id);
    let lowered = spec_put_balance(m, token_id, from, (balance - amount) as u128);
    if balance == amount {
        spec_remove_id(lowered, from, token_id)
    } else {
        lowered
    }
}

/// The records after `amount` of `token_id` has reached `to`: the balance is
/// raised and the token id is on the owner's list.
pub open spec fn spec_credit(m: Records, to: Address, token_id: u128, amount: u128) -> Records {
    let balance = spec_balance_of(m, to, token_id);
    spec_push_id(spec_put_balance(m, token_id, to, (balance + amount) as u128), to, token_id)
}

/// The records after `amount` of `token_id` has moved from `from` to `to`.
pub open spec fn spec_move(
    m: Records,
    from: Address,
    to: Address,
    token_id: u128,
    amount: u128,
) -> Records {
    spec_credit(spec_debit(m, from, token_id, amount), to, token_id, amount)
}

/// Whether crediting `to` after debiting `from` would exceed 128 bits. Only
/// another owner's balance can: what returns to `from` fits where it was.
pub open spec fn spec_credit_overflows(
    m: Records,
    from: Address,
    to: Address,
    token_id: u128,
    amount: u128,
) -> bool {
    from != to && spec_balance_of(m, to, token_id) + amount > u128::MAX
}

/// Moves `amount` of `token_id` from `from` to `to`.
fn move_tokens(store: &mut Store, from: &Address, to: &Address, token_id: u128, amount: u128)
    requires
        amount <= spec_balance_of(old(store)@, *from, token_id),
        !spec_credit_overflows(old(store)@, *from, *to, token_id, amount),
    ensures
        final(store)@ == spec_move(old(store)@, *from, *to, token_id, amount),
{
    let from_balance = balance_of(store, from, token_id);
    put_balance(store, token_id, from, from_balance - amount);
    if from_balance == amount {
        remove_id(store, from, token_id);
    }
    proof {
        lemma_debit_balance(old(store)@, *from, token_id, amount, *to, token_id);
    }
    let to_balance = balance_of(store, to, token_id);
    put_balance(store, token_id, to, to_balance + amount);
    push_id(store, to, token_id);
}

// ----- transfer -----------------------------------------------------------------

/// How a direct transfer ends.
pub open spec fn transfer_outcome(
    h: HostView,
    from: Address,
    to: Address,
    token_id: u128,
    amount: u128,
) -> Result<bool, LedgerError> {
    if !spec_valid_token_id(h.records, token_id) {
        Err(LedgerError::InvalidTokenId)
    } else if !h.is_authorized(from) {
        Err(LedgerError::Unauthorized)
    } else if amount > spec_balance_of(h.records, from, token_id) {
        Ok(false)
    } else if spec_credit_overflows(h.records, from, to, token_id, amount) {
        Err(LedgerError::ArithmeticOverflow)
    } else {
        Ok(true)
    }
}

/// The environment after a transfer that took effect.
pub open spec fn spec_transfer(
    h: HostView,
    from: Address,
    to: Address,
    token_id: u128,
    amount: u128,
) -> HostView {
    h.with_records(spec_move(h.records, from, to, token_id, amount)).notified(
        Event::Transfer { from, to, token_id, amount },
    )
}

/// Moves `amount` of `token_id` from `from`, who has to authorize it, to
/// `to`. A transfer beyond the balance of `from` is declined.
pub fn transfer(host: &mut Host, from: &Address, to: &Address, token_id: u128, amount: u128) -> (r:
    Result<bool, LedgerError>)
    ensures
        r == transfer_outcome(old(host)@, *from, *to, token_id, amount),
        final(host)@ == if r == Ok::<bool, LedgerError>(true) {
            spec_transfer(old(host)@, *from, *to, token_id, amount)
        } else {
            old(host)@
        },
        index_consistent(old(host)@.records) && (amount > 0 || spec_balance_of(
            old(host)@.records,
            *to,
            token_id,
        ) > 0) ==> index_consistent(final(host)@.records),
        supply_respected(old(host)@.records) ==> supply_respected(final(host)@.records),
{
    if !check_token_id(&host.store, token_id) {
        return Err(LedgerError::InvalidTokenId);
    }
    if !check_sig(host, from) {
        return Err(LedgerError::Unauthorized);
    }
    let from_balance = balance_of(&host.store, from, token_id);
    if amount > from_balance {
        return Ok(false);
    }
    if *from != *to && balance_of(&host.store, to, token_id) > u128::MAX - amount {
        return Err(LedgerError::ArithmeticOverflow);
    }
    move_tokens(&mut host.store, from, to, token_id, amount);
    transfer_evt(host, from, to, token_id, amount);
    proof {
        if index_consistent(old(host)@.records) && (amount > 0 || spec_balance_of(
            old(host)@.records,
            *to,
            token_id,
        ) > 0) {
            lemma_transfer_keeps_index(old(host)@, *from, *to, token_id, amount);
        }
        if supply_respected(old(host)@.records) {
            lemma_transfer_keeps_supply(old(host)@, *from, *to, token_id, amount);
        }
    }
    Ok(true)
}

// ----- approve ------------------------------------------------------------------

/// How an approval ends.
pub open spec fn approve_outcome(h: HostView, owner: Address, token_id: u128) -> Result<
    bool,
    LedgerError,
> {
    if !h.is_authorized(owner) {
        Err(LedgerError::Unauthorized)
    } else if !spec_valid_token_id(h.records, token_id) {
        Err(LedgerError::InvalidTokenId)
    } else {
        Ok(true)
    }
}

/// The environment after an approval that took effect.
pub open spec fn spec_approve(
    h: HostView,
    owner: Address,
    spender: Address,
    token_id: u128,
    amount: u128,
) -> HostView {
    h.with_records(spec_put_allowance(h.records, owner, spender, token_id, amount)).notified(
        Event::Approval { owner, spender, token_id, amount },
    )
}

/// Sets what `spender` may move out of `owner`'s balance of `token_id` to
/// `amount`, in place of any earlier allowance. `owner` has to authorize it.
pub fn approve(
    host: &mut Host,
    owner: &Address,
    spender: &Address,
    token_id: u128,
    amount: u128,
) -> (r: Result<bool, LedgerError>)
    ensures
        r == approve_outcome(old(host)@, *owner, token_id),
        final(host)@ == if r is Ok {
            spec_approve(old(host)@, *owner, *spender, token_id, amount)
        } else {
            old(host)@
        },
        r is Ok ==> spec_allowance(final(host)@.records, *owner, *spender, token_id) == amount,
        index_consistent(old(host)@.records) ==> index_consistent(final(host)@.records),
        supply_respected(old(host)@.records) ==> supply_respected(final(host)@.records),
{
    if !check_sig(host, owner) {
        return Err(LedgerError::Unauthorized);
    }
    if !check_token_id(&host.store, token_id) {
        return Err(LedgerError::InvalidTokenId);
    }
    put_allowance(&mut host.store, owner, spender, token_id, amount);
    approve_evt(host, owner, spender, token_id, amount);
    proof {
        if index_consistent(old(host)@.records) {
            lemma_approve_keeps_index(old(host)@, *owner, *spender, token_id, amount);
        }
        if supply_respected(old(host)@.records) {
            lemma_approve_keeps_supply(old(host)@, *owner, *spender, token_id, amount);
        }
    }
    Ok(true)
}

// ----- transfer_from ------------------------------------------------------------

/// How a delegated transfer ends.
pub open spec fn transfer_from_outcome(
    h: HostView,
    spender: Address,
    from: Address,
    to: Address,
    token_id: u128,
    amount: u128,
) -> Result<bool, LedgerError> {
    if amount == 0 {
        Err(LedgerError::ZeroAmount)
    } else if !h.is_authorized(spender) {
        Err(LedgerError::Unauthorized)
    } else if amount > spec_allowance(h.records, from, spender, token_id) {
        Err(LedgerError::InsufficientAllowance)
    } else if amount > spec_balance_of(h.records, from, token_id) {
        Err(LedgerError::InsufficientBalance)
    } else if spec_credit_overflows(h.records, from, to, token_id, amount) {
        Err(LedgerError::ArithmeticOverflow)
    } else {
        Ok(true)
    }
}

/// The environment after a delegated transfer that took effect: the tokens
/// have moved and the allowance is lowered by what was moved.
pub open spec fn spec_transfer_from(
    h: HostView,
    spender: Address,
    from: Address,
    to: Address,
    token_id: u128,
    amount: u128,
) -> HostView {
    let approval = spec_allowance(h.records, from, spender, token_id);
    h.with_records(
        spec_put_allowance(
            spec_move(h.records, from, to, token_id, amount),
            from,
            spender,
            token_id,
            (approval - amount) as u128,
        ),
    ).notified(Event::Transfer { from, to, token_id, amount })
}

/// Moves `amount` of `token_id` from `from` to `to` on the strength of the
/// allowance that `from` gave to `spender`, who has to authorize it.
pub fn transfer_from(
    host: &mut Host,
    spender: &Address,
    from: &Address,
    to: &Address,
    token_id: u128,
    amount: u128,
) -> (r: Result<bool, LedgerError>)
    ensures
        r == transfer_from_outcome(old(host)@, *spender, *from, *to, token_id, amount),
        final(host)@ == if r is Ok {
            spec_transfer_from(old(host)@, *spender, *from, *to, token_id, amount)
        } else {
            old(host)@
        },
        r is Ok ==> amount <= spec_allowance(old(host)@.records, *from, *spender, token_id)
            && amount <= spec_balance_of(old(host)@.records, *from, token_id),
        index_consistent(old(host)@.records) ==> index_consistent(final(host)@.records),
        supply_respected(old(host)@.records) ==> supply_respected(final(host)@.records),
{
    if amount == 0 {
        return Err(LedgerError::ZeroAmount);
    }
    if !check_sig(host, spender) {
        return Err(LedgerError::Unauthorized);
    }
    let approval = allowance(&host.store, from, spender, token_id);
    if amount > approval {
        return Err(LedgerError::InsufficientAllowance);
    }
    let from_balance = balance_of(&host.store, from, token_id);
    if amount > from_balance {
        return Err(LedgerError::InsufficientBalance);
    }
    if *from != *to && balance_of(&host.store, to, token_id) > u128::MAX - amount {
        return Err(LedgerError::ArithmeticOverflow);
    }
    move_tokens(&mut host.store, from, to, token_id, amount);
    put_allowance(&mut host.store, from, spender, token_id, approval - amount);
    transfer_evt(host, from, to, token_id, amount);
    proof {
        if index_consistent(old(host)@.records) {
            lemma_transfer_from_keeps_index(old(host)@, *spender, *from, *to, token_id, amount);
        }
        if supply_respected(old(host)@.records) {
            lemma_transfer_from_keeps_supply(old(host)@, *spender, *from, *to, token_id, amount);
        }
    }
    Ok(true)
}

} // verus!
