//! The call surface: one typed request, one typed answer.

use crate::address::Address;
use crate::admin::{
    accept_admin, accept_admin_outcome, init, init_outcome, query_token_by_id, set_pending_admin,
    set_pending_admin_outcome, spec_accept_admin, spec_init, spec_set_pending_admin,
    spec_update_token_url, update_token_url, update_token_url_outcome,
};
use crate::batch::{
    approve_multi, approve_multi_outcome, spec_approve_all, spec_transfer_all,
    spec_transfer_from_all, transfer_from_multi, transfer_from_multi_outcome, transfer_multi,
    transfer_multi_outcome, ApproveState, State, TransferFromState,
};
use crate::host::{Host, HostView};
use crate::oep8_token::{
    approve, approve_outcome, spec_approve, spec_transfer, spec_transfer_from, transfer,
    transfer_from, transfer_from_outcome, transfer_outcome, LedgerError,
};
use crate::storage::{
    allowance, balance_of, get_name, get_symbol, get_total_supply, spec_allowance,
    spec_balance_of, spec_get_name, spec_get_symbol, spec_get_token_url, spec_get_total_supply,
    spec_token_ids_by_owner, token_ids_by_owner,
};
use vstd::prelude::*;

verus! {

/// A request to the ledger, with its arguments.
#[derive(Debug)]
pub enum Call {
    /// `init`
    Init { admin: Address },
    /// `setPendingAdmin`
    SetPendingAdmin { new_pending_admin: Address },
    /// `acceptAdmin`
    AcceptAdmin,
    /// `updateTokenUrl`
    UpdateTokenUrl { token_id: u128, url: Vec<u8> },
    /// `name`
    Name { token_id: u128 },
    /// `symbol`
    Symbol { token_id: u128 },
    /// `balanceOf`
    BalanceOf { user: Address, token_id: u128 },
    /// `allowance`
    Allowance { owner: Address, spender: Address, token_id: u128 },
    /// `totalSupply`
    TotalSupply { token_id: u128 },
    /// `transfer`
    Transfer { from: Address, to: Address, token_id: u128, amount: u128 },
    /// `transferMulti`
    TransferMulti { states: Vec<State> },
    /// `approve`
    Approve { owner: Address, spender: Address, token_id: u128, amount: u128 },
    /// `transferFrom`
    TransferFrom { spender: Address, from: Address, to: Address, token_id: u128, amount: u128 },
    /// `approveMulti`
    ApproveMulti { approvals: Vec<ApproveState> },
    /// `transferFromMulti`
    TransferFromMulti { transfers: Vec<TransferFromState> },
    /// `queryTokenIDsByOwnerAddr`
    QueryTokenIdsByOwnerAddr { user: Address },
    /// `queryTokenByID`
    QueryTokenById { token_id: u128 },
}

/// The answer to a request.
#[derive(Debug, PartialEq, Eq)]
pub enum Reply {
    /// The request was carried out and has nothing to report.
    Done,
    /// Whether the operation took effect.
    Flag(bool),
    /// A name or a symbol.
    Text(String),
    /// A balance, an allowance or a supply.
    Amount(u128),
    /// The token ids of an owner.
    Ids(Vec<u128>),
    /// The description of a token type.
    Token { name: String, level: u128, url: Vec<u8>, description: Vec<u8> },
}

/// A [`Reply`] as mathematical values.
pub enum ReplyView {
    Done,
    Flag(bool),
    Text(Seq<char>),
    Amount(u128),
    Ids(Seq<u128>),
    Token { name: Seq<char>, level: u128, url: Seq<u8>, description: Seq<u8> },
}

impl View for Reply {
    type V = ReplyView;

    open spec fn view(&self) -> ReplyView {
        match self {
            Reply::Done => ReplyView::Done,
            Reply::Flag(b) => ReplyView::Flag(*b),
            Reply::Text(s) => ReplyView::Text(s@),
            Reply::Amount(n) => ReplyView::Amount(*n),
            Reply::Ids(ids) => ReplyView::Ids(ids@),
            Reply::Token { name, level, url, description } => ReplyView::Token {
                name: name@,
                level: *level,
                url: url@,
                description: description@,
            },
        }
    }
}

/// The answer that tells whether an operation took effect.
pub open spec fn flag(outcome: Result<bool, LedgerError>) -> Result<ReplyView, LedgerError> {
    match outcome {
        Ok(b) => Ok(ReplyView::Flag(b)),
        Err(e) => Err(e),
    }
}

/// The answer of an operation that has nothing to report.
pub open spec fn done(outcome: Result<(), LedgerError>) -> Result<ReplyView, LedgerError> {
    match outcome {
        Ok(_) => Ok(ReplyView::Done),
        Err(e) => Err(e),
    }
}

/// What the ledger answers to `call` in the environment `h`.
pub open spec fn spec_reply(h: HostView, call: Call) -> Result<ReplyView, LedgerError> {
    match call {
        Call::Init { admin } => flag(init_outcome(h, admin)),
        Call::SetPendingAdmin { new_pending_admin } => done(set_pending_admin_outcome(h)),
        Call::AcceptAdmin => done(accept_admin_outcome(h)),
        Call::UpdateTokenUrl { token_id, url } => flag(update_token_url_outcome(h, token_id)),
        Call::Name { token_id } => Ok(ReplyView::Text(spec_get_name(h.records, token_id))),
        Call::Symbol { token_id } => Ok(ReplyView::Text(spec_get_symbol(h.records, token_id))),
        Call::BalanceOf { user, token_id } => Ok(
            ReplyView::Amount(spec_balance_of(h.records, user, token_id)),
        ),
        Call::Allowance { owner, spender, token_id } => Ok(
            ReplyView::Amount(spec_allowance(h.records, owner, spender, token_id)),
        ),
        Call::TotalSupply { token_id } => Ok(
            ReplyView::Amount(spec_get_total_supply(h.records, token_id)),
        ),
        Call::Transfer { from, to, token_id, amount } => flag(
            transfer_outcome(h, from, to, token_id, amount),
        ),
        Call::TransferMulti { states } => flag(transfer_multi_outcome(h, states@)),
        Call::Approve { owner, spender, token_id, amount } => flag(
            approve_outcome(h, owner, token_id),
        ),
        Call::TransferFrom { spender, from, to, token_id, amount } => flag(
            transfer_from_outcome(h, spender, from, to, token_id, amount),
        ),
        Call::ApproveMulti { approvals } => flag(approve_multi_outcome(h, approvals@)),
        Call::TransferFromMulti { transfers } => flag(
            transfer_from_multi_outcome(h, transfers@),
        ),
        Call::QueryTokenIdsByOwnerAddr { user } => Ok(
            ReplyView::Ids(spec_token_ids_by_owner(h.records, user)),
        ),
        Call::QueryTokenById { token_id } => Ok(
            ReplyView::Token {
                name: spec_get_name(h.records, token_id),
                level: 0,
                url: spec_get_token_url(h.records, token_id),
                description: Seq::empty(),
            },
        ),
    }
}

/// The environment in which `call` leaves `h`: changed where the call took
/// effect, and `h` itself where it was declined, was aborted, or only asked.
pub open spec fn spec_after(h: HostView, call: Call) -> HostView {
    match call {
        Call::Init { admin } => if init_outcome(h, admin) is Ok {
            spec_init(h, admin)
        } else {
            h
        },
        Call::SetPendingAdmin { new_pending_admin } => if set_pending_admin_outcome(h) is Ok {
            spec_set_pending_admin(h, new_pending_admin)
        } else {
            h
        },
        Call::AcceptAdmin => if accept_admin_outcome(h) is Ok {
            spec_accept_admin(h)
        } else {
            h
        },
        Call::UpdateTokenUrl { token_id, url } => if update_token_url_outcome(h, token_id) is Ok {
            spec_update_token_url(h, token_id, url@)
        } else {
            h
        },
        Call::Transfer { from, to, token_id, amount } => if transfer_outcome(
            h,
            from,
            to,
            token_id,
            amount,
        ) == Ok::<bool, LedgerError>(true) {
            spec_transfer(h, from, to, token_id, amount)
        } else {
            h
        },
        Call::TransferMulti { states } => match spec_transfer_all(h, states@) {
            Ok(after) => after,
            Err(_) => h,
        },
        Call::Approve { owner, spender, token_id, amount } => if approve_outcome(
            h,
            owner,
            token_id,
        ) is Ok {
            spec_approve(h, owner, spender, token_id, amount)
        } else {
            h
        },
        Call::TransferFrom { spender, from, to, token_id, amount } => if transfer_from_outcome(
            h,
            spender,
            from,
            to,
            token_id,
            amount,
        ) is Ok {
            spec_transfer_from(h, spender, from, to, token_id, amount)
        } else {
            h
        },
        Call::ApproveMulti { approvals } => match spec_approve_all(h, approvals@) {
            Ok(after) => after,
            Err(_) => h,
        },
        Call::TransferFromMulti { transfers } => match spec_transfer_from_all(h, transfers@) {
            Ok(after) => after,
            Err(_) => h,
        },
        _ => h,
    }
}

/// The answer that tells whether an operation took effect.
fn flagged(outcome: Result<bool, LedgerError>) -> (r: Result<Reply, LedgerError>)
    ensures
        match r {
            Ok(reply) => flag(outcome) == Ok::<ReplyView, LedgerError>(reply@),
            Err(e) => flag(outcome) == Err::<ReplyView, LedgerError>(e),
        },
{
    match outcome {
        Ok(b) => Ok(Reply::Flag(b)),
        Err(e) => Err(e),
    }
}

/// The answer of an operation that has nothing to report.
fn finished(outcome: Result<(), LedgerError>) -> (r: Result<Reply, LedgerError>)
    ensures
        match r {
            Ok(reply) => done(outcome) == Ok::<ReplyView, LedgerError>(reply@),
            Err(e) => done(outcome) == Err::<ReplyView, LedgerError>(e),
        },
{
    match outcome {
        Ok(_) => Ok(Reply::Done),
        Err(e) => Err(e),
    }
}

/// Carries out `call` and answers it. An `Err` says that the invocation is
/// to be aborted: the environment is then as it was.
pub fn invoke(host: &mut Host, call: &Call) -> (r: Result<Reply, LedgerError>)
    ensures
        match r {
            Ok(reply) => spec_reply(old(host)@, *call) == Ok::<ReplyView, LedgerError>(reply@),
            Err(e) => spec_reply(old(host)@, *call) == Err::<ReplyView, LedgerError>(e),
        },
        final(host)@ == spec_after(old(host)@, *call),
        r is Err ==> final(host)@ == old(host)@,
{
    match call {
        Call::Init { admin } => flagged(init(host, admin)),
        Call::SetPendingAdmin { new_pending_admin } => finished(
            set_pending_admin(host, new_pending_admin),
        ),
        Call::AcceptAdmin => finished(accept_admin(host)),
        Call::UpdateTokenUrl { token_id, url } => flagged(
            update_token_url(host, *token_id, url.as_slice()),
        ),
        Call::Name { token_id } => Ok(Reply::Text(get_name(&host.store, *token_id))),
        Call::Symbol { token_id } => Ok(Reply::Text(get_symbol(&host.store, *token_id))),
        Call::BalanceOf { user, token_id } => Ok(
            Reply::Amount(balance_of(&host.store, user, *token_id)),
        ),
        Call::Allowance { owner, spender, token_id } => Ok(
            Reply::Amount(allowance(&host.store, owner, spender, *token_id)),
        ),
        Call::TotalSupply { token_id } => Ok(
            Reply::Amount(get_total_supply(&host.store, *token_id)),
        ),
        Call::Transfer { from, to, token_id, amount } => flagged(
            transfer(host, from, to, *token_id, *amount),
        ),
        Call::TransferMulti { states } => flagged(transfer_multi(host, states.as_slice())),
        Call::Approve { owner, spender, token_id, amount } => flagged(
            approve(host, owner, spender, *token_id, *amount),
        ),
        Call::TransferFrom { spender, from, to, token_id, amount } => flagged(
            transfer_from(host, spender, from, to, *token_id, *amount),
        ),
        Call::ApproveMulti { approvals } => flagged(approve_multi(host, approvals.as_slice())),
        Call::TransferFromMulti { transfers } => flagged(
            transfer_from_multi(host, transfers.as_slice()),
        ),
        Call::QueryTokenIdsByOwnerAddr { user } => Ok(
            Reply::Ids(token_ids_by_owner(&host.store, user)),
        ),
        Call::QueryTokenById { token_id } => {
            let (name, level, url, description) = query_token_by_id(&host.store, *token_id);
            Ok(Reply::Token { name, level, url, description })
        },
    }
}

} // verus!
