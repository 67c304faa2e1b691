//! Batches: a list of operations of one kind, applied in order, all or none.
//!
//! An empty batch is declined. Otherwise each entry sees what the entries
//! before it did, and the first entry that does not take effect aborts the
//! batch: the environment is then as it was before the first entry.

use crate::address::Address;
use crate::host::{Host, HostView};
use crate::laws::{
    index_consistent, lemma_approve_multi_keeps_index, lemma_transfer_from_multi_keeps_index,
    lemma_transfer_multi_keeps_index, no_empty_credit,
};
use crate::oep8_token::{
    approve, approve_outcome, spec_approve, spec_transfer, spec_transfer_from, transfer,
    transfer_from, transfer_from_outcome, transfer_outcome, LedgerError,
};
use crate::store::Store;
use crate::supply::{
    lemma_approve_multi_keeps_supply, lemma_transfer_from_multi_keeps_supply,
    lemma_transfer_multi_keeps_supply, supply_respected,
};
use vstd::prelude::*;

verus! {

/// One entry of a batch of transfers.
#[derive(Clone, Copy, Debug, PartialEq, Eq)]
pub struct State {
    pub from: Address,
    pub to: Address,
    pub token_id: u128,
    pub amount: u128,
}

/// One entry of a batch of approvals.
#[derive(Clone, Copy, Debug, PartialEq, Eq)]
pub struct ApproveState {
    pub owner: Address,
    pub spender: Address,
    pub token_id: u128,
    pub amount: u128,
}

/// One entry of a batch of delegated transfers.
#[derive(Clone, Copy, Debug, PartialEq, Eq)]
pub struct TransferFromState {
    pub spender: Address,
    pub from: Address,
    pub to: Address,
    pub token_id: u128,
    pub amount: u128,
}

/// Puts the environment back to the records `saved` and to its first
/// `emitted` notifications.
fn roll_back(host: &mut Host, saved: Store, emitted: usize)
    requires
        emitted <= old(host).events.len(),
    ensures
        final(host)@ == (HostView {
            records: saved@,
            witnesses: old(host)@.witnesses,
            events: old(host)@.events.subrange(0, emitted as int),
        }),
{
    host.store = saved;
    host.events.truncate(emitted);
}

// ----- transfers ----------------------------------------------------------------

/// The environment after the transfers `states`, applied in order from `h`,
/// or the reason why one of them did not take effect. A transfer that is
/// declined for want of balance fails the batch.
pub open spec fn spec_transfer_all(h: HostView, states: Seq<State>) -> Result<HostView, LedgerError>
    decreases states.len(),
{
    if states.len() == 0 {
        Ok(h)
    } else {
        let s = states[0];
        match transfer_outcome(h, s.from, s.to, s.token_id, s.amount) {
            Ok(true) => spec_transfer_all(
                spec_transfer(h, s.from, s.to, s.token_id, s.amount),
                states.drop_first(),
            ),
            Ok(false) => Err(LedgerError::InsufficientBalance),
            Err(e) => Err(e),
        }
    }
}

/// How a batch of transfers ends.
pub open spec fn transfer_multi_outcome(h: HostView, states: Seq<State>) -> Result<
    bool,
    LedgerError,
> {
    if states.len() == 0 {
        Ok(false)
    } else {
        match spec_transfer_all(h, states) {
            Ok(_) => Ok(true),
            Err(e) => Err(e),
        }
    }
}

/// Applies the transfers `states` in order, all or none.
pub fn transfer_multi(host: &mut Host, states: &[State]) -> (r: Result<bool, LedgerError>)
    ensures
        r == transfer_multi_outcome(old(host)@, states@),
        final(host)@ == match spec_transfer_all(old(host)@, states@) {
            Ok(h) => h,
            Err(_) => old(host)@,
        },
        index_consistent(old(host)@.records) && no_empty_credit(old(host)@, states@)
            ==> index_consistent(final(host)@.records),
        supply_respected(old(host)@.records) ==> supply_respected(final(host)@.records),
{
    if states.len() == 0 {
        return Ok(false);
    }
    let ghost start = host@;
    let saved = host.store.snapshot();
    let emitted = host.events.len();
    let mut i: usize = 0;
    assert(states@.skip(0) == states@);
    while i < states.len()
        invariant
            i <= states.len(),
            start == old(host)@,
            saved@ == start.records,
            host@.witnesses == start.witnesses,
            emitted <= host.events.len(),
            host@.events.subrange(0, emitted as int) == start.events,
            spec_transfer_all(start, states@) == spec_transfer_all(host@, states@.skip(i as int)),
        decreases states.len() - i,
    {
        let s = &states[i];
        proof {
            assert(states@.skip(i as int).drop_first() == states@.skip(i + 1));
            assert(states@.skip(i as int)[0] == states@[i as int]);
        }
        let ghost before = host@;
        let step = transfer(host, &s.from, &s.to, s.token_id, s.amount);
        match step {
            Ok(true) => {
                assert(host@.events.subrange(0, emitted as int) == before.events.subrange(
                    0,
                    emitted as int,
                ));
            },
            Ok(false) => {
                roll_back(host, saved, emitted);
                return Err(LedgerError::InsufficientBalance);
            },
            Err(e) => {
                roll_back(host, saved, emitted);
                return Err(e);
            },
        }
        i += 1;
    }
    proof {
        if index_consistent(start.records) && no_empty_credit(start, states@) {
            lemma_transfer_multi_keeps_index(start, states@);
        }
        if supply_respected(start.records) {
            lemma_transfer_multi_keeps_supply(start, states@);
        }
    }
    Ok(true)
}

// ----- approvals ----------------------------------------------------------------

/// The environment after the approvals `states`, applied in order from `h`,
/// or the reason why one of them did not take effect.
pub open spec fn spec_approve_all(h: HostView, states: Seq<ApproveState>) -> Result<
    HostView,
    LedgerError,
>
    decreases states.len(),
{
    if states.len() == 0 {
        Ok(h)
    } else {
        let s = states[0];
        match approve_outcome(h, s.owner, s.token_id) {
            Ok(_) => spec_approve_all(
                spec_approve(h, s.owner, s.spender, s.token_id, s.amount),
                states.drop_first(),
            ),
            Err(e) => Err(e),
        }
    }
}

/// How a batch of approvals ends.
pub open spec fn approve_multi_outcome(h: HostView, states: Seq<ApproveState>) -> Result<
    bool,
    LedgerError,
> {
    if states.len() == 0 {
        Ok(false)
    } else {
        match spec_approve_all(h, states) {
            Ok(_) => Ok(true),
            Err(e) => Err(e),
        }
    }
}

/// Applies the approvals `obj` in order, all or none.
pub fn approve_multi(host: &mut Host, obj: &[ApproveState]) -> (r: Result<bool, LedgerError>)
    ensures
        r == approve_multi_outcome(old(host)@, obj@),
        final(host)@ == match spec_approve_all(old(host)@, obj@) {
            Ok(h) => h,
            Err(_) => old(host)@,
        },
        index_consistent(old(host)@.records) ==> index_consistent(final(host)@.records),
        supply_respected(old(host)@.records) ==> supply_respected(final(host)@.records),
{
    if obj.len() == 0 {
        return Ok(false);
    }
    let ghost start = host@;
    let saved = host.store.snapshot();
    let emitted = host.events.len();
    let mut i: usize = 0;
    assert(obj@.skip(0) == obj@);
    while i < obj.len()
        invariant
            i <= obj.len(),
            start == old(host)@,
            saved@ == start.records,
            host@.witnesses == start.witnesses,
            emitted <= host.events.len(),
            host@.events.subrange(0, emitted as int) == start.events,
            spec_approve_all(start, obj@) == spec_approve_all(host@, obj@.skip(i as int)),
        decreases obj.len() - i,
    {
        let o = &obj[i];
        proof {
            assert(obj@.skip(i as int).drop_first() == obj@.skip(i + 1));
            assert(obj@.skip(i as int)[0] == obj@[i as int]);
        }
        let ghost before = host@;
        let step = approve(host, &o.owner, &o.spender, o.token_id, o.amount);
        match step {
            Ok(_) => {
                assert(host@.events.subrange(0, emitted as int) == before.events.subrange(
                    0,
                    emitted as int,
                ));
            },
            Err(e) => {
                roll_back(host, saved, emitted);
                return Err(e);
            },
        }
        i += 1;
    }
    proof {
        if index_consistent(start.records) {
            lemma_approve_multi_keeps_index(start, obj@);
        }
        if supply_respected(start.records) {
            lemma_approve_multi_keeps_supply(start, obj@);
        }
    }
    Ok(true)
}

// ----- delegated transfers ------------------------------------------------------

/// The environment after the delegated transfers `states`, applied in order
/// from `h`, or the reason why one of them did not take effect.
pub open spec fn spec_transfer_from_all(h: HostView, states: Seq<TransferFromState>) -> Result<
    HostView,
    LedgerError,
>
    decreases states.len(),
{
    if states.len() == 0 {
        Ok(h)
    } else {
        let s = states[0];
        match transfer_from_outcome(h, s.spender, s.from, s.to, s.token_id, s.amount) {
            Ok(_) => spec_transfer_from_all(
                spec_transfer_from(h, s.spender, s.from, s.to, s.token_id, s.amount),
                states.drop_first(),
            ),
            Err(e) => Err(e),
        }
    }
}

/// How a batch of delegated transfers ends.
pub open spec fn transfer_from_multi_outcome(h: HostView, states: Seq<TransferFromState>) -> Result<
    bool,
    LedgerError,
> {
    if states.len() == 0 {
        Ok(false)
    } else {
        match spec_transfer_from_all(h, states) {
            Ok(_) => Ok(true),
            Err(e) => Err(e),
        }
    }
}

/// Applies the delegated transfers `obj` in order, all or none.
pub fn transfer_from_multi(host: &mut Host, obj: &[TransferFromState]) -> (r: Result<
    bool,
    LedgerError,
>)
    ensures
        r == transfer_from_multi_outcome(old(host)@, obj@),
        final(host)@ == match spec_transfer_from_all(old(host)@, obj@) {
            Ok(h) => h,
            Err(_) => old(host)@,
        },
        index_consistent(old(host)@.records) ==> index_consistent(final(host)@.records),
        supply_respected(old(host)@.records) ==> supply_respected(final(host)@.records),
{
    if obj.len() == 0 {
        return Ok(false);
    }
    let ghost start = host@;
    let saved = host.store.snapshot();
    let emitted = host.events.len();
    let mut i: usize = 0;
    assert(obj@.skip(0) == obj@);
    while i < obj.len()
        invariant
            i <= obj.len(),
            start == old(host)@,
            saved@ == start.records,
            host@.witnesses == start.witnesses,
            emitted <= host.events.len(),
            host@.events.subrange(0, emitted as int) == start.events,
            spec_transfer_from_all(start, obj@) == spec_transfer_from_all(
                host@,
                obj@.skip(i as int),
            ),
        decreases obj.len() - i,
    {
        let o = &obj[i];
        proof {
            assert(obj@.skip(i as int).drop_first() == obj@.skip(i + 1));
            assert(obj@.skip(i as int)[0] == obj@[i as int]);
        }
        let ghost before = host@;
        let step = transfer_from(host, &o.spender, &o.from, &o.to, o.token_id, o.amount);
        match step {
            Ok(_) => {
                assert(host@.events.subrange(0, emitted as int) == before.events.subrange(
                    0,
                    emitted as int,
                ));
            },
            Err(e) => {
                roll_back(host, saved, emitted);
                return Err(e);
            },
        }
        i += 1;
    }
    proof {
        if index_consistent(start.records) {
            lemma_transfer_from_multi_keeps_index(start, obj@);
        }
        if supply_respected(start.records) {
            lemma_transfer_from_multi_keeps_supply(start, obj@);
        }
    }
    Ok(true)
}

} // verus!
