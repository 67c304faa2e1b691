//! The environment of one invocation: the key/value store, the addresses
//! that authorized the invocation, and the notifications emitted so far.

use crate::address::Address;
use crate::storage::Records;
use crate::store::{Store, ValueView};
use vstd::prelude::*;

verus! {

/// A notification for observers outside the ledger.
#[derive(Clone, Copy, Debug, PartialEq, Eq)]
pub enum Event {
    /// `amount` of `token_id` moved from `from` to `to`. A transfer from the
    /// zero address reports newly created tokens.
    Transfer { from: Address, to: Address, token_id: u128, amount: u128 },
    /// `owner` set the allowance of `spender` for `token_id` to `amount`.
    Approval { owner: Address, spender: Address, token_id: u128, amount: u128 },
}

/// What the ledger works on during one invocation.
pub struct Host {
    /// The durable records.
    pub store: Store,
    /// The addresses that authorized this invocation.
    pub witnesses: Vec<Address>,
    /// The notifications emitted, oldest first.
    pub events: Vec<Event>,
}

/// A [`Host`] as mathematical values.
pub struct HostView {
    pub records: Records,
    pub witnesses: Seq<Address>,
    pub events: Seq<Event>,
}

impl View for Host {
    type V = HostView;

    open spec fn view(&self) -> HostView {
        HostView { records: self.store@, witnesses: self.witnesses@, events: self.events@ }
    }
}

impl HostView {
    /// Whether `user` authorized the invocation.
    pub open spec fn is_authorized(self, user: Address) -> bool {
        self.witnesses.contains(user)
    }

    /// The same environment with other records.
    pub open spec fn with_records(self, records: Records) -> HostView {
        HostView { records, ..self }
    }

    /// The same environment after one more notification.
    pub open spec fn notified(self, event: Event) -> HostView {
        HostView { events: self.events.push(event), ..self }
    }
}

impl Host {
    /// An environment with an empty store, authorized by `witnesses`.
    pub fn new(witnesses: Vec<Address>) -> (host: Host)
        ensures
            host@.records == Map::<Seq<u8>, ValueView>::empty(),
            host@.witnesses == witnesses@,
            host@.events == Seq::<Event>::empty(),
    {
        Host { store: Store::new(), witnesses, events: Vec::new() }
    }

    /// Whether `user` authorized the invocation.
    pub fn is_authorized(&self, user: &Address) -> (yes: bool)
        ensures
            yes == self@.is_authorized(*user),
    {
        let mut i: usize = 0;
        while i < self.witnesses.len()
            invariant
                i <= self.witnesses.len(),
                forall|j: int| 0 <= j < i ==> self.witnesses@[j] != *user,
            decreases self.witnesses.len() - i,
        {
            if self.witnesses[i] == *user {
                return true;
            }
            i += 1;
        }
        false
    }

    /// Emits `event`.
    pub fn notify(&mut self, event: Event)
        ensures
            final(self)@ == old(self)@.notified(event),
    {
        self.events.push(event);
    }
}

} // verus!
