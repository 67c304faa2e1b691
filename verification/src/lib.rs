//! A ledger of several fungible tokens.
//!
//! A catalogue of token types is created once, for an administrator. Owners
//! hold balances of each token, move them, and let others move them within
//! an allowance; the administrator's role passes on in two steps.
//!
//! The ledger keeps its records in a key/value [`store`], under the keys that
//! [`key`] lays out, through the typed accessors of [`storage`]. One
//! invocation works in a [`host`]: the store, the addresses that authorized
//! the invocation, and the notifications it emits. The operations are in
//! [`oep8_token`], [`batch`] and [`admin`]; [`dispatch`] takes them as typed
//! requests, and [`footprint`] says which records a request needs. What
//! holds of every ledger is stated and proved in [`laws`] and [`supply`].

pub mod address;
pub mod admin;
pub mod batch;
pub mod dispatch;
pub mod footprint;
pub mod host;
pub mod key;
pub mod laws;
pub mod oep8_token;
pub mod storage;
pub mod store;
pub mod supply;
