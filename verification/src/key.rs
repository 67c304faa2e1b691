//! The layout of storage keys.
//!
//! Every record of the ledger lives under a byte key. A key is either one of
//! three fixed keys (the administrator, the pending administrator and the
//! token-id counter) or a composite: a length-prefixed one-byte category tag
//! followed by the fixed-width encoding of the tuple that identifies the
//! record. The encoding is injective: two different records never share a key.

use crate::address::Address;
use vstd::bytes::{
    lemma_auto_spec_u128_to_from_le_bytes, spec_u128_to_le_bytes, u128_to_le_bytes,
};
use vstd::prelude::*;

verus! {

/// Category tag of token names (ASCII `1`).
pub const TAG_NAME: u8 = 0x31;

/// Category tag of token symbols (ASCII `2`).
pub const TAG_SYMBOL: u8 = 0x32;

/// Category tag of balances (ASCII `3`).
pub const TAG_BALANCE: u8 = 0x33;

/// Category tag of total supplies (ASCII `4`).
pub const TAG_TOTAL_SUPPLY: u8 = 0x34;

/// The fixed key of the administrator (ASCII `5`).
pub const TAG_ADMIN: u8 = 0x35;

/// The fixed key of the token-id counter (ASCII `6`).
pub const TAG_TOKEN_ID: u8 = 0x36;

/// Category tag of token urls (ASCII `7`).
pub const TAG_TOKEN_URL: u8 = 0x37;

/// Category tag of allowances (ASCII `8`).
pub const TAG_ALLOWANCE: u8 = 0x38;

/// Category tag of the per-owner token-id lists (ASCII `9`).
pub const TAG_TOKEN_IDS: u8 = 0x39;

/// The tuple that identifies one record of the ledger.
#[derive(Clone, Copy, Debug)]
pub enum Key {
    /// Name of a token type.
    Name(u128),
    /// Symbol of a token type.
    Symbol(u128),
    /// Balance of an owner in a token type: `(token_id, owner)`.
    Balance(u128, Address),
    /// Total supply of a token type.
    TotalSupply(u128),
    /// The current administrator.
    Admin,
    /// The next token id to allocate.
    NextId,
    /// Url of a token type.
    TokenUrl(u128),
    /// Allowance: `(token_id, owner, spender)`.
    Allowance(u128, Address, Address),
    /// The token ids an owner holds.
    TokenIds(Address),
    /// The administrator named in a handover that has not been accepted yet.
    PendingAdmin,
}

/// A composite key: the category tag, preceded by its length (one), and then
/// the encoded tuple.
pub open spec fn spec_gen_key(tag: u8, post: Seq<u8>) -> Seq<u8> {
    seq![1u8, tag] + post
}

/// Builds the composite key of category `tag` for the encoded tuple `post`.
pub fn gen_key(tag: u8, post: &Vec<u8>) -> (key: Vec<u8>)
    ensures
        key@ == spec_gen_key(tag, post@),
{
    let mut key: Vec<u8> = Vec::new();
    key.push(1u8);
    key.push(tag);
    let mut i: usize = 0;
    while i < post.len()
        invariant
            i <= post.len(),
            key@ == seq![1u8, tag] + post@.subrange(0, i as int),
        decreases post.len() - i,
    {
        key.push(post[i]);
        i += 1;
    }
    assert(post@.subrange(0, post.len() as int) == post@);
    key
}

/// Appends the twenty bytes of `addr` to `out`.
fn push_address(out: &mut Vec<u8>, addr: &Address)
    ensures
        final(out)@ == old(out)@ + addr.bytes@,
{
    let mut i: usize = 0;
    while i < 20
        invariant
            i <= 20,
            out@ == old(out)@ + addr.bytes@.subrange(0, i as int),
        decreases 20 - i,
    {
        out.push(addr.bytes[i]);
        i += 1;
    }
    assert(addr.bytes@.subrange(0, 20) == addr.bytes@);
}

impl Key {
    /// The bytes under which the record identified by `self` is stored.
    pub open spec fn spec_encode(self) -> Seq<u8> {
        match self {
            Key::Name(id) => spec_gen_key(TAG_NAME, spec_u128_to_le_bytes(id)),
            Key::Symbol(id) => spec_gen_key(TAG_SYMBOL, spec_u128_to_le_bytes(id)),
            Key::Balance(id, owner) => spec_gen_key(
                TAG_BALANCE,
                spec_u128_to_le_bytes(id) + owner.bytes@,
            ),
            Key::TotalSupply(id) => spec_gen_key(TAG_TOTAL_SUPPLY, spec_u128_to_le_bytes(id)),
            Key::Admin => seq![TAG_ADMIN],
            Key::NextId => seq![TAG_TOKEN_ID],
            Key::TokenUrl(id) => spec_gen_key(TAG_TOKEN_URL, spec_u128_to_le_bytes(id)),
            Key::Allowance(id, owner, spender) => spec_gen_key(
                TAG_ALLOWANCE,
                spec_u128_to_le_bytes(id) + owner.bytes@ + spender.bytes@,
            ),
            Key::TokenIds(owner) => spec_gen_key(TAG_TOKEN_IDS, owner.bytes@),
            Key::PendingAdmin => seq![0x31u8, 0x30u8],
        }
    }

    /// Encodes the key.
    pub fn encode(&self) -> (key: Vec<u8>)
        ensures
            key@ == self.spec_encode(),
    {
        match self {
            Key::Name(id) => gen_key(TAG_NAME, &u128_to_le_bytes(*id)),
            Key::Symbol(id) => gen_key(TAG_SYMBOL, &u128_to_le_bytes(*id)),
            Key::Balance(id, owner) => {
                let mut post = u128_to_le_bytes(*id);
                push_address(&mut post, owner);
                gen_key(TAG_BALANCE, &post)
            },
            Key::TotalSupply(id) => gen_key(TAG_TOTAL_SUPPLY, &u128_to_le_bytes(*id)),
            Key::Admin => {
                let mut key: Vec<u8> = Vec::new();
                key.push(TAG_ADMIN);
                assert(key@ == seq![TAG_ADMIN]);
                key
            },
            Key::NextId => {
                let mut key: Vec<u8> = Vec::new();
                key.push(TAG_TOKEN_ID);
                assert(key@ == seq![TAG_TOKEN_ID]);
                key
            },
            Key::TokenUrl(id) => gen_key(TAG_TOKEN_URL, &u128_to_le_bytes(*id)),
            Key::Allowance(id, owner, spender) => {
                let mut post = u128_to_le_bytes(*id);
                push_address(&mut post, owner);
                push_address(&mut post, spender);
                gen_key(TAG_ALLOWANCE, &post)
            },
            Key::TokenIds(owner) => {
                let mut post: Vec<u8> = Vec::new();
                push_address(&mut post, owner);
                assert(post@ == owner.bytes@);
                gen_key(TAG_TOKEN_IDS, &post)
            },
            Key::PendingAdmin => {
                let mut key: Vec<u8> = Vec::new();
                key.push(0x31u8);
                key.push(0x30u8);
                assert(key@ == seq![0x31u8, 0x30u8]);
                key
            },
        }
    }
}

/// Two token ids with the same sixteen-byte encoding are equal.
proof fn lemma_le_bytes_injective(a: u128, b: u128)
    requires
        spec_u128_to_le_bytes(a) == spec_u128_to_le_bytes(b),
    ensures
        a == b,
{
    lemma_auto_spec_u128_to_from_le_bytes();
    assert(spec_u128_to_le_bytes(a).len() == 16);
    assert(spec_u128_to_le_bytes(b).len() == 16);
}

/// Two addresses with the same bytes are equal.
proof fn lemma_address_bytes_injective(a: Address, b: Address)
    requires
        a.bytes@ == b.bytes@,
    ensures
        a == b,
{
    assert(a.bytes =~= b.bytes);
}

/// The first byte of a key tells a fixed key from a composite one, and the
/// second byte of a composite key is its category tag.
proof fn lemma_encode_shape(k: Key)
    ensures
        match k {
            Key::Admin => k.spec_encode() == seq![TAG_ADMIN],
            Key::NextId => k.spec_encode() == seq![TAG_TOKEN_ID],
            Key::PendingAdmin => k.spec_encode() == seq![0x31u8, 0x30u8],
            Key::Name(_) => k.spec_encode().len() == 18 && k.spec_encode()[0] == 1
                && k.spec_encode()[1] == TAG_NAME,
            Key::Symbol(_) => k.spec_encode().len() == 18 && k.spec_encode()[0] == 1
                && k.spec_encode()[1] == TAG_SYMBOL,
            Key::TotalSupply(_) => k.spec_encode().len() == 18 && k.spec_encode()[0] == 1
                && k.spec_encode()[1] == TAG_TOTAL_SUPPLY,
            Key::TokenUrl(_) => k.spec_encode().len() == 18 && k.spec_encode()[0] == 1
                && k.spec_encode()[1] == TAG_TOKEN_URL,
            Key::Balance(_, _) => k.spec_encode().len() == 38 && k.spec_encode()[0] == 1
                && k.spec_encode()[1] == TAG_BALANCE,
            Key::Allowance(_, _, _) => k.spec_encode().len() == 58 && k.spec_encode()[0] == 1
                && k.spec_encode()[1] == TAG_ALLOWANCE,
            Key::TokenIds(_) => k.spec_encode().len() == 22 && k.spec_encode()[0] == 1
                && k.spec_encode()[1] == TAG_TOKEN_IDS,
        },
{
    lemma_auto_spec_u128_to_from_le_bytes();
    match k {
        Key::Name(id) | Key::Symbol(id) | Key::TotalSupply(id) | Key::TokenUrl(id) => {
            assert(spec_u128_to_le_bytes(id).len() == 16);
        },
        Key::Balance(id, _) => {
            assert(spec_u128_to_le_bytes(id).len() == 16);
        },
        Key::Allowance(id, _, _) => {
            assert(spec_u128_to_le_bytes(id).len() == 16);
        },
        _ => {},
    }
}

/// The key layout is injective: records with the same key are the same
/// record.
pub proof fn lemma_encode_injective(k1: Key, k2: Key)
    requires
        k1.spec_encode() == k2.spec_encode(),
    ensures
        k1 == k2,
{
    let e1 = k1.spec_encode();
    let e2 = k2.spec_encode();
    lemma_encode_shape(k1);
    lemma_encode_shape(k2);
    match (k1, k2) {
        (Key::Name(a), Key::Name(b)) => {
            assert(e1.subrange(2, 18) =~= spec_u128_to_le_bytes(a));
            assert(e2.subrange(2, 18) =~= spec_u128_to_le_bytes(b));
            lemma_le_bytes_injective(a, b);
        },
        (Key::Symbol(a), Key::Symbol(b)) => {
            assert(e1.subrange(2, 18) =~= spec_u128_to_le_bytes(a));
            assert(e2.subrange(2, 18) =~= spec_u128_to_le_bytes(b));
            lemma_le_bytes_injective(a, b);
        },
        (Key::TotalSupply(a), Key::TotalSupply(b)) => {
            assert(e1.subrange(2, 18) =~= spec_u128_to_le_bytes(a));
            assert(e2.subrange(2, 18) =~= spec_u128_to_le_bytes(b));
            lemma_le_bytes_injective(a, b);
        },
        (Key::TokenUrl(a), Key::TokenUrl(b)) => {
            assert(e1.subrange(2, 18) =~= spec_u128_to_le_bytes(a));
            assert(e2.subrange(2, 18) =~= spec_u128_to_le_bytes(b));
            lemma_le_bytes_injective(a, b);
        },
        (Key::Balance(a, x), Key::Balance(b, y)) => {
            assert(e1.subrange(2, 18) =~= spec_u128_to_le_bytes(a));
            assert(e2.subrange(2, 18) =~= spec_u128_to_le_bytes(b));
            assert(e1.subrange(18, 38) =~= x.bytes@);
            assert(e2.subrange(18, 38) =~= y.bytes@);
            lemma_le_bytes_injective(a, b);
            lemma_address_bytes_injective(x, y);
        },
        (Key::Allowance(a, x, s), Key::Allowance(b, y, t)) => {
            assert(e1.subrange(2, 18) =~= spec_u128_to_le_bytes(a));
            assert(e2.subrange(2, 18) =~= spec_u128_to_le_bytes(b));
            assert(e1.subrange(18, 38) =~= x.bytes@);
            assert(e2.subrange(18, 38) =~= y.bytes@);
            assert(e1.subrange(38, 58) =~= s.bytes@);
            assert(e2.subrange(38, 58) =~= t.bytes@);
            lemma_le_bytes_injective(a, b);
            lemma_address_bytes_injective(x, y);
            lemma_address_bytes_injective(s, t);
        },
        (Key::TokenIds(x), Key::TokenIds(y)) => {
            assert(e1.subrange(2, 22) =~= x.bytes@);
            assert(e2.subrange(2, 22) =~= y.bytes@);
            lemma_address_bytes_injective(x, y);
        },
        _ => {},
    }
}

/// No two records share a key, stated for all pairs at once.
pub proof fn lemma_keys_never_collide()
    ensures
        forall|k1: Key, k2: Key|
            (#[trigger] k1.spec_encode()) == (#[trigger] k2.spec_encode()) ==> k1 == k2,
{
    assert forall|k1: Key, k2: Key|
        (#[trigger] k1.spec_encode()) == (#[trigger] k2.spec_encode()) implies k1 == k2 by {
        lemma_encode_injective(k1, k2);
    }
}

} // verus!
