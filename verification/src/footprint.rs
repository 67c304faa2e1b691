//! Which records an operation works on.
//!
//! Every request reads and writes a handful of records that its arguments
//! name: its footprint. What the ledger answers, and what it leaves in the
//! footprint, is decided by what it finds there and by who authorized the
//! invocation among the addresses it asks about; every other record stays as
//! it was. So where the records are kept elsewhere, it is enough to bring
//! the footprint into a store, to carry out the request there, and to carry
//! the footprint back.

use crate::address::Address;
use crate::admin::{
    accept_admin_outcome, init_outcome, set_pending_admin_outcome, spec_create_token, spec_init,
    update_token_url_outcome,
};
use crate::batch::{
    spec_approve_all, spec_transfer_all, spec_transfer_from_all, ApproveState, State,
    TransferFromState,
};
use crate::dispatch::{spec_after, spec_reply, Call};
use crate::host::{Event, HostView};
use crate::key::{lemma_keys_never_collide, Key};
use crate::oep8_token::{
    approve_outcome, spec_approve, spec_transfer, spec_transfer_from, transfer_from_outcome,
    transfer_outcome, LedgerError,
};
use crate::storage::{
    get_admin, get_pending_admin, spec_get_admin, spec_get_pending_admin, with_record, Records,
};
use crate::store::ValueView;
use crate::store::Store;
use vstd::prelude::*;

verus! {

// ----- agreement ------------------------------------------------------------------

/// Whether `raw` is the key of one of `keys`.
pub open spec fn covers(keys: Seq<Key>, raw: Seq<u8>) -> bool {
    exists|i: int| 0 <= i < keys.len() && (#[trigger] keys[i]).spec_encode() == raw
}

/// Whether `m1` and `m2` hold the same under each of `keys`.
pub open spec fn agree_on(m1: Records, m2: Records, keys: Seq<Key>) -> bool {
    forall|raw: Seq<u8>| #[trigger] covers(keys, raw) ==> m1.get(raw) == m2.get(raw)
}

/// Whether `m1` and `m2` hold the same under every key but those of `keys`.
pub open spec fn agree_outside(m1: Records, m2: Records, keys: Seq<Key>) -> bool {
    forall|raw: Seq<u8>| !(#[trigger] covers(keys, raw)) ==> m1.get(raw) == m2.get(raw)
}

/// Whether every key of `keys` is among `all`.
pub open spec fn within(keys: Seq<Key>, all: Seq<Key>) -> bool {
    forall|raw: Seq<u8>| #[trigger] covers(keys, raw) ==> covers(all, raw)
}

/// Whether each of `addrs` authorized both invocations or neither.
pub open spec fn same_authorizations(h1: HostView, h2: HostView, addrs: Seq<Address>) -> bool {
    forall|i: int|
        0 <= i < addrs.len() ==> h1.is_authorized(#[trigger] addrs[i]) == h2.is_authorized(
            addrs[i],
        )
}

/// The notifications that `after` has beyond those of `before`.
pub open spec fn emitted(before: HostView, after: HostView) -> Seq<Event> {
    after.events.skip(before.events.len() as int)
}

/// A key of a list is covered by the list.
pub proof fn lemma_covers_at(keys: Seq<Key>, i: int)
    requires
        0 <= i < keys.len(),
    ensures
        covers(keys, keys[i].spec_encode()),
{
}

/// The keys of two lists joined are those of the one and those of the other.
pub proof fn lemma_covers_concat(a: Seq<Key>, b: Seq<Key>, raw: Seq<u8>)
    ensures
        covers(a + b, raw) == (covers(a, raw) || covers(b, raw)),
{
    let ab = a + b;
    if covers(a, raw) {
        let i = choose|i: int| 0 <= i < a.len() && (#[trigger] a[i]).spec_encode() == raw;
        assert(ab[i] == a[i]);
    }
    if covers(b, raw) {
        let i = choose|i: int| 0 <= i < b.len() && (#[trigger] b[i]).spec_encode() == raw;
        assert(ab[a.len() + i] == b[i]);
    }
    if covers(ab, raw) {
        let i = choose|i: int| 0 <= i < ab.len() && (#[trigger] ab[i]).spec_encode() == raw;
        if i < a.len() {
            assert(a[i] == ab[i]);
        } else {
            assert(b[i - a.len()] == ab[i]);
        }
    }
}

/// Where two operations start from records that agree on `all`, change
/// nothing outside `keys`, a part of `all`, and leave `keys` in agreement,
/// they leave `all` in agreement.
pub proof fn lemma_agreement_extends(
    m1: Records,
    m2: Records,
    after1: Records,
    after2: Records,
    keys: Seq<Key>,
    all: Seq<Key>,
)
    requires
        agree_on(m1, m2, all),
        within(keys, all),
        agree_on(after1, after2, keys),
        agree_outside(m1, after1, keys),
        agree_outside(m2, after2, keys),
    ensures
        agree_on(after1, after2, all),
{
    assert forall|raw: Seq<u8>| #[trigger] covers(all, raw) implies after1.get(raw) == after2.get(
        raw,
    ) by {
        if covers(keys, raw) {
        } else {
            assert(m1.get(raw) == after1.get(raw));
            assert(m2.get(raw) == after2.get(raw));
        }
    }
}

/// Records that agree on `all` agree on every part of it.
pub proof fn lemma_agreement_narrows(m1: Records, m2: Records, keys: Seq<Key>, all: Seq<Key>)
    requires
        agree_on(m1, m2, all),
        within(keys, all),
    ensures
        agree_on(m1, m2, keys),
{
}

/// What changes nothing outside `keys`, a part of `all`, changes nothing
/// outside `all`.
pub proof fn lemma_outside_widens(m: Records, after: Records, keys: Seq<Key>, all: Seq<Key>)
    requires
        agree_outside(m, after, keys),
        within(keys, all),
    ensures
        agree_outside(m, after, all),
{
    assert forall|raw: Seq<u8>| !(#[trigger] covers(all, raw)) implies m.get(raw) == after.get(
        raw,
    ) by {
        assert(!covers(keys, raw));
    }
}

// ----- single operations ----------------------------------------------------------

/// The records of a movement of `token_id` from `from` to `to`: the two
/// balances and the two lists.
pub open spec fn spec_move_keys(from: Address, to: Address, token_id: u128) -> Seq<Key> {
    seq![
        Key::Balance(token_id, from),
        Key::Balance(token_id, to),
        Key::TokenIds(from),
        Key::TokenIds(to),
    ]
}

/// The records of a direct transfer.
pub open spec fn spec_transfer_keys(from: Address, to: Address, token_id: u128) -> Seq<Key> {
    seq![
        Key::NextId,
        Key::Balance(token_id, from),
        Key::Balance(token_id, to),
        Key::TokenIds(from),
        Key::TokenIds(to),
    ]
}

/// The records of an approval.
pub open spec fn spec_approve_keys(owner: Address, spender: Address, token_id: u128) -> Seq<Key> {
    seq![Key::NextId, Key::Allowance(token_id, owner, spender)]
}

/// The records of a delegated transfer.
pub open spec fn spec_transfer_from_keys(
    spender: Address,
    from: Address,
    to: Address,
    token_id: u128,
) -> Seq<Key> {
    seq![
        Key::Allowance(token_id, from, spender),
        Key::Balance(token_id, from),
        Key::Balance(token_id, to),
        Key::TokenIds(from),
        Key::TokenIds(to),
    ]
}

/// A direct transfer changes nothing outside its footprint.
pub proof fn lemma_transfer_stays_inside(
    h: HostView,
    from: Address,
    to: Address,
    token_id: u128,
    amount: u128,
)
    ensures
        agree_outside(
            h.records,
            spec_transfer(h, from, to, token_id, amount).records,
            spec_transfer_keys(from, to, token_id),
        ),
{
    let keys = spec_transfer_keys(from, to, token_id);
    let after = spec_transfer(h, from, to, token_id, amount).records;
    assert forall|raw: Seq<u8>| !(#[trigger] covers(keys, raw)) implies h.records.get(raw)
        == after.get(raw) by {
        lemma_covers_at(keys, 1);
        lemma_covers_at(keys, 2);
        lemma_covers_at(keys, 3);
        lemma_covers_at(keys, 4);
    }
}

/// How a direct transfer ends, and what it leaves in its footprint, is
/// decided by the footprint and by whether the sender authorized it.
pub proof fn lemma_transfer_is_local(
    h1: HostView,
    h2: HostView,
    from: Address,
    to: Address,
    token_id: u128,
    amount: u128,
)
    requires
        agree_on(h1.records, h2.records, spec_transfer_keys(from, to, token_id)),
        h1.is_authorized(from) == h2.is_authorized(from),
    ensures
        transfer_outcome(h1, from, to, token_id, amount) == transfer_outcome(
            h2,
            from,
            to,
            token_id,
            amount,
        ),
        agree_on(
            spec_transfer(h1, from, to, token_id, amount).records,
            spec_transfer(h2, from, to, token_id, amount).records,
            spec_transfer_keys(from, to, token_id),
        ),
{
    lemma_keys_never_collide();
    let keys = spec_transfer_keys(from, to, token_id);
    lemma_covers_at(keys, 0);
    lemma_covers_at(keys, 1);
    lemma_covers_at(keys, 2);
    lemma_covers_at(keys, 3);
    lemma_covers_at(keys, 4);
    let a1 = spec_transfer(h1, from, to, token_id, amount).records;
    let a2 = spec_transfer(h2, from, to, token_id, amount).records;
    assert forall|raw: Seq<u8>| #[trigger] covers(keys, raw) implies a1.get(raw) == a2.get(
        raw,
    ) by {
        let i = choose|i: int| 0 <= i < keys.len() && (#[trigger] keys[i]).spec_encode() == raw;
        assert(i == 0 || i == 1 || i == 2 || i == 3 || i == 4);
    }
}

/// An approval changes nothing outside its footprint.
pub proof fn lemma_approve_stays_inside(
    h: HostView,
    owner: Address,
    spender: Address,
    token_id: u128,
    amount: u128,
)
    ensures
        agree_outside(
            h.records,
            spec_approve(h, owner, spender, token_id, amount).records,
            spec_approve_keys(owner, spender, token_id),
        ),
{
    let keys = spec_approve_keys(owner, spender, token_id);
    let after = spec_approve(h, owner, spender, token_id, amount).records;
    assert forall|raw: Seq<u8>| !(#[trigger] covers(keys, raw)) implies h.records.get(raw)
        == after.get(raw) by {
        lemma_covers_at(keys, 1);
    }
}

/// How an approval ends, and what it leaves in its footprint, is decided by
/// the footprint and by whether the owner authorized it.
pub proof fn lemma_approve_is_local(
    h1: HostView,
    h2: HostView,
    owner: Address,
    spender: Address,
    token_id: u128,
    amount: u128,
)
    requires
        agree_on(h1.records, h2.records, spec_approve_keys(owner, spender, token_id)),
        h1.is_authorized(owner) == h2.is_authorized(owner),
    ensures
        approve_outcome(h1, owner, token_id) == approve_outcome(h2, owner, token_id),
        agree_on(
            spec_approve(h1, owner, spender, token_id, amount).records,
            spec_approve(h2, owner, spender, token_id, amount).records,
            spec_approve_keys(owner, spender, token_id),
        ),
{
    lemma_keys_never_collide();
    let keys = spec_approve_keys(owner, spender, token_id);
    lemma_covers_at(keys, 0);
    lemma_covers_at(keys, 1);
    let a1 = spec_approve(h1, owner, spender, token_id, amount).records;
    let a2 = spec_approve(h2, owner, spender, token_id, amount).records;
    assert forall|raw: Seq<u8>| #[trigger] covers(keys, raw) implies a1.get(raw) == a2.get(
        raw,
    ) by {
        let i = choose|i: int| 0 <= i < keys.len() && (#[trigger] keys[i]).spec_encode() == raw;
        assert(i == 0 || i == 1);
    }
}

/// A delegated transfer changes nothing outside its footprint.
pub proof fn lemma_transfer_from_stays_inside(
    h: HostView,
    spender: Address,
    from: Address,
    to: Address,
    token_id: u128,
    amount: u128,
)
    ensures
        agree_outside(
            h.records,
            spec_transfer_from(h, spender, from, to, token_id, amount).records,
            spec_transfer_from_keys(spender, from, to, token_id),
        ),
{
    let keys = spec_transfer_from_keys(spender, from, to, token_id);
    let after = spec_transfer_from(h, spender, from, to, token_id, amount).records;
    assert forall|raw: Seq<u8>| !(#[trigger] covers(keys, raw)) implies h.records.get(raw)
        == after.get(raw) by {
        lemma_covers_at(keys, 0);
        lemma_covers_at(keys, 1);
        lemma_covers_at(keys, 2);
        lemma_covers_at(keys, 3);
        lemma_covers_at(keys, 4);
    }
}

/// How a delegated transfer ends, and what it leaves in its footprint, is
/// decided by the footprint and by whether the spender authorized it.
pub proof fn lemma_transfer_from_is_local(
    h1: HostView,
    h2: HostView,
    spender: Address,
    from: Address,
    to: Address,
    token_id: u128,
    amount: u128,
)
    requires
        agree_on(h1.records, h2.records, spec_transfer_from_keys(spender, from, to, token_id)),
        h1.is_authorized(spender) == h2.is_authorized(spender),
    ensures
        transfer_from_outcome(h1, spender, from, to, token_id, amount) == transfer_from_outcome(
            h2,
            spender,
            from,
            to,
            token_id,
            amount,
        ),
        agree_on(
            spec_transfer_from(h1, spender, from, to, token_id, amount).records,
            spec_transfer_from(h2, spender, from, to, token_id, amount).records,
            spec_transfer_from_keys(spender, from, to, token_id),
        ),
{
    lemma_keys_never_collide();
    let keys = spec_transfer_from_keys(spender, from, to, token_id);
    lemma_covers_at(keys, 0);
    lemma_covers_at(keys, 1);
    lemma_covers_at(keys, 2);
    lemma_covers_at(keys, 3);
    lemma_covers_at(keys, 4);
    let a1 = spec_transfer_from(h1, spender, from, to, token_id, amount).records;
    let a2 = spec_transfer_from(h2, spender, from, to, token_id, amount).records;
    assert forall|raw: Seq<u8>| #[trigger] covers(keys, raw) implies a1.get(raw) == a2.get(
        raw,
    ) by {
        let i = choose|i: int| 0 <= i < keys.len() && (#[trigger] keys[i]).spec_encode() == raw;
        assert(i == 0 || i == 1 || i == 2 || i == 3 || i == 4);
    }
}

// ----- batches --------------------------------------------------------------------

/// Whether `after` is `before` with more notifications, if any.
pub open spec fn follows(before: HostView, after: HostView) -> bool {
    &&& after.witnesses == before.witnesses
    &&& before.events.len() <= after.events.len()
    &&& after.events.subrange(0, before.events.len() as int) == before.events
}

/// The notifications beyond those of `h`, of an environment that follows
/// one that follows `h`.
proof fn lemma_emitted_in_two_steps(h: HostView, mid: HostView, after: HostView)
    requires
        follows(h, mid),
        follows(mid, after),
    ensures
        follows(h, after),
        emitted(h, after) == emitted(h, mid) + emitted(mid, after),
{
    assert(after.events.subrange(0, h.events.len() as int) == mid.events.subrange(
        0,
        h.events.len() as int,
    )) by {
        assert forall|i: int| 0 <= i < h.events.len() implies after.events[i]
            == mid.events[i] by {
            assert(after.events.subrange(0, mid.events.len() as int)[i] == mid.events[i]);
        }
        assert(after.events.subrange(0, h.events.len() as int) =~= mid.events.subrange(
            0,
            h.events.len() as int,
        ));
    }
    assert(emitted(h, after) =~= emitted(h, mid) + emitted(mid, after)) by {
        assert forall|i: int| 0 <= i < emitted(h, mid).len() implies emitted(h, after)[i]
            == emitted(h, mid)[i] by {
            assert(after.events.subrange(0, mid.events.len() as int)[h.events.len() + i]
                == mid.events[h.events.len() + i]);
        }
    }
}

/// The records of a batch of transfers: those of its entries.
pub open spec fn spec_transfer_multi_keys(states: Seq<State>) -> Seq<Key>
    decreases states.len(),
{
    if states.len() == 0 {
        Seq::empty()
    } else {
        spec_transfer_keys(states[0].from, states[0].to, states[0].token_id)
            + spec_transfer_multi_keys(states.drop_first())
    }
}

/// The records of a batch of approvals: those of its entries.
pub open spec fn spec_approve_multi_keys(states: Seq<ApproveState>) -> Seq<Key>
    decreases states.len(),
{
    if states.len() == 0 {
        Seq::empty()
    } else {
        spec_approve_keys(states[0].owner, states[0].spender, states[0].token_id)
            + spec_approve_multi_keys(states.drop_first())
    }
}

/// The records of a batch of delegated transfers: those of its entries.
pub open spec fn spec_transfer_from_multi_keys(states: Seq<TransferFromState>) -> Seq<Key>
    decreases states.len(),
{
    if states.len() == 0 {
        Seq::empty()
    } else {
        spec_transfer_from_keys(
            states[0].spender,
            states[0].from,
            states[0].to,
            states[0].token_id,
        ) + spec_transfer_from_multi_keys(states.drop_first())
    }
}

/// The keys of the first part and of the rest of a list are keys of `all`,
/// where those of the whole are.
proof fn lemma_within_parts(first: Seq<Key>, rest: Seq<Key>, all: Seq<Key>)
    requires
        within(first + rest, all),
    ensures
        within(first, all),
        within(rest, all),
{
    assert forall|raw: Seq<u8>| #[trigger] covers(first, raw) implies covers(all, raw) by {
        lemma_covers_concat(first, rest, raw);
        assert(covers(first + rest, raw));
    }
    assert forall|raw: Seq<u8>| #[trigger] covers(rest, raw) implies covers(all, raw) by {
        lemma_covers_concat(first, rest, raw);
        assert(covers(first + rest, raw));
    }
}

/// What changes nothing outside `keys` in each of two steps changes nothing
/// outside `keys` in both.
proof fn lemma_outside_in_two_steps(m: Records, mid: Records, after: Records, keys: Seq<Key>)
    requires
        agree_outside(m, mid, keys),
        agree_outside(mid, after, keys),
    ensures
        agree_outside(m, after, keys),
{
    assert forall|raw: Seq<u8>| !(#[trigger] covers(keys, raw)) implies m.get(raw) == after.get(
        raw,
    ) by {
        assert(m.get(raw) == mid.get(raw));
        assert(mid.get(raw) == after.get(raw));
    }
}

/// A batch of transfers changes nothing outside its footprint.
pub proof fn lemma_transfer_all_stays_inside(h: HostView, states: Seq<State>, all: Seq<Key>)
    requires
        within(spec_transfer_multi_keys(states), all),
    ensures
        spec_transfer_all(h, states) matches Ok(after) ==> agree_outside(
            h.records,
            after.records,
            all,
        ) && follows(h, after),
    decreases states.len(),
{
    if states.len() == 0 {
        assert(h.events.subrange(0, h.events.len() as int) == h.events);
    } else {
        let s = states[0];
        let step = spec_transfer_keys(s.from, s.to, s.token_id);
        lemma_within_parts(step, spec_transfer_multi_keys(states.drop_first()), all);
        if transfer_outcome(h, s.from, s.to, s.token_id, s.amount) == Ok::<bool, LedgerError>(
            true,
        ) {
            let mid = spec_transfer(h, s.from, s.to, s.token_id, s.amount);
            lemma_transfer_stays_inside(h, s.from, s.to, s.token_id, s.amount);
            lemma_outside_widens(h.records, mid.records, step, all);
            lemma_transfer_all_stays_inside(mid, states.drop_first(), all);
            assert(mid.events.subrange(0, h.events.len() as int) == h.events);
            if spec_transfer_all(mid, states.drop_first()) is Ok {
                let after = spec_transfer_all(mid, states.drop_first()).unwrap();
                lemma_outside_in_two_steps(h.records, mid.records, after.records, all);
                lemma_emitted_in_two_steps(h, mid, after);
            }
        }
    }
}

/// How a batch of transfers ends, what it leaves in its footprint and what
/// it emits is decided by the footprint and by which senders authorized it.
pub proof fn lemma_transfer_all_is_local(
    h1: HostView,
    h2: HostView,
    states: Seq<State>,
    all: Seq<Key>,
)
    requires
        agree_on(h1.records, h2.records, all),
        within(spec_transfer_multi_keys(states), all),
        forall|i: int|
            0 <= i < states.len() ==> h1.is_authorized((#[trigger] states[i]).from)
                == h2.is_authorized(states[i].from),
    ensures
        match (spec_transfer_all(h1, states), spec_transfer_all(h2, states)) {
            (Ok(a1), Ok(a2)) => agree_on(a1.records, a2.records, all) && emitted(h1, a1)
                == emitted(h2, a2),
            (Err(e1), Err(e2)) => e1 == e2,
            _ => false,
        },
    decreases states.len(),
{
    if states.len() == 0 {
        assert(emitted(h1, h1) =~= emitted(h2, h2));
    } else {
        let s = states[0];
        let rest = states.drop_first();
        let step = spec_transfer_keys(s.from, s.to, s.token_id);
        lemma_within_parts(step, spec_transfer_multi_keys(rest), all);
        lemma_agreement_narrows(h1.records, h2.records, step, all);
        assert(h1.is_authorized(states[0].from) == h2.is_authorized(states[0].from));
        lemma_transfer_is_local(h1, h2, s.from, s.to, s.token_id, s.amount);
        if transfer_outcome(h1, s.from, s.to, s.token_id, s.amount) == Ok::<bool, LedgerError>(
            true,
        ) {
            let m1 = spec_transfer(h1, s.from, s.to, s.token_id, s.amount);
            let m2 = spec_transfer(h2, s.from, s.to, s.token_id, s.amount);
            lemma_transfer_stays_inside(h1, s.from, s.to, s.token_id, s.amount);
            lemma_transfer_stays_inside(h2, s.from, s.to, s.token_id, s.amount);
            lemma_agreement_extends(
                h1.records,
                h2.records,
                m1.records,
                m2.records,
                step,
                all,
            );
            assert forall|i: int| 0 <= i < rest.len() implies m1.is_authorized(
                (#[trigger] rest[i]).from,
            ) == m2.is_authorized(rest[i].from) by {
                assert(rest[i] == states[i + 1]);
            }
            lemma_transfer_all_is_local(m1, m2, rest, all);
            lemma_transfer_all_stays_inside(m1, rest, all);
            lemma_transfer_all_stays_inside(m2, rest, all);
            assert(m1.events.subrange(0, h1.events.len() as int) == h1.events);
            assert(m2.events.subrange(0, h2.events.len() as int) == h2.events);
            assert(emitted(h1, m1) =~= emitted(h2, m2));
            if spec_transfer_all(m1, rest) is Ok {
                let a1 = spec_transfer_all(m1, rest).unwrap();
                let a2 = spec_transfer_all(m2, rest).unwrap();
                lemma_emitted_in_two_steps(h1, m1, a1);
                lemma_emitted_in_two_steps(h2, m2, a2);
            }
        }
    }
}

/// A batch of approvals changes nothing outside its footprint.
pub proof fn lemma_approve_all_stays_inside(h: HostView, states: Seq<ApproveState>, all: Seq<Key>)
    requires
        within(spec_approve_multi_keys(states), all),
    ensures
        spec_approve_all(h, states) matches Ok(after) ==> agree_outside(
            h.records,
            after.records,
            all,
        ) && follows(h, after),
    decreases states.len(),
{
    if states.len() == 0 {
        assert(h.events.subrange(0, h.events.len() as int) == h.events);
    } else {
        let s = states[0];
        let step = spec_approve_keys(s.owner, s.spender, s.token_id);
        lemma_within_parts(step, spec_approve_multi_keys(states.drop_first()), all);
        if approve_outcome(h, s.owner, s.token_id) is Ok {
            let mid = spec_approve(h, s.owner, s.spender, s.token_id, s.amount);
            lemma_approve_stays_inside(h, s.owner, s.spender, s.token_id, s.amount);
            lemma_outside_widens(h.records, mid.records, step, all);
            lemma_approve_all_stays_inside(mid, states.drop_first(), all);
            assert(mid.events.subrange(0, h.events.len() as int) == h.events);
            if spec_approve_all(mid, states.drop_first()) is Ok {
                let after = spec_approve_all(mid, states.drop_first()).unwrap();
                lemma_outside_in_two_steps(h.records, mid.records, after.records, all);
                lemma_emitted_in_two_steps(h, mid, after);
            }
        }
    }
}

/// How a batch of approvals ends, what it leaves in its footprint and what
/// it emits is decided by the footprint and by which owners authorized it.
pub proof fn lemma_approve_all_is_local(
    h1: HostView,
    h2: HostView,
    states: Seq<ApproveState>,
    all: Seq<Key>,
)
    requires
        agree_on(h1.records, h2.records, all),
        within(spec_approve_multi_keys(states), all),
        forall|i: int|
            0 <= i < states.len() ==> h1.is_authorized((#[trigger] states[i]).owner)
                == h2.is_authorized(states[i].owner),
    ensures
        match (spec_approve_all(h1, states), spec_approve_all(h2, states)) {
            (Ok(a1), Ok(a2)) => agree_on(a1.records, a2.records, all) && emitted(h1, a1)
                == emitted(h2, a2),
            (Err(e1), Err(e2)) => e1 == e2,
            _ => false,
        },
    decreases states.len(),
{
    if states.len() == 0 {
        assert(emitted(h1, h1) =~= emitted(h2, h2));
    } else {
        let s = states[0];
        let rest = states.drop_first();
        let step = spec_approve_keys(s.owner, s.spender, s.token_id);
        lemma_within_parts(step, spec_approve_multi_keys(rest), all);
        lemma_agreement_narrows(h1.records, h2.records, step, all);
        assert(h1.is_authorized(states[0].owner) == h2.is_authorized(states[0].owner));
        lemma_approve_is_local(h1, h2, s.owner, s.spender, s.token_id, s.amount);
        if approve_outcome(h1, s.owner, s.token_id) is Ok {
            let m1 = spec_approve(h1, s.owner, s.spender, s.token_id, s.amount);
            let m2 = spec_approve(h2, s.owner, s.spender, s.token_id, s.amount);
            lemma_approve_stays_inside(h1, s.owner, s.spender, s.token_id, s.amount);
            lemma_approve_stays_inside(h2, s.owner, s.spender, s.token_id, s.amount);
            lemma_agreement_extends(
                h1.records,
                h2.records,
                m1.records,
                m2.records,
                step,
                all,
            );
            assert forall|i: int| 0 <= i < rest.len() implies m1.is_authorized(
                (#[trigger] rest[i]).owner,
            ) == m2.is_authorized(rest[i].owner) by {
                assert(rest[i] == states[i + 1]);
            }
            lemma_approve_all_is_local(m1, m2, rest, all);
            lemma_approve_all_stays_inside(m1, rest, all);
            lemma_approve_all_stays_inside(m2, rest, all);
            assert(m1.events.subrange(0, h1.events.len() as int) == h1.events);
            assert(m2.events.subrange(0, h2.events.len() as int) == h2.events);
            assert(emitted(h1, m1) =~= emitted(h2, m2));
            if spec_approve_all(m1, rest) is Ok {
                let a1 = spec_approve_all(m1, rest).unwrap();
                let a2 = spec_approve_all(m2, rest).unwrap();
                lemma_emitted_in_two_steps(h1, m1, a1);
                lemma_emitted_in_two_steps(h2, m2, a2);
            }
        }
    }
}

/// A batch of delegated transfers changes nothing outside its footprint.
pub proof fn lemma_transfer_from_all_stays_inside(
    h: HostView,
    states: Seq<TransferFromState>,
    all: Seq<Key>,
)
    requires
        within(spec_transfer_from_multi_keys(states), all),
    ensures
        spec_transfer_from_all(h, states) matches Ok(after) ==> agree_outside(
            h.records,
            after.records,
            all,
        ) && follows(h, after),
    decreases states.len(),
{
    if states.len() == 0 {
        assert(h.events.subrange(0, h.events.len() as int) == h.events);
    } else {
        let s = states[0];
        let step = spec_transfer_from_keys(s.spender, s.from, s.to, s.token_id);
        lemma_within_parts(step, spec_transfer_from_multi_keys(states.drop_first()), all);
        if transfer_from_outcome(h, s.spender, s.from, s.to, s.token_id, s.amount) is Ok {
            let mid = spec_transfer_from(h, s.spender, s.from, s.to, s.token_id, s.amount);
            lemma_transfer_from_stays_inside(h, s.spender, s.from, s.to, s.token_id, s.amount);
            lemma_outside_widens(h.records, mid.records, step, all);
            lemma_transfer_from_all_stays_inside(mid, states.drop_first(), all);
            assert(mid.events.subrange(0, h.events.len() as int) == h.events);
            if spec_transfer_from_all(mid, states.drop_first()) is Ok {
                let after = spec_transfer_from_all(mid, states.drop_first()).unwrap();
                lemma_outside_in_two_steps(h.records, mid.records, after.records, all);
                lemma_emitted_in_two_steps(h, mid, after);
            }
        }
    }
}

/// How a batch of delegated transfers ends, what it leaves in its footprint
/// and what it emits is decided by the footprint and by which spenders
/// authorized it.
pub proof fn lemma_transfer_from_all_is_local(
    h1: HostView,
    h2: HostView,
    states: Seq<TransferFromState>,
    all: Seq<Key>,
)
    requires
        agree_on(h1.records, h2.records, all),
        within(spec_transfer_from_multi_keys(states), all),
        forall|i: int|
            0 <= i < states.len() ==> h1.is_authorized((#[trigger] states[i]).spender)
                == h2.is_authorized(states[i].spender),
    ensures
        match (spec_transfer_from_all(h1, states), spec_transfer_from_all(h2, states)) {
            (Ok(a1), Ok(a2)) => agree_on(a1.records, a2.records, all) && emitted(h1, a1)
                == emitted(h2, a2),
            (Err(e1), Err(e2)) => e1 == e2,
            _ => false,
        },
    decreases states.len(),
{
    if states.len() == 0 {
        assert(emitted(h1, h1) =~= emitted(h2, h2));
    } else {
        let s = states[0];
        let rest = states.drop_first();
        let step = spec_transfer_from_keys(s.spender, s.from, s.to, s.token_id);
        lemma_within_parts(step, spec_transfer_from_multi_keys(rest), all);
        lemma_agreement_narrows(h1.records, h2.records, step, all);
        assert(h1.is_authorized(states[0].spender) == h2.is_authorized(states[0].spender));
        lemma_transfer_from_is_local(h1, h2, s.spender, s.from, s.to, s.token_id, s.amount);
        if transfer_from_outcome(h1, s.spender, s.from, s.to, s.token_id, s.amount) is Ok {
            let m1 = spec_transfer_from(h1, s.spender, s.from, s.to, s.token_id, s.amount);
            let m2 = spec_transfer_from(h2, s.spender, s.from, s.to, s.token_id, s.amount);
            lemma_transfer_from_stays_inside(h1, s.spender, s.from, s.to, s.token_id, s.amount);
            lemma_transfer_from_stays_inside(h2, s.spender, s.from, s.to, s.token_id, s.amount);
            lemma_agreement_extends(
                h1.records,
                h2.records,
                m1.records,
                m2.records,
                step,
                all,
            );
            assert forall|i: int| 0 <= i < rest.len() implies m1.is_authorized(
                (#[trigger] rest[i]).spender,
            ) == m2.is_authorized(rest[i].spender) by {
                assert(rest[i] == states[i + 1]);
            }
            lemma_transfer_from_all_is_local(m1, m2, rest, all);
            lemma_transfer_from_all_stays_inside(m1, rest, all);
            lemma_transfer_from_all_stays_inside(m2, rest, all);
            assert(m1.events.subrange(0, h1.events.len() as int) == h1.events);
            assert(m2.events.subrange(0, h2.events.len() as int) == h2.events);
            assert(emitted(h1, m1) =~= emitted(h2, m2));
            if spec_transfer_from_all(m1, rest) is Ok {
                let a1 = spec_transfer_from_all(m1, rest).unwrap();
                let a2 = spec_transfer_from_all(m2, rest).unwrap();
                lemma_emitted_in_two_steps(h1, m1, a1);
                lemma_emitted_in_two_steps(h2, m2, a2);
            }
        }
    }
}

// ----- administration -------------------------------------------------------------

/// The records of the creation of token type `id` for `admin`.
pub open spec fn spec_token_keys(id: u128, admin: Address) -> Seq<Key> {
    seq![
        Key::Name(id),
        Key::Symbol(id),
        Key::TotalSupply(id),
        Key::Balance(id, admin),
        Key::TokenIds(admin),
    ]
}

/// The records of an initialization for `admin`: the administrator, the
/// counter, and what makes up the five token types of the catalogue.
pub open spec fn spec_init_keys(admin: Address) -> Seq<Key> {
    seq![
        Key::Admin,
        Key::NextId,
        Key::TokenIds(admin),
        Key::Name(1),
        Key::Symbol(1),
        Key::TotalSupply(1),
        Key::Balance(1, admin),
        Key::Name(2),
        Key::Symbol(2),
        Key::TotalSupply(2),
        Key::Balance(2, admin),
        Key::Name(3),
        Key::Symbol(3),
        Key::TotalSupply(3),
        Key::Balance(3, admin),
        Key::Name(4),
        Key::Symbol(4),
        Key::TotalSupply(4),
        Key::Balance(4, admin),
        Key::Name(5),
        Key::Symbol(5),
        Key::TotalSupply(5),
        Key::Balance(5, admin),
    ]
}

/// The records of a handover step.
pub open spec fn spec_handover_keys() -> Seq<Key> {
    seq![Key::Admin, Key::PendingAdmin]
}

/// The records of an update of a token's url.
pub open spec fn spec_update_token_url_keys(token_id: u128) -> Seq<Key> {
    seq![Key::Admin, Key::NextId, Key::TokenUrl(token_id)]
}

/// The records of token type `id`, one to five, are among those of an
/// initialization.
proof fn lemma_token_keys_within_init(id: u128, admin: Address)
    requires
        1 <= id <= 5,
    ensures
        within(spec_token_keys(id, admin), spec_init_keys(admin)),
{
    let keys = spec_token_keys(id, admin);
    let all = spec_init_keys(admin);
    let base = 4 * (id - 1) + 3;
    assert forall|raw: Seq<u8>| #[trigger] covers(keys, raw) implies covers(all, raw) by {
        let i = choose|i: int| 0 <= i < keys.len() && (#[trigger] keys[i]).spec_encode() == raw;
        if i == 4 {
            assert(all[2] == keys[4]);
        } else {
            assert(all[base + i] == keys[i]);
        }
    }
}

/// The creation of a token type changes nothing outside its footprint, and
/// what it leaves there and emits is decided by the footprint.
proof fn lemma_create_token_footprint(
    h1: HostView,
    h2: HostView,
    admin: Address,
    id: u128,
    name: Seq<char>,
    symbol: Seq<char>,
    supply: u128,
    all: Seq<Key>,
)
    requires
        agree_on(h1.records, h2.records, all),
        within(spec_token_keys(id, admin), all),
    ensures
        agree_on(
            spec_create_token(h1, admin, id, name, symbol, supply).records,
            spec_create_token(h2, admin, id, name, symbol, supply).records,
            all,
        ),
        agree_outside(
            h1.records,
            spec_create_token(h1, admin, id, name, symbol, supply).records,
            all,
        ),
        agree_outside(
            h2.records,
            spec_create_token(h2, admin, id, name, symbol, supply).records,
            all,
        ),
        follows(h1, spec_create_token(h1, admin, id, name, symbol, supply)),
        follows(h2, spec_create_token(h2, admin, id, name, symbol, supply)),
        emitted(h1, spec_create_token(h1, admin, id, name, symbol, supply)) == emitted(
            h2,
            spec_create_token(h2, admin, id, name, symbol, supply),
        ),
{
    lemma_keys_never_collide();
    let keys = spec_token_keys(id, admin);
    let c1 = spec_create_token(h1, admin, id, name, symbol, supply);
    let c2 = spec_create_token(h2, admin, id, name, symbol, supply);
    lemma_covers_at(keys, 0);
    lemma_covers_at(keys, 1);
    lemma_covers_at(keys, 2);
    lemma_covers_at(keys, 3);
    lemma_covers_at(keys, 4);
    lemma_agreement_narrows(h1.records, h2.records, keys, all);
    assert(agree_on(c1.records, c2.records, keys)) by {
        assert forall|raw: Seq<u8>| #[trigger] covers(keys, raw) implies c1.records.get(raw)
            == c2.records.get(raw) by {
            let i = choose|i: int|
                0 <= i < keys.len() && (#[trigger] keys[i]).spec_encode() == raw;
            assert(i == 0 || i == 1 || i == 2 || i == 3 || i == 4);
        }
    }
    assert(agree_outside(h1.records, c1.records, keys));
    assert(agree_outside(h2.records, c2.records, keys));
    lemma_agreement_extends(h1.records, h2.records, c1.records, c2.records, keys, all);
    lemma_outside_widens(h1.records, c1.records, keys, all);
    lemma_outside_widens(h2.records, c2.records, keys, all);
    assert(c1.events.subrange(0, h1.events.len() as int) == h1.events);
    assert(c2.events.subrange(0, h2.events.len() as int) == h2.events);
    assert(emitted(h1, c1) =~= emitted(h2, c2));
}

/// An initialization changes nothing outside its footprint, and how it ends,
/// what it leaves there and what it emits is decided by the footprint and by
/// whether the new administrator authorized it.
pub proof fn lemma_init_footprint(h1: HostView, h2: HostView, admin: Address)
    requires
        agree_on(h1.records, h2.records, spec_init_keys(admin)),
        h1.is_authorized(admin) == h2.is_authorized(admin),
    ensures
        init_outcome(h1, admin) == init_outcome(h2, admin),
        agree_on(spec_init(h1, admin).records, spec_init(h2, admin).records, spec_init_keys(admin)),
        agree_outside(h1.records, spec_init(h1, admin).records, spec_init_keys(admin)),
        follows(h1, spec_init(h1, admin)),
        emitted(h1, spec_init(h1, admin)) == emitted(h2, spec_init(h2, admin)),
{
    lemma_keys_never_collide();
    let all = spec_init_keys(admin);
    lemma_covers_at(all, 0);
    lemma_covers_at(all, 1);
    let admin_record = ValueView::Addr(admin);
    let g1 = h1.with_records(with_record(h1.records, Key::Admin, admin_record));
    let g2 = h2.with_records(with_record(h2.records, Key::Admin, admin_record));
    assert(agree_on(g1.records, g2.records, all)) by {
        assert forall|raw: Seq<u8>| #[trigger] covers(all, raw) implies g1.records.get(raw)
            == g2.records.get(raw) by {
            assert(h1.records.get(raw) == h2.records.get(raw));
        }
    }
    assert(agree_outside(h1.records, g1.records, all));
    assert(spec_get_admin(g1.records) == admin);
    assert(spec_get_admin(g2.records) == admin);
    lemma_token_keys_within_init(1, admin);
    lemma_token_keys_within_init(2, admin);
    lemma_token_keys_within_init(3, admin);
    lemma_token_keys_within_init(4, admin);
    lemma_token_keys_within_init(5, admin);
    let a1 = spec_create_token(g1, admin, 1, "TokenNameFirst"@, "TNF"@, 100_000);
    let a2 = spec_create_token(g2, admin, 1, "TokenNameFirst"@, "TNF"@, 100_000);
    lemma_create_token_footprint(g1, g2, admin, 1, "TokenNameFirst"@, "TNF"@, 100_000, all);
    let b1 = spec_create_token(a1, admin, 2, "TokenNameSecond"@, "TNS"@, 200_000);
    let b2 = spec_create_token(a2, admin, 2, "TokenNameSecond"@, "TNS"@, 200_000);
    lemma_create_token_footprint(a1, a2, admin, 2, "TokenNameSecond"@, "TNS"@, 200_000, all);
    let c1 = spec_create_token(b1, admin, 3, "TokenNameThird"@, "TNH"@, 300_000);
    let c2 = spec_create_token(b2, admin, 3, "TokenNameThird"@, "TNH"@, 300_000);
    lemma_create_token_footprint(b1, b2, admin, 3, "TokenNameThird"@, "TNH"@, 300_000, all);
    let d1 = spec_create_token(c1, admin, 4, "TokenNameFourth"@, "TNO"@, 400_000);
    let d2 = spec_create_token(c2, admin, 4, "TokenNameFourth"@, "TNO"@, 400_000);
    lemma_create_token_footprint(c1, c2, admin, 4, "TokenNameFourth"@, "TNO"@, 400_000, all);
    let e1 = spec_create_token(d1, admin, 5, "TokenNameFifth"@, "TNI"@, 500_000);
    let e2 = spec_create_token(d2, admin, 5, "TokenNameFifth"@, "TNI"@, 500_000);
    lemma_create_token_footprint(d1, d2, admin, 5, "TokenNameFifth"@, "TNI"@, 500_000, all);
    let f1 = spec_init(h1, admin);
    let f2 = spec_init(h2, admin);
    assert(f1 == e1.with_records(
        with_record(e1.records, Key::NextId, ValueView::Num(6)),
    ));
    assert(f2 == e2.with_records(
        with_record(e2.records, Key::NextId, ValueView::Num(6)),
    ));
    lemma_outside_in_two_steps(h1.records, g1.records, a1.records, all);
    lemma_outside_in_two_steps(h1.records, a1.records, b1.records, all);
    lemma_outside_in_two_steps(h1.records, b1.records, c1.records, all);
    lemma_outside_in_two_steps(h1.records, c1.records, d1.records, all);
    lemma_outside_in_two_steps(h1.records, d1.records, e1.records, all);
    assert(agree_outside(e1.records, f1.records, all));
    lemma_outside_in_two_steps(h1.records, e1.records, f1.records, all);
    assert(agree_on(f1.records, f2.records, all)) by {
        assert forall|raw: Seq<u8>| #[trigger] covers(all, raw) implies f1.records.get(raw)
            == f2.records.get(raw) by {
            assert(e1.records.get(raw) == e2.records.get(raw));
        }
    }
    assert(follows(h1, g1)) by {
        assert(g1.events.subrange(0, h1.events.len() as int) == h1.events);
    }
    assert(follows(h2, g2)) by {
        assert(g2.events.subrange(0, h2.events.len() as int) == h2.events);
    }
    assert(emitted(h1, g1) =~= emitted(h2, g2));
    lemma_emitted_in_two_steps(h1, g1, a1);
    lemma_emitted_in_two_steps(h2, g2, a2);
    lemma_emitted_in_two_steps(h1, a1, b1);
    lemma_emitted_in_two_steps(h2, a2, b2);
    lemma_emitted_in_two_steps(h1, b1, c1);
    lemma_emitted_in_two_steps(h2, b2, c2);
    lemma_emitted_in_two_steps(h1, c1, d1);
    lemma_emitted_in_two_steps(h2, c2, d2);
    lemma_emitted_in_two_steps(h1, d1, e1);
    lemma_emitted_in_two_steps(h2, d2, e2);
    assert(f1.events == e1.events);
    assert(f2.events == e2.events);
}

// ----- requests -------------------------------------------------------------------

/// The footprint of `call`: the records it reads or writes.
pub open spec fn spec_footprint(call: Call) -> Seq<Key> {
    match call {
        Call::Init { admin } => spec_init_keys(admin),
        Call::SetPendingAdmin { new_pending_admin } => spec_handover_keys(),
        Call::AcceptAdmin => spec_handover_keys(),
        Call::UpdateTokenUrl { token_id, url } => spec_update_token_url_keys(token_id),
        Call::Name { token_id } => seq![Key::Name(token_id)],
        Call::Symbol { token_id } => seq![Key::Symbol(token_id)],
        Call::BalanceOf { user, token_id } => seq![Key::Balance(token_id, user)],
        Call::Allowance { owner, spender, token_id } => seq![
            Key::Allowance(token_id, owner, spender),
        ],
        Call::TotalSupply { token_id } => seq![Key::TotalSupply(token_id)],
        Call::Transfer { from, to, token_id, amount } => spec_transfer_keys(from, to, token_id),
        Call::TransferMulti { states } => spec_transfer_multi_keys(states@),
        Call::Approve { owner, spender, token_id, amount } => spec_approve_keys(
            owner,
            spender,
            token_id,
        ),
        Call::TransferFrom { spender, from, to, token_id, amount } => spec_transfer_from_keys(
            spender,
            from,
            to,
            token_id,
        ),
        Call::ApproveMulti { approvals } => spec_approve_multi_keys(approvals@),
        Call::TransferFromMulti { transfers } => spec_transfer_from_multi_keys(transfers@),
        Call::QueryTokenIdsByOwnerAddr { user } => seq![Key::TokenIds(user)],
        Call::QueryTokenById { token_id } => seq![Key::Name(token_id), Key::TokenUrl(token_id)],
    }
}

/// The addresses whose authorization `call` asks for, given the records `m`.
pub open spec fn spec_asked(m: Records, call: Call) -> Seq<Address> {
    match call {
        Call::Init { admin } => seq![admin],
        Call::SetPendingAdmin { new_pending_admin } => seq![spec_get_admin(m)],
        Call::AcceptAdmin => seq![spec_get_pending_admin(m)],
        Call::UpdateTokenUrl { token_id, url } => seq![spec_get_admin(m)],
        Call::Transfer { from, to, token_id, amount } => seq![from],
        Call::TransferMulti { states } => Seq::new(states@.len(), |i: int| states@[i].from),
        Call::Approve { owner, spender, token_id, amount } => seq![owner],
        Call::TransferFrom { spender, from, to, token_id, amount } => seq![spender],
        Call::ApproveMulti { approvals } => Seq::new(
            approvals@.len(),
            |i: int| approvals@[i].owner,
        ),
        Call::TransferFromMulti { transfers } => Seq::new(
            transfers@.len(),
            |i: int| transfers@[i].spender,
        ),
        _ => Seq::empty(),
    }
}

/// The footprint suffices. Let `part` hold what `whole` holds in the
/// footprint of `call`, and let the addresses that `call` asks about have
/// authorized both or neither. Then the ledger answers `call` alike in both,
/// emits the same notifications, and leaves in `whole` what it leaves in
/// `part` within the footprint and what was there before outside it.
pub proof fn lemma_footprint_suffices(whole: HostView, part: HostView, call: Call)
    requires
        agree_on(whole.records, part.records, spec_footprint(call)),
        same_authorizations(whole, part, spec_asked(whole.records, call)),
    ensures
        spec_reply(whole, call) == spec_reply(part, call),
        agree_on(
            spec_after(whole, call).records,
            spec_after(part, call).records,
            spec_footprint(call),
        ),
        agree_outside(whole.records, spec_after(whole, call).records, spec_footprint(call)),
        follows(whole, spec_after(whole, call)),
        emitted(whole, spec_after(whole, call)) == emitted(part, spec_after(part, call)),
{
    lemma_keys_never_collide();
    let keys = spec_footprint(call);
    let asked = spec_asked(whole.records, call);
    let w = spec_after(whole, call);
    let p = spec_after(part, call);
    assert(whole.events.subrange(0, whole.events.len() as int) == whole.events);
    assert(emitted(whole, whole) =~= emitted(part, part));
    if keys.len() > 0 {
        lemma_covers_at(keys, 0);
    }
    if keys.len() > 1 {
        lemma_covers_at(keys, 1);
    }
    if keys.len() > 2 {
        lemma_covers_at(keys, 2);
    }
    if asked.len() > 0 {
        assert(whole.is_authorized(asked[0]) == part.is_authorized(asked[0]));
    }
    match call {
        Call::Init { admin } => {
            lemma_init_footprint(whole, part, admin);
        },
        Call::SetPendingAdmin { new_pending_admin } => {
            if set_pending_admin_outcome(whole) is Ok {
                assert(w.events.subrange(0, whole.events.len() as int) == whole.events);
                assert(emitted(whole, w) =~= emitted(part, p));
                assert forall|raw: Seq<u8>| #[trigger] covers(keys, raw) implies w.records.get(
                    raw,
                ) == p.records.get(raw) by {
                    assert(whole.records.get(raw) == part.records.get(raw));
                }
            }
        },
        Call::AcceptAdmin => {
            if accept_admin_outcome(whole) is Ok {
                assert(w.events.subrange(0, whole.events.len() as int) == whole.events);
                assert(emitted(whole, w) =~= emitted(part, p));
                assert forall|raw: Seq<u8>| #[trigger] covers(keys, raw) implies w.records.get(
                    raw,
                ) == p.records.get(raw) by {
                    assert(whole.records.get(raw) == part.records.get(raw));
                }
            }
        },
        Call::UpdateTokenUrl { token_id, url } => {
            if update_token_url_outcome(whole, token_id) is Ok {
                assert(w.events.subrange(0, whole.events.len() as int) == whole.events);
                assert(emitted(whole, w) =~= emitted(part, p));
                assert forall|raw: Seq<u8>| #[trigger] covers(keys, raw) implies w.records.get(
                    raw,
                ) == p.records.get(raw) by {
                    assert(whole.records.get(raw) == part.records.get(raw));
                }
            }
        },
        Call::Transfer { from, to, token_id, amount } => {
            lemma_transfer_is_local(whole, part, from, to, token_id, amount);
            lemma_transfer_stays_inside(whole, from, to, token_id, amount);
            if transfer_outcome(whole, from, to, token_id, amount) == Ok::<bool, LedgerError>(
                true,
            ) {
                assert(w.events.subrange(0, whole.events.len() as int) == whole.events);
                assert(emitted(whole, w) =~= emitted(part, p));
            }
        },
        Call::TransferMulti { states } => {
            assert forall|i: int| 0 <= i < states@.len() implies whole.is_authorized(
                (#[trigger] states@[i]).from,
            ) == part.is_authorized(states@[i].from) by {
                assert(asked[i] == states@[i].from);
            }
            lemma_transfer_all_is_local(whole, part, states@, keys);
            lemma_transfer_all_stays_inside(whole, states@, keys);
        },
        Call::Approve { owner, spender, token_id, amount } => {
            lemma_approve_is_local(whole, part, owner, spender, token_id, amount);
            lemma_approve_stays_inside(whole, owner, spender, token_id, amount);
            if approve_outcome(whole, owner, token_id) is Ok {
                assert(w.events.subrange(0, whole.events.len() as int) == whole.events);
                assert(emitted(whole, w) =~= emitted(part, p));
            }
        },
        Call::TransferFrom { spender, from, to, token_id, amount } => {
            lemma_transfer_from_is_local(whole, part, spender, from, to, token_id, amount);
            lemma_transfer_from_stays_inside(whole, spender, from, to, token_id, amount);
            if transfer_from_outcome(whole, spender, from, to, token_id, amount) is Ok {
                assert(w.events.subrange(0, whole.events.len() as int) == whole.events);
                assert(emitted(whole, w) =~= emitted(part, p));
            }
        },
        Call::ApproveMulti { approvals } => {
            assert forall|i: int| 0 <= i < approvals@.len() implies whole.is_authorized(
                (#[trigger] approvals@[i]).owner,
            ) == part.is_authorized(approvals@[i].owner) by {
                assert(asked[i] == approvals@[i].owner);
            }
            lemma_approve_all_is_local(whole, part, approvals@, keys);
            lemma_approve_all_stays_inside(whole, approvals@, keys);
        },
        Call::TransferFromMulti { transfers } => {
            assert forall|i: int| 0 <= i < transfers@.len() implies whole.is_authorized(
                (#[trigger] transfers@[i]).spender,
            ) == part.is_authorized(transfers@[i].spender) by {
                assert(asked[i] == transfers@[i].spender);
            }
            lemma_transfer_from_all_is_local(whole, part, transfers@, keys);
            lemma_transfer_from_all_stays_inside(whole, transfers@, keys);
        },
        _ => {},
    }
}

/// Appends the records of a movement of `token_id` from `from` to `to`.
fn push_move_keys(keys: &mut Vec<Key>, from: &Address, to: &Address, token_id: u128)
    ensures
        final(keys)@ == old(keys)@ + spec_move_keys(*from, *to, token_id),
{
    keys.push(Key::Balance(token_id, *from));
    keys.push(Key::Balance(token_id, *to));
    keys.push(Key::TokenIds(*from));
    keys.push(Key::TokenIds(*to));
    assert(keys@ =~= old(keys)@ + spec_move_keys(*from, *to, token_id));
}

/// The records of a batch of transfers.
fn transfer_multi_keys(states: &Vec<State>) -> (keys: Vec<Key>)
    ensures
        keys@ == spec_transfer_multi_keys(states@),
{
    let mut keys: Vec<Key> = Vec::new();
    let mut i: usize = 0;
    assert(states@.skip(0) == states@);
    while i < states.len()
        invariant
            i <= states.len(),
            spec_transfer_multi_keys(states@) == keys@ + spec_transfer_multi_keys(
                states@.skip(i as int),
            ),
        decreases states.len() - i,
    {
        let s = &states[i];
        let ghost before = keys@;
        keys.push(Key::NextId);
        push_move_keys(&mut keys, &s.from, &s.to, s.token_id);
        proof {
            let rest = states@.skip(i as int);
            assert(rest[0] == states@[i as int]);
            assert(rest.drop_first() == states@.skip(i + 1));
            assert(keys@ =~= before + spec_transfer_keys(s.from, s.to, s.token_id));
            assert(keys@ + spec_transfer_multi_keys(states@.skip(i + 1)) =~= before
                + spec_transfer_multi_keys(rest));
        }
        i += 1;
    }
    assert(keys@ + Seq::<Key>::empty() =~= keys@);
    keys
}

/// The records of a batch of approvals.
fn approve_multi_keys(approvals: &Vec<ApproveState>) -> (keys: Vec<Key>)
    ensures
        keys@ == spec_approve_multi_keys(approvals@),
{
    let mut keys: Vec<Key> = Vec::new();
    let mut i: usize = 0;
    assert(approvals@.skip(0) == approvals@);
    while i < approvals.len()
        invariant
            i <= approvals.len(),
            spec_approve_multi_keys(approvals@) == keys@ + spec_approve_multi_keys(
                approvals@.skip(i as int),
            ),
        decreases approvals.len() - i,
    {
        let s = &approvals[i];
        let ghost before = keys@;
        keys.push(Key::NextId);
        keys.push(Key::Allowance(s.token_id, s.owner, s.spender));
        proof {
            let rest = approvals@.skip(i as int);
            assert(rest[0] == approvals@[i as int]);
            assert(rest.drop_first() == approvals@.skip(i + 1));
            assert(keys@ =~= before + spec_approve_keys(s.owner, s.spender, s.token_id));
            assert(keys@ + spec_approve_multi_keys(approvals@.skip(i + 1)) =~= before
                + spec_approve_multi_keys(rest));
        }
        i += 1;
    }
    assert(keys@ + Seq::<Key>::empty() =~= keys@);
    keys
}

/// The records of a batch of delegated transfers.
fn transfer_from_multi_keys(transfers: &Vec<TransferFromState>) -> (keys: Vec<Key>)
    ensures
        keys@ == spec_transfer_from_multi_keys(transfers@),
{
    let mut keys: Vec<Key> = Vec::new();
    let mut i: usize = 0;
    assert(transfers@.skip(0) == transfers@);
    while i < transfers.len()
        invariant
            i <= transfers.len(),
            spec_transfer_from_multi_keys(transfers@) == keys@ + spec_transfer_from_multi_keys(
                transfers@.skip(i as int),
            ),
        decreases transfers.len() - i,
    {
        let s = &transfers[i];
        let ghost before = keys@;
        keys.push(Key::Allowance(s.token_id, s.from, s.spender));
        push_move_keys(&mut keys, &s.from, &s.to, s.token_id);
        proof {
            let rest = transfers@.skip(i as int);
            assert(rest[0] == transfers@[i as int]);
            assert(rest.drop_first() == transfers@.skip(i + 1));
            assert(keys@ =~= before + spec_transfer_from_keys(
                s.spender,
                s.from,
                s.to,
                s.token_id,
            ));
            assert(keys@ + spec_transfer_from_multi_keys(transfers@.skip(i + 1)) =~= before
                + spec_transfer_from_multi_keys(rest));
        }
        i += 1;
    }
    assert(keys@ + Seq::<Key>::empty() =~= keys@);
    keys
}

/// The records of an initialization for `admin`.
fn init_keys(admin: &Address) -> (keys: Vec<Key>)
    ensures
        keys@ == spec_init_keys(*admin),
{
    let mut keys: Vec<Key> = Vec::new();
    keys.push(Key::Admin);
    keys.push(Key::NextId);
    keys.push(Key::TokenIds(*admin));
    let mut id: u128 = 1;
    while id <= 5
        invariant
            1 <= id <= 6,
            keys@.len() == 4 * (id - 1) + 3,
            forall|j: int| 0 <= j < keys@.len() ==> keys@[j] == spec_init_keys(*admin)[j],
        decreases 6 - id,
    {
        keys.push(Key::Name(id));
        keys.push(Key::Symbol(id));
        keys.push(Key::TotalSupply(id));
        keys.push(Key::Balance(id, *admin));
        id += 1;
    }
    assert(keys@ =~= spec_init_keys(*admin));
    keys
}

/// The footprint of `call`: the records it reads or writes.
pub fn footprint(call: &Call) -> (keys: Vec<Key>)
    ensures
        keys@ == spec_footprint(*call),
{
    let mut keys: Vec<Key> = Vec::new();
    match call {
        Call::Init { admin } => {
            keys = init_keys(admin);
        },
        Call::SetPendingAdmin { .. } | Call::AcceptAdmin => {
            keys.push(Key::Admin);
            keys.push(Key::PendingAdmin);
        },
        Call::UpdateTokenUrl { token_id, .. } => {
            keys.push(Key::Admin);
            keys.push(Key::NextId);
            keys.push(Key::TokenUrl(*token_id));
        },
        Call::Name { token_id } => {
            keys.push(Key::Name(*token_id));
        },
        Call::Symbol { token_id } => {
            keys.push(Key::Symbol(*token_id));
        },
        Call::BalanceOf { user, token_id } => {
            keys.push(Key::Balance(*token_id, *user));
        },
        Call::Allowance { owner, spender, token_id } => {
            keys.push(Key::Allowance(*token_id, *owner, *spender));
        },
        Call::TotalSupply { token_id } => {
            keys.push(Key::TotalSupply(*token_id));
        },
        Call::Transfer { from, to, token_id, .. } => {
            keys.push(Key::NextId);
            push_move_keys(&mut keys, from, to, *token_id);
        },
        Call::TransferMulti { states } => {
            keys = transfer_multi_keys(states);
        },
        Call::Approve { owner, spender, token_id, .. } => {
            keys.push(Key::NextId);
            keys.push(Key::Allowance(*token_id, *owner, *spender));
        },
        Call::TransferFrom { spender, from, to, token_id, .. } => {
            keys.push(Key::Allowance(*token_id, *from, *spender));
            push_move_keys(&mut keys, from, to, *token_id);
        },
        Call::ApproveMulti { approvals } => {
            keys = approve_multi_keys(approvals);
        },
        Call::TransferFromMulti { transfers } => {
            keys = transfer_from_multi_keys(transfers);
        },
        Call::QueryTokenIdsByOwnerAddr { user } => {
            keys.push(Key::TokenIds(*user));
        },
        Call::QueryTokenById { token_id } => {
            keys.push(Key::Name(*token_id));
            keys.push(Key::TokenUrl(*token_id));
        },
    }
    assert(keys@ =~= spec_footprint(*call));
    keys
}

/// The addresses whose authorization `call` asks for, given what `store`
/// holds.
pub fn asked(store: &Store, call: &Call) -> (addrs: Vec<Address>)
    ensures
        addrs@ == spec_asked(store@, *call),
{
    let mut addrs: Vec<Address> = Vec::new();
    match call {
        Call::Init { admin } => {
            addrs.push(*admin);
        },
        Call::SetPendingAdmin { .. } | Call::UpdateTokenUrl { .. } => {
            addrs.push(get_admin(store));
        },
        Call::AcceptAdmin => {
            addrs.push(get_pending_admin(store));
        },
        Call::Transfer { from, .. } => {
            addrs.push(*from);
        },
        Call::TransferMulti { states } => {
            let mut i: usize = 0;
            while i < states.len()
                invariant
                    i <= states.len(),
                    addrs@.len() == i,
                    forall|j: int| 0 <= j < i ==> addrs@[j] == states@[j].from,
                decreases states.len() - i,
            {
                addrs.push(states[i].from);
                i += 1;
            }
        },
        Call::Approve { owner, .. } => {
            addrs.push(*owner);
        },
        Call::TransferFrom { spender, .. } => {
            addrs.push(*spender);
        },
        Call::ApproveMulti { approvals } => {
            let mut i: usize = 0;
            while i < approvals.len()
                invariant
                    i <= approvals.len(),
                    addrs@.len() == i,
                    forall|j: int| 0 <= j < i ==> addrs@[j] == approvals@[j].owner,
                decreases approvals.len() - i,
            {
                addrs.push(approvals[i].owner);
                i += 1;
            }
        },
        Call::TransferFromMulti { transfers } => {
            let mut i: usize = 0;
            while i < transfers.len()
                invariant
                    i <= transfers.len(),
                    addrs@.len() == i,
                    forall|j: int| 0 <= j < i ==> addrs@[j] == transfers@[j].spender,
                decreases transfers.len() - i,
            {
                addrs.push(transfers[i].spender);
                i += 1;
            }
        },
        _ => {},
    }
    assert(addrs@ =~= spec_asked(store@, *call));
    addrs
}

} // verus!
