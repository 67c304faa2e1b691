//! No token is held beyond its supply.

use crate::address::Address;
use crate::admin::{spec_accept_admin, spec_create_multi_type_token, spec_create_token, spec_init};
use crate::batch::{
    spec_approve_all, spec_transfer_all, spec_transfer_from_all, ApproveState, State,
    TransferFromState,
};
use crate::host::HostView;
use crate::key::{lemma_keys_never_collide, Key};
use crate::laws::{lemma_credit_balance, lemma_debit_balance, lemma_move_conserves};
use crate::oep8_token::{
    spec_approve, spec_debit, spec_move, spec_transfer, spec_transfer_from,
    transfer_from_outcome, transfer_outcome, LedgerError,
};
use crate::storage::{
    spec_allowance, spec_balance_of, spec_get_admin, spec_get_pending_admin, spec_get_total_supply, with_amount,
    with_record, Records,
};
use crate::store::ValueView;
use vstd::prelude::*;

verus! {

/// What the owners in `owners` hold of `token_id`, taken together.
pub open spec fn held_by(m: Records, owners: Seq<Address>, token_id: u128) -> int
    decreases owners.len(),
{
    if owners.len() == 0 {
        0
    } else {
        held_by(m, owners.drop_last(), token_id) + spec_balance_of(m, owners.last(), token_id)
    }
}

/// No group of owners holds more of a token than its supply.
pub open spec fn supply_respected(m: Records) -> bool {
    forall|owners: Seq<Address>, t: u128|
        owners.no_duplicates() ==> #[trigger] held_by(m, owners, t) <= spec_get_total_supply(m, t)
}

/// Nobody holds anything.
pub open spec fn nothing_held(m: Records) -> bool {
    forall|a: Address, t: u128| #[trigger] spec_balance_of(m, a, t) == 0
}

/// Where nobody holds anything, every token is within its supply.
pub proof fn lemma_nothing_held_respects_supply(m: Records)
    requires
        nothing_held(m),
    ensures
        supply_respected(m),
{
    assert forall|owners: Seq<Address>, t: u128| owners.no_duplicates() implies #[trigger] held_by(
        m,
        owners,
        t,
    ) <= spec_get_total_supply(m, t) by {
        lemma_held_nothing(m, owners, t);
    }
}

/// Where nobody holds anything, no group does.
proof fn lemma_held_nothing(m: Records, owners: Seq<Address>, t: u128)
    requires
        nothing_held(m),
    ensures
        held_by(m, owners, t) == 0,
    decreases owners.len(),
{
    if owners.len() > 0 {
        lemma_held_nothing(m, owners.drop_last(), t);
        assert(spec_balance_of(m, owners.last(), t) == 0);
    }
}

/// What a group holds is not negative.
pub proof fn lemma_held_is_natural(m: Records, owners: Seq<Address>, t: u128)
    ensures
        held_by(m, owners, t) >= 0,
    decreases owners.len(),
{
    if owners.len() > 0 {
        lemma_held_is_natural(m, owners.drop_last(), t);
    }
}

/// Where the balances of a token are the same in two ledgers, groups hold
/// the same of it in both.
pub proof fn lemma_held_same(m: Records, after: Records, owners: Seq<Address>, t: u128)
    requires
        forall|a: Address| #[trigger] spec_balance_of(after, a, t) == spec_balance_of(m, a, t),
    ensures
        held_by(after, owners, t) == held_by(m, owners, t),
    decreases owners.len(),
{
    if owners.len() > 0 {
        lemma_held_same(m, after, owners.drop_last(), t);
    }
}

/// Where one owner's balance of a token differs between two ledgers and all
/// others are the same, a group holds as much more or less as that owner
/// does, if the owner is in it.
pub proof fn lemma_held_one_changed(
    m: Records,
    after: Records,
    owners: Seq<Address>,
    t: u128,
    who: Address,
)
    requires
        owners.no_duplicates(),
        forall|a: Address|
            a != who ==> #[trigger] spec_balance_of(after, a, t) == spec_balance_of(m, a, t),
    ensures
        held_by(after, owners, t) == held_by(m, owners, t) + if owners.contains(who) {
            spec_balance_of(after, who, t) - spec_balance_of(m, who, t)
        } else {
            0
        },
    decreases owners.len(),
{
    if owners.len() > 0 {
        let rest = owners.drop_last();
        let last = owners.last();
        assert(rest.no_duplicates());
        lemma_held_one_changed(m, after, rest, t, who);
        if last == who {
            assert(!rest.contains(who)) by {
                if rest.contains(who) {
                    let i = choose|i: int| 0 <= i < rest.len() && rest[i] == who;
                    assert(owners[i] == owners[owners.len() - 1]);
                }
            }
            assert(owners.contains(who));
        } else {
            assert(owners.contains(who) == rest.contains(who)) by {
                if owners.contains(who) {
                    let i = choose|i: int| 0 <= i < owners.len() && owners[i] == who;
                    assert(rest[i] == who);
                }
                if rest.contains(who) {
                    let i = choose|i: int| 0 <= i < rest.len() && rest[i] == who;
                    assert(owners[i] == who);
                }
            }
        }
    }
}

/// A group with one more owner holds what the group held and what the
/// newcomer holds.
pub proof fn lemma_held_with_one_more(m: Records, owners: Seq<Address>, t: u128, who: Address)
    ensures
        held_by(m, owners.push(who), t) == held_by(m, owners, t) + spec_balance_of(m, who, t),
        owners.no_duplicates() && !owners.contains(who) ==> owners.push(who).no_duplicates(),
{
    assert(owners.push(who).drop_last() == owners);
    if owners.no_duplicates() && !owners.contains(who) {
        let more = owners.push(who);
        assert forall|i: int, j: int| 0 <= i < more.len() && 0 <= j < more.len() && i
            != j implies more[i] != more[j] by {
            if i < owners.len() && j < owners.len() {
            } else if i < owners.len() {
                assert(owners[i] != who);
            } else {
                assert(owners[j] != who);
            }
        }
    }
}

/// What a group holds after a movement of tokens: as much less as was moved
/// if the sender is in it, as much more if the receiver is, and the same of
/// every other token.
pub proof fn lemma_held_after_move(
    m: Records,
    from: Address,
    to: Address,
    token_id: u128,
    amount: u128,
    owners: Seq<Address>,
    t: u128,
)
    requires
        owners.no_duplicates(),
        amount <= spec_balance_of(m, from, token_id),
        from != to ==> spec_balance_of(m, to, token_id) + amount <= u128::MAX,
    ensures
        held_by(spec_move(m, from, to, token_id, amount), owners, t) == held_by(m, owners, t) + (
        if t == token_id && from != to && owners.contains(to) {
            amount as int
        } else {
            0
        }) - (if t == token_id && from != to && owners.contains(from) {
            amount as int
        } else {
            0
        }),
{
    let after = spec_move(m, from, to, token_id, amount);
    lemma_move_conserves(m, from, to, token_id, amount);
    if t != token_id || from == to {
        assert forall|a: Address| #[trigger]
            spec_balance_of(after, a, t) == spec_balance_of(m, a, t) by {}
        lemma_held_same(m, after, owners, t);
    } else {
        let mid = spec_debit(m, from, token_id, amount);
        assert forall|a: Address| a != from implies #[trigger] spec_balance_of(mid, a, t)
            == spec_balance_of(m, a, t) by {
            lemma_debit_balance(m, from, token_id, amount, a, t);
        }
        lemma_debit_balance(m, from, token_id, amount, from, t);
        lemma_debit_balance(m, from, token_id, amount, to, t);
        lemma_held_one_changed(m, mid, owners, t, from);
        assert forall|a: Address| a != to implies #[trigger] spec_balance_of(after, a, t)
            == spec_balance_of(mid, a, t) by {
            lemma_credit_balance(mid, to, token_id, amount, a, t);
        }
        lemma_credit_balance(mid, to, token_id, amount, to, t);
        lemma_held_one_changed(mid, after, owners, t, to);
    }
}

/// A movement of tokens keeps every token within its supply.
pub proof fn lemma_move_keeps_supply(
    m: Records,
    from: Address,
    to: Address,
    token_id: u128,
    amount: u128,
)
    requires
        supply_respected(m),
        amount <= spec_balance_of(m, from, token_id),
        from != to ==> spec_balance_of(m, to, token_id) + amount <= u128::MAX,
    ensures
        supply_respected(spec_move(m, from, to, token_id, amount)),
{
    lemma_keys_never_collide();
    let after = spec_move(m, from, to, token_id, amount);
    assert forall|owners: Seq<Address>, t: u128| owners.no_duplicates() implies #[trigger] held_by(
        after,
        owners,
        t,
    ) <= spec_get_total_supply(after, t) by {
        lemma_held_after_move(m, from, to, token_id, amount, owners, t);
        assert(spec_get_total_supply(after, t) == spec_get_total_supply(m, t));
        assert(held_by(m, owners, t) <= spec_get_total_supply(m, t));
        if t == token_id && from != to && owners.contains(to) && !owners.contains(from) {
            lemma_held_with_one_more(m, owners, t, from);
            assert(held_by(m, owners.push(from), t) <= spec_get_total_supply(m, t));
        }
    }
}

/// Whether every token is within its supply depends on the balances and
/// the supplies alone.
pub proof fn lemma_supply_frame(m: Records, after: Records)
    requires
        supply_respected(m),
        forall|a: Address, t: u128| #[trigger]
            spec_balance_of(after, a, t) == spec_balance_of(m, a, t),
        forall|t: u128| #[trigger] spec_get_total_supply(after, t) == spec_get_total_supply(m, t),
    ensures
        supply_respected(after),
{
    assert forall|owners: Seq<Address>, t: u128| owners.no_duplicates() implies #[trigger] held_by(
        after,
        owners,
        t,
    ) <= spec_get_total_supply(after, t) by {
        lemma_held_same(m, after, owners, t);
        assert(held_by(m, owners, t) <= spec_get_total_supply(m, t));
    }
}

/// Writing a record that is neither a balance nor a supply keeps every
/// token within its supply.
pub proof fn lemma_with_record_keeps_supply(m: Records, k: Key, value: ValueView)
    requires
        supply_respected(m),
        k !is Balance,
        k !is TotalSupply,
    ensures
        supply_respected(with_record(m, k, value)),
{
    lemma_keys_never_collide();
    lemma_supply_frame(m, with_record(m, k, value));
}

/// Writing an amount that is neither a balance nor a supply keeps every
/// token within its supply.
pub proof fn lemma_with_amount_keeps_supply(m: Records, k: Key, amt: u128)
    requires
        supply_respected(m),
        k !is Balance,
        k !is TotalSupply,
    ensures
        supply_respected(with_amount(m, k, amt)),
{
    lemma_keys_never_collide();
    lemma_supply_frame(m, with_amount(m, k, amt));
}

/// A direct transfer that takes effect keeps every token within its supply.
pub proof fn lemma_transfer_keeps_supply(
    h: HostView,
    from: Address,
    to: Address,
    token_id: u128,
    amount: u128,
)
    requires
        supply_respected(h.records),
        transfer_outcome(h, from, to, token_id, amount) == Ok::<bool, LedgerError>(true),
    ensures
        supply_respected(spec_transfer(h, from, to, token_id, amount).records),
{
    lemma_move_keeps_supply(h.records, from, to, token_id, amount);
}

/// A transfer that takes effect leaves to every group that has both parties,
/// or neither, what it held: nothing is created and nothing is lost.
pub proof fn lemma_transfer_conserves_total(
    h: HostView,
    from: Address,
    to: Address,
    token_id: u128,
    amount: u128,
    owners: Seq<Address>,
    t: u128,
)
    requires
        transfer_outcome(h, from, to, token_id, amount) == Ok::<bool, LedgerError>(true),
        owners.no_duplicates(),
        owners.contains(from) == owners.contains(to),
    ensures
        held_by(spec_transfer(h, from, to, token_id, amount).records, owners, t) == held_by(
            h.records,
            owners,
            t,
        ),
{
    lemma_held_after_move(h.records, from, to, token_id, amount, owners, t);
}

/// A delegated transfer that takes effect keeps every token within its
/// supply.
pub proof fn lemma_transfer_from_keeps_supply(
    h: HostView,
    spender: Address,
    from: Address,
    to: Address,
    token_id: u128,
    amount: u128,
)
    requires
        supply_respected(h.records),
        transfer_from_outcome(h, spender, from, to, token_id, amount) is Ok,
    ensures
        supply_respected(spec_transfer_from(h, spender, from, to, token_id, amount).records),
{
    lemma_move_keeps_supply(h.records, from, to, token_id, amount);
    lemma_with_amount_keeps_supply(
        spec_move(h.records, from, to, token_id, amount),
        Key::Allowance(token_id, from, spender),
        (spec_allowance(h.records, from, spender, token_id) - amount) as u128,
    );
}

/// An approval keeps every token within its supply.
pub proof fn lemma_approve_keeps_supply(
    h: HostView,
    owner: Address,
    spender: Address,
    token_id: u128,
    amount: u128,
)
    requires
        supply_respected(h.records),
    ensures
        supply_respected(spec_approve(h, owner, spender, token_id, amount).records),
{
    lemma_with_amount_keeps_supply(h.records, Key::Allowance(token_id, owner, spender), amount);
}

/// The handover of the administrator's role keeps every token within its
/// supply.
pub proof fn lemma_accept_admin_keeps_supply(h: HostView)
    requires
        supply_respected(h.records),
    ensures
        supply_respected(spec_accept_admin(h).records),
{
    let pending = spec_get_pending_admin(h.records);
    lemma_with_record_keeps_supply(h.records, Key::Admin, ValueView::Addr(pending));
    lemma_with_record_keeps_supply(
        with_record(h.records, Key::Admin, ValueView::Addr(pending)),
        Key::PendingAdmin,
        ValueView::Addr(Address::spec_zero()),
    );
}

/// A batch of transfers that takes effect keeps every token within its
/// supply.
pub proof fn lemma_transfer_multi_keeps_supply(h: HostView, states: Seq<State>)
    requires
        supply_respected(h.records),
        spec_transfer_all(h, states) is Ok,
    ensures
        supply_respected(spec_transfer_all(h, states).unwrap().records),
    decreases states.len(),
{
    if states.len() > 0 {
        let s = states[0];
        lemma_transfer_keeps_supply(h, s.from, s.to, s.token_id, s.amount);
        lemma_transfer_multi_keeps_supply(
            spec_transfer(h, s.from, s.to, s.token_id, s.amount),
            states.drop_first(),
        );
    }
}

/// A batch of approvals that takes effect keeps every token within its
/// supply.
pub proof fn lemma_approve_multi_keeps_supply(h: HostView, states: Seq<ApproveState>)
    requires
        supply_respected(h.records),
        spec_approve_all(h, states) is Ok,
    ensures
        supply_respected(spec_approve_all(h, states).unwrap().records),
    decreases states.len(),
{
    if states.len() > 0 {
        let s = states[0];
        lemma_approve_keeps_supply(h, s.owner, s.spender, s.token_id, s.amount);
        lemma_approve_multi_keeps_supply(
            spec_approve(h, s.owner, s.spender, s.token_id, s.amount),
            states.drop_first(),
        );
    }
}

/// A batch of delegated transfers that takes effect keeps every token
/// within its supply.
pub proof fn lemma_transfer_from_multi_keeps_supply(h: HostView, states: Seq<TransferFromState>)
    requires
        supply_respected(h.records),
        spec_transfer_from_all(h, states) is Ok,
    ensures
        supply_respected(spec_transfer_from_all(h, states).unwrap().records),
    decreases states.len(),
{
    if states.len() > 0 {
        let s = states[0];
        lemma_transfer_from_keeps_supply(h, s.spender, s.from, s.to, s.token_id, s.amount);
        lemma_transfer_from_multi_keeps_supply(
            spec_transfer_from(h, s.spender, s.from, s.to, s.token_id, s.amount),
            states.drop_first(),
        );
    }
}

// ----- the catalogue ----------------------------------------------------------------

/// Whether nobody but `admin` holds anything, and `admin` holds each token
/// in full or not at all.
pub open spec fn held_in_full_by(m: Records, admin: Address) -> bool {
    &&& forall|a: Address, t: u128| a != admin ==> #[trigger] spec_balance_of(m, a, t) == 0
    &&& forall|t: u128| #[trigger]
        spec_balance_of(m, admin, t) == 0 || spec_balance_of(m, admin, t) == spec_get_total_supply(
            m,
            t,
        )
}

/// Where one owner holds each token in full or not at all, and nobody else
/// holds anything, every token is within its supply.
pub proof fn lemma_held_in_full_respects_supply(m: Records, admin: Address)
    requires
        held_in_full_by(m, admin),
    ensures
        supply_respected(m),
{
    assert forall|owners: Seq<Address>, t: u128| owners.no_duplicates() implies #[trigger] held_by(
        m,
        owners,
        t,
    ) <= spec_get_total_supply(m, t) by {
        lemma_held_only_one(m, owners, t, admin);
    }
}

/// Where nobody but `who` holds a token, a group holds what `who` holds, if
/// `who` is in it, and nothing otherwise.
proof fn lemma_held_only_one(m: Records, owners: Seq<Address>, t: u128, who: Address)
    requires
        owners.no_duplicates(),
        forall|a: Address| a != who ==> #[trigger] spec_balance_of(m, a, t) == 0,
    ensures
        held_by(m, owners, t) == if owners.contains(who) {
            spec_balance_of(m, who, t) as int
        } else {
            0
        },
    decreases owners.len(),
{
    if owners.len() > 0 {
        let rest = owners.drop_last();
        let last = owners.last();
        assert(rest.no_duplicates());
        lemma_held_only_one(m, rest, t, who);
        if last == who {
            assert(!rest.contains(who)) by {
                if rest.contains(who) {
                    let i = choose|i: int| 0 <= i < rest.len() && rest[i] == who;
                    assert(owners[i] == owners[owners.len() - 1]);
                }
            }
            assert(owners[owners.len() - 1] == who);
        } else {
            assert(owners.contains(who) == rest.contains(who)) by {
                if owners.contains(who) {
                    let i = choose|i: int| 0 <= i < owners.len() && owners[i] == who;
                    assert(rest[i] == who);
                }
                if rest.contains(who) {
                    let i = choose|i: int| 0 <= i < rest.len() && rest[i] == who;
                    assert(owners[i] == who);
                }
            }
        }
    }
}

/// The creation of a token type for `admin`, where nobody else holds
/// anything: `admin` holds the new token in full.
proof fn lemma_create_token_in_full(
    h: HostView,
    admin: Address,
    id: u128,
    name: Seq<char>,
    symbol: Seq<char>,
    supply: u128,
)
    requires
        held_in_full_by(h.records, admin),
    ensures
        held_in_full_by(spec_create_token(h, admin, id, name, symbol, supply).records, admin),
        spec_balance_of(spec_create_token(h, admin, id, name, symbol, supply).records, admin, id)
            == supply,
        spec_get_total_supply(spec_create_token(h, admin, id, name, symbol, supply).records, id)
            == supply,
        forall|t: u128|
            t != id ==> #[trigger] spec_balance_of(
                spec_create_token(h, admin, id, name, symbol, supply).records,
                admin,
                t,
            ) == spec_balance_of(h.records, admin, t) && spec_get_total_supply(
                spec_create_token(h, admin, id, name, symbol, supply).records,
                t,
            ) == spec_get_total_supply(h.records, t),
{
    lemma_keys_never_collide();
    let m = h.records;
    let c = spec_create_token(h, admin, id, name, symbol, supply).records;
    assert forall|a: Address, t: u128| a != admin implies #[trigger] spec_balance_of(c, a, t)
        == 0 by {
        assert(spec_balance_of(m, a, t) == 0);
    }
    assert forall|t: u128| #[trigger]
        spec_balance_of(c, admin, t) == 0 || spec_balance_of(c, admin, t) == spec_get_total_supply(
            c,
            t,
        ) by {
        assert(spec_balance_of(m, admin, t) == 0 || spec_balance_of(m, admin, t)
            == spec_get_total_supply(m, t));
    }
}

/// The creation of the catalogue in a ledger where nobody holds anything:
/// every token is within its supply, and the administrator holds the whole
/// supply of each of the five token types.
pub proof fn lemma_catalogue_supply(h: HostView)
    requires
        nothing_held(h.records),
    ensures
        supply_respected(spec_create_multi_type_token(h).records),
        forall|id: u128|
            1 <= id <= 5 ==> #[trigger] spec_balance_of(
                spec_create_multi_type_token(h).records,
                spec_get_admin(h.records),
                id,
            ) == spec_get_total_supply(spec_create_multi_type_token(h).records, id),
        spec_get_total_supply(spec_create_multi_type_token(h).records, 1) == 100_000,
        spec_get_total_supply(spec_create_multi_type_token(h).records, 2) == 200_000,
        spec_get_total_supply(spec_create_multi_type_token(h).records, 3) == 300_000,
        spec_get_total_supply(spec_create_multi_type_token(h).records, 4) == 400_000,
        spec_get_total_supply(spec_create_multi_type_token(h).records, 5) == 500_000,
{
    lemma_keys_never_collide();
    let admin = spec_get_admin(h.records);
    assert(held_in_full_by(h.records, admin)) by {
        assert forall|a: Address, t: u128| a != admin implies #[trigger] spec_balance_of(
            h.records,
            a,
            t,
        ) == 0 by {}
        assert forall|t: u128| #[trigger]
            spec_balance_of(h.records, admin, t) == 0 || spec_balance_of(h.records, admin, t)
                == spec_get_total_supply(h.records, t) by {}
    }
    let h1 = spec_create_token(h, admin, 1, "TokenNameFirst"@, "TNF"@, 100_000);
    let h2 = spec_create_token(h1, admin, 2, "TokenNameSecond"@, "TNS"@, 200_000);
    let h3 = spec_create_token(h2, admin, 3, "TokenNameThird"@, "TNH"@, 300_000);
    let h4 = spec_create_token(h3, admin, 4, "TokenNameFourth"@, "TNO"@, 400_000);
    let h5 = spec_create_token(h4, admin, 5, "TokenNameFifth"@, "TNI"@, 500_000);
    lemma_create_token_in_full(h, admin, 1, "TokenNameFirst"@, "TNF"@, 100_000);
    lemma_create_token_in_full(h1, admin, 2, "TokenNameSecond"@, "TNS"@, 200_000);
    lemma_create_token_in_full(h2, admin, 3, "TokenNameThird"@, "TNH"@, 300_000);
    lemma_create_token_in_full(h3, admin, 4, "TokenNameFourth"@, "TNO"@, 400_000);
    lemma_create_token_in_full(h4, admin, 5, "TokenNameFifth"@, "TNI"@, 500_000);
    let after = spec_create_multi_type_token(h).records;
    assert(after == with_record(h5.records, Key::NextId, ValueView::Num(6)));
    assert forall|a: Address, t: u128| #[trigger]
        spec_balance_of(after, a, t) == spec_balance_of(h5.records, a, t) by {}
    assert forall|t: u128| #[trigger]
        spec_get_total_supply(after, t) == spec_get_total_supply(h5.records, t) by {}
    lemma_held_in_full_respects_supply(h5.records, admin);
    lemma_supply_frame(h5.records, after);
    assert forall|id: u128| 1 <= id <= 5 implies #[trigger] spec_balance_of(after, admin, id)
        == spec_get_total_supply(after, id) by {
        assert(spec_balance_of(after, admin, id) == spec_balance_of(h5.records, admin, id));
        assert(spec_get_total_supply(after, id) == spec_get_total_supply(h5.records, id));
        assert(spec_balance_of(h4.records, admin, id) == spec_balance_of(h5.records, admin, id)
            || id == 5);
        assert(spec_balance_of(h3.records, admin, id) == spec_balance_of(h4.records, admin, id)
            || id == 4);
        assert(spec_balance_of(h2.records, admin, id) == spec_balance_of(h3.records, admin, id)
            || id == 3);
        assert(spec_balance_of(h1.records, admin, id) == spec_balance_of(h2.records, admin, id)
            || id == 2);
        assert(spec_get_total_supply(h4.records, id) == spec_get_total_supply(h5.records, id)
            || id == 5);
        assert(spec_get_total_supply(h3.records, id) == spec_get_total_supply(h4.records, id)
            || id == 4);
        assert(spec_get_total_supply(h2.records, id) == spec_get_total_supply(h3.records, id)
            || id == 3);
        assert(spec_get_total_supply(h1.records, id) == spec_get_total_supply(h2.records, id)
            || id == 2);
    }
}

/// An initialization of a ledger where nobody holds anything: every token
/// is within its supply, and the new administrator holds the whole supply
/// of each of the five token types.
pub proof fn lemma_init_supply(h: HostView, admin: Address)
    requires
        nothing_held(h.records),
    ensures
        supply_respected(spec_init(h, admin).records),
        forall|id: u128|
            1 <= id <= 5 ==> #[trigger] spec_balance_of(spec_init(h, admin).records, admin, id)
                == spec_get_total_supply(spec_init(h, admin).records, id),
{
    lemma_keys_never_collide();
    let g = h.with_records(with_record(h.records, Key::Admin, ValueView::Addr(admin)));
    assert forall|a: Address, t: u128| #[trigger] spec_balance_of(g.records, a, t) == 0 by {
        assert(spec_balance_of(h.records, a, t) == 0);
    }
    assert(spec_get_admin(g.records) == admin);
    lemma_catalogue_supply(g);
}

} // verus!
