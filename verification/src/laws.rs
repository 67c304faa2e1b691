//! What holds of the ledger whatever is done with it.

use crate::address::Address;
use crate::admin::{
    init_outcome, lemma_catalogue_keeps_admin, spec_accept_admin, spec_create_multi_type_token,
    spec_create_token, spec_init,
};
use crate::batch::{
    spec_approve_all, spec_transfer_all, spec_transfer_from_all, ApproveState, State,
    TransferFromState,
};
use crate::host::HostView;
use crate::key::{lemma_keys_never_collide, Key};
use crate::oep8_token::{
    spec_approve, spec_credit, spec_debit, spec_move, spec_transfer, spec_transfer_from,
    spec_valid_token_id, transfer_from_outcome, transfer_outcome, LedgerError,
};
use crate::storage::{
    spec_allowance, spec_balance_of, spec_get_admin, spec_get_next_id, spec_get_pending_admin,
    spec_get_total_supply, spec_put_balance, spec_token_ids_by_owner, with_amount, with_record,
    Records,
};
use crate::store::ValueView;
use vstd::prelude::*;

verus! {

/// The per-owner lists agree with the balances: a token id is on an owner's
/// list exactly when the owner holds some of that token, and no list names a
/// token id twice.
pub open spec fn index_consistent(m: Records) -> bool {
    &&& forall|a: Address, t: u128|
        spec_token_ids_by_owner(m, a).contains(t) <==> #[trigger] spec_balance_of(m, a, t) > 0
    &&& forall|a: Address| (#[trigger] spec_token_ids_by_owner(m, a)).no_duplicates()
}

/// A list without repetitions, after the removal of `val`: `val` is gone,
/// everything else stays, and nothing is repeated.
pub proof fn lemma_remove_value(ids: Seq<u128>, val: u128)
    requires
        ids.no_duplicates(),
    ensures
        !ids.remove_value(val).contains(val),
        forall|t: u128| t != val ==> ids.remove_value(val).contains(t) == ids.contains(t),
        ids.remove_value(val).no_duplicates(),
        ids.contains(val) ==> ids.remove_value(val).len() == ids.len() - 1,
{
    ids.index_of_first_ensures(val);
    match ids.index_of_first(val) {
        Some(i) => {
            let out = ids.remove(i);
            ids.remove_ensures(i);
            assert forall|j: int| 0 <= j < out.len() implies out[j] == ids[if j < i {
                j
            } else {
                j + 1
            }] by {}
            assert(!out.contains(val)) by {
                if out.contains(val) {
                    let j = choose|j: int| 0 <= j < out.len() && out[j] == val;
                    let j0 = if j < i { j } else { j + 1 };
                    assert(ids[j0] == val && j0 != i);
                }
            }
            assert forall|t: u128| t != val implies out.contains(t) == ids.contains(t) by {
                if out.contains(t) {
                    let j = choose|j: int| 0 <= j < out.len() && out[j] == t;
                    let j0 = if j < i { j } else { j + 1 };
                    assert(ids[j0] == t);
                }
                if ids.contains(t) {
                    let j0 = choose|j: int| 0 <= j < ids.len() && ids[j] == t;
                    let j = if j0 < i { j0 } else { j0 - 1 };
                    assert(out[j] == t);
                }
            }
            assert(out.no_duplicates()) by {
                assert forall|a: int, b: int| 0 <= a < out.len() && 0 <= b < out.len() && a
                    != b implies out[a] != out[b] by {
                    let a0 = if a < i { a } else { a + 1 };
                    let b0 = if b < i { b } else { b + 1 };
                    assert(ids[a0] != ids[b0]);
                }
            }
        },
        None => {},
    }
}

/// A list without repetitions, after `val` is appended where it was absent.
pub proof fn lemma_push_absent(ids: Seq<u128>, val: u128)
    requires
        ids.no_duplicates(),
        !ids.contains(val),
    ensures
        ids.push(val).contains(val),
        forall|t: u128| t != val ==> ids.push(val).contains(t) == ids.contains(t),
        ids.push(val).no_duplicates(),
{
    let out = ids.push(val);
    assert(out[ids.len() as int] == val);
    assert forall|t: u128| t != val implies out.contains(t) == ids.contains(t) by {
        if out.contains(t) {
            let j = choose|j: int| 0 <= j < out.len() && out[j] == t;
            assert(ids[j] == t);
        }
        if ids.contains(t) {
            let j = choose|j: int| 0 <= j < ids.len() && ids[j] == t;
            assert(out[j] == t);
        }
    }
    assert forall|a: int, b: int| 0 <= a < out.len() && 0 <= b < out.len() && a != b implies out[a]
        != out[b] by {
        if a < ids.len() && b < ids.len() {
        } else if a < ids.len() {
            assert(ids[a] != val);
        } else {
            assert(ids[b] != val);
        }
    }
}

// ----- what a movement of tokens reads and writes ---------------------------------

/// The balances after a debit: that of `from` is lowered, all others stay.
pub proof fn lemma_debit_balance(
    m: Records,
    from: Address,
    token_id: u128,
    amount: u128,
    user: Address,
    t: u128,
)
    requires
        amount <= spec_balance_of(m, from, token_id),
    ensures
        spec_balance_of(spec_debit(m, from, token_id, amount), user, t) == if user == from && t
            == token_id {
            (spec_balance_of(m, from, token_id) - amount) as u128
        } else {
            spec_balance_of(m, user, t)
        },
{
    lemma_keys_never_collide();
}

/// The lists after a debit: `from` loses the token id where the whole
/// balance has left, all other lists stay.
pub proof fn lemma_debit_ids(m: Records, from: Address, token_id: u128, amount: u128, user: Address)
    ensures
        spec_token_ids_by_owner(spec_debit(m, from, token_id, amount), user) == if user == from
            && spec_balance_of(m, from, token_id) == amount {
            spec_token_ids_by_owner(m, from).remove_value(token_id)
        } else {
            spec_token_ids_by_owner(m, user)
        },
{
    lemma_keys_never_collide();
    let ids = spec_token_ids_by_owner(m, from);
    ids.index_of_first_ensures(token_id);
    let lowered = spec_put_balance(
        m,
        token_id,
        from,
        (spec_balance_of(m, from, token_id) - amount) as u128,
    );
    assert(spec_token_ids_by_owner(lowered, from) == ids);
    assert(spec_token_ids_by_owner(lowered, user) == spec_token_ids_by_owner(m, user));
}

/// The balances after a credit: that of `to` is raised, all others stay.
pub proof fn lemma_credit_balance(
    m: Records,
    to: Address,
    token_id: u128,
    amount: u128,
    user: Address,
    t: u128,
)
    requires
        spec_balance_of(m, to, token_id) + amount <= u128::MAX,
    ensures
        spec_balance_of(spec_credit(m, to, token_id, amount), user, t) == if user == to && t
            == token_id {
            (spec_balance_of(m, to, token_id) + amount) as u128
        } else {
            spec_balance_of(m, user, t)
        },
{
    lemma_keys_never_collide();
}

/// The lists after a credit: `to` gains the token id where it was not
/// listed, all other lists stay.
pub proof fn lemma_credit_ids(m: Records, to: Address, token_id: u128, amount: u128, user: Address)
    ensures
        spec_token_ids_by_owner(spec_credit(m, to, token_id, amount), user) == if user == to
            && !spec_token_ids_by_owner(m, to).contains(token_id) {
            spec_token_ids_by_owner(m, to).push(token_id)
        } else {
            spec_token_ids_by_owner(m, user)
        },
{
    lemma_keys_never_collide();
    let raised = spec_put_balance(
        m,
        token_id,
        to,
        (spec_balance_of(m, to, token_id) + amount) as u128,
    );
    assert(spec_token_ids_by_owner(raised, to) == spec_token_ids_by_owner(m, to));
    assert(spec_token_ids_by_owner(raised, user) == spec_token_ids_by_owner(m, user));
}

// ----- the lists follow the balances --------------------------------------------

/// Before anything was stored, the lists agree with the balances.
pub proof fn lemma_empty_ledger_consistent()
    ensures
        index_consistent(Map::empty()),
{
    let m: Records = Map::empty();
    assert forall|a: Address, t: u128|
        spec_token_ids_by_owner(m, a).contains(t) <==> #[trigger] spec_balance_of(m, a, t)
            > 0 by {
        assert(spec_token_ids_by_owner(m, a) =~= Seq::<u128>::empty());
    }
}

/// A movement of tokens keeps the lists in agreement with the balances,
/// unless it moves nothing to an owner who holds nothing: the token id is
/// then listed for that owner all the same.
pub proof fn lemma_move_keeps_index(
    m: Records,
    from: Address,
    to: Address,
    token_id: u128,
    amount: u128,
)
    requires
        index_consistent(m),
        amount <= spec_balance_of(m, from, token_id),
        from != to ==> spec_balance_of(m, to, token_id) + amount <= u128::MAX,
        amount > 0 || spec_balance_of(m, to, token_id) > 0,
    ensures
        index_consistent(spec_move(m, from, to, token_id, amount)),
{
    let d = spec_debit(m, from, token_id, amount);
    let c = spec_move(m, from, to, token_id, amount);
    lemma_debit_balance(m, from, token_id, amount, to, token_id);
    assert forall|a: Address| (#[trigger] spec_token_ids_by_owner(c, a)).no_duplicates() by {
        lemma_debit_ids(m, from, token_id, amount, a);
        lemma_debit_ids(m, from, token_id, amount, to);
        lemma_credit_ids(d, to, token_id, amount, a);
        assert(spec_token_ids_by_owner(m, a).no_duplicates());
        assert(spec_token_ids_by_owner(m, from).no_duplicates());
        assert(spec_token_ids_by_owner(m, to).no_duplicates());
        lemma_remove_value(spec_token_ids_by_owner(m, from), token_id);
        if !spec_token_ids_by_owner(d, to).contains(token_id) {
            lemma_push_absent(spec_token_ids_by_owner(d, to), token_id);
        }
    }
    assert forall|a: Address, t: u128|
        spec_token_ids_by_owner(c, a).contains(t) <==> #[trigger] spec_balance_of(c, a, t)
            > 0 by {
        lemma_debit_balance(m, from, token_id, amount, a, t);
        lemma_credit_balance(d, to, token_id, amount, a, t);
        lemma_debit_ids(m, from, token_id, amount, a);
        lemma_debit_ids(m, from, token_id, amount, to);
        lemma_credit_ids(d, to, token_id, amount, a);
        assert(spec_token_ids_by_owner(m, a).contains(t) <==> spec_balance_of(m, a, t) > 0);
        assert(spec_token_ids_by_owner(m, from).contains(token_id) <==> spec_balance_of(
            m,
            from,
            token_id,
        ) > 0);
        assert(spec_token_ids_by_owner(m, to).contains(token_id) <==> spec_balance_of(
            m,
            to,
            token_id,
        ) > 0);
        assert(spec_token_ids_by_owner(m, from).no_duplicates());
        assert(spec_token_ids_by_owner(m, to).no_duplicates());
        lemma_remove_value(spec_token_ids_by_owner(m, from), token_id);
        if !spec_token_ids_by_owner(d, to).contains(token_id) {
            assert(spec_token_ids_by_owner(d, to).no_duplicates());
            lemma_push_absent(spec_token_ids_by_owner(d, to), token_id);
        }
    }
}

/// A direct transfer that takes effect keeps the lists in agreement with
/// the balances, unless it moves nothing to an owner who holds nothing.
pub proof fn lemma_transfer_keeps_index(
    h: HostView,
    from: Address,
    to: Address,
    token_id: u128,
    amount: u128,
)
    requires
        index_consistent(h.records),
        transfer_outcome(h, from, to, token_id, amount) == Ok::<bool, LedgerError>(true),
        amount > 0 || spec_balance_of(h.records, to, token_id) > 0,
    ensures
        index_consistent(spec_transfer(h, from, to, token_id, amount).records),
{
    lemma_move_keeps_index(h.records, from, to, token_id, amount);
}

/// Whether the lists agree with the balances depends on the balances and
/// the lists alone.
pub proof fn lemma_index_frame(m: Records, after: Records)
    requires
        index_consistent(m),
        forall|a: Address, t: u128| #[trigger]
            spec_balance_of(after, a, t) == spec_balance_of(m, a, t),
        forall|a: Address| #[trigger]
            spec_token_ids_by_owner(after, a) == spec_token_ids_by_owner(m, a),
    ensures
        index_consistent(after),
{
    assert forall|a: Address, t: u128|
        spec_token_ids_by_owner(after, a).contains(t) <==> #[trigger] spec_balance_of(
            after,
            a,
            t,
        ) > 0 by {
        assert(spec_token_ids_by_owner(m, a).contains(t) <==> spec_balance_of(m, a, t) > 0);
    }
}

/// Writing a record that is neither a balance nor a list keeps the lists in
/// agreement with the balances.
pub proof fn lemma_with_record_keeps_index(m: Records, k: Key, value: ValueView)
    requires
        index_consistent(m),
        k !is Balance,
        k !is TokenIds,
    ensures
        index_consistent(with_record(m, k, value)),
{
    lemma_keys_never_collide();
    lemma_index_frame(m, with_record(m, k, value));
}

/// Writing an amount that is not a balance keeps the lists in agreement with
/// the balances.
pub proof fn lemma_with_amount_keeps_index(m: Records, k: Key, amt: u128)
    requires
        index_consistent(m),
        k !is Balance,
        k !is TokenIds,
    ensures
        index_consistent(with_amount(m, k, amt)),
{
    lemma_keys_never_collide();
    lemma_index_frame(m, with_amount(m, k, amt));
}

/// A delegated transfer that takes effect keeps the lists in agreement with
/// the balances.
pub proof fn lemma_transfer_from_keeps_index(
    h: HostView,
    spender: Address,
    from: Address,
    to: Address,
    token_id: u128,
    amount: u128,
)
    requires
        index_consistent(h.records),
        transfer_from_outcome(h, spender, from, to, token_id, amount) is Ok,
    ensures
        index_consistent(spec_transfer_from(h, spender, from, to, token_id, amount).records),
{
    lemma_move_keeps_index(h.records, from, to, token_id, amount);
    lemma_with_amount_keeps_index(
        spec_move(h.records, from, to, token_id, amount),
        Key::Allowance(token_id, from, spender),
        (spec_allowance(h.records, from, spender, token_id) - amount) as u128,
    );
}

/// An approval keeps the lists in agreement with the balances.
pub proof fn lemma_approve_keeps_index(
    h: HostView,
    owner: Address,
    spender: Address,
    token_id: u128,
    amount: u128,
)
    requires
        index_consistent(h.records),
    ensures
        index_consistent(spec_approve(h, owner, spender, token_id, amount).records),
{
    lemma_with_amount_keeps_index(h.records, Key::Allowance(token_id, owner, spender), amount);
}

/// The creation of a token type with a supply keeps the lists in agreement
/// with the balances: the administrator holds the supply and has the token
/// id listed.
pub proof fn lemma_create_token_keeps_index(
    h: HostView,
    admin: Address,
    id: u128,
    name: Seq<char>,
    symbol: Seq<char>,
    supply: u128,
)
    requires
        index_consistent(h.records),
        supply > 0,
    ensures
        index_consistent(spec_create_token(h, admin, id, name, symbol, supply).records),
        spec_balance_of(spec_create_token(h, admin, id, name, symbol, supply).records, admin, id)
            == supply,
        spec_get_admin(spec_create_token(h, admin, id, name, symbol, supply).records)
            == spec_get_admin(h.records),
{
    lemma_keys_never_collide();
    let named = with_record(h.records, Key::Name(id), ValueView::Text(name));
    let labelled = with_record(named, Key::Symbol(id), ValueView::Text(symbol));
    let supplied = with_record(labelled, Key::TotalSupply(id), ValueView::Num(supply));
    lemma_with_record_keeps_index(h.records, Key::Name(id), ValueView::Text(name));
    lemma_with_record_keeps_index(named, Key::Symbol(id), ValueView::Text(symbol));
    lemma_with_record_keeps_index(labelled, Key::TotalSupply(id), ValueView::Num(supply));
    let set = spec_put_balance(supplied, id, admin, supply);
    let c = spec_create_token(h, admin, id, name, symbol, supply).records;
    let before = spec_token_ids_by_owner(supplied, admin);
    assert(before.no_duplicates());
    assert(spec_token_ids_by_owner(set, admin) == before);
    if !before.contains(id) {
        lemma_push_absent(before, id);
    }
    assert forall|a: Address| (#[trigger] spec_token_ids_by_owner(c, a)).no_duplicates() by {
        assert(spec_token_ids_by_owner(supplied, a).no_duplicates());
        assert(spec_token_ids_by_owner(set, a) == spec_token_ids_by_owner(supplied, a));
    }
    assert forall|a: Address, t: u128|
        spec_token_ids_by_owner(c, a).contains(t) <==> #[trigger] spec_balance_of(c, a, t)
            > 0 by {
        assert(spec_token_ids_by_owner(supplied, a).contains(t) <==> spec_balance_of(
            supplied,
            a,
            t,
        ) > 0);
        assert(spec_token_ids_by_owner(set, a) == spec_token_ids_by_owner(supplied, a));
    }
}

/// The creation of the catalogue keeps the lists in agreement with the
/// balances.
pub proof fn lemma_catalogue_keeps_index(h: HostView)
    requires
        index_consistent(h.records),
    ensures
        index_consistent(spec_create_multi_type_token(h).records),
{
    let admin = spec_get_admin(h.records);
    let h1 = spec_create_token(h, admin, 1, "TokenNameFirst"@, "TNF"@, 100_000);
    let h2 = spec_create_token(h1, admin, 2, "TokenNameSecond"@, "TNS"@, 200_000);
    let h3 = spec_create_token(h2, admin, 3, "TokenNameThird"@, "TNH"@, 300_000);
    let h4 = spec_create_token(h3, admin, 4, "TokenNameFourth"@, "TNO"@, 400_000);
    let h5 = spec_create_token(h4, admin, 5, "TokenNameFifth"@, "TNI"@, 500_000);
    lemma_create_token_keeps_index(h, admin, 1, "TokenNameFirst"@, "TNF"@, 100_000);
    lemma_create_token_keeps_index(h1, admin, 2, "TokenNameSecond"@, "TNS"@, 200_000);
    lemma_create_token_keeps_index(h2, admin, 3, "TokenNameThird"@, "TNH"@, 300_000);
    lemma_create_token_keeps_index(h3, admin, 4, "TokenNameFourth"@, "TNO"@, 400_000);
    lemma_create_token_keeps_index(h4, admin, 5, "TokenNameFifth"@, "TNI"@, 500_000);
    lemma_with_record_keeps_index(h5.records, Key::NextId, ValueView::Num(6));
}

/// An initialization keeps the lists in agreement with the balances.
pub proof fn lemma_init_keeps_index(h: HostView, admin: Address)
    requires
        index_consistent(h.records),
    ensures
        index_consistent(spec_init(h, admin).records),
{
    lemma_with_record_keeps_index(h.records, Key::Admin, ValueView::Addr(admin));
    lemma_catalogue_keeps_index(
        h.with_records(with_record(h.records, Key::Admin, ValueView::Addr(admin))),
    );
}

/// The handover of the administrator's role keeps the lists in agreement
/// with the balances.
pub proof fn lemma_accept_admin_keeps_index(h: HostView)
    requires
        index_consistent(h.records),
    ensures
        index_consistent(spec_accept_admin(h).records),
{
    let m = h.records;
    let pending = spec_get_pending_admin(m);
    lemma_with_record_keeps_index(m, Key::Admin, ValueView::Addr(pending));
    lemma_with_record_keeps_index(
        with_record(m, Key::Admin, ValueView::Addr(pending)),
        Key::PendingAdmin,
        ValueView::Addr(Address::spec_zero()),
    );
}

/// Whether no transfer of `states`, applied in order from `h`, moves nothing
/// to an owner who at that point holds nothing.
pub open spec fn no_empty_credit(h: HostView, states: Seq<State>) -> bool
    decreases states.len(),
{
    if states.len() == 0 {
        true
    } else {
        let s = states[0];
        &&& s.amount > 0 || spec_balance_of(h.records, s.to, s.token_id) > 0
        &&& transfer_outcome(h, s.from, s.to, s.token_id, s.amount) == Ok::<bool, LedgerError>(
            true,
        ) ==> no_empty_credit(
            spec_transfer(h, s.from, s.to, s.token_id, s.amount),
            states.drop_first(),
        )
    }
}

/// A batch of transfers that takes effect keeps the lists in agreement with
/// the balances, unless one of them moves nothing to an owner who holds
/// nothing.
pub proof fn lemma_transfer_multi_keeps_index(h: HostView, states: Seq<State>)
    requires
        index_consistent(h.records),
        no_empty_credit(h, states),
        spec_transfer_all(h, states) is Ok,
    ensures
        index_consistent(spec_transfer_all(h, states).unwrap().records),
    decreases states.len(),
{
    if states.len() > 0 {
        let s = states[0];
        lemma_transfer_keeps_index(h, s.from, s.to, s.token_id, s.amount);
        lemma_transfer_multi_keeps_index(
            spec_transfer(h, s.from, s.to, s.token_id, s.amount),
            states.drop_first(),
        );
    }
}

/// A batch of approvals that takes effect keeps the lists in agreement with
/// the balances.
pub proof fn lemma_approve_multi_keeps_index(h: HostView, states: Seq<ApproveState>)
    requires
        index_consistent(h.records),
        spec_approve_all(h, states) is Ok,
    ensures
        index_consistent(spec_approve_all(h, states).unwrap().records),
    decreases states.len(),
{
    if states.len() > 0 {
        let s = states[0];
        lemma_approve_keeps_index(h, s.owner, s.spender, s.token_id, s.amount);
        lemma_approve_multi_keeps_index(
            spec_approve(h, s.owner, s.spender, s.token_id, s.amount),
            states.drop_first(),
        );
    }
}

/// A batch of delegated transfers that takes effect keeps the lists in
/// agreement with the balances.
pub proof fn lemma_transfer_from_multi_keeps_index(h: HostView, states: Seq<TransferFromState>)
    requires
        index_consistent(h.records),
        spec_transfer_from_all(h, states) is Ok,
    ensures
        index_consistent(spec_transfer_from_all(h, states).unwrap().records),
    decreases states.len(),
{
    if states.len() > 0 {
        let s = states[0];
        lemma_transfer_from_keeps_index(h, s.spender, s.from, s.to, s.token_id, s.amount);
        lemma_transfer_from_multi_keeps_index(
            spec_transfer_from(h, s.spender, s.from, s.to, s.token_id, s.amount),
            states.drop_first(),
        );
    }
}

// ----- conservation -------------------------------------------------------------

/// A movement of tokens creates and destroys nothing: what leaves `from`
/// reaches `to`, a movement from an owner to the same owner leaves the
/// balance as it was, and no other balance changes.
pub proof fn lemma_move_conserves(
    m: Records,
    from: Address,
    to: Address,
    token_id: u128,
    amount: u128,
)
    requires
        amount <= spec_balance_of(m, from, token_id),
        from != to ==> spec_balance_of(m, to, token_id) + amount <= u128::MAX,
    ensures
        from != to ==> spec_balance_of(spec_move(m, from, to, token_id, amount), from, token_id)
            == spec_balance_of(m, from, token_id) - amount,
        from != to ==> spec_balance_of(spec_move(m, from, to, token_id, amount), to, token_id)
            == spec_balance_of(m, to, token_id) + amount,
        from != to ==> spec_balance_of(spec_move(m, from, to, token_id, amount), from, token_id)
            + spec_balance_of(spec_move(m, from, to, token_id, amount), to, token_id)
            == spec_balance_of(m, from, token_id) + spec_balance_of(m, to, token_id),
        from == to ==> spec_balance_of(spec_move(m, from, to, token_id, amount), from, token_id)
            == spec_balance_of(m, from, token_id),
        forall|user: Address, t: u128|
            !(t == token_id && (user == from || user == to)) ==> #[trigger] spec_balance_of(
                spec_move(m, from, to, token_id, amount),
                user,
                t,
            ) == spec_balance_of(m, user, t),
{
    let d = spec_debit(m, from, token_id, amount);
    lemma_debit_balance(m, from, token_id, amount, from, token_id);
    lemma_debit_balance(m, from, token_id, amount, to, token_id);
    lemma_credit_balance(d, to, token_id, amount, from, token_id);
    lemma_credit_balance(d, to, token_id, amount, to, token_id);
    assert forall|user: Address, t: u128|
        !(t == token_id && (user == from || user == to)) implies #[trigger] spec_balance_of(
        spec_move(m, from, to, token_id, amount),
        user,
        t,
    ) == spec_balance_of(m, user, t) by {
        lemma_debit_balance(m, from, token_id, amount, user, t);
        lemma_credit_balance(d, to, token_id, amount, user, t);
    }
}

/// A direct transfer that takes effect conserves the token: the balances of
/// the two parties add up to what they added up to before, a transfer to
/// oneself leaves the balance as it was, and no other balance changes.
pub proof fn lemma_transfer_conserves(
    h: HostView,
    from: Address,
    to: Address,
    token_id: u128,
    amount: u128,
)
    requires
        transfer_outcome(h, from, to, token_id, amount) == Ok::<bool, LedgerError>(true),
    ensures
        from != to ==> spec_balance_of(
            spec_transfer(h, from, to, token_id, amount).records,
            from,
            token_id,
        ) + spec_balance_of(spec_transfer(h, from, to, token_id, amount).records, to, token_id)
            == spec_balance_of(h.records, from, token_id) + spec_balance_of(
            h.records,
            to,
            token_id,
        ),
        from == to ==> spec_balance_of(
            spec_transfer(h, from, to, token_id, amount).records,
            from,
            token_id,
        ) == spec_balance_of(h.records, from, token_id),
        forall|user: Address, t: u128|
            !(t == token_id && (user == from || user == to)) ==> #[trigger] spec_balance_of(
                spec_transfer(h, from, to, token_id, amount).records,
                user,
                t,
            ) == spec_balance_of(h.records, user, t),
{
    lemma_move_conserves(h.records, from, to, token_id, amount);
}

/// A delegated transfer that takes effect conserves the token in the same
/// way, and lowers the allowance by what was moved.
pub proof fn lemma_transfer_from_conserves(
    h: HostView,
    spender: Address,
    from: Address,
    to: Address,
    token_id: u128,
    amount: u128,
)
    requires
        transfer_from_outcome(h, spender, from, to, token_id, amount) is Ok,
    ensures
        from != to ==> spec_balance_of(
            spec_transfer_from(h, spender, from, to, token_id, amount).records,
            from,
            token_id,
        ) + spec_balance_of(
            spec_transfer_from(h, spender, from, to, token_id, amount).records,
            to,
            token_id,
        ) == spec_balance_of(h.records, from, token_id) + spec_balance_of(
            h.records,
            to,
            token_id,
        ),
        from != to ==> spec_balance_of(
            spec_transfer_from(h, spender, from, to, token_id, amount).records,
            to,
            token_id,
        ) == spec_balance_of(h.records, to, token_id) + amount,
        from == to ==> spec_balance_of(
            spec_transfer_from(h, spender, from, to, token_id, amount).records,
            from,
            token_id,
        ) == spec_balance_of(h.records, from, token_id),
        spec_allowance(
            spec_transfer_from(h, spender, from, to, token_id, amount).records,
            from,
            spender,
            token_id,
        ) == spec_allowance(h.records, from, spender, token_id) - amount,
{
    lemma_keys_never_collide();
    lemma_move_conserves(h.records, from, to, token_id, amount);
}

// ----- allowances ---------------------------------------------------------------

/// An approval overwrites: after it the allowance is the amount approved,
/// whatever it was before. Approving twice leaves the records that the
/// second approval alone would have left.
pub proof fn lemma_approve_overwrites(
    h: HostView,
    owner: Address,
    spender: Address,
    token_id: u128,
    first: u128,
    last: u128,
)
    ensures
        spec_allowance(spec_approve(h, owner, spender, token_id, last).records, owner, spender, token_id)
            == last,
        spec_approve(
            spec_approve(h, owner, spender, token_id, first),
            owner,
            spender,
            token_id,
            last,
        ).records == spec_approve(h, owner, spender, token_id, last).records,
{
    let k = Key::Allowance(token_id, owner, spender).spec_encode();
    let once = spec_approve(h, owner, spender, token_id, last).records;
    let twice = spec_approve(
        spec_approve(h, owner, spender, token_id, first),
        owner,
        spender,
        token_id,
        last,
    ).records;
    assert(twice =~= once);
}

/// A delegated transfer beyond the allowance or beyond the balance never
/// takes effect, whatever else the environment holds.
pub proof fn lemma_transfer_from_within_limits(
    h: HostView,
    spender: Address,
    from: Address,
    to: Address,
    token_id: u128,
    amount: u128,
)
    requires
        amount > spec_allowance(h.records, from, spender, token_id) || amount > spec_balance_of(
            h.records,
            from,
            token_id,
        ),
    ensures
        transfer_from_outcome(h, spender, from, to, token_id, amount) is Err,
{
}

// ----- initialization -----------------------------------------------------------

/// What the catalogue holds once created: the administrator on record has
/// the whole supply of each of the five token types and has each of them
/// listed, and the next token id to allocate is six.
pub proof fn lemma_catalogue_contents(h: HostView)
    ensures
        spec_balance_of(spec_create_multi_type_token(h).records, spec_get_admin(h.records), 1)
            == 100_000,
        spec_balance_of(spec_create_multi_type_token(h).records, spec_get_admin(h.records), 2)
            == 200_000,
        spec_balance_of(spec_create_multi_type_token(h).records, spec_get_admin(h.records), 3)
            == 300_000,
        spec_balance_of(spec_create_multi_type_token(h).records, spec_get_admin(h.records), 4)
            == 400_000,
        spec_balance_of(spec_create_multi_type_token(h).records, spec_get_admin(h.records), 5)
            == 500_000,
        forall|id: u128|
            1 <= id <= 5 ==> #[trigger] spec_get_total_supply(
                spec_create_multi_type_token(h).records,
                id,
            ) == spec_balance_of(
                spec_create_multi_type_token(h).records,
                spec_get_admin(h.records),
                id,
            ),
        forall|id: u128|
            1 <= id <= 5 ==> spec_token_ids_by_owner(
                spec_create_multi_type_token(h).records,
                spec_get_admin(h.records),
            ).contains(id),
        spec_get_next_id(spec_create_multi_type_token(h).records) == 6,
        forall|id: u128|
            spec_valid_token_id(spec_create_multi_type_token(h).records, id) <==> 1 <= id <= 5,
        spec_create_multi_type_token(h).events.len() == h.events.len() + 5,
{
    lemma_keys_never_collide();
    let admin = spec_get_admin(h.records);
    let h1 = spec_create_token(h, admin, 1, "TokenNameFirst"@, "TNF"@, 100_000);
    let h2 = spec_create_token(h1, admin, 2, "TokenNameSecond"@, "TNS"@, 200_000);
    let h3 = spec_create_token(h2, admin, 3, "TokenNameThird"@, "TNH"@, 300_000);
    let h4 = spec_create_token(h3, admin, 4, "TokenNameFourth"@, "TNO"@, 400_000);
    let h5 = spec_create_token(h4, admin, 5, "TokenNameFifth"@, "TNI"@, 500_000);
    let after = spec_create_multi_type_token(h).records;
    lemma_token_listed(h, admin, 1, "TokenNameFirst"@, "TNF"@, 100_000);
    lemma_token_listed(h1, admin, 2, "TokenNameSecond"@, "TNS"@, 200_000);
    lemma_token_listed(h2, admin, 3, "TokenNameThird"@, "TNH"@, 300_000);
    lemma_token_listed(h3, admin, 4, "TokenNameFourth"@, "TNO"@, 400_000);
    lemma_token_listed(h4, admin, 5, "TokenNameFifth"@, "TNI"@, 500_000);
    assert(spec_token_ids_by_owner(after, admin) == spec_token_ids_by_owner(h5.records, admin));
    assert forall|id: u128| 1 <= id <= 5 implies spec_token_ids_by_owner(after, admin).contains(
        id,
    ) by {
        assert(id == 1 || id == 2 || id == 3 || id == 4 || id == 5);
    }
    assert forall|id: u128| 1 <= id <= 5 implies #[trigger] spec_get_total_supply(after, id)
        == spec_balance_of(after, admin, id) by {
        assert(id == 1 || id == 2 || id == 3 || id == 4 || id == 5);
    }
}

/// The creation of a token type lists it for the administrator and keeps
/// what was listed.
proof fn lemma_token_listed(
    h: HostView,
    admin: Address,
    id: u128,
    name: Seq<char>,
    symbol: Seq<char>,
    supply: u128,
)
    ensures
        spec_token_ids_by_owner(
            spec_create_token(h, admin, id, name, symbol, supply).records,
            admin,
        ).contains(id),
        forall|t: u128|
            spec_token_ids_by_owner(h.records, admin).contains(t) ==> spec_token_ids_by_owner(
                spec_create_token(h, admin, id, name, symbol, supply).records,
                admin,
            ).contains(t),
{
    lemma_keys_never_collide();
    let named = with_record(h.records, Key::Name(id), ValueView::Text(name));
    let labelled = with_record(named, Key::Symbol(id), ValueView::Text(symbol));
    let supplied = with_record(labelled, Key::TotalSupply(id), ValueView::Num(supply));
    let set = spec_put_balance(supplied, id, admin, supply);
    let before = spec_token_ids_by_owner(h.records, admin);
    assert(spec_token_ids_by_owner(set, admin) == before);
    let after = spec_token_ids_by_owner(
        spec_create_token(h, admin, id, name, symbol, supply).records,
        admin,
    );
    if !before.contains(id) {
        assert(after == before.push(id));
        assert(after[before.len() as int] == id);
        assert forall|t: u128| before.contains(t) implies after.contains(t) by {
            let i = choose|i: int| 0 <= i < before.len() && before[i] == t;
            assert(after[i] == t);
        }
    }
}

/// The catalogue is created once: after an initialization that took effect,
/// every further one fails as already done, whoever asks and for whomever.
pub proof fn lemma_init_only_once(h: HostView, admin: Address, later: HostView, again: Address)
    requires
        init_outcome(h, admin) is Ok,
        later.records == spec_init(h, admin).records,
    ensures
        init_outcome(later, again) == Err::<bool, LedgerError>(LedgerError::AlreadyInitialized),
{
    lemma_catalogue_keeps_admin(
        h.with_records(with_record(h.records, Key::Admin, ValueView::Addr(admin))),
    );
}

} // verus!
