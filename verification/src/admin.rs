//! The life of the catalogue: its one-time creation, the handover of the
//! administrator's role in two steps, and the upkeep of token metadata.

use crate::address::Address;
use crate::host::{Event, Host, HostView};
use crate::key::{lemma_keys_never_collide, Key};
use crate::laws::{
    index_consistent, lemma_accept_admin_keeps_index, lemma_catalogue_keeps_index,
    lemma_with_record_keeps_index,
};
use crate::oep8_token::{
    check_sig, check_token_id, push_id, spec_push_id, spec_valid_token_id, transfer_evt,
    LedgerError,
};
use crate::storage::{
    get_admin, get_name, get_pending_admin, get_token_url, put_admin, put_balance, put_name,
    put_next_id, put_pending_admin, put_symbol, put_token_url, put_total_supply, spec_get_admin,
    spec_get_name, spec_get_pending_admin, spec_get_token_url, spec_put_balance, with_record,
};
use crate::store::{Store, ValueView};
use crate::supply::{
    lemma_accept_admin_keeps_supply, lemma_catalogue_supply, lemma_init_supply,
    lemma_nothing_held_respects_supply, lemma_with_record_keeps_supply, nothing_held,
    supply_respected,
};
use vstd::prelude::*;

verus! {

// ----- the catalogue ------------------------------------------------------------

/// The environment after token type `id` has been created with the whole
/// `supply` in the hands of `admin`.
pub open spec fn spec_create_token(
    h: HostView,
    admin: Address,
    id: u128,
    name: Seq<char>,
    symbol: Seq<char>,
    supply: u128,
) -> HostView {
    let named = with_record(h.records, Key::Name(id), ValueView::Text(name));
    let labelled = with_record(named, Key::Symbol(id), ValueView::Text(symbol));
    let supplied = with_record(labelled, Key::TotalSupply(id), ValueView::Num(supply));
    let credited = spec_push_id(spec_put_balance(supplied, id, admin, supply), admin, id);
    h.with_records(credited).notified(
        Event::Transfer { from: Address::spec_zero(), to: admin, token_id: id, amount: supply },
    )
}

/// Creates token type `id` and credits its whole supply to `admin`.
fn create_token(host: &mut Host, admin: &Address, id: u128, name: &str, symbol: &str, supply: u128)
    ensures
        final(host)@ == spec_create_token(old(host)@, *admin, id, name@, symbol@, supply),
{
    put_name(&mut host.store, id, name);
    put_symbol(&mut host.store, id, symbol);
    put_total_supply(&mut host.store, id, supply);
    put_balance(&mut host.store, id, admin, supply);
    push_id(&mut host.store, admin, id);
    transfer_evt(host, &Address::zero(), admin, id, supply);
}

/// The environment after the catalogue of five token types has been created
/// for the administrator on record, and the token-id counter set behind them.
pub open spec fn spec_create_multi_type_token(h: HostView) -> HostView {
    let admin = spec_get_admin(h.records);
    let h1 = spec_create_token(h, admin, 1, "TokenNameFirst"@, "TNF"@, 100_000);
    let h2 = spec_create_token(h1, admin, 2, "TokenNameSecond"@, "TNS"@, 200_000);
    let h3 = spec_create_token(h2, admin, 3, "TokenNameThird"@, "TNH"@, 300_000);
    let h4 = spec_create_token(h3, admin, 4, "TokenNameFourth"@, "TNO"@, 400_000);
    let h5 = spec_create_token(h4, admin, 5, "TokenNameFifth"@, "TNI"@, 500_000);
    h5.with_records(with_record(h5.records, Key::NextId, ValueView::Num(6)))
}

/// How the creation of the catalogue ends.
pub open spec fn create_multi_type_token_outcome(h: HostView) -> Result<bool, LedgerError> {
    if spec_get_admin(h.records).is_zero() {
        Err(LedgerError::ZeroAdmin)
    } else {
        Ok(true)
    }
}

/// Creates the catalogue: five token types, numbered from one, each with its
/// whole supply credited to the administrator. Fails while no administrator
/// is on record.
pub fn create_multi_type_token(host: &mut Host) -> (r: Result<bool, LedgerError>)
    ensures
        r == create_multi_type_token_outcome(old(host)@),
        final(host)@ == if r is Ok {
            spec_create_multi_type_token(old(host)@)
        } else {
            old(host)@
        },
        index_consistent(old(host)@.records) ==> index_consistent(final(host)@.records),
        nothing_held(old(host)@.records) ==> supply_respected(final(host)@.records),
{
    let admin = get_admin(&host.store);
    if admin.is_zero() {
        proof {
            if nothing_held(old(host)@.records) {
                lemma_nothing_held_respects_supply(old(host)@.records);
            }
        }
        return Err(LedgerError::ZeroAdmin);
    }
    create_token(host, &admin, 1, "TokenNameFirst", "TNF", 100_000);
    create_token(host, &admin, 2, "TokenNameSecond", "TNS", 200_000);
    create_token(host, &admin, 3, "TokenNameThird", "TNH", 300_000);
    create_token(host, &admin, 4, "TokenNameFourth", "TNO", 400_000);
    create_token(host, &admin, 5, "TokenNameFifth", "TNI", 500_000);
    put_next_id(&mut host.store, 6);
    proof {
        if index_consistent(old(host)@.records) {
            lemma_catalogue_keeps_index(old(host)@);
        }
        if nothing_held(old(host)@.records) {
            lemma_catalogue_supply(old(host)@);
        }
    }
    Ok(true)
}

// ----- initialization -----------------------------------------------------------

/// How an initialization ends.
pub open spec fn init_outcome(h: HostView, admin: Address) -> Result<bool, LedgerError> {
    if !spec_get_admin(h.records).is_zero() {
        Err(LedgerError::AlreadyInitialized)
    } else if !h.is_authorized(admin) {
        Err(LedgerError::Unauthorized)
    } else if admin.is_zero() {
        Err(LedgerError::ZeroAdmin)
    } else {
        Ok(true)
    }
}

/// The environment after an initialization that took effect: `admin` is on
/// record and the catalogue is created.
pub open spec fn spec_init(h: HostView, admin: Address) -> HostView {
    spec_create_multi_type_token(
        h.with_records(with_record(h.records, Key::Admin, ValueView::Addr(admin))),
    )
}

/// Makes `admin`, who has to authorize it, the administrator and creates
/// the catalogue. This works once: with an administrator on record it fails.
pub fn init(host: &mut Host, admin: &Address) -> (r: Result<bool, LedgerError>)
    ensures
        r == init_outcome(old(host)@, *admin),
        final(host)@ == if r is Ok {
            spec_init(old(host)@, *admin)
        } else {
            old(host)@
        },
        r is Ok ==> !spec_get_admin(final(host)@.records).is_zero(),
        index_consistent(old(host)@.records) ==> index_consistent(final(host)@.records),
        nothing_held(old(host)@.records) ==> supply_respected(final(host)@.records),
{
    proof {
        if nothing_held(old(host)@.records) {
            lemma_nothing_held_respects_supply(old(host)@.records);
            lemma_init_supply(old(host)@, *admin);
        }
    }
    let current = get_admin(&host.store);
    if !current.is_zero() {
        return Err(LedgerError::AlreadyInitialized);
    }
    if !check_sig(host, admin) {
        return Err(LedgerError::Unauthorized);
    }
    if admin.is_zero() {
        return Err(LedgerError::ZeroAdmin);
    }
    put_admin(&mut host.store, admin);
    proof {
        if index_consistent(old(host)@.records) {
            lemma_with_record_keeps_index(old(host)@.records, Key::Admin, ValueView::Addr(*admin));
        }
    }
    let created = create_multi_type_token(host);
    proof {
        lemma_catalogue_keeps_admin(
            old(host)@.with_records(
                with_record(old(host)@.records, Key::Admin, ValueView::Addr(*admin)),
            ),
        );
    }
    created
}

/// Creating the catalogue leaves the administrator on record.
pub proof fn lemma_catalogue_keeps_admin(h: HostView)
    ensures
        spec_get_admin(spec_create_multi_type_token(h).records) == spec_get_admin(h.records),
{
    lemma_keys_never_collide();
}

// ----- handover -----------------------------------------------------------------

/// How the naming of a successor ends.
pub open spec fn set_pending_admin_outcome(h: HostView) -> Result<(), LedgerError> {
    if h.is_authorized(spec_get_admin(h.records)) {
        Ok(())
    } else {
        Err(LedgerError::Unauthorized)
    }
}

/// The environment after `new_pending_admin` has been named as successor.
pub open spec fn spec_set_pending_admin(h: HostView, new_pending_admin: Address) -> HostView {
    h.with_records(
        with_record(h.records, Key::PendingAdmin, ValueView::Addr(new_pending_admin)),
    )
}

/// Names `new_pending_admin` as the administrator to be. The administrator
/// has to authorize it, and stays in office.
pub fn set_pending_admin(host: &mut Host, new_pending_admin: &Address) -> (r: Result<
    (),
    LedgerError,
>)
    ensures
        r == set_pending_admin_outcome(old(host)@),
        final(host)@ == if r is Ok {
            spec_set_pending_admin(old(host)@, *new_pending_admin)
        } else {
            old(host)@
        },
        r is Ok ==> spec_get_pending_admin(final(host)@.records) == *new_pending_admin,
        spec_get_admin(final(host)@.records) == spec_get_admin(old(host)@.records),
        index_consistent(old(host)@.records) ==> index_consistent(final(host)@.records),
        supply_respected(old(host)@.records) ==> supply_respected(final(host)@.records),
{
    let admin = get_admin(&host.store);
    if !check_sig(host, &admin) {
        return Err(LedgerError::Unauthorized);
    }
    put_pending_admin(&mut host.store, new_pending_admin);
    proof {
        lemma_keys_never_collide();
        if index_consistent(old(host)@.records) {
            lemma_with_record_keeps_index(
                old(host)@.records,
                Key::PendingAdmin,
                ValueView::Addr(*new_pending_admin),
            );
        }
        if supply_respected(old(host)@.records) {
            lemma_with_record_keeps_supply(
                old(host)@.records,
                Key::PendingAdmin,
                ValueView::Addr(*new_pending_admin),
            );
        }
    }
    Ok(())
}

/// How the acceptance of the administrator's role ends.
pub open spec fn accept_admin_outcome(h: HostView) -> Result<(), LedgerError> {
    if h.is_authorized(spec_get_pending_admin(h.records)) {
        Ok(())
    } else {
        Err(LedgerError::Unauthorized)
    }
}

/// The environment after the pending administrator has taken office: the
/// successor is the administrator and no handover is under way.
pub open spec fn spec_accept_admin(h: HostView) -> HostView {
    h.with_records(
        with_record(
            with_record(h.records, Key::Admin, ValueView::Addr(spec_get_pending_admin(h.records))),
            Key::PendingAdmin,
            ValueView::Addr(Address::spec_zero()),
        ),
    )
}

/// Makes the pending administrator, who has to authorize it, the
/// administrator, and ends the handover.
pub fn accept_admin(host: &mut Host) -> (r: Result<(), LedgerError>)
    ensures
        r == accept_admin_outcome(old(host)@),
        final(host)@ == if r is Ok {
            spec_accept_admin(old(host)@)
        } else {
            old(host)@
        },
        r is Ok ==> spec_get_admin(final(host)@.records) == spec_get_pending_admin(
            old(host)@.records,
        ) && spec_get_pending_admin(final(host)@.records).is_zero(),
        index_consistent(old(host)@.records) ==> index_consistent(final(host)@.records),
        supply_respected(old(host)@.records) ==> supply_respected(final(host)@.records),
{
    let pending = get_pending_admin(&host.store);
    if !check_sig(host, &pending) {
        return Err(LedgerError::Unauthorized);
    }
    put_admin(&mut host.store, &pending);
    put_pending_admin(&mut host.store, &Address::zero());
    proof {
        lemma_keys_never_collide();
        if index_consistent(old(host)@.records) {
            lemma_accept_admin_keeps_index(old(host)@);
        }
        if supply_respected(old(host)@.records) {
            lemma_accept_admin_keeps_supply(old(host)@);
        }
    }
    Ok(())
}

// ----- token metadata -----------------------------------------------------------

/// How an update of a token's url ends.
pub open spec fn update_token_url_outcome(h: HostView, token_id: u128) -> Result<
    bool,
    LedgerError,
> {
    if !h.is_authorized(spec_get_admin(h.records)) {
        Err(LedgerError::Unauthorized)
    } else if !spec_valid_token_id(h.records, token_id) {
        Err(LedgerError::InvalidTokenId)
    } else {
        Ok(true)
    }
}

/// The environment after the url of token type `token_id` has been replaced.
pub open spec fn spec_update_token_url(h: HostView, token_id: u128, url: Seq<u8>) -> HostView {
    h.with_records(with_record(h.records, Key::TokenUrl(token_id), ValueView::Bytes(url)))
}

/// Replaces the url of token type `token_id`. The administrator has to
/// authorize it.
pub fn update_token_url(host: &mut Host, token_id: u128, url: &[u8]) -> (r: Result<
    bool,
    LedgerError,
>)
    ensures
        r == update_token_url_outcome(old(host)@, token_id),
        final(host)@ == if r is Ok {
            spec_update_token_url(old(host)@, token_id, url@)
        } else {
            old(host)@
        },
        r is Ok ==> spec_get_token_url(final(host)@.records, token_id) == url@,
        index_consistent(old(host)@.records) ==> index_consistent(final(host)@.records),
        supply_respected(old(host)@.records) ==> supply_respected(final(host)@.records),
{
    let admin = get_admin(&host.store);
    if !check_sig(host, &admin) {
        return Err(LedgerError::Unauthorized);
    }
    if !check_token_id(&host.store, token_id) {
        return Err(LedgerError::InvalidTokenId);
    }
    put_token_url(&mut host.store, token_id, url);
    proof {
        if index_consistent(old(host)@.records) {
            lemma_with_record_keeps_index(
                old(host)@.records,
                Key::TokenUrl(token_id),
                ValueView::Bytes(url@),
            );
        }
        if supply_respected(old(host)@.records) {
            lemma_with_record_keeps_supply(
                old(host)@.records,
                Key::TokenUrl(token_id),
                ValueView::Bytes(url@),
            );
        }
    }
    Ok(true)
}

/// The description of token type `token_id`: its name, its level (always
/// zero), its url, and an empty free-form description.
pub fn query_token_by_id(store: &Store, token_id: u128) -> (r: (String, u128, Vec<u8>, Vec<u8>))
    ensures
        r.0@ == spec_get_name(store@, token_id),
        r.1 == 0,
        r.2@ == spec_get_token_url(store@, token_id),
        r.3@ == Seq::<u8>::empty(),
{
    let name = get_name(store, token_id);
    let logo = get_token_url(store, token_id);
    (name, 0, logo, Vec::new())
}

} // verus!
