use oep8_token::address::Address;
use oep8_token::batch::{ApproveState, State, TransferFromState};
use oep8_token::dispatch::{invoke, Call, Reply};
use oep8_token::footprint::{asked, footprint};
use oep8_token::host::{Event, Host};
use oep8_token::key::Key;
use oep8_token::oep8_token::LedgerError;
use oep8_token::store::{Store, Value};
use std::collections::HashMap;

fn addr(b: u8) -> Address {
    Address::new([b; 20])
}

fn keys_of(call: &Call) -> Vec<Vec<u8>> {
    footprint(call).iter().map(|k| k.encode()).collect()
}

/// Records kept outside the ledger, as a chain would keep them.
struct Chain {
    records: HashMap<Vec<u8>, Value>,
    signers: Vec<Address>,
    events: Vec<Event>,
}

impl Chain {
    fn new() -> Chain {
        Chain { records: HashMap::new(), signers: Vec::new(), events: Vec::new() }
    }

    /// Carries out `call` on the records of its footprint alone.
    fn call(&mut self, call: &Call) -> Result<Reply, LedgerError> {
        let mut store = Store::new();
        for raw in keys_of(call) {
            if let Some(record) = self.records.get(&raw) {
                store.put(raw, record.duplicate());
            }
        }
        let witnesses: Vec<Address> =
            asked(&store, call).into_iter().filter(|a| self.signers.contains(a)).collect();
        let mut host = Host { store, witnesses, events: Vec::new() };
        let reply = invoke(&mut host, call)?;
        for raw in keys_of(call) {
            match host.store.get(&raw) {
                Some(record) => {
                    self.records.insert(raw, record.duplicate());
                }
                None => {
                    self.records.remove(&raw);
                }
            }
        }
        self.events.extend(host.events);
        Ok(reply)
    }
}

fn same_record(a: Option<&Value>, b: Option<&Value>) -> bool {
    match (a, b) {
        (None, None) => true,
        (Some(Value::Num(x)), Some(Value::Num(y))) => x == y,
        (Some(Value::Addr(x)), Some(Value::Addr(y))) => x == y,
        (Some(Value::Text(x)), Some(Value::Text(y))) => x == y,
        (Some(Value::Bytes(x)), Some(Value::Bytes(y))) => x == y,
        (Some(Value::Ids(x)), Some(Value::Ids(y))) => x == y,
        _ => false,
    }
}

#[test]
fn requests_are_answered_as_the_operations_are() {
    let a = addr(1);
    let b = addr(2);
    let c = addr(3);
    let mut host = Host::new(vec![a]);
    assert_eq!(invoke(&mut host, &Call::Init { admin: a }), Ok(Reply::Flag(true)));
    assert_eq!(
        invoke(&mut host, &Call::Init { admin: a }),
        Err(LedgerError::AlreadyInitialized)
    );
    assert_eq!(invoke(&mut host, &Call::Name { token_id: 2 }), Ok(Reply::Text("TokenNameSecond".to_string())));
    assert_eq!(invoke(&mut host, &Call::Symbol { token_id: 5 }), Ok(Reply::Text("TNI".to_string())));
    assert_eq!(invoke(&mut host, &Call::TotalSupply { token_id: 4 }), Ok(Reply::Amount(400_000)));
    assert_eq!(
        invoke(&mut host, &Call::Transfer { from: a, to: b, token_id: 1, amount: 40_000 }),
        Ok(Reply::Flag(true))
    );
    assert_eq!(
        invoke(&mut host, &Call::Transfer { from: a, to: b, token_id: 1, amount: 60_001 }),
        Ok(Reply::Flag(false))
    );
    assert_eq!(
        invoke(&mut host, &Call::BalanceOf { user: b, token_id: 1 }),
        Ok(Reply::Amount(40_000))
    );
    assert_eq!(
        invoke(&mut host, &Call::Approve { owner: a, spender: c, token_id: 1, amount: 9 }),
        Ok(Reply::Flag(true))
    );
    assert_eq!(
        invoke(&mut host, &Call::Allowance { owner: a, spender: c, token_id: 1 }),
        Ok(Reply::Amount(9))
    );
    assert_eq!(
        invoke(&mut host, &Call::QueryTokenIdsByOwnerAddr { user: b }),
        Ok(Reply::Ids(vec![1]))
    );
    assert_eq!(
        invoke(&mut host, &Call::UpdateTokenUrl { token_id: 1, url: b"u1".to_vec() }),
        Ok(Reply::Flag(true))
    );
    assert_eq!(
        invoke(&mut host, &Call::QueryTokenById { token_id: 1 }),
        Ok(Reply::Token {
            name: "TokenNameFirst".to_string(),
            level: 0,
            url: b"u1".to_vec(),
            description: vec![],
        })
    );
    assert_eq!(
        invoke(&mut host, &Call::SetPendingAdmin { new_pending_admin: b }),
        Ok(Reply::Done)
    );
    assert_eq!(invoke(&mut host, &Call::AcceptAdmin), Err(LedgerError::Unauthorized));
    host.witnesses = vec![b, c];
    assert_eq!(invoke(&mut host, &Call::AcceptAdmin), Ok(Reply::Done));
    assert_eq!(
        invoke(
            &mut host,
            &Call::TransferFrom { spender: c, from: a, to: c, token_id: 1, amount: 9 }
        ),
        Ok(Reply::Flag(true))
    );
    assert_eq!(
        invoke(
            &mut host,
            &Call::TransferFrom { spender: c, from: a, to: c, token_id: 1, amount: 1 }
        ),
        Err(LedgerError::InsufficientAllowance)
    );
    assert_eq!(
        invoke(&mut host, &Call::TransferMulti { states: vec![] }),
        Ok(Reply::Flag(false))
    );
    assert_eq!(
        invoke(&mut host, &Call::ApproveMulti { approvals: vec![] }),
        Ok(Reply::Flag(false))
    );
    assert_eq!(
        invoke(&mut host, &Call::TransferFromMulti { transfers: vec![] }),
        Ok(Reply::Flag(false))
    );
    assert_eq!(
        invoke(
            &mut host,
            &Call::TransferMulti {
                states: vec![State { from: b, to: c, token_id: 1, amount: 40_001 }]
            }
        ),
        Err(LedgerError::InsufficientBalance)
    );
    assert_eq!(
        invoke(
            &mut host,
            &Call::ApproveMulti {
                approvals: vec![ApproveState { owner: b, spender: c, token_id: 1, amount: 5 }]
            }
        ),
        Ok(Reply::Flag(true))
    );
    assert_eq!(
        invoke(
            &mut host,
            &Call::TransferFromMulti {
                transfers: vec![TransferFromState {
                    spender: c,
                    from: b,
                    to: a,
                    token_id: 1,
                    amount: 5
                }]
            }
        ),
        Ok(Reply::Flag(true))
    );
    assert_eq!(
        invoke(&mut host, &Call::BalanceOf { user: a, token_id: 1 }),
        Ok(Reply::Amount(59_996))
    );
}

#[test]
fn footprints_name_the_records_of_a_request() {
    let a = addr(1);
    let b = addr(2);
    let c = addr(3);
    assert_eq!(
        keys_of(&Call::Transfer { from: a, to: b, token_id: 7, amount: 1 }),
        vec![
            Key::NextId.encode(),
            Key::Balance(7, a).encode(),
            Key::Balance(7, b).encode(),
            Key::TokenIds(a).encode(),
            Key::TokenIds(b).encode(),
        ]
    );
    assert_eq!(
        keys_of(&Call::Approve { owner: a, spender: b, token_id: 7, amount: 1 }),
        vec![Key::NextId.encode(), Key::Allowance(7, a, b).encode()]
    );
    assert_eq!(
        keys_of(&Call::TransferFrom { spender: c, from: a, to: b, token_id: 7, amount: 1 }),
        vec![
            Key::Allowance(7, a, c).encode(),
            Key::Balance(7, a).encode(),
            Key::Balance(7, b).encode(),
            Key::TokenIds(a).encode(),
            Key::TokenIds(b).encode(),
        ]
    );
    assert_eq!(
        keys_of(&Call::SetPendingAdmin { new_pending_admin: a }),
        vec![Key::Admin.encode(), Key::PendingAdmin.encode()]
    );
    assert_eq!(keys_of(&Call::AcceptAdmin), vec![Key::Admin.encode(), Key::PendingAdmin.encode()]);
    assert_eq!(
        keys_of(&Call::UpdateTokenUrl { token_id: 3, url: vec![] }),
        vec![Key::Admin.encode(), Key::NextId.encode(), Key::TokenUrl(3).encode()]
    );
    assert_eq!(keys_of(&Call::Name { token_id: 3 }), vec![Key::Name(3).encode()]);
    assert_eq!(keys_of(&Call::Symbol { token_id: 3 }), vec![Key::Symbol(3).encode()]);
    assert_eq!(keys_of(&Call::TotalSupply { token_id: 3 }), vec![Key::TotalSupply(3).encode()]);
    assert_eq!(
        keys_of(&Call::BalanceOf { user: a, token_id: 3 }),
        vec![Key::Balance(3, a).encode()]
    );
    assert_eq!(
        keys_of(&Call::Allowance { owner: a, spender: b, token_id: 3 }),
        vec![Key::Allowance(3, a, b).encode()]
    );
    assert_eq!(
        keys_of(&Call::QueryTokenIdsByOwnerAddr { user: a }),
        vec![Key::TokenIds(a).encode()]
    );
    assert_eq!(
        keys_of(&Call::QueryTokenById { token_id: 3 }),
        vec![Key::Name(3).encode(), Key::TokenUrl(3).encode()]
    );
    let init = keys_of(&Call::Init { admin: a });
    assert_eq!(init.len(), 23);
    assert_eq!(init[0], Key::Admin.encode());
    assert_eq!(init[1], Key::NextId.encode());
    assert_eq!(init[2], Key::TokenIds(a).encode());
    assert_eq!(init[3], Key::Name(1).encode());
    assert_eq!(init[6], Key::Balance(1, a).encode());
    assert_eq!(init[22], Key::Balance(5, a).encode());
    assert_eq!(keys_of(&Call::TransferMulti { states: vec![] }), Vec::<Vec<u8>>::new());
    assert_eq!(
        keys_of(&Call::TransferMulti {
            states: vec![
                State { from: a, to: b, token_id: 1, amount: 1 },
                State { from: b, to: c, token_id: 2, amount: 1 },
            ]
        })
        .len(),
        10
    );
    assert_eq!(
        keys_of(&Call::ApproveMulti {
            approvals: vec![ApproveState { owner: a, spender: b, token_id: 1, amount: 1 }]
        }),
        vec![Key::NextId.encode(), Key::Allowance(1, a, b).encode()]
    );
    assert_eq!(
        keys_of(&Call::TransferFromMulti {
            transfers: vec![TransferFromState {
                spender: c,
                from: a,
                to: b,
                token_id: 1,
                amount: 1
            }]
        })
        .len(),
        5
    );
}

#[test]
fn requests_ask_for_the_authorization_of_those_they_bind() {
    let a = addr(1);
    let b = addr(2);
    let c = addr(3);
    let mut host = Host::new(vec![a]);
    assert_eq!(asked(&host.store, &Call::Init { admin: a }), vec![a]);
    assert_eq!(
        asked(&host.store, &Call::SetPendingAdmin { new_pending_admin: b }),
        vec![Address::zero()]
    );
    assert_eq!(invoke(&mut host, &Call::Init { admin: a }), Ok(Reply::Flag(true)));
    assert_eq!(invoke(&mut host, &Call::SetPendingAdmin { new_pending_admin: b }), Ok(Reply::Done));
    assert_eq!(asked(&host.store, &Call::SetPendingAdmin { new_pending_admin: c }), vec![a]);
    assert_eq!(asked(&host.store, &Call::UpdateTokenUrl { token_id: 1, url: vec![] }), vec![a]);
    assert_eq!(asked(&host.store, &Call::AcceptAdmin), vec![b]);
    assert_eq!(
        asked(&host.store, &Call::Transfer { from: b, to: c, token_id: 1, amount: 1 }),
        vec![b]
    );
    assert_eq!(
        asked(&host.store, &Call::Approve { owner: c, spender: b, token_id: 1, amount: 1 }),
        vec![c]
    );
    assert_eq!(
        asked(
            &host.store,
            &Call::TransferFrom { spender: c, from: a, to: b, token_id: 1, amount: 1 }
        ),
        vec![c]
    );
    assert_eq!(
        asked(
            &host.store,
            &Call::TransferMulti {
                states: vec![
                    State { from: a, to: b, token_id: 1, amount: 1 },
                    State { from: b, to: c, token_id: 2, amount: 1 },
                ]
            }
        ),
        vec![a, b]
    );
    assert_eq!(
        asked(
            &host.store,
            &Call::ApproveMulti {
                approvals: vec![ApproveState { owner: c, spender: b, token_id: 1, amount: 1 }]
            }
        ),
        vec![c]
    );
    assert_eq!(
        asked(
            &host.store,
            &Call::TransferFromMulti {
                transfers: vec![TransferFromState {
                    spender: b,
                    from: a,
                    to: c,
                    token_id: 1,
                    amount: 1
                }]
            }
        ),
        vec![b]
    );
    assert_eq!(asked(&host.store, &Call::Name { token_id: 1 }), Vec::<Address>::new());
    assert_eq!(
        asked(&host.store, &Call::BalanceOf { user: a, token_id: 1 }),
        Vec::<Address>::new()
    );
}

#[test]
fn the_footprint_suffices() {
    let a = addr(1);
    let b = addr(2);
    let c = addr(3);
    let script: Vec<(Vec<Address>, Call)> = vec![
        (vec![b], Call::Init { admin: a }),
        (vec![a], Call::Init { admin: a }),
        (vec![a], Call::Init { admin: a }),
        (vec![a], Call::Transfer { from: a, to: b, token_id: 1, amount: 40_000 }),
        (vec![a], Call::Transfer { from: a, to: b, token_id: 1, amount: 70_000 }),
        (vec![b], Call::Transfer { from: a, to: b, token_id: 1, amount: 1 }),
        (vec![a], Call::Transfer { from: a, to: a, token_id: 2, amount: 200_000 }),
        (vec![a], Call::Transfer { from: a, to: c, token_id: 9, amount: 1 }),
        (vec![a], Call::Approve { owner: a, spender: c, token_id: 3, amount: 500 }),
        (vec![c], Call::TransferFrom { spender: c, from: a, to: b, token_id: 3, amount: 200 }),
        (vec![c], Call::TransferFrom { spender: c, from: a, to: b, token_id: 3, amount: 301 }),
        (
            vec![a, b],
            Call::TransferMulti {
                states: vec![
                    State { from: a, to: b, token_id: 4, amount: 400_000 },
                    State { from: b, to: c, token_id: 4, amount: 100 },
                    State { from: b, to: a, token_id: 1, amount: 40_000 },
                ],
            },
        ),
        (
            vec![a],
            Call::TransferMulti {
                states: vec![
                    State { from: a, to: b, token_id: 5, amount: 5 },
                    State { from: b, to: c, token_id: 5, amount: 5 },
                ],
            },
        ),
        (
            vec![a, b],
            Call::ApproveMulti {
                approvals: vec![
                    ApproveState { owner: a, spender: b, token_id: 5, amount: 50 },
                    ApproveState { owner: b, spender: a, token_id: 4, amount: 0 },
                    ApproveState { owner: a, spender: b, token_id: 5, amount: 60 },
                ],
            },
        ),
        (
            vec![b],
            Call::TransferFromMulti {
                transfers: vec![
                    TransferFromState { spender: b, from: a, to: c, token_id: 5, amount: 60 },
                    TransferFromState { spender: b, from: a, to: c, token_id: 5, amount: 1 },
                ],
            },
        ),
        (
            vec![b],
            Call::TransferFromMulti {
                transfers: vec![
                    TransferFromState { spender: b, from: a, to: c, token_id: 5, amount: 10 },
                    TransferFromState { spender: b, from: a, to: b, token_id: 5, amount: 50 },
                ],
            },
        ),
        (vec![c], Call::SetPendingAdmin { new_pending_admin: c }),
        (vec![a], Call::SetPendingAdmin { new_pending_admin: c }),
        (vec![a], Call::AcceptAdmin),
        (vec![c], Call::AcceptAdmin),
        (vec![a], Call::UpdateTokenUrl { token_id: 2, url: b"old".to_vec() }),
        (vec![c], Call::UpdateTokenUrl { token_id: 2, url: b"new".to_vec() }),
        (vec![], Call::QueryTokenById { token_id: 2 }),
        (vec![], Call::QueryTokenIdsByOwnerAddr { user: a }),
        (vec![], Call::QueryTokenIdsByOwnerAddr { user: b }),
        (vec![], Call::BalanceOf { user: c, token_id: 5 }),
        (vec![], Call::Allowance { owner: a, spender: b, token_id: 5 }),
        (vec![], Call::Name { token_id: 1 }),
        (vec![], Call::Symbol { token_id: 1 }),
        (vec![], Call::TotalSupply { token_id: 1 }),
    ];
    let mut chain = Chain::new();
    let mut whole = Host::new(vec![]);
    let mut touched: Vec<Vec<u8>> = Vec::new();
    let mut taken = 0;
    for (signers, call) in &script {
        chain.signers = signers.clone();
        whole.witnesses = signers.clone();
        let part = chain.call(call);
        let full = invoke(&mut whole, call);
        assert_eq!(part, full, "{:?}", call);
        if full.is_ok() {
            taken += 1;
        }
        touched.extend(keys_of(call));
        for raw in &touched {
            assert!(same_record(chain.records.get(raw), whole.store.get(raw)), "{:?}", call);
        }
        assert_eq!(chain.events, whole.events);
    }
    assert_eq!(taken, 20);
    for raw in chain.records.keys() {
        assert!(touched.contains(raw));
    }
    assert_eq!(chain.events.len(), 5 + 2 + 1 + 1 + 3 + 3 + 2);
}
