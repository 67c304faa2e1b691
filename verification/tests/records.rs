use oep8_token::address::Address;
use oep8_token::key::{gen_key, Key};
use oep8_token::storage::{
    allowance, balance_of, get_admin, get_name, get_next_id, get_pending_admin, get_symbol,
    get_token_url, get_total_supply, put_admin, put_allowance, put_balance, put_name, put_next_id,
    put_pending_admin, put_symbol, put_token_ids_by_owner, put_token_url, put_total_supply,
    token_ids_by_owner,
};
use oep8_token::store::{bytes_eq, copy_bytes, copy_ids, Store, Value};

fn addr(b: u8) -> Address {
    Address::new([b; 20])
}

fn le(id: u128) -> Vec<u8> {
    id.to_le_bytes().to_vec()
}

#[test]
fn fixed_keys_are_bare_ascii() {
    assert_eq!(Key::Admin.encode(), b"5".to_vec());
    assert_eq!(Key::NextId.encode(), b"6".to_vec());
    assert_eq!(Key::PendingAdmin.encode(), b"10".to_vec());
}

#[test]
fn composite_keys_are_tag_then_tuple() {
    let a = addr(0xaa);
    let b = addr(0xbb);
    let id = 0x0102_0304_0506_0708_090a_0b0c_0d0e_0f10u128;
    let with = |tag: u8, parts: &[&[u8]]| {
        let mut key = vec![1u8, tag];
        for p in parts {
            key.extend_from_slice(p);
        }
        key
    };
    assert_eq!(Key::Name(id).encode(), with(b'1', &[&le(id)]));
    assert_eq!(Key::Symbol(id).encode(), with(b'2', &[&le(id)]));
    assert_eq!(Key::Balance(id, a).encode(), with(b'3', &[&le(id), &a.bytes]));
    assert_eq!(Key::TotalSupply(id).encode(), with(b'4', &[&le(id)]));
    assert_eq!(Key::TokenUrl(id).encode(), with(b'7', &[&le(id)]));
    assert_eq!(Key::Allowance(id, a, b).encode(), with(b'8', &[&le(id), &a.bytes, &b.bytes]));
    assert_eq!(Key::TokenIds(a).encode(), with(b'9', &[&a.bytes]));
    assert_eq!(Key::Name(1).encode()[..4], [1, 0x31, 1, 0]);
    assert_eq!(Key::Name(1).encode().len(), 18);
    assert_eq!(Key::Balance(1, a).encode().len(), 38);
    assert_eq!(Key::Allowance(1, a, b).encode().len(), 58);
    assert_eq!(Key::TokenIds(a).encode().len(), 22);
}

#[test]
fn gen_key_prefixes_the_tag_with_its_length() {
    assert_eq!(gen_key(0x33, &vec![7, 8, 9]), vec![1, 0x33, 7, 8, 9]);
    assert_eq!(gen_key(0x39, &vec![]), vec![1, 0x39]);
}

#[test]
fn different_records_have_different_keys() {
    let a = addr(1);
    let b = addr(2);
    let keys = vec![
        Key::Name(1),
        Key::Name(2),
        Key::Symbol(1),
        Key::Balance(1, a),
        Key::Balance(1, b),
        Key::Balance(2, a),
        Key::TotalSupply(1),
        Key::Admin,
        Key::NextId,
        Key::TokenUrl(1),
        Key::Allowance(1, a, b),
        Key::Allowance(1, b, a),
        Key::Allowance(1, a, a),
        Key::TokenIds(a),
        Key::TokenIds(b),
        Key::PendingAdmin,
        Key::Name(0x31),
        Key::Name(0x3031),
    ];
    for i in 0..keys.len() {
        for j in 0..keys.len() {
            if i != j {
                assert_ne!(keys[i].encode(), keys[j].encode(), "{} and {}", i, j);
            }
        }
    }
}

#[test]
fn a_store_keeps_the_last_record_of_each_key() {
    let mut store = Store::new();
    assert!(!store.contains(b"k"));
    assert!(store.get(b"k").is_none());
    store.put(b"k".to_vec(), Value::Num(1));
    store.put(b"l".to_vec(), Value::Text("x".to_string()));
    store.put(b"k".to_vec(), Value::Num(2));
    assert!(store.contains(b"k"));
    assert!(matches!(store.get(b"k"), Some(Value::Num(2))));
    assert!(matches!(store.get(b"l"), Some(Value::Text(s)) if s == "x"));
    store.delete(b"k");
    assert!(!store.contains(b"k"));
    assert!(store.contains(b"l"));
    store.delete(b"k");
    store.delete(b"absent");
    assert!(store.contains(b"l"));
    assert!(!store.contains(b""));
}

#[test]
fn a_snapshot_is_independent_of_the_store() {
    let mut store = Store::new();
    store.put(b"a".to_vec(), Value::Bytes(vec![1, 2]));
    store.put(b"b".to_vec(), Value::Ids(vec![3, 4]));
    store.put(b"c".to_vec(), Value::Addr(addr(5)));
    let saved = store.snapshot();
    store.delete(b"a");
    store.put(b"b".to_vec(), Value::Num(0));
    assert!(matches!(saved.get(b"a"), Some(Value::Bytes(b)) if b == &vec![1, 2]));
    assert!(matches!(saved.get(b"b"), Some(Value::Ids(i)) if i == &vec![3, 4]));
    assert!(matches!(saved.get(b"c"), Some(Value::Addr(x)) if *x == addr(5)));
    assert!(!store.contains(b"a"));
}

#[test]
fn a_record_can_be_duplicated() {
    let v = Value::Text("abc".to_string());
    assert!(matches!(v.duplicate(), Value::Text(s) if s == "abc"));
    let v = Value::Ids(vec![9, 8]);
    assert!(matches!(v.duplicate(), Value::Ids(i) if i == vec![9, 8]));
    let v = Value::Num(77);
    assert!(matches!(v.duplicate(), Value::Num(77)));
}

#[test]
fn byte_helpers_copy_and_compare() {
    assert_eq!(copy_bytes(&[1, 2, 3]), vec![1, 2, 3]);
    assert_eq!(copy_bytes(&[]), Vec::<u8>::new());
    assert_eq!(copy_ids(&[5, 6]), vec![5u128, 6]);
    assert!(bytes_eq(&[1, 2], &[1, 2]));
    assert!(!bytes_eq(&[1, 2], &[1, 3]));
    assert!(!bytes_eq(&[1, 2], &[1, 2, 3]));
    assert!(bytes_eq(&[], &[]));
}

#[test]
fn absent_records_read_as_defaults() {
    let store = Store::new();
    let a = addr(1);
    assert!(get_admin(&store).is_zero());
    assert!(get_pending_admin(&store).is_zero());
    assert_eq!(get_next_id(&store), 1);
    assert_eq!(get_name(&store, 1), "");
    assert_eq!(get_symbol(&store, 1), "");
    assert_eq!(get_total_supply(&store, 1), 0);
    assert_eq!(get_token_url(&store, 1), Vec::<u8>::new());
    assert_eq!(balance_of(&store, &a, 1), 0);
    assert_eq!(allowance(&store, &a, &a, 1), 0);
    assert_eq!(token_ids_by_owner(&store, &a), Vec::<u128>::new());
}

#[test]
fn records_read_back_as_written() {
    let mut store = Store::new();
    let a = addr(1);
    let b = addr(2);
    put_admin(&mut store, &a);
    put_pending_admin(&mut store, &b);
    put_next_id(&mut store, 9);
    put_name(&mut store, 1, "one");
    put_symbol(&mut store, 1, "ONE");
    put_total_supply(&mut store, 1, 1000);
    put_token_url(&mut store, 1, b"u");
    put_balance(&mut store, 1, &a, 10);
    put_allowance(&mut store, &a, &b, 1, 5);
    put_token_ids_by_owner(&mut store, &a, &[1, 2]);
    assert_eq!(get_admin(&store), a);
    assert_eq!(get_pending_admin(&store), b);
    assert_eq!(get_next_id(&store), 9);
    assert_eq!(get_name(&store, 1), "one");
    assert_eq!(get_symbol(&store, 1), "ONE");
    assert_eq!(get_total_supply(&store, 1), 1000);
    assert_eq!(get_token_url(&store, 1), b"u".to_vec());
    assert_eq!(balance_of(&store, &a, 1), 10);
    assert_eq!(balance_of(&store, &b, 1), 0);
    assert_eq!(balance_of(&store, &a, 2), 0);
    assert_eq!(allowance(&store, &a, &b, 1), 5);
    assert_eq!(allowance(&store, &b, &a, 1), 0);
    assert_eq!(token_ids_by_owner(&store, &a), vec![1, 2]);
    assert_eq!(token_ids_by_owner(&store, &b), Vec::<u128>::new());
    assert_eq!(get_name(&store, 2), "");
    assert!(matches!(store.get(b"5"), Some(Value::Addr(x)) if *x == a));
    assert!(matches!(store.get(&Key::Balance(1, a).encode()), Some(Value::Num(10))));
}

#[test]
fn zero_amounts_and_empty_lists_are_not_stored() {
    let mut store = Store::new();
    let a = addr(1);
    let b = addr(2);
    put_balance(&mut store, 1, &a, 10);
    put_allowance(&mut store, &a, &b, 1, 5);
    put_token_ids_by_owner(&mut store, &a, &[1]);
    put_balance(&mut store, 1, &a, 0);
    put_allowance(&mut store, &a, &b, 1, 0);
    put_token_ids_by_owner(&mut store, &a, &[]);
    assert!(!store.contains(&Key::Balance(1, a).encode()));
    assert!(!store.contains(&Key::Allowance(1, a, b).encode()));
    assert!(!store.contains(&Key::TokenIds(a).encode()));
    put_total_supply(&mut store, 1, 0);
    assert!(store.contains(&Key::TotalSupply(1).encode()));
    put_admin(&mut store, &Address::zero());
    assert!(store.contains(&Key::Admin.encode()));
}

#[test]
fn a_record_of_another_kind_reads_as_the_default() {
    let mut store = Store::new();
    let a = addr(1);
    store.put(Key::Balance(1, a).encode(), Value::Text("ten".to_string()));
    store.put(Key::Admin.encode(), Value::Num(5));
    store.put(Key::NextId.encode(), Value::Addr(a));
    store.put(Key::Name(1).encode(), Value::Num(5));
    store.put(Key::TokenUrl(1).encode(), Value::Num(5));
    store.put(Key::TokenIds(a).encode(), Value::Num(5));
    assert_eq!(balance_of(&store, &a, 1), 0);
    assert!(get_admin(&store).is_zero());
    assert_eq!(get_next_id(&store), 1);
    assert_eq!(get_name(&store, 1), "");
    assert_eq!(get_token_url(&store, 1), Vec::<u8>::new());
    assert_eq!(token_ids_by_owner(&store, &a), Vec::<u128>::new());
}

#[test]
fn addresses_compare_by_their_bytes() {
    let mut bytes = [0u8; 20];
    assert!(Address::new(bytes).is_zero());
    assert_eq!(Address::new(bytes), Address::zero());
    bytes[19] = 1;
    assert!(!Address::new(bytes).is_zero());
    assert_ne!(Address::new(bytes), Address::zero());
    assert_eq!(Address::new(bytes), Address::new(bytes));
    assert_eq!(Address::new(bytes).bytes, bytes);
}
