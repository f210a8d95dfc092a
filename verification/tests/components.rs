use psp34::AccountId;
use psp34::AllowanceRegistry;
use psp34::AttributeStore;
use psp34::EnumerationIndex;
use psp34::Id;

fn owner() -> AccountId {
    AccountId::new(1, 0)
}

fn operator() -> AccountId {
    AccountId::new(2, 0)
}

#[test]
fn swap_and_pop_compacts_the_array() {
    // array [t1, t2, t3, t4] with positions {t1: 0, t2: 1, t3: 2, t4: 3};
    // removing t2 moves the last element into its slot:
    // array [t1, t4, t3] with positions {t1: 0, t4: 1, t3: 2}.
    let t1 = Id::U128(11);
    let t2 = Id::U128(22);
    let t3 = Id::U128(33);
    let t4 = Id::U128(44);
    let mut index = EnumerationIndex::new();
    index.add(t1.clone());
    index.add(t2.clone());
    index.add(t3.clone());
    index.add(t4.clone());
    assert_eq!(index.position_of(&t1), Some(0));
    assert_eq!(index.position_of(&t2), Some(1));
    assert_eq!(index.position_of(&t3), Some(2));
    assert_eq!(index.position_of(&t4), Some(3));
    index.remove(&t2);
    assert_eq!(index.len(), 3);
    assert_eq!(index.at(0), Some(t1.clone()));
    assert_eq!(index.at(1), Some(t4.clone()));
    assert_eq!(index.at(2), Some(t3.clone()));
    assert_eq!(index.at(3), None);
    assert_eq!(index.position_of(&t1), Some(0));
    assert_eq!(index.position_of(&t4), Some(1));
    assert_eq!(index.position_of(&t3), Some(2));
    assert_eq!(index.position_of(&t2), None);
    assert!(!index.contains(&t2));
    assert!(index.contains(&t4));
}

#[test]
fn index_bijection_holds_after_removals() {
    let mut index = EnumerationIndex::new();
    for v in 0..6u128 {
        index.add(Id::U128(v));
    }
    index.remove(&Id::U128(0));
    index.remove(&Id::U128(3));
    // every listed element's position points back at its own index
    for i in 0..index.len() {
        let id = index.at(i).unwrap();
        assert_eq!(index.position_of(&id), Some(i));
    }
}

#[test]
fn removing_the_last_element_needs_no_swap() {
    let mut index = EnumerationIndex::new();
    index.add(Id::U64(1));
    index.add(Id::U64(2));
    index.remove(&Id::U64(2));
    assert_eq!(index.len(), 1);
    assert_eq!(index.at(0), Some(Id::U64(1)));
}

#[test]
fn byte_string_identifiers_compare_by_value() {
    let a = Id::Bytes(vec![1, 2, 3]);
    let b = Id::Bytes(vec![1, 2, 3]);
    let c = Id::Bytes(vec![1, 2]);
    assert_eq!(a, b);
    assert_ne!(a, c);
    // tags matter: equal numbers under different tags are different ids
    assert_ne!(Id::U8(5), Id::U16(5));
    let mut index = EnumerationIndex::new();
    index.add(a);
    assert!(index.contains(&b));
    assert!(!index.contains(&c));
}

#[test]
fn identifier_numeric_values() {
    assert_eq!(Id::U8(7).to_u128(), Some(7));
    assert_eq!(Id::U16(300).to_u128(), Some(300));
    assert_eq!(Id::U32(70_000).to_u128(), Some(70_000));
    assert_eq!(Id::U64(5_000_000_000).to_u128(), Some(5_000_000_000));
    assert_eq!(Id::U128(u128::MAX).to_u128(), Some(u128::MAX));
    // a 16-byte string reads as a big-endian integer
    let mut bytes = vec![0u8; 16];
    bytes[14] = 0x01;
    bytes[15] = 0x02;
    assert_eq!(Id::Bytes(bytes).to_u128(), Some(0x0102));
    let all = vec![0xFFu8; 16];
    assert_eq!(Id::Bytes(all).to_u128(), Some(u128::MAX));
    // any other length has no numeric value
    assert_eq!(Id::Bytes(vec![1, 2, 3]).to_u128(), None);
    assert_eq!(Id::Bytes(vec![]).to_u128(), None);
}

#[test]
fn allowance_registry_tiers_combine() {
    let mut reg = AllowanceRegistry::new();
    let t = Id::U128(9);
    assert!(!reg.allowance(owner(), operator(), Some(&t)));
    reg.add_single(owner(), operator(), &t);
    assert!(reg.allowance(owner(), operator(), Some(&t)));
    assert!(!reg.allowance(owner(), operator(), None));
    assert!(!reg.allowance(owner(), operator(), Some(&Id::U128(8))));
    reg.remove_single(owner(), operator(), &t);
    assert!(!reg.allowance(owner(), operator(), Some(&t)));
    reg.set_blanket(owner(), operator(), true);
    // a blanket grant covers every token
    assert!(reg.allowance(owner(), operator(), Some(&t)));
    assert!(reg.allowance(owner(), operator(), Some(&Id::U128(8))));
    reg.set_blanket(owner(), operator(), false);
    assert!(!reg.allowance(owner(), operator(), Some(&t)));
}

#[test]
fn clearing_a_token_withdraws_every_single_grant_for_it() {
    let mut reg = AllowanceRegistry::new();
    let t = Id::U128(1);
    let u = Id::U128(2);
    let other = AccountId::new(3, 0);
    reg.add_single(owner(), operator(), &t);
    reg.add_single(owner(), other, &t);
    reg.add_single(owner(), operator(), &u);
    reg.clear_token(owner(), &t);
    assert!(!reg.allowance(owner(), operator(), Some(&t)));
    assert!(!reg.allowance(owner(), other, Some(&t)));
    assert!(reg.allowance(owner(), operator(), Some(&u)));
}

#[test]
fn attribute_store_overwrites_and_scopes_by_token() {
    let mut store = AttributeStore::new();
    let t = Id::U128(1);
    let u = Id::Bytes(vec![9, 9]);
    assert_eq!(store.get(&t, &b"k".to_vec()), None);
    store.set(t.clone(), b"k".to_vec(), b"v1".to_vec());
    store.set(u.clone(), b"k".to_vec(), b"other".to_vec());
    assert_eq!(store.get(&t, &b"k".to_vec()), Some(b"v1".to_vec()));
    store.set(t.clone(), b"k".to_vec(), b"v2".to_vec());
    assert_eq!(store.get(&t, &b"k".to_vec()), Some(b"v2".to_vec()));
    assert_eq!(store.get(&u, &b"k".to_vec()), Some(b"other".to_vec()));
    assert_eq!(store.get(&t, &b"missing".to_vec()), None);
}
